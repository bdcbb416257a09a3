use std::any::TypeId;

use bytes::Bytes;
use corgi::container::{descriptor_name, Param, RpcFunction};
use corgi::dispatch::Dispatcher;
use corgi::protocol::types::{Envelope, RpcCall, RpcError};
use corgi::Container;

fn function(name: &'static str, handler: u32) -> &'static RpcFunction<u32> {
    Box::leak(Box::new(RpcFunction {
        name,
        params: vec![Param { name: "a", type_id: TypeId::of::<i32>() }],
        return_type: Some(TypeId::of::<i32>()),
        handler,
    }))
}

fn procedure(name: &'static str, handler: u32) -> &'static RpcFunction<u32> {
    Box::leak(Box::new(RpcFunction { name, params: vec![], return_type: None, handler }))
}

fn call(name: &'static [u8]) -> RpcCall {
    RpcCall::new(1, Envelope::new(Bytes::from_static(name), vec![]))
}

#[test]
fn empty_registry_finds_nothing() {
    let container: Container<u32> = Container::default();

    assert_eq!(container.len(), 0);
    assert!(container.find("add").is_none());
    assert!(container.find("").is_none());
}

#[test]
fn registered_function_is_found() {
    let mut container = Container::new();
    container.register(function("add", 1));
    container.register(function("sub", 2));

    assert_eq!(container.len(), 2);
    assert_eq!(container.find("add").unwrap().handler, 1);
    assert_eq!(container.find("sub").unwrap().handler, 2);
    assert_eq!(container.find("add").unwrap().name, "add");
    assert!(container.find("mul").is_none());
    assert!(container.find("ad").is_none());
    assert!(container.find("addd").is_none());
}

#[test]
fn first_registration_wins() {
    let mut container = Container::new();
    container.register(function("add", 1));
    container.register(procedure("add", 2));

    assert_eq!(container.len(), 1);
    let found = container.find("add").unwrap();
    assert_eq!(found.handler, 1);
    assert_eq!(found.params.len(), 1);
    assert_eq!(found.return_type, Some(TypeId::of::<i32>()));
}

#[test]
fn registering_the_same_function_twice_keeps_one_entry() {
    let add = function("add", 1);
    let mut container = Container::new();
    container.register(add);
    container.register(add);
    container.register(function("sub", 2));
    container.register(add);

    assert_eq!(container.len(), 2);
    assert_eq!(container.find("add").unwrap().handler, 1);
}

#[test]
fn functions_are_found_by_the_bytes_of_their_name() {
    let mut container = Container::new();
    container.register(function("grüße", 1));

    assert_eq!(container.find_bytes("grüße".as_bytes()).unwrap().handler, 1);
    assert!(container.find_bytes(b"gr").is_none());
    assert!(container.find_bytes(&[0xff, 0xfe]).is_none());
}

#[test]
fn dispatch_of_unregistered_function() {
    let mut container = Container::new();
    container.register(function("add", 1));
    let dispatcher = Dispatcher::new(&container);

    assert!(matches!(dispatcher.resolve(&call(b"mul")), Err(RpcError::UnknownFunction)));
    assert!(matches!(dispatcher.resolve(&call(b"")), Err(RpcError::UnknownFunction)));
    assert!(matches!(dispatcher.resolve(&call(&[0xff])), Err(RpcError::UnknownFunction)));
}

#[test]
fn dispatch_on_empty_registry() {
    let container: Container<u32> = Container::new();
    let dispatcher = Dispatcher::new(&container);

    assert!(matches!(dispatcher.resolve(&call(b"add")), Err(RpcError::UnknownFunction)));
}

#[test]
fn dispatch_of_registered_function() {
    let mut container = Container::new();
    container.register(function("add", 1));
    container.register(procedure("log", 2));
    let dispatcher = Dispatcher::new(&container);

    assert_eq!(dispatcher.resolve(&call(b"add")).unwrap().handler, 1);
    assert_eq!(dispatcher.resolve(&call(b"log")).unwrap().handler, 2);
}

#[test]
fn response_of_function_with_return_type_is_its_result() {
    let container: Container<u32> = Container::new();
    let dispatcher = Dispatcher::new(&container);
    let response =
        dispatcher.respond(function("add", 1), Ok(Bytes::from_static(&[9, 0, 0, 0]))).unwrap();

    assert_eq!(&response[..], &[9, 0, 0, 0]);
}

#[test]
fn response_of_function_without_return_type_is_empty() {
    let container: Container<u32> = Container::new();
    let dispatcher = Dispatcher::new(&container);
    let response =
        dispatcher.respond(procedure("log", 2), Ok(Bytes::from_static(b"ignored"))).unwrap();

    assert!(response.is_empty());
}

#[test]
fn response_to_failed_handler_is_its_error() {
    let container: Container<u32> = Container::new();
    let dispatcher = Dispatcher::new(&container);

    assert!(matches!(
        dispatcher.respond(function("add", 1), Err(RpcError::Decode)),
        Err(RpcError::Decode)
    ));
    assert!(matches!(
        dispatcher.respond(procedure("log", 2), Err(RpcError::Encode)),
        Err(RpcError::Encode)
    ));
}

#[test]
fn descriptor_is_named_after_its_function() {
    assert_eq!(descriptor_name("foo_empty_args"), "__CORGI_RPC_foo_empty_args");
    assert_eq!(descriptor_name(""), "__CORGI_RPC_");
}
