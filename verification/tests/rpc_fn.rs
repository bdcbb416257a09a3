use std::any::TypeId;
use std::sync::{Arc, LazyLock};

use bytes::Bytes;
use corgi::codec::BincodeCodec;
use corgi::container::{descriptor_name, Param, RpcFunction};
use corgi::protocol::types::RpcError;
use futures::future::BoxFuture;
use futures::FutureExt;

type Handler =
    Arc<dyn Fn(Bytes, BincodeCodec) -> BoxFuture<'static, Result<Bytes, RpcError>> + Send + Sync>;

#[test]
fn rpc_fn_should_create_rpc_function_instance_with_zero_arguments_fn() {
    async fn foo_empty_args() {}

    #[allow(non_upper_case_globals)]
    static __CORGI_RPC_foo_empty_args: LazyLock<RpcFunction<Handler>> =
        LazyLock::new(|| RpcFunction {
            name: "foo_empty_args",
            params: vec![],
            return_type: None,
            handler: Arc::new(|bytes: Bytes, codec: BincodeCodec| {
                async move {
                    let () = codec.decode(wincode::deserialize(&bytes))?;
                    foo_empty_args().await;
                    Ok(Bytes::new())
                }
                .boxed()
            }),
        });

    assert_eq!(__CORGI_RPC_foo_empty_args.name, "foo_empty_args");
    assert!(__CORGI_RPC_foo_empty_args.params.is_empty());
    assert!(__CORGI_RPC_foo_empty_args.return_type.is_none());
}

#[test]
fn rpc_fn_should_create_rpc_function_instance_with_one_arguments_fn() {
    async fn foo_one_arg(arg: i32) {
        println!("{arg}");
    }

    #[allow(non_upper_case_globals)]
    static __CORGI_RPC_foo_one_arg: LazyLock<RpcFunction<Handler>> =
        LazyLock::new(|| RpcFunction {
            name: "foo_one_arg",
            params: vec![Param { name: "arg", type_id: TypeId::of::<i32>() }],
            return_type: None,
            handler: Arc::new(|bytes: Bytes, codec: BincodeCodec| {
                async move {
                    let arg: i32 = codec.decode(wincode::deserialize(&bytes))?;
                    foo_one_arg(arg).await;
                    Ok(Bytes::new())
                }
                .boxed()
            }),
        });

    assert_eq!(__CORGI_RPC_foo_one_arg.name, "foo_one_arg");
    assert!(!__CORGI_RPC_foo_one_arg.params.is_empty());
    assert_eq!(__CORGI_RPC_foo_one_arg.params[0].name, "arg",);
    assert_eq!(
        __CORGI_RPC_foo_one_arg.params[0].type_id,
        TypeId::of::<i32>()
    );
    assert!(__CORGI_RPC_foo_one_arg.return_type.is_none());
}

#[test]
fn rpc_fn_should_create_rpc_function_instance_with_multiple_arguments_fn() {
    async fn foo_multiple_args(arg1: i32, arg2: i32) {
        println!("{arg1}-{arg2}");
    }

    #[allow(non_upper_case_globals)]
    static __CORGI_RPC_foo_multiple_args: LazyLock<RpcFunction<Handler>> =
        LazyLock::new(|| RpcFunction {
            name: "foo_multiple_args",
            params: vec![
                Param { name: "arg1", type_id: TypeId::of::<i32>() },
                Param { name: "arg2", type_id: TypeId::of::<i32>() },
            ],
            return_type: None,
            handler: Arc::new(|bytes: Bytes, codec: BincodeCodec| {
                async move {
                    let args: (i32, i32) = codec.decode(wincode::deserialize(&bytes))?;
                    let (arg1, arg2) = args;
                    foo_multiple_args(arg1, arg2).await;
                    Ok(Bytes::new())
                }
                .boxed()
            }),
        });

    assert_eq!(__CORGI_RPC_foo_multiple_args.name, "foo_multiple_args");
    assert!(!__CORGI_RPC_foo_multiple_args.params.is_empty());
    assert_eq!(__CORGI_RPC_foo_multiple_args.params[0].name, "arg1");
    assert_eq!(
        __CORGI_RPC_foo_multiple_args.params[0].type_id,
        TypeId::of::<i32>()
    );

    assert_eq!(__CORGI_RPC_foo_multiple_args.params[1].name, "arg2");
    assert_eq!(
        __CORGI_RPC_foo_multiple_args.params[1].type_id,
        TypeId::of::<i32>()
    );
    assert!(__CORGI_RPC_foo_multiple_args.return_type.is_none());
}

#[test]
fn rpc_fn_should_create_rpc_function_instance_with_multiple_arguments_fn_with_return_type() {
    async fn foo_multiple_args_return_type(arg1: i32, arg2: i32) -> i32 {
        arg1 + arg2
    }

    #[allow(non_upper_case_globals)]
    static __CORGI_RPC_foo_multiple_args_return_type: LazyLock<RpcFunction<Handler>> =
        LazyLock::new(|| RpcFunction {
            name: "foo_multiple_args_return_type",
            params: vec![
                Param { name: "arg1", type_id: TypeId::of::<i32>() },
                Param { name: "arg2", type_id: TypeId::of::<i32>() },
            ],
            return_type: Some(TypeId::of::<i32>()),
            handler: Arc::new(|bytes: Bytes, codec: BincodeCodec| {
                async move {
                    let args: (i32, i32) = codec.decode(wincode::deserialize(&bytes))?;
                    let (arg1, arg2) = args;
                    let result = foo_multiple_args_return_type(arg1, arg2).await;
                    codec.encode(wincode::serialize(&result))
                }
                .boxed()
            }),
        });

    assert_eq!(
        __CORGI_RPC_foo_multiple_args_return_type.name,
        "foo_multiple_args_return_type"
    );
    assert!(!__CORGI_RPC_foo_multiple_args_return_type.params.is_empty());
    assert_eq!(
        __CORGI_RPC_foo_multiple_args_return_type.params[0].name,
        "arg1"
    );
    assert_eq!(
        __CORGI_RPC_foo_multiple_args_return_type.params[0].type_id,
        TypeId::of::<i32>()
    );

    assert_eq!(
        __CORGI_RPC_foo_multiple_args_return_type.params[1].name,
        "arg2"
    );
    assert_eq!(
        __CORGI_RPC_foo_multiple_args_return_type.params[1].type_id,
        TypeId::of::<i32>()
    );
    assert_eq!(
        __CORGI_RPC_foo_multiple_args_return_type.return_type,
        Some(TypeId::of::<i32>())
    );
}

struct Arg1(String);

#[test]
fn rpc_fn_should_create_rpc_function_instance_with_custom_multiple_arguments_fn_with_custom_return_type()
 {
    struct Arg2(String);

    struct ReturnType {
        _data: String,
        _data2: String,
    }

    async fn foo_custom_multiple_args_custom_return_type(arg1: Arg1, arg2: Arg2) -> ReturnType {
        ReturnType {
            _data: arg1.0,
            _data2: arg2.0,
        }
    }

    #[allow(non_upper_case_globals)]
    static __CORGI_RPC_foo_custom_multiple_args_custom_return_type: LazyLock<
        RpcFunction<Handler>,
    > = LazyLock::new(|| RpcFunction {
        name: "foo_custom_multiple_args_custom_return_type",
        params: vec![
            Param { name: "arg1", type_id: TypeId::of::<Arg1>() },
            Param { name: "arg2", type_id: TypeId::of::<Arg2>() },
        ],
        return_type: Some(TypeId::of::<ReturnType>()),
        handler: Arc::new(|bytes: Bytes, codec: BincodeCodec| {
            async move {
                let args: (String, String) = codec.decode(wincode::deserialize(&bytes))?;
                let (arg1, arg2) = args;
                let result =
                    foo_custom_multiple_args_custom_return_type(Arg1(arg1), Arg2(arg2)).await;
                codec.encode(wincode::serialize(&(result._data, result._data2)))
            }
            .boxed()
        }),
    });

    assert_eq!(
        __CORGI_RPC_foo_custom_multiple_args_custom_return_type.name,
        "foo_custom_multiple_args_custom_return_type"
    );
    assert!(
        !__CORGI_RPC_foo_custom_multiple_args_custom_return_type
            .params
            .is_empty()
    );
    assert_eq!(
        __CORGI_RPC_foo_custom_multiple_args_custom_return_type.params[0].name,
        "arg1"
    );
    assert_eq!(
        __CORGI_RPC_foo_custom_multiple_args_custom_return_type.params[0].type_id,
        TypeId::of::<Arg1>()
    );

    assert_eq!(
        __CORGI_RPC_foo_custom_multiple_args_custom_return_type.params[1].name,
        "arg2"
    );
    assert_eq!(
        __CORGI_RPC_foo_custom_multiple_args_custom_return_type.params[1].type_id,
        TypeId::of::<Arg2>()
    );
    assert_eq!(
        __CORGI_RPC_foo_custom_multiple_args_custom_return_type.return_type,
        Some(TypeId::of::<ReturnType>())
    );

    let codec = BincodeCodec;
    let input_bytes =
        codec.encode(wincode::serialize(&("a".to_string(), "b".to_string()))).unwrap();
    let handler = __CORGI_RPC_foo_custom_multiple_args_custom_return_type.handler.clone();
    let result_bytes = futures::executor::block_on(handler(input_bytes, codec)).unwrap();
    let result: (String, String) = codec.decode(wincode::deserialize(&result_bytes)).unwrap();
    assert_eq!(result, ("a".to_string(), "b".to_string()));
}

#[test]
fn test_rpc_execution() {
    async fn foo_multiple_args_return_type(arg1: i32, arg2: i32) -> i32 {
        arg1 + arg2
    }

    #[allow(non_upper_case_globals)]
    static __CORGI_RPC_foo_multiple_args_return_type: LazyLock<RpcFunction<Handler>> =
        LazyLock::new(|| RpcFunction {
            name: "foo_multiple_args_return_type",
            params: vec![
                Param { name: "arg1", type_id: TypeId::of::<i32>() },
                Param { name: "arg2", type_id: TypeId::of::<i32>() },
            ],
            return_type: Some(TypeId::of::<i32>()),
            handler: Arc::new(|bytes: Bytes, codec: BincodeCodec| {
                async move {
                    let args: (i32, i32) = codec.decode(wincode::deserialize(&bytes))?;
                    let (arg1, arg2) = args;
                    let result = foo_multiple_args_return_type(arg1, arg2).await;
                    codec.encode(wincode::serialize(&result))
                }
                .boxed()
            }),
        });

    let codec = BincodeCodec;

    let args = (10_i32, 20_i32);
    let input_bytes = codec.encode(wincode::serialize(&args)).unwrap();

    let handler = __CORGI_RPC_foo_multiple_args_return_type.handler.clone();
    let result_bytes = futures::executor::block_on(handler(input_bytes, codec.clone())).unwrap();

    let result: i32 = codec.decode(wincode::deserialize(&result_bytes)).unwrap();
    assert_eq!(result, 30);
}

#[test]
fn handler_without_return_type_answers_with_nothing() {
    async fn log(_line: i32) {}

    let handler: Handler = Arc::new(|bytes: Bytes, codec: BincodeCodec| {
        async move {
            let line: i32 = codec.decode(wincode::deserialize(&bytes))?;
            log(line).await;
            Ok(Bytes::new())
        }
        .boxed()
    });
    let codec = BincodeCodec;
    let input_bytes = codec.encode(wincode::serialize(&7_i32)).unwrap();
    let result_bytes = futures::executor::block_on(handler(input_bytes, codec)).unwrap();

    assert!(result_bytes.is_empty());
}

#[test]
fn handler_refuses_arguments_it_cannot_decode() {
    let handler: Handler = Arc::new(|bytes: Bytes, codec: BincodeCodec| {
        async move {
            let value: i32 = codec.decode(wincode::deserialize(&bytes))?;
            codec.encode(wincode::serialize(&value))
        }
        .boxed()
    });
    let result = futures::executor::block_on(handler(Bytes::from_static(&[1, 2]), BincodeCodec));

    assert!(matches!(result, Err(RpcError::Decode)));
}

#[test]
fn descriptor_static_is_named_after_its_function() {
    assert_eq!(descriptor_name("foo_empty_args"), "__CORGI_RPC_foo_empty_args");
    assert_eq!(descriptor_name("foo_one_arg"), "__CORGI_RPC_foo_one_arg");
}
