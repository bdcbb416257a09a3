//! The registry: the functions that can be called, by name.
//!
//! It is filled once, before the first call is served, and only read after
//! that. A name is registered once: registering a second function under a
//! name that is taken changes nothing.

use std::any::TypeId;
use vstd::prelude::*;
use vstd::string::StringExecFns;
use vstd::string::StringSliceAdditionalSpecFns;

verus! {

/// `std::any::TypeId`, which stands for the type of a parameter or of a
/// result.
#[verifier::external_type_specification]
#[verifier::external_body]
pub struct ExTypeId(TypeId);

/// One formal parameter of a registered function.
#[derive(Debug, Clone, Copy)]
pub struct Param {
    pub name: &'static str,
    pub type_id: TypeId,
}

/// What the registry knows of one function: its name, its parameters in
/// order, the type it returns if it returns anything, and the handler that
/// runs it. The registry never looks into the handler.
#[derive(Clone)]
pub struct RpcFunction<H> {
    pub name: &'static str,
    pub params: Vec<Param>,
    pub return_type: Option<TypeId>,
    pub handler: H,
}

/// The name under which the descriptor of the function `fn_name` is kept as
/// a static: the name of the function behind a fixed prefix.
pub fn descriptor_name(fn_name: &str) -> (r: String)
    ensures
        r@ == "__CORGI_RPC_"@ + fn_name@,
{
    String::from_str("__CORGI_RPC_").concat(fn_name)
}

/// The first of `entries` that goes by `name`.
pub open spec fn lookup<H>(entries: Seq<&'static RpcFunction<H>>, name: Seq<u8>) -> Option<
    &'static RpcFunction<H>,
>
    decreases entries.len(),
{
    if entries.len() == 0 {
        None
    } else if entries.first().name.spec_bytes() == name {
        Some(entries.first())
    } else {
        lookup(entries.drop_first(), name)
    }
}

/// The entries after `function` has been registered: it is added at the end
/// unless its name is taken.
pub open spec fn registered<H>(
    entries: Seq<&'static RpcFunction<H>>,
    function: &'static RpcFunction<H>,
) -> Seq<&'static RpcFunction<H>> {
    if lookup(entries, function.name.spec_bytes()) is Some {
        entries
    } else {
        entries.push(function)
    }
}

/// No two of `entries` go by the same name.
pub open spec fn names_distinct<H>(entries: Seq<&'static RpcFunction<H>>) -> bool {
    forall|i: int, j: int|
        0 <= i < j < entries.len() ==> (#[trigger] entries[i]).name.spec_bytes() != (
        #[trigger] entries[j]).name.spec_bytes()
}

/// `lookup` finds an entry exactly when one goes by the name, and what it
/// finds goes by the name.
pub proof fn lemma_lookup<H>(entries: Seq<&'static RpcFunction<H>>, name: Seq<u8>)
    ensures
        lookup(entries, name) is Some <==> exists|i: int|
            0 <= i < entries.len() && (#[trigger] entries[i]).name.spec_bytes() == name,
        lookup(entries, name) is Some ==> entries.contains(lookup(entries, name)->Some_0)
            && lookup(entries, name)->Some_0.name.spec_bytes() == name,
    decreases entries.len(),
{
    if entries.len() > 0 {
        let rest = entries.drop_first();
        lemma_lookup(rest, name);
        assert(entries.first() == entries[0]);
        if entries.first().name.spec_bytes() != name {
            if lookup(rest, name) is Some {
                let i = choose|i: int|
                    0 <= i < rest.len() && (#[trigger] rest[i]).name.spec_bytes() == name;
                assert(entries[i + 1] == rest[i]);
                assert(rest.contains(lookup(rest, name)->Some_0));
                let k = choose|k: int|
                    0 <= k < rest.len() && rest[k] == lookup(rest, name)->Some_0;
                assert(entries[k + 1] == rest[k]);
            } else {
                assert forall|i: int| 0 <= i < entries.len() implies (
                #[trigger] entries[i]).name.spec_bytes() != name by {
                    if i > 0 {
                        assert(rest[i - 1] == entries[i]);
                    }
                }
            }
        }
    }
}

/// What is found after a registration: under a name that was taken, what
/// was found before; under the new function's name, that function; under
/// any other name, nothing.
pub proof fn lemma_lookup_registered<H>(
    entries: Seq<&'static RpcFunction<H>>,
    function: &'static RpcFunction<H>,
    name: Seq<u8>,
)
    ensures
        lookup(registered(entries, function), name) == if lookup(entries, name) is Some {
            lookup(entries, name)
        } else if function.name.spec_bytes() == name {
            Some(function)
        } else {
            None
        },
    decreases entries.len(),
{
    if lookup(entries, function.name.spec_bytes()) is None {
        if entries.len() > 0 {
            let rest = entries.drop_first();
            assert(entries.push(function).first() == entries.first());
            assert(entries.push(function).drop_first() =~= rest.push(function));
            lemma_lookup_registered(rest, function, name);
        } else {
            assert(entries.push(function).first() == function);
            assert(entries.push(function).drop_first() =~= entries);
        }
    }
}

/// Registration is idempotent, and the first registration wins. After two
/// functions have been registered under one name, the entries are what they
/// were after the first; the name finds what it found then; and one entry
/// goes by the name, no more.
pub proof fn lemma_first_registration_wins<H>(
    entries: Seq<&'static RpcFunction<H>>,
    first: &'static RpcFunction<H>,
    second: &'static RpcFunction<H>,
)
    requires
        names_distinct(entries),
        first.name@ == second.name@,
    ensures
        registered(registered(entries, first), second) == registered(entries, first),
        lookup(registered(entries, first), first.name.spec_bytes()) is Some,
        lookup(entries, first.name.spec_bytes()) is None ==> lookup(
            registered(registered(entries, first), second),
            first.name.spec_bytes(),
        ) == Some(first),
        names_distinct(registered(entries, first)),
{
    lemma_lookup_registered(entries, first, first.name.spec_bytes());
    lemma_registered_names_distinct(entries, first);
}

/// Registration keeps the names distinct.
pub proof fn lemma_registered_names_distinct<H>(
    entries: Seq<&'static RpcFunction<H>>,
    function: &'static RpcFunction<H>,
)
    requires
        names_distinct(entries),
    ensures
        names_distinct(registered(entries, function)),
{
    lemma_lookup(entries, function.name.spec_bytes());
}

/// Whether two byte strings are the same.
fn same_bytes(a: &[u8], b: &[u8]) -> (r: bool)
    ensures
        r == (a@ == b@),
{
    if a.len() != b.len() {
        return false;
    }
    let mut i: usize = 0;
    while i < a.len()
        invariant
            i <= a@.len(),
            a@.len() == b@.len(),
            forall|k: int| 0 <= k < i ==> a@[k] == b@[k],
        decreases a@.len() - i,
    {
        if a[i] != b[i] {
            return false;
        }
        i += 1;
    }
    assert(a@ =~= b@);
    true
}

/// The functions that can be called, in the order of their registration.
pub struct Container<H: 'static> {
    functions: Vec<&'static RpcFunction<H>>,
}

impl<H: 'static> View for Container<H> {
    type V = Seq<&'static RpcFunction<H>>;

    closed spec fn view(&self) -> Seq<&'static RpcFunction<H>> {
        self.functions@
    }
}

impl<H: 'static> Container<H> {
    /// No name is registered twice, at all times.
    #[verifier::type_invariant]
    spec fn well_formed(self) -> bool {
        names_distinct(self@)
    }

    /// A registry without functions.
    pub fn new() -> (r: Self)
        ensures
            r@ == Seq::<&'static RpcFunction<H>>::empty(),
    {
        Container { functions: Vec::new() }
    }

    /// The number of registered functions. No two of them go by the same
    /// name.
    pub fn len(&self) -> (r: usize)
        ensures
            r == self@.len(),
            names_distinct(self@),
    {
        proof {
            use_type_invariant(self);
        }
        self.functions.len()
    }

    /// The function registered under the name whose bytes are `name`.
    pub fn find_bytes(&self, name: &[u8]) -> (r: Option<&'static RpcFunction<H>>)
        ensures
            r == lookup(self@, name@),
    {
        let mut i: usize = 0;
        assert(self@.skip(0) =~= self@);
        while i < self.functions.len()
            invariant
                i <= self.functions@.len(),
                lookup(self@, name@) == lookup(self@.skip(i as int), name@),
            decreases self.functions@.len() - i,
        {
            let function = self.functions[i];
            proof {
                assert(self@.skip(i as int).first() == function);
                assert(self@.skip(i as int).drop_first() =~= self@.skip(i + 1));
            }
            if same_bytes(function.name.as_bytes(), name) {
                return Some(function);
            }
            i += 1;
        }
        None
    }

    /// Registers `function` under its name, unless the name is taken: the
    /// first registration of a name stays.
    pub fn register(&mut self, function: &'static RpcFunction<H>)
        ensures
            final(self)@ == registered(old(self)@, function),
            names_distinct(old(self)@),
            names_distinct(final(self)@),
    {
        proof {
            use_type_invariant(&*self);
            lemma_registered_names_distinct(self@, function);
        }
        if self.find_bytes(function.name.as_bytes()).is_none() {
            // The list is changed outside the registry and put back, so that
            // the names are distinct whenever the registry can be seen.
            let mut functions: Vec<&'static RpcFunction<H>> = Vec::new();
            core::mem::swap(&mut self.functions, &mut functions);
            functions.push(function);
            core::mem::swap(&mut self.functions, &mut functions);
        }
    }

    /// The function registered under `name`.
    pub fn find(&self, name: &str) -> (r: Option<&'static RpcFunction<H>>)
        ensures
            r == lookup(self@, name.spec_bytes()),
    {
        self.find_bytes(name.as_bytes())
    }
}

impl<H: 'static> Default for Container<H> {
    fn default() -> (r: Self)
        ensures
            r@ == Seq::<&'static RpcFunction<H>>::empty(),
    {
        Container::new()
    }
}

} // verus!
