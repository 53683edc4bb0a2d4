//! What a successful operation hands back to the host: status attributes,
//! membership-change events, and the outbound transfers the host is to
//! execute atomically with the call.

use vstd::prelude::*;
use crate::distribution::TransferInstruction;

verus! {

/// One status attribute of a response or an event.
#[derive(Clone, Debug, PartialEq, Eq)]
pub struct Attribute {
    pub key: String,
    pub value: String,
}

/// One emitted event: a type tag and its attributes.
#[derive(Clone, Debug, PartialEq, Eq)]
pub struct Event {
    pub ty: String,
    pub attributes: Vec<Attribute>,
}

/// The full reply of a mutating operation.
#[derive(Clone, Debug, PartialEq, Eq)]
pub struct Response {
    pub attributes: Vec<Attribute>,
    pub events: Vec<Event>,
    pub messages: Vec<TransferInstruction>,
}

/// The attribute has this key and this value.
pub open spec fn attr_is(a: Attribute, k: Seq<char>, v: Seq<char>) -> bool {
    a.key@ == k && a.value@ == v
}

impl Attribute {
    /// An attribute from borrowed parts.
    pub fn make(key: &str, value: String) -> (a: Attribute)
        ensures
            attr_is(a, key@, value@),
    {
        Attribute { key: key.to_owned(), value }
    }
}

impl Response {
    /// A response with nothing in it.
    pub fn new() -> (r: Response)
        ensures
            r.attributes@ == Seq::<Attribute>::empty(),
            r.events@ == Seq::<Event>::empty(),
            r.messages@ == Seq::<TransferInstruction>::empty(),
    {
        Response { attributes: Vec::new(), events: Vec::new(), messages: Vec::new() }
    }
}

} // verus!
