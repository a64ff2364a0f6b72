//! Messages exchanged between processes.

use vstd::prelude::*;

verus! {

/// The mathematical value of a [`Message`]: its two strings as
/// sequences of characters.
#[verifier::ext_equal]
pub struct MessageV {
    /// The type tag of the message.
    pub tag: Seq<char>,
    /// The payload of the message.
    pub data: Seq<char>,
}

/// A message: a type tag and an opaque payload string.
///
/// Equality is structural on both fields.
#[derive(Debug)]
pub struct Message {
    /// The type tag of the message, e.g. `"PING"`.
    pub tag: String,
    /// The payload of the message, treated as an opaque blob.
    pub data: String,
}

impl DeepView for Message {
    type V = MessageV;

    open spec fn deep_view(&self) -> MessageV {
        MessageV { tag: self.tag@, data: self.data@ }
    }
}

impl Message {
    /// Creates a message from a tag and a payload.
    pub fn new(tag: &str, data: &str) -> (r: Message)
        ensures
            r.deep_view() == (MessageV { tag: tag@, data: data@ }),
    {
        Message { tag: tag.to_owned(), data: data.to_owned() }
    }
}

impl Clone for Message {
    /// Cloning preserves the message value.
    fn clone(&self) -> (r: Self)
        ensures
            r.deep_view() == self.deep_view(),
    {
        Message { tag: self.tag.clone(), data: self.data.clone() }
    }
}

impl PartialEq for Message {
    fn eq(&self, other: &Self) -> (r: bool) {
        self.tag == other.tag && self.data == other.data
    }
}

impl vstd::std_specs::cmp::PartialEqSpecImpl for Message {
    open spec fn obeys_eq_spec() -> bool {
        true
    }

    open spec fn eq_spec(&self, other: &Self) -> bool {
        self.deep_view() == other.deep_view()
    }
}

} // verus!
