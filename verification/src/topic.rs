//! Publish/subscribe topics.
//!
//! A topic is a named channel of the publish/subscribe overlay. Identity
//! is by name: two topics constructed from the same name compare equal,
//! and the name alone determines message routing.

use vstd::prelude::*;

verus! {

/// A named publish/subscribe channel.
pub struct NetworkTopic {
    name: String,
}

impl View for NetworkTopic {
    type V = Seq<char>;

    closed spec fn view(&self) -> Seq<char> {
        self.name@
    }
}

impl NetworkTopic {
    /// A topic with the given name.
    pub fn new(name: &str) -> (r: NetworkTopic)
        ensures
            r@ == name@,
    {
        NetworkTopic { name: name.to_owned() }
    }

    /// The topic's name.
    pub fn as_str(&self) -> (r: &str)
        ensures
            r@ == self@,
    {
        self.name.as_str()
    }

    /// Whether a message labelled with `name` is routed to this topic.
    pub fn routes(&self, name: &String) -> (r: bool)
        ensures
            r == (self@ == name@),
    {
        self.name.eq(name)
    }
}

impl PartialEq for NetworkTopic {
    fn eq(&self, other: &NetworkTopic) -> (r: bool) {
        self.name == other.name
    }
}

impl vstd::std_specs::cmp::PartialEqSpecImpl for NetworkTopic {
    open spec fn obeys_eq_spec() -> bool {
        true
    }

    open spec fn eq_spec(&self, other: &NetworkTopic) -> bool {
        self@ == other@
    }
}

} // verus!
