//! Small value types that posts are made of.

use vstd::prelude::*;

verus! {

/// A label attached to posts. Two tags are the same tag when their text is
/// the same; tags are ordered as their text is.
#[derive(Debug, Eq, PartialOrd, Ord, Hash)]
pub struct Tag(pub String);

impl View for Tag {
    type V = Seq<char>;

    open spec fn view(&self) -> Seq<char> {
        self.0@
    }
}

impl Clone for Tag {
    fn clone(&self) -> (r: Tag)
        ensures
            r == *self,
    {
        Tag(self.0.clone())
    }
}

impl PartialEq for Tag {
    fn eq(&self, other: &Tag) -> (r: bool) {
        self.0 == other.0
    }
}

impl vstd::std_specs::cmp::PartialEqSpecImpl for Tag {
    open spec fn obeys_eq_spec() -> bool {
        true
    }

    open spec fn eq_spec(&self, other: &Tag) -> bool {
        self.0@ == other.0@
    }
}

impl Default for Tag {
    fn default() -> (r: Tag)
        ensures
            r@ == Seq::<char>::empty(),
    {
        Tag(String::new())
    }
}

impl From<&String> for Tag {
    fn from(s: &String) -> (r: Tag) {
        Tag(s.clone())
    }
}

impl vstd::std_specs::convert::FromSpecImpl<&String> for Tag {
    open spec fn obeys_from_spec() -> bool {
        true
    }

    open spec fn from_spec(s: &String) -> Tag {
        Tag(*s)
    }
}

} // verus!
