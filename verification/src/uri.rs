//! Target URI-references.
use vstd::prelude::*;
use vstd::std_specs::convert::FromSpecImpl;

verus! {

/// The target of a link: a URI-reference kept as opaque text.
#[derive(Debug, PartialEq)]
pub struct UriRef(String);

impl View for UriRef {
    type V = Seq<char>;

    closed spec fn view(&self) -> Seq<char> {
        self.0@
    }
}

impl UriRef {
    /// The text of the reference.
    pub fn as_str(&self) -> (text: &str)
        ensures
            text@ == self@,
    {
        self.0.as_str()
    }
}

impl From<String> for UriRef {
    fn from(s: String) -> (uri: UriRef)
        ensures
            uri@ == s@,
    {
        UriRef(s)
    }
}

impl FromSpecImpl<String> for UriRef {
    open spec fn obeys_from_spec() -> bool {
        false
    }

    open spec fn from_spec(s: String) -> UriRef {
        arbitrary()
    }
}

impl From<&str> for UriRef {
    fn from(s: &str) -> (uri: UriRef)
        ensures
            uri@ == s@,
    {
        UriRef(s.to_owned())
    }
}

impl FromSpecImpl<&str> for UriRef {
    open spec fn obeys_from_spec() -> bool {
        false
    }

    open spec fn from_spec(s: &str) -> UriRef {
        arbitrary()
    }
}

} // verus!
