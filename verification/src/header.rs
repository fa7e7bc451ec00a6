//! A parsed header value.
use crate::link::{link_models, Link, LinkModel};
use vstd::prelude::*;

verus! {

/// A collection of links, in the order in which the header names them.
#[derive(Debug, PartialEq)]
pub struct Header {
    pub links: Vec<Link>,
}

impl View for Header {
    type V = Seq<LinkModel>;

    open spec fn view(&self) -> Seq<LinkModel> {
        link_models(self.links@)
    }
}

} // verus!
