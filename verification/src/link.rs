//! Links and relation types.
use crate::param::{param_models, value_model, Param, ParamModel, Value, ValueModel};
use crate::uri::UriRef;
use url::Url;
use vstd::prelude::*;
use vstd::std_specs::convert::FromSpecImpl;

verus! {

/// A link relation type.
///
/// RFC 8288 requires a link to have a direct relation type. Reverse relations
/// are kept as link params but not handled as relation types.
#[derive(Debug, PartialEq)]
pub struct Relation(String);

impl View for Relation {
    type V = Seq<char>;

    closed spec fn view(&self) -> Seq<char> {
        self.0@
    }
}

impl Relation {
    /// The name of the relation type.
    pub fn as_str(&self) -> (text: &str)
        ensures
            text@ == self@,
    {
        self.0.as_str()
    }
}

impl Clone for Relation {
    fn clone(&self) -> (copy: Relation)
        ensures
            copy == *self,
    {
        Relation(self.0.clone())
    }
}

impl From<&str> for Relation {
    fn from(s: &str) -> (relation: Relation)
        ensures
            relation@ == s@,
    {
        Relation(s.to_owned())
    }
}

impl FromSpecImpl<&str> for Relation {
    open spec fn obeys_from_spec() -> bool {
        false
    }

    open spec fn from_spec(s: &str) -> Relation {
        arbitrary()
    }
}

impl From<String> for Relation {
    fn from(s: String) -> (relation: Relation)
        ensures
            relation@ == s@,
    {
        Relation(s)
    }
}

impl FromSpecImpl<String> for Relation {
    open spec fn obeys_from_spec() -> bool {
        false
    }

    open spec fn from_spec(s: String) -> Relation {
        arbitrary()
    }
}

/// A link, as a mathematical value.
pub ghost struct LinkModel {
    pub target: Seq<char>,
    pub context: Option<Url>,
    pub relation: Option<Seq<char>>,
    pub title: Option<ValueModel>,
    pub params: Seq<ParamModel>,
}

/// A link to a target resource.
#[derive(Debug, PartialEq)]
pub struct Link {
    pub target: UriRef,
    pub context: Option<Url>,
    pub relation: Option<Relation>,
    pub title: Option<Value>,
    pub params: Vec<Param>,
}

impl View for Link {
    type V = LinkModel;

    open spec fn view(&self) -> LinkModel {
        LinkModel {
            target: self.target@,
            context: self.context,
            relation: match self.relation {
                Some(r) => Some(r@),
                None => None,
            },
            title: value_model(self.title),
            params: param_models(self.params@),
        }
    }
}

/// The views of a list of links.
pub open spec fn link_models(links: Seq<Link>) -> Seq<LinkModel> {
    links.map_values(|l: Link| l@)
}

} // verus!
