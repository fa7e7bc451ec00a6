//! The reduction of a token tree to links.
use crate::context::{clone_context, compose_context, composed_context};
use crate::error::ParserError;
use crate::grammar::{
    header_shaped, is_param_part, lemma_syntax_tree_shaped, link_shaped, param_shaped,
    syntax_tree, Node, Pair, Rfc8288Parser, Rule,
};
use crate::header::Header;
use crate::link::{link_models, Link, LinkModel, Relation};
use crate::param::{
    encoding_of, extended_value, param_models, text_model, value_model, Encoding, EncodingModel,
    Param, ParamModel, Value, ValueModel,
};
use crate::text::{lowercased, space_tokens, split_spaces, texts, to_lowercase};
use crate::uri::UriRef;
use url::Url;
use vstd::prelude::*;
use vstd::string::*;

verus! {

/// The parameter name `rel`.
pub open spec fn rel_name() -> Seq<char> {
    seq!['r', 'e', 'l']
}

/// The parameter name `anchor`.
pub open spec fn anchor_name() -> Seq<char> {
    seq!['a', 'n', 'c', 'h', 'o', 'r']
}

/// The parameter name `title`.
pub open spec fn title_name() -> Seq<char> {
    seq!['t', 'i', 't', 'l', 'e']
}

/// What a [`LinkBuilder`] has collected, as a mathematical value.
pub ghost struct BuilderModel {
    pub target: Seq<char>,
    /// The context that the links inherit.
    pub context: Option<Url>,
    /// The context that the first `anchor` resolved to, if it did.
    pub anchored_context: Option<Url>,
    /// Whether an `anchor` with a value has been seen.
    pub anchor_seen: bool,
    /// Whether a `rel` with a value has been seen.
    pub rel_seen: bool,
    pub relations: Seq<Seq<char>>,
    pub title: Option<ValueModel>,
    pub params: Seq<ParamModel>,
}

impl BuilderModel {
    /// The builder of a link that inherits `context`, before any input.
    pub open spec fn start(context: Option<Url>) -> BuilderModel {
        BuilderModel {
            target: Seq::empty(),
            context,
            anchored_context: None,
            anchor_seen: false,
            rel_seen: false,
            relations: Seq::empty(),
            title: None,
            params: Seq::empty(),
        }
    }

    /// The target grows by the given text.
    pub open spec fn set_target(self, target: Seq<char>) -> BuilderModel {
        BuilderModel { target: self.target + target, ..self }
    }

    /// The parameter is kept, behind those kept before.
    pub open spec fn add_param(self, param: ParamModel) -> BuilderModel {
        BuilderModel { params: self.params.push(param), ..self }
    }

    /// The first `rel` gives the relation types, one per token of its wire
    /// form; any later one is kept as a parameter.
    pub open spec fn set_rel(self, value: ValueModel) -> BuilderModel {
        if !self.rel_seen {
            BuilderModel { rel_seen: true, relations: space_tokens(value.wire()), ..self }
        } else {
            self.add_param(ParamModel { name: rel_name(), value: Some(value) })
        }
    }

    /// The first `anchor` gives the context if it composes with the inherited
    /// one; that one if it does not, and any later one, is kept as a
    /// parameter.
    pub open spec fn set_anchor(self, value: ValueModel) -> BuilderModel {
        let kept = self.add_param(ParamModel { name: anchor_name(), value: Some(value) });
        if !self.anchor_seen {
            match composed_context(self.context, value.wire()) {
                Some(url) => BuilderModel {
                    anchor_seen: true,
                    anchored_context: Some(url),
                    ..self
                },
                None => BuilderModel { anchor_seen: true, ..kept },
            }
        } else {
            kept
        }
    }

    /// The first title is the title, unless it is simple and a compound one
    /// follows: then the compound one takes its place and the simple one is
    /// kept as a parameter. Every other title is kept as a parameter.
    pub open spec fn set_title(self, value: ValueModel) -> BuilderModel {
        match self.title {
            None => BuilderModel { title: Some(value), ..self },
            Some(current) => {
                if current is Simple && value is Compound {
                    BuilderModel {
                        title: Some(value),
                        params: self.params.push(
                            ParamModel { name: title_name(), value: Some(current) },
                        ),
                        ..self
                    }
                } else {
                    self.add_param(ParamModel { name: title_name(), value: Some(value) })
                }
            },
        }
    }

    /// Classifies a parameter by its lower-cased name: `rel`, `anchor` and
    /// `title` with a value go to their setters, anything else is kept.
    pub open spec fn reduce(self, param: ParamModel) -> BuilderModel {
        let name = lowercased(param.name);
        match param.value {
            Some(value) => {
                if name == rel_name() {
                    self.set_rel(value)
                } else if name == anchor_name() {
                    self.set_anchor(value)
                } else if name == title_name() {
                    self.set_title(value)
                } else {
                    self.add_param(param)
                }
            },
            None => self.add_param(param),
        }
    }

    /// The context of the links: the anchored one if there is one, else the
    /// inherited one.
    pub open spec fn link_context(self) -> Option<Url> {
        if self.anchored_context is Some {
            self.anchored_context
        } else {
            self.context
        }
    }

    /// The link for one relation type, or for none.
    pub open spec fn link(self, relation: Option<Seq<char>>) -> LinkModel {
        LinkModel {
            target: self.target,
            context: self.link_context(),
            relation,
            title: self.title,
            params: self.params,
        }
    }

    /// One link without a relation type if none was collected, else one link
    /// per relation type, in their order. All share the other fields.
    pub open spec fn build(self) -> Seq<LinkModel> {
        if self.relations.len() == 0 {
            seq![self.link(None)]
        } else {
            Seq::new(self.relations.len(), |i: int| self.link(Some(self.relations[i])))
        }
    }
}

/// Collects attributes and params for a set of links.
#[derive(Debug, Clone)]
pub struct LinkBuilder {
    target: String,
    context: Option<Url>,
    anchored_context: Option<Url>,
    anchor_seen: bool,
    rel_seen: bool,
    relations: Vec<String>,
    title: Option<Value>,
    params: Vec<Param>,
}

impl View for LinkBuilder {
    type V = BuilderModel;

    closed spec fn view(&self) -> BuilderModel {
        BuilderModel {
            target: self.target@,
            context: self.context,
            anchored_context: self.anchored_context,
            anchor_seen: self.anchor_seen,
            rel_seen: self.rel_seen,
            relations: texts(self.relations@),
            title: value_model(self.title),
            params: param_models(self.params@),
        }
    }
}

/// A copy of a list of parameters.
fn clone_params(params: &Vec<Param>) -> (copy: Vec<Param>)
    ensures
        copy@ == params@,
{
    let mut copy: Vec<Param> = Vec::new();
    let mut i: usize = 0;
    while i < params.len()
        invariant
            i <= params@.len(),
            copy@ == params@.take(i as int),
        decreases params@.len() - i,
    {
        copy.push(params[i].clone());
        i = i + 1;
        assert(copy@ =~= params@.take(i as int));
    }
    assert(params@.take(i as int) =~= params@);
    copy
}

/// A copy of an optional text.
fn clone_text(text: &Option<String>) -> (copy: Option<String>)
    ensures
        copy == *text,
{
    match text {
        Some(t) => Some(t.clone()),
        None => None,
    }
}

/// A copy of an optional value.
fn clone_value(value: &Option<Value>) -> (copy: Option<Value>)
    ensures
        copy == *value,
{
    match value {
        Some(v) => Some(v.clone()),
        None => None,
    }
}

impl LinkBuilder {
    /// Starts the collection for one link, which inherits `context`.
    pub fn new(context: Option<Url>) -> (builder: LinkBuilder)
        ensures
            builder@ == BuilderModel::start(context),
    {
        let builder = LinkBuilder {
            target: String::new(),
            context,
            anchored_context: None,
            anchor_seen: false,
            rel_seen: false,
            title: None,
            params: Vec::new(),
            relations: Vec::new(),
        };
        assert(builder@.relations =~= Seq::empty());
        assert(builder@.params =~= Seq::empty());
        builder
    }

    /// Appends to the target of the link.
    pub fn set_target(&mut self, target: &str)
        ensures
            final(self)@ == old(self)@.set_target(target@),
    {
        self.target.append(target);
    }

    /// Appends a parameter to the kept ones.
    fn keep(&mut self, name: &str, value: Value)
        ensures
            final(self)@ == old(self)@.add_param(
                ParamModel { name: name@, value: Some(value@) },
            ),
    {
        self.add_param(Param::new(name, Some(value)));
    }

    /// Takes an anchor value: the first one gives the context if it composes
    /// with the inherited one; any other is kept as a parameter.
    pub fn set_anchor(&mut self, value: Value)
        ensures
            final(self)@ == old(self)@.set_anchor(value@),
    {
        proof {
            reveal_strlit("anchor");
            assert("anchor"@ =~= anchor_name());
        }
        if !self.anchor_seen {
            self.anchor_seen = true;
            let wire = value.to_string();
            match compose_context(&self.context, wire.as_str()) {
                Some(url) => {
                    self.anchored_context = Some(url);
                },
                None => {
                    // The anchor does not compose with the context: it is
                    // kept as a parameter, so that nothing is lost.
                    self.keep("anchor", value);
                },
            }
        } else {
            self.keep("anchor", value);
        }
    }

    /// Takes a title value: it becomes the title if there is none yet, or if
    /// it is compound and the title so far is simple, which then is kept as a
    /// parameter; else it is kept as a parameter itself.
    pub fn set_title(&mut self, value: Value)
        ensures
            final(self)@ == old(self)@.set_title(value@),
    {
        proof {
            reveal_strlit("title");
            assert("title"@ =~= title_name());
        }
        let demoted = match &self.title {
            Some(current) => {
                if current.is_simple() && value.is_compound() {
                    Some(current.clone())
                } else {
                    None
                }
            },
            None => None,
        };
        if self.title.is_none() {
            self.title = Some(value);
        } else {
            match demoted {
                Some(current) => {
                    self.keep("title", current);
                    self.title = Some(value);
                },
                None => {
                    self.keep("title", value);
                },
            }
        }
    }

    /// Takes a rel value and either sets it as a list of rel tokens or keeps
    /// it as a parameter.
    pub fn set_rel(&mut self, value: Value)
        ensures
            final(self)@ == old(self)@.set_rel(value@),
    {
        proof {
            reveal_strlit("rel");
            assert("rel"@ =~= rel_name());
        }
        if !self.rel_seen {
            self.rel_seen = true;
            let wire = value.to_string();
            self.relations = split_spaces(wire.as_str());
        } else {
            self.keep("rel", value);
        }
    }

    /// Keeps a parameter, behind those kept before.
    pub fn add_param(&mut self, param: Param)
        ensures
            final(self)@ == old(self)@.add_param(param@),
    {
        let ghost before = self.params@;
        self.params.push(param);
        assert(param_models(self.params@) =~= param_models(before).push(param@));
    }

    /// Feeds one parameter of the link to the builder, by its name.
    pub fn reduce(&mut self, param: Param)
        ensures
            final(self)@ == old(self)@.reduce(param@),
    {
        proof {
            reveal_strlit("rel");
            reveal_strlit("anchor");
            reveal_strlit("title");
            assert("rel"@ =~= rel_name());
            assert("anchor"@ =~= anchor_name());
            assert("title"@ =~= title_name());
        }
        let name = to_lowercase(param.name());
        let is_rel = name == String::from_str("rel");
        let is_anchor = name == String::from_str("anchor");
        let is_title = name == String::from_str("title");
        let value = clone_value(param.value());
        match value {
            Some(value) => {
                if is_rel {
                    self.set_rel(value)
                } else if is_anchor {
                    self.set_anchor(value)
                } else if is_title {
                    self.set_title(value)
                } else {
                    self.add_param(param)
                }
            },
            None => self.add_param(param),
        }
    }

    /// Ends the collection: one link per relation type, or one link without
    /// a relation type where there is none.
    pub fn build(self) -> (links: Vec<Link>)
        ensures
            link_models(links@) == self@.build(),
    {
        let mut links: Vec<Link> = Vec::new();
        let context = match self.anchored_context {
            Some(url) => Some(url),
            None => self.context,
        };
        if self.relations.len() == 0 {
            links.push(
                Link {
                    target: UriRef::from(self.target),
                    context,
                    relation: None,
                    title: self.title,
                    params: self.params,
                },
            );
            assert(link_models(links@) =~= self@.build());
            return links;
        }
        let mut i: usize = 0;
        while i < self.relations.len()
            invariant
                i <= self.relations@.len(),
                context == self@.link_context(),
                links@.len() == i,
                forall|k: int|
                    0 <= k < i ==> (#[trigger] links@[k])@ == self@.link(
                        Some(self.relations@[k]@),
                    ),
            decreases self.relations@.len() - i,
        {
            links.push(
                Link {
                    target: UriRef::from(self.target.clone()),
                    context: clone_context(&context),
                    relation: Some(Relation::from(self.relations[i].clone())),
                    title: clone_value(&self.title),
                    params: clone_params(&self.params),
                },
            );
            i = i + 1;
        }
        assert(link_models(links@) =~= self@.build());
        links
    }
}

/// What the children of a param node have given so far.
pub ghost struct ParamParts {
    pub name: Seq<char>,
    pub value: Option<ValueModel>,
    pub encoding: Option<EncodingModel>,
    pub language: Option<Seq<char>>,
}

/// The effect of one child of a param node. A name extends the name; a token
/// or quoted value is a simple value; an encoding and a language (none, if
/// it is empty) are noted for the percent-encoded value that follows, which
/// they make an extended value. `DecodeError` where that one does not decode.
pub open spec fn param_step(parts: ParamParts, child: Node) -> Result<ParamParts, ParserError> {
    match child.rule {
        Rule::Name => Ok(ParamParts { name: parts.name + child.text, ..parts }),
        Rule::TokenValue | Rule::QuotedValue => Ok(
            ParamParts { value: Some(ValueModel::Simple(child.text)), ..parts },
        ),
        Rule::Encoding => Ok(ParamParts { encoding: Some(encoding_of(child.text)), ..parts }),
        Rule::Language => Ok(
            ParamParts {
                language: if child.text.len() == 0 {
                    None
                } else {
                    Some(child.text)
                },
                ..parts
            },
        ),
        Rule::PctValue => match parts.encoding {
            Some(encoding) => match extended_value(encoding, parts.language, child.text) {
                Some(value) => Ok(ParamParts { value: Some(value), ..parts }),
                None => Err(ParserError::DecodeError),
            },
            None => Ok(parts),
        },
        _ => Ok(parts),
    }
}

/// What the first `n` children of a param node give, or the first error.
pub open spec fn param_parts(children: Seq<Node>, n: int) -> Result<ParamParts, ParserError>
    decreases n,
{
    if n <= 0 {
        Ok(ParamParts { name: Seq::empty(), value: None, encoding: None, language: None })
    } else {
        match param_parts(children, n - 1) {
            Ok(parts) => param_step(parts, children[n - 1]),
            Err(e) => Err(e),
        }
    }
}

/// The parameter that a node denotes: `InvalidRule` unless it is a param
/// node, `DecodeError` if a UTF-8 value does not decode, else its name and value.
pub open spec fn param_of(node: Node) -> Result<ParamModel, ParserError> {
    if node.rule != Rule::Param {
        Err(ParserError::InvalidRule(Rule::Param, node.rule))
    } else {
        match param_parts(node.inner, node.inner.len() as int) {
            Ok(parts) => Ok(ParamModel { name: parts.name, value: parts.value }),
            Err(e) => Err(e),
        }
    }
}

/// The effect of one child of a link node on the builder.
pub open spec fn link_step(builder: BuilderModel, child: Node) -> Result<
    BuilderModel,
    ParserError,
> {
    if child.rule == Rule::Target {
        Ok(builder.set_target(child.text))
    } else {
        match param_of(child) {
            Ok(param) => Ok(builder.reduce(param)),
            Err(e) => Err(e),
        }
    }
}

/// The builder after the first `n` children of a link node, or the first
/// error.
pub open spec fn link_parts(children: Seq<Node>, n: int, context: Option<Url>) -> Result<
    BuilderModel,
    ParserError,
>
    decreases n,
{
    if n <= 0 {
        Ok(BuilderModel::start(context))
    } else {
        match link_parts(children, n - 1, context) {
            Ok(builder) => link_step(builder, children[n - 1]),
            Err(e) => Err(e),
        }
    }
}

/// The links that a node denotes: `InvalidRule` unless it is a link node,
/// the error of its first failing param if there is one, else what the
/// builder builds from its children.
pub open spec fn links_of(node: Node, context: Option<Url>) -> Result<
    Seq<LinkModel>,
    ParserError,
> {
    if node.rule != Rule::Link {
        Err(ParserError::InvalidRule(Rule::Link, node.rule))
    } else {
        match link_parts(node.inner, node.inner.len() as int, context) {
            Ok(builder) => Ok(builder.build()),
            Err(e) => Err(e),
        }
    }
}

/// The links of the first `n` children of a header node, in order, or the
/// first error.
pub open spec fn header_parts(children: Seq<Node>, n: int, context: Option<Url>) -> Result<
    Seq<LinkModel>,
    ParserError,
>
    decreases n,
{
    if n <= 0 {
        Ok(Seq::empty())
    } else {
        match header_parts(children, n - 1, context) {
            Ok(links) => if children[n - 1].rule == Rule::Link {
                match links_of(children[n - 1], context) {
                    Ok(more) => Ok(links + more),
                    Err(e) => Err(e),
                }
            } else {
                Ok(links)
            },
            Err(e) => Err(e),
        }
    }
}

/// The links that a node denotes: `InvalidRule` unless it is a header node,
/// the error of its first failing link if there is one, else the links of
/// all its link nodes, in order.
pub open spec fn header_of(node: Node, context: Option<Url>) -> Result<
    Seq<LinkModel>,
    ParserError,
> {
    if node.rule != Rule::Header {
        Err(ParserError::InvalidRule(Rule::Header, node.rule))
    } else {
        header_parts(node.inner, node.inner.len() as int, context)
    }
}

/// An error among the first `n` children is the error of the whole.
proof fn lemma_param_error_stays(children: Seq<Node>, n: int, m: int)
    requires
        0 <= n <= m,
        param_parts(children, n) is Err,
    ensures
        param_parts(children, m) == param_parts(children, n),
    decreases m - n,
{
    if n < m {
        lemma_param_error_stays(children, n, m - 1);
    }
}

/// An error among the first `n` children is the error of the whole.
proof fn lemma_link_error_stays(children: Seq<Node>, n: int, m: int, context: Option<Url>)
    requires
        0 <= n <= m,
        link_parts(children, n, context) is Err,
    ensures
        link_parts(children, m, context) == link_parts(children, n, context),
    decreases m - n,
{
    if n < m {
        lemma_link_error_stays(children, n, m - 1, context);
    }
}

/// An error among the first `n` children is the error of the whole.
proof fn lemma_header_error_stays(children: Seq<Node>, n: int, m: int, context: Option<Url>)
    requires
        0 <= n <= m,
        header_parts(children, n, context) is Err,
    ensures
        header_parts(children, m, context) == header_parts(children, n, context),
    decreases m - n,
{
    if n < m {
        lemma_header_error_stays(children, n, m - 1, context);
    }
}

/// Reads a param node: its name and, if it has one, its value.
pub fn collect_param(pair: &Pair) -> (result: Result<Param, ParserError>)
    requires
        pair@.rule == Rule::Param ==> param_shaped(pair@),
    ensures
        match result {
            Ok(param) => param_of(pair@) == Ok::<ParamModel, ParserError>(param@),
            Err(e) => param_of(pair@) == Err::<ParamModel, ParserError>(e),
        },
{
    if pair.rule != Rule::Param {
        return Err(ParserError::InvalidRule(Rule::Param, pair.rule));
    }
    let mut name = String::new();
    let mut value: Option<Value> = None;
    let mut encoding: Option<Encoding> = None;
    let mut language: Option<String> = None;
    let ghost children = pair@.inner;
    let mut i: usize = 0;
    while i < pair.inner.len()
        invariant
            i <= pair.inner@.len(),
            children == pair@.inner,
            children.len() == pair.inner@.len(),
            pair@.rule == Rule::Param,
            param_shaped(pair@),
            forall|j: int| 0 <= j < i && children[j].rule == Rule::Encoding ==> encoding is Some,
            param_parts(children, i as int) == Ok::<ParamParts, ParserError>(
                ParamParts {
                    name: name@,
                    value: value_model(value),
                    encoding: match encoding {
                        Some(e) => Some(e@),
                        None => None,
                    },
                    language: text_model(language),
                },
            ),
        decreases pair.inner@.len() - i,
    {
        let child = &pair.inner[i];
        assert(children[i as int] == child@);
        assert(is_param_part(children[i as int].rule));
        match child.rule {
            Rule::Name => name.append(child.text.as_str()),
            Rule::TokenValue => {
                value = Some(Value::Simple(child.text.clone()));
            },
            Rule::QuotedValue => {
                value = Some(Value::Simple(child.text.clone()));
            },
            Rule::Encoding => {
                encoding = Some(Encoding::from(child.text.as_str()));
            },
            Rule::Language => {
                language = if child.text.as_str().is_empty() {
                    None
                } else {
                    Some(child.text.clone())
                };
            },
            Rule::PctValue => {
                match &encoding {
                    Some(encoding) => {
                        let decoded = Value::extended(
                            encoding.clone(),
                            clone_text(&language),
                            child.text.as_str(),
                        );
                        match decoded {
                            Some(v) => {
                                value = Some(v);
                            },
                            None => {
                                proof {
                                    lemma_param_error_stays(
                                        children,
                                        i + 1,
                                        children.len() as int,
                                    );
                                }
                                return Err(ParserError::DecodeError);
                            },
                        }
                    },
                    None => {},
                }
            },
            _ => {},
        }
        i = i + 1;
    }
    Ok(Param::new(name.as_str(), value))
}

/// Collects the links of a link node: its target and its params go through a
/// [`LinkBuilder`], which builds one link per relation type.
pub fn collect_links(pair: &Pair, context: Option<Url>) -> (result: Result<Vec<Link>, ParserError>)
    requires
        pair@.rule == Rule::Link ==> link_shaped(pair@),
    ensures
        match result {
            Ok(links) => links_of(pair@, context) == Ok::<Seq<LinkModel>, ParserError>(
                link_models(links@),
            ),
            Err(e) => links_of(pair@, context) == Err::<Seq<LinkModel>, ParserError>(e),
        },
{
    if pair.rule != Rule::Link {
        return Err(ParserError::InvalidRule(Rule::Link, pair.rule));
    }
    let mut builder = LinkBuilder::new(context);
    let ghost children = pair@.inner;
    let mut i: usize = 0;
    while i < pair.inner.len()
        invariant
            i <= pair.inner@.len(),
            children == pair@.inner,
            children.len() == pair.inner@.len(),
            pair@.rule == Rule::Link,
            link_shaped(pair@),
            link_parts(children, i as int, context) == Ok::<BuilderModel, ParserError>(builder@),
        decreases pair.inner@.len() - i,
    {
        let child = &pair.inner[i];
        assert(children[i as int] == child@);
        if child.rule == Rule::Target {
            builder.set_target(child.text.as_str());
        } else {
            match collect_param(child) {
                Ok(param) => builder.reduce(param),
                Err(e) => {
                    proof {
                        lemma_link_error_stays(children, i + 1, children.len() as int, context);
                    }
                    return Err(e);
                },
            }
        }
        i = i + 1;
    }
    Ok(builder.build())
}

/// Collects the links of a header node: those of each of its link nodes, in
/// the order of the nodes.
pub fn collect_header(pair: &Pair, context: Option<Url>) -> (result: Result<Header, ParserError>)
    requires
        pair@.rule == Rule::Header ==> header_shaped(pair@),
    ensures
        match result {
            Ok(header) => header_of(pair@, context) == Ok::<Seq<LinkModel>, ParserError>(
                header@,
            ),
            Err(e) => header_of(pair@, context) == Err::<Seq<LinkModel>, ParserError>(e),
        },
{
    if pair.rule != Rule::Header {
        return Err(ParserError::InvalidRule(Rule::Header, pair.rule));
    }
    let mut links: Vec<Link> = Vec::new();
    let ghost children = pair@.inner;
    let mut i: usize = 0;
    assert(link_models(links@) =~= Seq::empty());
    while i < pair.inner.len()
        invariant
            i <= pair.inner@.len(),
            children == pair@.inner,
            children.len() == pair.inner@.len(),
            pair@.rule == Rule::Header,
            header_shaped(pair@),
            header_parts(children, i as int, context) == Ok::<Seq<LinkModel>, ParserError>(
                link_models(links@),
            ),
        decreases pair.inner@.len() - i,
    {
        let child = &pair.inner[i];
        assert(children[i as int] == child@);
        if child.rule == Rule::Link {
            match collect_links(child, clone_context(&context)) {
                Ok(mut more) => {
                    let ghost before = links@;
                    let ghost added = more@;
                    links.append(&mut more);
                    assert(link_models(links@) =~= link_models(before) + link_models(added));
                },
                Err(e) => {
                    proof {
                        lemma_header_error_stays(children, i + 1, children.len() as int, context);
                    }
                    return Err(e);
                },
            }
        }
        i = i + 1;
    }
    Ok(Header { links })
}

/// The links that a header value denotes: `Syntax` where the value is not a
/// list of links, else what its token tree denotes.
pub open spec fn parsed(text: Seq<char>, context: Option<Url>) -> Result<
    Seq<LinkModel>,
    ParserError,
> {
    match syntax_tree(text) {
        Some(tree) => header_of(tree, context),
        None => Err(ParserError::Syntax),
    }
}

/// Parses the value of a `Link` header field. The links inherit `context`
/// unless an `anchor` parameter gives them another.
pub fn parse(input: &str, context: Option<Url>) -> (result: Result<Header, ParserError>)
    ensures
        match result {
            Ok(header) => parsed(input@, context) == Ok::<Seq<LinkModel>, ParserError>(header@),
            Err(e) => parsed(input@, context) == Err::<Seq<LinkModel>, ParserError>(e),
        },
{
    match Rfc8288Parser::parse(input) {
        Ok(tree) => collect_header(&tree, context),
        Err(e) => Err(e),
    }
}

/// Building gives one link without a relation type where no relation type
/// was collected, else one link per relation type, in their order; every
/// link carries the builder's target, context, title and params.
pub proof fn lemma_build_explodes(builder: BuilderModel)
    ensures
        builder.build().len() >= 1,
        builder.relations.len() == 0 ==> builder.build() == seq![builder.link(None)],
        builder.relations.len() > 0 ==> builder.build().len() == builder.relations.len(),
        forall|i: int|
            0 <= i < builder.build().len() ==> {
                let link = #[trigger] builder.build()[i];
                &&& link.target == builder.target
                &&& link.context == builder.link_context()
                &&& link.title == builder.title
                &&& link.params == builder.params
                &&& builder.relations.len() > 0 ==> link.relation == Some(builder.relations[i])
            },
{
}

/// Of two `rel` values the first gives the relation types and the second is
/// kept as a parameter.
pub proof fn lemma_extra_rel_is_kept(builder: BuilderModel, first: ValueModel, second: ValueModel)
    requires
        !builder.rel_seen,
    ensures
        ({
            let after = builder.set_rel(first).set_rel(second);
            &&& after.relations == space_tokens(first.wire())
            &&& after.params == builder.params.push(
                ParamModel { name: rel_name(), value: Some(second) },
            )
        }),
{
}

/// A compound title that follows a simple first title takes its place, and
/// the simple one is kept as a parameter. No later title displaces the
/// compound one: each is kept as a parameter.
pub proof fn lemma_compound_title_wins(
    builder: BuilderModel,
    simple: Seq<char>,
    compound: ValueModel,
    later: ValueModel,
)
    requires
        builder.title is None,
        compound is Compound,
    ensures
        ({
            let after = builder.set_title(ValueModel::Simple(simple)).set_title(compound);
            &&& after.title == Some(compound)
            &&& after.params == builder.params.push(
                ParamModel { name: title_name(), value: Some(ValueModel::Simple(simple)) },
            )
            &&& after.set_title(later).title == Some(compound)
            &&& after.set_title(later).params == after.params.push(
                ParamModel { name: title_name(), value: Some(later) },
            )
        }),
{
}

/// The first `anchor` gives the links their context if it composes with
/// the inherited one, and leaves the params as they are; if it does not
/// compose, the links keep the inherited context and the anchor is kept as
/// a parameter.
pub proof fn lemma_first_anchor(builder: BuilderModel, value: ValueModel)
    requires
        !builder.anchor_seen,
        builder.anchored_context is None,
    ensures
        ({
            let after = builder.set_anchor(value);
            match composed_context(builder.context, value.wire()) {
                Some(url) => after.link_context() == Some(url) && after.params == builder.params,
                None => after.link_context() == builder.context && after.params
                    == builder.params.push(
                    ParamModel { name: anchor_name(), value: Some(value) },
                ),
            }
        }),
{
}

/// Any `anchor` after the first is kept as a parameter and leaves the
/// context as it is, whether or not it would compose.
pub proof fn lemma_later_anchor_is_kept(builder: BuilderModel, value: ValueModel)
    requires
        builder.anchor_seen,
    ensures
        ({
            let after = builder.set_anchor(value);
            &&& after.link_context() == builder.link_context()
            &&& after.params == builder.params.push(
                ParamModel { name: anchor_name(), value: Some(value) },
            )
        }),
{
}

/// No parameter that was kept is ever dropped: reducing a further param
/// leaves the kept ones in place and at most appends one.
pub proof fn lemma_params_are_kept(builder: BuilderModel, param: ParamModel)
    ensures
        ({
            let after = builder.reduce(param);
            &&& builder.params.len() <= after.params.len() <= builder.params.len() + 1
            &&& after.params.take(builder.params.len() as int) == builder.params
        }),
{
    let after = builder.reduce(param);
    assert(after.params.take(builder.params.len() as int) =~= builder.params);
}

/// A node that is not a link node is refused as such, whatever it holds.
pub proof fn lemma_invalid_rule(node: Node, context: Option<Url>)
    ensures
        node.rule != Rule::Link ==> links_of(node, context) == Err::<
            Seq<LinkModel>,
            ParserError,
        >(ParserError::InvalidRule(Rule::Link, node.rule)),
        node.rule != Rule::Param ==> param_of(node) == Err::<ParamModel, ParserError>(
            ParserError::InvalidRule(Rule::Param, node.rule),
        ),
        node.rule != Rule::Header ==> header_of(node, context) == Err::<
            Seq<LinkModel>,
            ParserError,
        >(ParserError::InvalidRule(Rule::Header, node.rule)),
{
}

/// The children of a param node fail only where a value does not decode.
proof fn lemma_param_parts_error(children: Seq<Node>, n: int)
    ensures
        param_parts(children, n) matches Err(e) ==> e == ParserError::DecodeError,
    decreases n,
{
    if n > 0 {
        lemma_param_parts_error(children, n - 1);
    }
}

/// The children of a well-shaped link node fail only where a value does not
/// decode.
proof fn lemma_link_parts_error(node: Node, n: int, context: Option<Url>)
    requires
        link_shaped(node),
        n <= node.inner.len(),
    ensures
        link_parts(node.inner, n, context) matches Err(e) ==> e == ParserError::DecodeError,
    decreases n,
{
    if n > 0 {
        lemma_link_parts_error(node, n - 1, context);
        let child = node.inner[n - 1];
        lemma_param_parts_error(child.inner, child.inner.len() as int);
    }
}

/// The children of a well-shaped header node fail only where a value does
/// not decode.
proof fn lemma_header_parts_error(node: Node, n: int, context: Option<Url>)
    requires
        header_shaped(node),
        n <= node.inner.len(),
    ensures
        header_parts(node.inner, n, context) matches Err(e) ==> e == ParserError::DecodeError,
    decreases n,
{
    if n > 0 {
        lemma_header_parts_error(node, n - 1, context);
        let child = node.inner[n - 1];
        if child.rule == Rule::Link {
            lemma_link_parts_error(child, child.inner.len() as int, context);
        }
    }
}

/// A header value fails only as text that is no list of links or on a value
/// that does not decode: a misplaced node never comes of the grammar.
pub proof fn lemma_parse_errors(text: Seq<char>, context: Option<Url>)
    ensures
        parsed(text, context) matches Err(e) ==> e == ParserError::Syntax || e
            == ParserError::DecodeError,
{
    lemma_syntax_tree_shaped(text);
    match syntax_tree(text) {
        Some(tree) => lemma_header_parts_error(tree, tree.inner.len() as int, context),
        None => {},
    }
}

} // verus!
