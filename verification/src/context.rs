//! The context of a link: the URL that an `anchor` parameter resolves to.
use url::{ParseError, Url};
use vstd::prelude::*;

verus! {

/// `url::Url`, an absolute URL. Its inside is not modelled: a value is only
/// carried from the resolver into a link.
#[verifier::external_type_specification]
#[verifier::external_body]
pub struct ExUrl(Url);

/// `url::ParseError`, the reason why a text is no URL. Nothing is read from
/// it.
#[verifier::external_type_specification]
#[verifier::external_body]
pub struct ExParseError(ParseError);

/// What `Url::parse` makes of a text: the absolute URL it denotes, if any.
pub uninterp spec fn url_parsed(text: Seq<char>) -> Option<Url>;

/// What `Url::join` makes of a reference: its resolution against `base`,
/// if the two combine into a URL at all.
pub uninterp spec fn url_joined(base: Url, reference: Seq<char>) -> Option<Url>;

/// Calls `Url::parse`. Trusted: whether it succeeds, and the URL it gives,
/// depend on the text alone.
#[verifier::external_body]
fn parse_url(text: &str) -> (parsed: Result<Url, ParseError>)
    ensures
        match parsed {
            Ok(url) => url_parsed(text@) == Some(url),
            Err(_) => url_parsed(text@) is None,
        },
{
    Url::parse(text)
}

/// Calls `Url::join`. Trusted: whether it succeeds, and the URL it gives,
/// depend on the base and the reference alone.
#[verifier::external_body]
fn join_url(base: &Url, reference: &str) -> (joined: Result<Url, ParseError>)
    ensures
        match joined {
            Ok(url) => url_joined(*base, reference@) == Some(url),
            Err(_) => url_joined(*base, reference@) is None,
        },
{
    base.join(reference)
}

/// Calls `Url::clone`. Trusted: the copy equals the URL it was made of.
#[verifier::external_body]
fn clone_url(url: &Url) -> (copy: Url)
    ensures
        copy == *url,
{
    url.clone()
}

/// A copy of an optional URL.
pub fn clone_context(context: &Option<Url>) -> (copy: Option<Url>)
    ensures
        copy == *context,
{
    match context {
        Some(url) => Some(clone_url(url)),
        None => None,
    }
}

/// The context that an anchor denotes: its resolution against the base where
/// there is one, else the anchor itself read as an absolute URL.
pub open spec fn composed_context(context: Option<Url>, anchor: Seq<char>) -> Option<Url> {
    match context {
        Some(base) => url_joined(base, anchor),
        None => url_parsed(anchor),
    }
}

/// Returns a context combined with the given anchor.
///
/// When no context is present and the anchor is not an absolute URL, the
/// result is no context.
pub fn compose_context(context: &Option<Url>, anchor: &str) -> (composed: Option<Url>)
    ensures
        composed == composed_context(*context, anchor@),
{
    let resolved = match context {
        Some(base) => join_url(base, anchor),
        None => parse_url(anchor),
    };
    match resolved {
        Ok(url) => Some(url),
        Err(_) => None,
    }
}

} // verus!
