//! The parts of a URL, as the URL parser reads them off a text.

use vstd::prelude::*;
use crate::error::EnumerationError;

verus! {

/// What the URL parser reads off a text that it accepts: the scheme without
/// its colon, the host if there is one, the path, and the query without its
/// question mark if there is one.
#[derive(Clone, Debug, PartialEq, Eq)]
pub struct ParsedUrl {
    pub scheme: String,
    pub host: Option<String>,
    pub path: String,
    pub query: Option<String>,
}

/// A `ParsedUrl` as plain sequences of characters.
pub struct ParsedUrlView {
    pub scheme: Seq<char>,
    pub host: Option<Seq<char>>,
    pub path: Seq<char>,
    pub query: Option<Seq<char>>,
}

/// The parts of the URL that is enumerated. The query is held without its
/// question mark.
#[derive(Clone, Debug, PartialEq, Eq)]
pub struct UrlComponents {
    pub scheme: String,
    pub host: String,
    pub path: String,
    pub query: Option<String>,
}

/// `UrlComponents` as plain sequences of characters.
pub struct UrlComponentsView {
    pub scheme: Seq<char>,
    pub host: Seq<char>,
    pub path: Seq<char>,
    pub query: Option<Seq<char>>,
}

/// The characters of a text that may be absent.
pub open spec fn optional_text(text: Option<String>) -> Option<Seq<char>> {
    match text {
        Some(t) => Some(t@),
        None => None,
    }
}

impl View for ParsedUrl {
    type V = ParsedUrlView;

    open spec fn view(&self) -> ParsedUrlView {
        ParsedUrlView {
            scheme: self.scheme@,
            host: optional_text(self.host),
            path: self.path@,
            query: optional_text(self.query),
        }
    }
}

impl View for UrlComponents {
    type V = UrlComponentsView;

    open spec fn view(&self) -> UrlComponentsView {
        UrlComponentsView {
            scheme: self.scheme@,
            host: self.host@,
            path: self.path@,
            query: optional_text(self.query),
        }
    }
}

/// What `url::Url::parse` makes of `input`: `None` where it refuses the
/// text, else the parts that `scheme`, `host_str`, `path` and `query` give of
/// the URL it returns.
pub uninterp spec fn parsed_url(input: Seq<char>) -> Option<ParsedUrlView>;

/// Calls `url::Url::parse` on `input` and copies out what the accessors
/// `scheme`, `host_str`, `path` and `query` return. Nothing is claimed of the
/// outcome but that it is the one that `parsed_url` names for this text.
#[verifier::external_body]
pub(crate) fn parse_url(input: &str) -> (r: Option<ParsedUrl>)
    ensures
        match r {
            Some(parts) => parsed_url(input@) == Some(parts@),
            None => parsed_url(input@) is None,
        },
{
    match ::url::Url::parse(input) {
        Ok(parsed) => Some(
            ParsedUrl {
                scheme: parsed.scheme().to_string(),
                host: parsed.host_str().map(str::to_string),
                path: parsed.path().to_string(),
                query: parsed.query().map(str::to_string),
            },
        ),
        Err(_) => None,
    }
}

/// The components that stand for a parsed URL with a host.
pub open spec fn components_of(parts: ParsedUrlView) -> UrlComponentsView
    recommends
        parts.host is Some,
{
    UrlComponentsView {
        scheme: parts.scheme,
        host: parts.host->0,
        path: parts.path,
        query: parts.query,
    }
}

/// Whether a text is a URL that can be enumerated as far as its form goes:
/// the parser accepts it and finds a host in it.
pub open spec fn is_input_url(input: Seq<char>) -> bool {
    parsed_url(input) matches Some(parts) && parts.host is Some
}

/// Turns what the parser made of a text into the components to enumerate.
/// A text that the parser refused, and a URL without a host, are malformed
/// input.
pub fn components_from_parsed(parsed: Option<ParsedUrl>) -> (r: Result<
    UrlComponents,
    EnumerationError,
>)
    ensures
        match r {
            Ok(url) => parsed matches Some(parts) && parts@.host is Some && url@ == components_of(
                parts@,
            ),
            Err(e) => e == EnumerationError::MalformedInputUrl && !(parsed matches Some(parts)
                && parts@.host is Some),
        },
{
    match parsed {
        Some(parts) => {
            let ghost seen = parts@;
            match parts.host {
                Some(host) => {
                    let url = UrlComponents {
                        scheme: parts.scheme,
                        host,
                        path: parts.path,
                        query: parts.query,
                    };
                    assert(url@ == components_of(seen));
                    Ok(url)
                },
                None => Err(EnumerationError::MalformedInputUrl),
            }
        },
        None => Err(EnumerationError::MalformedInputUrl),
    }
}

/// Parses `input` into the components to enumerate.
pub fn parse_components(input: &str) -> (r: Result<UrlComponents, EnumerationError>)
    ensures
        match r {
            Ok(url) => is_input_url(input@) && url@ == components_of(parsed_url(input@)->0),
            Err(e) => e == EnumerationError::MalformedInputUrl && !is_input_url(input@),
        },
{
    components_from_parsed(parse_url(input))
}

} // verus!
