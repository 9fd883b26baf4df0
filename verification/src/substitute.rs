//! A number written into a path, and the URL put together again around the
//! new path.

use vstd::prelude::*;
use crate::components::{parse_url, parsed_url, ParsedUrl, UrlComponents, UrlComponentsView};
use crate::decimal::{zero_pad, zero_padded};
use crate::error::EnumerationError;

verus! {

/// `path` with the characters `start..=end` replaced by `number`, padded
/// with zeros to `width`.
pub open spec fn substituted_path(
    path: Seq<char>,
    start: int,
    end: int,
    width: nat,
    number: nat,
) -> Seq<char> {
    path.take(start) + zero_padded(number, width) + path.skip(end + 1)
}

/// What follows the path in a URL: the question mark and the query, or
/// nothing where there is no query.
pub open spec fn query_suffix(query: Option<Seq<char>>) -> Seq<char> {
    match query {
        Some(q) => seq!['?'] + q,
        None => Seq::empty(),
    }
}

/// The URL with the scheme, host and query of `url` around `path`.
pub open spec fn reassembled(url: UrlComponentsView, path: Seq<char>) -> Seq<char> {
    url.scheme + seq![':', '/', '/'] + url.host + path + query_suffix(url.query)
}

/// The URL that stands for `number`: `url` with `number` in place of the
/// characters `start..=end` of its path.
pub open spec fn candidate_url(
    url: UrlComponentsView,
    start: int,
    end: int,
    width: nat,
    number: nat,
) -> Seq<char> {
    reassembled(url, substituted_path(url.path, start, end, width, number))
}

/// Writes `number`, padded with zeros to `padding` characters, in place of
/// the characters `start_index..=end_index` of `path`.
pub fn substitute_path(
    path: &str,
    number: usize,
    start_index: usize,
    end_index: usize,
    padding: usize,
) -> (r: String)
    requires
        start_index <= end_index < path@.len(),
    ensures
        r@ == substituted_path(
            path@,
            start_index as int,
            end_index as int,
            padding as nat,
            number as nat,
        ),
{
    let length: usize = path.unicode_len();
    let mut out = String::from_str(path.substring_char(0, start_index));
    let written = zero_pad(number, padding);
    out.append(written.as_str());
    out.append(path.substring_char(end_index + 1, length));
    assert(path@.subrange(0, start_index as int) == path@.take(start_index as int));
    assert(path@.subrange(end_index + 1, length as int) == path@.skip(end_index + 1));
    out
}

/// Puts the scheme, host and query of `url` around `path`.
pub fn reassemble_url(url: &UrlComponents, path: &str) -> (r: String)
    ensures
        r@ == reassembled(url@, path@),
{
    let mut out = String::from_str(url.scheme.as_str());
    out.append("://");
    out.append(url.host.as_str());
    out.append(path);
    match &url.query {
        Some(q) => {
            out.append("?");
            out.append(q.as_str());
        },
        None => {},
    }
    proof {
        reveal_strlit("://");
        reveal_strlit("?");
        assert("://"@ =~= seq![':', '/', '/']);
        assert("?"@ =~= seq!['?']);
        assert(out@ =~= reassembled(url@, path@));
    }
    out
}

/// Decides on a URL that was put together, given what the parser made of
/// it: the URL itself where the parser accepted it, a failure where it did
/// not.
pub fn accept_candidate(candidate: String, parsed: Option<ParsedUrl>) -> (r: Result<
    String,
    EnumerationError,
>)
    ensures
        match r {
            Ok(accepted) => parsed is Some && accepted == candidate,
            Err(e) => parsed is None && e == EnumerationError::InternalReassemblyFailure,
        },
{
    match parsed {
        Some(_) => Ok(candidate),
        None => Err(EnumerationError::InternalReassemblyFailure),
    }
}

/// The URL that stands for `number`: `number`, padded with zeros to
/// `padding` characters, takes the place of the characters
/// `start_index..=end_index` of the path, and scheme, host and query go
/// around the new path as they were. The URL is handed out only if the
/// parser accepts it.
pub fn generate_new_url(
    url: &UrlComponents,
    number: usize,
    start_index: usize,
    end_index: usize,
    padding: usize,
) -> (r: Result<String, EnumerationError>)
    requires
        start_index <= end_index < url.path@.len(),
    ensures
        match r {
            Ok(new_url) => {
                &&& new_url@ == candidate_url(
                    url@,
                    start_index as int,
                    end_index as int,
                    padding as nat,
                    number as nat,
                )
                &&& parsed_url(new_url@) is Some
            },
            Err(e) => {
                &&& e == EnumerationError::InternalReassemblyFailure
                &&& parsed_url(
                    candidate_url(
                        url@,
                        start_index as int,
                        end_index as int,
                        padding as nat,
                        number as nat,
                    ),
                ) is None
            },
        },
{
    let new_path = substitute_path(url.path.as_str(), number, start_index, end_index, padding);
    let candidate = reassemble_url(url, new_path.as_str());
    let parsed = parse_url(candidate.as_str());
    accept_candidate(candidate, parsed)
}

} // verus!
