//! The sequence of URLs for a range of numbers.

use vstd::prelude::*;
use crate::components::{components_of, is_input_url, parse_components, parsed_url};
use crate::components::{UrlComponents, UrlComponentsView};
use crate::digits::{enumeration_position, find_enumeration_position, has_qualifying_run};
use crate::error::EnumerationError;
use crate::substitute::{candidate_url, generate_new_url};

verus! {

/// The URL that stands for `number` in an enumeration of `url`: `number`
/// takes the place of the rightmost run of two digits or more in the path,
/// padded with zeros to the length of that run.
pub open spec fn enumerated_url(url: UrlComponentsView, number: nat) -> Seq<char>
    recommends
        has_qualifying_run(url.path),
{
    let (first, last) = enumeration_position(url.path)->0;
    candidate_url(url, first, last, (last - first + 1) as nat, number)
}

/// Whether `lines` is the enumeration of `url` over `start..=end`: one URL
/// for each number, in ascending order of the numbers, each accepted by the
/// URL parser.
pub open spec fn is_enumeration(
    lines: Seq<String>,
    url: UrlComponentsView,
    start: int,
    end: int,
) -> bool {
    &&& lines.len() == end - start + 1
    &&& forall|k: int|
        0 <= k < lines.len() ==> (#[trigger] lines[k])@ == enumerated_url(url, (start + k) as nat)
    &&& forall|k: int| 0 <= k < lines.len() ==> parsed_url((#[trigger] lines[k])@) is Some
}

/// Whether the URL parser refuses the URL that stands for some number of
/// `start..=end` in an enumeration of `url`.
pub open spec fn some_url_refused(url: UrlComponentsView, start: int, end: int) -> bool {
    exists|n: int| start <= n <= end && parsed_url(#[trigger] enumerated_url(url, n as nat)) is None
}

/// `lines`, each followed by a line feed, one after the other.
pub open spec fn lines_text(lines: Seq<String>) -> Seq<char>
    decreases lines.len(),
{
    if lines.len() == 0 {
        Seq::empty()
    } else {
        lines_text(lines.drop_last()) + lines.last()@ + seq!['\n']
    }
}

/// The URLs for the numbers `start..=end`, in ascending order.
///
/// A range whose first number is above its last is refused before anything
/// else is looked at; then a path without a run of two digits or more. If
/// the parser refuses one of the URLs, no URL at all is handed out.
pub fn enumerate_urls(url: &UrlComponents, start: usize, end: usize) -> (r: Result<
    Vec<String>,
    EnumerationError,
>)
    ensures
        start > end ==> r == Err::<Vec<String>, _>(EnumerationError::InvalidRange),
        start <= end && !has_qualifying_run(url@.path) ==> r == Err::<Vec<String>, _>(
            EnumerationError::NoEnumerablePosition,
        ),
        start <= end && has_qualifying_run(url@.path) ==> match r {
            Ok(lines) => is_enumeration(lines@, url@, start as int, end as int),
            Err(e) => e == EnumerationError::InternalReassemblyFailure && some_url_refused(
                url@,
                start as int,
                end as int,
            ),
        },
{
    if start > end {
        return Err(EnumerationError::InvalidRange);
    }
    let (start_index, end_index, padding) = match find_enumeration_position(url.path.as_str()) {
        Ok(position) => position,
        Err(_) => {
            return Err(EnumerationError::NoEnumerablePosition);
        },
    };
    let mut lines: Vec<String> = Vec::new();
    let mut number: usize = start;
    loop
        invariant_except_break
            start <= number <= end,
            lines@.len() == number - start,
        invariant
            start_index <= end_index < url@.path.len(),
            padding == end_index - start_index + 1,
            has_qualifying_run(url@.path),
            enumeration_position(url@.path) == Some((start_index as int, end_index as int)),
            forall|k: int|
                0 <= k < lines@.len() ==> (#[trigger] lines@[k])@ == enumerated_url(
                    url@,
                    (start + k) as nat,
                ),
            forall|k: int| 0 <= k < lines@.len() ==> parsed_url((#[trigger] lines@[k])@) is Some,
        ensures
            lines@.len() == end - start + 1,
        decreases end - number,
    {
        match generate_new_url(url, number, start_index, end_index, padding) {
            Ok(new_url) => {
                lines.push(new_url);
            },
            Err(e) => {
                proof {
                    let n: int = number as int;
                    assert(parsed_url(enumerated_url(url@, n as nat)) is None);
                }
                return Err(e);
            },
        }
        if number == end {
            break ;
        }
        number += 1;
    }
    Ok(lines)
}

/// The URLs that `input` stands for over the numbers `start..=end`.
///
/// `input` is parsed first: a text that is no absolute URL with a host is
/// refused whatever the range. The rest is `enumerate_urls` on its parts.
pub fn enumerate(input: &str, start: usize, end: usize) -> (r: Result<
    Vec<String>,
    EnumerationError,
>)
    ensures
        !is_input_url(input@) ==> r == Err::<Vec<String>, _>(EnumerationError::MalformedInputUrl),
        is_input_url(input@) ==> {
            let url = components_of(parsed_url(input@)->0);
            &&& start > end ==> r == Err::<Vec<String>, _>(EnumerationError::InvalidRange)
            &&& start <= end && !has_qualifying_run(url.path) ==> r == Err::<Vec<String>, _>(
                EnumerationError::NoEnumerablePosition,
            )
            &&& start <= end && has_qualifying_run(url.path) ==> match r {
                Ok(lines) => is_enumeration(lines@, url, start as int, end as int),
                Err(e) => e == EnumerationError::InternalReassemblyFailure && some_url_refused(
                    url,
                    start as int,
                    end as int,
                ),
            }
        },
{
    match parse_components(input) {
        Ok(url) => enumerate_urls(&url, start, end),
        Err(e) => Err(e),
    }
}

/// Writes `lines` out as one text, each of them followed by a line feed.
pub fn join_lines(lines: &Vec<String>) -> (r: String)
    ensures
        r@ == lines_text(lines@),
{
    let mut out = String::new();
    let count: usize = lines.len();
    let mut i: usize = 0;
    while i < count
        invariant
            i <= count,
            count == lines@.len(),
            out@ == lines_text(lines@.take(i as int)),
        decreases count - i,
    {
        out.append(lines[i].as_str());
        out.append("\n");
        proof {
            reveal_strlit("\n");
            assert("\n"@ =~= seq!['\n']);
            let upto = lines@.take(i + 1);
            assert(upto.drop_last() =~= lines@.take(i as int));
            assert(upto.last() == lines@[i as int]);
        }
        i += 1;
    }
    assert(lines@.take(count as int) =~= lines@);
    out
}

} // verus!
