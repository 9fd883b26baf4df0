//! What holds of finding a position, writing a number into it and
//! enumerating, taken together.

use vstd::prelude::*;
use crate::components::UrlComponentsView;
use crate::decimal::{all_digits, decimal, digits_value, zero_padded};
use crate::decimal::{lemma_padded_value, lemma_zero_padded};
use crate::digits::{digit_pair_at, enumeration_position, has_qualifying_run, is_digit};
use crate::digits::{is_digit_run, is_enumeration_position, is_qualifying_run};
use crate::digits::{lemma_enumeration_position, lemma_enumeration_position_is};
use crate::digits::{lemma_position_by_pairs, lemma_run_start_unique};
use crate::enumerate::enumerated_url;
use crate::substitute::{query_suffix, substituted_path};

verus! {

/// A path without any digit has no place to enumerate.
pub proof fn law_no_digit_no_position(path: Seq<char>)
    requires
        forall|k: int| 0 <= k < path.len() ==> !is_digit(#[trigger] path[k]),
    ensures
        !has_qualifying_run(path),
        enumeration_position(path) is None,
{
    assert forall|s: int, e: int| !is_qualifying_run(path, s, e) by {
        if is_qualifying_run(path, s, e) {
            assert(is_digit(path[e]));
        }
    }
}

/// A path whose only digit stands alone has no place to enumerate: its one
/// digit run is a single digit, and that is passed over.
pub proof fn law_lone_digit_no_position(path: Seq<char>, at: int)
    requires
        0 <= at < path.len(),
        is_digit(path[at]),
        forall|k: int| 0 <= k < path.len() && k != at ==> !is_digit(#[trigger] path[k]),
    ensures
        is_digit_run(path, at, at),
        forall|s: int, e: int| is_digit_run(path, s, e) ==> s == at && e == at,
        !has_qualifying_run(path),
        enumeration_position(path) is None,
{
    assert forall|s: int, e: int| is_digit_run(path, s, e) implies s == at && e == at by {
        assert(is_digit(path[s]));
        assert(is_digit(path[e]));
    }
}

/// A path with a run of two digits or more has a place to enumerate, and it
/// is the rightmost such run: no other ends further right, and the one that
/// ends where it ends is the place itself.
pub proof fn law_rightmost_run_is_position(path: Seq<char>, start: int, end: int)
    requires
        is_qualifying_run(path, start, end),
    ensures
        enumeration_position(path) matches Some((first, last)) && {
            &&& is_qualifying_run(path, first, last)
            &&& end <= last
            &&& end == last ==> start == first
        },
{
    lemma_enumeration_position(path);
    let (first, last) = enumeration_position(path)->0;
    if end == last {
        lemma_run_start_unique(path, start, first, end);
    }
}

/// Writing a number into the place of a path leaves the place where it was,
/// as long as the number has no more digits than the place is wide: the
/// place is found again in the new path, at the same indices and so with the
/// same width. Writing the same number there again changes nothing, and
/// writing the number that stood there at first gives the first path back.
pub proof fn law_substitution_keeps_position(path: Seq<char>, start: int, end: int, number: nat)
    requires
        is_enumeration_position(path, start, end),
        decimal(number).len() <= end - start + 1,
    ensures
        ({
            let width = (end - start + 1) as nat;
            let out = substituted_path(path, start, end, width, number);
            let before = digits_value(path.subrange(start, end + 1));
            &&& out.len() == path.len()
            &&& is_enumeration_position(out, start, end)
            &&& enumeration_position(out) == Some((start, end))
            &&& digits_value(out.subrange(start, end + 1)) == number
            &&& substituted_path(out, start, end, width, number) == out
            &&& substituted_path(out, start, end, width, before) == path
        }),
{
    let width = (end - start + 1) as nat;
    let written = zero_padded(number, width);
    let out = substituted_path(path, start, end, width, number);
    lemma_zero_padded(number, width);
    assert(written.len() == width);
    assert(out.len() == path.len());
    assert forall|k: int| 0 <= k < out.len() implies #[trigger] out[k] == (if start <= k <= end {
        written[k - start]
    } else {
        path[k]
    }) by {}
    assert forall|k: int| start <= k <= end implies is_digit(#[trigger] out[k]) by {
        assert(is_digit(written[k - start]));
    }
    assert(is_qualifying_run(out, start, end));
    lemma_position_by_pairs(path, start, end);
    assert forall|k: int| end < k < out.len() implies !#[trigger] digit_pair_at(out, k) by {
        if k == end + 1 {
            assert(!is_digit(out[k]));
        } else {
            assert(!digit_pair_at(path, k));
        }
    }
    lemma_position_by_pairs(out, start, end);
    lemma_enumeration_position_is(out, start, end);
    assert(out.subrange(start, end + 1) =~= written);
    assert(out.take(start) =~= path.take(start));
    assert(out.skip(end + 1) =~= path.skip(end + 1));
    let run = path.subrange(start, end + 1);
    assert(all_digits(run)) by {
        assert forall|k: int| 0 <= k < run.len() implies is_digit(#[trigger] run[k]) by {
            assert(is_digit(path[start + k]));
        }
    }
    lemma_padded_value(run);
    assert(path.take(start) + run + path.skip(end + 1) =~= path);
}

/// A number with more digits than the place is wide is written in full, and
/// the place found in the new path is as much wider.
pub proof fn law_longer_number_widens_position(path: Seq<char>, start: int, end: int, number: nat)
    requires
        is_enumeration_position(path, start, end),
        decimal(number).len() > end - start + 1,
    ensures
        ({
            let width = (end - start + 1) as nat;
            let out = substituted_path(path, start, end, width, number);
            let last = start + decimal(number).len() - 1;
            &&& out.subrange(start, last + 1) == decimal(number)
            &&& enumeration_position(out) == Some((start, last))
        }),
{
    let width = (end - start + 1) as nat;
    let written = decimal(number);
    let out = substituted_path(path, start, end, width, number);
    let last = start + written.len() - 1;
    let shift = written.len() - width;
    lemma_zero_padded(number, width);
    assert(zero_padded(number, width) == written);
    assert forall|k: int| 0 <= k < out.len() implies #[trigger] out[k] == (if k < start {
        path[k]
    } else if k <= last {
        written[k - start]
    } else {
        path[k - shift]
    }) by {}
    assert forall|k: int| start <= k <= last implies is_digit(#[trigger] out[k]) by {
        assert(is_digit(written[k - start]));
    }
    assert(out.subrange(start, last + 1) =~= written);
    assert(is_qualifying_run(out, start, last));
    lemma_position_by_pairs(path, start, end);
    assert forall|k: int| last < k < out.len() implies !#[trigger] digit_pair_at(out, k) by {
        if k == last + 1 {
            assert(!is_digit(out[k]));
        } else {
            assert(!digit_pair_at(path, k - shift));
        }
    }
    lemma_position_by_pairs(out, start, last);
    lemma_enumeration_position_is(out, start, last);
}

/// The URL that stands for a number is the scheme, `://` and the host of the
/// URL that is enumerated, its path up to the place, the number, the rest of
/// its path, and its query behind a question mark where it has one. The
/// number is written in digits that denote it, as many as the place is wide
/// or more.
pub proof fn law_enumerated_url_parts(url: UrlComponentsView, number: nat)
    requires
        has_qualifying_run(url.path),
    ensures
        ({
            let (first, last) = enumeration_position(url.path)->0;
            let written = zero_padded(number, (last - first + 1) as nat);
            &&& is_enumeration_position(url.path, first, last)
            &&& enumerated_url(url, number) == url.scheme + seq![':', '/', '/'] + url.host
                + url.path.take(first) + written + url.path.skip(last + 1) + query_suffix(
                url.query,
            )
            &&& written.len() >= last - first + 1
            &&& all_digits(written)
            &&& digits_value(written) == number
        }),
{
    lemma_enumeration_position(url.path);
    let (first, last) = enumeration_position(url.path)->0;
    let width = (last - first + 1) as nat;
    let written = zero_padded(number, width);
    lemma_zero_padded(number, width);
    let head = url.scheme + seq![':', '/', '/'] + url.host;
    let tail = query_suffix(url.query);
    assert(head + (url.path.take(first) + written + url.path.skip(last + 1)) + tail =~= head
        + url.path.take(first) + written + url.path.skip(last + 1) + tail);
}

/// Two numbers never stand for the same URL: an enumeration holds no URL
/// twice.
pub proof fn law_enumerated_urls_differ(url: UrlComponentsView, a: nat, b: nat)
    requires
        has_qualifying_run(url.path),
        a != b,
    ensures
        enumerated_url(url, a) != enumerated_url(url, b),
{
    law_enumerated_url_parts(url, a);
    law_enumerated_url_parts(url, b);
    let (first, last) = enumeration_position(url.path)->0;
    let width = (last - first + 1) as nat;
    let written_a = zero_padded(a, width);
    let written_b = zero_padded(b, width);
    let head = url.scheme + seq![':', '/', '/'] + url.host + url.path.take(first);
    let tail = url.path.skip(last + 1) + query_suffix(url.query);
    let text_a = enumerated_url(url, a);
    let text_b = enumerated_url(url, b);
    assert(text_a =~= head + written_a + tail);
    assert(text_b =~= head + written_b + tail);
    if text_a == text_b {
        assert(written_a.len() == written_b.len()) by {
            assert(text_a.len() == head.len() + written_a.len() + tail.len());
            assert(text_b.len() == head.len() + written_b.len() + tail.len());
        }
        let from = head.len() as int;
        let to = from + written_a.len();
        assert(written_a =~= text_a.subrange(from, to));
        assert(written_b =~= text_b.subrange(from, to));
        assert(digits_value(written_a) == digits_value(written_b));
    }
}

} // verus!
