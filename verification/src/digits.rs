//! Decimal digits, runs of them inside a path, and the search for the run
//! that an enumeration replaces.
//!
//! Positions are counted in characters. A path that a URL parser hands out is
//! ASCII, so that there they are byte offsets as well.

use vstd::prelude::*;

verus! {

/// Whether `c` is one of the ten decimal digits `0` to `9`.
pub open spec fn is_digit(c: char) -> bool {
    '0' <= c <= '9'
}

/// Whether `start..=end` is a digit run of `path`: a stretch of digits with
/// no digit right before it and none right behind it.
pub open spec fn is_digit_run(path: Seq<char>, start: int, end: int) -> bool {
    &&& 0 <= start <= end < path.len()
    &&& forall|k: int| start <= k <= end ==> is_digit(#[trigger] path[k])
    &&& (start > 0 ==> !is_digit(path[start - 1]))
    &&& (end + 1 < path.len() ==> !is_digit(path[end + 1]))
}

/// Whether `start..=end` is a digit run of `path` that an enumeration can
/// use: one of two digits or more. A digit that stands alone is none.
pub open spec fn is_qualifying_run(path: Seq<char>, start: int, end: int) -> bool {
    is_digit_run(path, start, end) && start < end
}

/// Whether `path` holds a run of two digits or more.
pub open spec fn has_qualifying_run(path: Seq<char>) -> bool {
    exists|s: int, e: int| is_qualifying_run(path, s, e)
}

/// Whether `start..=end` is the place that an enumeration of `path`
/// replaces: the rightmost of its runs of two digits or more.
pub open spec fn is_enumeration_position(path: Seq<char>, start: int, end: int) -> bool {
    &&& is_qualifying_run(path, start, end)
    &&& forall|s: int, e: int| #[trigger] is_qualifying_run(path, s, e) ==> e <= end
}

/// The place that an enumeration of `path` replaces, as first and last
/// index, where there is one.
pub open spec fn enumeration_position(path: Seq<char>) -> Option<(int, int)> {
    if has_qualifying_run(path) {
        Some(choose|p: (int, int)| is_enumeration_position(path, p.0, p.1))
    } else {
        None
    }
}

/// What `find_enumeration_position` reports of a path without a run of two
/// digits or more.
pub open spec fn no_position_message() -> Seq<char> {
    "No incremental number found in URL path"@
}

/// Whether the characters at `k - 1` and `k` are both digits.
pub open spec fn digit_pair_at(path: Seq<char>, k: int) -> bool {
    1 <= k < path.len() && is_digit(path[k - 1]) && is_digit(path[k])
}

/// A run of two digits or more ends in a pair of digits.
pub proof fn lemma_qualifying_run_ends_in_pair(path: Seq<char>, start: int, end: int)
    requires
        is_qualifying_run(path, start, end),
    ensures
        digit_pair_at(path, end),
{
    assert(is_digit(path[end - 1]));
    assert(is_digit(path[end]));
}

/// Two digit runs that end at the same index start at the same index.
pub proof fn lemma_run_start_unique(path: Seq<char>, s1: int, s2: int, end: int)
    requires
        is_digit_run(path, s1, end),
        is_digit_run(path, s2, end),
    ensures
        s1 == s2,
{
    if s1 < s2 {
        assert(is_digit(path[s2 - 1]));
    } else if s2 < s1 {
        assert(is_digit(path[s1 - 1]));
    }
}

/// A path has at most one enumeration position, and `enumeration_position`
/// names it.
pub proof fn lemma_enumeration_position_is(path: Seq<char>, start: int, end: int)
    requires
        is_enumeration_position(path, start, end),
    ensures
        enumeration_position(path) == Some((start, end)),
{
    assert(is_qualifying_run(path, start, end));
    let p = choose|p: (int, int)| is_enumeration_position(path, p.0, p.1);
    assert(is_enumeration_position(path, (start, end).0, (start, end).1));
    assert(is_enumeration_position(path, p.0, p.1));
    assert(is_qualifying_run(path, p.0, p.1));
    assert(p.1 == end);
    lemma_run_start_unique(path, p.0, start, end);
}

/// Follows the digits from `j` to the left: the left end of the digit run
/// that `j..=at` lies in.
pub proof fn lemma_run_start(path: Seq<char>, j: int, at: int) -> (start: int)
    requires
        0 <= j <= at < path.len(),
        forall|k: int| j <= k <= at ==> is_digit(#[trigger] path[k]),
    ensures
        0 <= start <= j,
        forall|k: int| start <= k <= at ==> is_digit(#[trigger] path[k]),
        start > 0 ==> !is_digit(path[start - 1]),
    decreases j,
{
    if j > 0 && is_digit(path[j - 1]) {
        lemma_run_start(path, j - 1, at)
    } else {
        j
    }
}

/// Follows the digits from `j` to the right: the right end of the digit run
/// that `at..=j` lies in.
pub proof fn lemma_run_end(path: Seq<char>, at: int, j: int) -> (end: int)
    requires
        0 <= at <= j < path.len(),
        forall|k: int| at <= k <= j ==> is_digit(#[trigger] path[k]),
    ensures
        j <= end < path.len(),
        forall|k: int| at <= k <= end ==> is_digit(#[trigger] path[k]),
        end + 1 < path.len() ==> !is_digit(path[end + 1]),
    decreases path.len() - j,
{
    if j + 1 < path.len() && is_digit(path[j + 1]) {
        lemma_run_end(path, at, j + 1)
    } else {
        j
    }
}

/// A pair of digits lies in a run of two digits or more.
pub proof fn lemma_pair_lies_in_run(path: Seq<char>, k: int) -> (run: (int, int))
    requires
        digit_pair_at(path, k),
    ensures
        is_qualifying_run(path, run.0, run.1),
        run.0 < k <= run.1,
{
    let start = lemma_run_start(path, k - 1, k);
    let end = lemma_run_end(path, start, k);
    (start, end)
}

/// The enumeration position, told by pairs of digits: it is a run of two
/// digits or more with no pair of digits behind it.
pub proof fn lemma_position_by_pairs(path: Seq<char>, start: int, end: int)
    requires
        is_qualifying_run(path, start, end),
    ensures
        is_enumeration_position(path, start, end) <==> forall|k: int|
            end < k < path.len() ==> !#[trigger] digit_pair_at(path, k),
{
    if is_enumeration_position(path, start, end) {
        assert forall|k: int| end < k < path.len() implies !#[trigger] digit_pair_at(path, k) by {
            if digit_pair_at(path, k) {
                let run = lemma_pair_lies_in_run(path, k);
                assert(is_qualifying_run(path, run.0, run.1));
            }
        }
    }
    if forall|k: int| end < k < path.len() ==> !#[trigger] digit_pair_at(path, k) {
        assert forall|s: int, e: int| #[trigger] is_qualifying_run(path, s, e) implies e <= end by {
            lemma_qualifying_run_ends_in_pair(path, s, e);
        }
    }
}

/// Searches from `bound` to the left for the last pair of digits, and so
/// for the rightmost run of two digits or more.
proof fn lemma_position_below(path: Seq<char>, bound: int) -> (p: (int, int))
    requires
        0 <= bound <= path.len(),
        forall|k: int| bound <= k < path.len() ==> !#[trigger] digit_pair_at(path, k),
        exists|k: int| digit_pair_at(path, k),
    ensures
        is_enumeration_position(path, p.0, p.1),
    decreases bound,
{
    if bound == 0 {
        let k = choose|k: int| digit_pair_at(path, k);
        assert(!digit_pair_at(path, k));
        (0, 0)
    } else if digit_pair_at(path, bound - 1) {
        let end = bound - 1;
        let start = lemma_run_start(path, end - 1, end);
        assert(end + 1 < path.len() ==> !is_digit(path[end + 1])) by {
            if end + 1 < path.len() {
                assert(!digit_pair_at(path, end + 1));
            }
        }
        lemma_position_by_pairs(path, start, end);
        (start, end)
    } else {
        lemma_position_below(path, bound - 1)
    }
}

/// What `enumeration_position` is: the rightmost run of two digits or more
/// where the path has such a run, and nothing where it has none.
pub proof fn lemma_enumeration_position(path: Seq<char>)
    ensures
        match enumeration_position(path) {
            Some((start, end)) => is_enumeration_position(path, start, end),
            None => !has_qualifying_run(path),
        },
{
    if has_qualifying_run(path) {
        let (s, e) = choose|s: int, e: int| is_qualifying_run(path, s, e);
        lemma_qualifying_run_ends_in_pair(path, s, e);
        let p = lemma_position_below(path, path.len() as int);
        lemma_enumeration_position_is(path, p.0, p.1);
    }
}

/// Tells whether `c` is a decimal digit.
pub fn is_decimal_digit(c: char) -> (r: bool)
    ensures
        r == is_digit(c),
{
    '0' <= c && c <= '9'
}

/// The characters of `s`, one by one.
pub fn chars_of(s: &str) -> (r: Vec<char>)
    ensures
        r@ == s@,
{
    let mut out: Vec<char> = Vec::new();
    for c in it: s.chars()
        invariant
            it.seq() == s@,
            out@ == s@.take(it.index() as int),
    {
        out.push(c);
    }
    out
}

/// Finds the place in `path` that an enumeration replaces.
///
/// The path is read from its last character towards its first. At a digit
/// the run is followed to its left end; a run of one digit is passed over and
/// the search goes on to the left of it. The first run of two digits or more
/// that is met is the answer, as first index, last index and number of
/// digits.
pub fn find_enumeration_position(path: &str) -> (r: Result<(usize, usize, usize), String>)
    ensures
        match r {
            Ok((start, end, padding)) => {
                &&& is_enumeration_position(path@, start as int, end as int)
                &&& enumeration_position(path@) == Some((start as int, end as int))
                &&& padding == end - start + 1
            },
            Err(message) => {
                &&& !has_qualifying_run(path@)
                &&& enumeration_position(path@) is None
                &&& message@ == no_position_message()
            },
        },
{
    let chars = chars_of(path);
    let n: usize = chars.len();
    let mut i: usize = n;
    while i > 0
        invariant
            i <= n,
            n == chars@.len(),
            chars@ == path@,
            forall|k: int| i <= k < n ==> !#[trigger] digit_pair_at(path@, k),
        decreases i,
    {
        i -= 1;
        if is_decimal_digit(chars[i]) {
            let mut j: usize = i;
            while j > 0 && is_decimal_digit(chars[j - 1])
                invariant
                    j <= i < n,
                    n == chars@.len(),
                    forall|k: int| j <= k <= i ==> is_digit(#[trigger] chars@[k]),
                decreases j,
            {
                j -= 1;
            }
            if j != i {
                proof {
                    assert(i + 1 < n ==> !is_digit(path@[i + 1])) by {
                        if i + 1 < n {
                            assert(!digit_pair_at(path@, i + 1));
                        }
                    }
                    assert forall|s: int, e: int| #[trigger]
                        is_qualifying_run(path@, s, e) implies e <= i by {
                        lemma_qualifying_run_ends_in_pair(path@, s, e);
                    }
                    lemma_enumeration_position_is(path@, j as int, i as int);
                }
                return Ok((j, i, i - j + 1));
            }
        }
    }
    proof {
        assert forall|s: int, e: int| !is_qualifying_run(path@, s, e) by {
            if is_qualifying_run(path@, s, e) {
                lemma_qualifying_run_ends_in_pair(path@, s, e);
            }
        }
    }
    Err("No incremental number found in URL path".to_string())
}

} // verus!
