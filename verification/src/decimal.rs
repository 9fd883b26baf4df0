//! Numbers written in decimal digits, padded with zeros to a width.

use vstd::prelude::*;
use crate::digits::is_digit;

verus! {

/// The character that stands for the digit `d`, for `d` below ten.
pub open spec fn digit_char(d: nat) -> char {
    (('0' as u8 + d) as u8) as char
}

/// The digit that the character `c` stands for, for a decimal digit `c`.
pub open spec fn digit_value(c: char) -> nat {
    (c as u8 - '0' as u8) as nat
}

/// `n` in decimal digits, without leading zeros; zero is the digit `0`.
pub open spec fn decimal(n: nat) -> Seq<char>
    decreases n,
{
    if n < 10 {
        seq![digit_char(n)]
    } else {
        decimal(n / 10).push(digit_char(n % 10))
    }
}

/// `count` times the character `0`.
pub open spec fn zeros(count: nat) -> Seq<char> {
    Seq::new(count, |i: int| '0')
}

/// `n` in decimal digits, with zeros put before it until it is `width`
/// characters long. A number with more digits than `width` is written in
/// full: the width pads, it never cuts.
pub open spec fn zero_padded(n: nat, width: nat) -> Seq<char> {
    let written = decimal(n);
    if written.len() < width {
        zeros((width - written.len()) as nat) + written
    } else {
        written
    }
}

/// The number that a string of decimal digits denotes; leading zeros count
/// for nothing, and the empty string denotes zero.
pub open spec fn digits_value(s: Seq<char>) -> nat
    decreases s.len(),
{
    if s.len() == 0 {
        0
    } else {
        digits_value(s.drop_last()) * 10 + digit_value(s.last())
    }
}

/// Whether every character of `s` is a decimal digit.
pub open spec fn all_digits(s: Seq<char>) -> bool {
    forall|k: int| 0 <= k < s.len() ==> is_digit(#[trigger] s[k])
}

/// The characters for the digits in `low_first`, which holds the lowest
/// digit first, in the order of writing: highest digit first.
pub open spec fn written_high_first(low_first: Seq<usize>) -> Seq<char> {
    Seq::new(low_first.len(), |i: int| digit_char(low_first[low_first.len() - 1 - i] as nat))
}

/// A digit's character is a decimal digit, and stands for that digit.
pub proof fn lemma_digit_char(d: nat)
    requires
        d < 10,
    ensures
        is_digit(digit_char(d)),
        digit_value(digit_char(d)) == d,
{
}

/// A decimal digit is the character of the digit it stands for.
pub proof fn lemma_digit_value(c: char)
    requires
        is_digit(c),
    ensures
        digit_value(c) < 10,
        digit_char(digit_value(c)) == c,
{
}

/// A number in decimal has at least one character, all of them digits, and
/// denotes that number.
pub proof fn lemma_decimal(n: nat)
    ensures
        decimal(n).len() >= 1,
        all_digits(decimal(n)),
        digits_value(decimal(n)) == n,
    decreases n,
{
    if n < 10 {
        lemma_digit_char(n);
        let s = decimal(n);
        assert(s.drop_last() =~= Seq::<char>::empty());
        assert(digits_value(s.drop_last()) == 0);
    } else {
        lemma_decimal(n / 10);
        lemma_digit_char(n % 10);
        let s = decimal(n);
        assert(s.drop_last() =~= decimal(n / 10));
        assert(s.last() == digit_char(n % 10));
    }
}

/// Zeros before a string of digits do not change the number it denotes.
pub proof fn lemma_leading_zeros(count: nat, s: Seq<char>)
    ensures
        digits_value(zeros(count) + s) == digits_value(s),
    decreases s.len(),
{
    let whole = zeros(count) + s;
    if s.len() == 0 {
        assert(whole =~= zeros(count));
        lemma_zeros_value(count);
    } else {
        assert(whole.drop_last() =~= zeros(count) + s.drop_last());
        assert(whole.last() == s.last());
        lemma_leading_zeros(count, s.drop_last());
    }
}

/// A string of zeros denotes zero.
pub proof fn lemma_zeros_value(count: nat)
    ensures
        digits_value(zeros(count)) == 0,
    decreases count,
{
    if count > 0 {
        assert(zeros(count).drop_last() =~= zeros((count - 1) as nat));
        lemma_zeros_value((count - 1) as nat);
    }
}

/// A padded number is as long as the width, or as the number in decimal
/// where that is longer; it is made of digits and denotes the number.
pub proof fn lemma_zero_padded(n: nat, width: nat)
    ensures
        zero_padded(n, width).len() == if decimal(n).len() < width {
            width
        } else {
            decimal(n).len()
        },
        all_digits(zero_padded(n, width)),
        digits_value(zero_padded(n, width)) == n,
{
    lemma_decimal(n);
    if decimal(n).len() < width {
        lemma_leading_zeros((width - decimal(n).len()) as nat, decimal(n));
    }
}

/// A string of digits is what comes out when the number it denotes is
/// padded to the string's length: writing undoes reading.
pub proof fn lemma_padded_value(s: Seq<char>)
    requires
        s.len() >= 1,
        all_digits(s),
    ensures
        decimal(digits_value(s)).len() <= s.len(),
        zero_padded(digits_value(s), s.len()) == s,
    decreases s.len(),
{
    let head = s.drop_last();
    let last = s.last();
    let n = digits_value(s);
    lemma_digit_value(last);
    assert(is_digit(s[s.len() - 1]));
    if head.len() == 0 {
        assert(digits_value(head) == 0);
        assert(n == digit_value(last));
        assert(decimal(n) =~= s);
    } else {
        assert(all_digits(head)) by {
            assert forall|k: int| 0 <= k < head.len() implies is_digit(#[trigger] head[k]) by {
                assert(head[k] == s[k]);
            }
        }
        lemma_padded_value(head);
        let m = digits_value(head);
        assert(n == m * 10 + digit_value(last));
        if m == 0 {
            assert(decimal(n) =~= seq![last]);
            assert(decimal(m) =~= seq!['0']);
            assert(zero_padded(m, head.len()) =~= zeros(head.len()));
            assert(zero_padded(n, s.len()) =~= s);
        } else {
            assert(n / 10 == m && n % 10 == digit_value(last));
            assert(decimal(n) == decimal(m).push(last));
            assert(zero_padded(n, s.len()) =~= zero_padded(m, head.len()).push(last));
            assert(head.push(last) =~= s);
        }
    }
}

/// The text of one digit.
fn digit_text(d: usize) -> (r: &'static str)
    requires
        d < 10,
    ensures
        r@ == seq![digit_char(d as nat)],
{
    let all = "0123456789";
    proof {
        reveal_strlit("0123456789");
    }
    let one = all.substring_char(d, d + 1);
    assert(one@ =~= seq![digit_char(d as nat)]);
    one
}

/// Writes `number` in decimal, with zeros before it up to `width` characters.
pub fn zero_pad(number: usize, width: usize) -> (r: String)
    ensures
        r@ == zero_padded(number as nat, width as nat),
{
    let mut low_first: Vec<usize> = Vec::new();
    let mut rest: usize = number;
    while rest >= 10
        invariant
            forall|k: int| 0 <= k < low_first@.len() ==> low_first@[k] < 10,
            decimal(number as nat) == decimal(rest as nat) + written_high_first(low_first@),
        decreases rest,
    {
        let ghost before = low_first@;
        low_first.push(rest % 10);
        proof {
            let d = digit_char((rest % 10) as nat);
            assert(written_high_first(low_first@) =~= seq![d] + written_high_first(before));
            assert(decimal(rest as nat) == decimal((rest / 10) as nat).push(d));
            assert(decimal((rest / 10) as nat).push(d) + written_high_first(before) =~= decimal(
                (rest / 10) as nat,
            ) + (seq![d] + written_high_first(before)));
        }
        rest = rest / 10;
    }
    let ghost before = low_first@;
    low_first.push(rest);
    proof {
        assert(written_high_first(low_first@) =~= seq![digit_char(rest as nat)]
            + written_high_first(before));
        assert(decimal(number as nat) =~= written_high_first(low_first@));
    }
    let count: usize = low_first.len();
    let mut out = String::new();
    let mut filled: usize = count;
    while filled < width
        invariant
            count <= filled,
            filled == count || filled <= width,
            out@ == zeros((filled - count) as nat),
        decreases width - filled,
    {
        out.append("0");
        proof {
            reveal_strlit("0");
            assert(out@ =~= zeros((filled + 1 - count) as nat));
        }
        filled += 1;
    }
    let ghost padding = out@;
    let mut k: usize = count;
    while k > 0
        invariant
            k <= count,
            count == low_first@.len(),
            forall|i: int| 0 <= i < low_first@.len() ==> low_first@[i] < 10,
            out@ == padding + written_high_first(low_first@).take(count - k),
        decreases k,
    {
        k -= 1;
        out.append(digit_text(low_first[k]));
        proof {
            let written = written_high_first(low_first@);
            assert(written.take(count - k) =~= written.take(count - k - 1).push(
                digit_char(low_first@[k as int] as nat),
            ));
            assert(out@ =~= padding + written.take(count - k));
        }
    }
    proof {
        let written = written_high_first(low_first@);
        assert(written.take(count as int) =~= written);
        assert(padding + written =~= zero_padded(number as nat, width as nat));
    }
    out
}

} // verus!
