//! The text of the log's timestamps.

use crate::text::{decimal, push_decimal, string_push};
use vstd::prelude::*;

verus! {

/// `n` in decimal, with zeros on the left up to `width` digits.
pub open spec fn zero_padded(n: nat, width: nat) -> Seq<char> {
    let d = decimal(n);
    if d.len() >= width {
        d
    } else {
        Seq::new((width - d.len()) as nat, |i: int| '0') + d
    }
}

/// A local time as the log writes it: `YYYY-MM-DD HH:MM:SS:MS`, every
/// field padded with zeros, the milliseconds to three digits.
pub open spec fn timestamp_text(
    year: u16,
    month: u16,
    day: u16,
    hour: u16,
    minute: u16,
    second: u16,
    millis: u16,
) -> Seq<char> {
    zero_padded(year as nat, 4) + seq!['-'] + zero_padded(month as nat, 2) + seq!['-'] + zero_padded(
        day as nat,
        2,
    ) + seq![' '] + zero_padded(hour as nat, 2) + seq![':'] + zero_padded(minute as nat, 2) + seq![':']
        + zero_padded(second as nat, 2) + seq![':'] + zero_padded(millis as nat, 3)
}

/// The number of decimal digits of `n`.
fn decimal_len(n: u16) -> (l: usize)
    ensures
        l == decimal(n as nat).len(),
    decreases n,
{
    if n < 10 {
        1
    } else {
        let l = decimal_len(n / 10);
        proof {
            assert(decimal(n as nat) == decimal((n / 10) as nat).push(crate::text::digit_char((n % 10) as nat)));
            reveal_with_fuel(pow10, 5);
            lemma_decimal_len_pow((n / 10) as nat, 4);
        }
        l + 1
    }
}

/// Numbers below `10^k` (`k >= 1`) have at most `k` digits.
proof fn lemma_decimal_len_pow(n: nat, k: nat)
    requires
        k >= 1,
        n < pow10(k),
    ensures
        decimal(n).len() <= k,
    decreases k,
{
    if n >= 10 {
        assert(k >= 2) by {
            if k == 1 {
                assert(pow10(1) == 10 * pow10(0));
            }
        }
        assert(pow10(k) == 10 * pow10((k - 1) as nat));
        assert(n / 10 < pow10((k - 1) as nat));
        lemma_decimal_len_pow(n / 10, (k - 1) as nat);
    }
}

pub open spec fn pow10(k: nat) -> nat
    decreases k,
{
    if k == 0 { 1 } else { 10 * pow10((k - 1) as nat) }
}

/// Appends `n` in decimal, with zeros on the left up to `width` digits.
fn push_zero_padded(s: &mut String, n: u16, width: usize)
    ensures
        final(s)@ == old(s)@ + zero_padded(n as nat, width as nat),
{
    let l = decimal_len(n);
    let mut i: usize = l;
    let ghost start = s@;
    while i < width
        invariant
            l == decimal(n as nat).len(),
            l <= i,
            i <= width || l > width,
            l >= width ==> i == l,
            s@ == start + Seq::new((i - l) as nat, |j: int| '0'),
        decreases width - i,
    {
        string_push(s, '0');
        proof {
            assert(s@ =~= start + Seq::new((i + 1 - l) as nat, |j: int| '0'));
        }
        i += 1;
    }
    let ghost zeros = s@;
    push_decimal(s, n as u64);
    proof {
        if l >= width {
            assert(zeros =~= start);
            assert(s@ =~= start + decimal(n as nat));
        } else {
            assert(s@ =~= start + zero_padded(n as nat, width as nat));
        }
    }
}

/// The timestamp of a log line for the given local time.
pub fn format_timestamp(
    year: u16,
    month: u16,
    day: u16,
    hour: u16,
    minute: u16,
    second: u16,
    millis: u16,
) -> (t: String)
    ensures
        t@ == timestamp_text(year, month, day, hour, minute, second, millis),
{
    let mut t = String::new();
    push_zero_padded(&mut t, year, 4);
    string_push(&mut t, '-');
    push_zero_padded(&mut t, month, 2);
    string_push(&mut t, '-');
    push_zero_padded(&mut t, day, 2);
    string_push(&mut t, ' ');
    push_zero_padded(&mut t, hour, 2);
    string_push(&mut t, ':');
    push_zero_padded(&mut t, minute, 2);
    string_push(&mut t, ':');
    push_zero_padded(&mut t, second, 2);
    string_push(&mut t, ':');
    push_zero_padded(&mut t, millis, 3);
    proof {
        assert(t@ =~= timestamp_text(year, month, day, hour, minute, second, millis));
    }
    t
}

} // verus!
