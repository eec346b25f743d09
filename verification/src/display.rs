//! Text shown on the dashboard: the uptime clock and the tone in which a
//! task's status is drawn.

use vstd::prelude::*;
use core::time::Duration;
use crate::text::string_from_chars;

verus! {

/// The character of the decimal digit `d` (0 to 9).
pub open spec fn digit_char(d: nat) -> char {
    ((48 + d) as u8) as char
}

/// The decimal digits of `n`, most significant first, without leading
/// zeros (`0` is the single digit "0").
pub open spec fn decimal_digits(n: nat) -> Seq<char>
    decreases n,
{
    if n < 10 {
        seq![digit_char(n)]
    } else {
        decimal_digits(n / 10).push(digit_char(n % 10))
    }
}

/// `n` (below 100) written with at least two digits, as `{:02}` does.
pub open spec fn two_digits(n: nat) -> Seq<char> {
    seq![digit_char(n / 10), digit_char(n % 10)]
}

/// `H:MM:SS` for a number of seconds: whole hours, then minutes and
/// seconds of the hour in two digits each.
pub open spec fn clock_text(total_seconds: nat) -> Seq<char> {
    decimal_digits(total_seconds / 3600) + seq![':'] + two_digits((total_seconds % 3600) / 60)
        + seq![':'] + two_digits(total_seconds % 60)
}

/// The character of one decimal digit.
fn digit(d: u64) -> (c: char)
    requires
        d < 10,
    ensures
        c == digit_char(d as nat),
{
    let b: u8 = 48u8 + (d as u8);
    b as char
}

/// Appends the decimal digits of `n` to `out`.
fn push_decimal(out: &mut Vec<char>, n: u64)
    ensures
        final(out)@ == old(out)@ + decimal_digits(n as nat),
    decreases n,
{
    if n >= 10 {
        push_decimal(out, n / 10);
    }
    out.push(digit(n % 10));
    proof {
        if n >= 10 {
            assert(old(out)@ + decimal_digits(n as nat) =~= old(out)@ + decimal_digits((n / 10) as nat) + seq![digit_char((n % 10) as nat)]);
        } else {
            assert(old(out)@ + decimal_digits(n as nat) =~= old(out)@.push(digit_char(n as nat)));
        }
    }
}

/// Appends `n` (below 100) in two digits to `out`.
fn push_two_digits(out: &mut Vec<char>, n: u64)
    requires
        n < 100,
    ensures
        final(out)@ == old(out)@ + two_digits(n as nat),
{
    out.push(digit(n / 10));
    out.push(digit(n % 10));
    assert(final(out)@ =~= old(out)@ + two_digits(n as nat));
}

/// A number of seconds as `H:MM:SS`.
pub fn format_clock(total_seconds: u64) -> (text: String)
    ensures
        text@ == clock_text(total_seconds as nat),
{
    let hours = total_seconds / 3600;
    let minutes = (total_seconds % 3600) / 60;
    let seconds = total_seconds % 60;
    let mut chars: Vec<char> = Vec::new();
    push_decimal(&mut chars, hours);
    chars.push(':');
    push_two_digits(&mut chars, minutes);
    chars.push(':');
    push_two_digits(&mut chars, seconds);
    assert(chars@ =~= clock_text(total_seconds as nat));
    string_from_chars(chars.as_slice())
}

/// The whole seconds of a duration, as `Duration::as_secs` gives them.
pub uninterp spec fn duration_whole_seconds(duration: Duration) -> u64;

/// `Duration::as_secs`: the whole seconds of a duration (the fraction of a
/// second is dropped); the result is named, not spelled out.
#[verifier::external_body]
fn duration_secs(duration: &Duration) -> (secs: u64)
    ensures
        secs == duration_whole_seconds(*duration),
{
    duration.as_secs()
}

/// A duration as `H:MM:SS`, counting its whole seconds.
pub fn format_duration(duration: Duration) -> (text: String)
    ensures
        text@ == clock_text(duration_whole_seconds(duration) as nat),
{
    let secs = duration_secs(&duration);
    format_clock(secs)
}

/// The colour class a task's status is drawn in.
#[derive(Clone, Copy, Debug, PartialEq, Eq, Structural)]
pub enum StatusTone {
    /// "成功" (succeeded): green.
    Success,
    /// "处理中" (in progress): yellow.
    Busy,
    /// "错误" (failed): red.
    Failure,
    /// Any other status: white.
    Plain,
}

/// The tone of a task status text.
pub fn status_tone(status: &str) -> (tone: StatusTone)
    ensures
        tone == (if status@ == "成功"@ {
            StatusTone::Success
        } else if status@ == "处理中"@ {
            StatusTone::Busy
        } else if status@ == "错误"@ {
            StatusTone::Failure
        } else {
            StatusTone::Plain
        }),
{
    if crate::text::text_eq(status, "成功") {
        StatusTone::Success
    } else if crate::text::text_eq(status, "处理中") {
        StatusTone::Busy
    } else if crate::text::text_eq(status, "错误") {
        StatusTone::Failure
    } else {
        StatusTone::Plain
    }
}

/// The number that decimal digits stand for.
pub open spec fn digits_value(s: Seq<char>) -> nat
    decreases s.len(),
{
    if s.len() == 0 {
        0
    } else {
        digits_value(s.drop_last()) * 10 + ((s.last() as int - 48) as nat)
    }
}

/// The character of digit `d` stands for `d`.
proof fn lemma_digit_char_value(d: nat)
    requires
        d < 10,
    ensures
        digit_char(d) as int - 48 == d,
{
    let b: u8 = (48 + d) as u8;
    assert(b == 48 + d);
    assert((b as char) as int == b as int);
}

/// The digits shown for a number stand for that number.
pub proof fn law_decimal_digits_value(n: nat)
    ensures
        digits_value(decimal_digits(n)) == n,
    decreases n,
{
    if n < 10 {
        lemma_digit_char_value(n);
        assert(seq![digit_char(n)].drop_last() =~= Seq::<char>::empty());
        assert(digits_value(Seq::<char>::empty()) == 0);
    } else {
        law_decimal_digits_value(n / 10);
        lemma_digit_char_value(n % 10);
        assert(decimal_digits(n).drop_last() =~= decimal_digits(n / 10));
        assert(decimal_digits(n).last() == digit_char(n % 10));
        vstd::arithmetic::div_mod::lemma_fundamental_div_mod(n as int, 10);
    }
}

/// Two digits stand for the number they show.
proof fn lemma_two_digits_value(n: nat)
    requires
        n < 100,
    ensures
        digits_value(two_digits(n)) == n,
{
    lemma_digit_char_value(n / 10);
    lemma_digit_char_value(n % 10);
    let first = seq![digit_char(n / 10)];
    assert(two_digits(n).drop_last() =~= first);
    assert(first.drop_last() =~= Seq::<char>::empty());
    assert(digits_value(Seq::<char>::empty()) == 0);
    assert(digits_value(first) == n / 10);
    vstd::arithmetic::div_mod::lemma_fundamental_div_mod(n as int, 10);
}

/// The clock shows whole hours, then the minutes and seconds of the hour:
/// the shown fields add back up to the number of seconds.
pub proof fn law_clock_fields(total_seconds: nat)
    ensures
        digits_value(decimal_digits(total_seconds / 3600)) * 3600
            + digits_value(two_digits((total_seconds % 3600) / 60)) * 60
            + digits_value(two_digits(total_seconds % 60)) == total_seconds,
{
    let h = total_seconds / 3600;
    let r = total_seconds % 3600;
    let m = r / 60;
    let sec = total_seconds % 60;
    law_decimal_digits_value(h);
    lemma_two_digits_value(m);
    lemma_two_digits_value(sec);
    vstd::arithmetic::div_mod::lemma_fundamental_div_mod(total_seconds as int, 3600);
    vstd::arithmetic::div_mod::lemma_fundamental_div_mod(r as int, 60);
    vstd::arithmetic::div_mod::lemma_mod_mod(total_seconds as int, 60, 60);
    assert(r % 60 == sec);
}

} // verus!
