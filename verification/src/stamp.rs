//! The local date and time of a capture, and its `%Y-%m-%d` / `%H-%M-%S`
//! renderings.

use vstd::prelude::*;
use chrono::{Datelike, Timelike};

verus! {

/// A local date and time, field by field, as chrono's `Datelike` and
/// `Timelike` report it.
#[derive(Clone, Copy, Debug)]
pub struct LocalStamp {
    pub year: i32,
    pub month: u32,
    pub day: u32,
    pub hour: u32,
    pub minute: u32,
    pub second: u32,
    /// Nanoseconds since the whole second; 1_000_000_000 and above mark a
    /// leap second.
    pub nanosecond: u32,
}

impl LocalStamp {
    /// The ranges chrono documents for each field.
    pub open spec fn wf(self) -> bool {
        &&& 1 <= self.month <= 12
        &&& 1 <= self.day <= 31
        &&& self.hour <= 23
        &&& self.minute <= 59
        &&& self.second <= 59
        &&& self.nanosecond < 2_000_000_000
    }
}

/// One reading of the local clock. Only `local_now` makes one, so a value
/// of this type is always a stamp that the clock gave.
#[derive(Clone, Copy, Debug)]
pub struct ClockReading {
    stamp: LocalStamp,
}

impl ClockReading {
    /// The local date and time that was read.
    pub closed spec fn reading(self) -> LocalStamp {
        self.stamp
    }

    /// The local date and time that was read.
    pub fn stamp(&self) -> (res: LocalStamp)
        ensures
            res == self.reading(),
    {
        self.stamp
    }
}

/// `chrono::Local::now()`, read field by field through `Datelike` and
/// `Timelike`. The contract claims only the field ranges that chrono
/// documents (month 1-12, day 1-31, hour 0-23, minute 0-59, second 0-59,
/// nanosecond below 2_000_000_000); which instant comes back depends on the
/// clock and the time zone and is not stated.
#[verifier::external_body]
pub(crate) fn local_now() -> (now: ClockReading)
    ensures
        now.reading().wf(),
{
    let t = chrono::Local::now();
    ClockReading {
        stamp: LocalStamp {
            year: t.year(),
            month: t.month(),
            day: t.day(),
            hour: t.hour(),
            minute: t.minute(),
            second: t.second(),
            nanosecond: t.nanosecond(),
        },
    }
}

/// The ASCII byte of decimal digit `d`.
pub open spec fn digit(d: int) -> u8 {
    (48 + d) as u8
}

/// The decimal digits of `n`, without leading zeros.
pub open spec fn decimal(n: nat) -> Seq<u8>
    decreases n,
{
    if n < 10 {
        seq![digit(n as int)]
    } else {
        decimal(n / 10).push(digit((n % 10) as int))
    }
}

/// `s` left-padded with `0` to at least `width` bytes.
pub open spec fn zero_pad(s: Seq<u8>, width: nat) -> Seq<u8> {
    if s.len() >= width {
        s
    } else {
        Seq::new((width - s.len()) as nat, |i: int| 48u8) + s
    }
}

/// Two digits, zero-padded, for a value below 100 (`%m`, `%d`, `%H`, ...).
pub open spec fn two_digits(v: int) -> Seq<u8> {
    seq![digit(v / 10), digit(v % 10)]
}

/// chrono's `%Y`: four zero-padded digits for years 0 through 9999, else a
/// sign followed by at least four zero-padded digits.
pub open spec fn year_text(y: int) -> Seq<u8> {
    if 0 <= y <= 9999 {
        zero_pad(decimal(y as nat), 4)
    } else if y > 9999 {
        seq![43u8] + zero_pad(decimal(y as nat), 4)
    } else {
        seq![45u8] + zero_pad(decimal((-y) as nat), 4)
    }
}

/// `%Y-%m-%d`.
pub open spec fn day_text(s: LocalStamp) -> Seq<u8> {
    year_text(s.year as int) + seq![45u8] + two_digits(s.month as int) + seq![45u8] + two_digits(
        s.day as int,
    )
}

/// The second as `%S` shows it: 60 during a leap second.
pub open spec fn shown_second(s: LocalStamp) -> int {
    s.second + s.nanosecond / 1_000_000_000
}

/// `%H-%M-%S`.
pub open spec fn time_text(s: LocalStamp) -> Seq<u8> {
    two_digits(s.hour as int) + seq![45u8] + two_digits(s.minute as int) + seq![45u8]
        + two_digits(shown_second(s))
}

/// Appends the decimal digits of `n`.
fn push_decimal(out: &mut Vec<u8>, n: u64)
    ensures
        final(out)@ == old(out)@ + decimal(n as nat),
    decreases n,
{
    if n >= 10 {
        push_decimal(out, n / 10);
    }
    out.push(48u8 + (n % 10) as u8);
    proof {
        if n >= 10 {
            assert(old(out)@ + decimal(n as nat) =~= (old(out)@ + decimal((n / 10) as nat)).push(
                digit((n % 10) as int),
            ));
        } else {
            assert(old(out)@ + decimal(n as nat) =~= old(out)@.push(digit(n as int)));
        }
    }
}

/// Appends `n` in decimal, zero-padded to at least `width` digits.
fn push_padded(out: &mut Vec<u8>, n: u64, width: usize)
    ensures
        final(out)@ == old(out)@ + zero_pad(decimal(n as nat), width as nat),
{
    let mut digits: Vec<u8> = Vec::new();
    push_decimal(&mut digits, n);
    assert(digits@ =~= decimal(n as nat));
    let len = digits.len();
    if len < width {
        let pad = width - len;
        for i in 0..pad
            invariant
                out@.len() == old(out)@.len() + i,
                out@ == old(out)@ + Seq::new(i as nat, |j: int| 48u8),
        {
            out.push(48u8);
            assert(out@ =~= old(out)@ + Seq::new((i + 1) as nat, |j: int| 48u8));
        }
    }
    crate::paths::extend_bytes(out, digits.as_slice());
    assert(out@ =~= old(out)@ + zero_pad(decimal(n as nat), width as nat));
}

/// Appends the two digits of `v` (below 100).
fn push_two(out: &mut Vec<u8>, v: u32)
    requires
        v < 100,
    ensures
        final(out)@ == old(out)@ + two_digits(v as int),
{
    out.push(48u8 + (v / 10) as u8);
    out.push(48u8 + (v % 10) as u8);
    assert(out@ =~= old(out)@ + two_digits(v as int));
}

/// Renders the date as chrono's `%Y-%m-%d` does.
pub fn format_day(s: &LocalStamp) -> (res: Vec<u8>)
    requires
        s.wf(),
    ensures
        res@ == day_text(*s),
{
    let mut out: Vec<u8> = Vec::new();
    let y = s.year as i64;
    if 0 <= y && y <= 9999 {
        push_padded(&mut out, y as u64, 4);
    } else if y > 9999 {
        out.push(43u8);
        push_padded(&mut out, y as u64, 4);
    } else {
        out.push(45u8);
        push_padded(&mut out, (-y) as u64, 4);
    }
    assert(out@ =~= year_text(s.year as int));
    out.push(45u8);
    push_two(&mut out, s.month);
    out.push(45u8);
    push_two(&mut out, s.day);
    assert(out@ =~= day_text(*s));
    out
}

/// Renders the time as chrono's `%H-%M-%S` does.
pub fn format_time(s: &LocalStamp) -> (res: Vec<u8>)
    requires
        s.wf(),
    ensures
        res@ == time_text(*s),
{
    let mut out: Vec<u8> = Vec::new();
    push_two(&mut out, s.hour);
    out.push(45u8);
    push_two(&mut out, s.minute);
    out.push(45u8);
    push_two(&mut out, s.second + s.nanosecond / 1_000_000_000);
    assert(out@ =~= time_text(*s));
    out
}


/// `b` is an ASCII decimal digit.
pub open spec fn is_digit(b: u8) -> bool {
    48 <= b <= 57
}

proof fn lemma_decimal_digits(n: nat)
    ensures
        forall|i: int| 0 <= i < decimal(n).len() ==> is_digit(#[trigger] decimal(n)[i]),
        n < 10 ==> decimal(n).len() == 1,
        n < 100 ==> decimal(n).len() <= 2,
        n < 1000 ==> decimal(n).len() <= 3,
        n < 10000 ==> decimal(n).len() <= 4,
    decreases n,
{
    if n >= 10 {
        lemma_decimal_digits(n / 10);
        let d = decimal(n / 10);
        assert forall|i: int| 0 <= i < decimal(n).len() implies is_digit(#[trigger] decimal(n)[i]) by {
            if i < d.len() {
                assert(decimal(n)[i] == d[i]);
            }
        }
    }
}

/// For years 0 through 9999 the date reads `YYYY-MM-DD`: ten bytes, digits
/// everywhere but the dashes at positions 4 and 7.
pub proof fn lemma_day_text_shape(s: LocalStamp)
    requires
        s.wf(),
        0 <= s.year <= 9999,
    ensures
        day_text(s).len() == 10,
        day_text(s)[4] == 45u8,
        day_text(s)[7] == 45u8,
        forall|i: int| 0 <= i < 10 && i != 4 && i != 7 ==> is_digit(#[trigger] day_text(s)[i]),
{
    let y = s.year as nat;
    lemma_decimal_digits(y);
    let d = decimal(y);
    let yt = year_text(s.year as int);
    assert(yt == zero_pad(d, 4));
    assert(yt.len() == 4);
    assert forall|i: int| 0 <= i < 4 implies is_digit(#[trigger] yt[i]) by {
        if d.len() < 4 {
            let pad = Seq::new((4 - d.len()) as nat, |j: int| 48u8);
            assert(yt == pad + d);
            if i < pad.len() {
                assert(yt[i] == pad[i]);
            } else {
                assert(yt[i] == d[i - pad.len()]);
            }
        }
    }
    let t = day_text(s);
    assert forall|i: int| 0 <= i < 10 && i != 4 && i != 7 implies is_digit(#[trigger] t[i]) by {
        if i < 4 {
            assert(t[i] == yt[i]);
        }
    }
}

/// The time always reads `HH-MM-SS`: eight bytes, digits everywhere but the
/// dashes at positions 2 and 5.
pub proof fn lemma_time_text_shape(s: LocalStamp)
    requires
        s.wf(),
    ensures
        time_text(s).len() == 8,
        time_text(s)[2] == 45u8,
        time_text(s)[5] == 45u8,
        forall|i: int| 0 <= i < 8 && i != 2 && i != 5 ==> is_digit(#[trigger] time_text(s)[i]),
{
    assert(shown_second(s) <= 60);
}

} // verus!
