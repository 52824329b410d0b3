//! Calendar timestamps as the cache engine reads them: year through second
//! plus nanoseconds, rendered as `YYYY-MM-DDTHH:MM:SS.NNNNNNNNN`. The origin's
//! last-modified time is compared for exact equality, so the rendering must be
//! injective and must keep sub-second precision; parsing inverts it.

use vstd::prelude::*;

use crate::chars::{digit_char, digit_of, digit_val, is_digit};

verus! {

pub open spec fn pow10(w: nat) -> int
    decreases w,
{
    if w == 0 {
        1
    } else {
        10 * pow10((w - 1) as nat)
    }
}

pub proof fn lemma_pow10_pos(a: nat)
    ensures
        pow10(a) >= 1,
    decreases a,
{
    if a > 0 {
        lemma_pow10_pos((a - 1) as nat);
    }
}

pub proof fn lemma_pow10_mono(a: nat, b: nat)
    requires
        a <= b,
    ensures
        pow10(a) <= pow10(b),
        pow10(a) >= 1,
    decreases b,
{
    lemma_pow10_pos(a);
    if a < b {
        lemma_pow10_mono(a, (b - 1) as nat);
        lemma_pow10_pos((b - 1) as nat);
    }
}

/// The `width` low decimal digits of `n`, most significant first.
pub open spec fn spec_digits(n: int, width: nat) -> Seq<char>
    decreases width,
{
    if width == 0 {
        Seq::<char>::empty()
    } else {
        spec_digits(n / 10, (width - 1) as nat).push(digit_char(n % 10))
    }
}

pub open spec fn all_digits(s: Seq<char>) -> bool {
    forall|i: int| 0 <= i < s.len() ==> is_digit(s[i])
}

/// Value of a string of decimal digits.
pub open spec fn digits_val(s: Seq<char>) -> int
    decreases s.len(),
{
    if s.len() == 0 {
        0
    } else {
        digits_val(s.drop_last()) * 10 + digit_val(s.last())
    }
}

pub proof fn lemma_digits_len(n: int, width: nat)
    ensures
        spec_digits(n, width).len() == width,
    decreases width,
{
    if width > 0 {
        lemma_digits_len(n / 10, (width - 1) as nat);
    }
}

pub proof fn lemma_digits_all_digits(n: int, width: nat)
    requires
        n >= 0,
    ensures
        all_digits(spec_digits(n, width)),
    decreases width,
{
    if width > 0 {
        vstd::arithmetic::div_mod::lemma_mod_bound(n, 10);
        vstd::arithmetic::div_mod::lemma_div_pos_is_pos(n, 10);
        lemma_digits_all_digits(n / 10, (width - 1) as nat);
        let inner = spec_digits(n / 10, (width - 1) as nat);
        let whole = spec_digits(n, width);
        assert(whole == inner.push(digit_char(n % 10)));
        assert(forall|i: int| 0 <= i < inner.len() ==> whole[i] == inner[i]);
        assert(is_digit(digit_char(n % 10)));
    }
}

/// Rendering `width` digits of an in-range value and reading them back
/// yields the value: the rendering is injective on its range.
pub proof fn lemma_digits_roundtrip(n: int, width: nat)
    requires
        0 <= n < pow10(width),
    ensures
        digits_val(spec_digits(n, width)) == n,
    decreases width,
{
    if width == 0 {
        assert(n == 0);
    } else {
        vstd::arithmetic::div_mod::lemma_fundamental_div_mod(n, 10);
        vstd::arithmetic::div_mod::lemma_mod_bound(n, 10);
        vstd::arithmetic::div_mod::lemma_div_pos_is_pos(n, 10);
        assert(n / 10 < pow10((width - 1) as nat)) by {
            vstd::arithmetic::div_mod::lemma_div_is_ordered(n, 10 * pow10((width - 1) as nat) - 1, 10);
            vstd::arithmetic::div_mod::lemma_div_multiples_vanish_fancy(
                pow10((width - 1) as nat) - 1,
                9,
                10,
            );
            lemma_pow10_mono(0, (width - 1) as nat);
        }
        lemma_digits_roundtrip(n / 10, (width - 1) as nat);
        let inner = spec_digits(n / 10, (width - 1) as nat);
        let whole = spec_digits(n, width);
        lemma_digits_len(n / 10, (width - 1) as nat);
        assert(whole.drop_last() =~= inner);
        assert(whole.last() == digit_char(n % 10));
        crate::chars::lemma_digit_roundtrip(n % 10);
    }
}

pub proof fn lemma_digits_val_bound(s: Seq<char>)
    requires
        all_digits(s),
    ensures
        0 <= digits_val(s) < pow10(s.len()),
    decreases s.len(),
{
    if s.len() > 0 {
        assert(all_digits(s.drop_last()));
        lemma_digits_val_bound(s.drop_last());
        assert(is_digit(s.last()));
    }
}

/// A one-character string for a decimal digit.
pub fn digit_str(d: u8) -> (r: &'static str)
    requires
        d < 10,
    ensures
        r@.len() == 1,
        r@[0] == digit_char(d as int),
{
    proof {
        reveal_strlit("0");
        reveal_strlit("1");
        reveal_strlit("2");
        reveal_strlit("3");
        reveal_strlit("4");
        reveal_strlit("5");
        reveal_strlit("6");
        reveal_strlit("7");
        reveal_strlit("8");
        reveal_strlit("9");
    }
    if d == 0 {
        "0"
    } else if d == 1 {
        "1"
    } else if d == 2 {
        "2"
    } else if d == 3 {
        "3"
    } else if d == 4 {
        "4"
    } else if d == 5 {
        "5"
    } else if d == 6 {
        "6"
    } else if d == 7 {
        "7"
    } else if d == 8 {
        "8"
    } else {
        "9"
    }
}

/// Renders `n` as exactly `width` decimal digits, zero-padded.
pub fn render_digits(n: u32, width: usize) -> (r: String)
    requires
        (n as int) < pow10(width as nat),
    ensures
        r@ == spec_digits(n as int, width as nat),
        r@.len() == width,
    decreases width,
{
    if width == 0 {
        String::new()
    } else {
        proof {
            vstd::arithmetic::div_mod::lemma_fundamental_div_mod(n as int, 10);
            vstd::arithmetic::div_mod::lemma_mod_bound(n as int, 10);
            assert((n as int) / 10 < pow10((width - 1) as nat)) by {
                vstd::arithmetic::div_mod::lemma_div_is_ordered(
                    n as int,
                    10 * pow10((width - 1) as nat) - 1,
                    10,
                );
                vstd::arithmetic::div_mod::lemma_div_multiples_vanish_fancy(
                    pow10((width - 1) as nat) - 1,
                    9,
                    10,
                );
                lemma_pow10_mono(0, (width - 1) as nat);
            }
        }
        let mut s = render_digits(n / 10, width - 1);
        s.append(digit_str((n % 10) as u8));
        proof {
            assert(s@ =~= spec_digits(n as int, width as nat));
            lemma_digits_len(n as int, width as nat);
        }
        s
    }
}

/// Reads `width` decimal digits of `s` starting at `from`.
pub fn parse_digits(s: &str, from: usize, width: usize) -> (r: Option<u32>)
    requires
        from + width <= s@.len(),
        from + width <= usize::MAX,
        width <= 9,
    ensures
        r is Some <==> all_digits(s@.subrange(from as int, (from + width) as int)),
        r is Some ==> r->0 == digits_val(s@.subrange(from as int, (from + width) as int)),
{
    let ghost whole = s@.subrange(from as int, (from + width) as int);
    let mut acc: u32 = 0;
    let mut i: usize = 0;
    while i < width
        invariant
            from + width <= s@.len(),
            from + width <= usize::MAX,
            width <= 9,
            0 <= i <= width,
            whole == s@.subrange(from as int, (from + width) as int),
            all_digits(s@.subrange(from as int, (from + i) as int)),
            acc == digits_val(s@.subrange(from as int, (from + i) as int)),
        decreases width - i,
    {
        let ghost prefix = s@.subrange(from as int, (from + i) as int);
        let c = s.get_char(from + i);
        match digit_of(c) {
            None => {
                proof {
                    assert(whole[i as int] == c);
                    assert(!is_digit(whole[i as int]));
                }
                return None;
            },
            Some(d) => {
                proof {
                    lemma_digits_val_bound(prefix);
                    lemma_pow10_mono(i as nat, 8);
                    assert(pow10(8) == 100000000) by {
                        reveal_with_fuel(pow10, 9);
                    }
                }
                acc = acc * 10 + (d as u32);
                proof {
                    let prefix2 = s@.subrange(from as int, (from + i + 1) as int);
                    assert(prefix2.drop_last() =~= prefix);
                    assert(prefix2.last() == c);
                }
                i += 1;
            },
        }
    }
    proof {
        assert(s@.subrange(from as int, (from + i) as int) =~= whole);
    }
    Some(acc)
}

/// A point in time, calendar form, nanosecond precision. The zero point
/// (epoch) stands in when an origin reports no last-modified time.
#[derive(Clone, Copy, PartialEq, Eq, Structural, Debug)]
pub struct Timestamp {
    pub year: u32,
    pub month: u32,
    pub day: u32,
    pub hour: u32,
    pub minute: u32,
    pub second: u32,
    pub nanos: u32,
}

impl Timestamp {
    pub open spec fn wf(&self) -> bool {
        self.year <= 9999 && 1 <= self.month <= 12 && 1 <= self.day <= 31 && self.hour <= 23
            && self.minute <= 59 && self.second <= 59 && self.nanos <= 999999999
    }

    /// `YYYY-MM-DDTHH:MM:SS.NNNNNNNNN`, 29 characters.
    pub open spec fn render_spec(&self) -> Seq<char> {
        spec_digits(self.year as int, 4) + seq!['-'] + spec_digits(self.month as int, 2)
            + seq!['-'] + spec_digits(self.day as int, 2) + seq!['T'] + spec_digits(
            self.hour as int,
            2,
        ) + seq![':'] + spec_digits(self.minute as int, 2) + seq![':'] + spec_digits(
            self.second as int,
            2,
        ) + seq!['.'] + spec_digits(self.nanos as int, 9)
    }

    pub fn epoch() -> (r: Timestamp)
        ensures
            r == epoch_ts(),
            r.wf(),
    {
        Timestamp { year: 1970, month: 1, day: 1, hour: 0, minute: 0, second: 0, nanos: 0 }
    }

    pub fn render(&self) -> (r: String)
        requires
            self.wf(),
        ensures
            r@ == self.render_spec(),
    {
        proof {
            reveal_strlit("-");
            reveal_strlit("T");
            reveal_strlit(":");
            reveal_strlit(".");
            assert(pow10(4) == 10000 && pow10(2) == 100 && pow10(9) == 1000000000) by {
                reveal_with_fuel(pow10, 10);
            }
        }
        let mut s = render_digits(self.year, 4);
        s.append("-");
        s.append(render_digits(self.month, 2).as_str());
        s.append("-");
        s.append(render_digits(self.day, 2).as_str());
        s.append("T");
        s.append(render_digits(self.hour, 2).as_str());
        s.append(":");
        s.append(render_digits(self.minute, 2).as_str());
        s.append(":");
        s.append(render_digits(self.second, 2).as_str());
        s.append(".");
        s.append(render_digits(self.nanos, 9).as_str());
        proof {
            assert(s@ =~= self.render_spec());
        }
        s
    }
}

/// What a 29-character timestamp text denotes, if well-formed.
pub open spec fn spec_parse_ts(s: Seq<char>) -> Option<Timestamp> {
    if s.len() == 29 && s[4] == '-' && s[7] == '-' && s[10] == 'T' && s[13] == ':' && s[16] == ':'
        && s[19] == '.' && all_digits(s.subrange(0, 4)) && all_digits(s.subrange(5, 7))
        && all_digits(s.subrange(8, 10)) && all_digits(s.subrange(11, 13)) && all_digits(
        s.subrange(14, 16),
    ) && all_digits(s.subrange(17, 19)) && all_digits(s.subrange(20, 29)) {
        let ts = Timestamp {
            year: digits_val(s.subrange(0, 4)) as u32,
            month: digits_val(s.subrange(5, 7)) as u32,
            day: digits_val(s.subrange(8, 10)) as u32,
            hour: digits_val(s.subrange(11, 13)) as u32,
            minute: digits_val(s.subrange(14, 16)) as u32,
            second: digits_val(s.subrange(17, 19)) as u32,
            nanos: digits_val(s.subrange(20, 29)) as u32,
        };
        if ts.wf() {
            Some(ts)
        } else {
            None
        }
    } else {
        None
    }
}

/// Reads a timestamp back from its rendered form.
pub fn parse_ts(s: &str) -> (r: Option<Timestamp>)
    ensures
        r == spec_parse_ts(s@),
        r is Some ==> r->0.wf(),
{
    if s.unicode_len() != 29 {
        return None;
    }
    if !(s.get_char(4) == '-' && s.get_char(7) == '-' && s.get_char(10) == 'T' && s.get_char(13)
        == ':' && s.get_char(16) == ':' && s.get_char(19) == '.') {
        return None;
    }
    let year = parse_digits(s, 0, 4);
    let month = parse_digits(s, 5, 2);
    let day = parse_digits(s, 8, 2);
    let hour = parse_digits(s, 11, 2);
    let minute = parse_digits(s, 14, 2);
    let second = parse_digits(s, 17, 2);
    let nanos = parse_digits(s, 20, 9);
    match (year, month, day, hour, minute, second, nanos) {
        (Some(y), Some(mo), Some(d), Some(h), Some(mi), Some(sec), Some(n)) => {
            let ts = Timestamp {
                year: y,
                month: mo,
                day: d,
                hour: h,
                minute: mi,
                second: sec,
                nanos: n,
            };
            proof {
                lemma_digits_val_bound(s@.subrange(0, 4));
                lemma_digits_val_bound(s@.subrange(5, 7));
                lemma_digits_val_bound(s@.subrange(8, 10));
                lemma_digits_val_bound(s@.subrange(11, 13));
                lemma_digits_val_bound(s@.subrange(14, 16));
                lemma_digits_val_bound(s@.subrange(17, 19));
                lemma_digits_val_bound(s@.subrange(20, 29));
            }
            if 1 <= ts.month && ts.month <= 12 && 1 <= ts.day && ts.day <= 31 && ts.hour <= 23
                && ts.minute <= 59 && ts.second <= 59 {
                proof {
                    assert(pow10(4) == 10000 && pow10(2) == 100 && pow10(9) == 1000000000) by {
                        reveal_with_fuel(pow10, 10);
                    }
                }
                Some(ts)
            } else {
                None
            }
        },
        _ => {
            None
        },
    }
}

/// A character a rendered timestamp can hold.
pub open spec fn plain_char(c: char) -> bool {
    is_digit(c) || c == '-' || c == 'T' || c == ':' || c == '.'
}

/// Every character of a rendered timestamp is a digit or date punctuation.
pub proof fn lemma_render_plain(ts: Timestamp)
    ensures
        forall|i: int|
            0 <= i < ts.render_spec().len() ==> plain_char(#[trigger] ts.render_spec()[i]),
{
    let s = ts.render_spec();
    lemma_digits_len(ts.year as int, 4);
    lemma_digits_len(ts.month as int, 2);
    lemma_digits_len(ts.day as int, 2);
    lemma_digits_len(ts.hour as int, 2);
    lemma_digits_len(ts.minute as int, 2);
    lemma_digits_len(ts.second as int, 2);
    lemma_digits_len(ts.nanos as int, 9);
    lemma_digits_all_digits(ts.year as int, 4);
    lemma_digits_all_digits(ts.month as int, 2);
    lemma_digits_all_digits(ts.day as int, 2);
    lemma_digits_all_digits(ts.hour as int, 2);
    lemma_digits_all_digits(ts.minute as int, 2);
    lemma_digits_all_digits(ts.second as int, 2);
    lemma_digits_all_digits(ts.nanos as int, 9);
    assert forall|i: int| 0 <= i < s.len() implies plain_char(#[trigger] s[i]) by {
        assert(s.len() == 29);
    }
}

/// Rendering a well-formed timestamp and parsing the text back yields the
/// same timestamp, sub-second precision included.
pub proof fn lemma_ts_roundtrip(ts: Timestamp)
    requires
        ts.wf(),
    ensures
        spec_parse_ts(ts.render_spec()) == Some(ts),
{
    let s = ts.render_spec();
    assert(pow10(4) == 10000 && pow10(2) == 100 && pow10(9) == 1000000000) by {
        reveal_with_fuel(pow10, 10);
    }
    lemma_digits_len(ts.year as int, 4);
    lemma_digits_len(ts.month as int, 2);
    lemma_digits_len(ts.day as int, 2);
    lemma_digits_len(ts.hour as int, 2);
    lemma_digits_len(ts.minute as int, 2);
    lemma_digits_len(ts.second as int, 2);
    lemma_digits_len(ts.nanos as int, 9);
    assert(s.len() == 29);
    assert(s.subrange(0, 4) =~= spec_digits(ts.year as int, 4));
    assert(s.subrange(5, 7) =~= spec_digits(ts.month as int, 2));
    assert(s.subrange(8, 10) =~= spec_digits(ts.day as int, 2));
    assert(s.subrange(11, 13) =~= spec_digits(ts.hour as int, 2));
    assert(s.subrange(14, 16) =~= spec_digits(ts.minute as int, 2));
    assert(s.subrange(17, 19) =~= spec_digits(ts.second as int, 2));
    assert(s.subrange(20, 29) =~= spec_digits(ts.nanos as int, 9));
    lemma_digits_all_digits(ts.year as int, 4);
    lemma_digits_all_digits(ts.month as int, 2);
    lemma_digits_all_digits(ts.day as int, 2);
    lemma_digits_all_digits(ts.hour as int, 2);
    lemma_digits_all_digits(ts.minute as int, 2);
    lemma_digits_all_digits(ts.second as int, 2);
    lemma_digits_all_digits(ts.nanos as int, 9);
    lemma_digits_roundtrip(ts.year as int, 4);
    lemma_digits_roundtrip(ts.month as int, 2);
    lemma_digits_roundtrip(ts.day as int, 2);
    lemma_digits_roundtrip(ts.hour as int, 2);
    lemma_digits_roundtrip(ts.minute as int, 2);
    lemma_digits_roundtrip(ts.second as int, 2);
    lemma_digits_roundtrip(ts.nanos as int, 9);
}

/// The zero point: what stands in when an origin reports no time.
pub open spec fn epoch_ts() -> Timestamp {
    Timestamp { year: 1970, month: 1, day: 1, hour: 0, minute: 0, second: 0, nanos: 0 }
}

/// An origin's reported time, or the epoch when it reported none.
pub open spec fn or_epoch(o: Option<Timestamp>) -> Timestamp {
    match o {
        Some(t) => t,
        None => epoch_ts(),
    }
}

/// The rendering is injective on well-formed timestamps: equal texts mean
/// equal times.
pub proof fn lemma_render_injective(a: Timestamp, b: Timestamp)
    requires
        a.wf(),
        b.wf(),
        a.render_spec() == b.render_spec(),
    ensures
        a == b,
{
    lemma_ts_roundtrip(a);
    lemma_ts_roundtrip(b);
}

} // verus!
