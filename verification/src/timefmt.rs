//! Rendering and parsing of decimal fields and of the stored timestamp
//! format `YYYY-MM-DDTHH:MM:SS+HH:MM`.
//!
//! All fields are zero-padded to a fixed width, so the string order of two
//! rendered timestamps under one offset equals their chronological order,
//! and parsing a rendered timestamp gives the timestamp back exactly.

use vstd::prelude::*;
use crate::calendar::{Timestamp, month_len, ts_wf};

verus! {

pub open spec fn digit_char(n: int) -> char {
    if n == 0 {
        '0'
    } else if n == 1 {
        '1'
    } else if n == 2 {
        '2'
    } else if n == 3 {
        '3'
    } else if n == 4 {
        '4'
    } else if n == 5 {
        '5'
    } else if n == 6 {
        '6'
    } else if n == 7 {
        '7'
    } else if n == 8 {
        '8'
    } else {
        '9'
    }
}

/// The value of a decimal digit character, or -1 for any other character.
pub open spec fn char_digit(c: char) -> int {
    if c == '0' {
        0
    } else if c == '1' {
        1
    } else if c == '2' {
        2
    } else if c == '3' {
        3
    } else if c == '4' {
        4
    } else if c == '5' {
        5
    } else if c == '6' {
        6
    } else if c == '7' {
        7
    } else if c == '8' {
        8
    } else if c == '9' {
        9
    } else {
        -1
    }
}

pub open spec fn all_digits(s: Seq<char>) -> bool {
    forall|i: int| 0 <= i < s.len() ==> char_digit(#[trigger] s[i]) >= 0
}

pub open spec fn pow10(w: nat) -> int
    decreases w,
{
    if w == 0 {
        1
    } else {
        10 * pow10((w - 1) as nat)
    }
}

/// n in decimal, zero-padded to exactly w digits.
pub open spec fn spec_render_num(n: int, w: nat) -> Seq<char>
    decreases w,
{
    if w == 0 {
        Seq::empty()
    } else {
        spec_render_num(n / 10, (w - 1) as nat).push(digit_char(n % 10))
    }
}

/// The value of a digit string, most significant digit first.
pub open spec fn spec_parse_num(s: Seq<char>) -> int
    decreases s.len(),
{
    if s.len() == 0 {
        0
    } else {
        spec_parse_num(s.drop_last()) * 10 + char_digit(s.last())
    }
}

pub proof fn lemma_pow10_le(a: nat, b: nat)
    requires
        a <= b,
    ensures
        1 <= pow10(a) <= pow10(b),
    decreases b,
{
    if a < b {
        lemma_pow10_le(a, (b - 1) as nat);
    } else if a == 0 {
    } else {
        lemma_pow10_le((a - 1) as nat, (b - 1) as nat);
    }
}

/// Parsing a rendered number gives the number back.
pub proof fn lemma_num_round_trip(n: int, w: nat)
    requires
        0 <= n < pow10(w),
    ensures
        spec_render_num(n, w).len() == w,
        all_digits(spec_render_num(n, w)),
        spec_parse_num(spec_render_num(n, w)) == n,
    decreases w,
{
    if w == 0 {
    } else {
        let p = pow10((w - 1) as nat);
        assert(n == 10 * (n / 10) + n % 10);
        assert(n / 10 < p);
        lemma_num_round_trip(n / 10, (w - 1) as nat);
        let r0 = spec_render_num(n / 10, (w - 1) as nat);
        let r = r0.push(digit_char(n % 10));
        assert(r.drop_last() =~= r0);
        assert(char_digit(digit_char(n % 10)) == n % 10);
    }
}

/// Appends one decimal digit to a string.
pub fn push_digit(s: &mut String, d: u64)
    requires
        d < 10,
    ensures
        final(s)@ == old(s)@.push(digit_char(d as int)),
{
    proof {
        reveal_strlit("0");
        reveal_strlit("1");
        reveal_strlit("2");
        reveal_strlit("3");
        reveal_strlit("4");
        reveal_strlit("5");
        reveal_strlit("6");
        reveal_strlit("7");
        reveal_strlit("8");
        reveal_strlit("9");
    }
    let c: &str = match d {
        0 => "0",
        1 => "1",
        2 => "2",
        3 => "3",
        4 => "4",
        5 => "5",
        6 => "6",
        7 => "7",
        8 => "8",
        _ => "9",
    };
    s.append(c);
    proof {
        assert(final(s)@ =~= old(s)@.push(digit_char(d as int)));
    }
}

/// Appends n in decimal, zero-padded to exactly w digits.
pub fn append_num(s: &mut String, n: u64, w: u64)
    ensures
        final(s)@ == old(s)@ + spec_render_num(n as int, w as nat),
    decreases w,
{
    if w == 0 {
        proof {
            assert(old(s)@ + spec_render_num(n as int, 0) =~= old(s)@);
        }
    } else {
        append_num(s, n / 10, w - 1);
        push_digit(s, n % 10);
        proof {
            assert(old(s)@ + spec_render_num(n as int, w as nat) =~= (old(s)@ + spec_render_num(
                n as int / 10,
                (w - 1) as nat,
            )).push(digit_char(n as int % 10)));
        }
    }
}

/// The value of one digit character, if it is one.
pub fn digit_val(c: char) -> (r: Option<u64>)
    ensures
        match r {
            Some(d) => d < 10 && char_digit(c) == d,
            None => char_digit(c) < 0,
        },
{
    match c {
        '0' => Some(0),
        '1' => Some(1),
        '2' => Some(2),
        '3' => Some(3),
        '4' => Some(4),
        '5' => Some(5),
        '6' => Some(6),
        '7' => Some(7),
        '8' => Some(8),
        '9' => Some(9),
        _ => None,
    }
}

/// Reads the w characters of s at position from as a decimal number.
pub fn parse_num(s: &str, from: usize, w: usize) -> (r: Option<u64>)
    requires
        from + w <= s@.len(),
        from + w <= usize::MAX,
        w <= 8,
    ensures
        match r {
            Some(n) => all_digits(s@.subrange(from as int, from as int + w as int)) && n
                == spec_parse_num(s@.subrange(from as int, from as int + w as int)) && n < pow10(
                w as nat,
            ),
            None => !all_digits(s@.subrange(from as int, from as int + w as int)),
        },
{
    let mut acc: u64 = 0;
    let mut i: usize = 0;
    while i < w
        invariant
            i <= w,
            w <= 8,
            from + w <= s@.len(),
            from + w <= usize::MAX,
            all_digits(s@.subrange(from as int, from as int + i as int)),
            acc == spec_parse_num(s@.subrange(from as int, from as int + i as int)),
            acc < pow10(i as nat),
        decreases w - i,
    {
        let c: char = s.get_char(from + i);
        match digit_val(c) {
            Some(d) => {
                proof {
                    let pre = s@.subrange(from as int, from as int + i as int);
                    let post = s@.subrange(from as int, from as int + i as int + 1);
                    assert(post.drop_last() =~= pre);
                    assert(post.last() == s@[from as int + i as int]);
                    lemma_pow10_le((i + 1) as nat, 8);
                    assert(pow10(8) == 100000000) by {
                        reveal_with_fuel(pow10, 9);
                    }
                    assert(pow10((i + 1) as nat) == 10 * pow10(i as nat));
                    assert(acc * 10 + d < pow10((i + 1) as nat));
                }
                acc = acc * 10 + d;
                i = i + 1;
            },
            None => {
                proof {
                    let full = s@.subrange(from as int, from as int + w as int);
                    assert(full[i as int] == s@[from as int + i as int]);
                    assert(!all_digits(full));
                }
                return None;
            },
        }
    }
    proof {
        assert(s@.subrange(from as int, from as int + w as int) =~= s@.subrange(
            from as int,
            from as int + i as int,
        ));
    }
    Some(acc)
}

/// A digit string has a nonnegative value.
pub proof fn lemma_parse_num_nonneg(s: Seq<char>)
    requires
        all_digits(s),
    ensures
        spec_parse_num(s) >= 0,
    decreases s.len(),
{
    if s.len() > 0 {
        assert(all_digits(s.drop_last())) by {
            assert(forall|i: int|
                0 <= i < s.len() - 1 ==> s.drop_last()[i] == #[trigger] s[i]);
        }
        lemma_parse_num_nonneg(s.drop_last());
    }
}

pub open spec fn offset_abs(off: int) -> int {
    if off >= 0 {
        off
    } else {
        -off
    }
}

pub open spec fn sign_char(off: int) -> char {
    if off >= 0 {
        '+'
    } else {
        '-'
    }
}

/// The stored timestamp form `YYYY-MM-DDTHH:MM:SS+HH:MM`.
pub open spec fn spec_render_ts(t: Timestamp) -> Seq<char> {
    spec_render_num(t.year as int, 4) + seq!['-'] + spec_render_num(t.month as int, 2) + seq!['-']
        + spec_render_num(t.day as int, 2) + seq!['T'] + spec_render_num(t.hour as int, 2)
        + seq![':'] + spec_render_num(t.minute as int, 2) + seq![':'] + spec_render_num(
        t.second as int,
        2,
    ) + seq![sign_char(t.offset_minutes as int)] + spec_render_num(
        offset_abs(t.offset_minutes as int) / 60,
        2,
    ) + seq![':'] + spec_render_num(offset_abs(t.offset_minutes as int) % 60, 2)
}

/// The timestamp a stored string denotes, if it is well-formed.
pub open spec fn spec_parse_ts(s: Seq<char>) -> Option<Timestamp> {
    if s.len() != 25 {
        None
    } else if !(s[4] == '-' && s[7] == '-' && s[10] == 'T' && s[13] == ':' && s[16] == ':' && (s[19]
        == '+' || s[19] == '-') && s[22] == ':') {
        None
    } else if !(all_digits(s.subrange(0, 4)) && all_digits(s.subrange(5, 7)) && all_digits(
        s.subrange(8, 10),
    ) && all_digits(s.subrange(11, 13)) && all_digits(s.subrange(14, 16)) && all_digits(
        s.subrange(17, 19),
    ) && all_digits(s.subrange(20, 22)) && all_digits(s.subrange(23, 25))) {
        None
    } else {
        let offabs = spec_parse_num(s.subrange(20, 22)) * 60 + spec_parse_num(s.subrange(23, 25));
        let off = if s[19] == '-' {
            -offabs
        } else {
            offabs
        };
        let t = Timestamp {
            year: spec_parse_num(s.subrange(0, 4)) as u32,
            month: spec_parse_num(s.subrange(5, 7)) as u32,
            day: spec_parse_num(s.subrange(8, 10)) as u32,
            hour: spec_parse_num(s.subrange(11, 13)) as u32,
            minute: spec_parse_num(s.subrange(14, 16)) as u32,
            second: spec_parse_num(s.subrange(17, 19)) as u32,
            offset_minutes: off as i32,
        };
        if ts_wf(t) {
            Some(t)
        } else {
            None
        }
    }
}

/// Parsing a rendered timestamp gives the timestamp back.
pub proof fn lemma_ts_round_trip(t: Timestamp)
    requires
        ts_wf(t),
    ensures
        spec_render_ts(t).len() == 25,
        spec_parse_ts(spec_render_ts(t)) == Some(t),
{
    assert(pow10(4) == 10000 && pow10(2) == 100) by {
        reveal_with_fuel(pow10, 5);
    }
    let off = t.offset_minutes as int;
    let oa = offset_abs(off);
    let oh = oa / 60;
    let om = oa % 60;
    assert(oa == 60 * oh + om);
    lemma_num_round_trip(t.year as int, 4);
    lemma_num_round_trip(t.month as int, 2);
    lemma_num_round_trip(t.day as int, 2);
    lemma_num_round_trip(t.hour as int, 2);
    lemma_num_round_trip(t.minute as int, 2);
    lemma_num_round_trip(t.second as int, 2);
    lemma_num_round_trip(oh, 2);
    lemma_num_round_trip(om, 2);
    let r = spec_render_ts(t);
    assert(r.len() == 25);
    assert(r.subrange(0, 4) =~= spec_render_num(t.year as int, 4));
    assert(r.subrange(5, 7) =~= spec_render_num(t.month as int, 2));
    assert(r.subrange(8, 10) =~= spec_render_num(t.day as int, 2));
    assert(r.subrange(11, 13) =~= spec_render_num(t.hour as int, 2));
    assert(r.subrange(14, 16) =~= spec_render_num(t.minute as int, 2));
    assert(r.subrange(17, 19) =~= spec_render_num(t.second as int, 2));
    assert(r.subrange(20, 22) =~= spec_render_num(oh, 2));
    assert(r.subrange(23, 25) =~= spec_render_num(om, 2));
    assert(r[4] == '-' && r[7] == '-' && r[10] == 'T' && r[13] == ':' && r[16] == ':' && r[19]
        == sign_char(off) && r[22] == ':');
    assert(spec_parse_ts(r) == Some(t));
}

/// The stored form of a timestamp.
pub fn render_ts(t: &Timestamp) -> (r: String)
    requires
        ts_wf(*t),
    ensures
        r@ == spec_render_ts(*t),
{
    proof {
        reveal_strlit("-");
        reveal_strlit("T");
        reveal_strlit(":");
        reveal_strlit("+");
    }
    let mut s = String::new();
    append_num(&mut s, t.year as u64, 4);
    s.append("-");
    append_num(&mut s, t.month as u64, 2);
    s.append("-");
    append_num(&mut s, t.day as u64, 2);
    s.append("T");
    append_num(&mut s, t.hour as u64, 2);
    s.append(":");
    append_num(&mut s, t.minute as u64, 2);
    s.append(":");
    append_num(&mut s, t.second as u64, 2);
    let oa: u64 = if t.offset_minutes >= 0 {
        s.append("+");
        t.offset_minutes as u64
    } else {
        s.append("-");
        (-t.offset_minutes) as u64
    };
    append_num(&mut s, oa / 60, 2);
    s.append(":");
    append_num(&mut s, oa % 60, 2);
    proof {
        assert(s@ =~= spec_render_ts(*t));
    }
    s
}

/// The timestamp a stored string denotes, if any.
pub fn parse_ts(s: &str) -> (r: Option<Timestamp>)
    ensures
        r == spec_parse_ts(s@),
{
    if s.unicode_len() != 25 {
        return None;
    }
    if !(s.get_char(4) == '-' && s.get_char(7) == '-' && s.get_char(10) == 'T' && s.get_char(13)
        == ':' && s.get_char(16) == ':' && (s.get_char(19) == '+' || s.get_char(19) == '-')
        && s.get_char(22) == ':') {
        return None;
    }
    let year = parse_num(s, 0, 4);
    let month = parse_num(s, 5, 2);
    let day = parse_num(s, 8, 2);
    let hour = parse_num(s, 11, 2);
    let minute = parse_num(s, 14, 2);
    let second = parse_num(s, 17, 2);
    let offh = parse_num(s, 20, 2);
    let offm = parse_num(s, 23, 2);
    match (year, month, day, hour, minute, second, offh, offm) {
        (
            Some(year),
            Some(month),
            Some(day),
            Some(hour),
            Some(minute),
            Some(second),
            Some(offh),
            Some(offm),
        ) => {
            proof {
                assert(pow10(2) == 100 && pow10(4) == 10000) by {
                    reveal_with_fuel(pow10, 5);
                }
            }
            let offabs: u64 = offh * 60 + offm;
            let off: i32 = if s.get_char(19) == '-' {
                -(offabs as i32)
            } else {
                offabs as i32
            };
            let t = Timestamp {
                year: year as u32,
                month: month as u32,
                day: day as u32,
                hour: hour as u32,
                minute: minute as u32,
                second: second as u32,
                offset_minutes: off,
            };
            let wf: bool = 1 <= t.year && t.year <= 9999 && 1 <= t.month && t.month <= 12 && 1
                <= t.day && t.day <= month_len_x_of(&t) && t.hour < 24 && t.minute < 60 && t.second
                < 60 && -1440 < t.offset_minutes && t.offset_minutes < 1440;
            if wf {
                assert(ts_wf(t));
                Some(t)
            } else {
                assert(!ts_wf(t));
                None
            }
        },
        _ => None,
    }
}

/// The month length of a timestamp's own month.
fn month_len_x_of(t: &Timestamp) -> (r: u32)
    ensures
        r == month_len(t.year as int, t.month as int),
{
    crate::calendar::month_len_x(t.year, t.month)
}

/// The quarantine suffix `corrupt-YYYYMMDDHHMMSS` for a damaged store
/// document, stamped with the moment of discovery.
pub open spec fn spec_corrupt_suffix(t: Timestamp) -> Seq<char> {
    seq!['c', 'o', 'r', 'r', 'u', 'p', 't', '-'] + spec_render_num(t.year as int, 4)
        + spec_render_num(t.month as int, 2) + spec_render_num(t.day as int, 2) + spec_render_num(
        t.hour as int,
        2,
    ) + spec_render_num(t.minute as int, 2) + spec_render_num(t.second as int, 2)
}

/// The quarantine suffix for a damaged store document.
pub fn corrupt_suffix(t: &Timestamp) -> (r: String)
    ensures
        r@ == spec_corrupt_suffix(*t),
{
    proof {
        reveal_strlit("corrupt-");
    }
    let mut s = String::new();
    s.append("corrupt-");
    append_num(&mut s, t.year as u64, 4);
    append_num(&mut s, t.month as u64, 2);
    append_num(&mut s, t.day as u64, 2);
    append_num(&mut s, t.hour as u64, 2);
    append_num(&mut s, t.minute as u64, 2);
    append_num(&mut s, t.second as u64, 2);
    proof {
        assert(s@ =~= spec_corrupt_suffix(*t));
    }
    s
}

} // verus!
