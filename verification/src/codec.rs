//! The stored document format of the alarm collection, with a proof that
//! parsing a rendered document gives the collection back.
//!
//! A document is an eight-digit record count followed by the records. Every
//! text field is length-prefixed (eight digits), so arbitrary titles and
//! links round-trip unescaped; weekdays are digit-coded, the lead is three
//! digits, and each record ends in a newline.

use vstd::prelude::*;
use crate::alarm::{Alarm, AlarmV, alarms_view, copy_days, opt_str_view};
use crate::calendar::{Weekday, weekday_of_index};
use crate::timefmt::{
    all_digits, append_num, char_digit, digit_char, digit_val, lemma_num_round_trip,
    lemma_parse_num_nonneg, parse_num, pow10, spec_parse_num, spec_render_num,
};

verus! {

/// Whether a record can be rendered: fields short enough for their length
/// prefixes and the lead within its range.
pub open spec fn alarm_v_wf(a: AlarmV) -> bool {
    &&& a.id.len() < pow10(8)
    &&& a.title.len() < pow10(8)
    &&& a.time_label.len() < pow10(8)
    &&& a.next_fire_time.len() < pow10(8)
    &&& match a.url {
        Some(u) => u.len() < pow10(8),
        None => true,
    }
    &&& a.repeat_days.len() < pow10(8)
    &&& 0 <= a.lead_minutes <= 720
}

pub open spec fn spec_render_str(s: Seq<char>) -> Seq<char> {
    spec_render_num(s.len() as int, 8) + s
}

pub open spec fn spec_parse_str(s: Seq<char>) -> Option<(Seq<char>, Seq<char>)> {
    if s.len() >= 8 && all_digits(s.take(8)) {
        let n = spec_parse_num(s.take(8));
        if s.len() >= 8 + n {
            Some((s.subrange(8, 8 + n), s.skip(8 + n)))
        } else {
            None
        }
    } else {
        None
    }
}

pub open spec fn spec_render_opt(u: Option<Seq<char>>) -> Seq<char> {
    match u {
        None => seq!['N'],
        Some(s) => seq!['S'] + spec_render_str(s),
    }
}

pub open spec fn spec_parse_opt(s: Seq<char>) -> Option<(Option<Seq<char>>, Seq<char>)> {
    if s.len() >= 1 && s[0] == 'N' {
        Some((None, s.skip(1)))
    } else if s.len() >= 1 && s[0] == 'S' {
        match spec_parse_str(s.skip(1)) {
            Some((x, r)) => Some((Some(x), r)),
            None => None,
        }
    } else {
        None
    }
}

pub open spec fn flag_char(b: bool) -> char {
    if b {
        'T'
    } else {
        'F'
    }
}

pub open spec fn spec_parse_flag(s: Seq<char>) -> Option<(bool, Seq<char>)> {
    if s.len() >= 1 && s[0] == 'T' {
        Some((true, s.skip(1)))
    } else if s.len() >= 1 && s[0] == 'F' {
        Some((false, s.skip(1)))
    } else {
        None
    }
}

pub open spec fn day_num(w: Weekday) -> int {
    match w {
        Weekday::Mon => 0,
        Weekday::Tue => 1,
        Weekday::Wed => 2,
        Weekday::Thu => 3,
        Weekday::Fri => 4,
        Weekday::Sat => 5,
        Weekday::Sun => 6,
    }
}

pub open spec fn day_char(w: Weekday) -> char {
    digit_char(day_num(w))
}

pub open spec fn spec_render_days(days: Seq<Weekday>) -> Seq<char> {
    spec_render_num(days.len() as int, 8) + days.map_values(|w: Weekday| day_char(w))
}

pub open spec fn spec_parse_day_chars(s: Seq<char>, n: int) -> Option<(Seq<Weekday>, Seq<char>)>
    decreases n,
{
    if n <= 0 {
        Some((Seq::empty(), s))
    } else if s.len() >= 1 && 0 <= char_digit(s[0]) < 7 {
        match spec_parse_day_chars(s.skip(1), n - 1) {
            Some((l, r)) => Some((seq![weekday_of_index(char_digit(s[0]))] + l, r)),
            None => None,
        }
    } else {
        None
    }
}

pub open spec fn spec_parse_days(s: Seq<char>) -> Option<(Seq<Weekday>, Seq<char>)> {
    if s.len() >= 8 && all_digits(s.take(8)) {
        spec_parse_day_chars(s.skip(8), spec_parse_num(s.take(8)))
    } else {
        None
    }
}

pub open spec fn spec_parse_lead(s: Seq<char>) -> Option<(int, Seq<char>)> {
    if s.len() >= 3 && all_digits(s.take(3)) {
        let v = spec_parse_num(s.take(3));
        if v <= 720 {
            Some((v, s.skip(3)))
        } else {
            None
        }
    } else {
        None
    }
}

pub open spec fn spec_parse_nl(s: Seq<char>) -> Option<Seq<char>> {
    if s.len() >= 1 && s[0] == '\n' {
        Some(s.skip(1))
    } else {
        None
    }
}

pub open spec fn spec_render_alarm(a: AlarmV) -> Seq<char> {
    spec_render_str(a.id) + spec_render_str(a.title) + spec_render_str(a.time_label)
        + spec_render_str(a.next_fire_time) + spec_render_opt(a.url) + seq![
        flag_char(a.repeat_enabled),
    ] + spec_render_days(a.repeat_days) + spec_render_num(a.lead_minutes, 3) + seq!['\n']
}

pub open spec fn spec_parse_alarm(s: Seq<char>) -> Option<(AlarmV, Seq<char>)> {
    match spec_parse_str(s) {
        None => None,
        Some((id, s1)) => match spec_parse_str(s1) {
            None => None,
            Some((title, s2)) => match spec_parse_str(s2) {
                None => None,
                Some((time_label, s3)) => match spec_parse_str(s3) {
                    None => None,
                    Some((next_fire_time, s4)) => match spec_parse_opt(s4) {
                        None => None,
                        Some((url, s5)) => match spec_parse_flag(s5) {
                            None => None,
                            Some((repeat_enabled, s6)) => match spec_parse_days(s6) {
                                None => None,
                                Some((repeat_days, s7)) => match spec_parse_lead(s7) {
                                    None => None,
                                    Some((lead_minutes, s8)) => match spec_parse_nl(s8) {
                                        None => None,
                                        Some(s9) => Some(
                                            (
                                                AlarmV {
                                                    id,
                                                    title,
                                                    time_label,
                                                    next_fire_time,
                                                    url,
                                                    repeat_enabled,
                                                    repeat_days,
                                                    lead_minutes,
                                                },
                                                s9,
                                            ),
                                        ),
                                    },
                                },
                            },
                        },
                    },
                },
            },
        },
    }
}

pub open spec fn spec_render_list(s: Seq<AlarmV>) -> Seq<char>
    decreases s.len(),
{
    if s.len() == 0 {
        Seq::empty()
    } else {
        spec_render_alarm(s[0]) + spec_render_list(s.drop_first())
    }
}

pub open spec fn spec_parse_alarms(s: Seq<char>, n: int) -> Option<(Seq<AlarmV>, Seq<char>)>
    decreases n,
{
    if n <= 0 {
        Some((Seq::empty(), s))
    } else {
        match spec_parse_alarm(s) {
            None => None,
            Some((a, r)) => match spec_parse_alarms(r, n - 1) {
                None => None,
                Some((l, rest)) => Some((seq![a] + l, rest)),
            },
        }
    }
}

/// The whole stored document of a collection.
pub open spec fn spec_render_doc(s: Seq<AlarmV>) -> Seq<char> {
    spec_render_num(s.len() as int, 8) + spec_render_list(s)
}

/// The collection a stored document denotes, if it is well-formed.
pub open spec fn spec_parse_doc(s: Seq<char>) -> Option<Seq<AlarmV>> {
    if s.len() >= 8 && all_digits(s.take(8)) {
        match spec_parse_alarms(s.skip(8), spec_parse_num(s.take(8))) {
            Some((l, r)) => if r.len() == 0 {
                Some(l)
            } else {
                None
            },
            None => None,
        }
    } else {
        None
    }
}

pub proof fn lemma_parse_str_rt(x: Seq<char>, rest: Seq<char>)
    requires
        x.len() < pow10(8),
    ensures
        spec_parse_str(spec_render_str(x) + rest) == Some((x, rest)),
{
    let s = spec_render_str(x) + rest;
    lemma_num_round_trip(x.len() as int, 8);
    assert(s.take(8) =~= spec_render_num(x.len() as int, 8));
    assert(s.subrange(8, 8 + x.len() as int) =~= x);
    assert(s.skip(8 + x.len() as int) =~= rest);
}

pub proof fn lemma_parse_opt_rt(u: Option<Seq<char>>, rest: Seq<char>)
    requires
        match u {
            Some(x) => x.len() < pow10(8),
            None => true,
        },
    ensures
        spec_parse_opt(spec_render_opt(u) + rest) == Some((u, rest)),
{
    let s = spec_render_opt(u) + rest;
    match u {
        None => {
            assert(s.skip(1) =~= rest);
        },
        Some(x) => {
            assert(s[0] == 'S');
            assert(s.skip(1) =~= spec_render_str(x) + rest);
            lemma_parse_str_rt(x, rest);
        },
    }
}

pub proof fn lemma_parse_flag_rt(b: bool, rest: Seq<char>)
    ensures
        spec_parse_flag(seq![flag_char(b)] + rest) == Some((b, rest)),
{
    let s = seq![flag_char(b)] + rest;
    assert(s.skip(1) =~= rest);
}

pub proof fn lemma_parse_day_chars_rt(days: Seq<Weekday>, rest: Seq<char>)
    ensures
        spec_parse_day_chars(days.map_values(|w: Weekday| day_char(w)) + rest, days.len() as int)
            == Some((days, rest)),
    decreases days.len(),
{
    let chars = days.map_values(|w: Weekday| day_char(w));
    let s = chars + rest;
    if days.len() == 0 {
        assert(s =~= rest);
        assert(Seq::<Weekday>::empty() =~= days);
    } else {
        assert(s[0] == day_char(days[0]));
        assert(0 <= char_digit(day_char(days[0])) < 7);
        assert(weekday_of_index(char_digit(day_char(days[0]))) == days[0]);
        assert(s.skip(1) =~= days.drop_first().map_values(|w: Weekday| day_char(w)) + rest);
        lemma_parse_day_chars_rt(days.drop_first(), rest);
        assert(seq![days[0]] + days.drop_first() =~= days);
    }
}

pub proof fn lemma_parse_days_rt(days: Seq<Weekday>, rest: Seq<char>)
    requires
        days.len() < pow10(8),
    ensures
        spec_parse_days(spec_render_days(days) + rest) == Some((days, rest)),
{
    let s = spec_render_days(days) + rest;
    lemma_num_round_trip(days.len() as int, 8);
    assert(s.take(8) =~= spec_render_num(days.len() as int, 8));
    assert(s.skip(8) =~= days.map_values(|w: Weekday| day_char(w)) + rest);
    lemma_parse_day_chars_rt(days, rest);
}

pub proof fn lemma_parse_lead_rt(lead: int, rest: Seq<char>)
    requires
        0 <= lead <= 720,
    ensures
        spec_parse_lead(spec_render_num(lead, 3) + rest) == Some((lead, rest)),
{
    let s = spec_render_num(lead, 3) + rest;
    assert(pow10(3) == 1000) by {
        reveal_with_fuel(pow10, 4);
    }
    lemma_num_round_trip(lead, 3);
    assert(s.take(3) =~= spec_render_num(lead, 3));
    assert(s.skip(3) =~= rest);
}

/// Parsing a rendered record gives the record back.
pub proof fn lemma_parse_alarm_rt(a: AlarmV, rest: Seq<char>)
    requires
        alarm_v_wf(a),
    ensures
        spec_parse_alarm(spec_render_alarm(a) + rest) == Some((a, rest)),
{
    let t8 = seq!['\n'] + rest;
    let t7 = spec_render_num(a.lead_minutes, 3) + t8;
    let t6 = spec_render_days(a.repeat_days) + t7;
    let t5 = seq![flag_char(a.repeat_enabled)] + t6;
    let t4 = spec_render_opt(a.url) + t5;
    let t3 = spec_render_str(a.next_fire_time) + t4;
    let t2 = spec_render_str(a.time_label) + t3;
    let t1 = spec_render_str(a.title) + t2;
    let s = spec_render_alarm(a) + rest;
    assert(s =~= spec_render_str(a.id) + t1);
    lemma_parse_str_rt(a.id, t1);
    lemma_parse_str_rt(a.title, t2);
    lemma_parse_str_rt(a.time_label, t3);
    lemma_parse_str_rt(a.next_fire_time, t4);
    lemma_parse_opt_rt(a.url, t5);
    lemma_parse_flag_rt(a.repeat_enabled, t6);
    lemma_parse_days_rt(a.repeat_days, t7);
    lemma_parse_lead_rt(a.lead_minutes, t8);
    assert(t8.skip(1) =~= rest);
}

pub proof fn lemma_parse_alarms_rt(list: Seq<AlarmV>, rest: Seq<char>)
    requires
        forall|i: int| 0 <= i < list.len() ==> alarm_v_wf(#[trigger] list[i]),
    ensures
        spec_parse_alarms(spec_render_list(list) + rest, list.len() as int) == Some((list, rest)),
    decreases list.len(),
{
    let s = spec_render_list(list) + rest;
    if list.len() == 0 {
        assert(s =~= rest);
        assert(Seq::<AlarmV>::empty() =~= list);
    } else {
        let tail = spec_render_list(list.drop_first()) + rest;
        assert(s =~= spec_render_alarm(list[0]) + tail);
        lemma_parse_alarm_rt(list[0], tail);
        lemma_parse_alarms_rt(list.drop_first(), rest);
        assert(seq![list[0]] + list.drop_first() =~= list);
    }
}

/// Parsing a rendered document gives the collection back: the round trip
/// of saving and reloading the store is the identity on the records.
pub proof fn lemma_doc_round_trip(list: Seq<AlarmV>)
    requires
        list.len() < pow10(8),
        forall|i: int| 0 <= i < list.len() ==> alarm_v_wf(#[trigger] list[i]),
    ensures
        spec_parse_doc(spec_render_doc(list)) == Some(list),
{
    let s = spec_render_doc(list);
    lemma_num_round_trip(list.len() as int, 8);
    assert(s.take(8) =~= spec_render_num(list.len() as int, 8));
    assert(s.skip(8) =~= spec_render_list(list) + Seq::<char>::empty());
    lemma_parse_alarms_rt(list, Seq::empty());
}

pub proof fn lemma_render_list_snoc(s: Seq<AlarmV>, x: AlarmV)
    ensures
        spec_render_list(s.push(x)) == spec_render_list(s) + spec_render_alarm(x),
    decreases s.len(),
{
    if s.len() == 0 {
        assert(s.push(x)[0] == x);
        assert(s.push(x).drop_first() =~= Seq::<AlarmV>::empty());
        assert(spec_render_list(Seq::<AlarmV>::empty()) == Seq::<char>::empty());
        assert(spec_render_list(s.push(x)) == spec_render_alarm(x) + Seq::<char>::empty());
        assert(spec_render_list(s.push(x)) =~= spec_render_list(s) + spec_render_alarm(x));
    } else {
        assert(s.push(x)[0] == s[0]);
        assert(s.push(x).drop_first() =~= s.drop_first().push(x));
        lemma_render_list_snoc(s.drop_first(), x);
        assert(spec_render_list(s.push(x)) == spec_render_alarm(s[0]) + spec_render_list(
            s.drop_first().push(x),
        ));
        assert(spec_render_list(s) == spec_render_alarm(s[0]) + spec_render_list(s.drop_first()));
        assert(spec_render_list(s.push(x)) =~= spec_render_list(s) + spec_render_alarm(x));
    }
}

/// Appends a length-prefixed text field.
fn append_str(out: &mut String, s: &String)
    requires
        s@.len() < pow10(8),
    ensures
        final(out)@ == old(out)@ + spec_render_str(s@),
{
    proof {
        assert(pow10(8) == 100000000) by {
            reveal_with_fuel(pow10, 9);
        }
    }
    let n: usize = s.unicode_len();
    append_num(out, n as u64, 8);
    out.append(s.as_str());
    proof {
        assert(final(out)@ =~= old(out)@ + spec_render_str(s@));
    }
}

/// Appends one rendered record.
pub fn append_alarm(out: &mut String, a: &Alarm)
    requires
        alarm_v_wf(a@),
    ensures
        final(out)@ == old(out)@ + spec_render_alarm(a@),
{
    proof {
        reveal_strlit("N");
        reveal_strlit("S");
        reveal_strlit("T");
        reveal_strlit("F");
        reveal_strlit("\n");
    }
    append_str(out, &a.id);
    append_str(out, &a.title);
    append_str(out, &a.time_label);
    append_str(out, &a.next_fire_time);
    match &a.url {
        None => out.append("N"),
        Some(u) => {
            out.append("S");
            append_str(out, u);
        },
    }
    if a.repeat_enabled {
        out.append("T");
    } else {
        out.append("F");
    }
    append_num(out, a.repeat_days.len() as u64, 8);
    let ghost head = out@;
    let mut i: usize = 0;
    while i < a.repeat_days.len()
        invariant
            i <= a.repeat_days@.len(),
            out@ == head + a@.repeat_days.take(i as int).map_values(|w: Weekday| day_char(w)),
        decreases a.repeat_days@.len() - i,
    {
        let d: u64 = day_code(a.repeat_days[i]);
        crate::timefmt::push_digit(out, d);
        proof {
            assert(a@.repeat_days.take(i as int + 1).map_values(|w: Weekday| day_char(w))
                =~= a@.repeat_days.take(i as int).map_values(|w: Weekday| day_char(w)).push(
                day_char(a@.repeat_days[i as int]),
            ));
            assert(out@ =~= head + a@.repeat_days.take(i as int + 1).map_values(
                |w: Weekday| day_char(w),
            ));
        }
        i = i + 1;
    }
    proof {
        assert(a@.repeat_days.take(a@.repeat_days.len() as int) =~= a@.repeat_days);
    }
    append_num(out, a.lead_minutes as u64, 3);
    out.append("\n");
    proof {
        assert(final(out)@ =~= old(out)@ + spec_render_alarm(a@));
    }
}

/// The digit code of a weekday.
pub fn day_code(w: Weekday) -> (r: u64)
    ensures
        r == day_num(w),
        r < 7,
{
    match w {
        Weekday::Mon => 0,
        Weekday::Tue => 1,
        Weekday::Wed => 2,
        Weekday::Thu => 3,
        Weekday::Fri => 4,
        Weekday::Sat => 5,
        Weekday::Sun => 6,
    }
}

/// Renders the whole collection as the stored document.
pub fn render_doc(v: &Vec<Alarm>) -> (r: String)
    requires
        v@.len() < pow10(8),
        forall|i: int| 0 <= i < v@.len() ==> alarm_v_wf(#[trigger] v@[i]@),
    ensures
        r@ == spec_render_doc(alarms_view(v@)),
{
    proof {
        assert(pow10(8) == 100000000) by {
            reveal_with_fuel(pow10, 9);
        }
    }
    let mut out = String::new();
    append_num(&mut out, v.len() as u64, 8);
    let mut i: usize = 0;
    while i < v.len()
        invariant
            i <= v@.len(),
            v@.len() < pow10(8),
            forall|k: int| 0 <= k < v@.len() ==> alarm_v_wf(#[trigger] v@[k]@),
            out@ == spec_render_num(v@.len() as int, 8) + spec_render_list(
                alarms_view(v@.take(i as int)),
            ),
        decreases v@.len() - i,
    {
        append_alarm(&mut out, &v[i]);
        proof {
            assert(alarms_view(v@.take(i as int + 1)) =~= alarms_view(v@.take(i as int)).push(
                v@[i as int]@,
            ));
            lemma_render_list_snoc(alarms_view(v@.take(i as int)), v@[i as int]@);
        }
        i = i + 1;
    }
    proof {
        assert(alarms_view(v@.take(v@.len() as int)) =~= alarms_view(v@));
    }
    out
}

/// Reads a length-prefixed text field.
fn parse_str_at(s: &str, pos: usize) -> (r: Option<(String, usize)>)
    requires
        pos <= s@.len(),
    ensures
        match r {
            Some(p) => spec_parse_str(s@.skip(pos as int)) == Some(
                (p.0@, s@.skip(p.1 as int)),
            ) && pos <= p.1 <= s@.len() && p.0@.len() < pow10(8),
            None => spec_parse_str(s@.skip(pos as int)) is None,
        },
{
    proof {
        assert(pow10(8) == 100000000) by {
            reveal_with_fuel(pow10, 9);
        }
    }
    let len: usize = s.unicode_len();
    let ghost tail = s@.skip(pos as int);
    if len - pos < 8 {
        return None;
    }
    proof {
        assert(tail.take(8) =~= s@.subrange(pos as int, pos as int + 8));
    }
    let n: u64 = match parse_num(s, pos, 8) {
        Some(n) => n,
        None => {
            return None;
        },
    };
    let n_us: usize = n as usize;
    if n_us > len - pos - 8 {
        return None;
    }
    let x: String = s.substring_char(pos + 8, pos + 8 + n_us).to_owned();
    proof {
        assert(tail.subrange(8, 8 + n as int) =~= s@.subrange(
            pos as int + 8,
            pos as int + 8 + n as int,
        ));
        assert(tail.skip(8 + n as int) =~= s@.skip(pos as int + 8 + n as int));
    }
    Some((x, pos + 8 + n_us))
}

/// Reads an optional text field.
fn parse_opt_at(s: &str, pos: usize) -> (r: Option<(Option<String>, usize)>)
    requires
        pos <= s@.len(),
    ensures
        match r {
            Some(p) => spec_parse_opt(s@.skip(pos as int)) == Some(
                (opt_str_view(p.0), s@.skip(p.1 as int)),
            ) && pos <= p.1 <= s@.len() && (match p.0 {
                Some(u) => u@.len() < pow10(8),
                None => true,
            }),
            None => spec_parse_opt(s@.skip(pos as int)) is None,
        },
{
    let len: usize = s.unicode_len();
    let ghost tail = s@.skip(pos as int);
    if pos >= len {
        return None;
    }
    let c: char = s.get_char(pos);
    proof {
        assert(tail[0] == s@[pos as int]);
        assert(tail.skip(1) =~= s@.skip(pos as int + 1));
    }
    if c == 'N' {
        Some((None, pos + 1))
    } else if c == 'S' {
        match parse_str_at(s, pos + 1) {
            Some((x, e)) => Some((Some(x), e)),
            None => None,
        }
    } else {
        None
    }
}

/// Reads the repeat flag.
fn parse_flag_at(s: &str, pos: usize) -> (r: Option<(bool, usize)>)
    requires
        pos <= s@.len(),
    ensures
        match r {
            Some(p) => spec_parse_flag(s@.skip(pos as int)) == Some(
                (p.0, s@.skip(p.1 as int)),
            ) && pos <= p.1 <= s@.len(),
            None => spec_parse_flag(s@.skip(pos as int)) is None,
        },
{
    let len: usize = s.unicode_len();
    let ghost tail = s@.skip(pos as int);
    if pos >= len {
        return None;
    }
    let c: char = s.get_char(pos);
    proof {
        assert(tail[0] == s@[pos as int]);
        assert(tail.skip(1) =~= s@.skip(pos as int + 1));
    }
    if c == 'T' {
        Some((true, pos + 1))
    } else if c == 'F' {
        Some((false, pos + 1))
    } else {
        None
    }
}

pub open spec fn spec_day_compose(
    pre: Seq<Weekday>,
    r: Option<(Seq<Weekday>, Seq<char>)>,
) -> Option<(Seq<Weekday>, Seq<char>)> {
    match r {
        None => None,
        Some((l, rest)) => Some((pre + l, rest)),
    }
}

/// Reads the weekday list.
fn parse_days_at(s: &str, pos: usize) -> (r: Option<(Vec<Weekday>, usize)>)
    requires
        pos <= s@.len(),
    ensures
        match r {
            Some(p) => spec_parse_days(s@.skip(pos as int)) == Some(
                (p.0@, s@.skip(p.1 as int)),
            ) && pos <= p.1 <= s@.len() && p.0@.len() < pow10(8),
            None => spec_parse_days(s@.skip(pos as int)) is None,
        },
{
    proof {
        assert(pow10(8) == 100000000) by {
            reveal_with_fuel(pow10, 9);
        }
    }
    let len: usize = s.unicode_len();
    let ghost tail = s@.skip(pos as int);
    if len - pos < 8 {
        return None;
    }
    proof {
        assert(tail.take(8) =~= s@.subrange(pos as int, pos as int + 8));
        assert(tail.skip(8) =~= s@.skip(pos as int + 8));
    }
    let n: u64 = match parse_num(s, pos, 8) {
        Some(n) => n,
        None => {
            return None;
        },
    };
    let n_us: usize = n as usize;
    let mut out: Vec<Weekday> = Vec::new();
    let mut cur: usize = pos + 8;
    let mut i: usize = 0;
    while i < n_us
        invariant
            out@.len() == i <= n_us,
            n_us == n < pow10(8),
            pos + 8 <= cur <= s@.len(),
            len == s@.len(),
            spec_parse_days(s@.skip(pos as int)) == spec_parse_day_chars(
                s@.skip(pos as int + 8),
                n as int,
            ),
            spec_parse_day_chars(s@.skip(pos as int + 8), n as int) == spec_day_compose(
                out@,
                spec_parse_day_chars(s@.skip(cur as int), n as int - i as int),
            ),
        decreases n_us - i,
    {
        let ghost k = n as int - i as int;
        let ghost t = s@.skip(cur as int);
        if cur >= len {
            proof {
                assert(t.len() == 0);
                assert(spec_parse_day_chars(t, k) is None);
            }
            return None;
        }
        let c: char = s.get_char(cur);
        proof {
            assert(t[0] == s@[cur as int]);
            assert(t.skip(1) =~= s@.skip(cur as int + 1));
        }
        let d: u64 = match digit_val(c) {
            Some(d) => d,
            None => {
                return None;
            },
        };
        if d >= 7 {
            return None;
        }
        let wd: Weekday = crate::calendar::weekday_from_index(d as u32);
        proof {
            let inner = spec_parse_day_chars(s@.skip(cur as int + 1), k - 1);
            if inner is Some {
                let l = inner->Some_0.0;
                assert(out@ + (seq![wd] + l) =~= out@.push(wd) + l);
            }
            assert(spec_day_compose(out@, spec_parse_day_chars(t, k)) == spec_day_compose(
                out@.push(wd),
                inner,
            ));
        }
        out.push(wd);
        cur = cur + 1;
        i = i + 1;
    }
    proof {
        assert(spec_parse_day_chars(s@.skip(cur as int), 0) == Some(
            (Seq::<Weekday>::empty(), s@.skip(cur as int)),
        ));
        assert(out@ + Seq::<Weekday>::empty() =~= out@);
    }
    Some((out, cur))
}

/// Reads the three-digit lead field.
fn parse_lead_at(s: &str, pos: usize) -> (r: Option<(u64, usize)>)
    requires
        pos <= s@.len(),
    ensures
        match r {
            Some(p) => spec_parse_lead(s@.skip(pos as int)) == Some(
                (p.0 as int, s@.skip(p.1 as int)),
            ) && pos <= p.1 <= s@.len() && p.0 <= 720,
            None => spec_parse_lead(s@.skip(pos as int)) is None,
        },
{
    let len: usize = s.unicode_len();
    let ghost tail = s@.skip(pos as int);
    if len - pos < 3 {
        return None;
    }
    proof {
        assert(tail.take(3) =~= s@.subrange(pos as int, pos as int + 3));
        assert(tail.skip(3) =~= s@.skip(pos as int + 3));
    }
    let n: u64 = match parse_num(s, pos, 3) {
        Some(n) => n,
        None => {
            return None;
        },
    };
    if n > 720 {
        return None;
    }
    Some((n, pos + 3))
}

/// Reads the record terminator.
fn parse_nl_at(s: &str, pos: usize) -> (r: Option<usize>)
    requires
        pos <= s@.len(),
    ensures
        match r {
            Some(e) => spec_parse_nl(s@.skip(pos as int)) == Some(s@.skip(e as int)) && pos <= e
                <= s@.len(),
            None => spec_parse_nl(s@.skip(pos as int)) is None,
        },
{
    let len: usize = s.unicode_len();
    let ghost tail = s@.skip(pos as int);
    if pos >= len {
        return None;
    }
    let c: char = s.get_char(pos);
    proof {
        assert(tail[0] == s@[pos as int]);
        assert(tail.skip(1) =~= s@.skip(pos as int + 1));
    }
    if c == '\n' {
        Some(pos + 1)
    } else {
        None
    }
}

/// Reads one record.
fn parse_alarm_at(s: &str, pos: usize) -> (r: Option<(Alarm, usize)>)
    requires
        pos <= s@.len(),
    ensures
        match r {
            Some(p) => spec_parse_alarm(s@.skip(pos as int)) == Some(
                (p.0@, s@.skip(p.1 as int)),
            ) && pos <= p.1 <= s@.len() && alarm_v_wf(p.0@),
            None => spec_parse_alarm(s@.skip(pos as int)) is None,
        },
{
    let (id, p1) = match parse_str_at(s, pos) {
        Some(p) => p,
        None => {
            return None;
        },
    };
    let (title, p2) = match parse_str_at(s, p1) {
        Some(p) => p,
        None => {
            return None;
        },
    };
    let (time_label, p3) = match parse_str_at(s, p2) {
        Some(p) => p,
        None => {
            return None;
        },
    };
    let (next_fire_time, p4) = match parse_str_at(s, p3) {
        Some(p) => p,
        None => {
            return None;
        },
    };
    let (url, p5) = match parse_opt_at(s, p4) {
        Some(p) => p,
        None => {
            return None;
        },
    };
    let (repeat_enabled, p6) = match parse_flag_at(s, p5) {
        Some(p) => p,
        None => {
            return None;
        },
    };
    let (repeat_days, p7) = match parse_days_at(s, p6) {
        Some(p) => p,
        None => {
            return None;
        },
    };
    let (lead, p8) = match parse_lead_at(s, p7) {
        Some(p) => p,
        None => {
            return None;
        },
    };
    let p9: usize = match parse_nl_at(s, p8) {
        Some(e) => e,
        None => {
            return None;
        },
    };
    let a = Alarm {
        id,
        title,
        time_label,
        next_fire_time,
        url,
        repeat_enabled,
        repeat_days,
        lead_minutes: lead as i64,
    };
    Some((a, p9))
}

pub open spec fn spec_alarms_compose(
    pre: Seq<AlarmV>,
    r: Option<(Seq<AlarmV>, Seq<char>)>,
) -> Option<(Seq<AlarmV>, Seq<char>)> {
    match r {
        None => None,
        Some((l, rest)) => Some((pre + l, rest)),
    }
}

/// Reads a whole stored document back into a collection; any damage at
/// all makes the document unreadable as a whole.
pub fn parse_doc(s: &str) -> (r: Option<Vec<Alarm>>)
    ensures
        match r {
            Some(v) => spec_parse_doc(s@) == Some(alarms_view(v@)) && v@.len() < pow10(8) && forall|
                i: int,
            | 0 <= i < v@.len() ==> alarm_v_wf(#[trigger] v@[i]@),
            None => spec_parse_doc(s@) is None,
        },
{
    proof {
        assert(pow10(8) == 100000000) by {
            reveal_with_fuel(pow10, 9);
        }
    }
    let len: usize = s.unicode_len();
    if len < 8 {
        return None;
    }
    proof {
        assert(s@.take(8) =~= s@.subrange(0, 8));
    }
    let n: u64 = match parse_num(s, 0, 8) {
        Some(n) => n,
        None => {
            return None;
        },
    };
    let n_us: usize = n as usize;
    let mut out: Vec<Alarm> = Vec::new();
    let mut cur: usize = 8;
    let mut i: usize = 0;
    while i < n_us
        invariant
            out@.len() == i <= n_us,
            n_us == n < pow10(8),
            8 <= cur <= s@.len(),
            len == s@.len(),
            s@.len() >= 8,
            all_digits(s@.take(8)),
            n == spec_parse_num(s@.take(8)),
            forall|k: int| 0 <= k < out@.len() ==> alarm_v_wf(#[trigger] out@[k]@),
            spec_parse_alarms(s@.skip(8), n as int) == spec_alarms_compose(
                alarms_view(out@),
                spec_parse_alarms(s@.skip(cur as int), n as int - i as int),
            ),
        decreases n_us - i,
    {
        let ghost k = n as int - i as int;
        let (a, e) = match parse_alarm_at(s, cur) {
            Some(p) => p,
            None => {
                return None;
            },
        };
        proof {
            let inner = spec_parse_alarms(s@.skip(e as int), k - 1);
            if inner is Some {
                let l = inner->Some_0.0;
                assert(alarms_view(out@) + (seq![a@] + l) =~= alarms_view(out@.push(a)) + l);
            }
            assert(alarms_view(out@.push(a)) =~= alarms_view(out@).push(a@));
            assert(spec_alarms_compose(
                alarms_view(out@),
                spec_parse_alarms(s@.skip(cur as int), k),
            ) == spec_alarms_compose(alarms_view(out@.push(a)), inner));
        }
        out.push(a);
        cur = e;
        i = i + 1;
    }
    if cur != len {
        proof {
            assert(spec_parse_alarms(s@.skip(cur as int), 0) == Some(
                (Seq::<AlarmV>::empty(), s@.skip(cur as int)),
            ));
            assert(s@.skip(cur as int).len() > 0);
        }
        return None;
    }
    proof {
        assert(spec_parse_alarms(s@.skip(cur as int), 0) == Some(
            (Seq::<AlarmV>::empty(), s@.skip(cur as int)),
        ));
        assert(alarms_view(out@) + Seq::<AlarmV>::empty() =~= alarms_view(out@));
        assert(s@.skip(cur as int).len() == 0);
    }
    Some(out)
}

} // verus!
