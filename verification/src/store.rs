//! The alarm store: the authoritative collection of alarm records plus the
//! set of currently ringing alarm ids.
//!
//! All mutation goes through this type; callers render the collection with
//! [`AlarmStore::render`] after each mutating call and write the document
//! wherever it is kept. The ringing set is not part of the document: it is
//! empty after every restart, so alarms already due are announced once more.

use vstd::prelude::*;
use crate::AlarmError;
use crate::alarm::{Alarm, AlarmV, NewAlarmPayload, PayloadV, alarms_view};
use crate::calendar::{
    Timestamp, lemma_ts_of_unique, ts_instant, ts_of, ts_seconds, ts_to_secs, ts_wf,
};
use crate::codec::{alarm_v_wf, parse_doc, render_doc, spec_parse_doc, spec_render_doc};
use crate::nextfire::{clamp_lead, clamp_lead_minutes, compute_next_fire, spec_next_fire};
use crate::text::{lemma_trim_len, spec_trim, str_equal, trim_str};
use crate::timefmt::{lemma_ts_round_trip, parse_ts, pow10, render_ts, spec_parse_ts, spec_render_ts};

verus! {

/// Ascending order on the stored timestamp strings; because the stored
/// form is fixed-width and zero-padded, this is chronological order for
/// records sharing an offset.
pub open spec fn spec_str_lt(a: Seq<char>, b: Seq<char>) -> bool
    decreases a.len(),
{
    if b.len() == 0 {
        false
    } else if a.len() == 0 {
        true
    } else if (a[0] as u32) < (b[0] as u32) {
        true
    } else if (b[0] as u32) < (a[0] as u32) {
        false
    } else {
        spec_str_lt(a.drop_first(), b.drop_first())
    }
}

/// Stable insertion of a record into a sorted run: a record moves before
/// the first strictly later key only.
pub open spec fn spec_insert_sorted(x: AlarmV, s: Seq<AlarmV>) -> Seq<AlarmV>
    decreases s.len(),
{
    if s.len() == 0 {
        seq![x]
    } else if spec_str_lt(x.next_fire_time, s[0].next_fire_time) {
        seq![x] + s
    } else {
        seq![s[0]] + spec_insert_sorted(x, s.drop_first())
    }
}

/// The collection sorted ascending by the stored timestamp string, order
/// of equal keys preserved.
pub open spec fn spec_sort(s: Seq<AlarmV>) -> Seq<AlarmV>
    decreases s.len(),
{
    if s.len() == 0 {
        Seq::empty()
    } else {
        spec_insert_sorted(s.last(), spec_sort(s.drop_last()))
    }
}

/// Non-descending by the stored timestamp string.
pub open spec fn sorted_by_key(s: Seq<AlarmV>) -> bool {
    forall|i: int, j: int|
        0 <= i < j < s.len() ==> !spec_str_lt(
            (#[trigger] s[j]).next_fire_time,
            (#[trigger] s[i]).next_fire_time,
        )
}

pub proof fn lemma_str_lt_trans(a: Seq<char>, b: Seq<char>, c: Seq<char>)
    requires
        spec_str_lt(a, b),
        spec_str_lt(b, c),
    ensures
        spec_str_lt(a, c),
    decreases a.len(),
{
    if a.len() == 0 {
    } else {
        let a0 = a[0] as u32;
        let b0 = b[0] as u32;
        let c0 = c[0] as u32;
        if a0 < b0 {
        } else if b0 < c0 {
        } else {
            lemma_str_lt_trans(a.drop_first(), b.drop_first(), c.drop_first());
        }
    }
}

pub proof fn lemma_str_lt_irrefl(a: Seq<char>)
    ensures
        !spec_str_lt(a, a),
    decreases a.len(),
{
    if a.len() > 0 {
        lemma_str_lt_irrefl(a.drop_first());
    }
}

pub proof fn lemma_insert_len(x: AlarmV, s: Seq<AlarmV>)
    ensures
        spec_insert_sorted(x, s).len() == s.len() + 1,
    decreases s.len(),
{
    if s.len() > 0 && !spec_str_lt(x.next_fire_time, s[0].next_fire_time) {
        lemma_insert_len(x, s.drop_first());
    }
}

/// Every element of an insertion is the inserted record or one already
/// present.
pub proof fn lemma_insert_elements(x: AlarmV, s: Seq<AlarmV>, k: int)
    requires
        0 <= k < spec_insert_sorted(x, s).len(),
    ensures
        spec_insert_sorted(x, s)[k] == x || exists|m: int|
            0 <= m < s.len() && s[m] == #[trigger] spec_insert_sorted(x, s)[k],
    decreases s.len(),
{
    lemma_insert_len(x, s);
    if s.len() == 0 {
    } else if spec_str_lt(x.next_fire_time, s[0].next_fire_time) {
        if k > 0 {
            assert(spec_insert_sorted(x, s)[k] == s[k - 1]);
        }
    } else {
        lemma_insert_len(x, s.drop_first());
        if k == 0 {
            assert(spec_insert_sorted(x, s)[0] == s[0]);
        } else {
            lemma_insert_elements(x, s.drop_first(), k - 1);
            assert(spec_insert_sorted(x, s)[k] == spec_insert_sorted(x, s.drop_first())[k - 1]);
            if spec_insert_sorted(x, s.drop_first())[k - 1] != x {
                let m = choose|m: int|
                    0 <= m < s.drop_first().len() && s.drop_first()[m] == spec_insert_sorted(
                        x,
                        s.drop_first(),
                    )[k - 1];
                assert(s[m + 1] == spec_insert_sorted(x, s)[k]);
            }
        }
    }
}

/// Inserting into a sorted run keeps it sorted.
pub proof fn lemma_insert_sorted_keeps(x: AlarmV, s: Seq<AlarmV>)
    requires
        sorted_by_key(s),
    ensures
        sorted_by_key(spec_insert_sorted(x, s)),
    decreases s.len(),
{
    let r = spec_insert_sorted(x, s);
    lemma_insert_len(x, s);
    if s.len() == 0 {
    } else if spec_str_lt(x.next_fire_time, s[0].next_fire_time) {
        assert forall|i: int, j: int|
            0 <= i < j < r.len() implies !spec_str_lt(
            (#[trigger] r[j]).next_fire_time,
            (#[trigger] r[i]).next_fire_time,
        ) by {
            if i == 0 {
                assert(r[j] == s[j - 1]);
                if spec_str_lt(s[j - 1].next_fire_time, x.next_fire_time) {
                    lemma_str_lt_trans(
                        s[j - 1].next_fire_time,
                        x.next_fire_time,
                        s[0].next_fire_time,
                    );
                    lemma_str_lt_irrefl(s[0].next_fire_time);
                    assert(false);
                }
            } else {
                assert(r[i] == s[i - 1] && r[j] == s[j - 1]);
            }
        }
    } else {
        lemma_insert_len(x, s.drop_first());
        assert(forall|i: int, j: int|
            0 <= i < j < s.drop_first().len() ==> !spec_str_lt(
                (#[trigger] s.drop_first()[j]).next_fire_time,
                (#[trigger] s.drop_first()[i]).next_fire_time,
            ));
        lemma_insert_sorted_keeps(x, s.drop_first());
        let t = spec_insert_sorted(x, s.drop_first());
        assert forall|i: int, j: int|
            0 <= i < j < r.len() implies !spec_str_lt(
            (#[trigger] r[j]).next_fire_time,
            (#[trigger] r[i]).next_fire_time,
        ) by {
            if i == 0 {
                assert(r[0] == s[0]);
                assert(r[j] == t[j - 1]);
                lemma_insert_elements(x, s.drop_first(), j - 1);
                if t[j - 1] == x {
                    assert(!spec_str_lt(x.next_fire_time, s[0].next_fire_time));
                } else {
                    let m = choose|m: int|
                        0 <= m < s.drop_first().len() && s.drop_first()[m] == t[j - 1];
                    assert(s[m + 1] == t[j - 1]);
                    if spec_str_lt(t[j - 1].next_fire_time, s[0].next_fire_time) {
                        assert(!spec_str_lt(s[m + 1].next_fire_time, s[0].next_fire_time));
                        assert(false);
                    }
                }
            } else {
                assert(r[i] == t[i - 1] && r[j] == t[j - 1]);
            }
        }
    }
}

/// The sorted collection is in fact non-descending by the stored
/// timestamp string, which `list` returns in this order.
pub proof fn lemma_sort_sorted(s: Seq<AlarmV>)
    ensures
        sorted_by_key(spec_sort(s)),
    decreases s.len(),
{
    if s.len() > 0 {
        lemma_sort_sorted(s.drop_last());
        lemma_insert_sorted_keeps(s.last(), spec_sort(s.drop_last()));
    }
}

/// What a store starts from: the document's collection, or an empty one,
/// and whether the document was damaged and must be quarantined.
pub open spec fn spec_load(content: Option<Seq<char>>) -> (Seq<AlarmV>, bool) {
    match content {
        None => (Seq::empty(), false),
        Some(raw) => if spec_trim(raw).len() == 0 {
            (Seq::empty(), false)
        } else {
            match spec_parse_doc(raw) {
                Some(l) => (l, false),
                None => (Seq::empty(), true),
            }
        },
    }
}

/// A failed re-arm: the id names a repeat alarm whose next occurrence
/// could not be computed at the given instant, for the given reason.
pub open spec fn rearm_failed(pre: AlarmStore, id: Seq<char>, now: Timestamp, e: AlarmError) -> bool {
    let j = spec_find(pre.alarms(), id, 0);
    &&& j >= 0
    &&& pre.alarms()[j].repeat_enabled
    &&& pre.alarms()[j].repeat_days.len() > 0
    &&& spec_next_fire(
        pre.alarms()[j].time_label,
        None,
        true,
        pre.alarms()[j].repeat_days,
        pre.alarms()[j].lead_minutes,
        now,
    ) == Err::<int, AlarmError>(e)
}

/// The acknowledgment transition between two store states, for a given id
/// at a given instant: an absent id only leaves the ringing set, a repeat
/// alarm is re-armed in place, a one-shot alarm is removed.
pub open spec fn acknowledged(
    pre: AlarmStore,
    post: AlarmStore,
    id: Seq<char>,
    now: Timestamp,
) -> bool {
    let j = spec_find(pre.alarms(), id, 0);
    if j < 0 {
        post.alarms() == pre.alarms() && post.ringing() == spec_drop_ring(pre.ringing(), id)
    } else {
        let a = pre.alarms()[j];
        if a.repeat_enabled && a.repeat_days.len() > 0 {
            match spec_next_fire(a.time_label, None, true, a.repeat_days, a.lead_minutes, now) {
                Ok(s) => post.alarms() == pre.alarms().update(
                    j,
                    (AlarmV {
                        next_fire_time: spec_render_ts(ts_of(s, now.offset_minutes as int)),
                        ..a
                    }),
                ) && post.ringing() == spec_drop_ring(pre.ringing(), id),
                Err(_) => false,
            }
        } else {
            post.alarms() == pre.alarms().remove(j) && post.ringing() == spec_drop_ring(
                pre.ringing(),
                id,
            )
        }
    }
}

/// The in-memory alarm collection and the ringing set.
pub struct AlarmStore {
    alarms: Vec<Alarm>,
    ringing: Vec<String>,
}

impl AlarmStore {
    /// The records the store holds, in insertion order.
    pub closed spec fn alarms(&self) -> Seq<AlarmV> {
        alarms_view(self.alarms@)
    }

    /// The ids of alarms that have fired but are not acknowledged.
    pub closed spec fn ringing(&self) -> Seq<Seq<char>> {
        self.ringing@.map_values(|s: String| s@)
    }

    /// Every held record is renderable and the collection fits the
    /// document's count field.
    pub closed spec fn wf(&self) -> bool {
        &&& self.alarms@.len() < pow10(8)
        &&& forall|i: int| 0 <= i < self.alarms@.len() ==> alarm_v_wf(#[trigger] self.alarms@[i]@)
    }

    /// Builds the store from the stored document's content, if any; a
    /// damaged document yields an empty store and asks the caller to
    /// quarantine the file (the second component), so that a damaged
    /// store never blocks startup.
    pub fn new(content: Option<&str>) -> (r: (AlarmStore, bool))
        ensures
            r.0.wf(),
            r.0.ringing() == Seq::<Seq<char>>::empty(),
            (r.0.alarms(), r.1) == spec_load(
                match content {
                    Some(c) => Some(c@),
                    None => None,
                },
            ),
    {
        proof {
            assert(Seq::<String>::empty().map_values(|s: String| s@) =~= Seq::<
                Seq<char>,
            >::empty());
            assert(alarms_view(Seq::<Alarm>::empty()) =~= Seq::<AlarmV>::empty());
            assert(pow10(8) == 100000000) by {
                reveal_with_fuel(pow10, 9);
            }
        }
        match content {
            None => (AlarmStore { alarms: Vec::new(), ringing: Vec::new() }, false),
            Some(raw) => {
                let trimmed = trim_str(raw);
                if trimmed.unicode_len() == 0 {
                    (AlarmStore { alarms: Vec::new(), ringing: Vec::new() }, false)
                } else {
                    match parse_doc(raw) {
                        Some(alarms) => (AlarmStore { alarms, ringing: Vec::new() }, false),
                        None => (AlarmStore { alarms: Vec::new(), ringing: Vec::new() }, true),
                    }
                }
            },
        }
    }

    /// The stored document of the current collection; callers persist
    /// this after every mutation.
    pub fn render(&self) -> (r: String)
        requires
            self.wf(),
        ensures
            r@ == spec_render_doc(self.alarms()),
    {
        render_doc(&self.alarms)
    }

    /// The collection sorted ascending by the cached fire time's stored
    /// form. A pure read: two calls without an intervening mutation give
    /// the same sequence.
    pub fn list(&self) -> (r: Vec<Alarm>)
        ensures
            alarms_view(r@) == spec_sort(self.alarms()),
    {
        let mut out: Vec<Alarm> = Vec::new();
        proof {
            assert(alarms_view(Seq::<Alarm>::empty()) =~= Seq::<AlarmV>::empty());
            assert(alarms_view(self.alarms@.take(0)) =~= Seq::<AlarmV>::empty());
        }
        let mut i: usize = 0;
        while i < self.alarms.len()
            invariant
                i <= self.alarms@.len(),
                alarms_view(out@) == spec_sort(alarms_view(self.alarms@.take(i as int))),
            decreases self.alarms@.len() - i,
        {
            let x: Alarm = self.alarms[i].clone();
            let mut j: usize = 0;
            loop
                invariant
                    j <= out@.len(),
                    forall|k: int|
                        0 <= k < j ==> !spec_str_lt(
                            x@.next_fire_time,
                            (#[trigger] out@[k])@.next_fire_time,
                        ),
                ensures
                    j <= out@.len(),
                    forall|k: int|
                        0 <= k < j ==> !spec_str_lt(
                            x@.next_fire_time,
                            (#[trigger] out@[k])@.next_fire_time,
                        ),
                    j < out@.len() ==> spec_str_lt(
                        x@.next_fire_time,
                        out@[j as int]@.next_fire_time,
                    ),
                decreases out@.len() - j,
            {
                if j == out.len() {
                    break ;
                }
                if str_lt(&x.next_fire_time, &out[j].next_fire_time) {
                    break ;
                }
                j = j + 1;
            }
            proof {
                lemma_insert_at(x@, alarms_view(out@), j as int);
                assert(alarms_view(self.alarms@.take(i as int + 1)).drop_last() =~= alarms_view(
                    self.alarms@.take(i as int),
                ));
                assert(alarms_view(self.alarms@.take(i as int + 1)).last() == self.alarms@[
                    i as int]@);
            }
            out.insert(j, x);
            proof {
                assert(alarms_view(out@) =~= alarms_view(out@.subrange(0, j as int)) + seq![
                    out@[j as int]@,
                ] + alarms_view(out@.subrange(j as int + 1, out@.len() as int)));
            }
            i = i + 1;
        }
        proof {
            assert(self.alarms@.take(self.alarms@.len() as int) =~= self.alarms@);
        }
        out
    }

    /// Validates the payload, computes its fire instant from `now`, and
    /// appends the new record under the given id.
    pub fn create_at(&mut self, payload: NewAlarmPayload, id: String, now: &Timestamp) -> (r:
        Result<(), AlarmError>)
        requires
            old(self).wf(),
            ts_wf(*now),
            now.year <= 9998,
            old(self).alarms().len() + 1 < pow10(8),
        ensures
            final(self).wf(),
            final(self).ringing() == old(self).ringing(),
            match r {
                Ok(_) => spec_build(payload@, id@, *now) is Ok && final(self).alarms() == old(self).alarms().push(spec_build(payload@, id@, *now)->Ok_0),
                Err(e) => spec_build(payload@, id@, *now) == Err::<AlarmV, AlarmError>(e) && final(self).alarms() == old(self).alarms(),
            },
    {
        match build_alarm_from_payload(payload, id, now) {
            Err(e) => Err(e),
            Ok(a) => {
                self.alarms.push(a);
                proof {
                    assert(alarms_view(self.alarms@) =~= alarms_view(old(self).alarms@).push(a@));
                }
                Ok(())
            },
        }
    }

    /// Removes every record of the given id (none is no error) and clears
    /// the id from the ringing set.
    pub fn delete(&mut self, id: &str)
        requires
            old(self).wf(),
        ensures
            final(self).wf(),
            final(self).alarms() == spec_drop_id(old(self).alarms(), id@),
            final(self).ringing() == spec_drop_ring(old(self).ringing(), id@),
    {
        let mut kept: Vec<Alarm> = Vec::new();
        proof {
            assert(alarms_view(self.alarms@.take(0)) =~= Seq::<AlarmV>::empty());
            assert(alarms_view(kept@) =~= Seq::<AlarmV>::empty());
        }
        let mut i: usize = 0;
        while i < self.alarms.len()
            invariant
                i <= self.alarms@.len(),
                *self == *old(self),
                old(self).wf(),
                kept@.len() <= i,
                forall|k: int| 0 <= k < kept@.len() ==> alarm_v_wf(#[trigger] kept@[k]@),
                alarms_view(kept@) == spec_drop_id(alarms_view(self.alarms@.take(i as int)), id@),
            decreases self.alarms@.len() - i,
        {
            let keep: bool = !str_equal(self.alarms[i].id.as_str(), id);
            proof {
                lemma_drop_id_snoc(
                    alarms_view(self.alarms@.take(i as int)),
                    self.alarms@[i as int]@,
                    id@,
                );
                assert(alarms_view(self.alarms@.take(i as int + 1)) =~= alarms_view(
                    self.alarms@.take(i as int),
                ).push(self.alarms@[i as int]@));
            }
            if keep {
                kept.push(self.alarms[i].clone());
            }
            proof {
                assert(alarms_view(kept@) =~= spec_drop_id(
                    alarms_view(self.alarms@.take(i as int + 1)),
                    id@,
                ));
            }
            i = i + 1;
        }
        proof {
            assert(self.alarms@.take(self.alarms@.len() as int) =~= self.alarms@);
        }
        self.alarms = kept;
        self.remove_ring(id);
    }

    /// Reports every alarm whose cached fire instant has arrived and is
    /// not already ringing, marking each reported alarm as ringing: the
    /// armed-to-ringing transition. A record whose cached value is
    /// unreadable is skipped for this round only.
    pub fn due_alarms_at(&mut self, now: &Timestamp) -> (r: Vec<Alarm>)
        requires
            old(self).wf(),
            ts_wf(*now),
        ensures
            final(self).wf(),
            final(self).alarms() == old(self).alarms(),
            (alarms_view(r@), final(self).ringing()) == spec_due(
                old(self).alarms(),
                old(self).ringing(),
                *now,
            ),
    {
        proof {
            crate::calendar::lemma_ts_seconds_bounds(*now);
        }
        let now_instant: i64 = ts_to_secs(now) - (now.offset_minutes as i64) * 60;
        let mut due: Vec<Alarm> = Vec::new();
        proof {
            assert(alarms_view(due@) =~= Seq::<AlarmV>::empty());
            assert(old(self).alarms().skip(0) =~= old(self).alarms());
        }
        let mut i: usize = 0;
        while i < self.alarms.len()
            invariant
                i <= self.alarms@.len(),
                self.alarms@ == old(self).alarms@,
                ts_wf(*now),
                now_instant == ts_instant(*now),
                spec_due(old(self).alarms(), old(self).ringing(), *now) == spec_due_compose(
                    alarms_view(due@),
                    spec_due(old(self).alarms().skip(i as int), self.ringing(), *now),
                ),
            decreases self.alarms@.len() - i,
        {
            let ghost suffix = old(self).alarms().skip(i as int);
            let ghost a_v = old(self).alarms()[i as int];
            proof {
                assert(suffix[0] == a_v);
                assert(suffix.drop_first() =~= old(self).alarms().skip(i as int + 1));
            }
            let already: bool = ring_contains(&self.ringing, &self.alarms[i].id);
            let mut hit: bool = false;
            if !already {
                match parse_ts(self.alarms[i].next_fire_time.as_str()) {
                    Some(t) => {
                        proof {
                            crate::calendar::lemma_ts_seconds_bounds(t);
                        }
                        let fire_instant: i64 = ts_to_secs(&t) - (t.offset_minutes as i64) * 60;
                        if fire_instant <= now_instant {
                            hit = true;
                        }
                    },
                    None => {},
                }
            }
            if hit {
                let ghost ring_pre = self.ringing();
                due.push(self.alarms[i].clone());
                self.ringing.push(self.alarms[i].id.clone());
                proof {
                    assert(self.ringing() =~= ring_pre.push(a_v.id));
                    let rest = spec_due(
                        old(self).alarms().skip(i as int + 1),
                        ring_pre.push(a_v.id),
                        *now,
                    );
                    assert(alarms_view(due@.drop_last()) + (seq![a_v] + rest.0) =~= alarms_view(
                        due@,
                    ) + rest.0);
                    assert(alarms_view(due@) =~= alarms_view(due@.drop_last()).push(a_v));
                }
            } else {
                proof {
                    assert(spec_due(suffix, self.ringing(), *now).0 == spec_due(
                        old(self).alarms().skip(i as int + 1),
                        self.ringing(),
                        *now,
                    ).0);
                }
            }
            i = i + 1;
        }
        proof {
            assert(old(self).alarms().skip(self.alarms@.len() as int) =~= Seq::<AlarmV>::empty());
            assert(alarms_view(due@) + Seq::<AlarmV>::empty() =~= alarms_view(due@));
        }
        due
    }

    /// The ringing-to-rearmed-or-removed transition: a repeat alarm is
    /// given a fresh fire instant computed from `now`, a one-shot alarm is
    /// consumed, an absent id is no error; whatever the branch, even a
    /// failed re-arm, the id leaves the ringing set.
    pub fn acknowledge_at(&mut self, id: &str, now: &Timestamp) -> (r: Result<(), AlarmError>)
        requires
            old(self).wf(),
            ts_wf(*now),
            now.year <= 9998,
        ensures
            final(self).wf(),
            ({
                let j = spec_find(old(self).alarms(), id@, 0);
                if j < 0 {
                    r is Ok && final(self).alarms() == old(self).alarms() && final(self).ringing()
                        == spec_drop_ring(old(self).ringing(), id@)
                } else {
                    let a = old(self).alarms()[j];
                    if a.repeat_enabled && a.repeat_days.len() > 0 {
                        match spec_next_fire(
                            a.time_label,
                            None,
                            true,
                            a.repeat_days,
                            a.lead_minutes,
                            *now,
                        ) {
                            Err(e) => r == Err::<(), AlarmError>(e) && final(self).alarms() == old(self).alarms() && final(self).ringing() == spec_drop_ring(old(self).ringing(), id@),
                            Ok(s) => r is Ok && ts_wf(ts_of(s, now.offset_minutes as int))
                                && ts_seconds(ts_of(s, now.offset_minutes as int)) == s && final(self).alarms() == old(self).alarms().update(
                                j,
                                (AlarmV {
                                    next_fire_time: spec_render_ts(
                                        ts_of(s, now.offset_minutes as int),
                                    ),
                                    ..a
                                }),
                            ) && final(self).ringing() == spec_drop_ring(old(self).ringing(), id@),
                        }
                    } else {
                        r is Ok && final(self).alarms() == old(self).alarms().remove(j) && final(self).ringing() == spec_drop_ring(old(self).ringing(), id@)
                    }
                }
            }),
    {
        let found: Option<usize> = find_idx(&self.alarms, id);
        match found {
            Some(j) => {
                let is_repeat: bool = self.alarms[j].repeat_enabled
                    && self.alarms[j].repeat_days.len() > 0;
                if is_repeat {
                    let t: Timestamp = match compute_next_fire(
                        self.alarms[j].time_label.as_str(),
                        None,
                        true,
                        &self.alarms[j].repeat_days,
                        self.alarms[j].lead_minutes,
                        now,
                    ) {
                        Ok(t) => t,
                        Err(e) => {
                            self.remove_ring(id);
                            return Err(e);
                        },
                    };
                    let nf: String = render_ts(&t);
                    proof {
                        lemma_ts_of_unique(t);
                        lemma_ts_round_trip(t);
                    }
                    let mut a: Alarm = self.alarms.remove(j);
                    a.next_fire_time = nf;
                    self.alarms.insert(j, a);
                    proof {
                        assert(alarms_view(self.alarms@) =~= old(self).alarms().update(
                            j as int,
                            (AlarmV {
                                next_fire_time: spec_render_ts(
                                    ts_of(ts_seconds(t), now.offset_minutes as int),
                                ),
                                ..old(self).alarms()[j as int]
                            }),
                        ));
                        assert(pow10(8) == 100000000) by {
                            reveal_with_fuel(pow10, 9);
                        }
                        assert forall|k: int|
                            0 <= k < self.alarms@.len() implies alarm_v_wf(
                            #[trigger] self.alarms@[k]@,
                        ) by {
                            if k == j {
                                assert(alarm_v_wf(old(self).alarms@[k]@));
                            } else if k < j {
                                assert(self.alarms@[k] == old(self).alarms@[k]);
                            } else {
                                assert(self.alarms@[k] == old(self).alarms@[k]);
                            }
                        }
                    }
                } else {
                    self.alarms.remove(j);
                    proof {
                        assert(alarms_view(self.alarms@) =~= old(self).alarms().remove(j as int));
                        assert forall|k: int|
                            0 <= k < self.alarms@.len() implies alarm_v_wf(
                            #[trigger] self.alarms@[k]@,
                        ) by {
                            if k < j {
                                assert(self.alarms@[k] == old(self).alarms@[k]);
                            } else {
                                assert(self.alarms@[k] == old(self).alarms@[k + 1]);
                            }
                        }
                    }
                }
            },
            None => {},
        }
        self.remove_ring(id);
        Ok(())
    }

    /// Builds a full record for every payload; with `replace_existing` the
    /// whole collection and the ringing set are replaced by the batch,
    /// otherwise the batch is appended. One bad payload fails the whole
    /// import, applying nothing.
    pub fn import_many_at(
        &mut self,
        payloads: Vec<NewAlarmPayload>,
        ids: Vec<String>,
        replace_existing: bool,
        now: &Timestamp,
    ) -> (r: Result<(), AlarmError>)
        requires
            old(self).wf(),
            ts_wf(*now),
            now.year <= 9998,
            ids@.len() == payloads@.len(),
            payloads@.len() + old(self).alarms().len() < pow10(8),
        ensures
            final(self).wf(),
            ({
                let built = spec_build_all(payloads_view(payloads@), ids_view(ids@), *now);
                match built {
                    Err(e) => r == Err::<(), AlarmError>(e) && final(self).alarms() == old(self).alarms() && final(self).ringing() == old(self).ringing(),
                    Ok(l) => r is Ok && (if replace_existing {
                        final(self).alarms() == l && final(self).ringing() == Seq::<
                            Seq<char>,
                        >::empty()
                    } else {
                        final(self).alarms() == old(self).alarms() + l && final(self).ringing()
                            == old(self).ringing()
                    }),
                }
            }),
    {
        let mut ps: Vec<NewAlarmPayload> = payloads;
        let mut idv: Vec<String> = ids;
        let mut incoming: Vec<Alarm> = Vec::new();
        proof {
            assert(alarms_view(incoming@) =~= Seq::<AlarmV>::empty());
        }
        while ps.len() > 0
            invariant
                idv@.len() == ps@.len(),
                *self == *old(self),
                old(self).wf(),
                ts_wf(*now),
                now.year <= 9998,
                incoming@.len() + ps@.len() == payloads@.len(),
                payloads@.len() + old(self).alarms().len() < pow10(8),
                forall|k: int| 0 <= k < incoming@.len() ==> alarm_v_wf(#[trigger] incoming@[k]@),
                ({
                    let built = spec_build_all(payloads_view(payloads@), ids_view(ids@), *now);
                    let rest = spec_build_all(payloads_view(ps@), ids_view(idv@), *now);
                    match rest {
                        Err(e) => built == Err::<Seq<AlarmV>, AlarmError>(e),
                        Ok(l) => built == Ok::<Seq<AlarmV>, AlarmError>(alarms_view(incoming@) + l),
                    }
                }),
            decreases ps@.len(),
        {
            let ghost ps_pre = ps@;
            let ghost id_pre = idv@;
            let p: NewAlarmPayload = ps.remove(0);
            let one_id: String = idv.remove(0);
            proof {
                assert(payloads_view(ps_pre).drop_first() =~= payloads_view(ps@));
                assert(ids_view(id_pre).drop_first() =~= ids_view(idv@));
                assert(payloads_view(ps_pre)[0] == p@);
                assert(ids_view(id_pre)[0] == one_id@);
            }
            match build_alarm_from_payload(p, one_id, now) {
                Err(e) => {
                    return Err(e);
                },
                Ok(a) => {
                    proof {
                        let rest = spec_build_all(payloads_view(ps@), ids_view(idv@), *now);
                        if rest is Ok {
                            assert(alarms_view(incoming@) + (seq![a@] + rest->Ok_0)
                                =~= alarms_view(incoming@).push(a@) + rest->Ok_0);
                        }
                        assert(alarms_view(incoming@.push(a)) =~= alarms_view(incoming@).push(a@));
                    }
                    incoming.push(a);
                },
            }
        }
        proof {
            assert(payloads_view(ps@).len() == 0);
            assert(spec_build_all(payloads_view(ps@), ids_view(idv@), *now) == Ok::<
                Seq<AlarmV>,
                AlarmError,
            >(Seq::<AlarmV>::empty()));
            assert(alarms_view(incoming@) + Seq::<AlarmV>::empty() =~= alarms_view(incoming@));
        }
        if replace_existing {
            self.alarms = incoming;
            self.ringing = Vec::new();
            proof {
                assert(Seq::<String>::empty().map_values(|s: String| s@) =~= Seq::<
                    Seq<char>,
                >::empty());
            }
        } else {
            let mut k: usize = 0;
            let ghost base = alarms_view(self.alarms@);
            while k < incoming.len()
                invariant
                    k <= incoming@.len(),
                    self.alarms@.len() == base.len() + k,
                    alarms_view(self.alarms@) == base + alarms_view(incoming@.take(k as int)),
                    self.ringing@ == old(self).ringing@,
                    base.len() + incoming@.len() < pow10(8),
                    forall|m: int| 0 <= m < incoming@.len() ==> alarm_v_wf(#[trigger] incoming@[m]@),
                    forall|m: int|
                        0 <= m < self.alarms@.len() ==> alarm_v_wf(#[trigger] self.alarms@[m]@),
                decreases incoming@.len() - k,
            {
                self.alarms.push(incoming[k].clone());
                proof {
                    assert(alarms_view(incoming@.take(k as int + 1)) =~= alarms_view(
                        incoming@.take(k as int),
                    ).push(incoming@[k as int]@));
                    assert(alarms_view(self.alarms@) =~= (base + alarms_view(
                        incoming@.take(k as int),
                    )).push(incoming@[k as int]@));
                    assert((base + alarms_view(incoming@.take(k as int))).push(
                        incoming@[k as int]@,
                    ) =~= base + alarms_view(incoming@.take(k as int + 1)));
                }
                k = k + 1;
            }
            proof {
                assert(incoming@.take(incoming@.len() as int) =~= incoming@);
            }
        }
        Ok(())
    }

    /// Creates an alarm from the payload against the host clock, under a
    /// fresh id. Whatever instant the clock returned, on success exactly
    /// one record built from the payload was appended.
    pub fn create(&mut self, payload: NewAlarmPayload) -> (r: Result<(), AlarmError>)
        requires
            old(self).wf(),
        ensures
            final(self).wf(),
            final(self).ringing() == old(self).ringing(),
            match r {
                Ok(_) => exists|id: Seq<char>, now: Timestamp|
                    ts_wf(now) && now.year <= 9998 && (#[trigger] spec_build(payload@, id, now))
                        is Ok && final(self).alarms() == old(self).alarms().push(
                        spec_build(payload@, id, now)->Ok_0,
                    ),
                Err(e) => final(self).alarms() == old(self).alarms() && (e
                    == AlarmError::ValidationError && old(self).alarms().len() + 1 >= pow10(8) || e
                    == AlarmError::AmbiguousOrInvalidLocalTime || exists|now: Timestamp|
                    ts_wf(now) && now.year <= 9998 && #[trigger] spec_build_outcome(payload@, now)
                        == Err::<int, AlarmError>(e)),
            },
    {
        proof {
            assert(pow10(8) == 100000000) by {
                reveal_with_fuel(pow10, 9);
            }
        }
        if self.alarms.len() >= 99999999 {
            return Err(AlarmError::ValidationError);
        }
        let now: Timestamp = match crate::host::now_timestamp() {
            Some(t) => t,
            None => {
                return Err(AlarmError::AmbiguousOrInvalidLocalTime);
            },
        };
        if now.year > 9998 {
            return Err(AlarmError::AmbiguousOrInvalidLocalTime);
        }
        let id: String = crate::host::fresh_id();
        let ghost idv = id@;
        let res = self.create_at(payload, id, &now);
        proof {
            assert(idv.len() < pow10(8));
            if res is Ok {
                assert(ts_wf(now) && now.year <= 9998 && spec_build(payload@, idv, now) is Ok
                    && final(self).alarms() == old(self).alarms().push(
                    spec_build(payload@, idv, now)->Ok_0,
                ));
            } else {
                assert(ts_wf(now) && now.year <= 9998 && spec_build_outcome(payload@, now)
                    == Err::<int, AlarmError>(res->Err_0));
            }
        }
        res
    }

    /// Re-validates and replaces the record with the given id against the
    /// host clock, as `update_at` does with an explicit instant.
    pub fn update(&mut self, id: &str, payload: NewAlarmPayload) -> (r: Result<(), AlarmError>)
        requires
            old(self).wf(),
        ensures
            final(self).wf(),
            final(self).ringing() == old(self).ringing(),
            match r {
                Ok(_) => exists|now: Timestamp|
                    ts_wf(now) && now.year <= 9998 && (#[trigger] spec_build_outcome(
                        payload@,
                        now,
                    )) is Ok && spec_find(old(self).alarms(), id@, 0) >= 0 && final(self).alarms()
                        == old(self).alarms().update(
                        spec_find(old(self).alarms(), id@, 0),
                        spec_built(
                            payload@,
                            old(self).alarms()[spec_find(old(self).alarms(), id@, 0)].id,
                            now,
                            spec_build_outcome(payload@, now)->Ok_0,
                        ),
                    ),
                Err(e) => final(self).alarms() == old(self).alarms() && (e
                    == AlarmError::AmbiguousOrInvalidLocalTime || exists|now: Timestamp|
                    ts_wf(now) && now.year <= 9998 && ((#[trigger] spec_build_outcome(
                        payload@,
                        now,
                    )) == Err::<int, AlarmError>(e) || spec_build_outcome(payload@, now) is Ok && e
                        == AlarmError::NotFound && spec_find(old(self).alarms(), id@, 0) < 0)),
            },
    {
        let now: Timestamp = match crate::host::now_timestamp() {
            Some(t) => t,
            None => {
                return Err(AlarmError::AmbiguousOrInvalidLocalTime);
            },
        };
        if now.year > 9998 {
            return Err(AlarmError::AmbiguousOrInvalidLocalTime);
        }
        let res = self.update_at(id, payload, &now);
        proof {
            if res is Ok {
                assert(ts_wf(now) && now.year <= 9998 && spec_build_outcome(payload@, now) is Ok);
            } else {
                assert(ts_wf(now) && now.year <= 9998 && (spec_build_outcome(payload@, now)
                    == Err::<int, AlarmError>(res->Err_0) || spec_build_outcome(payload@, now)
                    is Ok && res->Err_0 == AlarmError::NotFound && spec_find(
                    old(self).alarms(),
                    id@,
                    0,
                ) < 0));
            }
        }
        res
    }

    /// Due-detection against the host clock: reports and marks what has
    /// come due. With the clock out of the supported range nothing is
    /// reported and nothing changes.
    pub fn due_alarms(&mut self) -> (r: Vec<Alarm>)
        requires
            old(self).wf(),
        ensures
            final(self).wf(),
            final(self).alarms() == old(self).alarms(),
            (exists|now: Timestamp|
                ts_wf(now) && (alarms_view(r@), final(self).ringing()) == #[trigger] spec_due(
                    old(self).alarms(),
                    old(self).ringing(),
                    now,
                )) || (r@.len() == 0 && final(self).ringing() == old(self).ringing()),
    {
        let now: Timestamp = match crate::host::now_timestamp() {
            Some(t) => t,
            None => {
                return Vec::new();
            },
        };
        let r = self.due_alarms_at(&now);
        proof {
            assert((alarms_view(r@), final(self).ringing()) == spec_due(
                old(self).alarms(),
                old(self).ringing(),
                now,
            ));
        }
        r
    }

    /// Acknowledges an alarm against the host clock: a repeat alarm is
    /// re-armed, a one-shot alarm removed, and the id leaves the ringing
    /// set, as `acknowledge_at` states for an explicit instant.
    pub fn acknowledge(&mut self, id: &str) -> (r: Result<(), AlarmError>)
        requires
            old(self).wf(),
        ensures
            final(self).wf(),
            match r {
                Ok(_) => exists|now: Timestamp|
                    ts_wf(now) && now.year <= 9998 && acknowledged(
                        *old(self),
                        *final(self),
                        id@,
                        now,
                    ),
                Err(e) => final(self).alarms() == old(self).alarms() && (e
                    == AlarmError::AmbiguousOrInvalidLocalTime && final(self).ringing() == old(
                    self,
                ).ringing() || final(self).ringing() == spec_drop_ring(old(self).ringing(), id@)
                    && exists|now: Timestamp|
                    ts_wf(now) && now.year <= 9998 && #[trigger] rearm_failed(
                        *old(self),
                        id@,
                        now,
                        e,
                    )),
            },
    {
        let now: Timestamp = match crate::host::now_timestamp() {
            Some(t) => t,
            None => {
                return Err(AlarmError::AmbiguousOrInvalidLocalTime);
            },
        };
        if now.year > 9998 {
            return Err(AlarmError::AmbiguousOrInvalidLocalTime);
        }
        let res = self.acknowledge_at(id, &now);
        proof {
            if res is Ok {
                assert(acknowledged(*old(self), *final(self), id@, now));
            } else {
                assert(ts_wf(now) && now.year <= 9998 && rearm_failed(
                    *old(self),
                    id@,
                    now,
                    res->Err_0,
                ));
            }
        }
        res
    }

    /// Imports a batch of payloads against the host clock, each under a
    /// fresh id, replacing or extending the collection; one bad payload
    /// aborts the whole import.
    pub fn import_many(&mut self, payloads: Vec<NewAlarmPayload>, replace_existing: bool) -> (r:
        Result<(), AlarmError>)
        requires
            old(self).wf(),
        ensures
            final(self).wf(),
            match r {
                Ok(_) => exists|ids: Seq<Seq<char>>, now: Timestamp|
                    ts_wf(now) && now.year <= 9998 && ids.len() == payloads@.len() && (
                    #[trigger] spec_build_all(payloads_view(payloads@), ids, now)) is Ok && (
                    if replace_existing {
                        final(self).alarms() == spec_build_all(payloads_view(payloads@), ids, now)->Ok_0
                            && final(self).ringing() == Seq::<Seq<char>>::empty()
                    } else {
                        final(self).alarms() == old(self).alarms() + spec_build_all(
                            payloads_view(payloads@),
                            ids,
                            now,
                        )->Ok_0 && final(self).ringing() == old(self).ringing()
                    }),
                Err(e) => final(self).alarms() == old(self).alarms() && final(self).ringing()
                    == old(self).ringing() && (e == AlarmError::ValidationError && payloads@.len()
                    + old(self).alarms().len() + 1 >= pow10(8) || e
                    == AlarmError::AmbiguousOrInvalidLocalTime || exists|
                    ids: Seq<Seq<char>>,
                    now: Timestamp,
                |
                    ts_wf(now) && now.year <= 9998 && ids.len() == payloads@.len() && (
                    #[trigger] spec_build_all(payloads_view(payloads@), ids, now)) == Err::<
                        Seq<AlarmV>,
                        AlarmError,
                    >(e)),
            },
    {
        proof {
            assert(pow10(8) == 100000000) by {
                reveal_with_fuel(pow10, 9);
            }
        }
        if payloads.len() >= 99999999 - self.alarms.len() {
            return Err(AlarmError::ValidationError);
        }
        let now: Timestamp = match crate::host::now_timestamp() {
            Some(t) => t,
            None => {
                return Err(AlarmError::AmbiguousOrInvalidLocalTime);
            },
        };
        if now.year > 9998 {
            return Err(AlarmError::AmbiguousOrInvalidLocalTime);
        }
        let mut ids: Vec<String> = Vec::new();
        let mut k: usize = 0;
        while k < payloads.len()
            invariant
                ids@.len() == k <= payloads@.len(),
            decreases payloads@.len() - k,
        {
            ids.push(crate::host::fresh_id());
            k = k + 1;
        }
        let ghost idsv = ids_view(ids@);
        let res = self.import_many_at(payloads, ids, replace_existing, &now);
        proof {
            if res is Ok {
                assert(ts_wf(now) && now.year <= 9998 && idsv.len() == payloads@.len()
                    && spec_build_all(payloads_view(payloads@), idsv, now) is Ok);
            } else {
                assert(ts_wf(now) && now.year <= 9998 && idsv.len() == payloads@.len()
                    && spec_build_all(payloads_view(payloads@), idsv, now) == Err::<
                    Seq<AlarmV>,
                    AlarmError,
                >(res->Err_0));
            }
        }
        res
    }

    /// Clears an id from the ringing set.
    fn remove_ring(&mut self, id: &str)
        ensures
            final(self).alarms() == old(self).alarms(),
            old(self).wf() ==> final(self).wf(),
            final(self).ringing() == spec_drop_ring(old(self).ringing(), id@),
    {
        let mut kept_ring: Vec<String> = Vec::new();
        proof {
            assert(self.ringing@.take(0).map_values(|s: String| s@) =~= Seq::<Seq<char>>::empty());
            assert(kept_ring@.map_values(|s: String| s@) =~= Seq::<Seq<char>>::empty());
        }
        let mut j: usize = 0;
        while j < self.ringing.len()
            invariant
                j <= self.ringing@.len(),
                *self == *old(self),
                kept_ring@.map_values(|s: String| s@) == spec_drop_ring(
                    self.ringing@.take(j as int).map_values(|s: String| s@),
                    id@,
                ),
            decreases self.ringing@.len() - j,
        {
            let keep: bool = !str_equal(self.ringing[j].as_str(), id);
            proof {
                lemma_drop_ring_snoc(
                    self.ringing@.take(j as int).map_values(|s: String| s@),
                    self.ringing@[j as int]@,
                    id@,
                );
                assert(self.ringing@.take(j as int + 1).map_values(|s: String| s@)
                    =~= self.ringing@.take(j as int).map_values(|s: String| s@).push(
                    self.ringing@[j as int]@,
                ));
            }
            if keep {
                kept_ring.push(self.ringing[j].clone());
            }
            proof {
                assert(kept_ring@.map_values(|s: String| s@) =~= spec_drop_ring(
                    self.ringing@.take(j as int + 1).map_values(|s: String| s@),
                    id@,
                ));
            }
            j = j + 1;
        }
        proof {
            assert(self.ringing@.take(self.ringing@.len() as int) =~= self.ringing@);
        }
        self.ringing = kept_ring;
    }

    /// Replaces the title of the record with the given id, trimmed; every
    /// other field stays.
    pub fn update_title(&mut self, id: &str, title: &str) -> (r: Result<(), AlarmError>)
        requires
            old(self).wf(),
            title@.len() < pow10(8),
        ensures
            final(self).wf(),
            final(self).ringing() == old(self).ringing(),
            ({
                let j = spec_find(old(self).alarms(), id@, 0);
                match r {
                    Ok(_) => j >= 0 && final(self).alarms() == old(self).alarms().update(
                        j,
                        (AlarmV { title: spec_trim(title@), ..old(self).alarms()[j] }),
                    ),
                    Err(e) => e == AlarmError::NotFound && j == -1 && final(self).alarms() == old(self).alarms(),
                }
            }),
    {
        match find_idx(&self.alarms, id) {
            None => Err(AlarmError::NotFound),
            Some(j) => {
                let mut a: Alarm = self.alarms.remove(j);
                a.title = trim_str(title);
                self.alarms.insert(j, a);
                proof {
                    lemma_trim_len(title@);
                    assert(alarms_view(self.alarms@) =~= old(self).alarms().update(
                        j as int,
                        (AlarmV { title: spec_trim(title@), ..old(self).alarms()[j as int] }),
                    ));
                }
                Ok(())
            },
        }
    }

    /// Re-validates the payload as a whole, recomputes the fire instant
    /// from `now`, and replaces every mutable field of the record with the
    /// given id; the id itself stays.
    pub fn update_at(&mut self, id: &str, payload: NewAlarmPayload, now: &Timestamp) -> (r: Result<
        (),
        AlarmError,
    >)
        requires
            old(self).wf(),
            ts_wf(*now),
            now.year <= 9998,
        ensures
            final(self).wf(),
            final(self).ringing() == old(self).ringing(),
            ({
                let j = spec_find(old(self).alarms(), id@, 0);
                match spec_build_outcome(payload@, *now) {
                    Err(e) => r == Err::<(), AlarmError>(e) && final(self).alarms() == old(
                        self,
                    ).alarms(),
                    Ok(s) => if j < 0 {
                        r == Err::<(), AlarmError>(AlarmError::NotFound) && final(self).alarms()
                            == old(self).alarms()
                    } else {
                        r is Ok && final(self).alarms() == old(self).alarms().update(
                            j,
                            spec_built(payload@, old(self).alarms()[j].id, *now, s),
                        )
                    },
                }
            }),
    {
        let found: Option<usize> = find_idx(&self.alarms, id);
        let old_id: String = match found {
            Some(j) => self.alarms[j].id.clone(),
            None => String::new(),
        };
        let built: Alarm = match build_alarm_from_payload(payload, old_id, now) {
            Ok(a) => a,
            Err(e) => {
                return Err(e);
            },
        };
        match found {
            None => Err(AlarmError::NotFound),
            Some(j) => {
                self.alarms.remove(j);
                self.alarms.insert(j, built);
                proof {
                    assert(alarms_view(self.alarms@) =~= old(self).alarms().update(
                        j as int,
                        built@,
                    ));
                }
                Ok(())
            },
        }
    }
}

/// One step of due-detection per record: a record not yet ringing whose
/// cached instant has arrived (an unreadable cached value is skipped, never
/// fatal) is reported and marked ringing for the records after it.
pub open spec fn spec_due(alarms: Seq<AlarmV>, ringing: Seq<Seq<char>>, now: Timestamp) -> (
    Seq<AlarmV>,
    Seq<Seq<char>>,
)
    decreases alarms.len(),
{
    if alarms.len() == 0 {
        (Seq::empty(), ringing)
    } else {
        let a = alarms[0];
        let hit = !ringing.contains(a.id) && match spec_parse_ts(a.next_fire_time) {
            Some(t) => ts_instant(t) <= ts_instant(now),
            None => false,
        };
        let ringing1 = if hit {
            ringing.push(a.id)
        } else {
            ringing
        };
        let rest = spec_due(alarms.drop_first(), ringing1, now);
        ((if hit {
            seq![a] + rest.0
        } else {
            rest.0
        }), rest.1)
    }
}

pub open spec fn spec_due_compose(
    pre: Seq<AlarmV>,
    r: (Seq<AlarmV>, Seq<Seq<char>>),
) -> (Seq<AlarmV>, Seq<Seq<char>>) {
    (pre + r.0, r.1)
}

/// Whether an id is in the ringing set.
fn ring_contains(v: &Vec<String>, id: &String) -> (r: bool)
    ensures
        r == v@.map_values(|s: String| s@).contains(id@),
{
    let mut i: usize = 0;
    while i < v.len()
        invariant
            i <= v@.len(),
            forall|k: int| 0 <= k < i ==> (#[trigger] v@[k])@ != id@,
        decreases v@.len() - i,
    {
        if str_equal(v[i].as_str(), id.as_str()) {
            proof {
                assert(v@.map_values(|s: String| s@)[i as int] == id@);
            }
            return true;
        }
        i = i + 1;
    }
    proof {
        let m = v@.map_values(|s: String| s@);
        assert forall|k: int| 0 <= k < m.len() implies m[k] != id@ by {
            assert(m[k] == v@[k]@);
        }
        assert(!m.contains(id@));
    }
    false
}

/// The records a batch of payloads yields, each under its own id, or the
/// first rejection; a single bad payload aborts the whole batch.
pub open spec fn spec_build_all(ps: Seq<PayloadV>, ids: Seq<Seq<char>>, now: Timestamp) -> Result<
    Seq<AlarmV>,
    AlarmError,
>
    decreases ps.len(),
{
    if ps.len() == 0 {
        Ok(Seq::empty())
    } else {
        match spec_build(ps[0], ids[0], now) {
            Err(e) => Err(e),
            Ok(a) => match spec_build_all(ps.drop_first(), ids.drop_first(), now) {
                Err(e) => Err(e),
                Ok(l) => Ok(seq![a] + l),
            },
        }
    }
}

pub open spec fn payloads_view(s: Seq<NewAlarmPayload>) -> Seq<PayloadV> {
    s.map_values(|p: NewAlarmPayload| p@)
}

pub open spec fn ids_view(s: Seq<String>) -> Seq<Seq<char>> {
    s.map_values(|s2: String| s2@)
}

/// The index of the first record with the given id.
fn find_idx(v: &Vec<Alarm>, id: &str) -> (r: Option<usize>)
    ensures
        match r {
            Some(j) => j < v@.len() && spec_find(alarms_view(v@), id@, 0) == j,
            None => spec_find(alarms_view(v@), id@, 0) == -1,
        },
{
    let mut i: usize = 0;
    while i < v.len()
        invariant
            i <= v@.len(),
            spec_find(alarms_view(v@), id@, 0) == spec_find(alarms_view(v@), id@, i as int),
        decreases v@.len() - i,
    {
        if str_equal(v[i].id.as_str(), id) {
            proof {
                assert(alarms_view(v@)[i as int] == v@[i as int]@);
            }
            return Some(i);
        }
        proof {
            assert(alarms_view(v@)[i as int] == v@[i as int]@);
        }
        i = i + 1;
    }
    None
}

/// Whether a payload's own fields fit the stored document's length
/// prefixes.
pub open spec fn payload_fields_storable(p: PayloadV) -> bool {
    &&& p.title.len() < pow10(8)
    &&& p.time_label.len() < pow10(8)
    &&& match p.url {
        Some(u) => u.len() < pow10(8),
        None => true,
    }
    &&& p.repeat_days.len() < pow10(8)
}

/// The fire instant a payload asks for, as its civil second count, or the
/// reason the payload is rejected. Repeat mode with no weekday named is a
/// hard validation error on every write path.
pub open spec fn spec_build_outcome(p: PayloadV, now: Timestamp) -> Result<int, AlarmError> {
    if !payload_fields_storable(p) {
        Err(AlarmError::ValidationError)
    } else if p.repeat_enabled && p.repeat_days.len() == 0 {
        Err(AlarmError::ValidationError)
    } else {
        spec_next_fire(
            spec_trim(p.time_label),
            p.date_label,
            p.repeat_enabled,
            p.repeat_days,
            p.lead_minutes,
            now,
        )
    }
}

/// The record a payload yields once its fire instant is known: text fields
/// trimmed, the lead clamped, the instant cached in its stored form.
pub open spec fn spec_built(p: PayloadV, id: Seq<char>, now: Timestamp, s: int) -> AlarmV {
    AlarmV {
        id,
        title: spec_trim(p.title),
        time_label: spec_trim(p.time_label),
        next_fire_time: spec_render_ts(ts_of(s, now.offset_minutes as int)),
        url: p.url,
        repeat_enabled: p.repeat_enabled,
        repeat_days: p.repeat_days,
        lead_minutes: clamp_lead(p.lead_minutes),
    }
}

/// The record a payload yields under a given id and reference instant.
pub open spec fn spec_build(p: PayloadV, id: Seq<char>, now: Timestamp) -> Result<
    AlarmV,
    AlarmError,
> {
    if id.len() >= pow10(8) {
        Err(AlarmError::ValidationError)
    } else {
        match spec_build_outcome(p, now) {
            Err(e) => Err(e),
            Ok(s) => Ok(spec_built(p, id, now, s)),
        }
    }
}

/// Builds a full record from a payload, or says why the payload is
/// rejected.
pub fn build_alarm_from_payload(payload: NewAlarmPayload, id: String, now: &Timestamp) -> (r:
    Result<Alarm, AlarmError>)
    requires
        ts_wf(*now),
        now.year <= 9998,
    ensures
        match r {
            Ok(a) => spec_build(payload@, id@, *now) == Ok::<AlarmV, AlarmError>(a@) && alarm_v_wf(
                a@,
            ),
            Err(e) => spec_build(payload@, id@, *now) == Err::<AlarmV, AlarmError>(e),
        },
{
    proof {
        assert(pow10(8) == 100000000) by {
            reveal_with_fuel(pow10, 9);
        }
    }
    let storable: bool = id.as_str().unicode_len() < 100000000 && payload.title.as_str().unicode_len()
        < 100000000 && payload.time_label.as_str().unicode_len() < 100000000 && (match &payload.url {
        Some(u) => u.as_str().unicode_len() < 100000000,
        None => true,
    }) && payload.repeat_days.len() < 100000000;
    if !storable {
        return Err(AlarmError::ValidationError);
    }
    if payload.repeat_enabled && payload.repeat_days.len() == 0 {
        return Err(AlarmError::ValidationError);
    }
    let title: String = trim_str(payload.title.as_str());
    let time_label: String = trim_str(payload.time_label.as_str());
    let lead: i64 = clamp_lead_minutes(payload.lead_minutes);
    let date_ref: Option<&str> = match &payload.date_label {
        Some(d) => Some(d.as_str()),
        None => None,
    };
    match compute_next_fire(
        time_label.as_str(),
        date_ref,
        payload.repeat_enabled,
        &payload.repeat_days,
        payload.lead_minutes,
        now,
    ) {
        Err(e) => Err(e),
        Ok(t) => {
            let nf: String = render_ts(&t);
            proof {
                lemma_ts_of_unique(t);
                lemma_ts_round_trip(t);
                lemma_trim_len(payload.title@);
                lemma_trim_len(payload.time_label@);
            }
            Ok(
                Alarm {
                    id,
                    title,
                    time_label,
                    next_fire_time: nf,
                    url: payload.url,
                    repeat_enabled: payload.repeat_enabled,
                    repeat_days: payload.repeat_days,
                    lead_minutes: lead,
                },
            )
        },
    }
}

/// The collection with every record of a given id removed.
pub open spec fn spec_drop_id(s: Seq<AlarmV>, id: Seq<char>) -> Seq<AlarmV>
    decreases s.len(),
{
    if s.len() == 0 {
        Seq::empty()
    } else if s[0].id == id {
        spec_drop_id(s.drop_first(), id)
    } else {
        seq![s[0]] + spec_drop_id(s.drop_first(), id)
    }
}

/// The ringing set with a given id removed.
pub open spec fn spec_drop_ring(s: Seq<Seq<char>>, id: Seq<char>) -> Seq<Seq<char>>
    decreases s.len(),
{
    if s.len() == 0 {
        Seq::empty()
    } else if s[0] == id {
        spec_drop_ring(s.drop_first(), id)
    } else {
        seq![s[0]] + spec_drop_ring(s.drop_first(), id)
    }
}

pub proof fn lemma_drop_id_snoc(s: Seq<AlarmV>, x: AlarmV, id: Seq<char>)
    ensures
        spec_drop_id(s.push(x), id) == spec_drop_id(s, id) + (if x.id == id {
            Seq::<AlarmV>::empty()
        } else {
            seq![x]
        }),
    decreases s.len(),
{
    if s.len() == 0 {
        assert(s.push(x)[0] == x);
        assert(s =~= Seq::<AlarmV>::empty());
        assert(s.push(x).drop_first() =~= Seq::<AlarmV>::empty());
        assert(spec_drop_id(Seq::<AlarmV>::empty(), id) == Seq::<AlarmV>::empty());
        assert(spec_drop_id(s.push(x), id) =~= spec_drop_id(s, id) + (if x.id == id {
            Seq::<AlarmV>::empty()
        } else {
            seq![x]
        }));
    } else {
        assert(s.push(x)[0] == s[0]);
        assert(s.push(x).drop_first() =~= s.drop_first().push(x));
        lemma_drop_id_snoc(s.drop_first(), x, id);
        if s[0].id == id {
            assert(spec_drop_id(s.push(x), id) == spec_drop_id(s.drop_first().push(x), id));
            assert(spec_drop_id(s, id) == spec_drop_id(s.drop_first(), id));
        } else {
            assert(spec_drop_id(s.push(x), id) == seq![s[0]] + spec_drop_id(
                s.drop_first().push(x),
                id,
            ));
            assert(spec_drop_id(s, id) == seq![s[0]] + spec_drop_id(s.drop_first(), id));
        }
        assert(spec_drop_id(s.push(x), id) =~= spec_drop_id(s, id) + (if x.id == id {
            Seq::<AlarmV>::empty()
        } else {
            seq![x]
        }));
    }
}

pub proof fn lemma_drop_ring_snoc(s: Seq<Seq<char>>, x: Seq<char>, id: Seq<char>)
    ensures
        spec_drop_ring(s.push(x), id) == spec_drop_ring(s, id) + (if x == id {
            Seq::<Seq<char>>::empty()
        } else {
            seq![x]
        }),
    decreases s.len(),
{
    if s.len() == 0 {
        assert(s.push(x)[0] == x);
        assert(s =~= Seq::<Seq<char>>::empty());
        assert(s.push(x).drop_first() =~= Seq::<Seq<char>>::empty());
        assert(spec_drop_ring(Seq::<Seq<char>>::empty(), id) == Seq::<Seq<char>>::empty());
        assert(spec_drop_ring(s.push(x), id) =~= spec_drop_ring(s, id) + (if x == id {
            Seq::<Seq<char>>::empty()
        } else {
            seq![x]
        }));
    } else {
        assert(s.push(x)[0] == s[0]);
        assert(s.push(x).drop_first() =~= s.drop_first().push(x));
        lemma_drop_ring_snoc(s.drop_first(), x, id);
        if s[0] == id {
            assert(spec_drop_ring(s.push(x), id) == spec_drop_ring(s.drop_first().push(x), id));
            assert(spec_drop_ring(s, id) == spec_drop_ring(s.drop_first(), id));
        } else {
            assert(spec_drop_ring(s.push(x), id) == seq![s[0]] + spec_drop_ring(
                s.drop_first().push(x),
                id,
            ));
            assert(spec_drop_ring(s, id) == seq![s[0]] + spec_drop_ring(s.drop_first(), id));
        }
        assert(spec_drop_ring(s.push(x), id) =~= spec_drop_ring(s, id) + (if x == id {
            Seq::<Seq<char>>::empty()
        } else {
            seq![x]
        }));
    }
}

/// The index of the first record with a given id, searched from i, or -1.
pub open spec fn spec_find(s: Seq<AlarmV>, id: Seq<char>, i: int) -> int
    decreases s.len() - i,
{
    if i < 0 || i >= s.len() {
        -1
    } else if s[i].id == id {
        i
    } else {
        spec_find(s, id, i + 1)
    }
}

/// Whether one string orders strictly before another, by code point.
pub fn str_lt(a: &String, b: &String) -> (r: bool)
    ensures
        r == spec_str_lt(a@, b@),
{
    let la: usize = a.as_str().unicode_len();
    let lb: usize = b.as_str().unicode_len();
    let mut i: usize = 0;
    proof {
        assert(a@.skip(0) =~= a@);
        assert(b@.skip(0) =~= b@);
    }
    loop
        invariant
            i <= la,
            i <= lb,
            la == a@.len(),
            lb == b@.len(),
            spec_str_lt(a@, b@) == spec_str_lt(a@.skip(i as int), b@.skip(i as int)),
        ensures
            spec_str_lt(a@, b@) == spec_str_lt(a@.skip(i as int), b@.skip(i as int)),
            i <= la,
            i <= lb,
            i == la || i == lb || a@[i as int] != b@[i as int],
        decreases la - i,
    {
        if i == la || i == lb {
            break ;
        }
        let ca: char = a.as_str().get_char(i);
        let cb: char = b.as_str().get_char(i);
        if ca != cb {
            break ;
        }
        proof {
            let ta = a@.skip(i as int);
            let tb = b@.skip(i as int);
            assert(ta[0] == a@[i as int] && tb[0] == b@[i as int]);
            assert(ta.drop_first() =~= a@.skip(i as int + 1));
            assert(tb.drop_first() =~= b@.skip(i as int + 1));
        }
        i = i + 1;
    }
    if i == la {
        proof {
            assert(a@.skip(i as int).len() == 0);
        }
        i != lb
    } else if i == lb {
        proof {
            assert(b@.skip(i as int).len() == 0);
            assert(a@.skip(i as int).len() > 0);
        }
        false
    } else {
        let ca: char = a.as_str().get_char(i);
        let cb: char = b.as_str().get_char(i);
        proof {
            assert(a@.skip(i as int)[0] == a@[i as int]);
            assert(b@.skip(i as int)[0] == b@[i as int]);
        }
        (ca as u32) < (cb as u32)
    }
}

/// Scanning to the first strictly later key and inserting there realizes
/// the stable insertion.
pub proof fn lemma_insert_at(x: AlarmV, s: Seq<AlarmV>, j: int)
    requires
        0 <= j <= s.len(),
        forall|k: int| 0 <= k < j ==> !spec_str_lt(x.next_fire_time, (#[trigger] s[k]).next_fire_time),
        j < s.len() ==> spec_str_lt(x.next_fire_time, s[j].next_fire_time),
    ensures
        spec_insert_sorted(x, s) == s.subrange(0, j) + seq![x] + s.subrange(j, s.len() as int),
    decreases j,
{
    if j == 0 {
        if s.len() == 0 {
            assert(spec_insert_sorted(x, s) =~= s.subrange(0, 0) + seq![x] + s.subrange(0, 0));
        } else {
            assert(spec_insert_sorted(x, s) =~= s.subrange(0, 0) + seq![x] + s.subrange(
                0,
                s.len() as int,
            ));
        }
    } else {
        assert(forall|k: int|
            0 <= k < j - 1 ==> s.drop_first()[k] == #[trigger] s[k + 1]);
        lemma_insert_at(x, s.drop_first(), j - 1);
        assert(s.drop_first().subrange(0, j - 1) =~= s.subrange(1, j));
        assert(s.drop_first().subrange(j - 1, s.drop_first().len() as int) =~= s.subrange(
            j,
            s.len() as int,
        ));
        assert(spec_insert_sorted(x, s) == seq![s[0]] + spec_insert_sorted(x, s.drop_first()));
        assert(spec_insert_sorted(x, s) =~= s.subrange(0, j) + seq![x] + s.subrange(
            j,
            s.len() as int,
        ));
    }
}

/// Idempotence of listing: two listings of one store without an
/// intervening mutation carry the same records in the same order, since a
/// listing is a function of the held collection alone.
pub proof fn lemma_list_idempotent(s: AlarmStore, r1: Seq<AlarmV>, r2: Seq<AlarmV>)
    requires
        r1 == spec_sort(s.alarms()),
        r2 == spec_sort(s.alarms()),
    ensures
        r1 == r2,
{
}

/// Round trip: loading from the rendered document of a well-formed store
/// yields exactly the records the store held, with no quarantine.
pub proof fn lemma_store_round_trip(s: AlarmStore)
    requires
        s.wf(),
    ensures
        spec_load(Some(spec_render_doc(s.alarms()))) == (s.alarms(), false),
{
    let doc = spec_render_doc(s.alarms());
    crate::timefmt::lemma_num_round_trip(s.alarms().len() as int, 8);
    assert(doc.subrange(0, 8) =~= crate::timefmt::spec_render_num(s.alarms().len() as int, 8));
    assert(crate::timefmt::char_digit(doc[0]) >= 0);
    assert(!crate::text::is_space_char(doc[0]));
    crate::text::lemma_trim_keeps_content(doc, 0);
    crate::codec::lemma_doc_round_trip(s.alarms());
}

/// Repeat re-arm: acknowledging a repeat alarm yields a fresh cached
/// instant whose stored form reads back exactly, and which, plus the
/// alarm's clamped lead, lies strictly after the acknowledgment instant —
/// the record itself stays, as the acknowledgment transition replaces it
/// in place.
pub proof fn lemma_repeat_rearm_future(a: AlarmV, now: Timestamp, s: int)
    requires
        a.repeat_enabled && a.repeat_days.len() > 0,
        spec_next_fire(a.time_label, None, true, a.repeat_days, a.lead_minutes, now) == Ok::<
            int,
            AlarmError,
        >(s),
        ts_wf(ts_of(s, now.offset_minutes as int)),
        ts_seconds(ts_of(s, now.offset_minutes as int)) == s,
    ensures
        spec_parse_ts(spec_render_ts(ts_of(s, now.offset_minutes as int))) == Some(
            ts_of(s, now.offset_minutes as int),
        ),
        s + clamp_lead(a.lead_minutes) * 60 > ts_seconds(now),
{
    lemma_ts_round_trip(ts_of(s, now.offset_minutes as int));
    crate::nextfire::lemma_next_fire_future(
        a.time_label,
        None,
        true,
        a.repeat_days,
        a.lead_minutes,
        now,
    );
}

/// One-shot consumption, seen from due-detection: a collection holding no
/// record of an id never reports that id as due, whatever the ringing set
/// and the clock.
pub proof fn lemma_due_absent(al: Seq<AlarmV>, rg: Seq<Seq<char>>, now: Timestamp, id: Seq<char>)
    requires
        forall|i: int| 0 <= i < al.len() ==> (#[trigger] al[i]).id != id,
    ensures
        forall|i: int|
            0 <= i < spec_due(al, rg, now).0.len() ==> (#[trigger] spec_due(al, rg, now).0[i]).id
                != id,
    decreases al.len(),
{
    if al.len() > 0 {
        let a = al[0];
        let hit = !rg.contains(a.id) && match spec_parse_ts(a.next_fire_time) {
            Some(t) => ts_instant(t) <= ts_instant(now),
            None => false,
        };
        let r1 = if hit {
            rg.push(a.id)
        } else {
            rg
        };
        assert(forall|k: int|
            0 <= k < al.drop_first().len() ==> (#[trigger] al.drop_first()[k]).id != id);
        lemma_due_absent(al.drop_first(), r1, now, id);
        let rest = spec_due(al.drop_first(), r1, now);
        assert forall|i: int|
            0 <= i < spec_due(al, rg, now).0.len() implies (#[trigger] spec_due(
            al,
            rg,
            now,
        ).0[i]).id != id by {
            if hit {
                if i == 0 {
                } else {
                    assert(spec_due(al, rg, now).0[i] == rest.0[i - 1]);
                }
            } else {
                assert(spec_due(al, rg, now).0[i] == rest.0[i]);
            }
        }
    }
}

/// A found index is in range and names the id.
pub proof fn lemma_find_props(s: Seq<AlarmV>, id: Seq<char>, i: int)
    requires
        0 <= i,
    ensures
        spec_find(s, id, i) == -1 || (i <= spec_find(s, id, i) < s.len() && s[spec_find(
            s,
            id,
            i,
        )].id == id),
    decreases s.len() - i,
{
    if i < s.len() && s[i].id != id {
        lemma_find_props(s, id, i + 1);
    }
}

/// One-shot consumption, end to end: acknowledging a one-shot alarm whose
/// id names a single record leaves a collection holding no record of that
/// id, and due-detection on that collection never reports the id again,
/// whatever the ringing set and the clock.
pub proof fn lemma_one_shot_consumed(
    pre: Seq<AlarmV>,
    id: Seq<char>,
    rg: Seq<Seq<char>>,
    now: Timestamp,
)
    requires
        spec_find(pre, id, 0) >= 0,
        !(pre[spec_find(pre, id, 0)].repeat_enabled && pre[spec_find(pre, id, 0)].repeat_days.len()
            > 0),
        forall|k: int|
            0 <= k < pre.len() && k != spec_find(pre, id, 0) ==> (#[trigger] pre[k]).id != id,
    ensures
        forall|k: int|
            0 <= k < pre.remove(spec_find(pre, id, 0)).len() ==> (#[trigger] pre.remove(
                spec_find(pre, id, 0),
            )[k]).id != id,
        forall|i: int|
            0 <= i < spec_due(pre.remove(spec_find(pre, id, 0)), rg, now).0.len() ==> (
            #[trigger] spec_due(pre.remove(spec_find(pre, id, 0)), rg, now).0[i]).id != id,
{
    let j = spec_find(pre, id, 0);
    lemma_find_props(pre, id, 0);
    let post = pre.remove(j);
    assert forall|k: int| 0 <= k < post.len() implies (#[trigger] post[k]).id != id by {
        if k < j {
            assert(post[k] == pre[k]);
        } else {
            assert(post[k] == pre[k + 1]);
        }
    }
    lemma_due_absent(post, rg, now, id);
}

/// An id once in the ringing set stays there through due-detection.
pub proof fn lemma_due_ring_grows(
    al: Seq<AlarmV>,
    rg: Seq<Seq<char>>,
    now: Timestamp,
    x: Seq<char>,
)
    requires
        rg.contains(x),
    ensures
        spec_due(al, rg, now).1.contains(x),
    decreases al.len(),
{
    if al.len() > 0 {
        let a = al[0];
        let hit = !rg.contains(a.id) && match spec_parse_ts(a.next_fire_time) {
            Some(t) => ts_instant(t) <= ts_instant(now),
            None => false,
        };
        let r1 = if hit {
            rg.push(a.id)
        } else {
            rg
        };
        if hit {
            let k = choose|k: int| 0 <= k < rg.len() && rg[k] == x;
            assert(rg.push(a.id)[k] == x);
        }
        lemma_due_ring_grows(al.drop_first(), r1, now, x);
    }
}

/// Every alarm that due-detection reports was not already ringing and is
/// in the ringing set afterwards.
pub proof fn lemma_due_marks(al: Seq<AlarmV>, rg: Seq<Seq<char>>, now: Timestamp)
    ensures
        forall|i: int|
            0 <= i < spec_due(al, rg, now).0.len() ==> spec_due(al, rg, now).1.contains(
                (#[trigger] spec_due(al, rg, now).0[i]).id,
            ) && !rg.contains(spec_due(al, rg, now).0[i].id),
    decreases al.len(),
{
    if al.len() > 0 {
        let a = al[0];
        let hit = !rg.contains(a.id) && match spec_parse_ts(a.next_fire_time) {
            Some(t) => ts_instant(t) <= ts_instant(now),
            None => false,
        };
        let r1 = if hit {
            rg.push(a.id)
        } else {
            rg
        };
        lemma_due_marks(al.drop_first(), r1, now);
        let rest = spec_due(al.drop_first(), r1, now);
        assert forall|i: int|
            0 <= i < spec_due(al, rg, now).0.len() implies spec_due(al, rg, now).1.contains(
            (#[trigger] spec_due(al, rg, now).0[i]).id,
        ) && !rg.contains(spec_due(al, rg, now).0[i].id) by {
            if hit && i == 0 {
                assert(r1[rg.len() as int] == a.id);
                assert(r1.contains(a.id));
                lemma_due_ring_grows(al.drop_first(), r1, now, a.id);
            } else {
                let v = if hit {
                    rest.0[i - 1]
                } else {
                    rest.0[i]
                };
                assert(spec_due(al, rg, now).0[i] == v);
                assert(rest.1.contains(v.id) && !r1.contains(v.id));
                if hit {
                    let m = rg.len() as int;
                    assert forall|y: Seq<char>| rg.contains(y) implies r1.contains(y) by {
                        let k = choose|k: int| 0 <= k < rg.len() && rg[k] == y;
                        assert(r1[k] == y);
                    }
                }
            }
        }
    }
}

/// Due-detection called twice in succession, with no acknowledgment
/// between, never reports the same already-ringing alarm twice: the two
/// reports share no id.
pub proof fn lemma_due_twice(al: Seq<AlarmV>, rg: Seq<Seq<char>>, now1: Timestamp, now2: Timestamp)
    ensures
        ({
            let first = spec_due(al, rg, now1);
            let second = spec_due(al, first.1, now2);
            forall|i: int, j: int|
                0 <= i < first.0.len() && 0 <= j < second.0.len() ==> (#[trigger] first.0[i]).id
                    != (#[trigger] second.0[j]).id
        }),
{
    lemma_due_marks(al, rg, now1);
    lemma_due_marks(al, spec_due(al, rg, now1).1, now2);
}

} // verus!
