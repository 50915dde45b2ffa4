//! The daily schedule: which accounts are due for their check-in at a
//! given Shanghai date and time, and the marks that make each account fire
//! at most once a day.

use vstd::prelude::*;

use crate::protocol::{has_entry, ParamMap};
use crate::text::{chars_le, chars_of, lex_le};
use crate::time::{normalize_hhmm, normalize_hhmm_spec};

verus! {

/// The value stored for `k`, where there is one.
pub open spec fn value_of(pairs: Seq<(Seq<char>, Seq<char>)>, k: Seq<char>) -> Option<Seq<char>> {
    if exists|v: Seq<char>| has_entry(pairs, k, v) {
        Some(choose|v: Seq<char>| has_entry(pairs, k, v))
    } else {
        None
    }
}

/// The normalized check-in time of account `id`: its own schedule where it
/// has one (an invalid one gives none), else the default.
pub open spec fn schedule_of(
    schedules: Seq<(Seq<char>, Seq<char>)>,
    default_schedule: Seq<char>,
    id: Seq<char>,
) -> Option<Seq<char>> {
    match value_of(schedules, id) {
        Some(s) => normalize_hhmm_spec(s),
        None => normalize_hhmm_spec(default_schedule),
    }
}

/// Account `id` is due at `now` (`HH:MM`) on `today`: it has not fired
/// today and its check-in time has come (or passed, for a late start).
pub open spec fn is_due(
    fired: Seq<(Seq<char>, Seq<char>)>,
    schedules: Seq<(Seq<char>, Seq<char>)>,
    default_schedule: Seq<char>,
    id: Seq<char>,
    today: Seq<char>,
    now: Seq<char>,
) -> bool {
    &&& !has_entry(fired, id, today)
    &&& match schedule_of(schedules, default_schedule, id) {
        Some(t) => lex_le(t, now),
        None => false,
    }
}

/// The due accounts among `ids`, in order.
pub open spec fn due_list(
    ids: Seq<Seq<char>>,
    fired: Seq<(Seq<char>, Seq<char>)>,
    schedules: Seq<(Seq<char>, Seq<char>)>,
    default_schedule: Seq<char>,
    today: Seq<char>,
    now: Seq<char>,
) -> Seq<Seq<char>>
    decreases ids.len(),
{
    if ids.len() == 0 {
        Seq::empty()
    } else {
        let p = due_list(ids.drop_last(), fired, schedules, default_schedule, today, now);
        if is_due(fired, schedules, default_schedule, ids.last(), today, now) {
            p.push(ids.last())
        } else {
            p
        }
    }
}

/// The views of a list of strings.
pub open spec fn id_views(v: Seq<String>) -> Seq<Seq<char>> {
    Seq::new(v.len(), |i: int| v[i]@)
}

/// Forgets the fire marks of other days.
pub fn prune_fired(fired: &mut ParamMap, today: &str)
    requires
        old(fired).wf(),
    ensures
        final(fired).wf(),
        forall|k: Seq<char>, v: Seq<char>|
            has_entry(final(fired).pairs(), k, v) <==> (has_entry(old(fired).pairs(), k, v) && v
                == today@),
{
    fired.retain_value(today);
}

fn lookup(m: &ParamMap, key: &str) -> (r: Option<String>)
    requires
        m.wf(),
    ensures
        match r {
            Some(v) => value_of(m.pairs(), key@) == Some(v@),
            None => value_of(m.pairs(), key@) is None,
        },
{
    let r = m.get(key);
    proof {
        if r is Some {
            let v = r->0;
            let c = choose|c: Seq<char>| has_entry(m.pairs(), key@, c);
            m.lemma_unique_value(key@, v@, c);
        }
    }
    r
}

fn fired_today(fired: &ParamMap, id: &str, today: &str) -> (b: bool)
    requires
        fired.wf(),
    ensures
        b == has_entry(fired.pairs(), id@, today@),
{
    match fired.get(id) {
        Some(d) => {
            let r = crate::text::str_eq(d.as_str(), today);
            proof {
                if !r && has_entry(fired.pairs(), id@, today@) {
                    fired.lemma_unique_value(id@, d@, today@);
                }
            }
            r
        },
        None => false,
    }
}

/// The accounts among `ids` that are due now, in order.
pub fn due_accounts(
    ids: &[String],
    schedules: &ParamMap,
    default_schedule: &str,
    fired: &ParamMap,
    today: &str,
    now_hhmm: &str,
) -> (due: Vec<String>)
    requires
        schedules.wf(),
        fired.wf(),
    ensures
        id_views(due@) == due_list(
            id_views(ids@),
            fired.pairs(),
            schedules.pairs(),
            default_schedule@,
            today@,
            now_hhmm@,
        ),
{
    let default_time = normalize_hhmm(default_schedule);
    let now = chars_of(now_hhmm);
    let mut out: Vec<String> = Vec::new();
    let mut i: usize = 0;
    while i < ids.len()
        invariant
            i <= ids@.len(),
            schedules.wf(),
            fired.wf(),
            now@ == now_hhmm@,
            match default_time {
                Some(x) => normalize_hhmm_spec(default_schedule@) == Some(x@),
                None => normalize_hhmm_spec(default_schedule@) is None,
            },
            id_views(out@) == due_list(
                id_views(ids@.take(i as int)),
                fired.pairs(),
                schedules.pairs(),
                default_schedule@,
                today@,
                now_hhmm@,
            ),
        decreases ids@.len() - i,
    {
        proof {
            assert(id_views(ids@.take(i + 1)).drop_last() =~= id_views(ids@.take(i as int)));
            assert(id_views(ids@.take(i + 1)).last() == ids@[i as int]@);
        }
        let id = ids[i].as_str();
        let t: Option<String> = match lookup(schedules, id) {
            Some(s) => normalize_hhmm(s.as_str()),
            None => match &default_time {
                Some(x) => Some(x.clone()),
                None => None,
            },
        };
        let due_now = !fired_today(fired, id, today) && match &t {
            Some(x) => chars_le(&chars_of(x.as_str()), &now),
            None => false,
        };
        if due_now {
            let ghost before = id_views(out@);
            out.push(ids[i].clone());
            proof {
                assert(id_views(out@) =~= before.push(ids@[i as int]@));
            }
        }
        i = i + 1;
    }
    proof {
        assert(ids@.take(ids@.len() as int) =~= ids@);
    }
    out
}

/// Marks the accounts in `ids` as fired on `today`.
pub fn mark_fired(fired: &mut ParamMap, ids: &[String], today: &str)
    requires
        old(fired).wf(),
    ensures
        final(fired).wf(),
        forall|i: int| 0 <= i < ids@.len() ==> has_entry(final(fired).pairs(), ids@[i]@, today@),
        forall|k: Seq<char>, v: Seq<char>|
            (forall|i: int| 0 <= i < ids@.len() ==> ids@[i]@ != k) ==> (has_entry(
                final(fired).pairs(),
                k,
                v,
            ) == has_entry(old(fired).pairs(), k, v)),
{
    let ghost before = fired.pairs();
    let mut i: usize = 0;
    while i < ids.len()
        invariant
            i <= ids@.len(),
            fired.wf(),
            forall|j: int| 0 <= j < i ==> has_entry(fired.pairs(), ids@[j]@, today@),
            forall|k: Seq<char>, v: Seq<char>|
                (forall|j: int| 0 <= j < i ==> ids@[j]@ != k) ==> (has_entry(fired.pairs(), k, v)
                    == has_entry(before, k, v)),
        decreases ids@.len() - i,
    {
        fired.set(ids[i].as_str(), today);
        i = i + 1;
    }
}

/// Which accounts are due depends on the fire marks only through the
/// marks of `today`.
proof fn lemma_due_list_today_marks(
    ids: Seq<Seq<char>>,
    f1: Seq<(Seq<char>, Seq<char>)>,
    f2: Seq<(Seq<char>, Seq<char>)>,
    schedules: Seq<(Seq<char>, Seq<char>)>,
    default_schedule: Seq<char>,
    today: Seq<char>,
    now: Seq<char>,
)
    requires
        forall|k: Seq<char>| has_entry(f1, k, today) == has_entry(f2, k, today),
    ensures
        due_list(ids, f1, schedules, default_schedule, today, now) == due_list(
            ids,
            f2,
            schedules,
            default_schedule,
            today,
            now,
        ),
    decreases ids.len(),
{
    if ids.len() > 0 {
        lemma_due_list_today_marks(ids.drop_last(), f1, f2, schedules, default_schedule, today, now);
    }
}

/// One tick of the daily schedule at `now_hhmm` on `today`: the marks of
/// other days are forgotten, the due accounts are picked, and each of them
/// is marked as fired today. The due accounts are returned, in order.
pub fn scheduler_tick(
    fired: &mut ParamMap,
    ids: &[String],
    schedules: &ParamMap,
    default_schedule: &str,
    today: &str,
    now_hhmm: &str,
) -> (due: Vec<String>)
    requires
        old(fired).wf(),
        schedules.wf(),
    ensures
        final(fired).wf(),
        id_views(due@) == due_list(
            id_views(ids@),
            old(fired).pairs(),
            schedules.pairs(),
            default_schedule@,
            today@,
            now_hhmm@,
        ),
        forall|k: Seq<char>, v: Seq<char>|
            has_entry(final(fired).pairs(), k, v) <==> (v == today@ && (has_entry(
                old(fired).pairs(),
                k,
                v,
            ) || id_views(due@).contains(k))),
{
    prune_fired(fired, today);
    let ghost pruned = fired.pairs();
    let due = due_accounts(ids, schedules, default_schedule, fired, today, now_hhmm);
    proof {
        lemma_due_list_today_marks(
            id_views(ids@),
            pruned,
            old(fired).pairs(),
            schedules.pairs(),
            default_schedule@,
            today@,
            now_hhmm@,
        );
    }
    mark_fired(fired, due.as_slice(), today);
    proof {
        assert forall|k: Seq<char>, v: Seq<char>|
            has_entry(fired.pairs(), k, v) <==> (v == today@ && (has_entry(old(fired).pairs(), k, v) || id_views(
                due@,
            ).contains(k))) by {
            if id_views(due@).contains(k) {
                let j = choose|j: int| 0 <= j < id_views(due@).len() && id_views(due@)[j] == k;
                assert(due@[j]@ == k);
                assert(has_entry(fired.pairs(), k, today@));
                if has_entry(fired.pairs(), k, v) {
                    fired.lemma_unique_value(k, v, today@);
                }
            } else {
                assert forall|i: int| 0 <= i < due@.len() implies due@[i]@ != k by {
                    assert(id_views(due@)[i] == due@[i]@);
                }
                assert(has_entry(fired.pairs(), k, v) == has_entry(pruned, k, v));
                assert(has_entry(pruned, k, v) == (has_entry(old(fired).pairs(), k, v) && v == today@));
            }
        }
    }
    due
}

/// Every account in the due list has not fired today.
proof fn lemma_due_not_fired(
    ids: Seq<Seq<char>>,
    fired: Seq<(Seq<char>, Seq<char>)>,
    schedules: Seq<(Seq<char>, Seq<char>)>,
    default_schedule: Seq<char>,
    today: Seq<char>,
    now: Seq<char>,
    x: Seq<char>,
)
    requires
        due_list(ids, fired, schedules, default_schedule, today, now).contains(x),
    ensures
        !has_entry(fired, x, today),
    decreases ids.len(),
{
    if ids.len() > 0 {
        let p = due_list(ids.drop_last(), fired, schedules, default_schedule, today, now);
        if p.contains(x) {
            lemma_due_not_fired(ids.drop_last(), fired, schedules, default_schedule, today, now, x);
        } else {
            let j = choose|j: int|
                0 <= j < due_list(ids, fired, schedules, default_schedule, today, now).len()
                    && due_list(ids, fired, schedules, default_schedule, today, now)[j] == x;
            assert(j == p.len());
        }
    }
}

/// Each account fires at most once a day: after a tick on `today` (the
/// marks as `scheduler_tick` leaves them), no account that it picked is
/// picked by a later tick on the same day, whatever the time.
pub proof fn lemma_tick_once_a_day(
    ids: Seq<Seq<char>>,
    before: Seq<(Seq<char>, Seq<char>)>,
    after: Seq<(Seq<char>, Seq<char>)>,
    schedules: Seq<(Seq<char>, Seq<char>)>,
    default_schedule: Seq<char>,
    today: Seq<char>,
    now: Seq<char>,
    later: Seq<char>,
    later_ids: Seq<Seq<char>>,
)
    requires
        forall|k: Seq<char>, v: Seq<char>|
            has_entry(after, k, v) <==> (v == today && (has_entry(before, k, v) || due_list(
                ids,
                before,
                schedules,
                default_schedule,
                today,
                now,
            ).contains(k))),
    ensures
        forall|x: Seq<char>|
            due_list(ids, before, schedules, default_schedule, today, now).contains(x) ==> !due_list(
                later_ids,
                after,
                schedules,
                default_schedule,
                today,
                later,
            ).contains(x),
{
    assert forall|x: Seq<char>|
        due_list(ids, before, schedules, default_schedule, today, now).contains(x) implies !due_list(
            later_ids,
            after,
            schedules,
            default_schedule,
            today,
            later,
        ).contains(x) by {
        assert(has_entry(after, x, today));
        if due_list(later_ids, after, schedules, default_schedule, today, later).contains(x) {
            lemma_due_not_fired(later_ids, after, schedules, default_schedule, today, later, x);
        }
    }
}

/// An account marked as fired today is not due again today, whatever the
/// time.
pub proof fn lemma_fires_once_a_day(
    fired: Seq<(Seq<char>, Seq<char>)>,
    schedules: Seq<(Seq<char>, Seq<char>)>,
    default_schedule: Seq<char>,
    id: Seq<char>,
    today: Seq<char>,
    now: Seq<char>,
)
    requires
        has_entry(fired, id, today),
    ensures
        !is_due(fired, schedules, default_schedule, id, today, now),
{
}

/// An account not fired today whose check-in time has come is due, also
/// when the service only starts after that time.
pub proof fn lemma_late_start_catches_up(
    fired: Seq<(Seq<char>, Seq<char>)>,
    schedules: Seq<(Seq<char>, Seq<char>)>,
    default_schedule: Seq<char>,
    id: Seq<char>,
    today: Seq<char>,
    t: Seq<char>,
    now: Seq<char>,
)
    requires
        !has_entry(fired, id, today),
        schedule_of(schedules, default_schedule, id) == Some(t),
        lex_le(t, now),
    ensures
        is_due(fired, schedules, default_schedule, id, today, now),
{
}

} // verus!
