//! The append-only audit trail.
//!
//! Every position-affecting mutation records one immutable, timestamped fact
//! per entry whose effective position changed. The trail is the authority
//! for the past: reconstruction selects, for each entry, the most recent
//! fact no later than the requested instant. Facts are appended in
//! nondecreasing `valid_from` order, so within the trail the latest matching
//! fact is the most recent one.

use vstd::prelude::*;

use crate::demon::Demon;

verus! {

/// One immutable audit fact: at `valid_from` the entry took
/// `effective_position` (`None` records a retirement).
#[derive(Clone, Copy, Debug, PartialEq, Eq, Structural)]
pub struct AuditFact {
    /// The entry the fact speaks of.
    pub entry_id: i32,
    /// The position the entry took, or `None` when it left the active list.
    pub effective_position: Option<i16>,
    /// The instant from which the fact holds.
    pub valid_from: i64,
}

/// The effective position of `id` at instant `t`: the position recorded by
/// the latest fact for `id` with `valid_from <= t`, or `None` when no such
/// fact exists (the entry did not exist yet) or the fact records a
/// retirement.
pub open spec fn current_of(log: Seq<AuditFact>, id: i32, t: i64) -> Option<i16>
    decreases log.len(),
{
    if log.len() == 0 {
        None
    } else if log.last().entry_id == id && log.last().valid_from <= t {
        log.last().effective_position
    } else {
        current_of(log.drop_last(), id, t)
    }
}

/// A fact for another entry, or one only valid after `t`, does not change
/// the selection.
pub proof fn lemma_current_push_other(log: Seq<AuditFact>, f: AuditFact, id: i32, t: i64)
    requires
        f.entry_id != id || f.valid_from > t,
    ensures
        current_of(log.push(f), id, t) == current_of(log, id, t),
{
    assert(log.push(f).drop_last() =~= log);
}

/// A fresh fact for `id` valid by `t` becomes the selection for `id`.
pub proof fn lemma_current_push_hit(log: Seq<AuditFact>, f: AuditFact, t: i64)
    requires
        f.valid_from <= t,
    ensures
        current_of(log.push(f), f.entry_id, t) == f.effective_position,
{
}

/// An instant earlier than every fact selects nothing.
pub proof fn lemma_current_none_before(log: Seq<AuditFact>, id: i32, t: i64)
    requires
        forall|i: int| 0 <= i < log.len() ==> log[i].valid_from > t,
    ensures
        current_of(log, id, t) == None::<i16>,
    decreases log.len(),
{
    if log.len() > 0 {
        lemma_current_none_before(log.drop_last(), id, t);
    }
}

/// Beyond the last recorded instant the selection no longer changes.
pub proof fn lemma_current_time(log: Seq<AuditFact>, id: i32, t1: i64, t2: i64)
    requires
        forall|i: int| 0 <= i < log.len() ==> log[i].valid_from <= t1,
        t1 <= t2,
    ensures
        current_of(log, id, t1) == current_of(log, id, t2),
    decreases log.len(),
{
    if log.len() > 0 {
        lemma_current_time(log.drop_last(), id, t1, t2);
    }
}

/// Looks up the effective position of `id` at instant `t` in the trail.
pub fn effective_position_at(log: &Vec<AuditFact>, id: i32, t: i64) -> (r: Option<i16>)
    ensures
        r == current_of(log@, id, t),
{
    let mut i: usize = log.len();
    proof {
        assert(log@.take(log@.len() as int) =~= log@);
    }
    while i > 0
        invariant
            i <= log@.len(),
            current_of(log@, id, t) == current_of(log@.take(i as int), id, t),
        decreases i,
    {
        i -= 1;
        let f = log[i];
        proof {
            assert(log@.take(i + 1 as int).drop_last() =~= log@.take(i as int));
            assert(log@.take(i + 1 as int).last() == log@[i as int]);
        }
        if f.entry_id == id && f.valid_from <= t {
            return f.effective_position;
        }
    }
    None
}

/// Whether two position slots are equal.
fn pos_eq(a: Option<i16>, b: Option<i16>) -> (r: bool)
    ensures
        r == (a == b),
{
    match (a, b) {
        (None, None) => true,
        (Some(x), Some(y)) => x == y,
        _ => false,
    }
}

/// Whether `id` is the identity of one of the rows.
pub open spec fn is_row_id(rows: Seq<Demon>, id: i32) -> bool {
    exists|r: int| 0 <= r < rows.len() && #[trigger] rows[r].id == id
}

/// The position the trail must show for row `i` after a mutation at `now`:
/// unchanged rows keep their earlier selection, changed or new rows show
/// their new position.
pub open spec fn recorded_position(
    log0: Seq<AuditFact>,
    rows: Seq<Demon>,
    old_pos: Seq<Option<i16>>,
    now: i64,
    i: int,
) -> Option<i16> {
    if i < old_pos.len() && rows[i].position == old_pos[i] {
        current_of(log0, rows[i].id, now)
    } else {
        rows[i].position
    }
}

/// Appends one fact, timestamped `now`, for every row whose position differs
/// from the pre-mutation snapshot `old_pos` — rows beyond the snapshot are
/// new and always recorded. Earlier facts are untouched, so every selection
/// strictly before `now` is exactly as it was.
pub fn record_changes(
    log: &mut Vec<AuditFact>,
    rows: &Vec<Demon>,
    old_pos: &Vec<Option<i16>>,
    now: i64,
)
    requires
        old_pos@.len() <= rows@.len(),
        forall|i: int| 0 <= i < old(log)@.len() ==> #[trigger] old(log)@[i].valid_from <= now,
        forall|i: int, j: int|
            0 <= i < j < rows@.len() ==> rows@[i].id != rows@[j].id,
    ensures
        final(log)@.len() >= old(log)@.len(),
        final(log)@.subrange(0, old(log)@.len() as int) == old(log)@,
        forall|k: int|
            old(log)@.len() <= k < final(log)@.len() ==> (#[trigger] final(log)@[k].valid_from)
                == now,
        forall|k: int|
            old(log)@.len() <= k < final(log)@.len() ==> is_row_id(
                rows@,
                (#[trigger] final(log)@[k]).entry_id,
            ),
        forall|r: int|
            0 <= r < rows@.len() ==> #[trigger] current_of(final(log)@, rows@[r].id, now)
                == recorded_position(old(log)@, rows@, old_pos@, now, r),
        forall|id: i32, t: i64|
            t < now ==> #[trigger] current_of(final(log)@, id, t) == current_of(old(log)@, id, t),
{
    let ghost log0 = log@;
    let mut i: usize = 0;
    while i < rows.len()
        invariant
            i <= rows@.len(),
            old_pos@.len() <= rows@.len(),
            forall|i0: int| 0 <= i0 < log0.len() ==> #[trigger] log0[i0].valid_from <= now,
            forall|i0: int, j0: int|
                0 <= i0 < j0 < rows@.len() ==> rows@[i0].id != rows@[j0].id,
            log@.len() >= log0.len(),
            log@.subrange(0, log0.len() as int) == log0,
            forall|k: int|
                log0.len() <= k < log@.len() ==> (#[trigger] log@[k].valid_from) == now,
            forall|k: int|
                log0.len() <= k < log@.len() ==> is_row_id(rows@, (#[trigger] log@[k]).entry_id),
            forall|r: int|
                0 <= r < i ==> #[trigger] current_of(log@, rows@[r].id, now) == recorded_position(
                    log0,
                    rows@,
                    old_pos@,
                    now,
                    r,
                ),
            forall|r: int|
                i <= r < rows@.len() ==> #[trigger] current_of(log@, rows@[r].id, now)
                    == current_of(log0, rows@[r].id, now),
            forall|id: i32, t: i64|
                t < now ==> #[trigger] current_of(log@, id, t) == current_of(log0, id, t),
        decreases rows@.len() - i,
    {
        let changed = if i < old_pos.len() {
            !pos_eq(rows[i].position, old_pos[i])
        } else {
            true
        };
        if changed {
            let f = AuditFact {
                entry_id: rows[i].id,
                effective_position: rows[i].position,
                valid_from: now,
            };
            let ghost pre = log@;
            log.push(f);
            proof {
                assert(log@ == pre.push(f));
                assert(log@.subrange(0, log0.len() as int) =~= pre.subrange(
                    0,
                    log0.len() as int,
                ));
                lemma_current_push_hit(pre, f, now);
                assert forall|r: int|
                    0 <= r < rows@.len() && r != i implies #[trigger] current_of(
                    log@,
                    rows@[r].id,
                    now,
                ) == current_of(pre, rows@[r].id, now) by {
                    lemma_current_push_other(pre, f, rows@[r].id, now);
                }
                assert forall|id: i32, t: i64| t < now implies #[trigger] current_of(log@, id, t)
                    == current_of(pre, id, t) by {
                    lemma_current_push_other(pre, f, id, t);
                }
            }
        }
        i += 1;
    }
}

/// Copies the position column of the rows, as a stable pre-mutation read.
pub fn snapshot_positions(rows: &Vec<Demon>) -> (r: Vec<Option<i16>>)
    ensures
        r@ == crate::shift::positions_of(rows@),
{
    let mut r: Vec<Option<i16>> = Vec::new();
    let mut i: usize = 0;
    while i < rows.len()
        invariant
            i <= rows@.len(),
            r@.len() == i,
            forall|j: int| 0 <= j < i ==> r@[j] == rows@[j].position,
        decreases rows@.len() - i,
    {
        r.push(rows[i].position);
        i += 1;
    }
    proof {
        assert(r@ =~= crate::shift::positions_of(rows@));
    }
    r
}

} // verus!
