//! The position shifter and the density theory of the ranking.
//!
//! Active entries carry the positions `1..=N`, each exactly once, where `N`
//! is the number of active entries. Inserting, moving or retiring an entry
//! preserves that shape through bulk shifts: `shift_down` opens a slot by
//! incrementing every active position at or above a threshold, `shift_up`
//! closes one by decrementing every active position above it. Each shift is
//! computed from a stable pre-shift read of the whole column — the
//! transformation below is stated against the sequence as it stood before the
//! call, so no intermediate, invalid view is ever observed.

use vstd::prelude::*;

use crate::demon::{same_but_position, Demon};

verus! {

/// The position column of a row sequence.
pub open spec fn positions_of(rows: Seq<Demon>) -> Seq<Option<i16>> {
    rows.map_values(|d: Demon| d.position)
}

/// The number of active slots in a position column.
pub open spec fn count_active(ps: Seq<Option<i16>>) -> nat
    decreases ps.len(),
{
    if ps.len() == 0 {
        0
    } else {
        count_active(ps.drop_last()) + if ps.last() is Some {
            1nat
        } else {
            0nat
        }
    }
}

/// No two active slots carry the same position.
pub open spec fn positions_injective(ps: Seq<Option<i16>>) -> bool {
    forall|i: int, j: int|
        0 <= i < j < ps.len() && ps[i] is Some && ps[j] is Some ==> ps[i]->0 != ps[j]->0
}

/// Every active position lies within `1..=n`.
pub open spec fn positions_bounded(ps: Seq<Option<i16>>, n: int) -> bool {
    forall|i: int| 0 <= i < ps.len() && ps[i] is Some ==> 1 <= ps[i]->0 <= n
}

/// Some slot carries the position `k`.
pub open spec fn has_position(ps: Seq<Option<i16>>, k: int) -> bool {
    exists|i: int| 0 <= i < ps.len() && ps[i] == Some(k as i16)
}

/// Every position within `1..=n` is carried by some slot.
pub open spec fn positions_cover(ps: Seq<Option<i16>>, n: int) -> bool {
    forall|k: int| 1 <= k <= n ==> #[trigger] has_position(ps, k)
}

/// The column is dense: the active positions are exactly `1..=N` with no
/// duplicates and no gaps, where `N` is the number of active slots.
pub open spec fn positions_dense(ps: Seq<Option<i16>>) -> bool {
    &&& positions_injective(ps)
    &&& positions_bounded(ps, count_active(ps) as int)
    &&& positions_cover(ps, count_active(ps) as int)
}

/// The column is one placement short of dense: the active positions are
/// exactly `1..=n` except `t`, each exactly once.
pub open spec fn dense_except(ps: Seq<Option<i16>>, t: int, n: int) -> bool {
    &&& positions_injective(ps)
    &&& forall|i: int|
        0 <= i < ps.len() && ps[i] is Some ==> 1 <= ps[i]->0 <= n && ps[i]->0 != t
    &&& forall|k: int| 1 <= k <= n && k != t ==> #[trigger] has_position(ps, k)
    &&& count_active(ps) == n - 1
}

/// What one slot becomes when a slot is opened at `threshold`.
pub open spec fn shifted_down(p: Option<i16>, threshold: i16) -> Option<i16> {
    match p {
        None => None,
        Some(q) => if q >= threshold {
            Some((q + 1) as i16)
        } else {
            Some(q)
        },
    }
}

/// What one slot becomes when the slot at `threshold` is closed.
pub open spec fn shifted_up(p: Option<i16>, threshold: i16) -> Option<i16> {
    match p {
        None => None,
        Some(q) => if q > threshold {
            Some((q - 1) as i16)
        } else {
            Some(q)
        },
    }
}

/// Columns that agree slot by slot on activity have the same count.
pub proof fn lemma_count_pointwise(a: Seq<Option<i16>>, b: Seq<Option<i16>>)
    requires
        a.len() == b.len(),
        forall|i: int| 0 <= i < a.len() ==> (a[i] is Some <==> b[i] is Some),
    ensures
        count_active(a) == count_active(b),
    decreases a.len(),
{
    if a.len() > 0 {
        assert(forall|i: int|
            0 <= i < a.drop_last().len() ==> (a.drop_last()[i] is Some <==> b.drop_last()[i]
                is Some));
        lemma_count_pointwise(a.drop_last(), b.drop_last());
    }
}

/// Appending a slot adds its activity to the count.
pub proof fn lemma_count_push(ps: Seq<Option<i16>>, v: Option<i16>)
    ensures
        count_active(ps.push(v)) == count_active(ps) + if v is Some {
            1nat
        } else {
            0nat
        },
{
    assert(ps.push(v).drop_last() =~= ps);
}

/// Replacing a slot adjusts the count by the change in activity.
pub proof fn lemma_count_update(ps: Seq<Option<i16>>, i: int, v: Option<i16>)
    requires
        0 <= i < ps.len(),
    ensures
        count_active(ps.update(i, v)) == count_active(ps) - (if ps[i] is Some {
            1int
        } else {
            0int
        }) + (if v is Some {
            1int
        } else {
            0int
        }),
    decreases ps.len(),
{
    if i == ps.len() - 1 {
        assert(ps.update(i, v).drop_last() =~= ps.drop_last());
    } else {
        assert(ps.update(i, v).drop_last() =~= ps.drop_last().update(i, v));
        lemma_count_update(ps.drop_last(), i, v);
    }
}

/// Opening a slot at `t` in a dense column of count `n` leaves the column
/// one placement short of dense over `1..=n + 1`, the missing position
/// being `t`.
pub proof fn lemma_shift_down_dense(a: Seq<Option<i16>>, b: Seq<Option<i16>>, t: int, n: int)
    requires
        positions_dense(a),
        n == count_active(a),
        1 <= t <= n + 1,
        n + 1 <= i16::MAX as int,
        b.len() == a.len(),
        forall|i: int| 0 <= i < a.len() ==> b[i] == shifted_down(a[i], t as i16),
    ensures
        dense_except(b, t, n + 1),
{
    lemma_count_pointwise(a, b);
    assert forall|k: int| 1 <= k <= n + 1 && k != t implies #[trigger] has_position(b, k) by {
        if k < t {
            assert(has_position(a, k));
            let i = choose|i: int| 0 <= i < a.len() && a[i] == Some(k as i16);
            assert(b[i] == Some(k as i16));
        } else {
            assert(has_position(a, k - 1));
            let i = choose|i: int| 0 <= i < a.len() && a[i] == Some((k - 1) as i16);
            assert(b[i] == Some(k as i16));
        }
    }
}

/// Closing the (empty) slot `t` in a column one placement short of dense
/// over `1..=n` yields a dense column of count `n - 1`.
pub proof fn lemma_shift_up_dense(b: Seq<Option<i16>>, c: Seq<Option<i16>>, t: int, n: int)
    requires
        dense_except(b, t, n),
        1 <= t <= n <= i16::MAX as int,
        c.len() == b.len(),
        forall|i: int| 0 <= i < b.len() ==> c[i] == shifted_up(b[i], t as i16),
    ensures
        positions_dense(c),
        count_active(c) == n - 1,
{
    lemma_count_pointwise(b, c);
    assert forall|k: int| 1 <= k <= n - 1 implies #[trigger] has_position(c, k) by {
        if k < t {
            assert(has_position(b, k));
            let i = choose|i: int| 0 <= i < b.len() && b[i] == Some(k as i16);
            assert(c[i] == Some(k as i16));
        } else {
            assert(has_position(b, k + 1));
            let i = choose|i: int| 0 <= i < b.len() && b[i] == Some((k + 1) as i16);
            assert(c[i] == Some(k as i16));
        }
    }
}

/// Filling the missing position `t` by appending a new active slot makes the
/// column dense with count `n`.
pub proof fn lemma_place_push(b: Seq<Option<i16>>, t: int, n: int)
    requires
        dense_except(b, t, n),
        1 <= t <= n <= i16::MAX as int,
    ensures
        positions_dense(b.push(Some(t as i16))),
        count_active(b.push(Some(t as i16))) == n,
{
    lemma_count_push(b, Some(t as i16));
    let c = b.push(Some(t as i16));
    assert forall|k: int| 1 <= k <= n implies #[trigger] has_position(c, k) by {
        if k == t {
            assert(c[b.len() as int] == Some(k as i16));
        } else {
            assert(has_position(b, k));
            let i = choose|i: int| 0 <= i < b.len() && b[i] == Some(k as i16);
            assert(c[i] == Some(k as i16));
        }
    }
}

/// Filling the missing position `t` by activating an inactive slot makes the
/// column dense with count `n`.
pub proof fn lemma_place_update(b: Seq<Option<i16>>, j: int, t: int, n: int)
    requires
        dense_except(b, t, n),
        0 <= j < b.len(),
        b[j] is None,
        1 <= t <= n <= i16::MAX as int,
    ensures
        positions_dense(b.update(j, Some(t as i16))),
        count_active(b.update(j, Some(t as i16))) == n,
{
    lemma_count_update(b, j, Some(t as i16));
    let c = b.update(j, Some(t as i16));
    assert forall|k: int| 1 <= k <= n implies #[trigger] has_position(c, k) by {
        if k == t {
            assert(c[j] == Some(k as i16));
        } else {
            assert(has_position(b, k));
            let i = choose|i: int| 0 <= i < b.len() && b[i] == Some(k as i16);
            assert(c[i] == Some(k as i16));
        }
    }
}

/// Emptying the active slot that carries position `t` leaves the column one
/// placement short of dense over `1..=n`, where `n` is the pre-change count.
pub proof fn lemma_null_dense(a: Seq<Option<i16>>, j: int)
    requires
        positions_dense(a),
        count_active(a) <= i16::MAX as nat,
        0 <= j < a.len(),
        a[j] is Some,
    ensures
        dense_except(a.update(j, None), a[j]->0 as int, count_active(a) as int),
{
    lemma_count_update(a, j, None);
    let t = a[j]->0 as int;
    let n = count_active(a) as int;
    let c = a.update(j, None);
    assert forall|k: int| 1 <= k <= n && k != t implies #[trigger] has_position(c, k) by {
        assert(has_position(a, k));
        let i = choose|i: int| 0 <= i < a.len() && a[i] == Some(k as i16);
        assert(i != j);
        assert(c[i] == Some(k as i16));
    }
}

/// The number of active rows.
pub fn count_active_rows(rows: &Vec<Demon>) -> (c: usize)
    ensures
        c == count_active(positions_of(rows@)),
{
    let ghost ps = positions_of(rows@);
    let mut c: usize = 0;
    let mut i: usize = 0;
    while i < rows.len()
        invariant
            ps == positions_of(rows@),
            i <= rows@.len(),
            ps.len() == rows@.len(),
            c == count_active(ps.take(i as int)),
            c <= i,
        decreases rows@.len() - i,
    {
        proof {
            assert(ps.take(i + 1 as int).drop_last() =~= ps.take(i as int));
            assert(ps.take(i + 1 as int).last() == ps[i as int]);
        }
        if rows[i].position.is_some() {
            c += 1;
        }
        i += 1;
    }
    proof {
        assert(ps.take(rows@.len() as int) =~= ps);
    }
    c
}

/// Opens the slot at `threshold`: increments, in one bulk pass computed from
/// the pre-shift column, the position of every active row whose position is
/// at or above `threshold`. Every other field of every row is untouched.
pub fn shift_down(rows: &mut Vec<Demon>, threshold: i16)
    requires
        forall|i: int|
            0 <= i < old(rows)@.len() && #[trigger] old(rows)@[i].position is Some ==> old(
                rows,
            )@[i].position->0 < i16::MAX,
    ensures
        final(rows)@.len() == old(rows)@.len(),
        forall|i: int|
            0 <= i < old(rows)@.len() ==> same_but_position(
                #[trigger] final(rows)@[i],
                old(rows)@[i],
            ),
        forall|i: int|
            0 <= i < old(rows)@.len() ==> #[trigger] final(rows)@[i].position == shifted_down(
                old(rows)@[i].position,
                threshold,
            ),
{
    let n = rows.len();
    let mut i: usize = 0;
    while i < n
        invariant
            n == rows@.len(),
            n == old(rows)@.len(),
            i <= n,
            forall|i0: int|
                0 <= i0 < n && #[trigger] old(rows)@[i0].position is Some ==> old(
                    rows,
                )@[i0].position->0 < i16::MAX,
            forall|j: int| i <= j < n ==> rows@[j] == old(rows)@[j],
            forall|j: int|
                0 <= j < i ==> same_but_position(#[trigger] rows@[j], old(rows)@[j])
                    && rows@[j].position == shifted_down(old(rows)@[j].position, threshold),
        decreases n - i,
    {
        let p = rows[i].position;
        match p {
            Some(q) => {
                if q >= threshold {
                    let r = &mut rows[i];
                    r.position = Some(q + 1);
                }
            },
            None => {},
        }
        i += 1;
    }
}

/// Closes the slot at `threshold`: decrements, in one bulk pass computed from
/// the pre-shift column, the position of every active row whose position is
/// strictly above `threshold`. Every other field of every row is untouched.
pub fn shift_up(rows: &mut Vec<Demon>, threshold: i16)
    requires
        0 <= threshold,
    ensures
        final(rows)@.len() == old(rows)@.len(),
        forall|i: int|
            0 <= i < old(rows)@.len() ==> same_but_position(
                #[trigger] final(rows)@[i],
                old(rows)@[i],
            ),
        forall|i: int|
            0 <= i < old(rows)@.len() ==> #[trigger] final(rows)@[i].position == shifted_up(
                old(rows)@[i].position,
                threshold,
            ),
{
    let n = rows.len();
    let mut i: usize = 0;
    while i < n
        invariant
            n == rows@.len(),
            n == old(rows)@.len(),
            i <= n,
            0 <= threshold,
            forall|j: int| i <= j < n ==> rows@[j] == old(rows)@[j],
            forall|j: int|
                0 <= j < i ==> same_but_position(#[trigger] rows@[j], old(rows)@[j])
                    && rows@[j].position == shifted_up(old(rows)@[j].position, threshold),
        decreases n - i,
    {
        let p = rows[i].position;
        match p {
            Some(q) => {
                if q > threshold {
                    let r = &mut rows[i];
                    r.position = Some(q - 1);
                }
            },
            None => {},
        }
        i += 1;
    }
}

} // verus!
