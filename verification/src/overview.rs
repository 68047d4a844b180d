//! Read models of the ranking: the live overview and the time machine.
//!
//! A read request either goes straight to the live state (`list_active`) or
//! to the historical reconstruction engine (`reconstruct`), which answers
//! "what did the ranking look like at instant `t`" from the audit trail
//! alone, without writing anything.

use vstd::prelude::*;

use crate::actor::ActorDirectory;
use crate::audit::current_of;
use crate::demon::Demon;
use crate::repo::Repository;

verus! {

/// One line of the ranking as read consumers see it: the entry, its position
/// in the view, the publisher's display name, and — in a historical view —
/// the entry's current position, `None` when it is retired by now.
pub struct OverviewDemon {
    /// The entry's identity.
    pub id: i32,
    /// The entry's position in this view (historical position in a
    /// historical view).
    pub position: i16,
    /// The entry's display name.
    pub name: String,
    /// The publisher's display name.
    pub publisher: String,
    /// The entry's reference video URL, if any.
    pub video: Option<String>,
    /// In a historical view, the position the entry holds right now; `None`
    /// in the live view, and `None` for an entry that is retired by now.
    pub current_position: Option<i16>,
}

/// The flags a consumer may pass to choose which panels of the overview are
/// shown. Pure presentation state: the core only carries it through.
pub struct OverviewQueryData {
    /// Whether the time machine panel is shown.
    pub time_machine_shown: bool,
    /// Whether the stats viewer panel is shown.
    pub stats_viewer_shown: bool,
    /// Whether the record submitter panel is shown.
    pub record_submitter_shown: bool,
}

impl Default for OverviewQueryData {
    /// All panels start hidden.
    fn default() -> (r: Self)
        ensures
            !r.time_machine_shown,
            !r.stats_viewer_shown,
            !r.record_submitter_shown,
    {
        OverviewQueryData {
            time_machine_shown: false,
            stats_viewer_shown: false,
            record_submitter_shown: false,
        }
    }
}

/// The contents of an optional string.
pub open spec fn opt_view(v: Option<String>) -> Option<Seq<char>> {
    match v {
        Some(s) => Some(s@),
        None => None,
    }
}

/// The publisher name shown for an actor identity: its display name, or
/// empty when the snapshot no longer knows the identity.
pub open spec fn shown_publisher(dir: ActorDirectory, id: i32) -> Seq<char> {
    match dir.display_spec(id) {
        Some(n) => n,
        None => Seq::empty(),
    }
}

/// Whether `o` presents the entry `d` at position `pos` with annotation
/// `current`.
pub open spec fn is_overview_of(
    o: OverviewDemon,
    d: Demon,
    dir: ActorDirectory,
    pos: i16,
    current: Option<i16>,
) -> bool {
    &&& o.id == d.id
    &&& o.position == pos
    &&& o.name@ == d.name@
    &&& o.publisher@ == shown_publisher(dir, d.publisher)
    &&& opt_view(o.video) == opt_view(d.video)
    &&& o.current_position == current
}

/// Whether `o` is the line of the live view at rank `k`: it presents the
/// active entry holding position `k`.
pub open spec fn listed(
    repo: Repository,
    dir: ActorDirectory,
    o: OverviewDemon,
    k: int,
    current: Option<i16>,
) -> bool {
    exists|i: int|
        0 <= i < repo.rows@.len() && (#[trigger] repo.rows@[i]).position == Some(k as i16)
            && is_overview_of(o, repo.rows@[i], dir, k as i16, current)
}

/// Builds the presentation line for one entry.
fn make_overview(d: &Demon, dir: &ActorDirectory, pos: i16, current: Option<i16>) -> (o:
    OverviewDemon)
    ensures
        is_overview_of(o, *d, *dir, pos, current),
{
    let publisher = match dir.display_name(d.publisher) {
        Some(s) => s,
        None => String::new(),
    };
    OverviewDemon {
        id: d.id,
        position: pos,
        name: d.name.clone(),
        publisher,
        video: match &d.video {
            Some(v) => Some(v.clone()),
            None => None,
        },
        current_position: current,
    }
}

impl Repository {
    /// Finds the index of the active row holding position `k`.
    fn find_position(&self, k: i16) -> (idx: usize)
        requires
            self.wf(),
            1 <= k as int <= self.active_count_spec(),
        ensures
            idx < self.rows@.len(),
            self.rows@[idx as int].position == Some(k),
    {
        let mut i: usize = 0;
        while i < self.rows.len()
            invariant
                i <= self.rows@.len(),
                forall|j: int| 0 <= j < i ==> (#[trigger] self.rows@[j]).position != Some(k),
            decreases self.rows@.len() - i,
        {
            match self.rows[i].position {
                Some(p) => {
                    if p == k {
                        return i;
                    }
                },
                None => {},
            }
            i += 1;
        }
        proof {
            assert(crate::shift::has_position(self.ps(), k as int));
            let w = choose|w: int|
                0 <= w < self.ps().len() && self.ps()[w] == Some((k as int) as i16);
            assert(self.rows@[w].position == Some(k));
            assert(false);
        }
        0
    }

    /// Builds the ordered live view, rank by rank; with `annotate` each line
    /// also carries its own live position as the current-position
    /// annotation.
    fn live_view(&self, dir: &ActorDirectory, annotate: bool) -> (r: Vec<OverviewDemon>)
        requires
            self.wf(),
        ensures
            r@.len() == self.active_count_spec(),
            forall|k: int|
                0 <= k < r@.len() ==> listed(
                    *self,
                    *dir,
                    #[trigger] r@[k],
                    k + 1,
                    if annotate {
                        Some((k + 1) as i16)
                    } else {
                        None
                    },
                ),
    {
        let count = self.active_count();
        let mut out: Vec<OverviewDemon> = Vec::new();
        let mut k: usize = 1;
        while k <= count
            invariant
                self.wf(),
                count == self.active_count_spec(),
                count <= i16::MAX as usize,
                1 <= k <= count + 1,
                out@.len() == k - 1,
                forall|k0: int|
                    0 <= k0 < out@.len() ==> listed(
                        *self,
                        *dir,
                        #[trigger] out@[k0],
                        k0 + 1,
                        if annotate {
                            Some((k0 + 1) as i16)
                        } else {
                            None
                        },
                    ),
            decreases count + 1 - k,
        {
            let idx = self.find_position(k as i16);
            let current = if annotate {
                Some(k as i16)
            } else {
                None
            };
            out.push(make_overview(&self.rows[idx], dir, k as i16, current));
            k += 1;
        }
        out
    }

    /// The ordered live ranking: one line per active entry, position `k + 1`
    /// at index `k`, without historical annotations.
    pub fn list_active(&self, dir: &ActorDirectory) -> (r: Vec<OverviewDemon>)
        requires
            self.wf(),
        ensures
            r@.len() == self.active_count_spec(),
            forall|k: int| 0 <= k < r@.len() ==> listed(*self, *dir, #[trigger] r@[k], k + 1, None),
    {
        self.live_view(dir, false)
    }
}

/// The strict historical order: by position, with the identity as the
/// deterministic tie break.
pub open spec fn rank_below(a: OverviewDemon, b: OverviewDemon) -> bool {
    a.position < b.position || (a.position == b.position && a.id < b.id)
}

/// Whether `e` is one of the elements of `s`.
pub open spec fn elem_of(e: OverviewDemon, s: Seq<OverviewDemon>) -> bool {
    exists|k: int| 0 <= k < s.len() && s[k] == e
}

/// Compares two lines in historical order.
fn rank_lt(a: &OverviewDemon, b: &OverviewDemon) -> (r: bool)
    ensures
        r == rank_below(*a, *b),
{
    a.position < b.position || (a.position == b.position && a.id < b.id)
}

/// Copies a presentation line.
pub(crate) fn clone_overview(d: &OverviewDemon) -> (r: OverviewDemon)
    ensures
        r == *d,
{
    OverviewDemon {
        id: d.id,
        position: d.position,
        name: d.name.clone(),
        publisher: d.publisher.clone(),
        video: match &d.video {
            Some(v) => Some(v.clone()),
            None => None,
        },
        current_position: d.current_position,
    }
}

/// Sorts lines into historical order: by position, ties broken by identity.
/// The result holds exactly the given elements; with pairwise distinct
/// identities the order is strict.
fn sort_by_rank(v: &mut Vec<OverviewDemon>)
    requires
        forall|k1: int, k2: int|
            0 <= k1 < k2 < old(v)@.len() ==> old(v)@[k1].id != old(v)@[k2].id,
    ensures
        final(v)@.len() == old(v)@.len(),
        forall|k: int| 0 <= k < final(v)@.len() ==> elem_of(#[trigger] final(v)@[k], old(v)@),
        forall|k0: int| 0 <= k0 < old(v)@.len() ==> elem_of(#[trigger] old(v)@[k0], final(v)@),
        forall|k1: int, k2: int|
            0 <= k1 < k2 < final(v)@.len() ==> rank_below(final(v)@[k1], final(v)@[k2]),
{
    let ghost v0 = v@;
    proof {
        assert forall|k: int| 0 <= k < v@.len() implies elem_of(#[trigger] v@[k], v0) by {
            assert(v@[k] == v0[k]);
        }
        assert forall|k0: int| 0 <= k0 < v0.len() implies elem_of(#[trigger] v0[k0], v@) by {
            assert(v@[k0] == v0[k0]);
        }
    }
    let n = v.len();
    let mut i: usize = 0;
    while i < n
        invariant
            n == v@.len(),
            n == v0.len(),
            i <= n,
            forall|k1: int, k2: int| 0 <= k1 < k2 < n ==> v@[k1].id != v@[k2].id,
            forall|k: int| 0 <= k < n ==> elem_of(#[trigger] v@[k], v0),
            forall|k0: int| 0 <= k0 < n ==> elem_of(#[trigger] v0[k0], v@),
            forall|k1: int, k2: int| 0 <= k1 < k2 < i ==> rank_below(v@[k1], v@[k2]),
            forall|k1: int, k2: int| 0 <= k1 < i <= k2 < n ==> rank_below(v@[k1], v@[k2]),
        decreases n - i,
    {
        // select the least remaining line
        let mut m: usize = i;
        let mut j: usize = i + 1;
        while j < n
            invariant
                n == v@.len(),
                i <= m < j <= n,
                forall|k: int| i <= k < j ==> !rank_below(v@[k], v@[m as int]),
            decreases n - j,
        {
            if rank_lt(&v[j], &v[m]) {
                m = j;
            }
            j += 1;
        }
        if m != i {
            let ghost before = v@;
            let a = clone_overview(&v[i]);
            let b = clone_overview(&v[m]);
            v[i] = b;
            v[m] = a;
            proof {
                assert(v@ =~= before.update(i as int, before[m as int]).update(
                    m as int,
                    before[i as int],
                ));
                assert forall|k: int| 0 <= k < n implies elem_of(#[trigger] v@[k], v0) by {
                    if k == i as int {
                        assert(v@[k] == before[m as int]);
                    } else if k == m as int {
                        assert(v@[k] == before[i as int]);
                    } else {
                        assert(v@[k] == before[k]);
                    }
                }
                assert forall|k0: int| 0 <= k0 < n implies elem_of(#[trigger] v0[k0], v@) by {
                    assert(elem_of(v0[k0], before));
                    let w = choose|w: int| 0 <= w < before.len() && before[w] == v0[k0];
                    if w == i as int {
                        assert(v@[m as int] == v0[k0]);
                    } else if w == m as int {
                        assert(v@[i as int] == v0[k0]);
                    } else {
                        assert(v@[w] == v0[k0]);
                    }
                }
            }
        }
        i += 1;
    }
}

/// Whether `o` is a correct line of the ranking as it stood at instant `t`:
/// it presents a real entry whose effective position at `t` is the line's
/// position, annotated with the position that entry holds now, if any.
pub open spec fn hist_entry(
    repo: Repository,
    dir: ActorDirectory,
    o: OverviewDemon,
    t: i64,
) -> bool {
    exists|i: int|
        0 <= i < repo.rows@.len() && current_of(repo.audit@, (#[trigger] repo.rows@[i]).id, t)
            == Some(o.position) && is_overview_of(
            o,
            repo.rows@[i],
            dir,
            o.position,
            repo.rows@[i].position,
        )
}

impl Repository {
    /// The ranking as it stood at instant `timestamp`, each line annotated
    /// with the entry's current position (`None` once retired).
    ///
    /// An instant at or after `now` means "no historical view": the call
    /// short-circuits to the live read path, and the annotations then equal
    /// the live positions. A past instant is answered from the audit trail
    /// alone: exactly the entries with an effective position at that
    /// instant, in historical order, ties broken by identity. An instant
    /// before the earliest fact simply yields the empty ranking — never an
    /// error.
    pub fn reconstruct(&self, timestamp: i64, now: i64, dir: &ActorDirectory) -> (r: Vec<
        OverviewDemon,
    >)
        requires
            self.wf(),
            now >= self.last_time,
        ensures
            timestamp >= now ==> r@.len() == self.active_count_spec() && forall|k: int|
                0 <= k < r@.len() ==> listed(*self, *dir, #[trigger] r@[k], k + 1, Some((k + 1) as i16)),
            timestamp < now ==> forall|k: int|
                0 <= k < r@.len() ==> hist_entry(*self, *dir, #[trigger] r@[k], timestamp),
            timestamp < now ==> forall|i: int|
                0 <= i < self.rows@.len() && current_of(
                    self.audit@,
                    (#[trigger] self.rows@[i]).id,
                    timestamp,
                ) is Some ==> exists|k: int| 0 <= k < r@.len() && r@[k].id == self.rows@[i].id,
            timestamp < now ==> forall|k1: int, k2: int|
                0 <= k1 < k2 < r@.len() ==> rank_below(r@[k1], r@[k2]),
    {
        if timestamp >= now {
            return self.live_view(dir, true);
        }
        let mut items: Vec<OverviewDemon> = Vec::new();
        let mut i: usize = 0;
        while i < self.rows.len()
            invariant
                self.wf(),
                i <= self.rows@.len(),
                forall|k: int|
                    0 <= k < items@.len() ==> hist_entry(*self, *dir, #[trigger] items@[k], timestamp),
                forall|k: int|
                    0 <= k < items@.len() ==> (#[trigger] items@[k].id as int) <= i,
                forall|k1: int, k2: int|
                    0 <= k1 < k2 < items@.len() ==> items@[k1].id < items@[k2].id,
                forall|i0: int|
                    0 <= i0 < i && current_of(
                        self.audit@,
                        (#[trigger] self.rows@[i0]).id,
                        timestamp,
                    ) is Some ==> exists|k: int|
                        0 <= k < items@.len() && items@[k].id == self.rows@[i0].id,
            decreases self.rows@.len() - i,
        {
            let row = &self.rows[i];
            match crate::audit::effective_position_at(&self.audit, row.id, timestamp) {
                Some(p) => {
                    let o = make_overview(row, dir, p, row.position);
                    let ghost pre = items@;
                    items.push(o);
                    proof {
                        assert(self.rows@[i as int].id as int == i + 1);
                        assert(items@[pre.len() as int].id == self.rows@[i as int].id);
                        assert forall|i0: int|
                            0 <= i0 <= i && current_of(
                                self.audit@,
                                (#[trigger] self.rows@[i0]).id,
                                timestamp,
                            ) is Some implies exists|k: int|
                            0 <= k < items@.len() && items@[k].id == self.rows@[i0].id by {
                            if i0 < i {
                                let k = choose|k: int|
                                    0 <= k < pre.len() && pre[k].id == self.rows@[i0].id;
                                assert(items@[k].id == self.rows@[i0].id);
                            } else {
                                assert(items@[pre.len() as int].id == self.rows@[i0].id);
                            }
                        }
                    }
                },
                None => {},
            }
            i += 1;
        }
        let ghost items0 = items@;
        sort_by_rank(&mut items);
        proof {
            assert forall|k: int| 0 <= k < items@.len() implies hist_entry(
                *self,
                *dir,
                #[trigger] items@[k],
                timestamp,
            ) by {
                assert(elem_of(items@[k], items0));
                let k0 = choose|k0: int| 0 <= k0 < items0.len() && items0[k0] == items@[k];
                assert(hist_entry(*self, *dir, items0[k0], timestamp));
            }
            assert forall|i0: int|
                0 <= i0 < self.rows@.len() && current_of(
                    self.audit@,
                    (#[trigger] self.rows@[i0]).id,
                    timestamp,
                ) is Some implies exists|k: int|
                0 <= k < items@.len() && items@[k].id == self.rows@[i0].id by {
                let k0 = choose|k0: int|
                    0 <= k0 < items0.len() && items0[k0].id == self.rows@[i0].id;
                assert(elem_of(items0[k0], items@));
                let k = choose|k: int| 0 <= k < items@.len() && items@[k] == items0[k0];
                assert(items@[k].id == self.rows@[i0].id);
            }
        }
        items
    }
}

/// A retired entry never appears in the live view: no line of `list_active`
/// (or of a live-path reconstruction) can carry its identity. Its rank was
/// handed on when it left, so with well-formedness the remaining positions
/// are again exactly `1..N`.
pub proof fn lemma_retired_not_listed(
    repo: Repository,
    dir: ActorDirectory,
    id: i32,
    o: OverviewDemon,
    k: int,
    current: Option<i16>,
)
    requires
        repo.wf(),
        1 <= id as int <= repo.rows@.len(),
        repo.rows@[id as int - 1].position is None,
        listed(repo, dir, o, k, current),
    ensures
        o.id != id,
{
    let i = choose|i: int|
        0 <= i < repo.rows@.len() && (#[trigger] repo.rows@[i]).position == Some(k as i16)
            && is_overview_of(o, repo.rows@[i], dir, k as i16, current);
    assert(repo.rows@[i].id as int == i + 1);
}

/// Before the earliest audit fact there is no history: no line can present
/// any entry, so a reconstruction there yields the empty, initial-state
/// ranking — never an error.
pub proof fn lemma_no_history_before_first(
    repo: Repository,
    dir: ActorDirectory,
    o: OverviewDemon,
    t: i64,
)
    requires
        forall|k: int| 0 <= k < repo.audit@.len() ==> (#[trigger] repo.audit@[k]).valid_from > t,
    ensures
        !hist_entry(repo, dir, o, t),
{
    if hist_entry(repo, dir, o, t) {
        let i = choose|i: int|
            0 <= i < repo.rows@.len() && current_of(repo.audit@, (#[trigger] repo.rows@[i]).id, t)
                == Some(o.position) && is_overview_of(
                o,
                repo.rows@[i],
                dir,
                o.position,
                repo.rows@[i].position,
            );
        crate::audit::lemma_current_none_before(repo.audit@, repo.rows@[i].id, t);
    }
}

/// Where the time machine must look: a request before the supported boundary
/// is clamped to the boundary, a request at or after `now` means "no
/// historical view" (`None`), and anything between stands as given.
pub open spec fn clamped_when(requested: i64, earliest: i64, now: i64) -> Option<i64> {
    if requested < earliest {
        Some(earliest)
    } else if requested >= now {
        None
    } else {
        Some(requested)
    }
}

/// Clamps a requested time-machine instant against the earliest supported
/// boundary and the present.
pub fn clamp_when(requested: i64, earliest: i64, now: i64) -> (r: Option<i64>)
    ensures
        r == clamped_when(requested, earliest, now),
{
    if requested < earliest {
        Some(earliest)
    } else if requested >= now {
        None
    } else {
        Some(requested)
    }
}

} // verus!
