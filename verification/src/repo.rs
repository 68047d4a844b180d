//! The ranking repository: atomic create / move / retire operations over the
//! dense ranking, composing validation, position shifts, persistence and the
//! audit trail.
//!
//! Every mutation is check-then-write: all validation and reference
//! resolution runs against the pre-mutation state, and the state is only
//! touched once nothing can fail any more. A rejected request therefore
//! leaves the repository exactly as it was — no partial creation, shift or
//! retirement is ever observable.

use vstd::prelude::*;

use crate::actor::ActorDirectory;
use crate::audit::{
    current_of, is_row_id, record_changes, recorded_position, snapshot_positions, AuditFact,
};
use crate::demon::{
    clone_demon, name_conflict, same_but_position, same_entry, Demon, NewDemon, PostDemon,
};
use crate::error::ListError;
use crate::shift::{
    count_active, count_active_rows, positions_dense, positions_of, shift_down, shift_up,
    shifted_down, shifted_up,
};
use crate::text::same_name;
use crate::video::{canonical_video, is_recognized_video};

verus! {

/// Whether some active row carries the identity `id`.
pub open spec fn has_active(rows: Seq<Demon>, id: i32) -> bool {
    exists|i: int|
        0 <= i < rows.len() && (#[trigger] rows[i]).id == id && rows[i].position is Some
}

/// Whether every creator name resolves in the directory.
pub open spec fn creators_resolve(dir: ActorDirectory, creators: Seq<String>) -> bool {
    forall|c: int|
        0 <= c < creators.len() ==> dir.resolve_spec((#[trigger] creators[c])@) is Some
}

/// The ranking repository: the entry rows (a stand-in for the shared
/// relational store), the append-only audit trail, and the validity-start
/// instant of the latest committed mutation.
pub struct Repository {
    /// All entries ever created, in creation order; the entry with identity
    /// `k` sits at index `k - 1`.
    pub rows: Vec<Demon>,
    /// The append-only audit trail.
    pub audit: Vec<AuditFact>,
    /// The instant of the latest committed mutation.
    pub last_time: i64,
}

impl Repository {
    /// The position column of the rows.
    pub open spec fn ps(&self) -> Seq<Option<i16>> {
        positions_of(self.rows@)
    }

    /// The number of active entries.
    pub open spec fn active_count_spec(&self) -> nat {
        count_active(self.ps())
    }

    /// Identities are assigned sequentially from 1 in creation order.
    pub open spec fn ids_sequential(&self) -> bool {
        forall|i: int| 0 <= i < self.rows@.len() ==> (#[trigger] self.rows@[i]).id as int == i + 1
    }

    /// No two active entries share a name, case-insensitively.
    pub open spec fn names_unique(&self) -> bool {
        forall|i: int, j: int|
            0 <= i < j < self.rows@.len() && self.rows@[i].position is Some
                && self.rows@[j].position is Some ==> !same_name(
                self.rows@[i].name@,
                self.rows@[j].name@,
            )
    }

    /// Every stored requirement lies within `[0, 100]`.
    pub open spec fn requirements_ok(&self) -> bool {
        forall|i: int|
            0 <= i < self.rows@.len() ==> 0 <= (#[trigger] self.rows@[i]).requirement <= 100
    }

    /// The audit trail is consistent with the live state: facts are ordered,
    /// none is newer than the latest mutation, every fact speaks of a real
    /// row, and at the latest mutation instant the trail shows exactly the
    /// live positions.
    pub open spec fn audit_ok(&self) -> bool {
        &&& forall|k1: int, k2: int|
            0 <= k1 < k2 < self.audit@.len() ==> self.audit@[k1].valid_from
                <= self.audit@[k2].valid_from
        &&& forall|k: int|
            0 <= k < self.audit@.len() ==> (#[trigger] self.audit@[k]).valid_from <= self.last_time
        &&& forall|k: int|
            0 <= k < self.audit@.len() ==> is_row_id(self.rows@, (#[trigger] self.audit@[k]).entry_id)
        &&& forall|i: int|
            0 <= i < self.rows@.len() ==> current_of(
                self.audit@,
                (#[trigger] self.rows@[i]).id,
                self.last_time,
            ) == self.rows@[i].position
    }

    /// Well-formedness: the invariants that hold after every committed
    /// mutation.
    pub open spec fn wf(&self) -> bool {
        &&& positions_dense(self.ps())
        &&& self.active_count_spec() <= i16::MAX as nat
        &&& self.ids_sequential()
        &&& self.rows@.len() <= i32::MAX as nat
        &&& self.names_unique()
        &&& self.requirements_ok()
        &&& self.audit_ok()
    }

    /// An empty repository: no entries, no history.
    pub fn new() -> (r: Repository)
        ensures
            r.wf(),
            r.rows@.len() == 0,
            r.audit@.len() == 0,
            r.last_time == i64::MIN,
    {
        Repository { rows: Vec::new(), audit: Vec::new(), last_time: i64::MIN }
    }

    /// The number of active entries.
    pub fn active_count(&self) -> (c: usize)
        ensures
            c == self.active_count_spec(),
    {
        count_active_rows(&self.rows)
    }

    /// Reads one entry, active or retired, by identity.
    pub fn get(&self, id: i32) -> (r: Option<&Demon>)
        ensures
            (r matches Some(d) ==> exists|i: int|
                0 <= i < self.rows@.len() && *d == self.rows@[i] && (#[trigger] self.rows@[i]).id
                    == id),
            (r is None ==> forall|i: int|
                0 <= i < self.rows@.len() ==> (#[trigger] self.rows@[i]).id != id),
    {
        let mut i: usize = 0;
        while i < self.rows.len()
            invariant
                i <= self.rows@.len(),
                forall|j: int| 0 <= j < i ==> (#[trigger] self.rows@[j]).id != id,
            decreases self.rows@.len() - i,
        {
            if self.rows[i].id == id {
                return Some(&self.rows[i]);
            }
            i += 1;
        }
        None
    }

    /// Finds the index of the active row with identity `id`, if one exists.
    fn find_active(&self, id: i32) -> (r: Option<usize>)
        ensures
            (r matches Some(i) ==> i < self.rows@.len() && self.rows@[i as int].id == id
                && self.rows@[i as int].position is Some),
            r is None <==> !has_active(self.rows@, id),
    {
        let mut i: usize = 0;
        while i < self.rows.len()
            invariant
                i <= self.rows@.len(),
                forall|j: int|
                    0 <= j < i ==> !((#[trigger] self.rows@[j]).id == id && self.rows@[j].position
                        is Some),
            decreases self.rows@.len() - i,
        {
            if self.rows[i].id == id && self.rows[i].position.is_some() {
                return Some(i);
            }
            i += 1;
        }
        None
    }
}

impl Repository {
    /// The error `create` must return for this draft against this state, if
    /// any: the checks run in validation order and the first failure wins.
    pub open spec fn create_outcome(&self, data: PostDemon, dir: ActorDirectory) -> Option<
        ListError,
    > {
        if !(0 <= data.requirement <= 100) {
            Some(ListError::OutOfRange)
        } else if data.video matches Some(v) && !is_recognized_video(v@) {
            Some(ListError::InvalidFormat)
        } else if name_conflict(self.rows@, data.name@, None) {
            Some(ListError::Conflict)
        } else if !(1 <= data.position as int && data.position as int <= self.active_count_spec()
            + 1 && self.active_count_spec() + 1 <= i16::MAX as int) {
            Some(ListError::OutOfRange)
        } else if dir.resolve_spec(data.publisher@) is None {
            Some(ListError::NotFound)
        } else if dir.resolve_spec(data.verifier@) is None {
            Some(ListError::NotFound)
        } else if !creators_resolve(dir, data.creators@) {
            Some(ListError::NotFound)
        } else {
            None
        }
    }

    /// Creates an entry from a draft, atomically: validates every field
    /// against the pre-mutation state, resolves the actor references, opens
    /// the slot at the requested position, inserts the row, and records the
    /// audit facts — or fails with the exact error named by
    /// [`Self::create_outcome`] and leaves the repository untouched.
    pub fn create(&mut self, data: PostDemon, dir: &ActorDirectory, now: i64) -> (r: Result<
        Demon,
        ListError,
    >)
        requires
            old(self).wf(),
            now >= old(self).last_time,
            old(self).rows@.len() < i32::MAX as nat,
        ensures
            r is Ok <==> old(self).create_outcome(data, *dir) is None,
            (r matches Err(e) ==> Some(e) == old(self).create_outcome(data, *dir) && *final(self)
                == *old(self)),
            r is Ok ==> final(self).wf() && final(self).last_time == now,
            r is Ok ==> final(self).rows@.len() == old(self).rows@.len() + 1,
            r is Ok ==> final(self).active_count_spec() == old(self).active_count_spec() + 1,
            r is Ok ==> forall|i: int|
                0 <= i < old(self).rows@.len() ==> same_but_position(
                    #[trigger] final(self).rows@[i],
                    old(self).rows@[i],
                ) && final(self).rows@[i].position == shifted_down(
                    old(self).rows@[i].position,
                    data.position,
                ),
            r is Ok ==> ({
                let d = final(self).rows@.last();
                &&& d.id as int == old(self).rows@.len() + 1
                &&& d.name == data.name
                &&& d.position == Some(data.position)
                &&& d.requirement == data.requirement
                &&& (match data.video {
                    Some(v) => d.video matches Some(cv) && cv@ == canonical_video(v@),
                    None => d.video is None,
                })
                &&& Some(d.publisher) == dir.resolve_spec(data.publisher@)
                &&& Some(d.verifier) == dir.resolve_spec(data.verifier@)
                &&& d.creators@.len() == data.creators@.len()
                &&& forall|c: int|
                    0 <= c < data.creators@.len() ==> Some(d.creators@[c]) == dir.resolve_spec(
                        (#[trigger] data.creators@[c])@,
                    )
            }),
            (r matches Ok(d) ==> same_entry(d, final(self).rows@.last())),
            r is Ok ==> final(self).audit@.len() >= old(self).audit@.len()
                && final(self).audit@.subrange(0, old(self).audit@.len() as int)
                == old(self).audit@,
            r is Ok ==> forall|id: i32, t: i64|
                t < now ==> #[trigger] current_of(final(self).audit@, id, t) == current_of(
                    old(self).audit@,
                    id,
                    t,
                ),
    {
        match Demon::validate_requirement(data.requirement) {
            Ok(()) => (),
            Err(e) => {
                return Err(e);
            },
        }
        let video_norm: Option<String> = match &data.video {
            Some(v) => match crate::video::validate(v.as_str()) {
                Ok(cv) => Some(cv),
                Err(e) => {
                    return Err(e);
                },
            },
            None => None,
        };
        match Demon::validate_name(data.name.as_str(), &self.rows, None) {
            Ok(()) => (),
            Err(e) => {
                return Err(e);
            },
        }
        let count = self.active_count();
        match Demon::validate_position(data.position, count) {
            Ok(()) => (),
            Err(e) => {
                return Err(e);
            },
        }
        let publisher = match dir.resolve(data.publisher.as_str()) {
            Some(p) => p,
            None => {
                return Err(ListError::NotFound);
            },
        };
        let verifier = match dir.resolve(data.verifier.as_str()) {
            Some(p) => p,
            None => {
                return Err(ListError::NotFound);
            },
        };
        let creators = match resolve_all(dir, &data.creators) {
            Ok(cs) => cs,
            Err(e) => {
                return Err(e);
            },
        };

        // Nothing can fail any more: mutate, then re-establish the
        // invariants.
        let ghost rows0 = self.rows@;
        let ghost log0 = self.audit@;
        let ghost time0 = self.last_time;
        let ghost n = count as int;
        let t = data.position;

        let old_pos = snapshot_positions(&self.rows);
        proof {
            assert forall|i: int|
                0 <= i < self.rows@.len() && #[trigger] self.rows@[i].position
                    is Some implies self.rows@[i].position->0 < i16::MAX by {
                assert(self.ps()[i] == self.rows@[i].position);
            }
        }
        shift_down(&mut self.rows, t);
        let ghost rows_shifted = self.rows@;
        let id = (self.rows.len() + 1) as i32;
        let new = NewDemon {
            name: data.name,
            position: t,
            requirement: data.requirement,
            verifier,
            publisher,
            video: video_norm,
        };
        self.rows.push(
            Demon {
                id,
                name: new.name,
                position: Some(new.position),
                requirement: new.requirement,
                video: new.video,
                publisher: new.publisher,
                verifier: new.verifier,
                creators,
            },
        );
        proof {
            assert forall|i: int|
                0 <= i < self.rows@.len() implies (#[trigger] self.rows@[i]).id as int == i + 1 by {
                if i < rows0.len() {
                    assert(same_but_position(self.rows@[i], rows0[i]));
                }
            }
        }
        record_changes(&mut self.audit, &self.rows, &old_pos, now);
        self.last_time = now;
        proof {
            let ps0 = positions_of(rows0);
            let ps1 = positions_of(rows_shifted);
            let psf = positions_of(self.rows@);
            assert forall|i: int| 0 <= i < rows0.len() implies ps1[i] == shifted_down(
                ps0[i],
                t,
            ) by {
                assert(ps1[i] == rows_shifted[i].position);
                assert(ps0[i] == rows0[i].position);
            }
            crate::shift::lemma_shift_down_dense(ps0, ps1, t as int, n);
            assert(psf =~= ps1.push(Some(t)));
            crate::shift::lemma_place_push(ps1, t as int, n + 1);

            // names stay unique: the shifted rows keep their names and
            // activity, and the accepted draft conflicted with none of them
            assert forall|i: int, j: int|
                0 <= i < j < self.rows@.len() && self.rows@[i].position is Some
                    && self.rows@[j].position is Some implies !same_name(
                self.rows@[i].name@,
                self.rows@[j].name@,
            ) by {
                if j < rows0.len() {
                    assert(same_but_position(self.rows@[i], rows0[i]));
                    assert(same_but_position(self.rows@[j], rows0[j]));
                } else {
                    assert(same_but_position(self.rows@[i], rows0[i]));
                    if same_name(rows0[i].name@, data.name@) {
                        assert(name_conflict(rows0, data.name@, None));
                    }
                }
            }

            // the audit trail still matches the live state
            assert forall|k: int| 0 <= k < log0.len() implies #[trigger] self.audit@[k]
                == log0[k] by {
                assert(self.audit@.subrange(0, log0.len() as int)[k] == self.audit@[k]);
            }
            assert forall|k: int| 0 <= k < self.audit@.len() implies is_row_id(
                self.rows@,
                (#[trigger] self.audit@[k]).entry_id,
            ) by {
                if k < log0.len() {
                    assert(is_row_id(rows0, log0[k].entry_id));
                    let r = choose|r: int|
                        0 <= r < rows0.len() && #[trigger] rows0[r].id == log0[k].entry_id;
                    assert(same_but_position(self.rows@[r], rows0[r]));
                    assert(self.rows@[r].id == log0[k].entry_id);
                }
            }
            assert forall|i: int| 0 <= i < self.rows@.len() implies current_of(
                self.audit@,
                (#[trigger] self.rows@[i]).id,
                self.last_time,
            ) == self.rows@[i].position by {
                assert(current_of(self.audit@, self.rows@[i].id, now) == recorded_position(
                    log0,
                    self.rows@,
                    old_pos@,
                    now,
                    i,
                ));
                if i < rows0.len() && self.rows@[i].position == old_pos@[i] {
                    crate::audit::lemma_current_time(log0, self.rows@[i].id, time0, now);
                    assert(same_but_position(self.rows@[i], rows0[i]));
                    assert(old_pos@[i] == rows0[i].position);
                }
            }
        }
        let last = self.rows.len() - 1;
        let d = clone_demon(&self.rows[last]);
        Ok(d)
    }
}

/// Where an entry lands when another entry moves from position `from` to
/// position `to`: the gap at `from` closes, then a slot opens at `to`.
pub open spec fn moved_position(p: Option<i16>, from: i16, to: i16) -> Option<i16> {
    shifted_down(shifted_up(p, from), to)
}

impl Repository {
    /// The error `retire` must return, if any.
    pub open spec fn retire_outcome(&self, id: i32) -> Option<ListError> {
        if !has_active(self.rows@, id) {
            Some(ListError::NotFound)
        } else {
            None
        }
    }

    /// Retires an entry: removes it from the dense active sequence, closing
    /// the gap it leaves, but keeps its row for historical queries.
    pub fn retire(&mut self, id: i32, now: i64) -> (r: Result<(), ListError>)
        requires
            old(self).wf(),
            now >= old(self).last_time,
        ensures
            r is Ok <==> old(self).retire_outcome(id) is None,
            (r matches Err(e) ==> Some(e) == old(self).retire_outcome(id) && *final(self) == *old(
                self,
            )),
            r is Ok ==> final(self).wf() && final(self).last_time == now,
            r is Ok ==> final(self).rows@.len() == old(self).rows@.len(),
            r is Ok ==> final(self).active_count_spec() + 1 == old(self).active_count_spec(),
            r is Ok ==> forall|i: int|
                0 <= i < old(self).rows@.len() ==> same_but_position(
                    #[trigger] final(self).rows@[i],
                    old(self).rows@[i],
                ),
            r is Ok ==> ({
                let j = id as int - 1;
                let oldp = old(self).rows@[j].position->0;
                &&& final(self).rows@[j].position is None
                &&& forall|i: int|
                    0 <= i < old(self).rows@.len() && i != j
                        ==> #[trigger] final(self).rows@[i].position == shifted_up(
                        old(self).rows@[i].position,
                        oldp,
                    )
            }),
            r is Ok ==> final(self).audit@.len() >= old(self).audit@.len()
                && final(self).audit@.subrange(0, old(self).audit@.len() as int)
                == old(self).audit@,
            r is Ok ==> forall|id2: i32, t: i64|
                t < now ==> #[trigger] current_of(final(self).audit@, id2, t) == current_of(
                    old(self).audit@,
                    id2,
                    t,
                ),
    {
        let idx = match self.find_active(id) {
            Some(i) => i,
            None => {
                return Err(ListError::NotFound);
            },
        };
        let oldp = match self.rows[idx].position {
            Some(p) => p,
            None => {
                return Err(ListError::NotFound);  // unreachable: the row was found active
            },
        };
        let ghost rows0 = self.rows@;
        let ghost log0 = self.audit@;
        let ghost time0 = self.last_time;
        let ghost n = self.active_count_spec() as int;
        proof {
            assert(self.ps()[idx as int] == self.rows@[idx as int].position);
        }
        let old_pos = snapshot_positions(&self.rows);
        {
            let r = &mut self.rows[idx];
            r.position = None;
        }
        let ghost rows1 = self.rows@;
        shift_up(&mut self.rows, oldp);
        proof {
            assert forall|i: int|
                0 <= i < self.rows@.len() implies (#[trigger] self.rows@[i]).id as int == i + 1 by {
                assert(same_but_position(self.rows@[i], rows1[i]));
            }
        }
        record_changes(&mut self.audit, &self.rows, &old_pos, now);
        self.last_time = now;
        proof {
            let ps0 = positions_of(rows0);
            let ps1 = positions_of(rows1);
            let psf = positions_of(self.rows@);
            assert(ps0[idx as int] == rows0[idx as int].position);
            crate::shift::lemma_null_dense(ps0, idx as int);
            assert(ps1 =~= ps0.update(idx as int, None));
            assert forall|i: int| 0 <= i < rows1.len() implies psf[i] == shifted_up(
                ps1[i],
                oldp,
            ) by {
                assert(psf[i] == self.rows@[i].position);
                assert(ps1[i] == rows1[i].position);
            }
            crate::shift::lemma_shift_up_dense(ps1, psf, oldp as int, n);

            // names stay unique: the active rows are a subset with unchanged
            // names
            assert forall|i: int, j: int|
                0 <= i < j < self.rows@.len() && self.rows@[i].position is Some
                    && self.rows@[j].position is Some implies !same_name(
                self.rows@[i].name@,
                self.rows@[j].name@,
            ) by {
                assert(same_but_position(self.rows@[i], rows0[i]));
                assert(same_but_position(self.rows@[j], rows0[j]));
            }

            // the audit trail still matches the live state
            assert forall|k: int| 0 <= k < log0.len() implies #[trigger] self.audit@[k]
                == log0[k] by {
                assert(self.audit@.subrange(0, log0.len() as int)[k] == self.audit@[k]);
            }
            assert forall|k: int| 0 <= k < self.audit@.len() implies is_row_id(
                self.rows@,
                (#[trigger] self.audit@[k]).entry_id,
            ) by {
                if k < log0.len() {
                    assert(is_row_id(rows0, log0[k].entry_id));
                    let r = choose|r: int|
                        0 <= r < rows0.len() && #[trigger] rows0[r].id == log0[k].entry_id;
                    assert(same_but_position(self.rows@[r], rows0[r]));
                    assert(self.rows@[r].id == log0[k].entry_id);
                }
            }
            assert forall|i: int| 0 <= i < self.rows@.len() implies current_of(
                self.audit@,
                (#[trigger] self.rows@[i]).id,
                self.last_time,
            ) == self.rows@[i].position by {
                assert(current_of(self.audit@, self.rows@[i].id, now) == recorded_position(
                    log0,
                    self.rows@,
                    old_pos@,
                    now,
                    i,
                ));
                if self.rows@[i].position == old_pos@[i] {
                    crate::audit::lemma_current_time(log0, self.rows@[i].id, time0, now);
                    assert(same_but_position(self.rows@[i], rows0[i]));
                    assert(old_pos@[i] == rows0[i].position);
                }
            }
        }
        Ok(())
    }

    /// The error `update_position` must return, if any.
    pub open spec fn update_outcome(&self, id: i32, new_position: i16) -> Option<ListError> {
        if !has_active(self.rows@, id) {
            Some(ListError::NotFound)
        } else if !(1 <= new_position as int && new_position as int
            <= self.active_count_spec() as int) {
            Some(ListError::OutOfRange)
        } else {
            None
        }
    }

    /// Moves an active entry to a new position, atomically: the gap it
    /// leaves closes, a slot opens at the target, and the entry takes it.
    /// Every entry between the two positions moves by exactly one; nothing
    /// else changes.
    pub fn update_position(&mut self, id: i32, new_position: i16, now: i64) -> (r: Result<
        Demon,
        ListError,
    >)
        requires
            old(self).wf(),
            now >= old(self).last_time,
        ensures
            r is Ok <==> old(self).update_outcome(id, new_position) is None,
            (r matches Err(e) ==> Some(e) == old(self).update_outcome(id, new_position)
                && *final(self) == *old(self)),
            r is Ok ==> final(self).wf() && final(self).last_time == now,
            r is Ok ==> final(self).rows@.len() == old(self).rows@.len(),
            r is Ok ==> final(self).active_count_spec() == old(self).active_count_spec(),
            r is Ok ==> forall|i: int|
                0 <= i < old(self).rows@.len() ==> same_but_position(
                    #[trigger] final(self).rows@[i],
                    old(self).rows@[i],
                ),
            r is Ok ==> ({
                let j = id as int - 1;
                let oldp = old(self).rows@[j].position->0;
                &&& final(self).rows@[j].position == Some(new_position)
                &&& forall|i: int|
                    0 <= i < old(self).rows@.len() && i != j
                        ==> #[trigger] final(self).rows@[i].position == moved_position(
                        old(self).rows@[i].position,
                        oldp,
                        new_position,
                    )
            }),
            (r matches Ok(d) ==> same_entry(d, final(self).rows@[id as int - 1])),
            r is Ok ==> final(self).audit@.len() >= old(self).audit@.len()
                && final(self).audit@.subrange(0, old(self).audit@.len() as int)
                == old(self).audit@,
            r is Ok ==> forall|id2: i32, t: i64|
                t < now ==> #[trigger] current_of(final(self).audit@, id2, t) == current_of(
                    old(self).audit@,
                    id2,
                    t,
                ),
    {
        let idx = match self.find_active(id) {
            Some(i) => i,
            None => {
                return Err(ListError::NotFound);
            },
        };
        let count = self.active_count();
        if !(1 <= new_position && new_position as usize <= count) {
            return Err(ListError::OutOfRange);
        }
        let oldp = match self.rows[idx].position {
            Some(p) => p,
            None => {
                return Err(ListError::NotFound);  // unreachable: the row was found active
            },
        };
        let ghost rows0 = self.rows@;
        let ghost log0 = self.audit@;
        let ghost time0 = self.last_time;
        let ghost n = count as int;
        proof {
            assert(self.ps()[idx as int] == self.rows@[idx as int].position);
        }
        let old_pos = snapshot_positions(&self.rows);
        {
            let r = &mut self.rows[idx];
            r.position = None;
        }
        let ghost rows1 = self.rows@;
        proof {
            let ps0 = positions_of(rows0);
            let ps1 = positions_of(rows1);
            assert(ps0[idx as int] == rows0[idx as int].position);
            crate::shift::lemma_null_dense(ps0, idx as int);
            assert(ps1 =~= ps0.update(idx as int, None));
        }
        shift_up(&mut self.rows, oldp);
        let ghost rows2 = self.rows@;
        proof {
            let ps1 = positions_of(rows1);
            let ps2 = positions_of(rows2);
            assert forall|i: int| 0 <= i < rows1.len() implies ps2[i] == shifted_up(
                ps1[i],
                oldp,
            ) by {
                assert(ps2[i] == rows2[i].position);
                assert(ps1[i] == rows1[i].position);
            }
            crate::shift::lemma_shift_up_dense(ps1, ps2, oldp as int, n);
            assert forall|i: int|
                0 <= i < self.rows@.len() && #[trigger] self.rows@[i].position
                    is Some implies self.rows@[i].position->0 < i16::MAX by {
                assert(ps2[i] == self.rows@[i].position);
            }
        }
        shift_down(&mut self.rows, new_position);
        let ghost rows3 = self.rows@;
        {
            let r = &mut self.rows[idx];
            r.position = Some(new_position);
        }
        proof {
            assert forall|i: int|
                0 <= i < self.rows@.len() implies (#[trigger] self.rows@[i]).id as int == i + 1 by {
                assert(same_but_position(self.rows@[i], rows3[i]));
                assert(same_but_position(rows3[i], rows2[i]));
            }
        }
        record_changes(&mut self.audit, &self.rows, &old_pos, now);
        self.last_time = now;
        proof {
            let ps2 = positions_of(rows2);
            let ps3 = positions_of(rows3);
            let psf = positions_of(self.rows@);
            assert forall|i: int| 0 <= i < rows2.len() implies ps3[i] == shifted_down(
                ps2[i],
                new_position,
            ) by {
                assert(ps3[i] == rows3[i].position);
                assert(ps2[i] == rows2[i].position);
            }
            crate::shift::lemma_shift_down_dense(ps2, ps3, new_position as int, n - 1);
            assert(ps3[idx as int] is None);
            assert(psf =~= ps3.update(idx as int, Some(new_position)));
            crate::shift::lemma_place_update(ps3, idx as int, new_position as int, n);

            // names stay unique: the same rows are active, names unchanged
            assert forall|i: int, j: int|
                0 <= i < j < self.rows@.len() && self.rows@[i].position is Some
                    && self.rows@[j].position is Some implies !same_name(
                self.rows@[i].name@,
                self.rows@[j].name@,
            ) by {
                assert(same_but_position(self.rows@[i], rows0[i]));
                assert(same_but_position(self.rows@[j], rows0[j]));
                assert(rows0[i].position is Some || i == idx);
                assert(rows0[j].position is Some || j == idx);
            }

            // the audit trail still matches the live state
            assert forall|k: int| 0 <= k < log0.len() implies #[trigger] self.audit@[k]
                == log0[k] by {
                assert(self.audit@.subrange(0, log0.len() as int)[k] == self.audit@[k]);
            }
            assert forall|k: int| 0 <= k < self.audit@.len() implies is_row_id(
                self.rows@,
                (#[trigger] self.audit@[k]).entry_id,
            ) by {
                if k < log0.len() {
                    assert(is_row_id(rows0, log0[k].entry_id));
                    let r = choose|r: int|
                        0 <= r < rows0.len() && #[trigger] rows0[r].id == log0[k].entry_id;
                    assert(same_but_position(self.rows@[r], rows0[r]));
                    assert(self.rows@[r].id == log0[k].entry_id);
                }
            }
            assert forall|i: int| 0 <= i < self.rows@.len() implies current_of(
                self.audit@,
                (#[trigger] self.rows@[i]).id,
                self.last_time,
            ) == self.rows@[i].position by {
                assert(current_of(self.audit@, self.rows@[i].id, now) == recorded_position(
                    log0,
                    self.rows@,
                    old_pos@,
                    now,
                    i,
                ));
                if self.rows@[i].position == old_pos@[i] {
                    crate::audit::lemma_current_time(log0, self.rows@[i].id, time0, now);
                    assert(same_but_position(self.rows@[i], rows0[i]));
                    assert(old_pos@[i] == rows0[i].position);
                }
            }
        }
        let d = clone_demon(&self.rows[idx]);
        Ok(d)
    }
}

/// However the repository was mutated — any sequence of committed creates,
/// moves and retirements, at any positions — the active positions are
/// exactly `{1, …, N}`: every rank in that range is taken, every active rank
/// lies in that range, and no two active entries share a rank.
pub proof fn lemma_active_positions_exact(repo: Repository)
    requires
        repo.wf(),
    ensures
        forall|k: int|
            1 <= k <= repo.active_count_spec() ==> crate::shift::has_position(repo.ps(), k),
        forall|i: int|
            0 <= i < repo.ps().len() && (#[trigger] repo.ps()[i]) is Some ==> 1 <= repo.ps()[i]->0
                <= repo.active_count_spec(),
        crate::shift::positions_injective(repo.ps()),
{
}

/// The audit trail agrees with the live state at every instant from the
/// latest committed mutation on: it is the authority for the past, never a
/// divergent account of the present. Together with the contracts of
/// `reconstruct` and `list_active` this makes a reconstruction at the
/// present instant equivalent to the live listing.
pub proof fn lemma_trail_matches_live(repo: Repository, t: i64)
    requires
        repo.wf(),
        t >= repo.last_time,
    ensures
        forall|i: int|
            0 <= i < repo.rows@.len() ==> current_of(
                repo.audit@,
                (#[trigger] repo.rows@[i]).id,
                t,
            ) == repo.rows@[i].position,
{
    assert forall|i: int| 0 <= i < repo.rows@.len() implies current_of(
        repo.audit@,
        (#[trigger] repo.rows@[i]).id,
        t,
    ) == repo.rows@[i].position by {
        crate::audit::lemma_current_time(repo.audit@, repo.rows@[i].id, repo.last_time, t);
    }
}

/// Resolves every creator name, in order; fails with `NotFound` on the first
/// dangling reference.
fn resolve_all(dir: &ActorDirectory, names: &Vec<String>) -> (r: Result<Vec<i32>, ListError>)
    ensures
        r is Ok <==> creators_resolve(*dir, names@),
        (r matches Ok(ids) ==> ids@.len() == names@.len() && forall|c: int|
            0 <= c < names@.len() ==> Some(ids@[c]) == dir.resolve_spec(
                (#[trigger] names@[c])@,
            )),
        (r matches Err(e) ==> e == ListError::NotFound),
{
    let mut ids: Vec<i32> = Vec::new();
    let mut i: usize = 0;
    while i < names.len()
        invariant
            i <= names@.len(),
            ids@.len() == i,
            forall|c: int|
                0 <= c < i ==> Some(ids@[c]) == dir.resolve_spec((#[trigger] names@[c])@),
        decreases names@.len() - i,
    {
        match dir.resolve(names[i].as_str()) {
            Some(id) => {
                ids.push(id);
            },
            None => {
                return Err(ListError::NotFound);
            },
        }
        i += 1;
    }
    Ok(ids)
}

} // verus!
