//! Actors (players) referenced by entries.
//!
//! Actor records are owned externally: the core only resolves names to
//! identities at creation time and dereferences identities on reads, never
//! mutating the records themselves. A read snapshot of the directory is
//! supplied by the caller with each request.

use vstd::prelude::*;

use crate::text::{same_name, str_eq_ci};

verus! {

/// An externally owned actor record: an opaque identity and the natural key
/// (name) it is looked up by.
pub struct Actor {
    /// Opaque identity.
    pub id: i32,
    /// Natural key, matched case-insensitively.
    pub name: String,
}

/// A read snapshot of the externally owned actor records.
pub struct ActorDirectory {
    /// The records, in directory order.
    pub actors: Vec<Actor>,
}

/// The identity of the first record carrying `name` case-insensitively, if
/// any.
pub open spec fn resolve_in(actors: Seq<Actor>, name: Seq<char>) -> Option<i32>
    decreases actors.len(),
{
    if actors.len() == 0 {
        None
    } else if same_name(actors[0].name@, name) {
        Some(actors[0].id)
    } else {
        resolve_in(actors.skip(1), name)
    }
}

/// The name of the first record with identity `id`, if any.
pub open spec fn display_in(actors: Seq<Actor>, id: i32) -> Option<Seq<char>>
    decreases actors.len(),
{
    if actors.len() == 0 {
        None
    } else if actors[0].id == id {
        Some(actors[0].name@)
    } else {
        display_in(actors.skip(1), id)
    }
}

impl ActorDirectory {
    /// The identity `name` resolves to, if any.
    pub open spec fn resolve_spec(&self, name: Seq<char>) -> Option<i32> {
        resolve_in(self.actors@, name)
    }

    /// The display name of `id`, if the directory knows it.
    pub open spec fn display_spec(&self, id: i32) -> Option<Seq<char>> {
        display_in(self.actors@, id)
    }

    /// Resolves an actor by its natural key, case-insensitively; `None` when
    /// the reference would dangle.
    pub fn resolve(&self, name: &str) -> (r: Option<i32>)
        ensures
            r == self.resolve_spec(name@),
    {
        let mut i: usize = 0;
        proof {
            assert(self.actors@.skip(0) =~= self.actors@);
        }
        while i < self.actors.len()
            invariant
                i <= self.actors@.len(),
                resolve_in(self.actors@, name@) == resolve_in(self.actors@.skip(i as int), name@),
            decreases self.actors@.len() - i,
        {
            let a = &self.actors[i];
            proof {
                assert(self.actors@.skip(i as int)[0] == self.actors@[i as int]);
                assert(self.actors@.skip(i as int).skip(1) =~= self.actors@.skip(i + 1));
            }
            if str_eq_ci(a.name.as_str(), name) {
                return Some(a.id);
            }
            i += 1;
        }
        proof {
            assert(self.actors@.skip(self.actors@.len() as int).len() == 0);
        }
        None
    }

    /// Dereferences an identity to its display name; `None` when the record
    /// is gone from the snapshot.
    pub fn display_name(&self, id: i32) -> (r: Option<String>)
        ensures
            r is Some <==> self.display_spec(id) is Some,
            (r matches Some(s) ==> Some(s@) == self.display_spec(id)),
    {
        let mut i: usize = 0;
        proof {
            assert(self.actors@.skip(0) =~= self.actors@);
        }
        while i < self.actors.len()
            invariant
                i <= self.actors@.len(),
                display_in(self.actors@, id) == display_in(self.actors@.skip(i as int), id),
            decreases self.actors@.len() - i,
        {
            let a = &self.actors[i];
            proof {
                assert(self.actors@.skip(i as int)[0] == self.actors@[i as int]);
                assert(self.actors@.skip(i as int).skip(1) =~= self.actors@.skip(i + 1));
            }
            if a.id == id {
                return Some(a.name.clone());
            }
            i += 1;
        }
        proof {
            assert(self.actors@.skip(self.actors@.len() as int).len() == 0);
        }
        None
    }
}

} // verus!
