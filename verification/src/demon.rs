//! The ranked entry ("demon") and the pure validation checks that guard
//! every mutation.
//!
//! A validator runs against a read snapshot supplied by the caller and has no
//! side effects: it either accepts a proposed field or names the exact error
//! the caller must surface. No value is silently clamped or adjusted.

use vstd::prelude::*;

use crate::error::ListError;
use crate::text::{same_name, str_eq_ci};

verus! {

/// A ranked entry. `position` is `Some` for an active entry — positions of
/// active entries form the dense sequence `1..N` — and `None` once the entry
/// is retired. Retired entries are kept for historical queries and no longer
/// count toward `N`.
#[derive(Debug)]
pub struct Demon {
    /// Opaque identity, unique across all entries (active and retired).
    pub id: i32,
    /// Display name, unique among active entries case-insensitively.
    pub name: String,
    /// The 1-based rank, dense and unique among active entries; `None` once
    /// retired.
    pub position: Option<i16>,
    /// The acceptance threshold for records, within `[0, 100]`.
    pub requirement: i16,
    /// The canonical reference video URL, if one was supplied.
    pub video: Option<String>,
    /// Identity of the publishing actor.
    pub publisher: i32,
    /// Identity of the verifying actor.
    pub verifier: i32,
    /// Identities of the creating actors.
    pub creators: Vec<i32>,
}

/// A proposed entry, exactly as a caller submits it: actors are still names
/// to be resolved, and nothing has been validated yet.
pub struct PostDemon {
    /// Proposed display name.
    pub name: String,
    /// Proposed 1-based position; `count + 1` appends at the tail.
    pub position: i16,
    /// Proposed acceptance threshold.
    pub requirement: i16,
    /// Name of the verifying actor, resolved at creation time.
    pub verifier: String,
    /// Name of the publishing actor, resolved at creation time.
    pub publisher: String,
    /// Names of the creating actors.
    pub creators: Vec<String>,
    /// Proposed reference video URL, validated and normalized on creation.
    pub video: Option<String>,
}

/// A fully validated entry ready for insertion: every field checked, every
/// actor reference resolved, the video URL already canonical.
pub struct NewDemon {
    /// Validated display name.
    pub name: String,
    /// Validated 1-based position.
    pub position: i16,
    /// Validated acceptance threshold.
    pub requirement: i16,
    /// Resolved identity of the verifying actor.
    pub verifier: i32,
    /// Resolved identity of the publishing actor.
    pub publisher: i32,
    /// Canonical video URL, if one was supplied.
    pub video: Option<String>,
}

/// Whether two entries agree on every field except possibly the position.
/// A bulk shift changes nothing else.
pub open spec fn same_but_position(a: Demon, b: Demon) -> bool {
    &&& a.id == b.id
    &&& a.name == b.name
    &&& a.requirement == b.requirement
    &&& a.video == b.video
    &&& a.publisher == b.publisher
    &&& a.verifier == b.verifier
    &&& a.creators == b.creators
}

/// Whether two entries agree on every observable field; the creator list is
/// compared by contents.
pub open spec fn same_entry(a: Demon, b: Demon) -> bool {
    &&& a.id == b.id
    &&& a.name == b.name
    &&& a.position == b.position
    &&& a.requirement == b.requirement
    &&& a.video == b.video
    &&& a.publisher == b.publisher
    &&& a.verifier == b.verifier
    &&& a.creators@ == b.creators@
}

/// Whether some active entry other than `exclude` already carries `name`,
/// case-insensitively.
pub open spec fn name_conflict(rows: Seq<Demon>, name: Seq<char>, exclude: Option<i32>) -> bool {
    exists|i: int|
        0 <= i < rows.len() && rows[i].position is Some && (match exclude {
            Some(id) => rows[i].id != id,
            None => true,
        }) && same_name(rows[i].name@, name)
}

impl Demon {
    /// Accepts a proposed requirement exactly when it lies within `[0, 100]`;
    /// an out-of-range value is rejected, never clamped.
    pub fn validate_requirement(requirement: i16) -> (r: Result<(), ListError>)
        ensures
            r is Ok <==> 0 <= requirement <= 100,
            (r matches Err(e) ==> e == ListError::OutOfRange),
    {
        if 0 <= requirement && requirement <= 100 {
            Ok(())
        } else {
            Err(ListError::OutOfRange)
        }
    }

    /// Accepts a proposed position exactly when it lies within
    /// `[1, active_count + 1]` — the `+ 1` appends at the tail — and the
    /// grown list still fits the position type.
    pub fn validate_position(position: i16, active_count: usize) -> (r: Result<(), ListError>)
        ensures
            r is Ok <==> (1 <= position as int && position as int <= active_count as int + 1
                && active_count as int + 1 <= i16::MAX as int),
            (r matches Err(e) ==> e == ListError::OutOfRange),
    {
        if active_count <= 32766 && 1 <= position && (position as usize) <= active_count + 1 {
            Ok(())
        } else {
            Err(ListError::OutOfRange)
        }
    }

    /// Accepts a proposed name exactly when no active entry other than
    /// `exclude` already carries it case-insensitively.
    pub fn validate_name(name: &str, rows: &Vec<Demon>, exclude: Option<i32>) -> (r: Result<
        (),
        ListError,
    >)
        ensures
            r is Ok <==> !name_conflict(rows@, name@, exclude),
            (r matches Err(e) ==> e == ListError::Conflict),
    {
        let mut i: usize = 0;
        while i < rows.len()
            invariant
                i <= rows.len(),
                !name_conflict(rows@.take(i as int), name@, exclude),
            decreases rows.len() - i,
        {
            let row = &rows[i];
            let excluded = match exclude {
                Some(id) => row.id == id,
                None => false,
            };
            if row.position.is_some() && !excluded && str_eq_ci(row.name.as_str(), name) {
                assert(name_conflict(rows@, name@, exclude));
                return Err(ListError::Conflict);
            }
            proof {
                assert(rows@.take(i + 1 as int).drop_last() =~= rows@.take(i as int));
                assert(rows@.take(i + 1 as int).last() == rows@[i as int]);
            }
            i += 1;
        }
        proof {
            assert(rows@.take(rows@.len() as int) =~= rows@);
        }
        Ok(())
    }
}

/// Copies a list of actor identities.
fn clone_ids(v: &Vec<i32>) -> (r: Vec<i32>)
    ensures
        r@ == v@,
{
    let mut r: Vec<i32> = Vec::new();
    let mut i: usize = 0;
    while i < v.len()
        invariant
            i <= v@.len(),
            r@ == v@.take(i as int),
        decreases v@.len() - i,
    {
        r.push(v[i]);
        proof {
            assert(v@.take(i as int).push(v@[i as int]) =~= v@.take(i + 1 as int));
        }
        i += 1;
    }
    proof {
        assert(v@.take(v@.len() as int) =~= v@);
    }
    r
}

/// Copies an entry, field by field.
pub fn clone_demon(d: &Demon) -> (r: Demon)
    ensures
        same_entry(r, *d),
{
    Demon {
        id: d.id,
        name: d.name.clone(),
        position: d.position,
        requirement: d.requirement,
        video: match &d.video {
            Some(v) => Some(v.clone()),
            None => None,
        },
        publisher: d.publisher,
        verifier: d.verifier,
        creators: clone_ids(&d.creators),
    }
}

} // verus!
