//! List segmentation: partitioning an ordered ranking into the Main,
//! Extended and Legacy bands that every read consumer uses.
//!
//! Segmentation is a pure view function: given an already ordered sequence
//! and two ascending size thresholds it slices, it never mutates and it has
//! no failure modes — short lists simply leave the later bands empty.

use vstd::prelude::*;

use crate::overview::{clone_overview, OverviewDemon};

verus! {

/// Where the Main band ends: after `main_size` lines, or at the end of a
/// shorter list.
pub open spec fn main_end(n: int, main_size: int) -> int {
    if main_size <= n {
        main_size
    } else {
        n
    }
}

/// Where the Extended band ends: after `extended_size` lines (never fewer
/// than the Main band takes), or at the end of a shorter list.
pub open spec fn extended_end(n: int, main_size: int, extended_size: int) -> int {
    let e = if extended_size >= main_size {
        extended_size
    } else {
        main_size
    };
    if e <= n {
        e
    } else {
        n
    }
}

/// The Main band: the lines up to `main_size`.
pub open spec fn main_slice(s: Seq<OverviewDemon>, main_size: int) -> Seq<OverviewDemon> {
    s.subrange(0, main_end(s.len() as int, main_size))
}

/// The Extended band: the lines after Main, up to `extended_size`.
pub open spec fn extended_slice(s: Seq<OverviewDemon>, main_size: int, extended_size: int) -> Seq<
    OverviewDemon,
> {
    s.subrange(
        main_end(s.len() as int, main_size),
        extended_end(s.len() as int, main_size, extended_size),
    )
}

/// The Legacy band: everything after Extended.
pub open spec fn legacy_slice(s: Seq<OverviewDemon>, main_size: int, extended_size: int) -> Seq<
    OverviewDemon,
> {
    s.subrange(extended_end(s.len() as int, main_size, extended_size), s.len() as int)
}

/// Segmentation is a disjoint exact partition: the three bands concatenate
/// back to the whole sequence — so their lengths always sum to `N` — for
/// every `N >= 0` and every pair of thresholds.
pub proof fn lemma_segment_partition(s: Seq<OverviewDemon>, main_size: int, extended_size: int)
    requires
        0 <= main_size,
        0 <= extended_size,
    ensures
        main_slice(s, main_size) + extended_slice(s, main_size, extended_size) + legacy_slice(
            s,
            main_size,
            extended_size,
        ) == s,
        main_slice(s, main_size).len() + extended_slice(s, main_size, extended_size).len()
            + legacy_slice(s, main_size, extended_size).len() == s.len(),
{
    assert(main_slice(s, main_size) + extended_slice(s, main_size, extended_size) + legacy_slice(
        s,
        main_size,
        extended_size,
    ) =~= s);
}

/// Partitions an ordered ranking into its three bands, in order: Main takes
/// the first `main_size` lines, Extended the lines up to `extended_size`,
/// Legacy the rest. A list shorter than a threshold leaves the later bands
/// empty.
pub fn segment(demons: &Vec<OverviewDemon>, main_size: usize, extended_size: usize) -> (r: (
    Vec<OverviewDemon>,
    Vec<OverviewDemon>,
    Vec<OverviewDemon>,
))
    ensures
        r.0@ == main_slice(demons@, main_size as int),
        r.1@ == extended_slice(demons@, main_size as int, extended_size as int),
        r.2@ == legacy_slice(demons@, main_size as int, extended_size as int),
{
    let ghost n = demons@.len() as int;
    let ghost a = main_end(n, main_size as int);
    let ghost b = extended_end(n, main_size as int, extended_size as int);
    let cap = if extended_size >= main_size {
        extended_size
    } else {
        main_size
    };
    let mut main: Vec<OverviewDemon> = Vec::new();
    let mut extended: Vec<OverviewDemon> = Vec::new();
    let mut legacy: Vec<OverviewDemon> = Vec::new();
    let mut i: usize = 0;
    while i < demons.len()
        invariant
            n == demons@.len(),
            a == main_end(n, main_size as int),
            b == extended_end(n, main_size as int, extended_size as int),
            cap as int == if extended_size >= main_size {
                extended_size as int
            } else {
                main_size as int
            },
            i <= n,
            main@ == demons@.subrange(0, if i <= a {
                i as int
            } else {
                a
            }),
            extended@ == demons@.subrange(
                if i <= a {
                    i as int
                } else {
                    a
                },
                if i <= b {
                    i as int
                } else {
                    b
                },
            ),
            legacy@ == demons@.subrange(
                if i <= b {
                    i as int
                } else {
                    b
                },
                i as int,
            ),
        decreases n - i,
    {
        let d = clone_overview(&demons[i]);
        if i < main_size {
            main.push(d);
            proof {
                assert(demons@.subrange(0, i as int).push(demons@[i as int]) =~= demons@.subrange(
                    0,
                    i + 1 as int,
                ));
                assert(extended@ =~= demons@.subrange(i + 1 as int, i + 1 as int));
                assert(legacy@ =~= demons@.subrange(i + 1 as int, i + 1 as int));
            }
        } else if i < cap {
            extended.push(d);
            proof {
                assert(demons@.subrange(a, i as int).push(demons@[i as int]) =~= demons@.subrange(
                    a,
                    i + 1 as int,
                ));
                assert(legacy@ =~= demons@.subrange(i + 1 as int, i + 1 as int));
            }
        } else {
            legacy.push(d);
            proof {
                assert(demons@.subrange(b, i as int).push(demons@[i as int]) =~= demons@.subrange(
                    b,
                    i + 1 as int,
                ));
            }
        }
        i += 1;
    }
    (main, extended, legacy)
}

} // verus!
