//! End-to-end tests of the ranking repository: creation, shifting, moving,
//! retiring, and the invariants the active list keeps through all of it.

use demonlist::actor::{Actor, ActorDirectory};
use demonlist::demon::{Demon, PostDemon};
use demonlist::error::ListError;
use demonlist::overview::OverviewDemon;
use demonlist::repo::Repository;

fn directory() -> ActorDirectory {
    ActorDirectory {
        actors: vec![
            Actor {
                id: 7,
                name: "Riot".to_string(),
            },
            Actor {
                id: 8,
                name: "Verifier8".to_string(),
            },
            Actor {
                id: 9,
                name: "Builder9".to_string(),
            },
        ],
    }
}

fn draft(name: &str, position: i16) -> PostDemon {
    PostDemon {
        name: name.to_string(),
        position,
        requirement: 90,
        verifier: "Verifier8".to_string(),
        publisher: "Riot".to_string(),
        creators: vec!["Builder9".to_string()],
        video: None,
    }
}

fn positions(list: &[OverviewDemon]) -> Vec<i16> {
    list.iter().map(|d| d.position).collect()
}

fn names(list: &[OverviewDemon]) -> Vec<String> {
    list.iter().map(|d| d.name.clone()).collect()
}

#[test]
fn create_appends_at_tail() {
    let dir = directory();
    let mut repo = Repository::new();
    let d = repo.create(draft("Alpha", 1), &dir, 10).unwrap();
    assert_eq!(d.id, 1);
    assert_eq!(d.position, Some(1));
    assert_eq!(d.publisher, 7);
    assert_eq!(d.verifier, 8);
    assert_eq!(d.creators, vec![9]);
    let list = repo.list_active(&dir);
    assert_eq!(list.len(), 1);
    assert_eq!(list[0].name, "Alpha");
    assert_eq!(list[0].publisher, "Riot");
    assert_eq!(list[0].current_position, None);
}

#[test]
fn create_at_head_shifts_all_down() {
    // Scenario: create "Bloodbath" at position 1 into an active list of 3.
    let dir = directory();
    let mut repo = Repository::new();
    repo.create(draft("One", 1), &dir, 10).unwrap();
    repo.create(draft("Two", 2), &dir, 20).unwrap();
    repo.create(draft("Three", 3), &dir, 30).unwrap();
    let d = repo.create(draft("Bloodbath", 1), &dir, 40).unwrap();
    assert_eq!(d.position, Some(1));
    let list = repo.list_active(&dir);
    assert_eq!(
        names(&list),
        vec!["Bloodbath", "One", "Two", "Three"],
        "new entry first, everything else pushed down one"
    );
    assert_eq!(positions(&list), vec![1, 2, 3, 4]);
}

#[test]
fn insert_in_middle_shifts_only_tail() {
    // Inserting at position p increments exactly the entries at >= p.
    let dir = directory();
    let mut repo = Repository::new();
    repo.create(draft("A", 1), &dir, 10).unwrap();
    repo.create(draft("B", 2), &dir, 20).unwrap();
    repo.create(draft("C", 3), &dir, 30).unwrap();
    repo.create(draft("D", 4), &dir, 40).unwrap();
    repo.create(draft("Mid", 2), &dir, 50).unwrap();
    let list = repo.list_active(&dir);
    assert_eq!(names(&list), vec!["A", "Mid", "B", "C", "D"]);
    // A (below the insertion point) kept its position; B, C, D moved by one
    assert_eq!(repo.get(1).unwrap().position, Some(1));
    assert_eq!(repo.get(2).unwrap().position, Some(3));
    assert_eq!(repo.get(3).unwrap().position, Some(4));
    assert_eq!(repo.get(4).unwrap().position, Some(5));
}

#[test]
fn adversarial_creates_stay_dense() {
    // Repeated, head, middle and tail positions: the result is always 1..N.
    let dir = directory();
    let mut repo = Repository::new();
    let choices: [i16; 7] = [1, 1, 1, 2, 4, 3, 7];
    let mut t = 10;
    for (i, &p) in choices.iter().enumerate() {
        repo.create(draft(&format!("Entry{}", i), p), &dir, t).unwrap();
        t += 10;
    }
    let list = repo.list_active(&dir);
    assert_eq!(list.len(), 7);
    let expected: Vec<i16> = (1i16..=7).collect();
    assert_eq!(positions(&list), expected, "positions are exactly 1..N");
    let mut ids: Vec<i32> = list.iter().map(|d| d.id).collect();
    ids.sort();
    ids.dedup();
    assert_eq!(ids.len(), 7, "no entry listed twice");
}

#[test]
fn duplicate_name_conflicts_case_insensitively() {
    // Scenario: "bloodbath" vs "Bloodbath" fails with Conflict, list unchanged.
    let dir = directory();
    let mut repo = Repository::new();
    repo.create(draft("Bloodbath", 1), &dir, 10).unwrap();
    repo.create(draft("Cataclysm", 2), &dir, 20).unwrap();
    let before = repo.list_active(&dir);
    let err = repo.create(draft("bloodbath", 1), &dir, 30).unwrap_err();
    assert_eq!(err, ListError::Conflict);
    let after = repo.list_active(&dir);
    assert_eq!(names(&before), names(&after), "a rejected create changes nothing");
    assert_eq!(positions(&before), positions(&after));
}

#[test]
fn renaming_excludes_the_entry_itself() {
    let dir = directory();
    let mut repo = Repository::new();
    repo.create(draft("Bloodbath", 1), &dir, 10).unwrap();
    // validate_name is a pure check against a caller-supplied snapshot
    let rows = vec![repo.get(1).map(|d| Demon {
        id: d.id,
        name: d.name.clone(),
        position: d.position,
        requirement: d.requirement,
        video: d.video.clone(),
        publisher: d.publisher,
        verifier: d.verifier,
        creators: d.creators.clone(),
    }).unwrap()];
    assert_eq!(
        Demon::validate_name("BLOODBATH", &rows, Some(1)),
        Ok(()),
        "an entry may keep its own name"
    );
    assert_eq!(
        Demon::validate_name("BLOODBATH", &rows, None),
        Err(ListError::Conflict)
    );
}

#[test]
fn retire_redensifies() {
    // retire(id) -> list_active never contains id; positions are 1..N-1.
    let dir = directory();
    let mut repo = Repository::new();
    repo.create(draft("A", 1), &dir, 10).unwrap();
    repo.create(draft("B", 2), &dir, 20).unwrap();
    repo.create(draft("C", 3), &dir, 30).unwrap();
    repo.retire(2, 40).unwrap();
    let list = repo.list_active(&dir);
    assert_eq!(list.len(), 2);
    assert!(list.iter().all(|d| d.id != 2), "the retired entry is gone");
    assert_eq!(positions(&list), vec![1, 2], "the gap closed");
    assert_eq!(names(&list), vec!["A", "C"]);
    // the row itself is retained for history
    let kept = repo.get(2).unwrap();
    assert_eq!(kept.name, "B");
    assert_eq!(kept.position, None);
}

#[test]
fn retire_twice_is_not_found() {
    let dir = directory();
    let mut repo = Repository::new();
    repo.create(draft("A", 1), &dir, 10).unwrap();
    repo.retire(1, 20).unwrap();
    assert_eq!(repo.retire(1, 30), Err(ListError::NotFound));
    assert_eq!(repo.retire(99, 40), Err(ListError::NotFound));
}

#[test]
fn move_to_front_shifts_the_rest_down() {
    // Scenario: update_position(X at 5 -> 1) in a 5-entry list.
    let dir = directory();
    let mut repo = Repository::new();
    for (i, name) in ["A", "B", "C", "D", "X"].iter().enumerate() {
        repo.create(draft(name, (i + 1) as i16), &dir, 10 * (i as i64 + 1))
            .unwrap();
    }
    let d = repo.update_position(5, 1, 60).unwrap();
    assert_eq!(d.position, Some(1));
    let list = repo.list_active(&dir);
    assert_eq!(names(&list), vec!["X", "A", "B", "C", "D"]);
    assert_eq!(positions(&list), vec![1, 2, 3, 4, 5], "density preserved");
}

#[test]
fn move_down_closes_the_gap() {
    let dir = directory();
    let mut repo = Repository::new();
    for (i, name) in ["A", "B", "C", "D"].iter().enumerate() {
        repo.create(draft(name, (i + 1) as i16), &dir, 10 * (i as i64 + 1))
            .unwrap();
    }
    repo.update_position(1, 3, 50).unwrap();
    let list = repo.list_active(&dir);
    assert_eq!(names(&list), vec!["B", "C", "A", "D"]);
    assert_eq!(positions(&list), vec![1, 2, 3, 4]);
}

#[test]
fn update_position_bounds() {
    let dir = directory();
    let mut repo = Repository::new();
    repo.create(draft("A", 1), &dir, 10).unwrap();
    repo.create(draft("B", 2), &dir, 20).unwrap();
    assert_eq!(repo.update_position(1, 0, 30).unwrap_err(), ListError::OutOfRange);
    assert_eq!(
        repo.update_position(1, 3, 40).unwrap_err(),
        ListError::OutOfRange,
        "a move cannot go past the tail"
    );
    assert_eq!(repo.update_position(42, 1, 50).unwrap_err(), ListError::NotFound);
    // and a move to the same position is a no-op, not an error
    let d = repo.update_position(1, 1, 60).unwrap();
    assert_eq!(d.position, Some(1));
}

#[test]
fn requirement_bounds() {
    let dir = directory();
    let mut repo = Repository::new();
    let mut bad = draft("A", 1);
    bad.requirement = 101;
    assert_eq!(repo.create(bad, &dir, 10).unwrap_err(), ListError::OutOfRange);
    let mut bad = draft("A", 1);
    bad.requirement = -1;
    assert_eq!(repo.create(bad, &dir, 20).unwrap_err(), ListError::OutOfRange);
    let mut edge = draft("A", 1);
    edge.requirement = 0;
    repo.create(edge, &dir, 30).unwrap();
    let mut edge = draft("B", 2);
    edge.requirement = 100;
    repo.create(edge, &dir, 40).unwrap();
}

#[test]
fn position_bounds() {
    let dir = directory();
    let mut repo = Repository::new();
    repo.create(draft("A", 1), &dir, 10).unwrap();
    assert_eq!(
        repo.create(draft("B", 0), &dir, 20).unwrap_err(),
        ListError::OutOfRange
    );
    assert_eq!(
        repo.create(draft("B", 3), &dir, 30).unwrap_err(),
        ListError::OutOfRange,
        "only count + 1 may append at the tail"
    );
    repo.create(draft("B", 2), &dir, 40).unwrap();
}

#[test]
fn unresolvable_actors_are_not_found() {
    let dir = directory();
    let mut repo = Repository::new();
    let mut bad = draft("A", 1);
    bad.publisher = "Nobody".to_string();
    assert_eq!(repo.create(bad, &dir, 10).unwrap_err(), ListError::NotFound);
    let mut bad = draft("A", 1);
    bad.verifier = "Nobody".to_string();
    assert_eq!(repo.create(bad, &dir, 20).unwrap_err(), ListError::NotFound);
    let mut bad = draft("A", 1);
    bad.creators = vec!["Builder9".to_string(), "Nobody".to_string()];
    assert_eq!(repo.create(bad, &dir, 30).unwrap_err(), ListError::NotFound);
    // actor names resolve case-insensitively
    let mut ok = draft("A", 1);
    ok.publisher = "riot".to_string();
    repo.create(ok, &dir, 40).unwrap();
}

#[test]
fn get_finds_entries_by_id() {
    let dir = directory();
    let mut repo = Repository::new();
    repo.create(draft("A", 1), &dir, 10).unwrap();
    assert_eq!(repo.get(1).unwrap().name, "A");
    assert!(repo.get(2).is_none());
}

#[test]
fn transaction_failure_is_the_only_retryable_error() {
    assert!(ListError::TransactionFailure.retryable());
    assert!(!ListError::Conflict.retryable());
    assert!(!ListError::OutOfRange.retryable());
    assert!(!ListError::NotFound.retryable());
    assert!(!ListError::InvalidFormat.retryable());
}
