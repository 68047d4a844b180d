//! Tests of historical reconstruction, the time-machine clamp, list
//! segmentation, video validation, and case folding.

use demonlist::actor::{Actor, ActorDirectory};
use demonlist::demon::PostDemon;
use demonlist::error::ListError;
use demonlist::overview::{clamp_when, OverviewDemon, OverviewQueryData};
use demonlist::repo::Repository;
use demonlist::segment::segment;
use demonlist::text::str_eq_ci;
use demonlist::video;

fn directory() -> ActorDirectory {
    ActorDirectory {
        actors: vec![
            Actor {
                id: 1,
                name: "Publisher".to_string(),
            },
            Actor {
                id: 2,
                name: "Verifier".to_string(),
            },
        ],
    }
}

fn draft(name: &str, position: i16) -> PostDemon {
    PostDemon {
        name: name.to_string(),
        position,
        requirement: 100,
        verifier: "Verifier".to_string(),
        publisher: "Publisher".to_string(),
        creators: vec![],
        video: None,
    }
}

fn line(id: i32, position: i16) -> OverviewDemon {
    OverviewDemon {
        id,
        position,
        name: format!("Demon{}", id),
        publisher: "Publisher".to_string(),
        video: None,
        current_position: None,
    }
}

#[test]
fn reconstruct_before_history_is_empty() {
    // A timestamp before the earliest audit fact yields an empty ranking,
    // never an error.
    let dir = directory();
    let mut repo = Repository::new();
    repo.create(draft("A", 1), &dir, 100).unwrap();
    repo.create(draft("B", 1), &dir, 200).unwrap();
    let view = repo.reconstruct(50, 300, &dir);
    assert!(view.is_empty());
}

#[test]
fn reconstruct_now_matches_live() {
    // reconstruct(now) short-circuits to the live list; the
    // current-position annotations match the live positions.
    let dir = directory();
    let mut repo = Repository::new();
    repo.create(draft("A", 1), &dir, 100).unwrap();
    repo.create(draft("B", 1), &dir, 200).unwrap();
    repo.create(draft("C", 2), &dir, 300).unwrap();
    let live = repo.list_active(&dir);
    let view = repo.reconstruct(400, 400, &dir);
    assert_eq!(view.len(), live.len());
    for (v, l) in view.iter().zip(live.iter()) {
        assert_eq!(v.id, l.id);
        assert_eq!(v.position, l.position);
        assert_eq!(v.name, l.name);
        assert_eq!(v.publisher, l.publisher);
        assert_eq!(l.current_position, None, "the live view carries no annotation");
        assert_eq!(
            v.current_position,
            Some(l.position),
            "the annotations match the live positions"
        );
    }
}

#[test]
fn reconstruct_shows_the_past_with_current_annotations() {
    let dir = directory();
    let mut repo = Repository::new();
    // t=100: A enters at 1.        ranking: A
    // t=200: B enters at 1.        ranking: B, A
    // t=300: A retires.            ranking: B
    repo.create(draft("A", 1), &dir, 100).unwrap();
    repo.create(draft("B", 1), &dir, 200).unwrap();
    repo.retire(1, 300).unwrap();

    let at_150 = repo.reconstruct(150, 400, &dir);
    assert_eq!(at_150.len(), 1);
    assert_eq!(at_150[0].name, "A");
    assert_eq!(at_150[0].position, 1);
    assert_eq!(at_150[0].current_position, None, "A is retired by now");

    let at_250 = repo.reconstruct(250, 400, &dir);
    assert_eq!(at_250.len(), 2);
    assert_eq!((at_250[0].name.as_str(), at_250[0].position), ("B", 1));
    assert_eq!((at_250[1].name.as_str(), at_250[1].position), ("A", 2));
    assert_eq!(at_250[0].current_position, Some(1), "B still holds rank 1");
    assert_eq!(at_250[1].current_position, None);

    let at_350 = repo.reconstruct(350, 400, &dir);
    assert_eq!(at_350.len(), 1);
    assert_eq!(at_350[0].name, "B");
}

#[test]
fn reconstruct_orders_by_position_then_id() {
    let dir = directory();
    let mut repo = Repository::new();
    repo.create(draft("A", 1), &dir, 100).unwrap();
    repo.create(draft("B", 2), &dir, 100).unwrap();
    repo.create(draft("C", 1), &dir, 100).unwrap();
    let view = repo.reconstruct(100, 200, &dir);
    let ranks: Vec<(i16, i32)> = view.iter().map(|d| (d.position, d.id)).collect();
    let mut sorted = ranks.clone();
    sorted.sort();
    assert_eq!(ranks, sorted, "historical order is (position, id)");
    assert_eq!(view.len(), 3);
}

#[test]
fn clamp_when_bounds_the_request() {
    let earliest = 1_000;
    let now = 9_000;
    assert_eq!(clamp_when(500, earliest, now), Some(earliest));
    assert_eq!(clamp_when(1_000, earliest, now), Some(1_000));
    assert_eq!(clamp_when(4_242, earliest, now), Some(4_242));
    assert_eq!(clamp_when(9_000, earliest, now), None);
    assert_eq!(clamp_when(20_000, earliest, now), None);
}

#[test]
fn segment_scenario_two_four() {
    // Scenario: thresholds (2, 4), entries ranked 1..5.
    let all: Vec<OverviewDemon> = (1..=5).map(|k| line(k, k as i16)).collect();
    let (main, extended, legacy) = segment(&all, 2, 4);
    let ids = |v: &[OverviewDemon]| v.iter().map(|d| d.id).collect::<Vec<_>>();
    assert_eq!(ids(&main), vec![1, 2]);
    assert_eq!(ids(&extended), vec![3, 4]);
    assert_eq!(ids(&legacy), vec![5]);
}

#[test]
fn segment_is_an_exact_partition() {
    for n in 0..8usize {
        let all: Vec<OverviewDemon> = (0..n).map(|k| line(k as i32 + 1, k as i16 + 1)).collect();
        for &(m, e) in &[(0, 0), (2, 4), (4, 2), (10, 20), (3, 3), (0, 5)] {
            let (main, extended, legacy) = segment(&all, m, e);
            assert_eq!(
                main.len() + extended.len() + legacy.len(),
                n,
                "partition of {} entries with thresholds ({}, {})",
                n,
                m,
                e
            );
            let mut joined: Vec<i32> = vec![];
            joined.extend(main.iter().map(|d| d.id));
            joined.extend(extended.iter().map(|d| d.id));
            joined.extend(legacy.iter().map(|d| d.id));
            let input_ids: Vec<i32> = all.iter().map(|d| d.id).collect();
            assert_eq!(joined, input_ids, "order preserved, nothing lost");
        }
    }
}

#[test]
fn segment_handles_short_lists() {
    let all: Vec<OverviewDemon> = (1..=1).map(|k| line(k, k as i16)).collect();
    let (main, extended, legacy) = segment(&all, 2, 4);
    assert_eq!(main.len(), 1);
    assert!(extended.is_empty());
    assert!(legacy.is_empty());
}

#[test]
fn video_hosts_are_validated_and_normalized() {
    assert_eq!(
        video::validate("https://youtu.be/cHEGAqOgddA").unwrap(),
        "https://www.youtube.com/watch?v=cHEGAqOgddA",
        "the short host is rewritten to the canonical watch URL"
    );
    assert_eq!(
        video::validate("https://www.youtube.com/watch?v=cHEGAqOgddA").unwrap(),
        "https://www.youtube.com/watch?v=cHEGAqOgddA"
    );
    assert_eq!(
        video::validate("https://www.twitch.tv/videos/123456").unwrap(),
        "https://www.twitch.tv/videos/123456"
    );
    assert_eq!(
        video::validate("https://vimeo.com/9876").unwrap(),
        "https://vimeo.com/9876"
    );
    for bad in [
        "http://youtu.be/cHEGAqOgddA",
        "https://youtu.be/",
        "https://example.com/watch?v=x",
        "not a url",
        "",
    ] {
        assert_eq!(video::validate(bad), Err(ListError::InvalidFormat), "{}", bad);
    }
}

#[test]
fn create_stores_the_canonical_video() {
    let dir = directory();
    let mut repo = Repository::new();
    let mut d = draft("A", 1);
    d.video = Some("https://youtu.be/abc".to_string());
    let created = repo.create(d, &dir, 100).unwrap();
    assert_eq!(
        created.video.as_deref(),
        Some("https://www.youtube.com/watch?v=abc")
    );
    let mut bad = draft("B", 1);
    bad.video = Some("ftp://nowhere".to_string());
    assert_eq!(repo.create(bad, &dir, 200).unwrap_err(), ListError::InvalidFormat);
}

#[test]
fn names_fold_ascii_case_only() {
    assert!(str_eq_ci("Bloodbath", "bLoOdBaTh"));
    assert!(str_eq_ci("", ""));
    assert!(!str_eq_ci("Bloodbath", "Bloodbath "));
    assert!(!str_eq_ci("abc", "abd"));
}

#[test]
fn query_data_defaults_to_hidden_panels() {
    let q = OverviewQueryData::default();
    assert!(!q.time_machine_shown);
    assert!(!q.stats_viewer_shown);
    assert!(!q.record_submitter_shown);
}
