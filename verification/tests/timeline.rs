use pkgtime::champion::select_champion;
use pkgtime::instant::Instant;
use pkgtime::overlap::overlapping_segments;
use pkgtime::release::{is_valid_timeline, Release};
use pkgtime::timeline::sort_by_publication;

fn release(version: &str, secs: i64) -> Release {
    Release::new(version.to_string(), Instant::from_secs(secs))
}

#[test]
fn history_is_put_into_order_of_publication() {
    let history = vec![release("c", 30), release("a", 10), release("d", 40), release("b", 20)];
    assert_eq!(
        sort_by_publication(&history),
        vec![release("a", 10), release("b", 20), release("c", 30), release("d", 40)]
    );
    assert_eq!(history[0], release("c", 30));
}

#[test]
fn releases_of_one_instant_keep_their_order() {
    let history = vec![
        release("x", 20),
        release("first", 10),
        release("y", 20),
        release("second", 10),
        release("z", 20),
        release("third", 10),
    ];
    assert_eq!(
        sort_by_publication(&history),
        vec![
            release("first", 10),
            release("second", 10),
            release("third", 10),
            release("x", 20),
            release("y", 20),
            release("z", 20)
        ]
    );
}

#[test]
fn sorting_respects_nanoseconds() {
    let history = vec![
        Release::new("b".to_string(), Instant { secs: 1, nanos: 2 }),
        Release::new("c".to_string(), Instant { secs: 2, nanos: 0 }),
        Release::new("a".to_string(), Instant { secs: 1, nanos: 1 }),
    ];
    let sorted = sort_by_publication(&history);
    assert_eq!(sorted[0].version, "a");
    assert_eq!(sorted[1].version, "b");
    assert_eq!(sorted[2].version, "c");
}

#[test]
fn sorted_and_empty_histories_stay_as_they_are() {
    let empty: Vec<Release> = Vec::new();
    assert_eq!(sort_by_publication(&empty), Vec::new());
    let sorted = vec![release("a", 1), release("b", 1), release("c", 2)];
    assert_eq!(sort_by_publication(&sorted), sorted);
    assert_eq!(sort_by_publication(&sort_by_publication(&sorted)), sorted);
}

#[test]
fn sorted_history_gives_contiguous_segments() {
    let history = vec![release("c", 30), release("a", 10), release("b", 20)];
    let sorted = sort_by_publication(&history);
    let found = overlapping_segments(&sorted, Instant::from_secs(15), Instant::from_secs(35));
    assert_eq!(found.len(), 3);
    assert_eq!(found[0].version, "a");
    assert_eq!(found[0].overlap_start, Instant::from_secs(15));
    assert_eq!(found[1].version, "b");
    assert_eq!(found[2].version, "c");
    assert_eq!(found[2].overlap_end, Instant::from_secs(35));
    assert_eq!(found[0].overlap_end, found[1].overlap_start);
    assert_eq!(found[1].overlap_end, found[2].overlap_start);
}

#[test]
fn champion_is_last_of_the_sorted_eligible_releases() {
    let history = vec![
        release("c", 30),
        release("tie-1", 20),
        release("a", 10),
        release("tie-2", 20),
        release("d", 40),
        release("tie-3", 20),
    ];
    for cutoff in 0..50 {
        let cutoff = Instant::from_secs(cutoff);
        let mut eligible = Vec::new();
        for entry in &history {
            if entry.published_at.le(&cutoff) {
                eligible.push(entry.clone());
            }
        }
        let mut sorted = sort_by_publication(&eligible);
        assert_eq!(select_champion(&history, cutoff), sorted.pop());
    }
    assert_eq!(select_champion(&history, Instant::from_secs(25)), Some(release("tie-3", 20)));
}

#[test]
fn timeline_is_sorted_and_names_each_version_once() {
    let empty: Vec<Release> = Vec::new();
    assert!(is_valid_timeline(&empty));
    assert!(is_valid_timeline(&vec![release("a", 10)]));
    assert!(is_valid_timeline(&vec![release("a", 10), release("b", 10), release("c", 11)]));
    assert!(!is_valid_timeline(&vec![release("a", 10), release("b", 9)]));
    assert!(!is_valid_timeline(&vec![release("a", 10), release("b", 20), release("c", 19)]));
    assert!(!is_valid_timeline(&vec![release("a", 10), release("b", 20), release("a", 30)]));
    assert!(!is_valid_timeline(&vec![release("a", 10), release("a", 10)]));
    let by_nanos = vec![
        Release::new("a".to_string(), Instant { secs: 1, nanos: 2 }),
        Release::new("b".to_string(), Instant { secs: 1, nanos: 1 }),
    ];
    assert!(!is_valid_timeline(&by_nanos));
    assert!(is_valid_timeline(&sort_by_publication(&by_nanos)));
}
