use pkgtime::instant::Instant;
use pkgtime::overlap::{overlapping_segments, start_position, OverlapSegment};
use pkgtime::release::Release;

const JAN_1: i64 = 1_577_836_800;
const JAN_15: i64 = 1_579_046_400;
const FEB_1: i64 = 1_580_515_200;
const FEB_15: i64 = 1_581_724_800;
const MAR_1: i64 = 1_583_020_800;

fn release(version: &str, secs: i64) -> Release {
    Release::new(version.to_string(), Instant::from_secs(secs))
}

fn segment(version: &str, start: i64, end: i64) -> OverlapSegment {
    OverlapSegment {
        version: version.to_string(),
        overlap_start: Instant::from_secs(start),
        overlap_end: Instant::from_secs(end),
    }
}

fn segments(history: &Vec<Release>, start: i64, end: i64) -> Vec<OverlapSegment> {
    overlapping_segments(history, Instant::from_secs(start), Instant::from_secs(end))
}

fn three_releases() -> Vec<Release> {
    vec![release("1.0.0", JAN_1), release("1.1.0", FEB_1), release("2.0.0", MAR_1)]
}

#[test]
fn window_across_two_reigns_gives_two_segments() {
    assert_eq!(
        segments(&three_releases(), JAN_15, FEB_15),
        vec![segment("1.0.0", JAN_15, FEB_1), segment("1.1.0", FEB_1, FEB_15)]
    );
}

#[test]
fn no_segment_before_first_release() {
    let history = vec![release("0.1.0", FEB_1)];
    assert_eq!(segments(&history, JAN_1, MAR_1), vec![segment("0.1.0", FEB_1, MAR_1)]);
}

#[test]
fn empty_history_gives_no_segments() {
    let history: Vec<Release> = Vec::new();
    assert_eq!(segments(&history, JAN_1, MAR_1), Vec::new());
    assert_eq!(start_position(&history, Instant::from_secs(JAN_1)), 0);
}

#[test]
fn window_that_does_not_open_before_it_closes_gives_no_segments() {
    let history = three_releases();
    assert_eq!(segments(&history, FEB_1, FEB_1), Vec::new());
    assert_eq!(segments(&history, FEB_15, JAN_15), Vec::new());
    let same_second = overlapping_segments(
        &history,
        Instant { secs: FEB_1, nanos: 2 },
        Instant { secs: FEB_1, nanos: 1 },
    );
    assert_eq!(same_second, Vec::new());
}

#[test]
fn window_before_every_release_gives_no_segments() {
    assert_eq!(segments(&three_releases(), JAN_1 - 1_000, JAN_1 - 10), Vec::new());
    assert_eq!(segments(&three_releases(), JAN_1 - 1_000, JAN_1), Vec::new());
}

#[test]
fn window_after_every_release_belongs_to_the_newest() {
    assert_eq!(
        segments(&three_releases(), MAR_1 + 10, MAR_1 + 20),
        vec![segment("2.0.0", MAR_1 + 10, MAR_1 + 20)]
    );
}

#[test]
fn window_within_one_reign_gives_one_segment() {
    assert_eq!(
        segments(&three_releases(), JAN_15, JAN_15 + 60),
        vec![segment("1.0.0", JAN_15, JAN_15 + 60)]
    );
}

#[test]
fn window_over_whole_history_gives_every_reign() {
    assert_eq!(
        segments(&three_releases(), JAN_1 - 5, MAR_1 + 5),
        vec![
            segment("1.0.0", JAN_1, FEB_1),
            segment("1.1.0", FEB_1, MAR_1),
            segment("2.0.0", MAR_1, MAR_1 + 5)
        ]
    );
}

#[test]
fn release_at_window_end_gives_no_segment() {
    assert_eq!(segments(&three_releases(), JAN_15, FEB_1), vec![segment("1.0.0", JAN_15, FEB_1)]);
}

#[test]
fn release_at_window_start_opens_the_first_segment() {
    assert_eq!(
        segments(&three_releases(), FEB_1, FEB_15),
        vec![segment("1.1.0", FEB_1, FEB_15)]
    );
    assert_eq!(start_position(&three_releases(), Instant::from_secs(FEB_1)), 1);
    assert_eq!(start_position(&three_releases(), Instant::from_secs(FEB_1 - 1)), 0);
    assert_eq!(start_position(&three_releases(), Instant::from_secs(JAN_1 - 1)), 0);
    assert_eq!(start_position(&three_releases(), Instant::from_secs(MAR_1 + 1)), 2);
}

#[test]
fn releases_of_one_instant_give_one_segment() {
    let history = vec![release("a", 10), release("b", 20), release("c", 20), release("d", 30)];
    assert_eq!(
        segments(&history, 0, 40),
        vec![segment("a", 10, 20), segment("c", 20, 30), segment("d", 30, 40)]
    );
    assert_eq!(segments(&history, 20, 25), vec![segment("c", 20, 25)]);
}

#[test]
fn segments_partition_the_window() {
    let history = vec![
        release("a", 10),
        release("b", 20),
        release("c", 20),
        release("d", 35),
        release("e", 50),
    ];
    for start in 0..60 {
        for end in 0..60 {
            let found = segments(&history, start, end);
            if start >= end || end <= 10 {
                assert!(found.is_empty());
                continue;
            }
            assert!(!found.is_empty());
            let opening = if start < 10 { 10 } else { start };
            assert_eq!(found[0].overlap_start, Instant::from_secs(opening));
            assert_eq!(found[found.len() - 1].overlap_end, Instant::from_secs(end));
            for k in 0..found.len() {
                assert!(found[k].overlap_start.lt(&found[k].overlap_end));
                if k + 1 < found.len() {
                    assert_eq!(found[k].overlap_end, found[k + 1].overlap_start);
                }
            }
        }
    }
}

#[test]
fn segments_are_the_same_when_asked_again() {
    let history = three_releases();
    let once = segments(&history, JAN_15, MAR_1 + 7);
    let again = segments(&history, JAN_15, MAR_1 + 7);
    assert_eq!(once, again);
    assert_eq!(once.len(), 3);
}

#[test]
fn segments_respect_nanoseconds() {
    let history = vec![
        Release::new("a".to_string(), Instant { secs: 5, nanos: 100 }),
        Release::new("b".to_string(), Instant { secs: 5, nanos: 200 }),
    ];
    let found = overlapping_segments(
        &history,
        Instant { secs: 5, nanos: 150 },
        Instant { secs: 5, nanos: 250 },
    );
    assert_eq!(
        found,
        vec![
            OverlapSegment {
                version: "a".to_string(),
                overlap_start: Instant { secs: 5, nanos: 150 },
                overlap_end: Instant { secs: 5, nanos: 200 },
            },
            OverlapSegment {
                version: "b".to_string(),
                overlap_start: Instant { secs: 5, nanos: 200 },
                overlap_end: Instant { secs: 5, nanos: 250 },
            },
        ]
    );
}

#[test]
fn scan_of_unsorted_history_follows_positions() {
    let history = vec![release("late", 50), release("early", 5)];
    assert_eq!(segments(&history, 0, 10), vec![segment("early", 5, 10)]);
    let history = vec![release("a", 0), release("b", 20), release("c", 10), release("d", 30)];
    assert_eq!(
        segments(&history, 0, 40),
        vec![segment("a", 0, 20), segment("c", 10, 30), segment("d", 30, 40)]
    );
    assert_eq!(segments(&history, 0, 15), vec![segment("a", 0, 15)]);
}
