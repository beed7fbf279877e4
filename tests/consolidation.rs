use data_cleaner::exclusions::{consolidate_exclusions, ExclusionEvent, ExclusionRecord, GroupKey};
use data_cleaner::intervals::{merge_intervals, sort_intervals};
use data_cleaner::timestamps::parse_time_index;

fn seconds(text: &str) -> i64 {
    parse_time_index(&vec![text.to_string()]).unwrap()[0]
}

fn key(mast: &str, sensor: &str, reason: &str) -> GroupKey {
    GroupKey::new(mast.to_string(), sensor.to_string(), reason.to_string())
}

fn event(mast: &str, sensor: &str, reason: &str, time: &str) -> ExclusionEvent {
    ExclusionEvent { key: key(mast, sensor, reason), timestamp: seconds(time) }
}

fn summary(records: &[ExclusionRecord]) -> Vec<(String, String, String, i64, i64, i64)> {
    records
        .iter()
        .map(|r| {
            (
                r.key.mast.clone(),
                r.key.sensor.clone(),
                r.key.reason.clone(),
                r.start,
                r.end,
                r.generated,
            )
        })
        .collect()
}

#[test]
fn overlapping_buffers_merge() {
    let events = vec![
        event("M1", "WS80", "icing", "2024-03-01 10:00"),
        event("M1", "WS80", "icing", "2024-03-01 10:15"),
    ];
    let r = consolidate_exclusions(&events, 10, 7);
    assert_eq!(r.len(), 1);
    assert_eq!(r[0].start, seconds("2024-03-01 09:50"));
    assert_eq!(r[0].end, seconds("2024-03-01 10:25"));
    assert_eq!(r[0].generated, 7);
}

#[test]
fn distant_events_stay_apart() {
    let events = vec![
        event("M1", "WS80", "icing", "2024-03-01 10:00"),
        event("M1", "WS80", "icing", "2024-03-01 11:00"),
    ];
    let r = consolidate_exclusions(&events, 5, 0);
    assert_eq!(r.len(), 2);
    assert_eq!((r[0].start, r[0].end), (seconds("2024-03-01 09:55"), seconds("2024-03-01 10:05")));
    assert_eq!((r[1].start, r[1].end), (seconds("2024-03-01 10:55"), seconds("2024-03-01 11:05")));
}

#[test]
fn zero_buffer_merges_touching_and_equal() {
    let events = vec![
        event("M1", "WS80", "icing", "2024-03-01 10:00"),
        event("M1", "WS80", "icing", "2024-03-01 10:00"),
        event("M1", "WS80", "icing", "2024-03-01 10:10"),
    ];
    let r = consolidate_exclusions(&events, 0, 0);
    assert_eq!(r.len(), 2);
    assert_eq!((r[0].start, r[0].end), (seconds("2024-03-01 10:00"), seconds("2024-03-01 10:00")));
    assert_eq!((r[1].start, r[1].end), (seconds("2024-03-01 10:10"), seconds("2024-03-01 10:10")));
}

#[test]
fn touching_intervals_merge() {
    let r = merge_intervals(&vec![(10, 20), (20, 30), (31, 40)]);
    assert_eq!(r, vec![(10, 30), (31, 40)]);
}

#[test]
fn merge_of_nothing_is_empty() {
    assert!(merge_intervals(&vec![]).is_empty());
    assert!(consolidate_exclusions(&vec![], 10, 0).is_empty());
}

#[test]
fn contained_interval_keeps_outer_end() {
    let r = merge_intervals(&vec![(0, 100), (10, 20), (50, 60)]);
    assert_eq!(r, vec![(0, 100)]);
}

#[test]
fn sort_orders_by_start_then_end() {
    let r = sort_intervals(&vec![(5, 9), (1, 3), (5, 6), (-2, 0)]);
    assert_eq!(r, vec![(-2, 0), (1, 3), (5, 6), (5, 9)]);
}

#[test]
fn groups_are_kept_apart() {
    let events = vec![
        event("M1", "WS80", "icing", "2024-03-01 10:00"),
        event("M2", "WS80", "icing", "2024-03-01 10:05"),
        event("M1", "WS80", "tower shadow", "2024-03-01 10:05"),
        event("M1", "WS80", "icing", "2024-03-01 10:05"),
    ];
    let r = summary(&consolidate_exclusions(&events, 10, 3));
    assert_eq!(r.len(), 3);
    assert_eq!(
        r[0],
        (
            "M1".to_string(),
            "WS80".to_string(),
            "icing".to_string(),
            seconds("2024-03-01 09:50"),
            seconds("2024-03-01 10:15"),
            3
        )
    );
    assert_eq!(r[1].0, "M2");
    assert_eq!(r[2].2, "tower shadow");
}

#[test]
fn permuted_events_same_records() {
    let times = ["2024-03-01 10:00", "2024-03-01 12:00", "2024-03-01 10:12", "2024-03-01 11:40"];
    let forward: Vec<ExclusionEvent> = times.iter().map(|t| event("M1", "S1", "r", t)).collect();
    let backward: Vec<ExclusionEvent> = times.iter().rev().map(|t| event("M1", "S1", "r", t)).collect();
    let a = summary(&consolidate_exclusions(&forward, 15, 0));
    let b = summary(&consolidate_exclusions(&backward, 15, 0));
    assert_eq!(a, b);
    assert_eq!(a.len(), 2);
}

#[test]
fn every_event_in_exactly_one_interval() {
    let times = [
        "2024-03-01 10:00",
        "2024-03-01 10:20",
        "2024-03-01 10:41",
        "2024-03-01 13:00",
        "2024-03-01 10:30",
    ];
    let events: Vec<ExclusionEvent> = times.iter().map(|t| event("M1", "S1", "r", t)).collect();
    let r = consolidate_exclusions(&events, 5, 0);
    for w in r.windows(2) {
        assert!(w[0].end < w[1].start);
    }
    for rec in r.iter() {
        assert!(rec.start <= rec.end);
    }
    for e in events.iter() {
        let n = r.iter().filter(|rec| rec.start <= e.timestamp && e.timestamp <= rec.end).count();
        assert_eq!(n, 1);
    }
}
