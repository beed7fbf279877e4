use data_cleaner::dataset::{
    classify_containment, convert_points, exclude_samples, extract_excluded_points,
    extract_valid_points, Curve, CurveError, Sample, Series,
};
use data_cleaner::export::exclusion_events;
use data_cleaner::geometry::Point;
use data_cleaner::names::unwrap_name;
use data_cleaner::timestamps::{is_expired, parse_calendar_date, parse_time_index, CalendarDate};

fn square() -> Vec<Point> {
    vec![Point::new(0, 0), Point::new(0, 10_000), Point::new(10_000, 10_000), Point::new(10_000, 0)]
}

#[test]
fn classify_rejects_open_or_short_curves() {
    let open = Curve { points: square(), closed: false };
    assert_eq!(classify_containment(&open, &vec![]), Err(CurveError::NotClosed));
    let short = Curve { points: vec![Point::new(0, 0), Point::new(1, 1)], closed: true };
    assert_eq!(classify_containment(&short, &vec![]), Err(CurveError::TooFewPoints));
}

#[test]
fn classify_absent_points_are_outside() {
    let curve = Curve { points: square(), closed: true };
    let points = vec![Some(Point::new(5_000, 4_000)), None, Some(Point::new(15_000, 5_000))];
    assert_eq!(classify_containment(&curve, &points), Ok(vec![true, false, false]));
}

#[test]
fn convert_points_pairs_valid_samples_only() {
    let xs = vec![Sample::Valid(1), Sample::Missing, Sample::Valid(3), Sample::Excluded(4, "r".to_string())];
    let ys = vec![Sample::Valid(10), Sample::Valid(20), Sample::Missing, Sample::Valid(40)];
    let r = convert_points(&xs, &ys);
    assert_eq!(r, vec![Some(Point::new(1, 10)), None, None, None]);
}

#[test]
fn extract_points_by_kind() {
    let xs = vec![
        Sample::Valid(1),
        Sample::Excluded(2, "a".to_string()),
        Sample::Valid(3),
        Sample::Excluded(5, "b".to_string()),
    ];
    let ys = vec![
        Sample::Valid(10),
        Sample::Excluded(20, "a".to_string()),
        Sample::Missing,
        Sample::Valid(50),
    ];
    assert_eq!(extract_valid_points(&xs, &ys), vec![Point::new(1, 10)]);
    assert_eq!(extract_excluded_points(&xs, &ys), vec![Point::new(2, 20)]);
}

#[test]
fn exclude_samples_marks_only_valid_masked() {
    let mut data = vec![Sample::Valid(1), Sample::Valid(2), Sample::Missing, Sample::Excluded(4, "old".to_string())];
    exclude_samples(&mut data, &vec![true, false, true, true], &"icing".to_string());
    assert!(matches!(&data[0], Sample::Excluded(1, r) if r == "icing"));
    assert!(matches!(&data[1], Sample::Valid(2)));
    assert!(matches!(&data[2], Sample::Missing));
    assert!(matches!(&data[3], Sample::Excluded(4, r) if r == "old"));
}

#[test]
fn unwrap_name_two_or_three_pieces() {
    assert_eq!(unwrap_name("M1~WS80"), Ok(("M1".to_string(), "WS80".to_string())));
    assert_eq!(unwrap_name("M1~WS80~avg"), Ok(("M1".to_string(), "WS80".to_string())));
    assert_eq!(unwrap_name("M1"), Err("Unsupported number of names".to_string()));
    assert!(unwrap_name("a~b~c~d").is_err());
    assert_eq!(unwrap_name("~"), Ok((String::new(), String::new())));
}

#[test]
fn time_index_parses_minutes() {
    let r = parse_time_index(&vec!["1970-01-01 00:01".to_string(), "2024-03-01 10:00".to_string()]).unwrap();
    assert_eq!(r, vec![60, 1_709_287_200]);
    assert_eq!(parse_time_index(&vec!["1970-01-01 00:00".to_string(), "bad".to_string()]), Err(1));
}

#[test]
fn calendar_dates_and_expiry() {
    let d = parse_calendar_date("2025-06-23").unwrap();
    assert_eq!(d, CalendarDate { year: 2025, month: 6, day: 23 });
    assert!(parse_calendar_date("2025-13-01").is_none());
    assert!(is_expired(CalendarDate { year: 2025, month: 6, day: 24 }, d));
    assert!(!is_expired(d, d));
    assert!(!is_expired(CalendarDate { year: 2024, month: 12, day: 31 }, d));
}

#[test]
fn events_from_series() {
    let times = parse_time_index(&vec!["2024-03-01 10:00".to_string(), "2024-03-01 10:10".to_string()]).unwrap();
    let series = vec![
        Series { name: "M1~WS80".to_string(), data: vec![Sample::Excluded(1, "icing".to_string()), Sample::Valid(2)] },
        Series { name: "bad".to_string(), data: vec![Sample::Valid(1), Sample::Missing] },
        Series { name: "M2~WD~x".to_string(), data: vec![Sample::Valid(1), Sample::Excluded(2, "shadow".to_string())] },
    ];
    let ev = exclusion_events(&series, &times).unwrap();
    assert_eq!(ev.len(), 2);
    assert_eq!((ev[0].key.mast.as_str(), ev[0].key.sensor.as_str(), ev[0].key.reason.as_str()), ("M1", "WS80", "icing"));
    assert_eq!(ev[0].timestamp, times[0]);
    assert_eq!((ev[1].key.mast.as_str(), ev[1].key.sensor.as_str(), ev[1].key.reason.as_str()), ("M2", "WD", "shadow"));
    assert_eq!(ev[1].timestamp, times[1]);

    let broken = vec![Series { name: "bad".to_string(), data: vec![Sample::Excluded(1, "r".to_string())] }];
    assert!(exclusion_events(&broken, &vec![0]).is_err());
}

#[test]
fn table_lines_and_cells() {
    let t = data_cleaner::table::split_table("time\tM1~WS\tM1~WD\r\n2024-03-01 10:00\t1.5\t200\r\n2024-03-01 10:10\t2\n").unwrap();
    assert_eq!(t.names, vec!["M1~WS".to_string(), "M1~WD".to_string()]);
    assert_eq!(t.index, vec!["2024-03-01 10:00".to_string(), "2024-03-01 10:10".to_string()]);
    assert_eq!(t.cells, vec![vec!["1.5".to_string(), "200".to_string()], vec!["2".to_string()]]);
}

#[test]
fn table_extra_cells_dropped_and_empty_file_rejected() {
    let t = data_cleaner::table::split_table("t\ta\nx\t1\t2\t3").unwrap();
    assert_eq!(t.cells, vec![vec!["1".to_string()]]);
    assert_eq!(data_cleaner::table::split_table("").err(), Some("Empty file".to_string()));
    let h = data_cleaner::table::split_table("only").unwrap();
    assert!(h.names.is_empty() && h.index.is_empty());
}
