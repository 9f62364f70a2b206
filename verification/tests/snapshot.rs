use yb_stats::snapshot::{
    check_diff_order, check_diff_request, load_versions, Catalog, CatalogEntry, RequestError,
    SnapshotError,
};
use yb_stats::timestamp::{elapsed_millis, timestamp_from_text, timestamp_to_text, Timestamp};

fn at(seconds: i64) -> Timestamp {
    Timestamp { seconds, nanos: 0, offset_seconds: 0 }
}

fn entry(number: i32) -> CatalogEntry {
    CatalogEntry { number, timestamp: at(1000 + number as i64), comment: String::new() }
}

fn catalog_of(numbers: &[i32]) -> Catalog {
    Catalog::from_entries(numbers.iter().map(|n| entry(*n)).collect()).unwrap()
}

const ONE_ROW: &str = "hostname_port,timestamp,git_hash,build_hostname,build_timestamp,build_username,build_clean_repo,build_id,build_type,version_number,build_number,synthetic\n\
                       10.0.0.1:7000,2022-01-25T17:51:08Z,abc,b,t,u,true,1,RELEASE,2.11.2.0,89,false\n";

#[test]
fn begin_snapshot_counts_up_from_zero() {
    let mut catalog = Catalog::new();
    assert_eq!(catalog.begin_snapshot(at(10), "first"), Some(0));
    assert_eq!(catalog.begin_snapshot(at(20), ""), Some(1));
    assert_eq!(catalog.begin_snapshot(at(30), "third"), Some(2));
    let entries = catalog.list_snapshots();
    assert_eq!(entries.len(), 3);
    assert_eq!(entries[0].number, 0);
    assert_eq!(entries[0].timestamp, at(10));
    assert_eq!(entries[0].comment, "first");
    assert_eq!(entries[1].number, 1);
    assert_eq!(entries[1].comment, "");
    assert_eq!(entries[2].number, 2);
    assert_eq!(entries[2].timestamp, at(30));
    assert_eq!(entries[2].comment, "third");
}

#[test]
fn begin_snapshot_many_times_leaves_no_gap() {
    let mut catalog = catalog_of(&[0, 1, 5]);
    let mut numbers = Vec::new();
    for _ in 0..100 {
        numbers.push(catalog.begin_snapshot(at(0), "").unwrap());
    }
    let expected: Vec<i32> = (6..106).collect();
    assert_eq!(numbers, expected);
    assert_eq!(catalog.list_snapshots().len(), 103);
}

#[test]
fn begin_snapshot_follows_the_highest_number() {
    let mut catalog = catalog_of(&[3, 7, 41]);
    assert_eq!(catalog.begin_snapshot(at(0), "next"), Some(42));
    let entries = catalog.list_snapshots();
    let numbers: Vec<i32> = entries.iter().map(|e| e.number).collect();
    assert_eq!(numbers, vec![3, 7, 41, 42]);
}

#[test]
fn begin_snapshot_stops_when_the_numbers_run_out() {
    let mut catalog = catalog_of(&[i32::MAX - 1]);
    assert_eq!(catalog.begin_snapshot(at(0), ""), Some(i32::MAX));
    assert_eq!(catalog.begin_snapshot(at(0), ""), None);
    assert_eq!(catalog.list_snapshots().len(), 2);
}

#[test]
fn list_snapshots_of_a_new_catalog_is_empty() {
    assert!(Catalog::new().list_snapshots().is_empty());
}

#[test]
fn catalog_takes_entries_in_the_order_of_their_numbers_only() {
    assert!(Catalog::from_entries(Vec::new()).is_some());
    assert!(Catalog::from_entries(vec![entry(0), entry(1), entry(2)]).is_some());
    assert!(Catalog::from_entries(vec![entry(0), entry(2), entry(1)]).is_none());
    assert!(Catalog::from_entries(vec![entry(1), entry(1)]).is_none());
    assert!(Catalog::from_entries(vec![entry(-1), entry(0)]).is_none());
}

#[test]
fn catalog_finds_a_snapshot_by_its_number() {
    let catalog = catalog_of(&[0, 1, 5]);
    assert!(catalog.contains(5));
    assert!(!catalog.contains(2));
    assert!(!catalog.contains(-1));
    let found = catalog.find_snapshot(1).unwrap();
    assert_eq!(found.number, 1);
    assert_eq!(found.timestamp, at(1001));
    assert!(catalog.find_snapshot(4).is_none());
}

#[test]
fn diff_request_needs_begin_before_end() {
    assert_eq!(check_diff_order(1, 2), Ok(()));
    assert_eq!(check_diff_order(2, 2), Err(RequestError::BeginNotBeforeEnd));
    assert_eq!(check_diff_order(3, 2), Err(RequestError::BeginNotBeforeEnd));
    let catalog = catalog_of(&[0, 1, 2]);
    assert_eq!(check_diff_request(&catalog, 1, 1), Err(RequestError::BeginNotBeforeEnd));
    assert_eq!(check_diff_request(&catalog, 2, 0), Err(RequestError::BeginNotBeforeEnd));
    assert_eq!(check_diff_request(&catalog, 9, 8), Err(RequestError::BeginNotBeforeEnd));
}

#[test]
fn diff_request_needs_both_snapshots_in_the_catalog() {
    let catalog = catalog_of(&[0, 1, 2]);
    assert_eq!(check_diff_request(&catalog, 0, 2), Ok(()));
    assert_eq!(check_diff_request(&catalog, 0, 3), Err(RequestError::UnknownSnapshot));
    assert_eq!(check_diff_request(&catalog, -1, 2), Err(RequestError::UnknownSnapshot));
    assert_eq!(check_diff_request(&Catalog::new(), 0, 1), Err(RequestError::UnknownSnapshot));
}

#[test]
fn load_gives_the_whole_record_set() {
    let catalog = catalog_of(&[0, 1]);
    let rows = load_versions(&catalog, 1, Some(ONE_ROW)).unwrap();
    assert_eq!(rows.len(), 1);
    assert_eq!(rows[0].hostname_port, "10.0.0.1:7000");
    assert_eq!(rows[0].version_number, "2.11.2.0");
}

#[test]
fn load_of_an_unknown_number_or_kind_is_not_found() {
    let catalog = catalog_of(&[0, 1]);
    assert_eq!(load_versions(&catalog, 2, Some(ONE_ROW)).unwrap_err(), SnapshotError::NotFound);
    assert_eq!(load_versions(&catalog, 1, None).unwrap_err(), SnapshotError::NotFound);
    assert_eq!(load_versions(&catalog, 2, Some("broken")).unwrap_err(), SnapshotError::NotFound);
}

#[test]
fn load_of_unreadable_content_is_corrupt() {
    let catalog = catalog_of(&[0, 1]);
    assert_eq!(load_versions(&catalog, 1, Some("broken\n")).unwrap_err(), SnapshotError::Corrupt);
    let uneven = "a,b\n1,2,3\n";
    assert_eq!(load_versions(&catalog, 0, Some(uneven)).unwrap_err(), SnapshotError::Corrupt);
}

#[test]
fn elapsed_millis_rounds_down() {
    assert_eq!(elapsed_millis(at(10), at(70)), 60_000);
    assert_eq!(elapsed_millis(at(70), at(10)), -60_000);
    assert_eq!(elapsed_millis(at(10), at(10)), 0);
    let a = Timestamp { seconds: 1, nanos: 999_999, offset_seconds: 0 };
    let b = Timestamp { seconds: 1, nanos: 2_500_000, offset_seconds: 7200 };
    assert_eq!(elapsed_millis(a, b), 1);
    assert_eq!(elapsed_millis(b, a), -2);
    assert_eq!(elapsed_millis(at(0), Timestamp { seconds: 0, nanos: 999_999, offset_seconds: 0 }), 0);
}

#[test]
fn elapsed_millis_of_the_widest_span_fits() {
    let low = Timestamp { seconds: i64::MIN, nanos: 0, offset_seconds: 0 };
    let high = Timestamp { seconds: i64::MAX, nanos: u32::MAX, offset_seconds: 0 };
    let span: i128 = (i64::MAX as i128 - i64::MIN as i128) * 1000 + 4294;
    assert_eq!(elapsed_millis(low, high), span);
    assert_eq!(elapsed_millis(high, low), -span - 1);
}

#[test]
fn elapsed_millis_does_not_depend_on_the_offset() {
    let utc = Timestamp { seconds: 100, nanos: 0, offset_seconds: 0 };
    let east = Timestamp { seconds: 100, nanos: 0, offset_seconds: 3600 };
    assert_eq!(elapsed_millis(utc, east), 0);
}

#[test]
fn timestamp_is_read_from_rfc3339() {
    assert_eq!(
        timestamp_from_text("2022-01-25T17:51:08Z"),
        Some(Timestamp { seconds: 1643133068, nanos: 0, offset_seconds: 0 })
    );
    assert_eq!(
        timestamp_from_text("2022-01-25T18:51:08.123456789+01:00"),
        Some(Timestamp { seconds: 1643133068, nanos: 123_456_789, offset_seconds: 3600 })
    );
    assert_eq!(
        timestamp_from_text("1969-12-31T19:00:00-05:00"),
        Some(Timestamp { seconds: 0, nanos: 0, offset_seconds: -18000 })
    );
    assert_eq!(timestamp_from_text("2022-01-25 17:51"), None);
    assert_eq!(timestamp_from_text(""), None);
}

#[test]
fn timestamp_is_written_as_rfc3339() {
    assert_eq!(
        timestamp_to_text(Timestamp { seconds: 1643133068, nanos: 0, offset_seconds: 3600 }),
        Some("2022-01-25T18:51:08+01:00".to_string())
    );
    assert_eq!(
        timestamp_to_text(Timestamp { seconds: 0, nanos: 500_000_000, offset_seconds: 0 }),
        Some("1970-01-01T00:00:00.500+00:00".to_string())
    );
    assert_eq!(
        timestamp_to_text(Timestamp { seconds: 0, nanos: 0, offset_seconds: 86_400 }),
        None
    );
    assert_eq!(
        timestamp_to_text(Timestamp { seconds: i64::MAX, nanos: 0, offset_seconds: 0 }),
        None
    );
}

#[test]
fn timestamp_survives_writing_and_reading() {
    let time = Timestamp { seconds: 1643133068, nanos: 42, offset_seconds: -3600 };
    let text = timestamp_to_text(time).unwrap();
    assert_eq!(timestamp_from_text(&text), Some(time));
}
