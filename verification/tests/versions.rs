use yb_stats::json::{JsonMember, JsonValue};
use yb_stats::snapshot::SnapshotError;
use yb_stats::structured::ChangeKind;
use yb_stats::timestamp::Timestamp;
use yb_stats::versions::{
    add_to_version_vector, collect_versions, diff_versions, parse_version, print_version_data,
    read_version, read_version_snapshot, synthetic_version, version_field_names,
    version_from_members, versions_from_table, versions_to_table, FetchOutcome, HostFetch,
    StoredVersionData, VersionData,
};

const FULL_ANSWER: &str = r#"{
    "git_hash": "d142556567b5e1c83ea5c915ec7b9964492b2321",
    "build_hostname": "centos-gcp-cloud-jenkins-worker-emjsmd",
    "build_timestamp": "25 Jan 2022 17:51:08 UTC",
    "build_username": "jenkins",
    "build_clean_repo": true,
    "build_id": "3801",
    "build_type": "RELEASE",
    "version_number": "2.11.2.0",
    "build_number": "89"
}"#;

fn pass_time() -> Timestamp {
    Timestamp { seconds: 1643133068, nanos: 0, offset_seconds: 0 }
}

fn stored(host: &str, version: &str, build: &str, hash: &str) -> StoredVersionData {
    StoredVersionData {
        hostname_port: host.to_string(),
        timestamp: pass_time(),
        git_hash: hash.to_string(),
        build_hostname: "builder".to_string(),
        build_timestamp: "25 Jan 2022 17:51:08 UTC".to_string(),
        build_username: "jenkins".to_string(),
        build_clean_repo: "true".to_string(),
        build_id: "3801".to_string(),
        build_type: "RELEASE".to_string(),
        version_number: version.to_string(),
        build_number: build.to_string(),
        synthetic: false,
    }
}

fn assert_all_texts_empty(row: &StoredVersionData) {
    assert_eq!(row.git_hash, "");
    assert_eq!(row.build_hostname, "");
    assert_eq!(row.build_timestamp, "");
    assert_eq!(row.build_username, "");
    assert_eq!(row.build_clean_repo, "");
    assert_eq!(row.build_id, "");
    assert_eq!(row.build_type, "");
    assert_eq!(row.version_number, "");
    assert_eq!(row.build_number, "");
}

#[test]
fn parse_version_data() {
    // This is what /api/v1/version return.
    let version = FULL_ANSWER.to_string();
    let result = parse_version(version.clone());
    assert_eq!(result.git_hash, "d142556567b5e1c83ea5c915ec7b9964492b2321");
}

#[test]
fn parse_version_reads_every_member() {
    let result = parse_version(FULL_ANSWER.to_string());
    assert_eq!(result.build_hostname, "centos-gcp-cloud-jenkins-worker-emjsmd");
    assert_eq!(result.build_timestamp, "25 Jan 2022 17:51:08 UTC");
    assert_eq!(result.build_username, "jenkins");
    assert!(result.build_clean_repo);
    assert_eq!(result.build_id, "3801");
    assert_eq!(result.build_type, "RELEASE");
    assert_eq!(result.version_number, "2.11.2.0");
    assert_eq!(result.build_number, "89");
    assert!(!result.synthetic);
}

#[test]
fn parse_version_keeps_a_false_flag() {
    let result = parse_version(r#"{"build_clean_repo": false, "git_hash": "x"}"#.to_string());
    assert!(!result.build_clean_repo);
    assert_eq!(result.git_hash, "x");
    assert!(!result.synthetic);
}

#[test]
fn parse_version_of_empty_body_is_synthetic() {
    let result = parse_version(String::new());
    assert!(result.synthetic);
    assert_eq!(result.git_hash, "");
    assert_eq!(result.version_number, "");
    assert!(result.build_clean_repo);
}

#[test]
fn parse_version_of_broken_json_is_synthetic() {
    let result = parse_version(r#"{"git_hash": "abc""#.to_string());
    assert!(result.synthetic);
    assert_eq!(result.git_hash, "");
}

#[test]
fn parse_version_of_json_that_is_no_object_is_synthetic() {
    assert!(parse_version("[1, 2]".to_string()).synthetic);
    assert!(parse_version("null".to_string()).synthetic);
    assert!(parse_version("\"abc\"".to_string()).synthetic);
}

#[test]
fn parse_version_with_member_of_wrong_type_is_synthetic() {
    let result = parse_version(r#"{"git_hash": 5, "version_number": "2.11.2.0"}"#.to_string());
    assert!(result.synthetic);
    assert_eq!(result.version_number, "");
    let result = parse_version(r#"{"build_clean_repo": "yes"}"#.to_string());
    assert!(result.synthetic);
}

#[test]
fn parse_version_ignores_members_it_does_not_know() {
    let result = parse_version(r#"{"git_hash": "abc", "extra": [1, 2, 3]}"#.to_string());
    assert!(!result.synthetic);
    assert_eq!(result.git_hash, "abc");
}

#[test]
fn version_from_members_takes_the_first_member_of_a_name() {
    let members = vec![
        JsonMember { name: "git_hash".to_string(), value: JsonValue::Text("first".to_string()) },
        JsonMember { name: "git_hash".to_string(), value: JsonValue::Text("second".to_string()) },
        JsonMember { name: "build_clean_repo".to_string(), value: JsonValue::Flag(false) },
    ];
    let record = version_from_members(&members);
    assert_eq!(record.git_hash, "first");
    assert!(!record.build_clean_repo);
    assert!(!record.synthetic);
}

#[test]
fn version_from_members_rejects_a_value_of_another_kind() {
    let members =
        vec![JsonMember { name: "build_id".to_string(), value: JsonValue::Other }];
    assert!(version_from_members(&members).synthetic);
}

#[test]
fn read_version_of_a_silent_host_is_synthetic() {
    for outcome in [FetchOutcome::Unreachable, FetchOutcome::Failed] {
        let record = read_version(&outcome);
        assert!(record.synthetic);
        assert_eq!(record.git_hash, "");
        assert_eq!(record.build_number, "");
    }
}

#[test]
fn read_version_parses_the_body() {
    let record = read_version(&FetchOutcome::Body(FULL_ANSWER.to_string()));
    assert!(!record.synthetic);
    assert_eq!(record.version_number, "2.11.2.0");
}

#[test]
fn add_to_version_vector_appends_the_flattened_record() {
    let mut rows = vec![stored("10.0.0.9:7000", "1.0", "1", "old")];
    let record = parse_version(FULL_ANSWER.to_string());
    add_to_version_vector(record, "10.0.0.1:7000", pass_time(), &mut rows);
    assert_eq!(rows.len(), 2);
    assert_eq!(rows[0].hostname_port, "10.0.0.9:7000");
    let row = &rows[1];
    assert_eq!(row.hostname_port, "10.0.0.1:7000");
    assert_eq!(row.timestamp, pass_time());
    assert_eq!(row.git_hash, "d142556567b5e1c83ea5c915ec7b9964492b2321");
    assert_eq!(row.build_clean_repo, "true");
    assert_eq!(row.build_type, "RELEASE");
    assert!(!row.synthetic);
}

#[test]
fn add_to_version_vector_writes_a_false_flag() {
    let mut rows = Vec::new();
    let mut record = parse_version(FULL_ANSWER.to_string());
    record.build_clean_repo = false;
    add_to_version_vector(record, "h:1", pass_time(), &mut rows);
    assert_eq!(rows[0].build_clean_repo, "false");
}

#[test]
fn synthetic_record_flattens_to_empty_texts() {
    let mut rows = Vec::new();
    add_to_version_vector(synthetic_version(), "10.0.0.2:7000", pass_time(), &mut rows);
    assert_eq!(rows[0].hostname_port, "10.0.0.2:7000");
    assert!(rows[0].synthetic);
    assert_all_texts_empty(&rows[0]);
}

#[test]
fn end_to_end_pass_over_two_hosts() {
    let fetches = vec![
        HostFetch {
            hostname_port: "10.0.0.1:7000".to_string(),
            outcome: FetchOutcome::Body(
                r#"{"git_hash":"abc","version_number":"2.11.2.0","build_number":"89"}"#
                    .to_string(),
            ),
        },
        HostFetch { hostname_port: "10.0.0.2:7000".to_string(), outcome: FetchOutcome::Unreachable },
    ];
    let rows = collect_versions(&fetches, pass_time());
    assert_eq!(rows.len(), 2);
    assert_eq!(rows[0].hostname_port, "10.0.0.1:7000");
    assert_eq!(rows[0].version_number, "2.11.2.0");
    assert_eq!(rows[0].build_number, "89");
    assert_eq!(rows[0].git_hash, "abc");
    assert!(!rows[0].synthetic);
    assert_eq!(rows[0].timestamp, pass_time());
    assert_eq!(rows[1].hostname_port, "10.0.0.2:7000");
    assert!(rows[1].synthetic);
    assert_all_texts_empty(&rows[1]);
    assert_eq!(rows[1].timestamp, pass_time());
}

#[test]
fn every_unreachable_host_gets_its_synthetic_row() {
    let fetches = vec![
        HostFetch { hostname_port: "a:7000".to_string(), outcome: FetchOutcome::Unreachable },
        HostFetch { hostname_port: "b:7000".to_string(), outcome: FetchOutcome::Failed },
        HostFetch {
            hostname_port: "c:7000".to_string(),
            outcome: FetchOutcome::Body("not json".to_string()),
        },
    ];
    let rows = collect_versions(&fetches, pass_time());
    assert_eq!(rows.len(), 3);
    for (row, fetch) in rows.iter().zip(fetches.iter()) {
        assert_eq!(row.hostname_port, fetch.hostname_port);
        assert!(row.synthetic);
        assert_all_texts_empty(row);
    }
}

#[test]
fn collect_versions_of_no_hosts_is_empty() {
    assert!(collect_versions(&Vec::new(), pass_time()).is_empty());
}

#[test]
fn version_table_has_title_and_one_line_per_host() {
    let rows = vec![
        stored("10.0.0.1:7000", "2.11.2.0", "89", "abc"),
        stored("10.0.0.2:7000", "2.11.2.0", "89", "abc"),
    ];
    let lines = print_version_data(&rows, ".*").unwrap();
    assert_eq!(lines.len(), 3);
    assert_eq!(
        lines[0],
        format!(
            "{:20} {:15} {:10} {:10} {:24} {:10}",
            "hostname_port",
            "version_number",
            "build_nr",
            "build_type",
            "build_timestamp",
            "git_hash"
        )
    );
    assert_eq!(
        lines[1],
        "10.0.0.1:7000        2.11.2.0        89         RELEASE    25 Jan 2022 17:51:08 UTC abc       "
    );
    assert_eq!(
        lines[2],
        format!(
            "{:20} {:15} {:10} {:10} {:24} {:10}",
            "10.0.0.2:7000", "2.11.2.0", "89", "RELEASE", "25 Jan 2022 17:51:08 UTC", "abc"
        )
    );
}

#[test]
fn version_table_does_not_cut_long_texts() {
    let hash = "d142556567b5e1c83ea5c915ec7b9964492b2321";
    let rows = vec![stored("a-very-long-hostname.example.com:7000", "2.11.2.0", "89", hash)];
    let lines = print_version_data(&rows, ".*").unwrap();
    assert_eq!(
        lines[1],
        format!(
            "{:20} {:15} {:10} {:10} {:24} {:10}",
            "a-very-long-hostname.example.com:7000",
            "2.11.2.0",
            "89",
            "RELEASE",
            "25 Jan 2022 17:51:08 UTC",
            hash
        )
    );
}

#[test]
fn version_table_is_narrowed_by_the_filter() {
    let rows = vec![
        stored("10.0.0.1:7000", "2.11.2.0", "89", "abc"),
        stored("10.0.0.2:7000", "2.13.0.0", "21", "def"),
        stored("10.0.0.3:9000", "2.13.0.0", "21", "def"),
    ];
    let lines = print_version_data(&rows, ":7000$").unwrap();
    assert_eq!(lines.len(), 3);
    assert!(lines[1].starts_with("10.0.0.1:7000 "));
    assert!(lines[2].starts_with("10.0.0.2:7000 "));
    assert_eq!(rows.len(), 3);
}

#[test]
fn filter_that_matches_no_host_gives_an_empty_report() {
    let rows = vec![
        stored("10.0.0.1:7000", "2.11.2.0", "89", "abc"),
        stored("10.0.0.2:7000", "2.13.0.0", "21", "def"),
    ];
    let lines = print_version_data(&rows, "^192\\.168\\.").unwrap();
    assert_eq!(lines.len(), 1);
    assert!(lines[0].starts_with("hostname_port"));
}

#[test]
fn version_table_refuses_a_broken_filter() {
    let rows = vec![stored("10.0.0.1:7000", "2.11.2.0", "89", "abc")];
    assert!(print_version_data(&rows, "(").is_none());
    assert!(print_version_data(&Vec::new(), "[").is_none());
}

const STORED_HEADER: &str = "hostname_port,timestamp,git_hash,build_hostname,build_timestamp,build_username,build_clean_repo,build_id,build_type,version_number,build_number,synthetic";

#[test]
fn read_version_snapshot_reads_every_row() {
    let content = format!(
        "{}\n{}\n{}\n",
        STORED_HEADER,
        "10.0.0.1:7000,2022-01-25T17:51:08+00:00,abc,builder,25 Jan 2022 17:51:08 UTC,jenkins,true,3801,RELEASE,2.11.2.0,89,false",
        "10.0.0.2:7000,2022-01-25T18:51:08.5+01:00,,,,,,,,,,true"
    );
    let rows = read_version_snapshot(&content).unwrap();
    assert_eq!(rows.len(), 2);
    assert_eq!(rows[0].hostname_port, "10.0.0.1:7000");
    assert_eq!(rows[0].timestamp, pass_time());
    assert_eq!(rows[0].git_hash, "abc");
    assert_eq!(rows[0].build_hostname, "builder");
    assert_eq!(rows[0].build_timestamp, "25 Jan 2022 17:51:08 UTC");
    assert_eq!(rows[0].build_username, "jenkins");
    assert_eq!(rows[0].build_clean_repo, "true");
    assert_eq!(rows[0].build_id, "3801");
    assert_eq!(rows[0].build_type, "RELEASE");
    assert_eq!(rows[0].version_number, "2.11.2.0");
    assert_eq!(rows[0].build_number, "89");
    assert!(!rows[0].synthetic);
    assert_eq!(
        rows[1].timestamp,
        Timestamp { seconds: 1643133068, nanos: 500_000_000, offset_seconds: 3600 }
    );
    assert!(rows[1].synthetic);
    assert_all_texts_empty(&rows[1]);
}

#[test]
fn read_version_snapshot_finds_columns_by_name() {
    let content = "synthetic,git_hash,hostname_port,timestamp,build_hostname,build_timestamp,build_username,build_clean_repo,build_id,build_type,version_number,build_number,extra\n\
                   false,abc,10.0.0.1:7000,2022-01-25T17:51:08Z,b,t,u,false,1,DEBUG,2.0,7,ignored\n";
    let rows = read_version_snapshot(content).unwrap();
    assert_eq!(rows.len(), 1);
    assert_eq!(rows[0].hostname_port, "10.0.0.1:7000");
    assert_eq!(rows[0].git_hash, "abc");
    assert_eq!(rows[0].build_clean_repo, "false");
    assert_eq!(rows[0].build_type, "DEBUG");
    assert_eq!(rows[0].build_number, "7");
    assert_eq!(rows[0].timestamp, pass_time());
}

#[test]
fn read_version_snapshot_of_empty_content_is_the_empty_set() {
    assert!(read_version_snapshot("").unwrap().is_empty());
    assert!(read_version_snapshot(&format!("{}\n", STORED_HEADER)).unwrap().is_empty());
}

#[test]
fn read_version_snapshot_reports_a_missing_column() {
    let content = "hostname_port,timestamp,git_hash\n10.0.0.1:7000,2022-01-25T17:51:08Z,abc\n";
    assert_eq!(read_version_snapshot(content).unwrap_err(), SnapshotError::Corrupt);
}

#[test]
fn read_version_snapshot_never_gives_a_part_of_a_set() {
    let good = "10.0.0.1:7000,2022-01-25T17:51:08+00:00,abc,builder,t,jenkins,true,3801,RELEASE,2.11.2.0,89,false";
    let bad_time = "10.0.0.2:7000,yesterday,abc,builder,t,jenkins,true,3801,RELEASE,2.11.2.0,89,false";
    let bad_mark = "10.0.0.2:7000,2022-01-25T17:51:08+00:00,abc,builder,t,jenkins,true,3801,RELEASE,2.11.2.0,89,maybe";
    let short = "10.0.0.2:7000,2022-01-25T17:51:08+00:00,abc";
    for bad in [bad_time, bad_mark, short] {
        let content = format!("{}\n{}\n{}\n", STORED_HEADER, good, bad);
        assert_eq!(read_version_snapshot(&content).unwrap_err(), SnapshotError::Corrupt);
    }
}

#[test]
fn versions_from_table_checks_the_width_of_each_row() {
    let header = version_field_names();
    let mut row: Vec<String> = vec![
        "h:1", "2022-01-25T17:51:08Z", "", "", "", "", "", "", "", "", "", "false",
    ]
    .into_iter()
    .map(String::from)
    .collect();
    assert_eq!(versions_from_table(&vec![header.clone(), row.clone()]).unwrap().len(), 1);
    row.push("one too many".to_string());
    assert!(versions_from_table(&vec![header, row]).is_none());
}

#[test]
fn versions_to_table_writes_title_and_rows() {
    let mut rows = vec![stored("10.0.0.1:7000", "2.11.2.0", "89", "abc")];
    rows[0].timestamp = Timestamp { seconds: 1643133068, nanos: 0, offset_seconds: 3600 };
    let table = versions_to_table(&rows).unwrap();
    assert_eq!(table.len(), 2);
    assert_eq!(table[0].join(","), STORED_HEADER);
    assert_eq!(
        table[1],
        vec![
            "10.0.0.1:7000",
            "2022-01-25T18:51:08+01:00",
            "abc",
            "builder",
            "25 Jan 2022 17:51:08 UTC",
            "jenkins",
            "true",
            "3801",
            "RELEASE",
            "2.11.2.0",
            "89",
            "false"
        ]
    );
}

#[test]
fn versions_to_table_stores_a_set_whole_or_not_at_all() {
    let mut rows = vec![
        stored("10.0.0.1:7000", "2.11.2.0", "89", "abc"),
        stored("10.0.0.2:7000", "2.11.2.0", "89", "abc"),
    ];
    rows[1].timestamp = Timestamp { seconds: 0, nanos: 0, offset_seconds: 100_000 };
    assert!(versions_to_table(&rows).is_none());
    assert_eq!(versions_to_table(&Vec::new()).unwrap().len(), 1);
}

#[test]
fn stored_set_survives_writing_and_reading() {
    let mut rows = vec![
        stored("10.0.0.1:7000", "2.11.2.0", "89", "abc"),
        stored("10.0.0.2:7000", "with, comma", "with \"quotes\"", "def"),
    ];
    add_to_version_vector(synthetic_version(), "10.0.0.3:7000", pass_time(), &mut rows);
    let table = versions_to_table(&rows).unwrap();
    let mut writer = csv::Writer::from_writer(Vec::new());
    for row in &table {
        writer.write_record(row).unwrap();
    }
    let content = String::from_utf8(writer.into_inner().unwrap()).unwrap();
    let read = read_version_snapshot(&content).unwrap();
    assert_eq!(read.len(), rows.len());
    for (a, b) in read.iter().zip(rows.iter()) {
        assert_eq!(a.hostname_port, b.hostname_port);
        assert_eq!(a.timestamp, b.timestamp);
        assert_eq!(a.git_hash, b.git_hash);
        assert_eq!(a.build_clean_repo, b.build_clean_repo);
        assert_eq!(a.version_number, b.version_number);
        assert_eq!(a.build_number, b.build_number);
        assert_eq!(a.synthetic, b.synthetic);
    }
}

#[test]
fn diff_versions_reports_an_upgraded_node() {
    let begin = vec![
        stored("10.0.0.1:7000", "2.11.2.0", "89", "abc"),
        stored("10.0.0.2:7000", "2.11.2.0", "89", "abc"),
    ];
    let end = vec![
        stored("10.0.0.1:7000", "2.11.2.0", "89", "abc"),
        stored("10.0.0.2:7000", "2.13.0.0", "21", "def"),
    ];
    let changes = diff_versions(&begin, &end);
    assert_eq!(changes.len(), 1);
    assert_eq!(changes[0].key, "10.0.0.2:7000");
    assert_eq!(changes[0].kind, ChangeKind::Changed);
    assert_eq!(changes[0].begin[0], "abc");
    assert_eq!(changes[0].end[0], "def");
    assert_eq!(changes[0].begin[7], "2.11.2.0");
    assert_eq!(changes[0].end[7], "2.13.0.0");
    assert_eq!(changes[0].end.len(), 10);
}

#[test]
fn diff_versions_ignores_the_time_of_the_pass() {
    let begin = vec![stored("10.0.0.1:7000", "2.11.2.0", "89", "abc")];
    let mut end = vec![stored("10.0.0.1:7000", "2.11.2.0", "89", "abc")];
    end[0].timestamp = Timestamp { seconds: 1643133128, nanos: 0, offset_seconds: 0 };
    assert!(diff_versions(&begin, &end).is_empty());
}

#[test]
fn diff_versions_tells_a_silent_node_from_an_empty_answer() {
    let mut answered = stored("10.0.0.1:7000", "", "", "");
    answered.build_hostname = String::new();
    answered.build_timestamp = String::new();
    answered.build_username = String::new();
    answered.build_clean_repo = String::new();
    answered.build_id = String::new();
    answered.build_type = String::new();
    let mut silent = Vec::new();
    add_to_version_vector(synthetic_version(), "10.0.0.1:7000", pass_time(), &mut silent);
    let changes = diff_versions(&vec![answered], &silent);
    assert_eq!(changes.len(), 1);
    assert_eq!(changes[0].kind, ChangeKind::Changed);
    assert_eq!(changes[0].begin[9], "false");
    assert_eq!(changes[0].end[9], "true");
}

#[test]
fn version_data_can_be_built_by_hand() {
    let record = VersionData {
        git_hash: "abc".to_string(),
        build_hostname: String::new(),
        build_timestamp: String::new(),
        build_username: String::new(),
        build_clean_repo: true,
        build_id: String::new(),
        build_type: String::new(),
        version_number: "1".to_string(),
        build_number: "2".to_string(),
        synthetic: false,
    };
    let mut rows = Vec::new();
    add_to_version_vector(record, "h:1", pass_time(), &mut rows);
    assert_eq!(rows[0].git_hash, "abc");
    assert_eq!(rows[0].build_clean_repo, "true");
}
