use yb_stats::hostfilter::{hostname_matches, is_valid_filter};
use yb_stats::options::{select_operation, Operation, Opts};
use yb_stats::resolver::{join_endpoint, resolve_endpoints};
use yb_stats::text::{
    find_text, flag_from_str, flag_to_string, locate_columns, pad_right, split_commas, str_equal,
};

fn strings(items: &[&str]) -> Vec<String> {
    items.iter().map(|s| s.to_string()).collect()
}

#[test]
fn work_list_is_every_host_with_every_port() {
    let list = resolve_endpoints(
        "192.168.66.80,192.168.66.81,192.168.66.82",
        "7000,9000,12000,13000",
        ".*",
    )
    .unwrap();
    assert_eq!(
        list,
        strings(&[
            "192.168.66.80:7000",
            "192.168.66.80:9000",
            "192.168.66.80:12000",
            "192.168.66.80:13000",
            "192.168.66.81:7000",
            "192.168.66.81:9000",
            "192.168.66.81:12000",
            "192.168.66.81:13000",
            "192.168.66.82:7000",
            "192.168.66.82:9000",
            "192.168.66.82:12000",
            "192.168.66.82:13000",
        ])
    );
}

#[test]
fn work_list_is_narrowed_by_the_filter() {
    let list = resolve_endpoints("h1,h2,h3", "7000,9000", "h[13]:9").unwrap();
    assert_eq!(list, strings(&["h1:9000", "h3:9000"]));
}

#[test]
fn filter_that_matches_nothing_gives_an_empty_work_list() {
    let list = resolve_endpoints("h1,h2", "7000,9000", "^nothing$");
    assert_eq!(list, Some(Vec::new()));
}

#[test]
fn work_list_refuses_a_broken_filter() {
    assert_eq!(resolve_endpoints("h1,h2", "7000", "h(1"), None);
    assert_eq!(resolve_endpoints("", "", "*"), None);
}

#[test]
fn work_list_of_one_host_and_one_port() {
    assert_eq!(resolve_endpoints("localhost", "7000", "").unwrap(), strings(&["localhost:7000"]));
    assert_eq!(resolve_endpoints("", "", ".*").unwrap(), strings(&[":"]));
}

#[test]
fn join_endpoint_puts_a_colon_between() {
    assert_eq!(join_endpoint("10.0.0.1", "7000"), "10.0.0.1:7000");
    assert_eq!(join_endpoint("", ""), ":");
}

#[test]
fn split_commas_cuts_at_each_comma() {
    assert_eq!(split_commas("a,b"), strings(&["a", "b"]));
    assert_eq!(split_commas("abc"), strings(&["abc"]));
    assert_eq!(split_commas(""), strings(&[""]));
    assert_eq!(split_commas("a,,b"), strings(&["a", "", "b"]));
    assert_eq!(split_commas("a,"), strings(&["a", ""]));
    assert_eq!(split_commas(","), strings(&["", ""]));
    assert_eq!(split_commas("h\u{e9},\u{4e16}\u{754c}"), strings(&["h\u{e9}", "\u{4e16}\u{754c}"]));
}

#[test]
fn split_commas_agrees_with_the_standard_split() {
    for list in ["", "a", "a,b,c", ",,", "a,,b,", "192.168.66.80,192.168.66.81"] {
        let expected: Vec<String> = list.split(',').map(String::from).collect();
        assert_eq!(split_commas(list), expected);
        assert_eq!(split_commas(list).join(","), list);
    }
}

#[test]
fn pad_right_fills_up_to_the_width() {
    assert_eq!(pad_right("ab", 4), "ab  ");
    assert_eq!(pad_right("abcd", 4), "abcd");
    assert_eq!(pad_right("abcdef", 4), "abcdef");
    assert_eq!(pad_right("", 3), "   ");
    assert_eq!(pad_right("", 0), "");
    assert_eq!(pad_right("h\u{e9}", 4), "h\u{e9}  ");
    assert_eq!(pad_right("abc", 10), format!("{:10}", "abc"));
}

#[test]
fn flags_are_written_and_read_as_words() {
    assert_eq!(flag_to_string(true), "true");
    assert_eq!(flag_to_string(false), "false");
    assert_eq!(flag_from_str("true"), Some(true));
    assert_eq!(flag_from_str("false"), Some(false));
    assert_eq!(flag_from_str("True"), None);
    assert_eq!(flag_from_str(""), None);
    assert_eq!(flag_from_str("1"), None);
}

#[test]
fn str_equal_compares_character_by_character() {
    assert!(str_equal("", ""));
    assert!(str_equal("abc", "abc"));
    assert!(!str_equal("abc", "abd"));
    assert!(!str_equal("abc", "ab"));
    assert!(!str_equal("\u{e9}", "e"));
}

#[test]
fn find_text_gives_the_first_place() {
    let names = strings(&["a", "b", "a", "c"]);
    assert_eq!(find_text(&names, "a"), Some(0));
    assert_eq!(find_text(&names, "c"), Some(3));
    assert_eq!(find_text(&names, "d"), None);
    assert_eq!(find_text(&Vec::new(), "a"), None);
}

#[test]
fn locate_columns_needs_every_name() {
    let header = strings(&["c", "a", "b", "a"]);
    assert_eq!(locate_columns(&header, &strings(&["a", "b", "c"])), Some(vec![1, 2, 0]));
    assert_eq!(locate_columns(&header, &strings(&["a", "x"])), None);
    assert_eq!(locate_columns(&header, &Vec::new()), Some(Vec::new()));
}

#[test]
fn hostname_filter_is_a_regular_expression() {
    assert_eq!(hostname_matches("^10\\.0\\.0\\.[12]:", "10.0.0.1:7000"), Some(true));
    assert_eq!(hostname_matches("^10\\.0\\.0\\.[12]:", "10.0.0.3:7000"), Some(false));
    assert_eq!(hostname_matches("7000", "10.0.0.1:7000"), Some(true));
    assert_eq!(hostname_matches("", "anything"), Some(true));
    assert_eq!(hostname_matches("(", "anything"), None);
    assert!(is_valid_filter(".*"));
    assert!(!is_valid_filter("[a-"));
}

#[test]
fn without_a_switch_the_adhoc_diff_is_selected() {
    let options = Opts::default();
    assert_eq!(select_operation(&options), Operation::AdhocDiff);
    assert_eq!(options.log_severity, "WEF");
    assert_eq!(options.uuid, "");
    assert_eq!(options.sql_length, 80);
}

#[test]
fn each_switch_selects_its_operation() {
    let mut options = Opts::default();
    options.versions_diff = true;
    assert_eq!(select_operation(&options), Operation::VersionsDiff);
    let mut options = Opts::default();
    options.print_version = Some(None);
    assert_eq!(select_operation(&options), Operation::PrintVersion);
    let mut options = Opts::default();
    options.print_version = Some(Some("3".to_string()));
    assert_eq!(select_operation(&options), Operation::PrintVersion);
    let mut options = Opts::default();
    options.snapshot_list = true;
    assert_eq!(select_operation(&options), Operation::SnapshotList);
    let mut options = Opts::default();
    options.get_coloc_leader_host = Some("db".to_string());
    assert_eq!(select_operation(&options), Operation::GetColocLeaderHost);
    let mut options = Opts::default();
    options.tail_log = true;
    assert_eq!(select_operation(&options), Operation::TailLog);
}

#[test]
fn of_several_switches_the_first_in_rank_wins() {
    let mut options = Opts::default();
    options.get_coloc_leader_host = Some("db".to_string());
    options.print_tablet_detail = Some(None);
    assert_eq!(select_operation(&options), Operation::PrintTabletDetail);
    options.adhoc_metrics_diff = true;
    assert_eq!(select_operation(&options), Operation::AdhocMetricsDiff);
    options.print_version = Some(None);
    assert_eq!(select_operation(&options), Operation::PrintVersion);
    options.versions_diff = true;
    assert_eq!(select_operation(&options), Operation::VersionsDiff);
    options.snapshot_diff = true;
    assert_eq!(select_operation(&options), Operation::SnapshotDiff);
    options.snapshot = true;
    assert_eq!(select_operation(&options), Operation::Snapshot);
}

#[test]
fn settings_alone_select_nothing() {
    let mut options = Opts::default();
    options.hosts = Some("h1".to_string());
    options.gauges_enable = true;
    options.begin = Some(1);
    options.end = Some(2);
    options.hostname_match = Some("h1".to_string());
    assert_eq!(select_operation(&options), Operation::AdhocDiff);
}
