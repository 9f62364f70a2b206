//! The `versions` endpoint kind: the build that each node runs.

use crate::csvtext::{content_of_table, csv_reading, csv_records, table_texts, table_to_content};
use crate::hostfilter::{hostname_matches, is_valid_filter, regex_matches, regex_valid};
use crate::json::{
    find_member, json_object_members, json_object_reading, member_value, member_views, JsonMember,
    JsonMemberView, JsonValue, JsonValueView,
};
use crate::text::{
    column_places, columns_found, flag_from_str, flag_reading, flag_text, flag_to_string,
    locate_columns, pad_right, padded, texts,
};
use crate::snapshot::SnapshotError;
use crate::structured::{
    change_views, diff_rows, is_diff, record_map, Row, RowChange, RowView,
};
use crate::timestamp::{
    rfc3339_reading, rfc3339_writing, timestamp_from_text, timestamp_to_text, Timestamp,
};
use vstd::prelude::*;

verus! {

/// What a node reports about its build.
#[derive(Debug, Clone)]
pub struct VersionData {
    pub git_hash: String,
    pub build_hostname: String,
    pub build_timestamp: String,
    pub build_username: String,
    pub build_clean_repo: bool,
    pub build_id: String,
    pub build_type: String,
    pub version_number: String,
    pub build_number: String,
    /// Set on a record that stands in for a node which gave no usable answer.
    pub synthetic: bool,
}

/// The mathematical value of a [`VersionData`].
pub struct VersionDataView {
    pub git_hash: Seq<char>,
    pub build_hostname: Seq<char>,
    pub build_timestamp: Seq<char>,
    pub build_username: Seq<char>,
    pub build_clean_repo: bool,
    pub build_id: Seq<char>,
    pub build_type: Seq<char>,
    pub version_number: Seq<char>,
    pub build_number: Seq<char>,
    pub synthetic: bool,
}

impl View for VersionData {
    type V = VersionDataView;

    open spec fn view(&self) -> VersionDataView {
        VersionDataView {
            git_hash: self.git_hash@,
            build_hostname: self.build_hostname@,
            build_timestamp: self.build_timestamp@,
            build_username: self.build_username@,
            build_clean_repo: self.build_clean_repo,
            build_id: self.build_id@,
            build_type: self.build_type@,
            version_number: self.version_number@,
            build_number: self.build_number@,
            synthetic: self.synthetic,
        }
    }
}

/// One row of a stored capture: a node's build, the node it came from and the
/// time of the pass.
#[derive(Debug, Clone)]
pub struct StoredVersionData {
    pub hostname_port: String,
    pub timestamp: Timestamp,
    pub git_hash: String,
    pub build_hostname: String,
    pub build_timestamp: String,
    pub build_username: String,
    pub build_clean_repo: String,
    pub build_id: String,
    pub build_type: String,
    pub version_number: String,
    pub build_number: String,
    /// Set on a row that stands in for a node which gave no usable answer.
    pub synthetic: bool,
}

/// The mathematical value of a [`StoredVersionData`].
pub struct StoredVersionView {
    pub hostname_port: Seq<char>,
    pub timestamp: Timestamp,
    pub git_hash: Seq<char>,
    pub build_hostname: Seq<char>,
    pub build_timestamp: Seq<char>,
    pub build_username: Seq<char>,
    pub build_clean_repo: Seq<char>,
    pub build_id: Seq<char>,
    pub build_type: Seq<char>,
    pub version_number: Seq<char>,
    pub build_number: Seq<char>,
    pub synthetic: bool,
}

impl View for StoredVersionData {
    type V = StoredVersionView;

    open spec fn view(&self) -> StoredVersionView {
        StoredVersionView {
            hostname_port: self.hostname_port@,
            timestamp: self.timestamp,
            git_hash: self.git_hash@,
            build_hostname: self.build_hostname@,
            build_timestamp: self.build_timestamp@,
            build_username: self.build_username@,
            build_clean_repo: self.build_clean_repo@,
            build_id: self.build_id@,
            build_type: self.build_type@,
            version_number: self.version_number@,
            build_number: self.build_number@,
            synthetic: self.synthetic,
        }
    }
}

/// The values of the rows of a record set, in order.
pub open spec fn stored_views(rows: Seq<StoredVersionData>) -> Seq<StoredVersionView> {
    Seq::new(rows.len(), |i: int| rows[i]@)
}

/// The record that stands in for a node without a usable answer: every text
/// empty, the record marked synthetic.
pub open spec fn empty_version() -> VersionDataView {
    VersionDataView {
        git_hash: Seq::empty(),
        build_hostname: Seq::empty(),
        build_timestamp: Seq::empty(),
        build_username: Seq::empty(),
        build_clean_repo: true,
        build_id: Seq::empty(),
        build_type: Seq::empty(),
        version_number: Seq::empty(),
        build_number: Seq::empty(),
        synthetic: true,
    }
}

/// Makes the record that stands in for a node without a usable answer.
pub fn synthetic_version() -> (record: VersionData)
    ensures
        record@ == empty_version(),
{
    VersionData {
        git_hash: String::new(),
        build_hostname: String::new(),
        build_timestamp: String::new(),
        build_username: String::new(),
        build_clean_repo: true,
        build_id: String::new(),
        build_type: String::new(),
        version_number: String::new(),
        build_number: String::new(),
        synthetic: true,
    }
}

/// The stored row for `record`, fetched from `hostname` in the pass taken at
/// `time`. A synthetic record leaves every text of its row empty, the flag
/// for a clean repository too.
pub open spec fn flattened(
    record: VersionDataView,
    hostname: Seq<char>,
    time: Timestamp,
) -> StoredVersionView {
    StoredVersionView {
        hostname_port: hostname,
        timestamp: time,
        git_hash: record.git_hash,
        build_hostname: record.build_hostname,
        build_timestamp: record.build_timestamp,
        build_username: record.build_username,
        build_clean_repo: if record.synthetic {
            Seq::empty()
        } else {
            flag_text(record.build_clean_repo)
        },
        build_id: record.build_id,
        build_type: record.build_type,
        version_number: record.version_number,
        build_number: record.build_number,
        synthetic: record.synthetic,
    }
}

/// Flattens `versiondata` into a stored row tagged with `hostname` and
/// `snapshot_time`, and appends the row to `stored_versiondata`.
pub fn add_to_version_vector(
    versiondata: VersionData,
    hostname: &str,
    snapshot_time: Timestamp,
    stored_versiondata: &mut Vec<StoredVersionData>,
)
    ensures
        final(stored_versiondata)@.len() == old(stored_versiondata)@.len() + 1,
        final(stored_versiondata)@.drop_last() == old(stored_versiondata)@,
        final(stored_versiondata)@.last()@ == flattened(versiondata@, hostname@, snapshot_time),
        stored_views(final(stored_versiondata)@) == stored_views(old(stored_versiondata)@).push(
            flattened(versiondata@, hostname@, snapshot_time),
        ),
{
    let clean: String = if versiondata.synthetic {
        String::new()
    } else {
        flag_to_string(versiondata.build_clean_repo)
    };
    let row = StoredVersionData {
        hostname_port: String::from_str(hostname),
        timestamp: snapshot_time,
        git_hash: versiondata.git_hash,
        build_hostname: versiondata.build_hostname,
        build_timestamp: versiondata.build_timestamp,
        build_username: versiondata.build_username,
        build_clean_repo: clean,
        build_id: versiondata.build_id,
        build_type: versiondata.build_type,
        version_number: versiondata.version_number,
        build_number: versiondata.build_number,
        synthetic: versiondata.synthetic,
    };
    stored_versiondata.push(row);
    assert(final(stored_versiondata)@.drop_last() == old(stored_versiondata)@);
}

/// One line of the version table: six columns, each padded with spaces to its
/// width, with one space between neighbours.
pub open spec fn six_columns(
    hostname_port: Seq<char>,
    version_number: Seq<char>,
    build_number: Seq<char>,
    build_type: Seq<char>,
    build_timestamp: Seq<char>,
    git_hash: Seq<char>,
) -> Seq<char> {
    padded(hostname_port, 20) + seq![' '] + padded(version_number, 15) + seq![' '] + padded(
        build_number,
        10,
    ) + seq![' '] + padded(build_type, 10) + seq![' '] + padded(build_timestamp, 24) + seq![' ']
        + padded(git_hash, 10)
}

/// The title line of the version table.
pub open spec fn version_header() -> Seq<char> {
    six_columns(
        "hostname_port"@,
        "version_number"@,
        "build_nr"@,
        "build_type"@,
        "build_timestamp"@,
        "git_hash"@,
    )
}

/// The line of the version table for `row`.
pub open spec fn version_line(row: StoredVersionView) -> Seq<char> {
    six_columns(
        row.hostname_port,
        row.version_number,
        row.build_number,
        row.build_type,
        row.build_timestamp,
        row.git_hash,
    )
}

/// The rows among `rows` whose host passes the filter `pattern`.
pub open spec fn rows_passing(rows: Seq<StoredVersionView>, pattern: Seq<char>) -> Seq<
    StoredVersionView,
> {
    rows.filter(|row: StoredVersionView| regex_matches(pattern, row.hostname_port))
}

/// The version table for `rows` under the filter `pattern`: the title line,
/// then one line for each row that passes, in the order of `rows`.
pub open spec fn version_table(rows: Seq<StoredVersionView>, pattern: Seq<char>) -> Seq<
    Seq<char>,
> {
    seq![version_header()] + rows_passing(rows, pattern).map_values(
        |row: StoredVersionView| version_line(row),
    )
}

fn table_line(a: &str, b: &str, c: &str, d: &str, e: &str, f: &str) -> (line: String)
    ensures
        line@ == six_columns(a@, b@, c@, d@, e@, f@),
{
    proof {
        reveal_strlit(" ");
        assert(" "@ == seq![' ']);
    }
    let mut line: String = pad_right(a, 20);
    line.append(" ");
    line.append(pad_right(b, 15).as_str());
    line.append(" ");
    line.append(pad_right(c, 10).as_str());
    line.append(" ");
    line.append(pad_right(d, 10).as_str());
    line.append(" ");
    line.append(pad_right(e, 24).as_str());
    line.append(" ");
    line.append(pad_right(f, 10).as_str());
    line
}

/// Renders a stored capture of the versions as a table, narrowed to the hosts
/// that pass `hostname_filter`.
///
/// `None` where `hostname_filter` is no regular expression. The filter only
/// narrows what is shown: `stored_versions` is left as it is.
pub fn print_version_data(stored_versions: &Vec<StoredVersionData>, hostname_filter: &str) -> (r:
    Option<Vec<String>>)
    ensures
        r is Some <==> regex_valid(hostname_filter@),
        r matches Some(lines) ==> texts(lines@) == version_table(
            stored_views(stored_versions@),
            hostname_filter@,
        ),
{
    if !is_valid_filter(hostname_filter) {
        return None;
    }
    let ghost rows = stored_views(stored_versions@);
    let ghost passes = |row: StoredVersionView| regex_matches(hostname_filter@, row.hostname_port);
    let ghost line_of = |row: StoredVersionView| version_line(row);
    let mut lines: Vec<String> = Vec::new();
    lines.push(
        table_line(
            "hostname_port",
            "version_number",
            "build_nr",
            "build_type",
            "build_timestamp",
            "git_hash",
        ),
    );
    proof {
        reveal(Seq::filter);
        assert(rows.take(0).filter(passes) == Seq::<StoredVersionView>::empty());
        assert(texts(lines@) == seq![version_header()] + rows.take(0).filter(passes).map_values(
            line_of,
        ));
    }
    let mut i: usize = 0;
    while i < stored_versions.len()
        invariant
            i <= stored_versions.len(),
            regex_valid(hostname_filter@),
            rows == stored_views(stored_versions@),
            passes == |row: StoredVersionView| regex_matches(hostname_filter@, row.hostname_port),
            line_of == |row: StoredVersionView| version_line(row),
            texts(lines@) == seq![version_header()] + rows.take(i as int).filter(
                passes,
            ).map_values(line_of),
        decreases stored_versions.len() - i,
    {
        let row = &stored_versions[i];
        let ghost before = rows.take(i as int);
        let ghost shown = texts(lines@);
        proof {
            assert(rows.take(i + 1) == before.push(row@));
            Seq::lemma_filter_push(before, row@, passes);
        }
        let keep: bool = match hostname_matches(hostname_filter, row.hostname_port.as_str()) {
            Some(found) => found,
            None => false,
        };
        if keep {
            lines.push(
                table_line(
                    row.hostname_port.as_str(),
                    row.version_number.as_str(),
                    row.build_number.as_str(),
                    row.build_type.as_str(),
                    row.build_timestamp.as_str(),
                    row.git_hash.as_str(),
                ),
            );
            proof {
                assert(texts(lines@) == shown.push(version_line(row@)));
                assert(before.filter(passes).push(row@).map_values(line_of) == before.filter(
                    passes,
                ).map_values(line_of).push(version_line(row@)));
            }
        }
        i = i + 1;
    }
    assert(rows.take(i as int) == rows);
    Some(lines)
}

/// The text that a record takes from the member `name` of a node's answer:
/// the member's string, nothing where the member is missing, and `None` where
/// the member is there but is no string.
pub open spec fn text_member(members: Seq<JsonMemberView>, name: Seq<char>) -> Option<Seq<char>> {
    match member_value(members, name) {
        None => Some(Seq::empty()),
        Some(JsonValueView::Text(text)) => Some(text),
        Some(_) => None,
    }
}

/// The truth value that a record takes from the member `name` of a node's
/// answer: the member's value, `true` where the member is missing, and `None`
/// where the member is there but is no boolean.
pub open spec fn flag_member(members: Seq<JsonMemberView>, name: Seq<char>) -> Option<bool> {
    match member_value(members, name) {
        None => Some(true),
        Some(JsonValueView::Flag(flag)) => Some(flag),
        Some(_) => None,
    }
}

/// Whether an answer fits the schema of the versions: each member that a
/// record reads is either missing or of the type that the record holds.
pub open spec fn fits_version_schema(members: Seq<JsonMemberView>) -> bool {
    &&& text_member(members, "git_hash"@) is Some
    &&& text_member(members, "build_hostname"@) is Some
    &&& text_member(members, "build_timestamp"@) is Some
    &&& text_member(members, "build_username"@) is Some
    &&& flag_member(members, "build_clean_repo"@) is Some
    &&& text_member(members, "build_id"@) is Some
    &&& text_member(members, "build_type"@) is Some
    &&& text_member(members, "version_number"@) is Some
    &&& text_member(members, "build_number"@) is Some
}

/// The record that the members of an answer give: member by member where the
/// answer fits the schema, the synthetic record where it does not.
pub open spec fn version_of_members(members: Seq<JsonMemberView>) -> VersionDataView {
    if fits_version_schema(members) {
        VersionDataView {
            git_hash: text_member(members, "git_hash"@)->0,
            build_hostname: text_member(members, "build_hostname"@)->0,
            build_timestamp: text_member(members, "build_timestamp"@)->0,
            build_username: text_member(members, "build_username"@)->0,
            build_clean_repo: flag_member(members, "build_clean_repo"@)->0,
            build_id: text_member(members, "build_id"@)->0,
            build_type: text_member(members, "build_type"@)->0,
            version_number: text_member(members, "version_number"@)->0,
            build_number: text_member(members, "build_number"@)->0,
            synthetic: false,
        }
    } else {
        empty_version()
    }
}

/// The record that the body of an answer gives: the synthetic record where
/// the body is no JSON object.
pub open spec fn version_of_text(body: Seq<char>) -> VersionDataView {
    match json_object_reading(body) {
        Some(members) => version_of_members(members),
        None => empty_version(),
    }
}

fn read_text_member(members: &Vec<JsonMember>, name: &str) -> (r: Option<String>)
    ensures
        match r {
            Some(text) => text_member(member_views(members@), name@) == Some(text@),
            None => text_member(member_views(members@), name@) is None,
        },
{
    match find_member(members, name) {
        None => Some(String::new()),
        Some(JsonValue::Text(text)) => Some(text.clone()),
        Some(_) => None,
    }
}

fn read_flag_member(members: &Vec<JsonMember>, name: &str) -> (r: Option<bool>)
    ensures
        r == flag_member(member_views(members@), name@),
{
    match find_member(members, name) {
        None => Some(true),
        Some(JsonValue::Flag(flag)) => Some(*flag),
        Some(_) => None,
    }
}

/// Builds the record that the members of a node's answer give.
pub fn version_from_members(members: &Vec<JsonMember>) -> (record: VersionData)
    ensures
        record@ == version_of_members(member_views(members@)),
{
    let git_hash = read_text_member(members, "git_hash");
    let build_hostname = read_text_member(members, "build_hostname");
    let build_timestamp = read_text_member(members, "build_timestamp");
    let build_username = read_text_member(members, "build_username");
    let build_clean_repo = read_flag_member(members, "build_clean_repo");
    let build_id = read_text_member(members, "build_id");
    let build_type = read_text_member(members, "build_type");
    let version_number = read_text_member(members, "version_number");
    let build_number = read_text_member(members, "build_number");
    if git_hash.is_some() && build_hostname.is_some() && build_timestamp.is_some()
        && build_username.is_some() && build_clean_repo.is_some() && build_id.is_some()
        && build_type.is_some() && version_number.is_some() && build_number.is_some() {
        VersionData {
            git_hash: git_hash.unwrap(),
            build_hostname: build_hostname.unwrap(),
            build_timestamp: build_timestamp.unwrap(),
            build_username: build_username.unwrap(),
            build_clean_repo: build_clean_repo.unwrap(),
            build_id: build_id.unwrap(),
            build_type: build_type.unwrap(),
            version_number: version_number.unwrap(),
            build_number: build_number.unwrap(),
            synthetic: false,
        }
    } else {
        synthetic_version()
    }
}

/// Parses the body of a node's answer into a record. A body that is no JSON
/// object, or that does not fit the schema, gives the synthetic record.
pub fn parse_version(version_data: String) -> (record: VersionData)
    ensures
        record@ == version_of_text(version_data@),
{
    match json_object_members(version_data.as_str()) {
        Some(members) => version_from_members(&members),
        None => synthetic_version(),
    }
}

/// How the fetch from one node ended.
#[derive(Debug, Clone)]
pub enum FetchOutcome {
    /// The probe found nobody listening at the address.
    Unreachable,
    /// The request was sent and no answer came back in time, or none at all.
    Failed,
    /// The node answered with this body.
    Body(String),
}

/// The record that a fetch leaves behind: what the body gives where there is
/// one, the synthetic record where the node was not reached or did not answer.
pub open spec fn version_of_fetch(outcome: FetchOutcome) -> VersionDataView {
    match outcome {
        FetchOutcome::Body(body) => version_of_text(body@),
        _ => empty_version(),
    }
}

/// Turns the outcome of the fetch from one node into its record. No outcome
/// aborts the pass: a node that was not reached gets the synthetic record.
pub fn read_version(outcome: &FetchOutcome) -> (record: VersionData)
    ensures
        record@ == version_of_fetch(*outcome),
{
    match outcome {
        FetchOutcome::Body(body) => parse_version(body.clone()),
        _ => synthetic_version(),
    }
}

/// The fetch from one node: the address that was asked and how it ended.
#[derive(Debug, Clone)]
pub struct HostFetch {
    pub hostname_port: String,
    pub outcome: FetchOutcome,
}

/// The record set of one pass over the nodes: for each fetch, in order, the
/// row of the record that it leaves behind, all under the one time of the pass.
pub open spec fn pass_records(fetches: Seq<HostFetch>, time: Timestamp) -> Seq<StoredVersionView> {
    Seq::new(
        fetches.len(),
        |i: int| flattened(version_of_fetch(fetches[i].outcome), fetches[i].hostname_port@, time),
    )
}

/// Gathers the outcomes of one pass into its record set.
pub fn collect_versions(fetches: &Vec<HostFetch>, snapshot_time: Timestamp) -> (stored: Vec<
    StoredVersionData,
>)
    ensures
        stored_views(stored@) == pass_records(fetches@, snapshot_time),
{
    let mut stored: Vec<StoredVersionData> = Vec::new();
    let mut i: usize = 0;
    while i < fetches.len()
        invariant
            i <= fetches.len(),
            stored_views(stored@) == pass_records(fetches@, snapshot_time).take(i as int),
        decreases fetches.len() - i,
    {
        let record = read_version(&fetches[i].outcome);
        add_to_version_vector(record, fetches[i].hostname_port.as_str(), snapshot_time, &mut stored);
        assert(pass_records(fetches@, snapshot_time).take(i + 1) == pass_records(
            fetches@,
            snapshot_time,
        ).take(i as int).push(pass_records(fetches@, snapshot_time)[i as int]));
        i = i + 1;
    }
    assert(pass_records(fetches@, snapshot_time).take(i as int) == pass_records(
        fetches@,
        snapshot_time,
    ));
    stored
}

/// A node that was not reached, or did not answer, still has its row in the
/// record set of the pass: a synthetic row under its address, with every text
/// empty.
pub proof fn lemma_silent_host_recorded(fetches: Seq<HostFetch>, time: Timestamp, i: int)
    requires
        0 <= i < fetches.len(),
        !(fetches[i].outcome is Body),
    ensures
        pass_records(fetches, time).len() == fetches.len(),
        pass_records(fetches, time)[i] == flattened(
            empty_version(),
            fetches[i].hostname_port@,
            time,
        ),
        pass_records(fetches, time)[i].hostname_port == fetches[i].hostname_port@,
        pass_records(fetches, time)[i].synthetic,
        pass_records(fetches, time)[i].git_hash.len() == 0,
        pass_records(fetches, time)[i].build_hostname.len() == 0,
        pass_records(fetches, time)[i].build_timestamp.len() == 0,
        pass_records(fetches, time)[i].build_username.len() == 0,
        pass_records(fetches, time)[i].build_clean_repo.len() == 0,
        pass_records(fetches, time)[i].build_id.len() == 0,
        pass_records(fetches, time)[i].build_type.len() == 0,
        pass_records(fetches, time)[i].version_number.len() == 0,
        pass_records(fetches, time)[i].build_number.len() == 0,
{
}

/// The names of the columns of a stored capture of the versions.
pub open spec fn version_fields() -> Seq<Seq<char>> {
    seq![
        "hostname_port"@,
        "timestamp"@,
        "git_hash"@,
        "build_hostname"@,
        "build_timestamp"@,
        "build_username"@,
        "build_clean_repo"@,
        "build_id"@,
        "build_type"@,
        "version_number"@,
        "build_number"@,
        "synthetic"@,
    ]
}

/// Makes the title row of a stored capture of the versions.
pub fn version_field_names() -> (names: Vec<String>)
    ensures
        texts(names@) == version_fields(),
{
    let mut names: Vec<String> = Vec::new();
    names.push(String::from_str("hostname_port"));
    names.push(String::from_str("timestamp"));
    names.push(String::from_str("git_hash"));
    names.push(String::from_str("build_hostname"));
    names.push(String::from_str("build_timestamp"));
    names.push(String::from_str("build_username"));
    names.push(String::from_str("build_clean_repo"));
    names.push(String::from_str("build_id"));
    names.push(String::from_str("build_type"));
    names.push(String::from_str("version_number"));
    names.push(String::from_str("build_number"));
    names.push(String::from_str("synthetic"));
    assert(texts(names@) =~= version_fields());
    names
}

/// The record that one row of a stored capture holds, its columns standing at
/// `places` in the order of [`version_fields`]. `None` where the row is not
/// `width` texts long, its time is no RFC 3339 date-time, or its synthetic
/// mark is neither `true` nor `false`.
pub open spec fn version_row_reading(places: Seq<int>, width: int, row: Seq<Seq<char>>) -> Option<
    StoredVersionView,
> {
    if row.len() != width {
        None
    } else {
        match (rfc3339_reading(row[places[1]]), flag_reading(row[places[11]])) {
            (Some(time), Some(synthetic)) => Some(
                StoredVersionView {
                    hostname_port: row[places[0]],
                    timestamp: time,
                    git_hash: row[places[2]],
                    build_hostname: row[places[3]],
                    build_timestamp: row[places[4]],
                    build_username: row[places[5]],
                    build_clean_repo: row[places[6]],
                    build_id: row[places[7]],
                    build_type: row[places[8]],
                    version_number: row[places[9]],
                    build_number: row[places[10]],
                    synthetic,
                },
            ),
            _ => None,
        }
    }
}

/// The record set that a table of texts holds. A table without rows is the
/// empty set. Otherwise the first row names the columns, in any order, and
/// each further row is one record. `None` where a column is missing or one
/// row cannot be read: no part of a set is ever given.
pub open spec fn versions_of_table(rows: Seq<Seq<Seq<char>>>) -> Option<Seq<StoredVersionView>> {
    if rows.len() == 0 {
        Some(Seq::empty())
    } else if !columns_found(rows[0], version_fields()) {
        None
    } else {
        let places = column_places(rows[0], version_fields());
        let width = rows[0].len() as int;
        if forall|i: int|
            1 <= i < rows.len() ==> (#[trigger] version_row_reading(places, width, rows[i]))
                is Some {
            Some(
                Seq::new(
                    (rows.len() - 1) as nat,
                    |i: int| version_row_reading(places, width, rows[i + 1])->0,
                ),
            )
        } else {
            None
        }
    }
}

/// The record set that the content of a stored capture holds.
pub open spec fn versions_of_content(content: Seq<char>) -> Option<Seq<StoredVersionView>> {
    match csv_reading(content) {
        Some(rows) => versions_of_table(rows),
        None => None,
    }
}

fn version_from_row(places: &Vec<usize>, width: usize, row: &Vec<String>) -> (r: Option<
    StoredVersionData,
>)
    requires
        places.len() == 12,
        forall|k: int| 0 <= k < places.len() ==> #[trigger] places[k] < width,
    ensures
        match r {
            Some(record) => version_row_reading(
                places@.map_values(|p: usize| p as int),
                width as int,
                texts(row@),
            ) == Some(record@),
            None => version_row_reading(
                places@.map_values(|p: usize| p as int),
                width as int,
                texts(row@),
            ) is None,
        },
{
    if row.len() != width {
        return None;
    }
    let time = timestamp_from_text(row[places[1]].as_str());
    let synthetic = flag_from_str(row[places[11]].as_str());
    match (time, synthetic) {
        (Some(time), Some(synthetic)) => Some(
            StoredVersionData {
                hostname_port: row[places[0]].clone(),
                timestamp: time,
                git_hash: row[places[2]].clone(),
                build_hostname: row[places[3]].clone(),
                build_timestamp: row[places[4]].clone(),
                build_username: row[places[5]].clone(),
                build_clean_repo: row[places[6]].clone(),
                build_id: row[places[7]].clone(),
                build_type: row[places[8]].clone(),
                version_number: row[places[9]].clone(),
                build_number: row[places[10]].clone(),
                synthetic,
            },
        ),
        _ => None,
    }
}

/// Reads a record set from the rows of a stored capture, title row first.
pub fn versions_from_table(rows: &Vec<Vec<String>>) -> (r: Option<Vec<StoredVersionData>>)
    ensures
        match r {
            Some(records) => versions_of_table(table_texts(rows@)) == Some(stored_views(records@)),
            None => versions_of_table(table_texts(rows@)) is None,
        },
{
    let mut records: Vec<StoredVersionData> = Vec::new();
    if rows.len() == 0 {
        assert(stored_views(records@) =~= Seq::<StoredVersionView>::empty());
        return Some(records);
    }
    let names = version_field_names();
    let places = match locate_columns(&rows[0], &names) {
        Some(places) => places,
        None => {
            return None;
        },
    };
    let width: usize = rows[0].len();
    let ghost table = table_texts(rows@);
    let ghost columns = column_places(table[0], version_fields());
    assert(places.len() == 12) by {
        assert(places@.map_values(|p: usize| p as int).len() == columns.len());
    }
    let mut i: usize = 1;
    while i < rows.len()
        invariant
            1 <= i <= rows.len(),
            table == table_texts(rows@),
            columns == column_places(table[0], version_fields()),
            columns_found(table[0], version_fields()),
            places@.map_values(|p: usize| p as int) == columns,
            places.len() == 12,
            width == rows[0].len(),
            forall|k: int| 0 <= k < places.len() ==> #[trigger] places[k] < width,
            records.len() == i - 1,
            forall|k: int|
                1 <= k < i ==> (#[trigger] version_row_reading(columns, width as int, table[k]))
                    == Some(records[k - 1]@),
        decreases rows.len() - i,
    {
        match version_from_row(&places, width, &rows[i]) {
            Some(record) => {
                records.push(record);
            },
            None => {
                assert(version_row_reading(columns, width as int, table[i as int]) is None);
                return None;
            },
        }
        i = i + 1;
    }
    assert(stored_views(records@) =~= Seq::new(
        (table.len() - 1) as nat,
        |k: int| version_row_reading(columns, width as int, table[k + 1])->0,
    ));
    Some(records)
}

/// Reads the record set of a stored capture from the content of its file.
///
/// The set is given whole or not at all: content that cannot be read as a
/// record set is reported as corrupt.
pub fn read_version_snapshot(content: &str) -> (r: Result<Vec<StoredVersionData>, SnapshotError>)
    ensures
        match r {
            Ok(records) => versions_of_content(content@) == Some(stored_views(records@)),
            Err(error) => error == SnapshotError::Corrupt && versions_of_content(content@) is None,
        },
{
    let rows = match csv_records(content) {
        Some(rows) => rows,
        None => {
            return Err(SnapshotError::Corrupt);
        },
    };
    match versions_from_table(&rows) {
        Some(records) => Ok(records),
        None => Err(SnapshotError::Corrupt),
    }
}

/// The row of texts under which a record is stored, in the order of
/// [`version_fields`]; `None` where the time of the record cannot be written.
pub open spec fn version_row_writing(record: StoredVersionView) -> Option<Seq<Seq<char>>> {
    match rfc3339_writing(record.timestamp) {
        Some(time) => Some(
            seq![
                record.hostname_port,
                time,
                record.git_hash,
                record.build_hostname,
                record.build_timestamp,
                record.build_username,
                record.build_clean_repo,
                record.build_id,
                record.build_type,
                record.version_number,
                record.build_number,
                flag_text(record.synthetic),
            ],
        ),
        None => None,
    }
}

/// The table of texts under which a record set is stored: the title row, then
/// one row for each record, in order. `None` where one of the records cannot
/// be written: a set is stored whole or not at all.
pub open spec fn table_of_versions(records: Seq<StoredVersionView>) -> Option<
    Seq<Seq<Seq<char>>>,
> {
    if forall|i: int|
        0 <= i < records.len() ==> (#[trigger] version_row_writing(records[i])) is Some {
        Some(
            Seq::new(
                records.len() + 1,
                |i: int|
                    if i == 0 {
                        version_fields()
                    } else {
                        version_row_writing(records[i - 1])->0
                    },
            ),
        )
    } else {
        None
    }
}

/// Lays a record set out as the table of texts under which it is stored.
pub fn versions_to_table(records: &Vec<StoredVersionData>) -> (r: Option<Vec<Vec<String>>>)
    ensures
        match r {
            Some(rows) => table_of_versions(stored_views(records@)) == Some(table_texts(rows@)),
            None => table_of_versions(stored_views(records@)) is None,
        },
{
    let ghost views = stored_views(records@);
    let mut rows: Vec<Vec<String>> = Vec::new();
    rows.push(version_field_names());
    let mut i: usize = 0;
    while i < records.len()
        invariant
            i <= records.len(),
            views == stored_views(records@),
            rows.len() == i + 1,
            texts(rows[0]@) == version_fields(),
            forall|k: int|
                0 <= k < i ==> (#[trigger] version_row_writing(views[k])) == Some(
                    texts(rows[k + 1]@),
                ),
        decreases records.len() - i,
    {
        let record = &records[i];
        let time = match timestamp_to_text(record.timestamp) {
            Some(time) => time,
            None => {
                assert(version_row_writing(views[i as int]) is None);
                return None;
            },
        };
        let mut row: Vec<String> = Vec::new();
        row.push(record.hostname_port.clone());
        row.push(time);
        row.push(record.git_hash.clone());
        row.push(record.build_hostname.clone());
        row.push(record.build_timestamp.clone());
        row.push(record.build_username.clone());
        row.push(record.build_clean_repo.clone());
        row.push(record.build_id.clone());
        row.push(record.build_type.clone());
        row.push(record.version_number.clone());
        row.push(record.build_number.clone());
        row.push(flag_to_string(record.synthetic));
        assert(version_row_writing(views[i as int]) == Some(texts(row@))) by {
            assert(version_row_writing(views[i as int])->0 =~= texts(row@));
        }
        rows.push(row);
        i = i + 1;
    }
    assert(table_of_versions(views)->0 =~= table_texts(rows@));
    Some(rows)
}

/// A filter that no host passes leaves a table with the title line alone:
/// an empty report, and no error.
pub proof fn lemma_no_host_passes(rows: Seq<StoredVersionView>, pattern: Seq<char>)
    requires
        forall|i: int|
            0 <= i < rows.len() ==> !regex_matches(pattern, (#[trigger] rows[i]).hostname_port),
    ensures
        rows_passing(rows, pattern) == Seq::<StoredVersionView>::empty(),
        version_table(rows, pattern) == seq![version_header()],
    decreases rows.len(),
{
    reveal(Seq::filter);
    if rows.len() > 0 {
        let front = rows.drop_last();
        assert forall|i: int| 0 <= i < front.len() implies !regex_matches(
            pattern,
            (#[trigger] front[i]).hostname_port,
        ) by {
            assert(front[i] == rows[i]);
        }
        lemma_no_host_passes(front, pattern);
        assert(!regex_matches(pattern, rows[rows.len() - 1].hostname_port));
    }
    assert(version_table(rows, pattern) =~= seq![version_header()]);
}

/// What the diff reads of a stored row: the node as its key, and as fields
/// all that the node reported, with the synthetic mark. The time of the pass
/// is left out, as it differs between any two passes.
pub open spec fn version_row(record: StoredVersionView) -> RowView {
    RowView {
        key: record.hostname_port,
        fields: seq![
            record.git_hash,
            record.build_hostname,
            record.build_timestamp,
            record.build_username,
            record.build_clean_repo,
            record.build_id,
            record.build_type,
            record.version_number,
            record.build_number,
            flag_text(record.synthetic),
        ],
    }
}

/// What the diff reads of a record set, row by row.
pub open spec fn version_rows(records: Seq<StoredVersionView>) -> Seq<RowView> {
    Seq::new(records.len(), |i: int| version_row(records[i]))
}

/// Reduces a record set to the rows that the diff reads.
pub fn versions_to_rows(records: &Vec<StoredVersionData>) -> (rows: Vec<Row>)
    ensures
        crate::structured::row_views(rows@) == version_rows(stored_views(records@)),
{
    let mut rows: Vec<Row> = Vec::new();
    let mut i: usize = 0;
    while i < records.len()
        invariant
            i <= records.len(),
            crate::structured::row_views(rows@) == version_rows(stored_views(records@)).take(
                i as int,
            ),
        decreases records.len() - i,
    {
        let record = &records[i];
        let mut fields: Vec<String> = Vec::new();
        fields.push(record.git_hash.clone());
        fields.push(record.build_hostname.clone());
        fields.push(record.build_timestamp.clone());
        fields.push(record.build_username.clone());
        fields.push(record.build_clean_repo.clone());
        fields.push(record.build_id.clone());
        fields.push(record.build_type.clone());
        fields.push(record.version_number.clone());
        fields.push(record.build_number.clone());
        fields.push(flag_to_string(record.synthetic));
        let row = Row { key: record.hostname_port.clone(), fields };
        proof {
            assert(row@.fields =~= version_row(record@).fields);
            assert(row@ == version_row(record@));
        }
        rows.push(row);
        assert(crate::structured::row_views(rows@) == version_rows(stored_views(records@)).take(
            i as int,
        ).push(version_row(record@)));
        i = i + 1;
    }
    assert(version_rows(stored_views(records@)).take(i as int) == version_rows(
        stored_views(records@),
    ));
    rows
}

/// Compares two captures of the versions node by node: which nodes came,
/// which went, and which run another build than before.
pub fn diff_versions(begin: &Vec<StoredVersionData>, end: &Vec<StoredVersionData>) -> (changes:
    Vec<RowChange>)
    ensures
        is_diff(
            change_views(changes@),
            record_map(version_rows(stored_views(begin@))),
            record_map(version_rows(stored_views(end@))),
        ),
{
    let begin_rows = versions_to_rows(begin);
    let end_rows = versions_to_rows(end);
    diff_rows(&begin_rows, &end_rows)
}

/// The content under which a record set is stored; `None` where it cannot
/// be written.
pub open spec fn content_of_versions(records: Seq<StoredVersionView>) -> Option<Seq<char>> {
    match table_of_versions(records) {
        Some(table) => content_of_table(table),
        None => None,
    }
}

/// Writes a record set as the content of its file. The content is made whole
/// before anything of it is handed out, so the set is stored as one unit or
/// not at all.
pub fn write_version_snapshot(records: &Vec<StoredVersionData>) -> (r: Option<String>)
    ensures
        match r {
            Some(content) => content_of_versions(stored_views(records@)) == Some(content@),
            None => content_of_versions(stored_views(records@)) is None,
        },
{
    match versions_to_table(records) {
        Some(table) => table_to_content(&table),
        None => None,
    }
}

} // verus!
