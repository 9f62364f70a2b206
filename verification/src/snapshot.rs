//! The snapshot store: numbered captures and the catalog that lists them.

use crate::csvtext::{content_of_table, csv_reading, csv_records, table_texts, table_to_content};
use crate::text::{
    column_places, columns_found, decimal_text, locate_columns, number_reading, number_to_string,
    parse_number, texts,
};
use crate::timestamp::{
    rfc3339_reading, rfc3339_writing, timestamp_from_text, timestamp_to_text, Timestamp,
};
use crate::versions::{
    read_version_snapshot, stored_views, versions_of_content, StoredVersionData,
};
use vstd::prelude::*;

verus! {

/// Why a stored record set could not be loaded.
#[derive(Debug, Clone, Copy, PartialEq, Eq, Structural)]
pub enum SnapshotError {
    /// The catalog has no snapshot of that number, or the snapshot holds no
    /// record set of that kind.
    NotFound,
    /// The content is there but cannot be read as a record set.
    Corrupt,
}

/// Why a request for a diff of two snapshots is refused.
#[derive(Debug, Clone, Copy, PartialEq, Eq, Structural)]
pub enum RequestError {
    /// The begin snapshot is not older than the end snapshot.
    BeginNotBeforeEnd,
    /// The catalog lacks the begin or the end snapshot.
    UnknownSnapshot,
}

/// One line of the catalog: a snapshot's number, the time it was begun and
/// the comment it was given.
#[derive(Debug, Clone)]
pub struct CatalogEntry {
    pub number: i32,
    pub timestamp: Timestamp,
    pub comment: String,
}

/// The mathematical value of a [`CatalogEntry`].
pub struct CatalogEntryView {
    pub number: i32,
    pub timestamp: Timestamp,
    pub comment: Seq<char>,
}

impl View for CatalogEntry {
    type V = CatalogEntryView;

    open spec fn view(&self) -> CatalogEntryView {
        CatalogEntryView { number: self.number, timestamp: self.timestamp, comment: self.comment@ }
    }
}

/// The values of a list of entries, in order.
pub open spec fn entry_views(entries: Seq<CatalogEntry>) -> Seq<CatalogEntryView> {
    Seq::new(entries.len(), |i: int| entries[i]@)
}

/// Whether a list of entries can be a catalog: no number is negative, and
/// each entry has a higher number than the one before it.
pub open spec fn well_numbered(entries: Seq<CatalogEntryView>) -> bool {
    &&& forall|i: int| 0 <= i < entries.len() ==> (#[trigger] entries[i]).number >= 0
    &&& forall|i: int, j: int|
        0 <= i < j < entries.len() ==> (#[trigger] entries[i]).number < (#[trigger] entries[j]).number
}

/// The number that the next snapshot gets: one more than the highest so far,
/// and zero in an empty catalog.
pub open spec fn next_number(entries: Seq<CatalogEntryView>) -> int {
    if entries.len() == 0 {
        0
    } else {
        entries.last().number + 1
    }
}

/// Whether the catalog lists a snapshot of that number.
pub open spec fn has_number(entries: Seq<CatalogEntryView>, number: int) -> bool {
    exists|i: int| 0 <= i < entries.len() && (#[trigger] entries[i]).number == number
}

/// The catalog after one more snapshot was begun.
pub open spec fn after_snapshot(
    entries: Seq<CatalogEntryView>,
    timestamp: Timestamp,
    comment: Seq<char>,
) -> Seq<CatalogEntryView> {
    entries.push(CatalogEntryView { number: next_number(entries) as i32, timestamp, comment })
}

/// The index of all snapshots that were ever begun, in the order of their
/// numbers. Entries are appended and never changed or taken out, so a number
/// is never given twice.
pub struct Catalog {
    entries: Vec<CatalogEntry>,
}

impl View for Catalog {
    type V = Seq<CatalogEntryView>;

    closed spec fn view(&self) -> Seq<CatalogEntryView> {
        entry_views(self.entries@)
    }
}

impl Catalog {
    #[verifier::type_invariant]
    closed spec fn ordered(&self) -> bool {
        well_numbered(entry_views(self.entries@))
    }

    /// Makes the catalog of a store that holds no snapshot yet.
    pub fn new() -> (catalog: Catalog)
        ensures
            catalog@ == Seq::<CatalogEntryView>::empty(),
    {
        let catalog = Catalog { entries: Vec::new() };
        assert(catalog@ =~= Seq::<CatalogEntryView>::empty());
        catalog
    }

    /// Makes a catalog of the entries that were read from a store; `None`
    /// where they are not in the order of their numbers, or a number is
    /// negative.
    pub fn from_entries(entries: Vec<CatalogEntry>) -> (r: Option<Catalog>)
        ensures
            r is Some <==> well_numbered(entry_views(entries@)),
            r matches Some(catalog) ==> catalog@ == entry_views(entries@),
    {
        let ghost views = entry_views(entries@);
        let mut i: usize = 0;
        while i < entries.len()
            invariant
                i <= entries.len(),
                views == entry_views(entries@),
                forall|k: int| 0 <= k < i ==> (#[trigger] views[k]).number >= 0,
                forall|k: int| 0 < k < i ==> views[k - 1].number < (#[trigger] views[k]).number,
            decreases entries.len() - i,
        {
            if entries[i].number < 0 {
                assert(views[i as int].number < 0);
                return None;
            }
            if i > 0 && entries[i - 1].number >= entries[i].number {
                assert(views[i - 1].number >= views[i as int].number);
                return None;
            }
            i = i + 1;
        }
        proof {
            lemma_neighbours_ordered(views);
        }
        Some(Catalog { entries })
    }

    /// Begins a snapshot: gives it the next number and enters it in the
    /// catalog with its time and comment.
    ///
    /// `None`, with the catalog unchanged, where the numbers have run out.
    pub fn begin_snapshot(&mut self, timestamp: Timestamp, comment: &str) -> (r: Option<i32>)
        ensures
            well_numbered(old(self)@),
            well_numbered(final(self)@),
            match r {
                Some(number) => number == next_number(old(self)@) && final(self)@
                    == after_snapshot(old(self)@, timestamp, comment@),
                None => next_number(old(self)@) > i32::MAX && final(self)@ == old(self)@,
            },
    {
        proof {
            use_type_invariant(&*self);
        }
        let ghost before = self@;
        let count: usize = self.entries.len();
        let number: i32 = if count == 0 {
            0
        } else {
            let last: i32 = self.entries[count - 1].number;
            assert(before.last().number == last);
            if last == i32::MAX {
                return None;
            }
            last + 1
        };
        // The entries are taken out, extended and put back, so that the
        // catalog is in order at every step.
        let mut entries: Vec<CatalogEntry> = Vec::new();
        assert(well_numbered(entry_views(entries@)));
        std::mem::swap(&mut self.entries, &mut entries);
        entries.push(CatalogEntry { number, timestamp, comment: String::from_str(comment) });
        proof {
            let entry = CatalogEntryView { number, timestamp, comment: comment@ };
            assert(entry_views(entries@) =~= before.push(entry));
            assert forall|i: int, j: int| 0 <= i < j < before.len() + 1 implies (
            #[trigger] before.push(entry)[i]).number < (#[trigger] before.push(entry)[j]).number by {
                if j == before.len() {
                    if i < before.len() - 1 {
                        assert(before[i].number < before[before.len() - 1].number);
                    }
                }
            }
            assert(well_numbered(entry_views(entries@)));
        }
        std::mem::swap(&mut self.entries, &mut entries);
        Some(number)
    }

    /// Lists the snapshots of the catalog in the order of their numbers.
    pub fn list_snapshots(&self) -> (entries: Vec<CatalogEntry>)
        ensures
            entry_views(entries@) == self@,
            well_numbered(self@),
    {
        proof {
            use_type_invariant(self);
        }
        let mut entries: Vec<CatalogEntry> = Vec::new();
        let mut i: usize = 0;
        while i < self.entries.len()
            invariant
                i <= self.entries.len(),
                entry_views(entries@) == entry_views(self.entries@).take(i as int),
            decreases self.entries.len() - i,
        {
            let entry = &self.entries[i];
            entries.push(
                CatalogEntry {
                    number: entry.number,
                    timestamp: entry.timestamp,
                    comment: entry.comment.clone(),
                },
            );
            assert(entry_views(entries@) == entry_views(self.entries@).take(i as int).push(
                entry@,
            ));
            i = i + 1;
        }
        assert(entry_views(self.entries@).take(i as int) == entry_views(self.entries@));
        entries
    }

    /// Looks up the entry of the snapshot `number`.
    pub fn find_snapshot(&self, number: i32) -> (r: Option<CatalogEntry>)
        ensures
            r is Some <==> has_number(self@, number as int),
            r matches Some(entry) ==> entry@.number == number && self@.contains(entry@),
    {
        let ghost views = entry_views(self.entries@);
        let mut i: usize = 0;
        while i < self.entries.len()
            invariant
                i <= self.entries.len(),
                views == entry_views(self.entries@),
                forall|k: int| 0 <= k < i ==> (#[trigger] views[k]).number != number,
            decreases self.entries.len() - i,
        {
            let entry = &self.entries[i];
            if entry.number == number {
                let found = CatalogEntry {
                    number: entry.number,
                    timestamp: entry.timestamp,
                    comment: entry.comment.clone(),
                };
                assert(views[i as int] == found@);
                return Some(found);
            }
            i = i + 1;
        }
        None
    }

    /// Tells whether the catalog lists a snapshot of that number.
    pub fn contains(&self, number: i32) -> (found: bool)
        ensures
            found == has_number(self@, number as int),
    {
        self.find_snapshot(number).is_some()
    }
}

proof fn lemma_neighbours_ordered(entries: Seq<CatalogEntryView>)
    requires
        forall|k: int| 0 <= k < entries.len() ==> (#[trigger] entries[k]).number >= 0,
        forall|k: int| 0 < k < entries.len() ==> entries[k - 1].number < (#[trigger] entries[k]).number,
    ensures
        well_numbered(entries),
    decreases entries.len(),
{
    if entries.len() > 0 {
        let front = entries.drop_last();
        assert forall|k: int| 0 < k < front.len() implies front[k - 1].number < (#[trigger] front[k]).number by {
            assert(front[k] == entries[k]);
            assert(front[k - 1] == entries[k - 1]);
        }
        assert forall|k: int| 0 <= k < front.len() implies (#[trigger] front[k]).number >= 0 by {
            assert(front[k] == entries[k]);
        }
        lemma_neighbours_ordered(front);
        assert forall|i: int, j: int| 0 <= i < j < entries.len() implies (#[trigger] entries[i]).number
            < (#[trigger] entries[j]).number by {
            if j < entries.len() - 1 {
                assert(front[i].number < front[j].number);
            } else if i < j - 1 {
                assert(front[i].number < front[j - 1].number);
                assert(entries[j - 1].number < entries[j].number);
            } else {
                assert(entries[j - 1].number < entries[j].number);
            }
        }
    }
}

/// Checks that a diff runs from an older snapshot to a newer one. This needs
/// no catalog, so it can be asked before anything is read.
pub fn check_diff_order(begin: i32, end: i32) -> (r: Result<(), RequestError>)
    ensures
        r == if begin >= end {
            Err::<(), RequestError>(RequestError::BeginNotBeforeEnd)
        } else {
            Ok::<(), RequestError>(())
        },
{
    if begin >= end {
        Err(RequestError::BeginNotBeforeEnd)
    } else {
        Ok(())
    }
}

/// Checks a request for the diff of the snapshots `begin` and `end`: the
/// first must be the older one, and the catalog must list both.
pub fn check_diff_request(catalog: &Catalog, begin: i32, end: i32) -> (r: Result<
    (),
    RequestError,
>)
    ensures
        r == if begin >= end {
            Err::<(), RequestError>(RequestError::BeginNotBeforeEnd)
        } else if !has_number(catalog@, begin as int) || !has_number(catalog@, end as int) {
            Err::<(), RequestError>(RequestError::UnknownSnapshot)
        } else {
            Ok::<(), RequestError>(())
        },
{
    if begin >= end {
        return Err(RequestError::BeginNotBeforeEnd);
    }
    if !catalog.contains(begin) || !catalog.contains(end) {
        return Err(RequestError::UnknownSnapshot);
    }
    Ok(())
}

/// Loads the versions of the snapshot `number`. `content` is what the store
/// holds for the versions of that snapshot, `None` where it holds nothing.
///
/// A snapshot that the catalog lacks, or that has no versions, is not found.
/// Content that cannot be read is corrupt. Otherwise the whole record set is
/// given.
pub fn load_versions(catalog: &Catalog, number: i32, content: Option<&str>) -> (r: Result<
    Vec<StoredVersionData>,
    SnapshotError,
>)
    ensures
        match r {
            Ok(records) => has_number(catalog@, number as int) && content is Some
                && versions_of_content(content->0@) == Some(stored_views(records@)),
            Err(SnapshotError::NotFound) => !has_number(catalog@, number as int) || content is None,
            Err(SnapshotError::Corrupt) => has_number(catalog@, number as int) && content is Some
                && versions_of_content(content->0@) is None,
        },
{
    if !catalog.contains(number) {
        return Err(SnapshotError::NotFound);
    }
    match content {
        None => Err(SnapshotError::NotFound),
        Some(content) => read_version_snapshot(content),
    }
}

/// The catalog after a row of snapshots was begun, one after the other.
pub open spec fn after_snapshots(
    entries: Seq<CatalogEntryView>,
    begun: Seq<(Timestamp, Seq<char>)>,
) -> Seq<CatalogEntryView>
    decreases begun.len(),
{
    if begun.len() == 0 {
        entries
    } else {
        after_snapshot(
            after_snapshots(entries, begun.drop_last()),
            begun.last().0,
            begun.last().1,
        )
    }
}

/// Snapshots that are begun one after the other get numbers that go up by
/// one each time, from the number that follows the highest of the catalog:
/// no gap, and no number that the catalog has seen before. What the catalog
/// held stays as it was.
pub proof fn lemma_snapshot_numbers(
    entries: Seq<CatalogEntryView>,
    begun: Seq<(Timestamp, Seq<char>)>,
)
    requires
        well_numbered(entries),
        next_number(entries) + begun.len() <= i32::MAX + 1,
    ensures
        after_snapshots(entries, begun).len() == entries.len() + begun.len(),
        after_snapshots(entries, begun).take(entries.len() as int) == entries,
        forall|k: int|
            0 <= k < begun.len() ==> (#[trigger] after_snapshots(entries, begun)[entries.len()
                + k]).number == next_number(entries) + k,
        forall|k: int, i: int|
            0 <= k < begun.len() && 0 <= i < entries.len() ==> (#[trigger] after_snapshots(
                entries,
                begun,
            )[entries.len() + k]).number > (#[trigger] entries[i]).number,
        well_numbered(after_snapshots(entries, begun)),
        next_number(after_snapshots(entries, begun)) == next_number(entries) + begun.len(),
    decreases begun.len(),
{
    let after = after_snapshots(entries, begun);
    if begun.len() == 0 {
        assert(after.take(entries.len() as int) == entries);
    } else {
        let front = after_snapshots(entries, begun.drop_last());
        lemma_snapshot_numbers(entries, begun.drop_last());
        assert(after.take(entries.len() as int) == front.take(entries.len() as int));
        assert forall|k: int| 0 <= k < begun.len() implies (#[trigger] after[entries.len() + k]).number
            == next_number(entries) + k by {
            if k < begun.len() - 1 {
                assert(after[entries.len() + k] == front[entries.len() + k]);
            }
        }
        assert forall|i: int, j: int| 0 <= i < j < after.len() implies (#[trigger] after[i]).number < (
        #[trigger] after[j]).number by {
            if j < front.len() {
                assert(after[i] == front[i] && after[j] == front[j]);
            } else if front.len() > 0 {
                assert(after[i] == front[i]);
                if i < front.len() - 1 {
                    assert(front[i].number < front[front.len() - 1].number);
                }
            }
        }
        assert forall|i: int| 0 <= i < after.len() implies (#[trigger] after[i]).number >= 0 by {
            if i < front.len() {
                assert(after[i] == front[i]);
            }
        }
        assert forall|k: int, i: int| 0 <= k < begun.len() && 0 <= i < entries.len() implies (
        #[trigger] after[entries.len() + k]).number > (#[trigger] entries[i]).number by {
            assert(entries[i] == after.take(entries.len() as int)[i]);
            assert(after[i].number < after[entries.len() + k].number);
        }
    }
}

/// The names of the columns of a stored catalog.
pub open spec fn catalog_fields() -> Seq<Seq<char>> {
    seq!["number"@, "timestamp"@, "comment"@]
}

/// Makes the title row of a stored catalog.
pub fn catalog_field_names() -> (names: Vec<String>)
    ensures
        texts(names@) == catalog_fields(),
{
    let mut names: Vec<String> = Vec::new();
    names.push(String::from_str("number"));
    names.push(String::from_str("timestamp"));
    names.push(String::from_str("comment"));
    assert(texts(names@) =~= catalog_fields());
    names
}

/// The entry that one row of a stored catalog holds, its columns standing at
/// `places` in the order of [`catalog_fields`]. `None` where the row is not
/// `width` texts long, its number is no decimal number that fits, or its time
/// is no RFC 3339 date-time.
pub open spec fn entry_reading(places: Seq<int>, width: int, row: Seq<Seq<char>>) -> Option<
    CatalogEntryView,
> {
    if row.len() != width {
        None
    } else {
        match (number_reading(row[places[0]], i32::MAX as int), rfc3339_reading(row[places[1]])) {
            (Some(number), Some(timestamp)) => Some(
                CatalogEntryView { number: number as i32, timestamp, comment: row[places[2]] },
            ),
            _ => None,
        }
    }
}

/// The entries that a table of texts holds. A table without rows holds none.
/// Otherwise the first row names the columns, in any order, and each further
/// row is one entry. `None` where a column is missing, a row cannot be read,
/// or the entries are not in the order of their numbers.
pub open spec fn catalog_of_table(rows: Seq<Seq<Seq<char>>>) -> Option<Seq<CatalogEntryView>> {
    if rows.len() == 0 {
        Some(Seq::empty())
    } else if !columns_found(rows[0], catalog_fields()) {
        None
    } else {
        let places = column_places(rows[0], catalog_fields());
        let width = rows[0].len() as int;
        let entries = Seq::new(
            (rows.len() - 1) as nat,
            |i: int| entry_reading(places, width, rows[i + 1])->0,
        );
        if (forall|i: int|
            1 <= i < rows.len() ==> (#[trigger] entry_reading(places, width, rows[i])) is Some)
            && well_numbered(entries) {
            Some(entries)
        } else {
            None
        }
    }
}

/// The entries that the content of a stored catalog holds.
pub open spec fn catalog_of_content(content: Seq<char>) -> Option<Seq<CatalogEntryView>> {
    match csv_reading(content) {
        Some(rows) => catalog_of_table(rows),
        None => None,
    }
}

/// The row of texts under which an entry is stored; `None` where its time
/// cannot be written.
pub open spec fn entry_writing(entry: CatalogEntryView) -> Option<Seq<Seq<char>>> {
    match rfc3339_writing(entry.timestamp) {
        Some(time) => Some(seq![decimal_text(entry.number as int), time, entry.comment]),
        None => None,
    }
}

/// The table of texts under which a catalog is stored: the title row, then
/// one row for each entry. `None` where an entry cannot be written.
pub open spec fn table_of_catalog(entries: Seq<CatalogEntryView>) -> Option<Seq<Seq<Seq<char>>>> {
    if forall|i: int| 0 <= i < entries.len() ==> (#[trigger] entry_writing(entries[i])) is Some {
        Some(
            Seq::new(
                entries.len() + 1,
                |i: int|
                    if i == 0 {
                        catalog_fields()
                    } else {
                        entry_writing(entries[i - 1])->0
                    },
            ),
        )
    } else {
        None
    }
}

fn entry_from_row(places: &Vec<usize>, width: usize, row: &Vec<String>) -> (r: Option<CatalogEntry>)
    requires
        places.len() == 3,
        forall|k: int| 0 <= k < places.len() ==> #[trigger] places[k] < width,
    ensures
        match r {
            Some(entry) => entry_reading(
                places@.map_values(|p: usize| p as int),
                width as int,
                texts(row@),
            ) == Some(entry@),
            None => entry_reading(
                places@.map_values(|p: usize| p as int),
                width as int,
                texts(row@),
            ) is None,
        },
{
    if row.len() != width {
        return None;
    }
    let number = parse_number(row[places[0]].as_str(), 0x7fff_ffff);
    let timestamp = timestamp_from_text(row[places[1]].as_str());
    match (number, timestamp) {
        (Some(number), Some(timestamp)) => Some(
            CatalogEntry { number: number as i32, timestamp, comment: row[places[2]].clone() },
        ),
        _ => None,
    }
}

impl Catalog {
    /// Reads a catalog from the rows of its stored form, title row first.
    pub fn from_table(rows: &Vec<Vec<String>>) -> (r: Option<Catalog>)
        ensures
            match r {
                Some(catalog) => catalog_of_table(table_texts(rows@)) == Some(catalog@),
                None => catalog_of_table(table_texts(rows@)) is None,
            },
    {
        let mut entries: Vec<CatalogEntry> = Vec::new();
        if rows.len() == 0 {
            assert(entry_views(entries@) =~= Seq::<CatalogEntryView>::empty());
            return Catalog::from_entries(entries);
        }
        let names = catalog_field_names();
        let places = match locate_columns(&rows[0], &names) {
            Some(places) => places,
            None => {
                return None;
            },
        };
        let width: usize = rows[0].len();
        let ghost table = table_texts(rows@);
        let ghost columns = column_places(table[0], catalog_fields());
        assert(places.len() == 3) by {
            assert(places@.map_values(|p: usize| p as int).len() == columns.len());
        }
        let mut i: usize = 1;
        while i < rows.len()
            invariant
                1 <= i <= rows.len(),
                table == table_texts(rows@),
                columns == column_places(table[0], catalog_fields()),
                columns_found(table[0], catalog_fields()),
                places@.map_values(|p: usize| p as int) == columns,
                places.len() == 3,
                width == rows[0].len(),
                forall|k: int| 0 <= k < places.len() ==> #[trigger] places[k] < width,
                entries.len() == i - 1,
                forall|k: int|
                    1 <= k < i ==> (#[trigger] entry_reading(columns, width as int, table[k]))
                        == Some(entries[k - 1]@),
            decreases rows.len() - i,
        {
            match entry_from_row(&places, width, &rows[i]) {
                Some(entry) => {
                    entries.push(entry);
                },
                None => {
                    assert(entry_reading(columns, width as int, table[i as int]) is None);
                    return None;
                },
            }
            i = i + 1;
        }
        assert(entry_views(entries@) =~= Seq::new(
            (table.len() - 1) as nat,
            |k: int| entry_reading(columns, width as int, table[k + 1])->0,
        ));
        Catalog::from_entries(entries)
    }

    /// Lays the catalog out as the table of texts under which it is stored.
    pub fn to_table(&self) -> (r: Option<Vec<Vec<String>>>)
        ensures
            match r {
                Some(rows) => table_of_catalog(self@) == Some(table_texts(rows@)),
                None => table_of_catalog(self@) is None,
            },
    {
        let ghost views = entry_views(self.entries@);
        let mut rows: Vec<Vec<String>> = Vec::new();
        rows.push(catalog_field_names());
        let mut i: usize = 0;
        while i < self.entries.len()
            invariant
                i <= self.entries.len(),
                views == entry_views(self.entries@),
                rows.len() == i + 1,
                texts(rows[0]@) == catalog_fields(),
                forall|k: int|
                    0 <= k < i ==> (#[trigger] entry_writing(views[k])) == Some(
                        texts(rows[k + 1]@),
                    ),
            decreases self.entries.len() - i,
        {
            let entry = &self.entries[i];
            let time = match timestamp_to_text(entry.timestamp) {
                Some(time) => time,
                None => {
                    assert(entry_writing(views[i as int]) is None);
                    return None;
                },
            };
            let mut row: Vec<String> = Vec::new();
            row.push(number_to_string(entry.number as i128));
            row.push(time);
            row.push(entry.comment.clone());
            assert(entry_writing(views[i as int]) == Some(texts(row@))) by {
                assert(entry_writing(views[i as int])->0 =~= texts(row@));
            }
            rows.push(row);
            i = i + 1;
        }
        assert(table_of_catalog(views)->0 =~= table_texts(rows@));
        Some(rows)
    }
}

/// Reads the catalog of a store from the content of its file. Content that
/// is no catalog is reported as corrupt.
pub fn read_catalog(content: &str) -> (r: Result<Catalog, SnapshotError>)
    ensures
        match r {
            Ok(catalog) => catalog_of_content(content@) == Some(catalog@),
            Err(error) => error == SnapshotError::Corrupt && catalog_of_content(content@) is None,
        },
{
    let rows = match csv_records(content) {
        Some(rows) => rows,
        None => {
            return Err(SnapshotError::Corrupt);
        },
    };
    match Catalog::from_table(&rows) {
        Some(catalog) => Ok(catalog),
        None => Err(SnapshotError::Corrupt),
    }
}

/// The content under which a catalog is stored; `None` where it cannot be
/// written.
pub open spec fn content_of_catalog(entries: Seq<CatalogEntryView>) -> Option<Seq<char>> {
    match table_of_catalog(entries) {
        Some(table) => content_of_table(table),
        None => None,
    }
}

/// Writes the catalog as the content of its file.
pub fn write_catalog(catalog: &Catalog) -> (r: Option<String>)
    ensures
        match r {
            Some(content) => content_of_catalog(catalog@) == Some(content@),
            None => content_of_catalog(catalog@) is None,
        },
{
    match catalog.to_table() {
        Some(table) => table_to_content(&table),
        None => None,
    }
}

} // verus!
