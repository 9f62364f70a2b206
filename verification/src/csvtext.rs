//! Delimited text, read by the `csv` crate: the form in which a record set is
//! kept on disk.

use crate::text::texts;
use vstd::prelude::*;

verus! {

/// The rows of texts that `csv` reads from `text`, the first line included;
/// `None` where it rejects the text.
pub uninterp spec fn csv_reading(text: Seq<char>) -> Option<Seq<Seq<Seq<char>>>>;

/// The texts that the rows of a table hold.
pub open spec fn table_texts(rows: Seq<Vec<String>>) -> Seq<Seq<Seq<char>>> {
    Seq::new(rows.len(), |i: int| texts(rows[i]@))
}

/// Reads every record of `text` with a `csv::Reader` that takes the first line
/// for a record like the others (`ReaderBuilder::has_headers(false)`).
///
/// Trusted: the rows are a function of the text alone. `None` stands for any
/// error that the reader reports.
#[verifier::external_body]
pub(crate) fn csv_records(text: &str) -> (r: Option<Vec<Vec<String>>>)
    ensures
        match r {
            Some(rows) => csv_reading(text@) == Some(table_texts(rows@)),
            None => csv_reading(text@) is None,
        },
{
    let mut reader = csv::ReaderBuilder::new().has_headers(false).from_reader(text.as_bytes());
    let rows: Result<Vec<Vec<String>>, csv::Error> = reader
        .records()
        .map(|record| record.map(|fields| fields.iter().map(String::from).collect()))
        .collect();
    rows.ok()
}

/// The line that `csv` writes for one record, its end of line included;
/// `None` where it cannot write the record.
pub uninterp spec fn csv_line_writing(fields: Seq<Seq<char>>) -> Option<Seq<char>>;

/// Writes one record with `csv::Writer::write_record` into an empty buffer and
/// hands out what the buffer then holds (`Writer::into_inner`).
///
/// Trusted: the line is a function of the fields alone. `None` stands for any
/// error of the writer.
#[verifier::external_body]
pub(crate) fn csv_line(fields: &Vec<String>) -> (r: Option<String>)
    ensures
        match r {
            Some(line) => csv_line_writing(texts(fields@)) == Some(line@),
            None => csv_line_writing(texts(fields@)) is None,
        },
{
    let mut writer = csv::Writer::from_writer(Vec::new());
    writer.write_record(fields).ok()?;
    String::from_utf8(writer.into_inner().ok()?).ok()
}

/// The content under which a table of texts is stored: the lines of its
/// rows, one after the other. `None` where a row cannot be written.
pub open spec fn content_of_table(rows: Seq<Seq<Seq<char>>>) -> Option<Seq<char>>
    decreases rows.len(),
{
    if rows.len() == 0 {
        Some(Seq::empty())
    } else {
        match (content_of_table(rows.drop_last()), csv_line_writing(rows.last())) {
            (Some(front), Some(line)) => Some(front + line),
            _ => None,
        }
    }
}

proof fn lemma_unwritable_prefix(rows: Seq<Seq<Seq<char>>>, n: int)
    requires
        0 <= n <= rows.len(),
        content_of_table(rows.take(n)) is None,
    ensures
        content_of_table(rows) is None,
    decreases rows.len() - n,
{
    if n == rows.len() {
        assert(rows.take(n) == rows);
    } else {
        assert(rows.take(n + 1).drop_last() == rows.take(n));
        lemma_unwritable_prefix(rows, n + 1);
    }
}

/// Writes a table of texts as the content of a file.
pub fn table_to_content(rows: &Vec<Vec<String>>) -> (r: Option<String>)
    ensures
        match r {
            Some(content) => content_of_table(table_texts(rows@)) == Some(content@),
            None => content_of_table(table_texts(rows@)) is None,
        },
{
    let ghost table = table_texts(rows@);
    let mut content: String = String::new();
    let mut i: usize = 0;
    assert(table.take(0) == Seq::<Seq<Seq<char>>>::empty());
    while i < rows.len()
        invariant
            i <= rows.len(),
            table == table_texts(rows@),
            content_of_table(table.take(i as int)) == Some(content@),
        decreases rows.len() - i,
    {
        proof {
            assert(table.take(i + 1).drop_last() == table.take(i as int));
            assert(table.take(i + 1).last() == texts(rows[i as int]@));
        }
        match csv_line(&rows[i]) {
            Some(line) => {
                content.append(line.as_str());
            },
            None => {
                proof {
                    lemma_unwritable_prefix(table, i + 1);
                }
                return None;
            },
        }
        i = i + 1;
    }
    assert(table.take(i as int) == table);
    Some(content)
}

} // verus!
