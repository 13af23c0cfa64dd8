//! CSV encoding and decoding through the `csv` crate.

use vstd::prelude::*;
use crate::model::join_on;
use crate::text::strs;
use vstd::utf8::encode_utf8;

verus! {

#[verifier::external_type_specification]
#[verifier::external_body]
pub struct ExCsvError(csv::Error);

/// A csv `Writer` over a byte vector, held in a private field: csv's
/// `Writer` cannot be declared as an outside type here, since its parameter
/// is bound by `std::io::Write`.
#[verifier::external_body]
pub struct CsvRecordWriter {
    inner: csv::Writer<Vec<u8>>,
}

/// The characters of each cell of each row.
pub open spec fn table_view(rows: Seq<Vec<String>>) -> Seq<Seq<Seq<char>>> {
    rows.map_values(|r: Vec<String>| strs(r@))
}

/// Whether all rows have as many cells as the first.
pub open spec fn same_widths(rows: Seq<Seq<Seq<char>>>) -> bool {
    forall|i: int| 0 <= i < rows.len() ==> #[trigger] rows[i].len() == rows[0].len()
}

/// The records a csv `Writer` over a byte vector has accepted so far, or
/// `None` once a write has failed.
pub uninterp spec fn csv_writer_records(w: CsvRecordWriter) -> Option<Seq<Seq<Seq<char>>>>;

/// Whether a field must be quoted: it holds a comma, a double quote, a
/// carriage return or a line feed.
pub open spec fn csv_field_needs_quotes(f: Seq<char>) -> bool {
    exists|i: int| 0 <= i < f.len() && (f[i] == ',' || f[i] == '"' || f[i] == '\r' || f[i] == '\n')
}

/// `f` with every double quote doubled.
pub open spec fn csv_doubled_quotes(f: Seq<char>) -> Seq<char>
    decreases f.len(),
{
    if f.len() == 0 {
        Seq::<char>::empty()
    } else if f.last() == '"' {
        csv_doubled_quotes(f.drop_last()) + seq!['"', '"']
    } else {
        csv_doubled_quotes(f.drop_last()).push(f.last())
    }
}

/// A field as written: in double quotes, with its quotes doubled, when it
/// must be quoted; as it is otherwise.
pub open spec fn csv_field(f: Seq<char>) -> Seq<char> {
    if csv_field_needs_quotes(f) {
        seq!['"'] + csv_doubled_quotes(f) + seq!['"']
    } else {
        f
    }
}

/// A record as written: its fields separated by commas and ended by a line
/// feed; a record that would write nothing before the line feed (no field,
/// or one empty field) is written as `""`.
pub open spec fn csv_record_text(r: Seq<Seq<char>>) -> Seq<char> {
    if r.len() == 0 || (r.len() == 1 && r[0].len() == 0) {
        seq!['"', '"', '\n']
    } else {
        join_on(r.map_values(|f: Seq<char>| csv_field(f)), ',').push('\n')
    }
}

/// The text of `records` as written one after the other.
pub open spec fn csv_text(records: Seq<Seq<Seq<char>>>) -> Seq<char>
    decreases records.len(),
{
    if records.len() == 0 {
        Seq::<char>::empty()
    } else {
        csv_text(records.drop_last()) + csv_record_text(records.last())
    }
}

/// The bytes csv's `Writer`, with its default settings (comma delimiter,
/// quoting only where necessary, quotes escaped by doubling, line-feed
/// terminator), produces for `records`: the UTF-8 encoding of their text.
pub open spec fn csv_encoding(records: Seq<Seq<Seq<char>>>) -> Seq<u8> {
    encode_utf8(csv_text(records))
}

/// The header fields and the records that csv's `Reader`, with its default
/// settings, reads from `bytes`, or the text of the error it reports.
pub uninterp spec fn csv_table(bytes: Seq<u8>) -> Result<(Seq<Seq<char>>, Seq<Seq<Seq<char>>>), Seq<char>>;

/// The header fields that csv's `Reader::headers`, with the reader's default
/// settings, reads from `bytes`, or the text of the error it reports.
pub uninterp spec fn csv_header_fields(bytes: Seq<u8>) -> Result<Seq<Seq<char>>, Seq<char>>;

/// csv's `Writer::from_writer` over an empty byte vector. Trusted: the
/// writer has accepted no record yet.
#[verifier::external_body]
fn csv_writer_new() -> (w: CsvRecordWriter)
    ensures
        csv_writer_records(w) == Some(Seq::<Seq<Seq<char>>>::empty()),
{
    CsvRecordWriter { inner: csv::Writer::from_writer(Vec::new()) }
}

/// csv's `Writer::write_record`. Trusted: on a writer that has not failed,
/// a record as wide as the first one (or the first record itself) is
/// accepted; an accepted record is added after the others; a failed write
/// leaves the writer failed. A writer over a byte vector meets no I/O error,
/// and by default it refuses only records of another width than the first.
#[verifier::external_body]
fn csv_write_record(w: &mut CsvRecordWriter, record: &Vec<String>) -> (r: Result<(), csv::Error>)
    ensures
        (csv_writer_records(*old(w)) matches Some(rs) && (rs.len() == 0 || rs[0].len()
            == record@.len())) ==> r is Ok,
        r is Ok ==> (csv_writer_records(*old(w)) matches Some(rs) ==> csv_writer_records(*final(w))
            == Some(rs.push(strs(record@)))),
        r is Err ==> csv_writer_records(*final(w)) is None,
{
    w.inner.write_record(record)
}

/// csv's `Writer::into_inner`. Trusted: flushing into a byte vector cannot
/// fail, and a writer that has not failed hands back the encoding of the
/// records it accepted.
#[verifier::external_body]
fn csv_writer_into_bytes(w: CsvRecordWriter) -> (r: Result<Vec<u8>, csv::Error>)
    ensures
        r is Ok,
        r matches Ok(b) ==> (csv_writer_records(w) matches Some(rs) ==> b@ == csv_encoding(rs)),
{
    w.inner.into_inner().map_err(|e| csv::Error::from(e.into_error()))
}

/// csv's `Reader::from_reader` over `bytes`, its `headers` and its `records`;
/// an error is handed back as its text (its `Display`). Trusted: the result
/// is `csv_table(bytes@)`.
#[verifier::external_body]
pub(crate) fn read_csv_table(bytes: &[u8]) -> (r: Result<(Vec<String>, Vec<Vec<String>>), String>)
    ensures
        r matches Ok((h, rows)) ==> (csv_table(bytes@) matches Ok(t) && t == (strs(h@), table_view(rows@))),
        r matches Err(e) ==> (csv_table(bytes@) matches Err(m) && m == e@),
{
    let mut rdr = csv::Reader::from_reader(bytes);
    let headers: Vec<String> = match rdr.headers() {
        Ok(h) => h.iter().map(String::from).collect(),
        Err(e) => return Err(e.to_string()),
    };
    let rows: Result<Vec<Vec<String>>, csv::Error> =
        rdr.records().map(|rec| rec.map(|rec| rec.iter().map(String::from).collect())).collect();
    rows.map(|rows| (headers, rows)).map_err(|e| e.to_string())
}

/// csv's `Reader::from_reader` over `bytes` and its `headers`; an error is
/// handed back as its text (its `Display`). Trusted: the result is
/// `csv_header_fields(bytes@)`.
#[verifier::external_body]
pub(crate) fn read_csv_header(bytes: &[u8]) -> (r: Result<Vec<String>, String>)
    ensures
        r matches Ok(h) ==> (csv_header_fields(bytes@) matches Ok(t) && t == strs(h@)),
        r matches Err(e) ==> (csv_header_fields(bytes@) matches Err(m) && m == e@),
{
    let mut rdr = csv::Reader::from_reader(bytes);
    match rdr.headers() {
        Ok(h) => Ok(h.iter().map(String::from).collect()),
        Err(e) => Err(e.to_string()),
    }
}

/// The CSV encoding of `rows`, all of one width.
pub fn encode_csv_table(rows: &Vec<Vec<String>>) -> (b: Vec<u8>)
    requires
        same_widths(table_view(rows@)),
    ensures
        b@ == csv_encoding(table_view(rows@)),
{
    let mut w = csv_writer_new();
    let mut i: usize = 0;
    while i < rows.len()
        invariant
            i <= rows.len(),
            same_widths(table_view(rows@)),
            csv_writer_records(w) == Some(table_view(rows@).take(i as int)),
        decreases rows.len() - i,
    {
        let ghost t = table_view(rows@);
        assert(t[i as int].len() == t[0].len());
        let r = csv_write_record(&mut w, &rows[i]);
        match r {
            Ok(()) => {},
            Err(_) => {
                assert(false);
            },
        }
        i += 1;
        assert(t.take(i as int) =~= t.take(i - 1).push(t[i - 1]));
    }
    assert(table_view(rows@).take(rows.len() as int) =~= table_view(rows@));
    match csv_writer_into_bytes(w) {
        Ok(b) => b,
        Err(_) => {
            assert(false);
            Vec::new()
        },
    }
}

} // verus!
