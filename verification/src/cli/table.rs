use vstd::prelude::*;
use vstd::utf8::{decode_utf8, valid_utf8};

verus! {

/// A table in CSV form that `csv::Writer` writes into memory, record by
/// record.
#[verifier::external_body]
pub struct CsvTable {
    writer: csv::Writer<Vec<u8>>,
}

/// The records written to a table so far, each a sequence of fields.
pub uninterp spec fn csv_rows(table: CsvTable) -> Seq<Seq<Seq<char>>>;

/// The bytes that `csv::Writer` makes of records under its default settings.
pub uninterp spec fn csv_bytes(rows: Seq<Seq<Seq<char>>>) -> Seq<u8>;

/// The fields of a record.
pub open spec fn record_view(record: Seq<&str>) -> Seq<Seq<char>> {
    record.map_values(|field: &str| field@)
}

/// `csv::Writer::from_writer` on an empty vector: a table without records.
#[verifier::external_body]
pub(crate) fn csv_begin() -> (table: CsvTable)
    ensures
        csv_rows(table).len() == 0,
{
    CsvTable { writer: csv::Writer::from_writer(Vec::new()) }
}

/// `csv::Writer::write_record`: the record is written behind the others. The
/// writer refuses a record that has not as many fields as the first one; the
/// table is then given up.
#[verifier::external_body]
pub(crate) fn csv_write(table: CsvTable, record: &Vec<&str>) -> (r: Option<CsvTable>)
    ensures
        match r {
            Some(longer) => csv_rows(longer) == csv_rows(table).push(record_view(record@)),
            None => csv_rows(table).len() > 0 && csv_rows(table)[0].len() != record.len(),
        },
{
    let mut table = table;
    match table.writer.write_record(record) {
        Ok(_) => Some(table),
        Err(_) => None,
    }
}

/// `csv::Writer::into_inner`: the bytes of the records written.
#[verifier::external_body]
pub(crate) fn csv_finish(table: CsvTable) -> (r: Option<Vec<u8>>)
    ensures
        r matches Some(bytes) ==> bytes@ == csv_bytes(csv_rows(table)),
{
    table.writer.into_inner().ok()
}

/// `String::from_utf8`: the text that the bytes encode, if they are valid
/// UTF-8.
#[verifier::external_body]
pub(crate) fn utf8_text(bytes: Vec<u8>) -> (r: Option<String>)
    ensures
        (r is Some) == valid_utf8(bytes@),
        r matches Some(text) ==> text@ == decode_utf8(bytes@),
{
    String::from_utf8(bytes).ok()
}

} // verus!
