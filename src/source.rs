//! The table source: parses delimited text into a header and rows with the
//! csv crate, and indexes the result.

use vstd::prelude::*;
use crate::text::strs;
use crate::index::{
    IndexError, RowIndex, build_index, first_missing, index_entries, key_positions, rows_view,
};

verus! {

#[verifier::external_type_specification]
#[verifier::external_body]
pub struct ExCsvError(csv::Error);

/// The header and rows that csv reads from `bytes`, or `None` where it
/// reports an error.
pub uninterp spec fn csv_table(bytes: Seq<u8>) -> Option<(Seq<Seq<char>>, Seq<Seq<Seq<char>>>)>;

/// Relies on csv's `ReaderBuilder` (first record as header, records of any
/// length), `Reader::headers` and `Reader::records`: the header and rows read
/// from `bytes`, or the first error, depend on the bytes alone.
#[verifier::external_body]
fn parse_csv(bytes: &Vec<u8>) -> (r: Result<(Vec<String>, Vec<Vec<String>>), csv::Error>)
    ensures
        match r {
            Ok((h, rows)) => csv_table(bytes@) == Some((strs(h@), rows_view(rows@))),
            Err(_) => csv_table(bytes@) is None,
        },
{
    let mut rdr = csv::ReaderBuilder::new().flexible(true).from_reader(bytes.as_slice());
    let headers: Vec<String> = rdr.headers()?.iter().map(String::from).collect();
    let rows = rdr
        .records()
        .map(|rec| rec.map(|r| r.iter().map(String::from).collect()))
        .collect::<Result<Vec<Vec<String>>, csv::Error>>()?;
    Ok((headers, rows))
}

/// Why a table cannot be loaded.
#[derive(Debug)]
pub enum LoadError {
    /// The text is not well-formed delimited text.
    Parse(csv::Error),
    /// A requested key column is absent from the table's header.
    UnknownKeyColumn(String),
}

/// Parses `bytes` as delimited text with a header record and indexes its rows
/// by the composite key over `key_columns`.
pub fn load_table(bytes: &Vec<u8>, key_columns: &Vec<String>) -> (r: Result<RowIndex, LoadError>)
    ensures
        match r {
            Ok(idx) => csv_table(bytes@) matches Some((h, rows)) && first_missing(
                h,
                strs(key_columns@),
            ) is None && idx.header_view() == h && idx.entries_view() == index_entries(
                rows,
                key_positions(h, strs(key_columns@)),
            ),
            Err(LoadError::Parse(_)) => csv_table(bytes@) is None,
            Err(LoadError::UnknownKeyColumn(name)) => csv_table(bytes@) matches Some((h, _))
                && first_missing(h, strs(key_columns@)) == Some(name@),
        },
{
    match parse_csv(bytes) {
        Ok((headers, rows)) => match build_index(&headers, &rows, key_columns) {
            Ok(idx) => Ok(idx),
            Err(IndexError::UnknownKeyColumn(name)) => Err(LoadError::UnknownKeyColumn(name)),
        },
        Err(e) => Err(LoadError::Parse(e)),
    }
}

} // verus!
