use crate::body::process_data::rows_view;
use crate::structs::structs_json::views_of;
use vstd::prelude::*;

verus! {

/// The fields of the header row that the `csv` crate reads from `data` with its default
/// settings; `None` where it reports an error instead.
pub uninterp spec fn csv_headers(data: Seq<u8>) -> Option<Seq<Seq<char>>>;

/// The rows after the header row that the `csv` crate reads from `data` with its default
/// settings, each as its fields; `None` where it reports an error on any of them.
pub uninterp spec fn csv_records(data: Seq<u8>) -> Option<Seq<Seq<Seq<char>>>>;

/// Calls `csv::Reader::headers` on a reader over `data` made by `csv::Reader::from_reader`.
///
/// Trusted: the call succeeds exactly where `csv_headers` is defined, and then returns the
/// fields it names. Nothing is claimed about what the fields are. Where the call fails, the
/// crate's error comes back as the text it formats to, of which nothing is claimed.
#[verifier::external_body]
pub(crate) fn read_headers(data: &[u8]) -> (read: Result<Vec<String>, String>)
    ensures
        match read {
            Ok(headers) => csv_headers(data@) == Some(views_of(headers@)),
            Err(_) => csv_headers(data@) is None,
        },
{
    let mut reader = csv::Reader::from_reader(data);
    let headers = reader.headers().map_err(|error| error.to_string())?;
    Ok(headers.iter().map(|field| field.to_string()).collect())
}

/// Calls `csv::Reader::records` on a reader over `data` made by `csv::Reader::from_reader`,
/// and takes all the records, up to the first error.
///
/// Trusted: the rows are read without error exactly where `csv_records` is defined, and
/// then they are the rows it names. Nothing is claimed about what the rows are. Where a row
/// fails, the crate's error comes back as the text it formats to, of which nothing is
/// claimed.
#[verifier::external_body]
pub(crate) fn read_records(data: &[u8]) -> (read: Result<Vec<Vec<String>>, String>)
    ensures
        match read {
            Ok(rows) => csv_records(data@) == Some(rows_view(rows@)),
            Err(_) => csv_records(data@) is None,
        },
{
    let mut reader = csv::Reader::from_reader(data);
    let mut rows = Vec::new();
    for record in reader.records() {
        let fields = record.map_err(|error| error.to_string())?;
        rows.push(fields.iter().map(|field| field.to_string()).collect());
    }
    Ok(rows)
}

} // verus!
