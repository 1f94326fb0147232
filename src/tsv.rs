use vstd::prelude::*;

verus! {

#[verifier::external_type_specification]
#[verifier::external_body]
pub struct ExCsvError(csv::Error);

/// The records csv reads from a text as the store's tables are written:
/// tab-delimited, rows of any length, every field trimmed of surrounding
/// whitespace, lines starting with `#` skipped. `None` where csv fails.
pub uninterp spec fn tsv_records(text: Seq<char>) -> Option<Seq<Seq<Seq<char>>>>;

/// The characters of each field of a record.
pub open spec fn strs_view(row: Seq<String>) -> Seq<Seq<char>> {
    Seq::new(row.len(), |j: int| row[j]@)
}

/// The characters of each field of each record.
pub open spec fn rows_view(rows: Seq<Vec<String>>) -> Seq<Seq<Seq<char>>> {
    Seq::new(rows.len(), |i: int| strs_view(rows[i]@))
}

/// Relies on csv's `ReaderBuilder` (tab delimiter, `flexible`, `Trim::All`,
/// `#` comments, the header read as a record like any other) and
/// `Reader::records`: splits a text into records of fields.
#[verifier::external_body]
pub(crate) fn read_tsv(text: &str) -> (r: Result<Vec<Vec<String>>, csv::Error>)
    ensures
        match r {
            Ok(rows) => tsv_records(text@) == Some(rows_view(rows@)),
            Err(_) => tsv_records(text@) is None,
        },
{
    csv::ReaderBuilder::new()
        .delimiter(b'\t')
        .flexible(true)
        .trim(csv::Trim::All)
        .comment(Some(b'#'))
        .has_headers(false)
        .from_reader(text.as_bytes())
        .records()
        .map(|r| r.map(|rec| rec.iter().map(|f| f.to_string()).collect()))
        .collect()
}

} // verus!
