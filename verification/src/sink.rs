//! The output format: comma-separated records, every field quoted.

use crate::text::joined;
use vstd::prelude::*;

verus! {

/// `field` with each double quote written twice.
pub open spec fn doubled_quotes(field: Seq<char>) -> Seq<char>
    decreases field.len(),
{
    if field.len() == 0 {
        Seq::empty()
    } else if field.last() == '"' {
        doubled_quotes(field.drop_last()).push('"').push('"')
    } else {
        doubled_quotes(field.drop_last()).push(field.last())
    }
}

/// A field as it is written: between double quotes, its own quotes doubled.
pub open spec fn quoted_field() -> spec_fn(Seq<char>) -> Seq<char> {
    |field: Seq<char>| seq!['"'] + doubled_quotes(field) + seq!['"']
}

/// One record as it is written: its quoted fields with commas between them,
/// and a line feed at the end.
pub open spec fn csv_line(fields: Seq<Seq<char>>) -> Seq<char> {
    joined(fields.map_values(quoted_field()), seq![',']) + seq!['\n']
}

/// The names of the five columns, in order.
pub open spec fn header_fields() -> Seq<Seq<char>> {
    seq!["patent_id"@, "status"@, "cpc_list"@, "citations"@, "family_patents"@]
}

/// Encodes one record with `csv::Writer::write_record`, on a writer made by
/// `csv::WriterBuilder` with `QuoteStyle::Always` over a buffer in memory.
/// Trusted: the writer puts every field between double quotes, doubles the
/// quotes inside it, separates fields by a comma and ends the record with a
/// line feed; on a buffer in memory the first record of a writer cannot fail.
#[verifier::external_body]
pub(crate) fn encode_record(fields: &Vec<String>) -> (line: String)
    requires
        fields.len() > 0,
    ensures
        line@ == csv_line(fields.deep_view()),
{
    let mut writer = csv::WriterBuilder::new().quote_style(csv::QuoteStyle::Always).from_writer(
        Vec::new(),
    );
    let _ = writer.write_record(fields);
    let bytes = writer.into_inner().unwrap_or_default();
    String::from_utf8_lossy(&bytes).into_owned()
}

/// The header line, which names the five columns.
pub fn header_line() -> (line: String)
    ensures
        line@ == csv_line(header_fields()),
{
    let mut names: Vec<String> = Vec::new();
    names.push("patent_id".to_owned());
    names.push("status".to_owned());
    names.push("cpc_list".to_owned());
    names.push("citations".to_owned());
    names.push("family_patents".to_owned());
    assert(names.deep_view() =~= header_fields());
    encode_record(&names)
}

} // verus!
