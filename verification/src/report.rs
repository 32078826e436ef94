//! Results as rows of named text fields, for callers that hand them on as
//! plain text.

use crate::aggregator::{ExtractionResults, FiledResult, FiledView};
use crate::resolver::{AnalysisResult, AnalysisResults, ResultView};
use crate::text::{decimal, render_decimal};
use vstd::prelude::*;

verus! {

/// A row as text: the name and the value of each field.
pub open spec fn row_text(row: Vec<(String, String)>) -> Seq<(Seq<char>, Seq<char>)> {
    row@.map_values(|f: (String, String)| (f.0@, f.1@))
}

/// The fields of one analysis result: description, id, name, confidence,
/// offset and size, the numbers in decimal.
pub open spec fn analysis_row(e: ResultView) -> Seq<(Seq<char>, Seq<char>)> {
    seq![
        ("description"@, e.description),
        ("id"@, e.id),
        ("name"@, e.name),
        ("confidence"@, e.confidence.label_text()),
        ("offset"@, decimal(e.offset as nat)),
        ("size"@, decimal(e.size as nat)),
    ]
}

/// The size of an extraction as text: the number in decimal, or `Unknown`.
pub open spec fn size_text(size: Option<usize>) -> Seq<char> {
    match size {
        Some(n) => decimal(n as nat),
        None => "Unknown"@,
    }
}

/// A truth value as text: `true` or `false`.
pub open spec fn flag_text(flag: bool) -> Seq<char> {
    if flag {
        "true"@
    } else {
        "false"@
    }
}

/// The fields of one extraction result: key, size, success, extractor and
/// output directory.
pub open spec fn extraction_row(f: FiledView) -> Seq<(Seq<char>, Seq<char>)> {
    seq![
        ("key"@, f.key),
        ("size"@, size_text(f.result.size)),
        ("success"@, flag_text(f.result.success)),
        ("extractor"@, f.result.extractor),
        ("output_directory"@, f.result.output_directory),
    ]
}

fn field(name: &str, value: String) -> (f: (String, String))
    ensures
        f.0@ == name@,
        f.1@ == value@,
{
    (name.to_owned(), value)
}

/// Renders one analysis result as a row.
pub fn describe_match(entry: &AnalysisResult) -> (row: Vec<(String, String)>)
    ensures
        row_text(row) == analysis_row(entry@),
{
    let mut row: Vec<(String, String)> = Vec::new();
    row.push(field("description", entry.description.clone()));
    row.push(field("id", entry.id.clone()));
    row.push(field("name", entry.name.clone()));
    row.push(field("confidence", entry.confidence.label()));
    row.push(field("offset", render_decimal(entry.offset)));
    row.push(field("size", render_decimal(entry.size)));
    assert(row_text(row) =~= analysis_row(entry@));
    row
}

/// Renders one extraction result as a row.
pub fn describe_extraction(filed: &FiledResult) -> (row: Vec<(String, String)>)
    ensures
        row_text(row) == extraction_row(filed@),
{
    let size = match filed.result.size {
        Some(n) => render_decimal(n),
        None => "Unknown".to_owned(),
    };
    let success = if filed.result.success {
        "true".to_owned()
    } else {
        "false".to_owned()
    };
    let mut row: Vec<(String, String)> = Vec::new();
    row.push(field("key", filed.key.clone()));
    row.push(field("size", size));
    row.push(field("success", success));
    row.push(field("extractor", filed.result.extractor.clone()));
    row.push(field("output_directory", filed.result.output_directory.clone()));
    assert(row_text(row) =~= extraction_row(filed@));
    row
}

/// Renders the results of a scan, one row for each entry, in order.
pub fn analysis_rows(results: &AnalysisResults) -> (rows: Vec<Vec<(String, String)>>)
    ensures
        rows@.len() == results@.len(),
        forall|i: int| 0 <= i < rows@.len() ==> row_text(#[trigger] rows@[i]) == analysis_row(results@[i]),
{
    let mut rows: Vec<Vec<(String, String)>> = Vec::new();
    let mut i: usize = 0;
    while i < results.len()
        invariant
            i <= results@.len(),
            rows@.len() == i,
            forall|k: int| 0 <= k < i ==> row_text(#[trigger] rows@[k]) == analysis_row(results@[k]),
        decreases results@.len() - i,
    {
        rows.push(describe_match(results.get(i)));
        i += 1;
    }
    rows
}

/// Renders the results of an extraction, one row for each entry, in the
/// order they were filed.
pub fn extraction_rows(results: &ExtractionResults) -> (rows: Vec<Vec<(String, String)>>)
    ensures
        rows@.len() == results@.len(),
        forall|i: int|
            0 <= i < rows@.len() ==> row_text(#[trigger] rows@[i]) == extraction_row(results@[i]),
{
    let mut rows: Vec<Vec<(String, String)>> = Vec::new();
    let mut i: usize = 0;
    while i < results.len()
        invariant
            i <= results@.len(),
            rows@.len() == i,
            forall|k: int| 0 <= k < i ==> row_text(#[trigger] rows@[k]) == extraction_row(results@[k]),
        decreases results@.len() - i,
    {
        rows.push(describe_extraction(results.entry(i)));
        i += 1;
    }
    rows
}

} // verus!
