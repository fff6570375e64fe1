//! The layout of what a run writes: timing tables and result vectors.
//!
//! Numbers with a fraction are formatted by the caller; this module says
//! which fields and values stand where.

use vstd::prelude::*;
use vstd::string::StringExecFns;
use crate::benchmark::TimeResult;
use crate::text::{decimal, push_decimal};

verus! {

/// Values on one line of a result file.
pub const VALUES_PER_LINE: usize = 4;

/// The text of a truth value.
pub open spec fn bool_text(value: bool) -> Seq<char> {
    if value {
        "true"@
    } else {
        "false"@
    }
}

/// The line of `record` in a timing table: sample count, host duration,
/// device duration, mapped flag and split flag, separated by commas.
pub open spec fn csv_row_of(
    record: TimeResult,
    runtime_host: Seq<char>,
    runtime_device: Seq<char>,
) -> Seq<char> {
    decimal(record.num_samples as nat) + ","@ + runtime_host + ","@ + runtime_device + ","@
        + bool_text(record.mm) + ","@ + bool_text(record.split)
}

/// The name of the file that holds the results of the run over `samples`
/// samples.
pub open spec fn result_file_name_of(samples: nat) -> Seq<char> {
    "result_"@ + decimal(samples) + "_samples.txt"@
}

/// Line `i` of the result file of `values`: the values `4 * i .. 4 * i + 4`.
pub open spec fn result_row(values: Seq<u32>, i: int) -> Seq<u32> {
    values.subrange(4 * i, 4 * i + 4)
}

/// One line of a result file: four texts with a blank between them.
pub open spec fn result_line_of(a: Seq<char>, b: Seq<char>, c: Seq<char>, d: Seq<char>) -> Seq<
    char,
> {
    a + " "@ + b + " "@ + c + " "@ + d
}

/// The first line of a timing table.
pub fn csv_header() -> (header: &'static str)
    ensures
        header@ == "Samples,Runtime host,Runtime device,MM,Split"@,
{
    "Samples,Runtime host,Runtime device,MM,Split"
}

/// The name of the table of all runs.
pub fn time_results_file_name() -> (name: &'static str)
    ensures
        name@ == "time_results.csv"@,
{
    "time_results.csv"
}

/// The name of the table of the averages per run size.
pub fn time_means_file_name() -> (name: &'static str)
    ensures
        name@ == "time_means.csv"@,
{
    "time_means.csv"
}

/// The line of `record` in a timing table. The two durations are handed in
/// as text.
pub fn csv_row(record: &TimeResult, runtime_host: &str, runtime_device: &str) -> (row: String)
    ensures
        row@ == csv_row_of(*record, runtime_host@, runtime_device@),
{
    let mut row = String::new();
    push_decimal(&mut row, record.num_samples);
    row.append(",");
    row.append(runtime_host);
    row.append(",");
    row.append(runtime_device);
    row.append(",");
    row.append(if record.mm { "true" } else { "false" });
    row.append(",");
    row.append(if record.split { "true" } else { "false" });
    assert(row@ =~= csv_row_of(*record, runtime_host@, runtime_device@));
    row
}

/// The name of the file that holds the results of the run over `samples`
/// samples: `result_{samples}_samples.txt`.
pub fn result_file_name(samples: usize) -> (name: String)
    ensures
        name@ == result_file_name_of(samples as nat),
{
    let mut name = String::from_str("result_");
    push_decimal(&mut name, samples);
    name.append("_samples.txt");
    name
}

/// The lines of a result file: four values per line, in order. Values
/// that do not fill a line are left out.
pub fn result_rows(values: &[u32]) -> (rows: Vec<[u32; 4]>)
    ensures
        rows@.len() == values@.len() / 4,
        forall|i: int| 0 <= i < rows@.len() ==> (#[trigger] rows@[i])@ == result_row(values@, i),
{
    let count: usize = values.len() / VALUES_PER_LINE;
    let mut rows: Vec<[u32; 4]> = Vec::new();
    let mut i: usize = 0;
    while i < count
        invariant
            count == values@.len() / 4,
            values@.len() <= usize::MAX,
            i <= count,
            rows@.len() == i,
            forall|j: int| 0 <= j < i ==> (#[trigger] rows@[j])@ == result_row(values@, j),
        decreases count - i,
    {
        let base: usize = i * VALUES_PER_LINE;
        let row: [u32; 4] = [values[base], values[base + 1], values[base + 2], values[base + 3]];
        assert(row@ =~= result_row(values@, i as int));
        rows.push(row);
        i += 1;
    }
    rows
}

/// One line of a result file: the four texts with a blank between them.
pub fn result_line(a: &str, b: &str, c: &str, d: &str) -> (line: String)
    ensures
        line@ == result_line_of(a@, b@, c@, d@),
{
    let mut line = String::from_str(a);
    line.append(" ");
    line.append(b);
    line.append(" ");
    line.append(c);
    line.append(" ");
    line.append(d);
    line
}

} // verus!
