//! The whole run: parse the source table, optionally join the prior-year
//! descriptions, and render the SQL script.
//!
//! Reading files, reading the clock, and writing the output stay with the
//! caller; this module takes file contents as bytes and a base calendar
//! year and hands the script text back, so everything between is verified.
//! The delimiter-separated tables themselves are parsed by the csv crate
//! behind a trusted wrapper.

use crate::enrich::enrich_records;
use crate::enrich::enriched;
use crate::enrich::lemma_enriched_fields;
use crate::enrich::lemma_enriched_unmatched_record;
use crate::enrich::pair_models;
use crate::enrich::pair_row_good;
use crate::enrich::pair_row_model;
use crate::enrich::pairs_from_rows;
use crate::enrich::enrichment_columns;
use crate::enrich::PairModel;
use crate::escape::count_char;
use crate::escape::escaped;
use crate::escape::lemma_escaped_quote_count;
use crate::join::key_by_code;
use crate::join::keyed;
use crate::join::lemma_keyed_len;
use crate::join::lemma_keyed_of_unique;
use crate::join::unique_codes;
use crate::num::dec_int;
use crate::num::i32_to_string;
use crate::records::models;
use crate::records::records_from_rows;
use crate::records::row_good;
use crate::records::row_model;
use crate::records::source_columns;
use crate::records::RecordModel;
use crate::records::TableError;
use crate::sql::render_script;
use crate::sql::script_text;
use crate::sql::StatementShape;
use crate::sql::WrapperStyle;
use vstd::prelude::*;
use vstd::string::StringExecFns;

verus! {

/// The field delimiter of the source rate file.
pub const PIPE: u8 = 124;

/// The field delimiter of the prior-year export.
pub const COMMA: u8 = 44;

/// Which year a run is generated for, relative to the current calendar year.
#[derive(Debug, Clone, Copy, PartialEq, Eq, Structural)]
pub enum YearPolicy {
    /// The current calendar year.
    CurrentYear,
    /// The year after the current one.
    NextYear,
}

/// How the caller should treat an output file that already exists.
/// Under `CreateNew` a second run against the same fiscal year must fail;
/// under `Overwrite` it must fully replace the file.
#[derive(Debug, Clone, Copy, PartialEq, Eq, Structural)]
pub enum OverwritePolicy {
    CreateNew,
    Overwrite,
}

/// The fiscal year a policy derives from a base year.
pub open spec fn fiscal_year_of(base: int, policy: YearPolicy) -> int {
    match policy {
        YearPolicy::CurrentYear => base,
        YearPolicy::NextYear => base + 1,
    }
}

/// Apply the year policy to a base year, the caller's current calendar year.
pub fn apply_year_policy(base: i32, policy: YearPolicy) -> (y: i32)
    requires
        fiscal_year_of(base as int, policy) <= i32::MAX as int,
    ensures
        y as int == fiscal_year_of(base as int, policy),
{
    match policy {
        YearPolicy::CurrentYear => base,
        YearPolicy::NextYear => base + 1,
    }
}

/// The name of the output file for a fiscal year.
pub open spec fn output_file_name_text(year: int) -> Seq<char> {
    "V1.1.114__Insert_"@ + dec_int(year) + "_SCA_Rates.sql"@
}

/// Render the output file name for a fiscal year.
pub fn output_file_name(year: i32) -> (r: String)
    ensures
        r@ == output_file_name_text(year as int),
{
    let mut out = String::from_str("V1.1.114__Insert_");
    out.append(i32_to_string(year).as_str());
    out.append("_SCA_Rates.sql");
    out
}

/// What the csv crate makes of these bytes under this delimiter: the header
/// row and the data rows, or nothing when the bytes are not a well-formed
/// table. The result is a function of the bytes and the delimiter alone.
pub uninterp spec fn csv_table(data: Seq<u8>, delimiter: u8) -> Option<
    (Seq<Seq<char>>, Seq<Seq<Seq<char>>>),
>;

#[verifier::external_type_specification]
#[verifier::external_body]
pub struct ExCsvError(csv::Error);

/// Relies on csv's `ReaderBuilder`, `Reader::headers` and `Reader::records`:
/// parsing delimiter-separated bytes with a header row into one field
/// vector per row, in row order, deterministically.
#[verifier::external_body]
fn read_table_raw(data: &Vec<u8>, delimiter: u8) -> (r: Result<
    (Vec<String>, Vec<Vec<String>>),
    csv::Error,
>)
    ensures
        ({
            let parsed = csv_table(data@, delimiter);
            match r {
                Ok(t) => parsed == Some((t.0.deep_view(), t.1.deep_view())),
                Err(_) => parsed is None,
            }
        }),
{
    let mut rdr = csv::ReaderBuilder::new().delimiter(delimiter).from_reader(data.as_slice());
    let header: Vec<String> = rdr.headers()?.iter().map(|f| f.to_string()).collect();
    let mut rows: Vec<Vec<String>> = Vec::new();
    for record in rdr.records() {
        rows.push(record?.iter().map(|f| f.to_string()).collect());
    }
    Ok((header, rows))
}

/// Parse delimiter-separated bytes into a header row and data rows.
pub fn parse_table(data: &Vec<u8>, delimiter: u8) -> (r: Result<
    (Vec<String>, Vec<Vec<String>>),
    TableError,
>)
    ensures
        ({
            let parsed = csv_table(data@, delimiter);
            match r {
                Ok(t) => parsed == Some((t.0.deep_view(), t.1.deep_view())),
                Err(e) => e == TableError::MalformedTable && parsed is None,
            }
        }),
{
    match read_table_raw(data, delimiter) {
        Ok(t) => Ok(t),
        Err(_) => Err(TableError::MalformedTable),
    }
}

/// The records a good source table yields, one per row in row order.
pub open spec fn source_models(h: Seq<Seq<char>>, t: Seq<Seq<Seq<char>>>) -> Seq<RecordModel> {
    let (ci, ct, cr) = source_columns(h)->Some_0;
    Seq::new(t.len(), |j: int| row_model(t[j], ci, ct, cr))
}

/// Every source row reaches the three columns and has a parsable rate.
pub open spec fn source_rows_good(h: Seq<Seq<char>>, t: Seq<Seq<Seq<char>>>) -> bool {
    source_columns(h) matches Some((ci, ct, cr)) && forall|j: int|
        0 <= j < t.len() ==> row_good(#[trigger] t[j], ci, ct, cr)
}

/// The pairs a good enrichment table yields, one per row in row order.
pub open spec fn enrichment_models(h: Seq<Seq<char>>, t: Seq<Seq<Seq<char>>>) -> Seq<PairModel> {
    let (cc, cd) = enrichment_columns(h)->Some_0;
    Seq::new(t.len(), |j: int| pair_row_model(t[j], cc, cd))
}

/// Every enrichment row reaches both columns.
pub open spec fn enrichment_rows_good(h: Seq<Seq<char>>, t: Seq<Seq<Seq<char>>>) -> bool {
    enrichment_columns(h) matches Some((cc, cd)) && forall|j: int|
        0 <= j < t.len() ==> pair_row_good(#[trigger] t[j], cc, cd)
}

/// The records a whole run emits: the source records as read, or, when an
/// enrichment table takes part, the code-keyed records with descriptions
/// joined on.
pub open spec fn run_models(
    sh: Seq<Seq<char>>,
    st: Seq<Seq<Seq<char>>>,
    enr: Option<(Seq<Seq<char>>, Seq<Seq<Seq<char>>>)>,
) -> Seq<RecordModel> {
    match enr {
        None => source_models(sh, st),
        Some((eh, et)) => enriched(keyed(source_models(sh, st)), enrichment_models(eh, et)),
    }
}

/// One full run on file contents: parse the source table, optionally join
/// prior-year descriptions on by occupation code, and render the SQL script
/// for the fiscal year. The first failure of any stage is the result; there
/// is no row-level skip-and-continue.
pub fn generate_script(
    source_text: &Vec<u8>,
    enrichment_text: Option<&Vec<u8>>,
    year: i32,
    shape: StatementShape,
    wrapper: WrapperStyle,
) -> (r: Result<String, TableError>)
    ensures
        ({
            let src = csv_table(source_text@, PIPE);
            match r {
                Ok(script) => {
                    &&& src matches Some(s) && {
                        &&& source_rows_good(s.0, s.1)
                        &&& match enrichment_text {
                            Some(et) => csv_table(et@, COMMA) matches Some(e) && {
                                &&& enrichment_rows_good(e.0, e.1)
                                &&& script@ == script_text(
                                    run_models(s.0, s.1, Some((e.0, e.1))),
                                    year as int,
                                    shape,
                                    wrapper,
                                )
                            },
                            None => script@ == script_text(
                                run_models(s.0, s.1, None),
                                year as int,
                                shape,
                                wrapper,
                            ),
                        }
                    }
                },
                Err(err) => {
                    ||| (src is None && err == TableError::MalformedTable)
                    ||| (src matches Some(s) && {
                        ||| (source_columns(s.0) is None && err == TableError::MissingHeader)
                        ||| (source_columns(s.0) matches Some((ci, ct, cr)) && {
                            ||| (err matches TableError::MissingField { row } && {
                                &&& row < s.1.len()
                                &&& !(ci < s.1[row as int].len() && ct < s.1[row as int].len()
                                    && cr < s.1[row as int].len())
                                &&& forall|j: int|
                                    0 <= j < row ==> row_good(#[trigger] s.1[j], ci, ct, cr)
                            })
                            ||| (err matches TableError::BadRate { row } && {
                                &&& row < s.1.len()
                                &&& ci < s.1[row as int].len() && ct < s.1[row as int].len() && cr
                                    < s.1[row as int].len()
                                &&& !crate::rate::valid_rate_text(s.1[row as int][cr])
                                &&& forall|j: int|
                                    0 <= j < row ==> row_good(#[trigger] s.1[j], ci, ct, cr)
                            })
                            ||| (source_rows_good(s.0, s.1) && (enrichment_text matches Some(et)
                                && {
                                let enr = csv_table(et@, COMMA);
                                ||| (enr is None && err == TableError::MalformedTable)
                                ||| (enr matches Some(ep) && {
                                    ||| (enrichment_columns(ep.0) is None && err
                                        == TableError::MissingHeader)
                                    ||| (enrichment_columns(ep.0) matches Some((cc, cd)) && err
                                        matches TableError::MissingField { row } && {
                                        &&& row < ep.1.len()
                                        &&& !(cc < ep.1[row as int].len() && cd < ep.1[
                                            row as int].len())
                                        &&& forall|j: int|
                                            0 <= j < row ==> pair_row_good(
                                                #[trigger] ep.1[j],
                                                cc,
                                                cd,
                                            )
                                    })
                                })
                            }))
                        })
                    })
                },
            }
        }),
{
    let table = match parse_table(source_text, PIPE) {
        Ok(t) => t,
        Err(e) => {
            return Err(e);
        },
    };
    let (sh, srows) = table;
    let records = match records_from_rows(&sh, &srows) {
        Ok(rs) => rs,
        Err(e) => {
            return Err(e);
        },
    };
    proof {
        assert(models(records@) =~= source_models(sh.deep_view(), srows.deep_view()));
    }
    match enrichment_text {
        Some(et) => {
            let etable = match parse_table(et, COMMA) {
                Ok(t) => t,
                Err(e) => {
                    return Err(e);
                },
            };
            let (eh, erows) = etable;
            let pairs = match pairs_from_rows(&eh, &erows) {
                Ok(p) => p,
                Err(e) => {
                    return Err(e);
                },
            };
            proof {
                assert(pair_models(pairs@) =~= enrichment_models(
                    eh.deep_view(),
                    erows.deep_view(),
                ));
            }
            let mut collection = key_by_code(&records);
            enrich_records(&mut collection, &pairs);
            let script = render_script(&collection, year, shape, wrapper);
            Ok(script)
        },
        None => Ok(render_script(&records, year, shape, wrapper)),
    }
}

/// Enrichment emits exactly as many records as the keyed join holds, and the
/// keyed join never grows; with all codes distinct nothing is deduplicated,
/// so the emitted record count is the input record count.
pub proof fn lemma_emitted_count(ms: Seq<RecordModel>, ps: Seq<PairModel>)
    ensures
        enriched(keyed(ms), ps).len() == keyed(ms).len(),
        keyed(ms).len() <= ms.len(),
        unique_codes(ms) ==> enriched(keyed(ms), ps).len() == ms.len(),
{
    lemma_enriched_fields(keyed(ms), ps);
    lemma_keyed_len(ms);
    if unique_codes(ms) {
        lemma_keyed_of_unique(ms);
    }
}

/// A record that no enrichment row matches keeps the empty description it
/// was built with, all the way into the emitted script text.
pub proof fn lemma_unmatched_description_empty(
    ms: Seq<RecordModel>,
    ps: Seq<PairModel>,
    i: int,
)
    requires
        0 <= i < ms.len(),
        ms[i].description == Seq::<char>::empty(),
        forall|q: int| 0 <= q < ps.len() ==> ps[q].code != ms[i].code,
    ensures
        enriched(ms, ps).len() == ms.len(),
        enriched(ms, ps)[i].description == Seq::<char>::empty(),
{
    lemma_enriched_unmatched_record(ms, ps, i);
}

/// Each emitted description is the empty text a record is built with, or the
/// escaped text of an enrichment row sharing the record's code — and in the
/// latter case every single quote of that row's text stands exactly doubled,
/// escaped once and never twice.
pub proof fn lemma_description_quotes(ms: Seq<RecordModel>, ps: Seq<PairModel>, i: int)
    requires
        0 <= i < ms.len(),
        ms[i].description == Seq::<char>::empty(),
    ensures
        enriched(ms, ps).len() == ms.len(),
        enriched(ms, ps)[i].description == Seq::<char>::empty() || exists|q: int|
            {
                &&& 0 <= q < ps.len()
                &&& ps[q].code == ms[i].code
                &&& enriched(ms, ps)[i].description == escaped(ps[q].description)
                &&& count_char(enriched(ms, ps)[i].description, '\'') == 2 * count_char(
                    ps[q].description,
                    '\'',
                )
            },
{
    crate::enrich::lemma_enriched_description(ms, ps, i);
    if enriched(ms, ps)[i].description != ms[i].description {
        let q = choose|q: int|
            0 <= q < ps.len() && ps[q].code == ms[i].code && enriched(ms, ps)[i].description
                == escaped(ps[q].description);
        lemma_escaped_quote_count(ps[q].description);
        assert({
            &&& 0 <= q < ps.len()
            &&& ps[q].code == ms[i].code
            &&& enriched(ms, ps)[i].description == escaped(ps[q].description)
            &&& count_char(enriched(ms, ps)[i].description, '\'') == 2 * count_char(
                ps[q].description,
                '\'',
            )
        });
    }
}

} // verus!
