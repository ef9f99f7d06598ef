//! The rate record and its construction from a parsed table.
//!
//! A table arrives as a header row plus data rows of plain text fields. The
//! three source columns are located by name in the header; each data row then
//! yields one record, with an empty description. The first offending row
//! stops the build, as the whole pipeline stops on its first error.

use crate::rate::normal_rate;
use crate::rate::valid_rate_text;
use crate::rate::Rate;
use vstd::prelude::*;
use vstd::string::StringExecFns;

verus! {

/// The mathematical content of one rate record.
pub ghost struct RecordModel {
    pub code: Seq<char>,
    pub title: Seq<char>,
    pub rate: Seq<char>,
    pub description: Seq<char>,
}

/// One prevailing wage rate record.
pub struct RateRecord {
    /// The stable key: join key for enrichment and upsert key in SQL.
    pub occupation_code: String,
    /// Human-readable job title, free text.
    pub title: String,
    /// Hourly wage rate, as normalized decimal text.
    pub rate: Rate,
    /// Prior-year description; empty until enrichment fills it.
    pub description: String,
}

impl View for RateRecord {
    type V = RecordModel;

    open spec fn view(&self) -> RecordModel {
        RecordModel {
            code: self.occupation_code@,
            title: self.title@,
            rate: self.rate@,
            description: self.description@,
        }
    }
}

/// The models of a sequence of records.
pub open spec fn models(rs: Seq<RateRecord>) -> Seq<RecordModel> {
    rs.map_values(|r: RateRecord| r@)
}

impl RateRecord {
    /// A record with the same fields.
    pub fn duplicate(&self) -> (c: RateRecord)
        ensures
            c@ == self@,
    {
        RateRecord {
            occupation_code: self.occupation_code.clone(),
            title: self.title.clone(),
            rate: Rate { text: self.rate.text.clone() },
            description: self.description.clone(),
        }
    }
}

/// Why a parsed table was rejected.
#[derive(Debug, Clone, Copy, PartialEq, Eq, Structural)]
pub enum TableError {
    /// The text was not a well-formed delimiter-separated table.
    MalformedTable,
    /// A required column name is missing from the header row.
    MissingHeader,
    /// The row does not reach all required columns.
    MissingField { row: usize },
    /// The rate field of the row is not decimal text.
    BadRate { row: usize },
}

/// Positions of the three source columns in a header, by name.
pub open spec fn source_columns(h: Seq<Seq<char>>) -> Option<(int, int, int)> {
    match (
        h.index_of_first("occupation_code"@),
        h.index_of_first("title"@),
        h.index_of_first("rate"@),
    ) {
        (Some(ci), Some(ct), Some(cr)) => Some((ci, ct, cr)),
        _ => None,
    }
}

/// The row reaches all three columns and its rate field parses.
pub open spec fn row_good(row: Seq<Seq<char>>, ci: int, ct: int, cr: int) -> bool {
    &&& 0 <= ci < row.len()
    &&& 0 <= ct < row.len()
    &&& 0 <= cr < row.len()
    &&& valid_rate_text(row[cr])
}

/// The record a good row yields.
pub open spec fn row_model(row: Seq<Seq<char>>, ci: int, ct: int, cr: int) -> RecordModel {
    RecordModel {
        code: row[ci],
        title: row[ct],
        rate: normal_rate(row[cr]),
        description: Seq::empty(),
    }
}

/// An occurrence at `i`, with nothing equal before it, is the first.
proof fn lemma_first_occurrence(h: Seq<Seq<char>>, name: Seq<char>, i: int)
    requires
        0 <= i < h.len(),
        h[i] == name,
        forall|j: int| 0 <= j < i ==> h[j] != name,
    ensures
        h.index_of_first(name) == Some(i),
{
    h.index_of_first_ensures(name);
    assert(h.contains(name)) by {
        assert(h[i] == name);
    }
}

/// Find the first header cell that equals `name`.
pub(crate) fn find_column(header: &Vec<String>, name: &str) -> (r: Option<usize>)
    ensures
        match r {
            Some(i) => header.deep_view().index_of_first(name@) == Some(i as int),
            None => header.deep_view().index_of_first(name@) is None,
        },
{
    let target = String::from_str(name);
    let ghost h = header.deep_view();
    let n = header.len();
    let mut i: usize = 0;
    while i < n
        invariant
            n == header@.len(),
            h == header.deep_view(),
            h.len() == n,
            target@ == name@,
            i <= n,
            forall|j: int| 0 <= j < i ==> h[j] != name@,
        decreases n - i,
    {
        if header[i].eq(&target) {
            proof {
                assert(h[i as int] == header@[i as int]@);
                lemma_first_occurrence(h, name@, i as int);
            }
            return Some(i);
        }
        assert(h[i as int] == header@[i as int]@);
        i += 1;
    }
    proof {
        h.index_of_first_ensures(name@);
        assert(!h.contains(name@));
    }
    None
}

/// Build one record per data row, or reject the first row that fails.
///
/// On success there is exactly one record per row, in row order, each with an
/// empty description. The error says exactly what was wrong: a missing header
/// name, or the first row that is short or carries unparsable rate text.
pub fn records_from_rows(header: &Vec<String>, rows: &Vec<Vec<String>>) -> (r: Result<
    Vec<RateRecord>,
    TableError,
>)
    ensures
        ({
            let h = header.deep_view();
            let t = rows.deep_view();
            match r {
                Ok(recs) => {
                    &&& source_columns(h) matches Some((ci, ct, cr)) && {
                        &&& recs@.len() == t.len()
                        &&& forall|j: int| 0 <= j < t.len() ==> row_good(#[trigger] t[j], ci, ct, cr)
                        &&& forall|j: int|
                            0 <= j < t.len() ==> models(recs@)[j] == row_model(
                                #[trigger] t[j],
                                ci,
                                ct,
                                cr,
                            )
                    }
                },
                Err(TableError::MissingHeader) => source_columns(h) is None,
                Err(TableError::MissingField { row }) => {
                    &&& source_columns(h) matches Some((ci, ct, cr)) && {
                        &&& row < t.len()
                        &&& !(ci < t[row as int].len() && ct < t[row as int].len() && cr
                            < t[row as int].len())
                        &&& forall|j: int| 0 <= j < row ==> row_good(#[trigger] t[j], ci, ct, cr)
                    }
                },
                Err(TableError::BadRate { row }) => {
                    &&& source_columns(h) matches Some((ci, ct, cr)) && {
                        &&& row < t.len()
                        &&& ci < t[row as int].len() && ct < t[row as int].len() && cr < t[
                            row as int].len()
                        &&& !valid_rate_text(t[row as int][cr])
                        &&& forall|j: int| 0 <= j < row ==> row_good(#[trigger] t[j], ci, ct, cr)
                    }
                },
                Err(TableError::MalformedTable) => false,
            }
        }),
{
    let ghost h = header.deep_view();
    let ghost t = rows.deep_view();
    let ci = match find_column(header, "occupation_code") {
        Some(i) => i,
        None => {
            return Err(TableError::MissingHeader);
        },
    };
    let ct = match find_column(header, "title") {
        Some(i) => i,
        None => {
            return Err(TableError::MissingHeader);
        },
    };
    let cr = match find_column(header, "rate") {
        Some(i) => i,
        None => {
            return Err(TableError::MissingHeader);
        },
    };
    assert(source_columns(h) == Some((ci as int, ct as int, cr as int)));
    let mut out: Vec<RateRecord> = Vec::new();
    let n = rows.len();
    let mut i: usize = 0;
    while i < n
        invariant
            n == rows@.len(),
            h == header.deep_view(),
            t == rows.deep_view(),
            t.len() == n,
            source_columns(h) == Some((ci as int, ct as int, cr as int)),
            i <= n,
            out@.len() == i,
            forall|j: int| 0 <= j < i ==> row_good(#[trigger] t[j], ci as int, ct as int, cr as int),
            forall|j: int|
                0 <= j < i ==> models(out@)[j] == row_model(
                    #[trigger] t[j],
                    ci as int,
                    ct as int,
                    cr as int,
                ),
        decreases n - i,
    {
        let row = &rows[i];
        proof {
            assert(t[i as int] == rows@[i as int].deep_view());
        }
        if !(ci < row.len() && ct < row.len() && cr < row.len()) {
            return Err(TableError::MissingField { row: i });
        }
        proof {
            assert(t[i as int][cr as int] == row@[cr as int]@);
            assert(t[i as int][ci as int] == row@[ci as int]@);
            assert(t[i as int][ct as int] == row@[ct as int]@);
        }
        let rate = match Rate::parse(row[cr].as_str()) {
            Some(rt) => rt,
            None => {
                return Err(TableError::BadRate { row: i });
            },
        };
        out.push(
            RateRecord {
                occupation_code: row[ci].clone(),
                title: row[ct].clone(),
                rate,
                description: String::new(),
            },
        );
        i += 1;
    }
    Ok(out)
}

} // verus!
