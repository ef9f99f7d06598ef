//! Rendering records as a SQL script.
//!
//! The script is a header, one statement block per record in collection
//! order, and a footer. Two block shapes (plain insert, or an upsert guarded
//! by an existence check on the occupation code) and two wrapper styles (a
//! year-guarded block, or a transaction) are chosen per run. All text fields
//! are interpolated verbatim: descriptions arrive with their quotes already
//! doubled by enrichment, while titles and occupation codes are embedded
//! unescaped, as the generated scripts always had them — a known
//! injection-shaped weakness of the format, kept deliberately rather than
//! silently changed.

use crate::num::dec_int;
use crate::num::i32_to_string;
use crate::records::models;
use crate::records::RateRecord;
use crate::records::RecordModel;
use vstd::prelude::*;
use vstd::string::StringExecFns;

verus! {

/// The shape of the statement block emitted per record.
#[derive(Debug, Clone, Copy, PartialEq, Eq, Structural)]
pub enum StatementShape {
    /// A single `INSERT` per record, with a fresh row identifier.
    InsertOnly,
    /// An existence check on the occupation code: `INSERT` when absent,
    /// `UPDATE` of the rate when present.
    Upsert,
}

/// The statement wrapping the blocks.
#[derive(Debug, Clone, Copy, PartialEq, Eq, Structural)]
pub enum WrapperStyle {
    /// A guard that skips the whole script when the year is already loaded.
    ExistenceGuard,
    /// A transaction around the blocks.
    Transaction,
}

/// The script text before the first record block.
pub open spec fn header_text(year: int, wrapper: WrapperStyle) -> Seq<char> {
    match wrapper {
        WrapperStyle::ExistenceGuard => "IF NOT EXISTS (SELECT 1 FROM Jobs WHERE YEAR = "@
            + dec_int(year) + ")\nBEGIN\n\n"@,
        WrapperStyle::Transaction => "BEGIN TRANSACTION;\n\n"@,
    }
}

/// The script text after the last record block.
pub open spec fn footer_text(wrapper: WrapperStyle) -> Seq<char> {
    match wrapper {
        WrapperStyle::ExistenceGuard => "END;\n"@,
        WrapperStyle::Transaction => "COMMIT;\n"@,
    }
}

/// The plain insert block for one record.
pub open spec fn insert_block(r: RecordModel, year: int) -> Seq<char> {
    "INSERT INTO dbo.Jobs (JobGuid, JobCode, JobTitle, Description, HourlyWageRate, IsSCAJob, CreatedDate, Year)\nVALUES (NEWID(), '"@
        + r.code + "', '"@ + r.title + "', '"@ + r.description + "', "@ + r.rate
        + ", 1, GETUTCDATE(), '"@ + dec_int(year) + "')\n\n"@
}

/// The upsert block for one record: insert when the code is absent for the
/// year, update the rate when it is present.
pub open spec fn upsert_block(r: RecordModel, year: int) -> Seq<char> {
    "IF NOT EXISTS (SELECT 1 FROM dbo.Jobs WHERE JobCode = '"@ + r.code + "' AND Year = '"@
        + dec_int(year) + "')\nBEGIN\n"@ + insert_block(r, year) + "END\nELSE\nBEGIN\nUPDATE dbo.Jobs SET HourlyWageRate = "@
        + r.rate + " WHERE JobCode = '"@ + r.code + "' AND Year = '"@ + dec_int(year)
        + "'\nEND\n\n"@
}

/// The block for one record under the chosen shape.
pub open spec fn record_block(r: RecordModel, year: int, shape: StatementShape) -> Seq<char> {
    match shape {
        StatementShape::InsertOnly => insert_block(r, year),
        StatementShape::Upsert => upsert_block(r, year),
    }
}

/// The blocks of all records, in order.
pub open spec fn blocks_text(rs: Seq<RecordModel>, year: int, shape: StatementShape) -> Seq<char>
    decreases rs.len(),
{
    if rs.len() == 0 {
        Seq::empty()
    } else {
        blocks_text(rs.drop_last(), year, shape) + record_block(rs.last(), year, shape)
    }
}

/// The whole script: header, one block per record, footer.
pub open spec fn script_text(
    rs: Seq<RecordModel>,
    year: int,
    shape: StatementShape,
    wrapper: WrapperStyle,
) -> Seq<char> {
    header_text(year, wrapper) + blocks_text(rs, year, shape) + footer_text(wrapper)
}

/// Render the plain insert block of one record.
fn render_insert_block(r: &RateRecord, year_digits: &String, ghost_year: Ghost<int>) -> (out:
    String)
    requires
        year_digits@ == dec_int(ghost_year@),
    ensures
        out@ == insert_block(r@, ghost_year@),
{
    let mut out = String::from_str(
        "INSERT INTO dbo.Jobs (JobGuid, JobCode, JobTitle, Description, HourlyWageRate, IsSCAJob, CreatedDate, Year)\nVALUES (NEWID(), '",
    );
    out.append(r.occupation_code.as_str());
    out.append("', '");
    out.append(r.title.as_str());
    out.append("', '");
    out.append(r.description.as_str());
    out.append("', ");
    out.append(r.rate.text.as_str());
    out.append(", 1, GETUTCDATE(), '");
    out.append(year_digits.as_str());
    out.append("')\n\n");
    out
}

/// Render the upsert block of one record.
fn render_upsert_block(r: &RateRecord, year_digits: &String, ghost_year: Ghost<int>) -> (out:
    String)
    requires
        year_digits@ == dec_int(ghost_year@),
    ensures
        out@ == upsert_block(r@, ghost_year@),
{
    let mut out = String::from_str("IF NOT EXISTS (SELECT 1 FROM dbo.Jobs WHERE JobCode = '");
    out.append(r.occupation_code.as_str());
    out.append("' AND Year = '");
    out.append(year_digits.as_str());
    out.append("')\nBEGIN\n");
    let inner = render_insert_block(r, year_digits, ghost_year);
    out.append(inner.as_str());
    out.append("END\nELSE\nBEGIN\nUPDATE dbo.Jobs SET HourlyWageRate = ");
    out.append(r.rate.text.as_str());
    out.append(" WHERE JobCode = '");
    out.append(r.occupation_code.as_str());
    out.append("' AND Year = '");
    out.append(year_digits.as_str());
    out.append("'\nEND\n\n");
    out
}

/// Render the whole script for the records, in their order.
pub fn render_script(
    records: &Vec<RateRecord>,
    year: i32,
    shape: StatementShape,
    wrapper: WrapperStyle,
) -> (out: String)
    ensures
        out@ == script_text(models(records@), year as int, shape, wrapper),
{
    let ghost ms = models(records@);
    let year_digits = i32_to_string(year);
    let mut out = match wrapper {
        WrapperStyle::ExistenceGuard => {
            let mut h = String::from_str("IF NOT EXISTS (SELECT 1 FROM Jobs WHERE YEAR = ");
            h.append(year_digits.as_str());
            h.append(")\nBEGIN\n\n");
            h
        },
        WrapperStyle::Transaction => String::from_str("BEGIN TRANSACTION;\n\n"),
    };
    assert(out@ == header_text(year as int, wrapper));
    let n = records.len();
    let mut i: usize = 0;
    proof {
        assert(ms.take(0) =~= Seq::<RecordModel>::empty());
        assert(out@ =~= header_text(year as int, wrapper) + blocks_text(
            ms.take(0),
            year as int,
            shape,
        ));
    }
    while i < n
        invariant
            ms == models(records@),
            n == records@.len(),
            i <= n,
            year_digits@ == dec_int(year as int),
            out@ == header_text(year as int, wrapper) + blocks_text(
                ms.take(i as int),
                year as int,
                shape,
            ),
        decreases n - i,
    {
        let block = match shape {
            StatementShape::InsertOnly => render_insert_block(
                &records[i],
                &year_digits,
                Ghost(year as int),
            ),
            StatementShape::Upsert => render_upsert_block(
                &records[i],
                &year_digits,
                Ghost(year as int),
            ),
        };
        out.append(block.as_str());
        proof {
            let prefix = ms.take(i + 1);
            assert(prefix.drop_last() =~= ms.take(i as int));
            assert(prefix.last() == records@[i as int]@);
            assert(out@ =~= header_text(year as int, wrapper) + blocks_text(
                prefix,
                year as int,
                shape,
            ));
        }
        i += 1;
    }
    proof {
        assert(ms.take(n as int) =~= ms);
    }
    out.append(
        match wrapper {
            WrapperStyle::ExistenceGuard => "END;\n",
            WrapperStyle::Transaction => "COMMIT;\n",
        },
    );
    proof {
        assert(out@ =~= script_text(ms, year as int, shape, wrapper));
    }
    out
}

} // verus!
