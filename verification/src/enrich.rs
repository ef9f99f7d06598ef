//! Joining prior-year descriptions onto records by occupation code.
//!
//! Each enrichment row names an occupation code and a description. The first
//! record with that code takes the description, single quotes doubled, before
//! the text ever reaches the emitter; a row whose code matches no record is
//! ignored, and no record is ever dropped or added here.

use crate::escape::escape_single_quotes;
use crate::escape::escaped;
use crate::join::find_code;
use crate::join::lemma_find_code;
use crate::join::lemma_find_code_at;
use crate::join::lemma_find_code_none;
use crate::records::models;
use crate::records::RateRecord;
use crate::records::RecordModel;
use crate::records::find_column;
use crate::records::TableError;
use vstd::prelude::*;

verus! {

/// The mathematical content of one enrichment row.
pub ghost struct PairModel {
    pub code: Seq<char>,
    pub description: Seq<char>,
}

/// One prior-year row: an occupation code and its description, as read.
pub struct EnrichmentRow {
    pub occupation_code: String,
    pub description: String,
}

impl View for EnrichmentRow {
    type V = PairModel;

    open spec fn view(&self) -> PairModel {
        PairModel { code: self.occupation_code@, description: self.description@ }
    }
}

/// The models of a sequence of enrichment rows.
pub open spec fn pair_models(ps: Seq<EnrichmentRow>) -> Seq<PairModel> {
    ps.map_values(|p: EnrichmentRow| p@)
}

/// Positions of the two enrichment columns in a header, by name.
pub open spec fn enrichment_columns(h: Seq<Seq<char>>) -> Option<(int, int)> {
    match (h.index_of_first("occupation_code"@), h.index_of_first("description"@)) {
        (Some(cc), Some(cd)) => Some((cc, cd)),
        _ => None,
    }
}

/// The row reaches both columns.
pub open spec fn pair_row_good(row: Seq<Seq<char>>, cc: int, cd: int) -> bool {
    &&& 0 <= cc < row.len()
    &&& 0 <= cd < row.len()
}

/// The pair a good row yields.
pub open spec fn pair_row_model(row: Seq<Seq<char>>, cc: int, cd: int) -> PairModel {
    PairModel { code: row[cc], description: row[cd] }
}

/// What one enrichment pair does: the first record of its code takes the
/// escaped description, its other fields untouched; no match changes nothing.
pub open spec fn apply_pair(m: Seq<RecordModel>, p: PairModel) -> Seq<RecordModel> {
    match find_code(m, p.code) {
        Some(i) => m.update(
            i,
            RecordModel {
                code: m[i].code,
                title: m[i].title,
                rate: m[i].rate,
                description: escaped(p.description),
            },
        ),
        None => m,
    }
}

/// The records after all pairs are applied, in row order.
pub open spec fn enriched(m: Seq<RecordModel>, ps: Seq<PairModel>) -> Seq<RecordModel>
    decreases ps.len(),
{
    if ps.len() == 0 {
        m
    } else {
        apply_pair(enriched(m, ps.drop_last()), ps.last())
    }
}

/// Build one enrichment pair per data row, or reject the first short row.
pub fn pairs_from_rows(header: &Vec<String>, rows: &Vec<Vec<String>>) -> (r: Result<
    Vec<EnrichmentRow>,
    TableError,
>)
    ensures
        ({
            let h = header.deep_view();
            let t = rows.deep_view();
            match r {
                Ok(ps) => {
                    &&& enrichment_columns(h) matches Some((cc, cd)) && {
                        &&& ps@.len() == t.len()
                        &&& forall|j: int|
                            0 <= j < t.len() ==> pair_row_good(#[trigger] t[j], cc, cd)
                        &&& forall|j: int|
                            0 <= j < t.len() ==> pair_models(ps@)[j] == pair_row_model(
                                #[trigger] t[j],
                                cc,
                                cd,
                            )
                    }
                },
                Err(TableError::MissingHeader) => enrichment_columns(h) is None,
                Err(TableError::MissingField { row }) => {
                    &&& enrichment_columns(h) matches Some((cc, cd)) && {
                        &&& row < t.len()
                        &&& !(cc < t[row as int].len() && cd < t[row as int].len())
                        &&& forall|j: int| 0 <= j < row ==> pair_row_good(#[trigger] t[j], cc, cd)
                    }
                },
                Err(_) => false,
            }
        }),
{
    let ghost h = header.deep_view();
    let ghost t = rows.deep_view();
    let cc = match find_column(header, "occupation_code") {
        Some(i) => i,
        None => {
            return Err(TableError::MissingHeader);
        },
    };
    let cd = match find_column(header, "description") {
        Some(i) => i,
        None => {
            return Err(TableError::MissingHeader);
        },
    };
    assert(enrichment_columns(h) == Some((cc as int, cd as int)));
    let mut out: Vec<EnrichmentRow> = Vec::new();
    let n = rows.len();
    let mut i: usize = 0;
    while i < n
        invariant
            n == rows@.len(),
            h == header.deep_view(),
            t == rows.deep_view(),
            t.len() == n,
            enrichment_columns(h) == Some((cc as int, cd as int)),
            i <= n,
            out@.len() == i,
            forall|j: int| 0 <= j < i ==> pair_row_good(#[trigger] t[j], cc as int, cd as int),
            forall|j: int|
                0 <= j < i ==> pair_models(out@)[j] == pair_row_model(
                    #[trigger] t[j],
                    cc as int,
                    cd as int,
                ),
        decreases n - i,
    {
        let row = &rows[i];
        proof {
            assert(t[i as int] == rows@[i as int].deep_view());
        }
        if !(cc < row.len() && cd < row.len()) {
            return Err(TableError::MissingField { row: i });
        }
        proof {
            assert(t[i as int][cc as int] == row@[cc as int]@);
            assert(t[i as int][cd as int] == row@[cd as int]@);
        }
        out.push(
            EnrichmentRow { occupation_code: row[cc].clone(), description: row[cd].clone() },
        );
        i += 1;
    }
    Ok(out)
}

/// Apply one enrichment pair to the records.
fn apply_one(records: &mut Vec<RateRecord>, pair: &EnrichmentRow)
    ensures
        models(final(records)@) == apply_pair(models(old(records)@), pair@),
{
    let ghost m = models(old(records)@);
    let n = records.len();
    let mut j: usize = 0;
    while j < n
        invariant
            records@ == old(records)@,
            m == models(records@),
            n == records@.len(),
            j <= n,
            forall|q: int| 0 <= q < j ==> m[q].code != pair@.code,
        decreases n - j,
    {
        if records[j].occupation_code.eq(&pair.occupation_code) {
            proof {
                assert(m[j as int].code == pair@.code);
                lemma_find_code_at(m, pair@.code, j as int);
            }
            let updated = RateRecord {
                occupation_code: records[j].occupation_code.clone(),
                title: records[j].title.clone(),
                rate: crate::rate::Rate { text: records[j].rate.text.clone() },
                description: escape_single_quotes(pair.description.as_str()),
            };
            records.set(j, updated);
            proof {
                assert(models(records@) =~= apply_pair(m, pair@));
            }
            return ;
        }
        assert(m[j as int].code != pair@.code);
        j += 1;
    }
    proof {
        lemma_find_code_none(m, pair@.code);
        assert(models(records@) =~= apply_pair(m, pair@));
    }
}

/// Overwrite the description of each record that an enrichment row matches,
/// escaping single quotes as the text is stored; rows that match nothing are
/// ignored, and the record count never changes.
pub fn enrich_records(records: &mut Vec<RateRecord>, pairs: &Vec<EnrichmentRow>)
    ensures
        models(final(records)@) == enriched(models(old(records)@), pair_models(pairs@)),
{
    let ghost m0 = models(old(records)@);
    let ghost qs = pair_models(pairs@);
    let n = pairs.len();
    let mut i: usize = 0;
    proof {
        assert(qs.take(0) =~= Seq::<PairModel>::empty());
    }
    while i < n
        invariant
            m0 == models(old(records)@),
            qs == pair_models(pairs@),
            n == pairs@.len(),
            i <= n,
            models(records@) == enriched(m0, qs.take(i as int)),
        decreases n - i,
    {
        apply_one(records, &pairs[i]);
        proof {
            let prefix = qs.take(i + 1);
            assert(prefix.drop_last() =~= qs.take(i as int));
            assert(prefix.last() == pairs@[i as int]@);
        }
        i += 1;
    }
    proof {
        assert(qs.take(n as int) =~= qs);
    }
}

/// Enrichment never adds or drops a record, and every field but the
/// description is untouched.
pub proof fn lemma_enriched_fields(m: Seq<RecordModel>, ps: Seq<PairModel>)
    ensures
        enriched(m, ps).len() == m.len(),
        forall|i: int|
            0 <= i < m.len() ==> {
                &&& (#[trigger] enriched(m, ps)[i]).code == m[i].code
                &&& enriched(m, ps)[i].title == m[i].title
                &&& enriched(m, ps)[i].rate == m[i].rate
            },
    decreases ps.len(),
{
    if ps.len() == 0 {
    } else {
        lemma_enriched_fields(m, ps.drop_last());
        lemma_find_code(enriched(m, ps.drop_last()), ps.last().code);
    }
}

/// A record that no enrichment row matches comes through enrichment whole:
/// in particular its description stays what it was, the empty string for a
/// freshly built record.
pub proof fn lemma_enriched_unmatched_record(m: Seq<RecordModel>, ps: Seq<PairModel>, i: int)
    requires
        0 <= i < m.len(),
        forall|q: int| 0 <= q < ps.len() ==> ps[q].code != m[i].code,
    ensures
        enriched(m, ps).len() == m.len(),
        enriched(m, ps)[i] == m[i],
    decreases ps.len(),
{
    lemma_enriched_fields(m, ps);
    if ps.len() == 0 {
    } else {
        assert(forall|q: int| 0 <= q < ps.len() - 1 ==> ps.drop_last()[q] == ps[q]);
        lemma_enriched_unmatched_record(m, ps.drop_last(), i);
        let em = enriched(m, ps.drop_last());
        let p = ps.last();
        lemma_find_code(em, p.code);
        match find_code(em, p.code) {
            Some(k) => {
                lemma_enriched_fields(m, ps.drop_last());
                assert(em[i].code == m[i].code);
                assert(k != i);
            },
            None => {},
        }
    }
}

/// An enrichment pair whose code matches no record changes nothing.
pub proof fn lemma_unmatched_pair(m: Seq<RecordModel>, p: PairModel)
    requires
        forall|i: int| 0 <= i < m.len() ==> m[i].code != p.code,
    ensures
        apply_pair(m, p) == m,
{
    lemma_find_code_none(m, p.code);
}

/// Every description after enrichment is either the record's own or the
/// escaped text of an enrichment row with the record's code. So a single
/// quote in a description never reaches the emitter alone or escaped twice:
/// it stands exactly doubled.
pub proof fn lemma_enriched_description(m: Seq<RecordModel>, ps: Seq<PairModel>, i: int)
    requires
        0 <= i < m.len(),
    ensures
        enriched(m, ps).len() == m.len(),
        enriched(m, ps)[i].description == m[i].description || exists|q: int|
            0 <= q < ps.len() && ps[q].code == m[i].code && enriched(m, ps)[i].description
                == escaped(ps[q].description),
    decreases ps.len(),
{
    lemma_enriched_fields(m, ps);
    if ps.len() == 0 {
    } else {
        lemma_enriched_description(m, ps.drop_last(), i);
        lemma_enriched_fields(m, ps.drop_last());
        assert(forall|q: int| 0 <= q < ps.len() - 1 ==> ps.drop_last()[q] == ps[q]);
        let em = enriched(m, ps.drop_last());
        let p = ps.last();
        lemma_find_code(em, p.code);
        match find_code(em, p.code) {
            Some(k) => {
                if k == i {
                    assert(em[i].code == m[i].code);
                    assert(ps[ps.len() - 1].code == m[i].code);
                    assert(enriched(m, ps)[i].description == escaped(ps[ps.len() - 1].description));
                } else {
                    if enriched(m, ps.drop_last())[i].description != m[i].description {
                        let q = choose|q: int|
                            0 <= q < ps.drop_last().len() && ps.drop_last()[q].code == m[i].code
                                && em[i].description == escaped(ps.drop_last()[q].description);
                        assert(0 <= q < ps.len() && ps[q].code == m[i].code && enriched(
                            m,
                            ps,
                        )[i].description == escaped(ps[q].description));
                    }
                }
            },
            None => {},
        }
    }
}

} // verus!
