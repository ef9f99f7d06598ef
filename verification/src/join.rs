//! The code-keyed collection of records.
//!
//! The keyed join strategy: records are folded into a collection keyed by
//! occupation code, last write winning, before enrichment looks codes up.
//! The collection here is a vector ordered by first appearance of each code,
//! so a run's output order is deterministic. Cost is one linear scan per
//! record; the tables are a few hundred rows.

use crate::records::models;
use crate::records::RateRecord;
use crate::records::RecordModel;
use vstd::prelude::*;

verus! {

/// Index of the first record in `m` whose code is `code`.
pub open spec fn find_code(m: Seq<RecordModel>, code: Seq<char>) -> Option<int>
    decreases m.len(),
{
    if m.len() == 0 {
        None
    } else if m.first().code == code {
        Some(0)
    } else {
        match find_code(m.drop_first(), code) {
            Some(i) => Some(i + 1),
            None => None,
        }
    }
}

/// `find_code` finds the first matching index, or reports that none matches.
pub proof fn lemma_find_code(m: Seq<RecordModel>, code: Seq<char>)
    ensures
        match find_code(m, code) {
            Some(i) => {
                &&& 0 <= i < m.len()
                &&& m[i].code == code
                &&& forall|j: int| 0 <= j < i ==> m[j].code != code
            },
            None => forall|j: int| 0 <= j < m.len() ==> m[j].code != code,
        },
    decreases m.len(),
{
    if m.len() == 0 {
    } else if m.first().code == code {
    } else {
        let sub = m.drop_first();
        lemma_find_code(sub, code);
        match find_code(sub, code) {
            Some(i) => {
                assert(m[i + 1] == sub[i]);
                assert forall|j: int| 0 <= j < i + 1 implies m[j].code != code by {
                    if j > 0 {
                        assert(sub[j - 1] == m[j]);
                    }
                }
            },
            None => {
                assert forall|j: int| 0 <= j < m.len() implies m[j].code != code by {
                    if j > 0 {
                        assert(sub[j - 1] == m[j]);
                    }
                }
            },
        }
    }
}

/// A first occurrence pins `find_code` down.
pub proof fn lemma_find_code_at(m: Seq<RecordModel>, code: Seq<char>, i: int)
    requires
        0 <= i < m.len(),
        m[i].code == code,
        forall|j: int| 0 <= j < i ==> m[j].code != code,
    ensures
        find_code(m, code) == Some(i),
{
    lemma_find_code(m, code);
}

/// No occurrence at all makes `find_code` `None`.
pub proof fn lemma_find_code_none(m: Seq<RecordModel>, code: Seq<char>)
    requires
        forall|j: int| 0 <= j < m.len() ==> m[j].code != code,
    ensures
        find_code(m, code) is None,
{
    lemma_find_code(m, code);
}

/// Last-write-wins insertion: a record replaces the first record of its code,
/// or goes to the back when its code is new.
pub open spec fn keyed_insert(m: Seq<RecordModel>, r: RecordModel) -> Seq<RecordModel> {
    match find_code(m, r.code) {
        Some(i) => m.update(i, r),
        None => m.push(r),
    }
}

/// The code-keyed collection of `rs`: every code of `rs` once, in order of
/// first appearance, each holding the last record of that code.
pub open spec fn keyed(rs: Seq<RecordModel>) -> Seq<RecordModel>
    decreases rs.len(),
{
    if rs.len() == 0 {
        Seq::empty()
    } else {
        keyed_insert(keyed(rs.drop_last()), rs.last())
    }
}

/// No two records share a code.
pub open spec fn unique_codes(m: Seq<RecordModel>) -> bool {
    forall|i: int, j: int| 0 <= i < j < m.len() ==> m[i].code != m[j].code
}

/// Insert `rec` into the code-keyed vector `out`.
fn insert_keyed(out: &mut Vec<RateRecord>, rec: &RateRecord)
    ensures
        models(final(out)@) == keyed_insert(models(old(out)@), rec@),
{
    let ghost m = models(old(out)@);
    let n = out.len();
    let mut j: usize = 0;
    while j < n
        invariant
            out@ == old(out)@,
            m == models(out@),
            n == out@.len(),
            j <= n,
            forall|q: int| 0 <= q < j ==> m[q].code != rec@.code,
        decreases n - j,
    {
        if out[j].occupation_code.eq(&rec.occupation_code) {
            proof {
                assert(m[j as int].code == rec@.code);
                lemma_find_code_at(m, rec@.code, j as int);
            }
            out.set(j, rec.duplicate());
            proof {
                assert(models(out@) =~= m.update(j as int, rec@));
            }
            return ;
        }
        assert(m[j as int].code != rec@.code);
        j += 1;
    }
    proof {
        lemma_find_code_none(m, rec@.code);
    }
    out.push(rec.duplicate());
    proof {
        assert(models(out@) =~= m.push(rec@));
    }
}

/// Fold the records into a code-keyed collection, last write winning.
pub fn key_by_code(records: &Vec<RateRecord>) -> (r: Vec<RateRecord>)
    ensures
        models(r@) == keyed(models(records@)),
{
    let ghost ms = models(records@);
    let mut out: Vec<RateRecord> = Vec::new();
    let n = records.len();
    let mut i: usize = 0;
    proof {
        assert(ms.take(0) =~= Seq::empty());
        assert(models(out@) =~= Seq::empty());
    }
    while i < n
        invariant
            ms == models(records@),
            n == records@.len(),
            i <= n,
            models(out@) == keyed(ms.take(i as int)),
        decreases n - i,
    {
        insert_keyed(&mut out, &records[i]);
        proof {
            let prefix = ms.take(i + 1);
            assert(prefix.drop_last() =~= ms.take(i as int));
            assert(prefix.last() == records@[i as int]@);
        }
        i += 1;
    }
    proof {
        assert(ms.take(n as int) =~= ms);
    }
    out
}

/// The keyed collection never grows: at most one record per input record.
pub proof fn lemma_keyed_len(rs: Seq<RecordModel>)
    ensures
        keyed(rs).len() <= rs.len(),
    decreases rs.len(),
{
    if rs.len() == 0 {
    } else {
        lemma_keyed_len(rs.drop_last());
        lemma_find_code(keyed(rs.drop_last()), rs.last().code);
    }
}

/// The keyed collection holds no code twice.
pub proof fn lemma_keyed_unique(rs: Seq<RecordModel>)
    ensures
        unique_codes(keyed(rs)),
    decreases rs.len(),
{
    if rs.len() == 0 {
    } else {
        lemma_keyed_unique(rs.drop_last());
        let m = keyed(rs.drop_last());
        let r = rs.last();
        lemma_find_code(m, r.code);
        match find_code(m, r.code) {
            Some(i) => {
                assert(keyed(rs) == m.update(i, r));
                assert forall|a: int, b: int| 0 <= a < b < keyed(rs).len() implies keyed(
                    rs,
                )[a].code != keyed(rs)[b].code by {
                    assert(m[i].code == r.code);
                    assert(keyed(rs)[a].code == (if a == i {
                        r.code
                    } else {
                        m[a].code
                    }));
                    assert(keyed(rs)[b].code == (if b == i {
                        r.code
                    } else {
                        m[b].code
                    }));
                }
            },
            None => {
                assert(keyed(rs) == m.push(r));
                assert forall|a: int, b: int| 0 <= a < b < keyed(rs).len() implies keyed(
                    rs,
                )[a].code != keyed(rs)[b].code by {
                    if b == m.len() {
                        assert(keyed(rs)[a] == m[a]);
                        assert(keyed(rs)[b] == r);
                    }
                }
            },
        }
    }
}

/// With all codes distinct, the keyed join keeps every record in place:
/// nothing is deduplicated away and the order is the input order.
pub proof fn lemma_keyed_of_unique(rs: Seq<RecordModel>)
    requires
        unique_codes(rs),
    ensures
        keyed(rs) == rs,
    decreases rs.len(),
{
    if rs.len() == 0 {
        assert(keyed(rs) =~= rs);
    } else {
        assert(unique_codes(rs.drop_last())) by {
            assert(forall|i: int| 0 <= i < rs.len() - 1 ==> rs.drop_last()[i] == rs[i]);
        }
        lemma_keyed_of_unique(rs.drop_last());
        let r = rs.last();
        assert(forall|j: int| 0 <= j < rs.len() - 1 ==> rs[j].code != r.code);
        lemma_find_code_none(rs.drop_last(), r.code);
        assert(keyed(rs) == rs.drop_last().push(r));
        assert(rs.drop_last().push(r) =~= rs);
    }
}

} // verus!
