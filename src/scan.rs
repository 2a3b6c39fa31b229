use crate::index::FileRecord;
use vstd::prelude::*;

verus! {

/// A file that could not be opened or read, and why.
pub struct HashFailure {
    pub path: String,
    pub cause: String,
}

/// What hashing one accepted file came to.
pub enum HashResult {
    Hashed(FileRecord),
    Failed(HashFailure),
}

/// The result of a scan: the records of the files that hashed, and the
/// failures of those that were left out.
pub struct ScanOutcome {
    pub records: Vec<FileRecord>,
    pub failures: Vec<HashFailure>,
}

/// The records among the results, in order.
pub open spec fn hashed_of(rs: Seq<HashResult>) -> Seq<FileRecord>
    decreases rs.len(),
{
    if rs.len() == 0 {
        Seq::empty()
    } else {
        let prev = hashed_of(rs.drop_last());
        match rs.last() {
            HashResult::Hashed(r) => prev.push(r),
            HashResult::Failed(_) => prev,
        }
    }
}

/// The failures among the results, in order.
pub open spec fn failed_of(rs: Seq<HashResult>) -> Seq<HashFailure>
    decreases rs.len(),
{
    if rs.len() == 0 {
        Seq::empty()
    } else {
        let prev = failed_of(rs.drop_last());
        match rs.last() {
            HashResult::Hashed(_) => prev,
            HashResult::Failed(f) => prev.push(f),
        }
    }
}

/// A failed file does not stop the scan: the files that hashed are all kept,
/// the failures are counted, and nothing else is dropped.
pub fn collect_results(results: Vec<HashResult>) -> (r: ScanOutcome)
    ensures
        r.records@ == hashed_of(results@),
        r.failures@ == failed_of(results@),
        r.records@.len() + r.failures@.len() == results@.len(),
{
    let ghost all = results@;
    let n: usize = results.len();
    let mut records: Vec<FileRecord> = Vec::new();
    let mut failures: Vec<HashFailure> = Vec::new();
    let mut i: usize = 0;
    let mut rest = results;
    while rest.len() > 0
        invariant
            i + rest@.len() == all.len(),
            n == all.len(),
            rest@ == all.subrange(i as int, all.len() as int),
            records@ == hashed_of(all.subrange(0, i as int)),
            failures@ == failed_of(all.subrange(0, i as int)),
            records@.len() + failures@.len() == i,
        decreases rest.len(),
    {
        let ghost pre = all.subrange(0, i as int);
        let item = rest.remove(0);
        proof {
            let p = all.subrange(0, i + 1);
            assert(p.drop_last() =~= pre);
            assert(p.last() == item);
        }
        match item {
            HashResult::Hashed(rec) => {
                records.push(rec);
            },
            HashResult::Failed(f) => {
                failures.push(f);
            },
        }
        i = i + 1;
    }
    assert(all.subrange(0, all.len() as int) =~= all);
    ScanOutcome { records, failures }
}

} // verus!
