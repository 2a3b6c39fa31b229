use crate::index::{
    acceptable, duplicates_of, entries_map, first_seen, lemma_entries_map, loaded, unique_keys,
    FingerprintIndex,
};
use crate::report::{decimal_of, record_time, report_line_of};
use crate::scan::{failed_of, hashed_of, HashResult};
use crate::index::FileRecord;
use vstd::prelude::*;

verus! {

/// A digest is in the built index exactly when some record has it.
pub proof fn lemma_first_seen_keys(ps: Seq<(Seq<char>, Seq<char>)>)
    ensures
        first_seen(ps).dom().finite(),
        forall|k: Seq<char>| #[trigger] first_seen(ps).contains_key(k) <==> exists|j: int| 0 <= j < ps.len() && ps[j].0 == k,
    decreases ps.len(),
{
    if ps.len() > 0 {
        let q = ps.drop_last();
        lemma_first_seen_keys(q);
        assert forall|k: Seq<char>| #[trigger] first_seen(ps).contains_key(k) implies exists|j: int| 0 <= j < ps.len() && ps[j].0 == k by {
            if k == ps.last().0 {
                assert(ps[ps.len() - 1].0 == k);
            } else {
                let j = choose|j: int| 0 <= j < q.len() && q[j].0 == k;
                assert(ps[j] == q[j]);
            }
        }
        assert forall|k: Seq<char>| (exists|j: int| 0 <= j < ps.len() && ps[j].0 == k) implies #[trigger] first_seen(ps).contains_key(k) by {
            let j = choose|j: int| 0 <= j < ps.len() && ps[j].0 == k;
            if j < q.len() {
                assert(q[j] == ps[j]);
            }
        }
    }
}

/// First seen wins: the path recorded for a digest is that of the first
/// record that had it; later records with the same digest never replace it.
pub proof fn law_first_path_wins(ps: Seq<(Seq<char>, Seq<char>)>, i: int)
    requires
        0 <= i < ps.len(),
        forall|j: int| 0 <= j < i ==> (#[trigger] ps[j]).0 != ps[i].0,
    ensures
        first_seen(ps).contains_key(ps[i].0),
        first_seen(ps)[ps[i].0] == ps[i].1,
    decreases ps.len(),
{
    let q = ps.drop_last();
    if i < ps.len() - 1 {
        assert forall|j: int| 0 <= j < i implies (#[trigger] q[j]).0 != q[i].0 by {
            assert(q[j] == ps[j]);
        }
        law_first_path_wins(q, i);
        assert(q[i] == ps[i]);
    } else {
        lemma_first_seen_keys(q);
        if first_seen(q).contains_key(ps[i].0) {
            let j = choose|j: int| 0 <= j < q.len() && q[j].0 == ps[i].0;
            assert(q[j] == ps[j]);
        }
    }
}

/// Every record is either indexed or reported as a duplicate, never both
/// and never neither.
pub proof fn law_indexed_plus_duplicates(ps: Seq<(Seq<char>, Seq<char>)>)
    ensures
        first_seen(ps).dom().len() + duplicates_of(ps).len() == ps.len(),
    decreases ps.len(),
{
    if ps.len() > 0 {
        let q = ps.drop_last();
        law_indexed_plus_duplicates(q);
        lemma_first_seen_keys(q);
    }
}

/// Records with pairwise distinct digests are all indexed, one entry per
/// digest, and none is a duplicate.
pub proof fn law_distinct_digests_all_indexed(ps: Seq<(Seq<char>, Seq<char>)>)
    requires
        unique_keys(ps),
    ensures
        first_seen(ps) == entries_map(ps),
        first_seen(ps).dom().len() == ps.len(),
        duplicates_of(ps).len() == 0,
    decreases ps.len(),
{
    lemma_entries_map(ps);
    if ps.len() > 0 {
        let q = ps.drop_last();
        assert(unique_keys(q)) by {
            assert forall|i: int, j: int| 0 <= i < j < q.len() implies #[trigger] q[i].0 != #[trigger] q[j].0 by {
                assert(q[i] == ps[i] && q[j] == ps[j]);
            }
        }
        law_distinct_digests_all_indexed(q);
        lemma_entries_map(q);
        assert(!first_seen(q).contains_key(ps.last().0)) by {
            if first_seen(q).contains_key(ps.last().0) {
                let i = choose|i: int| 0 <= i < q.len() && q[i].0 == ps.last().0;
                assert(ps[i] == q[i]);
                assert(ps[i].0 != ps[ps.len() - 1].0);
            }
        }
    }
}

/// The pairs that `entries` hands out for an index are accepted by
/// `from_entries` and load back as the same mapping. This covers the stored
/// pairs; the JSON text around them is serde_json's.
pub proof fn law_entries_load_back(idx: FingerprintIndex, stored: Seq<(Seq<char>, Seq<char>)>)
    requires
        idx.wf(),
        stored == idx.pairs(),
    ensures
        acceptable(stored),
        loaded(stored) == Some(idx@),
{
}

/// The path a hashing result is about.
pub open spec fn result_path(r: HashResult) -> Seq<char> {
    match r {
        HashResult::Hashed(rec) => rec.path@,
        HashResult::Failed(f) => f.path@,
    }
}

/// Each kept record comes from a result that hashed, and each failure from
/// one that failed.
pub proof fn lemma_collected_from(rs: Seq<HashResult>)
    ensures
        forall|j: int| 0 <= j < hashed_of(rs).len() ==> exists|k: int| 0 <= k < rs.len() && rs[k] == HashResult::Hashed(#[trigger] hashed_of(rs)[j]),
        forall|j: int| 0 <= j < failed_of(rs).len() ==> exists|k: int| 0 <= k < rs.len() && rs[k] == HashResult::Failed(#[trigger] failed_of(rs)[j]),
    decreases rs.len(),
{
    if rs.len() > 0 {
        let q = rs.drop_last();
        lemma_collected_from(q);
        let n = rs.len() - 1;
        assert forall|j: int| 0 <= j < hashed_of(rs).len() implies exists|k: int| 0 <= k < rs.len() && rs[k] == HashResult::Hashed(#[trigger] hashed_of(rs)[j]) by {
            if j < hashed_of(q).len() {
                assert(hashed_of(rs)[j] == hashed_of(q)[j]);
                let k = choose|k: int| 0 <= k < q.len() && q[k] == HashResult::Hashed(hashed_of(q)[j]);
                assert(rs[k] == q[k]);
            } else {
                assert(rs[n] == HashResult::Hashed(hashed_of(rs)[j]));
            }
        }
        assert forall|j: int| 0 <= j < failed_of(rs).len() implies exists|k: int| 0 <= k < rs.len() && rs[k] == HashResult::Failed(#[trigger] failed_of(rs)[j]) by {
            if j < failed_of(q).len() {
                assert(failed_of(rs)[j] == failed_of(q)[j]);
                let k = choose|k: int| 0 <= k < q.len() && q[k] == HashResult::Failed(failed_of(q)[j]);
                assert(rs[k] == q[k]);
            } else {
                assert(rs[n] == HashResult::Failed(failed_of(rs)[j]));
            }
        }
    }
}

/// A result that hashed is kept, and one that failed is listed.
pub proof fn lemma_collected_all(rs: Seq<HashResult>, k: int)
    requires
        0 <= k < rs.len(),
    ensures
        rs[k] is Hashed ==> hashed_of(rs).contains(rs[k]->Hashed_0),
        rs[k] is Failed ==> failed_of(rs).contains(rs[k]->Failed_0),
    decreases rs.len(),
{
    let q = rs.drop_last();
    if k < rs.len() - 1 {
        lemma_collected_all(q, k);
        assert(q[k] == rs[k]);
        if rs[k] is Hashed {
            let j = choose|j: int| 0 <= j < hashed_of(q).len() && hashed_of(q)[j] == rs[k]->Hashed_0;
            assert(hashed_of(rs)[j] == hashed_of(q)[j]);
        }
        if rs[k] is Failed {
            let j = choose|j: int| 0 <= j < failed_of(q).len() && failed_of(q)[j] == rs[k]->Failed_0;
            assert(failed_of(rs)[j] == failed_of(q)[j]);
        }
    } else {
        if rs[k] is Hashed {
            assert(hashed_of(rs)[hashed_of(rs).len() - 1] == rs[k]->Hashed_0);
        }
        if rs[k] is Failed {
            assert(failed_of(rs)[failed_of(rs).len() - 1] == rs[k]->Failed_0);
        }
    }
}

/// A file that fails to hash does not stop the scan: over results about
/// distinct paths, no kept record has the failed file's path, the failure is
/// listed, and every file that hashed is kept, so the kept records are not
/// empty where any file hashed.
pub proof fn law_failed_file_left_out(rs: Seq<HashResult>, f: int, h: int)
    requires
        forall|i: int, j: int| 0 <= i < j < rs.len() ==> result_path(#[trigger] rs[i]) != result_path(#[trigger] rs[j]),
        0 <= f < rs.len(),
        rs[f] is Failed,
        0 <= h < rs.len(),
        rs[h] is Hashed,
    ensures
        forall|j: int| 0 <= j < hashed_of(rs).len() ==> (#[trigger] hashed_of(rs)[j]).path@ != rs[f]->Failed_0.path@,
        failed_of(rs).contains(rs[f]->Failed_0),
        hashed_of(rs).contains(rs[h]->Hashed_0),
        hashed_of(rs).len() > 0,
{
    lemma_collected_from(rs);
    lemma_collected_all(rs, f);
    lemma_collected_all(rs, h);
    assert forall|j: int| 0 <= j < hashed_of(rs).len() implies (#[trigger] hashed_of(rs)[j]).path@ != rs[f]->Failed_0.path@ by {
        let k = choose|k: int| 0 <= k < rs.len() && rs[k] == HashResult::Hashed(hashed_of(rs)[j]);
        assert(k != f);
        if k < f {
            assert(result_path(rs[k]) != result_path(rs[f]));
        } else {
            assert(result_path(rs[f]) != result_path(rs[k]));
        }
    }
}

/// Without capture times every report row shows the time as `unknown`, and
/// nothing else about the row changes.
pub proof fn law_missing_time_shown_unknown(records: Seq<FileRecord>)
    requires
        forall|i: int| 0 <= i < records.len() ==> (#[trigger] records[i]).captured_at is None,
    ensures
        forall|i: int| 0 <= i < records.len() ==> #[trigger] report_line_of((i + 1) as nat, records[i].path@, records[i].digest@, record_time(records[i]))
            == decimal_of((i + 1) as nat) + ". "@ + records[i].path@ + ": "@ + records[i].digest@ + ", "@ + "unknown"@,
{
}

} // verus!
