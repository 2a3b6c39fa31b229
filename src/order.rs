use crate::index::FileRecord;
use vstd::prelude::*;
use vstd::seq_lib::group_to_multiset_ensures;

verus! {

/// Lexicographic order on paths, character by character.
pub open spec fn path_le(a: Seq<char>, b: Seq<char>) -> bool
    decreases a.len(),
{
    if a.len() == 0 {
        true
    } else if b.len() == 0 {
        false
    } else if a[0] != b[0] {
        a[0] < b[0]
    } else {
        path_le(a.drop_first(), b.drop_first())
    }
}

/// Records in order of their paths.
pub open spec fn sorted_by_path(s: Seq<FileRecord>) -> bool {
    forall|i: int, j: int| 0 <= i < j < s.len() ==> path_le(#[trigger] s[i].path@, #[trigger] s[j].path@)
}

pub proof fn lemma_path_le_total(a: Seq<char>, b: Seq<char>)
    ensures
        path_le(a, b) || path_le(b, a),
    decreases a.len(),
{
    if a.len() > 0 && b.len() > 0 && a[0] == b[0] {
        lemma_path_le_total(a.drop_first(), b.drop_first());
    }
}

pub proof fn lemma_path_le_transitive(a: Seq<char>, b: Seq<char>, c: Seq<char>)
    requires
        path_le(a, b),
        path_le(b, c),
    ensures
        path_le(a, c),
    decreases a.len(),
{
    if a.len() > 0 && a[0] == b[0] && b[0] == c[0] {
        lemma_path_le_transitive(a.drop_first(), b.drop_first(), c.drop_first());
    }
}

pub fn path_le_exec(a: &str, b: &str) -> (r: bool)
    ensures
        r == path_le(a@, b@),
{
    let n = a.unicode_len();
    let m = b.unicode_len();
    let mut i: usize = 0;
    assert(a@.subrange(0, n as int) =~= a@);
    assert(b@.subrange(0, m as int) =~= b@);
    while i < n
        invariant
            n == a@.len(),
            m == b@.len(),
            i <= n,
            path_le(a@, b@) == path_le(a@.subrange(i as int, n as int), b@.subrange(i as int, m as int)),
            i <= m,
        decreases n - i,
    {
        if i == m {
            return false;
        }
        let x = a.get_char(i);
        let y = b.get_char(i);
        proof {
            let sa = a@.subrange(i as int, n as int);
            let sb = b@.subrange(i as int, m as int);
            assert(sa[0] == x && sb[0] == y);
            assert(sa.drop_first() =~= a@.subrange(i + 1, n as int));
            assert(sb.drop_first() =~= b@.subrange(i + 1, m as int));
        }
        if x != y {
            return x < y;
        }
        i = i + 1;
    }
    true
}

/// Orders records by path; the records themselves are unchanged, only
/// their positions.
pub fn sort_by_path(records: Vec<FileRecord>) -> (r: Vec<FileRecord>)
    ensures
        r@.to_multiset() == records@.to_multiset(),
        sorted_by_path(r@),
{
    broadcast use group_to_multiset_ensures;

    let ghost all = records@;
    let n: usize = records.len();
    let mut rest = records;
    let mut sorted: Vec<FileRecord> = Vec::new();
    let mut i: usize = 0;
    while rest.len() > 0
        invariant
            n == all.len(),
            i + rest@.len() == n,
            rest@ == all.subrange(i as int, n as int),
            sorted@.to_multiset() == all.subrange(0, i as int).to_multiset(),
            sorted_by_path(sorted@),
        decreases rest.len(),
    {
        let ghost rest_before = rest@;
        let x = rest.remove(0);
        assert(x == all[i as int]) by {
            assert(rest_before[0] == all[i as int]);
        }
        assert(rest@ =~= all.subrange(i + 1, n as int));
        let mut p: usize = 0;
        while p < sorted.len()
            invariant
                p <= sorted.len(),
                sorted_by_path(sorted@),
                forall|k: int| 0 <= k < p ==> path_le(#[trigger] sorted@[k].path@, x.path@),
            ensures
                p <= sorted.len(),
                forall|k: int| 0 <= k < p ==> path_le(#[trigger] sorted@[k].path@, x.path@),
                p == sorted.len() || !path_le(sorted@[p as int].path@, x.path@),
            decreases sorted.len() - p,
        {
            if !path_le_exec(sorted[p].path.as_str(), x.path.as_str()) {
                break;
            }
            p = p + 1;
        }
        let ghost before = sorted@;
        proof {
            if p < before.len() {
                lemma_path_le_total(before[p as int].path@, x.path@);
            }
            assert forall|k: int| p <= k < before.len() implies path_le(x.path@, #[trigger] before[k].path@) by {
                if k > p {
                    lemma_path_le_transitive(x.path@, before[p as int].path@, before[k].path@);
                }
            }
        }
        sorted.insert(p, x);
        proof {
            let s = sorted@;
            assert forall|a: int, b: int| 0 <= a < b < s.len() implies path_le(#[trigger] s[a].path@, #[trigger] s[b].path@) by {
                if b < p {
                    assert(s[a] == before[a] && s[b] == before[b]);
                } else if b == p {
                    assert(s[a] == before[a]);
                } else if a < p {
                    assert(s[a] == before[a] && s[b] == before[b - 1]);
                    lemma_path_le_transitive(before[a].path@, x.path@, before[b - 1].path@);
                } else if a == p {
                    assert(s[b] == before[b - 1]);
                } else {
                    assert(s[a] == before[a - 1] && s[b] == before[b - 1]);
                }
            }
            assert(s.remove(p as int) =~= before);
            assert(s[p as int] == x);
            s.to_multiset_ensures();
            assert(s.remove(p as int).to_multiset() =~= s.to_multiset().remove(x));
            assert(s.contains(x));
            assert(s.to_multiset().count(x) > 0);
            assert(s.to_multiset() =~= s.to_multiset().remove(x).insert(x));
            assert(s.to_multiset() =~= before.to_multiset().insert(x));
            assert(all.subrange(0, i + 1) =~= all.subrange(0, i as int).push(x));
            all.subrange(0, i as int).to_multiset_ensures();
        }
        i = i + 1;
    }
    assert(all.subrange(0, n as int) =~= all);
    sorted
}

} // verus!
