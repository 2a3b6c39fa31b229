use crate::hex::{hex_digits, hex_of};
use crate::store::{decode_object, encode_object, json_object_members, json_object_text};
use vstd::prelude::*;

verus! {

/// A lowercase hexadecimal digit.
pub open spec fn is_hex_char(c: char) -> bool {
    ('0' <= c && c <= '9') || ('a' <= c && c <= 'f')
}

/// A well-formed fingerprint: 64 lowercase hexadecimal digits.
pub open spec fn is_digest(s: Seq<char>) -> bool {
    s.len() == 64 && forall|i: int| 0 <= i < s.len() ==> is_hex_char(#[trigger] s[i])
}

/// Every character of a hex rendering is a lowercase hex digit.
pub proof fn lemma_hex_chars(b: Seq<u8>)
    ensures
        forall|i: int| 0 <= i < hex_of(b).len() ==> is_hex_char(#[trigger] hex_of(b)[i]),
    decreases b.len(),
{
    if b.len() > 0 {
        lemma_hex_chars(b.drop_last());
        let x = b.last() as int;
        assert(forall|k: int| 0 <= k < 16 ==> is_hex_char(#[trigger] hex_digits()[k]));
        assert(is_hex_char(hex_digits()[x / 16]));
        assert(is_hex_char(hex_digits()[x % 16]));
        let h = hex_of(b);
        let p = hex_of(b.drop_last());
        assert forall|i: int| 0 <= i < h.len() implies is_hex_char(#[trigger] h[i]) by {
            if i < p.len() {
                assert(h[i] == p[i]);
            }
        }
    }
}

/// One scanned file: where it is, its fingerprint, and the capture time the
/// metadata source gave, if any.
pub struct FileRecord {
    pub path: String,
    pub digest: String,
    pub captured_at: Option<String>,
}

impl FileRecord {
    pub open spec fn wf(&self) -> bool {
        is_digest(self.digest@)
    }

    /// Whether the digest is a well-formed fingerprint.
    pub fn is_well_formed(&self) -> (r: bool)
        ensures
            r == self.wf(),
    {
        is_digest_str(self.digest.as_str())
    }
}

pub fn is_digest_str(s: &str) -> (r: bool)
    ensures
        r == is_digest(s@),
{
    if s.unicode_len() != 64 {
        return false;
    }
    let mut i: usize = 0;
    while i < 64
        invariant
            s@.len() == 64,
            i <= 64,
            forall|j: int| 0 <= j < i ==> is_hex_char(#[trigger] s@[j]),
        decreases 64 - i,
    {
        let c = s.get_char(i);
        if !(('0' <= c && c <= '9') || ('a' <= c && c <= 'f')) {
            return false;
        }
        i = i + 1;
    }
    true
}

/// (digest, path) pairs of records, in input order.
pub open spec fn record_pairs(rs: Seq<FileRecord>) -> Seq<(Seq<char>, Seq<char>)> {
    rs.map_values(|r: FileRecord| (r.digest@, r.path@))
}

/// (digest, path) pairs of stored entries.
pub open spec fn entry_pairs(es: Seq<(String, String)>) -> Seq<(Seq<char>, Seq<char>)> {
    es.map_values(|e: (String, String)| (e.0@, e.1@))
}

/// The mapping that a list of pairs with distinct digests stands for.
pub open spec fn entries_map(ps: Seq<(Seq<char>, Seq<char>)>) -> Map<Seq<char>, Seq<char>>
    decreases ps.len(),
{
    if ps.len() == 0 {
        Map::empty()
    } else {
        entries_map(ps.drop_last()).insert(ps.last().0, ps.last().1)
    }
}

/// No digest occurs twice.
pub open spec fn unique_keys(ps: Seq<(Seq<char>, Seq<char>)>) -> bool {
    forall|i: int, j: int| 0 <= i < j < ps.len() ==> #[trigger] ps[i].0 != #[trigger] ps[j].0
}

/// The index built from records taken in order: the first path seen with a
/// digest keeps it.
pub open spec fn first_seen(ps: Seq<(Seq<char>, Seq<char>)>) -> Map<Seq<char>, Seq<char>>
    decreases ps.len(),
{
    if ps.len() == 0 {
        Map::empty()
    } else {
        let m = first_seen(ps.drop_last());
        if m.contains_key(ps.last().0) {
            m
        } else {
            m.insert(ps.last().0, ps.last().1)
        }
    }
}

/// The records whose digest an earlier record already had, in input order,
/// each as (path, path that keeps the digest, digest).
pub open spec fn duplicates_of(ps: Seq<(Seq<char>, Seq<char>)>) -> Seq<(Seq<char>, Seq<char>, Seq<char>)>
    decreases ps.len(),
{
    if ps.len() == 0 {
        Seq::empty()
    } else {
        let m = first_seen(ps.drop_last());
        let prev = duplicates_of(ps.drop_last());
        if m.contains_key(ps.last().0) {
            prev.push((ps.last().1, m[ps.last().0], ps.last().0))
        } else {
            prev
        }
    }
}

/// What `entries_map` holds, for pairs with distinct digests.
pub proof fn lemma_entries_map(ps: Seq<(Seq<char>, Seq<char>)>)
    requires
        unique_keys(ps),
    ensures
        forall|k: Seq<char>| #[trigger] entries_map(ps).contains_key(k) <==> exists|i: int| 0 <= i < ps.len() && ps[i].0 == k,
        forall|i: int| 0 <= i < ps.len() ==> #[trigger] entries_map(ps)[ps[i].0] == ps[i].1,
        entries_map(ps).dom().finite(),
        entries_map(ps).dom().len() == ps.len(),
    decreases ps.len(),
{
    if ps.len() > 0 {
        let q = ps.drop_last();
        assert(unique_keys(q)) by {
            assert forall|i: int, j: int| 0 <= i < j < q.len() implies #[trigger] q[i].0 != #[trigger] q[j].0 by {
                assert(q[i] == ps[i] && q[j] == ps[j]);
            }
        }
        lemma_entries_map(q);
        let last = ps.last();
        assert(!entries_map(q).contains_key(last.0)) by {
            if entries_map(q).contains_key(last.0) {
                let i = choose|i: int| 0 <= i < q.len() && q[i].0 == last.0;
                assert(ps[i].0 != ps[ps.len() - 1].0);
            }
        }
        assert forall|k: Seq<char>| #[trigger] entries_map(ps).contains_key(k) implies exists|i: int| 0 <= i < ps.len() && ps[i].0 == k by {
            if k == last.0 {
                assert(ps[ps.len() - 1].0 == k);
            } else {
                let i = choose|i: int| 0 <= i < q.len() && q[i].0 == k;
                assert(ps[i] == q[i]);
            }
        }
        assert forall|k: Seq<char>| (exists|i: int| 0 <= i < ps.len() && ps[i].0 == k) implies #[trigger] entries_map(ps).contains_key(k) by {
            let i = choose|i: int| 0 <= i < ps.len() && ps[i].0 == k;
            if i < q.len() {
                assert(q[i] == ps[i]);
            }
        }
        assert forall|i: int| 0 <= i < ps.len() implies #[trigger] entries_map(ps)[ps[i].0] == ps[i].1 by {
            if i < q.len() {
                assert(q[i] == ps[i]);
                assert(ps[i].0 != ps[ps.len() - 1].0);
            }
        }
    }
}

/// A stored list of pairs is accepted as an index when its digests are
/// well-formed and distinct.
pub open spec fn acceptable(ps: Seq<(Seq<char>, Seq<char>)>) -> bool {
    unique_keys(ps) && forall|i: int| 0 <= i < ps.len() ==> is_digest(#[trigger] ps[i].0)
}

/// The index that stored pairs load as, or `None` where they are corrupt.
pub open spec fn loaded(ps: Seq<(Seq<char>, Seq<char>)>) -> Option<Map<Seq<char>, Seq<char>>> {
    if acceptable(ps) {
        Some(entries_map(ps))
    } else {
        None
    }
}

/// Why a stored index could not be loaded.
#[derive(Debug, PartialEq, Eq, Structural, Clone, Copy)]
pub enum IndexError {
    /// The stored form is not an object of string members, or a key is not a
    /// well-formed digest, or a digest occurs twice among the stored pairs.
    CorruptIndex,
}

/// The deduplication table: each fingerprint mapped to the path that first
/// had it.
pub struct FingerprintIndex {
    entries: Vec<(String, String)>,
}

/// A record that was not indexed because an earlier one had its digest.
pub struct Duplicate {
    pub path: String,
    pub first_path: String,
    pub digest: String,
}

impl Duplicate {
    pub open spec fn view(&self) -> (Seq<char>, Seq<char>, Seq<char>) {
        (self.path@, self.first_path@, self.digest@)
    }
}

/// What `build` hands back: the index and the duplicates it found.
pub struct BuildOutcome {
    pub index: FingerprintIndex,
    pub duplicates: Vec<Duplicate>,
}

impl FingerprintIndex {
    pub closed spec fn pairs(&self) -> Seq<(Seq<char>, Seq<char>)> {
        entry_pairs(self.entries@)
    }

    /// The digest-to-path mapping.
    pub open spec fn view(&self) -> Map<Seq<char>, Seq<char>> {
        entries_map(self.pairs())
    }

    /// Digests are distinct and well-formed.
    pub open spec fn wf(&self) -> bool {
        acceptable(self.pairs())
    }

    /// The entries as (digest, path) pairs, for writing out.
    pub fn entries(&self) -> (r: Vec<(String, String)>)
        ensures
            entry_pairs(r@) == self.pairs(),
    {
        let mut r: Vec<(String, String)> = Vec::new();
        let mut i: usize = 0;
        while i < self.entries.len()
            invariant
                i <= self.entries.len(),
                r@.len() == i,
                forall|k: int| 0 <= k < i ==> (#[trigger] r@[k]).0@ == self.entries@[k].0@ && r@[k].1@ == self.entries@[k].1@,
            decreases self.entries.len() - i,
        {
            let e = (self.entries[i].0.clone(), self.entries[i].1.clone());
            r.push(e);
            i = i + 1;
        }
        assert(entry_pairs(r@) =~= self.pairs());
        r
    }

    /// Takes stored (digest, path) pairs back as an index; `CorruptIndex`
    /// where a digest is malformed or occurs twice.
    pub fn from_entries(entries: Vec<(String, String)>) -> (r: Result<FingerprintIndex, IndexError>)
        ensures
            r is Ok <==> loaded(entry_pairs(entries@)) is Some,
            r is Ok ==> r->Ok_0.wf() && Some(r->Ok_0@) == loaded(entry_pairs(entries@)),
            r is Err ==> r->Err_0 == IndexError::CorruptIndex,
    {
        let ghost ps = entry_pairs(entries@);
        let mut index = FingerprintIndex::new();
        let mut i: usize = 0;
        while i < entries.len()
            invariant
                ps == entry_pairs(entries@),
                i <= entries.len(),
                index.wf(),
                index.pairs() == ps.subrange(0, i as int),
            decreases entries.len() - i,
        {
            let ghost pre = ps.subrange(0, i as int);
            proof {
                lemma_entries_map(pre);
            }
            let e = &entries[i];
            assert(ps[i as int] == (e.0@, e.1@));
            if !is_digest_str(e.0.as_str()) {
                assert(!is_digest(ps[i as int].0));
                assert(!acceptable(ps));
                return Err(IndexError::CorruptIndex);
            }
            if index.lookup(&e.0).is_some() {
                proof {
                    let k = choose|k: int| 0 <= k < pre.len() && pre[k].0 == e.0@;
                    assert(ps[k] == pre[k]);
                    assert(ps[k].0 == ps[i as int].0);
                    assert(!unique_keys(ps));
                }
                return Err(IndexError::CorruptIndex);
            }
            proof {
                assert(index.pairs().push(ps[i as int]) =~= ps.subrange(0, i + 1));
            }
            index.push_pair(e.0.clone(), e.1.clone());
            i = i + 1;
        }
        assert(ps.subrange(0, ps.len() as int) =~= ps);
        Ok(index)
    }

    /// The durable form of the whole index: a JSON object from digest to path.
    pub fn to_json(&self) -> (r: String)
        ensures
            r@ == json_object_text(self.pairs()),
    {
        let es = self.entries();
        match encode_object(&es) {
            Ok(text) => text,
            Err(_) => {
                proof {
                    assert(false);
                }
                String::new()
            },
        }
    }

    /// Reads the durable form back; never an empty index in place of a
    /// corrupt one. The text is read as serde_json reads a map, so a key
    /// repeated in the text keeps its last value; repeated digests among the
    /// stored pairs are refused.
    pub fn from_json(text: &str) -> (r: Result<FingerprintIndex, IndexError>)
        ensures
            r is Ok <==> (json_object_members(text@) is Some && loaded(json_object_members(text@)->Some_0) is Some),
            r is Ok ==> r->Ok_0.wf() && Some(r->Ok_0@) == loaded(json_object_members(text@)->Some_0),
            r is Err ==> r->Err_0 == IndexError::CorruptIndex,
    {
        match decode_object(text) {
            Ok(es) => FingerprintIndex::from_entries(es),
            Err(_) => Err(IndexError::CorruptIndex),
        }
    }

    fn push_pair(&mut self, digest: String, path: String)
        ensures
            final(self).pairs() == old(self).pairs().push((digest@, path@)),
    {
        self.entries.push((digest, path));
        assert(self.pairs() =~= old(self).pairs().push((digest@, path@)));
    }

    pub fn new() -> (r: FingerprintIndex)
        ensures
            r.wf(),
            r@ == Map::<Seq<char>, Seq<char>>::empty(),
            r.pairs() == Seq::<(Seq<char>, Seq<char>)>::empty(),
    {
        let r = FingerprintIndex { entries: Vec::new() };
        assert(r.pairs() =~= Seq::<(Seq<char>, Seq<char>)>::empty());
        r
    }

    /// Number of entries.
    pub fn len(&self) -> (r: usize)
        requires
            self.wf(),
        ensures
            r == self@.dom().len(),
    {
        proof {
            lemma_entries_map(self.pairs());
        }
        self.entries.len()
    }

    /// The path recorded for a digest, or `None` where the digest is unknown.
    pub fn lookup(&self, digest: &String) -> (r: Option<String>)
        requires
            self.wf(),
        ensures
            r is Some <==> self@.contains_key(digest@),
            r is Some ==> r->Some_0@ == self@[digest@],
    {
        let ghost ps = self.pairs();
        let mut i: usize = 0;
        while i < self.entries.len()
            invariant
                ps == self.pairs(),
                self.wf(),
                i <= self.entries.len(),
                ps.len() == self.entries.len(),
                forall|j: int| 0 <= j < i ==> (#[trigger] ps[j]).0 != digest@,
            decreases self.entries.len() - i,
        {
            assert(ps[i as int] == (self.entries@[i as int].0@, self.entries@[i as int].1@));
            if self.entries[i].0 == *digest {
                proof {
                    lemma_entries_map(ps);
                }
                return Some(self.entries[i].1.clone());
            }
            i = i + 1;
        }
        proof {
            lemma_entries_map(ps);
        }
        None
    }

    /// Builds a fresh index from scanned records, taken in order. A record
    /// whose digest is already indexed does not replace the first path: it is
    /// reported as a duplicate instead.
    pub fn build(records: &Vec<FileRecord>) -> (r: BuildOutcome)
        requires
            forall|i: int| 0 <= i < records.len() ==> (#[trigger] records@[i]).wf(),
        ensures
            r.index.wf(),
            r.index@ == first_seen(record_pairs(records@)),
            r.duplicates@.map_values(|d: Duplicate| d@) == duplicates_of(record_pairs(records@)),
    {
        let ghost rp = record_pairs(records@);
        let mut index = FingerprintIndex::new();
        let mut duplicates: Vec<Duplicate> = Vec::new();
        let mut i: usize = 0;
        while i < records.len()
            invariant
                rp == record_pairs(records@),
                i <= records.len(),
                forall|k: int| 0 <= k < records.len() ==> (#[trigger] records@[k]).wf(),
                index.wf(),
                index@ == first_seen(rp.subrange(0, i as int)),
                duplicates@.map_values(|d: Duplicate| d@) == duplicates_of(rp.subrange(0, i as int)),
            decreases records.len() - i,
        {
            let rec = &records[i];
            let ghost pre = rp.subrange(0, i as int);
            proof {
                let p = rp.subrange(0, i + 1);
                assert(p.drop_last() =~= pre);
                assert(p.last() == (rec.digest@, rec.path@));
            }
            match index.lookup(&rec.digest) {
                Some(first_path) => {
                    let d = Duplicate { path: rec.path.clone(), first_path, digest: rec.digest.clone() };
                    duplicates.push(d);
                    assert(duplicates@.map_values(|d: Duplicate| d@) =~= duplicates_of(pre).push(d@));
                },
                None => {
                    index.insert_new(rec.digest.clone(), rec.path.clone());
                },
            }
            i = i + 1;
        }
        assert(rp.subrange(0, rp.len() as int) =~= rp);
        BuildOutcome { index, duplicates }
    }

    fn insert_new(&mut self, digest: String, path: String)
        requires
            old(self).wf(),
            !old(self)@.contains_key(digest@),
            is_digest(digest@),
        ensures
            final(self).wf(),
            final(self)@ == old(self)@.insert(digest@, path@),
    {
        let ghost before = self.pairs();
        proof {
            lemma_entries_map(before);
        }
        self.entries.push((digest, path));
        proof {
            let after = self.pairs();
            assert(after.drop_last() =~= before);
            assert forall|i: int, j: int| 0 <= i < j < after.len() implies #[trigger] after[i].0 != #[trigger] after[j].0 by {
                if j == after.len() - 1 {
                    assert(after[i] == before[i]);
                    assert(entries_map(before).contains_key(before[i].0));
                } else {
                    assert(after[i] == before[i] && after[j] == before[j]);
                }
            }
            assert forall|i: int| 0 <= i < after.len() implies is_digest(#[trigger] after[i].0) by {
                if i < before.len() {
                    assert(after[i] == before[i]);
                }
            }
        }
    }
}

} // verus!
