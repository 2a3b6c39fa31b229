use vstd::prelude::*;

verus! {

/// `name` ends with the characters of `ext` (case-sensitive).
pub open spec fn has_suffix(name: Seq<char>, ext: Seq<char>) -> bool {
    ext.len() <= name.len() && name.subrange(name.len() - ext.len(), name.len() as int) == ext
}

/// Whether an entry is hashed: a regular file, and, where an allow-list of
/// extensions is configured, one whose name ends with one of them.
pub open spec fn matches_any(name: Seq<char>, exts: Seq<Seq<char>>) -> bool {
    exists|i: int| 0 <= i < exts.len() && #[trigger] has_suffix(name, exts[i])
}

pub open spec fn accepted(name: Seq<char>, is_regular_file: bool, allow: Option<Seq<Seq<char>>>) -> bool {
    is_regular_file && match allow {
        None => true,
        Some(exts) => matches_any(name, exts),
    }
}

pub fn ends_with(name: &str, ext: &str) -> (r: bool)
    ensures
        r == has_suffix(name@, ext@),
{
    let n = name.unicode_len();
    let e = ext.unicode_len();
    if e > n {
        return false;
    }
    let off: usize = n - e;
    let mut i: usize = 0;
    while i < e
        invariant
            n == name@.len(),
            e == ext@.len(),
            off == n - e,
            i <= e,
            forall|j: int| 0 <= j < i ==> name@[off + j] == ext@[j],
        decreases e - i,
    {
        if name.get_char(off + i) != ext.get_char(i) {
            assert(name@.subrange(off as int, n as int)[i as int] != ext@[i as int]);
            return false;
        }
        i = i + 1;
    }
    assert(name@.subrange(off as int, n as int) =~= ext@);
    true
}

/// The default media filter: regular files whose name ends in `jpg` or
/// `png`; directories, symlinks and special files are never images.
pub fn is_image(name: &str, is_regular_file: bool) -> (r: bool)
    ensures
        r == (is_regular_file && (has_suffix(name@, "jpg"@) || has_suffix(name@, "png"@))),
{
    is_regular_file && (ends_with(name, "jpg") || ends_with(name, "png"))
}

/// Decides which directory entries take part in hashing.
pub struct Classifier {
    /// Accepted name suffixes; `None` accepts every regular file.
    pub extensions: Option<Vec<String>>,
}

impl Classifier {
    pub open spec fn allow_list(&self) -> Option<Seq<Seq<char>>> {
        match &self.extensions {
            None => None,
            Some(v) => Some(v@.map_values(|s: String| s@)),
        }
    }

    /// Accepts regular files whose name ends in `jpg` or `png`.
    pub fn images() -> (r: Classifier)
        ensures
            r.allow_list() == Some(seq!["jpg"@, "png"@]),
    {
        let r = Classifier { extensions: Some(vec![String::from_str("jpg"), String::from_str("png")]) };
        assert(r.allow_list().unwrap() =~= seq!["jpg"@, "png"@]);
        r
    }

    /// Accepts every regular file.
    pub fn any_file() -> (r: Classifier)
        ensures
            r.allow_list() is None,
    {
        Classifier { extensions: None }
    }

    pub fn accepts(&self, name: &str, is_regular_file: bool) -> (r: bool)
        ensures
            r == accepted(name@, is_regular_file, self.allow_list()),
    {
        if !is_regular_file {
            return false;
        }
        match &self.extensions {
            None => true,
            Some(exts) => {
                let ghost allow = self.allow_list().unwrap();
                let mut i: usize = 0;
                while i < exts.len()
                    invariant
                        allow == exts@.map_values(|s: String| s@),
                        self.allow_list() == Some(allow),
                        is_regular_file,
                        i <= exts.len(),
                        forall|j: int| 0 <= j < i ==> !has_suffix(name@, #[trigger] allow[j]),
                    decreases exts.len() - i,
                {
                    assert(allow[i as int] == exts@[i as int]@);
                    if ends_with(name, exts[i].as_str()) {
                        assert(has_suffix(name@, allow[i as int]));
                        return true;
                    }
                    i = i + 1;
                }
                false
            },
        }
    }
}

} // verus!
