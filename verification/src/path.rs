//! Path index: parses dotted paths into segment vectors and memoises them
//! behind a bounded cache.

use vstd::prelude::*;
use crate::value::path_model;
use crate::value::str_eq;

verus! {

broadcast use vstd::std_specs::vec::group_vec_axioms, vstd::seq::group_seq_axioms;

/// Segments of `s` from position `i` on, where `start..i` spans the part of
/// the current segment scanned so far.
pub open spec fn split_from(s: Seq<char>, i: int, start: int) -> Seq<Seq<char>>
    decreases s.len() - i,
{
    if i >= s.len() {
        seq![s.subrange(start, s.len() as int)]
    } else if s[i] == '.' {
        seq![s.subrange(start, i)] + split_from(s, i + 1, i + 1)
    } else {
        split_from(s, i + 1, start)
    }
}

/// The `'.'`-separated segments of a path string; the empty string denotes
/// the root and has no segments.
pub open spec fn parse_path_spec(s: Seq<char>) -> Seq<Seq<char>> {
    if s.len() == 0 {
        Seq::empty()
    } else {
        split_from(s, 0, 0)
    }
}

/// Parsing is a function of the path string alone: equal strings always
/// parse to equal segment sequences.
pub proof fn lemma_parse_deterministic(a: Seq<char>, b: Seq<char>)
    requires
        a == b,
    ensures
        parse_path_spec(a) == parse_path_spec(b),
{
}

/// Split a dotted path into its segments.
pub fn parse_segments(path: &str) -> (r: Vec<String>)
    ensures
        path_model(r@) == parse_path_spec(path@),
{
    let n = path.unicode_len();
    if n == 0 {
        let r: Vec<String> = Vec::new();
        proof {
            assert(path_model(r@) =~= parse_path_spec(path@));
        }
        return r;
    }
    let mut out: Vec<String> = Vec::new();
    let mut start: usize = 0;
    let mut i: usize = 0;
    while i < n
        invariant
            start <= i <= n,
            n == path@.len(),
            path_model(out@) + split_from(path@, i as int, start as int) == split_from(
                path@,
                0,
                0,
            ),
        decreases n - i,
    {
        let c = path.get_char(i);
        if c == '.' {
            let seg: String = path.substring_char(start, i).to_owned();
            proof {
                assert((path_model(out@) + seq![seg@]) + split_from(path@, i + 1, i + 1)
                    =~= path_model(out@) + (seq![path@.subrange(start as int, i as int)]
                    + split_from(path@, i + 1, i + 1)));
            }
            out.push(seg);
            proof {
                assert(path_model(out@) =~= path_model(out@.drop_last()) + seq![
                    out@.last()@,
                ]);
            }
            start = i + 1;
        }
        i += 1;
    }
    let last: String = path.substring_char(start, n).to_owned();
    let ghost before = out@;
    out.push(last);
    proof {
        assert(path_model(out@) =~= path_model(before) + seq![path@.subrange(
            start as int,
            n as int,
        )]);
    }
    out
}

/// Copies of a segment vector, character-for-character.
pub fn clone_segments(segs: &Vec<String>) -> (r: Vec<String>)
    ensures
        path_model(r@) == path_model(segs@),
{
    let mut out: Vec<String> = Vec::new();
    let mut i: usize = 0;
    while i < segs.len()
        invariant
            i <= segs@.len(),
            out@.len() == i as nat,
            forall|j: int| 0 <= j < i ==> out@[j]@ == segs@[j]@,
        decreases segs@.len() - i,
    {
        out.push(segs[i].clone());
        i += 1;
    }
    proof {
        assert(path_model(out@) =~= path_model(segs@));
    }
    out
}

/// One memoised path: the raw string and its parsed segments.
pub struct CacheEntry {
    pub raw: String,
    pub segs: Vec<String>,
}

/// A bounded memo table from raw path strings to parsed segments. Entries
/// are kept in insertion order; when the table is full, the oldest half is
/// evicted.
pub struct PathCache {
    pub entries: Vec<CacheEntry>,
    pub ceiling: usize,
}

impl PathCache {
    /// Every cached segment vector is the parse of its key, and the table
    /// respects its ceiling.
    pub open spec fn wf(&self) -> bool {
        &&& self.entries@.len() <= self.ceiling
        &&& forall|j: int|
            0 <= j < self.entries@.len() ==> path_model(#[trigger] self.entries@[j].segs@)
                == parse_path_spec(self.entries@[j].raw@)
    }

    /// An empty cache with the given ceiling.
    pub fn new(ceiling: usize) -> (r: PathCache)
        ensures
            r.wf(),
            r.entries@.len() == 0,
            r.ceiling == ceiling,
    {
        PathCache { entries: Vec::new(), ceiling }
    }

    /// The number of memoised paths.
    pub fn len(&self) -> (r: usize)
        ensures
            r == self.entries@.len(),
    {
        self.entries.len()
    }

    /// Parse a dotted path, reusing the memo table when the string was seen
    /// before. Whatever the cache holds, the result is exactly the parse of
    /// the argument.
    pub fn parse(&mut self, path: &str) -> (r: Vec<String>)
        requires
            old(self).wf(),
        ensures
            final(self).wf(),
            final(self).ceiling == old(self).ceiling,
            path_model(r@) == parse_path_spec(path@),
    {
        let mut j: usize = 0;
        while j < self.entries.len()
            invariant
                self.wf(),
                j <= self.entries@.len(),
            decreases self.entries@.len() - j,
        {
            if str_eq(self.entries[j].raw.as_str(), path) {
                return clone_segments(&self.entries[j].segs);
            }
            j += 1;
        }
        let segs = parse_segments(path);
        if self.entries.len() >= self.ceiling && self.ceiling > 0 {
            let keep = self.ceiling / 2;
            let dropn = self.entries.len() - keep;
            let tail = self.entries.split_off(dropn);
            self.entries = tail;
        }
        if self.entries.len() < self.ceiling {
            let copy = clone_segments(&segs);
            self.entries.push(CacheEntry { raw: path.to_owned(), segs: copy });
        }
        segs
    }
}

} // verus!
