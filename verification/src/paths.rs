//! Interned paths: qualified names as sequences of interned segments.

use vstd::prelude::*;
use vstd::string::*;
use crate::interning::{index_after, pool_after, lemma_intern_sound, lemma_position_unique};
use crate::strings::{StringIdx, text_at};
use crate::Compiler;

verus! {

/// Index of an interned path.
#[derive(Debug, Copy, Clone, PartialEq, Eq, Hash, Structural)]
pub struct PathIdx(pub usize);

/// Append-only pool of paths. Equal segment lists always get the same index.
/// The empty path names the root module.
#[derive(Debug, Clone)]
pub struct PathMap {
    paths: Vec<Vec<StringIdx>>,
}

/// The segments stored at `idx`, or none when the pool is too short.
pub open spec fn path_at(pool: Seq<Seq<StringIdx>>, idx: PathIdx) -> Seq<StringIdx> {
    if idx.0 < pool.len() {
        pool[idx.0 as int]
    } else {
        Seq::empty()
    }
}

/// The segments of a path written out and joined by `::`.
pub open spec fn path_text(strings: Seq<Seq<char>>, segments: Seq<StringIdx>) -> Seq<char>
    decreases segments.len(),
{
    if segments.len() == 0 {
        Seq::empty()
    } else if segments.len() == 1 {
        text_at(strings, segments[0])
    } else {
        path_text(strings, segments.drop_last()) + seq![':', ':'] + text_at(
            strings,
            segments.last(),
        )
    }
}

/// Whether two segment lists are equal.
pub fn same_segments(a: &[StringIdx], b: &[StringIdx]) -> (r: bool)
    ensures
        r == (a@ == b@),
{
    if a.len() != b.len() {
        return false;
    }
    let mut i: usize = 0;
    while i < a.len()
        invariant
            a.len() == b.len(),
            i <= a.len(),
            forall|k: int| 0 <= k < i ==> a@[k] == b@[k],
        decreases a.len() - i,
    {
        if a[i] != b[i] {
            return false;
        }
        i = i + 1;
    }
    assert(a@ =~= b@);
    true
}

/// A copy of a segment list.
pub fn copy_segments(a: &[StringIdx]) -> (r: Vec<StringIdx>)
    ensures
        r@ == a@,
{
    let mut r: Vec<StringIdx> = Vec::new();
    let mut i: usize = 0;
    while i < a.len()
        invariant
            i <= a.len(),
            r@ == a@.subrange(0, i as int),
        decreases a.len() - i,
    {
        r.push(a[i]);
        i = i + 1;
    }
    assert(a@.subrange(0, a.len() as int) =~= a@);
    r
}

impl View for PathMap {
    type V = Seq<Seq<StringIdx>>;

    closed spec fn view(&self) -> Seq<Seq<StringIdx>> {
        Seq::new(self.paths.len() as nat, |i: int| self.paths[i]@)
    }
}

impl PathMap {
    /// No path is stored twice.
    pub open spec fn wf(&self) -> bool {
        self@.no_duplicates()
    }

    /// A pool that holds no path.
    pub fn new() -> (r: PathMap)
        ensures
            r.wf(),
            r@ == Seq::<Seq<StringIdx>>::empty(),
    {
        let r = PathMap { paths: Vec::new() };
        assert(r@ =~= Seq::<Seq<StringIdx>>::empty());
        r
    }

    /// Number of paths interned so far.
    pub fn len(&self) -> (n: usize)
        ensures
            n == self@.len(),
    {
        self.paths.len()
    }

    /// Interns `path`: yields the index it already has, or appends it.
    pub fn insert(&mut self, path: &[StringIdx]) -> (idx: PathIdx)
        requires
            old(self).wf(),
        ensures
            final(self).wf(),
            final(self)@ == pool_after(old(self)@, path@),
            idx.0 == index_after(old(self)@, path@),
            idx.0 < final(self)@.len(),
            final(self)@[idx.0 as int] == path@,
            old(self)@.is_prefix_of(final(self)@),
    {
        proof {
            lemma_intern_sound(self@, path@);
        }
        let mut i: usize = 0;
        while i < self.paths.len()
            invariant
                self.wf(),
                i <= self.paths.len(),
                forall|k: int| 0 <= k < i ==> self@[k] != path@,
            decreases self.paths.len() - i,
        {
            if same_segments(self.paths[i].as_slice(), path) {
                proof {
                    lemma_position_unique(self@, path@, i as int);
                }
                return PathIdx(i);
            }
            i = i + 1;
        }
        let idx = PathIdx(self.paths.len());
        self.paths.push(copy_segments(path));
        assert(self@ =~= old(self)@.push(path@));
        idx
    }

    /// The segments interned at `idx`.
    pub fn get(&self, idx: PathIdx) -> (s: &[StringIdx])
        requires
            idx.0 < self@.len(),
        ensures
            s@ == self@[idx.0 as int],
    {
        self.paths[idx.0].as_slice()
    }

    /// A copy of the segments interned at `idx`; none when `idx` was not
    /// handed out by this pool.
    pub fn segments(&self, idx: PathIdx) -> (s: Vec<StringIdx>)
        ensures
            s@ == path_at(self@, idx),
    {
        if idx.0 < self.paths.len() {
            copy_segments(self.paths[idx.0].as_slice())
        } else {
            Vec::new()
        }
    }
}

impl PathIdx {
    /// The path written out, its segments joined by `::`.
    pub fn display(&self, c: &Compiler) -> (r: String)
        ensures
            r@ == path_text(c.strings@, path_at(c.paths@, *self)),
    {
        let segments = c.paths.segments(*self);
        let mut r: String = String::new();
        let mut i: usize = 0;
        while i < segments.len()
            invariant
                i <= segments.len(),
                r@ == path_text(c.strings@, segments@.subrange(0, i as int)),
            decreases segments.len() - i,
        {
            if i > 0 {
                r.push(':');
                r.push(':');
            }
            r.append(c.strings.text(segments[i]));
            proof {
                let now = segments@.subrange(0, i as int + 1);
                assert(now.drop_last() =~= segments@.subrange(0, i as int));
                assert(now.last() == segments@[i as int]);
                if i > 0 {
                    assert(path_text(c.strings@, now.drop_last()).push(':').push(':')
                        =~= path_text(c.strings@, now.drop_last()) + seq![':', ':']);
                }
            }
            i = i + 1;
        }
        assert(segments@.subrange(0, segments.len() as int) =~= segments@);
        r
    }
}

} // verus!
