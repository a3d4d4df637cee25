//! Interned strings: identifiers, literals and file paths as dense indices.

use vstd::prelude::*;
use vstd::string::*;
use crate::interning::{index_after, pool_after, lemma_intern_sound, lemma_position_unique};

verus! {

/// Index of an interned string.
#[derive(Debug, Copy, Clone, PartialEq, Eq, Hash, Structural)]
pub struct StringIdx(pub usize);

/// Append-only pool of strings. Equal contents always get the same index.
#[derive(Debug, Clone)]
pub struct StringMap {
    strings: Vec<String>,
}

/// The text stored at `idx`, or the empty text when the pool is too short.
pub open spec fn text_at(pool: Seq<Seq<char>>, idx: StringIdx) -> Seq<char> {
    if idx.0 < pool.len() {
        pool[idx.0 as int]
    } else {
        Seq::empty()
    }
}

impl View for StringMap {
    type V = Seq<Seq<char>>;

    closed spec fn view(&self) -> Seq<Seq<char>> {
        Seq::new(self.strings.len() as nat, |i: int| self.strings[i]@)
    }
}

impl StringMap {
    /// No text is stored twice.
    pub open spec fn wf(&self) -> bool {
        self@.no_duplicates()
    }

    /// A pool that holds no string.
    pub fn new() -> (r: StringMap)
        ensures
            r.wf(),
            r@ == Seq::<Seq<char>>::empty(),
    {
        let r = StringMap { strings: Vec::new() };
        assert(r@ =~= Seq::<Seq<char>>::empty());
        r
    }

    /// Number of strings interned so far.
    pub fn len(&self) -> (n: usize)
        ensures
            n == self@.len(),
    {
        self.strings.len()
    }

    /// The index of `string`, if the pool holds it.
    pub fn find(&self, string: &str) -> (r: Option<StringIdx>)
        requires
            self.wf(),
        ensures
            r is Some <==> self@.contains(string@),
            r matches Some(idx) ==> idx.0 == index_after(self@, string@),
    {
        let key: String = string.to_string();
        let mut i: usize = 0;
        while i < self.strings.len()
            invariant
                self.wf(),
                i <= self.strings.len(),
                key@ == string@,
                forall|k: int| 0 <= k < i ==> self@[k] != string@,
            decreases self.strings.len() - i,
        {
            if self.strings[i] == key {
                proof {
                    lemma_position_unique(self@, string@, i as int);
                }
                return Some(StringIdx(i));
            }
            i = i + 1;
        }
        None
    }

    /// Interns `string`: yields the index it already has, or appends it.
    pub fn insert(&mut self, string: &str) -> (idx: StringIdx)
        requires
            old(self).wf(),
        ensures
            final(self).wf(),
            final(self)@ == pool_after(old(self)@, string@),
            idx.0 == index_after(old(self)@, string@),
            idx.0 < final(self)@.len(),
            final(self)@[idx.0 as int] == string@,
            old(self)@.is_prefix_of(final(self)@),
    {
        proof {
            lemma_intern_sound(self@, string@);
        }
        match self.find(string) {
            Some(idx) => idx,
            None => {
                let idx = StringIdx(self.strings.len());
                self.strings.push(string.to_string());
                assert(self@ =~= old(self)@.push(string@));
                idx
            },
        }
    }

    /// The text interned at `idx`.
    pub fn get(&self, idx: StringIdx) -> (s: &str)
        requires
            idx.0 < self@.len(),
        ensures
            s@ == self@[idx.0 as int],
    {
        self.strings[idx.0].as_str()
    }

    /// The text interned at `idx`, or the empty text when `idx` was not
    /// handed out by this pool.
    pub fn text(&self, idx: StringIdx) -> (s: &str)
        ensures
            s@ == text_at(self@, idx),
    {
        if idx.0 < self.strings.len() {
            self.strings[idx.0].as_str()
        } else {
            proof {
                reveal_strlit("");
            }
            assert(""@ =~= Seq::<char>::empty());
            ""
        }
    }
}

} // verus!
