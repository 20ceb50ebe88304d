//! The deduplicating string interner.
//!
//! An interner owns three parts: a hasher that computes bucket keys, a dedup
//! table that stores only symbol indices (never string content), and a
//! backend holding exactly one `String` per distinct content ever interned.
//! A probe of the table re-derives each candidate's content through the
//! backend, so no string byte is stored twice.

use vstd::prelude::*;
use crate::hashing::{hash_chars, FnvHasher, FNV_OFFSET_BASIS};
use crate::symbol::Symbol;
use crate::text::str_eq;

verus! {

/// The symbol space: one instance can hold at most this many distinct
/// strings, because a symbol's index must fit in 32 bits.
pub const SYMBOL_LIMIT: u64 = 0x1_0000_0000;

/// True when no two entries of `v` hold the same character sequence.
pub open spec fn distinct_seqs(v: Seq<Seq<char>>) -> bool {
    forall|i: int, j: int| 0 <= i < v.len() && 0 <= j < v.len() && i != j ==> v[i] != v[j]
}

/// The table after interning `s`: unchanged if the content is already
/// present, else extended by one entry at the end.
pub open spec fn intern_one(v: Seq<Seq<char>>, s: Seq<char>) -> Seq<Seq<char>> {
    if v.contains(s) {
        v
    } else {
        v.push(s)
    }
}

/// The symbol index that interning `s` into table `v` yields: the index of
/// the existing entry, or the next fresh index.
pub open spec fn intern_sym(v: Seq<Seq<char>>, s: Seq<char>) -> int {
    if v.contains(s) {
        v.index_of(s)
    } else {
        v.len() as int
    }
}

/// The symbol index a pure query of `s` yields, if any.
pub open spec fn get_one(v: Seq<Seq<char>>, s: Seq<char>) -> Option<int> {
    if v.contains(s) {
        Some(v.index_of(s))
    } else {
        None
    }
}

/// The content a symbol index resolves to, if the table issued it.
pub open spec fn resolve_one(v: Seq<Seq<char>>, i: int) -> Option<Seq<char>> {
    if 0 <= i < v.len() {
        Some(v[i])
    } else {
        None
    }
}

/// The table after interning every entry of `ss` in order.
pub open spec fn intern_all(v: Seq<Seq<char>>, ss: Seq<Seq<char>>) -> Seq<Seq<char>>
    decreases ss.len(),
{
    if ss.len() == 0 {
        v
    } else {
        intern_all(intern_one(v, ss[0]), ss.drop_first())
    }
}

/// In a duplicate-free table, an entry's index is the one `index_of` picks.
pub proof fn lemma_index_of_unique(v: Seq<Seq<char>>, s: Seq<char>, i: int)
    requires
        distinct_seqs(v),
        0 <= i < v.len(),
        v[i] == s,
    ensures
        v.contains(s),
        v.index_of(s) == i,
{
    assert(v.contains(s));
    let j = v.index_of(s);
    assert(0 <= j < v.len() && v[j] == s);
    if j != i {
        assert(v[i] != v[j]);
    }
}

/// Appending content not yet present keeps a table duplicate-free.
pub proof fn lemma_distinct_push(v: Seq<Seq<char>>, s: Seq<char>)
    requires
        distinct_seqs(v),
        !v.contains(s),
    ensures
        distinct_seqs(v.push(s)),
{
    let v1 = v.push(s);
    assert forall|i: int, j: int| 0 <= i < v1.len() && 0 <= j < v1.len() && i != j implies v1[i]
        != v1[j] by {
        if i < v.len() && j < v.len() {
            assert(v1[i] == v[i] && v1[j] == v[j]);
        } else if i < v.len() {
            assert(v1[j] == s && v1[i] == v[i]);
            assert(v.contains(v[i]) == true) by {
                assert(exists|k: int| 0 <= k < v.len() && v[k] == v[i]);
            }
        } else {
            assert(v1[i] == s && v1[j] == v[j]);
            assert(v.contains(v[j]) == true) by {
                assert(exists|k: int| 0 <= k < v.len() && v[k] == v[j]);
            }
        }
    }
}

/// Data structure to intern and resolve strings.
///
/// Caches strings with minimal memory footprint and associates them with
/// unique symbols, which allow constant-time comparisons and look-ups of the
/// underlying interned strings.
///
/// The main functionality:
///
/// - [`StringInterner::get_or_intern`]: maps string content to its symbol,
///   interning the content first if it is new.
/// - [`StringInterner::resolve`]: maps a symbol back to its string content.
///
/// The abstract state is the sequence of distinct strings in the order they
/// were first interned; the symbol issued for the `i`-th distinct string
/// carries index `i`. Iteration over all pairs is therefore a walk of the
/// indices `0 .. len()` through [`StringInterner::resolve`].
#[derive(Debug)]
pub struct StringInterner {
    hasher: FnvHasher,
    dedup: Vec<Vec<u32>>,
    backend: Vec<String>,
}

impl View for StringInterner {
    type V = Seq<Seq<char>>;

    /// The interned contents, in the order they were first interned.
    closed spec fn view(&self) -> Seq<Seq<char>> {
        self.backend@.map_values(|t: String| t@)
    }
}

impl StringInterner {
    /// The seed of the instance-owned hasher.
    pub closed spec fn seed(self) -> u64 {
        self.hasher.seed()
    }

    /// The bucket of the dedup table that content `s` belongs to.
    closed spec fn bucket_of(self, s: Seq<char>) -> int {
        hash_chars(self.hasher.seed(), s) as int % (self.dedup@.len() as int)
    }

    /// Well-formedness: the dedup table has at least one bucket, the backend
    /// is within the symbol space, every table entry points at a backend
    /// string whose hash selects that very bucket, every backend string is
    /// findable in its bucket, and no content is stored twice.
    pub closed spec fn wf(self) -> bool {
        &&& 1 <= self.dedup@.len()
        &&& self.backend@.len() <= SYMBOL_LIMIT
        &&& forall|b: int, k: int|
            0 <= b < self.dedup@.len() && 0 <= k < self.dedup@[b]@.len() ==> (
            #[trigger] self.dedup@[b]@[k]) < self.backend@.len()
        &&& forall|b: int, k: int|
            0 <= b < self.dedup@.len() && 0 <= k < self.dedup@[b]@.len() ==> self.bucket_of(
                self.backend@[#[trigger] self.dedup@[b]@[k] as int]@,
            ) == b
        &&& forall|i: int|
            0 <= i < self.backend@.len() ==> self.dedup@[self.bucket_of(
                (#[trigger] self.backend@[i])@,
            )]@.contains(i as u32)
        &&& distinct_seqs(self@)
    }

    /// A well-formed interner holds no content twice.
    pub proof fn lemma_wf_distinct(self)
        requires
            self.wf(),
        ensures
            distinct_seqs(self@),
            self@.len() <= SYMBOL_LIMIT,
    {
    }

    /// Shared constructor: `nbuckets` empty buckets, empty backend.
    fn with_buckets(hasher: FnvHasher, nbuckets: usize) -> (r: Self)
        requires
            1 <= nbuckets,
        ensures
            r.wf(),
            r@ == Seq::<Seq<char>>::empty(),
            r.seed() == hasher.seed(),
    {
        let dedup = empty_buckets(nbuckets);
        let r = StringInterner { hasher, dedup, backend: Vec::new() };
        proof {
            assert(r@ =~= Seq::<Seq<char>>::empty());
        }
        r
    }

    /// Bucket count for a capacity hint: at least a small fixed floor.
    fn bucket_count_for(cap: usize) -> (n: usize)
        ensures
            1 <= n,
    {
        if cap < 16 {
            16
        } else {
            cap
        }
    }

    /// Creates a new empty `StringInterner`.
    pub fn new() -> (r: Self)
        ensures
            r.wf(),
            r@ == Seq::<Seq<char>>::empty(),
            r.seed() == FNV_OFFSET_BASIS,
    {
        Self::with_hasher(FnvHasher::default())
    }

    /// Creates a new empty `StringInterner` with the given initial capacity.
    ///
    /// The capacity is a best-effort preallocation hint, never a correctness
    /// requirement.
    pub fn with_capacity(cap: usize) -> (r: Self)
        ensures
            r.wf(),
            r@ == Seq::<Seq<char>>::empty(),
            r.seed() == FNV_OFFSET_BASIS,
    {
        Self::with_capacity_and_hasher(cap, FnvHasher::default())
    }

    /// Creates a new empty `StringInterner` with the given hasher.
    pub fn with_hasher(hash_builder: FnvHasher) -> (r: Self)
        ensures
            r.wf(),
            r@ == Seq::<Seq<char>>::empty(),
            r.seed() == hash_builder.seed(),
    {
        Self::with_buckets(hash_builder, 16)
    }

    /// Creates a new empty `StringInterner` with the given initial capacity
    /// and the given hasher.
    pub fn with_capacity_and_hasher(cap: usize, hash_builder: FnvHasher) -> (r: Self)
        ensures
            r.wf(),
            r@ == Seq::<Seq<char>>::empty(),
            r.seed() == hash_builder.seed(),
    {
        let n = Self::bucket_count_for(cap);
        Self::with_buckets(hash_builder, n)
    }

    /// Returns the number of strings interned by the interner.
    pub fn len(&self) -> (n: usize)
        ensures
            n == self@.len(),
    {
        self.backend.len()
    }

    /// Returns `true` if the string interner has no interned strings.
    pub fn is_empty(&self) -> (b: bool)
        ensures
            b == (self@.len() == 0),
    {
        self.len() == 0
    }

    /// Computes the bucket-key hash for the given string under the
    /// instance-owned hasher.
    fn make_hash(&self, string: &str) -> (h: u64)
        ensures
            h == hash_chars(self.seed(), string@),
    {
        self.hasher.hash_of(string)
    }

    /// Probes the bucket that `h` selects for an entry whose backend string
    /// equals `string`. Takes the hash precomputed, so a get-or-intern
    /// hashes and probes exactly once.
    fn probe(&self, string: &str, h: u64) -> (r: Option<Symbol>)
        requires
            self.wf(),
            h == hash_chars(self.seed(), string@),
        ensures
            match r {
                Some(sym) => self@.contains(string@) && 0 <= sym@ < self@.len() && self@[sym@]
                    == string@,
                None => !self@.contains(string@),
            },
    {
        let nb: usize = self.dedup.len();
        let b: usize = (h % (nb as u64)) as usize;
        proof {
            assert(b as int == self.bucket_of(string@));
        }
        let bucket: &Vec<u32> = &self.dedup[b];
        let n: usize = bucket.len();
        let mut k: usize = 0;
        while k < n
            invariant
                self.wf(),
                b < self.dedup@.len(),
                b as int == self.bucket_of(string@),
                bucket@ == self.dedup@[b as int]@,
                n == bucket@.len(),
                k <= n,
                forall|j: int|
                    0 <= j < k ==> self.backend@[(#[trigger] bucket@[j]) as int]@ != string@,
            decreases n - k,
        {
            let e: u32 = bucket[k];
            proof {
                assert(self.dedup@[b as int]@[k as int] == e);
            }
            let t: &String = &self.backend[e as usize];
            if str_eq(t.as_str(), string) {
                proof {
                    assert(self@[e as int] == self.backend@[e as int]@);
                    assert(self@.contains(string@)) by {
                        assert(self@[e as int] == string@);
                    }
                }
                return Some(Symbol::from_u32(e));
            }
            k = k + 1;
        }
        proof {
            if self@.contains(string@) {
                let i = choose|i: int| 0 <= i < self@.len() && self@[i] == string@;
                assert(self.backend@[i]@ == string@);
                assert(self.bucket_of(self.backend@[i]@) == b as int);
                assert(self.dedup@[b as int]@.contains(i as u32));
                let j = choose|j: int|
                    0 <= j < self.dedup@[b as int]@.len() && self.dedup@[b as int]@[j] == i as u32;
                assert(self.backend@[(bucket@[j]) as int]@ != string@);
                assert(false);
            }
        }
        None
    }

    /// Returns the symbol for the given string if any.
    ///
    /// Can be used to query whether a string has already been interned
    /// without interning: the interner is taken immutably, so the query
    /// changes nothing and allocates nothing in the backend.
    pub fn get(&self, string: &str) -> (r: Option<Symbol>)
        requires
            self.wf(),
        ensures
            match r {
                Some(sym) => self@.contains(string@) && 0 <= sym@ < self@.len() && self@[sym@]
                    == string@ && get_one(self@, string@) == Some(sym@),
                None => !self@.contains(string@) && get_one(self@, string@) is None,
            },
    {
        let h = self.make_hash(string);
        let r = self.probe(string, h);
        proof {
            match r {
                Some(sym) => {
                    lemma_index_of_unique(self@, string@, sym@);
                },
                None => {},
            }
        }
        r
    }

    /// Stores content known to be absent: appends it to the backend and
    /// records the fresh symbol index in the bucket that `h` selects.
    fn insert_new(&mut self, string: &str, h: u64) -> (sym: Symbol)
        requires
            old(self).wf(),
            !old(self)@.contains(string@),
            old(self)@.len() < SYMBOL_LIMIT,
            h == hash_chars(old(self).seed(), string@),
        ensures
            final(self).wf(),
            final(self)@ == old(self)@.push(string@),
            sym@ == old(self)@.len(),
            final(self).seed() == old(self).seed(),
    {
        let idx32: u32 = self.backend.len() as u32;
        self.backend.push(string.to_owned());
        let nb: usize = self.dedup.len();
        let b: usize = (h % (nb as u64)) as usize;
        let mut bucket: Vec<u32> = Vec::new();
        self.dedup.set_and_swap(b, &mut bucket);
        bucket.push(idx32);
        self.dedup.set_and_swap(b, &mut bucket);
        proof {
            let vold = old(self)@;
            let snew = string@;
            let len0 = old(self).backend@.len() as int;
            assert(self.backend@ =~= old(self).backend@.push(self.backend@[len0]));
            assert(self.backend@[len0]@ == snew);
            assert(self@ =~= vold.push(snew)) by {
                assert forall|i: int| 0 <= i < self@.len() implies self@[i] == vold.push(snew)[i]
                by {
                    if i < len0 {
                        assert(self.backend@[i] == old(self).backend@[i]);
                    }
                }
            }
            assert(self.dedup@.len() == old(self).dedup@.len());
            assert(self.dedup@[b as int]@ =~= old(self).dedup@[b as int]@.push(idx32));
            assert(forall|c: int|
                0 <= c < self.dedup@.len() && c != b as int ==> self.dedup@[c] == old(
                    self,
                ).dedup@[c]);
            // the hasher and the bucket count are untouched, so every
            // content keeps its bucket
            assert forall|s: Seq<char>| #[trigger] self.bucket_of(s) == old(self).bucket_of(s)
            by {}
            lemma_distinct_push(vold, snew);
            assert(self.wf()) by {
                assert forall|c: int, k: int|
                    0 <= c < self.dedup@.len() && 0 <= k < self.dedup@[c]@.len() implies (
                #[trigger] self.dedup@[c]@[k]) < self.backend@.len() && self.bucket_of(
                    self.backend@[self.dedup@[c]@[k] as int]@,
                ) == c by {
                    if c == b as int && k == self.dedup@[c]@.len() - 1 {
                        assert(self.dedup@[c]@[k] == idx32);
                        assert(self.backend@[idx32 as int]@ == snew);
                        assert(old(self).bucket_of(snew) == b as int);
                    } else {
                        assert(self.dedup@[c]@[k] == old(self).dedup@[c]@[k]);
                        assert((old(self).dedup@[c]@[k] as int) < old(self).backend@.len());
                        assert(self.backend@[old(self).dedup@[c]@[k] as int] == old(
                            self,
                        ).backend@[old(self).dedup@[c]@[k] as int]);
                        assert(old(self).bucket_of(
                            old(self).backend@[old(self).dedup@[c]@[k] as int]@,
                        ) == c);
                    }
                }
                assert forall|i: int| 0 <= i < self.backend@.len() implies self.dedup@[self
                    .bucket_of((#[trigger] self.backend@[i])@)]@.contains(i as u32) by {
                    if i < len0 {
                        assert(self.backend@[i] == old(self).backend@[i]);
                        let c = old(self).bucket_of(old(self).backend@[i]@);
                        assert(old(self).dedup@[c]@.contains(i as u32));
                        let k = choose|k: int|
                            0 <= k < old(self).dedup@[c]@.len() && old(self).dedup@[c]@[k] == i
                                as u32;
                        assert(self.dedup@[c]@[k] == i as u32);
                        assert(self.dedup@[c]@.contains(i as u32));
                    } else {
                        assert(i == idx32 as int);
                        assert(self.bucket_of(self.backend@[i]@) == b as int);
                        let k = self.dedup@[b as int]@.len() - 1;
                        assert(self.dedup@[b as int]@[k] == idx32);
                        assert(self.dedup@[b as int]@.contains(idx32));
                    }
                }
                assert(distinct_seqs(self@));
            }
        }
        Symbol::from_u32(idx32)
    }

    /// Rebuilds the dedup table with `new_count` buckets, re-deriving every
    /// entry's bucket from its backend string. The interned contents and
    /// their symbols are untouched: only probe chains get shorter.
    fn rehash(&mut self, new_count: usize)
        requires
            old(self).wf(),
            1 <= new_count,
        ensures
            final(self).wf(),
            final(self)@ == old(self)@,
            final(self).seed() == old(self).seed(),
    {
        let nb: usize = self.backend.len();
        let mut dedup: Vec<Vec<u32>> = empty_buckets(new_count);
        let mut i: usize = 0;
        while i < nb
            invariant
                self.wf(),
                nb == self.backend@.len(),
                i <= nb,
                dedup@.len() == new_count,
                1 <= new_count,
                forall|b: int, k: int|
                    0 <= b < new_count && 0 <= k < dedup@[b]@.len() ==> (
                    #[trigger] dedup@[b]@[k]) < i,
                forall|b: int, k: int|
                    0 <= b < new_count && 0 <= k < dedup@[b]@.len() ==> hash_chars(
                        self.seed(),
                        self.backend@[#[trigger] dedup@[b]@[k] as int]@,
                    ) as int % (new_count as int) == b,
                forall|e: int|
                    0 <= e < i ==> dedup@[hash_chars(
                        self.seed(),
                        (#[trigger] self.backend@[e])@,
                    ) as int % (new_count as int)]@.contains(e as u32),
            decreases nb - i,
        {
            let idx32: u32 = i as u32;
            let h: u64 = self.hasher.hash_of(self.backend[i].as_str());
            let b: usize = (h % (new_count as u64)) as usize;
            let ghost prev = dedup@;
            let mut bucket: Vec<u32> = Vec::new();
            dedup.set_and_swap(b, &mut bucket);
            bucket.push(idx32);
            dedup.set_and_swap(b, &mut bucket);
            proof {
                assert(dedup@.len() == prev.len());
                assert(dedup@[b as int]@ =~= prev[b as int]@.push(idx32));
                assert(forall|c: int|
                    0 <= c < prev.len() && c != b as int ==> dedup@[c] == prev[c]);
                assert forall|c: int, k: int|
                    0 <= c < new_count && 0 <= k < dedup@[c]@.len() implies (
                #[trigger] dedup@[c]@[k]) < i + 1 && hash_chars(
                    self.seed(),
                    self.backend@[dedup@[c]@[k] as int]@,
                ) as int % (new_count as int) == c by {
                    if c == b as int && k == dedup@[c]@.len() - 1 {
                        assert(dedup@[c]@[k] == idx32);
                    } else {
                        assert(dedup@[c]@[k] == prev[c]@[k]);
                    }
                }
                assert forall|e: int| 0 <= e < i + 1 implies dedup@[hash_chars(
                    self.seed(),
                    (#[trigger] self.backend@[e])@,
                ) as int % (new_count as int)]@.contains(e as u32) by {
                    if e < i {
                        let c = hash_chars(self.seed(), self.backend@[e]@) as int % (
                        new_count as int);
                        assert(prev[c]@.contains(e as u32));
                        let k = choose|k: int| 0 <= k < prev[c]@.len() && prev[c]@[k] == e as u32;
                        assert(dedup@[c]@[k] == e as u32);
                        assert(dedup@[c]@.contains(e as u32));
                    } else {
                        assert(dedup@[b as int]@[dedup@[b as int]@.len() - 1] == idx32);
                        assert(dedup@[b as int]@.contains(idx32));
                    }
                }
            }
            i = i + 1;
        }
        self.dedup = dedup;
        proof {
            assert(self@ =~= old(self)@);
            assert(self.wf()) by {
                assert forall|b: int, k: int|
                    0 <= b < self.dedup@.len() && 0 <= k < self.dedup@[b]@.len() implies (
                #[trigger] self.dedup@[b]@[k]) < self.backend@.len() && self.bucket_of(
                    self.backend@[self.dedup@[b]@[k] as int]@,
                ) == b by {}
                assert forall|e: int| 0 <= e < self.backend@.len() implies self.dedup@[self
                    .bucket_of((#[trigger] self.backend@[e])@)]@.contains(e as u32) by {}
                assert(distinct_seqs(self@));
            }
        }
    }

    /// Interns the given string: one hash, one probe, and on a miss one
    /// backend insertion extending the same traversal.
    ///
    /// This is used as the engine by [`StringInterner::get_or_intern`] and
    /// [`StringInterner::get_or_intern_static`].
    fn get_or_intern_using(&mut self, string: &str) -> (sym: Symbol)
        requires
            old(self).wf(),
            old(self)@.contains(string@) || old(self)@.len() < SYMBOL_LIMIT,
        ensures
            final(self).wf(),
            final(self)@ == intern_one(old(self)@, string@),
            sym@ == intern_sym(old(self)@, string@),
            final(self)@.contains(string@),
            final(self).seed() == old(self).seed(),
    {
        let h = self.make_hash(string);
        let r = self.probe(string, h);
        match r {
            Some(sym) => {
                proof {
                    lemma_index_of_unique(self@, string@, sym@);
                }
                sym
            },
            None => {
                if self.backend.len() / 4 >= self.dedup.len() {
                    // load factor reached four entries per bucket: double
                    // the table before the chains lengthen further
                    let grown: usize = if self.dedup.len() <= usize::MAX / 2 {
                        self.dedup.len() * 2
                    } else {
                        self.dedup.len()
                    };
                    self.rehash(grown);
                }
                let sym = self.insert_new(string, h);
                proof {
                    assert(self@[old(self)@.len() as int] == string@);
                    assert(self@.contains(string@));
                }
                sym
            },
        }
    }

    /// Interns the given string.
    ///
    /// Returns a symbol for resolution into the original string: the
    /// existing symbol when equal content was interned before, else a fresh
    /// symbol for the newly stored content.
    ///
    /// The symbol space is bounded: when the content is new, the table must
    /// still be below [`SYMBOL_LIMIT`] entries.
    pub fn get_or_intern(&mut self, string: &str) -> (sym: Symbol)
        requires
            old(self).wf(),
            old(self)@.contains(string@) || old(self)@.len() < SYMBOL_LIMIT,
        ensures
            final(self).wf(),
            final(self)@ == intern_one(old(self)@, string@),
            sym@ == intern_sym(old(self)@, string@),
            final(self)@.contains(string@),
            final(self).seed() == old(self).seed(),
    {
        self.get_or_intern_using(string)
    }

    /// Interns the given `'static` string.
    ///
    /// Observably equivalent to [`StringInterner::get_or_intern`]: the
    /// longer-lived input is an opportunity for a backend to avoid a copy,
    /// never a different dedup behaviour. Content already interned through
    /// either entry point resolves to the existing symbol.
    pub fn get_or_intern_static(&mut self, string: &'static str) -> (sym: Symbol)
        requires
            old(self).wf(),
            old(self)@.contains(string@) || old(self)@.len() < SYMBOL_LIMIT,
        ensures
            final(self).wf(),
            final(self)@ == intern_one(old(self)@, string@),
            sym@ == intern_sym(old(self)@, string@),
            final(self)@.contains(string@),
            final(self).seed() == old(self).seed(),
    {
        self.get_or_intern_using(string)
    }

    /// Every `(symbol, content)` pair, in first-intern order.
    ///
    /// This is the iteration the interner offers: symbols are dense indices,
    /// so the pair at position `i` carries the symbol with index `i`.
    pub fn pairs(&self) -> (r: Vec<(Symbol, String)>)
        requires
            self.wf(),
        ensures
            r@.len() == self@.len(),
            forall|i: int|
                0 <= i < r@.len() ==> (#[trigger] r@[i]).0@ == i && r@[i].1@ == self@[i],
    {
        let n: usize = self.backend.len();
        let mut r: Vec<(Symbol, String)> = Vec::new();
        let mut i: usize = 0;
        while i < n
            invariant
                self.wf(),
                i <= n,
                n == self.backend@.len(),
                r@.len() == i,
                forall|j: int|
                    0 <= j < i ==> (#[trigger] r@[j]).0@ == j && r@[j].1@ == self@[j],
            decreases n - i,
        {
            let sym = Symbol::from_u32(i as u32);
            let s = self.backend[i].clone();
            proof {
                assert(self@[i as int] == self.backend@[i as int]@);
            }
            r.push((sym, s));
            i = i + 1;
        }
        r
    }

    /// Interns every entry of `strings` in order; repeated get-or-intern.
    pub fn extend(&mut self, strings: &Vec<String>)
        requires
            old(self).wf(),
            old(self)@.len() + strings@.len() <= SYMBOL_LIMIT,
        ensures
            final(self).wf(),
            final(self)@ == intern_all(old(self)@, strings@.map_values(|t: String| t@)),
            final(self).seed() == old(self).seed(),
    {
        let ghost ss = strings@.map_values(|t: String| t@);
        let n: usize = strings.len();
        let mut i: usize = 0;
        proof {
            assert(ss.skip(0) =~= ss);
        }
        while i < n
            invariant
                self.wf(),
                n == strings@.len(),
                i <= n,
                ss == strings@.map_values(|t: String| t@),
                self@.len() + (n - i) <= SYMBOL_LIMIT,
                intern_all(self@, ss.skip(i as int)) == intern_all(old(self)@, ss),
                self.seed() == old(self).seed(),
            decreases n - i,
        {
            let s: &String = &strings[i];
            proof {
                assert(ss.skip(i as int)[0] == ss[i as int]);
                assert(ss.skip(i as int).drop_first() =~= ss.skip(i as int + 1));
                assert(ss[i as int] == s@);
            }
            self.get_or_intern(s.as_str());
            i = i + 1;
        }
        proof {
            assert(ss.skip(n as int) =~= Seq::<Seq<char>>::empty());
        }
    }

    /// Builds an interner from a sequence of strings, presized to the
    /// sequence's length: every entry is interned in order, duplicates
    /// deduplicating to the symbol of their first occurrence.
    pub fn from_iter(strings: &Vec<String>) -> (r: Self)
        requires
            strings@.len() <= SYMBOL_LIMIT,
        ensures
            r.wf(),
            r@ == intern_all(Seq::<Seq<char>>::empty(), strings@.map_values(|t: String| t@)),
    {
        let mut r = Self::with_capacity(strings.len());
        r.extend(strings);
        r
    }

    /// Returns the string for the given symbol if any: the exact content
    /// given at intern time for a symbol this instance issued, and nothing
    /// for a symbol index it never issued.
    pub fn resolve(&self, symbol: Symbol) -> (r: Option<&str>)
        ensures
            match r {
                Some(t) => 0 <= symbol@ < self@.len() && t@ == self@[symbol@] && resolve_one(
                    self@,
                    symbol@,
                ) == Some(t@),
                None => symbol@ >= self@.len() && resolve_one(self@, symbol@) is None,
            },
    {
        let i: usize = symbol.to_usize();
        if i < self.backend.len() {
            proof {
                assert(self@[i as int] == self.backend@[i as int]@);
            }
            Some(self.backend[i].as_str())
        } else {
            None
        }
    }
}

/// Builds `n` empty buckets.
fn empty_buckets(n: usize) -> (r: Vec<Vec<u32>>)
    ensures
        r@.len() == n,
        forall|b: int| 0 <= b < n ==> (#[trigger] r@[b])@.len() == 0,
{
    let mut r: Vec<Vec<u32>> = Vec::new();
    let mut i: usize = 0;
    while i < n
        invariant
            i <= n,
            r@.len() == i,
            forall|b: int| 0 <= b < i ==> (#[trigger] r@[b])@.len() == 0,
        decreases n - i,
    {
        r.push(Vec::new());
        i = i + 1;
    }
    r
}

/// Copies one bucket of symbol indices.
fn clone_bucket(b: &Vec<u32>) -> (r: Vec<u32>)
    ensures
        r@ == b@,
{
    let n: usize = b.len();
    let mut r: Vec<u32> = Vec::new();
    let mut i: usize = 0;
    while i < n
        invariant
            i <= n,
            n == b@.len(),
            r@ =~= b@.subrange(0, i as int),
        decreases n - i,
    {
        r.push(b[i]);
        i = i + 1;
    }
    proof {
        assert(b@.subrange(0, n as int) =~= b@);
    }
    r
}

impl Clone for StringInterner {
    /// Deep copy.
    ///
    /// The copy owns a freshly built backend and a freshly built dedup
    /// table with the same contents, so its table entries resolve into its
    /// own backend and the copy upholds the interner invariant in
    /// isolation; mutating the copy never touches the original.
    fn clone(&self) -> (r: Self)
        ensures
            r@ == self@,
            r.seed() == self.seed(),
            self.wf() ==> r.wf(),
    {
        let nd: usize = self.dedup.len();
        let mut dedup: Vec<Vec<u32>> = Vec::new();
        let mut i: usize = 0;
        while i < nd
            invariant
                i <= nd,
                nd == self.dedup@.len(),
                dedup@.len() == i,
                forall|b: int| 0 <= b < i ==> (#[trigger] dedup@[b])@ == self.dedup@[b]@,
            decreases nd - i,
        {
            let bucket = clone_bucket(&self.dedup[i]);
            dedup.push(bucket);
            i = i + 1;
        }
        let nb: usize = self.backend.len();
        let mut backend: Vec<String> = Vec::new();
        let mut j: usize = 0;
        while j < nb
            invariant
                j <= nb,
                nb == self.backend@.len(),
                backend@.len() == j,
                forall|k: int| 0 <= k < j ==> #[trigger] backend@[k] == self.backend@[k],
            decreases nb - j,
        {
            backend.push(self.backend[j].clone());
            j = j + 1;
        }
        proof {
            assert(backend@ =~= self.backend@);
        }
        let r = StringInterner { hasher: self.hasher, dedup, backend };
        proof {
            assert(r@ =~= self@);
            if self.wf() {
                assert forall|s: Seq<char>| #[trigger] r.bucket_of(s) == self.bucket_of(s) by {}
                assert(r.wf()) by {
                    assert forall|b: int, k: int|
                        0 <= b < r.dedup@.len() && 0 <= k < r.dedup@[b]@.len() implies (
                    #[trigger] r.dedup@[b]@[k]) < r.backend@.len() && r.bucket_of(
                        r.backend@[r.dedup@[b]@[k] as int]@,
                    ) == b by {
                        assert(r.dedup@[b]@[k] == self.dedup@[b]@[k]);
                        assert((self.dedup@[b]@[k] as int) < self.backend@.len());
                        assert(self.bucket_of(self.backend@[self.dedup@[b]@[k] as int]@) == b);
                    }
                    assert forall|i2: int| 0 <= i2 < r.backend@.len() implies r.dedup@[r.bucket_of(
                        (#[trigger] r.backend@[i2])@,
                    )]@.contains(i2 as u32) by {
                        assert(r.backend@[i2] == self.backend@[i2]);
                        let c = self.bucket_of(self.backend@[i2]@);
                        assert(self.dedup@[c]@.contains(i2 as u32));
                        let k = choose|k: int|
                            0 <= k < self.dedup@[c]@.len() && self.dedup@[c]@[k] == i2 as u32;
                        assert(r.dedup@[c]@[k] == i2 as u32);
                        assert(r.dedup@[c]@.contains(i2 as u32));
                    }
                    assert(distinct_seqs(r@));
                }
            }
        }
        r
    }
}

impl Default for StringInterner {
    /// The default interner is a new empty one.
    fn default() -> (r: Self)
        ensures
            r.wf(),
            r@ == Seq::<Seq<char>>::empty(),
    {
        StringInterner::new()
    }
}

impl PartialEq for StringInterner {
    /// Two interners are equal when they hold the same contents in the same
    /// first-intern order; the equality is delegated to the backends and
    /// never re-derives hashes, so the hasher seeds may differ.
    fn eq(&self, other: &Self) -> (r: bool) {
        if self.backend.len() != other.backend.len() {
            proof {
                assert(self@.len() != other@.len());
            }
            return false;
        }
        let n: usize = self.backend.len();
        let mut i: usize = 0;
        while i < n
            invariant
                i <= n,
                n == self.backend@.len(),
                n == other.backend@.len(),
                forall|k: int| 0 <= k < i ==> (#[trigger] self.backend@[k])@ == other.backend@[k]@,
            decreases n - i,
        {
            if !(self.backend[i] == other.backend[i]) {
                proof {
                    assert(self@[i as int] != other@[i as int]);
                }
                return false;
            }
            i = i + 1;
        }
        proof {
            assert(self@ =~= other@);
        }
        true
    }
}

impl vstd::std_specs::cmp::PartialEqSpecImpl for StringInterner {
    open spec fn obeys_eq_spec() -> bool {
        true
    }

    open spec fn eq_spec(&self, other: &StringInterner) -> bool {
        self@ == other@
    }
}

impl Eq for StringInterner {

}

} // verus!
