//! Laws of the interner, proved over its abstract model.
//!
//! The model is the table of interned contents, a `Seq<Seq<char>>` in first
//! intern order; `intern_one`, `intern_sym`, `get_one` and `resolve_one` are
//! the spec-level counterparts of the executable operations, and every
//! executable contract speaks through them.

use vstd::prelude::*;
use crate::interner::{
    distinct_seqs, get_one, intern_one, intern_sym, lemma_distinct_push, lemma_index_of_unique,
    resolve_one,
};

verus! {

/// Interning equal content twice yields the same symbol, and the second call
/// leaves the table unchanged.
pub proof fn lemma_intern_dedups(v: Seq<Seq<char>>, s: Seq<char>)
    requires
        distinct_seqs(v),
    ensures
        intern_one(intern_one(v, s), s) == intern_one(v, s),
        intern_sym(intern_one(v, s), s) == intern_sym(v, s),
{
    let v1 = intern_one(v, s);
    if !v.contains(s) {
        assert(v1[v.len() as int] == s);
        assert(v1.contains(s));
        lemma_distinct_push(v, s);
        lemma_index_of_unique(v1, s, v.len() as int);
    }
}

/// Round trip: the symbol interning `s` yields resolves to `s` afterwards.
pub proof fn lemma_round_trip(v: Seq<Seq<char>>, s: Seq<char>)
    requires
        distinct_seqs(v),
    ensures
        resolve_one(intern_one(v, s), intern_sym(v, s)) == Some(s),
{
    let v1 = intern_one(v, s);
    let i = intern_sym(v, s);
    if v.contains(s) {
        let w = choose|k: int| 0 <= k < v.len() && v[k] == s;
        lemma_index_of_unique(v, s, w);
    } else {
        assert(v1[i] == s);
    }
}

/// Distinct content yields distinct symbols: interning `a`, then `b` with
/// different content, yields two different symbols.
pub proof fn lemma_distinct_symbols(v: Seq<Seq<char>>, a: Seq<char>, b: Seq<char>)
    requires
        distinct_seqs(v),
        a != b,
    ensures
        intern_sym(intern_one(v, a), b) != intern_sym(v, a),
{
    let ia = intern_sym(v, a);
    let v1 = intern_one(v, a);
    let ib = intern_sym(v1, b);
    lemma_round_trip(v, a);
    assert(0 <= ia < v1.len() && v1[ia] == a);
    if v1.contains(b) {
        let w = choose|k: int| 0 <= k < v1.len() && v1[k] == b;
        if !v.contains(a) {
            lemma_distinct_push(v, a);
        }
        lemma_index_of_unique(v1, b, w);
        assert(v1[ib] == b);
        if ia == ib {
            assert(a == b);
        }
    } else {
        assert(ib == v1.len() as int);
    }
}

/// Interning the same content any number of times grows the table exactly
/// once: one intern adds an entry only when the content is new, and every
/// later intern of that content adds nothing.
pub proof fn lemma_idempotent_len(v: Seq<Seq<char>>, s: Seq<char>)
    requires
        distinct_seqs(v),
    ensures
        intern_one(v, s).len() == v.len() + (if v.contains(s) {
            0int
        } else {
            1int
        }),
        intern_one(intern_one(v, s), s).len() == intern_one(v, s).len(),
{
    lemma_intern_dedups(v, s);
}

/// A query right after interning `s` returns exactly the symbol the intern
/// returned. (A query by itself never changes the table: it takes the
/// interner immutably.)
pub proof fn lemma_get_after_intern(v: Seq<Seq<char>>, s: Seq<char>)
    requires
        distinct_seqs(v),
    ensures
        get_one(intern_one(v, s), s) == Some(intern_sym(v, s)),
{
    let v1 = intern_one(v, s);
    lemma_round_trip(v, s);
    assert(v1.contains(s));
    lemma_intern_dedups(v, s);
}

/// A symbol index the instance never issued, one at or beyond the table
/// length, resolves to nothing.
pub proof fn lemma_resolve_unknown(v: Seq<Seq<char>>, i: int)
    requires
        i < 0 || i >= v.len(),
    ensures
        resolve_one(v, i) is None,
{
}

} // verus!
