//! The symbol type: a compact, copyable token standing for an interned string.

use vstd::prelude::*;

verus! {

/// Opaque token returned for an interned string.
///
/// A symbol is cheap to copy, hash and compare; within one interner instance
/// two symbols are equal exactly when they were issued for byte-identical
/// content. A symbol carries a bounded index, so the symbol space of one
/// instance holds at most `u32::MAX + 1` distinct strings. Symbols from
/// different instances are not meaningfully comparable.
#[derive(Clone, Copy, Debug, PartialEq, Eq, Hash, PartialOrd, Ord, Structural)]
pub struct Symbol {
    idx: u32,
}

impl View for Symbol {
    type V = int;

    closed spec fn view(&self) -> int {
        self.idx as int
    }
}

impl Symbol {
    /// Wraps a raw index. Kept crate-private: only the interner issues symbols
    /// whose index points at an entry of its own table.
    pub(crate) fn from_u32(idx: u32) -> (s: Symbol)
        ensures
            s@ == idx as int,
    {
        Symbol { idx }
    }

    /// The index this symbol carries, as a `usize`.
    pub fn to_usize(self) -> (n: usize)
        ensures
            n as int == self@,
    {
        self.idx as usize
    }

    /// Builds a symbol from a raw index, if it fits the bounded symbol space.
    ///
    /// A symbol built here is only meaningful for an interner that actually
    /// issued a symbol with the same index.
    pub fn try_from_usize(idx: usize) -> (r: Option<Symbol>)
        ensures
            match r {
                Some(s) => idx <= u32::MAX && s@ == idx as int,
                None => idx > u32::MAX,
            },
    {
        if idx <= u32::MAX as usize {
            Some(Symbol { idx: idx as u32 })
        } else {
            None
        }
    }
}

} // verus!
