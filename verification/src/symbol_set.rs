//! A set of symbols held in a `hashbrown` set.
use vstd::prelude::*;

verus! {

/// A `hashbrown::HashSet` of symbols. Like the map of order ids, it stands in a private field
/// (the set's allocator parameter is bounded by a trait that `hashbrown` does not export) and is
/// reached only through the methods below.
#[verifier::external_body]
pub struct SymbolSet {
    set: hashbrown::HashSet<String>,
}

/// What the set holds.
pub uninterp spec fn symbol_set_contents(set: SymbolSet) -> Set<Seq<char>>;

/// The contents of an empty set.
pub open spec fn no_symbols() -> Set<Seq<char>> {
    Set::empty()
}

impl SymbolSet {
    /// `hashbrown::HashSet::new`: an empty set.
    #[verifier::external_body]
    pub(crate) fn new() -> (r: SymbolSet)
        ensures
            symbol_set_contents(r) == no_symbols(),
    {
        SymbolSet { set: hashbrown::HashSet::new() }
    }

    /// `HashSet::insert` of a copy of `symbol`: the set now holds it too.
    #[verifier::external_body]
    pub(crate) fn insert(&mut self, symbol: &str)
        ensures
            symbol_set_contents(*final(self)) == symbol_set_contents(*old(self)).insert(symbol@),
    {
        self.set.insert(symbol.to_string());
    }

    /// `HashSet::contains`: whether the set holds `symbol`.
    #[verifier::external_body]
    pub(crate) fn contains(&self, symbol: &str) -> (r: bool)
        ensures
            r == symbol_set_contents(*self).contains(symbol@),
    {
        self.set.contains(symbol)
    }
}

} // verus!
