//! The client order id of each live (symbol, local order id), held in a `hashbrown` map.
use vstd::prelude::*;

use crate::id::{OrderId, SymbolOrderId};

verus! {

/// A `hashbrown::HashMap` from (symbol, local order id) to client order id. The map's type
/// cannot be declared to Verus (its allocator parameter is bounded by a trait that `hashbrown`
/// does not export), so the map stands in a private field and is reached only through the
/// methods below.
#[verifier::external_body]
pub struct OrderIdTable {
    map: hashbrown::HashMap<SymbolOrderId, String>,
}

/// What the table holds: the client order id of each (symbol, order id).
pub uninterp spec fn order_id_entries(table: OrderIdTable) -> Map<(Seq<char>, u64), Seq<char>>;

/// The contents of an empty table.
pub open spec fn no_order_ids() -> Map<(Seq<char>, u64), Seq<char>> {
    Map::empty()
}

impl OrderIdTable {
    /// `hashbrown::HashMap::new`: an empty map.
    #[verifier::external_body]
    pub(crate) fn new() -> (r: OrderIdTable)
        ensures
            order_id_entries(r) == no_order_ids(),
    {
        OrderIdTable { map: hashbrown::HashMap::new() }
    }

    /// `HashMap::get` with the key made of `symbol` and `order_id`, the value cloned: the client
    /// order id stored under that key, if any.
    #[verifier::external_body]
    pub(crate) fn get(&self, symbol: &str, order_id: OrderId) -> (r: Option<String>)
        ensures
            match r {
                Some(c) => order_id_entries(*self).contains_key((symbol@, order_id)) && c@
                    == order_id_entries(*self)[(symbol@, order_id)],
                None => !order_id_entries(*self).contains_key((symbol@, order_id)),
            },
    {
        self.map.get(&SymbolOrderId { symbol: symbol.to_string(), order_id }).cloned()
    }

    /// `HashMap::insert`: the key now maps to `value`, every other key as before.
    #[verifier::external_body]
    pub(crate) fn insert(&mut self, key: SymbolOrderId, value: String)
        ensures
            order_id_entries(*final(self)) == order_id_entries(*old(self)).insert(
                (key.symbol@, key.order_id),
                value@,
            ),
    {
        self.map.insert(key, value);
    }

    /// `HashMap::remove` with the key made of `symbol` and `order_id`: the key is gone, every
    /// other key as before.
    #[verifier::external_body]
    pub(crate) fn remove(&mut self, symbol: &str, order_id: OrderId)
        ensures
            order_id_entries(*final(self)) == order_id_entries(*old(self)).remove((symbol@, order_id)),
    {
        self.map.remove(&SymbolOrderId { symbol: symbol.to_string(), order_id });
    }
}

} // verus!
