//! What a key-value table keyed by the `"name"` attribute does with the items
//! that the codec writes and reads: a put replaces the item under its key, and
//! a key query hands back the one item stored under that key, if any.
use crate::codec::{
    encode_item, lemma_decode_encoded, lookup, name_key, read_query, AttrView, DecodeError, ItemView,
};
use crate::pizza::PizzaView;
use vstd::prelude::*;

verus! {

/// A table's contents, by the value of each item's key attribute.
pub type TableView = Map<Seq<char>, ItemView>;

/// The table after an unconditional put of `item`.
pub open spec fn put_item(t: TableView, item: ItemView) -> TableView {
    match lookup(item, name_key()) {
        Some(AttrView::S(key)) => t.insert(key, item),
        _ => t,
    }
}

/// What a query for the key `key` hands back.
pub open spec fn query_key(t: TableView, key: Seq<char>) -> Option<Seq<ItemView>> {
    if t.contains_key(key) {
        Some(seq![t[key]])
    } else {
        Some(Seq::empty())
    }
}

/// Storing a pizza and then reading it by its name gives back that pizza,
/// whatever the table held before.
pub proof fn lemma_create_then_get(t: TableView, p: PizzaView)
    ensures
        read_query(query_key(put_item(t, encode_item(p)), p.name)) == Ok::<Option<PizzaView>, DecodeError>(
            Some(p),
        ),
{
    let item = encode_item(p);
    lemma_decode_encoded(p);
    assert(lookup(item, name_key()) == Some(AttrView::S(p.name)));
    let t2 = put_item(t, item);
    assert(t2 == t.insert(p.name, item));
    assert(query_key(t2, p.name) == Some(seq![item]));
}

/// Reading a name under which nothing was stored gives no pizza, not an error.
pub proof fn lemma_get_unwritten(t: TableView, name: Seq<char>)
    requires
        !t.contains_key(name),
    ensures
        read_query(query_key(t, name)) == Ok::<Option<PizzaView>, DecodeError>(None),
{
}

} // verus!
