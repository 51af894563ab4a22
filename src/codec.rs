//! A pizza as an item of a key-value table: a list of named attributes, the
//! name under `"name"` as a string and the price under `"price"` as a number
//! written in decimal.
use crate::decimal::{
    decimal_text, format_i32, is_decimal_of, lemma_decimal_round_trip, lemma_decimal_text_is_decimal,
    parse_i32, parse_i32_spec,
};
use crate::pizza::{Pizza, PizzaView};
use vstd::prelude::*;

verus! {

/// An attribute value as the table hands it over, reduced to what a record
/// reads: a string, a number (in its decimal text), or anything else.
#[derive(Debug)]
pub enum AttrValue {
    S(String),
    N(String),
    Other,
}

pub ghost enum AttrView {
    S(Seq<char>),
    N(Seq<char>),
    Other,
}

impl View for AttrValue {
    type V = AttrView;

    open spec fn view(&self) -> AttrView {
        match self {
            AttrValue::S(s) => AttrView::S(s@),
            AttrValue::N(n) => AttrView::N(n@),
            AttrValue::Other => AttrView::Other,
        }
    }
}

/// A stored item: attribute names with their values.
pub type Item = Vec<(String, AttrValue)>;

pub type ItemView = Seq<(Seq<char>, AttrView)>;

pub open spec fn item_view(item: Seq<(String, AttrValue)>) -> ItemView {
    item.map_values(|e: (String, AttrValue)| (e.0@, e.1@))
}

/// Why a stored item is not a pizza.
#[derive(Debug, Clone, Copy, PartialEq, Eq)]
pub enum DecodeError {
    MissingName,
    NameNotString,
    MissingPrice,
    PriceNotNumber,
    PriceNotInteger,
}

pub open spec fn name_key() -> Seq<char> {
    "name"@
}

pub open spec fn price_key() -> Seq<char> {
    "price"@
}

/// The value of the first attribute at or after `i` that is named `key`.
pub open spec fn lookup_from(item: ItemView, key: Seq<char>, i: int) -> Option<AttrView>
    decreases item.len() - i,
{
    if i < 0 || i >= item.len() {
        None
    } else if item[i].0 == key {
        Some(item[i].1)
    } else {
        lookup_from(item, key, i + 1)
    }
}

pub open spec fn lookup(item: ItemView, key: Seq<char>) -> Option<AttrView> {
    lookup_from(item, key, 0)
}

/// The item that stores `p`: its name as a string attribute, then its price
/// as a number attribute in decimal.
pub open spec fn encode_item(p: PizzaView) -> ItemView {
    seq![
        (name_key(), AttrView::S(p.name)),
        (price_key(), AttrView::N(decimal_text(p.price as int))),
    ]
}

/// The pizza that a stored item holds, or why it holds none.
pub open spec fn decode_item(item: ItemView) -> Result<PizzaView, DecodeError> {
    match lookup(item, name_key()) {
        None => Err(DecodeError::MissingName),
        Some(AttrView::S(name)) => match lookup(item, price_key()) {
            None => Err(DecodeError::MissingPrice),
            Some(AttrView::N(text)) => match parse_i32_spec(text) {
                Some(price) => Ok(PizzaView { name, price }),
                None => Err(DecodeError::PriceNotInteger),
            },
            Some(_) => Err(DecodeError::PriceNotNumber),
        },
        Some(_) => Err(DecodeError::NameNotString),
    }
}

/// What a key query hands back: no list, or the matching items, of which the
/// first is read.
pub open spec fn read_query(items: Option<Seq<ItemView>>) -> Result<Option<PizzaView>, DecodeError> {
    match items {
        None => Ok(None),
        Some(s) => if s.len() == 0 {
            Ok(None)
        } else {
            match decode_item(s[0]) {
                Ok(p) => Ok(Some(p)),
                Err(e) => Err(e),
            }
        },
    }
}

pub open spec fn decoded(r: Result<Pizza, DecodeError>) -> Result<PizzaView, DecodeError> {
    match r {
        Ok(p) => Ok(p@),
        Err(e) => Err(e),
    }
}

pub open spec fn looked_up(r: Result<Option<Pizza>, DecodeError>) -> Result<Option<PizzaView>, DecodeError> {
    match r {
        Ok(None) => Ok(None),
        Ok(Some(p)) => Ok(Some(p@)),
        Err(e) => Err(e),
    }
}

pub open spec fn items_view(items: Option<Vec<Item>>) -> Option<Seq<ItemView>> {
    match items {
        None => None,
        Some(v) => Some(v@.map_values(|it: Item| item_view(it@))),
    }
}

/// The value of the first attribute of `item` named `key`.
fn lookup_attr<'a>(item: &'a Item, key: &String) -> (r: Option<&'a AttrValue>)
    ensures
        match r {
            None => lookup(item_view(item@), key@) is None,
            Some(a) => lookup(item_view(item@), key@) == Some(a@),
        },
{
    let ghost v = item_view(item@);
    let mut i: usize = 0;
    while i < item.len()
        invariant
            i <= item.len(),
            v == item_view(item@),
            lookup(v, key@) == lookup_from(v, key@, i as int),
        decreases item.len() - i,
    {
        let entry = &item[i];
        assert(v[i as int] == (entry.0@, entry.1@));
        if entry.0 == *key {
            return Some(&entry.1);
        }
        i = i + 1;
    }
    None
}

impl Pizza {
    /// The item that stores this pizza.
    pub fn to_item(&self) -> (r: Item)
        ensures
            item_view(r@) == encode_item(self@),
    {
        let mut item: Item = Vec::new();
        let name = String::from_str("name");
        let price = String::from_str("price");
        item.push((name, AttrValue::S(self.name_str().to_owned())));
        item.push((price, AttrValue::N(format_i32(self.price()))));
        assert(item_view(item@) =~= encode_item(self@));
        item
    }

    /// The pizza that a stored item holds, or why it holds none.
    pub fn from_item(item: &Item) -> (r: Result<Pizza, DecodeError>)
        ensures
            decode_item(item_view(item@)) == decoded(r),
    {
        let name_key = String::from_str("name");
        let price_key = String::from_str("price");
        let name = match lookup_attr(item, &name_key) {
            None => return Err(DecodeError::MissingName),
            Some(AttrValue::S(s)) => s.clone(),
            Some(_) => return Err(DecodeError::NameNotString),
        };
        let price = match lookup_attr(item, &price_key) {
            None => return Err(DecodeError::MissingPrice),
            Some(AttrValue::N(text)) => match parse_i32(text.as_str()) {
                Some(v) => v,
                None => return Err(DecodeError::PriceNotInteger),
            },
            Some(_) => return Err(DecodeError::PriceNotNumber),
        };
        Ok(Pizza::new(name, price))
    }
}

/// Reads the outcome of a key query: no list, or an empty one, means no such
/// pizza; otherwise the first item is decoded.
pub fn pizza_from_query(items: Option<Vec<Item>>) -> (r: Result<Option<Pizza>, DecodeError>)
    ensures
        looked_up(r) == read_query(items_view(items)),
{
    match items {
        None => Ok(None),
        Some(v) => {
            if v.len() == 0 {
                Ok(None)
            } else {
                match Pizza::from_item(&v[0]) {
                    Ok(p) => Ok(Some(p)),
                    Err(e) => Err(e),
                }
            }
        },
    }
}

/// Decoding the item that stores a pizza gives that pizza back.
pub proof fn lemma_decode_encoded(p: PizzaView)
    ensures
        decode_item(encode_item(p)) == Ok::<PizzaView, DecodeError>(p),
{
    let item = encode_item(p);
    assert(is_decimal_of(decimal_text(p.price as int), p.price as int)) by {
        lemma_decimal_text_is_decimal(p.price);
    }
    reveal_strlit("name");
    reveal_strlit("price");
    assert(name_key() != price_key()) by {
        assert(name_key().len() != price_key().len());
    }
    assert(lookup(item, name_key()) == Some(AttrView::S(p.name)));
    assert(lookup_from(item, price_key(), 1) == Some(item[1].1));
    assert(lookup(item, price_key()) == Some(item[1].1));
    let text = item[1].1->N_0;
    lemma_decimal_round_trip(text, p.price);
    assert(decode_item(item) == Ok::<PizzaView, DecodeError>(PizzaView { name: p.name, price: p.price }));
}

} // verus!
