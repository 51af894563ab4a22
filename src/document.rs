//! A pizza as a document of a document collection: the name in the string
//! field `"name"`, the price in the 32-bit integer field `"price"`. Inserts do
//! not replace: documents of one name may coexist, and a find by name returns
//! the first in the collection's order.
use crate::codec::{name_key, price_key, DecodeError};
use crate::pizza::{Pizza, PizzaView};
use vstd::prelude::*;

verus! {

/// A field value of a stored document, reduced to what a record reads.
#[derive(Debug)]
pub enum FieldValue {
    Str(String),
    Int32(i32),
    Other,
}

pub ghost enum FieldView {
    Str(Seq<char>),
    Int32(i32),
    Other,
}

impl View for FieldValue {
    type V = FieldView;

    open spec fn view(&self) -> FieldView {
        match self {
            FieldValue::Str(s) => FieldView::Str(s@),
            FieldValue::Int32(v) => FieldView::Int32(*v),
            FieldValue::Other => FieldView::Other,
        }
    }
}

/// A stored document: field names with their values.
pub type Document = Vec<(String, FieldValue)>;

pub type DocumentView = Seq<(Seq<char>, FieldView)>;

pub open spec fn document_view(d: Seq<(String, FieldValue)>) -> DocumentView {
    d.map_values(|e: (String, FieldValue)| (e.0@, e.1@))
}

/// The value of the first field at or after `i` that is named `key`.
pub open spec fn field_from(d: DocumentView, key: Seq<char>, i: int) -> Option<FieldView>
    decreases d.len() - i,
{
    if i < 0 || i >= d.len() {
        None
    } else if d[i].0 == key {
        Some(d[i].1)
    } else {
        field_from(d, key, i + 1)
    }
}

pub open spec fn field(d: DocumentView, key: Seq<char>) -> Option<FieldView> {
    field_from(d, key, 0)
}

/// The document literal of a pizza.
pub open spec fn document_of(p: PizzaView) -> DocumentView {
    seq![(name_key(), FieldView::Str(p.name)), (price_key(), FieldView::Int32(p.price))]
}

/// The pizza that a stored document holds, or why it holds none.
pub open spec fn decode_document(d: DocumentView) -> Result<PizzaView, DecodeError> {
    match field(d, name_key()) {
        None => Err(DecodeError::MissingName),
        Some(FieldView::Str(name)) => match field(d, price_key()) {
            None => Err(DecodeError::MissingPrice),
            Some(FieldView::Int32(price)) => Ok(PizzaView { name, price }),
            Some(_) => Err(DecodeError::PriceNotNumber),
        },
        Some(_) => Err(DecodeError::NameNotString),
    }
}

/// What a find-one by name hands back, read as a pizza.
pub open spec fn read_found(found: Option<DocumentView>) -> Result<Option<PizzaView>, DecodeError> {
    match found {
        None => Ok(None),
        Some(d) => match decode_document(d) {
            Ok(p) => Ok(Some(p)),
            Err(e) => Err(e),
        },
    }
}

/// A collection's documents, in its natural order.
pub type CollectionView = Seq<DocumentView>;

/// The collection after an insert of `d`.
pub open spec fn insert_document(c: CollectionView, d: DocumentView) -> CollectionView {
    c.push(d)
}

pub open spec fn has_name(d: DocumentView, name: Seq<char>) -> bool {
    field(d, name_key()) == Some(FieldView::Str(name))
}

/// The first document at or after `i` whose name field is `name`.
pub open spec fn find_from(c: CollectionView, name: Seq<char>, i: int) -> Option<DocumentView>
    decreases c.len() - i,
{
    if i < 0 || i >= c.len() {
        None
    } else if has_name(c[i], name) {
        Some(c[i])
    } else {
        find_from(c, name, i + 1)
    }
}

/// What a find-one filtering on the name field hands back.
pub open spec fn find_one(c: CollectionView, name: Seq<char>) -> Option<DocumentView> {
    find_from(c, name, 0)
}

fn field_value<'a>(d: &'a Document, key: &String) -> (r: Option<&'a FieldValue>)
    ensures
        match r {
            None => field(document_view(d@), key@) is None,
            Some(v) => field(document_view(d@), key@) == Some(v@),
        },
{
    let ghost v = document_view(d@);
    let mut i: usize = 0;
    while i < d.len()
        invariant
            i <= d.len(),
            v == document_view(d@),
            field(v, key@) == field_from(v, key@, i as int),
        decreases d.len() - i,
    {
        let entry = &d[i];
        assert(v[i as int] == (entry.0@, entry.1@));
        if entry.0 == *key {
            return Some(&entry.1);
        }
        i = i + 1;
    }
    None
}

impl Pizza {
    /// The document that stores this pizza.
    pub fn to_document(&self) -> (r: Document)
        ensures
            document_view(r@) == document_of(self@),
    {
        let mut d: Document = Vec::new();
        d.push((String::from_str("name"), FieldValue::Str(self.name_str().to_owned())));
        d.push((String::from_str("price"), FieldValue::Int32(self.price())));
        assert(document_view(d@) =~= document_of(self@));
        d
    }

    /// The pizza that a stored document holds, or why it holds none.
    pub fn from_document(d: &Document) -> (r: Result<Pizza, DecodeError>)
        ensures
            decode_document(document_view(d@)) == match r {
                Ok(p) => Ok(p@),
                Err(e) => Err::<PizzaView, DecodeError>(e),
            },
    {
        let name = match field_value(d, &String::from_str("name")) {
            None => return Err(DecodeError::MissingName),
            Some(FieldValue::Str(s)) => s.clone(),
            Some(_) => return Err(DecodeError::NameNotString),
        };
        let price = match field_value(d, &String::from_str("price")) {
            None => return Err(DecodeError::MissingPrice),
            Some(FieldValue::Int32(v)) => *v,
            Some(_) => return Err(DecodeError::PriceNotNumber),
        };
        Ok(Pizza::new(name, price))
    }
}

/// Reads the outcome of a find-one by name: no document means no such pizza.
pub fn pizza_from_document(found: Option<Document>) -> (r: Result<Option<Pizza>, DecodeError>)
    ensures
        read_found(
            match found {
                None => None,
                Some(d) => Some(document_view(d@)),
            },
        ) == match r {
            Ok(None) => Ok(None),
            Ok(Some(p)) => Ok(Some(p@)),
            Err(e) => Err::<Option<PizzaView>, DecodeError>(e),
        },
{
    match found {
        None => Ok(None),
        Some(d) => match Pizza::from_document(&d) {
            Ok(p) => Ok(Some(p)),
            Err(e) => Err(e),
        },
    }
}

/// Decoding the document of a pizza gives that pizza back.
pub proof fn lemma_decode_document_of(p: PizzaView)
    ensures
        decode_document(document_of(p)) == Ok::<PizzaView, DecodeError>(p),
{
    reveal_strlit("name");
    reveal_strlit("price");
    let d = document_of(p);
    assert(name_key().len() != price_key().len());
    assert(field(d, name_key()) == Some(FieldView::Str(p.name)));
    assert(field_from(d, price_key(), 1) == Some(FieldView::Int32(p.price)));
    assert(decode_document(d) == Ok::<PizzaView, DecodeError>(PizzaView { name: p.name, price: p.price }));
}

proof fn lemma_find_from_skips(c: CollectionView, name: Seq<char>, i: int)
    requires
        0 <= i <= c.len(),
        forall|j: int| i <= j < c.len() ==> !has_name(#[trigger] c[j], name),
    ensures
        find_from(c, name, i) is None,
    decreases c.len() - i,
{
    if i < c.len() {
        lemma_find_from_skips(c, name, i + 1);
    }
}

proof fn lemma_find_from_appended(c: CollectionView, d: DocumentView, name: Seq<char>, i: int)
    requires
        0 <= i <= c.len(),
        forall|j: int| i <= j < c.len() ==> !has_name(#[trigger] c[j], name),
        has_name(d, name),
    ensures
        find_from(c.push(d), name, i) == Some(d),
    decreases c.len() - i,
{
    if i < c.len() {
        assert(c.push(d)[i] == c[i]);
        lemma_find_from_appended(c, d, name, i + 1);
    } else {
        assert(c.push(d)[i] == d);
    }
}

/// Inserting a pizza into a collection that holds no document of its name,
/// then finding it by name, gives back that pizza. (With an older document of
/// the same name the find may return that one instead: inserts do not replace.)
pub proof fn lemma_insert_then_find(c: CollectionView, p: PizzaView)
    requires
        forall|j: int| 0 <= j < c.len() ==> !has_name(#[trigger] c[j], p.name),
    ensures
        read_found(find_one(insert_document(c, document_of(p)), p.name)) == Ok::<
            Option<PizzaView>,
            DecodeError,
        >(Some(p)),
{
    lemma_decode_document_of(p);
    lemma_find_from_appended(c, document_of(p), p.name, 0);
}

/// Finding a name that no document of the collection carries gives no pizza,
/// not an error.
pub proof fn lemma_find_unwritten(c: CollectionView, name: Seq<char>)
    requires
        forall|j: int| 0 <= j < c.len() ==> !has_name(#[trigger] c[j], name),
    ensures
        read_found(find_one(c, name)) == Ok::<Option<PizzaView>, DecodeError>(None),
{
    lemma_find_from_skips(c, name, 0);
}

} // verus!
