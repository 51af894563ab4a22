use pizza_store::codec::{pizza_from_query, AttrValue, DecodeError, Item};
use pizza_store::pizza::Pizza;

fn item(entries: Vec<(&str, AttrValue)>) -> Item {
    entries.into_iter().map(|(k, v)| (k.to_string(), v)).collect()
}

fn s(text: &str) -> AttrValue {
    AttrValue::S(text.to_string())
}

fn n(text: &str) -> AttrValue {
    AttrValue::N(text.to_string())
}

#[test]
fn to_item_writes_name_and_price() {
    let it = Pizza::new("margherita".to_string(), 10).to_item();
    assert_eq!(it.len(), 2);
    assert_eq!(it[0].0, "name");
    assert!(matches!(&it[0].1, AttrValue::S(v) if v == "margherita"));
    assert_eq!(it[1].0, "price");
    assert!(matches!(&it[1].1, AttrValue::N(v) if v == "10"));
}

#[test]
fn to_item_writes_negative_prices() {
    let it = Pizza::new("x".to_string(), -3).to_item();
    assert!(matches!(&it[1].1, AttrValue::N(v) if v == "-3"));
}

#[test]
fn from_item_reads_a_stored_pizza() {
    let it = item(vec![("price", n("12")), ("name", s("diavola"))]);
    assert_eq!(
        Pizza::from_item(&it),
        Ok(Pizza::new("diavola".to_string(), 12))
    );
}

#[test]
fn from_item_ignores_other_attributes() {
    let it = item(vec![("name", s("a")), ("extra", AttrValue::Other), ("price", n("1"))]);
    assert_eq!(Pizza::from_item(&it), Ok(Pizza::new("a".to_string(), 1)));
}

#[test]
fn item_round_trip() {
    for (name, price) in [("margherita", 10), ("", 0), ("quattro \"formaggi\"", i32::MIN)] {
        let p = Pizza::new(name.to_string(), price);
        assert_eq!(Pizza::from_item(&p.to_item()), Ok(p));
    }
}

#[test]
fn from_item_reports_each_defect() {
    assert_eq!(
        Pizza::from_item(&item(vec![("price", n("1"))])),
        Err(DecodeError::MissingName)
    );
    assert_eq!(
        Pizza::from_item(&item(vec![("name", n("1")), ("price", n("1"))])),
        Err(DecodeError::NameNotString)
    );
    assert_eq!(
        Pizza::from_item(&item(vec![("name", s("a"))])),
        Err(DecodeError::MissingPrice)
    );
    assert_eq!(
        Pizza::from_item(&item(vec![("name", s("a")), ("price", s("1"))])),
        Err(DecodeError::PriceNotNumber)
    );
    assert_eq!(
        Pizza::from_item(&item(vec![("name", s("a")), ("price", AttrValue::Other)])),
        Err(DecodeError::PriceNotNumber)
    );
    assert_eq!(
        Pizza::from_item(&item(vec![("name", s("a")), ("price", n("1.5"))])),
        Err(DecodeError::PriceNotInteger)
    );
    assert_eq!(
        Pizza::from_item(&item(vec![("name", s("a")), ("price", n("3000000000"))])),
        Err(DecodeError::PriceNotInteger)
    );
}

#[test]
fn name_is_checked_before_price() {
    assert_eq!(
        Pizza::from_item(&item(vec![("price", s("x"))])),
        Err(DecodeError::MissingName)
    );
}

#[test]
fn query_without_items_finds_nothing() {
    assert_eq!(pizza_from_query(None), Ok(None));
    assert_eq!(pizza_from_query(Some(vec![])), Ok(None));
}

#[test]
fn query_reads_the_first_item() {
    let items = vec![
        Pizza::new("a".to_string(), 1).to_item(),
        Pizza::new("b".to_string(), 2).to_item(),
    ];
    assert_eq!(
        pizza_from_query(Some(items)),
        Ok(Some(Pizza::new("a".to_string(), 1)))
    );
}

#[test]
fn query_surfaces_a_malformed_item() {
    let items = vec![item(vec![("name", s("a")), ("price", n("ten"))])];
    assert_eq!(pizza_from_query(Some(items)), Err(DecodeError::PriceNotInteger));
}
