use pizza_store::codec::{pizza_from_query, AttrValue, Item};
use pizza_store::pizza::Pizza;

/// A table keyed by the "name" attribute: a put replaces, a query returns the
/// one item under the key.
#[derive(Default)]
struct Table {
    items: Vec<(String, Item)>,
}

impl Table {
    fn put(&mut self, item: Item) {
        let key = item.iter().find(|(k, _)| k == "name").map(|(_, v)| v);
        if let Some(AttrValue::S(key)) = key {
            let key = key.clone();
            self.items.retain(|(k, _)| *k != key);
            self.items.push((key, item));
        }
    }

    fn query(&self, key: &str) -> Option<Vec<Item>> {
        Some(
            self.items
                .iter()
                .filter(|(k, _)| k == key)
                .map(|(_, it)| {
                    it.iter()
                        .map(|(k, v)| {
                            let v = match v {
                                AttrValue::S(s) => AttrValue::S(s.clone()),
                                AttrValue::N(n) => AttrValue::N(n.clone()),
                                AttrValue::Other => AttrValue::Other,
                            };
                            (k.clone(), v)
                        })
                        .collect()
                })
                .collect(),
        )
    }
}

#[test]
fn create_then_get_through_a_table() {
    let mut table = Table::default();
    table.put(Pizza::new("hawaii".to_string(), 9).to_item());
    table.put(Pizza::new("margherita".to_string(), 10).to_item());
    assert_eq!(
        pizza_from_query(table.query("margherita")),
        Ok(Some(Pizza::new("margherita".to_string(), 10)))
    );
}

#[test]
fn get_of_a_name_never_written_is_none() {
    let mut table = Table::default();
    table.put(Pizza::new("hawaii".to_string(), 9).to_item());
    assert_eq!(pizza_from_query(table.query("margherita")), Ok(None));
    assert_eq!(pizza_from_query(table.query("Hawaii")), Ok(None));
}
