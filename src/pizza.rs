use vstd::prelude::*;

verus! {

/// What a pizza record is, mathematically: its name and its price.
pub ghost struct PizzaView {
    pub name: Seq<char>,
    pub price: i32,
}

/// A pizza record. The name identifies it; records are never changed once built.
#[derive(Debug, PartialEq, Eq)]
pub struct Pizza {
    pub name: String,
    price: i32,
}

impl View for Pizza {
    type V = PizzaView;

    closed spec fn view(&self) -> PizzaView {
        PizzaView { name: self.name@, price: self.price }
    }
}

impl Pizza {
    pub fn new(name: String, price: i32) -> (r: Pizza)
        ensures
            r@ == (PizzaView { name: name@, price }),
    {
        Pizza { name, price }
    }

    pub fn price(&self) -> (r: i32)
        ensures
            r == self@.price,
    {
        self.price
    }

    pub fn name_str(&self) -> (r: &str)
        ensures
            r@ == self@.name,
    {
        self.name.as_str()
    }
}

} // verus!
