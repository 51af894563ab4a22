//! JSON text of the handler's response bodies.
use crate::decimal::{decimal_text, format_i32};
use crate::pizza::{Pizza, PizzaView};
use vstd::prelude::*;

verus! {

/// The JSON string literal that holds `s`: quoted, with JSON's escapes.
pub uninterp spec fn json_string_of(s: Seq<char>) -> Seq<char>;

/// Relies on `serde_json::to_string` on a `str`, for the quoting and escaping
/// of a JSON string. Serialising a `str` into memory has no failing path.
#[verifier::external_body]
fn json_string(s: &str) -> (r: String)
    ensures
        r@ == json_string_of(s@),
{
    serde_json::to_string(s).unwrap_or_default()
}

/// `{"error":<message>}`
pub open spec fn error_json(message: Seq<char>) -> Seq<char> {
    "{\"error\":"@ + json_string_of(message) + "}"@
}

/// `{"name":<name>,"price":<price_text>}`
pub open spec fn pizza_json_with(name: Seq<char>, price_text: Seq<char>) -> Seq<char> {
    "{\"name\":"@ + json_string_of(name) + ",\"price\":"@ + price_text + "}"@
}

/// The JSON object of `p`, its price written in decimal.
pub open spec fn pizza_json(p: PizzaView) -> Seq<char> {
    pizza_json_with(p.name, decimal_text(p.price as int))
}

/// The JSON object that reports an error.
pub fn error_body(message: &str) -> (r: String)
    ensures
        r@ == error_json(message@),
{
    let mut out = String::from_str("{\"error\":");
    let quoted = json_string(message);
    out.append(quoted.as_str());
    out.append("}");
    out
}

/// The JSON object of a pizza.
pub fn pizza_body(p: &Pizza) -> (r: String)
    ensures
        r@ == pizza_json(p@),
{
    let mut out = String::from_str("{\"name\":");
    let quoted = json_string(p.name_str());
    out.append(quoted.as_str());
    out.append(",\"price\":");
    let price = format_i32(p.price());
    out.append(price.as_str());
    out.append("}");
    out
}

} // verus!
