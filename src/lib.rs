//! A small record store for pizzas: the record itself, its encoding as an
//! item of a key-value table and as a document of a document collection, the
//! decimal and JSON text it is written in, and the decisions of an HTTP-shaped
//! request handler. The laws that tie a store's write to its read are stated
//! over models of the two kinds of store.

pub mod codec;
pub mod decimal;
pub mod dispatch;
pub mod document;
pub mod json;
pub mod pizza;
pub mod table;
