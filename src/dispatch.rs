//! The request handler's decisions. A request is routed to an action: answer
//! at once, or read or store a pizza; the caller performs the storage call and
//! hands its outcome back for the answer. A failed storage call is not
//! answered here: it fails the invocation.
use crate::json::{error_body, error_json, pizza_body, pizza_json};
use crate::pizza::{Pizza, PizzaView};
use vstd::prelude::*;

verus! {

/// The request methods that the handler tells apart.
#[derive(Debug, Clone, Copy, PartialEq, Eq)]
pub enum Method {
    Get,
    Post,
    Other,
}

/// An inbound request: its method, the `pizza_name` path parameter, and the
/// body read as a pizza (`None` where it is missing or not one).
#[derive(Debug)]
pub struct Request {
    pub method: Method,
    pub pizza_name: Option<String>,
    pub pizza: Option<Pizza>,
}

/// An HTTP status and a JSON body.
#[derive(Debug)]
pub struct Response {
    pub status: u16,
    pub body: String,
}

/// What the handler does next with a request.
#[derive(Debug)]
pub enum Action {
    /// Answer now, without touching the store.
    Respond(Response),
    /// Read the pizza of this name, then answer with `respond_found`.
    Get(String),
    /// Store this pizza, then answer with `respond_created`.
    Create(Pizza),
}

/// A rejection: status 400 with the error object of `message`.
pub open spec fn is_rejection(r: Response, message: Seq<char>) -> bool {
    r.status == 400 && r.body@ == error_json(message)
}

/// A success: status 200 with the JSON object of `p`.
pub open spec fn is_pizza_response(r: Response, p: PizzaView) -> bool {
    r.status == 200 && r.body@ == pizza_json(p)
}

pub open spec fn rejects(a: Action, message: Seq<char>) -> bool {
    a matches Action::Respond(r) && is_rejection(r, message)
}

/// The action for a request: a read by the path parameter for GET, a store of
/// the body's pizza for POST, and a rejection where either is missing or the
/// method is another.
pub open spec fn routes(req: Request, a: Action) -> bool {
    match req.method {
        Method::Get => match req.pizza_name {
            Some(name) => a matches Action::Get(n) && n@ == name@,
            None => rejects(a, "no param found"@),
        },
        Method::Post => match req.pizza {
            Some(p) => a matches Action::Create(q) && q@ == p@,
            None => rejects(a, "could not read the pizza"@),
        },
        Method::Other => rejects(a, "unsupported"@),
    }
}

/// A response with status 400 and the error object of `message`.
pub fn build_error(message: &str) -> (r: Response)
    ensures
        is_rejection(r, message@),
{
    Response { status: 400, body: error_body(message) }
}

/// Decides what to do with a request.
pub fn route(req: Request) -> (a: Action)
    ensures
        routes(req, a),
{
    match req.method {
        Method::Get => match req.pizza_name {
            Some(name) => Action::Get(name),
            None => Action::Respond(build_error("no param found")),
        },
        Method::Post => match req.pizza {
            Some(p) => Action::Create(p),
            None => Action::Respond(build_error("could not read the pizza")),
        },
        Method::Other => Action::Respond(build_error("unsupported")),
    }
}

/// The answer to a read: the pizza found, or a rejection where there is none.
pub fn respond_found(found: Option<Pizza>) -> (r: Response)
    ensures
        match found {
            Some(p) => is_pizza_response(r, p@),
            None => is_rejection(r, "no pizza found"@),
        },
{
    match found {
        Some(p) => Response { status: 200, body: pizza_body(&p) },
        None => build_error("no pizza found"),
    }
}

/// The answer to a store: the pizza that was stored.
pub fn respond_created(created: Pizza) -> (r: Response)
    ensures
        is_pizza_response(r, created@),
{
    Response { status: 200, body: pizza_body(&created) }
}

} // verus!
