//! Derives an OpenAPI-shaped description of a web service from its syntax
//! tree: the routes it registers, the parameters of its handlers and the
//! schemas of its request and response records.

pub mod catalogue;
pub mod diagnostics;
pub mod document;
pub mod expansion;
pub mod params;
pub mod reference;
pub mod resolver;
pub mod routes;
pub mod schema;
pub mod syntax;
pub mod table;
pub mod text;
pub mod traverser;
pub mod worklist;
