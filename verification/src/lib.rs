//! desire: the verified core of a small web framework — request path and
//! header logic, static-file decisions, the response envelope, routing
//! tables, server-sent events and OpenAPI documents.
#![allow(unused_imports)]

pub mod chars;
pub mod encoding;
pub mod error;
pub mod ext;
pub mod extract;
pub mod form;
pub mod fs;
pub mod http;
pub mod json;
pub mod middleware;
pub mod openapi;
pub mod resp;
pub mod respond;
pub mod router;
pub mod sse;
pub mod table;
pub mod text;
