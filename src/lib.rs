//! A declarative HTTP mock server's core: a parser that turns the bytes of
//! a request head into a request, and a resolver that answers a request
//! from an ordered route table.

pub mod error;
pub mod text;
pub mod string_map;
pub mod method;
pub mod status;
pub mod content_type;
pub mod request;
pub mod response;
