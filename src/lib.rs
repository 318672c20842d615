//! A small HTTP/1.1 application server library: protocol value types, a
//! request decoder over bytes, a response builder and a route registry with
//! the dispatch rules that decide what a connection is sent.
pub mod text;
pub mod fields;
pub mod method;
pub mod path;
pub mod version;
pub mod request;
pub mod response;
pub mod server;
