//! A small store of text items ("todos"), each named by a sequential
//! identifier that is never reused, with create, read, page, update and
//! delete operations.
pub mod todo;
pub mod store;
pub mod id_gen;
pub mod service;
pub mod laws;
