//! A content-addressed repository of analytical packets: hashes, the file
//! store layout, the packet index and a small query language over it.

pub mod text;
pub mod hash;
pub mod number;
pub mod query_types;
pub mod query_lex;
pub mod query_parse;
pub mod index;
pub mod query;
pub mod query_eval;
pub mod sort;
pub mod responses;
pub mod ids;
pub mod store;
pub mod config;
pub mod location;
pub mod metadata;
