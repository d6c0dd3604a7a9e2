//! An HTTP/1.x application server core: an LFU cache of file bodies with an
//! LRU tie-break, a route table, request-head parsing, response building and
//! the decisions of the connection driver.
#![allow(non_snake_case)]
#![allow(non_camel_case_types)]

pub mod cache;
pub mod cache_store;
pub mod connection;
pub mod dlink_list;
pub mod error;
pub mod keyindex;
pub mod request;
pub mod response;
pub mod router;
pub mod text;
pub mod utils;
