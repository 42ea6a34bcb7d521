//! A small HTTP/1.1 server library: request parsing, response building,
//! routing decisions and the bookkeeping of a non-blocking TCP worker pool.
pub mod bytes;
pub mod errors;
pub mod status_codes;
pub mod headers;
pub mod request;
pub mod response;
pub mod tcp_pool;
pub mod server;
pub mod basic;
