//! The kinds of request that can be specified.

pub mod codec;
pub mod http_request;
