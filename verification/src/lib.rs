//! A minimal HTTP/1.1 message core: parsing a raw request into header lines
//! and a body, routing by method and path, building a response, optionally
//! gzip-compressing the body, and rendering the response back to wire bytes.
//!
//! All network and file-system work stays with the caller; the library works
//! on plain values and states what it does in its contracts.

pub mod cli;
pub mod compress;
pub mod msg;
pub mod request;
pub mod response;
pub mod routing;
pub mod strutil;

pub use msg::HttpMsg;
