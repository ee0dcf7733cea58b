//! A small HTTP/1.1 file and script server, split into verified decision
//! logic (this crate) and the I/O that drives it.
pub mod text;
pub mod conv;
pub mod headers;
pub mod request;
pub mod paths;
pub mod response;
pub mod script;
pub mod exchange;
