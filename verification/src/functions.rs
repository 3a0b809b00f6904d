//! Functions that the template engine calls by name.
pub mod http_get;

pub use self::http_get::HttpGet;
