//! A small HTTP/1.1 static file server core: request parsing, header maps,
//! response serialisation, path confinement and content dispatch.

pub mod config;
pub mod headers;
pub mod listing;
pub mod percent;
pub mod request;
pub mod response;
pub mod router;
pub mod shutdown;
pub mod text;
