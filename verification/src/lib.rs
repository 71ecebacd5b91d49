//! A minimal HTTP/1.1 server core: bounded request parsing, route dispatch,
//! gzip content negotiation, response serialization, and a verified model of
//! the worker pool's bookkeeping. Socket and file I/O live outside.
pub mod bytes;
pub mod request;
pub mod response;
pub mod routes;
pub mod encoding;
pub mod pool;
