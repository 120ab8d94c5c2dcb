//! A small static-site generator: dated markdown documents in, HTML pages
//! out, with a minimal single-connection HTTP server over the result.
//!
//! The library holds the verified logic: date extraction from file paths,
//! front-matter splitting, document construction, build planning, and the
//! per-connection request handling of the server. Reading and writing files,
//! template rendering and the network loop live outside the library.
pub mod builder;
pub mod errors;
pub mod models;
pub mod parser;
pub mod server;
pub mod text;
