//! Template preprocessing for documents with a front-matter block.
//!
//! A document is split into an optional front-matter block and a body. Template
//! expressions inside the front matter are hidden from the structured-data
//! parser behind marker-wrapped base64 payloads and restored afterwards. The
//! front matter is resolved by repeated parse, merge and render rounds until
//! its text stops changing, under an explicit bound on the number of rounds.
pub mod context;
pub mod filters;
pub mod functions;
pub mod guard;
pub mod resolver;
pub mod splitter;
pub mod value;
