//! Resolve a document and every sub-resource it references into one
//! self-contained rendering, with each sub-resource embedded as a base64
//! `data:` URI.
//!
//! `asset` holds the asset node and the errors; `resources` the resources an
//! asset can hold; `tree` the arena that resolution grows, its rendering, and
//! the step that takes in one fetched asset; `scan` finds quoted references
//! in text; `util` sniffs mime types and builds data URIs.
pub mod asset;
pub mod resources;
pub mod scan;
pub mod tree;
pub mod util;
