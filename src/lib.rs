//! Resolve-and-transform core of a web-module compiler: classification of
//! modules into syntax dialects, the import map, the resolver that turns
//! specifiers into final locations and records the dependency graph, the
//! ids of extracted inline styles, and the options and output of one
//! compilation.

pub mod text;
pub mod source_type;
pub mod import_map;
pub mod url;
pub mod resolve;
pub mod styles;
pub mod options;
