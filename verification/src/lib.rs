//! Core logic of the Amber language server: the type model and its
//! generic-type inference map, file version bookkeeping, symbol tables and
//! the analysis that fills them, the answers to editor requests, the text
//! of open documents, and the output buffer of the formatter.

pub mod amber_version;
pub mod analysis;
pub mod analyze;
pub mod document;
pub mod files;
pub mod formatter;
pub mod fs;
pub mod generics;
pub mod grammar;
pub mod name_map;
pub mod paths;
pub mod queries;
pub mod range_maps;
pub mod results;
pub mod shared_maps;
pub mod tokens;
pub mod types;
