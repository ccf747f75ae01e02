//! Preprocessor core for scientific book chapters: scans documents for
//! block directives (`$$ ... $$`) and inline spans (`$ ... $`), resolves
//! cross-document references, and plans content-addressed rendering work.
//!
//! The two passes are strictly ordered: the block pass runs over all
//! documents first, building the reference table; only then does the
//! inline pass read that complete table. The outside rendering tools
//! are driven by the caller from the plans this crate computes.

pub mod bibliography;
pub mod block;
pub mod errors;
pub mod format;
pub mod fragments;
pub mod inline;
pub mod laws;
pub mod reftable;
pub mod strutil;
pub mod types;

pub use errors::Error;
pub use reftable::RefTable;
pub use types::Content;
pub use types::LiCo;
pub use types::Replacement;
pub use types::SupportedRenderer;
