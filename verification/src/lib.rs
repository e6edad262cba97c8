//! Flat-file todo store: a verified record store over a comma-delimited
//! text file, plus the request-level decision logic of a small todo API.

pub mod todo;
pub mod rowfmt;
pub mod jsonfmt;
pub mod store;
pub mod api;
mod text;

pub use store::Database;
pub use store::StoreError;
pub use todo::Todo;
