//! An embedded JSON document store: named collections of documents, a
//! filter and update language over nested fields, and a cache of filter
//! results. File handling lives outside this library; it hands the store
//! values and takes values back.
use vstd::prelude::*;

pub mod cache;
pub mod laws;
pub mod query;
pub mod store;
pub mod value;

pub use cache::QUERY_CACHE_SIZE;
pub use query::{Query, QueryEngine, QueryOperator, UpdateOperator};
pub use store::Bison;
pub use value::{DbError, Value};

verus! {

} // verus!
