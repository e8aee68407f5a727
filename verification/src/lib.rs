//! Secondary indexes over an ordered, byte-keyed key-value store.
//!
//! A table maps primary keys to records. Index tables derived from the
//! records are kept in step with every save, update and removal, and can be
//! scanned by key prefix to get back the primary keys and records.
//! Records and keys are byte strings; turning values into bytes is left to
//! the caller. The store is the `MemoryStorage` of `cosmwasm_std`.
//!
//! - `codec`, `byte_order`: how keys are built, and how the store orders them.
//! - `store`: the store, and what is taken on trust of it.
//! - `item`, `map`: a single record, and a table without indexes.
//! - `index`, `key_fn`: what an index is, and the functions it is made with.
//! - `indexed_map`, `indexed_map_ref`: tables with indexes, and the two plain
//!   kinds of index; `conditional_multi_index`, `custom_dese_index`: the
//!   other two.
//! - `prefix`, `helpers`: scans, and the way from an index entry to its record.
//! - `plan`, `laws`, `invariants`, `consistency`: what is proved of all these.

pub mod byte_order;
pub mod codec;
pub mod conditional_multi_index;
pub mod consistency;
pub mod custom_dese_index;
pub mod error;
pub mod helpers;
pub mod index;
pub mod indexed_map;
pub mod indexed_map_ref;
pub mod invariants;
pub mod item;
pub mod key_fn;
pub mod laws;
pub mod map;
pub mod plan;
pub mod prefix;
pub mod store;

pub use conditional_multi_index::ConditionalMultiIndex;
pub use custom_dese_index::CustomDeseMultiIndex;
pub use error::StoreError;
pub use helpers::deserialize_multi_kv_custom_pk;
pub use index::{Index, IndexList};
pub use indexed_map::{IndexedMapCow, MultiIndexCow, UniqueIndexCow};
pub use indexed_map_ref::IndexedMapRef;
pub use item::ItemCow;
pub use map::MapCow;
pub use prefix::{Bound, CustomPrefix, Prefix};
pub use store::Order;
