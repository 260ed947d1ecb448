//! Diffing of key-value mappings.
//!
//! The crate offers [`KvMap`], an associative container from string keys to
//! 64-bit integer values, and a diff function which compares an old and a
//! new mapping and reports which keys were removed and which were added or
//! changed.

mod diff;
mod kvmap;

pub use diff::hash_map_diff;
pub use diff::lemma_diff_disjoint;
pub use diff::lemma_diff_of_empty_old;
pub use diff::lemma_diff_of_identical;
pub use diff::lemma_diff_with_empty_new;
pub use diff::lemma_removed_exact;
pub use diff::lemma_updated_exact;
pub use diff::spec_removed;
pub use diff::spec_updated;
pub use diff::HashMapDiff;
pub use kvmap::key_at;
pub use kvmap::KvMap;
