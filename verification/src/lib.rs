//! A fixed-capacity table from integer keys to integer values.
//!
//! The table is a row of slots that is probed from the first slot on, in the
//! same order by writers and readers; no index is computed from a key. A
//! slot is bound to the first key that claims it and keeps that key for
//! good; only its value is written again. The table never grows and never
//! gives a slot back: once every slot is claimed, a write for a new key is
//! dropped without a word.
//!
//! The key `0` marks a slot that nobody has claimed, so it cannot be stored,
//! and the value `0` is what a reader gets for a key that the table does not
//! hold.
//!
//! Readers share the table and a writer holds it exclusively, so whatever
//! runs side by side, the calls take effect one after the other, each as a
//! whole.

pub mod entry;
pub mod laws;
pub mod model;
pub mod table;

pub use entry::Entry;
pub use entry::EMPTY;
pub use table::HashTable;
pub use table::DEFAULT_CAPACITY;
