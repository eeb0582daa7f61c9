//! A persistent record store for a lending domain: catalog items (books) and
//! time-bounded loans (rentals) of those items, backed by durable,
//! segment-addressed storage, with monotonically increasing identifiers and
//! strict lifecycle invariants (a book cannot be lent twice concurrently; a
//! rental cannot be closed twice).

pub mod backing;
pub mod codec;
pub mod laws;
pub mod model;
pub mod store;
