//! Entity storage and revision tracking for an incremental-computation engine.
//!
//! * [`bytes`]: field values, held as byte strings.
//! * [`id`]: identities and the allocator that issues them.
//! * [`input`]: the store of externally supplied entities.
//! * [`derived`]: the store of derived entities, with identity reuse and
//!   per-field backdating.
//! * [`customize`]: options that an entity type can be declared with.

pub mod bytes;
pub mod id;
pub mod derived;
pub mod input;
pub mod customize;
