//! Model-lifecycle store: three mutually consistent indices over loaded models
//! (by id, by owner, by content hash), with reference-counted sharing of parsed
//! artifacts, FIFO capacity eviction and owner supersession.
pub mod record;
pub mod counting;
pub mod consistency;
pub mod index;
pub mod digest;
pub mod store;
pub mod laws;
