//! A collection of small verified components: a slotted-page user store,
//! a string splitter, a flattening cursor, a vector builder, the decision
//! logic of a WebRTC signaling relay and of an SFU room registry, a counter
//! program, and a tiny key/value text record format.

pub mod codec;
pub mod text;
pub mod page;
pub mod engine;
pub mod strsplit;
pub mod flatten;
pub mod vecmac;
pub mod summary;
pub mod hello;
pub mod counter;
pub mod signaling;
pub mod sfu;
pub mod guessing;
pub mod kvtext;
