//! Control plane for a conferencing service that drives media backends.
//!
//! - `transaction`, `codec`: self-describing correlation tokens that carry
//!   a request's context to its asynchronous response.
//! - `protocol`, `events`: outbound handle requests and the dispatch of
//!   inbound responses and events.
//! - `pool`: plugin handles created ahead of time per backend session.
//! - `store`, `lifecycle`: the persisted state and the stream lifecycle.
//! - `upload`, `sweep`: recording uploads, the vacuum pass and the closing
//!   of orphaned rooms.
//! - `room`, `ids`: room checks and identifiers.

mod clock;
pub mod codec;
pub mod events;
pub mod ids;
pub mod lifecycle;
pub mod pool;
pub mod protocol;
pub mod room;
pub mod store;
pub mod sweep;
pub mod transaction;
pub mod upload;
