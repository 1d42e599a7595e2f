//! Synchronisation core of a chain replica: the decisions of every pipeline
//! task as state machines, the whole-run meaning of each task over complete
//! inputs, and the small value types they exchange.

pub mod block_stream;
pub mod error;
pub mod event;
pub mod event_source;
pub mod fanout;
pub mod felt;
pub mod hash;
pub mod header;
pub mod header_source;
pub mod peer;
pub mod peers;
pub mod receipt;
pub mod store;
pub mod stream;
pub mod sync;
