//! A single-threaded in-process byte pipe.
//!
//! A [`Channels`] table owns the byte queues. [`new_io_channel`] adds one
//! empty queue and hands back a reader handle and a writer handle for it.
//! The writer appends bytes while the reader is open; the reader drains them
//! in FIFO order. Closing the reader frees its queue for good: slots are never
//! reused, so the writer's handle stays disconnected forever after.

mod channel;
pub mod laws;

pub use channel::{
    after_close, after_read, after_write, flush_result, new_io_channel, read_bytes,
    read_len, slot, write_result, ChannelError, Channels, ReadChannel, WriteChannel,
};
