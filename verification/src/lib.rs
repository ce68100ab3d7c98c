//! A bounded, in-process event-log collector with a command dispatcher.
//!
//! The library keeps a fixed-capacity FIFO buffer of timestamped text
//! records, renders it as a human-readable listing, and serializes
//! one-shot reports of its contents for an outbound transport channel.

use vstd::prelude::*;

pub mod buffer;
pub mod codec;
pub mod dispatch;
pub mod render;
pub mod strutil;

pub use buffer::LogBuffer;
pub use codec::Report;
pub use dispatch::Plugin;

verus! {

} // verus!
