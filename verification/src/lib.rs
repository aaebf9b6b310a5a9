//! Decoder for the kernel's cumulative CPU time counters.
//!
//! The kernel publishes, for the whole machine and for every core, how many
//! scheduler ticks were spent in each of ten execution modes. This crate turns
//! that text into [`CpuTimes`] records whose fields are time intervals, and
//! proves that the decoder returns exactly what the format prescribes.
//!
//! The library reads no file and no clock rate on its own: the caller hands
//! it the text and the number of ticks that the machine counts in a second.

pub mod count;
pub mod duration;
pub mod error;
pub mod laws;
pub mod record;
pub mod source;
pub mod text;

pub use count::Count;
pub use duration::Duration;
pub use error::{DecodeError, ParseCause};
pub use record::CpuTimes;
pub use source::{cpu_times, cpu_times_percpu};
