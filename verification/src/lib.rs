//! Host-side logic of a streaming neural-network accelerator pipeline.
//!
//! The network runs on fixed-function compute units of one or two
//! accelerator cards. This crate decides *what* is sent to the cards and in
//! which order; it never talks to them. Talking to the runtime, reading
//! and writing files, and measuring time are left to the caller.
//!
//! * [`topology`]: how the 64 weight engines map onto layers, split groups
//!   and cascade slots, and where the weights of each engine are found.
//! * [`weights`]: the weight vector of every engine, cut to the engine's
//!   budget, and the padded block in which the vectors are uploaded.
//! * [`samples`]: sample data, replicated cyclically and serialised into
//!   transfer buffers.
//! * [`registry`]: the scan over the devices that binds every role of a
//!   run to a compute unit.
//! * [`transfer`] and [`coordinator`]: the jobs of a run, their parameters,
//!   and the order in which they are started and released.
//! * [`protocol`]: the states of a compute unit, and the proof that the
//!   steps of a run respect them.
//! * [`benchmark`]: the run sizes of a sweep and the record of each run.
//! * [`report`]: the layout of timing tables and result files.
//! * [`text`] and [`words`]: decimal numerals, tokens of number files, and
//!   the byte image of 32-bit words.
//!
//! Single-precision and double-precision values never take part in any
//! arithmetic here; they travel as their IEEE-754 bit patterns (`u32` and
//! `u64`).

pub mod benchmark;
pub mod coordinator;
pub mod error;
pub mod protocol;
pub mod registry;
pub mod report;
pub mod samples;
pub mod text;
pub mod topology;
pub mod transfer;
pub mod weights;
pub mod words;
