//! Background jobs of a plugin task.
//!
//! A job is a process with threads around it: one reads each output stream and
//! reports it as events, one feeds standard input, one waits for the end.  This
//! library holds what those threads and their owner decide: how a command is
//! launched ([`launch`], [`options`]), how raw output becomes events
//! ([`reader`], [`lines`], [`events`]), which jobs there are and what may still
//! be done with them ([`store`]), and what waiting for a job comes to
//! ([`wait`]).  The channels between the threads are those of `flume`
//! ([`channels`]); callbacks live in the registry of a Lua state
//! ([`registry`]).
//!
//! What holds across operations is stated and proved in [`laws`],
//! [`reader_laws`] and [`wait_laws`].

pub mod channels;
pub mod events;
pub mod launch;
pub mod laws;
pub mod lines;
pub mod lookup;
pub mod options;
pub mod reader;
pub mod reader_laws;
pub mod registry;
pub mod store;
pub mod text;
pub mod wait;
pub mod wait_laws;
