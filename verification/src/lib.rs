//! A concurrent task dispatch core, stated as verified state machines.
//!
//! Producers submit jobs to a closeable FIFO [`channel::Channel`]; a fixed set
//! of workers in a [`pool::WorkerPool`] take jobs one at a time, hand each to a
//! caller-supplied handler and publish one result per job; a
//! [`counter::SharedCounter`] accumulates what they count; [`fan_out`] splits a
//! bounded data set into chunks and folds the partial results; [`lock_order`]
//! fixes the one order in which several locks are taken; a [`region::Region`]
//! keeps its caller until the tasks registered in it are done; [`shutdown`]
//! closes the input, drains the backlog and joins every worker.
//!
//! Every operation is one atomic step of the engine. A step that would have
//! to wait says so in its result instead of blocking, so that a host can park
//! the calling thread and take the step again later. What holds of the
//! engine under every order of such steps is proved in [`pool_laws`] and
//! beside the operations themselves.
//!
//! [`concurrency`] runs the engine on fixed inputs. The remaining modules
//! hold small building blocks with contracts of their own: arithmetic,
//! strings, plain data, generic containers, parsing.

pub mod job;
pub mod channel;
pub mod counter;
pub mod pool;
pub mod pool_laws;
pub mod shutdown;
pub mod fan_out;
pub mod squares;
pub mod lock_order;
pub mod region;
pub mod concurrency;
pub mod basics;
pub mod structures;
pub mod ownership;
pub mod traits_generics;
pub mod largest;
pub mod functional;
pub mod error_handling;
pub mod smart_pointers;
pub mod advanced;
