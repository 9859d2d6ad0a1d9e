//! Replication and consistency engines: a causally consistent key-value
//! store, a Byzantine fault tolerant replicated log, a distributed mutex over
//! causally ordered messages, and the workloads that drive them.
//!
//! Every engine is a state machine: a handler takes the component's state and
//! one event, and returns the messages to send and the timers to touch. The
//! sockets, clocks and signature schemes live outside this crate.
pub mod blob;
pub mod cops;
pub mod lamport_mutex;
pub mod pbft;
pub mod util;
pub mod workload;
pub mod ycsb;
