//! The pipeline of a search: placing it on machines, moving it between them,
//! and bringing its results home.
//!
//! Everything here decides and nothing here acts. A function either computes a
//! value from plain values, or is one transition of a state machine: it takes
//! the state a routine is in and what the outside world answered, and gives
//! back the next state and the one action to perform. The crate around this
//! library performs the actions and reports the answers.
pub mod config;
pub mod destination;
pub mod devices;
pub mod events;
pub mod far_config;
pub mod far_run;
pub mod far_side;
pub mod fault;
pub mod ingest;
pub mod migrate;
pub mod objects;
pub mod orchestrate;
pub mod ordered;
pub mod payload;
pub mod process;
pub mod program_binding;
pub mod program_delivery;
pub mod program_tree;
pub mod providers;
pub mod reach;
pub mod recall;
pub mod remove;
pub mod rental;
pub mod report;
pub mod routine;
pub mod run_observer;
pub mod runs;
pub mod session;
pub mod text;
pub mod toml_document;
