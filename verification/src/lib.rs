//! Package-synchronization engine for a community software repository.
//!
//! The crate resolves which packages need fetching, building and installing,
//! tracks their cache state and dependency classification, and drives a
//! version-control synchronization primitive (fetch, fast-forward, three-way
//! merge) to keep each package's build directory current before a build tool
//! is invoked.
//!
//! Version-control state is represented explicitly: a commit graph in
//! topological order, trees as path/content records, and a working copy with
//! a head reference.  The merge engine, the dependency classifier and the
//! orchestration state machine are all verified against that representation;
//! the surrounding process — network fetch, subprocess calls, terminal
//! interaction — supplies inputs as plain values and carries out the actions
//! the engine decides on.

pub mod battery;
pub mod classify;
pub mod driver;
pub mod errors;
pub mod history;
pub mod ip;
pub mod options;
pub mod orchestrator;
pub mod pacman;
pub mod sync;
pub mod text;
pub mod tree;
