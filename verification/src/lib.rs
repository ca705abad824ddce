//! Client-side management of a remote print queue reached over a shell
//! session: job records with a forward-only lifecycle, a durable registry
//! with an atomic snapshot format, a session manager that health-checks and
//! reconnects, command construction for the remote spooler, and a reconciler
//! that infers completion from queue listings.
pub mod booklet;
pub mod codec;
pub mod command;
pub mod digits;
pub mod listing;
pub mod orchestrator;
pub mod paths;
pub mod reconcile;
pub mod registry;
pub mod session;
pub mod snapshot;
pub mod types;
