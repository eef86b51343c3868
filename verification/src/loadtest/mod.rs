//! The bots that load-test the server: what each one sees, remembers, decides and reports.

pub mod account;
pub mod bot;
pub mod brain;
pub mod config;
pub mod histogram;
pub mod metrics;
pub mod probes;
pub mod run;
pub mod viewport;
pub mod world;
