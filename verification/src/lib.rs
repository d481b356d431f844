//! Building blocks of an irrigation controller: a registry of long-lived
//! services with a two-phase lifecycle and per-service access arbitration,
//! the schedule store, the run logbook and the decisions of the valve driver.

pub mod constants;
pub mod text;
pub mod config_persist;
pub mod calendar;
pub mod logbook;
pub mod valve;
pub mod slot;
pub mod environment;
