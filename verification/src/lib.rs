//! Revlab's verified core: integer simulation time, the per-component random streams, the
//! deterministic scheduler and signal bus, the ECU's task rates, fault memory and plausibility
//! vote, the crank wheel's tooth sequence, step schedules and the wear-file format.

pub mod time;
pub mod rng;
pub mod kernel;
pub mod ecu;
pub mod plant;
pub mod sensors;
pub mod load;
pub mod wear;
pub mod cli;
