use vstd::prelude::*;

verus! {

/// The producers of torque requests, each with a fixed slot: no allocation, and the arbiter's
/// input set is known when the firmware is built.
#[derive(Copy, Clone, Debug, PartialEq, Eq, Structural)]
pub enum Source {
    Idle,
    Driver,
    Smoke,
    Protect,
    RevLimit,
}

/// The number of request slots.
pub const N_SOURCES: usize = 5;

impl Source {
    /// The slot of this producer's request.
    pub fn slot(self) -> (i: usize)
        ensures
            i < N_SOURCES,
            i == (match self {
                Source::Idle => 0usize,
                Source::Driver => 1,
                Source::Smoke => 2,
                Source::Protect => 3,
                Source::RevLimit => 4,
            }),
    {
        match self {
            Source::Idle => 0,
            Source::Driver => 1,
            Source::Smoke => 2,
            Source::Protect => 3,
            Source::RevLimit => 4,
        }
    }
}

/// What a torque request asks for.
#[derive(Copy, Clone, Debug, PartialEq, Eq, Structural)]
pub enum ReqKind {
    /// A setpoint. The highest target wins.
    Target,
    /// "At least this much": idle speed control, catalyst heating.
    MinLimit,
    /// "No more than this": smoke limit, component protection, shift torque reduction.
    MaxLimit,
}

/// Selects one torque from all pending requests.
pub struct TorqueArbiter;

} // verus!
