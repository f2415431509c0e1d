use vstd::prelude::*;
use vstd::std_specs::cmp::{PartialOrdSpec, PartialOrdSpecImpl};
use core::cmp::Ordering;

verus! {

/// Simulation time: nanoseconds since the start of the run.
///
/// Integer nanoseconds rather than floating seconds, so that accumulating time never drifts and a
/// run replays identically on every platform.
#[derive(Copy, Clone, PartialEq, Eq, Structural, Ord, Debug, Default, Hash)]
pub struct SimTime(u64);

/// A span of simulation time, in nanoseconds.
#[derive(Copy, Clone, PartialEq, Eq, Structural, Debug, Hash)]
pub struct SimDuration(u64);

impl SimDuration {
    /// The number of nanoseconds this duration spans.
    pub closed spec fn nanos(self) -> nat {
        self.0 as nat
    }

    /// The empty span.
    pub fn zero() -> (d: SimDuration)
        ensures
            d.nanos() == 0,
    {
        SimDuration(0)
    }

    /// A duration of exactly `n` nanoseconds.
    pub fn from_nanos(n: u64) -> (d: SimDuration)
        ensures
            d.nanos() == n,
    {
        SimDuration(n)
    }

    /// A duration of `u` microseconds.
    pub fn from_micros(u: u64) -> (d: SimDuration)
        requires
            u * 1_000 <= u64::MAX,
        ensures
            d.nanos() == u * 1_000,
    {
        SimDuration(u * 1_000)
    }

    /// A duration of `m` milliseconds.
    pub fn from_millis(m: u64) -> (d: SimDuration)
        requires
            m * 1_000_000 <= u64::MAX,
        ensures
            d.nanos() == m * 1_000_000,
    {
        SimDuration(m * 1_000_000)
    }

    /// The period of a `hz` hertz signal: one second divided by `hz`, rounded down to whole
    /// nanoseconds.
    pub fn from_hz(hz: u32) -> (d: SimDuration)
        requires
            hz > 0,
        ensures
            d.nanos() == 1_000_000_000nat / (hz as nat),
    {
        SimDuration(1_000_000_000u64 / (hz as u64))
    }

    /// The length of the duration in nanoseconds.
    pub fn as_nanos(self) -> (n: u64)
        ensures
            n == self.nanos(),
    {
        self.0
    }
}

impl SimTime {
    /// The instant, as nanoseconds since the start of the run.
    pub closed spec fn nanos(self) -> nat {
        self.0 as nat
    }

    /// The instant `n` nanoseconds after the start of the run, in spec code.
    pub closed spec fn spec_at(n: nat) -> SimTime
        recommends
            n <= u64::MAX,
    {
        SimTime(n as u64)
    }

    /// The start of the run.
    pub fn zero() -> (t: SimTime)
        ensures
            t.nanos() == 0,
            t == SimTime::spec_at(0),
    {
        SimTime(0)
    }

    /// The instant `d` after `self`. Time is exact: nothing is rounded.
    pub fn add(self, d: SimDuration) -> (t: SimTime)
        requires
            self.nanos() + d.nanos() <= u64::MAX,
        ensures
            t.nanos() == self.nanos() + d.nanos(),
            t == SimTime::spec_at(self.nanos() + d.nanos()),
    {
        SimTime(self.0 + d.0)
    }

    /// Moves `self` forward by `d`.
    pub fn add_assign(&mut self, d: SimDuration)
        requires
            old(self).nanos() + d.nanos() <= u64::MAX,
        ensures
            final(self).nanos() == old(self).nanos() + d.nanos(),
    {
        self.0 = self.0 + d.0;
    }

    /// The span from `rhs` to `self`; `rhs` may not be later than `self`.
    pub fn sub(self, rhs: SimTime) -> (d: SimDuration)
        requires
            rhs.nanos() <= self.nanos(),
        ensures
            d.nanos() == self.nanos() - rhs.nanos(),
    {
        SimDuration(self.0 - rhs.0)
    }

    /// The instant as nanoseconds since the start of the run.
    pub fn as_nanos(self) -> (n: u64)
        ensures
            n == self.nanos(),
    {
        self.0
    }
}

/// The order of two nanosecond counts: earlier, the same, or later.
pub open spec fn order_of(a: nat, b: nat) -> Option<Ordering> {
    if a < b {
        Some(Ordering::Less)
    } else if a == b {
        Some(Ordering::Equal)
    } else {
        Some(Ordering::Greater)
    }
}

/// Instants are ordered by their nanosecond counts.
impl PartialOrd for SimTime {
    fn partial_cmp(&self, other: &SimTime) -> (r: Option<Ordering>) {
        if self.0 < other.0 {
            Some(Ordering::Less)
        } else if self.0 == other.0 {
            Some(Ordering::Equal)
        } else {
            Some(Ordering::Greater)
        }
    }
}

impl PartialOrdSpecImpl for SimTime {
    open spec fn obeys_partial_cmp_spec() -> bool {
        true
    }

    open spec fn partial_cmp_spec(&self, other: &SimTime) -> Option<Ordering> {
        order_of(self.nanos(), other.nanos())
    }
}

/// Durations are ordered by their lengths.
impl PartialOrd for SimDuration {
    fn partial_cmp(&self, other: &SimDuration) -> (r: Option<Ordering>) {
        if self.0 < other.0 {
            Some(Ordering::Less)
        } else if self.0 == other.0 {
            Some(Ordering::Equal)
        } else {
            Some(Ordering::Greater)
        }
    }
}

impl PartialOrdSpecImpl for SimDuration {
    open spec fn obeys_partial_cmp_spec() -> bool {
        true
    }

    open spec fn partial_cmp_spec(&self, other: &SimDuration) -> Option<Ordering> {
        order_of(self.nanos(), other.nanos())
    }
}

/// `<=`, `<` and `==` on instants follow their nanosecond counts: one instant is no later than
/// another exactly when its count is no larger, earlier exactly when its count is smaller.
pub proof fn lemma_time_order(a: SimTime, b: SimTime)
    ensures
        (PartialOrdSpec::partial_cmp_spec(&a, &b) matches Some(Ordering::Less | Ordering::Equal))
            <==> a.nanos() <= b.nanos(),
        (PartialOrdSpec::partial_cmp_spec(&a, &b) == Some(Ordering::Less)) <==> a.nanos()
            < b.nanos(),
        (a == b) <==> a.nanos() == b.nanos(),
{
    lemma_time_nanos(a, b);
}

/// Every duration fits in 64 bits, and a duration is determined by its length.
pub broadcast proof fn lemma_duration_nanos(a: SimDuration, b: SimDuration)
    ensures
        #[trigger] a.nanos() <= u64::MAX,
        (a.nanos() == #[trigger] b.nanos()) <==> (a == b),
{
}

/// Every instant fits in 64 bits, and an instant is determined by its nanosecond count.
pub broadcast proof fn lemma_time_nanos(a: SimTime, b: SimTime)
    ensures
        #[trigger] a.nanos() <= u64::MAX,
        (a.nanos() == #[trigger] b.nanos()) <==> (a == b),
{
}

/// `spec_at` builds the instant with the given nanosecond count.
pub broadcast proof fn lemma_spec_at(n: nat)
    requires
        n <= u64::MAX,
    ensures
        #[trigger] SimTime::spec_at(n).nanos() == n,
{
}

pub broadcast group group_time {
    lemma_spec_at,
    lemma_duration_nanos,
    lemma_time_nanos,
}

/// `t` moved forward by `d`, `n` times over.
pub open spec fn advance_by(t: SimTime, d: SimDuration, n: nat) -> SimTime
    decreases n,
{
    if n == 0 {
        t
    } else {
        SimTime::spec_at(advance_by(t, d, (n - 1) as nat).nanos() + d.nanos())
    }
}

/// Time does not drift: adding a duration `n` times lands exactly `n` durations later, for as
/// long as the result fits in 64 bits.
pub proof fn lemma_no_drift(t: SimTime, d: SimDuration, n: nat)
    requires
        t.nanos() + n * d.nanos() <= u64::MAX,
    ensures
        advance_by(t, d, n).nanos() == t.nanos() + n * d.nanos(),
    decreases n,
{
    if n == 0 {
        assert(n * d.nanos() == 0) by (nonlinear_arith)
            requires
                n == 0,
        ;
    } else {
        let m = (n - 1) as nat;
        assert(m * d.nanos() + d.nanos() == n * d.nanos()) by (nonlinear_arith)
            requires
                m + 1 == n,
        ;
        lemma_no_drift(t, d, m);
        let x = advance_by(t, d, m).nanos() + d.nanos();
        assert(x == t.nanos() + n * d.nanos());
        lemma_spec_at(x);
        assert(advance_by(t, d, n) == SimTime::spec_at(x));
    }
}

/// Subtracting the start undoes an addition: `(t + d) - t == d`.
pub proof fn lemma_sub_undoes_add(t: SimTime, d: SimDuration)
    requires
        t.nanos() + d.nanos() <= u64::MAX,
    ensures
        SimTime::spec_at(t.nanos() + d.nanos()).nanos() - t.nanos() == d.nanos(),
{
}

} // verus!
