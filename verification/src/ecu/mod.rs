use vstd::prelude::*;
use crate::time::SimDuration;
use crate::kernel::{Port, Trigger};
use self::diag::{DtcState, FaultEntry, SpeedSource};

pub mod diag;
pub mod torque;

verus! {

/// The three task rates of the ECU's task table.
#[derive(Copy, Clone, PartialEq, Eq, Structural, Debug)]
pub enum Rate {
    Ms1,
    Ms10,
    Ms100,
}

/// The period of a rate, in nanoseconds.
pub open spec fn period_ns(r: Rate) -> nat {
    match r {
        Rate::Ms1 => 1_000_000,
        Rate::Ms10 => 10_000_000,
        Rate::Ms100 => 100_000_000,
    }
}

/// The offset of a rate's first execution from the start of the run, in nanoseconds.
pub open spec fn offset_ns(r: Rate) -> nat {
    match r {
        Rate::Ms1 => 200_000,
        Rate::Ms10 => 1_600_000,
        Rate::Ms100 => 2_800_000,
    }
}

/// The rate that trigger number `t` of the ECU runs.
pub open spec fn rate_of_trigger(t: u16) -> Rate {
    if t == 0 {
        Rate::Ms1
    } else if t == 1 {
        Rate::Ms10
    } else {
        Rate::Ms100
    }
}

/// The instant, in nanoseconds, of the `k`-th execution (counting from 0) of a rate.
pub open spec fn nth_firing(r: Rate, k: int) -> int {
    offset_ns(r) + k * period_ns(r)
}

/// A task of rate `r` runs at `t_ns`: its offset plus a whole number of periods.
pub open spec fn fires_at(r: Rate, t_ns: int) -> bool {
    exists|k: int| k >= 0 && #[trigger] nth_firing(r, k) == t_ns
}

impl Rate {
    /// How often tasks of this rate run.
    pub fn period(self) -> (d: SimDuration)
        ensures
            d.nanos() == period_ns(self),
    {
        match self {
            Rate::Ms1 => SimDuration::from_millis(1),
            Rate::Ms10 => SimDuration::from_millis(10),
            Rate::Ms100 => SimDuration::from_millis(100),
        }
    }

    /// When tasks of this rate first run. Staggered so rates never share a timestamp with each
    /// other or with the 1 ms plant step: each lies at a different fraction of a millisecond, and
    /// none on a whole millisecond.
    pub fn offset(self) -> (d: SimDuration)
        ensures
            d.nanos() == offset_ns(self),
    {
        match self {
            Rate::Ms1 => SimDuration::from_micros(200),
            Rate::Ms10 => SimDuration::from_micros(1_600),
            Rate::Ms100 => SimDuration::from_micros(2_800),
        }
    }

    /// The rate that the ECU's trigger number `t` stands for.
    pub fn from_trig(t: u16) -> (r: Rate)
        ensures
            r == rate_of_trigger(t),
    {
        match t {
            0 => Rate::Ms1,
            1 => Rate::Ms10,
            _ => Rate::Ms100,
        }
    }
}

/// The ECU's triggers, one per rate, in the order `from_trig` reads them back.
pub fn rate_triggers() -> (v: Vec<Trigger>)
    ensures
        v@.len() == 3,
        forall|i: int|
            0 <= i < 3 ==> (#[trigger] v@[i] matches Trigger::Periodic { period, offset } && {
                &&& period.nanos() == period_ns(rate_of_trigger(i as u16))
                &&& offset.nanos() == offset_ns(rate_of_trigger(i as u16))
            }),
{
    let mut v: Vec<Trigger> = Vec::new();
    v.push(Trigger::Periodic { period: Rate::Ms1.period(), offset: Rate::Ms1.offset() });
    v.push(Trigger::Periodic { period: Rate::Ms10.period(), offset: Rate::Ms10.offset() });
    v.push(Trigger::Periodic { period: Rate::Ms100.period(), offset: Rate::Ms100.offset() });
    v
}

/// Where within a millisecond the executions of a rate fall, in nanoseconds.
pub open spec fn phase_ns(r: Rate) -> int {
    match r {
        Rate::Ms1 => 200_000,
        Rate::Ms10 => 600_000,
        Rate::Ms100 => 800_000,
    }
}

/// Every execution of a rate falls at the same fraction of a millisecond.
pub proof fn lemma_rate_phase(r: Rate, t_ns: int)
    requires
        fires_at(r, t_ns),
    ensures
        t_ns % 1_000_000 == phase_ns(r),
{
    let k = choose|k: int| k >= 0 && #[trigger] nth_firing(r, k) == t_ns;
    match r {
        Rate::Ms1 => {
            assert(t_ns % 1_000_000 == 200_000) by (nonlinear_arith)
                requires
                    t_ns == 200_000 + k * 1_000_000,
                    k >= 0,
            ;
        },
        Rate::Ms10 => {
            assert(t_ns % 1_000_000 == 600_000) by (nonlinear_arith)
                requires
                    t_ns == 1_600_000 + k * 10_000_000,
                    k >= 0,
            ;
        },
        Rate::Ms100 => {
            assert(t_ns % 1_000_000 == 800_000) by (nonlinear_arith)
                requires
                    t_ns == 2_800_000 + k * 100_000_000,
                    k >= 0,
            ;
        },
    }
}

/// No two rates ever run at the same instant, and no rate runs on a whole millisecond, the
/// instants of the 1 ms plant step.
pub proof fn lemma_rates_staggered(a: Rate, b: Rate, t_ns: int)
    requires
        a != b,
    ensures
        !(fires_at(a, t_ns) && fires_at(b, t_ns)),
        fires_at(a, t_ns) ==> t_ns % 1_000_000 != 0,
{
    if fires_at(a, t_ns) {
        lemma_rate_phase(a, t_ns);
        if fires_at(b, t_ns) {
            lemma_rate_phase(b, t_ns);
        }
    }
}

/// The positions, in registration order, of the tasks of rate `rate` in a task table whose rates
/// are `rates`.
pub open spec fn tasks_of_rate(rates: Seq<Rate>, rate: Rate) -> Seq<usize>
    decreases rates.len(),
{
    if rates.len() == 0 {
        Seq::empty()
    } else {
        let prev = tasks_of_rate(rates.drop_last(), rate);
        if rates.last() == rate {
            prev.push((rates.len() - 1) as usize)
        } else {
            prev
        }
    }
}

/// The tasks of a rate run in registration order: the positions picked are strictly increasing,
/// each names a task registered at `rate`, and every task registered at `rate` is picked.
pub proof fn lemma_tasks_of_rate(rates: Seq<Rate>, rate: Rate)
    requires
        rates.len() <= usize::MAX,
    ensures
        forall|i: int, j: int|
            0 <= i < j < tasks_of_rate(rates, rate).len() ==> tasks_of_rate(rates, rate)[i]
                < tasks_of_rate(rates, rate)[j],
        forall|i: int|
            0 <= i < tasks_of_rate(rates, rate).len() ==> #[trigger] tasks_of_rate(rates, rate)[i]
                < rates.len() && rates[tasks_of_rate(rates, rate)[i] as int] == rate,
        forall|k: int|
            0 <= k < rates.len() && #[trigger] rates[k] == rate ==> tasks_of_rate(
                rates,
                rate,
            ).contains(k as usize),
    decreases rates.len(),
{
    if rates.len() > 0 {
        let prefix = rates.drop_last();
        let prev = tasks_of_rate(prefix, rate);
        lemma_tasks_of_rate(prefix, rate);
        let r = tasks_of_rate(rates, rate);
        assert forall|i: int| 0 <= i < prev.len() implies #[trigger] prev[i] < rates.len() - 1
            && rates[prev[i] as int] == rate by {
            assert(prefix[prev[i] as int] == rates[prev[i] as int]);
        }
        assert forall|k: int| 0 <= k < rates.len() && #[trigger] rates[k] == rate implies r.contains(
            k as usize,
        ) by {
            if k < rates.len() - 1 {
                assert(prefix[k] == rate);
                let w = choose|w: int| 0 <= w < prev.len() && prev[w] == k as usize;
                assert(r[w] == k as usize);
            } else {
                assert(r[r.len() - 1] == k as usize);
            }
        }
    }
}

/// The tasks to run for one execution of `rate`: the positions of the tasks registered at that
/// rate, in registration order, which is their execution order.
pub fn tasks_for(rates: &Vec<Rate>, rate: Rate) -> (r: Vec<usize>)
    ensures
        r@ == tasks_of_rate(rates@, rate),
        forall|i: int| 0 <= i < r@.len() ==> #[trigger] r@[i] < rates@.len() && rates@[r@[i] as int] == rate,
        forall|i: int, j: int| 0 <= i < j < r@.len() ==> r@[i] < r@[j],
        forall|k: int| 0 <= k < rates@.len() && #[trigger] rates@[k] == rate ==> r@.contains(k as usize),
{
    let mut r: Vec<usize> = Vec::new();
    let n = rates.len();
    let mut i: usize = 0;
    while i < n
        invariant
            n == rates@.len(),
            i <= n,
            r@ == tasks_of_rate(rates@.take(i as int), rate),
            forall|j: int| 0 <= j < r@.len() ==> #[trigger] r@[j] < i && rates@[r@[j] as int] == rate,
        decreases n - i,
    {
        proof {
            assert(rates@.take(i + 1).drop_last() =~= rates@.take(i as int));
            assert(rates@.take(i + 1).last() == rates@[i as int]);
        }
        if rates[i] == rate {
            r.push(i);
        }
        i = i + 1;
    }
    assert(rates@.take(n as int) =~= rates@);
    proof {
        lemma_tasks_of_rate(rates@, rate);
    }
    r
}

/// Every port the ECU touches, named. Construction is by field name, so the ordering mistakes of
/// a long positional constructor cannot happen.
#[derive(Copy, Clone)]
pub struct EcuPorts {
    // inputs
    pub n_crank: Port,
    pub n_cam: Port,
    pub speed_req: Port,
    pub p_im: Port,
    pub t_im: Port,
    pub in_pedal: Port,
    pub crank_valid: Port,
    pub cam_valid: Port,
    pub m_maf: Port,
    pub t_ect_c: Port,
    // outputs
    pub q_cmd: Port,
    pub t_arb: Port,
    pub dtc: Port,
    pub n_model: Port,
    pub q_lim: Port,
    pub m_air_est: Port,
    pub t_loss: Port,
    pub t_ind_req: Port,
    pub freeze: Port,
}

/// The speed the control path takes this cycle: the selected sensor's reading, if that sensor
/// has a signal; otherwise none, and the previous speed stands.
pub fn select_speed<F: Copy>(
    source: SpeedSource,
    crank_valid: bool,
    cam_valid: bool,
    n_crank: F,
    n_cam: F,
) -> (r: Option<F>)
    ensures
        r == (match source {
            SpeedSource::Crank => if crank_valid {
                Some(n_crank)
            } else {
                None
            },
            SpeedSource::Cam => if cam_valid {
                Some(n_cam)
            } else {
                None
            },
        }),
{
    match source {
        SpeedSource::Crank => if crank_valid {
            Some(n_crank)
        } else {
            None
        },
        SpeedSource::Cam => if cam_valid {
            Some(n_cam)
        } else {
            None
        },
    }
}

/// The severity the diagnostic output reports for one fault entry.
pub open spec fn severity(s: DtcState) -> u8 {
    match s {
        DtcState::Passed => 0,
        DtcState::Pending => 1,
        DtcState::Confirmed => 2,
    }
}

/// The severity ranks the diagnostic states: passed reports 0, pending 1 and confirmed 2, so
/// every state has a severity of its own and a worse state a larger one. Hence the worst severity
/// of a fault memory is 0 exactly when both entries have passed, and 2 exactly when one of them is
/// confirmed.
pub proof fn lemma_severity_ranks<F>(a: DtcState, b: DtcState, mem: [FaultEntry<F>; 2])
    ensures
        (severity(a) == severity(b)) <==> (a == b),
        severity(DtcState::Passed) == 0,
        severity(DtcState::Passed) < severity(DtcState::Pending),
        severity(DtcState::Pending) < severity(DtcState::Confirmed),
        severity(DtcState::Confirmed) == 2,
        ({
            let w = if severity(mem@[0].state) >= severity(mem@[1].state) {
                severity(mem@[0].state)
            } else {
                severity(mem@[1].state)
            };
            &&& (w == 0) <==> (mem@[0].state == DtcState::Passed && mem@[1].state == DtcState::Passed)
            &&& (w == 2) <==> (mem@[0].state == DtcState::Confirmed || mem@[1].state
                == DtcState::Confirmed)
        }),
{
}

/// The worst severity over the fault memory: 0 all passed, 1 some pending, 2 some confirmed.
pub fn worst_severity<F: Copy>(mem: &[FaultEntry<F>; 2]) -> (w: u8)
    ensures
        w == (if severity(mem@[0].state) >= severity(mem@[1].state) {
            severity(mem@[0].state)
        } else {
            severity(mem@[1].state)
        }),
        forall|i: int| 0 <= i < 2 ==> severity(#[trigger] mem@[i].state) <= w,
        exists|i: int| 0 <= i < 2 && severity(#[trigger] mem@[i].state) == w,
        (w == 0) <==> (mem@[0].state == DtcState::Passed && mem@[1].state == DtcState::Passed),
        (w == 2) <==> (mem@[0].state == DtcState::Confirmed || mem@[1].state == DtcState::Confirmed),
{
    let a = diag::severity_of(mem[0].state);
    let b = diag::severity_of(mem[1].state);
    if a >= b {
        a
    } else {
        b
    }
}

} // verus!
