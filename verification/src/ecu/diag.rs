use vstd::prelude::*;

verus! {

/// The two speed sensors the plausibility vote compares.
#[derive(Copy, Clone, PartialEq, Eq, Structural, Debug)]
pub enum Sensor {
    Crank,
    Cam,
}

/// The number of monitored sensors.
pub const N_SENSORS: usize = 2;

impl Sensor {
    /// The sensor's slot in the fault memory.
    pub fn slot(self) -> (i: usize)
        ensures
            i < N_SENSORS,
            i == (match self {
                Sensor::Crank => 0usize,
                Sensor::Cam => 1,
            }),
    {
        match self {
            Sensor::Crank => 0,
            Sensor::Cam => 1,
        }
    }
}

/// The diagnostic state of one fault.
#[derive(Copy, Clone, PartialEq, Eq, Structural, Debug)]
pub enum DtcState {
    Passed,
    Pending,
    Confirmed,
}

/// The sensor the control path takes engine speed from.
#[derive(Copy, Clone, PartialEq, Eq, Structural, Debug)]
pub enum SpeedSource {
    Crank,
    Cam,
}

/// One sensor's fault memory, with the freeze frame recorded when the fault confirmed.
#[derive(Copy, Clone, Debug)]
pub struct FaultEntry<F> {
    pub state: DtcState,
    pub fail_count: i32,
    pub freeze_rpm: F,
    pub freeze_time_s: F,
}

impl<F: Copy> FaultEntry<F> {
    /// A cleared entry: passed, no failures counted, the freeze frame at `zero`.
    pub fn clear(zero: F) -> (e: FaultEntry<F>)
        ensures
            e.state == DtcState::Passed,
            e.fail_count == 0,
            e.freeze_rpm == zero,
            e.freeze_time_s == zero,
    {
        FaultEntry { state: DtcState::Passed, fail_count: 0, freeze_rpm: zero, freeze_time_s: zero }
    }
}

/// The failure count once a sample is judged: up by one on a bad sample, capped at `limit`;
/// down by one on a good sample, floored at zero.
pub open spec fn next_count(count: i32, bad: bool, limit: i32) -> int {
    if bad {
        if count + 1 <= limit {
            count + 1
        } else {
            limit as int
        }
    } else {
        if count - 1 >= 0 {
            count - 1
        } else {
            0
        }
    }
}

/// The diagnostic state after one more verdict, given the new count.
pub open spec fn next_state(state: DtcState, count: int, bad: bool, limit: i32) -> DtcState {
    if count >= limit && state != DtcState::Confirmed {
        DtcState::Confirmed
    } else if bad && state == DtcState::Passed {
        DtcState::Pending
    } else if !bad && count == 0 && state == DtcState::Pending {
        DtcState::Passed
    } else {
        state
    }
}

/// Whether this verdict newly confirms the fault.
pub open spec fn confirms(state: DtcState, count: int, limit: i32) -> bool {
    count >= limit && state != DtcState::Confirmed
}

/// The severity the diagnostic output reports: 0 passed, 1 pending, 2 confirmed.
pub fn severity_of(s: DtcState) -> (v: u8)
    ensures
        v == crate::ecu::severity(s),
{
    match s {
        DtcState::Passed => 0,
        DtcState::Pending => 1,
        DtcState::Confirmed => 2,
    }
}

/// The entry once a sample's verdict is debounced into it: the counted failures move by one, the
/// state follows, and a newly confirmed fault records its freeze frame (`n`, `t`).
pub open spec fn debounced<F>(e: FaultEntry<F>, bad: bool, limit: i32, n: F, t: F) -> FaultEntry<F> {
    let c = next_count(e.fail_count, bad, limit);
    if confirms(e.state, c, limit) {
        FaultEntry { state: DtcState::Confirmed, fail_count: c as i32, freeze_rpm: n, freeze_time_s: t }
    } else {
        FaultEntry {
            state: next_state(e.state, c, bad, limit),
            fail_count: c as i32,
            freeze_rpm: e.freeze_rpm,
            freeze_time_s: e.freeze_time_s,
        }
    }
}

/// Debouncing a verdict into `e` cannot overflow its failure count.
pub open spec fn can_debounce<F>(e: FaultEntry<F>, bad: bool) -> bool {
    &&& bad ==> e.fail_count < i32::MAX
    &&& !bad ==> e.fail_count > i32::MIN
}

/// Debounces one verdict into a fault entry. A fault confirms once `limit` failures are counted,
/// and the freeze frame (`n`, `t`) is recorded then; a pending fault heals when the count has
/// drained back to zero; a confirmed fault stays confirmed. Returns whether the fault newly
/// confirmed.
pub fn debounce<F: Copy>(e: &mut FaultEntry<F>, bad: bool, limit: i32, n: F, t: F) -> (newly: bool)
    requires
        can_debounce(*old(e), bad),
    ensures
        *final(e) == debounced(*old(e), bad, limit, n, t),
        newly == confirms(old(e).state, next_count(old(e).fail_count, bad, limit), limit),
{
    e.fail_count = if bad {
        let c = e.fail_count + 1;
        if c <= limit {
            c
        } else {
            limit
        }
    } else {
        let c = e.fail_count - 1;
        if c >= 0 {
            c
        } else {
            0
        }
    };
    if e.fail_count >= limit && e.state != DtcState::Confirmed {
        e.state = DtcState::Confirmed;
        e.freeze_rpm = n;
        e.freeze_time_s = t;
        return true;
    }
    if bad && e.state == DtcState::Passed {
        e.state = DtcState::Pending;
    }
    if !bad && e.fail_count == 0 && e.state == DtcState::Pending {
        e.state = DtcState::Passed;
    }
    false
}

/// The outcome of comparing the two speed sensors with each other and with the ECU's own model.
/// At most one sensor is ever blamed, and only when the disagreement is decisive.
#[derive(Copy, Clone, PartialEq, Eq, Structural, Debug)]
pub enum Verdict {
    /// The sensors agree within tolerance, or the model is not fit to arbitrate.
    Agree,
    /// The sensors disagree, but neither is decisively closer to the model than the other.
    Unattributable,
    /// The sensors disagree and one is decisively closer to the model: the other is blamed.
    /// `None` when both are equally far from it, which only a negative tolerance allows.
    Decisive(Option<Sensor>),
}

/// The verdict on `s`: bad only if the model blames it.
pub open spec fn blames(v: Verdict, s: Sensor) -> bool {
    v == Verdict::Decisive(Some(s))
}

/// Debounces one plausibility verdict into the fault memory (`mem[0]` crank, `mem[1]` cam) and
/// applies its consequence. A newly confirmed crank fault substitutes the cam as speed source; a
/// confirmed cam fault leaves control on the crank, which is the point of attributing the fault.
/// Only the blamed sensor's failure count can rise, so never both, and none while the
/// disagreement is unattributable. Returns whether the disagreement could not be attributed to
/// either sensor.
pub fn vote<F: Copy>(
    mem: &mut [FaultEntry<F>; 2],
    source: &mut SpeedSource,
    verdict: Verdict,
    limit: i32,
    n: F,
    t: F,
) -> (unattributable: bool)
    requires
        can_debounce(old(mem)@[0], blames(verdict, Sensor::Crank)),
        can_debounce(old(mem)@[1], blames(verdict, Sensor::Cam)),
    ensures
        final(mem)@[0] == debounced(old(mem)@[0], blames(verdict, Sensor::Crank), limit, n, t),
        final(mem)@[1] == debounced(old(mem)@[1], blames(verdict, Sensor::Cam), limit, n, t),
        *final(source) == (if verdict != Verdict::Agree && confirms(
            old(mem)@[0].state,
            next_count(old(mem)@[0].fail_count, blames(verdict, Sensor::Crank), limit),
            limit,
        ) {
            SpeedSource::Cam
        } else {
            *old(source)
        }),
        *final(source) != *old(source) ==> *final(source) == SpeedSource::Cam
            && old(mem)@[0].state != DtcState::Confirmed && final(mem)@[0].state
            == DtcState::Confirmed,
        unattributable == (verdict == Verdict::Unattributable),
        old(mem)@[0].fail_count >= 0 && final(mem)@[0].fail_count > old(mem)@[0].fail_count
            ==> verdict == Verdict::Decisive(Some(Sensor::Crank)),
        old(mem)@[1].fail_count >= 0 && final(mem)@[1].fail_count > old(mem)@[1].fail_count
            ==> verdict == Verdict::Decisive(Some(Sensor::Cam)),
{
    let mut crank = mem[0];
    let mut cam = mem[1];
    let crank_bad = match verdict {
        Verdict::Decisive(Some(Sensor::Crank)) => true,
        _ => false,
    };
    let cam_bad = match verdict {
        Verdict::Decisive(Some(Sensor::Cam)) => true,
        _ => false,
    };
    let newly = debounce(&mut crank, crank_bad, limit, n, t);
    debounce(&mut cam, cam_bad, limit, n, t);
    mem[0] = crank;
    mem[1] = cam;
    match verdict {
        Verdict::Agree => false,
        Verdict::Unattributable => {
            if newly {
                *source = SpeedSource::Cam;
            }
            true
        },
        Verdict::Decisive(_) => {
            if newly {
                *source = SpeedSource::Cam;
            }
            false
        },
    }
}

/// Limp mode is required while any fault is confirmed, or while a disagreement cannot be
/// attributed to either sensor.
pub fn degraded<F: Copy>(mem: &[FaultEntry<F>; 2], unattributable: bool) -> (d: bool)
    ensures
        d == (mem@[0].state == DtcState::Confirmed || mem@[1].state == DtcState::Confirmed
            || unattributable),
{
    mem[0].state == DtcState::Confirmed || mem[1].state == DtcState::Confirmed || unattributable
}

/// The entry after debouncing each verdict of `verdicts` in turn.
pub open spec fn debounce_all<F>(e: FaultEntry<F>, verdicts: Seq<bool>, limit: i32, n: F, t: F) -> FaultEntry<F>
    decreases verdicts.len(),
{
    if verdicts.len() == 0 {
        e
    } else {
        debounced(debounce_all(e, verdicts.drop_last(), limit, n, t), verdicts.last(), limit, n, t)
    }
}

/// The number of bad verdicts in `verdicts`.
pub open spec fn count_bad(verdicts: Seq<bool>) -> nat
    decreases verdicts.len(),
{
    if verdicts.len() == 0 {
        0
    } else {
        count_bad(verdicts.drop_last()) + if verdicts.last() {
            1nat
        } else {
            0
        }
    }
}

/// A confirmed fault stays confirmed, with its freeze frame, whatever the verdict.
pub proof fn lemma_confirmed_stays<F>(e: FaultEntry<F>, bad: bool, limit: i32, n: F, t: F)
    requires
        e.state == DtcState::Confirmed,
    ensures
        debounced(e, bad, limit, n, t).state == DtcState::Confirmed,
        debounced(e, bad, limit, n, t).freeze_rpm == e.freeze_rpm,
        debounced(e, bad, limit, n, t).freeze_time_s == e.freeze_time_s,
{
}

/// The failure count stays between zero and the confirmation limit.
pub proof fn lemma_count_in_range<F>(e: FaultEntry<F>, bad: bool, limit: i32, n: F, t: F)
    requires
        0 <= e.fail_count <= limit,
    ensures
        0 <= debounced(e, bad, limit, n, t).fail_count <= limit,
{
}

/// No fault confirms on fewer than `limit` bad verdicts: starting from a cleared entry, a
/// confirmed fault has seen at least `limit` of them, and the count never exceeds the bad
/// verdicts seen.
pub proof fn lemma_confirmation_needs_limit_failures<F>(
    e: FaultEntry<F>,
    verdicts: Seq<bool>,
    limit: i32,
    n: F,
    t: F,
)
    requires
        e.state == DtcState::Passed,
        e.fail_count == 0,
        limit > 0,
    ensures
        0 <= debounce_all(e, verdicts, limit, n, t).fail_count <= limit,
        debounce_all(e, verdicts, limit, n, t).fail_count <= count_bad(verdicts),
        debounce_all(e, verdicts, limit, n, t).state == DtcState::Confirmed ==> count_bad(verdicts)
            >= limit,
    decreases verdicts.len(),
{
    if verdicts.len() > 0 {
        lemma_confirmation_needs_limit_failures(e, verdicts.drop_last(), limit, n, t);
    }
}

/// `k` bad verdicts in a row, from any entry whose count is in range, bring the count to
/// `min(count + k, limit)`; once at least one of them has brought it to `limit`, the fault is
/// confirmed.
pub proof fn lemma_consecutive_failures_confirm<F>(e: FaultEntry<F>, k: nat, limit: i32, n: F, t: F)
    requires
        0 <= e.fail_count <= limit,
    ensures
        debounce_all(e, Seq::new(k, |i: int| true), limit, n, t).fail_count == (if e.fail_count + k
            <= limit {
            e.fail_count + k
        } else {
            limit as int
        }),
        k > 0 && e.fail_count + k >= limit ==> debounce_all(
            e,
            Seq::new(k, |i: int| true),
            limit,
            n,
            t,
        ).state == DtcState::Confirmed,
    decreases k,
{
    if k > 0 {
        lemma_consecutive_failures_confirm(e, (k - 1) as nat, limit, n, t);
        assert(Seq::new(k, |i: int| true).drop_last() =~= Seq::new((k - 1) as nat, |i: int| true));
    }
}

/// A pending fault with `c` counted failures (`0 < c <= limit`) heals back to passed after `c`
/// good verdicts in a row, and is pending until then.
pub proof fn lemma_pending_heals<F>(e: FaultEntry<F>, k: nat, limit: i32, n: F, t: F)
    requires
        e.state == DtcState::Pending,
        0 < e.fail_count <= limit,
        k <= e.fail_count,
    ensures
        debounce_all(e, Seq::new(k, |i: int| false), limit, n, t).fail_count == e.fail_count - k,
        debounce_all(e, Seq::new(k, |i: int| false), limit, n, t).state == (if k == e.fail_count {
            DtcState::Passed
        } else {
            DtcState::Pending
        }),
    decreases k,
{
    if k > 0 {
        lemma_pending_heals(e, (k - 1) as nat, limit, n, t);
        assert(Seq::new(k, |i: int| false).drop_last() =~= Seq::new((k - 1) as nat, |i: int| false));
    }
}

} // verus!
