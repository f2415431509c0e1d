use vstd::prelude::*;
use crate::time::SimTime;

verus! {

/// Tooth positions of the crank trigger wheel.
pub const TEETH: u32 = 60;

/// Teeth actually present: a 60-2 wheel, two missing for the reference gap.
pub const PRESENT: u32 = 58;

/// The tooth the wheel reaches next from `tooth`, and how many tooth pitches that takes.
pub open spec fn spec_next_step(tooth: u32) -> (u32, u32) {
    let next = (tooth + 1) % (TEETH as int);
    if next >= PRESENT {
        (0, 3)
    } else {
        (next as u32, 1)
    }
}

/// The next physical tooth after `tooth`, and the angular gap to it in tooth pitches: one pitch
/// normally, three across the two-tooth gap.
pub fn next_step(tooth: u32) -> (r: (u32, u32))
    requires
        tooth < u32::MAX,
    ensures
        r == spec_next_step(tooth),
        r.0 < PRESENT,
{
    let next = (tooth + 1) % TEETH;
    if next >= PRESENT {
        (0, 3)
    } else {
        (next, 1)
    }
}

/// Where the wheel is after `k` edges from tooth `tooth`, and the pitches travelled.
pub open spec fn steps_from(tooth: u32, k: nat) -> (u32, nat)
    decreases k,
{
    if k == 0 {
        (tooth, 0)
    } else {
        let (t, travelled) = steps_from(tooth, (k - 1) as nat);
        let (nt, pitch) = spec_next_step(t);
        (nt, travelled + pitch as nat)
    }
}

/// One revolution of the 60-2 wheel: from the reference tooth, 58 edges later the wheel is back
/// at the reference tooth having travelled all 60 tooth pitches.
pub proof fn lemma_one_revolution()
    ensures
        steps_from(0, 58) == (0u32, 60nat),
        forall|k: nat| 0 < k < 58 ==> #[trigger] steps_from(0, k).0 == k && steps_from(0, k).1 == k,
{
    assert forall|k: nat| k < 58 implies #[trigger] steps_from(0, k) == (k as u32, k) by {
        lemma_steps_prefix(k);
    }
    lemma_steps_prefix(57);
}

proof fn lemma_steps_prefix(k: nat)
    requires
        k < 58,
    ensures
        steps_from(0, k) == (k as u32, k),
    decreases k,
{
    if k > 0 {
        lemma_steps_prefix((k - 1) as nat);
    }
}

/// A raw edge period as the capture timer sees it: rounded down to whole timer ticks.
pub fn quantize_period(raw_ns: u64, tick_ns: u64) -> (q: u64)
    requires
        tick_ns > 0,
    ensures
        q == raw_ns - raw_ns % tick_ns,
        q <= raw_ns,
        q % tick_ns == 0,
{
    proof {
        vstd::arithmetic::div_mod::lemma_fundamental_div_mod(raw_ns as int, tick_ns as int);
        vstd::arithmetic::div_mod::lemma_mod_multiples_basic((raw_ns / tick_ns) as int, tick_ns as int);
        vstd::arithmetic::mul::lemma_mul_is_commutative((raw_ns / tick_ns) as int, tick_ns as int);
    }
    let q = raw_ns - raw_ns % tick_ns;
    assert(q == (raw_ns / tick_ns) * tick_ns);
    q
}

/// Fires a fault armed to take effect at a given instant: once `now` has reached that instant the
/// fault is handed back and disarmed; before then, or with nothing armed, nothing changes.
pub fn fire_armed<F: Copy>(armed: &mut Option<(SimTime, F)>, now: SimTime) -> (fired: Option<F>)
    ensures
        match *old(armed) {
            Some((t, f)) => if now.nanos() >= t.nanos() {
                fired == Some(f) && *final(armed) is None
            } else {
                fired is None && *final(armed) == *old(armed)
            },
            None => fired is None && *final(armed) is None,
        },
{
    match *armed {
        Some((t, f)) => {
            if now.as_nanos() >= t.as_nanos() {
                *armed = None;
                Some(f)
            } else {
                None
            }
        },
        None => None,
    }
}

} // verus!
