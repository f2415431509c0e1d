use vstd::prelude::*;
use crate::time::{SimTime, SimDuration, group_time};
use crate::kernel::Port;

verus! {

broadcast use group_time;

/// The steps of `s` in time order: every step is no later than the ones after it.
pub open spec fn time_sorted<F>(s: Seq<(SimTime, F)>) -> bool {
    forall|i: int, j: int| 0 <= i < j < s.len() ==> #[trigger] s[i].0.nanos() <= #[trigger] s[j].0.nanos()
}

/// The steps of `s` that fall at `t` nanoseconds, in their order in `s`.
pub open spec fn at_time<F>(s: Seq<(SimTime, F)>, t: nat) -> Seq<(SimTime, F)>
    decreases s.len(),
{
    if s.len() == 0 {
        Seq::empty()
    } else {
        let rest = at_time(s.drop_last(), t);
        if s.last().0.nanos() == t {
            rest.push(s.last())
        } else {
            rest
        }
    }
}

/// `sorted` is `s` put in time order by a stable sort: in time order, and with the steps of each
/// instant in the order they had in `s`.
pub open spec fn is_stable_sort_by_time<F>(s: Seq<(SimTime, F)>, sorted: Seq<(SimTime, F)>) -> bool {
    &&& sorted.len() == s.len()
    &&& time_sorted(sorted)
    &&& forall|t: nat| #[trigger] at_time(sorted, t) == at_time(s, t)
}

proof fn lemma_at_time_concat<F>(a: Seq<(SimTime, F)>, b: Seq<(SimTime, F)>, t: nat)
    ensures
        at_time(a + b, t) == at_time(a, t) + at_time(b, t),
    decreases b.len(),
{
    if b.len() == 0 {
        assert(a + b =~= a);
        assert(at_time(a, t) + at_time(b, t) =~= at_time(a, t));
    } else {
        lemma_at_time_concat(a, b.drop_last(), t);
        assert((a + b).drop_last() =~= a + b.drop_last());
        assert((a + b).last() == b.last());
        if b.last().0.nanos() == t {
            assert(at_time(a, t) + at_time(b.drop_last(), t).push(b.last()) =~= (at_time(a, t)
                + at_time(b.drop_last(), t)).push(b.last()));
        }
    }
}

proof fn lemma_at_time_none<F>(s: Seq<(SimTime, F)>, t: nat)
    requires
        forall|i: int| 0 <= i < s.len() ==> (#[trigger] s[i]).0.nanos() != t,
    ensures
        at_time(s, t) =~= Seq::<(SimTime, F)>::empty(),
    decreases s.len(),
{
    if s.len() > 0 {
        lemma_at_time_none(s.drop_last(), t);
    }
}

proof fn lemma_at_time_single<F>(x: (SimTime, F), t: nat)
    ensures
        at_time(seq![x], t) =~= (if x.0.nanos() == t {
            seq![x]
        } else {
            Seq::empty()
        }),
{
    assert(seq![x].drop_last() =~= Seq::<(SimTime, F)>::empty());
    assert(at_time(Seq::<(SimTime, F)>::empty(), t) =~= Seq::<(SimTime, F)>::empty());
}

/// Sorts `steps` by time, keeping the order of steps at the same instant.
/// Sorting the steps keeps every one of them: a stable sort by time holds each step exactly as
/// often as the unsorted steps do.
pub proof fn lemma_stable_sort_keeps_steps<F>(s: Seq<(SimTime, F)>, sorted: Seq<(SimTime, F)>)
    requires
        is_stable_sort_by_time(s, sorted),
    ensures
        sorted.to_multiset() =~= s.to_multiset(),
{
    assert forall|x: (SimTime, F)| sorted.to_multiset().count(x) == s.to_multiset().count(x) by {
        lemma_at_time_count(s, x);
        lemma_at_time_count(sorted, x);
        assert(at_time(sorted, x.0.nanos()) == at_time(s, x.0.nanos()));
    }
}

proof fn lemma_at_time_count<F>(s: Seq<(SimTime, F)>, x: (SimTime, F))
    ensures
        s.to_multiset().count(x) == at_time(s, x.0.nanos()).to_multiset().count(x),
    decreases s.len(),
{
    broadcast use vstd::seq_lib::group_to_multiset_ensures;

    if s.len() > 0 {
        let p = s.drop_last();
        lemma_at_time_count(p, x);
        assert(s =~= p.push(s.last()));
        if s.last().0.nanos() != x.0.nanos() {
            assert(s.last() != x);
        }
    }
}

fn sort_by_time<F: Copy>(steps: Vec<(SimTime, F)>) -> (sorted: Vec<(SimTime, F)>)
    ensures
        is_stable_sort_by_time(steps@, sorted@),
{
    let mut sorted: Vec<(SimTime, F)> = Vec::new();
    let n = steps.len();
    let mut i: usize = 0;
    while i < n
        invariant
            n == steps@.len(),
            i <= n,
            sorted@.len() == i,
            time_sorted(sorted@),
            forall|t: nat| #[trigger] at_time(sorted@, t) == at_time(steps@.take(i as int), t),
        decreases n - i,
    {
        let x = steps[i];
        let m = sorted.len();
        let mut p: usize = 0;
        while p < m && sorted[p].0.as_nanos() <= x.0.as_nanos()
            invariant
                m == sorted@.len(),
                p <= m,
                forall|k: int| 0 <= k < p ==> (#[trigger] sorted@[k]).0.nanos() <= x.0.nanos(),
            decreases m - p,
        {
            p = p + 1;
        }
        let ghost before = sorted@;
        sorted.insert(p, x);
        proof {
            let after = sorted@;
            assert(after =~= before.take(p as int) + seq![x] + before.skip(p as int));
            // everything from `p` on is later than `x`
            assert forall|k: int| p <= k < before.len() implies (#[trigger] before[k]).0.nanos()
                > x.0.nanos() by {
                if k > p {
                    assert(before[p as int].0.nanos() <= before[k].0.nanos());
                }
            }
            assert forall|a: int, b: int| 0 <= a < b < after.len() implies #[trigger] after[a].0.nanos()
                <= #[trigger] after[b].0.nanos() by {
                if b < p {
                } else if b == p {
                } else if a < p {
                    assert(before[a].0.nanos() <= before[b - 1].0.nanos());
                } else if a == p {
                } else {
                    assert(before[a - 1].0.nanos() <= before[b - 1].0.nanos());
                }
            }
            assert(steps@.take(i as int + 1) =~= steps@.take(i as int).push(x));
            assert forall|t: nat| #[trigger] at_time(after, t) == at_time(
                steps@.take(i as int + 1),
                t,
            ) by {
                let lo = before.take(p as int);
                let hi = before.skip(p as int);
                lemma_at_time_concat(lo + seq![x], hi, t);
                lemma_at_time_concat(lo, seq![x], t);
                lemma_at_time_single(x, t);
                lemma_at_time_concat(lo, hi, t);
                assert(before =~= lo + hi);
                assert(steps@.take(i as int + 1).drop_last() =~= steps@.take(i as int));
                if x.0.nanos() == t {
                    assert forall|k: int| 0 <= k < hi.len() implies (#[trigger] hi[k]).0.nanos()
                        != t by {
                        assert(hi[k] == before[p + k]);
                    }
                    lemma_at_time_none(hi, t);
                    assert(at_time(lo, t) + seq![x] + at_time(hi, t) =~= at_time(lo, t).push(x));
                    assert(at_time(lo, t) + at_time(hi, t) =~= at_time(lo, t));
                } else {
                    assert(at_time(lo, t) + Seq::<(SimTime, F)>::empty() =~= at_time(lo, t));
                }
            }
        }
        i = i + 1;
    }
    assert(steps@.take(n as int) =~= steps@);
    sorted
}

/// A schedule of values on one port: a step schedule (pedal, load, speed request, clutch, gear),
/// optionally ramped linearly to each new value.
pub struct LoadProfile<F> {
    steps: Vec<(SimTime, F)>,
    ramp: Option<SimDuration>,
    current: F,
    from: F,
    at: SimTime,
    next: usize,
    t_load_out: Port,
}

impl<F> LoadProfile<F> {
    #[verifier::type_invariant]
    spec fn well_formed(self) -> bool {
        &&& time_sorted(self.steps@)
        &&& self.next <= self.steps@.len()
    }

    /// The schedule, in time order.
    pub closed spec fn schedule(&self) -> Seq<(SimTime, F)> {
        self.steps@
    }

    /// How many steps of the schedule have been reached.
    pub closed spec fn reached(&self) -> nat {
        self.next as nat
    }

    /// The ramp duration, if the profile ramps rather than steps.
    pub closed spec fn ramp_spec(&self) -> Option<SimDuration> {
        self.ramp
    }

    /// The value on the port now.
    pub closed spec fn current_spec(&self) -> F {
        self.current
    }

    /// The value the current ramp started from.
    pub closed spec fn from_spec(&self) -> F {
        self.from
    }

    /// When the current ramp started.
    pub closed spec fn at_spec(&self) -> SimTime {
        self.at
    }

    /// The port the profile writes.
    pub closed spec fn port(&self) -> Port {
        self.t_load_out
    }

}

impl<F: Copy> LoadProfile<F> {
    /// A step profile writing `t_load_out`, starting at `zero` before the first step. The steps
    /// are put in time order; steps at the same instant keep their order.
    pub fn new(steps: Vec<(SimTime, F)>, t_load_out: Port, zero: F) -> (p: LoadProfile<F>)
        ensures
            is_stable_sort_by_time(steps@, p.schedule()),
            p.reached() == 0,
            p.ramp_spec() is None,
            p.current_spec() == zero,
            p.from_spec() == zero,
            p.at_spec().nanos() == 0,
            p.port() == t_load_out,
    {
        let steps = sort_by_time(steps);
        LoadProfile {
            steps,
            ramp: None,
            current: zero,
            from: zero,
            at: SimTime::zero(),
            next: 0,
            t_load_out,
        }
    }

    /// The same profile, ramping linearly to each new value over `d` instead of stepping.
    pub fn ramped(self, d: SimDuration) -> (p: LoadProfile<F>)
        ensures
            p.ramp_spec() == Some(d),
            p.schedule() == self.schedule(),
            p.reached() == self.reached(),
            p.current_spec() == self.current_spec(),
            p.from_spec() == self.from_spec(),
            p.at_spec() == self.at_spec(),
            p.port() == self.port(),
    {
        proof {
            use_type_invariant(&self);
        }
        let LoadProfile { steps, ramp: _, current, from, at, next, t_load_out } = self;
        LoadProfile { steps, ramp: Some(d), current, from, at, next, t_load_out }
    }

    /// Reaches every step that is due at `now`, and returns the value the port heads for: the
    /// value of the last step reached, or the starting value before the first. Each newly reached
    /// step starts a new ramp from the current value at the step's time.
    pub fn advance(&mut self, now: SimTime) -> (target: F)
        ensures
            final(self).schedule() == old(self).schedule(),
            final(self).ramp_spec() == old(self).ramp_spec(),
            final(self).current_spec() == old(self).current_spec(),
            final(self).port() == old(self).port(),
            old(self).reached() <= final(self).reached() <= final(self).schedule().len(),
            forall|i: int|
                old(self).reached() <= i < final(self).reached() ==> (#[trigger] final(self).schedule()[i]).0.nanos() <= now.nanos(),
            final(self).reached() < final(self).schedule().len() ==> final(self).schedule()[final(self).reached() as int].0.nanos() > now.nanos(),
            final(self).reached() > old(self).reached() ==> final(self).from_spec() == old(self).current_spec() && final(self).at_spec() == final(self).schedule()[final(self).reached() - 1].0,
            final(self).reached() == old(self).reached() ==> final(self).from_spec() == old(self).from_spec() && final(self).at_spec() == old(self).at_spec(),
            target == (if final(self).reached() == 0 {
                final(self).from_spec()
            } else {
                final(self).schedule()[final(self).reached() - 1].1
            }),
    {
        proof {
            use_type_invariant(&*self);
        }
        let n = self.steps.len();
        while self.next < n && now.as_nanos() >= self.steps[self.next].0.as_nanos()
            invariant
                n == self.steps@.len(),
                time_sorted(self.steps@),
                old(self).reached() <= self.next <= n,
                self.steps@ == old(self).schedule(),
                self.ramp == old(self).ramp_spec(),
                self.current == old(self).current_spec(),
                self.t_load_out == old(self).port(),
                forall|i: int|
                    old(self).reached() <= i < self.next ==> (#[trigger] self.steps@[i]).0.nanos()
                        <= now.nanos(),
                self.next > old(self).reached() ==> self.from == old(self).current_spec()
                    && self.at == self.steps@[self.next - 1].0,
                self.next == old(self).reached() ==> self.from == old(self).from_spec()
                    && self.at == old(self).at_spec(),
            decreases n - self.next,
        {
            self.from = self.current;
            self.at = self.steps[self.next].0;
            self.next = self.next + 1;
        }
        if self.next == 0 {
            self.from
        } else {
            self.steps[self.next - 1].1
        }
    }

    /// The ramp duration, if the profile ramps rather than steps.
    pub fn ramp(&self) -> (r: Option<SimDuration>)
        ensures
            r == self.ramp_spec(),
    {
        self.ramp
    }

    /// The value on the port now.
    pub fn current(&self) -> (v: F)
        ensures
            v == self.current_spec(),
    {
        self.current
    }

    /// The value the current ramp started from.
    pub fn ramp_from(&self) -> (v: F)
        ensures
            v == self.from_spec(),
    {
        self.from
    }

    /// When the current ramp started.
    pub fn ramp_start(&self) -> (t: SimTime)
        ensures
            t == self.at_spec(),
    {
        self.at
    }

    /// The port the profile writes.
    pub fn output(&self) -> (p: Port)
        ensures
            p == self.port(),
    {
        self.t_load_out
    }

    /// Records the value now on the port.
    pub fn set_current(&mut self, v: F)
        ensures
            final(self).current_spec() == v,
            final(self).schedule() == old(self).schedule(),
            final(self).reached() == old(self).reached(),
            final(self).ramp_spec() == old(self).ramp_spec(),
            final(self).from_spec() == old(self).from_spec(),
            final(self).at_spec() == old(self).at_spec(),
            final(self).port() == old(self).port(),
    {
        proof {
            use_type_invariant(&*self);
        }
        self.current = v;
    }
}

} // verus!
