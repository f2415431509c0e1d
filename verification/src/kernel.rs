use vstd::prelude::*;
use vstd::multiset::Multiset;
use crate::time::{SimTime, SimDuration, group_time};
use crate::rng::{SimRng, derived_state};

verus! {

broadcast use group_time, vstd::seq_lib::group_to_multiset_ensures,
    vstd::multiset::group_multiset_axioms;

/// A component's registration index.
#[derive(Copy, Clone, PartialEq, Eq, Structural, PartialOrd, Ord, Debug, Hash)]
pub struct ComponentId(pub u32);

/// When a component wants to run.
#[derive(Copy, Clone, Debug)]
pub enum Trigger {
    /// Every `period`, first at `offset` after the start of the run.
    Periodic { period: SimDuration, offset: SimDuration },
    /// Not schedulable in advance: the owning component reschedules itself through
    /// `Ctx::schedule_in` as its speed changes.
    SelfPaced,
}

/// One scheduled execution: component `comp` runs its trigger number `trig` at `at`.
#[derive(Copy, Clone, PartialEq, Eq, Structural, Debug)]
pub struct Entry {
    pub at: SimTime,
    pub comp: ComponentId,
    pub trig: u16,
}

/// The firing order of the event queue: by time, then component id, then trigger index. It never
/// depends on insertion order.
pub open spec fn entry_le(a: Entry, b: Entry) -> bool {
    ||| a.at.nanos() < b.at.nanos()
    ||| a.at.nanos() == b.at.nanos() && a.comp.0 < b.comp.0
    ||| a.at.nanos() == b.at.nanos() && a.comp.0 == b.comp.0 && a.trig <= b.trig
}

/// `e` is in `m` and fires no later than anything else in `m`.
pub open spec fn is_least(e: Entry, m: Multiset<Entry>) -> bool {
    &&& m.contains(e)
    &&& forall|x: Entry| m.contains(x) ==> entry_le(e, x)
}

/// The execution that is next and due by `end` among `m`, if any.
pub open spec fn next_due(m: Multiset<Entry>, end: SimTime) -> Option<Entry> {
    if exists|e: Entry| is_least(e, m) && e.at.nanos() <= end.nanos() {
        Some(choose|e: Entry| is_least(e, m) && e.at.nanos() <= end.nanos())
    } else {
        None
    }
}

/// Sorted latest first, so the next entry to fire is the last one.
pub open spec fn sorted_latest_first(s: Seq<Entry>) -> bool {
    forall|a: int, b: int| 0 <= a < b < s.len() ==> entry_le(#[trigger] s[b], #[trigger] s[a])
}

impl Entry {
    /// Whether `self` fires no later than `other`.
    pub fn le(&self, other: &Entry) -> (r: bool)
        ensures
            r == entry_le(*self, *other),
    {
        let a = self.at.as_nanos();
        let b = other.at.as_nanos();
        a < b || (a == b && self.comp.0 < other.comp.0) || (a == b && self.comp.0 == other.comp.0
            && self.trig <= other.trig)
    }
}

/// The pending executions of a run, handed out earliest first.
pub struct EventQueue {
    entries: Vec<Entry>,
}

impl EventQueue {
    #[verifier::type_invariant]
    spec fn sorted(self) -> bool {
        sorted_latest_first(self.entries@)
    }

    /// The entries waiting in the queue.
    pub closed spec fn contents(&self) -> Multiset<Entry> {
        self.entries@.to_multiset()
    }

    /// An empty queue.
    pub fn new() -> (q: EventQueue)
        ensures
            q.contents() =~= Multiset::empty(),
    {
        EventQueue { entries: Vec::new() }
    }

    /// The number of waiting entries.
    pub fn len(&self) -> (n: usize)
        ensures
            n == self.contents().len(),
    {
        self.entries.len()
    }

    /// Adds `e` to the queue.
    pub fn push(&mut self, e: Entry)
        ensures
            final(self).contents() == old(self).contents().insert(e),
    {
        proof {
            use_type_invariant(&*self);
        }
        let n = self.entries.len();
        let mut i: usize = 0;
        while i < n && !self.entries[i].le(&e)
            invariant
                i <= n,
                n == self.entries@.len(),
                forall|j: int| 0 <= j < i ==> !entry_le(#[trigger] self.entries@[j], e),
            decreases n - i,
        {
            i = i + 1;
        }
        let mut entries = Vec::new();
        std::mem::swap(&mut entries, &mut self.entries);
        let ghost before = entries@;
        entries.insert(i, e);
        proof {
            let after = entries@;
            assert(after =~= before.insert(i as int, e));
            assert forall|a: int, b: int| 0 <= a < b < after.len() implies entry_le(
                #[trigger] after[b],
                #[trigger] after[a],
            ) by {
                if b < i {
                } else if b == i {
                } else if a < i {
                    assert(entry_le(before[b - 1], e)) by {
                        if b - 1 > i {
                            assert(entry_le(before[b - 1], before[i as int]));
                        }
                    }
                } else if a == i {
                    if b - 1 > i {
                        assert(entry_le(before[b - 1], before[i as int]));
                    }
                } else {
                    assert(entry_le(before[b - 1], before[a - 1]));
                }
            }
        }
        self.entries = entries;
    }

    /// The entry that fires next, if any, without removing it.
    pub fn peek(&self) -> (r: Option<Entry>)
        ensures
            r is None <==> self.contents().len() == 0,
            r matches Some(e) ==> is_least(e, self.contents()),
    {
        proof {
            use_type_invariant(&*self);
        }
        let n = self.entries.len();
        if n == 0 {
            None
        } else {
            let e = self.entries[n - 1];
            proof {
                self.lemma_last_is_least();
            }
            Some(e)
        }
    }

    /// Removes and returns the entry that fires next, if any.
    pub fn pop(&mut self) -> (r: Option<Entry>)
        ensures
            r is None <==> old(self).contents().len() == 0,
            r is None ==> final(self).contents() == old(self).contents(),
            r matches Some(e) ==> is_least(e, old(self).contents())
                && final(self).contents() == old(self).contents().remove(e),
    {
        proof {
            use_type_invariant(&*self);
            if self.entries@.len() > 0 {
                self.lemma_last_is_least();
            }
        }
        let mut entries = Vec::new();
        std::mem::swap(&mut entries, &mut self.entries);
        let ghost before = entries@;
        let r = entries.pop();
        proof {
            if before.len() > 0 {
                assert(before.remove(before.len() - 1) =~= entries@);
            }
        }
        self.entries = entries;
        r
    }

    proof fn lemma_last_is_least(&self)
        requires
            sorted_latest_first(self.entries@),
            self.entries@.len() > 0,
        ensures
            is_least(self.entries@.last(), self.contents()),
    {
        let s = self.entries@;
        assert forall|x: Entry| self.contents().contains(x) implies entry_le(s.last(), x) by {
            let k = choose|k: int| 0 <= k < s.len() && s[k] == x;
            if k < s.len() - 1 {
                assert(entry_le(s[s.len() - 1], s[k]));
            }
        }
    }
}

/// The period a trigger reschedules itself with, if it is periodic.
pub open spec fn trigger_period(t: Trigger) -> Option<SimDuration> {
    match t {
        Trigger::Periodic { period, .. } => Some(period),
        Trigger::SelfPaced => None,
    }
}

/// The first executions that registering `triggers` for component `id` queues: one per periodic
/// trigger, at its offset from the start of the run, tagged with the trigger's index.
pub open spec fn first_entries(triggers: Seq<Trigger>, id: ComponentId) -> Multiset<Entry>
    decreases triggers.len(),
{
    if triggers.len() == 0 {
        Multiset::empty()
    } else {
        let rest = first_entries(triggers.drop_last(), id);
        match triggers.last() {
            Trigger::Periodic { offset, .. } => rest.insert(
                Entry {
                    at: SimTime::spec_at(offset.nanos()),
                    comp: id,
                    trig: (triggers.len() - 1) as u16,
                },
            ),
            Trigger::SelfPaced => rest,
        }
    }
}

/// What finishing the execution `e` puts back in the queue: the next execution of a periodic
/// trigger, one period later; nothing for a self-paced one.
pub open spec fn next_of(e: Entry, period: Option<SimDuration>) -> Multiset<Entry> {
    match period {
        Some(p) => Multiset::empty().insert(
            Entry { at: SimTime::spec_at(e.at.nanos() + p.nanos()), comp: e.comp, trig: e.trig },
        ),
        None => Multiset::empty(),
    }
}

/// The scheduler of a run: which component runs next, and when. It holds the queue of pending
/// executions, the period of every registered trigger and the current simulation time; the
/// components themselves, their random streams and the bus are driven by the caller, one
/// execution at a time (`pop_due`, run the component, `complete`).
pub struct Kernel {
    queue: EventQueue,
    periods: Vec<Vec<Option<SimDuration>>>,
    now: SimTime,
    run_seed: u64,
}

impl Kernel {
    #[verifier::type_invariant]
    spec fn consistent(self) -> bool {
        &&& self.periods@.len() <= u32::MAX
        &&& forall|e: Entry| #[trigger]
            self.queue.contents().contains(e) ==> {
                &&& e.comp.0 < self.periods@.len()
                &&& e.trig < self.periods@[e.comp.0 as int]@.len()
            }
    }

    /// The pending executions.
    pub closed spec fn pending(&self) -> Multiset<Entry> {
        self.queue.contents()
    }

    /// For every registered component, in registration order, the period of each of its triggers
    /// (`None` for a self-paced trigger).
    pub closed spec fn periods(&self) -> Seq<Seq<Option<SimDuration>>> {
        self.periods@.map_values(|row: Vec<Option<SimDuration>>| row@)
    }

    /// The time of the execution that ran last.
    pub closed spec fn current_time(&self) -> SimTime {
        self.now
    }

    /// The seed the run was started with.
    pub closed spec fn seed(&self) -> u64 {
        self.run_seed
    }

    /// No pending execution lies before the current time, so the run only moves forward.
    pub open spec fn in_order(&self) -> bool {
        forall|e: Entry| #[trigger]
            self.pending().contains(e) ==> self.current_time().nanos() <= e.at.nanos()
    }

    /// A kernel with no components, at the start of the run.
    pub fn new(run_seed: u64) -> (k: Kernel)
        ensures
            k.pending() =~= Multiset::empty(),
            k.periods() =~= Seq::<Seq<Option<SimDuration>>>::empty(),
            k.current_time().nanos() == 0,
            k.seed() == run_seed,
            k.in_order(),
    {
        Kernel { queue: EventQueue::new(), periods: Vec::new(), now: SimTime::zero(), run_seed }
    }

    /// The number of registered components.
    pub fn len(&self) -> (n: usize)
        ensures
            n == self.periods().len(),
    {
        self.periods.len()
    }

    /// The time of the execution that ran last.
    pub fn now(&self) -> (t: SimTime)
        ensures
            t == self.current_time(),
    {
        self.now
    }

    /// Registers a component that wants to run on `triggers`, and returns its id: its
    /// registration index. Each periodic trigger is first queued at its offset from the start of
    /// the run.
    pub fn add(&mut self, triggers: &Vec<Trigger>) -> (id: ComponentId)
        requires
            old(self).periods().len() < u32::MAX,
        ensures
            id.0 == old(self).periods().len(),
            final(self).periods() == old(self).periods().push(
                triggers@.map_values(|t: Trigger| trigger_period(t)),
            ),
            final(self).pending() == old(self).pending().add(first_entries(triggers@, id)),
            final(self).current_time() == old(self).current_time(),
            final(self).seed() == old(self).seed(),
            old(self).in_order() && old(self).current_time().nanos() == 0 ==> final(self).in_order(),
    {
        proof {
            use_type_invariant(&*self);
        }
        let id = ComponentId(self.periods.len() as u32);
        let mut queue = EventQueue::new();
        std::mem::swap(&mut queue, &mut self.queue);
        let ghost start = queue.contents();
        let mut row: Vec<Option<SimDuration>> = Vec::new();
        let n = triggers.len();
        let mut i: usize = 0;
        while i < n
            invariant
                n == triggers@.len(),
                i <= n,
                row@ == triggers@.take(i as int).map_values(|t: Trigger| trigger_period(t)),
                queue.contents() == start.add(first_entries(triggers@.take(i as int), id)),
            decreases n - i,
        {
            let ghost prefix = triggers@.take(i as int + 1);
            assert(prefix.drop_last() =~= triggers@.take(i as int));
            match triggers[i] {
                Trigger::Periodic { period, offset } => {
                    let at = SimTime::zero().add(offset);
                    let trig: u16 = #[verifier::truncate] (i as u16);
                    proof {
                        assert(at == SimTime::spec_at(offset.nanos()));
                        assert(prefix.last() == triggers@[i as int]);
                        assert(prefix.len() - 1 == i);
                    }
                    queue.push(Entry { at, comp: id, trig });
                    row.push(Some(period));
                },
                Trigger::SelfPaced => {
                    row.push(None);
                },
            }
            proof {
                assert(row@ =~= prefix.map_values(|t: Trigger| trigger_period(t)));
                assert(queue.contents() =~= start.add(first_entries(prefix, id)));
            }
            i = i + 1;
        }
        assert(triggers@.take(n as int) =~= triggers@);
        let mut periods = Vec::new();
        std::mem::swap(&mut periods, &mut self.periods);
        let ghost old_rows = periods@;
        periods.push(row);
        proof {
            assert forall|e: Entry| #[trigger] queue.contents().contains(e) implies {
                &&& e.comp.0 < periods@.len()
                &&& e.trig < periods@[e.comp.0 as int]@.len()
            } by {
                if !start.contains(e) {
                    lemma_first_entries_valid(triggers@, id, e);
                }
            }
        }
        self.periods = periods;
        self.queue = queue;
        proof {
            assert(self.periods() =~= old(self).periods().push(
                triggers@.map_values(|t: Trigger| trigger_period(t)),
            ));
            if old(self).in_order() && old(self).current_time().nanos() == 0 {
                assert forall|e: Entry| #[trigger]
                    self.pending().contains(e) implies self.current_time().nanos()
                    <= e.at.nanos() by {
                }
            }
        }
        id
    }

    /// The period of trigger `trig` of component `id`: `Some(None)` for a self-paced trigger, and
    /// `None` if there is no such component or trigger.
    pub fn period_of(&self, id: ComponentId, trig: u16) -> (r: Option<Option<SimDuration>>)
        ensures
            r == (if id.0 < self.periods().len() && trig < self.periods()[id.0 as int].len() {
                Some(self.periods()[id.0 as int][trig as int])
            } else {
                None
            }),
    {
        let i = id.0 as usize;
        if i < self.periods.len() && (trig as usize) < self.periods[i].len() {
            Some(self.periods[i][trig as usize])
        } else {
            None
        }
    }

    /// The random stream of the component registered as `id`: derived from the run seed and the
    /// registration index alone.
    pub fn rng_for(&self, id: ComponentId) -> (r: SimRng)
        ensures
            r.state() == derived_state(self.seed(), id.0),
            r.spare() is None,
    {
        SimRng::derive(self.run_seed, id.0)
    }

    /// Takes the next pending execution if it is due by `end`, and moves the current time to it.
    /// Pending executions leave in order of time, then component id, then trigger index.
    pub fn pop_due(&mut self, end: SimTime) -> (r: Option<Entry>)
        ensures
            r is None <==> forall|e: Entry| #[trigger]
                is_least(e, old(self).pending()) ==> e.at.nanos() > end.nanos(),
            r is None ==> final(self).pending() == old(self).pending() && final(self).current_time() == old(self).current_time(),
            r matches Some(e) ==> {
                &&& is_least(e, old(self).pending())
                &&& e.at.nanos() <= end.nanos()
                &&& final(self).pending() == old(self).pending().remove(e)
                &&& final(self).current_time() == e.at
                &&& e.comp.0 < final(self).periods().len()
                &&& e.trig < final(self).periods()[e.comp.0 as int].len()
            },
            final(self).periods() == old(self).periods(),
            final(self).seed() == old(self).seed(),
            old(self).in_order() ==> final(self).in_order() && old(self).current_time().nanos()
                <= final(self).current_time().nanos(),
            r == next_due(old(self).pending(), end),
    {
        proof {
            use_type_invariant(&*self);
        }
        match self.queue.peek() {
            None => None,
            Some(e) => {
                if e.at.as_nanos() > end.as_nanos() {
                    proof {
                        assert forall|x: Entry| #[trigger]
                            is_least(x, old(self).pending()) implies x.at.nanos()
                            > end.nanos() by {
                            assert(entry_le(x, e) && entry_le(e, x));
                        }
                    }
                    None
                } else {
                    let mut queue = EventQueue::new();
                    std::mem::swap(&mut queue, &mut self.queue);
                    let popped = queue.pop();
                    proof {
                        let p = popped->0;
                        assert(entry_le(p, e) && entry_le(e, p));
                        assert(p == e);
                        assert forall|x: Entry| #[trigger]
                            queue.contents().contains(x) implies old(self).pending().contains(
                            x,
                        ) by {}
                    }
                    self.queue = queue;
                    self.now = e.at;
                    proof {
                        assert(old(self).pending().contains(e));
                        assert forall|x: Entry| #[trigger]
                            is_least(x, old(self).pending()) implies x == e by {
                            assert(entry_le(x, e) && entry_le(e, x));
                        }
                        if old(self).in_order() {
                            assert forall|x: Entry| #[trigger]
                                self.pending().contains(x) implies self.current_time().nanos()
                                <= x.at.nanos() by {
                                assert(old(self).pending().contains(x));
                            }
                        }
                    }
                    Some(e)
                }
            },
        }
    }

    /// Finishes the execution `e`: a periodic trigger is queued again one period later, and the
    /// executions the component scheduled while it ran (`scheduled`, emptied here) join the queue.
    pub fn complete(&mut self, e: Entry, scheduled: &mut Vec<Entry>)
        requires
            e.comp.0 < old(self).periods().len(),
            e.trig < old(self).periods()[e.comp.0 as int].len(),
            old(self).periods()[e.comp.0 as int][e.trig as int] matches Some(p) ==> e.at.nanos()
                + p.nanos() <= u64::MAX,
            forall|i: int|
                0 <= i < old(scheduled)@.len() ==> {
                    &&& (#[trigger] old(scheduled)@[i]).comp.0 < old(self).periods().len()
                    &&& old(scheduled)@[i].trig < old(self).periods()[old(scheduled)@[i].comp.0 as int].len()
                },
        ensures
            final(self).pending() == old(self).pending().add(
                next_of(e, old(self).periods()[e.comp.0 as int][e.trig as int]),
            ).add(old(scheduled)@.to_multiset()),
            final(scheduled)@ =~= Seq::<Entry>::empty(),
            final(self).periods() == old(self).periods(),
            final(self).current_time() == old(self).current_time(),
            final(self).seed() == old(self).seed(),
            old(self).in_order() && old(self).current_time().nanos() <= e.at.nanos() && (forall|
                i: int,
            |
                0 <= i < old(scheduled)@.len() ==> old(self).current_time().nanos() <= (
                #[trigger] old(scheduled)@[i]).at.nanos()) ==> final(self).in_order(),
    {
        proof {
            use_type_invariant(&*self);
        }
        let mut queue = EventQueue::new();
        std::mem::swap(&mut queue, &mut self.queue);
        let ghost start = queue.contents();
        let period = self.periods[e.comp.0 as usize][e.trig as usize];
        proof {
            assert(period == old(self).periods()[e.comp.0 as int][e.trig as int]);
        }
        if let Some(p) = period {
            let at = e.at.add(p);
            assert(at == SimTime::spec_at(e.at.nanos() + p.nanos()));
            queue.push(Entry { at, comp: e.comp, trig: e.trig });
        }
        let ghost after_self = queue.contents();
        assert(after_self =~= start.add(next_of(e, period)));
        let n = scheduled.len();
        let mut i: usize = 0;
        while i < n
            invariant
                n == scheduled@.len(),
                scheduled@ == old(scheduled)@,
                i <= n,
                queue.contents() == after_self.add(scheduled@.take(i as int).to_multiset()),
            decreases n - i,
        {
            queue.push(scheduled[i]);
            proof {
                assert(scheduled@.take(i as int + 1) =~= scheduled@.take(i as int).push(
                    scheduled@[i as int],
                ));
                assert(queue.contents() =~= after_self.add(
                    scheduled@.take(i as int + 1).to_multiset(),
                ));
            }
            i = i + 1;
        }
        assert(scheduled@.take(n as int) =~= scheduled@);
        scheduled.clear();
        proof {
            assert forall|x: Entry| #[trigger] queue.contents().contains(x) implies {
                &&& x.comp.0 < self.periods@.len()
                &&& x.trig < self.periods@[x.comp.0 as int]@.len()
            } by {
                if !start.contains(x) && !next_of(e, period).contains(x) {
                    assert(old(scheduled)@.to_multiset().contains(x));
                    assert(old(scheduled)@.contains(x));
                }
            }
        }
        self.queue = queue;
        proof {
            if old(self).in_order() && old(self).current_time().nanos() <= e.at.nanos() && (forall|
                i: int,
            |
                0 <= i < old(scheduled)@.len() ==> old(self).current_time().nanos() <= (
                #[trigger] old(scheduled)@[i]).at.nanos()) {
                assert forall|x: Entry| #[trigger]
                    self.pending().contains(x) implies self.current_time().nanos()
                    <= x.at.nanos() by {
                    if !start.contains(x) && !next_of(e, period).contains(x) {
                        assert(old(scheduled)@.to_multiset().contains(x));
                        assert(old(scheduled)@.contains(x));
                        let k = choose|k: int| 0 <= k < old(scheduled)@.len() && old(scheduled)@[k] == x;
                        assert(old(self).current_time().nanos() <= old(scheduled)@[k].at.nanos());
                    } else if start.contains(x) {
                        assert(old(self).pending().contains(x));
                    } else if next_of(e, period).contains(x) {
                        let p = period->0;
                        assert(x.at == SimTime::spec_at(e.at.nanos() + p.nanos()));
                        assert(x.at.nanos() == e.at.nanos() + p.nanos());
                    }
                }
            }
        }
    }
}

/// What a component sees while it runs: the current time, its own random stream, the bus, and
/// a way to schedule its own next executions.
pub struct Ctx<'a, V> {
    pub now: SimTime,
    pub rng: &'a mut SimRng,
    pub bus: &'a mut Blackboard<V>,
    me: ComponentId,
    pending: &'a mut Vec<Entry>,
}

impl<'a, V> Ctx<'a, V> {
    /// The context of component `me` running at `now`; what it schedules is appended to `pending`.
    pub fn new(
        now: SimTime,
        rng: &'a mut SimRng,
        bus: &'a mut Blackboard<V>,
        me: ComponentId,
        pending: &'a mut Vec<Entry>,
    ) -> (c: Ctx<'a, V>)
        ensures
            c.time() == now,
            c.component() == me,
            c.bus_values() == old(bus).values(),
            c.rng_state() == old(rng).state(),
            c.scheduled() == old(pending)@,
    {
        Ctx { now, rng, bus, me, pending }
    }

    /// The current simulation time.
    pub closed spec fn time(&self) -> SimTime {
        self.now
    }

    /// The values on the bus.
    pub closed spec fn bus_values(&self) -> Seq<V> {
        self.bus.values()
    }

    /// The state of the running component's random stream.
    pub closed spec fn rng_state(&self) -> Seq<u64> {
        self.rng.state()
    }

    /// The component that is running.
    pub closed spec fn component(&self) -> ComponentId {
        self.me
    }

    /// What the running component has scheduled so far.
    pub closed spec fn scheduled(&self) -> Seq<Entry> {
        self.pending@
    }

    /// Schedules trigger `trig` of the running component to run `d` from now.
    pub fn schedule_in(&mut self, d: SimDuration, trig: u16)
        requires
            old(self).time().nanos() + d.nanos() <= u64::MAX,
        ensures
            final(self).scheduled() == old(self).scheduled().push(
                Entry {
                    at: SimTime::spec_at(old(self).time().nanos() + d.nanos()),
                    comp: old(self).component(),
                    trig,
                },
            ),
            final(self).time() == old(self).time(),
            final(self).component() == old(self).component(),
            final(self).bus_values() == old(self).bus_values(),
            final(self).rng_state() == old(self).rng_state(),
    {
        let at = self.now.add(d);
        self.pending.push(Entry { at, comp: self.me, trig });
    }
}

/// Deterministic tie breaking: the next execution is fully determined by what is pending. At
/// most one entry is least in any collection, so two queues holding the same executions, queued
/// in whatever order, hand out the same next one.
pub proof fn lemma_next_is_unique(a: Entry, b: Entry, m: Multiset<Entry>)
    requires
        is_least(a, m),
        is_least(b, m),
    ensures
        a == b,
{
    assert(entry_le(a, b) && entry_le(b, a));
}

/// Executions leave a queue in order: what leaves after `a`, with nothing added in between,
/// fires no earlier than `a` (by time, then component id, then trigger index).
pub proof fn lemma_pops_in_order(a: Entry, b: Entry, m: Multiset<Entry>)
    requires
        is_least(a, m),
        is_least(b, m.remove(a)),
    ensures
        entry_le(a, b),
{
    assert(m.contains(b));
}

/// Executions are handed out in order across a whole run. Once `e`, the next execution of
/// `pending`, has been handed out and completed (its own trigger queued again one `period` later,
/// and what the component scheduled queued strictly after `e.at`), every pending execution fires
/// no earlier than `e`, so whatever `pop_due` hands out next, up to any `end`, comes after `e`.
pub proof fn lemma_run_in_order(
    e: Entry,
    pending: Multiset<Entry>,
    period: Option<SimDuration>,
    scheduled: Seq<Entry>,
    end: SimTime,
)
    requires
        is_least(e, pending),
        period matches Some(p) ==> e.at.nanos() + p.nanos() <= u64::MAX,
        forall|i: int| 0 <= i < scheduled.len() ==> (#[trigger] scheduled[i]).at.nanos() > e.at.nanos(),
    ensures
        forall|x: Entry| #[trigger]
            pending.remove(e).add(next_of(e, period)).add(scheduled.to_multiset()).contains(x)
                ==> entry_le(e, x),
        next_due(pending.remove(e).add(next_of(e, period)).add(scheduled.to_multiset()), end)
            matches Some(f) ==> entry_le(e, f),
{
    let after = pending.remove(e).add(next_of(e, period)).add(scheduled.to_multiset());
    assert forall|x: Entry| #[trigger] after.contains(x) implies entry_le(e, x) by {
        if pending.remove(e).contains(x) {
            assert(pending.contains(x));
        } else if next_of(e, period).contains(x) {
            assert(x.at.nanos() >= e.at.nanos());
        } else {
            assert(scheduled.to_multiset().count(x) > 0);
            assert(scheduled.contains(x));
            let i = choose|i: int| 0 <= i < scheduled.len() && scheduled[i] == x;
            assert(scheduled[i].at.nanos() > e.at.nanos());
        }
    }
    if next_due(after, end) is Some {
        let f = choose|f: Entry| is_least(f, after) && f.at.nanos() <= end.nanos();
        assert(after.contains(f));
    }
}

/// Running in chunks changes nothing. What a run up to `t2` hands out next is what a run up to an
/// earlier `t1` hands out, when that one is due; when nothing is due by `t1` (and `pop_due`
/// leaves the scheduler as it was), the next execution up to `t2` lies after `t1`. So stopping
/// at `t1` and carrying on to `t2` hands out the same executions, in the same order, as one run
/// to `t2`.
pub proof fn lemma_chunked_run(m: Multiset<Entry>, t1: SimTime, t2: SimTime)
    requires
        t1.nanos() <= t2.nanos(),
    ensures
        next_due(m, t1) is Some ==> next_due(m, t2) == next_due(m, t1),
        next_due(m, t1) is None ==> match next_due(m, t2) {
            Some(e) => e.at.nanos() > t1.nanos(),
            None => true,
        },
{
    if next_due(m, t1) is Some {
        let a = choose|e: Entry| is_least(e, m) && e.at.nanos() <= t1.nanos();
        assert(is_least(a, m) && a.at.nanos() <= t2.nanos());
        let b = choose|e: Entry| is_least(e, m) && e.at.nanos() <= t2.nanos();
        lemma_next_is_unique(a, b, m);
    }
    if next_due(m, t1) is None && next_due(m, t2) is Some {
        let b = choose|e: Entry| is_least(e, m) && e.at.nanos() <= t2.nanos();
        if b.at.nanos() <= t1.nanos() {
            assert(is_least(b, m) && b.at.nanos() <= t1.nanos());
        }
    }
}

/// Registering a component queues exactly one first execution per periodic trigger: for every
/// position `i` of `triggers` holding a periodic trigger, the execution of trigger `i` of
/// component `id` at that trigger's offset from the start of the run, once; and nothing else.
pub proof fn lemma_first_entries_exact(triggers: Seq<Trigger>, id: ComponentId, e: Entry)
    requires
        triggers.len() <= 0x1_0000,
    ensures
        first_entries(triggers, id).count(e) == (if e.comp == id && e.trig < triggers.len() && (
        triggers[e.trig as int] matches Trigger::Periodic { offset, .. } && e.at.nanos()
            == offset.nanos()) {
            1nat
        } else {
            0nat
        }),
    decreases triggers.len(),
{
    if triggers.len() > 0 {
        let prefix = triggers.drop_last();
        lemma_first_entries_exact(prefix, id, e);
        let last = (triggers.len() - 1) as u16;
        assert(last == triggers.len() - 1);
        if e.trig < prefix.len() {
            assert(prefix[e.trig as int] == triggers[e.trig as int]);
        }
        match triggers.last() {
            Trigger::Periodic { offset, .. } => {
                let f = Entry { at: SimTime::spec_at(offset.nanos()), comp: id, trig: last };
                crate::time::lemma_duration_nanos(offset, offset);
                assert(f.at.nanos() == offset.nanos());
                if e.comp == id && e.trig == last && e.at.nanos() == offset.nanos() {
                    crate::time::lemma_time_nanos(e.at, f.at);
                    assert(e == f);
                }
            },
            Trigger::SelfPaced => {},
        }
    }
}

/// The number of periodic triggers in `triggers`.
pub open spec fn periodic_count(triggers: Seq<Trigger>) -> nat
    decreases triggers.len(),
{
    if triggers.len() == 0 {
        0
    } else {
        periodic_count(triggers.drop_last()) + if triggers.last() is Periodic {
            1nat
        } else {
            0nat
        }
    }
}

/// Registering a component queues as many first executions as it has periodic triggers.
pub proof fn lemma_first_entries_len(triggers: Seq<Trigger>, id: ComponentId)
    ensures
        first_entries(triggers, id).len() == periodic_count(triggers),
    decreases triggers.len(),
{
    if triggers.len() > 0 {
        lemma_first_entries_len(triggers.drop_last(), id);
    }
}

proof fn lemma_first_entries_valid(triggers: Seq<Trigger>, id: ComponentId, e: Entry)
    requires
        first_entries(triggers, id).contains(e),
    ensures
        e.comp == id,
        e.trig < triggers.len(),
    decreases triggers.len(),
{
    if triggers.len() > 0 {
        let rest = first_entries(triggers.drop_last(), id);
        if rest.contains(e) {
            lemma_first_entries_valid(triggers.drop_last(), id, e);
        }
    }
}

/// The slots of the signal bus. Ports are handed out at build time, so the hot path does no
/// lookups and never iterates a map.
pub struct Blackboard<V> {
    slots: Vec<V>,
}

/// A handle to one slot of a `Blackboard`.
#[derive(Copy, Clone, Debug)]
pub struct Port(u32);

impl Port {
    /// The index of the slot.
    pub closed spec fn index(self) -> nat {
        self.0 as nat
    }
}

impl<V> Blackboard<V> {
    /// The values in the slots, in allocation order.
    pub closed spec fn values(&self) -> Seq<V> {
        self.slots@
    }

    /// An empty bus.
    pub fn new() -> (b: Blackboard<V>)
        ensures
            b.values() =~= Seq::<V>::empty(),
    {
        Blackboard { slots: Vec::new() }
    }

    /// Allocates a new slot holding `init`, and returns its port.
    pub fn alloc_slot(&mut self, init: V) -> (p: Port)
        requires
            old(self).values().len() < u32::MAX,
        ensures
            p.index() == old(self).values().len(),
            final(self).values() == old(self).values().push(init),
    {
        self.slots.push(init);
        Port((self.slots.len() - 1) as u32)
    }

    /// Whether `p` names a slot of this bus.
    pub fn holds(&self, p: Port) -> (r: bool)
        ensures
            r == (p.index() < self.values().len()),
    {
        (p.0 as usize) < self.slots.len()
    }

    /// The value in the slot of `p`.
    pub fn get(&self, p: Port) -> (v: V) where V: Copy
        requires
            p.index() < self.values().len(),
        ensures
            v == self.values()[p.index() as int],
    {
        self.slots[p.0 as usize]
    }

    /// Writes `v` into the slot of `p`.
    pub fn set(&mut self, p: Port, v: V)
        requires
            p.index() < old(self).values().len(),
        ensures
            final(self).values() == old(self).values().update(p.index() as int, v),
    {
        self.slots.set(p.0 as usize, v);
    }
}

impl<V> Default for Blackboard<V> {
    fn default() -> (b: Blackboard<V>)
        ensures
            b.values() =~= Seq::<V>::empty(),
    {
        Blackboard { slots: Vec::new() }
    }
}

/// A read of any slot gives back what the last write to that slot wrote, and a write leaves every
/// other slot as it was.
pub proof fn lemma_read_after_write<V>(values: Seq<V>, p: Port, q: Port, v: V)
    requires
        p.index() < values.len(),
        q.index() < values.len(),
    ensures
        values.update(p.index() as int, v)[q.index() as int] == (if p.index() == q.index() {
            v
        } else {
            values[q.index() as int]
        }),
{
}

/// Allocation leaves every existing slot as it was, and the new slot holds its initial value.
pub proof fn lemma_alloc_keeps_slots<V>(values: Seq<V>, init: V, q: Port)
    requires
        q.index() <= values.len(),
    ensures
        values.push(init)[q.index() as int] == (if q.index() == values.len() {
            init
        } else {
            values[q.index() as int]
        }),
{
}

} // verus!
