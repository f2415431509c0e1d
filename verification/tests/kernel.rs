use revlab::kernel::{Blackboard, ComponentId, Ctx, Entry, EventQueue, Kernel, Trigger};
use revlab::rng::SimRng;
use revlab::time::{SimDuration, SimTime};

fn at(ns: u64) -> SimTime {
    SimTime::zero().add(SimDuration::from_nanos(ns))
}

fn entry(ns: u64, comp: u32, trig: u16) -> Entry {
    Entry { at: at(ns), comp: ComponentId(comp), trig }
}

#[test]
fn queue_pops_by_time_then_component_then_trigger() {
    let mut q = EventQueue::new();
    q.push(entry(5, 2, 0));
    q.push(entry(5, 1, 3));
    q.push(entry(1, 9, 9));
    q.push(entry(5, 1, 1));
    q.push(entry(3, 0, 0));
    assert_eq!(q.len(), 5);
    assert_eq!(q.peek(), Some(entry(1, 9, 9)));
    let order: Vec<Entry> = std::iter::from_fn(|| q.pop()).collect();
    assert_eq!(order, vec![entry(1, 9, 9), entry(3, 0, 0), entry(5, 1, 1), entry(5, 1, 3), entry(5, 2, 0)]);
    assert_eq!(q.pop(), None);
}

#[test]
fn queue_order_does_not_depend_on_insertion_order() {
    let items = [entry(7, 1, 0), entry(7, 0, 2), entry(2, 3, 1), entry(7, 0, 1)];
    let mut a = EventQueue::new();
    let mut b = EventQueue::new();
    for e in items.iter() {
        a.push(*e);
    }
    for e in items.iter().rev() {
        b.push(*e);
    }
    let va: Vec<Entry> = std::iter::from_fn(|| a.pop()).collect();
    let vb: Vec<Entry> = std::iter::from_fn(|| b.pop()).collect();
    assert_eq!(va, vb);
}

#[test]
fn entry_le_is_lexicographic() {
    assert!(entry(1, 5, 5).le(&entry(2, 0, 0)));
    assert!(entry(2, 0, 9).le(&entry(2, 1, 0)));
    assert!(entry(2, 1, 0).le(&entry(2, 1, 0)));
    assert!(!entry(2, 1, 1).le(&entry(2, 1, 0)));
}

#[test]
fn kernel_runs_periodic_triggers_in_order() {
    let mut k = Kernel::new(7);
    let a = k.add(&vec![Trigger::Periodic {
        period: SimDuration::from_millis(1),
        offset: SimDuration::zero(),
    }]);
    let b = k.add(&vec![
        Trigger::SelfPaced,
        Trigger::Periodic { period: SimDuration::from_millis(2), offset: SimDuration::from_millis(1) },
    ]);
    assert_eq!(a, ComponentId(0));
    assert_eq!(b, ComponentId(1));
    assert_eq!(k.len(), 2);
    assert_eq!(k.period_of(b, 0), Some(None));
    assert_eq!(k.period_of(b, 1), Some(Some(SimDuration::from_millis(2))));
    assert_eq!(k.period_of(b, 2), None);

    let end = at(3_000_000);
    let mut seen = Vec::new();
    let mut none: Vec<Entry> = Vec::new();
    while let Some(e) = k.pop_due(end) {
        seen.push((e.at.as_nanos(), e.comp.0, e.trig));
        assert_eq!(k.now(), e.at);
        k.complete(e, &mut none);
    }
    assert_eq!(
        seen,
        vec![(0, 0, 0), (1_000_000, 0, 0), (1_000_000, 1, 1), (2_000_000, 0, 0), (3_000_000, 0, 0), (3_000_000, 1, 1)]
    );
    assert_eq!(k.now().as_nanos(), 3_000_000);
}

#[test]
fn kernel_queues_what_a_component_scheduled() {
    let mut k = Kernel::new(1);
    let id = k.add(&vec![Trigger::SelfPaced]);
    // nothing is due until the component schedules itself
    assert_eq!(k.pop_due(at(1_000)), None);
    let mut rng = k.rng_for(id);
    let mut bus: Blackboard<u8> = Blackboard::new();
    let mut pending: Vec<Entry> = Vec::new();
    {
        let mut ctx = Ctx::new(SimTime::zero(), &mut rng, &mut bus, id, &mut pending);
        ctx.schedule_in(SimDuration::from_nanos(500), 0);
    }
    assert_eq!(pending, vec![entry(500, 0, 0)]);
    k.complete(entry(0, 0, 0), &mut pending);
    assert!(pending.is_empty());
    assert_eq!(k.pop_due(at(499)), None);
    assert_eq!(k.pop_due(at(500)), Some(entry(500, 0, 0)));
}

#[test]
fn rng_for_is_derived_from_seed_and_index() {
    let mut k = Kernel::new(99);
    let id = k.add(&vec![]);
    let mut r = k.rng_for(id);
    let mut s = SimRng::derive(99, 0);
    assert_eq!(r.next_u64(), s.next_u64());
}

#[test]
fn blackboard_reads_back_writes() {
    let mut b: Blackboard<f64> = Blackboard::default();
    let p = b.alloc_slot(1.5);
    let q = b.alloc_slot(-2.0);
    assert_eq!(b.get(p), 1.5);
    assert_eq!(b.get(q), -2.0);
    assert!(b.holds(p) && b.holds(q));
    let mut other: Blackboard<f64> = Blackboard::new();
    let r = other.alloc_slot(0.0);
    let _ = other.alloc_slot(0.0);
    let s = other.alloc_slot(0.0);
    assert!(b.holds(r));
    assert!(!b.holds(s));
    b.set(p, 3.25);
    assert_eq!(b.get(p), 3.25);
    assert_eq!(b.get(q), -2.0);
}

fn two_rate_kernel() -> Kernel {
    let mut k = Kernel::new(3);
    k.add(&vec![Trigger::Periodic { period: SimDuration::from_millis(1), offset: SimDuration::from_micros(200) }]);
    k.add(&vec![Trigger::Periodic { period: SimDuration::from_millis(10), offset: SimDuration::from_micros(1_600) }]);
    k
}

fn run_to(k: &mut Kernel, end: SimTime, seen: &mut Vec<Entry>) {
    let mut none: Vec<Entry> = Vec::new();
    while let Some(e) = k.pop_due(end) {
        seen.push(e);
        k.complete(e, &mut none);
    }
}

#[test]
fn running_in_chunks_hands_out_the_same_executions() {
    let mut whole = two_rate_kernel();
    let mut one_run = Vec::new();
    run_to(&mut whole, at(25_000_000), &mut one_run);

    let mut chunked = two_rate_kernel();
    let mut in_chunks = Vec::new();
    for end_ms in [3u64, 3, 11, 12, 25] {
        run_to(&mut chunked, at(end_ms * 1_000_000), &mut in_chunks);
    }
    assert_eq!(one_run.len(), 25 + 3);
    assert_eq!(in_chunks, one_run);
    for w in one_run.windows(2) {
        assert!(w[0].le(&w[1]) && w[0] != w[1]);
    }
    assert_eq!(chunked.now(), whole.now());
    assert_eq!(whole.now().as_nanos(), 24_200_000);
}
