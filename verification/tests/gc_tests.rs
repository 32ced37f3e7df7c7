use ugc_runtime::byte_code::ByteCodeValue;
use ugc_runtime::gc::{uGc, Heap};

#[test]
fn cell_new_is_live_and_unmarked() {
    let g: uGc<u64> = uGc::new(7);
    assert!(!g.marked);
    assert!(g.live());
    assert_eq!(*g.deref(), 7);
}

#[test]
fn cell_free_runs_once() {
    let mut g: uGc<String> = uGc::new(String::from("payload"));
    assert!(g.live());
    g.free();
    assert!(!g.live());
}

#[test]
fn cell_set_overwrites_payload() {
    let mut g: uGc<i64> = uGc::new(-3);
    g.set(11);
    assert!(g.live());
    assert_eq!(*g.deref(), 11);
}

#[test]
fn allocate_returns_fresh_addresses() {
    let mut heap: Heap<u64> = Heap::new(8);
    let a = heap.allocate(1);
    let b = heap.allocate(2);
    let c = heap.allocate(3);
    assert_eq!(a, 0);
    assert_eq!(b, 1);
    assert_eq!(c, 2);
    assert!(heap.live_at(a) && heap.live_at(b) && heap.live_at(c));
    assert_eq!(*heap.get(b), 2);
}

#[test]
fn heap_set_and_get() {
    let mut heap: Heap<u64> = Heap::new(8);
    let a = heap.allocate(5);
    heap.set(a, 42);
    assert_eq!(*heap.get(a), 42);
}

#[test]
fn should_collect_after_threshold() {
    let mut heap: Heap<u64> = Heap::new(2);
    assert!(!heap.should_collect());
    heap.allocate(1);
    assert!(!heap.should_collect());
    heap.allocate(2);
    assert!(heap.should_collect());
    heap.collect(&vec![]);
    assert!(!heap.should_collect());
}

#[test]
fn marking_twice_appends_once() {
    let mut heap: Heap<u64> = Heap::new(8);
    let a = heap.allocate(1);
    let mut worklist: Vec<usize> = Vec::new();
    heap.mark(a, &mut worklist);
    assert_eq!(worklist, vec![a]);
    heap.mark(a, &mut worklist);
    assert_eq!(worklist, vec![a]);
}

#[test]
fn mark_ignores_dead_and_unknown_addresses() {
    let mut heap: Heap<u64> = Heap::new(8);
    let a = heap.allocate(1);
    let mut worklist: Vec<usize> = Vec::new();
    heap.mark(a + 10, &mut worklist);
    assert!(worklist.is_empty());
    heap.collect(&vec![]);
    assert!(!heap.live_at(a));
    heap.mark(a, &mut worklist);
    assert!(worklist.is_empty());
}

#[test]
fn chain_reachable_from_root_survives() {
    // A references B, B references C, C references nothing.
    let mut heap: Heap<ByteCodeValue> = Heap::new(16);
    let c = heap.allocate(ByteCodeValue::Integer(5));
    let b = heap.allocate(ByteCodeValue::Handle(c));
    let a = heap.allocate(ByteCodeValue::Handle(b));
    heap.collect(&vec![a]);
    assert!(heap.live_at(a));
    assert!(heap.live_at(b));
    assert!(heap.live_at(c));
    // Payloads are unchanged by the cycle.
    assert!(matches!(*heap.get(c), ByteCodeValue::Integer(5)));
    assert!(matches!(*heap.get(b), ByteCodeValue::Handle(x) if x == c));
    // Remove A from the root set: the whole chain is reclaimed.
    heap.collect(&vec![]);
    assert!(!heap.live_at(a));
    assert!(!heap.live_at(b));
    assert!(!heap.live_at(c));
}

#[test]
fn unreachable_cell_is_reclaimed_reachable_kept() {
    let mut heap: Heap<ByteCodeValue> = Heap::new(16);
    let kept = heap.allocate(ByteCodeValue::Text(String::from("kept")));
    let dropped = heap.allocate(ByteCodeValue::Text(String::from("dropped")));
    heap.collect(&vec![kept]);
    assert!(heap.live_at(kept));
    assert!(!heap.live_at(dropped));
    assert!(matches!(heap.get(kept), ByteCodeValue::Text(s) if s == "kept"));
}

#[test]
fn unrooted_cycle_is_reclaimed_in_one_cycle() {
    let mut heap: Heap<ByteCodeValue> = Heap::new(16);
    // Two cells referencing each other, and one referencing itself.
    let a = heap.allocate(ByteCodeValue::Null);
    let b = heap.allocate(ByteCodeValue::Handle(a));
    heap.set(a, ByteCodeValue::Handle(b));
    let selfref = heap.allocate(ByteCodeValue::Null);
    heap.set(selfref, ByteCodeValue::Handle(selfref));
    heap.collect(&vec![]);
    assert!(!heap.live_at(a));
    assert!(!heap.live_at(b));
    assert!(!heap.live_at(selfref));
}

#[test]
fn rooted_cycle_survives() {
    let mut heap: Heap<ByteCodeValue> = Heap::new(16);
    let a = heap.allocate(ByteCodeValue::Null);
    let b = heap.allocate(ByteCodeValue::Handle(a));
    heap.set(a, ByteCodeValue::Handle(b));
    heap.collect(&vec![b]);
    assert!(heap.live_at(a));
    assert!(heap.live_at(b));
    // A second cycle with the same root changes nothing.
    heap.collect(&vec![b]);
    assert!(heap.live_at(a));
    assert!(heap.live_at(b));
}

#[test]
fn dead_root_stays_dead() {
    let mut heap: Heap<u64> = Heap::new(16);
    let a = heap.allocate(9);
    heap.collect(&vec![]);
    assert!(!heap.live_at(a));
    // Rooting a freed address does not revive it.
    heap.collect(&vec![a]);
    assert!(!heap.live_at(a));
}
