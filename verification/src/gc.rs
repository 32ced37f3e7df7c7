use vstd::prelude::*;

use crate::gc_object::GCObject;

verus! {

/// One managed heap cell: the collector's mark bit plus the payload. A live
/// cell holds exactly one value; a freed cell holds nothing. Cells are
/// created by allocation and destroyed only by an explicit free or by the
/// collector's sweep phase.
#[allow(non_camel_case_types)]
pub struct uGc<T> {
    pub marked: bool,
    pub value: Option<T>,
}

impl<T> uGc<T> {
    /// Whether this cell still holds its payload (has not been freed).
    pub open spec fn is_live(&self) -> bool {
        self.value is Some
    }

    /// The payload of a live cell.
    pub open spec fn payload(&self) -> T {
        self.value->Some_0
    }

    /// Move `a` onto the heap: a fresh, live, unmarked cell holding `a`.
    pub fn new(a: T) -> (g: uGc<T>)
        ensures
            !g.marked,
            g.is_live(),
            g.payload() == a,
    {
        uGc { marked: false, value: Some(a) }
    }

    /// Run the payload's destructor and release the cell. A cell can be
    /// freed at most once: freeing requires that it is still live, so a
    /// double free is ruled out structurally.
    pub fn free(&mut self)
        requires
            old(self).is_live(),
        ensures
            !final(self).is_live(),
            final(self).marked == old(self).marked,
    {
        self.value = None;
    }

    /// Read access to the payload; a freed cell can never be dereferenced.
    pub fn deref(&self) -> (r: &T)
        requires
            self.is_live(),
        ensures
            *r == self.payload(),
    {
        self.value.as_ref().unwrap()
    }

    /// Overwrite the payload of a live cell.
    pub fn set(&mut self, a: T)
        requires
            old(self).is_live(),
        ensures
            final(self).is_live(),
            final(self).payload() == a,
            final(self).marked == old(self).marked,
    {
        self.value = Some(a);
    }

    /// Whether this cell is live, decided at run time.
    pub fn live(&self) -> (r: bool)
        ensures
            r == self.is_live(),
    {
        self.value.is_some()
    }
}

/// The object graph of a heap: for each address, `Some` of the addresses the
/// live cell there directly references, or `None` for a freed cell.
pub open spec fn heap_graph<T: GCObject>(cells: Seq<uGc<T>>) -> Seq<Option<Seq<usize>>> {
    Seq::new(cells.len(), |i: int| if cells[i].is_live() {
        Some(cells[i].payload().refs())
    } else {
        None
    })
}

/// What the object graph holds at one address.
proof fn lemma_heap_graph_index<T: GCObject>(cells: Seq<uGc<T>>, a: usize)
    requires
        a < cells.len(),
    ensures
        heap_graph(cells).len() == cells.len(),
        cells[a as int].is_live() ==> heap_graph(cells)[a as int] == Some(
            cells[a as int].payload().refs(),
        ),
        !cells[a as int].is_live() ==> heap_graph(cells)[a as int] is None,
{
}

/// A live cell at `b` directly references address `a`.
pub open spec fn edge(g: Seq<Option<Seq<usize>>>, b: usize, a: usize) -> bool {
    b < g.len() && g[b as int] is Some && g[b as int]->0.contains(a)
}

/// One propagation step: everything in `s`, plus everything a live cell in
/// `s` directly references.
pub open spec fn expand(g: Seq<Option<Seq<usize>>>, s: Set<usize>) -> Set<usize> {
    Set::new(|a: usize| s.contains(a) || (exists|b: usize| #[trigger] s.contains(b) && edge(g, b, a)))
}

/// The addresses reachable from the root set within `fuel` edge steps.
pub open spec fn reach_upto(g: Seq<Option<Seq<usize>>>, roots: Seq<usize>, fuel: nat) -> Set<usize>
    decreases fuel,
{
    if fuel == 0 {
        Set::new(|a: usize| roots.contains(a))
    } else {
        expand(g, reach_upto(g, roots, (fuel - 1) as nat))
    }
}

/// Address `a` is reachable from the root set through live cells.
pub open spec fn reachable(g: Seq<Option<Seq<usize>>>, roots: Seq<usize>, a: usize) -> bool {
    exists|fuel: nat| reach_upto(g, roots, fuel).contains(a)
}

/// No premature collection: every root is reachable, so by the contract of
/// `Heap::collect` a cell that is live and rooted when a cycle starts
/// survives that cycle, whether or not any other handle to it exists.
pub proof fn lemma_roots_reachable(g: Seq<Option<Seq<usize>>>, roots: Seq<usize>, a: usize)
    requires
        roots.contains(a),
    ensures
        reachable(g, roots, a),
{
    assert(reach_upto(g, roots, 0).contains(a));
}

/// Reachability steps across one edge: if `b` is reachable and the live cell
/// at `b` directly references `a`, then `a` is reachable.
pub proof fn lemma_step_reachable(
    g: Seq<Option<Seq<usize>>>,
    roots: Seq<usize>,
    b: usize,
    a: usize,
)
    requires
        reachable(g, roots, b),
        edge(g, b, a),
    ensures
        reachable(g, roots, a),
{
    let fuel = choose|fuel: nat| reach_upto(g, roots, fuel).contains(b);
    let r = reach_upto(g, roots, fuel);
    assert(r.contains(b) && edge(g, b, a));
    assert(reach_upto(g, roots, fuel + 1).contains(a));
}

/// Cycle safety: a component `s` of the address space that contains no root
/// and that no live cell outside `s` references is unreachable in its
/// entirety, however its members reference one another. Together with the
/// contract of `Heap::collect`, every such component is reclaimed in one
/// collection cycle.
pub proof fn lemma_unrooted_component_unreachable(
    g: Seq<Option<Seq<usize>>>,
    roots: Seq<usize>,
    s: Set<usize>,
    a: usize,
)
    requires
        forall|r: usize| roots.contains(r) ==> !s.contains(r),
        forall|b: usize, c: usize|
            !s.contains(b) && #[trigger] edge(g, b, c) ==> !s.contains(c),
        s.contains(a),
    ensures
        !reachable(g, roots, a),
{
    assert forall|fuel: nat| !(#[trigger] reach_upto(g, roots, fuel).contains(a)) by {
        lemma_unrooted_component_no_fuel(g, roots, s, a, fuel);
    }
}

proof fn lemma_unrooted_component_no_fuel(
    g: Seq<Option<Seq<usize>>>,
    roots: Seq<usize>,
    s: Set<usize>,
    a: usize,
    fuel: nat,
)
    requires
        forall|r: usize| roots.contains(r) ==> !s.contains(r),
        forall|b: usize, c: usize|
            !s.contains(b) && #[trigger] edge(g, b, c) ==> !s.contains(c),
        s.contains(a),
    ensures
        !reach_upto(g, roots, fuel).contains(a),
    decreases fuel,
{
    if fuel > 0 && reach_upto(g, roots, fuel).contains(a) {
        let prev = reach_upto(g, roots, (fuel - 1) as nat);
        if prev.contains(a) {
            lemma_unrooted_component_no_fuel(g, roots, s, a, (fuel - 1) as nat);
        } else {
            let b = choose|b: usize| #[trigger] prev.contains(b) && edge(g, b, a);
            if s.contains(b) {
                lemma_unrooted_component_no_fuel(g, roots, s, b, (fuel - 1) as nat);
            } else {
                assert(!s.contains(a));
            }
        }
    }
}

/// The number of marked cells among the first `n`.
spec fn marked_count<T>(cells: Seq<uGc<T>>, n: int) -> int
    decreases n,
{
    if n <= 0 {
        0
    } else {
        marked_count(cells, n - 1) + (if cells[n - 1].marked {
            1int
        } else {
            0int
        })
    }
}

proof fn lemma_marked_count_bounds<T>(cells: Seq<uGc<T>>, n: int)
    requires
        0 <= n <= cells.len(),
    ensures
        0 <= marked_count(cells, n) <= n,
    decreases n,
{
    if n > 0 {
        lemma_marked_count_bounds(cells, n - 1);
    }
}

proof fn lemma_marked_count_grows<T>(c1: Seq<uGc<T>>, c2: Seq<uGc<T>>, i: usize, n: int)
    requires
        c1.len() == c2.len(),
        (i as int) < c1.len(),
        0 <= n <= c1.len(),
        forall|j: int| 0 <= j < c1.len() && j != i as int ==> c2[j].marked == c1[j].marked,
        !c1[i as int].marked,
        c2[i as int].marked,
    ensures
        marked_count(c2, n) == marked_count(c1, n) + (if (i as int) < n {
            1int
        } else {
            0int
        }),
    decreases n,
{
    if n > 0 {
        lemma_marked_count_grows(c1, c2, i, n - 1);
    }
}

proof fn lemma_marked_count_same<T>(c1: Seq<uGc<T>>, c2: Seq<uGc<T>>, n: int)
    requires
        0 <= n <= c1.len(),
        c1.len() == c2.len(),
        forall|j: int| 0 <= j < c1.len() ==> c2[j].marked == c1[j].marked,
    ensures
        marked_count(c2, n) == marked_count(c1, n),
    decreases n,
{
    if n > 0 {
        lemma_marked_count_same(c1, c2, n - 1);
    }
}

/// If the root set is marked, and the marked cells are closed under the
/// reference relation, then every live cell reachable from the roots (in the
/// graph `cells0` had) is marked. `cells` and `cells0` agree on liveness and
/// payloads and may differ in mark bits only.
proof fn lemma_reaches_marked<T: GCObject>(
    cells0: Seq<uGc<T>>,
    cells: Seq<uGc<T>>,
    roots: Seq<usize>,
    a: usize,
    fuel: nat,
)
    requires
        cells.len() == cells0.len(),
        forall|i: int| 0 <= i < cells.len() ==> cells[i].is_live() == cells0[i].is_live(),
        forall|i: int|
            0 <= i < cells.len() && cells[i].is_live() ==> cells[i].payload() == cells0[i].payload(),
        forall|r: usize|
            roots.contains(r) && r < cells.len() && cells[r as int].is_live()
                ==> cells[r as int].marked,
        forall|b: usize, c: usize|
            b < cells.len() && cells[b as int].marked && cells[b as int].is_live()
                && (#[trigger] cells[b as int].payload().refs().contains(c))
                && c < cells.len() && cells[c as int].is_live()
                ==> cells[c as int].marked,
        reach_upto(heap_graph(cells0), roots, fuel).contains(a),
        a < cells.len(),
        cells[a as int].is_live(),
    ensures
        cells[a as int].marked,
    decreases fuel,
{
    let g = heap_graph(cells0);
    if fuel == 0 {
        assert(roots.contains(a));
    } else {
        let prev = reach_upto(g, roots, (fuel - 1) as nat);
        if prev.contains(a) {
            lemma_reaches_marked(cells0, cells, roots, a, (fuel - 1) as nat);
        } else {
            let b = choose|b: usize| #[trigger] prev.contains(b) && edge(g, b, a);
            assert(cells0[b as int].is_live());
            lemma_reaches_marked(cells0, cells, roots, b, (fuel - 1) as nat);
            assert(cells[b as int].payload().refs().contains(a));
        }
    }
}

/// One collector/runtime instance: the allocation registry every managed
/// cell lives in (the ground truth sweep walks), together with the
/// allocation counter and threshold that decide when a collection cycle is
/// due. Addresses are indices into the registry and are never reused while
/// the heap exists.
pub struct Heap<T> {
    cells: Vec<uGc<T>>,
    allocs_since_collect: usize,
    threshold: usize,
}

impl<T: GCObject> Heap<T> {
    /// The registry of all allocations ever made on this heap.
    pub closed spec fn cell_seq(&self) -> Seq<uGc<T>> {
        self.cells@
    }

    /// The number of addresses ever allocated.
    pub open spec fn size(&self) -> nat {
        self.cell_seq().len()
    }

    /// `a` is an address this heap has handed out.
    pub open spec fn valid(&self, a: usize) -> bool {
        a < self.size()
    }

    /// The cell at `a` is still live (not yet reclaimed).
    pub open spec fn live(&self, a: usize) -> bool {
        self.valid(a) && self.cell_seq()[a as int].is_live()
    }

    /// The cell at `a` carries the collector's mark bit.
    pub open spec fn marked(&self, a: usize) -> bool {
        self.valid(a) && self.cell_seq()[a as int].marked
    }

    /// The payload stored at live address `a`.
    pub open spec fn value_at(&self, a: usize) -> T {
        self.cell_seq()[a as int].payload()
    }

    /// The object graph this heap currently forms.
    pub open spec fn graph(&self) -> Seq<Option<Seq<usize>>> {
        heap_graph(self.cell_seq())
    }

    /// Allocations counted since the last collection cycle.
    pub closed spec fn allocs(&self) -> nat {
        self.allocs_since_collect as nat
    }

    /// The configured allocation-count threshold.
    pub closed spec fn gc_threshold(&self) -> nat {
        self.threshold as nat
    }

    /// A fresh, empty heap whose collection trigger fires after `threshold`
    /// allocations.
    pub fn new(threshold: usize) -> (h: Heap<T>)
        ensures
            h.size() == 0,
            h.allocs() == 0,
            h.gc_threshold() == threshold,
    {
        Heap { cells: Vec::new(), allocs_since_collect: 0, threshold }
    }

    /// Whether enough allocations have happened that a collection cycle is
    /// due at the next safe point.
    pub fn should_collect(&self) -> (r: bool)
        ensures
            r == (self.allocs() >= self.gc_threshold()),
    {
        self.allocs_since_collect >= self.threshold
    }

    /// Move `a` onto the heap: the fresh cell is live, unmarked, and sits at
    /// the next never-used address; no existing cell changes.
    pub fn allocate(&mut self, a: T) -> (addr: usize)
        ensures
            addr == old(self).size(),
            final(self).size() == old(self).size() + 1,
            final(self).live(addr),
            !final(self).marked(addr),
            final(self).value_at(addr) == a,
            forall|b: usize|
                b < old(self).size() ==> #[trigger] final(self).cell_seq()[b as int]
                    == old(self).cell_seq()[b as int],
            final(self).gc_threshold() == old(self).gc_threshold(),
            old(self).allocs() < usize::MAX ==> final(self).allocs() == old(self).allocs() + 1,
            old(self).allocs() == usize::MAX ==> final(self).allocs() == old(self).allocs(),
    {
        let addr = self.cells.len();
        self.cells.push(uGc::new(a));
        if self.allocs_since_collect < usize::MAX {
            self.allocs_since_collect = self.allocs_since_collect + 1;
        }
        addr
    }

    /// Read access to the payload at a live address.
    pub fn get(&self, addr: usize) -> (r: &T)
        requires
            self.live(addr),
        ensures
            *r == self.value_at(addr),
    {
        self.cells[addr].deref()
    }

    /// Overwrite the payload at a live address; no other cell changes.
    pub fn set(&mut self, addr: usize, a: T)
        requires
            old(self).live(addr),
        ensures
            final(self).size() == old(self).size(),
            final(self).live(addr),
            final(self).value_at(addr) == a,
            final(self).marked(addr) == old(self).marked(addr),
            forall|b: usize|
                b < old(self).size() && b != addr ==> #[trigger] final(self).cell_seq()[b as int]
                    == old(self).cell_seq()[b as int],
            final(self).allocs() == old(self).allocs(),
            final(self).gc_threshold() == old(self).gc_threshold(),
    {
        self.cells[addr].set(a);
    }

    /// Whether the cell at `addr` is live, decided at run time.
    pub fn live_at(&self, addr: usize) -> (r: bool)
        ensures
            r == self.live(addr),
    {
        addr < self.cells.len() && self.cells[addr].live()
    }

    /// Mark one address: if it denotes a live, not-yet-marked cell, set its
    /// mark bit and append it to the propagation worklist; otherwise change
    /// nothing. Marking the same address again within one cycle therefore
    /// appends it to the worklist exactly once.
    pub fn mark(&mut self, addr: usize, worklist: &mut Vec<usize>)
        ensures
            final(self).size() == old(self).size(),
            final(self).allocs() == old(self).allocs(),
            final(self).gc_threshold() == old(self).gc_threshold(),
            old(self).live(addr) && !old(self).marked(addr) ==> final(self).cell_seq() == old(
                self,
            ).cell_seq().update(
                addr as int,
                (uGc { marked: true, ..old(self).cell_seq()[addr as int] }),
            ) && final(worklist)@ == old(worklist)@.push(addr),
            !(old(self).live(addr) && !old(self).marked(addr)) ==> final(self).cell_seq() == old(
                self,
            ).cell_seq() && final(worklist)@ == old(worklist)@,
    {
        if addr < self.cells.len() {
            if self.cells[addr].live() && !self.cells[addr].marked {
                self.cells[addr].marked = true;
                worklist.push(addr);
            }
        }
    }

    /// One full stop-the-world collection cycle over the given root set:
    /// mark every address reachable from a root, then sweep the whole
    /// allocation registry. Afterwards a cell is live exactly when it was
    /// live before and reachable from the roots in the object graph the heap
    /// had when the cycle started; every surviving cell keeps its payload and
    /// its mark bit is reset, every unreachable cell has been freed (its
    /// destructor ran exactly once), and the allocation counter starts over.
    pub fn collect(&mut self, roots: &Vec<usize>)
        requires
            forall|a: usize| a < old(self).size() ==> !old(self).marked(a),
        ensures
            final(self).size() == old(self).size(),
            forall|a: usize|
                a < old(self).size() ==> (final(self).live(a) <==> old(self).live(a) && reachable(
                    old(self).graph(),
                    roots@,
                    a,
                )),
            forall|a: usize|
                a < old(self).size() && final(self).live(a) ==> final(self).value_at(a) == old(
                    self,
                ).value_at(a),
            forall|a: usize| a < old(self).size() ==> !final(self).marked(a),
            final(self).allocs() == 0,
            final(self).gc_threshold() == old(self).gc_threshold(),
    {
        let ghost cells0 = self.cells@;
        let ghost g0 = heap_graph(cells0);
        let n = self.cells.len();
        let mut worklist: Vec<usize> = Vec::new();
        proof {
            assert(g0.len() == cells0.len());
            assert forall|a: usize| a < cells0.len() implies !cells0[a as int].marked by {
                assert(!old(self).marked(a));
            }
        }

        // Mark phase, seeding: mark every root.
        let mut ri: usize = 0;
        while ri < roots.len()
            invariant
                ri <= roots@.len(),
                n == cells0.len(),
                self.cells@.len() == cells0.len(),
                g0 == heap_graph(cells0),
                forall|i: int|
                    0 <= i < cells0.len() ==> (#[trigger] self.cells@[i]).is_live() == cells0[i].is_live(),
                forall|i: int|
                    0 <= i < cells0.len() && cells0[i].is_live() ==> (#[trigger] self.cells@[i]).payload() == cells0[i].payload(),
                forall|a: usize|
                    a < cells0.len() && (#[trigger] self.cells@[a as int].marked) ==> self.cells@[a as int].is_live() && reachable(g0, roots@, a) && worklist@.contains(a),
                forall|k: int|
                    0 <= k < worklist@.len() ==> (#[trigger] worklist@[k]) < cells0.len()
                        && self.cells@[worklist@[k] as int].marked,
                forall|k: int|
                    0 <= k < ri ==> ((#[trigger] roots@[k]) < cells0.len() && self.cells@[roots@[k] as int].is_live() ==> self.cells@[roots@[k] as int].marked),
                self.allocs() == old(self).allocs(),
                self.gc_threshold() == old(self).gc_threshold(),
            decreases roots@.len() - ri,
        {
            let r = roots[ri];
            let ghost wl_pre = worklist@;
            let ghost cells_pre = self.cells@;
            proof {
                assert(roots@[ri as int] == r);
                assert(roots@.contains(r));
                lemma_roots_reachable(g0, roots@, r);
            }
            self.mark(r, &mut worklist);
            proof {
                assert forall|a: usize|
                    a < cells0.len() && (#[trigger] self.cells@[a as int].marked) implies self.cells@[a as int].is_live() && reachable(g0, roots@, a) && worklist@.contains(a) by {
                    if cells_pre[a as int].marked {
                        let j = choose|j: int| 0 <= j < wl_pre.len() && wl_pre[j] == a;
                        assert(worklist@[j] == a);
                    } else {
                        assert(a == r);
                        assert(worklist@ == wl_pre.push(r));
                        assert(worklist@[wl_pre.len() as int] == a);
                    }
                }
            }
            ri += 1;
        }

        // Mark phase, propagation: drain the worklist, collecting the direct
        // references of each marked cell and marking them in turn.
        while worklist.len() > 0
            invariant
                n == cells0.len(),
                self.cells@.len() == cells0.len(),
                g0 == heap_graph(cells0),
                forall|i: int|
                    0 <= i < cells0.len() ==> (#[trigger] self.cells@[i]).is_live() == cells0[i].is_live(),
                forall|i: int|
                    0 <= i < cells0.len() && cells0[i].is_live() ==> (#[trigger] self.cells@[i]).payload() == cells0[i].payload(),
                forall|a: usize|
                    a < cells0.len() && (#[trigger] self.cells@[a as int].marked) ==> self.cells@[a as int].is_live() && reachable(g0, roots@, a),
                forall|k: int|
                    0 <= k < worklist@.len() ==> (#[trigger] worklist@[k]) < cells0.len()
                        && self.cells@[worklist@[k] as int].marked,
                forall|b: usize, c: usize|
                    b < cells0.len() && self.cells@[b as int].marked && !worklist@.contains(b) && (
                    #[trigger] self.cells@[b as int].payload().refs().contains(c)) && c
                        < cells0.len() && self.cells@[c as int].is_live() ==> self.cells@[c as int].marked,
                forall|r: usize|
                    roots@.contains(r) && r < cells0.len() && (#[trigger] self.cells@[r as int].is_live()) ==> self.cells@[r as int].marked,
                self.allocs() == old(self).allocs(),
                self.gc_threshold() == old(self).gc_threshold(),
            decreases 2 * (cells0.len() - marked_count(self.cells@, cells0.len() as int))
                + worklist@.len(),
        {
            proof {
                lemma_marked_count_bounds(self.cells@, cells0.len() as int);
            }
            let ghost cells_entry = self.cells@;
            let ghost wl_entry = worklist@;
            let addr = worklist.pop().unwrap();
            proof {
                assert(wl_entry[wl_entry.len() - 1] == addr);
                assert(addr < cells0.len() && self.cells@[addr as int].marked);
                assert(self.cells@[addr as int].is_live());
                assert forall|j: int|
                    0 <= j < wl_entry.len() - 1 implies worklist@.contains(
                    #[trigger] wl_entry[j],
                ) by {
                    assert(worklist@[j] == wl_entry[j]);
                }
            }

            let mut refs_list: Vec<usize> = Vec::new();
            self.cells[addr].deref().collect_references(&mut refs_list);
            proof {
                assert(refs_list@ =~= self.cells@[addr as int].payload().refs());
            }

            let mut k: usize = 0;
            while k < refs_list.len()
                invariant
                    k <= refs_list@.len(),
                    n == cells0.len(),
                    self.cells@.len() == cells0.len(),
                    g0 == heap_graph(cells0),
                    addr < cells0.len(),
                    self.cells@[addr as int].marked,
                    self.cells@[addr as int].is_live(),
                    refs_list@ == self.cells@[addr as int].payload().refs(),
                    forall|i: int|
                        0 <= i < cells0.len() ==> (#[trigger] self.cells@[i]).is_live() == cells0[i].is_live(),
                    forall|i: int|
                        0 <= i < cells0.len() && cells0[i].is_live() ==> (#[trigger] self.cells@[i]).payload() == cells0[i].payload(),
                    forall|a: usize|
                        a < cells0.len() && (#[trigger] self.cells@[a as int].marked)
                            ==> self.cells@[a as int].is_live() && reachable(g0, roots@, a),
                    forall|k2: int|
                        0 <= k2 < worklist@.len() ==> (#[trigger] worklist@[k2]) < cells0.len()
                            && self.cells@[worklist@[k2] as int].marked,
                    // marks only grow within this iteration
                    forall|a: usize|
                        a < cells0.len() && (#[trigger] cells_entry[a as int].marked)
                            ==> self.cells@[a as int].marked,
                    // anything marked during this iteration is on the worklist
                    forall|a: usize|
                        a < cells0.len() && (#[trigger] self.cells@[a as int].marked)
                            && !cells_entry[a as int].marked ==> worklist@.contains(a),
                    // entries of the popped worklist other than the last stay on it
                    forall|j: int|
                        0 <= j < wl_entry.len() - 1 ==> worklist@.contains(#[trigger] wl_entry[j]),
                    // closure holds for every cell processed in earlier iterations
                    forall|b: usize, c: usize|
                        b < cells0.len() && cells_entry[b as int].marked && !wl_entry.contains(b)
                            && (#[trigger] self.cells@[b as int].payload().refs().contains(c)) && c
                            < cells0.len() && self.cells@[c as int].is_live() ==> self.cells@[c as int].marked,
                    // the references handled so far are marked
                    forall|j: int|
                        0 <= j < k ==> (((#[trigger] refs_list@[j]) < cells0.len() && self.cells@[refs_list@[j] as int].is_live()) ==> self.cells@[refs_list@[j] as int].marked),
                    forall|r: usize|
                        roots@.contains(r) && r < cells0.len() && (#[trigger] self.cells@[r as int].is_live()) ==> self.cells@[r as int].marked,
                    2 * (cells0.len() - marked_count(self.cells@, cells0.len() as int))
                        + worklist@.len() <= 2 * (cells0.len() - marked_count(
                        cells_entry,
                        cells0.len() as int,
                    )) + wl_entry.len() - 1,
                    self.allocs() == old(self).allocs(),
                    self.gc_threshold() == old(self).gc_threshold(),
                decreases refs_list@.len() - k,
            {
                let r = refs_list[k];
                let ghost cells_mid = self.cells@;
                let ghost wl_mid = worklist@;
                proof {
                    assert(refs_list@[k as int] == r);
                    assert(cells0[addr as int].is_live());
                    assert(cells0[addr as int].payload() == self.cells@[addr as int].payload());
                    lemma_heap_graph_index(cells0, addr);
                    assert(g0[addr as int] == Some(cells0[addr as int].payload().refs()));
                    assert(cells0[addr as int].payload().refs().contains(r));
                    assert(edge(g0, addr, r));
                    assert(reachable(g0, roots@, addr));
                    lemma_step_reachable(g0, roots@, addr, r);
                }
                self.mark(r, &mut worklist);
                proof {
                    if r < cells0.len() && cells_mid[r as int].is_live() && !cells_mid[r as int].marked {
                        assert(self.cells@ == cells_mid.update(
                            r as int,
                            (uGc { marked: true, ..cells_mid[r as int] }),
                        ));
                        assert(worklist@ == wl_mid.push(r));
                        lemma_marked_count_grows(cells_mid, self.cells@, r, cells0.len() as int);
                        assert forall|j: int|
                            0 <= j < wl_entry.len() - 1 implies worklist@.contains(
                            #[trigger] wl_entry[j],
                        ) by {
                            let j2 = choose|j2: int|
                                0 <= j2 < wl_mid.len() && wl_mid[j2] == wl_entry[j];
                            assert(worklist@[j2] == wl_entry[j]);
                        }
                        assert forall|a: usize|
                            a < cells0.len() && (#[trigger] self.cells@[a as int].marked)
                                && !cells_entry[a as int].marked implies worklist@.contains(a) by {
                            if a == r {
                                assert(worklist@[wl_mid.len() as int] == a);
                            } else {
                                let j3 = choose|j3: int|
                                    0 <= j3 < wl_mid.len() && wl_mid[j3] == a;
                                assert(worklist@[j3] == a);
                            }
                        }
                    } else {
                        assert(self.cells@ == cells_mid);
                        assert(worklist@ == wl_mid);
                        lemma_marked_count_same(cells_mid, self.cells@, cells0.len() as int);
                    }
                }
                k += 1;
            }

            // Re-establish the closure invariant, now including the popped cell.
            proof {
                lemma_marked_count_bounds(self.cells@, cells0.len() as int);
                assert forall|b: usize, c: usize|
                    b < cells0.len() && self.cells@[b as int].marked && !worklist@.contains(b) && (
                    #[trigger] self.cells@[b as int].payload().refs().contains(c)) && c
                        < cells0.len() && self.cells@[c as int].is_live() implies self.cells@[c as int].marked by {
                    if b == addr {
                        let j = choose|j: int| 0 <= j < refs_list@.len() && refs_list@[j] == c;
                        assert(refs_list@[j] == c);
                    } else {
                        if !cells_entry[b as int].marked {
                            assert(worklist@.contains(b));
                        } else if wl_entry.contains(b) {
                            let j2 = choose|j2: int| 0 <= j2 < wl_entry.len() && wl_entry[j2] == b;
                            if j2 < wl_entry.len() - 1 {
                                assert(worklist@.contains(wl_entry[j2]));
                            } else {
                                assert(b == addr);
                            }
                        }
                    }
                }
            }
        }

        let ghost cells_m = self.cells@;

        // The mark phase is complete: the marked cells are exactly the live
        // cells reachable from the roots.
        proof {
            assert forall|a: usize|
                a < cells0.len() implies (cells_m[a as int].marked <==> cells_m[a as int].is_live()
                && reachable(g0, roots@, a)) by {
                if cells_m[a as int].is_live() && reachable(g0, roots@, a) {
                    let fuel = choose|fuel: nat| reach_upto(g0, roots@, fuel).contains(a);
                    lemma_reaches_marked(cells0, self.cells@, roots@, a, fuel);
                }
            }
        }

        // Sweep phase: free every unmarked cell, reset every mark bit.
        let mut i: usize = 0;
        while i < n
            invariant
                i <= n,
                n == cells0.len(),
                self.cells@.len() == cells0.len(),
                g0 == heap_graph(cells0),
                cells_m.len() == cells0.len(),
                forall|i2: int|
                    0 <= i2 < cells0.len() ==> (#[trigger] cells_m[i2]).is_live() == cells0[i2].is_live(),
                forall|i2: int|
                    0 <= i2 < cells0.len() && cells0[i2].is_live() ==> (#[trigger] cells_m[i2]).payload() == cells0[i2].payload(),
                forall|a: usize|
                    a < cells0.len() ==> ((#[trigger] cells_m[a as int].marked) <==> cells_m[a as int].is_live() && reachable(g0, roots@, a)),
                forall|i2: int| i <= i2 < cells0.len() ==> #[trigger] self.cells@[i2] == cells_m[i2],
                forall|a: usize| a < i ==> !(#[trigger] self.cells@[a as int].marked),
                forall|a: usize|
                    a < i ==> ((#[trigger] self.cells@[a as int].is_live()) <==> cells_m[a as int].marked),
                forall|a: usize|
                    a < i && (#[trigger] self.cells@[a as int].is_live()) ==> self.cells@[a as int].payload() == cells_m[a as int].payload(),
                self.allocs() == old(self).allocs(),
                self.gc_threshold() == old(self).gc_threshold(),
            decreases n - i,
        {
            if self.cells[i].marked {
                self.cells[i].marked = false;
            } else if self.cells[i].live() {
                self.cells[i].free();
            }
            i += 1;
        }
        self.allocs_since_collect = 0;
    }
}

} // verus!
