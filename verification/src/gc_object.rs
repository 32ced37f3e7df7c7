use vstd::prelude::*;

verus! {

/// Capability contract every heap-resident runtime value must implement:
/// given a worklist of addresses, append the address of every heap cell the
/// value directly references (directly, not transitively: propagation is the
/// collector's job). Leaf value types hold no outgoing references, so their
/// implementation is a no-op.
pub trait GCObject {
    /// The addresses of every heap cell this value directly references.
    spec fn refs(&self) -> Seq<usize>;

    /// Append the address of every directly referenced heap cell to
    /// `to_mark`, and do nothing else.
    fn collect_references(&self, to_mark: &mut Vec<usize>)
        ensures
            final(to_mark)@ == old(to_mark)@ + self.refs(),
    ;
}

impl GCObject for u64 {
    open spec fn refs(&self) -> Seq<usize> {
        Seq::empty()
    }

    fn collect_references(&self, to_mark: &mut Vec<usize>) {
        proof {
            assert(to_mark@ =~= old(to_mark)@ + Seq::<usize>::empty());
        }
    }
}

impl GCObject for usize {
    open spec fn refs(&self) -> Seq<usize> {
        Seq::empty()
    }

    fn collect_references(&self, to_mark: &mut Vec<usize>) {
        proof {
            assert(to_mark@ =~= old(to_mark)@ + Seq::<usize>::empty());
        }
    }
}

impl GCObject for i64 {
    open spec fn refs(&self) -> Seq<usize> {
        Seq::empty()
    }

    fn collect_references(&self, to_mark: &mut Vec<usize>) {
        proof {
            assert(to_mark@ =~= old(to_mark)@ + Seq::<usize>::empty());
        }
    }
}

impl GCObject for String {
    open spec fn refs(&self) -> Seq<usize> {
        Seq::empty()
    }

    fn collect_references(&self, to_mark: &mut Vec<usize>) {
        proof {
            assert(to_mark@ =~= old(to_mark)@ + Seq::<usize>::empty());
        }
    }
}

impl GCObject for bool {
    open spec fn refs(&self) -> Seq<usize> {
        Seq::empty()
    }

    fn collect_references(&self, to_mark: &mut Vec<usize>) {
        proof {
            assert(to_mark@ =~= old(to_mark)@ + Seq::<usize>::empty());
        }
    }
}

} // verus!
