use vstd::prelude::*;

use crate::gc_object::GCObject;
use crate::span_identifier::SpanIdentifier;

verus! {

/// One bytecode instruction. The operand of a constant instruction indexes
/// the containing chunk's constants table.
#[derive(Clone, Copy, Debug, PartialEq, Eq, Structural)]
pub enum ByteCodeOp {
    /// Return with the operand at the given offset.
    Return(usize),
    /// Push the constant at the given index of the constants table.
    Constant(usize),
}

/// One runtime value a constants table can hold: a primitive, or a managed
/// handle into the collector's heap, named by its address.
pub enum ByteCodeValue {
    Integer(i64),
    Boolean(bool),
    Text(String),
    Null,
    Handle(usize),
}

impl GCObject for ByteCodeValue {
    open spec fn refs(&self) -> Seq<usize> {
        match self {
            ByteCodeValue::Handle(a) => seq![*a],
            _ => Seq::empty(),
        }
    }

    fn collect_references(&self, to_mark: &mut Vec<usize>) {
        match self {
            ByteCodeValue::Handle(a) => {
                to_mark.push(*a);
                proof {
                    assert(to_mark@ =~= old(to_mark)@ + self.refs());
                }
            },
            _ => {
                proof {
                    assert(to_mark@ =~= old(to_mark)@ + self.refs());
                }
            },
        }
    }
}

/// The constants-table index an operation carries, if any.
pub open spec fn constant_index_of(op: ByteCodeOp) -> Option<usize> {
    match op {
        ByteCodeOp::Constant(i) => Some(i),
        ByteCodeOp::Return(_) => None,
    }
}

/// One compiled unit: an append-only sequence of operations, the parallel
/// table of constant values they index, and the index-aligned table of
/// source spans used only for diagnostics. Built once by a compiler, then
/// read-only.
pub struct ByteCodeChunk {
    ops: Vec<ByteCodeOp>,
    constants: Vec<ByteCodeValue>,
    spans: Vec<SpanIdentifier>,
}

impl ByteCodeChunk {
    /// The operations in insertion order.
    pub closed spec fn ops(&self) -> Seq<ByteCodeOp> {
        self.ops@
    }

    /// The constants in insertion order; the index is the identity.
    pub closed spec fn constants(&self) -> Seq<ByteCodeValue> {
        self.constants@
    }

    /// The source spans, index-aligned with the operations.
    pub closed spec fn spans(&self) -> Seq<SpanIdentifier> {
        self.spans@
    }

    /// Structural invariant, kept by construction: the spans table is
    /// index-aligned with the operations table, and every constant-index
    /// operand lies inside the constants table.
    pub open spec fn well_formed(&self) -> bool {
        &&& self.spans().len() == self.ops().len()
        &&& forall|i: int|
            0 <= i < self.ops().len() ==> ((#[trigger] constant_index_of(
                self.ops()[i],
            )) matches Some(ci) ==> ci < self.constants().len())
    }

    /// An empty container.
    pub fn new() -> (c: ByteCodeChunk)
        ensures
            c.ops().len() == 0,
            c.constants().len() == 0,
            c.spans().len() == 0,
            c.well_formed(),
    {
        ByteCodeChunk { ops: Vec::new(), constants: Vec::new(), spans: Vec::new() }
    }

    /// Append a constant value and return its assigned index; indices grow
    /// monotonically and are never reused. Operations and spans are
    /// untouched, so alignment is kept.
    pub fn add_constant(&mut self, value: ByteCodeValue) -> (idx: usize)
        ensures
            idx == old(self).constants().len(),
            final(self).constants() == old(self).constants().push(value),
            final(self).ops() == old(self).ops(),
            final(self).spans() == old(self).spans(),
            old(self).well_formed() ==> final(self).well_formed(),
    {
        let idx = self.constants.len();
        self.constants.push(value);
        idx
    }

    /// Append an operation together with its source span; the two tables
    /// stay index-aligned. An operation that indexes the constants table
    /// must index an existing constant: anything else is a defect in the
    /// caller, not a recoverable condition, and is ruled out up front.
    pub fn add_operation(&mut self, op: ByteCodeOp, span: SpanIdentifier)
        requires
            constant_index_of(op) matches Some(ci) ==> ci < old(self).constants().len(),
        ensures
            final(self).ops() == old(self).ops().push(op),
            final(self).spans() == old(self).spans().push(span),
            final(self).constants() == old(self).constants(),
            old(self).well_formed() ==> final(self).well_formed(),
    {
        self.ops.push(op);
        self.spans.push(span);
    }

    /// The number of operations.
    pub fn op_count(&self) -> (n: usize)
        ensures
            n == self.ops().len(),
    {
        self.ops.len()
    }

    /// The number of constants.
    pub fn constant_count(&self) -> (n: usize)
        ensures
            n == self.constants().len(),
    {
        self.constants.len()
    }

    /// The number of source spans.
    pub fn span_count(&self) -> (n: usize)
        ensures
            n == self.spans().len(),
    {
        self.spans.len()
    }

    /// The operation at one index.
    pub fn get_op(&self, i: usize) -> (op: ByteCodeOp)
        requires
            i < self.ops().len(),
        ensures
            op == self.ops()[i as int],
    {
        self.ops[i]
    }

    /// The constant at one index.
    pub fn get_constant(&self, i: usize) -> (v: &ByteCodeValue)
        requires
            i < self.constants().len(),
        ensures
            *v == self.constants()[i as int],
    {
        &self.constants[i]
    }

    /// The source span recorded for one operation.
    pub fn get_span(&self, i: usize) -> (s: &SpanIdentifier)
        requires
            i < self.spans().len(),
        ensures
            *s == self.spans()[i as int],
    {
        &self.spans[i]
    }

    /// Append the heap address of every managed handle in the constants
    /// table to `roots`: this is the container's contribution to the
    /// collector's root set while it is on the call stack.
    pub fn collect_constant_roots(&self, roots: &mut Vec<usize>)
        ensures
            final(roots)@ == old(roots)@ + constants_refs(self.constants(), self.constants().len() as int),
    {
        let ghost roots0 = roots@;
        let mut i: usize = 0;
        while i < self.constants.len()
            invariant
                i <= self.constants@.len(),
                self.constants@ == self.constants(),
                roots@ == roots0 + constants_refs(self.constants(), i as int),
            decreases self.constants@.len() - i,
        {
            self.constants[i].collect_references(roots);
            proof {
                assert(roots@ =~= roots0 + constants_refs(self.constants(), i + 1));
            }
            i += 1;
        }
    }
}

/// The concatenated direct references of the first `n` constants.
pub open spec fn constants_refs(constants: Seq<ByteCodeValue>, n: int) -> Seq<usize>
    decreases n,
{
    if n <= 0 {
        Seq::empty()
    } else {
        constants_refs(constants, n - 1) + constants[n - 1].refs()
    }
}

} // verus!
