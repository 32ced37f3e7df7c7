use vstd::prelude::*;

verus! {

/// Source-location metadata: filename, zero-based line number, a
/// (start, end) column span relative to the start of that line, and the
/// exact source substring it denotes. Produced once at tokenization time,
/// never mutated; used only for diagnostics.
#[derive(Debug)]
pub struct SpanIdentifier {
    pub filename: String,
    pub line: usize,
    pub span: (usize, usize),
    pub value: String,
}

} // verus!
