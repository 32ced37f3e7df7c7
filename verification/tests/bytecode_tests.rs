use ugc_runtime::byte_code::{ByteCodeChunk, ByteCodeOp, ByteCodeValue};
use ugc_runtime::span_identifier::SpanIdentifier;

fn span(line: usize, start: usize, end: usize, value: &str) -> SpanIdentifier {
    SpanIdentifier {
        filename: String::from("test"),
        line,
        span: (start, end),
        value: String::from(value),
    }
}

#[test]
fn new_chunk_is_empty() {
    let chunk = ByteCodeChunk::new();
    assert_eq!(chunk.op_count(), 0);
    assert_eq!(chunk.constant_count(), 0);
    assert_eq!(chunk.span_count(), 0);
}

#[test]
fn add_constant_returns_monotonic_indices() {
    let mut chunk = ByteCodeChunk::new();
    let i0 = chunk.add_constant(ByteCodeValue::Integer(1));
    let i1 = chunk.add_constant(ByteCodeValue::Boolean(true));
    let i2 = chunk.add_constant(ByteCodeValue::Text(String::from("s")));
    assert_eq!(i0, 0);
    assert_eq!(i1, 1);
    assert_eq!(i2, 2);
    assert_eq!(chunk.constant_count(), 3);
    assert!(matches!(*chunk.get_constant(1), ByteCodeValue::Boolean(true)));
}

#[test]
fn operations_and_spans_stay_aligned() {
    let mut chunk = ByteCodeChunk::new();
    let c = chunk.add_constant(ByteCodeValue::Integer(7));
    chunk.add_operation(ByteCodeOp::Constant(c), span(0, 0, 1, "7"));
    chunk.add_operation(ByteCodeOp::Return(0), span(0, 2, 8, "return"));
    chunk.add_operation(ByteCodeOp::Constant(c), span(1, 0, 1, "7"));
    assert_eq!(chunk.op_count(), 3);
    assert_eq!(chunk.span_count(), 3);
    assert_eq!(chunk.get_op(0), ByteCodeOp::Constant(c));
    assert_eq!(chunk.get_op(1), ByteCodeOp::Return(0));
    assert_eq!(chunk.get_span(1).value, "return");
    assert_eq!(chunk.get_span(2).line, 1);
}

#[test]
fn constant_roots_are_the_handles() {
    let mut chunk = ByteCodeChunk::new();
    chunk.add_constant(ByteCodeValue::Integer(3));
    chunk.add_constant(ByteCodeValue::Handle(5));
    chunk.add_constant(ByteCodeValue::Null);
    chunk.add_constant(ByteCodeValue::Handle(9));
    let mut roots: Vec<usize> = vec![1];
    chunk.collect_constant_roots(&mut roots);
    assert_eq!(roots, vec![1, 5, 9]);
}
