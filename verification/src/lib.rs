//! Memory-management core of a bytecode-oriented language runtime: a tracing
//! garbage collector over heap-allocated runtime values, the bytecode
//! container whose values the collector must keep alive, and the tokenizer
//! that produces the source spans used for diagnostics.

pub mod byte_code;
pub mod gc;
pub mod gc_object;
pub mod lexer;
pub mod lexer_error;
pub mod span_identifier;
