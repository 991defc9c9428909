//! An owned, self-contained stack-backtrace snapshot engine.
//!
//! A backtrace is captured from the raw frame list reported by an external
//! stack walker, trimmed so that the capture machinery's own frames are
//! hidden, optionally resolved against the answers of an external symbol
//! resolver, rendered as a deterministic textual report, and serialized to a
//! flat byte record that round-trips without re-walking any stack.

pub mod capture;
pub mod codec;
pub mod frame;
pub mod render;
pub mod resolve;
pub mod symbol;

pub use capture::Backtrace;
pub use codec::DecodeError;
pub use frame::BacktraceFrame;
pub use frame::RawFrame;
pub use resolve::SymbolResolver;
pub use symbol::BacktraceSymbol;
