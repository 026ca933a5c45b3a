//! An on-screen diagnostics overlay engine.
//!
//! The crate keeps an ordered registry of named diagnostic entries, tracks
//! which changes require a full layout rebuild and which only need an
//! in-place visual edit, reduces each entry's sample history to a single
//! scalar under a selectable aggregation policy, and renders the visible
//! entries as an indexed list of text spans.  A host renderer materializes
//! the span list; this crate never touches rendering primitives.
//!
//! Scalars are fixed-point numbers: an `i64` counting hundredths of a unit.

pub mod aggregate;
pub mod formatting;
pub mod laws;
pub mod order;
pub mod registry;
pub mod span;
pub mod store;
pub mod sync;
pub mod style;

pub use aggregate::{aggregate, Aggregate};
pub use formatting::ValueFormat;
pub use registry::{DiagnosticsText, DiagnosticsTextBuilder, ScreenDiagnostics};
pub use span::{apply_edits, Span, SpanEdit};
pub use store::SampleStore;
pub use style::{Color, TextAlign};
pub use sync::TickOutput;
