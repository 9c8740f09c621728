//! A read-only access layer over a DOM snapshot for a layout engine.
//!
//! Layout runs against a snapshot of a DOM tree that another thread owns.
//! The types here give layout a navigable, pseudo-element-aware view of that
//! tree with no mutation surface beyond a per-node side-table of
//! layout-computed data.  Every access that the surrounding protocol
//! treats as a fatal violation (reading the side-table before it was
//! initialized, asking for a parent outside an active reflow, requesting
//! generated content whose style was never resolved) is excluded here by a
//! precondition, so the verified operations never panic.
//!
//! - [`dom`] models the snapshot: an arena of nodes whose child and sibling
//!   links always point forward, which bounds every traversal.
//! - [`data`] is the per-node side-table: styles, restyle damage, flags and
//!   the flow-construction result.
//! - [`style`] is the slice of computed style this layer reads.
//! - [`wrapper`] holds the read-only and the thread-safe node handles, with
//!   the `::before`/`::after` synthesis rules.
//! - [`children`] is the pseudo-aware children iterator.
//! - [`traverse`] is the postorder traversal protocol flow construction
//!   drives.
//! - [`box_slice`] and [`text_run`] cut a run of text into shareable slices
//!   and indivisible pieces.

pub mod box_slice;
pub mod children;
pub mod data;
pub mod dom;
pub mod style;
pub mod text_run;
pub mod traverse;
pub mod wrapper;
