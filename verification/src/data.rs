//! The per-node side-table of layout-computed data: the node's own computed
//! style, the optional styles of its `::before`/`::after` pseudo-elements,
//! restyle-damage bits, traversal flags, and the opaque result of flow
//! construction.  At most one record exists per node; it is created lazily by
//! an idempotent initializer and replaced never.

use vstd::prelude::*;
use crate::style::ComputedStyle;

verus! {

/// A handle to the communication channel that deferred teardown
/// notifications are routed through.  The side-table only stores it; the
/// identifier names the channel endpoint the owner thread handed in.
#[derive(Clone, Copy, Debug, PartialEq, Eq, Structural)]
pub struct LayoutChan {
    pub id: usize,
}

/// A bitset describing how much recomputation the most recent style change
/// necessitates.  Written once per restyle and never cleared automatically:
/// a consumer resets it explicitly once the damage is handled.
#[derive(Clone, Copy, Debug, PartialEq, Eq, Structural)]
pub struct RestyleDamage {
    pub bits: u32,
}

impl RestyleDamage {
    /// No recomputation required.
    pub fn empty() -> (r: RestyleDamage)
        ensures
            r.bits == 0,
    {
        RestyleDamage { bits: 0 }
    }

    /// Whether every bit of `other` is set in `self`.
    pub fn contains(self, other: RestyleDamage) -> (r: bool)
        ensures
            r == (self.bits & other.bits == other.bits),
    {
        self.bits & other.bits == other.bits
    }
}

/// A bitset of transient layout-traversal markers.
#[derive(Clone, Copy, Debug, PartialEq, Eq, Structural)]
pub struct LayoutDataFlags {
    pub bits: u32,
}

impl LayoutDataFlags {
    /// No marker set.
    pub fn empty() -> (r: LayoutDataFlags)
        ensures
            r.bits == 0,
    {
        LayoutDataFlags { bits: 0 }
    }

    /// Sets every bit of `other` in `self`.
    pub fn insert(&mut self, other: LayoutDataFlags)
        ensures
            final(self).bits == old(self).bits | other.bits,
    {
        self.bits = self.bits | other.bits;
    }

    /// Clears every bit of `other` in `self`.
    pub fn remove(&mut self, other: LayoutDataFlags)
        ensures
            final(self).bits == old(self).bits & !other.bits,
    {
        self.bits = self.bits & !other.bits;
    }

    /// Whether every bit of `other` is set in `self`.
    pub fn contains(self, other: LayoutDataFlags) -> (r: bool)
        ensures
            r == (self.bits & other.bits == other.bits),
    {
        self.bits & other.bits == other.bits
    }
}

/// The opaque result of flow construction for one node, kept only so that
/// diagnostics can derive a stable identifier from it.
#[derive(Clone, Copy, Debug, PartialEq, Eq, Structural)]
pub enum ConstructionResult {
    NoConstructionResult,
    Flow(usize),
    ConstructionItem(usize),
}

impl ConstructionResult {
    /// A stable numeric identifier for diagnostics; zero when no flow result
    /// exists yet.
    pub fn debug_id(self) -> (r: usize)
        ensures
            r == self.spec_debug_id(),
    {
        match self {
            ConstructionResult::NoConstructionResult => 0,
            ConstructionResult::Flow(id) => id,
            ConstructionResult::ConstructionItem(id) => id,
        }
    }

    pub open spec fn spec_debug_id(self) -> usize {
        match self {
            ConstructionResult::NoConstructionResult => 0,
            ConstructionResult::Flow(id) => id,
            ConstructionResult::ConstructionItem(id) => id,
        }
    }
}

/// The part of the side-table that the style phase shares with layout: the
/// node's own computed style, absent before the first style pass.
#[derive(Clone, Debug)]
pub struct SharedLayoutData {
    pub style: Option<ComputedStyle>,
}

/// The layout-private part of the side-table.
#[derive(Clone, Debug)]
pub struct PrivateLayoutData {
    /// Resolved style of the `::before` pseudo-element; presence means the
    /// pseudo-element exists in the layout tree.
    pub before_style: Option<ComputedStyle>,
    /// Resolved style of the `::after` pseudo-element.
    pub after_style: Option<ComputedStyle>,
    pub restyle_damage: RestyleDamage,
    pub flags: LayoutDataFlags,
    pub flow_construction_result: ConstructionResult,
}

impl PrivateLayoutData {
    /// The state of a freshly initialized record: no pseudo styles, no
    /// damage, no flags, no flow result.
    pub fn new() -> (r: PrivateLayoutData)
        ensures
            r == PrivateLayoutData::spec_new(),
    {
        PrivateLayoutData {
            before_style: None,
            after_style: None,
            restyle_damage: RestyleDamage { bits: 0 },
            flags: LayoutDataFlags { bits: 0 },
            flow_construction_result: ConstructionResult::NoConstructionResult,
        }
    }

    pub open spec fn spec_new() -> PrivateLayoutData {
        PrivateLayoutData {
            before_style: None,
            after_style: None,
            restyle_damage: RestyleDamage { bits: 0 },
            flags: LayoutDataFlags { bits: 0 },
            flow_construction_result: ConstructionResult::NoConstructionResult,
        }
    }
}

/// One node's complete side-table record.
#[derive(Clone, Debug)]
pub struct LayoutDataWrapper {
    pub chan: Option<LayoutChan>,
    pub shared_data: SharedLayoutData,
    pub data: PrivateLayoutData,
}

/// The record that the idempotent initializer installs on first contact
/// with a node.
pub open spec fn fresh_layout_data(chan: LayoutChan) -> LayoutDataWrapper {
    LayoutDataWrapper {
        chan: Some(chan),
        shared_data: SharedLayoutData { style: None },
        data: PrivateLayoutData::spec_new(),
    }
}

} // verus!
