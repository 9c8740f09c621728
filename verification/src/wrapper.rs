//! The capability wrappers that layout navigates the DOM snapshot through.
//!
//! `LayoutNode` is the read-only view of one node: structural navigation and
//! side-table access, never mutation of the tree itself.  A
//! `ThreadSafeLayoutNode` wraps it, adds a pseudo-element tag, and is the
//! handle handed to concurrent layout code: it synthesizes `::before` and
//! `::after` as virtual children of the real node.  Every handle is only
//! meaningful together with the `Dom` snapshot of the current reflow; a
//! handle kept beyond that snapshot is inert, because each operation borrows
//! the snapshot it reads.
//!
//! The conditions that the surrounding protocol treats as fatal programmer
//! errors (touching the side-table before initialization, asking for a
//! layout parent with no reflow root established, requesting generated
//! content for a pseudo tag whose style was never resolved) appear here as
//! preconditions: a verified caller cannot reach them.

use vstd::prelude::*;
use crate::data::{LayoutChan, LayoutDataFlags, LayoutDataWrapper, RestyleDamage, fresh_layout_data};
use crate::dom::{Dom, NodeData};
use crate::style::{ContentItem, DisplayMode, WhiteSpace, all_whitespace, content_items_of,
    get_content, is_whitespace};

verus! {

/// The virtual identity of a thread-safe handle: a real node, or one of its
/// synthesized pseudo-elements together with that pseudo-element's display
/// mode.
#[derive(Clone, Copy, Debug, PartialEq, Eq, Structural)]
pub enum PseudoElementType {
    Normal,
    Before(DisplayMode),
    After(DisplayMode),
}

impl PseudoElementType {
    pub fn is_before(self) -> (r: bool)
        ensures
            r == (self is Before),
    {
        matches!(self, PseudoElementType::Before(_))
    }

    pub fn is_after(self) -> (r: bool)
        ensures
            r == (self is After),
    {
        matches!(self, PseudoElementType::After(_))
    }
}

/// The context a reflow establishes before traversals run; the root bounds
/// the subtree that this reflow may see.
#[derive(Clone, Copy, Debug)]
pub struct SharedLayoutContext {
    /// The identity of the reflow root, `None` outside an active reflow.
    pub reflow_root: Option<usize>,
}

/// A read-only, reflow-scoped view of one DOM node.  It exposes structural
/// navigation and side-table access only; nothing reachable from it can
/// mutate the tree.
#[derive(Clone, Copy, Debug, PartialEq, Eq, Structural)]
pub struct LayoutNode {
    /// The node's identity: its index in the snapshot arena.
    pub id: usize,
}

/// The effect of the idempotent side-table initializer on the snapshot: a
/// fresh default record where none exists, no change otherwise.
pub open spec fn initialize_effect(nodes: Seq<NodeData>, id: int, chan: LayoutChan) -> Seq<
    NodeData,
> {
    if nodes[id].layout is Some {
        nodes
    } else {
        nodes.update(id, NodeData { layout: Some(fresh_layout_data(chan)), ..nodes[id] })
    }
}

/// Initializing twice leaves the side-table of the first call unchanged,
/// whatever channel the second call hands in.
pub proof fn lemma_initialize_idempotent(
    nodes: Seq<NodeData>,
    id: int,
    chan1: LayoutChan,
    chan2: LayoutChan,
)
    requires
        0 <= id < nodes.len(),
    ensures
        initialize_effect(initialize_effect(nodes, id, chan1), id, chan2)
            == initialize_effect(nodes, id, chan1),
{
}

impl LayoutNode {
    /// The handle for node `id` of the current snapshot.
    pub fn from_id(dom: &Dom, id: usize) -> (r: LayoutNode)
        requires
            dom.valid_id(id as int),
        ensures
            r.id == id,
    {
        LayoutNode { id }
    }

    /// The node's parent in the real tree, `None` at the tree root.
    pub fn parent_node(self, dom: &Dom) -> (r: Option<LayoutNode>)
        requires
            dom.valid_id(self.id as int),
        ensures
            r == (match dom.nodes@[self.id as int].parent {
                Some(p) => Some(LayoutNode { id: p }),
                None => None::<LayoutNode>,
            }),
            dom.wf() && r is Some ==> dom.valid_id(r->Some_0.id as int),
    {
        proof {
            if dom.wf() {
                assert(dom.node_wf(self.id as int));
            }
        }
        match self.nodes_parent(dom) {
            Some(p) => Some(LayoutNode { id: p }),
            None => None,
        }
    }

    /// The node's first child in the real tree.
    pub fn first_child(self, dom: &Dom) -> (r: Option<LayoutNode>)
        requires
            dom.wf(),
            dom.valid_id(self.id as int),
        ensures
            r == (match dom.nodes@[self.id as int].first_child {
                Some(c) => Some(LayoutNode { id: c }),
                None => None::<LayoutNode>,
            }),
            r matches Some(c) ==> dom.valid_id(c.id as int),
    {
        proof {
            assert(dom.node_wf(self.id as int));
        }
        match self.nodes_ref(dom).first_child {
            Some(c) => Some(LayoutNode { id: c }),
            None => None,
        }
    }

    /// The node's next sibling in the real tree.
    pub fn next_sibling(self, dom: &Dom) -> (r: Option<LayoutNode>)
        requires
            dom.wf(),
            dom.valid_id(self.id as int),
        ensures
            r == (match dom.nodes@[self.id as int].next_sibling {
                Some(s) => Some(LayoutNode { id: s }),
                None => None::<LayoutNode>,
            }),
            r matches Some(s) ==> dom.valid_id(s.id as int),
    {
        proof {
            assert(dom.node_wf(self.id as int));
        }
        match self.nodes_ref(dom).next_sibling {
            Some(s) => Some(LayoutNode { id: s }),
            None => None,
        }
    }

    /// Ensures a side-table record exists for the node, installing a fresh
    /// default one (holding the teardown channel) if absent.  Idempotent: on
    /// an already-initialized node this is a no-op, never an overwrite.
    pub fn initialize_layout_data(self, dom: &mut Dom, chan: LayoutChan)
        requires
            old(dom).valid_id(self.id as int),
        ensures
            final(dom).nodes@ == initialize_effect(old(dom).nodes@, self.id as int, chan),
            final(dom).initialized(self.id as int),
            old(dom).wf() ==> final(dom).wf(),
    {
        let node = self.nodes_mut(dom);
        proof {
            if old(dom).wf() {
                assert(old(dom).node_wf(self.id as int));
            }
        }
        if node.layout.is_none() {
            node.layout = Some(LayoutDataWrapper {
                chan: Some(chan),
                shared_data: crate::data::SharedLayoutData { style: None },
                data: crate::data::PrivateLayoutData::new(),
            });
        }
        proof {
            assert(dom.nodes@ =~= initialize_effect(old(dom).nodes@, self.id as int, chan));
            if old(dom).wf() {
                assert forall|i: int| 0 <= i < dom.len() implies #[trigger] dom.node_wf(i) by {
                    assert(old(dom).node_wf(i));
                }
            }
        }
    }

    /// During a reflow the node at the reflow root has no parent as far as
    /// layout is concerned; calling this outside an active reflow (no root
    /// established) is a protocol violation and excluded by precondition.
    pub fn layout_parent_node(self, dom: &Dom, shared: &SharedLayoutContext) -> (r: Option<
        LayoutNode,
    >)
        requires
            dom.valid_id(self.id as int),
            shared.reflow_root is Some,
        ensures
            r == (if Some(self.id) == shared.reflow_root {
                None::<LayoutNode>
            } else {
                match dom.nodes@[self.id as int].parent {
                    Some(p) => Some(LayoutNode { id: p }),
                    None => None::<LayoutNode>,
                }
            }),
    {
        match shared.reflow_root {
            None => {
                proof {
                    assert(false);
                }
                None
            },
            Some(reflow_root) => {
                if self.id == reflow_root {
                    None
                } else {
                    self.parent_node(dom)
                }
            },
        }
    }

    /// A stable numeric identifier derived from the node's identity, for
    /// diagnostics only.
    pub fn debug_id(self) -> (r: usize)
        ensures
            r == self.id,
    {
        self.id
    }

    /// A stable numeric identifier derived from the node's flow-construction
    /// result; zero when no side-table or no flow result exists yet.
    pub fn flow_debug_id(self, dom: &Dom) -> (r: usize)
        requires
            dom.valid_id(self.id as int),
        ensures
            r == (if dom.initialized(self.id as int) {
                dom.layout_data_of(self.id as int).data.flow_construction_result.spec_debug_id()
            } else {
                0
            }),
    {
        let layout_data_ref = self.borrow_layout_data(dom);
        match layout_data_ref {
            None => 0,
            Some(layout_data) => layout_data.data.flow_construction_result.debug_id(),
        }
    }

    /// Scoped read access to the node's side-table slot.  The borrow is
    /// released when the reference's lifetime ends; a conflicting borrow is
    /// impossible for verified callers, because the snapshot itself is
    /// borrowed for the same scope.
    pub fn borrow_layout_data<'a>(self, dom: &'a Dom) -> (r: &'a Option<LayoutDataWrapper>)
        requires
            dom.valid_id(self.id as int),
        ensures
            *r == dom.nodes@[self.id as int].layout,
    {
        &self.nodes_ref(dom).layout
    }

    /// Scoped write access to the node's side-table slot, with the same
    /// release discipline as `borrow_layout_data`.
    pub fn mutate_layout_data<'a>(self, dom: &'a mut Dom) -> (r: &'a mut Option<LayoutDataWrapper>)
        requires
            old(dom).valid_id(self.id as int),
        ensures
            *r == old(dom).nodes@[self.id as int].layout,
            final(dom).nodes@ == old(dom).nodes@.update(
                self.id as int,
                (NodeData { layout: *final(r), ..old(dom).nodes@[self.id as int] }),
            ),
    {
        &mut self.nodes_mut(dom).layout
    }

    fn nodes_ref<'a>(self, dom: &'a Dom) -> (r: &'a NodeData)
        requires
            dom.valid_id(self.id as int),
        ensures
            *r == dom.nodes@[self.id as int],
    {
        &dom.nodes[self.id]
    }

    fn nodes_mut<'a>(self, dom: &'a mut Dom) -> (r: &'a mut NodeData)
        requires
            old(dom).valid_id(self.id as int),
        ensures
            *r == old(dom).nodes@[self.id as int],
            final(dom).nodes@ == old(dom).nodes@.update(self.id as int, *final(r)),
    {
        &mut dom.nodes[self.id]
    }

    fn nodes_parent(self, dom: &Dom) -> (r: Option<usize>)
        requires
            dom.valid_id(self.id as int),
        ensures
            r == dom.nodes@[self.id as int].parent,
    {
        self.nodes_ref(dom).parent
    }
}

/// The pseudo-aware handle that is safe to hand to concurrent layout code:
/// every operation on it is a checked read, so nothing it does can race with
/// the owning thread.
#[derive(Clone, Copy, Debug, PartialEq, Eq, Structural)]
pub struct ThreadSafeLayoutNode {
    pub node: LayoutNode,
    pub pseudo: PseudoElementType,
}

impl ThreadSafeLayoutNode {
    /// A handle is meaningful only when its node lies in the snapshot and a
    /// pseudo tag exists only where the matching pseudo style was resolved.
    pub open spec fn valid(self, dom: Dom) -> bool {
        &&& dom.valid_id(self.node.id as int)
        &&& (self.pseudo is Before ==> dom.has_before(self.node.id as int))
        &&& (self.pseudo is After ==> dom.has_after(self.node.id as int))
    }

    /// The measure that every walk along `first_child` and `next_sibling`
    /// decreases: the node index can only grow, and on one node a handle can
    /// only step down this rank.
    pub open spec fn pseudo_rank(self) -> int {
        match self.pseudo {
            PseudoElementType::Normal => 3,
            PseudoElementType::Before(d) => if d is Inline {
                1
            } else {
                2
            },
            PseudoElementType::After(_) => 0,
        }
    }

    /// Wraps a read-only handle as a real (non-pseudo) thread-safe handle.
    pub fn new(node: LayoutNode) -> (r: ThreadSafeLayoutNode)
        ensures
            r == (ThreadSafeLayoutNode { node, pseudo: PseudoElementType::Normal }),
    {
        ThreadSafeLayoutNode { node, pseudo: PseudoElementType::Normal }
    }

    /// The same underlying node under another pseudo tag.
    pub fn with_pseudo(self, pseudo: PseudoElementType) -> (r: ThreadSafeLayoutNode)
        ensures
            r == (ThreadSafeLayoutNode { node: self.node, pseudo }),
    {
        ThreadSafeLayoutNode { node: self.node, pseudo }
    }

    pub fn debug_id(self) -> (r: usize)
        ensures
            r == self.node.id,
    {
        self.node.debug_id()
    }

    pub fn flow_debug_id(self, dom: &Dom) -> (r: usize)
        requires
            dom.valid_id(self.node.id as int),
        ensures
            r == (if dom.initialized(self.node.id as int) {
                dom.layout_data_of(
                    self.node.id as int,
                ).data.flow_construction_result.spec_debug_id()
            } else {
                0
            }),
    {
        self.node.flow_debug_id(dom)
    }

    /// Read access to the side-table slot without the conflict check that a
    /// scoped borrow performs; only for callers inside this core that can
    /// rule a conflicting borrow out statically, and therefore never
    /// exposed outside it.  For verified callers the checked and unchecked
    /// reads coincide, because the borrow of the snapshot already rules a
    /// conflict out.
    pub(crate) fn borrow_layout_data_unchecked<'a>(&self, dom: &'a Dom) -> (r: &'a Option<
        LayoutDataWrapper,
    >)
        requires
            dom.valid_id(self.node.id as int),
        ensures
            *r == dom.nodes@[self.node.id as int].layout,
    {
        self.node.borrow_layout_data(dom)
    }

    /// Scoped read access to the side-table slot.
    pub fn borrow_layout_data<'a>(&self, dom: &'a Dom) -> (r: &'a Option<LayoutDataWrapper>)
        requires
            dom.valid_id(self.node.id as int),
        ensures
            *r == dom.nodes@[self.node.id as int].layout,
    {
        self.node.borrow_layout_data(dom)
    }

    /// Scoped write access to the side-table slot.
    pub fn mutate_layout_data<'a>(&self, dom: &'a mut Dom) -> (r: &'a mut Option<
        LayoutDataWrapper,
    >)
        requires
            old(dom).valid_id(self.node.id as int),
        ensures
            *r == old(dom).nodes@[self.node.id as int].layout,
            final(dom).nodes@ == old(dom).nodes@.update(
                self.node.id as int,
                (NodeData { layout: *final(r), ..old(dom).nodes@[self.node.id as int] }),
            ),
    {
        self.node.mutate_layout_data(dom)
    }

    /// The description of how to account for recent style changes.
    pub fn restyle_damage(self, dom: &Dom) -> (r: RestyleDamage)
        requires
            dom.valid_id(self.node.id as int),
            dom.initialized(self.node.id as int),
        ensures
            r == dom.layout_data_of(self.node.id as int).data.restyle_damage,
    {
        let layout_data_ref = self.borrow_layout_data(dom);
        match layout_data_ref {
            Some(layout_data) => layout_data.data.restyle_damage,
            None => {
                proof {
                    assert(false);
                }
                unreached()
            },
        }
    }

    /// Overwrites the restyle-damage field; everything else is untouched.
    pub fn set_restyle_damage(self, dom: &mut Dom, damage: RestyleDamage)
        requires
            old(dom).valid_id(self.node.id as int),
            old(dom).initialized(self.node.id as int),
        ensures
            final(dom).nodes@ == old(dom).nodes@.update(
                self.node.id as int,
                (NodeData {
                    layout: Some(LayoutDataWrapper {
                        data: crate::data::PrivateLayoutData {
                            restyle_damage: damage,
                            ..old(dom).layout_data_of(self.node.id as int).data
                        },
                        ..old(dom).layout_data_of(self.node.id as int)
                    }),
                    ..old(dom).nodes@[self.node.id as int]
                }),
            ),
    {
        let layout_data_ref = self.mutate_layout_data(dom);
        match layout_data_ref {
            Some(layout_data) => {
                layout_data.data.restyle_damage = damage;
            },
            None => {
                proof {
                    assert(false);
                }
            },
        }
    }

    /// The layout-traversal markers of this node, read through the
    /// unchecked borrow: no conflicting borrow can be outstanding here.
    pub fn flags(self, dom: &Dom) -> (r: LayoutDataFlags)
        requires
            dom.valid_id(self.node.id as int),
            dom.initialized(self.node.id as int),
        ensures
            r == dom.layout_data_of(self.node.id as int).data.flags,
    {
        let layout_data_ref = self.borrow_layout_data_unchecked(dom);
        match layout_data_ref {
            Some(layout_data) => layout_data.data.flags,
            None => {
                proof {
                    assert(false);
                }
                unreached()
            },
        }
    }

    /// Adds the given markers to this node.
    pub fn insert_flags(self, dom: &mut Dom, new_flags: LayoutDataFlags)
        requires
            old(dom).valid_id(self.node.id as int),
            old(dom).initialized(self.node.id as int),
        ensures
            final(dom).nodes@ == old(dom).nodes@.update(
                self.node.id as int,
                (NodeData {
                    layout: Some(LayoutDataWrapper {
                        data: crate::data::PrivateLayoutData {
                            flags: LayoutDataFlags {
                                bits: old(dom).layout_data_of(self.node.id as int).data.flags.bits
                                    | new_flags.bits,
                            },
                            ..old(dom).layout_data_of(self.node.id as int).data
                        },
                        ..old(dom).layout_data_of(self.node.id as int)
                    }),
                    ..old(dom).nodes@[self.node.id as int]
                }),
            ),
    {
        let layout_data_ref = self.mutate_layout_data(dom);
        match layout_data_ref {
            Some(layout_data) => {
                layout_data.data.flags.insert(new_flags);
            },
            None => {
                proof {
                    assert(false);
                }
            },
        }
    }

    /// Removes the given markers from this node.
    pub fn remove_flags(self, dom: &mut Dom, flags: LayoutDataFlags)
        requires
            old(dom).valid_id(self.node.id as int),
            old(dom).initialized(self.node.id as int),
        ensures
            final(dom).nodes@ == old(dom).nodes@.update(
                self.node.id as int,
                (NodeData {
                    layout: Some(LayoutDataWrapper {
                        data: crate::data::PrivateLayoutData {
                            flags: LayoutDataFlags {
                                bits: old(dom).layout_data_of(self.node.id as int).data.flags.bits
                                    & !flags.bits,
                            },
                            ..old(dom).layout_data_of(self.node.id as int).data
                        },
                        ..old(dom).layout_data_of(self.node.id as int)
                    }),
                    ..old(dom).nodes@[self.node.id as int]
                }),
            ),
    {
        let layout_data_ref = self.mutate_layout_data(dom);
        match layout_data_ref {
            Some(layout_data) => {
                layout_data.data.flags.remove(flags);
            },
            None => {
                proof {
                    assert(false);
                }
            },
        }
    }

    /// The display mode of the node's own resolved style.
    pub fn get_normal_display(&self, dom: &Dom) -> (r: DisplayMode)
        requires
            dom.valid_id(self.node.id as int),
            dom.has_style(self.node.id as int),
        ensures
            r == dom.style_of(self.node.id as int).display,
    {
        let layout_data_ref = self.borrow_layout_data(dom);
        match layout_data_ref {
            Some(layout_data) => match &layout_data.shared_data.style {
                Some(style) => style.display,
                None => {
                    proof {
                        assert(false);
                    }
                    unreached()
                },
            },
            None => {
                proof {
                    assert(false);
                }
                unreached()
            },
        }
    }

    /// The display mode of the node's resolved `::before` style.
    pub fn get_before_display(&self, dom: &Dom) -> (r: DisplayMode)
        requires
            dom.valid_id(self.node.id as int),
            dom.has_before(self.node.id as int),
        ensures
            r == dom.before_display_of(self.node.id as int),
    {
        let layout_data_ref = self.borrow_layout_data(dom);
        match layout_data_ref {
            Some(layout_data) => match &layout_data.data.before_style {
                Some(style) => style.display,
                None => {
                    proof {
                        assert(false);
                    }
                    unreached()
                },
            },
            None => {
                proof {
                    assert(false);
                }
                unreached()
            },
        }
    }

    /// The display mode of the node's resolved `::after` style.
    pub fn get_after_display(&self, dom: &Dom) -> (r: DisplayMode)
        requires
            dom.valid_id(self.node.id as int),
            dom.has_after(self.node.id as int),
        ensures
            r == dom.after_display_of(self.node.id as int),
    {
        let layout_data_ref = self.borrow_layout_data(dom);
        match layout_data_ref {
            Some(layout_data) => match &layout_data.data.after_style {
                Some(style) => style.display,
                None => {
                    proof {
                        assert(false);
                    }
                    unreached()
                },
            },
            None => {
                proof {
                    assert(false);
                }
                unreached()
            },
        }
    }

    /// Whether a `::before` pseudo-element exists for the underlying node.
    pub fn has_before_pseudo(&self, dom: &Dom) -> (r: bool)
        requires
            dom.valid_id(self.node.id as int),
            dom.initialized(self.node.id as int),
        ensures
            r == dom.has_before(self.node.id as int),
    {
        let layout_data_ref = self.borrow_layout_data(dom);
        match layout_data_ref {
            Some(layout_data) => layout_data.data.before_style.is_some(),
            None => {
                proof {
                    assert(false);
                }
                unreached()
            },
        }
    }

    /// Whether an `::after` pseudo-element exists for the underlying node.
    pub fn has_after_pseudo(&self, dom: &Dom) -> (r: bool)
        requires
            dom.valid_id(self.node.id as int),
            dom.initialized(self.node.id as int),
        ensures
            r == dom.has_after(self.node.id as int),
    {
        let layout_data_ref = self.borrow_layout_data(dom);
        match layout_data_ref {
            Some(layout_data) => layout_data.data.after_style.is_some(),
            None => {
                proof {
                    assert(false);
                }
                unreached()
            },
        }
    }

    /// What `first_child` returns: the synthesized child sequence starts
    /// with a `Before`-tagged handle where a `::before` style was resolved;
    /// a non-inline before box re-tags itself to `Before(Inline)` before
    /// exposing real children; an inline before box falls through to the
    /// real children; an after box is a leaf.
    pub open spec fn first_child_spec(self, dom: Dom) -> Option<ThreadSafeLayoutNode> {
        match self.pseudo {
            PseudoElementType::After(_) => None,
            PseudoElementType::Before(d) => if d is Inline {
                real_first_child(dom, self.node.id as int)
            } else {
                Some(
                    ThreadSafeLayoutNode {
                        node: self.node,
                        pseudo: PseudoElementType::Before(DisplayMode::Inline),
                    },
                )
            },
            PseudoElementType::Normal => if dom.has_before(self.node.id as int) {
                Some(
                    ThreadSafeLayoutNode {
                        node: self.node,
                        pseudo: PseudoElementType::Before(
                            dom.before_display_of(self.node.id as int),
                        ),
                    },
                )
            } else {
                real_first_child(dom, self.node.id as int)
            },
        }
    }

    /// The first child of this handle in the logical (pseudo-aware) tree.
    pub fn first_child(&self, dom: &Dom) -> (r: Option<ThreadSafeLayoutNode>)
        requires
            dom.wf(),
            self.valid(*dom),
            self.pseudo is Normal ==> dom.initialized(self.node.id as int),
        ensures
            r == self.first_child_spec(*dom),
            r matches Some(c) ==> c.valid(*dom) && decreases_from(*self, c, *dom),
    {
        proof {
            assert(dom.node_wf(self.node.id as int));
        }
        match self.pseudo {
            PseudoElementType::After(_) => None,
            PseudoElementType::Before(d) => {
                if matches!(d, DisplayMode::Inline) {
                    self.real_first_child_exec(dom)
                } else {
                    // Normalization, not a second pseudo-element: a
                    // non-inline before box exposes its generated inline
                    // content through a re-tagged inline before handle.
                    Some(self.with_pseudo(PseudoElementType::Before(DisplayMode::Inline)))
                }
            },
            PseudoElementType::Normal => {
                if self.has_before_pseudo(dom) {
                    let display = self.get_before_display(dom);
                    Some(self.with_pseudo(PseudoElementType::Before(display)))
                } else {
                    self.real_first_child_exec(dom)
                }
            },
        }
    }

    fn real_first_child_exec(&self, dom: &Dom) -> (r: Option<ThreadSafeLayoutNode>)
        requires
            dom.wf(),
            dom.valid_id(self.node.id as int),
        ensures
            r == real_first_child(*dom, self.node.id as int),
            r matches Some(c) ==> c.valid(*dom) && c.node.id > self.node.id,
    {
        proof {
            assert(dom.node_wf(self.node.id as int));
        }
        match self.node.nodes_ref(dom).first_child {
            Some(c) => Some(
                ThreadSafeLayoutNode {
                    node: LayoutNode { id: c },
                    pseudo: PseudoElementType::Normal,
                },
            ),
            None => None,
        }
    }

    /// What `next_sibling` returns: an (inline) before box is followed by
    /// the node's real first child, a real node by its real next sibling.
    pub open spec fn next_sibling_spec(self, dom: Dom) -> Option<ThreadSafeLayoutNode> {
        if self.pseudo is Before {
            real_first_child(dom, self.node.id as int)
        } else {
            match dom.nodes@[self.node.id as int].next_sibling {
                Some(s) => Some(
                    ThreadSafeLayoutNode {
                        node: LayoutNode { id: s },
                        pseudo: PseudoElementType::Normal,
                    },
                ),
                None => None,
            }
        }
    }

    /// The handle that follows this one in its parent's logical child
    /// sequence (not counting a synthesized after node).
    pub fn next_sibling(&self, dom: &Dom) -> (r: Option<ThreadSafeLayoutNode>)
        requires
            dom.wf(),
            self.valid(*dom),
        ensures
            r == self.next_sibling_spec(*dom),
            r matches Some(c) ==> c.valid(*dom) && c.node.id > self.node.id,
    {
        proof {
            assert(dom.node_wf(self.node.id as int));
        }
        if self.pseudo.is_before() {
            self.real_first_child_exec(dom)
        } else {
            match self.node.nodes_ref(dom).next_sibling {
                Some(s) => Some(
                    ThreadSafeLayoutNode {
                        node: LayoutNode { id: s },
                        pseudo: PseudoElementType::Normal,
                    },
                ),
                None => None,
            }
        }
    }

    /// The generated-content list of a pseudo handle, or the character data
    /// of a real text node as a single-item list.
    pub open spec fn text_content_spec(self, dom: Dom) -> Seq<ContentItem> {
        match self.pseudo {
            PseudoElementType::Before(_) => content_items_of(
                dom.before_style_of(self.node.id as int).content,
            ),
            PseudoElementType::After(_) => content_items_of(
                dom.after_style_of(self.node.id as int).content,
            ),
            PseudoElementType::Normal => seq![
                ContentItem { text: dom.nodes@[self.node.id as int].text->Some_0 },
            ],
        }
    }

    /// Copies out this handle's text: for a pseudo handle the generated
    /// content of the corresponding resolved style (the tag's validity
    /// guarantees that style exists), for a real handle the character data
    /// of the text node.
    pub fn text_content(&self, dom: &Dom) -> (r: Vec<ContentItem>)
        requires
            self.valid(*dom),
            self.pseudo is Normal ==> dom.is_text_node(self.node.id as int),
        ensures
            r@ == self.text_content_spec(*dom),
    {
        if !matches!(self.pseudo, PseudoElementType::Normal) {
            let layout_data_ref = self.borrow_layout_data(dom);
            match layout_data_ref {
                Some(layout_data) => {
                    if self.pseudo.is_before() {
                        match &layout_data.data.before_style {
                            Some(before_style) => {
                                return get_content(&before_style.content);
                            },
                            None => {
                                proof {
                                    assert(false);
                                }
                            },
                        }
                    } else {
                        match &layout_data.data.after_style {
                            Some(after_style) => {
                                return get_content(&after_style.content);
                            },
                            None => {
                                proof {
                                    assert(false);
                                }
                            },
                        }
                    }
                },
                None => {
                    proof {
                        assert(false);
                    }
                },
            }
        }
        match &self.node.nodes_ref(dom).text {
            Some(data) => {
                let item = ContentItem { text: data.clone() };
                let mut out: Vec<ContentItem> = Vec::new();
                out.push(item);
                proof {
                    assert(out@ =~= self.text_content_spec(*dom));
                }
                out
            },
            None => {
                proof {
                    assert(false);
                }
                Vec::new()
            },
        }
    }

    /// Whether layout may drop this node: it is a text node, its raw text
    /// is entirely whitespace, and its resolved `white-space` mode is the
    /// default wrapping mode, so the whitespace is insignificant.
    pub fn is_ignorable_whitespace(&self, dom: &Dom) -> (r: bool)
        requires
            dom.valid_id(self.node.id as int),
            dom.is_text_node(self.node.id as int) && all_whitespace(
                dom.text_of(self.node.id as int),
            ) ==> dom.has_style(self.node.id as int),
        ensures
            r == (dom.is_text_node(self.node.id as int) && all_whitespace(
                dom.text_of(self.node.id as int),
            ) && dom.style_of(self.node.id as int).white_space is Normal),
    {
        match &self.node.nodes_ref(dom).text {
            None => false,
            Some(data) => {
                if !is_whitespace(data.as_str()) {
                    return false;
                }
                // Any other `white-space` value makes whitespace
                // significant, so only the default wrapping mode lets the
                // node be ignored.
                match self.style(dom).white_space {
                    WhiteSpace::Normal => true,
                    _ => false,
                }
            },
        }
    }

    /// The node's own resolved style.
    pub fn style<'a>(&self, dom: &'a Dom) -> (r: &'a crate::style::ComputedStyle)
        requires
            dom.valid_id(self.node.id as int),
            dom.has_style(self.node.id as int),
        ensures
            *r == dom.style_of(self.node.id as int),
    {
        let layout_data_ref = self.borrow_layout_data(dom);
        match layout_data_ref {
            Some(layout_data) => match &layout_data.shared_data.style {
                Some(style) => style,
                None => {
                    proof {
                        assert(false);
                    }
                    unreached()
                },
            },
            None => {
                proof {
                    assert(false);
                }
                unreached()
            },
        }
    }
}

/// The node's real first child, viewed as a real (non-pseudo) handle.
pub open spec fn real_first_child(dom: Dom, id: int) -> Option<ThreadSafeLayoutNode> {
    match dom.nodes@[id].first_child {
        Some(c) => Some(
            ThreadSafeLayoutNode { node: LayoutNode { id: c }, pseudo: PseudoElementType::Normal },
        ),
        None => None,
    }
}

/// Stepping from `from` to `to` goes strictly down the walk measure: to a
/// larger node index, or on the same node to a smaller pseudo rank.
pub open spec fn decreases_from(from: ThreadSafeLayoutNode, to: ThreadSafeLayoutNode, dom: Dom) -> bool {
    to.node.id > from.node.id || (to.node.id == from.node.id && to.pseudo_rank()
        < from.pseudo_rank())
}

/// For a real handle whose node has a resolved `::before` style,
/// `first_child` yields the `Before`-tagged handle of the same node, and
/// following `first_child` from there reaches the real children after at
/// most one further synthetic step: directly when the before box is inline,
/// through the single `Before(Inline)` re-tag otherwise.  The chain can
/// never loop.
pub proof fn lemma_before_chain(dom: Dom, h: ThreadSafeLayoutNode)
    requires
        dom.wf(),
        h.valid(dom),
        h.pseudo is Normal,
        dom.has_before(h.node.id as int),
    ensures
        h.first_child_spec(dom) == Some(
            ThreadSafeLayoutNode {
                node: h.node,
                pseudo: PseudoElementType::Before(dom.before_display_of(h.node.id as int)),
            },
        ),
        !(dom.before_display_of(h.node.id as int) is Inline)
            ==> (ThreadSafeLayoutNode {
                node: h.node,
                pseudo: PseudoElementType::Before(dom.before_display_of(h.node.id as int)),
            }).first_child_spec(dom) == Some(
                ThreadSafeLayoutNode {
                    node: h.node,
                    pseudo: PseudoElementType::Before(DisplayMode::Inline),
                },
            ),
        (ThreadSafeLayoutNode {
            node: h.node,
            pseudo: PseudoElementType::Before(DisplayMode::Inline),
        }).first_child_spec(dom) == real_first_child(dom, h.node.id as int),
{
}

} // verus!
