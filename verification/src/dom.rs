//! The DOM snapshot that one reflow runs against.
//!
//! The owning thread guarantees the tree is not mutated for the duration of
//! the reflow, so layout sees it as an immutable arena of nodes addressed by
//! index.  A node's identity for the whole reflow is its index.  The only
//! mutable state is the per-node side-table of layout data, and every write
//! to it goes through the checked operations of the node handles.
//!
//! Well-formedness gives the arena its tree shape: a node's first child and
//! next sibling always have a strictly larger index than the node itself
//! (children are recorded after their parent, siblings in document order),
//! and a parent a strictly smaller one.  That ordering is what every
//! traversal's termination argument rests on.

use vstd::prelude::*;
use crate::data::LayoutDataWrapper;
use crate::style::{ComputedStyle, DisplayMode};

verus! {

/// One node of the snapshot.
#[derive(Debug)]
pub struct NodeData {
    pub parent: Option<usize>,
    pub first_child: Option<usize>,
    pub next_sibling: Option<usize>,
    /// The character data, present exactly when the node is a text node.
    pub text: Option<String>,
    /// The side-table record, absent until the initializer has run.
    pub layout: Option<LayoutDataWrapper>,
}

/// The snapshot arena.
#[derive(Debug)]
pub struct Dom {
    pub nodes: Vec<NodeData>,
}

impl Dom {
    pub open spec fn len(self) -> int {
        self.nodes@.len() as int
    }

    pub open spec fn valid_id(self, id: int) -> bool {
        0 <= id < self.len()
    }

    /// The links of node `i` respect the arena ordering.
    pub open spec fn node_wf(self, i: int) -> bool {
        &&& (match self.nodes@[i].first_child {
            Some(c) => i < c < self.len(),
            None => true,
        })
        &&& (match self.nodes@[i].next_sibling {
            Some(s) => i < s < self.len(),
            None => true,
        })
        &&& (match self.nodes@[i].parent {
            Some(p) => 0 <= p < i,
            None => true,
        })
    }

    pub open spec fn wf(self) -> bool {
        forall|i: int| 0 <= i < self.len() ==> #[trigger] self.node_wf(i)
    }

    /// Whether the side-table of node `id` has been initialized.
    pub open spec fn initialized(self, id: int) -> bool {
        self.nodes@[id].layout is Some
    }

    pub open spec fn layout_data_of(self, id: int) -> LayoutDataWrapper
        recommends
            self.initialized(id),
    {
        self.nodes@[id].layout->Some_0
    }

    /// Whether every node's side-table has been initialized, as the
    /// protocol guarantees before layout traversals begin.
    pub open spec fn all_initialized(self) -> bool {
        forall|i: int| 0 <= i < self.len() ==> #[trigger] self.initialized(i)
    }

    /// Whether the node's own computed style has been resolved.
    pub open spec fn has_style(self, id: int) -> bool {
        self.initialized(id) && self.layout_data_of(id).shared_data.style is Some
    }

    pub open spec fn style_of(self, id: int) -> ComputedStyle
        recommends
            self.has_style(id),
    {
        self.layout_data_of(id).shared_data.style->Some_0
    }

    /// Whether a `::before` pseudo-element exists for the node, that is,
    /// whether its style was resolved.
    pub open spec fn has_before(self, id: int) -> bool {
        self.initialized(id) && self.layout_data_of(id).data.before_style is Some
    }

    pub open spec fn before_style_of(self, id: int) -> ComputedStyle
        recommends
            self.has_before(id),
    {
        self.layout_data_of(id).data.before_style->Some_0
    }

    pub open spec fn before_display_of(self, id: int) -> DisplayMode
        recommends
            self.has_before(id),
    {
        self.before_style_of(id).display
    }

    /// Whether an `::after` pseudo-element exists for the node.
    pub open spec fn has_after(self, id: int) -> bool {
        self.initialized(id) && self.layout_data_of(id).data.after_style is Some
    }

    pub open spec fn after_style_of(self, id: int) -> ComputedStyle
        recommends
            self.has_after(id),
    {
        self.layout_data_of(id).data.after_style->Some_0
    }

    pub open spec fn after_display_of(self, id: int) -> DisplayMode
        recommends
            self.has_after(id),
    {
        self.after_style_of(id).display
    }

    /// Whether the node is a text node.
    pub open spec fn is_text_node(self, id: int) -> bool {
        self.nodes@[id].text is Some
    }

    pub open spec fn text_of(self, id: int) -> Seq<char>
        recommends
            self.is_text_node(id),
    {
        (self.nodes@[id].text->Some_0)@
    }

    /// An empty snapshot.
    pub fn new() -> (d: Dom)
        ensures
            d.nodes@.len() == 0,
            d.wf(),
    {
        Dom { nodes: Vec::new() }
    }

    /// Records a new element node, unlinked; its identity is its index.
    pub fn new_element(&mut self) -> (id: usize)
        requires
            old(self).nodes@.len() < usize::MAX,
        ensures
            id == old(self).nodes@.len(),
            final(self).nodes@ == old(self).nodes@.push(NodeData {
                parent: None,
                first_child: None,
                next_sibling: None,
                text: None,
                layout: None,
            }),
            old(self).wf() ==> final(self).wf(),
    {
        let id = self.nodes.len();
        self.nodes.push(NodeData {
            parent: None,
            first_child: None,
            next_sibling: None,
            text: None,
            layout: None,
        });
        proof {
            if old(self).wf() {
                assert forall|i: int| 0 <= i < self.len() implies #[trigger] self.node_wf(i) by {
                    if i < id {
                        assert(old(self).node_wf(i));
                    }
                }
            }
        }
        id
    }

    /// Records a new text node with the given character data, unlinked.
    pub fn new_text(&mut self, data: String) -> (id: usize)
        requires
            old(self).nodes@.len() < usize::MAX,
        ensures
            id == old(self).nodes@.len(),
            final(self).nodes@ == old(self).nodes@.push(NodeData {
                parent: None,
                first_child: None,
                next_sibling: None,
                text: Some(data),
                layout: None,
            }),
            old(self).wf() ==> final(self).wf(),
    {
        let id = self.nodes.len();
        self.nodes.push(NodeData {
            parent: None,
            first_child: None,
            next_sibling: None,
            text: Some(data),
            layout: None,
        });
        proof {
            if old(self).wf() {
                assert forall|i: int| 0 <= i < self.len() implies #[trigger] self.node_wf(i) by {
                    if i < id {
                        assert(old(self).node_wf(i));
                    }
                }
            }
        }
        id
    }

    /// Links a freshly recorded node as the next child of `parent`, after
    /// `prev` (the current last child), or as the first child when `prev` is
    /// `None`.  Children are attached in document order, so the attached
    /// child always has a larger index than the parent and than every
    /// earlier sibling.
    pub fn attach(&mut self, parent: usize, prev: Option<usize>, child: usize)
        requires
            old(self).wf(),
            parent < child < old(self).nodes@.len(),
            old(self).nodes@[child as int].parent is None,
            old(self).nodes@[child as int].next_sibling is None,
            match prev {
                None => old(self).nodes@[parent as int].first_child is None,
                Some(pv) => {
                    &&& parent < pv < child
                    &&& old(self).nodes@[pv as int].parent == Some(parent)
                    &&& old(self).nodes@[pv as int].next_sibling is None
                },
            },
        ensures
            final(self).wf(),
            final(self).nodes@.len() == old(self).nodes@.len(),
            final(self).nodes@[child as int] == (NodeData {
                parent: Some(parent),
                ..old(self).nodes@[child as int]
            }),
            match prev {
                None => final(self).nodes@ == old(self).nodes@.update(
                    parent as int,
                    NodeData { first_child: Some(child), ..old(self).nodes@[parent as int] },
                ).update(
                    child as int,
                    NodeData { parent: Some(parent), ..old(self).nodes@[child as int] },
                ),
                Some(pv) => final(self).nodes@ == old(self).nodes@.update(
                    pv as int,
                    NodeData { next_sibling: Some(child), ..old(self).nodes@[pv as int] },
                ).update(
                    child as int,
                    NodeData { parent: Some(parent), ..old(self).nodes@[child as int] },
                ),
            },
    {
        match prev {
            None => {
                let link = &mut self.nodes[parent];
                link.first_child = Some(child);
            },
            Some(pv) => {
                let link = &mut self.nodes[pv];
                link.next_sibling = Some(child);
            },
        }
        let c = &mut self.nodes[child];
        c.parent = Some(parent);
        proof {
            assert forall|i: int| 0 <= i < self.len() implies #[trigger] self.node_wf(i) by {
                assert(old(self).node_wf(i));
            }
        }
    }

    /// Installs the node's own resolved style; the style phase runs after
    /// the side-table was initialized.
    pub fn set_style(&mut self, id: usize, style: ComputedStyle)
        requires
            old(self).valid_id(id as int),
            old(self).initialized(id as int),
        ensures
            final(self).nodes@ == old(self).nodes@.update(
                id as int,
                (NodeData {
                    layout: Some(LayoutDataWrapper {
                        shared_data: crate::data::SharedLayoutData { style: Some(style) },
                        ..old(self).layout_data_of(id as int)
                    }),
                    ..old(self).nodes@[id as int]
                }),
            ),
    {
        let node = &mut self.nodes[id];
        match &mut node.layout {
            Some(wrapper) => {
                wrapper.shared_data.style = Some(style);
            },
            None => {
                proof {
                    assert(false);
                }
            },
        }
    }

    /// Installs the resolved style of the node's `::before` pseudo-element.
    pub fn set_before_style(&mut self, id: usize, style: ComputedStyle)
        requires
            old(self).valid_id(id as int),
            old(self).initialized(id as int),
        ensures
            final(self).nodes@ == old(self).nodes@.update(
                id as int,
                (NodeData {
                    layout: Some(LayoutDataWrapper {
                        data: crate::data::PrivateLayoutData {
                            before_style: Some(style),
                            ..old(self).layout_data_of(id as int).data
                        },
                        ..old(self).layout_data_of(id as int)
                    }),
                    ..old(self).nodes@[id as int]
                }),
            ),
    {
        let node = &mut self.nodes[id];
        match &mut node.layout {
            Some(wrapper) => {
                wrapper.data.before_style = Some(style);
            },
            None => {
                proof {
                    assert(false);
                }
            },
        }
    }

    /// Installs the resolved style of the node's `::after` pseudo-element.
    pub fn set_after_style(&mut self, id: usize, style: ComputedStyle)
        requires
            old(self).valid_id(id as int),
            old(self).initialized(id as int),
        ensures
            final(self).nodes@ == old(self).nodes@.update(
                id as int,
                (NodeData {
                    layout: Some(LayoutDataWrapper {
                        data: crate::data::PrivateLayoutData {
                            after_style: Some(style),
                            ..old(self).layout_data_of(id as int).data
                        },
                        ..old(self).layout_data_of(id as int)
                    }),
                    ..old(self).nodes@[id as int]
                }),
            ),
    {
        let node = &mut self.nodes[id];
        match &mut node.layout {
            Some(wrapper) => {
                wrapper.data.after_style = Some(style);
            },
            None => {
                proof {
                    assert(false);
                }
            },
        }
    }
}

} // verus!
