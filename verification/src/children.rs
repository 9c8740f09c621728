//! The pseudo-aware children iterator: a lazy, finite, non-restartable
//! sequence of thread-safe handles.  For a real parent it yields the
//! synthetic before node (if present, exactly once), then the real children
//! in document order, then the synthetic after node (if present, exactly
//! once); an after node is always the last element.  A pseudo-tagged parent
//! has no real children, so it yields at most the single handle its own
//! `first_child` synthesis exposes.

use vstd::prelude::*;
use crate::dom::Dom;
use crate::traverse::{lemma_same_tree_preserves, node_shape_eq, same_tree};
use crate::wrapper::{PseudoElementType, ThreadSafeLayoutNode, decreases_from, real_first_child};

verus! {

/// The run of handles reached from `h` by following `next_sibling`,
/// beginning with `h` itself.  The node index grows strictly along the run,
/// so the run is finite.
pub open spec fn sibling_chain(dom: Dom, h: ThreadSafeLayoutNode) -> Seq<ThreadSafeLayoutNode>
    decreases dom.len() - h.node.id,
        when dom.wf() && dom.valid_id(h.node.id as int)
        via sibling_chain_decreases
{
    match h.next_sibling_spec(dom) {
        None => seq![h],
        Some(s) => seq![h] + sibling_chain(dom, s),
    }
}

#[via_fn]
proof fn sibling_chain_decreases(dom: Dom, h: ThreadSafeLayoutNode) {
    assert(dom.node_wf(h.node.id as int));
}

/// The synthetic after node of a real parent handle.
pub open spec fn after_node(dom: Dom, p: ThreadSafeLayoutNode) -> ThreadSafeLayoutNode
    recommends
        dom.has_after(p.node.id as int),
{
    ThreadSafeLayoutNode {
        node: p.node,
        pseudo: PseudoElementType::After(dom.after_display_of(p.node.id as int)),
    }
}

/// The logical child sequence of a parent handle: what its children
/// iterator yields, in order.
pub open spec fn child_sequence(dom: Dom, p: ThreadSafeLayoutNode) -> Seq<ThreadSafeLayoutNode> {
    let base = match p.first_child_spec(dom) {
        None => Seq::<ThreadSafeLayoutNode>::empty(),
        Some(c) => if p.pseudo is Normal {
            sibling_chain(dom, c)
        } else {
            seq![c]
        },
    };
    if p.pseudo is Normal && dom.has_after(p.node.id as int) {
        base + seq![after_node(dom, p)]
    } else {
        base
    }
}

/// `first_child` never synthesizes an after node.
pub proof fn lemma_first_child_not_after(dom: Dom, h: ThreadSafeLayoutNode)
    ensures
        match h.first_child_spec(dom) {
            Some(c) => !(c.pseudo is After),
            None => true,
        },
{
}

/// Every handle on a sibling run is valid, and the run is never empty.
pub proof fn lemma_sibling_chain_valid(dom: Dom, h: ThreadSafeLayoutNode)
    requires
        dom.wf(),
        h.valid(dom),
    ensures
        sibling_chain(dom, h).len() >= 1,
        sibling_chain(dom, h)[0] == h,
    decreases dom.len() - h.node.id,
{
    assert(dom.node_wf(h.node.id as int));
}

/// For a real parent the logical child sequence decomposes as: the before
/// node exactly when its style is resolved, then the run of real children
/// in document order, then the after node exactly when its style is
/// resolved — and nothing else.
pub proof fn lemma_child_sequence_shape(dom: Dom, p: ThreadSafeLayoutNode)
    requires
        dom.wf(),
        p.valid(dom),
        p.pseudo is Normal,
    ensures
        child_sequence(dom, p) == (if dom.has_before(p.node.id as int) {
            seq![
                ThreadSafeLayoutNode {
                    node: p.node,
                    pseudo: PseudoElementType::Before(dom.before_display_of(p.node.id as int)),
                },
            ]
        } else {
            Seq::<ThreadSafeLayoutNode>::empty()
        }) + (match real_first_child(dom, p.node.id as int) {
            None => Seq::<ThreadSafeLayoutNode>::empty(),
            Some(c) => sibling_chain(dom, c),
        }) + (if dom.has_after(p.node.id as int) {
            seq![after_node(dom, p)]
        } else {
            Seq::<ThreadSafeLayoutNode>::empty()
        }),
{
    assert(dom.node_wf(p.node.id as int));
    let id = p.node.id as int;
    if dom.has_before(id) {
        let before = ThreadSafeLayoutNode {
            node: p.node,
            pseudo: PseudoElementType::Before(dom.before_display_of(id)),
        };
        assert(before.next_sibling_spec(dom) == real_first_child(dom, id));
        match real_first_child(dom, id) {
            None => {
                assert(sibling_chain(dom, before) =~= seq![before]);
            },
            Some(c) => {
                assert(sibling_chain(dom, before) == seq![before] + sibling_chain(dom, c));
            },
        }
    }
    assert(child_sequence(dom, p) =~= (if dom.has_before(id) {
        seq![
            ThreadSafeLayoutNode {
                node: p.node,
                pseudo: PseudoElementType::Before(dom.before_display_of(id)),
            },
        ]
    } else {
        Seq::<ThreadSafeLayoutNode>::empty()
    }) + (match real_first_child(dom, id) {
        None => Seq::<ThreadSafeLayoutNode>::empty(),
        Some(c) => sibling_chain(dom, c),
    }) + (if dom.has_after(id) {
        seq![after_node(dom, p)]
    } else {
        Seq::<ThreadSafeLayoutNode>::empty()
    }));
}

/// The run of real children consists of real (non-pseudo) handles only, in
/// strictly ascending document order.
pub proof fn lemma_sibling_chain_real(dom: Dom, h: ThreadSafeLayoutNode)
    requires
        dom.wf(),
        h.valid(dom),
        h.pseudo is Normal,
    ensures
        forall|i: int|
            0 <= i < sibling_chain(dom, h).len() ==> (#[trigger] sibling_chain(dom, h)[i]).pseudo
                is Normal,
        forall|i: int, j: int|
            0 <= i < j < sibling_chain(dom, h).len() ==> sibling_chain(dom, h)[i].node.id
                < sibling_chain(dom, h)[j].node.id,
    decreases dom.len() - h.node.id,
{
    assert(dom.node_wf(h.node.id as int));
    let chain = sibling_chain(dom, h);
    match h.next_sibling_spec(dom) {
        None => {
            assert(chain =~= seq![h]);
        },
        Some(s) => {
            lemma_sibling_chain_real(dom, s);
            lemma_sibling_chain_lower_bound(dom, s);
            assert(chain == seq![h] + sibling_chain(dom, s));
        },
    }
}

/// Every handle on a sibling run sits at or after the run's head.
pub proof fn lemma_sibling_chain_lower_bound(dom: Dom, h: ThreadSafeLayoutNode)
    requires
        dom.wf(),
        h.valid(dom),
    ensures
        forall|i: int|
            0 <= i < sibling_chain(dom, h).len() ==> h.node.id <= (#[trigger] sibling_chain(
                dom,
                h,
            )[i]).node.id,
    decreases dom.len() - h.node.id,
{
    assert(dom.node_wf(h.node.id as int));
    match h.next_sibling_spec(dom) {
        None => {
            assert(sibling_chain(dom, h) =~= seq![h]);
        },
        Some(s) => {
            lemma_sibling_chain_lower_bound(dom, s);
            assert(sibling_chain(dom, h) == seq![h] + sibling_chain(dom, s));
        },
    }
}

/// `first_child` steps to a valid handle strictly down the walk measure.
pub proof fn lemma_first_child_spec_step(dom: Dom, h: ThreadSafeLayoutNode)
    requires
        dom.wf(),
        h.valid(dom),
    ensures
        match h.first_child_spec(dom) {
            Some(c) => c.valid(dom) && decreases_from(h, c, dom),
            None => true,
        },
{
    assert(dom.node_wf(h.node.id as int));
}

/// `next_sibling` steps to a valid handle of a strictly larger node index.
pub proof fn lemma_next_sibling_spec_step(dom: Dom, h: ThreadSafeLayoutNode)
    requires
        dom.wf(),
        h.valid(dom),
    ensures
        match h.next_sibling_spec(dom) {
            Some(s) => s.valid(dom) && s.node.id > h.node.id,
            None => true,
        },
{
    assert(dom.node_wf(h.node.id as int));
}

/// The walk measure of a children cursor.
pub open spec fn cursor_measure(dom: Dom, cur: Option<ThreadSafeLayoutNode>) -> int {
    match cur {
        Some(c) => dom.len() - c.node.id,
        None => 0,
    }
}

/// The postorder visit order of the subtree rooted at `h` in the logical
/// (pseudo-aware) tree: each logical child's subtree in the children
/// iterator's order, then `h` itself.
pub open spec fn postorder_seq(dom: Dom, h: ThreadSafeLayoutNode) -> Seq<ThreadSafeLayoutNode>
    decreases dom.len() - h.node.id, h.pseudo_rank(), 2int, 0int,
        when dom.wf() && h.valid(dom)
        via postorder_seq_decreases
{
    postorder_rest(dom, h.first_child_spec(dom), h) + seq![h]
}

/// The postorder visit order of the subtrees that a children iterator of
/// `parent` whose cursor stands at `cur` has yet to walk: each remaining
/// sibling's subtree in order, then (for a real parent) the after node's.
pub open spec fn postorder_rest(
    dom: Dom,
    cur: Option<ThreadSafeLayoutNode>,
    parent: ThreadSafeLayoutNode,
) -> Seq<ThreadSafeLayoutNode>
    decreases dom.len() - parent.node.id, parent.pseudo_rank(), 1int, cursor_measure(dom, cur),
        when dom.wf() && parent.valid(dom) && (match cur {
            Some(c) => c.valid(dom) && decreases_from(parent, c, dom),
            None => true,
        })
        via postorder_rest_decreases
{
    match cur {
        Some(c) => {
            let follow = if parent.pseudo is Normal {
                c.next_sibling_spec(dom)
            } else {
                None
            };
            postorder_seq(dom, c) + postorder_rest(dom, follow, parent)
        },
        None => {
            if parent.pseudo is Normal && dom.has_after(parent.node.id as int) {
                postorder_seq(dom, after_node(dom, parent))
            } else {
                Seq::<ThreadSafeLayoutNode>::empty()
            }
        },
    }
}

#[via_fn]
proof fn postorder_seq_decreases(dom: Dom, h: ThreadSafeLayoutNode) {
    lemma_first_child_spec_step(dom, h);
}

#[via_fn]
proof fn postorder_rest_decreases(
    dom: Dom,
    cur: Option<ThreadSafeLayoutNode>,
    parent: ThreadSafeLayoutNode,
) {
    match cur {
        Some(c) => {
            lemma_next_sibling_spec_step(dom, c);
        },
        None => {},
    }
}

/// The postorder visit order of `h`'s logical children's subtrees.
pub open spec fn postorder_children(dom: Dom, h: ThreadSafeLayoutNode) -> Seq<
    ThreadSafeLayoutNode,
> {
    postorder_rest(dom, h.first_child_spec(dom), h)
}


/// The subtree's postorder walk is its children's walks followed by the
/// root itself.
pub proof fn lemma_postorder_seq_unfold(dom: Dom, h: ThreadSafeLayoutNode)
    requires
        dom.wf(),
        h.valid(dom),
    ensures
        postorder_seq(dom, h) == postorder_children(dom, h) + seq![h],
{
    lemma_first_child_spec_step(dom, h);
}

/// Iterates over the logical children of one thread-safe handle.
pub struct ThreadSafeLayoutNodeChildrenIterator {
    current_node: Option<ThreadSafeLayoutNode>,
    parent_node: Option<ThreadSafeLayoutNode>,
}

impl ThreadSafeLayoutNodeChildrenIterator {
    pub closed spec fn parent(self) -> ThreadSafeLayoutNode {
        self.parent_node->Some_0
    }

    /// An iterator state reachable from `children`: the parent is present
    /// and valid, its side-table is initialized, and the cursor handle (if
    /// any) is valid and strictly below the parent on the walk measure.
    pub closed spec fn valid(self, dom: Dom) -> bool {
        &&& self.parent_node matches Some(p) && p.valid(dom) && dom.initialized(p.node.id as int)
        &&& match self.current_node {
            Some(c) => c.valid(dom) && decreases_from(self.parent(), c, dom),
            None => true,
        }
    }

    /// The handles this iterator has yet to yield, in order.
    pub closed spec fn remaining(self, dom: Dom) -> Seq<ThreadSafeLayoutNode> {
        let p = self.parent();
        match self.current_node {
            Some(c) => if c.pseudo is After {
                Seq::<ThreadSafeLayoutNode>::empty()
            } else {
                let base = if p.pseudo is Normal {
                    sibling_chain(dom, c)
                } else {
                    seq![c]
                };
                if p.pseudo is Normal && dom.has_after(p.node.id as int) {
                    base + seq![after_node(dom, p)]
                } else {
                    base
                }
            },
            None => if p.pseudo is Normal && dom.has_after(p.node.id as int) {
                seq![after_node(dom, p)]
            } else {
                Seq::<ThreadSafeLayoutNode>::empty()
            },
        }
    }

    /// The postorder visit order of the subtrees of the handles this
    /// iterator has yet to yield.
    pub closed spec fn remaining_postorder(self, dom: Dom) -> Seq<ThreadSafeLayoutNode> {
        match self.current_node {
            Some(c) => if c.pseudo is After {
                Seq::<ThreadSafeLayoutNode>::empty()
            } else {
                postorder_rest(dom, Some(c), self.parent())
            },
            None => postorder_rest(dom, None, self.parent()),
        }
    }

    /// Yields the next logical child, or `None` once the sequence is
    /// exhausted; after an after node was yielded the iterator stays
    /// exhausted for good.  Each yielded child's subtree accounts for the
    /// leading piece of the pending postorder walk.
    pub fn next(&mut self, dom: &Dom) -> (r: Option<ThreadSafeLayoutNode>)
        requires
            dom.wf(),
            old(self).valid(*dom),
        ensures
            final(self).valid(*dom),
            final(self).parent() == old(self).parent(),
            old(self).remaining(*dom).len() == 0 ==> r is None && *final(self) == *old(self),
            old(self).remaining(*dom).len() > 0 ==> r == Some(old(self).remaining(*dom)[0])
                && final(self).remaining(*dom) == old(self).remaining(*dom).subrange(
                1,
                old(self).remaining(*dom).len() as int,
            ),
            r matches Some(c) ==> c.valid(*dom) && decreases_from(old(self).parent(), c, *dom),
            old(self).remaining(*dom).len() == 0 ==> old(self).remaining_postorder(*dom)
                == Seq::<ThreadSafeLayoutNode>::empty(),
            old(self).remaining(*dom).len() > 0 ==> old(self).remaining_postorder(*dom)
                == postorder_seq(*dom, old(self).remaining(*dom)[0])
                + final(self).remaining_postorder(*dom),
    {
        let node = self.current_node;

        match node {
            Some(n) => {
                if n.pseudo.is_after() {
                    return None;
                }
                match self.parent_node {
                    Some(parent_node) => {
                        if matches!(parent_node.pseudo, PseudoElementType::Normal) {
                            proof {
                                lemma_sibling_chain_valid(*dom, n);
                            }
                            let stepped = n.next_sibling(dom);
                            proof {
                                match stepped {
                                    Some(s) => {
                                        lemma_sibling_chain_valid(*dom, s);
                                        assert(sibling_chain(*dom, n) == seq![n] + sibling_chain(
                                            *dom,
                                            s,
                                        ));
                                    },
                                    None => {
                                        assert(sibling_chain(*dom, n) =~= seq![n]);
                                    },
                                }
                            }
                            self.current_node = stepped;
                            proof {
                                assert(self.remaining(*dom) =~= old(self).remaining(
                                    *dom,
                                ).subrange(1, old(self).remaining(*dom).len() as int));
                                assert(old(self).remaining(*dom)[0] == n);
                                assert(match stepped {
                                    Some(s) => s.pseudo is Normal,
                                    None => true,
                                });
                                assert(old(self).remaining_postorder(*dom) == postorder_seq(
                                    *dom,
                                    n,
                                ) + self.remaining_postorder(*dom));
                            }
                        } else {
                            self.current_node = None;
                            proof {
                                assert(self.remaining(*dom) =~= old(self).remaining(
                                    *dom,
                                ).subrange(1, old(self).remaining(*dom).len() as int));
                                assert(old(self).remaining(*dom)[0] == n);
                                assert(old(self).remaining_postorder(*dom) == postorder_seq(
                                    *dom,
                                    n,
                                ) + self.remaining_postorder(*dom));
                            }
                        }
                    },
                    None => {
                        proof {
                            assert(false);
                        }
                    },
                }
            },
            None => {
                match self.parent_node {
                    Some(parent_node) => {
                        if parent_node.has_after_pseudo(dom) {
                            let pseudo_after_node = if matches!(
                                parent_node.pseudo,
                                PseudoElementType::Normal,
                            ) {
                                let pseudo = PseudoElementType::After(
                                    parent_node.get_after_display(dom),
                                );
                                Some(parent_node.with_pseudo(pseudo))
                            } else {
                                None
                            };
                            self.current_node = pseudo_after_node;
                            proof {
                                if parent_node.pseudo is Normal {
                                    let after = after_node(*dom, parent_node);
                                    assert(self.current_node == Some(after));
                                    assert(old(self).remaining(*dom)[0] == after);
                                    assert(old(self).remaining_postorder(*dom) == postorder_seq(
                                        *dom,
                                        after,
                                    ));
                                    assert(postorder_seq(*dom, after)
                                        + Seq::<ThreadSafeLayoutNode>::empty() =~= postorder_seq(
                                        *dom,
                                        after,
                                    ));
                                } else {
                                    assert(old(self).remaining_postorder(*dom)
                                        =~= Seq::<ThreadSafeLayoutNode>::empty());
                                }
                            }
                            return self.current_node;
                        }
                    },
                    None => {
                        proof {
                            assert(false);
                        }
                    },
                }
            },
        }

        node
    }
}

impl ThreadSafeLayoutNode {
    /// An iterator over this handle's logical children.
    pub fn children(&self, dom: &Dom) -> (it: ThreadSafeLayoutNodeChildrenIterator)
        requires
            dom.wf(),
            self.valid(*dom),
            dom.initialized(self.node.id as int),
        ensures
            it.valid(*dom),
            it.parent() == *self,
            it.remaining(*dom) == child_sequence(*dom, *self),
            it.remaining_postorder(*dom) == postorder_children(*dom, *self),
    {
        let first = self.first_child(dom);
        proof {
            lemma_first_child_not_after(*dom, *self);
            match first {
                Some(c) => {
                    if self.pseudo is Normal {
                        lemma_sibling_chain_valid(*dom, c);
                    }
                },
                None => {},
            }
        }
        let it = ThreadSafeLayoutNodeChildrenIterator {
            current_node: first,
            parent_node: Some(self.clone()),
        };
        proof {
            assert(it.remaining(*dom) =~= child_sequence(*dom, *self));
            assert(it.remaining_postorder(*dom) == postorder_children(*dom, *self));
        }
        it
    }
}

/// Under `same_tree` the synthesis reads of one handle's node agree: the
/// two snapshots expose the same links, pseudo styles and display modes.
pub proof fn lemma_same_tree_node(d1: Dom, d2: Dom, h: ThreadSafeLayoutNode)
    requires
        same_tree(d1, d2),
        d1.valid_id(h.node.id as int),
    ensures
        h.first_child_spec(d2) == h.first_child_spec(d1),
        h.next_sibling_spec(d2) == h.next_sibling_spec(d1),
        d2.has_before(h.node.id as int) == d1.has_before(h.node.id as int),
        d2.has_after(h.node.id as int) == d1.has_after(h.node.id as int),
        after_node(d2, h) == after_node(d1, h),
        h.valid(d1) ==> h.valid(d2),
{
    assert(node_shape_eq(d1, d2, h.node.id as int));
    if !d1.initialized(h.node.id as int) {
        assert(d1.nodes@[h.node.id as int].layout is None);
        assert(d2.nodes@[h.node.id as int].layout is None);
    }
}

/// Under `same_tree` the sibling runs agree.
pub proof fn lemma_same_tree_sibling_chain(d1: Dom, d2: Dom, h: ThreadSafeLayoutNode)
    requires
        same_tree(d1, d2),
        d1.wf(),
        h.valid(d1),
    ensures
        sibling_chain(d2, h) == sibling_chain(d1, h),
    decreases d1.len() - h.node.id,
{
    lemma_same_tree_preserves(d1, d2);
    lemma_same_tree_node(d1, d2, h);
    assert(d1.node_wf(h.node.id as int));
    match h.next_sibling_spec(d1) {
        None => {
            assert(sibling_chain(d1, h) =~= seq![h]);
            assert(sibling_chain(d2, h) =~= seq![h]);
        },
        Some(s) => {
            lemma_next_sibling_spec_step(d1, h);
            lemma_same_tree_sibling_chain(d1, d2, s);
            assert(sibling_chain(d1, h) == seq![h] + sibling_chain(d1, s));
            assert(sibling_chain(d2, h) == seq![h] + sibling_chain(d2, s));
        },
    }
}

/// Under `same_tree` the postorder walk of a subtree agrees.
pub proof fn lemma_same_tree_postorder_seq(d1: Dom, d2: Dom, h: ThreadSafeLayoutNode)
    requires
        same_tree(d1, d2),
        d1.wf(),
        h.valid(d1),
    ensures
        postorder_seq(d2, h) == postorder_seq(d1, h),
    decreases d1.len() - h.node.id, h.pseudo_rank(), 2int, 0int,
{
    lemma_same_tree_preserves(d1, d2);
    lemma_same_tree_node(d1, d2, h);
    lemma_first_child_spec_step(d1, h);
    lemma_same_tree_postorder_rest(d1, d2, h.first_child_spec(d1), h);
}

/// Under `same_tree` the pending postorder walk of a cursor agrees.
pub proof fn lemma_same_tree_postorder_rest(
    d1: Dom,
    d2: Dom,
    cur: Option<ThreadSafeLayoutNode>,
    parent: ThreadSafeLayoutNode,
)
    requires
        same_tree(d1, d2),
        d1.wf(),
        parent.valid(d1),
        match cur {
            Some(c) => c.valid(d1) && decreases_from(parent, c, d1),
            None => true,
        },
    ensures
        postorder_rest(d2, cur, parent) == postorder_rest(d1, cur, parent),
    decreases d1.len() - parent.node.id, parent.pseudo_rank(), 1int, cursor_measure(d1, cur),
{
    lemma_same_tree_preserves(d1, d2);
    lemma_same_tree_node(d1, d2, parent);
    match cur {
        Some(c) => {
            lemma_same_tree_node(d1, d2, c);
            lemma_same_tree_postorder_seq(d1, d2, c);
            lemma_next_sibling_spec_step(d1, c);
            let follow = if parent.pseudo is Normal {
                c.next_sibling_spec(d1)
            } else {
                None
            };
            lemma_same_tree_postorder_rest(d1, d2, follow, parent);
        },
        None => {
            if parent.pseudo is Normal && d1.has_after(parent.node.id as int) {
                lemma_same_tree_postorder_seq(d1, d2, after_node(d1, parent));
            }
        },
    }
}

impl ThreadSafeLayoutNodeChildrenIterator {
    /// A process step that preserves the tree (in the `same_tree` sense)
    /// invalidates nothing about a children iterator: its state stays
    /// valid and both pending sequences are unchanged.
    pub proof fn lemma_same_tree_iterator(self, d1: Dom, d2: Dom)
        requires
            same_tree(d1, d2),
            d1.wf(),
            self.valid(d1),
        ensures
            self.valid(d2),
            self.remaining(d2) == self.remaining(d1),
            self.remaining_postorder(d2) == self.remaining_postorder(d1),
    {
        lemma_same_tree_preserves(d1, d2);
        let p = self.parent();
        lemma_same_tree_node(d1, d2, p);
        assert(node_shape_eq(d1, d2, p.node.id as int));
        match self.current_node {
            Some(c) => {
                lemma_same_tree_node(d1, d2, c);
                if !(c.pseudo is After) {
                    if p.pseudo is Normal {
                        lemma_same_tree_sibling_chain(d1, d2, c);
                    }
                    lemma_same_tree_postorder_rest(d1, d2, Some(c), p);
                }
            },
            None => {
                lemma_same_tree_postorder_rest(d1, d2, None, p);
            },
        }
    }
}

} // verus!
