//! The postorder mutable traversal protocol that flow construction drives
//! over thread-safe handles: each logical child's subtree is visited before
//! the parent, in the children iterator's order (synthetic before node,
//! real children, synthetic after node), a pruned subtree counts as
//! processed without being visited, and the first failing process step
//! aborts the whole traversal at once, leaving later siblings and every
//! ancestor unprocessed.
//!
//! The visitor carries a ghost record of its process calls, so the
//! traversal's contract can pin what reaches the visitor: the record grows
//! by a scattered selection of the subtree's postorder walk, everything
//! before a failure succeeded, and a visitor that never prunes sees the
//! whole walk.

use vstd::prelude::*;
use crate::children::{lemma_postorder_seq_unfold, lemma_same_tree_postorder_seq, postorder_children,
    postorder_seq};
use crate::dom::Dom;
use crate::wrapper::ThreadSafeLayoutNode;

verus! {

/// The two snapshots agree on everything a traversal navigates by: the
/// tree links, the character data, which side-tables exist, the stored
/// teardown channel, and the resolved styles.  Only the restyle damage,
/// the flags and the flow result of a node may differ: exactly the fields
/// a process step is allowed to write.
pub open spec fn same_tree(d1: Dom, d2: Dom) -> bool {
    &&& d2.len() == d1.len()
    &&& forall|i: int| 0 <= i < d1.len() ==> #[trigger] node_shape_eq(d1, d2, i)
}

/// Node `i` has the same links, text, side-table presence, channel and
/// styles in both snapshots.
pub open spec fn node_shape_eq(d1: Dom, d2: Dom, i: int) -> bool {
    &&& d2.nodes@[i].parent == d1.nodes@[i].parent
    &&& d2.nodes@[i].first_child == d1.nodes@[i].first_child
    &&& d2.nodes@[i].next_sibling == d1.nodes@[i].next_sibling
    &&& d2.nodes@[i].text == d1.nodes@[i].text
    &&& d2.initialized(i) == d1.initialized(i)
    &&& (d1.initialized(i) ==> {
        &&& d2.layout_data_of(i).chan == d1.layout_data_of(i).chan
        &&& d2.layout_data_of(i).shared_data.style == d1.layout_data_of(i).shared_data.style
        &&& d2.layout_data_of(i).data.before_style == d1.layout_data_of(i).data.before_style
        &&& d2.layout_data_of(i).data.after_style == d1.layout_data_of(i).data.after_style
    })
}

pub proof fn lemma_same_tree_refl(d: Dom)
    ensures
        same_tree(d, d),
{
}

pub proof fn lemma_same_tree_sym(d1: Dom, d2: Dom)
    requires
        same_tree(d1, d2),
    ensures
        same_tree(d2, d1),
{
    assert forall|i: int| 0 <= i < d2.len() implies #[trigger] node_shape_eq(d2, d1, i) by {
        assert(node_shape_eq(d1, d2, i));
    }
}

pub proof fn lemma_same_tree_trans(d1: Dom, d2: Dom, d3: Dom)
    requires
        same_tree(d1, d2),
        same_tree(d2, d3),
    ensures
        same_tree(d1, d3),
{
    assert forall|i: int| 0 <= i < d1.len() implies #[trigger] node_shape_eq(d1, d3, i) by {
        assert(node_shape_eq(d1, d2, i));
        assert(node_shape_eq(d2, d3, i));
    }
}

/// Everything a traversal relies on survives a process step: the arena
/// stays well formed, initialization stays complete, and every valid handle
/// stays valid.
pub proof fn lemma_same_tree_preserves(d1: Dom, d2: Dom)
    requires
        same_tree(d1, d2),
    ensures
        d1.wf() ==> d2.wf(),
        d1.all_initialized() ==> d2.all_initialized(),
        forall|h: ThreadSafeLayoutNode| h.valid(d1) ==> #[trigger] h.valid(d2),
{
    if d1.wf() {
        assert forall|i: int| 0 <= i < d2.len() implies #[trigger] d2.node_wf(i) by {
            assert(node_shape_eq(d1, d2, i));
            assert(d1.node_wf(i));
        }
    }
    if d1.all_initialized() {
        assert forall|i: int| 0 <= i < d2.len() implies #[trigger] d2.initialized(i) by {
            assert(node_shape_eq(d1, d2, i));
        }
    }
    assert forall|h: ThreadSafeLayoutNode| h.valid(d1) implies #[trigger] h.valid(d2) by {
        assert(node_shape_eq(d1, d2, h.node.id as int));
    }
}

/// Whether `xs` can be read off `ys` left to right: `xs` is a scattered
/// subsequence of `ys`.
pub open spec fn is_subsequence_of<A>(xs: Seq<A>, ys: Seq<A>) -> bool
    decreases xs.len() + ys.len(),
{
    if xs.len() == 0 {
        true
    } else if ys.len() == 0 {
        false
    } else {
        (xs[0] == ys[0] && is_subsequence_of(xs.skip(1), ys.skip(1))) || is_subsequence_of(
            xs,
            ys.skip(1),
        )
    }
}

pub proof fn lemma_subsequence_refl<A>(xs: Seq<A>)
    ensures
        is_subsequence_of(xs, xs),
    decreases xs.len(),
{
    if xs.len() > 0 {
        lemma_subsequence_refl(xs.skip(1));
    }
}

/// A subsequence survives padding on the left of the larger sequence.
pub proof fn lemma_subsequence_pad_left<A>(xs: Seq<A>, ys: Seq<A>, zs: Seq<A>)
    requires
        is_subsequence_of(xs, ys),
    ensures
        is_subsequence_of(xs, zs + ys),
    decreases zs.len(),
{
    if zs.len() == 0 {
        assert(zs + ys =~= ys);
    } else {
        lemma_subsequence_pad_left(xs, ys, zs.skip(1));
        assert((zs + ys).skip(1) =~= zs.skip(1) + ys);
        if xs.len() > 0 {
            assert(is_subsequence_of(xs, (zs + ys).skip(1)));
        }
    }
}

/// Subsequences compose under concatenation.
pub proof fn lemma_subsequence_concat<A>(a1: Seq<A>, b1: Seq<A>, a2: Seq<A>, b2: Seq<A>)
    requires
        is_subsequence_of(a1, b1),
        is_subsequence_of(a2, b2),
    ensures
        is_subsequence_of(a1 + a2, b1 + b2),
    decreases a1.len() + b1.len(),
{
    if a1.len() == 0 {
        assert(a1 + a2 =~= a2);
        lemma_subsequence_pad_left(a2, b2, b1);
    } else {
        if a1[0] == b1[0] && is_subsequence_of(a1.skip(1), b1.skip(1)) {
            lemma_subsequence_concat(a1.skip(1), b1.skip(1), a2, b2);
            assert((a1 + a2).skip(1) =~= a1.skip(1) + a2);
            assert((b1 + b2).skip(1) =~= b1.skip(1) + b2);
            assert((a1 + a2)[0] == (b1 + b2)[0]);
        } else {
            assert(is_subsequence_of(a1, b1.skip(1)));
            lemma_subsequence_concat(a1, b1.skip(1), a2, b2);
            assert((b1 + b2).skip(1) =~= b1.skip(1) + b2);
        }
    }
}

/// A subsequence survives padding on the right of the larger sequence.
pub proof fn lemma_subsequence_pad_right<A>(xs: Seq<A>, ys: Seq<A>, zs: Seq<A>)
    requires
        is_subsequence_of(xs, ys),
    ensures
        is_subsequence_of(xs, ys + zs),
{
    lemma_subsequence_concat(xs, ys, Seq::<A>::empty(), zs);
    assert(xs + Seq::<A>::empty() =~= xs);
}

/// What flow construction supplies to drive a postorder traversal.  A
/// process step may write the traversal-owned side-table fields (restyle
/// damage, flags, flow result) but leaves the tree shape, the channel and
/// the resolved styles alone.  Which subtrees are pruned is a function of
/// the visitor's state, named by `prune_spec`; what the visitor has been
/// handed so far is its ghost call record, named by `processed`.
pub trait PostorderNodeMutTraversal: Sized {
    /// Which handles this visitor prunes, as a function of its state.
    spec fn prune_spec(&self, dom: Dom, node: ThreadSafeLayoutNode) -> bool;

    /// The visitor's record of the process calls it has seen: each handle
    /// with the outcome its process step returned, in call order.
    spec fn processed(&self) -> Seq<(ThreadSafeLayoutNode, bool)>;

    /// Whether the traversal should skip this handle's subtree entirely.
    fn should_prune(&self, dom: &Dom, node: &ThreadSafeLayoutNode) -> (r: bool)
        ensures
            r == self.prune_spec(*dom, *node),
    ;

    /// The operation to perform on this handle once all its children have
    /// been processed; `false` aborts the traversal.
    fn process(&mut self, dom: &mut Dom, node: &ThreadSafeLayoutNode) -> (r: bool)
        requires
            old(dom).wf(),
            node.valid(*old(dom)),
        ensures
            same_tree(*old(dom), *final(dom)),
            final(self).processed() == old(self).processed().push((*node, r)),
    ;
}

/// The visitor's record only grew: what stood in it before is still its
/// prefix.
pub open spec fn record_extends<T: PostorderNodeMutTraversal>(pre: T, post: T) -> bool {
    &&& post.processed().len() >= pre.processed().len()
    &&& post.processed().subrange(0, pre.processed().len() as int) == pre.processed()
}

/// The entries a traversal appended to the visitor's record.
pub open spec fn new_record<T: PostorderNodeMutTraversal>(pre: T, post: T) -> Seq<
    (ThreadSafeLayoutNode, bool),
> {
    post.processed().skip(pre.processed().len() as int)
}

/// The handles of a record, without the outcomes.
pub open spec fn record_handles(rec: Seq<(ThreadSafeLayoutNode, bool)>) -> Seq<
    ThreadSafeLayoutNode,
> {
    rec.map_values(|e: (ThreadSafeLayoutNode, bool)| e.0)
}

/// Every recorded process step succeeded.
pub open spec fn record_all_true(rec: Seq<(ThreadSafeLayoutNode, bool)>) -> bool {
    forall|i: int| 0 <= i < rec.len() ==> (#[trigger] rec[i]).1
}

/// Every recorded process step but possibly the last succeeded: a failure
/// ends the record at once.
pub open spec fn record_true_before_last(rec: Seq<(ThreadSafeLayoutNode, bool)>) -> bool {
    forall|i: int| 0 <= i < rec.len() - 1 ==> (#[trigger] rec[i]).1
}

/// Record growth composes, and the appended entries concatenate.
pub proof fn lemma_record_chain<T: PostorderNodeMutTraversal>(a: T, b: T, c: T)
    requires
        record_extends(a, b),
        record_extends(b, c),
    ensures
        record_extends(a, c),
        new_record(a, c) == new_record(a, b) + new_record(b, c),
{
    let pa = a.processed();
    let pb = b.processed();
    let pc = c.processed();
    assert forall|i: int| 0 <= i < pa.len() implies pc[i] == pa[i] by {
        assert(pa[i] == pb.subrange(0, pa.len() as int)[i]);
        assert(pb[i] == pc.subrange(0, pb.len() as int)[i]);
    }
    assert(pc.subrange(0, pa.len() as int) =~= pa);
    assert forall|i: int| 0 <= i < pb.len() implies pc[i] == pb[i] by {
        assert(pb[i] == pc.subrange(0, pb.len() as int)[i]);
    }
    assert(new_record(a, c) =~= new_record(a, b) + new_record(b, c));
}


impl ThreadSafeLayoutNode {
    /// Traverses this handle's logical subtree depth-first, children before
    /// parent, in the children iterator's order.
    ///
    /// The visitor's record tells the story: the traversal appends an
    /// order-preserving selection of the subtree's postorder walk (so
    /// nothing outside the subtree is ever processed, no walk position is
    /// processed twice, and no node is processed before a processed
    /// descendant).  Everything before the last appended entry succeeded:
    /// the first failure ends the record and propagates `false` to the
    /// caller at once, so no later sibling and no ancestor is processed.
    /// On success the root itself is the last entry — unless the whole
    /// subtree was pruned, which counts as success without visiting
    /// anything.  A visitor that never prunes and never fails is handed
    /// the complete postorder walk, one process call per walk position.
    pub fn traverse_postorder_mut<T: PostorderNodeMutTraversal>(
        &self,
        dom: &mut Dom,
        traversal: &mut T,
    ) -> (r: bool)
        requires
            old(dom).wf(),
            old(dom).all_initialized(),
            self.valid(*old(dom)),
        ensures
            same_tree(*old(dom), *final(dom)),
            final(dom).wf(),
            final(dom).all_initialized(),
            record_extends(*old(traversal), *final(traversal)),
            is_subsequence_of(
                record_handles(new_record(*old(traversal), *final(traversal))),
                postorder_seq(*old(dom), *self),
            ),
            record_true_before_last(new_record(*old(traversal), *final(traversal))),
            r ==> record_all_true(new_record(*old(traversal), *final(traversal))),
            !r ==> new_record(*old(traversal), *final(traversal)).len() > 0 && new_record(
                *old(traversal),
                *final(traversal),
            ).last().1 == false,
            old(traversal).prune_spec(*old(dom), *self) ==> r == true && *final(dom) == *old(dom)
                && *final(traversal) == *old(traversal),
            r && !old(traversal).prune_spec(*old(dom), *self) ==> new_record(
                *old(traversal),
                *final(traversal),
            ).len() > 0 && new_record(*old(traversal), *final(traversal)).last() == (*self, true),
            (forall|t: T, d: Dom, n: ThreadSafeLayoutNode|
                !(#[trigger] t.prune_spec(d, n))) && r ==> record_handles(
                new_record(*old(traversal), *final(traversal)),
            ) == postorder_seq(*old(dom), *self),
        decreases dom.len() - self.node.id, self.pseudo_rank(),
    {
        let ghost dom0 = *dom;
        let ghost t0 = *traversal;

        if traversal.should_prune(dom, self) {
            proof {
                lemma_same_tree_refl(*dom);
                assert(traversal.processed().subrange(0, t0.processed().len() as int)
                    =~= t0.processed());
                assert(new_record(t0, *traversal) =~= Seq::<(ThreadSafeLayoutNode, bool)>::empty());
            }
            return true;
        }

        let mut it = self.children(dom);
        let ghost mut consumed: Seq<ThreadSafeLayoutNode> = Seq::empty();
        proof {
            assert(Seq::<ThreadSafeLayoutNode>::empty() + it.remaining_postorder(dom0)
                =~= it.remaining_postorder(dom0));
            assert(traversal.processed().subrange(0, t0.processed().len() as int)
                =~= t0.processed());
            assert(new_record(t0, *traversal) =~= Seq::<(ThreadSafeLayoutNode, bool)>::empty());
        }
        loop
            invariant
                dom0 == *old(dom),
                t0 == *old(traversal),
                !t0.prune_spec(dom0, *self),
                dom0.wf(),
                dom0.all_initialized(),
                dom.wf(),
                dom.all_initialized(),
                same_tree(dom0, *dom),
                dom0.len() == dom.len(),
                self.valid(dom0),
                self.valid(*dom),
                it.valid(*dom),
                it.parent() == *self,
                it.remaining_postorder(*dom) == it.remaining_postorder(dom0),
                consumed + it.remaining_postorder(dom0) == postorder_children(dom0, *self),
                record_extends(t0, *traversal),
                record_all_true(new_record(t0, *traversal)),
                is_subsequence_of(record_handles(new_record(t0, *traversal)), consumed),
                (forall|t: T, d: Dom, n: ThreadSafeLayoutNode|
                    !(#[trigger] t.prune_spec(d, n))) ==> record_handles(new_record(t0, *traversal))
                    == consumed,
            ensures
                dom0 == *old(dom),
                t0 == *old(traversal),
                !t0.prune_spec(dom0, *self),
                dom.wf(),
                dom.all_initialized(),
                same_tree(dom0, *dom),
                self.valid(*dom),
                consumed == postorder_children(dom0, *self),
                record_extends(t0, *traversal),
                record_all_true(new_record(t0, *traversal)),
                is_subsequence_of(record_handles(new_record(t0, *traversal)), consumed),
                (forall|t: T, d: Dom, n: ThreadSafeLayoutNode|
                    !(#[trigger] t.prune_spec(d, n))) ==> record_handles(new_record(t0, *traversal))
                    == consumed,
            decreases it.remaining(*dom).len(),
        {
            let ghost it0 = it;
            let ghost dom_call = *dom;
            let kid_opt = it.next(dom);
            match kid_opt {
                None => {
                    proof {
                        assert(it0.remaining(dom_call).len() == 0);
                        assert(consumed + Seq::<ThreadSafeLayoutNode>::empty() =~= consumed);
                    }
                    break;
                },
                Some(kid) => {
                    proof {
                        assert(it0.remaining(dom_call).len() > 0);
                        assert(it0.remaining_postorder(dom_call) == postorder_seq(dom_call, kid)
                            + it.remaining_postorder(dom_call));
                        lemma_same_tree_sym(dom0, *dom);
                        lemma_same_tree_preserves(*dom, dom0);
                        lemma_same_tree_postorder_seq(dom0, *dom, kid);
                        it.lemma_same_tree_iterator(*dom, dom0);
                    }
                    let ghost t_pre = *traversal;
                    let ghost dom_pre = *dom;
                    let ok = kid.traverse_postorder_mut(dom, traversal);
                    proof {
                        lemma_same_tree_trans(dom0, dom_pre, *dom);
                        lemma_same_tree_preserves(dom_pre, *dom);
                        lemma_record_chain(t0, t_pre, *traversal);
                        assert(record_handles(new_record(t0, *traversal)) =~= record_handles(
                            new_record(t0, t_pre),
                        ) + record_handles(new_record(t_pre, *traversal)));
                        lemma_same_tree_postorder_seq(dom0, dom_pre, kid);
                        lemma_subsequence_concat(
                            record_handles(new_record(t0, t_pre)),
                            consumed,
                            record_handles(new_record(t_pre, *traversal)),
                            postorder_seq(dom0, kid),
                        );
                    }
                    if !ok {
                        proof {
                            let rec_pre = new_record(t0, t_pre);
                            let rec_kid = new_record(t_pre, *traversal);
                            let rec = new_record(t0, *traversal);
                            lemma_subsequence_pad_right(
                                record_handles(rec),
                                consumed + postorder_seq(dom0, kid),
                                it.remaining_postorder(dom0) + seq![*self],
                            );
                            lemma_postorder_seq_unfold(dom0, *self);
                            assert(consumed + (postorder_seq(dom0, kid) + it.remaining_postorder(
                                dom0,
                            )) =~= postorder_children(dom0, *self));
                            assert(consumed + postorder_seq(dom0, kid) + (it.remaining_postorder(
                                dom0,
                            ) + seq![*self]) =~= postorder_seq(dom0, *self));
                            assert(rec == rec_pre + rec_kid);
                            assert(rec_kid.len() > 0);
                            assert(rec.last() == rec_kid.last());
                            assert forall|i: int| 0 <= i < rec.len() - 1 implies (#[trigger] rec[i]).1 by {
                                if i < rec_pre.len() {
                                    assert(rec[i] == rec_pre[i]);
                                } else {
                                    assert(rec[i] == rec_kid[i - rec_pre.len()]);
                                }
                            }
                        }
                        return false;
                    }
                    proof {
                        let ghost consumed_pre = consumed;
                        consumed = consumed + postorder_seq(dom0, kid);
                        it.lemma_same_tree_iterator(dom_pre, *dom);
                        let rec_pre = new_record(t0, t_pre);
                        let rec_kid = new_record(t_pre, *traversal);
                        let rec = new_record(t0, *traversal);
                        assert(rec == rec_pre + rec_kid);
                        assert forall|i: int| 0 <= i < rec.len() implies (#[trigger] rec[i]).1 by {
                            if i < rec_pre.len() {
                                assert(rec[i] == rec_pre[i]);
                            } else {
                                assert(rec[i] == rec_kid[i - rec_pre.len()]);
                            }
                        }
                        assert(consumed_pre + postorder_seq(dom0, kid) + it.remaining_postorder(
                            dom0,
                        ) =~= consumed_pre + (postorder_seq(dom0, kid) + it.remaining_postorder(
                            dom0,
                        )));
                        if forall|t: T, d: Dom, n: ThreadSafeLayoutNode|
                            !(#[trigger] t.prune_spec(d, n)) {
                            assert(record_handles(rec_kid) == postorder_seq(dom_pre, kid));
                            assert(record_handles(rec) =~= consumed);
                        }
                    }
                },
            }
        }

        let ghost t_mid = *traversal;
        let ghost dom_mid = *dom;
        let processed_ok = traversal.process(dom, self);
        proof {
            lemma_same_tree_trans(dom0, dom_mid, *dom);
            lemma_same_tree_preserves(dom_mid, *dom);
            assert(traversal.processed() == t_mid.processed().push((*self, processed_ok)));
            assert(traversal.processed().subrange(0, t_mid.processed().len() as int)
                =~= t_mid.processed());
            lemma_record_chain(t0, t_mid, *traversal);
            assert(new_record(t_mid, *traversal) =~= seq![(*self, processed_ok)]);
            let rec_pre = new_record(t0, t_mid);
            let rec = new_record(t0, *traversal);
            assert(rec == rec_pre + seq![(*self, processed_ok)]);
            assert(record_handles(rec) =~= record_handles(rec_pre) + seq![*self]);
            lemma_subsequence_refl(seq![*self]);
            lemma_subsequence_concat(record_handles(rec_pre), consumed, seq![*self], seq![*self]);
            lemma_postorder_seq_unfold(dom0, *self);
            assert(consumed + seq![*self] =~= postorder_seq(dom0, *self));
            assert(rec.last() == (*self, processed_ok));
            assert forall|i: int| 0 <= i < rec.len() - 1 implies (#[trigger] rec[i]).1 by {
                assert(rec[i] == rec_pre[i]);
            }
            if processed_ok {
                assert forall|i: int| 0 <= i < rec.len() implies (#[trigger] rec[i]).1 by {
                    if i < rec_pre.len() {
                        assert(rec[i] == rec_pre[i]);
                    }
                }
            }
            if forall|t: T, d: Dom, n: ThreadSafeLayoutNode| !(#[trigger] t.prune_spec(d, n)) {
                assert(record_handles(rec) =~= postorder_seq(dom0, *self));
            }
        }
        processed_ok
    }
}

} // verus!
