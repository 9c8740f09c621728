use layout_wrapper::data::LayoutChan;
use layout_wrapper::dom::Dom;
use layout_wrapper::style::{ComputedStyle, Content, DisplayMode, WhiteSpace};
use layout_wrapper::traverse::PostorderNodeMutTraversal;
use layout_wrapper::wrapper::{LayoutNode, ThreadSafeLayoutNode};

struct RecordingTraversal {
    processed: Vec<usize>,
    prune: Vec<usize>,
    fail_on: Option<usize>,
}

impl RecordingTraversal {
    fn new() -> RecordingTraversal {
        RecordingTraversal { processed: Vec::new(), prune: Vec::new(), fail_on: None }
    }
}

impl PostorderNodeMutTraversal for RecordingTraversal {
    // Specification hook of the trait; compiled code never calls it.
    fn prune_spec(&self, _dom: Dom, _node: ThreadSafeLayoutNode) -> bool {
        false
    }

    // Specification hook of the trait; compiled code never calls it.
    fn processed(&self) -> vstd::prelude::Seq<(ThreadSafeLayoutNode, bool)> {
        unreachable!()
    }

    fn should_prune(&self, _dom: &Dom, node: &ThreadSafeLayoutNode) -> bool {
        self.prune.contains(&node.node.id)
    }

    fn process(&mut self, _dom: &mut Dom, node: &ThreadSafeLayoutNode) -> bool {
        self.processed.push(node.node.id);
        self.fail_on != Some(node.node.id)
    }
}

/// Three levels: the root (0) has children 1, 4 and 6; node 1 has children
/// 2 and 3; node 4 has child 5.
fn three_level_tree() -> Dom {
    let mut dom = Dom::new();
    let root = dom.new_element();
    let a = dom.new_element();
    let a1 = dom.new_element();
    let a2 = dom.new_element();
    dom.attach(root, None, a);
    dom.attach(a, None, a1);
    dom.attach(a, Some(a1), a2);
    let b = dom.new_element();
    let b1 = dom.new_element();
    dom.attach(root, Some(a), b);
    dom.attach(b, None, b1);
    let c = dom.new_element();
    dom.attach(root, Some(b), c);
    for id in 0..7 {
        let node = LayoutNode { id };
        node.initialize_layout_data(&mut dom, LayoutChan { id: 0 });
    }
    dom
}

#[test]
fn postorder_processes_children_before_parents() {
    let mut dom = three_level_tree();
    let root = ThreadSafeLayoutNode::new(LayoutNode::from_id(&dom, 0));
    let mut traversal = RecordingTraversal::new();
    assert!(root.traverse_postorder_mut(&mut dom, &mut traversal));
    assert_eq!(traversal.processed, vec![2, 3, 1, 5, 4, 6, 0]);
}

#[test]
fn failing_child_aborts_whole_traversal() {
    let mut dom = three_level_tree();
    let root = ThreadSafeLayoutNode::new(LayoutNode::from_id(&dom, 0));
    let mut traversal = RecordingTraversal::new();
    // Node 4 sits on the second level; its own process step fails after
    // its child was processed.
    traversal.fail_on = Some(4);
    assert!(!root.traverse_postorder_mut(&mut dom, &mut traversal));
    // Nothing after the failing node runs: not its later sibling (6), not
    // the root (0).
    assert_eq!(traversal.processed, vec![2, 3, 1, 5, 4]);
}

#[test]
fn pruned_subtree_is_never_visited() {
    let mut dom = three_level_tree();
    let root = ThreadSafeLayoutNode::new(LayoutNode::from_id(&dom, 0));
    let mut traversal = RecordingTraversal::new();
    // Node 1 tops a subtree of depth two (children 2 and 3); pruning it
    // counts as success without a single visit below it.
    traversal.prune = vec![1];
    assert!(root.traverse_postorder_mut(&mut dom, &mut traversal));
    assert_eq!(traversal.processed, vec![5, 4, 6, 0]);
}

#[test]
fn traversal_visits_synthesized_nodes_in_iterator_order() {
    let mut dom = Dom::new();
    let root = dom.new_element();
    let child = dom.new_element();
    dom.attach(root, None, child);
    for id in [root, child] {
        LayoutNode { id }.initialize_layout_data(&mut dom, LayoutChan { id: 0 });
    }
    let style = ComputedStyle {
        display: DisplayMode::Inline,
        white_space: WhiteSpace::Normal,
        content: Content::NoContent,
    };
    dom.set_before_style(root, style.clone());
    dom.set_after_style(root, style);

    let handle = ThreadSafeLayoutNode::new(LayoutNode::from_id(&dom, root));
    let mut traversal = RecordingTraversal::new();
    assert!(handle.traverse_postorder_mut(&mut dom, &mut traversal));
    // Children iterator order: first the inline before box, whose subtree
    // exposes the real child through the generated-content fall-through;
    // then the real child in its own right; then the after box, last; then
    // the root.  The before and after handles share the root's identity.
    assert_eq!(traversal.processed, vec![child, root, child, root, root]);
}

#[test]
fn pruned_root_leaves_everything_untouched() {
    let mut dom = three_level_tree();
    let root = ThreadSafeLayoutNode::new(LayoutNode::from_id(&dom, 0));
    let mut traversal = RecordingTraversal::new();
    traversal.prune = vec![0];
    assert!(root.traverse_postorder_mut(&mut dom, &mut traversal));
    assert_eq!(traversal.processed, vec![]);
}
