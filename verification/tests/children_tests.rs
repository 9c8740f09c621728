use layout_wrapper::data::LayoutChan;
use layout_wrapper::dom::Dom;
use layout_wrapper::style::{ComputedStyle, Content, DisplayMode, WhiteSpace};
use layout_wrapper::wrapper::{LayoutNode, PseudoElementType, ThreadSafeLayoutNode};

fn plain_style(display: DisplayMode) -> ComputedStyle {
    ComputedStyle { display, white_space: WhiteSpace::Normal, content: Content::NoContent }
}

fn init(dom: &mut Dom, id: usize) {
    let node = LayoutNode { id };
    node.initialize_layout_data(dom, LayoutChan { id: 0 });
}

#[test]
fn children_yield_before_reals_after() {
    let mut dom = Dom::new();
    let parent = dom.new_element();
    let first = dom.new_element();
    let second = dom.new_element();
    dom.attach(parent, None, first);
    dom.attach(parent, Some(first), second);
    init(&mut dom, parent);
    init(&mut dom, first);
    init(&mut dom, second);
    dom.set_before_style(parent, plain_style(DisplayMode::Block));
    dom.set_after_style(parent, plain_style(DisplayMode::Inline));

    let handle = ThreadSafeLayoutNode::new(LayoutNode::from_id(&dom, parent));
    let mut it = handle.children(&dom);

    let a = it.next(&dom).unwrap();
    assert_eq!(a.node.id, parent);
    assert!(matches!(a.pseudo, PseudoElementType::Before(DisplayMode::Block)));

    let b = it.next(&dom).unwrap();
    assert_eq!(b.node.id, first);
    assert!(matches!(b.pseudo, PseudoElementType::Normal));

    let c = it.next(&dom).unwrap();
    assert_eq!(c.node.id, second);
    assert!(matches!(c.pseudo, PseudoElementType::Normal));

    let d = it.next(&dom).unwrap();
    assert_eq!(d.node.id, parent);
    assert!(matches!(d.pseudo, PseudoElementType::After(DisplayMode::Inline)));

    // The after node is always last; the iterator stays exhausted.
    assert_eq!(it.next(&dom), None);
    assert_eq!(it.next(&dom), None);
}

#[test]
fn children_yield_after_only() {
    let mut dom = Dom::new();
    let parent = dom.new_element();
    init(&mut dom, parent);
    dom.set_after_style(parent, plain_style(DisplayMode::Block));

    let handle = ThreadSafeLayoutNode::new(LayoutNode::from_id(&dom, parent));
    let mut it = handle.children(&dom);

    let only = it.next(&dom).unwrap();
    assert_eq!(only.node.id, parent);
    assert!(matches!(only.pseudo, PseudoElementType::After(DisplayMode::Block)));
    assert_eq!(it.next(&dom), None);
    assert_eq!(it.next(&dom), None);
}

#[test]
fn children_of_plain_parent() {
    let mut dom = Dom::new();
    let parent = dom.new_element();
    let first = dom.new_element();
    dom.attach(parent, None, first);
    init(&mut dom, parent);
    init(&mut dom, first);

    let handle = ThreadSafeLayoutNode::new(LayoutNode::from_id(&dom, parent));
    let mut it = handle.children(&dom);
    let a = it.next(&dom).unwrap();
    assert_eq!(a.node.id, first);
    assert_eq!(it.next(&dom), None);

    // A childless parent without pseudo styles yields nothing at all.
    let mut dom2 = Dom::new();
    let lone = dom2.new_element();
    init(&mut dom2, lone);
    let lone_handle = ThreadSafeLayoutNode::new(LayoutNode::from_id(&dom2, lone));
    let mut empty = lone_handle.children(&dom2);
    assert_eq!(empty.next(&dom2), None);
}

#[test]
fn children_of_non_inline_before_yield_the_retag() {
    let mut dom = Dom::new();
    let parent = dom.new_element();
    let first = dom.new_element();
    dom.attach(parent, None, first);
    init(&mut dom, parent);
    init(&mut dom, first);
    dom.set_before_style(parent, plain_style(DisplayMode::Block));

    let parent_handle = ThreadSafeLayoutNode::new(LayoutNode::from_id(&dom, parent));
    let before = parent_handle.first_child(&dom).unwrap();
    assert!(matches!(before.pseudo, PseudoElementType::Before(DisplayMode::Block)));

    // The one child of a non-inline before box is its inline re-tag.
    let mut it = before.children(&dom);
    let only = it.next(&dom).unwrap();
    assert_eq!(only.node.id, parent);
    assert!(matches!(only.pseudo, PseudoElementType::Before(DisplayMode::Inline)));
    assert_eq!(it.next(&dom), None);
}

#[test]
fn children_of_pseudo_parent_stop_after_one() {
    let mut dom = Dom::new();
    let parent = dom.new_element();
    let first = dom.new_element();
    let second = dom.new_element();
    dom.attach(parent, None, first);
    dom.attach(parent, Some(first), second);
    init(&mut dom, parent);
    init(&mut dom, first);
    init(&mut dom, second);
    dom.set_before_style(parent, plain_style(DisplayMode::Inline));
    dom.set_after_style(parent, plain_style(DisplayMode::Inline));

    // An inline before box exposes the node's real first child, but as a
    // pseudo parent it has no further children and no after node of its
    // own.
    let parent_handle = ThreadSafeLayoutNode::new(LayoutNode::from_id(&dom, parent));
    let before = parent_handle.first_child(&dom).unwrap();
    assert!(matches!(before.pseudo, PseudoElementType::Before(DisplayMode::Inline)));

    let mut it = before.children(&dom);
    let only = it.next(&dom).unwrap();
    assert_eq!(only.node.id, first);
    assert!(matches!(only.pseudo, PseudoElementType::Normal));
    assert_eq!(it.next(&dom), None);
    assert_eq!(it.next(&dom), None);
}
