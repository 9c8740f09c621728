use layout_wrapper::data::{ConstructionResult, LayoutChan, LayoutDataFlags, RestyleDamage};
use layout_wrapper::dom::Dom;
use layout_wrapper::style::{ComputedStyle, Content, ContentItem, DisplayMode, WhiteSpace};
use layout_wrapper::style::get_content;
use layout_wrapper::wrapper::{LayoutNode, PseudoElementType, SharedLayoutContext,
    ThreadSafeLayoutNode};

fn plain_style(display: DisplayMode) -> ComputedStyle {
    ComputedStyle { display, white_space: WhiteSpace::Normal, content: Content::NoContent }
}

fn styled(display: DisplayMode, white_space: WhiteSpace, content: Content) -> ComputedStyle {
    ComputedStyle { display, white_space, content }
}

fn chan(id: usize) -> LayoutChan {
    LayoutChan { id }
}

#[test]
fn initialize_is_idempotent() {
    let mut dom = Dom::new();
    let id = dom.new_element();
    let node = LayoutNode::from_id(&dom, id);

    node.initialize_layout_data(&mut dom, chan(7));
    dom.set_style(id, plain_style(DisplayMode::Block));

    // A second call, with a different channel, must leave the first
    // record untouched.
    node.initialize_layout_data(&mut dom, chan(9));

    let stored = node.borrow_layout_data(&dom).as_ref().unwrap();
    assert_eq!(stored.chan, Some(chan(7)));
    assert!(stored.shared_data.style.is_some());
    assert!(matches!(stored.shared_data.style.as_ref().unwrap().display, DisplayMode::Block));
}

#[test]
fn initialize_starts_empty() {
    let mut dom = Dom::new();
    let id = dom.new_element();
    let node = LayoutNode::from_id(&dom, id);
    node.initialize_layout_data(&mut dom, chan(3));

    let stored = node.borrow_layout_data(&dom).as_ref().unwrap();
    assert!(stored.shared_data.style.is_none());
    assert!(stored.data.before_style.is_none());
    assert!(stored.data.after_style.is_none());
    assert_eq!(stored.data.restyle_damage, RestyleDamage { bits: 0 });
    assert_eq!(stored.data.flags, LayoutDataFlags { bits: 0 });
    assert_eq!(stored.data.flow_construction_result, ConstructionResult::NoConstructionResult);
}

#[test]
fn restyle_damage_round_trip() {
    let mut dom = Dom::new();
    let id = dom.new_element();
    let node = LayoutNode::from_id(&dom, id);
    node.initialize_layout_data(&mut dom, chan(0));

    let ts = ThreadSafeLayoutNode::new(node);
    assert_eq!(ts.restyle_damage(&dom), RestyleDamage { bits: 0 });
    ts.set_restyle_damage(&mut dom, RestyleDamage { bits: 0b101 });
    assert_eq!(ts.restyle_damage(&dom), RestyleDamage { bits: 0b101 });
    // Damage is never cleared automatically; resetting is explicit.
    assert_eq!(ts.restyle_damage(&dom), RestyleDamage { bits: 0b101 });
    ts.set_restyle_damage(&mut dom, RestyleDamage { bits: 0 });
    assert_eq!(ts.restyle_damage(&dom), RestyleDamage { bits: 0 });
}

#[test]
fn flags_insert_and_remove() {
    let mut dom = Dom::new();
    let id = dom.new_element();
    let node = LayoutNode::from_id(&dom, id);
    node.initialize_layout_data(&mut dom, chan(0));

    let ts = ThreadSafeLayoutNode::new(node);
    assert_eq!(ts.flags(&dom), LayoutDataFlags { bits: 0 });
    ts.insert_flags(&mut dom, LayoutDataFlags { bits: 0b0011 });
    ts.insert_flags(&mut dom, LayoutDataFlags { bits: 0b0110 });
    assert_eq!(ts.flags(&dom), LayoutDataFlags { bits: 0b0111 });
    assert!(ts.flags(&dom).contains(LayoutDataFlags { bits: 0b0010 }));
    ts.remove_flags(&mut dom, LayoutDataFlags { bits: 0b0010 });
    assert_eq!(ts.flags(&dom), LayoutDataFlags { bits: 0b0101 });
    assert!(!ts.flags(&dom).contains(LayoutDataFlags { bits: 0b0010 }));
}

#[test]
fn debug_ids_and_flow_debug_id() {
    let mut dom = Dom::new();
    let id = dom.new_element();
    let node = LayoutNode::from_id(&dom, id);

    assert_eq!(node.debug_id(), id);
    // No side-table yet: the flow debug id is zero.
    assert_eq!(node.flow_debug_id(&dom), 0);

    node.initialize_layout_data(&mut dom, chan(0));
    // A side-table without a flow result still reports zero.
    assert_eq!(node.flow_debug_id(&dom), 0);

    let ts = ThreadSafeLayoutNode::new(node);
    let slot = ts.mutate_layout_data(&mut dom);
    slot.as_mut().unwrap().data.flow_construction_result = ConstructionResult::Flow(42);
    assert_eq!(node.flow_debug_id(&dom), 42);
    assert_eq!(ts.flow_debug_id(&dom), 42);
    assert_eq!(ts.debug_id(), id);
}

#[test]
fn layout_parent_is_none_at_reflow_root() {
    let mut dom = Dom::new();
    let root = dom.new_element();
    let child = dom.new_element();
    dom.attach(root, None, child);

    let shared = SharedLayoutContext { reflow_root: Some(root) };
    let root_node = LayoutNode::from_id(&dom, root);
    let child_node = LayoutNode::from_id(&dom, child);

    assert_eq!(root_node.layout_parent_node(&dom, &shared), None);
    assert_eq!(child_node.layout_parent_node(&dom, &shared), Some(root_node));
    // The plain parent read still sees the DOM parent of the root.
    assert_eq!(root_node.parent_node(&dom), None);
}

#[test]
fn real_tree_navigation() {
    let mut dom = Dom::new();
    let root = dom.new_element();
    let first = dom.new_element();
    let second = dom.new_text(String::from("tail"));
    dom.attach(root, None, first);
    dom.attach(root, Some(first), second);

    let root_node = LayoutNode::from_id(&dom, root);
    let first_node = root_node.first_child(&dom).unwrap();
    assert_eq!(first_node, LayoutNode::from_id(&dom, first));
    let second_node = first_node.next_sibling(&dom).unwrap();
    assert_eq!(second_node, LayoutNode::from_id(&dom, second));
    assert_eq!(second_node.next_sibling(&dom), None);
    assert_eq!(second_node.first_child(&dom), None);
    assert_eq!(second_node.parent_node(&dom), Some(root_node));
}

#[test]
fn damage_and_flag_bitsets() {
    let damage = RestyleDamage { bits: 0b110 };
    assert!(damage.contains(RestyleDamage { bits: 0b100 }));
    assert!(!damage.contains(RestyleDamage { bits: 0b001 }));
    assert_eq!(RestyleDamage::empty(), RestyleDamage { bits: 0 });
    assert_eq!(LayoutDataFlags::empty(), LayoutDataFlags { bits: 0 });
    assert_eq!(ConstructionResult::NoConstructionResult.debug_id(), 0);
    assert_eq!(ConstructionResult::Flow(17).debug_id(), 17);
    assert_eq!(ConstructionResult::ConstructionItem(4).debug_id(), 4);
}

#[test]
fn first_child_synthesizes_before_node() {
    let mut dom = Dom::new();
    let parent = dom.new_element();
    let child = dom.new_element();
    dom.attach(parent, None, child);
    let node = LayoutNode::from_id(&dom, parent);
    node.initialize_layout_data(&mut dom, chan(0));
    LayoutNode::from_id(&dom, child).initialize_layout_data(&mut dom, chan(0));
    dom.set_before_style(parent, plain_style(DisplayMode::Block));

    let ts = ThreadSafeLayoutNode::new(node);
    // A resolved ::before style makes first_child return the Before-tagged
    // handle of the same node.
    let before = ts.first_child(&dom).unwrap();
    assert_eq!(before.node.id, parent);
    assert!(matches!(before.pseudo, PseudoElementType::Before(DisplayMode::Block)));

    // The non-inline before box re-tags itself to Before(Inline)...
    let retagged = before.first_child(&dom).unwrap();
    assert_eq!(retagged.node.id, parent);
    assert!(matches!(retagged.pseudo, PseudoElementType::Before(DisplayMode::Inline)));

    // ...and the inline before box falls through to the real children, so
    // the chain always reaches them.
    let real = retagged.first_child(&dom).unwrap();
    assert_eq!(real.node.id, child);
    assert!(matches!(real.pseudo, PseudoElementType::Normal));
}

#[test]
fn inline_before_reaches_real_children_directly() {
    let mut dom = Dom::new();
    let parent = dom.new_element();
    let child = dom.new_element();
    dom.attach(parent, None, child);
    let node = LayoutNode::from_id(&dom, parent);
    node.initialize_layout_data(&mut dom, chan(0));
    dom.set_before_style(parent, plain_style(DisplayMode::Inline));

    let ts = ThreadSafeLayoutNode::new(node);
    let before = ts.first_child(&dom).unwrap();
    assert!(matches!(before.pseudo, PseudoElementType::Before(DisplayMode::Inline)));
    let real = before.first_child(&dom).unwrap();
    assert_eq!(real.node.id, child);
    assert!(matches!(real.pseudo, PseudoElementType::Normal));

    // An after-tagged handle is a leaf.
    dom.set_after_style(parent, plain_style(DisplayMode::Block));
    let after = ts.with_pseudo(PseudoElementType::After(DisplayMode::Block));
    assert_eq!(after.first_child(&dom), None);
}

#[test]
fn is_ignorable_whitespace_cases() {
    let mut dom = Dom::new();
    let ws = dom.new_text(String::from(" \t\n "));
    let pre = dom.new_text(String::from(" \t\n "));
    let word = dom.new_text(String::from(" hello "));
    let element = dom.new_element();
    for id in [ws, pre, word] {
        LayoutNode::from_id(&dom, id).initialize_layout_data(&mut dom, chan(0));
    }
    dom.set_style(ws, styled(DisplayMode::Inline, WhiteSpace::Normal, Content::NoContent));
    dom.set_style(pre, styled(DisplayMode::Inline, WhiteSpace::Pre, Content::NoContent));
    dom.set_style(word, styled(DisplayMode::Inline, WhiteSpace::Normal, Content::NoContent));

    let at = |id: usize, dom: &Dom| ThreadSafeLayoutNode::new(LayoutNode::from_id(dom, id));
    // Whitespace-only text with the default wrapping mode is ignorable.
    assert!(at(ws, &dom).is_ignorable_whitespace(&dom));
    // The same text under `white-space: pre` is significant.
    assert!(!at(pre, &dom).is_ignorable_whitespace(&dom));
    // Non-whitespace text is never ignorable.
    assert!(!at(word, &dom).is_ignorable_whitespace(&dom));
    // A non-text node is never ignorable.
    assert!(!at(element, &dom).is_ignorable_whitespace(&dom));
}

#[test]
fn text_content_of_text_node_and_pseudo() {
    let mut dom = Dom::new();
    let text = dom.new_text(String::from("hello"));
    let parent = dom.new_element();
    LayoutNode::from_id(&dom, parent).initialize_layout_data(&mut dom, chan(0));
    let generated = Content::ContentItems(vec![
        ContentItem { text: String::from("ante") },
        ContentItem { text: String::from("post") },
    ]);
    dom.set_before_style(parent, styled(DisplayMode::Inline, WhiteSpace::Normal, generated));

    let text_handle = ThreadSafeLayoutNode::new(LayoutNode::from_id(&dom, text));
    let items = text_handle.text_content(&dom);
    assert_eq!(items.len(), 1);
    assert_eq!(items[0].text, "hello");

    let parent_handle = ThreadSafeLayoutNode::new(LayoutNode::from_id(&dom, parent));
    let before = parent_handle.first_child(&dom).unwrap();
    let generated_items = before.text_content(&dom);
    assert_eq!(generated_items.len(), 2);
    assert_eq!(generated_items[0].text, "ante");
    assert_eq!(generated_items[1].text, "post");
}

#[test]
fn get_content_copies_item_lists() {
    assert_eq!(get_content(&Content::NormalContent), vec![]);
    assert_eq!(get_content(&Content::NoContent), vec![]);
    let items = Content::ContentItems(vec![ContentItem { text: String::from("x") }]);
    assert_eq!(get_content(&items), vec![ContentItem { text: String::from("x") }]);
}

#[test]
fn style_reads_resolved_record() {
    let mut dom = Dom::new();
    let id = dom.new_element();
    let node = LayoutNode::from_id(&dom, id);
    node.initialize_layout_data(&mut dom, chan(0));
    dom.set_style(id, styled(DisplayMode::ListItem, WhiteSpace::Nowrap, Content::NoContent));

    let ts = ThreadSafeLayoutNode::new(node);
    assert!(matches!(ts.style(&dom).display, DisplayMode::ListItem));
    assert!(matches!(ts.style(&dom).white_space, WhiteSpace::Nowrap));
    assert!(matches!(ts.get_normal_display(&dom), DisplayMode::ListItem));
    assert!(!ts.has_before_pseudo(&dom));
    assert!(!ts.has_after_pseudo(&dom));

    dom.set_before_style(id, plain_style(DisplayMode::Inline));
    dom.set_after_style(id, plain_style(DisplayMode::Block));
    assert!(ts.has_before_pseudo(&dom));
    assert!(ts.has_after_pseudo(&dom));
    assert!(matches!(ts.get_before_display(&dom), DisplayMode::Inline));
    assert!(matches!(ts.get_after_display(&dom), DisplayMode::Block));
}
