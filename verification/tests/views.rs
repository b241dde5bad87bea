use layout_wrapper::dom::{
    Attr, AttrValue, Document, ElementData, ElementKind, ElementTypeId, NodeContent, NodeTypeId,
};
use layout_wrapper::element::{AttrSelector, NamespaceConstraint, UnsignedIntegerAttribute};
use layout_wrapper::node::{LayoutNode, OpaqueNode, SharedLayoutContext};
use layout_wrapper::opaque::{
    layout_node_from_unsafe_layout_node, layout_node_to_unsafe_layout_node,
};
use layout_wrapper::style::{
    ComputedStyle, Content, ContentItem, Display, LayoutChan, LayoutDataFlags, RestyleDamage,
    WhiteSpace,
};
use layout_wrapper::thread_safe::{is_whitespace, PseudoElementType, ThreadSafeLayoutNode};
use layout_wrapper::traversal::RecordingTraversal;
use url::Url;

fn element(kind: ElementKind, name: &str) -> NodeContent {
    NodeContent::Element(ElementData::new(kind, name.to_string(), true))
}

fn attr(name: &str, value: &str) -> Attr {
    Attr { namespace: String::new(), name: name.to_string(), value: AttrValue::Str(value.to_string()) }
}

fn style(display: Display, white_space: WhiteSpace, content: Content) -> ComputedStyle {
    ComputedStyle { display, white_space, content }
}

/// document(0) -> html(1) -> [ a(2) -> [ text(3) ], input(4), div(5) -> [ text(6), img(7) ] ]
fn sample() -> Document {
    let mut doc = Document::new();
    let root = doc.add_node(None, NodeContent::Document);
    let html = doc.add_node(Some(root), element(ElementKind::Other, "html"));
    let a = doc.add_node(Some(html), element(ElementKind::Anchor, "a"));
    doc.add_node(Some(a), NodeContent::Text("   ".to_string()));
    doc.add_node(
        Some(html),
        element(ElementKind::Input { value: "hi".to_string(), size: 20 }, "input"),
    );
    let div = doc.add_node(Some(html), element(ElementKind::Other, "div"));
    doc.add_node(Some(div), NodeContent::Text("a ".to_string()));
    doc.add_node(Some(div), element(
            ElementKind::Image { url: Some(Url::parse("http://example.com/pic.png").unwrap()) },
            "img",
        ));
    if let NodeContent::Element(e) = &mut doc.nodes[a].content {
        e.attrs.push(attr("href", "x"));
    }
    doc
}

fn node(doc: &Document, index: usize) -> LayoutNode {
    doc.layout_node(index).unwrap()
}

fn restricted(doc: &Document, index: usize) -> ThreadSafeLayoutNode {
    ThreadSafeLayoutNode::new(&node(doc, index))
}

fn initialize_all(doc: &mut Document) {
    for i in 0..doc.len() {
        node(doc, i).initialize_layout_data(doc, LayoutChan { id: 7 });
    }
}

fn indices(nodes: &[ThreadSafeLayoutNode]) -> Vec<(usize, PseudoElementType)> {
    nodes.iter().map(|n| (n.node.index, n.pseudo)).collect()
}

fn restricted_children(doc: &Document, n: &ThreadSafeLayoutNode) -> Vec<ThreadSafeLayoutNode> {
    let mut out = Vec::new();
    let mut it = n.children(doc);
    while let Some(kid) = it.next(doc) {
        out.push(kid);
    }
    assert_eq!(it.next(doc), None);
    out
}

fn seen(recorder: &RecordingTraversal) -> Vec<ThreadSafeLayoutNode> {
    recorder.visited.iter().map(|entry| entry.0).collect()
}

#[test]
fn builder_links_parent_and_children() {
    let doc = sample();
    assert_eq!(doc.len(), 8);
    assert_eq!(doc.nodes[1].children, vec![2, 4, 5]);
    assert_eq!(doc.nodes[4].parent, Some(1));
    assert_eq!(doc.nodes[4].position, 1);
    assert_eq!(doc.nodes[0].parent, None);
    assert_eq!(doc.layout_node(8), None);
    assert_eq!(doc.layout_node(3), Some(LayoutNode { index: 3, pass: 0 }));
}

#[test]
fn well_formedness_is_checked() {
    let doc = sample();
    assert!(doc.is_well_formed());
    assert!(Document::new().is_well_formed());
    let mut wrong_parent = sample();
    wrong_parent.nodes[4].parent = Some(5);
    assert!(!wrong_parent.is_well_formed());
    let mut wrong_position = sample();
    wrong_position.nodes[5].position = 1;
    assert!(!wrong_position.is_well_formed());
    let mut backwards = sample();
    backwards.nodes[3].children.push(2);
    assert!(!backwards.is_well_formed());
    let mut dangling = sample();
    dangling.nodes[7].children.push(99);
    assert!(!dangling.is_well_formed());
    let mut orphan = sample();
    orphan.nodes[6].parent = None;
    assert!(!orphan.is_well_formed());
}

#[test]
fn navigation_follows_the_tree() {
    let doc = sample();
    let html = node(&doc, 1);
    assert_eq!(html.parent_node(&doc), Some(node(&doc, 0)));
    assert_eq!(html.first_child(&doc), Some(node(&doc, 2)));
    assert_eq!(html.last_child(&doc), Some(node(&doc, 5)));
    assert_eq!(node(&doc, 4).prev_sibling(&doc), Some(node(&doc, 2)));
    assert_eq!(node(&doc, 4).next_sibling(&doc), Some(node(&doc, 5)));
    assert_eq!(node(&doc, 5).next_sibling(&doc), None);
    assert_eq!(node(&doc, 2).prev_sibling(&doc), None);
    assert_eq!(node(&doc, 0).parent_node(&doc), None);
    assert_eq!(node(&doc, 0).next_sibling(&doc), None);
    assert!(html.has_children(&doc));
    assert!(!node(&doc, 3).has_children(&doc));
    assert!(node(&doc, 0).is_document(&doc));
    assert!(!html.is_document(&doc));
}

#[test]
fn type_id_names_the_category() {
    let doc = sample();
    assert_eq!(node(&doc, 0).type_id(&doc), NodeTypeId::Document);
    assert_eq!(node(&doc, 3).type_id(&doc), NodeTypeId::Text);
    assert_eq!(
        node(&doc, 2).type_id(&doc),
        NodeTypeId::Element(ElementTypeId::HTMLAnchorElement)
    );
    assert_eq!(
        node(&doc, 4).type_id(&doc),
        NodeTypeId::Element(ElementTypeId::HTMLInputElement)
    );
    assert_eq!(restricted(&doc, 3).type_id(&doc), Some(NodeTypeId::Text));
    let before = ThreadSafeLayoutNode {
        node: node(&doc, 1),
        pseudo: PseudoElementType::Before(Display::Inline),
    };
    assert_eq!(before.type_id(&doc), None);
    assert!(!before.is_content(&doc));
    assert!(restricted(&doc, 3).is_content(&doc));
    assert!(restricted(&doc, 1).is_content(&doc));
    assert!(!restricted(&doc, 0).is_content(&doc));
}

#[test]
fn children_iterators_run_both_ways() {
    let doc = sample();
    let html = node(&doc, 1);
    let mut forward = Vec::new();
    let mut it = html.children(&doc);
    while let Some(kid) = it.next(&doc) {
        forward.push(kid.index);
    }
    assert_eq!(forward, vec![2, 4, 5]);
    let mut backward = Vec::new();
    let mut it = html.rev_children(&doc);
    while let Some(kid) = it.next(&doc) {
        backward.push(kid.index);
    }
    assert_eq!(backward, vec![5, 4, 2]);
    let mut none = node(&doc, 3).children(&doc);
    assert_eq!(none.next(&doc), None);
}

#[test]
fn preorder_visits_parents_first() {
    let doc = sample();
    let mut order = Vec::new();
    let mut it = node(&doc, 0).traverse_preorder(&doc);
    while let Some(n) = it.next(&doc) {
        order.push(n.index);
    }
    assert_eq!(order, vec![0, 1, 2, 3, 4, 5, 6, 7]);
    for (at, index) in order.iter().enumerate() {
        if let Some(parent) = doc.nodes[*index].parent {
            let parent_at = order.iter().position(|i| *i == parent).unwrap();
            assert!(parent_at < at);
        }
    }
    let mut order = Vec::new();
    let mut it = node(&doc, 5).traverse_preorder(&doc);
    while let Some(n) = it.next(&doc) {
        order.push(n.index);
    }
    assert_eq!(order, vec![5, 6, 7]);
    assert_eq!(it.next(&doc), None);
}

#[test]
fn preorder_takes_first_child_first_in_a_late_built_tree() {
    let mut doc = Document::new();
    let root = doc.add_node(None, NodeContent::Document);
    let left = doc.add_node(Some(root), NodeContent::DocumentFragment);
    let right = doc.add_node(Some(root), NodeContent::DocumentFragment);
    let right_kid = doc.add_node(Some(right), NodeContent::Comment("r".to_string()));
    let left_kid = doc.add_node(Some(left), NodeContent::Comment("l".to_string()));
    let mut order = Vec::new();
    let mut it = node(&doc, root).traverse_preorder(&doc);
    while let Some(n) = it.next(&doc) {
        order.push(n.index);
    }
    assert_eq!(order, vec![root, left, left_kid, right, right_kid]);
}

#[test]
fn initialize_layout_data_is_idempotent() {
    let mut doc = sample();
    let n = node(&doc, 2);
    assert_eq!(*n.borrow_layout_data(&doc), None);
    assert_eq!(n.flow_debug_id(&doc), 0);
    n.initialize_layout_data(&mut doc, LayoutChan { id: 1 });
    {
        let data = doc.nodes[2].layout_data.as_mut().unwrap();
        assert_eq!(data.chan, Some(LayoutChan { id: 1 }));
        assert_eq!(data.shared_data.style, None);
        assert_eq!(data.data.before_style, None);
        assert_eq!(data.data.restyle_damage, RestyleDamage { bits: 0 });
        assert_eq!(data.data.flags, LayoutDataFlags { bits: 0 });
        data.shared_data.style = Some(style(Display::Block, WhiteSpace::Pre, Content::Normal));
        data.data.restyle_damage = RestyleDamage { bits: 5 };
        data.data.flow_debug_id = 99;
    }
    let before = doc.clone();
    n.initialize_layout_data(&mut doc, LayoutChan { id: 2 });
    assert_eq!(doc, before);
    assert_eq!(n.flow_debug_id(&doc), 99);
    assert_eq!(restricted(&doc, 2).restyle_damage(&doc), Some(RestyleDamage { bits: 5 }));
    assert_eq!(restricted(&doc, 2).get_normal_display(&doc), Some(Display::Block));
}

#[test]
fn dirty_flags_are_set_one_by_one() {
    let mut doc = sample();
    let n = node(&doc, 4);
    assert!(!n.has_changed(&doc) && !n.is_dirty(&doc) && !n.has_dirty_descendants(&doc));
    n.set_dirty(&mut doc, true);
    assert!(n.is_dirty(&doc));
    assert!(!n.has_changed(&doc));
    n.set_changed(&mut doc, true);
    n.set_dirty_siblings(&mut doc, true);
    n.set_dirty_descendants(&mut doc, true);
    assert!(n.has_changed(&doc) && n.has_dirty_descendants(&doc));
    assert!(doc.nodes[4].flags.has_dirty_siblings);
    n.set_dirty(&mut doc, false);
    assert!(!n.is_dirty(&doc));
    assert!(n.has_changed(&doc));
    assert!(!node(&doc, 5).is_dirty(&doc));
    assert_eq!(doc.nodes[1].children, vec![2, 4, 5]);
}

#[test]
fn layout_parent_stops_at_the_reflow_root() {
    let doc = sample();
    let shared = SharedLayoutContext { reflow_root: Some(OpaqueNode { id: 1 }) };
    assert_eq!(node(&doc, 1).layout_parent_node(&doc, &shared), None);
    assert_eq!(node(&doc, 2).layout_parent_node(&doc, &shared), Some(node(&doc, 1)));
    assert_eq!(node(&doc, 0).layout_parent_node(&doc, &shared), None);
    assert_eq!(node(&doc, 5).opaque(), OpaqueNode { id: 5 });
    assert_eq!(node(&doc, 5).debug_id(), 5);
    assert_eq!(restricted(&doc, 5).debug_id(), 5);
    assert_eq!(restricted(&doc, 5).opaque(), OpaqueNode { id: 5 });
}

#[test]
fn link_scenario() {
    let doc = sample();
    let a = node(&doc, 2).as_element(&doc).unwrap();
    assert!(a.is_link(&doc));
    assert!(a.is_unvisited_link(&doc));
    assert!(!a.is_visited_link());
    let div = node(&doc, 5).as_element(&doc).unwrap();
    assert!(!div.is_link(&doc));
    assert_eq!(node(&doc, 3).as_element(&doc), None);
    assert_eq!(a.as_node(), node(&doc, 2));
    assert_eq!(a.get_local_name(&doc), "a");
    assert_eq!(a.get_namespace(&doc), "");
}

#[test]
fn anchor_without_href_is_no_link() {
    let mut doc = Document::new();
    let a = doc.add_node(None, element(ElementKind::Anchor, "a"));
    let other = doc.add_node(None, element(ElementKind::Other, "span"));
    if let NodeContent::Element(e) = &mut doc.nodes[other].content {
        e.attrs.push(attr("href", "x"));
    }
    assert!(!node(&doc, a).as_element(&doc).unwrap().is_link(&doc));
    assert!(!node(&doc, other).as_element(&doc).unwrap().is_link(&doc));
    let area = doc.add_node(None, element(ElementKind::Area, "area"));
    if let NodeContent::Element(e) = &mut doc.nodes[area].content {
        e.attrs.push(Attr {
            namespace: "svg".to_string(),
            name: "href".to_string(),
            value: AttrValue::Str("y".to_string()),
        });
    }
    assert!(!node(&doc, area).as_element(&doc).unwrap().is_link(&doc));
}

#[test]
fn attributes_are_found_by_namespace_and_name() {
    let mut doc = Document::new();
    let id = doc.add_node(None, element(ElementKind::Other, "table"));
    if let NodeContent::Element(e) = &mut doc.nodes[id].content {
        e.attrs.push(Attr {
            namespace: "x".to_string(),
            name: "title".to_string(),
            value: AttrValue::Str("first".to_string()),
        });
        e.attrs.push(attr("title", "second"));
        e.attrs.push(attr("id", "main"));
        e.attrs.push(Attr {
            namespace: String::new(),
            name: "border".to_string(),
            value: AttrValue::UInt("0".to_string(), 0),
        });
        e.classes.push("wide".to_string());
        e.classes.push("dark".to_string());
        e.state.hover = true;
        e.state.checked = true;
        e.cols = Some(40);
        e.style_attribute = Some("color: red".to_string());
        e.legacy_hints.push("border-width: 0".to_string());
        e.legacy_hints.push("width: 40ch".to_string());
    }
    let el = node(&doc, id).as_element(&doc).unwrap();
    let none = String::new();
    let title = "title".to_string();
    assert_eq!(el.get_attr(&doc, &none, &title), Some(&"second".to_string()));
    assert_eq!(el.get_attr(&doc, &"x".to_string(), &title), Some(&"first".to_string()));
    assert_eq!(el.get_attr(&doc, &"y".to_string(), &title), None);
    assert_eq!(el.get_attrs(&doc, &title), vec![&"first".to_string(), &"second".to_string()]);
    assert_eq!(el.get_attrs(&doc, &"lang".to_string()).len(), 0);
    assert_eq!(el.get_id(&doc), Some(&"main".to_string()));
    assert!(el.has_class(&doc, &"dark".to_string()));
    assert!(!el.has_class(&doc, &"Dark".to_string()));
    assert_eq!(*el.each_class(&doc), vec!["wide".to_string(), "dark".to_string()]);
    assert!(!el.has_servo_nonzero_border(&doc));
    assert!(el.get_hover_state(&doc));
    assert!(!el.get_focus_state(&doc));
    assert!(!el.get_disabled_state(&doc));
    assert!(!el.get_enabled_state(&doc));
    assert!(el.get_checked_state(&doc));
    assert!(!el.get_indeterminate_state(&doc));
    assert!(el.is_html_element_in_html_document(&doc));
    assert_eq!(el.get_unsigned_integer_attribute(&doc, UnsignedIntegerAttribute::Cols), Some(40));
    assert_eq!(el.get_unsigned_integer_attribute(&doc, UnsignedIntegerAttribute::Rows), None);
    assert_eq!(*el.style_attribute(&doc), Some("color: red".to_string()));
    let mut hints = vec!["margin: 0".to_string()];
    el.synthesize_presentational_hints_for_legacy_attributes(&doc, &mut hints);
    assert_eq!(
        hints,
        vec!["margin: 0".to_string(), "border-width: 0".to_string(), "width: 40ch".to_string()]
    );
    let view = restricted(&doc, id);
    assert_eq!(
        view.get_unsigned_integer_attribute(&doc, UnsignedIntegerAttribute::Cols),
        Some(40)
    );
    assert_eq!(
        view.as_element(&doc).get_attr(&doc, &none, &title),
        Some(&"second".to_string())
    );
}

#[test]
fn nonzero_border_needs_a_border_other_than_zero() {
    let mut doc = Document::new();
    let plain = doc.add_node(None, element(ElementKind::Other, "table"));
    let three = doc.add_node(None, element(ElementKind::Other, "table"));
    let word = doc.add_node(None, element(ElementKind::Other, "table"));
    if let NodeContent::Element(e) = &mut doc.nodes[three].content {
        e.attrs.push(Attr {
            namespace: String::new(),
            name: "border".to_string(),
            value: AttrValue::UInt("3".to_string(), 3),
        });
    }
    if let NodeContent::Element(e) = &mut doc.nodes[word].content {
        e.attrs.push(attr("border", "thick"));
    }
    assert!(!node(&doc, plain).as_element(&doc).unwrap().has_servo_nonzero_border(&doc));
    assert!(node(&doc, three).as_element(&doc).unwrap().has_servo_nonzero_border(&doc));
    assert!(node(&doc, word).as_element(&doc).unwrap().has_servo_nonzero_border(&doc));
}

#[test]
fn match_attr_uses_the_lower_name_only_in_html() {
    let mut doc = Document::new();
    let html = doc.add_node(None, NodeContent::Element(ElementData::new(
        ElementKind::Other,
        "div".to_string(),
        true,
    )));
    let xml = doc.add_node(None, NodeContent::Element(ElementData::new(
        ElementKind::Other,
        "div".to_string(),
        false,
    )));
    for id in [html, xml] {
        if let NodeContent::Element(e) = &mut doc.nodes[id].content {
            e.attrs.push(attr("title", "low"));
            e.attrs.push(Attr {
                namespace: "n".to_string(),
                name: "Title".to_string(),
                value: AttrValue::Str("high".to_string()),
            });
        }
    }
    let any = AttrSelector {
        name: "Title".to_string(),
        lower_name: "title".to_string(),
        namespace: NamespaceConstraint::Any,
    };
    let specific = AttrSelector {
        name: "Title".to_string(),
        lower_name: "title".to_string(),
        namespace: NamespaceConstraint::Specific(String::new()),
    };
    let in_html = node(&doc, html).as_element(&doc).unwrap();
    let in_xml = node(&doc, xml).as_element(&doc).unwrap();
    assert!(in_html.match_attr(&doc, &any, |v: &String| v == "low"));
    assert!(!in_html.match_attr(&doc, &any, |v: &String| v == "high"));
    assert!(in_xml.match_attr(&doc, &any, |v: &String| v == "high"));
    assert!(!in_xml.match_attr(&doc, &any, |v: &String| v == "low"));
    assert!(in_html.match_attr(&doc, &specific, |v: &String| v == "low"));
    assert!(!in_html.match_attr(&doc, &specific, |v: &String| v == "other"));
    assert!(!in_xml.match_attr(&doc, &specific, |_v: &String| true));
}

#[test]
fn whitespace_collapse_predicate() {
    let mut doc = sample();
    initialize_all(&mut doc);
    let blank = restricted(&doc, 3);
    let word = restricted(&doc, 6);
    assert!(!blank.is_ignorable_whitespace(&doc));
    for i in [3, 6, 2] {
        doc.nodes[i].layout_data.as_mut().unwrap().shared_data.style =
            Some(style(Display::Inline, WhiteSpace::Normal, Content::Normal));
    }
    assert!(blank.is_ignorable_whitespace(&doc));
    assert!(!word.is_ignorable_whitespace(&doc));
    assert!(!restricted(&doc, 2).is_ignorable_whitespace(&doc));
    for i in [3, 6] {
        doc.nodes[i].layout_data.as_mut().unwrap().shared_data.style =
            Some(style(Display::Inline, WhiteSpace::Pre, Content::Normal));
    }
    assert!(!blank.is_ignorable_whitespace(&doc));
    assert!(!word.is_ignorable_whitespace(&doc));
    doc.nodes[3].layout_data.as_mut().unwrap().shared_data.style =
        Some(style(Display::Inline, WhiteSpace::Nowrap, Content::Normal));
    assert!(!blank.is_ignorable_whitespace(&doc));
}

#[test]
fn whitespace_is_space_tab_and_line_ends() {
    assert!(is_whitespace(""));
    assert!(is_whitespace(" \t\r\n"));
    assert!(!is_whitespace("a "));
    assert!(!is_whitespace(" \u{a0}"));
    assert!(!is_whitespace("\u{c}"));
}

#[test]
fn input_text_content_scenario() {
    let doc = sample();
    let input = restricted(&doc, 4);
    assert_eq!(input.text_content(&doc), vec![ContentItem::Str("hi".to_string())]);
    assert_eq!(input.get_input_value(&doc), "hi");
    assert_eq!(input.get_input_size(&doc), 20);
    assert_eq!(
        restricted(&doc, 6).text_content(&doc),
        vec![ContentItem::Str("a ".to_string())]
    );
}

#[test]
fn textarea_and_generated_text_content() {
    let mut doc = Document::new();
    let area = doc.add_node(
        None,
        element(ElementKind::TextArea { value: "notes".to_string() }, "textarea"),
    );
    initialize_all(&mut doc);
    assert_eq!(
        restricted(&doc, area).text_content(&doc),
        vec![ContentItem::Str("notes".to_string())]
    );
    let items = vec![ContentItem::OpenQuote, ContentItem::Str("x".to_string())];
    {
        let data = doc.nodes[area].layout_data.as_mut().unwrap();
        data.data.before_style =
            Some(style(Display::Inline, WhiteSpace::Normal, Content::Content(items.clone())));
        data.data.after_style =
            Some(style(Display::Block, WhiteSpace::Normal, Content::Content(Vec::new())));
    }
    let kids = restricted_children(&doc, &restricted(&doc, area));
    assert_eq!(kids.len(), 2);
    assert_eq!(kids[0].get_pseudo_element_type(), PseudoElementType::Before(Display::Inline));
    assert_eq!(kids[1].get_pseudo_element_type(), PseudoElementType::After(Display::Block));
    assert!(kids[0].get_pseudo_element_type().is_before());
    assert!(!kids[0].get_pseudo_element_type().is_after());
    assert!(kids[1].get_pseudo_element_type().is_after());
    assert_eq!(kids[0].text_content(&doc), items);
    assert_eq!(kids[1].text_content(&doc), Vec::<ContentItem>::new());
    doc.nodes[area].layout_data.as_mut().unwrap().data.after_style =
        Some(style(Display::Block, WhiteSpace::Normal, Content::NoContent));
    assert_eq!(kids[1].text_content(&doc), Vec::<ContentItem>::new());
}

fn with_pseudos() -> Document {
    let mut doc = sample();
    initialize_all(&mut doc);
    {
        let data = doc.nodes[1].layout_data.as_mut().unwrap();
        data.data.before_style = Some(style(
            Display::Inline,
            WhiteSpace::Normal,
            Content::Content(vec![ContentItem::Str("[".to_string())]),
        ));
        data.data.after_style = Some(style(
            Display::Block,
            WhiteSpace::Normal,
            Content::Content(vec![ContentItem::Str("]".to_string())]),
        ));
    }
    doc.nodes[3].layout_data.as_mut().unwrap().data.after_style =
        Some(style(Display::Inline, WhiteSpace::Normal, Content::Normal));
    doc
}

#[test]
fn restricted_children_hold_the_pseudo_elements() {
    let doc = with_pseudos();
    let html = restricted(&doc, 1);
    assert!(html.has_before_pseudo(&doc));
    assert!(html.has_after_pseudo(&doc));
    assert_eq!(html.get_before_display(&doc), Some(Display::Inline));
    assert_eq!(html.get_after_display(&doc), Some(Display::Block));
    assert_eq!(html.get_normal_display(&doc), None);
    let kids = restricted_children(&doc, &html);
    assert_eq!(
        indices(&kids),
        vec![
            (1, PseudoElementType::Before(Display::Inline)),
            (2, PseudoElementType::Normal),
            (4, PseudoElementType::Normal),
            (5, PseudoElementType::Normal),
            (1, PseudoElementType::After(Display::Block)),
        ]
    );
    assert_eq!(kids.len(), 1 + doc.nodes[1].children.len() + 1);
    let of_before = restricted_children(&doc, &kids[0]);
    assert_eq!(indices(&of_before), vec![(2, PseudoElementType::Normal)]);
    assert_eq!(restricted_children(&doc, &kids[4]).len(), 0);
    let leaf = restricted_children(&doc, &restricted(&doc, 3));
    assert_eq!(indices(&leaf), vec![(3, PseudoElementType::After(Display::Inline))]);
    let plain = restricted_children(&doc, &restricted(&doc, 5));
    assert_eq!(
        indices(&plain),
        vec![(6, PseudoElementType::Normal), (7, PseudoElementType::Normal)]
    );
    assert!(!restricted(&doc, 5).has_before_pseudo(&doc));
    assert_eq!(restricted(&doc, 5).get_before_display(&doc), None);
}

#[test]
fn children_without_a_side_table_are_the_nodes_own() {
    let doc = sample();
    let kids = restricted_children(&doc, &restricted(&doc, 1));
    assert_eq!(
        indices(&kids),
        vec![
            (2, PseudoElementType::Normal),
            (4, PseudoElementType::Normal),
            (5, PseudoElementType::Normal),
        ]
    );
    assert!(!restricted(&doc, 1).has_after_pseudo(&doc));
    assert_eq!(restricted(&doc, 1).restyle_damage(&doc), None);
    assert_eq!(restricted(&doc, 1).flags(&doc), None);
}

#[test]
fn postorder_processes_children_first() {
    let mut doc = sample();
    initialize_all(&mut doc);
    let mut recorder = RecordingTraversal::new(Vec::new(), None);
    let mut root = restricted(&doc, 0);
    assert!(root.traverse_postorder_mut(&mut doc, &mut recorder));
    let order: Vec<usize> = seen(&recorder).iter().map(|n| n.node.index).collect();
    assert_eq!(order, vec![3, 2, 4, 6, 7, 5, 1, 0]);
    assert_eq!(root, restricted(&doc, 0));
}

#[test]
fn postorder_includes_pseudo_children() {
    let mut doc = with_pseudos();
    let mut recorder = RecordingTraversal::new(Vec::new(), None);
    let mut start = restricted(&doc, 5);
    assert!(start.traverse_postorder_mut(&mut doc, &mut recorder));
    assert_eq!(
        indices(&seen(&recorder)),
        vec![
            (6, PseudoElementType::Normal),
            (7, PseudoElementType::Normal),
            (5, PseudoElementType::Normal),
        ]
    );
    let mut recorder = RecordingTraversal::new(Vec::new(), None);
    let mut start = restricted(&doc, 2);
    assert!(start.traverse_postorder_mut(&mut doc, &mut recorder));
    assert_eq!(
        indices(&seen(&recorder)),
        vec![
            (3, PseudoElementType::After(Display::Inline)),
            (3, PseudoElementType::Normal),
            (2, PseudoElementType::Normal),
        ]
    );
    let mut recorder = RecordingTraversal::new(vec![2, 5], None);
    let mut start = restricted(&doc, 1);
    assert!(start.traverse_postorder_mut(&mut doc, &mut recorder));
    assert_eq!(
        indices(&seen(&recorder)),
        vec![
            (1, PseudoElementType::Before(Display::Inline)),
            (4, PseudoElementType::Normal),
            (1, PseudoElementType::After(Display::Block)),
            (1, PseudoElementType::Normal),
        ]
    );
}

#[test]
fn postorder_processes_every_handle_once() {
    let mut doc = with_pseudos();
    let mut recorder = RecordingTraversal::new(Vec::new(), None);
    let mut start = restricted(&doc, 1);
    assert!(start.traverse_postorder_mut(&mut doc, &mut recorder));
    assert_eq!(
        indices(&seen(&recorder)),
        vec![
            (1, PseudoElementType::Before(Display::Inline)),
            (3, PseudoElementType::After(Display::Inline)),
            (3, PseudoElementType::Normal),
            (2, PseudoElementType::Normal),
            (4, PseudoElementType::Normal),
            (6, PseudoElementType::Normal),
            (7, PseudoElementType::Normal),
            (5, PseudoElementType::Normal),
            (1, PseudoElementType::After(Display::Block)),
            (1, PseudoElementType::Normal),
        ]
    );
    let order = seen(&recorder);
    for (at, handle) in order.iter().enumerate() {
        assert_eq!(order.iter().filter(|h| *h == handle).count(), 1);
        if handle.pseudo == PseudoElementType::Normal {
            for kid in restricted_children(&doc, handle) {
                let kid_at = order.iter().position(|h| *h == kid).unwrap();
                assert!(kid_at < at);
            }
        }
    }
}

#[test]
fn postorder_with_a_before_style_and_two_children_makes_four_calls() {
    let mut doc = Document::new();
    let p = doc.add_node(None, element(ElementKind::Other, "p"));
    let a = doc.add_node(Some(p), element(ElementKind::Other, "a"));
    let b = doc.add_node(Some(p), element(ElementKind::Other, "b"));
    initialize_all(&mut doc);
    doc.nodes[p].layout_data.as_mut().unwrap().data.before_style = Some(style(
        Display::Inline,
        WhiteSpace::Normal,
        Content::Content(vec![ContentItem::Str("*".to_string())]),
    ));
    let mut recorder = RecordingTraversal::new(Vec::new(), None);
    let mut start = restricted(&doc, p);
    assert!(start.traverse_postorder_mut(&mut doc, &mut recorder));
    assert_eq!(
        indices(&seen(&recorder)),
        vec![
            (p, PseudoElementType::Before(Display::Inline)),
            (a, PseudoElementType::Normal),
            (b, PseudoElementType::Normal),
            (p, PseudoElementType::Normal),
        ]
    );
    let before = seen(&recorder)[0];
    assert_eq!(indices(&restricted_children(&doc, &before)), vec![(a, PseudoElementType::Normal)]);
    let mut recorder = RecordingTraversal::new(Vec::new(), None);
    let mut from_before = before;
    assert!(from_before.traverse_postorder_mut(&mut doc, &mut recorder));
    assert_eq!(indices(&seen(&recorder)), vec![(p, PseudoElementType::Before(Display::Inline))]);
}

#[test]
fn pruned_subtree_is_never_processed() {
    let mut doc = sample();
    initialize_all(&mut doc);
    let mut recorder = RecordingTraversal::new(vec![5], None);
    let mut root = restricted(&doc, 0);
    assert!(root.traverse_postorder_mut(&mut doc, &mut recorder));
    let order: Vec<usize> = seen(&recorder).iter().map(|n| n.node.index).collect();
    assert_eq!(order, vec![3, 2, 4, 1, 0]);
    let mut recorder = RecordingTraversal::new(vec![5], None);
    let mut pruned = restricted(&doc, 5);
    assert!(pruned.traverse_postorder_mut(&mut doc, &mut recorder));
    assert_eq!(recorder.visited.len(), 0);
}

#[test]
fn process_returning_false_stops_the_traversal() {
    let mut doc = sample();
    initialize_all(&mut doc);
    let mut recorder = RecordingTraversal::new(Vec::new(), Some(4));
    let mut root = restricted(&doc, 0);
    assert!(!root.traverse_postorder_mut(&mut doc, &mut recorder));
    let order: Vec<usize> = seen(&recorder).iter().map(|n| n.node.index).collect();
    assert_eq!(order, vec![3, 2, 4]);
    let answers: Vec<bool> = recorder.visited.iter().map(|entry| entry.1).collect();
    assert_eq!(answers, vec![true, true, false]);
    let mut recorder = RecordingTraversal::new(Vec::new(), Some(4));
    let mut other = restricted(&doc, 5);
    assert!(other.traverse_postorder_mut(&mut doc, &mut recorder));
    assert_eq!(recorder.visited.len(), 3);
}

#[test]
fn workers_on_sibling_subtrees_touch_disjoint_nodes() {
    let mut doc = sample();
    initialize_all(&mut doc);
    let untouched = doc.clone();
    let mut first = RecordingTraversal::new(Vec::new(), None);
    first.mark = Some(RestyleDamage { bits: 1 });
    let mut second = RecordingTraversal::new(Vec::new(), None);
    second.mark = Some(RestyleDamage { bits: 2 });
    let mut s1 = restricted(&doc, 2);
    let mut s2 = restricted(&doc, 5);
    assert!(s1.traverse_postorder_mut(&mut doc, &mut first));
    let after_first = doc.clone();
    assert!(s2.traverse_postorder_mut(&mut doc, &mut second));
    let touched_first: Vec<usize> = seen(&first).iter().map(|n| n.opaque().id).collect();
    let touched_second: Vec<usize> = seen(&second).iter().map(|n| n.opaque().id).collect();
    assert_eq!(touched_first, vec![3, 2]);
    assert_eq!(touched_second, vec![6, 7, 5]);
    for id in &touched_first {
        assert!(!touched_second.contains(id));
        assert_eq!(restricted(&doc, *id).restyle_damage(&doc), Some(RestyleDamage { bits: 1 }));
        assert_eq!(doc.nodes[*id], after_first.nodes[*id]);
    }
    for id in &touched_second {
        assert_eq!(restricted(&doc, *id).restyle_damage(&doc), Some(RestyleDamage { bits: 2 }));
        assert_eq!(after_first.nodes[*id], untouched.nodes[*id]);
    }
    for id in [0, 1, 4] {
        assert_eq!(doc.nodes[id], untouched.nodes[id]);
    }
}

#[test]
fn traversal_that_writes_keeps_the_tree_and_the_pseudo_styles() {
    let mut doc = with_pseudos();
    let before = doc.clone();
    let mut recorder = RecordingTraversal::new(vec![4], Some(5));
    recorder.mark = Some(RestyleDamage { bits: 9 });
    let mut start = restricted(&doc, 1);
    assert!(!start.traverse_postorder_mut(&mut doc, &mut recorder));
    assert_eq!(
        indices(&seen(&recorder)),
        vec![
            (1, PseudoElementType::Before(Display::Inline)),
            (3, PseudoElementType::After(Display::Inline)),
            (3, PseudoElementType::Normal),
            (2, PseudoElementType::Normal),
            (6, PseudoElementType::Normal),
            (7, PseudoElementType::Normal),
            (5, PseudoElementType::Normal),
        ]
    );
    assert!(doc.is_well_formed());
    for i in 0..doc.len() {
        assert_eq!(doc.nodes[i].children, before.nodes[i].children);
        assert_eq!(doc.nodes[i].parent, before.nodes[i].parent);
        assert_eq!(doc.nodes[i].flags, before.nodes[i].flags);
        let now = doc.nodes[i].layout_data.as_ref().unwrap();
        let then = before.nodes[i].layout_data.as_ref().unwrap();
        assert_eq!(now.data.before_style, then.data.before_style);
        assert_eq!(now.data.after_style, then.data.after_style);
        let written = [1, 2, 3, 5, 6, 7].contains(&i);
        assert_eq!(now.data.restyle_damage, RestyleDamage { bits: if written { 9 } else { 0 } });
    }
    assert_eq!(doc.nodes[0], before.nodes[0]);
    assert_eq!(doc.nodes[4], before.nodes[4]);
}

#[test]
fn side_table_setters_change_one_field() {
    let mut doc = sample();
    let n = restricted(&doc, 4);
    assert!(!n.set_restyle_damage(&mut doc, RestyleDamage { bits: 3 }));
    assert!(!n.insert_flags(&mut doc, LayoutDataFlags { bits: 1 }));
    assert!(!n.remove_flags(&mut doc, LayoutDataFlags { bits: 1 }));
    assert_eq!(doc, sample());
    initialize_all(&mut doc);
    assert!(n.set_restyle_damage(&mut doc, RestyleDamage { bits: 3 }));
    assert_eq!(n.restyle_damage(&doc), Some(RestyleDamage { bits: 3 }));
    assert_eq!(n.flags(&doc), Some(LayoutDataFlags::empty()));
    assert!(n.insert_flags(&mut doc, LayoutDataFlags { bits: 0b0101 }));
    assert!(n.insert_flags(&mut doc, LayoutDataFlags { bits: 0b0011 }));
    assert_eq!(n.flags(&doc), Some(LayoutDataFlags { bits: 0b0111 }));
    assert!(n.remove_flags(&mut doc, LayoutDataFlags { bits: 0b1001 }));
    assert_eq!(n.flags(&doc), Some(LayoutDataFlags { bits: 0b0110 }));
    assert!(n.flags(&doc).unwrap().contains(LayoutDataFlags { bits: 0b0100 }));
    assert!(!n.flags(&doc).unwrap().contains(LayoutDataFlags { bits: 0b0101 }));
    assert_eq!(n.restyle_damage(&doc), Some(RestyleDamage { bits: 3 }));
    assert_eq!(restricted(&doc, 5).flags(&doc), Some(LayoutDataFlags { bits: 0 }));
}

#[test]
fn mutate_layout_data_reaches_one_side_table() {
    let mut doc = sample();
    initialize_all(&mut doc);
    let before = doc.clone();
    let n = node(&doc, 6);
    n.mutate_layout_data(&mut doc).as_mut().unwrap().data.flow_debug_id = 41;
    assert_eq!(n.flow_debug_id(&doc), 41);
    *restricted(&doc, 7).mutate_layout_data(&mut doc) = None;
    assert_eq!(*restricted(&doc, 7).borrow_layout_data(&doc), None);
    for i in 0..6 {
        assert_eq!(doc.nodes[i], before.nodes[i]);
    }
    assert_eq!(doc.nodes[6].children, before.nodes[6].children);
    assert_eq!(doc.nodes[7].parent, Some(5));
}

#[test]
fn element_payloads_are_read_through_the_view() {
    let mut doc = sample();
    let canvas = doc.add_node(
        Some(1),
        element(ElementKind::Canvas { width: 300, height: 150, renderer: Some(12) }, "canvas"),
    );
    let bare = doc.add_node(
        Some(1),
        element(ElementKind::Canvas { width: 1, height: 2, renderer: None }, "canvas"),
    );
    let frame = doc.add_node(
        Some(1),
        element(ElementKind::IFrame { pipeline: 4, subpage: 9 }, "iframe"),
    );
    let empty = doc.add_node(Some(1), element(ElementKind::Image { url: None }, "img"));
    let address = restricted(&doc, 7).image_url(&doc).unwrap();
    assert_eq!(address.as_str(), "http://example.com/pic.png");
    assert_eq!(address.path(), "/pic.png");
    assert_eq!(restricted(&doc, empty).image_url(&doc), None);
    assert_eq!(restricted(&doc, canvas).renderer(&doc), Some(12));
    assert_eq!(restricted(&doc, bare).renderer(&doc), None);
    assert_eq!(restricted(&doc, 3).renderer(&doc), None);
    assert_eq!(restricted(&doc, 7).renderer(&doc), None);
    assert_eq!(restricted(&doc, canvas).canvas_width(&doc), 300);
    assert_eq!(restricted(&doc, canvas).canvas_height(&doc), 150);
    assert_eq!(restricted(&doc, frame).iframe_pipeline_and_subpage_ids(&doc), (4, 9));
    assert_eq!(restricted(&doc, frame).flow_debug_id(&doc), 0);
}

#[test]
fn opaque_handle_round_trip_is_checked() {
    let mut doc = sample();
    let n = node(&doc, 6);
    let pair = layout_node_to_unsafe_layout_node(&n);
    assert_eq!(pair, (6, 0));
    assert_eq!(layout_node_from_unsafe_layout_node(&doc, &pair), Some(n));
    assert_eq!(layout_node_from_unsafe_layout_node(&doc, &(8, 0)), None);
    assert_eq!(layout_node_from_unsafe_layout_node(&doc, &(6, 1)), None);
    assert!(doc.advance_pass());
    assert_eq!(doc.pass, 1);
    assert_eq!(layout_node_from_unsafe_layout_node(&doc, &pair), None);
    assert_eq!(
        layout_node_from_unsafe_layout_node(&doc, &(6, 1)),
        Some(LayoutNode { index: 6, pass: 1 })
    );
    assert_eq!(n.new_with_this_lifetime(2), LayoutNode { index: 2, pass: 0 });
    assert_eq!(
        ThreadSafeLayoutNode::new(&n).new_with_this_lifetime(2),
        ThreadSafeLayoutNode { node: LayoutNode { index: 2, pass: 0 }, pseudo: PseudoElementType::Normal }
    );
    doc.pass = usize::MAX;
    assert!(!doc.advance_pass());
    assert_eq!(doc.pass, usize::MAX);
}
