//! The race-restricted view: a handle without parent or sibling navigation,
//! whose children include the `before` and `after` pseudo-elements.

use vstd::prelude::*;
use vstd::string::StrSliceExecFns;
use crate::dom::{Document, ElementKind, NodeContent, NodeTypeId};
use crate::element::{LayoutElement, UnsignedIntegerAttribute};
use crate::node::{LayoutNode, OpaqueNode};
use crate::style::{
    ComputedStyle, Content, ContentItem, Display, LayoutDataFlags, LayoutDataWrapper,
    PrivateLayoutData, RestyleDamage, WhiteSpace,
};

verus! {

/// Which position a restricted handle stands for: the node itself, or one
/// of its two pseudo-elements, with the `display` of that pseudo-element.
#[derive(Clone, Copy, Debug, PartialEq, Eq, Structural)]
pub enum PseudoElementType {
    Normal,
    Before(Display),
    After(Display),
}

impl PseudoElementType {
    pub fn is_before(&self) -> (r: bool)
        ensures
            r == (*self is Before),
    {
        match *self {
            PseudoElementType::Before(_) => true,
            _ => false,
        }
    }

    pub fn is_after(&self) -> (r: bool)
        ensures
            r == (*self is After),
    {
        match *self {
            PseudoElementType::After(_) => true,
            _ => false,
        }
    }

    pub fn is_normal(&self) -> (r: bool)
        ensures
            r == (*self is Normal),
    {
        match *self {
            PseudoElementType::Normal => true,
            _ => false,
        }
    }
}

/// A handle that is safe to use on one subtree while other workers use
/// theirs: it only leads downwards.
#[derive(Clone, Copy, Debug, PartialEq, Eq, Structural)]
pub struct ThreadSafeLayoutNode {
    pub node: LayoutNode,
    pub pseudo: PseudoElementType,
}

/// An element seen through the restricted view.
#[derive(Clone, Copy, Debug, PartialEq, Eq, Structural)]
pub struct ThreadSafeLayoutElement {
    pub element: LayoutElement,
}

/// Whether a character counts as white space in text.
pub open spec fn spec_char_is_whitespace(c: char) -> bool {
    c == ' ' || c == '\t' || c == '\r' || c == '\n'
}

/// Whether a text consists of white space alone.
pub open spec fn spec_is_whitespace(s: Seq<char>) -> bool {
    forall|i: int| 0 <= i < s.len() ==> spec_char_is_whitespace(#[trigger] s[i])
}

/// Whether a text consists of white space alone: of spaces, tabs, carriage
/// returns and line feeds.
pub fn is_whitespace(s: &str) -> (r: bool)
    ensures
        r == spec_is_whitespace(s@),
{
    let n: usize = s.unicode_len();
    let mut i: usize = 0;
    while i < n
        invariant
            i <= n,
            n == s@.len(),
            forall|k: int| 0 <= k < i ==> spec_char_is_whitespace(#[trigger] s@[k]),
        decreases n - i,
    {
        let c = s.get_char(i);
        if !(c == ' ' || c == '\t' || c == '\r' || c == '\n') {
            return false;
        }
        i = i + 1;
    }
    true
}

/// Calls `Clone::clone` on a `url::Url`, which that crate derives for the
/// struct: the copy equals the value it was made from.
#[verifier::external_body]
fn copy_url(u: &url::Url) -> (r: url::Url)
    ensures
        r == *u,
{
    u.clone()
}

/// A copy of one content item.
pub fn copy_item(item: &ContentItem) -> (r: ContentItem)
    ensures
        r == *item,
{
    match item {
        ContentItem::Str(s) => ContentItem::Str(s.clone()),
        ContentItem::OpenQuote => ContentItem::OpenQuote,
        ContentItem::CloseQuote => ContentItem::CloseQuote,
        ContentItem::NoOpenQuote => ContentItem::NoOpenQuote,
        ContentItem::NoCloseQuote => ContentItem::NoCloseQuote,
    }
}

/// A copy of a list of content items.
pub fn copy_items(items: &Vec<ContentItem>) -> (r: Vec<ContentItem>)
    ensures
        r@ == items@,
{
    let mut out: Vec<ContentItem> = Vec::new();
    let mut i: usize = 0;
    while i < items.len()
        invariant
            i <= items@.len(),
            out@ == items@.take(i as int),
        decreases items@.len() - i,
    {
        out.push(copy_item(&items[i]));
        proof {
            assert(out@ =~= items@.take(i + 1));
        }
        i = i + 1;
    }
    proof {
        assert(items@.take(i as int) =~= items@);
    }
    out
}

impl ComputedStyle {
    /// The generated content that the style asks for: its content list, or
    /// nothing where it has none.
    pub open spec fn generated(self) -> Seq<ContentItem> {
        match self.content {
            Content::Content(value) => value@,
            _ => Seq::empty(),
        }
    }
}

impl Document {
    /// The resolved style of the `before` pseudo-element of node `i`.
    pub open spec fn before_style(&self, i: int) -> Option<ComputedStyle> {
        match self.nodes@[i].layout_data {
            Some(d) => d.data.before_style,
            None => None,
        }
    }

    /// The resolved style of the `after` pseudo-element of node `i`.
    pub open spec fn after_style(&self, i: int) -> Option<ComputedStyle> {
        match self.nodes@[i].layout_data {
            Some(d) => d.data.after_style,
            None => None,
        }
    }

    /// The resolved style of node `i` itself.
    pub open spec fn normal_style(&self, i: int) -> Option<ComputedStyle> {
        match self.nodes@[i].layout_data {
            Some(d) => d.shared_data.style,
            None => None,
        }
    }
}

impl ThreadSafeLayoutNode {
    /// The restricted handle on the node itself.
    pub open spec fn normal(node: LayoutNode) -> ThreadSafeLayoutNode {
        ThreadSafeLayoutNode { node, pseudo: PseudoElementType::Normal }
    }

    /// The handle is good for `doc`; one that stands for a pseudo-element
    /// has the style of that pseudo-element, and carries its `display`.
    pub open spec fn wf(&self, doc: &Document) -> bool {
        &&& self.node.wf(doc)
        &&& match self.pseudo {
            PseudoElementType::Normal => true,
            PseudoElementType::Before(d) => doc.before_style(self.node.index as int) matches Some(s)
                && s.display == d,
            PseudoElementType::After(d) => doc.after_style(self.node.index as int) matches Some(s)
                && s.display == d,
        }
    }

    /// The `before` pseudo-element of this node, as a sequence of at most
    /// one handle.
    pub open spec fn before_part(&self, doc: &Document) -> Seq<ThreadSafeLayoutNode> {
        match doc.before_style(self.node.index as int) {
            Some(s) => seq![
                ThreadSafeLayoutNode { node: self.node, pseudo: PseudoElementType::Before(s.display) },
            ],
            None => Seq::empty(),
        }
    }

    /// The `after` pseudo-element of this node, as a sequence of at most
    /// one handle.
    pub open spec fn after_part(&self, doc: &Document) -> Seq<ThreadSafeLayoutNode> {
        match doc.after_style(self.node.index as int) {
            Some(s) => seq![
                ThreadSafeLayoutNode { node: self.node, pseudo: PseudoElementType::After(s.display) },
            ],
            None => Seq::empty(),
        }
    }

    /// The children that the document gives this node, as restricted
    /// handles.
    pub open spec fn real_part(&self, doc: &Document) -> Seq<ThreadSafeLayoutNode> {
        Seq::new(
            doc.kids(self.node.index as int).len(),
            |k: int|
                Self::normal(
                    LayoutNode { index: doc.kids(self.node.index as int)[k], pass: self.node.pass },
                ),
        )
    }

    /// The children of this handle. Of a node: its `before` pseudo-element
    /// if it has one, its own children, its `after` pseudo-element if it
    /// has one. Of a `before` pseudo-element: the node's first own child
    /// alone. Of an `after` pseudo-element: none.
    pub open spec fn spec_children(&self, doc: &Document) -> Seq<ThreadSafeLayoutNode> {
        match self.pseudo {
            PseudoElementType::Normal => self.before_part(doc) + self.real_part(doc)
                + self.after_part(doc),
            PseudoElementType::Before(_) => self.real_part(doc).take(
                if self.real_part(doc).len() > 0 {
                    1
                } else {
                    0
                },
            ),
            PseudoElementType::After(_) => Seq::empty(),
        }
    }

    /// The children of a node are its `before` pseudo-element, if it has
    /// one, then its own children, then its `after` pseudo-element, if it
    /// has one: the `before` pseudo-element stands first and nowhere else,
    /// the `after` pseudo-element last and nowhere else.
    pub proof fn lemma_children_shape(&self, doc: &Document, k: int)
        requires
            self.pseudo is Normal,
        ensures
            self.spec_children(doc).len() == (if doc.before_style(self.node.index as int).is_some() {
                1int
            } else {
                0int
            }) + doc.kids(self.node.index as int).len() + (if doc.after_style(
                self.node.index as int,
            ).is_some() {
                1int
            } else {
                0int
            }),
            0 <= k < self.spec_children(doc).len() ==> {
                let kid = self.spec_children(doc)[k];
                &&& kid.pseudo is Before <==> doc.before_style(self.node.index as int).is_some() && k
                    == 0
                &&& kid.pseudo is After <==> doc.after_style(self.node.index as int).is_some() && k
                    == self.spec_children(doc).len() - 1
                &&& kid.pseudo is Normal ==> kid == self.real_part(doc)[k - self.before_part(
                    doc,
                ).len()]
            },
    {
    }

    /// Creates a restricted handle on another node for the pass of this one.
    pub fn new_with_this_lifetime(&self, index: usize) -> (r: ThreadSafeLayoutNode)
        ensures
            r == Self::normal(LayoutNode { index, pass: self.node.pass }),
    {
        ThreadSafeLayoutNode {
            node: self.node.new_with_this_lifetime(index),
            pseudo: PseudoElementType::Normal,
        }
    }

    /// Creates a restricted handle from a full-access one.
    pub fn new(node: &LayoutNode) -> (r: ThreadSafeLayoutNode)
        ensures
            r == Self::normal(*node),
    {
        ThreadSafeLayoutNode { node: *node, pseudo: PseudoElementType::Normal }
    }

    fn with_pseudo(&self, pseudo: PseudoElementType) -> (r: ThreadSafeLayoutNode)
        ensures
            r == (ThreadSafeLayoutNode { node: self.node, pseudo }),
    {
        ThreadSafeLayoutNode { node: self.node, pseudo }
    }

    /// Converts the handle into the node's identity.
    pub fn opaque(&self) -> (r: OpaqueNode)
        ensures
            r.id == self.node.index,
    {
        self.node.opaque()
    }

    /// Returns the category of this node, and `None` for a pseudo-element.
    pub fn type_id(&self, doc: &Document) -> (r: Option<NodeTypeId>)
        requires
            self.node.wf(doc),
        ensures
            r == (if self.pseudo is Normal {
                Some(doc.nodes@[self.node.index as int].content.spec_type_id())
            } else {
                None
            }),
    {
        if !self.pseudo.is_normal() {
            return None;
        }
        Some(self.node.type_id(doc))
    }

    pub fn debug_id(self) -> (r: usize)
        ensures
            r == self.node.index,
    {
        self.node.debug_id()
    }

    pub fn flow_debug_id(self, doc: &Document) -> (r: usize)
        requires
            self.node.wf(doc),
        ensures
            r == (match doc.nodes@[self.node.index as int].layout_data {
                Some(d) => d.data.flow_debug_id,
                None => 0,
            }),
    {
        self.node.flow_debug_id(doc)
    }

    pub fn get_pseudo_element_type(&self) -> (r: PseudoElementType)
        ensures
            r == self.pseudo,
    {
        self.pseudo
    }

    /// The side table of this node, to read.
    pub fn borrow_layout_data<'a>(&self, doc: &'a Document) -> (r: &'a Option<LayoutDataWrapper>)
        requires
            self.node.wf(doc),
        ensures
            *r == doc.nodes@[self.node.index as int].layout_data,
    {
        self.node.borrow_layout_data(doc)
    }

    /// The side table of this node, to change. The document is held until
    /// the reference is given up, and then differs in that side table alone.
    pub fn mutate_layout_data<'a>(&self, doc: &'a mut Document) -> (r: &'a mut Option<LayoutDataWrapper>)
        requires
            self.node.wf(old(doc)),
        ensures
            *r == old(doc).nodes@[self.node.index as int].layout_data,
            old(doc).same_tree(final(doc)),
            forall|j: int|
                0 <= j < old(doc).nodes@.len() && j != self.node.index ==> final(doc).nodes@[j]
                    == old(doc).nodes@[j],
            final(doc).nodes@[self.node.index as int].flags == old(doc).nodes@[self.node.index as int].flags,
            final(doc).nodes@[self.node.index as int].layout_data == *final(r),
    {
        self.node.mutate_layout_data(doc)
    }

    /// The `display` of the node's own style, where that has been resolved.
    pub fn get_normal_display(&self, doc: &Document) -> (r: Option<Display>)
        requires
            self.node.wf(doc),
        ensures
            r == (match doc.normal_style(self.node.index as int) {
                Some(s) => Some(s.display),
                None => None,
            }),
    {
        match self.borrow_layout_data(doc) {
            Some(d) => match &d.shared_data.style {
                Some(s) => Some(s.display),
                None => None,
            },
            None => None,
        }
    }

    /// The `display` of the `before` pseudo-element, where the node has one.
    pub fn get_before_display(&self, doc: &Document) -> (r: Option<Display>)
        requires
            self.node.wf(doc),
        ensures
            r == (match doc.before_style(self.node.index as int) {
                Some(s) => Some(s.display),
                None => None,
            }),
    {
        match self.borrow_layout_data(doc) {
            Some(d) => match &d.data.before_style {
                Some(s) => Some(s.display),
                None => None,
            },
            None => None,
        }
    }

    /// The `display` of the `after` pseudo-element, where the node has one.
    pub fn get_after_display(&self, doc: &Document) -> (r: Option<Display>)
        requires
            self.node.wf(doc),
        ensures
            r == (match doc.after_style(self.node.index as int) {
                Some(s) => Some(s.display),
                None => None,
            }),
    {
        match self.borrow_layout_data(doc) {
            Some(d) => match &d.data.after_style {
                Some(s) => Some(s.display),
                None => None,
            },
            None => None,
        }
    }

    pub fn has_before_pseudo(&self, doc: &Document) -> (r: bool)
        requires
            self.node.wf(doc),
        ensures
            r == doc.before_style(self.node.index as int).is_some(),
    {
        self.get_before_display(doc).is_some()
    }

    pub fn has_after_pseudo(&self, doc: &Document) -> (r: bool)
        requires
            self.node.wf(doc),
        ensures
            r == doc.after_style(self.node.index as int).is_some(),
    {
        self.get_after_display(doc).is_some()
    }

    /// The node's first own child, as a restricted handle.
    fn first_real_child(&self, doc: &Document) -> (r: Option<ThreadSafeLayoutNode>)
        requires
            doc.wf(),
            self.node.wf(doc),
        ensures
            r == (if self.real_part(doc).len() > 0 {
                Some(self.real_part(doc)[0])
            } else {
                None
            }),
            r matches Some(c) ==> c.wf(doc),
    {
        proof {
            assert(doc.links_ok(self.node.index as int));
        }
        match self.node.first_child(doc) {
            Some(c) => Some(ThreadSafeLayoutNode::new(&c)),
            None => None,
        }
    }

    /// The children of this handle without the `after` pseudo-element.
    pub open spec fn leading_children(&self, doc: &Document) -> Seq<ThreadSafeLayoutNode> {
        match self.pseudo {
            PseudoElementType::Normal => self.before_part(doc) + self.real_part(doc),
            _ => self.spec_children(doc),
        }
    }

    /// The first child of this handle, the `after` pseudo-element left
    /// aside.
    pub(crate) fn first_child(&self, doc: &Document) -> (r: Option<ThreadSafeLayoutNode>)
        requires
            doc.wf(),
            self.node.wf(doc),
        ensures
            r == (if self.leading_children(doc).len() > 0 {
                Some(self.leading_children(doc)[0])
            } else {
                None
            }),
            r matches Some(c) ==> c.wf(doc),
    {
        match self.pseudo {
            PseudoElementType::After(_) => None,
            PseudoElementType::Before(_) => self.first_real_child(doc),
            PseudoElementType::Normal => {
                match self.get_before_display(doc) {
                    Some(display) => Some(self.with_pseudo(PseudoElementType::Before(display))),
                    None => self.first_real_child(doc),
                }
            },
        }
    }

    /// What follows this handle among the children of its node: after the
    /// `before` pseudo-element the node's first own child, after an own
    /// child its next sibling.
    pub(crate) fn next_sibling(&self, doc: &Document) -> (r: Option<ThreadSafeLayoutNode>)
        requires
            doc.wf(),
            self.node.wf(doc),
            !(self.pseudo is After),
        ensures
            r == (match self.pseudo {
                PseudoElementType::Normal => match doc.next_sibling_of(self.node.index as int) {
                    Some(i) => Some(Self::normal(LayoutNode { index: i, pass: self.node.pass })),
                    None => None,
                },
                _ => if self.real_part(doc).len() > 0 {
                    Some(self.real_part(doc)[0])
                } else {
                    None
                },
            }),
    {
        if self.pseudo.is_before() {
            return self.first_real_child(doc);
        }
        match self.node.next_sibling(doc) {
            Some(s) => Some(ThreadSafeLayoutNode::new(&s)),
            None => None,
        }
    }

    /// The element view of this node.
    pub fn as_element(&self, doc: &Document) -> (r: ThreadSafeLayoutElement)
        requires
            self.node.wf(doc),
            doc.nodes@[self.node.index as int].content is Element,
        ensures
            r.element.node == self.node,
            r.element.wf(doc),
    {
        ThreadSafeLayoutElement { element: LayoutElement { node: self.node } }
    }

    /// Whether this is a text node of white space alone whose style
    /// collapses white space.
    pub open spec fn spec_is_ignorable_whitespace(&self, doc: &Document) -> bool {
        &&& doc.nodes@[self.node.index as int].content matches NodeContent::Text(text)
        &&& spec_is_whitespace(text@)
        &&& doc.normal_style(self.node.index as int) matches Some(style)
        &&& style.white_space == WhiteSpace::Normal
    }

    pub fn is_ignorable_whitespace(&self, doc: &Document) -> (r: bool)
        requires
            self.node.wf(doc),
        ensures
            r == self.spec_is_ignorable_whitespace(doc),
    {
        let text = match &doc.nodes[self.node.index].content {
            NodeContent::Text(text) => text,
            _ => {
                return false;
            },
        };
        if !is_whitespace(text.as_str()) {
            return false;
        }
        match self.borrow_layout_data(doc) {
            Some(d) => match &d.shared_data.style {
                Some(style) => match style.white_space {
                    WhiteSpace::Normal => true,
                    _ => false,
                },
                None => false,
            },
            None => false,
        }
    }

    /// The element data of this node, where it is an element.
    pub open spec fn kind(&self, doc: &Document) -> ElementKind {
        doc.element_at(self.node.index as int).kind
    }

    /// This handle stands for an element node.
    pub open spec fn is_element(&self, doc: &Document) -> bool {
        self.node.wf(doc) && doc.nodes@[self.node.index as int].content is Element
    }

    fn element_kind<'a>(&self, doc: &'a Document) -> (r: &'a ElementKind)
        requires
            self.is_element(doc),
        ensures
            *r == self.kind(doc),
    {
        match &doc.nodes[self.node.index].content {
            NodeContent::Element(e) => &e.kind,
            _ => vstd::pervasive::unreached(),
        }
    }

    /// The current value of an input element.
    pub fn get_input_value(&self, doc: &Document) -> (r: String)
        requires
            self.is_element(doc),
            self.kind(doc) is Input,
        ensures
            self.kind(doc) matches ElementKind::Input { value, .. } && r == value,
    {
        match self.element_kind(doc) {
            ElementKind::Input { value, .. } => value.clone(),
            _ => vstd::pervasive::unreached(),
        }
    }

    /// The `size` of an input element.
    pub fn get_input_size(&self, doc: &Document) -> (r: u32)
        requires
            self.is_element(doc),
            self.kind(doc) is Input,
        ensures
            self.kind(doc) matches ElementKind::Input { size, .. } && r == size,
    {
        match self.element_kind(doc) {
            ElementKind::Input { size, .. } => *size,
            _ => vstd::pervasive::unreached(),
        }
    }

    pub fn get_unsigned_integer_attribute(self, doc: &Document, attribute: UnsignedIntegerAttribute) -> (r: Option<u32>)
        requires
            self.is_element(doc),
        ensures
            r == (match attribute {
                UnsignedIntegerAttribute::Cols => doc.element_at(self.node.index as int).cols,
                UnsignedIntegerAttribute::Rows => doc.element_at(self.node.index as int).rows,
            }),
    {
        self.as_element(doc).element.get_unsigned_integer_attribute(doc, attribute)
    }

    /// What has to be redone for this node, where it has a side table.
    pub fn restyle_damage(self, doc: &Document) -> (r: Option<RestyleDamage>)
        requires
            self.node.wf(doc),
        ensures
            r == (match doc.nodes@[self.node.index as int].layout_data {
                Some(d) => Some(d.data.restyle_damage),
                None => None,
            }),
    {
        match self.borrow_layout_data(doc) {
            Some(d) => Some(d.data.restyle_damage),
            None => None,
        }
    }

    /// The flags of this node, where it has a side table.
    pub fn flags(self, doc: &Document) -> (r: Option<LayoutDataFlags>)
        requires
            self.node.wf(doc),
        ensures
            r == (match doc.nodes@[self.node.index as int].layout_data {
                Some(d) => Some(d.data.flags),
                None => None,
            }),
    {
        match self.borrow_layout_data(doc) {
            Some(d) => Some(d.data.flags),
            None => None,
        }
    }

    /// `doc` differs from `before` in the side table of this node alone,
    /// which is `data`.
    pub open spec fn layout_data_set(
        &self,
        before: &Document,
        doc: &Document,
        data: Option<LayoutDataWrapper>,
    ) -> bool {
        &&& before.same_tree(doc)
        &&& before.wf() ==> doc.wf()
        &&& forall|j: int|
            0 <= j < before.nodes@.len() && j != self.node.index ==> doc.nodes@[j]
                == before.nodes@[j]
        &&& doc.nodes@[self.node.index as int].flags == before.nodes@[self.node.index as int].flags
        &&& doc.nodes@[self.node.index as int].layout_data == data
    }

    /// Sets the restyle damage of this node. Returns false, and changes
    /// nothing, where the node has no side table.
    pub fn set_restyle_damage(self, doc: &mut Document, damage: RestyleDamage) -> (done: bool)
        requires
            self.node.wf(old(doc)),
        ensures
            done == old(doc).nodes@[self.node.index as int].layout_data.is_some(),
            self.layout_data_set(
                old(doc),
                final(doc),
                match old(doc).nodes@[self.node.index as int].layout_data {
                    Some(d) => Some(
                        LayoutDataWrapper {
                            data: PrivateLayoutData { restyle_damage: damage, ..d.data },
                            ..d
                        },
                    ),
                    None => None,
                },
            ),
    {
        let done = match &mut doc.nodes[self.node.index].layout_data {
            Some(layout_data) => {
                layout_data.data.restyle_damage = damage;
                true
            },
            None => false,
        };
        proof {
            if old(doc).wf() {
                old(doc).lemma_same_tree_wf(doc);
            }
        }
        done
    }

    /// Adds the given flags to this node. Returns false, and changes
    /// nothing, where the node has no side table.
    pub fn insert_flags(self, doc: &mut Document, new_flags: LayoutDataFlags) -> (done: bool)
        requires
            self.node.wf(old(doc)),
        ensures
            done == old(doc).nodes@[self.node.index as int].layout_data.is_some(),
            self.layout_data_set(
                old(doc),
                final(doc),
                match old(doc).nodes@[self.node.index as int].layout_data {
                    Some(d) => Some(
                        LayoutDataWrapper {
                            data: PrivateLayoutData {
                                flags: d.data.flags.spec_insert(new_flags),
                                ..d.data
                            },
                            ..d
                        },
                    ),
                    None => None,
                },
            ),
    {
        let done = match &mut doc.nodes[self.node.index].layout_data {
            Some(layout_data) => {
                layout_data.data.flags.bits = layout_data.data.flags.bits | new_flags.bits;
                true
            },
            None => false,
        };
        proof {
            if old(doc).wf() {
                old(doc).lemma_same_tree_wf(doc);
            }
        }
        done
    }

    /// Removes the given flags from this node. Returns false, and changes
    /// nothing, where the node has no side table.
    pub fn remove_flags(self, doc: &mut Document, flags: LayoutDataFlags) -> (done: bool)
        requires
            self.node.wf(old(doc)),
        ensures
            done == old(doc).nodes@[self.node.index as int].layout_data.is_some(),
            self.layout_data_set(
                old(doc),
                final(doc),
                match old(doc).nodes@[self.node.index as int].layout_data {
                    Some(d) => Some(
                        LayoutDataWrapper {
                            data: PrivateLayoutData {
                                flags: d.data.flags.spec_remove(flags),
                                ..d.data
                            },
                            ..d
                        },
                    ),
                    None => None,
                },
            ),
    {
        let done = match &mut doc.nodes[self.node.index].layout_data {
            Some(layout_data) => {
                layout_data.data.flags.bits = layout_data.data.flags.bits & !flags.bits;
                true
            },
            None => false,
        };
        proof {
            if old(doc).wf() {
                old(doc).lemma_same_tree_wf(doc);
            }
        }
        done
    }

    /// Whether this node contributes content: an element or a text node.
    pub fn is_content(&self, doc: &Document) -> (r: bool)
        requires
            self.node.wf(doc),
        ensures
            r == (self.pseudo is Normal && (doc.nodes@[self.node.index as int].content is Element
                || doc.nodes@[self.node.index as int].content is Text)),
    {
        match self.type_id(doc) {
            Some(NodeTypeId::Element(_)) | Some(NodeTypeId::Text) => true,
            _ => false,
        }
    }

    /// Whether `text_content` has something to copy out of this handle: it
    /// is a pseudo-element, a text node, an input or a text area.
    pub open spec fn has_text(&self, doc: &Document) -> bool {
        ||| !(self.pseudo is Normal)
        ||| doc.nodes@[self.node.index as int].content is Text
        ||| (doc.nodes@[self.node.index as int].content is Element && (self.kind(doc) is Input
            || self.kind(doc) is TextArea))
    }

    /// The content of this handle: of a pseudo-element the generated
    /// content of its style, of a text node its text, of a form control its
    /// value.
    pub open spec fn spec_text_content(&self, doc: &Document) -> Seq<ContentItem> {
        match self.pseudo {
            PseudoElementType::Before(_) => match doc.before_style(self.node.index as int) {
                Some(s) => s.generated(),
                None => Seq::empty(),
            },
            PseudoElementType::After(_) => match doc.after_style(self.node.index as int) {
                Some(s) => s.generated(),
                None => Seq::empty(),
            },
            PseudoElementType::Normal => match doc.nodes@[self.node.index as int].content {
                NodeContent::Text(text) => seq![ContentItem::Str(text)],
                NodeContent::Element(e) => match e.kind {
                    ElementKind::Input { value, .. } => seq![ContentItem::Str(value)],
                    ElementKind::TextArea { value } => seq![ContentItem::Str(value)],
                    _ => Seq::empty(),
                },
                _ => Seq::empty(),
            },
        }
    }

    /// If this is a text node, generated content, or a form control, copies
    /// out its content.
    pub fn text_content(&self, doc: &Document) -> (r: Vec<ContentItem>)
        requires
            self.node.wf(doc),
            self.has_text(doc),
        ensures
            r@ == self.spec_text_content(doc),
    {
        if !self.pseudo.is_normal() {
            let data = match self.borrow_layout_data(doc) {
                Some(d) => &d.data,
                None => {
                    return Vec::new();
                },
            };
            let style = if self.pseudo.is_before() {
                &data.before_style
            } else {
                &data.after_style
            };
            return match style {
                Some(s) => match &s.content {
                    Content::Content(value) => copy_items(value),
                    _ => Vec::new(),
                },
                None => Vec::new(),
            };
        }
        match &doc.nodes[self.node.index].content {
            NodeContent::Text(text) => {
                let mut out = Vec::new();
                out.push(ContentItem::Str(text.clone()));
                out
            },
            NodeContent::Element(e) => match &e.kind {
                ElementKind::Input { value, .. } => {
                    let mut out = Vec::new();
                    out.push(ContentItem::Str(value.clone()));
                    out
                },
                ElementKind::TextArea { value } => {
                    let mut out = Vec::new();
                    out.push(ContentItem::Str(value.clone()));
                    out
                },
                _ => vstd::pervasive::unreached(),
            },
            _ => vstd::pervasive::unreached(),
        }
    }

    /// The address of an image element's image, where it has one.
    pub fn image_url(&self, doc: &Document) -> (r: Option<url::Url>)
        requires
            self.is_element(doc),
            self.kind(doc) is Image,
        ensures
            self.kind(doc) matches ElementKind::Image { url } && r == url,
    {
        match self.element_kind(doc) {
            ElementKind::Image { url } => match url {
                Some(u) => Some(copy_url(u)),
                None => None,
            },
            _ => vstd::pervasive::unreached(),
        }
    }

    /// The renderer endpoint of a canvas element; none for any other node
    /// and for a canvas that has none.
    pub fn renderer(&self, doc: &Document) -> (r: Option<u64>)
        requires
            self.node.wf(doc),
        ensures
            r == (match doc.nodes@[self.node.index as int].content {
                NodeContent::Element(e) => match e.kind {
                    ElementKind::Canvas { renderer, .. } => renderer,
                    _ => None,
                },
                _ => None,
            }),
    {
        match &doc.nodes[self.node.index].content {
            NodeContent::Element(e) => match &e.kind {
                ElementKind::Canvas { renderer, .. } => *renderer,
                _ => None,
            },
            _ => None,
        }
    }

    pub fn canvas_width(&self, doc: &Document) -> (r: u32)
        requires
            self.is_element(doc),
            self.kind(doc) is Canvas,
        ensures
            self.kind(doc) matches ElementKind::Canvas { width, .. } && r == width,
    {
        match self.element_kind(doc) {
            ElementKind::Canvas { width, .. } => *width,
            _ => vstd::pervasive::unreached(),
        }
    }

    pub fn canvas_height(&self, doc: &Document) -> (r: u32)
        requires
            self.is_element(doc),
            self.kind(doc) is Canvas,
        ensures
            self.kind(doc) matches ElementKind::Canvas { height, .. } && r == height,
    {
        match self.element_kind(doc) {
            ElementKind::Canvas { height, .. } => *height,
            _ => vstd::pervasive::unreached(),
        }
    }

    /// The pipeline and subpage identifiers of an iframe element.
    pub fn iframe_pipeline_and_subpage_ids(&self, doc: &Document) -> (r: (u32, u32))
        requires
            self.is_element(doc),
            self.kind(doc) is IFrame,
        ensures
            self.kind(doc) matches ElementKind::IFrame { pipeline, subpage } && r == (
                pipeline,
                subpage,
            ),
    {
        match self.element_kind(doc) {
            ElementKind::IFrame { pipeline, subpage } => (*pipeline, *subpage),
            _ => vstd::pervasive::unreached(),
        }
    }
}

impl ThreadSafeLayoutElement {
    /// The text of the first attribute with this name in this namespace.
    pub fn get_attr<'a>(&self, doc: &'a Document, namespace: &String, name: &String) -> (r: Option<&'a String>)
        requires
            self.element.wf(doc),
        ensures
            match r {
                Some(s) => exists|i: int|
                    crate::element::first_named(
                        self.element.data(doc).attrs@,
                        namespace@,
                        name@,
                        i,
                    ) && *s == (#[trigger] self.element.data(doc).attrs@[i]).value.text(),
                None => crate::element::none_named(self.element.data(doc).attrs@, namespace@, name@),
            },
    {
        self.element.get_attr(doc, namespace, name)
    }
}

} // verus!
