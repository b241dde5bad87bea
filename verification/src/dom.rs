//! The document tree: an arena of nodes, each with its category, its links to
//! parent and children, its dirty flags and its side table.

use vstd::prelude::*;
use crate::style::LayoutDataWrapper;

verus! {

/// A parsed address, `url::Url`. The library stores and hands on such
/// values and never looks inside one.
#[verifier::external_type_specification]
#[verifier::external_body]
pub struct ExUrl(url::Url);

/// The categories of element that layout tells apart.
#[derive(Clone, Copy, Debug, PartialEq, Eq, Structural)]
pub enum ElementTypeId {
    HTMLAnchorElement,
    HTMLAreaElement,
    HTMLLinkElement,
    HTMLInputElement,
    HTMLTextAreaElement,
    HTMLImageElement,
    HTMLIFrameElement,
    HTMLCanvasElement,
    Other,
}

/// The category of a node.
#[derive(Clone, Copy, Debug, PartialEq, Eq, Structural)]
pub enum NodeTypeId {
    Document,
    DocumentType,
    DocumentFragment,
    Comment,
    ProcessingInstruction,
    Text,
    Element(ElementTypeId),
}

/// The value of an attribute, as the document parsed it.
#[derive(Clone, Debug, PartialEq, Eq)]
pub enum AttrValue {
    Str(String),
    UInt(String, u32),
}

/// One attribute of an element.
#[derive(Clone, Debug, PartialEq, Eq)]
pub struct Attr {
    pub namespace: String,
    pub name: String,
    pub value: AttrValue,
}

/// What an element holds beyond what every element has.
#[derive(Clone, Debug, PartialEq, Eq)]
pub enum ElementKind {
    Anchor,
    Area,
    Link,
    Input { value: String, size: u32 },
    TextArea { value: String },
    Image { url: Option<url::Url> },
    IFrame { pipeline: u32, subpage: u32 },
    Canvas { width: u32, height: u32, renderer: Option<u64> },
    Other,
}

/// The state of an element that pseudo-classes ask about.
#[derive(Clone, Copy, Debug, PartialEq, Eq, Structural)]
pub struct ElementState {
    pub hover: bool,
    pub focus: bool,
    pub disabled: bool,
    pub enabled: bool,
    pub checked: bool,
    pub indeterminate: bool,
}

/// An element's own data.
#[derive(Clone, Debug, PartialEq, Eq)]
pub struct ElementData {
    pub kind: ElementKind,
    pub local_name: String,
    pub namespace: String,
    pub attrs: Vec<Attr>,
    pub classes: Vec<String>,
    pub state: ElementState,
    /// Whether this is an HTML element in an HTML document.
    pub html_in_html_document: bool,
    /// The legacy `cols` and `rows` values, where the element has them.
    pub cols: Option<u32>,
    pub rows: Option<u32>,
    /// The declarations of the `style` attribute, where the element has one.
    pub style_attribute: Option<String>,
    /// The declarations that the element derives from its legacy
    /// presentational attributes.
    pub legacy_hints: Vec<String>,
}

/// A node's category together with the data of that category.
#[derive(Clone, Debug, PartialEq, Eq)]
pub enum NodeContent {
    Document,
    DocumentType,
    DocumentFragment,
    Comment(String),
    ProcessingInstruction(String),
    Text(String),
    Element(ElementData),
}

/// The dirty flags of a node.
#[derive(Clone, Copy, Debug, PartialEq, Eq, Structural)]
pub struct NodeFlags {
    pub has_changed: bool,
    pub is_dirty: bool,
    pub has_dirty_siblings: bool,
    pub has_dirty_descendants: bool,
}

/// One node of the arena.
#[derive(Clone, Debug, PartialEq, Eq)]
pub struct NodeData {
    pub content: NodeContent,
    pub parent: Option<usize>,
    /// Where the node stands among its parent's children.
    pub position: usize,
    pub children: Vec<usize>,
    pub flags: NodeFlags,
    pub layout_data: Option<LayoutDataWrapper>,
}

/// The document: its nodes, and the number of the current layout pass.
#[derive(Clone, Debug, PartialEq, Eq)]
pub struct Document {
    pub nodes: Vec<NodeData>,
    pub pass: usize,
}

impl NodeFlags {
    /// No flag set.
    pub open spec fn clean() -> NodeFlags {
        NodeFlags {
            has_changed: false,
            is_dirty: false,
            has_dirty_siblings: false,
            has_dirty_descendants: false,
        }
    }
}

impl ElementKind {
    pub open spec fn spec_type_id(self) -> ElementTypeId {
        match self {
            ElementKind::Anchor => ElementTypeId::HTMLAnchorElement,
            ElementKind::Area => ElementTypeId::HTMLAreaElement,
            ElementKind::Link => ElementTypeId::HTMLLinkElement,
            ElementKind::Input { .. } => ElementTypeId::HTMLInputElement,
            ElementKind::TextArea { .. } => ElementTypeId::HTMLTextAreaElement,
            ElementKind::Image { .. } => ElementTypeId::HTMLImageElement,
            ElementKind::IFrame { .. } => ElementTypeId::HTMLIFrameElement,
            ElementKind::Canvas { .. } => ElementTypeId::HTMLCanvasElement,
            ElementKind::Other => ElementTypeId::Other,
        }
    }

    pub fn type_id(&self) -> (r: ElementTypeId)
        ensures
            r == self.spec_type_id(),
    {
        match self {
            ElementKind::Anchor => ElementTypeId::HTMLAnchorElement,
            ElementKind::Area => ElementTypeId::HTMLAreaElement,
            ElementKind::Link => ElementTypeId::HTMLLinkElement,
            ElementKind::Input { .. } => ElementTypeId::HTMLInputElement,
            ElementKind::TextArea { .. } => ElementTypeId::HTMLTextAreaElement,
            ElementKind::Image { .. } => ElementTypeId::HTMLImageElement,
            ElementKind::IFrame { .. } => ElementTypeId::HTMLIFrameElement,
            ElementKind::Canvas { .. } => ElementTypeId::HTMLCanvasElement,
            ElementKind::Other => ElementTypeId::Other,
        }
    }
}

impl NodeContent {
    pub open spec fn spec_type_id(self) -> NodeTypeId {
        match self {
            NodeContent::Document => NodeTypeId::Document,
            NodeContent::DocumentType => NodeTypeId::DocumentType,
            NodeContent::DocumentFragment => NodeTypeId::DocumentFragment,
            NodeContent::Comment(_) => NodeTypeId::Comment,
            NodeContent::ProcessingInstruction(_) => NodeTypeId::ProcessingInstruction,
            NodeContent::Text(_) => NodeTypeId::Text,
            NodeContent::Element(e) => NodeTypeId::Element(e.kind.spec_type_id()),
        }
    }

    pub fn type_id(&self) -> (r: NodeTypeId)
        ensures
            r == self.spec_type_id(),
    {
        match self {
            NodeContent::Document => NodeTypeId::Document,
            NodeContent::DocumentType => NodeTypeId::DocumentType,
            NodeContent::DocumentFragment => NodeTypeId::DocumentFragment,
            NodeContent::Comment(_) => NodeTypeId::Comment,
            NodeContent::ProcessingInstruction(_) => NodeTypeId::ProcessingInstruction,
            NodeContent::Text(_) => NodeTypeId::Text,
            NodeContent::Element(e) => NodeTypeId::Element(e.kind.type_id()),
        }
    }
}

impl ElementData {
    /// An element of the given category and name, with no attributes, no
    /// classes and every state bit cleared.
    pub fn new(kind: ElementKind, local_name: String, html_in_html_document: bool) -> (r:
        ElementData)
        ensures
            r.kind == kind,
            r.local_name == local_name,
            r.namespace@ == Seq::<char>::empty(),
            r.attrs@ == Seq::<Attr>::empty(),
            r.classes@ == Seq::<String>::empty(),
            r.html_in_html_document == html_in_html_document,
            r.state == (ElementState {
                hover: false,
                focus: false,
                disabled: false,
                enabled: false,
                checked: false,
                indeterminate: false,
            }),
            r.cols.is_none(),
            r.rows.is_none(),
            r.style_attribute.is_none(),
            r.legacy_hints@ == Seq::<String>::empty(),
    {
        ElementData {
            kind,
            local_name,
            namespace: String::new(),
            attrs: Vec::new(),
            classes: Vec::new(),
            state: ElementState {
                hover: false,
                focus: false,
                disabled: false,
                enabled: false,
                checked: false,
                indeterminate: false,
            },
            html_in_html_document,
            cols: None,
            rows: None,
            style_attribute: None,
            legacy_hints: Vec::new(),
        }
    }
}

impl Document {
    /// The children of node `i`, in document order.
    pub open spec fn kids(&self, i: int) -> Seq<usize> {
        self.nodes@[i].children@
    }

    /// Node `i` agrees with its children and with its parent on who is whose
    /// child, and stands after its parent in the arena.
    pub open spec fn links_ok(&self, i: int) -> bool {
        let n = self.nodes@[i];
        &&& forall|k: int|
            0 <= k < n.children@.len() ==> {
                let c = #[trigger] n.children@[k];
                &&& i < c < self.nodes@.len()
                &&& self.nodes@[c as int].parent == Some(i as usize)
                &&& self.nodes@[c as int].position == k
            }
        &&& match n.parent {
            Some(p) => {
                &&& p < i
                &&& n.position < self.nodes@[p as int].children@.len()
                &&& self.nodes@[p as int].children@[n.position as int] == i
            },
            None => true,
        }
    }

    /// The arena holds a forest: every link has its counterpart, and a child
    /// always has a larger index than its parent.
    pub open spec fn wf(&self) -> bool {
        forall|i: int| 0 <= i < self.nodes@.len() ==> #[trigger] self.links_ok(i)
    }

    /// Whether node `i` agrees with its children and its parent.
    fn check_links(&self, i: usize) -> (r: bool)
        requires
            i < self.nodes@.len(),
        ensures
            r == self.links_ok(i as int),
    {
        let node = &self.nodes[i];
        let count: usize = self.nodes.len();
        let mut k: usize = 0;
        while k < node.children.len()
            invariant
                i < self.nodes@.len(),
                count == self.nodes@.len(),
                *node == self.nodes@[i as int],
                k <= node.children@.len(),
                forall|m: int|
                    0 <= m < k ==> {
                        let c = #[trigger] node.children@[m];
                        &&& i < c < self.nodes@.len()
                        &&& self.nodes@[c as int].parent == Some(i)
                        &&& self.nodes@[c as int].position == m
                    },
            decreases node.children@.len() - k,
        {
            let c: usize = node.children[k];
            if c <= i || c >= count {
                assert(!self.links_ok(i as int)) by {
                    let _ = node.children@[k as int];
                }
                return false;
            }
            let kid = &self.nodes[c];
            let linked = match kid.parent {
                Some(p) => p == i && kid.position == k,
                None => false,
            };
            if !linked {
                assert(!self.links_ok(i as int)) by {
                    let _ = node.children@[k as int];
                }
                return false;
            }
            k = k + 1;
        }
        match node.parent {
            Some(p) => {
                if p >= i {
                    return false;
                }
                let siblings = &self.nodes[p].children;
                node.position < siblings.len() && siblings[node.position] == i
            },
            None => true,
        }
    }

    /// Whether the arena holds a forest, as every other operation asks.
    pub fn is_well_formed(&self) -> (r: bool)
        ensures
            r == self.wf(),
    {
        let mut i: usize = 0;
        while i < self.nodes.len()
            invariant
                i <= self.nodes@.len(),
                forall|j: int| 0 <= j < i ==> #[trigger] self.links_ok(j),
            decreases self.nodes@.len() - i,
        {
            if !self.check_links(i) {
                return false;
            }
            i = i + 1;
        }
        true
    }

    /// A document without nodes, in its first pass.
    pub fn new() -> (r: Document)
        ensures
            r.wf(),
            r.nodes@.len() == 0,
            r.pass == 0,
    {
        Document { nodes: Vec::new(), pass: 0 }
    }

    pub fn len(&self) -> (r: usize)
        ensures
            r == self.nodes@.len(),
    {
        self.nodes.len()
    }

    /// Adds a node as the last child of `parent`, or as a root where `parent`
    /// is `None`, and returns its index. Nothing else changes.
    pub fn add_node(&mut self, parent: Option<usize>, content: NodeContent) -> (id: usize)
        requires
            old(self).wf(),
            parent matches Some(p) ==> p < old(self).nodes@.len(),
        ensures
            final(self).wf(),
            id == old(self).nodes@.len(),
            final(self).pass == old(self).pass,
            final(self).nodes@.len() == old(self).nodes@.len() + 1,
            final(self).nodes@[id as int].content == content,
            final(self).nodes@[id as int].parent == parent,
            final(self).nodes@[id as int].children@.len() == 0,
            final(self).nodes@[id as int].layout_data.is_none(),
            final(self).nodes@[id as int].flags == NodeFlags::clean(),
            forall|j: int|
                0 <= j < old(self).nodes@.len() && parent != Some(j as usize)
                    ==> final(self).nodes@[j] == old(self).nodes@[j],
            parent matches Some(p) ==> {
                &&& final(self).nodes@[p as int].children@ == old(self).nodes@[p as int].children@.push(id)
                &&& final(self).nodes@[p as int].content == old(self).nodes@[p as int].content
                &&& final(self).nodes@[p as int].parent == old(self).nodes@[p as int].parent
                &&& final(self).nodes@[p as int].position == old(self).nodes@[p as int].position
                &&& final(self).nodes@[p as int].flags == old(self).nodes@[p as int].flags
                &&& final(self).nodes@[p as int].layout_data == old(self).nodes@[p as int].layout_data
            },
    {
        let id: usize = self.nodes.len();
        let position: usize = match parent {
            Some(p) => self.nodes[p].children.len(),
            None => 0,
        };
        let node = NodeData {
            content,
            parent,
            position,
            children: Vec::new(),
            flags: NodeFlags {
                has_changed: false,
                is_dirty: false,
                has_dirty_siblings: false,
                has_dirty_descendants: false,
            },
            layout_data: None,
        };
        self.nodes.push(node);
        match parent {
            Some(p) => {
                self.nodes[p].children.push(id);
            },
            None => {},
        }
        proof {
            assert forall|i: int| 0 <= i < self.nodes@.len() implies #[trigger] self.links_ok(i) by {
                if i < id {
                    assert(old(self).links_ok(i));
                }
                match parent {
                    Some(p) => {
                        assert(old(self).links_ok(p as int));
                    },
                    None => {},
                }
            }
        }
        id
    }
}

} // verus!
