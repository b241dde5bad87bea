//! The element view: what selector matching may ask of an element.

use vstd::prelude::*;
use crate::dom::{Attr, AttrValue, Document, ElementData, ElementKind, NodeContent};
use crate::node::LayoutNode;

verus! {

/// A handle on a node that is known to be an element.
#[derive(Clone, Copy, Debug, PartialEq, Eq, Structural)]
pub struct LayoutElement {
    pub node: LayoutNode,
}

/// Which namespaces an attribute selector accepts.
#[derive(Clone, Debug, PartialEq, Eq)]
pub enum NamespaceConstraint {
    Any,
    Specific(String),
}

/// The attribute that a selector asks for.
#[derive(Clone, Debug, PartialEq, Eq)]
pub struct AttrSelector {
    pub name: String,
    pub lower_name: String,
    pub namespace: NamespaceConstraint,
}

/// The legacy attributes whose value is an unsigned integer.
#[derive(Clone, Copy, Debug, PartialEq, Eq, Structural)]
pub enum UnsignedIntegerAttribute {
    Cols,
    Rows,
}

impl AttrValue {
    /// The text of the value.
    pub open spec fn text(self) -> String {
        match self {
            AttrValue::Str(s) => s,
            AttrValue::UInt(s, _) => s,
        }
    }

    pub fn as_text(&self) -> (r: &String)
        ensures
            *r == self.text(),
    {
        match self {
            AttrValue::Str(s) => s,
            AttrValue::UInt(s, _) => s,
        }
    }
}

impl Attr {
    /// The attribute has this name in this namespace.
    pub open spec fn is_named(self, namespace: Seq<char>, name: Seq<char>) -> bool {
        self.namespace@ == namespace && self.name@ == name
    }
}

/// `i` is the first attribute of `attrs` with this name in this namespace.
pub open spec fn first_named(attrs: Seq<Attr>, namespace: Seq<char>, name: Seq<char>, i: int) -> bool {
    &&& 0 <= i < attrs.len()
    &&& attrs[i].is_named(namespace, name)
    &&& forall|j: int| 0 <= j < i ==> !(#[trigger] attrs[j]).is_named(namespace, name)
}

/// No attribute of `attrs` has this name in this namespace.
pub open spec fn none_named(attrs: Seq<Attr>, namespace: Seq<char>, name: Seq<char>) -> bool {
    forall|j: int| 0 <= j < attrs.len() ==> !(#[trigger] attrs[j]).is_named(namespace, name)
}

/// The attributes of `attrs` that have this name, in any namespace, in order.
pub open spec fn all_named(attrs: Seq<Attr>, name: Seq<char>) -> Seq<Attr> {
    attrs.filter(|a: Attr| a.name@ == name)
}

/// The place of the first attribute with this name in this namespace.
pub fn find_attr(attrs: &Vec<Attr>, namespace: &String, name: &String) -> (r: Option<usize>)
    ensures
        match r {
            Some(i) => first_named(attrs@, namespace@, name@, i as int),
            None => none_named(attrs@, namespace@, name@),
        },
{
    let mut i: usize = 0;
    while i < attrs.len()
        invariant
            i <= attrs@.len(),
            forall|j: int| 0 <= j < i ==> !(#[trigger] attrs@[j]).is_named(namespace@, name@),
        decreases attrs@.len() - i,
    {
        if attrs[i].namespace == *namespace && attrs[i].name == *name {
            return Some(i);
        }
        i = i + 1;
    }
    None
}

impl Document {
    /// The element data of node `i`, where it is an element.
    pub open spec fn element_at(&self, i: int) -> ElementData {
        match self.nodes@[i].content {
            NodeContent::Element(e) => e,
            _ => arbitrary(),
        }
    }
}

impl ElementKind {
    /// Whether elements of this category can be hyperlinks.
    pub open spec fn can_link(self) -> bool {
        self is Anchor || self is Area || self is Link
    }
}

impl LayoutElement {
    /// The handle is good for `doc` and names an element.
    pub open spec fn wf(&self, doc: &Document) -> bool {
        self.node.wf(doc) && doc.nodes@[self.node.index as int].content is Element
    }

    /// The element's data in `doc`.
    pub open spec fn data(&self, doc: &Document) -> ElementData {
        doc.element_at(self.node.index as int)
    }

    fn element<'a>(&self, doc: &'a Document) -> (r: &'a ElementData)
        requires
            self.wf(doc),
        ensures
            *r == self.data(doc),
    {
        match &doc.nodes[self.node.index].content {
            NodeContent::Element(e) => e,
            _ => vstd::pervasive::unreached(),
        }
    }

    /// The declarations of the element's `style` attribute.
    pub fn style_attribute<'a>(&self, doc: &'a Document) -> (r: &'a Option<String>)
        requires
            self.wf(doc),
        ensures
            *r == self.data(doc).style_attribute,
    {
        &self.element(doc).style_attribute
    }

    pub fn as_node(&self) -> (r: LayoutNode)
        ensures
            r == self.node,
    {
        self.node
    }

    pub fn get_local_name<'a>(&self, doc: &'a Document) -> (r: &'a String)
        requires
            self.wf(doc),
        ensures
            *r == self.data(doc).local_name,
    {
        &self.element(doc).local_name
    }

    pub fn get_namespace<'a>(&self, doc: &'a Document) -> (r: &'a String)
        requires
            self.wf(doc),
        ensures
            *r == self.data(doc).namespace,
    {
        &self.element(doc).namespace
    }

    /// Whether the element is a hyperlink: an anchor, area or link element
    /// with an `href` attribute in no namespace.
    pub open spec fn spec_is_link(&self, doc: &Document) -> bool {
        self.data(doc).kind.can_link() && !none_named(
            self.data(doc).attrs@,
            Seq::<char>::empty(),
            "href"@,
        )
    }

    pub fn is_link(&self, doc: &Document) -> (r: bool)
        requires
            self.wf(doc),
        ensures
            r == self.spec_is_link(doc),
    {
        let e = self.element(doc);
        match e.kind {
            ElementKind::Anchor | ElementKind::Area | ElementKind::Link => {
                let ns = String::new();
                let name = "href".to_owned();
                find_attr(&e.attrs, &ns, &name).is_some()
            },
            _ => false,
        }
    }

    pub fn is_unvisited_link(&self, doc: &Document) -> (r: bool)
        requires
            self.wf(doc),
        ensures
            r == self.spec_is_link(doc),
    {
        self.is_link(doc)
    }

    /// No link counts as visited.
    pub fn is_visited_link(&self) -> (r: bool)
        ensures
            !r,
    {
        false
    }

    pub fn get_hover_state(&self, doc: &Document) -> (r: bool)
        requires
            self.wf(doc),
        ensures
            r == self.data(doc).state.hover,
    {
        self.element(doc).state.hover
    }

    pub fn get_focus_state(&self, doc: &Document) -> (r: bool)
        requires
            self.wf(doc),
        ensures
            r == self.data(doc).state.focus,
    {
        self.element(doc).state.focus
    }

    pub fn get_disabled_state(&self, doc: &Document) -> (r: bool)
        requires
            self.wf(doc),
        ensures
            r == self.data(doc).state.disabled,
    {
        self.element(doc).state.disabled
    }

    pub fn get_enabled_state(&self, doc: &Document) -> (r: bool)
        requires
            self.wf(doc),
        ensures
            r == self.data(doc).state.enabled,
    {
        self.element(doc).state.enabled
    }

    pub fn get_checked_state(&self, doc: &Document) -> (r: bool)
        requires
            self.wf(doc),
        ensures
            r == self.data(doc).state.checked,
    {
        self.element(doc).state.checked
    }

    pub fn get_indeterminate_state(&self, doc: &Document) -> (r: bool)
        requires
            self.wf(doc),
        ensures
            r == self.data(doc).state.indeterminate,
    {
        self.element(doc).state.indeterminate
    }

    /// The text of the first attribute with this name in this namespace.
    pub fn get_attr<'a>(&self, doc: &'a Document, namespace: &String, name: &String) -> (r: Option<&'a String>)
        requires
            self.wf(doc),
        ensures
            match r {
                Some(s) => exists|i: int|
                    first_named(self.data(doc).attrs@, namespace@, name@, i) && *s == (
                    #[trigger] self.data(doc).attrs@[i]).value.text(),
                None => none_named(self.data(doc).attrs@, namespace@, name@),
            },
    {
        let e = self.element(doc);
        match find_attr(&e.attrs, namespace, name) {
            Some(i) => Some(e.attrs[i].value.as_text()),
            None => None,
        }
    }

    /// The texts of all attributes with this name, whatever their
    /// namespace, in the element's order.
    pub fn get_attrs<'a>(&self, doc: &'a Document, name: &String) -> (r: Vec<&'a String>)
        requires
            self.wf(doc),
        ensures
            r@.len() == all_named(self.data(doc).attrs@, name@).len(),
            forall|k: int|
                0 <= k < r@.len() ==> *(#[trigger] r@[k]) == all_named(
                    self.data(doc).attrs@,
                    name@,
                )[k].value.text(),
    {
        let e = self.element(doc);
        let mut out: Vec<&'a String> = Vec::new();
        let mut i: usize = 0;
        let ghost pred = |a: Attr| a.name@ == name@;
        proof {
            assert(e.attrs@.take(0) =~= Seq::<Attr>::empty());
            reveal(Seq::filter);
        }
        while i < e.attrs.len()
            invariant
                i <= e.attrs@.len(),
                pred == (|a: Attr| a.name@ == name@),
                out@.len() == e.attrs@.take(i as int).filter(pred).len(),
                forall|k: int|
                    0 <= k < out@.len() ==> *(#[trigger] out@[k]) == e.attrs@.take(i as int).filter(
                        pred,
                    )[k].value.text(),
            decreases e.attrs@.len() - i,
        {
            proof {
                assert(e.attrs@.take(i + 1).drop_last() =~= e.attrs@.take(i as int));
                reveal(Seq::filter);
            }
            if e.attrs[i].name == *name {
                out.push(e.attrs[i].value.as_text());
            }
            i = i + 1;
        }
        proof {
            assert(e.attrs@.take(i as int) =~= e.attrs@);
        }
        out
    }

    /// The text of the `id` attribute in no namespace.
    pub fn get_id<'a>(&self, doc: &'a Document) -> (r: Option<&'a String>)
        requires
            self.wf(doc),
        ensures
            match r {
                Some(s) => exists|i: int|
                    first_named(self.data(doc).attrs@, Seq::<char>::empty(), "id"@, i) && *s == (
                    #[trigger] self.data(doc).attrs@[i]).value.text(),
                None => none_named(self.data(doc).attrs@, Seq::<char>::empty(), "id"@),
            },
    {
        let ns = String::new();
        let name = "id".to_owned();
        self.get_attr(doc, &ns, &name)
    }

    pub fn has_class(&self, doc: &Document, name: &String) -> (r: bool)
        requires
            self.wf(doc),
        ensures
            r == exists|k: int|
                0 <= k < self.data(doc).classes@.len() && (#[trigger] self.data(doc).classes@[k])@
                    == name@,
    {
        let e = self.element(doc);
        let mut i: usize = 0;
        while i < e.classes.len()
            invariant
                i <= e.classes@.len(),
                *e == self.data(doc),
                forall|k: int| 0 <= k < i ==> (#[trigger] e.classes@[k])@ != name@,
            decreases e.classes@.len() - i,
        {
            if e.classes[i] == *name {
                assert(self.data(doc).classes@[i as int]@ == name@);
                return true;
            }
            i = i + 1;
        }
        false
    }

    /// The element's classes, in its own order.
    pub fn each_class<'a>(&self, doc: &'a Document) -> (r: &'a Vec<String>)
        requires
            self.wf(doc),
        ensures
            *r == self.data(doc).classes,
    {
        &self.element(doc).classes
    }

    /// Whether the first `border` attribute in no namespace is anything but
    /// the number zero.
    pub fn has_servo_nonzero_border(&self, doc: &Document) -> (r: bool)
        requires
            self.wf(doc),
        ensures
            r == exists|i: int|
                first_named(self.data(doc).attrs@, Seq::<char>::empty(), "border"@, i) && !(
                #[trigger] self.data(doc).attrs@[i].value matches AttrValue::UInt(_, 0)),
    {
        let e = self.element(doc);
        let ns = String::new();
        let name = "border".to_owned();
        match find_attr(&e.attrs, &ns, &name) {
            None => false,
            Some(i) => match &e.attrs[i].value {
                AttrValue::UInt(_, n) => {
                    assert(first_named(e.attrs@, ns@, name@, i as int));
                    *n != 0
                },
                _ => {
                    assert(first_named(e.attrs@, ns@, name@, i as int));
                    true
                },
            },
        }
    }

    /// The name under which a selector's attribute is looked up on this
    /// element: the lower-case one on an HTML element in an HTML document,
    /// the name as written everywhere else.
    pub open spec fn lookup_name(&self, doc: &Document, attr: &AttrSelector) -> String {
        if self.data(doc).html_in_html_document {
            attr.lower_name
        } else {
            attr.name
        }
    }

    /// Whether `test` accepts the attribute that the selector asks for: the
    /// first one of that name in the given namespace, or any one of that
    /// name where the selector accepts every namespace.
    pub fn match_attr<F: Fn(&String) -> bool>(&self, doc: &Document, attr: &AttrSelector, test: F) -> (r: bool)
        requires
            self.wf(doc),
            forall|s: &String| #[trigger] test.requires((s,)),
        ensures
            match attr.namespace {
                NamespaceConstraint::Specific(ns) => {
                    &&& r ==> exists|i: int|
                        first_named(self.data(doc).attrs@, ns@, self.lookup_name(doc, attr)@, i)
                            && test.ensures(
                            (&(#[trigger] self.data(doc).attrs@[i]).value.text(),),
                            true,
                        )
                    &&& !r ==> none_named(self.data(doc).attrs@, ns@, self.lookup_name(doc, attr)@)
                        || exists|i: int|
                        first_named(self.data(doc).attrs@, ns@, self.lookup_name(doc, attr)@, i)
                            && test.ensures(
                            (&(#[trigger] self.data(doc).attrs@[i]).value.text(),),
                            false,
                        )
                },
                NamespaceConstraint::Any => {
                    let found = all_named(self.data(doc).attrs@, self.lookup_name(doc, attr)@);
                    &&& r ==> exists|k: int|
                        0 <= k < found.len() && test.ensures(
                            (&(#[trigger] found[k]).value.text(),),
                            true,
                        )
                    &&& !r ==> forall|k: int|
                        0 <= k < found.len() ==> test.ensures(
                            (&(#[trigger] found[k]).value.text(),),
                            false,
                        )
                },
            },
    {
        let name = if self.is_html_element_in_html_document(doc) {
            &attr.lower_name
        } else {
            &attr.name
        };
        match &attr.namespace {
            NamespaceConstraint::Specific(ns) => {
                let e = self.element(doc);
                match find_attr(&e.attrs, ns, name) {
                    Some(i) => {
                        assert(first_named(e.attrs@, ns@, name@, i as int));
                        test(e.attrs[i].value.as_text())
                    },
                    None => false,
                }
            },
            NamespaceConstraint::Any => {
                let values = self.get_attrs(doc, name);
                let ghost found = all_named(self.data(doc).attrs@, name@);
                let mut k: usize = 0;
                while k < values.len()
                    invariant
                        k <= values@.len(),
                        values@.len() == found.len(),
                        attr.namespace is Any,
                        found == all_named(self.data(doc).attrs@, self.lookup_name(doc, attr)@),
                        forall|s: &String| #[trigger] test.requires((s,)),
                        forall|j: int|
                            0 <= j < values@.len() ==> *(#[trigger] values@[j])
                                == found[j].value.text(),
                        forall|j: int|
                            0 <= j < k ==> test.ensures(
                                (&(#[trigger] found[j]).value.text(),),
                                false,
                            ),
                    decreases values@.len() - k,
                {
                    let hit = test(values[k]);
                    assert(test.ensures((&found[k as int].value.text(),), hit));
                    if hit {
                        return true;
                    }
                    k = k + 1;
                }
                false
            },
        }
    }

    /// Appends the declarations that the element derives from its legacy
    /// presentational attributes to `hints`, in the element's order.
    pub fn synthesize_presentational_hints_for_legacy_attributes(
        &self,
        doc: &Document,
        hints: &mut Vec<String>,
    )
        requires
            self.wf(doc),
        ensures
            final(hints)@ == old(hints)@ + self.data(doc).legacy_hints@,
    {
        let e = self.element(doc);
        let mut i: usize = 0;
        while i < e.legacy_hints.len()
            invariant
                i <= e.legacy_hints@.len(),
                hints@ == old(hints)@ + e.legacy_hints@.take(i as int),
            decreases e.legacy_hints@.len() - i,
        {
            hints.push(e.legacy_hints[i].clone());
            proof {
                assert(hints@ =~= old(hints)@ + e.legacy_hints@.take(i + 1));
            }
            i = i + 1;
        }
        proof {
            assert(e.legacy_hints@.take(i as int) =~= e.legacy_hints@);
        }
    }

    pub fn is_html_element_in_html_document(&self, doc: &Document) -> (r: bool)
        requires
            self.wf(doc),
        ensures
            r == self.data(doc).html_in_html_document,
    {
        self.element(doc).html_in_html_document
    }

    pub fn get_unsigned_integer_attribute(&self, doc: &Document, attribute: UnsignedIntegerAttribute) -> (r: Option<u32>)
        requires
            self.wf(doc),
        ensures
            r == (match attribute {
                UnsignedIntegerAttribute::Cols => self.data(doc).cols,
                UnsignedIntegerAttribute::Rows => self.data(doc).rows,
            }),
    {
        match attribute {
            UnsignedIntegerAttribute::Cols => self.element(doc).cols,
            UnsignedIntegerAttribute::Rows => self.element(doc).rows,
        }
    }
}

} // verus!
