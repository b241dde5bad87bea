//! Resolved style values and the per-node record that layout attaches to a node.

use vstd::prelude::*;

verus! {

/// The computed value of `display`.
#[derive(Clone, Copy, Debug, PartialEq, Eq, Structural)]
pub enum Display {
    Inline,
    Block,
    InlineBlock,
    Table,
    ListItem,
    DisplayNone,
}

/// The computed value of `white-space`.
#[derive(Clone, Copy, Debug, PartialEq, Eq, Structural)]
pub enum WhiteSpace {
    Normal,
    Pre,
    Nowrap,
}

/// One item of a generated-content list.
#[derive(Clone, Debug, PartialEq, Eq)]
pub enum ContentItem {
    Str(String),
    OpenQuote,
    CloseQuote,
    NoOpenQuote,
    NoCloseQuote,
}

/// The computed value of `content`.
#[derive(Clone, Debug, PartialEq, Eq)]
pub enum Content {
    Normal,
    NoContent,
    Content(Vec<ContentItem>),
}

/// The part of a resolved style that this layer reads.
#[derive(Clone, Debug, PartialEq, Eq)]
pub struct ComputedStyle {
    pub display: Display,
    pub white_space: WhiteSpace,
    pub content: Content,
}

/// A set of bits saying what has to be recomputed after a style change.
#[derive(Clone, Copy, Debug, PartialEq, Eq, Structural)]
pub struct RestyleDamage {
    pub bits: u8,
}

/// A set of per-node flags kept by the flow construction pass.
#[derive(Clone, Copy, Debug, PartialEq, Eq, Structural)]
pub struct LayoutDataFlags {
    pub bits: u8,
}

impl LayoutDataFlags {
    /// The empty set of flags.
    pub fn empty() -> (r: LayoutDataFlags)
        ensures
            r.bits == 0,
    {
        LayoutDataFlags { bits: 0 }
    }

    /// The union of two sets of flags.
    pub open spec fn spec_insert(self, other: LayoutDataFlags) -> LayoutDataFlags {
        LayoutDataFlags { bits: self.bits | other.bits }
    }

    /// The flags of `self` that are not in `other`.
    pub open spec fn spec_remove(self, other: LayoutDataFlags) -> LayoutDataFlags {
        LayoutDataFlags { bits: self.bits & !other.bits }
    }

    /// Whether every flag of `other` is set in `self`.
    pub open spec fn spec_contains(self, other: LayoutDataFlags) -> bool {
        self.bits & other.bits == other.bits
    }

    pub fn contains(self, other: LayoutDataFlags) -> (r: bool)
        ensures
            r == self.spec_contains(other),
    {
        self.bits & other.bits == other.bits
    }
}

/// The address of the endpoint through which a node's owner is told that its
/// layout data can be released.
#[derive(Clone, Copy, Debug, PartialEq, Eq, Structural)]
pub struct LayoutChan {
    pub id: u64,
}

/// The style that is shared with the document's owner.
#[derive(Clone, Debug, PartialEq, Eq)]
pub struct SharedLayoutData {
    pub style: Option<ComputedStyle>,
}

/// What layout alone keeps for a node.
#[derive(Clone, Debug, PartialEq, Eq)]
pub struct PrivateLayoutData {
    pub before_style: Option<ComputedStyle>,
    pub after_style: Option<ComputedStyle>,
    pub restyle_damage: RestyleDamage,
    pub flags: LayoutDataFlags,
    /// Identifies the flow that was built for the node; 0 while there is none.
    pub flow_debug_id: usize,
}

impl PrivateLayoutData {
    /// The record of a node that no pass has looked at yet.
    pub open spec fn spec_new() -> PrivateLayoutData {
        PrivateLayoutData {
            before_style: None,
            after_style: None,
            restyle_damage: RestyleDamage { bits: 0 },
            flags: LayoutDataFlags { bits: 0 },
            flow_debug_id: 0,
        }
    }

    pub fn new() -> (r: PrivateLayoutData)
        ensures
            r == Self::spec_new(),
    {
        PrivateLayoutData {
            before_style: None,
            after_style: None,
            restyle_damage: RestyleDamage { bits: 0 },
            flags: LayoutDataFlags { bits: 0 },
            flow_debug_id: 0,
        }
    }
}

/// The side table of a node: everything layout has attached to it.
#[derive(Clone, Debug, PartialEq, Eq)]
pub struct LayoutDataWrapper {
    pub chan: Option<LayoutChan>,
    pub shared_data: SharedLayoutData,
    pub data: PrivateLayoutData,
}

impl LayoutDataWrapper {
    /// The side table that is attached to a node on its first visit.
    pub open spec fn fresh(chan: LayoutChan) -> LayoutDataWrapper {
        LayoutDataWrapper {
            chan: Some(chan),
            shared_data: SharedLayoutData { style: None },
            data: PrivateLayoutData::spec_new(),
        }
    }

    /// The side table of a node after it has been initialized: the one it
    /// had, or a fresh one where it had none.
    pub open spec fn attached(data: Option<LayoutDataWrapper>, chan: LayoutChan) -> Option<
        LayoutDataWrapper,
    > {
        match data {
            Some(d) => Some(d),
            None => Some(Self::fresh(chan)),
        }
    }

    /// Initializing twice is initializing once: the second time finds a side
    /// table and leaves all of it as it is.
    pub proof fn lemma_attach_idempotent(
        data: Option<LayoutDataWrapper>,
        first: LayoutChan,
        second: LayoutChan,
    )
        ensures
            Self::attached(data, first).is_some(),
            Self::attached(Self::attached(data, first), second) == Self::attached(data, first),
            data.is_some() ==> Self::attached(data, first) == data,
    {
    }
}

} // verus!
