//! The accessibility tree of an app, as the queries read it.
use vstd::prelude::*;

use crate::id::Id;
use crate::text;

verus! {

/// `accesskit::Rect`, carried through unread: a rectangle in physical pixels.
#[verifier::external_type_specification]
#[verifier::external_body]
pub struct ExRect(accesskit::Rect);

/// An accessibility node with everything below it.
#[derive(Debug)]
pub struct Node {
    pub id: Id,
    /// The name of the role, as AccessKit spells it.
    pub role: String,
    pub label: Option<String>,
    pub value: Option<String>,
    /// Where the node is on screen, in physical pixels.
    pub bounds: Option<accesskit::Rect>,
    pub focused: bool,
    pub disabled: bool,
    /// Hidden itself, or below a node that is.
    pub hidden: bool,
    pub parent_id: Option<Id>,
    pub children: Vec<Node>,
}

/// The accessibility tree of an app.
#[derive(Debug)]
pub struct Tree {
    pub root: Node,
}

/// What a [`Node`] holds.
pub struct NodeV {
    pub id: Id,
    pub role: Seq<char>,
    pub label: Option<Seq<char>>,
    pub value: Option<Seq<char>>,
    pub bounds: Option<accesskit::Rect>,
    pub focused: bool,
    pub disabled: bool,
    pub hidden: bool,
    pub parent_id: Option<Id>,
    pub children: Seq<NodeV>,
}

pub open spec fn node_view(n: Node) -> NodeV
    decreases n,
{
    NodeV {
        id: n.id,
        role: n.role@,
        label: text::opt_view(n.label),
        value: text::opt_view(n.value),
        bounds: n.bounds,
        focused: n.focused,
        disabled: n.disabled,
        hidden: n.hidden,
        parent_id: n.parent_id,
        children: nodes_view(n.children@),
    }
}

pub open spec fn nodes_view(ns: Seq<Node>) -> Seq<NodeV>
    decreases ns,
{
    Seq::new(
        ns.len(),
        |i: int|
            if 0 <= i < ns.len() {
                node_view(ns[i])
            } else {
                arbitrary()
            },
    )
}

impl View for Node {
    type V = NodeV;

    open spec fn view(&self) -> NodeV {
        node_view(*self)
    }
}

impl View for Tree {
    type V = NodeV;

    open spec fn view(&self) -> NodeV {
        node_view(self.root)
    }
}

/// Every node of the subtree, each before the nodes below it.
pub open spec fn preorder(n: NodeV) -> Seq<NodeV>
    decreases n,
{
    seq![n] + preorder_all(n.children)
}

pub open spec fn preorder_all(ns: Seq<NodeV>) -> Seq<NodeV>
    decreases ns,
{
    if ns.len() == 0 {
        Seq::empty()
    } else {
        preorder_all(ns.drop_last()) + preorder(ns.last())
    }
}

/// How many nodes the subtree has.
pub open spec fn size(n: NodeV) -> nat {
    preorder(n).len()
}

}
