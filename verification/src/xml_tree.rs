//! The element tree a markup document parses into.

use vstd::prelude::*;
use crate::strutil::strs_view;
use crate::xml_lexer::{Literal, LitV};

verus! {

broadcast use vstd::std_specs::vec::axiom_vec_index_decreases;

/// One tree node: a tagged element, or an implicit untagged wrapper.
#[derive(Debug)]
pub enum Node {
    Named(NamedNode),
    Unnamed(UnnamedNode),
}

/// A child of a node: a nested element or a text leaf.
#[derive(Debug)]
pub enum Child {
    Node(Node),
    String(String),
}

/// An element with an explicit tag.
#[derive(Debug)]
pub struct NamedNode {
    pub tag: String,
    pub id: String,
    pub class: Vec<String>,
    pub attributes: Vec<Attribute>,
    pub children: Vec<Child>,
}

/// The implicit wrapper element.
#[derive(Debug)]
pub struct UnnamedNode {
    pub children: Vec<Child>,
}

/// One attribute: a name and its literal value.
#[derive(Debug, Clone)]
pub struct Attribute {
    pub name: String,
    pub value: Literal,
}

/// The mathematical image of a [`Node`].
pub ghost enum NodeV {
    Named(NamedV),
    Unnamed(UnnamedV),
}

/// The mathematical image of a [`Child`].
pub ghost enum ChildV {
    Node(NodeV),
    Text(Seq<char>),
}

/// The mathematical image of a [`NamedNode`].
pub ghost struct NamedV {
    pub tag: Seq<char>,
    pub id: Seq<char>,
    pub class: Seq<Seq<char>>,
    pub attributes: Seq<AttrV>,
    pub children: Seq<ChildV>,
}

/// The mathematical image of an [`UnnamedNode`].
pub ghost struct UnnamedV {
    pub children: Seq<ChildV>,
}

/// The mathematical image of an [`Attribute`].
pub ghost struct AttrV {
    pub name: Seq<char>,
    pub value: LitV,
}

impl View for Attribute {
    type V = AttrV;

    open spec fn view(&self) -> AttrV {
        AttrV { name: self.name@, value: self.value@ }
    }
}

/// The views of an attribute sequence.
pub open spec fn attrs_view(v: Seq<Attribute>) -> Seq<AttrV> {
    v.map_values(|a: Attribute| a@)
}

/// The views of the children held in a vector; a helper through which the
/// recursive views below can be seen to terminate.
pub open spec fn children_of(v: Vec<Child>) -> Seq<ChildV>
    decreases v,
{
    Seq::new(
        v@.len(),
        |i: int|
            if 0 <= i < v@.len() {
                v[i]@
            } else {
                arbitrary()
            },
    )
}

impl View for Node {
    type V = NodeV;

    open spec fn view(&self) -> NodeV
        decreases self,
    {
        match self {
            Node::Named(nn) => NodeV::Named(
                NamedV {
                    tag: nn.tag@,
                    id: nn.id@,
                    class: strs_view(nn.class@),
                    attributes: attrs_view(nn.attributes@),
                    children: children_of(nn.children),
                },
            ),
            Node::Unnamed(u) => NodeV::Unnamed(UnnamedV { children: children_of(u.children) }),
        }
    }
}

impl View for Child {
    type V = ChildV;

    open spec fn view(&self) -> ChildV
        decreases self,
    {
        match self {
            Child::Node(n) => ChildV::Node(n@),
            Child::String(s) => ChildV::Text(s@),
        }
    }
}

/// The views of a child sequence.
pub open spec fn children_view(v: Seq<Child>) -> Seq<ChildV> {
    v.map_values(|c: Child| c@)
}

/// The helper agrees with the pointwise view of the vector's contents.
pub broadcast proof fn lemma_children_of_is_view(v: Vec<Child>)
    ensures
        #[trigger] children_of(v) == children_view(v@),
{
    assert(children_of(v) =~= children_view(v@));
}

/// The views of a node sequence.
pub open spec fn nodes_view(v: Seq<Node>) -> Seq<NodeV> {
    v.map_values(|n: Node| n@)
}

} // verus!
