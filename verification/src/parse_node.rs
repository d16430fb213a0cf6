//! Parse trees. An interior node is tagged with the nonterminal that
//! produced it; a leaf holds the payload derived from one token: a symbol
//! name, a numeric value, or a delimiter marker.
use vstd::prelude::*;

verus! {

use crate::lexer::TokenKind;

/// The tag a leaf node carries in place of a nonterminal index.
pub const LEAF_TAG: usize = usize::MAX;

/// The payload of a leaf, or the marker of an interior node.
#[derive(Debug)]
pub enum SymbolType {
    Interior,
    Symbol(Vec<char>),
    Num(i64),
    Delimiter(TokenKind),
}

/// One parse-tree node.
#[derive(Debug)]
pub struct Node {
    pub ntype: usize,
    pub symbol_type: SymbolType,
    pub children: Vec<Node>,
}

/// The mathematical image of a leaf payload.
pub enum GSym {
    Symbol(Seq<char>),
    Num(int),
    Delimiter(TokenKind),
}

/// The mathematical image of a parse tree.
pub enum GNode {
    Tree { tag: int, children: Seq<GNode> },
    Leaf(GSym),
}

pub open spec fn node_view(n: Node) -> GNode
    decreases n,
{
    match n.symbol_type {
        SymbolType::Interior => GNode::Tree {
            tag: n.ntype as int,
            children: nodes_view(n.children@),
        },
        SymbolType::Symbol(s) => GNode::Leaf(GSym::Symbol(s@)),
        SymbolType::Num(v) => GNode::Leaf(GSym::Num(v as int)),
        SymbolType::Delimiter(k) => GNode::Leaf(GSym::Delimiter(k)),
    }
}

pub open spec fn nodes_view(s: Seq<Node>) -> Seq<GNode>
    decreases s,
{
    if s.len() == 0 {
        Seq::empty()
    } else {
        seq![node_view(s[0])] + nodes_view(s.drop_first())
    }
}

/// The image of a node sequence is the sequence of images.
pub proof fn lemma_nodes_view(s: Seq<Node>)
    ensures
        nodes_view(s).len() == s.len(),
        forall|i: int| 0 <= i < s.len() ==> nodes_view(s)[i] == node_view(s[i]),
    decreases s.len(),
{
    if s.len() > 0 {
        lemma_nodes_view(s.drop_first());
    }
}

/// The image of a leaf built from the given payload.
pub open spec fn leaf_view(symbol_type: SymbolType) -> GNode {
    match symbol_type {
        SymbolType::Interior => GNode::Tree { tag: LEAF_TAG as int, children: Seq::empty() },
        SymbolType::Symbol(s) => GNode::Leaf(GSym::Symbol(s@)),
        SymbolType::Num(v) => GNode::Leaf(GSym::Num(v as int)),
        SymbolType::Delimiter(k) => GNode::Leaf(GSym::Delimiter(k)),
    }
}

impl Node {
    /// An interior node with the given nonterminal tag and children.
    pub fn new_tree(ntype: usize, children: Vec<Node>) -> (n: Node)
        ensures
            node_view(n) == (GNode::Tree { tag: ntype as int, children: nodes_view(children@) }),
    {
        Node { ntype, symbol_type: SymbolType::Interior, children }
    }

    /// A leaf node with the given payload.
    pub fn new_leaf(symbol_type: SymbolType) -> (n: Node)
        requires
            !(symbol_type is Interior),
        ensures
            node_view(n) == leaf_view(symbol_type),
    {
        Node { ntype: LEAF_TAG, symbol_type, children: Vec::new() }
    }
}

} // verus!
