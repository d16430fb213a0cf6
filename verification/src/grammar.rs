//! The grammar table: for each nonterminal an ordered list of production
//! alternatives, each an ordered list of symbols together with a tree-shaping
//! hook applied after a successful reduction. The table is plain data; the
//! parsing engine interprets it and works for any well-formed table.
use vstd::prelude::*;

verus! {

use crate::chars::check_digit;
use crate::chars::is_digit;
use crate::chars::digit_val;
use crate::lexer::TokenKind;
use crate::lexer::Token;
use crate::lexer::GToken;
use crate::lexer::token_view;
use crate::lexer::all_digits;
use crate::parse_node::Node;
use crate::parse_node::SymbolType;
use crate::parse_node::GNode;
use crate::parse_node::GSym;
use crate::parse_node::node_view;
use crate::parse_node::nodes_view;
use crate::parse_node::lemma_nodes_view;
use crate::parse_node::leaf_view;

/// A grammar symbol: a terminal token class, or a nonterminal index.
#[derive(Debug, Clone, Copy, PartialEq, Eq, Structural)]
pub enum Symbol {
    Terminal(TokenKind),
    NonTerminal(usize),
}

/// The tree-shaping hook of one production alternative.
#[derive(Debug, Clone, Copy, PartialEq, Eq, Structural)]
pub enum Hook {
    Keep,
    FlattenList,
    DropDelimiters,
}

/// One production alternative.
#[derive(Debug)]
pub struct Alt {
    pub symbols: Vec<Symbol>,
    pub hook: Hook,
}

/// The mathematical image of an alternative.
#[verifier::ext_equal]
pub struct GAlt {
    pub symbols: Seq<Symbol>,
    pub hook: Hook,
}

/// A grammar: for each nonterminal index, its ordered alternatives.
#[derive(Debug)]
pub struct Grammar {
    pub rules: Vec<Vec<Alt>>,
}

pub open spec fn alt_view(a: Alt) -> GAlt {
    GAlt { symbols: a.symbols@, hook: a.hook }
}

pub open spec fn alts_view(s: Seq<Alt>) -> Seq<GAlt> {
    s.map_values(|a: Alt| alt_view(a))
}

pub open spec fn grammar_view(g: Grammar) -> Seq<Seq<GAlt>> {
    g.rules@.map_values(|v: Vec<Alt>| alts_view(v@))
}

/// Every nonterminal mentioned on a right-hand side has a rule.
pub open spec fn grammar_wf(g: Seq<Seq<GAlt>>) -> bool {
    forall|i: int, j: int, k: int|
        0 <= i < g.len() && 0 <= j < g[i].len() && 0 <= k < g[i][j].symbols.len() ==> ((
        #[trigger] g[i][j].symbols[k]) is NonTerminal ==> g[i][j].symbols[k]->NonTerminal_0
            < g.len())
}

/// Nonterminal indices of the reference dialect.
pub const PROGRAM: usize = 0;

pub const EXPRESSION: usize = 1;

pub const LIST: usize = 2;

pub const ATOM: usize = 3;

/// The table of the reference dialect.
///
/// A program is a sequence of expressions; an expression is an empty pair of
/// parentheses, a parenthesised list, or an atom; a list is a sequence of
/// expressions; an atom is an identifier, a number or a primitive operator.
/// The sequence-shaped rules put the longer alternative first, so that the
/// ordered-choice engine consumes as many items as the input offers.
pub open spec fn lisp_grammar_spec() -> Seq<Seq<GAlt>> {
    seq![
        // Program
        seq![
            GAlt {
                symbols: seq![
                    Symbol::NonTerminal(EXPRESSION as usize),
                    Symbol::NonTerminal(PROGRAM as usize),
                ],
                hook: Hook::FlattenList,
            },
            GAlt { symbols: seq![Symbol::NonTerminal(EXPRESSION as usize)], hook: Hook::Keep },
        ],
        // Expression
        seq![
            GAlt {
                symbols: seq![
                    Symbol::Terminal(TokenKind::ParOpen),
                    Symbol::Terminal(TokenKind::ParClose),
                ],
                hook: Hook::Keep,
            },
            GAlt {
                symbols: seq![
                    Symbol::Terminal(TokenKind::ParOpen),
                    Symbol::NonTerminal(LIST as usize),
                    Symbol::Terminal(TokenKind::ParClose),
                ],
                hook: Hook::DropDelimiters,
            },
            GAlt { symbols: seq![Symbol::NonTerminal(ATOM as usize)], hook: Hook::Keep },
        ],
        // List
        seq![
            GAlt {
                symbols: seq![
                    Symbol::NonTerminal(EXPRESSION as usize),
                    Symbol::NonTerminal(LIST as usize),
                ],
                hook: Hook::FlattenList,
            },
            GAlt { symbols: seq![Symbol::NonTerminal(EXPRESSION as usize)], hook: Hook::Keep },
        ],
        // Atom
        seq![
            GAlt { symbols: seq![Symbol::Terminal(TokenKind::Id)], hook: Hook::Keep },
            GAlt { symbols: seq![Symbol::Terminal(TokenKind::Num)], hook: Hook::Keep },
            GAlt { symbols: seq![Symbol::Terminal(TokenKind::PrimitiveOp)], hook: Hook::Keep },
        ],
    ]
}

/// Builds the table of the reference dialect.
pub fn lisp_grammar() -> (g: Grammar)
    ensures
        grammar_view(g) == lisp_grammar_spec(),
        grammar_wf(grammar_view(g)),
{
    let program: Vec<Alt> = vec![
        Alt {
            symbols: vec![Symbol::NonTerminal(EXPRESSION), Symbol::NonTerminal(PROGRAM)],
            hook: Hook::FlattenList,
        },
        Alt { symbols: vec![Symbol::NonTerminal(EXPRESSION)], hook: Hook::Keep },
    ];
    let expression: Vec<Alt> = vec![
        Alt {
            symbols: vec![Symbol::Terminal(TokenKind::ParOpen), Symbol::Terminal(TokenKind::ParClose)],
            hook: Hook::Keep,
        },
        Alt {
            symbols: vec![
                Symbol::Terminal(TokenKind::ParOpen),
                Symbol::NonTerminal(LIST),
                Symbol::Terminal(TokenKind::ParClose),
            ],
            hook: Hook::DropDelimiters,
        },
        Alt { symbols: vec![Symbol::NonTerminal(ATOM)], hook: Hook::Keep },
    ];
    let list: Vec<Alt> = vec![
        Alt {
            symbols: vec![Symbol::NonTerminal(EXPRESSION), Symbol::NonTerminal(LIST)],
            hook: Hook::FlattenList,
        },
        Alt { symbols: vec![Symbol::NonTerminal(EXPRESSION)], hook: Hook::Keep },
    ];
    let atom: Vec<Alt> = vec![
        Alt { symbols: vec![Symbol::Terminal(TokenKind::Id)], hook: Hook::Keep },
        Alt { symbols: vec![Symbol::Terminal(TokenKind::Num)], hook: Hook::Keep },
        Alt { symbols: vec![Symbol::Terminal(TokenKind::PrimitiveOp)], hook: Hook::Keep },
    ];
    let g = Grammar { rules: vec![program, expression, list, atom] };
    proof {
        assert(grammar_view(g) =~~= lisp_grammar_spec());
    }
    g
}

/// The numeric value of a digit string, most significant digit first.
pub open spec fn digits_val(s: Seq<char>) -> int
    decreases s,
{
    if s.len() == 0 {
        0
    } else {
        digits_val(s.drop_last()) * 10 + digit_val(s.last())
    }
}

/// The image of one token as a parse-tree leaf: delimiters keep their kind,
/// identifiers and operators keep their text, and a number must be a plain
/// digit string whose value fits the machine integer.
pub open spec fn spec_leaf_symbol(t: GToken) -> Option<GNode> {
    match t.kind {
        TokenKind::ParOpen => Some(GNode::Leaf(GSym::Delimiter(TokenKind::ParOpen))),
        TokenKind::ParClose => Some(GNode::Leaf(GSym::Delimiter(TokenKind::ParClose))),
        TokenKind::Id => Some(GNode::Leaf(GSym::Symbol(t.text))),
        TokenKind::PrimitiveOp => Some(GNode::Leaf(GSym::Symbol(t.text))),
        TokenKind::Num => if t.text.len() >= 1 && all_digits(t.text) && digits_val(t.text)
            <= i64::MAX {
            Some(GNode::Leaf(GSym::Num(digits_val(t.text))))
        } else {
            None
        },
    }
}

/// Builds the parse-tree leaf for one token; `None` when a number lexeme
/// holds the separator or overflows the machine integer.
#[verifier::loop_isolation(false)]
pub fn new_leaf_symbol(token: &Token) -> (r: Option<Node>)
    ensures
        match r {
            Some(n) => spec_leaf_symbol(token_view(*token)) == Some(node_view(n)),
            None => spec_leaf_symbol(token_view(*token)) is None,
        },
{
    match token.kind {
        TokenKind::ParOpen => Some(Node::new_leaf(SymbolType::Delimiter(TokenKind::ParOpen))),
        TokenKind::ParClose => Some(Node::new_leaf(SymbolType::Delimiter(TokenKind::ParClose))),
        TokenKind::Id => Some(
            Node::new_leaf(SymbolType::Symbol(crate::chars::clone_chars(&token.lexeme))),
        ),
        TokenKind::PrimitiveOp => Some(
            Node::new_leaf(SymbolType::Symbol(crate::chars::clone_chars(&token.lexeme))),
        ),
        TokenKind::Num => {
            let s = &token.lexeme;
            if s.len() == 0 {
                return None;
            }
            let mut val: i64 = 0;
            let mut i: usize = 0;
            while i < s.len()
                invariant
                    i <= s@.len(),
                    all_digits(s@.subrange(0, i as int)),
                    val as int == digits_val(s@.subrange(0, i as int)),
                    0 <= val,
                decreases s@.len() - i,
            {
                let c = s[i];
                if !check_digit(c) {
                    proof {
                        assert(!all_digits(s@)) by {
                            assert(!is_digit(s@[i as int]));
                        }
                    }
                    return None;
                }
                let d: i64 = (c as u32 as i64) - 48;
                proof {
                    assert(d == digit_val(s@[i as int]));
                    assert(0 <= d <= 9);
                }
                if val > (i64::MAX - d) / 10 {
                    proof {
                        let pre = s@.subrange(0, i as int + 1);
                        assert(pre.drop_last() =~= s@.subrange(0, i as int));
                        assert(digits_val(pre) > i64::MAX);
                        lemma_digits_prefix_exceeds(s@, i as int + 1);
                    }
                    return None;
                }
                val = val * 10 + d;
                i += 1;
                proof {
                    let pre = s@.subrange(0, i as int);
                    assert(pre.drop_last() =~= s@.subrange(0, i as int - 1));
                    assert(pre.last() == s@[i - 1]);
                }
            }
            proof {
                assert(s@.subrange(0, s@.len() as int) =~= s@);
            }
            Some(Node::new_leaf(SymbolType::Num(val)))
        },
    }
}

/// If some digit prefix of `s` already exceeds the machine bound, the whole
/// digit string does.
proof fn lemma_digits_prefix_exceeds(s: Seq<char>, p: int)
    requires
        0 <= p <= s.len(),
        digits_val(s.subrange(0, p)) > i64::MAX,
    ensures
        all_digits(s) ==> digits_val(s) > i64::MAX,
    decreases s.len() - p,
{
    if all_digits(s) {
        if p == s.len() {
            assert(s.subrange(0, p) =~= s);
        } else {
            let pre = s.subrange(0, p);
            let nxt = s.subrange(0, p + 1);
            assert(nxt.drop_last() =~= pre);
            assert(is_digit(nxt.last()));
            assert(digit_val(nxt.last()) >= 0);
            assert(digits_val(nxt) == digits_val(pre) * 10 + digit_val(nxt.last()));
            assert(digits_val(nxt) > i64::MAX);
            lemma_digits_prefix_exceeds(s, p + 1);
        }
    }
}

/// The image of the right-recursion flattening hook: when the second child
/// repeats the parent's nonterminal, splice its children into the parent.
pub open spec fn spec_flatten(n: GNode) -> GNode {
    match n {
        GNode::Tree { tag, children } => if children.len() >= 2 && (children[1] matches
            GNode::Tree { tag: t2, children: sub } && t2 == tag) {
            GNode::Tree {
                tag,
                children: seq![children[0]] + children[1]->Tree_children + children.skip(2),
            }
        } else {
            n
        },
        GNode::Leaf(_) => n,
    }
}

/// The image of the delimiter-dropping hook: keep only the second child.
pub open spec fn spec_remove_parens(n: GNode) -> GNode {
    match n {
        GNode::Tree { tag, children } => if children.len() >= 2 {
            GNode::Tree { tag, children: seq![children[1]] }
        } else {
            n
        },
        GNode::Leaf(_) => n,
    }
}

/// The image of applying one hook.
pub open spec fn spec_postprocess(n: GNode, hook: Hook) -> GNode {
    match hook {
        Hook::Keep => n,
        Hook::FlattenList => spec_flatten(n),
        Hook::DropDelimiters => spec_remove_parens(n),
    }
}

/// Splices a right-recursive child into its parent, so that a chain of
/// nested sequence nodes becomes one flat ordered sequence.
pub fn flatten_list(node: Node) -> (r: Node)
    ensures
        node_view(r) == spec_flatten(node_view(node)),
{
    let ghost gn = node_view(node);
    match node.symbol_type {
        SymbolType::Interior => {
            proof {
                lemma_nodes_view(node.children@);
            }
            if node.children.len() >= 2 {
                let is_same = match &node.children[1] {
                    Node { ntype, symbol_type: SymbolType::Interior, .. } => *ntype == node.ntype,
                    _ => false,
                };
                if is_same {
                    let ntype = node.ntype;
                    let mut rest = node.children;
                    let first = rest.remove(0);
                    let second = rest.remove(0);
                    let mut out: Vec<Node> = Vec::new();
                    out.push(first);
                    let mut sub = second.children;
                    out.append(&mut sub);
                    out.append(&mut rest);
                    proof {
                        lemma_nodes_view(out@);
                        lemma_nodes_view(second.children@);
                        lemma_nodes_view(rest@);
                        assert(nodes_view(out@) =~= seq![gn->Tree_children[0]]
                            + gn->Tree_children[1]->Tree_children + gn->Tree_children.skip(2));
                    }
                    Node::new_tree(ntype, out)
                } else {
                    proof {
                        assert(node_view(node) == gn);
                    }
                    node
                }
            } else {
                node
            }
        },
        _ => node,
    }
}

/// Drops the delimiter children of a parenthesised form, keeping only the
/// inner node.
pub fn remove_parenthesis(node: Node) -> (r: Node)
    ensures
        node_view(r) == spec_remove_parens(node_view(node)),
{
    let ghost gn = node_view(node);
    match node.symbol_type {
        SymbolType::Interior => {
            proof {
                lemma_nodes_view(node.children@);
            }
            if node.children.len() >= 2 {
                let ntype = node.ntype;
                let mut rest = node.children;
                let _first = rest.remove(0);
                let inner = rest.remove(0);
                let out: Vec<Node> = vec![inner];
                proof {
                    lemma_nodes_view(out@);
                    assert(nodes_view(out@) =~= seq![gn->Tree_children[1]]);
                }
                Node::new_tree(ntype, out)
            } else {
                node
            }
        },
        _ => node,
    }
}

/// Applies one production alternative's hook after a successful reduction.
pub fn postprocess_tree(tree: Node, hook: Hook) -> (r: Node)
    ensures
        node_view(r) == spec_postprocess(node_view(tree), hook),
{
    match hook {
        Hook::Keep => tree,
        Hook::FlattenList => flatten_list(tree),
        Hook::DropDelimiters => remove_parenthesis(tree),
    }
}

} // verus!
