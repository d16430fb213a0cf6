//! The expression tree, and the purely syntactic lowering of parse trees
//! into it. A call-shaped list whose head is the reserved symbol `define`
//! lowers to a variable or function definition, one headed by `if` lowers to
//! a conditional, and every other list is a call form; recognition goes by
//! head symbol and arity alone.
use vstd::prelude::*;

verus! {

use crate::chars::clone_chars;
use crate::chars::chars_eq_str;
use crate::grammar::PROGRAM;
use crate::grammar::EXPRESSION;
use crate::grammar::LIST;
use crate::grammar::ATOM;
use crate::parse_node::Node;
use crate::parse_node::GNode;
use crate::parse_node::GSym;
use crate::parse_node::SymbolType;
use crate::parse_node::node_view;
use crate::parse_node::nodes_view;
use crate::parse_node::lemma_nodes_view;

/// A literal: a machine integer, or a name to be resolved.
#[derive(Debug)]
pub enum Atom {
    Int(i64),
    Id(Vec<char>),
}

/// One expression of the language.
#[derive(Debug)]
pub enum Expr {
    /// A call form: callee and arguments, in order.
    List(Vec<Expr>),
    /// A literal or a name.
    Atom(Atom),
    /// `(define (name params...) body...)`: name, parameter names, body.
    DefineFunction(Vec<char>, Vec<Vec<char>>, Vec<Expr>),
    /// `(define name value)`.
    DefineVariable(Vec<char>, Box<Expr>),
    /// `(if test then)` or `(if test then else)`.
    If(Box<Expr>, Box<Expr>, Option<Box<Expr>>),
}

/// The mathematical image of a literal.
pub enum GAtom {
    Int(int),
    Id(Seq<char>),
}

/// The mathematical image of an expression.
pub enum GExpr {
    List(Seq<GExpr>),
    Atom(GAtom),
    DefineFunction(Seq<char>, Seq<Seq<char>>, Seq<GExpr>),
    DefineVariable(Seq<char>, Box<GExpr>),
    If(Box<GExpr>, Box<GExpr>, Option<Box<GExpr>>),
}

pub open spec fn atom_view(a: Atom) -> GAtom {
    match a {
        Atom::Int(v) => GAtom::Int(v as int),
        Atom::Id(s) => GAtom::Id(s@),
    }
}

pub open spec fn names_view(s: Seq<Vec<char>>) -> Seq<Seq<char>> {
    s.map_values(|v: Vec<char>| v@)
}

pub open spec fn expr_view(e: Expr) -> GExpr
    decreases e,
{
    match e {
        Expr::List(items) => GExpr::List(exprs_view(items@)),
        Expr::Atom(a) => GExpr::Atom(atom_view(a)),
        Expr::DefineFunction(name, params, body) => GExpr::DefineFunction(
            name@,
            names_view(params@),
            exprs_view(body@),
        ),
        Expr::DefineVariable(name, value) => GExpr::DefineVariable(
            name@,
            Box::new(expr_view(*value)),
        ),
        Expr::If(c, t, e2) => GExpr::If(
            Box::new(expr_view(*c)),
            Box::new(expr_view(*t)),
            match e2 {
                Some(x) => Some(Box::new(expr_view(*x))),
                None => None,
            },
        ),
    }
}

pub open spec fn exprs_view(s: Seq<Expr>) -> Seq<GExpr>
    decreases s,
{
    if s.len() == 0 {
        Seq::empty()
    } else {
        seq![expr_view(s[0])] + exprs_view(s.drop_first())
    }
}

/// The image of an expression sequence is the sequence of images.
pub proof fn lemma_exprs_view(s: Seq<Expr>)
    ensures
        exprs_view(s).len() == s.len(),
        forall|i: int| 0 <= i < s.len() ==> exprs_view(s)[i] == expr_view(s[i]),
    decreases s.len(),
{
    if s.len() > 0 {
        lemma_exprs_view(s.drop_first());
    }
}

/// Copies an expression.
#[verifier::loop_isolation(false)]
pub fn clone_expr(e: &Expr) -> (r: Expr)
    ensures
        expr_view(r) == expr_view(*e),
    decreases *e, 0int,
{
    match e {
        Expr::List(items) => {
            proof {
                assert(decreases_to!(*e => (*e)->List_0));
            }
            Expr::List(clone_exprs(items))
        },
        Expr::Atom(Atom::Int(v)) => Expr::Atom(Atom::Int(*v)),
        Expr::Atom(Atom::Id(s)) => Expr::Atom(Atom::Id(clone_chars(s))),
        Expr::DefineFunction(name, params, body) => {
            proof {
                assert(decreases_to!(*e => (*e)->DefineFunction_2));
            }
            Expr::DefineFunction(clone_chars(name), clone_names(params), clone_exprs(body))
        },
        Expr::DefineVariable(name, value) => {
            proof {
                assert(decreases_to!(*e => (*e)->DefineVariable_1));
            }
            Expr::DefineVariable(clone_chars(name), Box::new(clone_expr(value)))
        },
        Expr::If(c, t, e2) => {
            proof {
                assert(decreases_to!(*e => (*e)->If_0));
                assert(decreases_to!(*e => (*e)->If_1));
            }
            let els = match e2 {
                Some(x) => {
                    proof {
                        assert(decreases_to!(*e => (*e)->If_2));
                        assert(decreases_to!((*e)->If_2 => (*e)->If_2->Some_0));
                    }
                    Some(Box::new(clone_expr(x)))
                },
                None => None,
            };
            Expr::If(Box::new(clone_expr(c)), Box::new(clone_expr(t)), els)
        },
    }
}

/// Copies an expression sequence.
#[verifier::loop_isolation(false)]
pub fn clone_exprs(v: &Vec<Expr>) -> (r: Vec<Expr>)
    ensures
        exprs_view(r@) == exprs_view(v@),
    decreases *v, 1int,
{
    let mut out: Vec<Expr> = Vec::new();
    let mut i: usize = 0;
    while i < v.len()
        invariant
            i <= v@.len(),
            out@.len() == i as int,
            forall|j: int| 0 <= j < i ==> expr_view(out@[j]) == expr_view(v@[j]),
        decreases v@.len() - i,
    {
        proof {
            assert(decreases_to!(*v => v@));
            assert(decreases_to!(v@ => v@[i as int]));
        }
        let c = clone_expr(&v[i]);
        out.push(c);
        i += 1;
    }
    proof {
        lemma_exprs_view(out@);
        lemma_exprs_view(v@);
        assert(exprs_view(out@) =~= exprs_view(v@));
    }
    out
}

/// Copies a sequence of names.
pub fn clone_names(v: &Vec<Vec<char>>) -> (r: Vec<Vec<char>>)
    ensures
        names_view(r@) == names_view(v@),
{
    let mut out: Vec<Vec<char>> = Vec::new();
    let mut i: usize = 0;
    while i < v.len()
        invariant
            i <= v@.len(),
            out@.len() == i as int,
            forall|j: int| 0 <= j < i ==> out@[j]@ == v@[j]@,
        decreases v@.len() - i,
    {
        let c = clone_chars(&v[i]);
        out.push(c);
        i += 1;
    }
    proof {
        assert(names_view(out@) =~= names_view(v@));
    }
    out
}

/// A lowering failure: the parse tree does not have the shape of any
/// expression, or a `define` or `if` form has the wrong arity.
#[derive(Debug, Clone, Copy, PartialEq, Eq, Structural)]
pub enum LowerError {
    Malformed,
}

/// The reserved word that introduces definitions.
pub open spec fn define_word() -> Seq<char> {
    seq!['d', 'e', 'f', 'i', 'n', 'e']
}

/// The reserved word that introduces conditionals.
pub open spec fn if_word() -> Seq<char> {
    seq!['i', 'f']
}

/// The name under an expression node that wraps a single symbol atom, if it
/// has that shape.
pub open spec fn spec_sym_of(n: GNode) -> Option<Seq<char>> {
    match n {
        GNode::Tree { tag, children } => if tag == EXPRESSION && children.len() == 1 {
            match children[0] {
                GNode::Tree { tag: t2, children: ach } => if t2 == ATOM && ach.len() == 1 {
                    match ach[0] {
                        GNode::Leaf(GSym::Symbol(s)) => Some(s),
                        _ => None,
                    }
                } else {
                    None
                },
                _ => None,
            }
        } else {
            None
        },
        _ => None,
    }
}

/// The symbol names of a node sequence, when every node is a wrapped symbol
/// atom.
pub open spec fn spec_syms_of(items: Seq<GNode>) -> Option<Seq<Seq<char>>>
    decreases items,
{
    if items.len() == 0 {
        Some(Seq::empty())
    } else {
        match spec_sym_of(items[0]) {
            Some(s) => match spec_syms_of(items.drop_first()) {
                Some(rest) => Some(seq![s] + rest),
                None => None,
            },
            None => None,
        }
    }
}

/// The head of a function-definition form: an expression node wrapping a
/// parenthesised list of symbols, the first being the function name.
pub open spec fn spec_params_of(n: GNode) -> Option<Seq<Seq<char>>> {
    match n {
        GNode::Tree { tag, children } => if tag == EXPRESSION && children.len() == 1 {
            match children[0] {
                GNode::Tree { tag: t2, children: pnodes } => if t2 == LIST {
                    spec_syms_of(pnodes)
                } else {
                    None
                },
                _ => None,
            }
        } else {
            None
        },
        _ => None,
    }
}

/// Lowers a program node: one expression per child, in order.
pub open spec fn spec_lower_program(n: GNode) -> Result<Seq<GExpr>, LowerError>
    decreases n, 0int,
{
    match n {
        GNode::Tree { tag, children } => if tag == PROGRAM {
            spec_lower_items(children)
        } else {
            Err(LowerError::Malformed)
        },
        _ => Err(LowerError::Malformed),
    }
}

/// Lowers a node sequence, stopping at the first failure.
pub open spec fn spec_lower_items(items: Seq<GNode>) -> Result<Seq<GExpr>, LowerError>
    decreases items, 0int,
{
    if items.len() == 0 {
        Ok(Seq::empty())
    } else {
        match spec_lower_expr(items[0]) {
            Ok(e) => match spec_lower_items(items.drop_first()) {
                Ok(rest) => Ok(seq![e] + rest),
                Err(err) => Err(err),
            },
            Err(err) => Err(err),
        }
    }
}

/// Lowers one expression node.
pub open spec fn spec_lower_expr(n: GNode) -> Result<GExpr, LowerError>
    decreases n, 0int,
{
    match n {
        GNode::Tree { tag, children } => if tag == EXPRESSION {
            if children.len() == 2 {
                // the two delimiter leaves of `()`
                Ok(GExpr::List(Seq::empty()))
            } else if children.len() == 1 {
                spec_lower_inner(children[0])
            } else {
                Err(LowerError::Malformed)
            }
        } else {
            Err(LowerError::Malformed)
        },
        _ => Err(LowerError::Malformed),
    }
}

/// Lowers the single child of an expression node: an atom, or a
/// parenthesised form.
pub open spec fn spec_lower_inner(c: GNode) -> Result<GExpr, LowerError>
    decreases c, 1int,
{
    match c {
        GNode::Tree { tag, children } => if tag == ATOM {
            if children.len() == 1 {
                match children[0] {
                    GNode::Leaf(GSym::Num(v)) => Ok(GExpr::Atom(GAtom::Int(v))),
                    GNode::Leaf(GSym::Symbol(s)) => Ok(GExpr::Atom(GAtom::Id(s))),
                    _ => Err(LowerError::Malformed),
                }
            } else {
                Err(LowerError::Malformed)
            }
        } else if tag == LIST {
            spec_lower_form(children)
        } else {
            Err(LowerError::Malformed)
        },
        _ => Err(LowerError::Malformed),
    }
}

/// Lowers a parenthesised form: a definition, a conditional, or a call.
pub open spec fn spec_lower_form(items: Seq<GNode>) -> Result<GExpr, LowerError>
    decreases items, 1int,
{
    if items.len() == 0 {
        Ok(GExpr::List(Seq::empty()))
    } else if spec_sym_of(items[0]) == Some(define_word()) {
        if items.len() < 2 {
            Err(LowerError::Malformed)
        } else {
            match spec_sym_of(items[1]) {
            Some(name) => if items.len() == 3 {
                match spec_lower_expr(items[2]) {
                    Ok(value) => Ok(GExpr::DefineVariable(name, Box::new(value))),
                    Err(err) => Err(err),
                }
            } else {
                Err(LowerError::Malformed)
            },
            None => match spec_params_of(items[1]) {
                Some(names) => if items.len() >= 3 && names.len() >= 1 {
                    match spec_lower_items(items.skip(2)) {
                        Ok(body) => Ok(
                            GExpr::DefineFunction(names[0], names.drop_first(), body),
                        ),
                        Err(err) => Err(err),
                    }
                } else {
                    Err(LowerError::Malformed)
                },
                None => Err(LowerError::Malformed),
            },
            }
        }
    } else if spec_sym_of(items[0]) == Some(if_word()) {
        if items.len() == 3 || items.len() == 4 {
            match spec_lower_expr(items[1]) {
                Ok(cond) => match spec_lower_expr(items[2]) {
                    Ok(then) => if items.len() == 3 {
                        Ok(GExpr::If(Box::new(cond), Box::new(then), None))
                    } else {
                        match spec_lower_expr(items[3]) {
                            Ok(els) => Ok(
                                GExpr::If(Box::new(cond), Box::new(then), Some(Box::new(els))),
                            ),
                            Err(err) => Err(err),
                        }
                    },
                    Err(err) => Err(err),
                },
                Err(err) => Err(err),
            }
        } else {
            Err(LowerError::Malformed)
        }
    } else {
        match spec_lower_items(items) {
            Ok(es) => Ok(GExpr::List(es)),
            Err(err) => Err(err),
        }
    }
}

/// Prefixing already-lowered expressions onto the outcome of lowering the
/// rest of a sequence.
pub open spec fn lower_prepend(es: Seq<GExpr>, r: Result<Seq<GExpr>, LowerError>) -> Result<
    Seq<GExpr>,
    LowerError,
> {
    match r {
        Ok(rest) => Ok(es + rest),
        Err(err) => Err(err),
    }
}

/// The name under an expression node that wraps a single symbol atom.
fn sym_of(n: &Node) -> (r: Option<Vec<char>>)
    ensures
        match r {
            Some(s) => spec_sym_of(node_view(*n)) == Some(s@),
            None => spec_sym_of(node_view(*n)) is None,
        },
{
    proof {
        lemma_nodes_view(n.children@);
    }
    match &n.symbol_type {
        SymbolType::Interior => {
            if n.ntype == EXPRESSION && n.children.len() == 1 {
                let c = &n.children[0];
                proof {
                    lemma_nodes_view(c.children@);
                }
                match &c.symbol_type {
                    SymbolType::Interior => {
                        if c.ntype == ATOM && c.children.len() == 1 {
                            match &c.children[0].symbol_type {
                                SymbolType::Symbol(s) => Some(clone_chars(s)),
                                _ => None,
                            }
                        } else {
                            None
                        }
                    },
                    _ => None,
                }
            } else {
                None
            }
        },
        _ => None,
    }
}

/// The symbol names of a node sequence, when every node is a wrapped symbol
/// atom.
#[verifier::loop_isolation(false)]
fn syms_of(items: &Vec<Node>) -> (r: Option<Vec<Vec<char>>>)
    ensures
        match r {
            Some(names) => spec_syms_of(nodes_view(items@)) == Some(names_view(names@)),
            None => spec_syms_of(nodes_view(items@)) is None,
        },
{
    let ghost nv = nodes_view(items@);
    proof {
        lemma_nodes_view(items@);
    }
    let mut out: Vec<Vec<char>> = Vec::new();
    proof {
        assert(nv.skip(0) =~= nv);
        match spec_syms_of(nv) {
            Some(rest) => {
                assert(names_view(out@) + rest =~= rest);
            },
            None => {},
        }
    }
    let mut i: usize = 0;
    while i < items.len()
        invariant
            i <= items@.len(),
            out@.len() == i as int,
            match spec_syms_of(nv.skip(i as int)) {
                Some(rest) => spec_syms_of(nv) == Some(names_view(out@) + rest),
                None => spec_syms_of(nv) is None,
            },
        decreases items@.len() - i,
    {
        let ghost tail = nv.skip(i as int);
        proof {
            assert(tail[0] == nv[i as int]);
            assert(tail.drop_first() =~= nv.skip(i as int + 1));
        }
        match sym_of(&items[i]) {
            Some(s) => {
                let ghost old_out = out@;
                out.push(s);
                proof {
                    assert(names_view(out@) =~= names_view(old_out).push(out@.last()@));
                    match spec_syms_of(nv.skip(i as int + 1)) {
                        Some(rest) => {
                            assert(names_view(old_out) + (seq![out@.last()@] + rest) =~= names_view(
                                out@,
                            ) + rest);
                        },
                        None => {},
                    }
                }
            },
            None => {
                return None;
            },
        }
        i += 1;
    }
    proof {
        assert(nv.skip(items@.len() as int) =~= Seq::<GNode>::empty());
        assert(names_view(out@) + Seq::<Seq<char>>::empty() =~= names_view(out@));
    }
    Some(out)
}

/// The function name and parameter names of a definition head.
fn params_of(n: &Node) -> (r: Option<Vec<Vec<char>>>)
    ensures
        match r {
            Some(names) => spec_params_of(node_view(*n)) == Some(names_view(names@)),
            None => spec_params_of(node_view(*n)) is None,
        },
{
    proof {
        lemma_nodes_view(n.children@);
    }
    match &n.symbol_type {
        SymbolType::Interior => {
            if n.ntype == EXPRESSION && n.children.len() == 1 {
                let c = &n.children[0];
                match &c.symbol_type {
                    SymbolType::Interior => {
                        if c.ntype == LIST {
                            syms_of(&c.children)
                        } else {
                            None
                        }
                    },
                    _ => None,
                }
            } else {
                None
            }
        },
        _ => None,
    }
}

/// Lowers a program node into its ordered top-level expressions.
#[verifier::loop_isolation(false)]
pub fn lower_program(n: &Node) -> (r: Result<Vec<Expr>, LowerError>)
    ensures
        match r {
            Ok(es) => spec_lower_program(node_view(*n)) == Ok::<Seq<GExpr>, LowerError>(
                exprs_view(es@),
            ),
            Err(err) => spec_lower_program(node_view(*n)) == Err::<Seq<GExpr>, LowerError>(err),
        },
    decreases *n, 0int,
{
    match &n.symbol_type {
        SymbolType::Interior => {
            if n.ntype == PROGRAM {
                proof {
                    assert(decreases_to!(*n => (*n).children));
                    assert(decreases_to!((*n).children => n.children@));
                }
                let r = lower_items(&n.children, 0);
                proof {
                    assert(nodes_view(n.children@).skip(0) =~= nodes_view(n.children@));
                }
                r
            } else {
                Err(LowerError::Malformed)
            }
        },
        _ => Err(LowerError::Malformed),
    }
}

/// Lowers the nodes of `items` from index `from` on, stopping at the first
/// failure.
#[verifier::loop_isolation(false)]
fn lower_items(items: &Vec<Node>, from: usize) -> (r: Result<Vec<Expr>, LowerError>)
    requires
        from <= items@.len(),
    ensures
        match r {
            Ok(es) => spec_lower_items(nodes_view(items@).skip(from as int)) == Ok::<
                Seq<GExpr>,
                LowerError,
            >(exprs_view(es@)),
            Err(err) => spec_lower_items(nodes_view(items@).skip(from as int)) == Err::<
                Seq<GExpr>,
                LowerError,
            >(err),
        },
    decreases *items, 0int,
{
    let ghost nv = nodes_view(items@);
    proof {
        lemma_nodes_view(items@);
    }
    let mut out: Vec<Expr> = Vec::new();
    let mut i: usize = from;
    while i < items.len()
        invariant
            from <= i <= items@.len(),
            spec_lower_items(nv.skip(from as int)) == lower_prepend(
                exprs_view(out@),
                spec_lower_items(nv.skip(i as int)),
            ),
        decreases items@.len() - i,
    {
        let ghost tail = nv.skip(i as int);
        proof {
            assert(tail[0] == nv[i as int]);
            assert(tail.drop_first() =~= nv.skip(i as int + 1));
            lemma_exprs_view(out@);
            assert(decreases_to!(*items => items@));
            assert(decreases_to!(items@ => items@[i as int]));
        }
        match lower_expr(&items[i]) {
            Ok(e) => {
                let ghost old_out = out@;
                out.push(e);
                proof {
                    lemma_exprs_view(out@);
                    assert(exprs_view(out@) =~= exprs_view(old_out).push(expr_view(out@.last())));
                    match spec_lower_items(nv.skip(i as int + 1)) {
                        Ok(rest) => {
                            assert(exprs_view(old_out) + (seq![expr_view(out@.last())] + rest)
                                =~= exprs_view(out@) + rest);
                        },
                        Err(_) => {},
                    }
                }
            },
            Err(err) => {
                return Err(err);
            },
        }
        i += 1;
    }
    proof {
        assert(nv.skip(items@.len() as int) =~= Seq::<GNode>::empty());
        assert(exprs_view(out@) + Seq::<GExpr>::empty() =~= exprs_view(out@));
    }
    Ok(out)
}

/// Lowers one expression node.
#[verifier::loop_isolation(false)]
pub fn lower_expr(n: &Node) -> (r: Result<Expr, LowerError>)
    ensures
        match r {
            Ok(e) => spec_lower_expr(node_view(*n)) == Ok::<GExpr, LowerError>(expr_view(e)),
            Err(err) => spec_lower_expr(node_view(*n)) == Err::<GExpr, LowerError>(err),
        },
    decreases *n, 0int,
{
    proof {
        lemma_nodes_view(n.children@);
    }
    match &n.symbol_type {
        SymbolType::Interior => {
            if n.ntype == EXPRESSION {
                if n.children.len() == 2 {
                    let empty: Vec<Expr> = Vec::new();
                    proof {
                        assert(exprs_view(empty@) =~= Seq::<GExpr>::empty());
                    }
                    Ok(Expr::List(empty))
                } else if n.children.len() == 1 {
                    proof {
                        assert(decreases_to!(*n => (*n).children));
                        assert(decreases_to!((*n).children => n.children@));
                        assert(decreases_to!(n.children@ => n.children@[0]));
                    }
                    lower_inner(&n.children[0])
                } else {
                    Err(LowerError::Malformed)
                }
            } else {
                Err(LowerError::Malformed)
            }
        },
        _ => Err(LowerError::Malformed),
    }
}

/// Lowers the single child of an expression node.
#[verifier::loop_isolation(false)]
fn lower_inner(c: &Node) -> (r: Result<Expr, LowerError>)
    ensures
        match r {
            Ok(e) => spec_lower_inner(node_view(*c)) == Ok::<GExpr, LowerError>(expr_view(e)),
            Err(err) => spec_lower_inner(node_view(*c)) == Err::<GExpr, LowerError>(err),
        },
    decreases *c, 1int,
{
    proof {
        lemma_nodes_view(c.children@);
    }
    match &c.symbol_type {
        SymbolType::Interior => {
            if c.ntype == ATOM {
                if c.children.len() == 1 {
                    match &c.children[0].symbol_type {
                        SymbolType::Num(v) => Ok(Expr::Atom(Atom::Int(*v))),
                        SymbolType::Symbol(s) => Ok(Expr::Atom(Atom::Id(clone_chars(s)))),
                        _ => Err(LowerError::Malformed),
                    }
                } else {
                    Err(LowerError::Malformed)
                }
            } else if c.ntype == LIST {
                proof {
                    assert(decreases_to!(*c => (*c).children));
                }
                lower_form(&c.children)
            } else {
                Err(LowerError::Malformed)
            }
        },
        _ => Err(LowerError::Malformed),
    }
}

/// Lowers a parenthesised form: a definition, a conditional, or a call.
#[verifier::loop_isolation(false)]
fn lower_form(items: &Vec<Node>) -> (r: Result<Expr, LowerError>)
    ensures
        match r {
            Ok(e) => spec_lower_form(nodes_view(items@)) == Ok::<GExpr, LowerError>(expr_view(e)),
            Err(err) => spec_lower_form(nodes_view(items@)) == Err::<GExpr, LowerError>(err),
        },
    decreases *items, 1int,
{
    let ghost nv = nodes_view(items@);
    proof {
        lemma_nodes_view(items@);
    }
    if items.len() == 0 {
        let empty: Vec<Expr> = Vec::new();
        proof {
            assert(exprs_view(empty@) =~= Seq::<GExpr>::empty());
        }
        return Ok(Expr::List(empty));
    }
    proof {
        assert(decreases_to!(*items => items@));
    }
    let head_is_define = match sym_of(&items[0]) {
        Some(s) => chars_eq_str(&s, "define"),
        None => false,
    };
    let head_is_if = match sym_of(&items[0]) {
        Some(s) => chars_eq_str(&s, "if"),
        None => false,
    };
    proof {
        reveal_strlit("define");
        reveal_strlit("if");
        assert("define"@ =~= define_word());
        assert("if"@ =~= if_word());
        assert(head_is_define == (spec_sym_of(nv[0]) == Some(define_word())));
        assert(head_is_if == (spec_sym_of(nv[0]) == Some(if_word())));
    }
    if head_is_define {
        if items.len() < 2 {
            return Err(LowerError::Malformed);
        }
        match sym_of(&items[1]) {
            Some(name) => {
                if items.len() == 3 {
                    proof {
                        assert(decreases_to!(items@ => items@[2]));
                    }
                    match lower_expr(&items[2]) {
                        Ok(value) => Ok(Expr::DefineVariable(name, Box::new(value))),
                        Err(err) => Err(err),
                    }
                } else {
                    Err(LowerError::Malformed)
                }
            },
            None => {
                match params_of(&items[1]) {
                    Some(mut names) => {
                        if items.len() >= 3 && names.len() >= 1 {
                            match lower_items(items, 2) {
                                Ok(body) => {
                                    let fname = names.remove(0);
                                    proof {
                                        let ghost all = spec_params_of(nv[1])->Some_0;
                                        assert(names_view(names@) =~= all.drop_first());
                                    }
                                    Ok(Expr::DefineFunction(fname, names, body))
                                },
                                Err(err) => Err(err),
                            }
                        } else {
                            Err(LowerError::Malformed)
                        }
                    },
                    None => Err(LowerError::Malformed),
                }
            },
        }
    } else if head_is_if {
        if items.len() == 3 || items.len() == 4 {
            proof {
                assert(decreases_to!(items@ => items@[1]));
                assert(decreases_to!(items@ => items@[2]));
            }
            match lower_expr(&items[1]) {
                Ok(cond) => {
                    match lower_expr(&items[2]) {
                        Ok(then) => {
                            if items.len() == 3 {
                                Ok(Expr::If(Box::new(cond), Box::new(then), None))
                            } else {
                                proof {
                                    assert(decreases_to!(items@ => items@[3]));
                                }
                                match lower_expr(&items[3]) {
                                    Ok(els) => Ok(
                                        Expr::If(
                                            Box::new(cond),
                                            Box::new(then),
                                            Some(Box::new(els)),
                                        ),
                                    ),
                                    Err(err) => Err(err),
                                }
                            }
                        },
                        Err(err) => Err(err),
                    }
                },
                Err(err) => Err(err),
            }
        } else {
            Err(LowerError::Malformed)
        }
    } else {
        proof {
            assert(nv.skip(0) =~= nv);
        }
        match lower_items(items, 0) {
            Ok(es) => Ok(Expr::List(es)),
            Err(err) => Err(err),
        }
    }
}

} // verus!
