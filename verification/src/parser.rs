//! The parsing engine: ordered-alternative backtracking descent over a
//! grammar table, with unlimited lookahead and no memoisation. Reducing a
//! nonterminal saves the current token index as a pivot and tries each
//! alternative in declared order from that pivot; the first alternative that
//! matches wins, and a failing alternative costs nothing but the attempt.
//! A fuel bound makes every descent finite; a left-recursive table exhausts
//! the fuel instead of descending forever.
use vstd::prelude::*;

verus! {

use crate::lexer::Token;
use crate::lexer::GToken;
use crate::lexer::LexError;
use crate::lexer::token_view;
use crate::lexer::tokens_view;
use crate::lexer::spec_lex;
use crate::lexer::lex;
use crate::grammar::Grammar;
use crate::grammar::GAlt;
use crate::grammar::Alt;
use crate::grammar::Symbol;
use crate::grammar::grammar_view;
use crate::grammar::grammar_wf;
use crate::grammar::alts_view;
use crate::grammar::alt_view;
use crate::grammar::spec_postprocess;
use crate::grammar::spec_leaf_symbol;
use crate::grammar::postprocess_tree;
use crate::grammar::new_leaf_symbol;
use crate::parse_node::Node;
use crate::parse_node::GNode;
use crate::parse_node::node_view;
use crate::parse_node::nodes_view;
use crate::parse_node::lemma_nodes_view;

/// The fuel handed to a whole parse: enough that no input that fits in
/// memory can exhaust it.
pub const PARSE_FUEL: u64 = u64::MAX;

/// A parsing failure.
#[derive(Debug, Clone, Copy, PartialEq, Eq, Structural)]
pub enum ParseError {
    /// No token class matches the source at this offset.
    Lex { position: usize, fragment: char },
    /// No alternative of this nonterminal matches at this token index.
    Syntax { nonterminal: usize, position: usize },
    /// A number lexeme at this token index has no plain machine value.
    Number { position: usize },
    /// The descent ran out of fuel.
    Exhausted,
}

/// The outcome of reducing one nonterminal: a parse tree and the token index
/// after it, a mismatch, fuel exhaustion, or a malformed number at a token
/// index.
pub enum GParse {
    Done { node: GNode, next: int },
    Fail,
    Short,
    BadNum { pos: int },
}

/// The outcome of matching one symbol sequence.
pub enum GSeqParse {
    Done { children: Seq<GNode>, next: int },
    Fail,
    Short,
    BadNum { pos: int },
}

/// Reduces nonterminal `nt` at token index `pos`: tries its alternatives in
/// declared order, each from `pos`.
pub open spec fn spec_reduce(
    g: Seq<Seq<GAlt>>,
    toks: Seq<GToken>,
    pos: int,
    nt: int,
    fuel: nat,
) -> GParse
    decreases fuel, 0nat, 0nat,
{
    if fuel == 0 {
        GParse::Short
    } else if !(0 <= nt < g.len()) {
        GParse::Fail
    } else {
        spec_alts(g, toks, pos, nt, g[nt], (fuel - 1) as nat)
    }
}

/// Tries the remaining alternatives of `nt` in order from `pos`.
pub open spec fn spec_alts(
    g: Seq<Seq<GAlt>>,
    toks: Seq<GToken>,
    pos: int,
    nt: int,
    alts: Seq<GAlt>,
    fuel: nat,
) -> GParse
    decreases fuel, 2nat, alts.len(),
{
    if alts.len() == 0 {
        GParse::Fail
    } else {
        match spec_seq(g, toks, pos, alts[0].symbols, fuel) {
            GSeqParse::Done { children, next } => GParse::Done {
                node: spec_postprocess(GNode::Tree { tag: nt, children }, alts[0].hook),
                next,
            },
            GSeqParse::Fail => spec_alts(g, toks, pos, nt, alts.drop_first(), fuel),
            GSeqParse::Short => GParse::Short,
            GSeqParse::BadNum { pos: p } => GParse::BadNum { pos: p },
        }
    }
}

/// Matches the symbols of one alternative in order from `pos`: a terminal
/// must equal the token kind found and consumes that token as a leaf; a
/// nonterminal is reduced recursively.
pub open spec fn spec_seq(
    g: Seq<Seq<GAlt>>,
    toks: Seq<GToken>,
    pos: int,
    syms: Seq<Symbol>,
    fuel: nat,
) -> GSeqParse
    decreases fuel, 1nat, syms.len(),
{
    if syms.len() == 0 {
        GSeqParse::Done { children: Seq::empty(), next: pos }
    } else {
        match syms[0] {
            Symbol::Terminal(k) => if 0 <= pos < toks.len() && toks[pos].kind == k {
                match spec_leaf_symbol(toks[pos]) {
                    Some(leaf) => match spec_seq(g, toks, pos + 1, syms.drop_first(), fuel) {
                        GSeqParse::Done { children, next } => GSeqParse::Done {
                            children: seq![leaf] + children,
                            next,
                        },
                        other => other,
                    },
                    None => GSeqParse::BadNum { pos },
                }
            } else {
                GSeqParse::Fail
            },
            Symbol::NonTerminal(m) => match spec_reduce(g, toks, pos, m as int, fuel) {
                GParse::Done { node, next } => match spec_seq(
                    g,
                    toks,
                    next,
                    syms.drop_first(),
                    fuel,
                ) {
                    GSeqParse::Done { children, next } => GSeqParse::Done {
                        children: seq![node] + children,
                        next,
                    },
                    other => other,
                },
                GParse::Fail => GSeqParse::Fail,
                GParse::Short => GSeqParse::Short,
                GParse::BadNum { pos: p } => GSeqParse::BadNum { pos: p },
            },
        }
    }
}

/// Prefixing already-matched children onto the outcome of the rest of a
/// symbol sequence.
pub open spec fn seq_prepend(ch: Seq<GNode>, r: GSeqParse) -> GSeqParse {
    match r {
        GSeqParse::Done { children, next } => GSeqParse::Done { children: ch + children, next },
        other => other,
    }
}

/// A reduction never moves the token index backwards past the pivot, and
/// never beyond the token count.
pub proof fn lemma_reduce_next_bounds(
    g: Seq<Seq<GAlt>>,
    toks: Seq<GToken>,
    pos: int,
    nt: int,
    fuel: nat,
)
    requires
        0 <= pos <= toks.len(),
    ensures
        spec_reduce(g, toks, pos, nt, fuel) matches GParse::Done { next, .. } ==> pos <= next
            <= toks.len(),
    decreases fuel, 0nat, 0nat,
{
    if fuel > 0 && 0 <= nt < g.len() {
        lemma_alts_next_bounds(g, toks, pos, nt, g[nt], (fuel - 1) as nat);
    }
}

pub proof fn lemma_alts_next_bounds(
    g: Seq<Seq<GAlt>>,
    toks: Seq<GToken>,
    pos: int,
    nt: int,
    alts: Seq<GAlt>,
    fuel: nat,
)
    requires
        0 <= pos <= toks.len(),
    ensures
        spec_alts(g, toks, pos, nt, alts, fuel) matches GParse::Done { next, .. } ==> pos <= next
            <= toks.len(),
    decreases fuel, 2nat, alts.len(),
{
    if alts.len() > 0 {
        lemma_seq_next_bounds(g, toks, pos, alts[0].symbols, fuel);
        lemma_alts_next_bounds(g, toks, pos, nt, alts.drop_first(), fuel);
    }
}

pub proof fn lemma_seq_next_bounds(
    g: Seq<Seq<GAlt>>,
    toks: Seq<GToken>,
    pos: int,
    syms: Seq<Symbol>,
    fuel: nat,
)
    requires
        0 <= pos <= toks.len(),
    ensures
        spec_seq(g, toks, pos, syms, fuel) matches GSeqParse::Done { next, .. } ==> pos <= next
            <= toks.len(),
    decreases fuel, 1nat, syms.len(),
{
    if syms.len() > 0 {
        match syms[0] {
            Symbol::Terminal(k) => {
                if 0 <= pos < toks.len() && toks[pos].kind == k {
                    lemma_seq_next_bounds(g, toks, pos + 1, syms.drop_first(), fuel);
                }
            },
            Symbol::NonTerminal(m) => {
                lemma_reduce_next_bounds(g, toks, pos, m as int, fuel);
                match spec_reduce(g, toks, pos, m as int, fuel) {
                    GParse::Done { node, next } => {
                        lemma_seq_next_bounds(g, toks, next, syms.drop_first(), fuel);
                    },
                    _ => {},
                }
            },
        }
    }
}

/// The backtracking parser: the token stream of one parse, the cursor into
/// it, and a counter that numbers the reduction attempts.
#[derive(Debug)]
pub struct Parser {
    pub tokens: Vec<Token>,
    pub index: usize,
    pub backtrack_id: usize,
}

impl Parser {
    /// A parser with no tokens yet.
    pub fn new() -> (p: Parser)
        ensures
            p.tokens@.len() == 0,
            p.index == 0,
            p.backtrack_id == 0,
    {
        Parser { tokens: Vec::new(), index: 0, backtrack_id: 0 }
    }

    /// Hands out the next reduction-attempt number.
    pub fn get_backtrack_id(&mut self) -> (id: usize)
        ensures
            id == old(self).backtrack_id,
            final(self).backtrack_id == if old(self).backtrack_id < usize::MAX {
                old(self).backtrack_id + 1
            } else {
                old(self).backtrack_id as int
            },
            final(self).tokens == old(self).tokens,
            final(self).index == old(self).index,
    {
        let id = self.backtrack_id;
        if self.backtrack_id < usize::MAX {
            self.backtrack_id = self.backtrack_id + 1;
        }
        id
    }

    /// The token under the cursor.
    pub fn get_token(&self) -> (t: &Token)
        requires
            self.index < self.tokens@.len(),
        ensures
            *t == self.tokens@[self.index as int],
    {
        &self.tokens[self.index]
    }

    /// Lexes `input` and reduces the table's first nonterminal over the whole
    /// token sequence. Every token must be consumed: a parse that stops short
    /// of the end is a syntax error at the first unconsumed token.
    pub fn parse(&mut self, g: &Grammar, input: &str) -> (r: Result<Node, ParseError>)
        requires
            grammar_wf(grammar_view(*g)),
            g.rules@.len() > 0,
        ensures
            match spec_lex(input@) {
                Err(p) => r matches Err(e) && e == (ParseError::Lex {
                    position: p as usize,
                    fragment: input@[p],
                }),
                Ok(gtoks) => {
                    &&& tokens_view(final(self).tokens@) == gtoks
                    &&& match spec_reduce(grammar_view(*g), gtoks, 0, 0, PARSE_FUEL as nat) {
                        GParse::Done { node, next } => if next == gtoks.len() {
                            r matches Ok(n) && node_view(n) == node
                        } else {
                            r matches Err(e) && e == (ParseError::Syntax {
                                nonterminal: 0,
                                position: next as usize,
                            })
                        },
                        GParse::Fail => r matches Err(e) && e == (ParseError::Syntax {
                            nonterminal: 0,
                            position: 0,
                        }),
                        GParse::Short => r == Err::<Node, ParseError>(ParseError::Exhausted),
                        GParse::BadNum { pos } => r matches Err(e) && e == (ParseError::Number {
                            position: pos as usize,
                        }),
                    }
                },
            },
    {
        let toks = match lex(input) {
            Ok(toks) => toks,
            Err(e) => {
                return Err(ParseError::Lex { position: e.position, fragment: e.fragment });
            },
        };
        self.tokens = toks;
        self.index = 0;
        let res = self.process_non_terminal(g, 0, PARSE_FUEL);
        proof {
            lemma_reduce_next_bounds(
                grammar_view(*g),
                tokens_view(self.tokens@),
                0,
                0,
                PARSE_FUEL as nat,
            );
        }
        match res {
            Ok(node) => {
                if self.index == self.tokens.len() {
                    Ok(node)
                } else {
                    Err(ParseError::Syntax { nonterminal: 0, position: self.index })
                }
            },
            Err(e) => Err(e),
        }
    }

    /// Reduces one nonterminal from the current cursor: saves the pivot,
    /// tries each alternative in order from it, applies the winning
    /// alternative's hook, and reports a syntax error at the pivot when all
    /// alternatives fail.
    #[verifier::loop_isolation(false)]
    fn process_non_terminal(&mut self, g: &Grammar, nt: usize, fuel: u64) -> (r: Result<
        Node,
        ParseError,
    >)
        requires
            grammar_wf(grammar_view(*g)),
            nt < g.rules@.len(),
            old(self).index <= old(self).tokens@.len(),
        ensures
            final(self).tokens == old(self).tokens,
            final(self).index <= final(self).tokens@.len(),
            match spec_reduce(
                grammar_view(*g),
                tokens_view(old(self).tokens@),
                old(self).index as int,
                nt as int,
                fuel as nat,
            ) {
                GParse::Done { node, next } => r matches Ok(n) && node_view(n) == node
                    && final(self).index as int == next,
                GParse::Fail => r matches Err(e) && e == (ParseError::Syntax {
                    nonterminal: nt,
                    position: old(self).index,
                }) && final(self).index == old(self).index,
                GParse::Short => r == Err::<Node, ParseError>(ParseError::Exhausted),
                GParse::BadNum { pos } => r matches Err(e) && e == (ParseError::Number {
                    position: pos as usize,
                }),
            },
        decreases fuel, 0int,
    {
        let ghost gv = grammar_view(*g);
        let ghost toks = tokens_view(old(self).tokens@);
        if fuel == 0 {
            return Err(ParseError::Exhausted);
        }
        let pivot = self.index;
        let _backtrack_id = self.get_backtrack_id();
        let ghost galts = gv[nt as int];
        proof {
            assert(galts == alts_view(g.rules@[nt as int]@));
        }
        let n_alts = self.alt_count(g, nt);
        proof {
            assert(galts.skip(0) =~= galts);
        }
        let mut i: usize = 0;
        while i < n_alts
            invariant
                i <= n_alts,
                self.tokens == old(self).tokens,
                self.index <= self.tokens@.len(),
                spec_alts(gv, toks, pivot as int, nt as int, galts, (fuel - 1) as nat)
                    == spec_alts(
                    gv,
                    toks,
                    pivot as int,
                    nt as int,
                    galts.skip(i as int),
                    (fuel - 1) as nat,
                ),
            decreases n_alts - i,
        {
            self.index = pivot;
            let ghost before = galts.skip(i as int);
            proof {
                assert(before[0] == galts[i as int]);
                assert(before.drop_first() =~= galts.skip(i as int + 1));
            }
            let res = self.process_production(g, nt, i, (fuel - 1) as u64);
            match res {
                Ok(children) => {
                    let ghost hook = galts[i as int].hook;
                    let alts = &g.rules[nt];
                    let tree = Node::new_tree(nt, children);
                    let shaped = postprocess_tree(tree, alts[i].hook);
                    proof {
                        assert(alt_view(g.rules@[nt as int]@[i as int]).hook == hook);
                    }
                    return Ok(shaped);
                },
                Err(ParseError::Syntax { .. }) => {
                    // this alternative fails; backtrack and try the next
                },
                Err(e) => {
                    return Err(e);
                },
            }
            i += 1;
        }
        proof {
            assert(galts.skip(n_alts as int) =~= Seq::<GAlt>::empty());
        }
        self.index = pivot;
        Err(ParseError::Syntax { nonterminal: nt, position: pivot })
    }

    /// The number of alternatives of one nonterminal.
    fn alt_count(&self, g: &Grammar, nt: usize) -> (n: usize)
        requires
            nt < g.rules@.len(),
        ensures
            n == grammar_view(*g)[nt as int].len(),
    {
        g.rules[nt].len()
    }

    /// Matches the symbols of alternative `alt_idx` of `nt` in order from
    /// the current cursor, producing the matched children.
    #[verifier::loop_isolation(false)]
    fn process_production(&mut self, g: &Grammar, nt: usize, alt_idx: usize, fuel: u64) -> (r:
        Result<Vec<Node>, ParseError>)
        requires
            grammar_wf(grammar_view(*g)),
            nt < g.rules@.len(),
            alt_idx < g.rules@[nt as int]@.len(),
            old(self).index <= old(self).tokens@.len(),
        ensures
            final(self).tokens == old(self).tokens,
            final(self).index <= final(self).tokens@.len(),
            match spec_seq(
                grammar_view(*g),
                tokens_view(old(self).tokens@),
                old(self).index as int,
                grammar_view(*g)[nt as int][alt_idx as int].symbols,
                fuel as nat,
            ) {
                GSeqParse::Done { children, next } => r matches Ok(ns) && nodes_view(ns@)
                    == children && final(self).index as int == next,
                GSeqParse::Fail => r matches Err(e) && e is Syntax,
                GSeqParse::Short => r == Err::<Vec<Node>, ParseError>(ParseError::Exhausted),
                GSeqParse::BadNum { pos } => r matches Err(e) && e == (ParseError::Number {
                    position: pos as usize,
                }),
            },
        decreases fuel, 1int,
    {
        let ghost gv = grammar_view(*g);
        let ghost toks = tokens_view(old(self).tokens@);
        let ghost syms = gv[nt as int][alt_idx as int].symbols;
        let ghost pos0 = old(self).index as int;
        let n_syms = {
            let alts = &g.rules[nt];
            let alt = &alts[alt_idx];
            alt.symbols.len()
        };
        proof {
            assert(syms == alt_view(g.rules@[nt as int]@[alt_idx as int]).symbols);
            assert(n_syms == syms.len());
        }
        let mut children: Vec<Node> = Vec::new();
        proof {
            assert(syms.skip(0) =~= syms);
            lemma_seq_prepend_empty(spec_seq(gv, toks, pos0, syms, fuel as nat));
        }
        let mut j: usize = 0;
        while j < n_syms
            invariant
                j <= n_syms,
                self.tokens == old(self).tokens,
                self.index <= self.tokens@.len(),
                spec_seq(gv, toks, pos0, syms, fuel as nat) == seq_prepend(
                    nodes_view(children@),
                    spec_seq(gv, toks, self.index as int, syms.skip(j as int), fuel as nat),
                ),
            decreases n_syms - j,
        {
            let ghost rest = syms.skip(j as int);
            proof {
                assert(rest[0] == syms[j as int]);
                assert(rest.drop_first() =~= syms.skip(j as int + 1));
                lemma_nodes_view(children@);
            }
            let sym = {
                let alts = &g.rules[nt];
                let alt = &alts[alt_idx];
                alt.symbols[j]
            };
            proof {
                assert(sym == syms[j as int]);
            }
            match sym {
                Symbol::Terminal(k) => {
                    if self.index < self.tokens.len() && self.tokens[self.index].is_kind(k) {
                        let ghost gtok = toks[self.index as int];
                        proof {
                            assert(gtok == token_view(self.tokens@[self.index as int]));
                        }
                        let leaf = {
                            let tok = &self.tokens[self.index];
                            new_leaf_symbol(tok)
                        };
                        match leaf {
                            Some(leaf) => {
                                let ghost old_children = children@;
                                children.push(leaf);
                                self.index = self.index + 1;
                                proof {
                                    lemma_nodes_view(children@);
                                    assert(nodes_view(children@) =~= nodes_view(old_children)
                                        + seq![node_view(children@.last())]);
                                    lemma_seq_prepend_one(
                                        nodes_view(old_children),
                                        node_view(children@.last()),
                                        spec_seq(
                                            gv,
                                            toks,
                                            self.index as int,
                                            syms.skip(j as int + 1),
                                            fuel as nat,
                                        ),
                                    );
                                }
                            },
                            None => {
                                return Err(ParseError::Number { position: self.index });
                            },
                        }
                    } else {
                        return Err(
                            ParseError::Syntax { nonterminal: nt, position: self.index },
                        );
                    }
                },
                Symbol::NonTerminal(m) => {
                    proof {
                        assert(gv[nt as int][alt_idx as int].symbols[j as int]
                            is NonTerminal);
                        assert(m < gv.len());
                    }
                    let sub = self.process_non_terminal(g, m, fuel);
                    match sub {
                        Ok(node) => {
                            let ghost old_children = children@;
                            children.push(node);
                            proof {
                                lemma_nodes_view(children@);
                                assert(nodes_view(children@) =~= nodes_view(old_children)
                                    + seq![node_view(children@.last())]);
                                lemma_seq_prepend_one(
                                    nodes_view(old_children),
                                    node_view(children@.last()),
                                    spec_seq(
                                        gv,
                                        toks,
                                        self.index as int,
                                        syms.skip(j as int + 1),
                                        fuel as nat,
                                    ),
                                );
                            }
                        },
                        Err(e) => {
                            return Err(e);
                        },
                    }
                },
            }
            j += 1;
        }
        proof {
            assert(syms.skip(n_syms as int) =~= Seq::<Symbol>::empty());
            lemma_nodes_view(children@);
        }
        Ok(children)
    }
}

/// Prefixing no children changes nothing.
proof fn lemma_seq_prepend_empty(r: GSeqParse)
    ensures
        seq_prepend(Seq::empty(), r) == r,
{
    match r {
        GSeqParse::Done { children, next } => {
            assert(Seq::empty() + children =~= children);
        },
        _ => {},
    }
}

/// Prefixing one more matched child commutes with prefixing the earlier
/// ones.
proof fn lemma_seq_prepend_one(ch: Seq<GNode>, n: GNode, r: GSeqParse)
    ensures
        seq_prepend(ch, seq_prepend(seq![n], r)) == seq_prepend(ch + seq![n], r),
{
    match r {
        GSeqParse::Done { children, next } => {
            assert(ch + (seq![n] + children) =~= (ch + seq![n]) + children);
        },
        _ => {},
    }
}

} // verus!
