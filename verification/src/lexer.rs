//! Maximal-munch lexer. From each non-whitespace position the candidate
//! lexeme grows one character at a time; every token-class recogniser is run
//! on each candidate, and the emitted token takes the longest length at which
//! at least one recogniser accepted, its kind chosen by a fixed priority
//! order over the recognisers. A position where no recogniser ever accepts is
//! a lexing error.
use vstd::prelude::*;

verus! {

use crate::chars::is_ws;
use crate::chars::is_alpha;
use crate::chars::is_digit;
use crate::chars::is_alnum;
use crate::chars::is_op_char;
use crate::chars::check_ws;
use crate::chars::check_alpha;
use crate::chars::check_digit;
use crate::chars::check_alnum;
use crate::chars::check_op_char;
use crate::chars::str_to_chars;
use crate::chars::copy_range;

/// The token classes, in priority order: when several recognisers accept the
/// same lexeme, the first of these wins.
#[derive(Debug, Clone, Copy, PartialEq, Eq, Structural)]
pub enum TokenKind {
    ParOpen,
    ParClose,
    Id,
    Num,
    PrimitiveOp,
}

/// What a recogniser says about one candidate lexeme: a complete match, a
/// proper prefix that may still grow into a match, or a dead end that no
/// extension can rescue.
#[derive(Debug, Clone, Copy, PartialEq, Eq, Structural)]
pub enum NFAResult {
    Accepted,
    NotAccepted,
    Trapped,
}

/// One token: its class and its matched text.
#[derive(Debug)]
pub struct Token {
    pub kind: TokenKind,
    pub lexeme: Vec<char>,
}

/// The mathematical image of a token.
pub struct GToken {
    pub kind: TokenKind,
    pub text: Seq<char>,
}

pub open spec fn token_view(t: Token) -> GToken {
    GToken { kind: t.kind, text: t.lexeme@ }
}

pub open spec fn tokens_view(ts: Seq<Token>) -> Seq<GToken> {
    ts.map_values(|t: Token| token_view(t))
}

impl Token {
    /// Whether this token is of the given class.
    pub fn is_kind(&self, kind: TokenKind) -> (r: bool)
        ensures
            r == (self.kind == kind),
    {
        self.kind == kind
    }
}

/// A lexing failure: the offset (in characters) at which no token class can
/// match, and the character found there.
#[derive(Debug, Clone, Copy, PartialEq, Eq, Structural)]
pub struct LexError {
    pub position: usize,
    pub fragment: char,
}

/// Every character of `s` is a digit.
pub open spec fn all_digits(s: Seq<char>) -> bool {
    forall|k: int| 0 <= k < s.len() ==> is_digit(s[k])
}

/// An identifier: a letter followed by letters and digits.
pub open spec fn id_accepts(s: Seq<char>) -> bool {
    s.len() >= 1 && is_alpha(s[0]) && (forall|k: int| 1 <= k < s.len() ==> is_alnum(s[k]))
}

/// A number with the separator: digits, one `,`, then at least one digit.
pub open spec fn num_sep_accepts(s: Seq<char>) -> bool {
    exists|m: int|
        1 <= m <= s.len() - 2 && s[m] == ',' && all_digits(s.subrange(0, m)) && all_digits(
            s.subrange(m + 1, s.len() as int),
        )
}

/// A complete number: all digits, or digits with one separator and digits.
pub open spec fn num_accepts(s: Seq<char>) -> bool {
    (s.len() >= 1 && all_digits(s)) || num_sep_accepts(s)
}

/// A number still missing its fractional part: digits then a trailing `,`.
pub open spec fn num_partial(s: Seq<char>) -> bool {
    s.len() >= 2 && s[s.len() - 1] == ',' && all_digits(s.subrange(0, s.len() - 1))
}

/// Whether the recogniser for `k` accepts `s` as a complete lexeme.
pub open spec fn tk_accepts(k: TokenKind, s: Seq<char>) -> bool {
    match k {
        TokenKind::ParOpen => s.len() == 1 && s[0] == '(',
        TokenKind::ParClose => s.len() == 1 && s[0] == ')',
        TokenKind::Id => id_accepts(s),
        TokenKind::Num => num_accepts(s),
        TokenKind::PrimitiveOp => s.len() == 1 && is_op_char(s[0]),
    }
}

/// Whether the recogniser for `k` is still alive on `s`: it accepts, or some
/// longer candidate starting with `s` could be accepted.
pub open spec fn tk_live(k: TokenKind, s: Seq<char>) -> bool {
    match k {
        TokenKind::Num => num_accepts(s) || num_partial(s),
        _ => tk_accepts(k, s),
    }
}

/// Whether any token class accepts `s`.
pub open spec fn any_accepts(s: Seq<char>) -> bool {
    tk_accepts(TokenKind::ParOpen, s) || tk_accepts(TokenKind::ParClose, s) || tk_accepts(
        TokenKind::Id,
        s,
    ) || tk_accepts(TokenKind::Num, s) || tk_accepts(TokenKind::PrimitiveOp, s)
}

/// The class of an accepted lexeme, by the declared priority order.
pub open spec fn kind_for(s: Seq<char>) -> TokenKind {
    if tk_accepts(TokenKind::ParOpen, s) {
        TokenKind::ParOpen
    } else if tk_accepts(TokenKind::ParClose, s) {
        TokenKind::ParClose
    } else if tk_accepts(TokenKind::Id, s) {
        TokenKind::Id
    } else if tk_accepts(TokenKind::Num, s) {
        TokenKind::Num
    } else {
        TokenKind::PrimitiveOp
    }
}

/// The longest length `l` with `1 <= l <= n` at which some token class
/// accepts `cs[i .. i + l]`, or `0` if there is none: the maximal munch.
pub open spec fn best_len(cs: Seq<char>, i: int, n: int) -> int
    decreases n,
{
    if n <= 0 {
        0
    } else if any_accepts(cs.subrange(i, i + n)) {
        n
    } else {
        best_len(cs, i, n - 1)
    }
}

/// The munch length never exceeds the range it was searched in.
pub proof fn lemma_best_len_le(cs: Seq<char>, i: int, n: int)
    ensures
        0 <= best_len(cs, i, n),
        best_len(cs, i, n) <= n || n < 0,
    decreases n,
{
    if n > 0 && !any_accepts(cs.subrange(i, i + n)) {
        lemma_best_len_le(cs, i, n - 1);
    }
}

/// Maximal munch: nothing longer than the munch length is ever accepted, so
/// an emitted token can never be a split of a longer acceptable lexeme.
pub proof fn lemma_munch_maximal(cs: Seq<char>, i: int, n: int)
    ensures
        forall|l: int|
            best_len(cs, i, n) < l <= n ==> !any_accepts(#[trigger] cs.subrange(i, i + l)),
    decreases n,
{
    if n > 0 && !any_accepts(cs.subrange(i, i + n)) {
        lemma_munch_maximal(cs, i, n - 1);
    }
}

/// The token sequence of `cs` from offset `i` on, or the offset of the first
/// position where no token class can match.
pub open spec fn spec_lex_at(cs: Seq<char>, i: int) -> Result<Seq<GToken>, int>
    decreases cs.len() - i
        via spec_lex_at_decreases
{
    if i >= cs.len() || i < 0 {
        Ok(Seq::empty())
    } else if is_ws(cs[i]) {
        spec_lex_at(cs, i + 1)
    } else {
        let l = best_len(cs, i, cs.len() - i);
        if l <= 0 {
            Err(i)
        } else {
            match spec_lex_at(cs, i + l) {
                Ok(rest) => Ok(
                    seq![
                        GToken { kind: kind_for(cs.subrange(i, i + l)), text: cs.subrange(i, i + l) },
                    ] + rest,
                ),
                Err(p) => Err(p),
            }
        }
    }
}

#[via_fn]
proof fn spec_lex_at_decreases(cs: Seq<char>, i: int) {
    lemma_best_len_le(cs, i, cs.len() - i);
}

/// The token sequence of a whole source text, or the offset of its first
/// unmatchable position.
pub open spec fn spec_lex(cs: Seq<char>) -> Result<Seq<GToken>, int> {
    spec_lex_at(cs, 0)
}

/// Prefixing a token sequence onto the outcome of lexing a suffix.
pub open spec fn lex_prepend(ts: Seq<GToken>, r: Result<Seq<GToken>, int>) -> Result<
    Seq<GToken>,
    int,
> {
    match r {
        Ok(rest) => Ok(ts + rest),
        Err(p) => Err(p),
    }
}

/// Splits a source text into its token sequence by maximal munch, or reports
/// the first offset at which no token class can match, with the character
/// found there.
#[verifier::loop_isolation(false)]
#[verifier::rlimit(30)]
pub fn lex(src: &str) -> (r: Result<Vec<Token>, LexError>)
    ensures
        match r {
            Ok(toks) => spec_lex(src@) == Ok::<Seq<GToken>, int>(tokens_view(toks@)),
            Err(e) => spec_lex(src@) == Err::<Seq<GToken>, int>(e.position as int) && e.position
                < src@.len() && e.fragment == src@[e.position as int],
        },
{
    let mut cs = str_to_chars(src);
    cs.push(' ');
    let n: usize = cs.len() - 1;
    proof {
        assert(cs@ =~= src@ + seq![' ']);
        assert(n as int == src@.len());
        assert(forall|k: int| 0 <= k < n ==> cs@[k] == src@[k]);
        assert(is_ws(cs@[n as int]));
    }
    let mut tokens: Vec<Token> = Vec::new();
    let mut index: usize = 0;
    while index < cs.len()
        invariant
            index <= cs@.len(),
            lex_prepend(
                tokens_view(tokens@),
                spec_lex_at(src@, if index <= n { index as int } else { n as int }),
            ) == spec_lex(src@),
        decreases cs@.len() - index,
    {
        let c = cs[index];
        if check_ws(c) {
            proof {
                if index < n {
                    assert(src@[index as int] == cs@[index as int]);
                    assert(spec_lex_at(src@, index as int) == spec_lex_at(src@, index as int + 1));
                }
            }
            index += 1;
            continue;
        }
        // the sentinel is whitespace, so a non-whitespace position is in src
        proof {
            assert(index < n);
        }
        let start = index;
        let mut best: usize = 0;
        let mut best_kind = TokenKind::ParOpen;
        let mut l: usize = 1;
        let mut alive = true;
        while alive
            invariant
                1 <= l,
                start + l <= cs@.len(),
                forall|k: int| start <= k < start + l - 1 ==> !is_ws(cs@[k]),
                !alive ==> dead_all(cs@.subrange(start as int, start + l as int)),
                best == 0 ==> forall|ll: int|
                    1 <= ll < l ==> !any_accepts(#[trigger] cs@.subrange(start as int, start + ll)),
                best >= 1 ==> 1 <= best < l && any_accepts(
                    cs@.subrange(start as int, start + best as int),
                ) && best_kind == kind_for(cs@.subrange(start as int, start + best as int)) && (
                forall|ll: int|
                    best < ll < l ==> !any_accepts(
                        #[trigger] cs@.subrange(start as int, start + ll),
                    )),
            decreases cs@.len() - l + (if alive {
                1int
            } else {
                0int
            }),
        {
            let ghost cand = cs@.subrange(start as int, start + l as int);
            let r1 = nfa_par_open(&cs, start, start + l);
            let r2 = nfa_par_close(&cs, start, start + l);
            let r3 = nfa_id(&cs, start, start + l);
            let r4 = nfa_num(&cs, start, start + l);
            let r5 = nfa_primitive_op(&cs, start, start + l);
            let all_dead = matches!(r1, NFAResult::Trapped) && matches!(r2, NFAResult::Trapped)
                && matches!(r3, NFAResult::Trapped) && matches!(r4, NFAResult::Trapped) && matches!(
                r5,
                NFAResult::Trapped,
            );
            if all_dead {
                alive = false;
                continue ;
            }
            let acc1 = matches!(r1, NFAResult::Accepted);
            let acc2 = matches!(r2, NFAResult::Accepted);
            let acc3 = matches!(r3, NFAResult::Accepted);
            let acc4 = matches!(r4, NFAResult::Accepted);
            let acc5 = matches!(r5, NFAResult::Accepted);
            if acc1 || acc2 || acc3 || acc4 || acc5 {
                best = l;
                best_kind = if acc1 {
                    TokenKind::ParOpen
                } else if acc2 {
                    TokenKind::ParClose
                } else if acc3 {
                    TokenKind::Id
                } else if acc4 {
                    TokenKind::Num
                } else {
                    TokenKind::PrimitiveOp
                };
            }
            proof {
                // some class is alive, so the candidate holds no whitespace,
                // so it ends strictly before the sentinel
                assert forall|k: int| start <= k < start + l implies !is_ws(cs@[k]) by {
                    if is_ws(cs@[k]) {
                        assert(cand[k - start] == cs@[k]);
                        lemma_ws_dead(cand, k - start);
                    }
                }
                assert(!is_ws(cs@[start + l - 1]));
                assert(start + l - 1 != n);
                assert(start + l <= n);
            }
            l += 1;
        }
        if best == 0 {
            proof {
                if l as int <= n - start {
                    lemma_dead_stay(cs@, start as int, l as int, (n - start) as int);
                }
                assert forall|ll: int| 1 <= ll <= n - start implies !any_accepts(
                    #[trigger] src@.subrange(start as int, start + ll),
                ) by {
                    assert(src@.subrange(start as int, start + ll) =~= cs@.subrange(
                        start as int,
                        start + ll,
                    ));
                    if ll < l {
                    } else {
                        assert(!any_accepts(cs@.subrange(start as int, start + ll)));
                    }
                }
                lemma_best_len_none(src@, start as int, src@.len() - start);
                assert(!is_ws(src@[start as int]));
                assert(spec_lex_at(src@, start as int) == Err::<Seq<GToken>, int>(start as int));
            }
            return Err(LexError { position: start, fragment: cs[start] });
        }
        let lexeme = copy_range(&cs, start, start + best);
        let tok = Token { kind: best_kind, lexeme };
        proof {
            let ghost text = src@.subrange(start as int, start + best as int);
            assert(text =~= cs@.subrange(start as int, start + best as int));
            if l as int <= n - start {
                lemma_dead_stay(cs@, start as int, l as int, (n - start) as int);
            }
            assert forall|ll: int| best < ll <= n - start implies !any_accepts(
                #[trigger] src@.subrange(start as int, start + ll),
            ) by {
                assert(src@.subrange(start as int, start + ll) =~= cs@.subrange(
                    start as int,
                    start + ll,
                ));
                if ll < l {
                } else {
                    assert(!any_accepts(cs@.subrange(start as int, start + ll)));
                }
            }
            lemma_best_len_is(src@, start as int, src@.len() - start, best as int);
            assert(!is_ws(src@[start as int]));
            assert(token_view(tok) == GToken { kind: kind_for(text), text });
        }
        let ghost old_toks = tokens@;
        tokens.push(tok);
        proof {
            let ghost text = src@.subrange(start as int, start + best as int);
            let ghost t = GToken { kind: kind_for(text), text };
            assert(tokens@ == old_toks.push(tok));
            assert(tokens_view(tokens@) =~= tokens_view(old_toks).push(t));
            match spec_lex_at(src@, start as int + best as int) {
                Ok(rest) => {
                    assert(spec_lex_at(src@, start as int) == Ok::<Seq<GToken>, int>(
                        seq![t] + rest,
                    ));
                    assert(tokens_view(old_toks) + (seq![t] + rest) =~= tokens_view(tokens@)
                        + rest);
                },
                Err(p) => {
                    assert(spec_lex_at(src@, start as int) == Err::<Seq<GToken>, int>(p));
                },
            }
        }
        index = start + best;
    }
    proof {
        assert(spec_lex_at(src@, n as int) == Ok::<Seq<GToken>, int>(Seq::empty()));
        assert(tokens_view(tokens@) + Seq::<GToken>::empty() =~= tokens_view(tokens@));
    }
    Ok(tokens)
}

/// Recogniser for `(`.
pub fn nfa_par_open(cs: &Vec<char>, start: usize, end: usize) -> (r: NFAResult)
    requires
        start < end,
        end <= cs@.len(),
    ensures
        (r is Accepted) == tk_accepts(TokenKind::ParOpen, cs@.subrange(start as int, end as int)),
        (r is Trapped) == !tk_live(TokenKind::ParOpen, cs@.subrange(start as int, end as int)),
{
    if end - start == 1 && cs[start] == '(' {
        NFAResult::Accepted
    } else {
        NFAResult::Trapped
    }
}

/// Recogniser for `)`.
pub fn nfa_par_close(cs: &Vec<char>, start: usize, end: usize) -> (r: NFAResult)
    requires
        start < end,
        end <= cs@.len(),
    ensures
        (r is Accepted) == tk_accepts(TokenKind::ParClose, cs@.subrange(start as int, end as int)),
        (r is Trapped) == !tk_live(TokenKind::ParClose, cs@.subrange(start as int, end as int)),
{
    if end - start == 1 && cs[start] == ')' {
        NFAResult::Accepted
    } else {
        NFAResult::Trapped
    }
}

/// Recogniser for a one-character primitive operator.
pub fn nfa_primitive_op(cs: &Vec<char>, start: usize, end: usize) -> (r: NFAResult)
    requires
        start < end,
        end <= cs@.len(),
    ensures
        (r is Accepted) == tk_accepts(
            TokenKind::PrimitiveOp,
            cs@.subrange(start as int, end as int),
        ),
        (r is Trapped) == !tk_live(TokenKind::PrimitiveOp, cs@.subrange(start as int, end as int)),
{
    if end - start == 1 && check_op_char(cs[start]) {
        NFAResult::Accepted
    } else {
        NFAResult::Trapped
    }
}

/// Recogniser for an identifier.
#[verifier::loop_isolation(false)]
pub fn nfa_id(cs: &Vec<char>, start: usize, end: usize) -> (r: NFAResult)
    requires
        start < end,
        end <= cs@.len(),
    ensures
        (r is Accepted) == tk_accepts(TokenKind::Id, cs@.subrange(start as int, end as int)),
        (r is Trapped) == !tk_live(TokenKind::Id, cs@.subrange(start as int, end as int)),
{
    let ghost s = cs@.subrange(start as int, end as int);
    if !check_alpha(cs[start]) {
        proof {
            assert(s[0] == cs@[start as int]);
        }
        return NFAResult::Trapped;
    }
    let mut j: usize = start + 1;
    while j < end
        invariant
            start < j <= end,
            is_alpha(cs@[start as int]),
            forall|k: int| start < k < j ==> is_alnum(cs@[k]),
        decreases end - j,
    {
        if !check_alnum(cs[j]) {
            proof {
                assert(s[j - start] == cs@[j as int]);
                assert(!id_accepts(s));
            }
            return NFAResult::Trapped;
        }
        j += 1;
    }
    proof {
        assert forall|k: int| 1 <= k < s.len() implies is_alnum(s[k]) by {
            assert(s[k] == cs@[start + k]);
        }
        assert(id_accepts(s));
    }
    NFAResult::Accepted
}

/// Recogniser for a number: digits, then optionally one `,` and more digits.
#[verifier::loop_isolation(false)]
pub fn nfa_num(cs: &Vec<char>, start: usize, end: usize) -> (r: NFAResult)
    requires
        start < end,
        end <= cs@.len(),
    ensures
        (r is Accepted) == tk_accepts(TokenKind::Num, cs@.subrange(start as int, end as int)),
        (r is Trapped) == !tk_live(TokenKind::Num, cs@.subrange(start as int, end as int)),
        (r is NotAccepted) == (tk_live(TokenKind::Num, cs@.subrange(start as int, end as int))
            && !tk_accepts(TokenKind::Num, cs@.subrange(start as int, end as int))),
{
    let ghost s = cs@.subrange(start as int, end as int);
    proof {
        assert(s.len() == end - start);
        assert(forall|k: int| 0 <= k < s.len() ==> s[k] == cs@[start + k]);
    }
    // state 1: all digits so far; state 2: digits then `,`; state 3: digits,
    // `,`, then at least one digit; state -1: dead.
    let mut state: i8 = 0;
    let mut j: usize = start;
    // the separator offset within the candidate, meaningful in states 2 and 3
    let ghost mut m: int = 0;
    while j < end
        invariant
            start <= j <= end,
            state == 0 || state == 1 || state == 2 || state == 3 || state == -1,
            (state == 0) <==> (j == start),
            state == 1 ==> j > start && all_digits(s.subrange(0, j - start)),
            state == 2 ==> j >= start + 2 && m == j - start - 1 && s[m] == ',' && all_digits(
                s.subrange(0, m),
            ),
            state == 3 ==> 1 <= m <= j - start - 2 && s[m] == ',' && all_digits(s.subrange(0, m))
                && all_digits(s.subrange(m + 1, j - start)),
            state == -1 ==> !num_accepts(s.subrange(0, j - start)) && !num_partial(
                s.subrange(0, j - start),
            ),
        decreases end - j,
    {
        let c = cs[j];
        proof {
            assert(s[j - start] == cs@[j as int]);
        }
        let ghost pre = s.subrange(0, j - start);
        let ghost post = s.subrange(0, j + 1 - start);
        proof {
            assert(post =~= pre.push(s[j - start]));
        }
        if state == 0 {
            if check_digit(c) {
                state = 1;
            } else {
                state = -1;
                proof {
                    assert(!all_digits(post)) by {
                        assert(!is_digit(post[0]));
                    }
                    assert(!num_sep_accepts(post)) by {
                        assert(post.len() == 1);
                    }
                    assert(!num_partial(post));
                }
            }
        } else if state == 1 {
            if check_digit(c) {
                proof {
                    assert(all_digits(post));
                }
                state = 1;
            } else if c == ',' {
                proof {
                    m = (j - start) as int;
                    assert(s.subrange(0, m) =~= pre);
                }
                state = 2;
            } else {
                state = -1;
                proof {
                    lemma_num_dead_bad_char(s, (j + 1 - start) as int, (j - start) as int);
                }
            }
        } else if state == 2 {
            if check_digit(c) {
                state = 3;
                proof {
                    assert(s.subrange(0, m) =~= pre.subrange(0, m));
                    assert(all_digits(s.subrange(m + 1, j + 1 - start))) by {
                        assert(s.subrange(m + 1, j + 1 - start).len() == 1);
                        assert(s.subrange(m + 1, j + 1 - start)[0] == s[j - start]);
                    }
                }
            } else {
                state = -1;
                proof {
                    lemma_num_dead_two_bad(s, (j + 1 - start) as int, m, (j - start) as int);
                }
            }
        } else if state == 3 {
            if check_digit(c) {
                proof {
                    assert(all_digits(s.subrange(m + 1, j + 1 - start))) by {
                        assert(forall|k: int|
                            m + 1 <= k < j + 1 - start ==> s.subrange(m + 1, j + 1 - start)[k - m
                                - 1] == s[k]);
                        assert(forall|k: int|
                            m + 1 <= k < j - start ==> s.subrange(m + 1, j - start)[k - m - 1]
                                == s[k]);
                    }
                }
                state = 3;
            } else {
                state = -1;
                proof {
                    lemma_num_dead_two_bad(s, (j + 1 - start) as int, m, (j - start) as int);
                }
            }
        } else {
            proof {
                lemma_num_dead_extend(s, (j - start) as int);
            }
        }
        j += 1;
    }
    proof {
        assert(s.subrange(0, end - start) =~= s);
    }
    if state == 1 {
        NFAResult::Accepted
    } else if state == 3 {
        proof {
            assert(num_sep_accepts(s)) by {
                assert(all_digits(s.subrange(m + 1, s.len() as int)));
            }
        }
        NFAResult::Accepted
    } else if state == 2 {
        proof {
            assert(num_partial(s)) by {
                assert(s.subrange(0, s.len() - 1) =~= s.subrange(0, m));
            }
            assert(!all_digits(s)) by {
                assert(!is_digit(s[m]));
            }
            assert(!num_sep_accepts(s)) by {
                assert forall|mm: int|
                    1 <= mm <= s.len() - 2 implies !(s[mm] == ',' && all_digits(
                    s.subrange(0, mm),
                ) && all_digits(s.subrange(mm + 1, s.len() as int))) by {
                    if s[mm] == ',' && all_digits(s.subrange(mm + 1, s.len() as int)) {
                        assert(is_digit(s.subrange(mm + 1, s.len() as int)[s.len() - 1 - mm - 1]));
                        assert(!is_digit(s[s.len() - 1]));
                    }
                }
            }
        }
        NFAResult::NotAccepted
    } else {
        NFAResult::Trapped
    }
}

/// Every token class is dead on `s`.
pub open spec fn dead_all(s: Seq<char>) -> bool {
    !tk_live(TokenKind::ParOpen, s) && !tk_live(TokenKind::ParClose, s) && !tk_live(
        TokenKind::Id,
        s,
    ) && !tk_live(TokenKind::Num, s) && !tk_live(TokenKind::PrimitiveOp, s)
}

/// An accepted lexeme keeps its recogniser alive.
pub proof fn lemma_accepts_live(s: Seq<char>)
    requires
        any_accepts(s),
    ensures
        !dead_all(s),
{
}

/// A candidate that contains a whitespace character is dead for every class.
pub proof fn lemma_ws_dead(s: Seq<char>, p: int)
    requires
        0 <= p < s.len(),
        is_ws(s[p]),
    ensures
        dead_all(s),
{
    assert(!id_accepts(s)) by {
        if id_accepts(s) {
            if p == 0 {
                assert(is_alpha(s[0]));
            } else {
                assert(is_alnum(s[p]));
            }
        }
    }
    assert(!all_digits(s)) by {
        if all_digits(s) {
            assert(is_digit(s[p]));
        }
    }
    assert(!num_partial(s)) by {
        if num_partial(s) {
            if p < s.len() - 1 {
                assert(is_digit(s.subrange(0, s.len() - 1)[p]));
            }
        }
    }
    assert(!num_sep_accepts(s)) by {
        if num_sep_accepts(s) {
            let mm = choose|mm: int|
                1 <= mm <= s.len() - 2 && s[mm] == ',' && all_digits(s.subrange(0, mm))
                    && all_digits(s.subrange(mm + 1, s.len() as int));
            if p < mm {
                assert(is_digit(s.subrange(0, mm)[p]));
            } else if p > mm {
                assert(is_digit(s.subrange(mm + 1, s.len() as int)[p - mm - 1]));
            }
        }
    }
}

/// A candidate that is dead for every class stays dead when extended.
pub proof fn lemma_dead_extend(s: Seq<char>, c: char)
    requires
        s.len() >= 1,
        dead_all(s),
    ensures
        dead_all(s.push(c)),
{
    let u = s.push(c);
    assert(u.len() == s.len() + 1);
    assert(forall|k: int| 0 <= k < s.len() ==> u[k] == s[k]);
    assert(!id_accepts(u)) by {
        if id_accepts(u) {
            assert(id_accepts(s)) by {
                assert(is_alpha(s[0]));
            }
        }
    }
    assert(!tk_live(TokenKind::Num, u)) by {
        let full = u;
        assert(full.subrange(0, s.len() as int) =~= s);
        assert(full.subrange(0, s.len() as int + 1) =~= full);
        lemma_num_dead_extend(full, s.len() as int);
    }
}

/// Once every class is dead, no longer candidate from the same start is ever
/// accepted.
pub proof fn lemma_dead_stay(cs: Seq<char>, i: int, a: int, b: int)
    requires
        0 <= i,
        1 <= a <= b,
        i + b <= cs.len(),
        dead_all(cs.subrange(i, i + a)),
    ensures
        forall|ll: int| a <= ll <= b ==> !any_accepts(#[trigger] cs.subrange(i, i + ll)),
        dead_all(cs.subrange(i, i + b)),
    decreases b - a,
{
    assert(!any_accepts(cs.subrange(i, i + a))) by {
        if any_accepts(cs.subrange(i, i + a)) {
            lemma_accepts_live(cs.subrange(i, i + a));
        }
    }
    if a < b {
        assert(cs.subrange(i, i + a + 1) =~= cs.subrange(i, i + a).push(cs[i + a]));
        lemma_dead_extend(cs.subrange(i, i + a), cs[i + a]);
        lemma_dead_stay(cs, i, a + 1, b);
    }
}

/// The maximal munch is `l` when `l` is accepted and nothing longer is.
pub proof fn lemma_best_len_is(cs: Seq<char>, i: int, n: int, l: int)
    requires
        0 <= i,
        1 <= l <= n,
        any_accepts(cs.subrange(i, i + l)),
        forall|ll: int| l < ll <= n ==> !any_accepts(#[trigger] cs.subrange(i, i + ll)),
    ensures
        best_len(cs, i, n) == l,
    decreases n,
{
    if n > l {
        lemma_best_len_is(cs, i, n - 1, l);
    }
}

/// The maximal munch is `0` when no candidate length is accepted.
pub proof fn lemma_best_len_none(cs: Seq<char>, i: int, n: int)
    requires
        0 <= i,
        forall|ll: int| 1 <= ll <= n ==> !any_accepts(#[trigger] cs.subrange(i, i + ll)),
    ensures
        best_len(cs, i, n) == 0,
    decreases n,
{
    if n > 0 {
        lemma_best_len_none(cs, i, n - 1);
    }
}

/// In a candidate with a non-digit, non-separator character, every number
/// shape is dead.
proof fn lemma_num_dead_bad_char(s: Seq<char>, n: int, p: int)
    requires
        0 <= p < n <= s.len(),
        !is_digit(s[p]),
        s[p] != ',',
    ensures
        !num_accepts(s.subrange(0, n)),
        !num_partial(s.subrange(0, n)),
{
    let t = s.subrange(0, n);
    assert(t[p] == s[p]);
    assert(!all_digits(t));
    assert(!num_partial(t)) by {
        if num_partial(t) {
            if p < n - 1 {
                assert(is_digit(t.subrange(0, n - 1)[p]));
            }
        }
    }
    assert(!num_sep_accepts(t)) by {
        if num_sep_accepts(t) {
            let mm = choose|mm: int|
                1 <= mm <= t.len() - 2 && t[mm] == ',' && all_digits(t.subrange(0, mm))
                    && all_digits(t.subrange(mm + 1, t.len() as int));
            if p < mm {
                assert(is_digit(t.subrange(0, mm)[p]));
            } else if p > mm {
                assert(is_digit(t.subrange(mm + 1, t.len() as int)[p - mm - 1]));
            }
        }
    }
}

/// In a candidate with a separator at `m` and a later character that is
/// neither digit nor the first separator, every number shape is dead.
proof fn lemma_num_dead_two_bad(s: Seq<char>, n: int, m: int, p: int)
    requires
        0 <= m < p < n <= s.len(),
        s[m] == ',',
        !is_digit(s[p]),
    ensures
        !num_accepts(s.subrange(0, n)),
        !num_partial(s.subrange(0, n)),
{
    let t = s.subrange(0, n);
    assert(t[p] == s[p]);
    assert(t[m] == s[m]);
    assert(!is_digit(t[m])) by {
        assert(!is_digit(','));
    }
    assert(!all_digits(t));
    assert(!num_partial(t)) by {
        if num_partial(t) {
            if m < n - 1 {
                assert(is_digit(t.subrange(0, n - 1)[m]));
            } else {
                assert(p == n - 1 && m == p);
            }
        }
    }
    assert(!num_sep_accepts(t)) by {
        if num_sep_accepts(t) {
            let mm = choose|mm: int|
                1 <= mm <= t.len() - 2 && t[mm] == ',' && all_digits(t.subrange(0, mm))
                    && all_digits(t.subrange(mm + 1, t.len() as int));
            if m < mm {
                assert(is_digit(t.subrange(0, mm)[m]));
            } else if m > mm {
                assert(is_digit(t.subrange(mm + 1, t.len() as int)[m - mm - 1]));
            } else {
                // mm == m, so the bad character sits in the digit tail
                assert(is_digit(t.subrange(mm + 1, t.len() as int)[p - mm - 1]));
            }
        }
    }
}

/// A dead number candidate stays dead when extended by one character.
proof fn lemma_num_dead_extend(s: Seq<char>, p: int)
    requires
        0 < p < s.len(),
        !num_accepts(s.subrange(0, p)),
        !num_partial(s.subrange(0, p)),
    ensures
        !num_accepts(s.subrange(0, p + 1)),
        !num_partial(s.subrange(0, p + 1)),
{
    let t = s.subrange(0, p);
    let u = s.subrange(0, p + 1);
    assert(t =~= u.subrange(0, p));
    assert(forall|k: int| 0 <= k < p ==> t[k] == u[k]);
    assert(!all_digits(u)) by {
        if all_digits(u) {
            assert(forall|k: int| 0 <= k < p ==> is_digit(t[k]));
        }
    }
    assert(!num_partial(u)) by {
        if num_partial(u) {
            // u = digits + `,`; then t is all digits, so t was alive
            assert(all_digits(u.subrange(0, p)));
            assert(all_digits(t));
        }
    }
    assert(!num_sep_accepts(u)) by {
        if num_sep_accepts(u) {
            let mm = choose|mm: int|
                1 <= mm <= u.len() - 2 && u[mm] == ',' && all_digits(u.subrange(0, mm))
                    && all_digits(u.subrange(mm + 1, u.len() as int));
            if mm == p - 1 {
                // t = digits + `,`: t was a partial number
                assert(num_partial(t)) by {
                    assert(t.subrange(0, p - 1) =~= u.subrange(0, mm));
                }
            } else {
                // mm < p - 1: t was already an accepted separator form
                assert(num_sep_accepts(t)) by {
                    assert(t.subrange(0, mm) =~= u.subrange(0, mm));
                    assert(all_digits(t.subrange(mm + 1, t.len() as int))) by {
                        let tt = t.subrange(mm + 1, t.len() as int);
                        assert forall|k: int| 0 <= k < tt.len() implies is_digit(
                            #[trigger] tt[k],
                        ) by {
                            assert(tt[k] == t[k + mm + 1]);
                            assert(t[k + mm + 1] == u[k + mm + 1]);
                            assert(is_digit(u.subrange(mm + 1, u.len() as int)[k]));
                        }
                    }
                }
            }
        }
    }
}

} // verus!
