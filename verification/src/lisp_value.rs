//! Run-time values: the nil marker, machine integers, booleans, the
//! host-implemented intrinsic operations, and interpreted functions. A
//! function value pairs its code with the index of the environment frame
//! that was active at its definition site.
use vstd::prelude::*;

verus! {

use crate::ast::Expr;
use crate::ast::GExpr;
use crate::ast::exprs_view;
use crate::ast::names_view;
use crate::ast::clone_names;
use crate::chars::clone_chars;

/// The host-implemented intrinsic operations.
#[derive(Debug, Clone, Copy, PartialEq, Eq, Structural)]
pub enum NativeOp {
    Add,
    Sub,
    Mul,
    Div,
    Eq,
}

/// An interpreted function: its name, parameter names, body expressions,
/// and the frame it captured at its definition site.
#[derive(Debug)]
pub struct Func {
    pub name: Vec<char>,
    pub params: Vec<Vec<char>>,
    pub body: Vec<Expr>,
    pub env: usize,
}

/// One run-time value.
#[derive(Debug)]
pub enum LispValue {
    Nill,
    Int(i64),
    Bool(bool),
    Intrinsic(NativeOp),
    Func(Func),
}

/// The mathematical image of a function value.
#[verifier::ext_equal]
pub struct GFunc {
    pub name: Seq<char>,
    pub params: Seq<Seq<char>>,
    pub body: Seq<GExpr>,
    pub env: int,
}

/// The mathematical image of a value.
pub enum GValue {
    Nill,
    Int(int),
    Bool(bool),
    Intrinsic(NativeOp),
    Func(GFunc),
}

pub open spec fn func_view(f: Func) -> GFunc {
    GFunc { name: f.name@, params: names_view(f.params@), body: exprs_view(f.body@), env: f.env as int }
}

pub open spec fn value_view(v: LispValue) -> GValue {
    match v {
        LispValue::Nill => GValue::Nill,
        LispValue::Int(n) => GValue::Int(n as int),
        LispValue::Bool(b) => GValue::Bool(b),
        LispValue::Intrinsic(op) => GValue::Intrinsic(op),
        LispValue::Func(f) => GValue::Func(func_view(f)),
    }
}

impl Func {
    /// A function value capturing the given frame.
    pub fn new(name: Vec<char>, params: Vec<Vec<char>>, body: Vec<Expr>, env: usize) -> (f: Func)
        ensures
            func_view(f) == (GFunc {
                name: name@,
                params: names_view(params@),
                body: exprs_view(body@),
                env: env as int,
            }),
    {
        Func { name, params, body, env }
    }

    /// The function's name.
    pub fn get_name(&self) -> (r: &Vec<char>)
        ensures
            r@ == self.name@,
    {
        &self.name
    }
}

/// The character of one decimal digit.
pub open spec fn digit_char(d: nat) -> char {
    if d == 0 {
        '0'
    } else if d == 1 {
        '1'
    } else if d == 2 {
        '2'
    } else if d == 3 {
        '3'
    } else if d == 4 {
        '4'
    } else if d == 5 {
        '5'
    } else if d == 6 {
        '6'
    } else if d == 7 {
        '7'
    } else if d == 8 {
        '8'
    } else {
        '9'
    }
}

/// The decimal digits of a natural number, most significant first.
pub open spec fn dec_digits(n: nat) -> Seq<char>
    decreases n,
{
    if n < 10 {
        seq![digit_char(n)]
    } else {
        dec_digits(n / 10).push(digit_char(n % 10))
    }
}

/// How a value renders: the nil and boolean tags, the decimal form of an
/// integer, and an opaque tag for either callable kind — never a function's
/// body or captured frame.
pub open spec fn spec_render(v: GValue) -> Seq<char> {
    match v {
        GValue::Nill => seq!['N', 'i', 'l', 'l'],
        GValue::Int(n) => if n >= 0 {
            dec_digits(n as nat)
        } else {
            seq!['-'] + dec_digits((-n) as nat)
        },
        GValue::Bool(true) => seq!['t', 'r', 'u', 'e'],
        GValue::Bool(false) => seq!['f', 'a', 'l', 's', 'e'],
        GValue::Intrinsic(_) => seq!['<', 'i', 'n', 't', 'r', 'i', 'n', 's', 'i', 'c', '>'],
        GValue::Func(_) => seq!['<', 'f', 'u', 'n', 'c', 't', 'i', 'o', 'n', '>'],
    }
}

/// The character of one decimal digit.
fn digit_char_exec(d: u64) -> (r: char)
    requires
        d < 10,
    ensures
        r == digit_char(d as nat),
{
    if d == 0 {
        '0'
    } else if d == 1 {
        '1'
    } else if d == 2 {
        '2'
    } else if d == 3 {
        '3'
    } else if d == 4 {
        '4'
    } else if d == 5 {
        '5'
    } else if d == 6 {
        '6'
    } else if d == 7 {
        '7'
    } else if d == 8 {
        '8'
    } else {
        '9'
    }
}

/// The decimal digits of a magnitude, most significant first.
#[verifier::loop_isolation(false)]
fn render_magnitude(m: u64) -> (r: Vec<char>)
    ensures
        r@ == dec_digits(m as nat),
{
    let ghost m0 = m as nat;
    if m == 0 {
        let out = vec!['0'];
        proof {
            assert(out@ =~= dec_digits(0));
        }
        return out;
    }
    let mut m = m;
    let mut rev: Vec<char> = Vec::new();
    let ghost mut suffix: Seq<char> = Seq::empty();
    loop
        invariant
            m > 0 ==> dec_digits(m0) == dec_digits(m as nat) + suffix,
            m == 0 ==> dec_digits(m0) == suffix,
            m == 0 ==> rev@.len() >= 1,
            rev@.len() == suffix.len(),
            forall|i: int| 0 <= i < rev@.len() ==> rev@[i] == suffix[suffix.len() - 1 - i],
        decreases m,
    {
        if m == 0 {
            break ;
        }
        let d = m % 10;
        let next = m / 10;
        let c = digit_char_exec(d);
        proof {
            let cur = m as nat;
            if cur >= 10 {
                assert(dec_digits(cur) == dec_digits(cur / 10).push(digit_char(cur % 10)));
                assert(dec_digits(cur / 10).push(digit_char(cur % 10)) + suffix =~= dec_digits(
                    cur / 10,
                ) + (seq![digit_char(cur % 10)] + suffix));
            } else {
                assert(dec_digits(cur) == seq![digit_char(cur)]);
                assert(dec_digits(cur) + suffix =~= seq![digit_char(cur)] + suffix);
            }
            suffix = seq![digit_char(d as nat)] + suffix;
        }
        rev.push(c);
        m = next;
    }
    let mut out: Vec<char> = Vec::new();
    let n = rev.len();
    let mut i: usize = 0;
    while i < n
        invariant
            i <= n,
            out@.len() == i as int,
            forall|j: int| 0 <= j < i ==> out@[j] == suffix[j],
        decreases n - i,
    {
        out.push(rev[n - 1 - i]);
        i += 1;
    }
    proof {
        assert(out@ =~= suffix);
    }
    out
}

/// Renders a value for display: the nil and boolean tags, an integer's
/// decimal form, and an opaque tag for either callable kind.
pub fn render_value(v: &LispValue) -> (r: Vec<char>)
    ensures
        r@ == spec_render(value_view(*v)),
{
    match v {
        LispValue::Nill => {
            let out = vec!['N', 'i', 'l', 'l'];
            proof {
                assert(out@ =~= spec_render(GValue::Nill));
            }
            out
        },
        LispValue::Bool(true) => {
            let out = vec!['t', 'r', 'u', 'e'];
            proof {
                assert(out@ =~= spec_render(GValue::Bool(true)));
            }
            out
        },
        LispValue::Bool(false) => {
            let out = vec!['f', 'a', 'l', 's', 'e'];
            proof {
                assert(out@ =~= spec_render(GValue::Bool(false)));
            }
            out
        },
        LispValue::Intrinsic(op) => {
            let out = vec!['<', 'i', 'n', 't', 'r', 'i', 'n', 's', 'i', 'c', '>'];
            proof {
                assert(out@ =~= spec_render(GValue::Intrinsic(*op)));
            }
            out
        },
        LispValue::Func(f) => {
            let out = vec!['<', 'f', 'u', 'n', 'c', 't', 'i', 'o', 'n', '>'];
            proof {
                assert(out@ =~= spec_render(GValue::Func(func_view(*f))));
            }
            out
        },
        LispValue::Int(n) => {
            if *n >= 0 {
                render_magnitude(*n as u64)
            } else {
                let t = -(*n + 1);
                let m = (t as u64) + 1;
                proof {
                    assert(m as nat == (-(*n as int)) as nat);
                }
                let digits = render_magnitude(m);
                let mut out: Vec<char> = vec!['-'];
                let mut i: usize = 0;
                while i < digits.len()
                    invariant
                        i <= digits@.len(),
                        out@.len() == i + 1,
                        out@[0] == '-',
                        forall|j: int| 0 <= j < i ==> out@[j + 1] == digits@[j],
                    decreases digits@.len() - i,
                {
                    out.push(digits[i]);
                    i += 1;
                }
                proof {
                    assert(out@ =~= seq!['-'] + dec_digits((-(*n as int)) as nat));
                }
                out
            }
        },
    }
}

/// Copies a function value.
pub fn clone_func(f: &Func) -> (r: Func)
    ensures
        func_view(r) == func_view(*f),
{
    Func {
        name: clone_chars(&f.name),
        params: clone_names(&f.params),
        body: crate::ast::clone_exprs(&f.body),
        env: f.env,
    }
}

/// Copies a value.
pub fn clone_value(v: &LispValue) -> (r: LispValue)
    ensures
        value_view(r) == value_view(*v),
{
    match v {
        LispValue::Nill => LispValue::Nill,
        LispValue::Int(n) => LispValue::Int(*n),
        LispValue::Bool(b) => LispValue::Bool(*b),
        LispValue::Intrinsic(op) => LispValue::Intrinsic(*op),
        LispValue::Func(f) => LispValue::Func(clone_func(f)),
    }
}

} // verus!
