//! The evaluator: a recursive tree-walk over the expression tree against an
//! environment. A call form evaluates its callee and its arguments
//! left-to-right in the current frame, then either invokes an intrinsic on
//! the argument values or opens a fresh frame parented to the function
//! value's captured frame — never the caller's — and evaluates the body
//! there. Definitions always write the current frame. Every evaluation
//! carries fuel; exhausting it is an error, not a crash.
use vstd::prelude::*;

verus! {

use crate::ast::Atom;
use crate::ast::Expr;
use crate::ast::GExpr;
use crate::ast::GAtom;
use crate::ast::LowerError;
use crate::ast::expr_view;
use crate::ast::exprs_view;
use crate::ast::lemma_exprs_view;
use crate::ast::lower_program;
use crate::chars::clone_chars;
use crate::chars::chars_eq_str;
use crate::env::Env;
use crate::env::GFrame;
use crate::env::env_view;
use crate::env::env_lookup;
use crate::env::spec_env_set;
use crate::env::spec_global_frame;
use crate::grammar::lisp_grammar;
use crate::grammar::lisp_grammar_spec;
use crate::lexer::spec_lex;
use crate::lisp_value::Func;
use crate::lisp_value::GFunc;
use crate::lisp_value::GValue;
use crate::lisp_value::LispValue;
use crate::lisp_value::NativeOp;
use crate::lisp_value::func_view;
use crate::lisp_value::value_view;
use crate::lisp_value::clone_value;
use crate::parser::GParse;
use crate::parser::ParseError;
use crate::parser::Parser;
use crate::parser::PARSE_FUEL;
use crate::parser::spec_reduce;

/// The fuel handed to a whole evaluation: enough that no program that
/// finishes at all can exhaust it, while deep recursion fails cleanly
/// instead of never returning.
pub const EVAL_FUEL: u64 = u64::MAX;

/// An evaluation failure, scoped to one top-level expression.
#[derive(Debug)]
pub enum EvalError {
    /// An identifier is bound in no frame on the chain.
    Unbound(Vec<char>),
    /// The callee of a call form is neither an intrinsic nor a function.
    NotCallable,
    /// A call hands a function the wrong number of arguments.
    Arity { expected: usize, got: usize },
    /// The test of a conditional is not a boolean.
    NotBoolean,
    /// An arithmetic intrinsic met an argument that is not an integer.
    NotNumber,
    /// The comparison intrinsic met a value it does not compare.
    NotComparable,
    /// Division by zero.
    DivideByZero,
    /// An arithmetic result does not fit the machine integer.
    Overflow,
    /// The evaluation ran out of fuel.
    OutOfFuel,
}

/// The mathematical image of an evaluation failure.
pub enum GErr {
    Unbound(Seq<char>),
    NotCallable,
    Arity { expected: int, got: int },
    NotBoolean,
    NotNumber,
    NotComparable,
    DivideByZero,
    Overflow,
    OutOfFuel,
}

pub open spec fn err_view(e: EvalError) -> GErr {
    match e {
        EvalError::Unbound(s) => GErr::Unbound(s@),
        EvalError::NotCallable => GErr::NotCallable,
        EvalError::Arity { expected, got } => GErr::Arity {
            expected: expected as int,
            got: got as int,
        },
        EvalError::NotBoolean => GErr::NotBoolean,
        EvalError::NotNumber => GErr::NotNumber,
        EvalError::NotComparable => GErr::NotComparable,
        EvalError::DivideByZero => GErr::DivideByZero,
        EvalError::Overflow => GErr::Overflow,
        EvalError::OutOfFuel => GErr::OutOfFuel,
    }
}

pub open spec fn result_view(r: Result<LispValue, EvalError>) -> Result<GValue, GErr> {
    match r {
        Ok(v) => Ok(value_view(v)),
        Err(e) => Err(err_view(e)),
    }
}

pub open spec fn values_view(s: Seq<LispValue>) -> Seq<GValue> {
    s.map_values(|v: LispValue| value_view(v))
}

pub open spec fn results_view(s: Seq<Result<LispValue, EvalError>>) -> Seq<Result<GValue, GErr>> {
    s.map_values(|r: Result<LispValue, EvalError>| result_view(r))
}

/// The reserved identifier for truth.
pub open spec fn true_word() -> Seq<char> {
    seq!['t', 'r', 'u', 'e']
}

/// The reserved identifier for falsity.
pub open spec fn false_word() -> Seq<char> {
    seq!['f', 'a', 'l', 's', 'e']
}

/// Truncating division, rounding towards zero, as the machine division
/// instruction does.
pub open spec fn trunc_div(x: int, d: int) -> int {
    if x == 0 {
        0
    } else if x > 0 && d > 0 {
        x / d
    } else if x < 0 && d < 0 {
        ((x * -1) / (d * -1))
    } else if x < 0 {
        ((x * -1) / d) * -1
    } else {
        (x / (d * -1)) * -1
    }
}

/// One step of an arithmetic fold: the accumulator combined with the next
/// integer, or the failure that stops the fold.
pub open spec fn op_step(op: NativeOp, acc: int, v: int) -> Result<int, GErr> {
    match op {
        NativeOp::Add => if i64::MIN <= acc + v <= i64::MAX {
            Ok(acc + v)
        } else {
            Err(GErr::Overflow)
        },
        NativeOp::Sub => if i64::MIN <= acc - v <= i64::MAX {
            Ok(acc - v)
        } else {
            Err(GErr::Overflow)
        },
        NativeOp::Mul => if i64::MIN <= acc * v <= i64::MAX {
            Ok(acc * v)
        } else {
            Err(GErr::Overflow)
        },
        NativeOp::Div => if v == 0 {
            Err(GErr::DivideByZero)
        } else if i64::MIN <= trunc_div(acc, v) <= i64::MAX {
            Ok(trunc_div(acc, v))
        } else {
            Err(GErr::Overflow)
        },
        NativeOp::Eq => Ok(acc),
    }
}

/// Folds an arithmetic intrinsic over integer arguments, left to right; a
/// non-integer argument stops the fold.
pub open spec fn spec_fold(op: NativeOp, acc: int, vals: Seq<GValue>) -> Result<int, GErr>
    decreases vals,
{
    if vals.len() == 0 {
        Ok(acc)
    } else {
        match vals[0] {
            GValue::Int(v) => match op_step(op, acc, v) {
                Ok(a2) => spec_fold(op, a2, vals.drop_first()),
                Err(e) => Err(e),
            },
            _ => Err(GErr::NotNumber),
        }
    }
}

/// Whether every further argument equals the first; only integers and
/// booleans compare.
pub open spec fn spec_eq_rest(first: GValue, vals: Seq<GValue>) -> Result<bool, GErr>
    decreases vals,
{
    if vals.len() == 0 {
        Ok(true)
    } else if !(vals[0] is Int || vals[0] is Bool) {
        Err(GErr::NotComparable)
    } else {
        match spec_eq_rest(first, vals.drop_first()) {
            Ok(b) => Ok(b && vals[0] == first),
            Err(e) => Err(e),
        }
    }
}

/// What an intrinsic returns on a sequence of argument values. Addition and
/// multiplication fold from their identity; subtraction and division need at
/// least one argument, fold from the first, and on a single argument give
/// its negation or reciprocal; comparison holds when all arguments are equal
/// integers or booleans.
pub open spec fn spec_apply_native(op: NativeOp, vals: Seq<GValue>) -> Result<GValue, GErr> {
    match op {
        NativeOp::Add => match spec_fold(NativeOp::Add, 0, vals) {
            Ok(n) => Ok(GValue::Int(n)),
            Err(e) => Err(e),
        },
        NativeOp::Mul => match spec_fold(NativeOp::Mul, 1, vals) {
            Ok(n) => Ok(GValue::Int(n)),
            Err(e) => Err(e),
        },
        NativeOp::Sub => if vals.len() == 0 {
            Err(GErr::Arity { expected: 1, got: 0 })
        } else {
            match vals[0] {
                GValue::Int(v) => if vals.len() == 1 {
                    match op_step(NativeOp::Sub, 0, v) {
                        Ok(n) => Ok(GValue::Int(n)),
                        Err(e) => Err(e),
                    }
                } else {
                    match spec_fold(NativeOp::Sub, v, vals.drop_first()) {
                        Ok(n) => Ok(GValue::Int(n)),
                        Err(e) => Err(e),
                    }
                },
                _ => Err(GErr::NotNumber),
            }
        },
        NativeOp::Div => if vals.len() == 0 {
            Err(GErr::Arity { expected: 1, got: 0 })
        } else {
            match vals[0] {
                GValue::Int(v) => if vals.len() == 1 {
                    match op_step(NativeOp::Div, 1, v) {
                        Ok(n) => Ok(GValue::Int(n)),
                        Err(e) => Err(e),
                    }
                } else {
                    match spec_fold(NativeOp::Div, v, vals.drop_first()) {
                        Ok(n) => Ok(GValue::Int(n)),
                        Err(e) => Err(e),
                    }
                },
                _ => Err(GErr::NotNumber),
            }
        },
        NativeOp::Eq => if vals.len() == 0 {
            Ok(GValue::Bool(true))
        } else if !(vals[0] is Int || vals[0] is Bool) {
            Err(GErr::NotComparable)
        } else {
            match spec_eq_rest(vals[0], vals.drop_first()) {
                Ok(b) => Ok(GValue::Bool(b)),
                Err(e) => Err(e),
            }
        },
    }
}

/// The parameter bindings of one call, positionally.
pub open spec fn spec_bind(params: Seq<Seq<char>>, args: Seq<GValue>) -> Seq<(Seq<char>, GValue)>
    decreases params,
{
    if params.len() == 0 || args.len() == 0 {
        Seq::empty()
    } else {
        seq![(params[0], args[0])] + spec_bind(params.drop_first(), args.drop_first())
    }
}

/// The environment and result of evaluating one expression.
#[verifier::ext_equal]
pub struct GOut {
    pub env: Seq<GFrame>,
    pub result: Result<GValue, GErr>,
}

/// The environment and results of evaluating an argument sequence.
#[verifier::ext_equal]
pub struct GOuts {
    pub env: Seq<GFrame>,
    pub result: Result<Seq<GValue>, GErr>,
}

/// The environment and per-expression outcomes of a whole program.
#[verifier::ext_equal]
pub struct GProgOut {
    pub env: Seq<GFrame>,
    pub results: Seq<Result<GValue, GErr>>,
}

/// Evaluates one expression in frame `f`.
pub open spec fn spec_eval_expr(frames: Seq<GFrame>, f: int, e: GExpr, fuel: nat) -> GOut
    decreases fuel, 1nat, 0nat,
{
    if fuel == 0 {
        GOut { env: frames, result: Err(GErr::OutOfFuel) }
    } else {
        let fl = (fuel - 1) as nat;
        match e {
            GExpr::Atom(GAtom::Int(v)) => GOut {
                env: frames,
                result: if i64::MIN <= v <= i64::MAX {
                    Ok(GValue::Int(v))
                } else {
                    Err(GErr::Overflow)
                },
            },
            GExpr::Atom(GAtom::Id(s)) => GOut {
                env: frames,
                result: if s == true_word() {
                    Ok(GValue::Bool(true))
                } else if s == false_word() {
                    Ok(GValue::Bool(false))
                } else {
                    match env_lookup(frames, f, s) {
                        Some(v) => Ok(v),
                        None => Err(GErr::Unbound(s)),
                    }
                },
            },
            GExpr::List(items) => spec_eval_list(frames, f, items, fuel),
            GExpr::DefineFunction(name, params, body) => if 0 <= f < frames.len() {
                GOut {
                    env: spec_env_set(
                        frames,
                        f,
                        name,
                        GValue::Func(GFunc { name, params, body, env: f }),
                    ),
                    result: Ok(GValue::Nill),
                }
            } else {
                GOut { env: frames, result: Err(GErr::NotCallable) }
            },
            GExpr::DefineVariable(name, value) => {
                let r = spec_eval_expr(frames, f, *value, fl);
                match r.result {
                    Err(e2) => GOut { env: r.env, result: Err(e2) },
                    Ok(v) => if 0 <= f < r.env.len() {
                        GOut { env: spec_env_set(r.env, f, name, v), result: Ok(GValue::Nill) }
                    } else {
                        GOut { env: r.env, result: Err(GErr::NotCallable) }
                    },
                }
            },
            GExpr::If(c, t, els) => {
                let r = spec_eval_expr(frames, f, *c, fl);
                match r.result {
                    Err(e2) => GOut { env: r.env, result: Err(e2) },
                    Ok(GValue::Bool(true)) => spec_eval_expr(r.env, f, *t, fl),
                    Ok(GValue::Bool(false)) => match els {
                        Some(x) => spec_eval_expr(r.env, f, *x, fl),
                        None => GOut { env: r.env, result: Ok(GValue::Nill) },
                    },
                    Ok(_) => GOut { env: r.env, result: Err(GErr::NotBoolean) },
                }
            },
        }
    }
}

/// Evaluates a call form: empty is nil; otherwise the callee, then the
/// arguments left-to-right in the current frame, then the application.
pub open spec fn spec_eval_list(frames: Seq<GFrame>, f: int, items: Seq<GExpr>, fuel: nat) -> GOut
    decreases fuel, 0nat, 0nat,
{
    if fuel == 0 {
        GOut { env: frames, result: Err(GErr::OutOfFuel) }
    } else {
        let fl = (fuel - 1) as nat;
        if items.len() == 0 {
            GOut { env: frames, result: Ok(GValue::Nill) }
        } else {
            let head = spec_eval_expr(frames, f, items[0], fl);
            match head.result {
                Err(e2) => GOut { env: head.env, result: Err(e2) },
                Ok(hv) => {
                    let args = spec_eval_items(head.env, f, items.drop_first(), fl);
                    match args.result {
                        Err(e2) => GOut { env: args.env, result: Err(e2) },
                        Ok(vals) => match hv {
                            GValue::Intrinsic(op) => GOut {
                                env: args.env,
                                result: spec_apply_native(op, vals),
                            },
                            GValue::Func(gf) => spec_apply(args.env, gf, vals, fl),
                            _ => GOut { env: args.env, result: Err(GErr::NotCallable) },
                        },
                    }
                },
            }
        }
    }
}

/// Evaluates an expression sequence left-to-right, stopping at the first
/// failure.
pub open spec fn spec_eval_items(frames: Seq<GFrame>, f: int, items: Seq<GExpr>, fuel: nat) -> GOuts
    decreases fuel, 2nat, items.len(),
{
    if items.len() == 0 {
        GOuts { env: frames, result: Ok(Seq::empty()) }
    } else {
        let r = spec_eval_expr(frames, f, items[0], fuel);
        match r.result {
            Err(e2) => GOuts { env: r.env, result: Err(e2) },
            Ok(v) => {
                let rest = spec_eval_items(r.env, f, items.drop_first(), fuel);
                match rest.result {
                    Err(e2) => GOuts { env: rest.env, result: Err(e2) },
                    Ok(vs) => GOuts { env: rest.env, result: Ok(seq![v] + vs) },
                }
            },
        }
    }
}

/// Evaluates a function body in frame `f`: the expressions in order, the
/// last one's value; an empty body is nil.
pub open spec fn spec_eval_body(frames: Seq<GFrame>, f: int, body: Seq<GExpr>, fuel: nat) -> GOut
    decreases fuel, 2nat, body.len(),
{
    if body.len() == 0 {
        GOut { env: frames, result: Ok(GValue::Nill) }
    } else if body.len() == 1 {
        spec_eval_expr(frames, f, body[0], fuel)
    } else {
        let r = spec_eval_expr(frames, f, body[0], fuel);
        match r.result {
            Err(e2) => GOut { env: r.env, result: Err(e2) },
            Ok(_) => spec_eval_body(r.env, f, body.drop_first(), fuel),
        }
    }
}

/// Applies a function value: checks the arity, opens a fresh frame parented
/// to the function's captured frame, binds the parameters positionally, and
/// evaluates the body there.
pub open spec fn spec_apply(frames: Seq<GFrame>, gf: GFunc, args: Seq<GValue>, fuel: nat) -> GOut
    decreases fuel, 3nat, 0nat,
{
    if gf.params.len() != args.len() {
        GOut {
            env: frames,
            result: Err(GErr::Arity { expected: gf.params.len() as int, got: args.len() as int }),
        }
    } else {
        let nf = GFrame { bindings: spec_bind(gf.params, args), parent: Some(gf.env) };
        spec_eval_body(frames.push(nf), frames.len() as int, gf.body, fuel)
    }
}

/// Evaluates a whole program: each top-level expression in order, each
/// outcome kept in its slot, a failing expression never suppressing the
/// ones after it.
pub open spec fn spec_eval_program(
    frames: Seq<GFrame>,
    f: int,
    program: Seq<GExpr>,
    fuel: nat,
) -> GProgOut
    decreases program.len(),
{
    if program.len() == 0 {
        GProgOut { env: frames, results: Seq::empty() }
    } else {
        let r = spec_eval_expr(frames, f, program[0], fuel);
        let rest = spec_eval_program(r.env, f, program.drop_first(), fuel);
        GProgOut { env: rest.env, results: seq![r.result] + rest.results }
    }
}

/// Evaluating an expression in frame `f` grows the arena monotonically and
/// never touches an existing frame other than `f`.
pub proof fn lemma_eval_expr_frames(frames: Seq<GFrame>, f: int, e: GExpr, fuel: nat)
    ensures
        spec_eval_expr(frames, f, e, fuel).env.len() >= frames.len(),
        forall|j: int|
            0 <= j < frames.len() && j != f ==> spec_eval_expr(frames, f, e, fuel).env[j]
                == frames[j],
    decreases fuel, 1nat, 0nat,
{
    if fuel > 0 {
        let fl = (fuel - 1) as nat;
        match e {
            GExpr::List(items) => {
                lemma_eval_list_frames(frames, f, items, fuel);
            },
            GExpr::DefineVariable(name, value) => {
                lemma_eval_expr_frames(frames, f, *value, fl);
            },
            GExpr::If(c, t, els) => {
                lemma_eval_expr_frames(frames, f, *c, fl);
                let r = spec_eval_expr(frames, f, *c, fl);
                match r.result {
                    Ok(GValue::Bool(true)) => {
                        lemma_eval_expr_frames(r.env, f, *t, fl);
                    },
                    Ok(GValue::Bool(false)) => {
                        match els {
                            Some(x) => {
                                lemma_eval_expr_frames(r.env, f, *x, fl);
                            },
                            None => {},
                        }
                    },
                    _ => {},
                }
            },
            _ => {},
        }
    }
}

/// Evaluating a call form touches no existing frame but `f`.
pub proof fn lemma_eval_list_frames(frames: Seq<GFrame>, f: int, items: Seq<GExpr>, fuel: nat)
    ensures
        spec_eval_list(frames, f, items, fuel).env.len() >= frames.len(),
        forall|j: int|
            0 <= j < frames.len() && j != f ==> spec_eval_list(frames, f, items, fuel).env[j]
                == frames[j],
    decreases fuel, 0nat, 0nat,
{
    if fuel > 0 && items.len() > 0 {
        let fl = (fuel - 1) as nat;
        lemma_eval_expr_frames(frames, f, items[0], fl);
        let head = spec_eval_expr(frames, f, items[0], fl);
        match head.result {
            Ok(hv) => {
                lemma_eval_items_frames(head.env, f, items.drop_first(), fl);
                let args = spec_eval_items(head.env, f, items.drop_first(), fl);
                match args.result {
                    Ok(vals) => {
                        match hv {
                            GValue::Func(gf) => {
                                lemma_apply_frames(args.env, gf, vals, fl);
                            },
                            _ => {},
                        }
                    },
                    _ => {},
                }
            },
            _ => {},
        }
    }
}

/// Evaluating an argument sequence touches no existing frame but `f`.
pub proof fn lemma_eval_items_frames(frames: Seq<GFrame>, f: int, items: Seq<GExpr>, fuel: nat)
    ensures
        spec_eval_items(frames, f, items, fuel).env.len() >= frames.len(),
        forall|j: int|
            0 <= j < frames.len() && j != f ==> spec_eval_items(frames, f, items, fuel).env[j]
                == frames[j],
    decreases fuel, 2nat, items.len(),
{
    if items.len() > 0 {
        lemma_eval_expr_frames(frames, f, items[0], fuel);
        let r = spec_eval_expr(frames, f, items[0], fuel);
        match r.result {
            Ok(_) => {
                lemma_eval_items_frames(r.env, f, items.drop_first(), fuel);
            },
            _ => {},
        }
    }
}

/// Evaluating a body in frame `f` touches no existing frame but `f`.
pub proof fn lemma_eval_body_frames(frames: Seq<GFrame>, f: int, body: Seq<GExpr>, fuel: nat)
    ensures
        spec_eval_body(frames, f, body, fuel).env.len() >= frames.len(),
        forall|j: int|
            0 <= j < frames.len() && j != f ==> spec_eval_body(frames, f, body, fuel).env[j]
                == frames[j],
    decreases fuel, 2nat, body.len(),
{
    if body.len() == 1 {
        lemma_eval_expr_frames(frames, f, body[0], fuel);
    } else if body.len() > 1 {
        lemma_eval_expr_frames(frames, f, body[0], fuel);
        let r = spec_eval_expr(frames, f, body[0], fuel);
        match r.result {
            Ok(_) => {
                lemma_eval_body_frames(r.env, f, body.drop_first(), fuel);
            },
            _ => {},
        }
    }
}

/// Applying a function value leaves every frame that existed before the
/// call exactly as it was: whatever the body defines lands in the fresh
/// call frame, never in a frame the caller can see.
pub proof fn lemma_apply_frames(frames: Seq<GFrame>, gf: GFunc, args: Seq<GValue>, fuel: nat)
    ensures
        spec_apply(frames, gf, args, fuel).env.len() >= frames.len(),
        forall|j: int|
            0 <= j < frames.len() ==> spec_apply(frames, gf, args, fuel).env[j] == frames[j],
    decreases fuel, 3nat, 0nat,
{
    if gf.params.len() == args.len() {
        let nf = GFrame { bindings: spec_bind(gf.params, args), parent: Some(gf.env) };
        lemma_eval_body_frames(frames.push(nf), frames.len() as int, gf.body, fuel);
        let out = spec_eval_body(frames.push(nf), frames.len() as int, gf.body, fuel);
        assert(spec_apply(frames, gf, args, fuel) == out);
        assert forall|j: int| 0 <= j < frames.len() implies spec_apply(
            frames,
            gf,
            args,
            fuel,
        ).env[j] == frames[j] by {
            assert(out.env[j] == frames.push(nf)[j]);
            assert(frames.push(nf)[j] == frames[j]);
        }
    }
}

/// Name resolution from frame `f` reads only the frames up to `f`, so two
/// arenas that agree there resolve every name alike.
pub proof fn lemma_env_lookup_agree(a: Seq<GFrame>, b: Seq<GFrame>, f: int, name: Seq<char>)
    requires
        0 <= f < a.len(),
        f < b.len(),
        forall|j: int| 0 <= j <= f ==> a[j] == b[j],
    ensures
        env_lookup(a, f, name) == env_lookup(b, f, name),
    decreases f,
{
    match frame_lookup_of(a, f, name) {
        Some(_) => {},
        None => {
            match a[f].parent {
                Some(p) => {
                    if 0 <= p < f {
                        lemma_env_lookup_agree(a, b, p, name);
                    }
                },
                None => {},
            }
        },
    }
}

/// The newest binding of `name` in frame `f` of the arena.
pub open spec fn frame_lookup_of(frames: Seq<GFrame>, f: int, name: Seq<char>) -> Option<GValue> {
    crate::env::frame_lookup(frames[f].bindings, name)
}

/// A name visible before a call resolves to the same value after the call
/// returns: a variable defined inside a function body is invisible outside
/// the call.
pub proof fn lemma_call_preserves_visible_bindings(
    frames: Seq<GFrame>,
    gf: GFunc,
    args: Seq<GValue>,
    fuel: nat,
    f0: int,
    name: Seq<char>,
)
    requires
        0 <= f0 < frames.len(),
    ensures
        env_lookup(spec_apply(frames, gf, args, fuel).env, f0, name) == env_lookup(
            frames,
            f0,
            name,
        ),
{
    lemma_apply_frames(frames, gf, args, fuel);
    lemma_env_lookup_agree(spec_apply(frames, gf, args, fuel).env, frames, f0, name);
}

/// A free variable in a function body resolves against the function's
/// defining scope, not the caller's: a body that is one identifier, bound
/// neither as a parameter nor as a reserved boolean, evaluates to whatever
/// that identifier means in the captured frame's chain.
pub proof fn lemma_free_variable_uses_defining_scope(
    frames: Seq<GFrame>,
    gf: GFunc,
    args: Seq<GValue>,
    fuel: nat,
    x: Seq<char>,
)
    requires
        gf.params.len() == args.len(),
        gf.body == seq![GExpr::Atom(GAtom::Id(x))],
        x != true_word(),
        x != false_word(),
        crate::env::frame_lookup(spec_bind(gf.params, args), x) is None,
        fuel >= 1,
    ensures
        spec_apply(frames, gf, args, fuel).result == (match env_lookup(frames, gf.env, x) {
            Some(v) => Ok::<GValue, GErr>(v),
            None => Err::<GValue, GErr>(GErr::Unbound(x)),
        }),
{
    let nf = GFrame { bindings: spec_bind(gf.params, args), parent: Some(gf.env) };
    let frames2 = frames.push(nf);
    let f2 = frames.len() as int;
    assert(spec_apply(frames, gf, args, fuel) == spec_eval_body(frames2, f2, gf.body, fuel));
    assert(spec_eval_body(frames2, f2, gf.body, fuel) == spec_eval_expr(
        frames2,
        f2,
        gf.body[0],
        fuel,
    ));
    assert(spec_eval_expr(frames2, f2, gf.body[0], fuel).result == spec_eval_atom(
        frames2,
        f2,
        GAtom::Id(x),
    ));
    assert(frames2[f2] == nf);
    if 0 <= gf.env < f2 {
        lemma_env_lookup_agree(frames2, frames, gf.env, x);
        assert(env_lookup(frames2, f2, x) == env_lookup(frames, gf.env, x));
    } else {
        assert(env_lookup(frames2, f2, x) is None);
        assert(env_lookup(frames, gf.env, x) is None);
    }
}

/// Error isolation: a program's outcome sequence has one slot per top-level
/// expression, and each slot holds exactly the evaluation of its own
/// expression in the environment its predecessors left behind — an earlier
/// failure never suppresses a later result.
pub proof fn lemma_program_error_isolation(
    frames: Seq<GFrame>,
    f: int,
    program: Seq<GExpr>,
    fuel: nat,
)
    ensures
        spec_eval_program(frames, f, program, fuel).results.len() == program.len(),
        forall|i: int|
            0 <= i < program.len() ==> spec_eval_program(frames, f, program, fuel).results[i]
                == spec_eval_expr(
                spec_eval_program(frames, f, program.take(i), fuel).env,
                f,
                program[i],
                fuel,
            ).result,
    decreases program.len(),
{
    if program.len() > 0 {
        let r = spec_eval_expr(frames, f, program[0], fuel);
        lemma_program_error_isolation(r.env, f, program.drop_first(), fuel);
        assert(program.take(0) =~= Seq::<GExpr>::empty());
        assert forall|i: int|
            0 <= i < program.len() implies spec_eval_program(frames, f, program, fuel).results[i]
            == spec_eval_expr(
            spec_eval_program(frames, f, program.take(i), fuel).env,
            f,
            program[i],
            fuel,
        ).result by {
            if i > 0 {
                let rest = program.drop_first();
                assert(rest.take(i - 1) =~= program.take(i).drop_first());
                assert(program.take(i)[0] == program[0]);
                assert(spec_eval_program(frames, f, program.take(i), fuel).env
                    == spec_eval_program(r.env, f, rest.take(i - 1), fuel).env);
                assert(rest[i - 1] == program[i]);
            }
        }
    }
}

/// A failure of the front end: the whole request dies before any expression
/// is evaluated.
#[derive(Debug, Clone, Copy, PartialEq, Eq, Structural)]
pub enum ProgramError {
    Parse(ParseError),
    Lower(LowerError),
}

/// What the front end makes of a source text: its top-level expressions, or
/// the lexing, parsing or lowering failure that aborts the request.
pub open spec fn spec_front(src: Seq<char>) -> Result<Seq<GExpr>, ProgramError> {
    match spec_lex(src) {
        Err(p) => Err(
            ProgramError::Parse(ParseError::Lex { position: p as usize, fragment: src[p] }),
        ),
        Ok(gtoks) => match spec_reduce(lisp_grammar_spec(), gtoks, 0, 0, PARSE_FUEL as nat) {
            GParse::Done { node, next } => if next == gtoks.len() {
                match crate::ast::spec_lower_program(node) {
                    Ok(ges) => Ok(ges),
                    Err(le) => Err(ProgramError::Lower(le)),
                }
            } else {
                Err(
                    ProgramError::Parse(
                        ParseError::Syntax { nonterminal: 0, position: next as usize },
                    ),
                )
            },
            GParse::Fail => Err(
                ProgramError::Parse(ParseError::Syntax { nonterminal: 0, position: 0 }),
            ),
            GParse::Short => Err(ProgramError::Parse(ParseError::Exhausted)),
            GParse::BadNum { pos } => Err(
                ProgramError::Parse(ParseError::Number { position: pos as usize }),
            ),
        },
    }
}

/// Evaluates a literal or a name: integers and the reserved boolean
/// identifiers yield themselves; any other identifier resolves against the
/// frame chain.
pub open spec fn spec_eval_atom(frames: Seq<GFrame>, f: int, a: GAtom) -> Result<GValue, GErr> {
    match a {
        GAtom::Int(v) => if i64::MIN <= v <= i64::MAX {
            Ok(GValue::Int(v))
        } else {
            Err(GErr::Overflow)
        },
        GAtom::Id(s) => if s == true_word() {
            Ok(GValue::Bool(true))
        } else if s == false_word() {
            Ok(GValue::Bool(false))
        } else {
            match env_lookup(frames, f, s) {
                Some(v) => Ok(v),
                None => Err(GErr::Unbound(s)),
            }
        },
    }
}

/// Prefixing already-evaluated argument values onto the outcome of the rest.
pub open spec fn items_prepend(vs: Seq<GValue>, o: GOuts) -> GOuts {
    match o.result {
        Ok(rest) => GOuts { env: o.env, result: Ok(vs + rest) },
        Err(_) => o,
    }
}

/// Prefixing already-collected outcomes onto the rest of a program's
/// outcomes.
pub open spec fn prog_prepend(rs: Seq<Result<GValue, GErr>>, o: GProgOut) -> GProgOut {
    GProgOut { env: o.env, results: rs + o.results }
}

/// The positional bindings, element by element.
pub proof fn lemma_spec_bind(params: Seq<Seq<char>>, args: Seq<GValue>)
    ensures
        spec_bind(params, args).len() == if params.len() <= args.len() {
            params.len()
        } else {
            args.len()
        },
        forall|i: int|
            0 <= i < spec_bind(params, args).len() ==> spec_bind(params, args)[i] == (
            params[i],
            args[i],
            ),
    decreases params,
{
    if params.len() > 0 && args.len() > 0 {
        lemma_spec_bind(params.drop_first(), args.drop_first());
    }
}

/// One arithmetic fold step at a time, from `acc` over the arguments from
/// index `from` on.
#[verifier::loop_isolation(false)]
fn fold_exec(op: NativeOp, acc: i64, args: &Vec<LispValue>, from: usize) -> (r: Result<
    i64,
    EvalError,
>)
    requires
        from <= args@.len(),
    ensures
        match r {
            Ok(n) => spec_fold(op, acc as int, values_view(args@).skip(from as int)) == Ok::<
                int,
                GErr,
            >(n as int),
            Err(e) => spec_fold(op, acc as int, values_view(args@).skip(from as int)) == Err::<
                int,
                GErr,
            >(err_view(e)),
        },
{
    let ghost vals = values_view(args@);
    let ghost acc0 = acc;
    let mut acc = acc;
    let mut i: usize = from;
    while i < args.len()
        invariant
            from <= i <= args@.len(),
            spec_fold(op, acc0 as int, vals.skip(from as int)) == spec_fold(
                op,
                acc as int,
                vals.skip(i as int),
            ),
        decreases args@.len() - i,
    {
        let ghost tail = vals.skip(i as int);
        proof {
            assert(tail[0] == vals[i as int]);
            assert(tail.drop_first() =~= vals.skip(i as int + 1));
        }
        match &args[i] {
            LispValue::Int(v) => {
                let step: Option<i64> = match op {
                    NativeOp::Add => acc.checked_add(*v),
                    NativeOp::Sub => acc.checked_sub(*v),
                    NativeOp::Mul => acc.checked_mul(*v),
                    NativeOp::Div => {
                        if *v == 0 {
                            return Err(EvalError::DivideByZero);
                        }
                        acc.checked_div(*v)
                    },
                    NativeOp::Eq => Some(acc),
                };
                match step {
                    Some(a2) => {
                        acc = a2;
                    },
                    None => {
                        return Err(EvalError::Overflow);
                    },
                }
            },
            _ => {
                return Err(EvalError::NotNumber);
            },
        }
        i += 1;
    }
    proof {
        assert(vals.skip(args@.len() as int) =~= Seq::<GValue>::empty());
    }
    Ok(acc)
}

/// Invokes an intrinsic on evaluated argument values.
#[verifier::loop_isolation(false)]
pub fn apply_native(op: NativeOp, args: &Vec<LispValue>) -> (r: Result<LispValue, EvalError>)
    ensures
        result_view(r) == spec_apply_native(op, values_view(args@)),
{
    let ghost vals = values_view(args@);
    proof {
        assert(vals.skip(0) =~= vals);
    }
    match op {
        NativeOp::Add => match fold_exec(NativeOp::Add, 0, args, 0) {
            Ok(n) => Ok(LispValue::Int(n)),
            Err(e) => Err(e),
        },
        NativeOp::Mul => match fold_exec(NativeOp::Mul, 1, args, 0) {
            Ok(n) => Ok(LispValue::Int(n)),
            Err(e) => Err(e),
        },
        NativeOp::Sub => {
            if args.len() == 0 {
                return Err(EvalError::Arity { expected: 1, got: 0 });
            }
            proof {
                assert(vals.skip(1)
                    =~= values_view(args@).skip(1));
            }
            match &args[0] {
                LispValue::Int(v) => {
                    if args.len() == 1 {
                        match 0i64.checked_sub(*v) {
                            Some(n) => Ok(LispValue::Int(n)),
                            None => Err(EvalError::Overflow),
                        }
                    } else {
                        match fold_exec(NativeOp::Sub, *v, args, 1) {
                            Ok(n) => Ok(LispValue::Int(n)),
                            Err(e) => Err(e),
                        }
                    }
                },
                _ => Err(EvalError::NotNumber),
            }
        },
        NativeOp::Div => {
            if args.len() == 0 {
                return Err(EvalError::Arity { expected: 1, got: 0 });
            }
            match &args[0] {
                LispValue::Int(v) => {
                    if args.len() == 1 {
                        if *v == 0 {
                            return Err(EvalError::DivideByZero);
                        }
                        match 1i64.checked_div(*v) {
                            Some(n) => Ok(LispValue::Int(n)),
                            None => Err(EvalError::Overflow),
                        }
                    } else {
                        match fold_exec(NativeOp::Div, *v, args, 1) {
                            Ok(n) => Ok(LispValue::Int(n)),
                            Err(e) => Err(e),
                        }
                    }
                },
                _ => Err(EvalError::NotNumber),
            }
        },
        NativeOp::Eq => {
            if args.len() == 0 {
                return Ok(LispValue::Bool(true));
            }
            let comparable = match &args[0] {
                LispValue::Int(_) => true,
                LispValue::Bool(_) => true,
                _ => false,
            };
            if !comparable {
                return Err(EvalError::NotComparable);
            }
            let mut all_eq = true;
            let mut i: usize = 1;
            while i < args.len()
                invariant
                    1 <= i <= args@.len(),
                    match spec_eq_rest(vals[0], vals.skip(i as int)) {
                        Ok(b) => spec_eq_rest(vals[0], vals.skip(1)) == Ok::<bool, GErr>(
                            all_eq && b,
                        ),
                        Err(e) => spec_eq_rest(vals[0], vals.skip(1)) == Err::<bool, GErr>(e),
                    },
                decreases args@.len() - i,
            {
                let ghost tail = vals.skip(i as int);
                proof {
                    assert(tail[0] == vals[i as int]);
                    assert(tail.drop_first() =~= vals.skip(i as int + 1));
                }
                let cur_ok = match &args[i] {
                    LispValue::Int(_) => true,
                    LispValue::Bool(_) => true,
                    _ => false,
                };
                if !cur_ok {
                    return Err(EvalError::NotComparable);
                }
                let cur_eq = match (&args[0], &args[i]) {
                    (LispValue::Int(a), LispValue::Int(b)) => *a == *b,
                    (LispValue::Bool(a), LispValue::Bool(b)) => *a == *b,
                    _ => false,
                };
                all_eq = all_eq && cur_eq;
                i += 1;
            }
            proof {
                assert(vals.skip(args@.len() as int) =~= Seq::<GValue>::empty());
            }
            Ok(LispValue::Bool(all_eq))
        },
    }
}

/// Evaluates a literal or an identifier against the frame chain.
pub fn eval_atom(atom: &Atom, env: &Env, frame: usize) -> (r: Result<LispValue, EvalError>)
    ensures
        result_view(r) == spec_eval_atom(env_view(*env), frame as int, crate::ast::atom_view(*atom)),
{
    match atom {
        Atom::Int(v) => Ok(LispValue::Int(*v)),
        Atom::Id(s) => {
            proof {
                reveal_strlit("true");
                reveal_strlit("false");
                assert("true"@ =~= true_word());
                assert("false"@ =~= false_word());
            }
            if chars_eq_str(s, "true") {
                Ok(LispValue::Bool(true))
            } else if chars_eq_str(s, "false") {
                Ok(LispValue::Bool(false))
            } else {
                match env.get(frame, s) {
                    Some(v) => Ok(v),
                    None => Err(EvalError::Unbound(clone_chars(s))),
                }
            }
        },
    }
}

/// Builds a function value capturing the current frame and binds it under
/// its name in that same frame.
pub fn eval_define_function(
    fn_name: Vec<char>,
    arg_names: Vec<Vec<char>>,
    body: Vec<Expr>,
    env: &mut Env,
    frame: usize,
) -> (r: Result<LispValue, EvalError>)
    ensures
        ({
            let out = spec_eval_expr(
                env_view(*old(env)),
                frame as int,
                GExpr::DefineFunction(
                    fn_name@,
                    crate::ast::names_view(arg_names@),
                    exprs_view(body@),
                ),
                1,
            );
            env_view(*final(env)) == out.env && result_view(r) == out.result
        }),
{
    let key = clone_chars(&fn_name);
    let func = Func::new(fn_name, arg_names, body, frame);
    if env.set(frame, key, LispValue::Func(func)) {
        Ok(LispValue::Nill)
    } else {
        Err(EvalError::NotCallable)
    }
}

/// Evaluates the value expression in the current frame and binds the result
/// under the name in that same frame, never an ancestor.
pub fn eval_define_variable(
    var_name: &Vec<char>,
    var_value: &Expr,
    env: &mut Env,
    frame: usize,
    fuel: u64,
) -> (r: Result<LispValue, EvalError>)
    ensures
        ({
            let out = spec_eval_expr(
                env_view(*old(env)),
                frame as int,
                expr_view(*var_value),
                fuel as nat,
            );
            match out.result {
                Err(e2) => env_view(*final(env)) == out.env && result_view(r) == Err::<
                    GValue,
                    GErr,
                >(e2),
                Ok(v) => if 0 <= frame < out.env.len() {
                    env_view(*final(env)) == spec_env_set(out.env, frame as int, var_name@, v)
                        && result_view(r) == Ok::<GValue, GErr>(GValue::Nill)
                } else {
                    env_view(*final(env)) == out.env && result_view(r) == Err::<GValue, GErr>(
                        GErr::NotCallable,
                    )
                },
            }
        }),
    decreases fuel, 2int,
{
    match eval_expression(var_value, env, frame, fuel) {
        Ok(value) => {
            if env.set(frame, clone_chars(var_name), value) {
                Ok(LispValue::Nill)
            } else {
                Err(EvalError::NotCallable)
            }
        },
        Err(e) => Err(e),
    }
}

/// Evaluates the test, which must reduce to a boolean, then exactly one
/// branch; a false test with no else-branch is nil.
pub fn eval_if(
    cond: &Expr,
    positive: &Expr,
    negative: &Option<Box<Expr>>,
    env: &mut Env,
    frame: usize,
    fuel: u64,
) -> (r: Result<LispValue, EvalError>)
    ensures
        ({
            let c = spec_eval_expr(env_view(*old(env)), frame as int, expr_view(*cond), fuel as nat);
            match c.result {
                Err(e2) => env_view(*final(env)) == c.env && result_view(r) == Err::<GValue, GErr>(
                    e2,
                ),
                Ok(GValue::Bool(true)) => ({
                    let out = spec_eval_expr(c.env, frame as int, expr_view(*positive), fuel as nat);
                    env_view(*final(env)) == out.env && result_view(r) == out.result
                }),
                Ok(GValue::Bool(false)) => match negative {
                    Some(x) => ({
                        let out = spec_eval_expr(c.env, frame as int, expr_view(**x), fuel as nat);
                        env_view(*final(env)) == out.env && result_view(r) == out.result
                    }),
                    None => env_view(*final(env)) == c.env && result_view(r) == Ok::<GValue, GErr>(
                        GValue::Nill,
                    ),
                },
                Ok(_) => env_view(*final(env)) == c.env && result_view(r) == Err::<GValue, GErr>(
                    GErr::NotBoolean,
                ),
            }
        }),
    decreases fuel, 2int,
{
    let cond_value = match eval_expression(cond, env, frame, fuel) {
        Ok(v) => v,
        Err(e) => {
            return Err(e);
        },
    };
    match cond_value {
        LispValue::Bool(true) => eval_expression(positive, env, frame, fuel),
        LispValue::Bool(false) => match negative {
            Some(x) => eval_expression(x, env, frame, fuel),
            None => Ok(LispValue::Nill),
        },
        _ => Err(EvalError::NotBoolean),
    }
}

impl Func {
    /// Applies this function value: checks the arity, opens a fresh frame
    /// parented to the captured frame, binds the parameters positionally,
    /// and evaluates the body there, handing back the last expression's
    /// value.
    #[verifier::loop_isolation(false)]
    #[verifier::rlimit(60)]
    pub fn call(&self, args: Vec<LispValue>, env: &mut Env, fuel: u64) -> (r: Result<
        LispValue,
        EvalError,
    >)
        ensures
            ({
                let out = spec_apply(
                    env_view(*old(env)),
                    func_view(*self),
                    values_view(args@),
                    fuel as nat,
                );
                env_view(*final(env)) == out.env && result_view(r) == out.result
            }),
        decreases fuel, 3int,
    {
        let ghost ev0 = env_view(*old(env));
        let ghost gf = func_view(*self);
        let ghost gargs = values_view(args@);
        if self.params.len() != args.len() {
            return Err(
                EvalError::Arity { expected: self.params.len(), got: args.len() },
            );
        }
        let mut bindings: Vec<(Vec<char>, LispValue)> = Vec::new();
        let mut i: usize = 0;
        while i < args.len()
            invariant
                i <= args@.len(),
                bindings@.len() == i as int,
                forall|j: int|
                    0 <= j < i ==> crate::env::binding_view(#[trigger] bindings@[j]) == (
                    gf.params[j],
                    gargs[j],
                    ),
            decreases args@.len() - i,
        {
            let name = clone_chars(&self.params[i]);
            let value = clone_value(&args[i]);
            bindings.push((name, value));
            i += 1;
        }
        let new_frame = crate::env::Frame { bindings, parent: Some(self.env) };
        proof {
            lemma_spec_bind(gf.params, gargs);
            assert(crate::env::frame_view(new_frame).bindings =~= spec_bind(gf.params, gargs));
            assert(crate::env::frame_view(new_frame) =~~= (GFrame {
                bindings: spec_bind(gf.params, gargs),
                parent: Some(gf.env),
            }));
        }
        let nf = env.push_frame(new_frame);
        let ghost ev1 = env_view(*env);
        let ghost body = gf.body;
        proof {
            lemma_exprs_view(self.body@);
        }
        if self.body.len() == 0 {
            return Ok(LispValue::Nill);
        }
        proof {
            assert(body.skip(0) =~= body);
        }
        let mut j: usize = 0;
        while j + 1 < self.body.len()
            invariant
                j < self.body@.len(),
                spec_eval_body(ev1, nf as int, body, fuel as nat) == spec_eval_body(
                    env_view(*env),
                    nf as int,
                    body.skip(j as int),
                    fuel as nat,
                ),
            decreases self.body@.len() - j,
        {
            let ghost tail = body.skip(j as int);
            proof {
                assert(tail[0] == body[j as int]);
                assert(tail.drop_first() =~= body.skip(j as int + 1));
            }
            match eval_expression(&self.body[j], env, nf, fuel) {
                Ok(_) => {},
                Err(e) => {
                    return Err(e);
                },
            }
            j += 1;
        }
        let ghost tail = body.skip(j as int);
        proof {
            assert(tail.len() == 1);
            assert(tail[0] == body[j as int]);
        }
        eval_expression(&self.body[j], env, nf, fuel)
    }
}

/// Evaluates a call form: empty is nil; otherwise the callee, then each
/// argument left-to-right in the current frame, then the application.
#[verifier::loop_isolation(false)]
pub fn eval_list(list: &Vec<Expr>, env: &mut Env, frame: usize, fuel: u64) -> (r: Result<
    LispValue,
    EvalError,
>)
    ensures
        ({
            let out = spec_eval_list(
                env_view(*old(env)),
                frame as int,
                exprs_view(list@),
                fuel as nat,
            );
            env_view(*final(env)) == out.env && result_view(r) == out.result
        }),
    decreases fuel, 0int,
{
    let ghost ev0 = env_view(*old(env));
    let ghost items = exprs_view(list@);
    proof {
        lemma_exprs_view(list@);
    }
    if fuel == 0 {
        return Err(EvalError::OutOfFuel);
    }
    let fl = fuel - 1;
    if list.len() == 0 {
        return Ok(LispValue::Nill);
    }
    let hv = match eval_expression(&list[0], env, frame, fl) {
        Ok(v) => v,
        Err(e) => {
            return Err(e);
        },
    };
    let ghost ev_head = env_view(*env);
    let mut arg_values: Vec<LispValue> = Vec::new();
    proof {
        assert(items.drop_first() =~= items.skip(1));
        lemma_items_prepend_empty(
            spec_eval_items(ev_head, frame as int, items.skip(1), fl as nat),
        );
        assert(values_view(arg_values@) =~= Seq::<GValue>::empty());
    }
    let mut i: usize = 1;
    while i < list.len()
        invariant
            1 <= i <= list@.len(),
            spec_eval_items(ev_head, frame as int, items.skip(1), fl as nat) == items_prepend(
                values_view(arg_values@),
                spec_eval_items(env_view(*env), frame as int, items.skip(i as int), fl as nat),
            ),
        decreases list@.len() - i,
    {
        let ghost tail = items.skip(i as int);
        proof {
            assert(tail[0] == items[i as int]);
            assert(tail.drop_first() =~= items.skip(i as int + 1));
        }
        match eval_expression(&list[i], env, frame, fl) {
            Ok(v) => {
                let ghost old_vals = values_view(arg_values@);
                arg_values.push(v);
                proof {
                    assert(values_view(arg_values@) =~= old_vals.push(
                        value_view(arg_values@.last()),
                    ));
                    lemma_items_prepend_one(
                        old_vals,
                        value_view(arg_values@.last()),
                        spec_eval_items(
                            env_view(*env),
                            frame as int,
                            items.skip(i as int + 1),
                            fl as nat,
                        ),
                    );
                }
            },
            Err(e) => {
                return Err(e);
            },
        }
        i += 1;
    }
    proof {
        assert(items.skip(list@.len() as int) =~= Seq::<GExpr>::empty());
        assert(values_view(arg_values@) + Seq::<GValue>::empty() =~= values_view(arg_values@));
    }
    match hv {
        LispValue::Intrinsic(op) => apply_native(op, &arg_values),
        LispValue::Func(func) => func.call(arg_values, env, fl),
        _ => Err(EvalError::NotCallable),
    }
}

/// Prefixing no argument values changes nothing.
proof fn lemma_items_prepend_empty(o: GOuts)
    ensures
        items_prepend(Seq::empty(), o) == o,
{
    match o.result {
        Ok(rest) => {
            assert(Seq::empty() + rest =~= rest);
            assert(items_prepend(Seq::empty(), o) =~~= o);
        },
        Err(_) => {},
    }
}

/// Prefixing one more argument value commutes with prefixing the earlier
/// ones.
proof fn lemma_items_prepend_one(vs: Seq<GValue>, v: GValue, o: GOuts)
    ensures
        items_prepend(vs, items_prepend(seq![v], o)) == items_prepend(vs.push(v), o),
{
    match o.result {
        Ok(rest) => {
            assert(vs + (seq![v] + rest) =~= vs.push(v) + rest);
        },
        Err(_) => {},
    }
}

/// Evaluates one expression in frame `frame`, by dispatch on its variant.
pub fn eval_expression(expression: &Expr, env: &mut Env, frame: usize, fuel: u64) -> (r: Result<
    LispValue,
    EvalError,
>)
    ensures
        ({
            let out = spec_eval_expr(
                env_view(*old(env)),
                frame as int,
                expr_view(*expression),
                fuel as nat,
            );
            env_view(*final(env)) == out.env && result_view(r) == out.result
        }),
    decreases fuel, 1int,
{
    if fuel == 0 {
        return Err(EvalError::OutOfFuel);
    }
    let fl = fuel - 1;
    match expression {
        Expr::List(list) => eval_list(list, env, frame, fuel),
        Expr::Atom(atom) => eval_atom(atom, env, frame),
        Expr::DefineFunction(fn_name, arg_names, body) => eval_define_function(
            clone_chars(fn_name),
            crate::ast::clone_names(arg_names),
            crate::ast::clone_exprs(body),
            env,
            frame,
        ),
        Expr::DefineVariable(name, value) => eval_define_variable(name, value, env, frame, fl),
        Expr::If(cond, positive, negative) => eval_if(cond, positive, negative, env, frame, fl),
    }
}

/// Evaluates a whole program in order against one environment: each
/// top-level expression gets its own slot in the result sequence, and a
/// failing expression never suppresses the ones after it.
#[verifier::loop_isolation(false)]
pub fn eval_program(program: &Vec<Expr>, env: &mut Env, frame: usize, fuel: u64) -> (rs: Vec<
    Result<LispValue, EvalError>,
>)
    ensures
        ({
            let out = spec_eval_program(
                env_view(*old(env)),
                frame as int,
                exprs_view(program@),
                fuel as nat,
            );
            env_view(*final(env)) == out.env && results_view(rs@) == out.results
        }),
        rs@.len() == program@.len(),
{
    let ghost ev0 = env_view(*old(env));
    let ghost ges = exprs_view(program@);
    proof {
        lemma_exprs_view(program@);
        assert(ges.skip(0) =~= ges);
    }
    let mut rs: Vec<Result<LispValue, EvalError>> = Vec::new();
    proof {
        let o = spec_eval_program(ev0, frame as int, ges, fuel as nat);
        assert(results_view(rs@) + o.results =~= o.results);
        assert(prog_prepend(results_view(rs@), o) =~~= o);
    }
    let mut i: usize = 0;
    while i < program.len()
        invariant
            i <= program@.len(),
            rs@.len() == i as int,
            spec_eval_program(ev0, frame as int, ges, fuel as nat) == prog_prepend(
                results_view(rs@),
                spec_eval_program(
                    env_view(*env),
                    frame as int,
                    ges.skip(i as int),
                    fuel as nat,
                ),
            ),
        decreases program@.len() - i,
    {
        let ghost tail = ges.skip(i as int);
        proof {
            assert(tail[0] == ges[i as int]);
            assert(tail.drop_first() =~= ges.skip(i as int + 1));
        }
        let r = eval_expression(&program[i], env, frame, fuel);
        let ghost old_rs = results_view(rs@);
        rs.push(r);
        proof {
            assert(results_view(rs@) =~= old_rs.push(result_view(rs@.last())));
            let o = spec_eval_program(
                env_view(*env),
                frame as int,
                ges.skip(i as int + 1),
                fuel as nat,
            );
            assert(old_rs + (seq![result_view(rs@.last())] + o.results) =~= results_view(rs@)
                + o.results);
        }
        i += 1;
    }
    proof {
        assert(ges.skip(program@.len() as int) =~= Seq::<GExpr>::empty());
        let o = spec_eval_program(env_view(*env), frame as int, Seq::empty(), fuel as nat);
        assert(results_view(rs@) + o.results =~= results_view(rs@));
    }
    rs
}

/// Evaluates a source text from scratch: lexes and parses it whole, lowers
/// the parse tree, and only then evaluates each top-level expression in a
/// fresh global environment. A front-end failure aborts the request before
/// any expression runs; an evaluation failure fills only its own slot.
pub fn eval(source: &str) -> (r: Result<Vec<Result<LispValue, EvalError>>, ProgramError>)
    ensures
        match spec_front(source@) {
            Ok(ges) => r matches Ok(rs) && ({
                let out = spec_eval_program(
                    seq![spec_global_frame()],
                    0,
                    ges,
                    EVAL_FUEL as nat,
                );
                results_view(rs@) == out.results
            }),
            Err(pe) => r matches Err(e) && e == pe,
        },
{
    let g = lisp_grammar();
    let mut parser = Parser::new();
    let node = match parser.parse(&g, source) {
        Ok(node) => node,
        Err(e) => {
            return Err(ProgramError::Parse(e));
        },
    };
    let exprs = match lower_program(&node) {
        Ok(exprs) => exprs,
        Err(le) => {
            return Err(ProgramError::Lower(le));
        },
    };
    let mut env = Env::new_global();
    let rs = eval_program(&exprs, &mut env, 0, EVAL_FUEL);
    Ok(rs)
}

} // verus!
