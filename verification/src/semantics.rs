//! The meaning of programs, written as specification functions: operator
//! semantics, expression evaluation, statement execution, and the laws the
//! evaluator preserves (growth of the environment, well-formedness).
//!
//! Arithmetic is two's-complement wrapping arithmetic on 64-bit integers;
//! division and modulus truncate toward zero and reject a zero divisor.
//! Logical operators evaluate every argument; conditionals evaluate only
//! the chosen branch.  Recursion draws on a call-depth budget (`fuel`);
//! when it runs out the evaluation reports resource exhaustion, standing
//! for the host's call-stack limit.

use vstd::prelude::*;

verus! {

use crate::ast::{exp_text, exp_wf, stmt_wf, Exp, LogicalOp, NumOp, PrintType, Program, Stmt};
use crate::env::{
    kind_of, to_bool_s, to_num_s, val_wf, EnvModel, ErrorModel, ValueKind, ValueModel,
};
use crate::text::{bool_token, int_text};

/// The outcome of evaluating one construct: a result or an error, the
/// environment after it, and the text it appended to the output sink.
#[verifier::ext_equal]
pub struct Outcome<T> {
    pub res: Result<T, ErrorModel>,
    pub env: EnvModel,
    pub out: Seq<char>,
}

/// A 64-bit two's-complement wrap of an unbounded integer.
pub open spec fn wrap_i64(x: int) -> i64 {
    vstd::wrapping::i64_specs::signed_crop(x)
}

/// The wrapping sum of a list, folded left to right from zero.
pub open spec fn sum_w(ns: Seq<i64>) -> i64
    decreases ns.len(),
{
    if ns.len() == 0 {
        0
    } else {
        wrap_i64(sum_w(ns.drop_last()) + ns.last())
    }
}

/// The wrapping product of a list, folded left to right from one.
pub open spec fn prod_w(ns: Seq<i64>) -> i64
    decreases ns.len(),
{
    if ns.len() == 0 {
        1
    } else {
        wrap_i64(prod_w(ns.drop_last()) * ns.last())
    }
}

/// The magnitude of an integer.
pub open spec fn abs_i(a: int) -> int {
    if a < 0 {
        -a
    } else {
        a
    }
}

/// Truncating (toward-zero) division, as the host's integer division.
pub open spec fn trunc_div(a: int, b: int) -> int
    recommends
        b != 0,
{
    let q = abs_i(a) / abs_i(b);
    if (a < 0) != (b < 0) {
        -q
    } else {
        q
    }
}

/// Truncating remainder: the sign follows the dividend.
pub open spec fn trunc_rem(a: int, b: int) -> int
    recommends
        b != 0,
{
    let r = abs_i(a) % abs_i(b);
    if a < 0 {
        -r
    } else {
        r
    }
}

/// What an arithmetic or comparison operator yields on coerced integer
/// arguments.  `+` and `*` fold over the whole list and need at least one
/// argument; the remaining operators are strictly binary, and an argument
/// list of another length is an arity error.  A zero divisor is an error;
/// the one overflowing quotient wraps.
pub open spec fn apply_num_op(op: NumOp, ns: Seq<i64>) -> Result<ValueModel, ErrorModel> {
    match op {
        NumOp::Plus => if ns.len() >= 1 {
            Ok(ValueModel::Num(sum_w(ns)))
        } else {
            Err(ErrorModel::ArityMismatch)
        },
        NumOp::Multiply => if ns.len() >= 1 {
            Ok(ValueModel::Num(prod_w(ns)))
        } else {
            Err(ErrorModel::ArityMismatch)
        },
        NumOp::Minus => if ns.len() == 2 {
            Ok(ValueModel::Num(wrap_i64(ns[0] - ns[1])))
        } else {
            Err(ErrorModel::ArityMismatch)
        },
        NumOp::Divide => if ns.len() == 2 {
            if ns[1] == 0 {
                Err(ErrorModel::DivisionByZero)
            } else {
                Ok(ValueModel::Num(wrap_i64(trunc_div(ns[0] as int, ns[1] as int))))
            }
        } else {
            Err(ErrorModel::ArityMismatch)
        },
        NumOp::Modulus => if ns.len() == 2 {
            if ns[1] == 0 {
                Err(ErrorModel::DivisionByZero)
            } else {
                Ok(ValueModel::Num(wrap_i64(trunc_rem(ns[0] as int, ns[1] as int))))
            }
        } else {
            Err(ErrorModel::ArityMismatch)
        },
        NumOp::Greater => if ns.len() == 2 {
            Ok(ValueModel::Bool(ns[0] > ns[1]))
        } else {
            Err(ErrorModel::ArityMismatch)
        },
        NumOp::Smaller => if ns.len() == 2 {
            Ok(ValueModel::Bool(ns[0] < ns[1]))
        } else {
            Err(ErrorModel::ArityMismatch)
        },
        NumOp::Equal => if ns.len() == 2 {
            Ok(ValueModel::Bool(ns[0] == ns[1]))
        } else {
            Err(ErrorModel::ArityMismatch)
        },
    }
}

/// Whether every element of a list is true.
pub open spec fn all_true(bs: Seq<bool>) -> bool {
    forall|i: int| 0 <= i < bs.len() ==> bs[i]
}

/// Whether some element of a list is true.
pub open spec fn any_true(bs: Seq<bool>) -> bool {
    exists|i: int| 0 <= i < bs.len() && bs[i]
}

/// What a logical operator yields on coerced boolean arguments.  `and` and
/// `or` fold over the whole list; `not` takes exactly one argument.
pub open spec fn apply_logical_op(op: LogicalOp, bs: Seq<bool>) -> Result<ValueModel, ErrorModel> {
    match op {
        LogicalOp::And => Ok(ValueModel::Bool(all_true(bs))),
        LogicalOp::Or => Ok(ValueModel::Bool(any_true(bs))),
        LogicalOp::Not => if bs.len() == 1 {
            Ok(ValueModel::Bool(!bs[0]))
        } else {
            Err(ErrorModel::ArityMismatch)
        },
    }
}

/// The names of a function literal's parameters.
pub open spec fn param_names(params: Seq<Exp>) -> Seq<Seq<char>> {
    params.map_values(|p: Exp| exp_text(p))
}

/// Binds the first `n` of `params` to the corresponding `vals`, in order,
/// in frame `frame`.
pub open spec fn bind_params_s(
    env: EnvModel,
    frame: int,
    params: Seq<Seq<char>>,
    vals: Seq<ValueModel>,
    n: int,
) -> EnvModel
    decreases n,
{
    if n <= 0 || n > params.len() || n > vals.len() {
        env
    } else {
        bind_params_s(env, frame, params, vals, n - 1).bind(frame, params[n - 1], vals[n - 1])
    }
}

/// Evaluates an expression against frame `frame` of `env`.
pub open spec fn eval_exp_s(e: Exp, env: EnvModel, frame: int, fuel: nat) -> Outcome<ValueModel>
    decreases fuel, e, 0nat,
{
    match e {
        Exp::Bool(b) => Outcome { res: Ok(ValueModel::Bool(b)), env, out: Seq::empty() },
        Exp::Num(n) => Outcome { res: Ok(ValueModel::Num(n)), env, out: Seq::empty() },
        Exp::Id(s) => match env.lookup(frame, s@) {
            Some(v) => Outcome { res: Ok(v), env, out: Seq::empty() },
            None => Outcome { res: Err(ErrorModel::UnboundVariable(s@)), env, out: Seq::empty() },
        },
        Exp::NumExp { op, args } => {
            let o = eval_nums_s(args@, args@.len() as int, env, frame, fuel);
            match o.res {
                Ok(ns) => Outcome { res: apply_num_op(op, ns), env: o.env, out: o.out },
                Err(er) => Outcome { res: Err(er), env: o.env, out: o.out },
            }
        },
        Exp::LogicalExp { op, args } => {
            let o = eval_bools_s(args@, args@.len() as int, env, frame, fuel);
            match o.res {
                Ok(bs) => Outcome { res: apply_logical_op(op, bs), env: o.env, out: o.out },
                Err(er) => Outcome { res: Err(er), env: o.env, out: o.out },
            }
        },
        Exp::IfExp { cond_exp, then_exp, else_exp } => {
            let co = eval_exp_s(*cond_exp, env, frame, fuel);
            match co.res {
                Ok(v) => match to_bool_s(v) {
                    Ok(b) => {
                        let bo = eval_exp_s(
                            if b {
                                *then_exp
                            } else {
                                *else_exp
                            },
                            co.env,
                            frame,
                            fuel,
                        );
                        Outcome { res: bo.res, env: bo.env, out: co.out + bo.out }
                    },
                    Err(er) => Outcome { res: Err(er), env: co.env, out: co.out },
                },
                Err(er) => Outcome { res: Err(er), env: co.env, out: co.out },
            }
        },
        Exp::FunExp { params, def_stmts, body } => {
            let newf = env.frames.len() as int;
            let o = run_stmts_s(def_stmts@, def_stmts@.len() as int, env.extend_m(frame), newf, fuel);
            match o.res {
                Ok(u) => Outcome {
                    res: Ok(
                        ValueModel::Closure(
                            crate::env::ClosureModel {
                                params: param_names(params@),
                                body: *body,
                                env: newf,
                            },
                        ),
                    ),
                    env: o.env,
                    out: o.out,
                },
                Err(er) => Outcome { res: Err(er), env: o.env, out: o.out },
            }
        },
        Exp::FunCall { func, args } => {
            let fo = eval_exp_s(*func, env, frame, fuel);
            match fo.res {
                Ok(fv) => match fv {
                    ValueModel::Closure(c) => if c.params.len() != args@.len() {
                        Outcome { res: Err(ErrorModel::ArityMismatch), env: fo.env, out: fo.out }
                    } else {
                        let ao = eval_vals_s(args@, args@.len() as int, fo.env, frame, fuel);
                        match ao.res {
                            Ok(vs) => if fuel == 0 {
                                Outcome {
                                    res: Err(ErrorModel::ResourceExhausted),
                                    env: ao.env,
                                    out: fo.out + ao.out,
                                }
                            } else {
                                let newf = ao.env.frames.len() as int;
                                let env2 = bind_params_s(
                                    ao.env.extend_m(c.env),
                                    newf,
                                    c.params,
                                    vs,
                                    c.params.len() as int,
                                );
                                let bo = eval_exp_s(c.body, env2, newf, (fuel - 1) as nat);
                                Outcome { res: bo.res, env: bo.env, out: fo.out + ao.out + bo.out }
                            },
                            Err(er) => Outcome {
                                res: Err(er),
                                env: ao.env,
                                out: fo.out + ao.out,
                            },
                        }
                    },
                    _ => Outcome {
                        res: Err(
                            ErrorModel::TypeMismatch {
                                expected: ValueKind::Function,
                                got: kind_of(fv),
                            },
                        ),
                        env: fo.env,
                        out: fo.out,
                    },
                },
                Err(er) => Outcome { res: Err(er), env: fo.env, out: fo.out },
            }
        },
    }
}

/// Evaluates the first `n` expressions of a list, left to right, coercing
/// each to a number as soon as it is evaluated.
pub open spec fn eval_nums_s(
    args: Seq<Box<Exp>>,
    n: int,
    env: EnvModel,
    frame: int,
    fuel: nat,
) -> Outcome<Seq<i64>>
    decreases fuel, args, n,
{
    if n <= 0 || n > args.len() {
        Outcome { res: Ok(Seq::empty()), env, out: Seq::empty() }
    } else {
        let pre = eval_nums_s(args, n - 1, env, frame, fuel);
        match pre.res {
            Ok(ns) => {
                let eo = eval_exp_s(*args[n - 1], pre.env, frame, fuel);
                match eo.res {
                    Ok(v) => match to_num_s(v) {
                        Ok(i) => Outcome {
                            res: Ok(ns.push(i)),
                            env: eo.env,
                            out: pre.out + eo.out,
                        },
                        Err(er) => Outcome { res: Err(er), env: eo.env, out: pre.out + eo.out },
                    },
                    Err(er) => Outcome { res: Err(er), env: eo.env, out: pre.out + eo.out },
                }
            },
            Err(er) => pre,
        }
    }
}

/// Evaluates the first `n` expressions of a list, left to right, coercing
/// each to a boolean as soon as it is evaluated.
pub open spec fn eval_bools_s(
    args: Seq<Box<Exp>>,
    n: int,
    env: EnvModel,
    frame: int,
    fuel: nat,
) -> Outcome<Seq<bool>>
    decreases fuel, args, n,
{
    if n <= 0 || n > args.len() {
        Outcome { res: Ok(Seq::empty()), env, out: Seq::empty() }
    } else {
        let pre = eval_bools_s(args, n - 1, env, frame, fuel);
        match pre.res {
            Ok(bs) => {
                let eo = eval_exp_s(*args[n - 1], pre.env, frame, fuel);
                match eo.res {
                    Ok(v) => match to_bool_s(v) {
                        Ok(b) => Outcome {
                            res: Ok(bs.push(b)),
                            env: eo.env,
                            out: pre.out + eo.out,
                        },
                        Err(er) => Outcome { res: Err(er), env: eo.env, out: pre.out + eo.out },
                    },
                    Err(er) => Outcome { res: Err(er), env: eo.env, out: pre.out + eo.out },
                }
            },
            Err(er) => pre,
        }
    }
}

/// Evaluates the first `n` expressions of a list, left to right, keeping
/// the values.
pub open spec fn eval_vals_s(
    args: Seq<Box<Exp>>,
    n: int,
    env: EnvModel,
    frame: int,
    fuel: nat,
) -> Outcome<Seq<ValueModel>>
    decreases fuel, args, n,
{
    if n <= 0 || n > args.len() {
        Outcome { res: Ok(Seq::empty()), env, out: Seq::empty() }
    } else {
        let pre = eval_vals_s(args, n - 1, env, frame, fuel);
        match pre.res {
            Ok(vs) => {
                let eo = eval_exp_s(*args[n - 1], pre.env, frame, fuel);
                match eo.res {
                    Ok(v) => Outcome { res: Ok(vs.push(v)), env: eo.env, out: pre.out + eo.out },
                    Err(er) => Outcome { res: Err(er), env: eo.env, out: pre.out + eo.out },
                }
            },
            Err(er) => pre,
        }
    }
}

/// Executes one statement against frame `frame` of `env`.
pub open spec fn eval_stmt_s(s: Stmt, env: EnvModel, frame: int, fuel: nat) -> Outcome<()>
    decreases fuel, s, 0nat,
{
    match s {
        Stmt::ExpStmt { exp } => {
            let eo = eval_exp_s(exp, env, frame, fuel);
            Outcome {
                res: match eo.res {
                    Ok(v) => Ok(()),
                    Err(er) => Err(er),
                },
                env: eo.env,
                out: eo.out,
            }
        },
        Stmt::DefStmt { id, exp } => {
            let eo = eval_exp_s(exp, env, frame, fuel);
            match eo.res {
                Ok(v) => Outcome {
                    res: Ok(()),
                    env: eo.env.bind(frame, exp_text(id), v),
                    out: eo.out,
                },
                Err(er) => Outcome { res: Err(er), env: eo.env, out: eo.out },
            }
        },
        Stmt::PrintStmt { print_type, exp } => {
            let eo = eval_exp_s(exp, env, frame, fuel);
            match eo.res {
                Ok(v) => match print_type {
                    PrintType::PrintNum => match to_num_s(v) {
                        Ok(i) => Outcome {
                            res: Ok(()),
                            env: eo.env,
                            out: eo.out + int_text(i as int) + seq!['\n'],
                        },
                        Err(er) => Outcome { res: Err(er), env: eo.env, out: eo.out },
                    },
                    PrintType::PrintBool => match to_bool_s(v) {
                        Ok(b) => Outcome {
                            res: Ok(()),
                            env: eo.env,
                            out: eo.out + bool_token(b) + seq!['\n'],
                        },
                        Err(er) => Outcome { res: Err(er), env: eo.env, out: eo.out },
                    },
                },
                Err(er) => Outcome { res: Err(er), env: eo.env, out: eo.out },
            }
        },
    }
}

/// Executes the first `n` statements of a list, in order, stopping at the
/// first error.
pub open spec fn run_stmts_s(
    stmts: Seq<Stmt>,
    n: int,
    env: EnvModel,
    frame: int,
    fuel: nat,
) -> Outcome<()>
    decreases fuel, stmts, n,
{
    if n <= 0 || n > stmts.len() {
        Outcome { res: Ok(()), env, out: Seq::empty() }
    } else {
        let pre = run_stmts_s(stmts, n - 1, env, frame, fuel);
        match pre.res {
            Ok(u) => {
                let so = eval_stmt_s(stmts[n - 1], pre.env, frame, fuel);
                Outcome { res: so.res, env: so.env, out: pre.out + so.out }
            },
            Err(er) => pre,
        }
    }
}

/// Runs a whole program against a fresh top-level environment with the
/// given call-depth budget.
pub open spec fn run_s(p: Program, fuel: nat) -> Outcome<()> {
    run_stmts_s(p.stmts@, p.stmts@.len() as int, EnvModel::init(), 0, fuel)
}

/// A wrap of an integer already in range is the integer itself.
pub proof fn lemma_wrap_range(x: int)
    requires
        -0x1_0000_0000_0000_0000 <= x < 0x1_0000_0000_0000_0000,
    ensures
        wrap_i64(x) == if x > i64::MAX as int {
            (x - 0x1_0000_0000_0000_0000) as i64
        } else if x < i64::MIN as int {
            (x + 0x1_0000_0000_0000_0000) as i64
        } else {
            x as i64
        },
{
    let m = 0x1_0000_0000_0000_0000int;
    if x >= 0 {
        vstd::arithmetic::div_mod::lemma_small_mod(x as nat, m as nat);
    } else {
        vstd::arithmetic::div_mod::lemma_mod_add_multiples_vanish(x, m);
        vstd::arithmetic::div_mod::lemma_small_mod((x + m) as nat, m as nat);
    }
}

/// `b` extends `a` without touching any frame of `a`: evaluating an
/// expression only ever appends frames.
pub open spec fn env_grows(a: EnvModel, b: EnvModel) -> bool {
    &&& a.frames.len() <= b.frames.len()
    &&& forall|i: int| 0 <= i < a.frames.len() ==> #[trigger] b.frames[i] == a.frames[i]
}

/// `b` extends `a` touching at most the bindings of frame `f`: executing a
/// statement only ever appends frames or defines names in its own frame.
pub open spec fn env_grows_except(a: EnvModel, b: EnvModel, f: int) -> bool {
    &&& a.frames.len() <= b.frames.len()
    &&& forall|i: int|
        0 <= i < a.frames.len() ==> (#[trigger] b.frames[i]).parent == a.frames[i].parent
    &&& forall|i: int| 0 <= i < a.frames.len() && i != f ==> #[trigger] b.frames[i] == a.frames[i]
}

/// A value looked up in a well-formed environment is well formed.
pub proof fn lemma_lookup_wf(env: EnvModel, frame: int, name: Seq<char>)
    requires
        env.wf(),
    ensures
        env.lookup(frame, name) matches Some(v) ==> val_wf(v, env.frames.len() as int),
    decreases frame,
{
    if 0 <= frame < env.frames.len() {
        let fm = env.frames[frame];
        if fm.bindings.dom().contains(name) {
        } else {
            match fm.parent {
                Some(p) => if 0 <= p < frame {
                    lemma_lookup_wf(env, p, name);
                },
                None => {},
            }
        }
    }
}

/// Appending a fresh frame preserves well-formedness and every old frame.
pub proof fn lemma_extend_wf(env: EnvModel, p: int)
    requires
        env.wf(),
        0 <= p < env.frames.len(),
    ensures
        env.extend_m(p).wf(),
        env_grows(env, env.extend_m(p)),
        env.extend_m(p).frames.len() == env.frames.len() + 1,
{
    let b = env.extend_m(p);
    let n = b.frames.len() as int;
    assert forall|i: int| 0 <= i < n implies crate::env::frame_wf(#[trigger] b.frames[i], i, n) by {
        if i < env.frames.len() {
            assert(crate::env::frame_wf(env.frames[i], i, env.frames.len() as int));
        }
    }
}

/// Binding a well-formed value preserves well-formedness and touches only
/// the bindings of the target frame.
pub proof fn lemma_bind_wf(env: EnvModel, f: int, name: Seq<char>, v: ValueModel)
    requires
        env.wf(),
        0 <= f < env.frames.len(),
        val_wf(v, env.frames.len() as int),
    ensures
        env.bind(f, name, v).wf(),
        env_grows_except(env, env.bind(f, name, v), f),
        env.bind(f, name, v).frames.len() == env.frames.len(),
{
    let b = env.bind(f, name, v);
    let n = b.frames.len() as int;
    assert forall|i: int| 0 <= i < n implies crate::env::frame_wf(#[trigger] b.frames[i], i, n) by {
        assert(crate::env::frame_wf(env.frames[i], i, n));
        if i == f {
            assert forall|k: Seq<char>| #[trigger]
                b.frames[i].bindings.dom().contains(k) implies val_wf(
                b.frames[i].bindings[k],
                n,
            ) by {
                if k != name {
                    assert(env.frames[i].bindings.dom().contains(k));
                }
            }
        }
    }
}

/// An environment a well-formed one grew into resolves every old name the
/// same way: growth never changes what an existing frame sees.
pub proof fn lemma_lookup_grows(a: EnvModel, b: EnvModel, frame: int, name: Seq<char>)
    requires
        a.wf(),
        env_grows(a, b),
        0 <= frame < a.frames.len(),
    ensures
        b.lookup(frame, name) == a.lookup(frame, name),
    decreases frame,
{
    let fm = a.frames[frame];
    assert(b.frames[frame] == fm);
    if fm.bindings.dom().contains(name) {
    } else {
        match fm.parent {
            Some(p) => {
                assert(crate::env::frame_wf(fm, frame, a.frames.len() as int));
                if 0 <= p < frame {
                    lemma_lookup_grows(a, b, p, name);
                }
            },
            None => {},
        }
    }
}

/// Binding parameters preserves well-formedness and touches only the call
/// frame.
pub proof fn lemma_bind_params_s_wf(
    env: EnvModel,
    frame: int,
    params: Seq<Seq<char>>,
    vals: Seq<ValueModel>,
    n: int,
)
    requires
        env.wf(),
        0 <= frame < env.frames.len(),
        forall|i: int| 0 <= i < vals.len() ==> val_wf(#[trigger] vals[i], env.frames.len() as int),
    ensures
        ({
            let b = bind_params_s(env, frame, params, vals, n);
            &&& b.wf()
            &&& env_grows_except(env, b, frame)
            &&& b.frames.len() == env.frames.len()
        }),
    decreases n,
{
    if n <= 0 || n > params.len() || n > vals.len() {
    } else {
        lemma_bind_params_s_wf(env, frame, params, vals, n - 1);
        lemma_bind_wf(bind_params_s(env, frame, params, vals, n - 1), frame, params[n - 1], vals[n - 1]);
    }
}

/// Evaluating an expression yields a well-formed environment that the old
/// one grew into, and a well-formed value on success.
pub proof fn lemma_eval_exp_s_wf(e: Exp, env: EnvModel, frame: int, fuel: nat)
    requires
        exp_wf(e),
        env.wf(),
        0 <= frame < env.frames.len(),
    ensures
        ({
            let o = eval_exp_s(e, env, frame, fuel);
            &&& o.env.wf()
            &&& env_grows(env, o.env)
            &&& (o.res matches Ok(v) ==> val_wf(v, o.env.frames.len() as int))
        }),
    decreases fuel, e, 0nat,
{
    match e {
        Exp::Bool(_) => {},
        Exp::Num(_) => {},
        Exp::Id(s) => {
            lemma_lookup_wf(env, frame, s@);
        },
        Exp::NumExp { op, args } => {
            lemma_eval_nums_s_wf(args@, args@.len() as int, env, frame, fuel);
        },
        Exp::LogicalExp { op, args } => {
            lemma_eval_bools_s_wf(args@, args@.len() as int, env, frame, fuel);
        },
        Exp::IfExp { cond_exp, then_exp, else_exp } => {
            lemma_eval_exp_s_wf(*cond_exp, env, frame, fuel);
            let co = eval_exp_s(*cond_exp, env, frame, fuel);
            match co.res {
                Ok(v) => match to_bool_s(v) {
                    Ok(b) => {
                        lemma_eval_exp_s_wf(
                            if b {
                                *then_exp
                            } else {
                                *else_exp
                            },
                            co.env,
                            frame,
                            fuel,
                        );
                    },
                    Err(_) => {},
                },
                Err(_) => {},
            }
        },
        Exp::FunExp { params, def_stmts, body } => {
            let newf = env.frames.len() as int;
            lemma_extend_wf(env, frame);
            lemma_run_stmts_s_wf(def_stmts@, def_stmts@.len() as int, env.extend_m(frame), newf, fuel);
        },
        Exp::FunCall { func, args } => {
            lemma_eval_exp_s_wf(*func, env, frame, fuel);
            let fo = eval_exp_s(*func, env, frame, fuel);
            match fo.res {
                Ok(fv) => match fv {
                    ValueModel::Closure(c) => if c.params.len() == args@.len() {
                        lemma_eval_vals_s_wf(args@, args@.len() as int, fo.env, frame, fuel);
                        let ao = eval_vals_s(args@, args@.len() as int, fo.env, frame, fuel);
                        match ao.res {
                            Ok(vs) => if fuel > 0 {
                                let newf = ao.env.frames.len() as int;
                                lemma_extend_wf(ao.env, c.env);
                                lemma_bind_params_s_wf(
                                    ao.env.extend_m(c.env),
                                    newf,
                                    c.params,
                                    vs,
                                    c.params.len() as int,
                                );
                                let env2 = bind_params_s(
                                    ao.env.extend_m(c.env),
                                    newf,
                                    c.params,
                                    vs,
                                    c.params.len() as int,
                                );
                                lemma_eval_exp_s_wf(c.body, env2, newf, (fuel - 1) as nat);
                            },
                            Err(_) => {},
                        }
                    },
                    _ => {},
                },
                Err(_) => {},
            }
        },
    }
}

/// See `lemma_eval_exp_s_wf`; in addition every number in the list is
/// trivially well formed.
pub proof fn lemma_eval_nums_s_wf(args: Seq<Box<Exp>>, n: int, env: EnvModel, frame: int, fuel: nat)
    requires
        forall|i: int| 0 <= i < args.len() ==> exp_wf(#[trigger] *args[i]),
        env.wf(),
        0 <= frame < env.frames.len(),
    ensures
        ({
            let o = eval_nums_s(args, n, env, frame, fuel);
            &&& o.env.wf()
            &&& env_grows(env, o.env)
        }),
    decreases fuel, args, n,
{
    if n <= 0 || n > args.len() {
    } else {
        lemma_eval_nums_s_wf(args, n - 1, env, frame, fuel);
        let pre = eval_nums_s(args, n - 1, env, frame, fuel);
        if pre.res matches Ok(ns) {
            lemma_eval_exp_s_wf(*args[n - 1], pre.env, frame, fuel);
        }
    }
}

/// See `lemma_eval_nums_s_wf`.
pub proof fn lemma_eval_bools_s_wf(
    args: Seq<Box<Exp>>,
    n: int,
    env: EnvModel,
    frame: int,
    fuel: nat,
)
    requires
        forall|i: int| 0 <= i < args.len() ==> exp_wf(#[trigger] *args[i]),
        env.wf(),
        0 <= frame < env.frames.len(),
    ensures
        ({
            let o = eval_bools_s(args, n, env, frame, fuel);
            &&& o.env.wf()
            &&& env_grows(env, o.env)
        }),
    decreases fuel, args, n,
{
    if n <= 0 || n > args.len() {
    } else {
        lemma_eval_bools_s_wf(args, n - 1, env, frame, fuel);
        let pre = eval_bools_s(args, n - 1, env, frame, fuel);
        if pre.res matches Ok(bs) {
            lemma_eval_exp_s_wf(*args[n - 1], pre.env, frame, fuel);
        }
    }
}

/// See `lemma_eval_exp_s_wf`; every value in the list is well formed.
pub proof fn lemma_eval_vals_s_wf(args: Seq<Box<Exp>>, n: int, env: EnvModel, frame: int, fuel: nat)
    requires
        forall|i: int| 0 <= i < args.len() ==> exp_wf(#[trigger] *args[i]),
        env.wf(),
        0 <= frame < env.frames.len(),
    ensures
        ({
            let o = eval_vals_s(args, n, env, frame, fuel);
            &&& o.env.wf()
            &&& env_grows(env, o.env)
            &&& (o.res matches Ok(vs) ==> vs.len() == if n <= 0 || n > args.len() {
                0int
            } else {
                n
            })
            &&& (o.res matches Ok(vs) ==> forall|i: int|
                0 <= i < vs.len() ==> val_wf(#[trigger] vs[i], o.env.frames.len() as int))
        }),
    decreases fuel, args, n,
{
    if n <= 0 || n > args.len() {
    } else {
        lemma_eval_vals_s_wf(args, n - 1, env, frame, fuel);
        let pre = eval_vals_s(args, n - 1, env, frame, fuel);
        if pre.res matches Ok(vs) {
            lemma_eval_exp_s_wf(*args[n - 1], pre.env, frame, fuel);
        }
    }
}

/// Executing a statement yields a well-formed environment; at most the
/// bindings of its own frame change among the old frames.
pub proof fn lemma_eval_stmt_s_wf(s: Stmt, env: EnvModel, frame: int, fuel: nat)
    requires
        stmt_wf(s),
        env.wf(),
        0 <= frame < env.frames.len(),
    ensures
        ({
            let o = eval_stmt_s(s, env, frame, fuel);
            &&& o.env.wf()
            &&& env_grows_except(env, o.env, frame)
        }),
    decreases fuel, s, 0nat,
{
    match s {
        Stmt::ExpStmt { exp } => {
            lemma_eval_exp_s_wf(exp, env, frame, fuel);
        },
        Stmt::PrintStmt { print_type, exp } => {
            lemma_eval_exp_s_wf(exp, env, frame, fuel);
        },
        Stmt::DefStmt { id, exp } => {
            lemma_eval_exp_s_wf(exp, env, frame, fuel);
            let eo = eval_exp_s(exp, env, frame, fuel);
            match eo.res {
                Ok(v) => {
                    lemma_bind_wf(eo.env, frame, exp_text(id), v);
                },
                Err(_) => {},
            }
        },
    }
}

/// See `lemma_eval_stmt_s_wf`, for a statement sequence.
pub proof fn lemma_run_stmts_s_wf(stmts: Seq<Stmt>, n: int, env: EnvModel, frame: int, fuel: nat)
    requires
        forall|i: int| 0 <= i < stmts.len() ==> stmt_wf(#[trigger] stmts[i]),
        env.wf(),
        0 <= frame < env.frames.len(),
    ensures
        ({
            let o = run_stmts_s(stmts, n, env, frame, fuel);
            &&& o.env.wf()
            &&& env_grows_except(env, o.env, frame)
        }),
    decreases fuel, stmts, n,
{
    if n <= 0 || n > stmts.len() {
    } else {
        lemma_run_stmts_s_wf(stmts, n - 1, env, frame, fuel);
        let pre = run_stmts_s(stmts, n - 1, env, frame, fuel);
        if pre.res matches Ok(u) {
            lemma_eval_stmt_s_wf(stmts[n - 1], pre.env, frame, fuel);
        }
    }
}

} // verus!
