//! The executable evaluator, proved to return exactly what the
//! specification functions of `semantics` say: the same result or error,
//! the same environment, and the same output text.

use vstd::prelude::*;

verus! {

use vstd::string::StringExecFns;

use crate::ast::{exp_wf, program_wf, stmt_wf, Exp, LogicalOp, NumOp, PrintType, Program, Stmt};
use crate::env::{
    clone_value, res_unit_view, res_val_view, Closure, Env, RuntimeError, Value, ValueKind,
    ValueModel,
};
use crate::semantics::{
    abs_i, all_true, any_true, apply_logical_op, apply_num_op, bind_params_s, eval_bools_s,
    eval_exp_s, eval_nums_s, eval_stmt_s, eval_vals_s, lemma_bind_params_s_wf,
    lemma_eval_bools_s_wf, lemma_eval_exp_s_wf, lemma_eval_nums_s_wf, lemma_eval_vals_s_wf,
    lemma_extend_wf, lemma_run_stmts_s_wf, lemma_wrap_range, param_names, prod_w, run_s,
    run_stmts_s, sum_w, trunc_div, trunc_rem, wrap_i64,
};

/// The call-depth budget a run starts with; standing in for the host's
/// call stack, it is far beyond any depth a terminating program reaches.
pub const DEPTH_LIMIT: u64 = 18446744073709551615;

pub open spec fn vals_view(s: Seq<Value>) -> Seq<ValueModel> {
    s.map_values(|v: Value| v@)
}

pub open spec fn res_nums_view(r: Result<Vec<i64>, RuntimeError>) -> Result<
    Seq<i64>,
    crate::env::ErrorModel,
> {
    match r {
        Ok(v) => Ok(v@),
        Err(e) => Err(e@),
    }
}

pub open spec fn res_bools_view(r: Result<Vec<bool>, RuntimeError>) -> Result<
    Seq<bool>,
    crate::env::ErrorModel,
> {
    match r {
        Ok(v) => Ok(v@),
        Err(e) => Err(e@),
    }
}

pub open spec fn res_vals_view(r: Result<Vec<Value>, RuntimeError>) -> Result<
    Seq<ValueModel>,
    crate::env::ErrorModel,
> {
    match r {
        Ok(v) => Ok(vals_view(v@)),
        Err(e) => Err(e@),
    }
}

/// The standard wrapping sum agrees with `wrap_i64` of the exact sum.
proof fn lemma_wrap_add(a: i64, b: i64)
    ensures
        vstd::wrapping::i64_specs::wrapping_add(a, b) == wrap_i64(a + b),
{
    lemma_wrap_range(a + b);
}

/// The standard wrapping difference agrees with `wrap_i64`.
proof fn lemma_wrap_sub(a: i64, b: i64)
    ensures
        vstd::wrapping::i64_specs::wrapping_sub(a, b) == wrap_i64(a - b),
{
    lemma_wrap_range(a - b);
}

/// The magnitude of a 64-bit integer, as an unsigned 64-bit integer.
fn abs_u(a: i64) -> (r: u64)
    ensures
        r as int == abs_i(a as int),
{
    if a == i64::MIN {
        9223372036854775808u64
    } else if a < 0 {
        (-a) as u64
    } else {
        a as u64
    }
}

/// Truncating division with the single overflowing quotient wrapped.
fn div_wrap(a: i64, b: i64) -> (r: i64)
    requires
        b != 0,
    ensures
        r == wrap_i64(trunc_div(a as int, b as int)),
{
    let mag_a = abs_u(a);
    let mag_b = abs_u(b);
    let q = mag_a / mag_b;
    let neg = (a < 0) != (b < 0);
    if neg {
        proof {
            lemma_wrap_range(trunc_div(a as int, b as int));
        }
        if q == 0 {
            0
        } else {
            (-(q as i128)) as i64
        }
    } else {
        proof {
            lemma_wrap_range(trunc_div(a as int, b as int));
        }
        if q >= 9223372036854775808 {
            i64::MIN
        } else {
            q as i64
        }
    }
}

/// Truncating remainder; the result always fits.
fn rem_wrap(a: i64, b: i64) -> (r: i64)
    requires
        b != 0,
    ensures
        r == wrap_i64(trunc_rem(a as int, b as int)),
{
    let mag_a = abs_u(a);
    let mag_b = abs_u(b);
    let m = mag_a % mag_b;
    proof {
        lemma_wrap_range(trunc_rem(a as int, b as int));
    }
    if a < 0 {
        if m == 0 {
            0
        } else {
            (-(m as i128)) as i64
        }
    } else {
        m as i64
    }
}

/// Applies an arithmetic or comparison operator to coerced arguments.
fn apply_num_op_x(op: NumOp, ns: &Vec<i64>) -> (r: Result<Value, RuntimeError>)
    ensures
        res_val_view(r) == apply_num_op(op, ns@),
{
    match op {
        NumOp::Plus => {
            if ns.len() == 0 {
                Err(RuntimeError::ArityMismatch)
            } else {
                let mut acc: i64 = 0;
                let mut i: usize = 0;
                while i < ns.len()
                    invariant
                        i <= ns@.len(),
                        acc == sum_w(ns@.take(i as int)),
                    decreases ns@.len() - i,
                {
                    proof {
                        assert(ns@.take(i + 1).drop_last() =~= ns@.take(i as int));
                        lemma_wrap_add(acc, ns@[i as int]);
                    }
                    acc = acc.wrapping_add(ns[i]);
                    i = i + 1;
                }
                proof {
                    assert(ns@.take(ns@.len() as int) =~= ns@);
                }
                Ok(Value::Num(acc))
            }
        },
        NumOp::Multiply => {
            if ns.len() == 0 {
                Err(RuntimeError::ArityMismatch)
            } else {
                let mut acc: i64 = 1;
                let mut i: usize = 0;
                while i < ns.len()
                    invariant
                        i <= ns@.len(),
                        acc == prod_w(ns@.take(i as int)),
                    decreases ns@.len() - i,
                {
                    proof {
                        assert(ns@.take(i + 1).drop_last() =~= ns@.take(i as int));
                    }
                    acc = acc.wrapping_mul(ns[i]);
                    i = i + 1;
                }
                proof {
                    assert(ns@.take(ns@.len() as int) =~= ns@);
                }
                Ok(Value::Num(acc))
            }
        },
        NumOp::Minus => {
            if ns.len() != 2 {
                Err(RuntimeError::ArityMismatch)
            } else {
                proof {
                    lemma_wrap_sub(ns@[0], ns@[1]);
                }
                Ok(Value::Num(ns[0].wrapping_sub(ns[1])))
            }
        },
        NumOp::Divide => {
            if ns.len() != 2 {
                Err(RuntimeError::ArityMismatch)
            } else if ns[1] == 0 {
                Err(RuntimeError::DivisionByZero)
            } else {
                Ok(Value::Num(div_wrap(ns[0], ns[1])))
            }
        },
        NumOp::Modulus => {
            if ns.len() != 2 {
                Err(RuntimeError::ArityMismatch)
            } else if ns[1] == 0 {
                Err(RuntimeError::DivisionByZero)
            } else {
                Ok(Value::Num(rem_wrap(ns[0], ns[1])))
            }
        },
        NumOp::Greater => {
            if ns.len() != 2 {
                Err(RuntimeError::ArityMismatch)
            } else {
                Ok(Value::Bool(ns[0] > ns[1]))
            }
        },
        NumOp::Smaller => {
            if ns.len() != 2 {
                Err(RuntimeError::ArityMismatch)
            } else {
                Ok(Value::Bool(ns[0] < ns[1]))
            }
        },
        NumOp::Equal => {
            if ns.len() != 2 {
                Err(RuntimeError::ArityMismatch)
            } else {
                Ok(Value::Bool(ns[0] == ns[1]))
            }
        },
    }
}

/// Applies a logical operator to coerced arguments.
fn apply_logical_op_x(op: LogicalOp, bs: &Vec<bool>) -> (r: Result<Value, RuntimeError>)
    ensures
        res_val_view(r) == apply_logical_op(op, bs@),
{
    match op {
        LogicalOp::And => {
            let mut acc = true;
            let mut i: usize = 0;
            while i < bs.len()
                invariant
                    i <= bs@.len(),
                    acc == all_true(bs@.take(i as int)),
                decreases bs@.len() - i,
            {
                let x = bs[i];
                proof {
                    if acc && x {
                        assert(all_true(bs@.take(i + 1)));
                    } else if !acc {
                        let j = choose|j: int| 0 <= j < i && !bs@.take(i as int)[j];
                        assert(!bs@.take(i + 1)[j]);
                    } else {
                        assert(!bs@.take(i + 1)[i as int]);
                    }
                }
                acc = acc && x;
                i = i + 1;
            }
            proof {
                assert(bs@.take(bs@.len() as int) =~= bs@);
            }
            Ok(Value::Bool(acc))
        },
        LogicalOp::Or => {
            let mut acc = false;
            let mut i: usize = 0;
            while i < bs.len()
                invariant
                    i <= bs@.len(),
                    acc == any_true(bs@.take(i as int)),
                decreases bs@.len() - i,
            {
                let x = bs[i];
                proof {
                    if acc {
                        let j = choose|j: int| 0 <= j < i && bs@.take(i as int)[j];
                        assert(bs@.take(i + 1)[j]);
                    } else if x {
                        assert(bs@.take(i + 1)[i as int]);
                    } else {
                        assert forall|j: int| 0 <= j < i + 1 implies !(#[trigger] bs@.take(
                            i + 1,
                        )[j]) by {
                            if j < i {
                                assert(!bs@.take(i as int)[j]);
                            }
                        }
                    }
                }
                acc = acc || x;
                i = i + 1;
            }
            proof {
                assert(bs@.take(bs@.len() as int) =~= bs@);
            }
            Ok(Value::Bool(acc))
        },
        LogicalOp::Not => {
            if bs.len() != 1 {
                Err(RuntimeError::ArityMismatch)
            } else {
                Ok(Value::Bool(!bs[0]))
            }
        },
    }
}

/// Evaluates an expression against frame `frame`, appending any printed
/// text to `out`; exactly what `eval_exp_s` says.
pub fn eval_exp(e: &Exp, env: &mut Env, frame: usize, fuel: u64, out: &mut String) -> (r: Result<
    Value,
    RuntimeError,
>)
    requires
        exp_wf(*e),
        old(env).inv(),
        old(env)@.wf(),
        frame < old(env)@.frames.len(),
    ensures
        final(env).inv(),
        ({
            let o = eval_exp_s(*e, old(env)@, frame as int, fuel as nat);
            &&& res_val_view(r) == o.res
            &&& final(env)@ == o.env
            &&& final(out)@ == old(out)@ + o.out
        }),
    decreases fuel, *e, 0nat,
{
    match e {
        Exp::Bool(b) => {
            proof {
                assert(out@ =~= old(out)@ + Seq::<char>::empty());
            }
            Ok(Value::Bool(*b))
        },
        Exp::Num(n) => {
            proof {
                assert(out@ =~= old(out)@ + Seq::<char>::empty());
            }
            Ok(Value::Num(*n))
        },
        Exp::Id(s) => {
            let got = env.get_var(frame, s.as_str());
            proof {
                assert(out@ =~= old(out)@ + Seq::<char>::empty());
            }
            match got {
                Some(v) => Ok(v),
                None => Err(RuntimeError::UnboundVariable(s.clone())),
            }
        },
        Exp::NumExp { op, args } => {
            let nr = eval_nums(args, args.len(), env, frame, fuel, out);
            match nr {
                Ok(ns) => apply_num_op_x(*op, &ns),
                Err(er) => Err(er),
            }
        },
        Exp::LogicalExp { op, args } => {
            let br = eval_bools(args, args.len(), env, frame, fuel, out);
            match br {
                Ok(bs) => apply_logical_op_x(*op, &bs),
                Err(er) => Err(er),
            }
        },
        Exp::IfExp { cond_exp, then_exp, else_exp } => {
            let cr = eval_exp(&*cond_exp, env, frame, fuel, out);
            match cr {
                Ok(v) => match v.to_bool() {
                    Ok(b) => {
                        proof {
                            lemma_eval_exp_s_wf(
                                *(*cond_exp),
                                old(env)@,
                                frame as int,
                                fuel as nat,
                            );
                        }
                        let r = if b {
                            eval_exp(&*then_exp, env, frame, fuel, out)
                        } else {
                            eval_exp(&*else_exp, env, frame, fuel, out)
                        };
                        proof {
                            let co = eval_exp_s(*(*cond_exp), old(env)@, frame as int, fuel as nat);
                            let bo = eval_exp_s(
                                if b {
                                    *(*then_exp)
                                } else {
                                    *(*else_exp)
                                },
                                co.env,
                                frame as int,
                                fuel as nat,
                            );
                            assert(out@ =~= old(out)@ + (co.out + bo.out));
                        }
                        r
                    },
                    Err(er) => Err(er),
                },
                Err(er) => Err(er),
            }
        },
        Exp::FunExp { params, def_stmts, body } => {
            let mut names: Vec<String> = Vec::new();
            let mut i: usize = 0;
            while i < params.len()
                invariant
                    exp_wf(*e),
                    e matches Exp::FunExp { params: ps, .. } && ps == *params,
                    i <= params@.len(),
                    names@.len() == i,
                    forall|j: int| 0 <= j < i ==> (#[trigger] names@[j])@ == crate::ast::exp_text(
                        params@[j],
                    ),
                decreases params@.len() - i,
            {
                names.push(params[i].to_string());
                i = i + 1;
            }
            proof {
                assert(names.deep_view() =~= param_names(params@));
            }
            let newf = env.extend(frame);
            proof {
                lemma_extend_wf(old(env)@, frame as int);
            }
            let dr = run_stmts(def_stmts, def_stmts.len(), env, newf, fuel, out);
            match dr {
                Ok(u) => Ok(Value::Closure(Closure::new(names, body.clone(), newf))),
                Err(er) => Err(er),
            }
        },
        Exp::FunCall { func, args } => {
            let fr = eval_exp(&*func, env, frame, fuel, out);
            proof {
                lemma_eval_exp_s_wf(*(*func), old(env)@, frame as int, fuel as nat);
            }
            match fr {
                Ok(fv) => match fv {
                    Value::Closure(c) => {
                        if c.params.len() != args.len() {
                            Err(RuntimeError::ArityMismatch)
                        } else {
                            let ghost fenv = env@;
                            let ar = eval_vals(args, args.len(), env, frame, fuel, out);
                            proof {
                                lemma_eval_vals_s_wf(
                                    args@,
                                    args@.len() as int,
                                    fenv,
                                    frame as int,
                                    fuel as nat,
                                );
                            }
                            match ar {
                                Ok(vs) => {
                                    if fuel == 0 {
                                        proof {
                                            let o = eval_exp_s(
                                                *e,
                                                old(env)@,
                                                frame as int,
                                                fuel as nat,
                                            );
                                            assert(out@ =~= old(out)@ + o.out);
                                        }
                                        Err(RuntimeError::ResourceExhausted)
                                    } else {
                                        let ghost aenv = env@;
                                        let newf = env.extend(c.env);
                                        proof {
                                            lemma_extend_wf(aenv, c.env as int);
                                        }
                                        bind_params(env, newf, &c.params, &vs);
                                        proof {
                                            lemma_bind_params_s_wf(
                                                aenv.extend_m(c.env as int),
                                                newf as int,
                                                c.params.deep_view(),
                                                vals_view(vs@),
                                                c.params@.len() as int,
                                            );
                                        }
                                        let r = eval_exp(&*c.body, env, newf, fuel - 1, out);
                                        proof {
                                            let o = eval_exp_s(
                                                *e,
                                                old(env)@,
                                                frame as int,
                                                fuel as nat,
                                            );
                                            assert(out@ =~= old(out)@ + o.out);
                                        }
                                        r
                                    }
                                },
                                Err(er) => {
                                    proof {
                                        let o = eval_exp_s(*e, old(env)@, frame as int, fuel as nat);
                                        assert(out@ =~= old(out)@ + o.out);
                                    }
                                    Err(er)
                                },
                            }
                        }
                    },
                    _ => Err(
                        RuntimeError::TypeMismatch {
                            expected: ValueKind::Function,
                            got: fv.kind(),
                        },
                    ),
                },
                Err(er) => Err(er),
            }
        },
    }
}

/// Evaluates the first `n` arguments left to right, coercing each to a
/// number as soon as it is evaluated; exactly what `eval_nums_s` says.
fn eval_nums(
    args: &Vec<Box<Exp>>,
    n: usize,
    env: &mut Env,
    frame: usize,
    fuel: u64,
    out: &mut String,
) -> (r: Result<Vec<i64>, RuntimeError>)
    requires
        n <= args@.len(),
        forall|i: int| 0 <= i < args@.len() ==> exp_wf(#[trigger] *args@[i]),
        old(env).inv(),
        old(env)@.wf(),
        frame < old(env)@.frames.len(),
    ensures
        final(env).inv(),
        ({
            let o = eval_nums_s(args@, n as int, old(env)@, frame as int, fuel as nat);
            &&& res_nums_view(r) == o.res
            &&& final(env)@ == o.env
            &&& final(out)@ == old(out)@ + o.out
        }),
    decreases fuel, args@, n,
{
    if n == 0 {
        proof {
            assert(out@ =~= old(out)@ + Seq::<char>::empty());
        }
        Ok(Vec::new())
    } else {
        let pre = eval_nums(args, n - 1, env, frame, fuel, out);
        proof {
            lemma_eval_nums_s_wf(args@, n as int - 1, old(env)@, frame as int, fuel as nat);
        }
        match pre {
            Ok(mut ns) => {
                let er = eval_exp(&*args[n - 1], env, frame, fuel, out);
                proof {
                    let po = eval_nums_s(args@, n as int - 1, old(env)@, frame as int, fuel as nat);
                    let eo = eval_exp_s(*args@[n - 1], po.env, frame as int, fuel as nat);
                    assert(out@ =~= old(out)@ + (po.out + eo.out));
                }
                match er {
                    Ok(v) => match v.to_num() {
                        Ok(x) => {
                            ns.push(x);
                            Ok(ns)
                        },
                        Err(er) => Err(er),
                    },
                    Err(er) => Err(er),
                }
            },
            Err(er) => Err(er),
        }
    }
}

/// Evaluates the first `n` arguments left to right, coercing each to a
/// boolean as soon as it is evaluated; exactly what `eval_bools_s` says.
fn eval_bools(
    args: &Vec<Box<Exp>>,
    n: usize,
    env: &mut Env,
    frame: usize,
    fuel: u64,
    out: &mut String,
) -> (r: Result<Vec<bool>, RuntimeError>)
    requires
        n <= args@.len(),
        forall|i: int| 0 <= i < args@.len() ==> exp_wf(#[trigger] *args@[i]),
        old(env).inv(),
        old(env)@.wf(),
        frame < old(env)@.frames.len(),
    ensures
        final(env).inv(),
        ({
            let o = eval_bools_s(args@, n as int, old(env)@, frame as int, fuel as nat);
            &&& res_bools_view(r) == o.res
            &&& final(env)@ == o.env
            &&& final(out)@ == old(out)@ + o.out
        }),
    decreases fuel, args@, n,
{
    if n == 0 {
        proof {
            assert(out@ =~= old(out)@ + Seq::<char>::empty());
        }
        Ok(Vec::new())
    } else {
        let pre = eval_bools(args, n - 1, env, frame, fuel, out);
        proof {
            lemma_eval_bools_s_wf(args@, n as int - 1, old(env)@, frame as int, fuel as nat);
        }
        match pre {
            Ok(mut bs) => {
                let er = eval_exp(&*args[n - 1], env, frame, fuel, out);
                proof {
                    let po = eval_bools_s(args@, n as int - 1, old(env)@, frame as int, fuel as nat);
                    let eo = eval_exp_s(*args@[n - 1], po.env, frame as int, fuel as nat);
                    assert(out@ =~= old(out)@ + (po.out + eo.out));
                }
                match er {
                    Ok(v) => match v.to_bool() {
                        Ok(x) => {
                            bs.push(x);
                            Ok(bs)
                        },
                        Err(er) => Err(er),
                    },
                    Err(er) => Err(er),
                }
            },
            Err(er) => Err(er),
        }
    }
}

/// Evaluates the first `n` arguments left to right, keeping the values;
/// exactly what `eval_vals_s` says.
fn eval_vals(
    args: &Vec<Box<Exp>>,
    n: usize,
    env: &mut Env,
    frame: usize,
    fuel: u64,
    out: &mut String,
) -> (r: Result<Vec<Value>, RuntimeError>)
    requires
        n <= args@.len(),
        forall|i: int| 0 <= i < args@.len() ==> exp_wf(#[trigger] *args@[i]),
        old(env).inv(),
        old(env)@.wf(),
        frame < old(env)@.frames.len(),
    ensures
        final(env).inv(),
        ({
            let o = eval_vals_s(args@, n as int, old(env)@, frame as int, fuel as nat);
            &&& res_vals_view(r) == o.res
            &&& final(env)@ == o.env
            &&& final(out)@ == old(out)@ + o.out
        }),
    decreases fuel, args@, n,
{
    if n == 0 {
        proof {
            assert(out@ =~= old(out)@ + Seq::<char>::empty());
            assert(vals_view(Seq::<Value>::empty()) =~= Seq::<ValueModel>::empty());
        }
        Ok(Vec::new())
    } else {
        let pre = eval_vals(args, n - 1, env, frame, fuel, out);
        proof {
            lemma_eval_vals_s_wf(args@, n as int - 1, old(env)@, frame as int, fuel as nat);
        }
        match pre {
            Ok(mut vs) => {
                let er = eval_exp(&*args[n - 1], env, frame, fuel, out);
                proof {
                    let po = eval_vals_s(args@, n as int - 1, old(env)@, frame as int, fuel as nat);
                    let eo = eval_exp_s(*args@[n - 1], po.env, frame as int, fuel as nat);
                    assert(out@ =~= old(out)@ + (po.out + eo.out));
                }
                match er {
                    Ok(v) => {
                        let ghost old_vs = vs@;
                        vs.push(v);
                        proof {
                            assert(vals_view(vs@) =~= vals_view(old_vs).push(v@));
                        }
                        Ok(vs)
                    },
                    Err(er) => Err(er),
                }
            },
            Err(er) => Err(er),
        }
    }
}

/// Binds each parameter to the matching argument value, in order, in the
/// call frame; exactly what `bind_params_s` says.
fn bind_params(env: &mut Env, frame: usize, params: &Vec<String>, vals: &Vec<Value>)
    requires
        params@.len() == vals@.len(),
        old(env).inv(),
        frame < old(env)@.frames.len(),
    ensures
        final(env).inv(),
        final(env)@ == bind_params_s(
            old(env)@,
            frame as int,
            params.deep_view(),
            vals_view(vals@),
            params@.len() as int,
        ),
{
    let mut i: usize = 0;
    while i < params.len()
        invariant
            params@.len() == vals@.len(),
            i <= params@.len(),
            env.inv(),
            frame < env@.frames.len(),
            env@ == bind_params_s(
                old(env)@,
                frame as int,
                params.deep_view(),
                vals_view(vals@),
                i as int,
            ),
        decreases params@.len() - i,
    {
        env.set_var(frame, params[i].clone(), clone_value(&vals[i]));
        i = i + 1;
    }
}

/// Executes one statement; exactly what `eval_stmt_s` says.
pub fn eval_stmt(s: &Stmt, env: &mut Env, frame: usize, fuel: u64, out: &mut String) -> (r: Result<
    (),
    RuntimeError,
>)
    requires
        stmt_wf(*s),
        old(env).inv(),
        old(env)@.wf(),
        frame < old(env)@.frames.len(),
    ensures
        final(env).inv(),
        ({
            let o = eval_stmt_s(*s, old(env)@, frame as int, fuel as nat);
            &&& res_unit_view(r) == o.res
            &&& final(env)@ == o.env
            &&& final(out)@ == old(out)@ + o.out
        }),
    decreases fuel, *s, 0nat,
{
    match s {
        Stmt::ExpStmt { exp } => {
            let r = eval_exp(exp, env, frame, fuel, out);
            match r {
                Ok(_) => Ok(()),
                Err(er) => Err(er),
            }
        },
        Stmt::DefStmt { id, exp } => {
            let name = id.to_string();
            let r = eval_exp(exp, env, frame, fuel, out);
            match r {
                Ok(v) => {
                    proof {
                        lemma_eval_exp_s_wf(*exp, old(env)@, frame as int, fuel as nat);
                    }
                    env.set_var(frame, name, v);
                    Ok(())
                },
                Err(er) => Err(er),
            }
        },
        Stmt::PrintStmt { print_type, exp } => {
            let r = eval_exp(exp, env, frame, fuel, out);
            match r {
                Ok(v) => match print_type {
                    PrintType::PrintNum => match v.to_num() {
                        Ok(x) => {
                            crate::text::push_i64(x, out);
                            proof {
                                reveal_strlit("\n");
                            }
                            out.append("\n");
                            proof {
                                let eo = eval_exp_s(*exp, old(env)@, frame as int, fuel as nat);
                                assert(("\n")@ =~= seq!['\n']);
                                assert(out@ =~= old(out)@ + (eo.out + crate::text::int_text(
                                    x as int,
                                ) + seq!['\n']));
                            }
                            Ok(())
                        },
                        Err(er) => Err(er),
                    },
                    PrintType::PrintBool => match v.to_bool() {
                        Ok(b) => {
                            proof {
                                reveal_strlit("#t");
                                reveal_strlit("#f");
                                reveal_strlit("\n");
                            }
                            if b {
                                out.append("#t");
                            } else {
                                out.append("#f");
                            }
                            out.append("\n");
                            proof {
                                let eo = eval_exp_s(*exp, old(env)@, frame as int, fuel as nat);
                                assert(("#t")@ =~= seq!['#', 't']);
                                assert(("#f")@ =~= seq!['#', 'f']);
                                assert(("\n")@ =~= seq!['\n']);
                                assert(out@ =~= old(out)@ + (eo.out + crate::text::bool_token(b)
                                    + seq!['\n']));
                            }
                            Ok(())
                        },
                        Err(er) => Err(er),
                    },
                },
                Err(er) => Err(er),
            }
        },
    }
}

/// Executes the first `n` statements in order, stopping at the first
/// error; exactly what `run_stmts_s` says.
pub fn run_stmts(
    stmts: &Vec<Stmt>,
    n: usize,
    env: &mut Env,
    frame: usize,
    fuel: u64,
    out: &mut String,
) -> (r: Result<(), RuntimeError>)
    requires
        n <= stmts@.len(),
        forall|i: int| 0 <= i < stmts@.len() ==> stmt_wf(#[trigger] stmts@[i]),
        old(env).inv(),
        old(env)@.wf(),
        frame < old(env)@.frames.len(),
    ensures
        final(env).inv(),
        ({
            let o = run_stmts_s(stmts@, n as int, old(env)@, frame as int, fuel as nat);
            &&& res_unit_view(r) == o.res
            &&& final(env)@ == o.env
            &&& final(out)@ == old(out)@ + o.out
        }),
    decreases fuel, stmts@, n,
{
    if n == 0 {
        proof {
            assert(out@ =~= old(out)@ + Seq::<char>::empty());
        }
        Ok(())
    } else {
        let pre = run_stmts(stmts, n - 1, env, frame, fuel, out);
        proof {
            lemma_run_stmts_s_wf(stmts@, n as int - 1, old(env)@, frame as int, fuel as nat);
        }
        match pre {
            Ok(u) => {
                let r = eval_stmt(&stmts[n - 1], env, frame, fuel, out);
                proof {
                    let po = run_stmts_s(stmts@, n as int - 1, old(env)@, frame as int, fuel as nat);
                    let so = eval_stmt_s(stmts@[n - 1], po.env, frame as int, fuel as nat);
                    assert(out@ =~= old(out)@ + (po.out + so.out));
                }
                r
            },
            Err(er) => Err(er),
        }
    }
}

/// Runs a program against a fresh top-level environment, writing printed
/// text to `writer`; exactly what `run_s` says.  The parser only produces
/// well-formed programs.
pub fn run(program: Program, writer: &mut String) -> (r: Result<(), RuntimeError>)
    requires
        program_wf(program),
    ensures
        ({
            let o = run_s(program, DEPTH_LIMIT as nat);
            &&& res_unit_view(r) == o.res
            &&& final(writer)@ == old(writer)@ + o.out
        }),
{
    let mut env = Env::new();
    proof {
        assert(env@.wf()) by {
            assert(env@.frames[0].parent is None);
            assert(forall|k: Seq<char>| !(#[trigger] env@.frames[0].bindings.dom().contains(k)));
        }
    }
    run_stmts(&program.stmts, program.stmts.len(), &mut env, 0, DEPTH_LIMIT, writer)
}

} // verus!
