//! Laws of the evaluator, stated over the specification functions of
//! `semantics` and proved once and for all: algebraic laws of the
//! arithmetic folds, strictness of the logical operators, laziness of
//! conditionals, lexical scoping, and the error discipline for type
//! mismatches and unbound names.

use vstd::prelude::*;

verus! {

use crate::ast::{exp_text, exp_wf, Exp, Stmt};
use crate::env::{to_bool_s, to_num_s, EnvModel, ErrorModel, ValueModel};
use crate::semantics::{
    env_grows, eval_bools_s, eval_exp_s, eval_nums_s, eval_stmt_s, lemma_eval_exp_s_wf,
    lemma_lookup_grows, lemma_wrap_range, prod_w, sum_w, trunc_div, trunc_rem, wrap_i64,
};

/// Two integers congruent modulo 2^64 wrap to the same value.
proof fn lemma_wrap_congruent(a: int, b: int)
    requires
        a % 0x1_0000_0000_0000_0000 == b % 0x1_0000_0000_0000_0000,
    ensures
        wrap_i64(a) == wrap_i64(b),
{
}

/// Wrapping the left operand first does not change a wrapped sum.
proof fn lemma_wrap_add_left(x: int, y: int)
    ensures
        wrap_i64(wrap_i64(x) + y) == wrap_i64(x + y),
{
    let m = 0x1_0000_0000_0000_0000int;
    let w = wrap_i64(x) as int;
    assert((w + y) % m == (x + y) % m) by {
        vstd::arithmetic::div_mod::lemma_add_mod_noop(w, y, m);
        vstd::arithmetic::div_mod::lemma_add_mod_noop(x, y, m);
        assert(w % m == x % m) by {
            if x % m > i64::MAX as int {
                vstd::arithmetic::div_mod::lemma_mod_add_multiples_vanish(x % m - m, m);
            }
            vstd::arithmetic::div_mod::lemma_mod_twice(x, m);
        }
    }
    lemma_wrap_congruent(w + y, x + y);
}

/// Wrapping the left operand first does not change a wrapped product.
proof fn lemma_wrap_mul_left(x: int, y: int)
    ensures
        wrap_i64(wrap_i64(x) * y) == wrap_i64(x * y),
{
    let m = 0x1_0000_0000_0000_0000int;
    let w = wrap_i64(x) as int;
    assert((w * y) % m == (x * y) % m) by {
        vstd::arithmetic::div_mod::lemma_mul_mod_noop_left(w, y, m);
        vstd::arithmetic::div_mod::lemma_mul_mod_noop_left(x, y, m);
        assert(w % m == x % m) by {
            if x % m > i64::MAX as int {
                vstd::arithmetic::div_mod::lemma_mod_add_multiples_vanish(x % m - m, m);
            }
            vstd::arithmetic::div_mod::lemma_mod_twice(x, m);
        }
    }
    lemma_wrap_congruent(w * y, x * y);
}

/// The `+` fold is associative: folding a concatenation equals the
/// wrapped sum of the two folds.
pub proof fn lemma_sum_fold_append(s1: Seq<i64>, s2: Seq<i64>)
    ensures
        sum_w(s1 + s2) == wrap_i64(sum_w(s1) + sum_w(s2)),
    decreases s2.len(),
{
    if s2.len() == 0 {
        assert(s1 + s2 =~= s1);
        lemma_wrap_range(sum_w(s1) as int);
    } else {
        lemma_sum_fold_append(s1, s2.drop_last());
        assert((s1 + s2).drop_last() =~= s1 + s2.drop_last());
        assert((s1 + s2).last() == s2.last());
        let x = sum_w(s1) as int;
        let y = sum_w(s2.drop_last()) as int;
        let z = s2.last() as int;
        // sum_w(s1 + s2) == wrap(wrap(x + y) + z) == wrap(x + (y + z))
        lemma_wrap_add_left(x + y, z);
        // sum_w(s2) == wrap(y + z), so wrap(x + sum_w(s2)) == wrap(x + y + z)
        assert(wrap_i64(x + wrap_i64(y + z)) == wrap_i64(x + (y + z))) by {
            lemma_wrap_add_left(y + z, x);
            lemma_wrap_congruent(wrap_i64(y + z) + x, x + wrap_i64(y + z));
            lemma_wrap_congruent(y + z + x, x + (y + z));
        }
    }
}

/// The `+` fold is commutative across a concatenation.
pub proof fn lemma_sum_fold_commutes(s1: Seq<i64>, s2: Seq<i64>)
    ensures
        sum_w(s1 + s2) == sum_w(s2 + s1),
{
    lemma_sum_fold_append(s1, s2);
    lemma_sum_fold_append(s2, s1);
}

/// The `*` fold is associative: folding a concatenation equals the
/// wrapped product of the two folds.
pub proof fn lemma_prod_fold_append(s1: Seq<i64>, s2: Seq<i64>)
    ensures
        prod_w(s1 + s2) == wrap_i64(prod_w(s1) * prod_w(s2)),
    decreases s2.len(),
{
    if s2.len() == 0 {
        assert(s1 + s2 =~= s1);
        lemma_wrap_range(prod_w(s1) as int);
        vstd::arithmetic::mul::lemma_mul_basics(prod_w(s1) as int);
    } else {
        lemma_prod_fold_append(s1, s2.drop_last());
        assert((s1 + s2).drop_last() =~= s1 + s2.drop_last());
        assert((s1 + s2).last() == s2.last());
        let x = prod_w(s1) as int;
        let y = prod_w(s2.drop_last()) as int;
        let z = s2.last() as int;
        lemma_wrap_mul_left(x * y, z);
        assert(prod_w(s1 + s2) == wrap_i64((x * y) * z));
        assert((x * y) * z == x * (y * z)) by {
            vstd::arithmetic::mul::lemma_mul_is_associative(x, y, z);
        }
        assert(wrap_i64(x * wrap_i64(y * z)) == wrap_i64(x * (y * z))) by {
            lemma_wrap_mul_left(y * z, x);
            vstd::arithmetic::mul::lemma_mul_is_commutative(wrap_i64(y * z) as int, x);
            vstd::arithmetic::mul::lemma_mul_is_commutative(y * z, x);
            lemma_wrap_congruent(wrap_i64(y * z) as int * x, x * (wrap_i64(y * z) as int));
            lemma_wrap_congruent((y * z) * x, x * (y * z));
        }
        assert(prod_w(s2) == wrap_i64(y * z));
        assert(prod_w(s1 + s2) == wrap_i64(x * (y * z)));
    }
}

/// The `*` fold is commutative across a concatenation.
pub proof fn lemma_prod_fold_commutes(s1: Seq<i64>, s2: Seq<i64>)
    ensures
        prod_w(s1 + s2) == prod_w(s2 + s1),
{
    lemma_prod_fold_append(s1, s2);
    lemma_prod_fold_append(s2, s1);
    vstd::arithmetic::mul::lemma_mul_is_commutative(prod_w(s1) as int, prod_w(s2) as int);
}

/// Truncating division and remainder agree with the host's semantics:
/// the quotient-remainder identity holds, the remainder is smaller in
/// magnitude than the divisor, and its sign follows the dividend.
pub proof fn lemma_trunc_div_rem(a: int, b: int)
    requires
        b != 0,
    ensures
        a == b * trunc_div(a, b) + trunc_rem(a, b),
        crate::semantics::abs_i(trunc_rem(a, b)) < crate::semantics::abs_i(b),
        a >= 0 ==> trunc_rem(a, b) >= 0,
        a < 0 ==> trunc_rem(a, b) <= 0,
{
    let ma = crate::semantics::abs_i(a);
    let mb = crate::semantics::abs_i(b);
    vstd::arithmetic::div_mod::lemma_fundamental_div_mod(ma, mb);
    vstd::arithmetic::div_mod::lemma_mod_bound(ma, mb);
    vstd::arithmetic::div_mod::lemma_div_pos_is_pos(ma, mb);
    let q = ma / mb;
    let r = ma % mb;
    assert(ma == mb * q + r);
    if a >= 0 && b > 0 {
    } else if a >= 0 && b < 0 {
        assert(a == b * (-q) + r) by (nonlinear_arith)
            requires
                ma == mb * q + r,
                ma == a,
                mb == -b,
        ;
    } else if a < 0 && b > 0 {
        assert(a == b * (-q) + (-r)) by (nonlinear_arith)
            requires
                ma == mb * q + r,
                ma == -a,
                mb == b,
        ;
    } else {
        assert(a == b * q + (-r)) by (nonlinear_arith)
            requires
                ma == mb * q + r,
                ma == -a,
                mb == -b,
        ;
    }
}

/// If evaluating-and-coercing the first `n` arguments succeeds, so did
/// every shorter prefix: no argument is ever skipped.
proof fn lemma_eval_bools_prefix_ok(
    args: Seq<Box<Exp>>,
    k: int,
    n: int,
    env: EnvModel,
    frame: int,
    fuel: nat,
)
    requires
        0 <= k <= n <= args.len(),
        eval_bools_s(args, n, env, frame, fuel).res matches Ok(bs0),
    ensures
        eval_bools_s(args, k, env, frame, fuel).res matches Ok(bs),
    decreases n - k,
{
    if k < n {
        assert(eval_bools_s(args, n - 1, env, frame, fuel).res matches Ok(bs1));
        lemma_eval_bools_prefix_ok(args, k, n - 1, env, frame, fuel);
    }
}

/// See `lemma_eval_bools_prefix_ok`, for numeric argument lists.
proof fn lemma_eval_nums_prefix_ok(
    args: Seq<Box<Exp>>,
    k: int,
    n: int,
    env: EnvModel,
    frame: int,
    fuel: nat,
)
    requires
        0 <= k <= n <= args.len(),
        eval_nums_s(args, n, env, frame, fuel).res matches Ok(ns0),
    ensures
        eval_nums_s(args, k, env, frame, fuel).res matches Ok(ns),
    decreases n - k,
{
    if k < n {
        assert(eval_nums_s(args, n - 1, env, frame, fuel).res matches Ok(ns1));
        lemma_eval_nums_prefix_ok(args, k, n - 1, env, frame, fuel);
    }
}

/// Once the evaluation of an argument list has failed, evaluating more
/// of the list changes nothing: the first error is the outcome.
proof fn lemma_eval_nums_err_stable(
    args: Seq<Box<Exp>>,
    m: int,
    n: int,
    env: EnvModel,
    frame: int,
    fuel: nat,
)
    requires
        0 <= m <= n <= args.len(),
        eval_nums_s(args, m, env, frame, fuel).res matches Err(er),
    ensures
        eval_nums_s(args, n, env, frame, fuel) == eval_nums_s(args, m, env, frame, fuel),
    decreases n - m,
{
    if m < n {
        lemma_eval_nums_err_stable(args, m, n - 1, env, frame, fuel);
    }
}

/// Logical operators are strict: they evaluate every argument.  If an
/// `and`, `or` or `not` expression yields a value at all, then every one
/// of its arguments — even those after a result-determining one — was
/// evaluated and coerced to a boolean successfully.
pub proof fn lemma_logical_evaluates_every_argument(
    e: Exp,
    env: EnvModel,
    frame: int,
    fuel: nat,
    k: int,
)
    requires
        e matches Exp::LogicalExp { op, args } && 0 <= k <= args@.len() && eval_exp_s(
            e,
            env,
            frame,
            fuel,
        ).res matches Ok(v),
    ensures
        e matches Exp::LogicalExp { op, args } ==> eval_bools_s(
            args@,
            k,
            env,
            frame,
            fuel,
        ).res matches Ok(bs),
{
    match e {
        Exp::LogicalExp { op, args } => {
            lemma_eval_bools_prefix_ok(args@, k, args@.len() as int, env, frame, fuel);
        },
        _ => {},
    }
}

/// Arithmetic is strictly typed: if an arithmetic expression yields a
/// value, every argument was evaluated and coerced to a number; nothing
/// is silently coerced or skipped.
pub proof fn lemma_num_op_evaluates_every_argument(
    e: Exp,
    env: EnvModel,
    frame: int,
    fuel: nat,
    k: int,
)
    requires
        e matches Exp::NumExp { op, args } && 0 <= k <= args@.len() && eval_exp_s(
            e,
            env,
            frame,
            fuel,
        ).res matches Ok(v),
    ensures
        e matches Exp::NumExp { op, args } ==> eval_nums_s(
            args@,
            k,
            env,
            frame,
            fuel,
        ).res matches Ok(ns),
{
    match e {
        Exp::NumExp { op, args } => {
            lemma_eval_nums_prefix_ok(args@, k, args@.len() as int, env, frame, fuel);
        },
        _ => {},
    }
}

/// A type mismatch is reported, never coerced: if some argument of an
/// arithmetic expression evaluates to a non-number while the earlier
/// ones were numbers, the whole expression yields exactly that
/// type-mismatch error.
pub proof fn lemma_num_op_type_mismatch_reported(
    e: Exp,
    env: EnvModel,
    frame: int,
    fuel: nat,
    k: int,
)
    requires
        e matches Exp::NumExp { op, args } && 0 <= k < args@.len() && ({
            let pre = eval_nums_s(args@, k, env, frame, fuel);
            let eo = eval_exp_s(*args@[k], pre.env, frame, fuel);
            pre.res matches Ok(ns) && eo.res matches Ok(v) && to_num_s(v) matches Err(er)
        }),
    ensures
        e matches Exp::NumExp { op, args } ==> ({
            let pre = eval_nums_s(args@, k, env, frame, fuel);
            let eo = eval_exp_s(*args@[k], pre.env, frame, fuel);
            eval_exp_s(e, env, frame, fuel).res == Err::<ValueModel, ErrorModel>(
                to_num_s(eo.res->Ok_0)->Err_0,
            )
        }),
{
    match e {
        Exp::NumExp { op, args } => {
            lemma_eval_nums_err_stable(args@, k + 1, args@.len() as int, env, frame, fuel);
        },
        _ => {},
    }
}

/// A conditional with a true condition never evaluates its else-branch:
/// two conditionals differing only there behave identically, so an error
/// present only in the unchosen branch never surfaces.
pub proof fn lemma_if_true_ignores_else(e1: Exp, e2: Exp, env: EnvModel, frame: int, fuel: nat)
    requires
        e1 matches Exp::IfExp { cond_exp: c1, then_exp: t1, .. } && e2 matches Exp::IfExp {
            cond_exp: c2,
            then_exp: t2,
            ..
        } && c1 == c2 && t1 == t2 && ({
            let co = eval_exp_s(*c1, env, frame, fuel);
            co.res matches Ok(v) && to_bool_s(v) matches Ok(true)
        }),
    ensures
        eval_exp_s(e1, env, frame, fuel) == eval_exp_s(e2, env, frame, fuel),
{
}

/// A conditional with a false condition never evaluates its then-branch.
pub proof fn lemma_if_false_ignores_then(e1: Exp, e2: Exp, env: EnvModel, frame: int, fuel: nat)
    requires
        e1 matches Exp::IfExp { cond_exp: c1, else_exp: l1, .. } && e2 matches Exp::IfExp {
            cond_exp: c2,
            else_exp: l2,
            ..
        } && c1 == c2 && l1 == l2 && ({
            let co = eval_exp_s(*c1, env, frame, fuel);
            co.res matches Ok(v) && to_bool_s(v) matches Ok(false)
        }),
    ensures
        eval_exp_s(e1, env, frame, fuel) == eval_exp_s(e2, env, frame, fuel),
{
}

/// Lexical scoping: evaluating an expression never changes what any
/// already-existing scope sees.  A variable defined inside a function
/// literal lives in a fresh frame and is invisible outside it, and
/// shadowing in an inner scope leaves every outer binding as it was.
pub proof fn lemma_lexical_scoping(e: Exp, env: EnvModel, frame: int, fuel: nat)
    requires
        exp_wf(e),
        env.wf(),
        0 <= frame < env.frames.len(),
    ensures
        ({
            let o = eval_exp_s(e, env, frame, fuel);
            &&& env_grows(env, o.env)
            &&& forall|f: int, name: Seq<char>|
                0 <= f < env.frames.len() ==> #[trigger] o.env.lookup(f, name) == env.lookup(
                    f,
                    name,
                )
        }),
{
    lemma_eval_exp_s_wf(e, env, frame, fuel);
    let o = eval_exp_s(e, env, frame, fuel);
    assert forall|f: int, name: Seq<char>| 0 <= f < env.frames.len() implies #[trigger] o.env.lookup(
        f,
        name,
    ) == env.lookup(f, name) by {
        lemma_lookup_grows(env, o.env, f, name);
    }
}

/// A definition makes its name resolve to the defined value in the very
/// frame it executed in; a closure defined this way finds itself by name
/// when its body later searches outward from that frame.
pub proof fn lemma_define_makes_name_visible(s: Stmt, env: EnvModel, frame: int, fuel: nat)
    requires
        crate::ast::stmt_wf(s),
        env.wf(),
        0 <= frame < env.frames.len(),
        s matches Stmt::DefStmt { id, exp } && eval_exp_s(exp, env, frame, fuel).res matches Ok(v),
    ensures
        s matches Stmt::DefStmt { id, exp } ==> ({
            let eo = eval_exp_s(exp, env, frame, fuel);
            let o = eval_stmt_s(s, env, frame, fuel);
            &&& o.res matches Ok(u)
            &&& o.env.lookup(frame, exp_text(id)) == Some(eo.res->Ok_0)
        }),
{
    match s {
        Stmt::DefStmt { id, exp } => {
            lemma_eval_exp_s_wf(exp, env, frame, fuel);
        },
        _ => {},
    }
}

/// Closures capture their environment by reference, not by value: a
/// closure records the handle of frame `f`, so a name defined in `f`
/// only *after* the closure was created is still found when the closure
/// is later applied — the call frame is a child of `f` and resolves the
/// name to the later-bound value.  This is also why a function defined
/// with `define` can call itself by name inside its own body.
pub proof fn lemma_closure_sees_later_definitions(
    env: EnvModel,
    f: int,
    name: Seq<char>,
    v: ValueModel,
)
    requires
        env.wf(),
        0 <= f < env.frames.len(),
    ensures
        ({
            let env2 = env.bind(f, name, v).extend_m(f);
            env2.lookup(env.frames.len() as int, name) == Some(v)
        }),
{
    let env1 = env.bind(f, name, v);
    let env2 = env1.extend_m(f);
    let newf = env.frames.len() as int;
    assert(!env2.frames[newf].bindings.dom().contains(name));
    assert(env2.frames[f] == env1.frames[f]);
    assert(env2.frames[f].bindings[name] == v);
    assert(env2.lookup(f, name) == Some(v));
    assert(env2.lookup(newf, name) == env2.lookup(f, name));
}

/// An unbound identifier yields an unbound-variable error naming it, and
/// never a default value; a bound identifier yields exactly its binding.
pub proof fn lemma_unbound_identifier_is_error(s: String, env: EnvModel, frame: int, fuel: nat)
    ensures
        env.lookup(frame, s@) is None ==> eval_exp_s(Exp::Id(s), env, frame, fuel).res == Err::<
            ValueModel,
            ErrorModel,
        >(ErrorModel::UnboundVariable(s@)),
        env.lookup(frame, s@) matches Some(v) ==> eval_exp_s(Exp::Id(s), env, frame, fuel).res
            == Ok::<ValueModel, ErrorModel>(v),
{
}

} // verus!
