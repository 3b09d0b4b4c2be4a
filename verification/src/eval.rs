//! The evaluator: recursive reduction of an expression against a mutable
//! environment, specified by the spec-level interpreter `spec_eval`.
//!
//! Evaluation carries a fuel budget that bounds the depth of the reduction,
//! so that deeply nested expressions and recursive lambda applications end
//! in a reported `Exhausted` failure instead of unbounded native recursion.

use vstd::prelude::*;

use crate::ast::Atom;
use crate::ast::Expr;
use crate::ast::Operator;
use crate::ast::SpecAtom;
use crate::ast::SpecExpr;
use crate::ast::view_expr;
use crate::ast::view_expr_seq;
use crate::ast::view_expr_vec;
use crate::ast::lemma_view_expr_seq;
use crate::env::Environment;

verus! {

/// The model of an environment: symbol names to value models.
pub type SpecEnv = Map<Seq<char>, SpecExpr>;

/// A typed evaluation failure.
#[derive(Debug)]
pub enum EvalError {
    /// A symbol was looked up and is not bound.
    UndefinedSymbol(String),
    /// `define` was given a non-symbol name, or a lambda parameter is not a
    /// symbol.
    MalformedBinding,
    /// An operator was applied to a non-number, or `car`/`cdr` to a
    /// non-list.
    TypeMismatch,
    /// `quote` was given other than one argument, or an operator was given
    /// zero arguments.
    ArityError,
    /// The evaluated head of a call is not an operator, a lambda, or a
    /// builtin.
    InvalidCallee,
    /// Division by zero, or an arithmetic result outside the fixed-width
    /// integer range.
    ArithmeticFailure,
    /// The fuel budget ran out before evaluation finished.
    Exhausted,
}

/// The model of an evaluation failure.
pub enum SpecEvalError {
    UndefinedSymbol(Seq<char>),
    MalformedBinding,
    TypeMismatch,
    ArityError,
    InvalidCallee,
    ArithmeticFailure,
    Exhausted,
}

impl View for EvalError {
    type V = SpecEvalError;

    open spec fn view(&self) -> SpecEvalError {
        match self {
            EvalError::UndefinedSymbol(name) => SpecEvalError::UndefinedSymbol(name@),
            EvalError::MalformedBinding => SpecEvalError::MalformedBinding,
            EvalError::TypeMismatch => SpecEvalError::TypeMismatch,
            EvalError::ArityError => SpecEvalError::ArityError,
            EvalError::InvalidCallee => SpecEvalError::InvalidCallee,
            EvalError::ArithmeticFailure => SpecEvalError::ArithmeticFailure,
            EvalError::Exhausted => SpecEvalError::Exhausted,
        }
    }
}

/// What evaluating one expression comes to: a value or a failure, together
/// with the environment as it stands afterward.
pub enum SpecOutcome {
    Done(SpecExpr, SpecEnv),
    Failed(SpecEvalError, SpecEnv),
}

/// What evaluating a sequence of expressions left to right comes to.
pub enum SpecListOutcome {
    Done(Seq<SpecExpr>, SpecEnv),
    Failed(SpecEvalError, SpecEnv),
}

/// Truncating integer division (rounding toward zero), for `divisor != 0`.
pub open spec fn trunc_div(dividend: int, divisor: int) -> int {
    let mag = abs_int(dividend) / abs_int(divisor);
    if (dividend < 0) != (divisor < 0) {
        -mag
    } else {
        mag
    }
}

/// The absolute value of an integer.
pub open spec fn abs_int(x: int) -> int {
    if x < 0 {
        -x
    } else {
        x
    }
}

/// One step of the arithmetic fold, or `None` on division by zero or a
/// result outside the `i64` range.
pub open spec fn spec_apply(op: Operator, acc: int, n: int) -> Option<int> {
    let raw = match op {
        Operator::Plus => Some(acc + n),
        Operator::Minus => Some(acc - n),
        Operator::Multiply => Some(acc * n),
        Operator::Divide => if n == 0 {
            None
        } else {
            Some(trunc_div(acc, n))
        },
    };
    match raw {
        Some(v) => if i64::MIN <= v <= i64::MAX {
            Some(v)
        } else {
            None
        },
        None => None,
    }
}

/// The left fold of an operator over numbers, starting from `acc`.
pub open spec fn spec_fold(op: Operator, acc: int, rest: Seq<int>) -> Option<int>
    decreases rest.len(),
{
    if rest.len() == 0 {
        Some(acc)
    } else {
        match spec_apply(op, acc, rest[0]) {
            Some(next) => spec_fold(op, next, rest.subrange(1, rest.len() as int)),
            None => None,
        }
    }
}

/// The numbers held by a sequence of expression models, or `None` if any
/// element is not a numeric constant.
pub open spec fn spec_nums(es: Seq<SpecExpr>) -> Option<Seq<int>>
    decreases es.len(),
{
    if es.len() == 0 {
        Some(Seq::empty())
    } else {
        match es[0] {
            SpecExpr::Constant(SpecAtom::Number(n)) => match spec_nums(
                es.subrange(1, es.len() as int),
            ) {
                Some(rest) => Some(seq![n] + rest),
                None => None,
            },
            _ => None,
        }
    }
}

/// Bind lambda parameters to evaluated arguments, left to right, stopping
/// at the shorter sequence.  A non-symbol parameter fails, keeping the
/// bindings made before it.
pub open spec fn spec_bind_params(
    params: Seq<SpecAtom>,
    vals: Seq<SpecExpr>,
    env: SpecEnv,
) -> Result<SpecEnv, SpecEnv>
    decreases params.len(),
{
    if params.len() == 0 || vals.len() == 0 {
        Ok(env)
    } else {
        match params[0] {
            SpecAtom::Symbol(name) => spec_bind_params(
                params.subrange(1, params.len() as int),
                vals.subrange(1, vals.len() as int),
                env.insert(name, vals[0]),
            ),
            _ => Err(env),
        }
    }
}

/// Apply an already-evaluated head to already-evaluated arguments.  The
/// lambda case recurses into the body, so the fuel threads through.
pub open spec fn spec_apply_call(
    fuel: nat,
    head: SpecExpr,
    vals: Seq<SpecExpr>,
    env: SpecEnv,
) -> SpecOutcome
    decreases fuel, 0int, 0int,
{
    match head {
        SpecExpr::Constant(SpecAtom::Operator(op)) => match spec_nums(vals) {
            Some(nums) => if nums.len() == 0 {
                SpecOutcome::Failed(SpecEvalError::ArityError, env)
            } else {
                match spec_fold(op, nums[0], nums.subrange(1, nums.len() as int)) {
                    Some(total) => SpecOutcome::Done(
                        SpecExpr::Constant(SpecAtom::Number(total)),
                        env,
                    ),
                    None => SpecOutcome::Failed(SpecEvalError::ArithmeticFailure, env),
                }
            },
            None => SpecOutcome::Failed(SpecEvalError::TypeMismatch, env),
        },
        SpecExpr::Lambda(params, body) => match spec_bind_params(params, vals, env) {
            Ok(bound) => if fuel == 0 {
                SpecOutcome::Failed(SpecEvalError::Exhausted, bound)
            } else {
                match spec_eval((fuel - 1) as nat, *body, bound) {
                    // On success the environment is restored wholesale to
                    // the snapshot taken when the call began.
                    SpecOutcome::Done(out, _scratch) => SpecOutcome::Done(out, env),
                    // On failure the partially mutated table stands.
                    SpecOutcome::Failed(err, after) => SpecOutcome::Failed(err, after),
                }
            },
            Err(partial) => SpecOutcome::Failed(SpecEvalError::MalformedBinding, partial),
        },
        SpecExpr::Constant(SpecAtom::List) => SpecOutcome::Done(SpecExpr::List(vals), env),
        SpecExpr::Constant(SpecAtom::Car) => if vals.len() == 1 && vals[0] is List {
            let items = vals[0]->List_0;
            if items.len() == 0 {
                SpecOutcome::Done(SpecExpr::Nil, env)
            } else {
                SpecOutcome::Done(items[0], env)
            }
        } else {
            SpecOutcome::Failed(SpecEvalError::TypeMismatch, env)
        },
        SpecExpr::Constant(SpecAtom::Cdr) => if vals.len() == 1 && vals[0] is List {
            let items = vals[0]->List_0;
            if items.len() > 1 {
                SpecOutcome::Done(
                    SpecExpr::List(items.subrange(1, items.len() as int)),
                    env,
                )
            } else {
                SpecOutcome::Done(SpecExpr::Nil, env)
            }
        } else {
            SpecOutcome::Failed(SpecEvalError::TypeMismatch, env)
        },
        _ => SpecOutcome::Failed(SpecEvalError::InvalidCallee, env),
    }
}

/// The spec-level interpreter: what `eval` returns and how it leaves the
/// environment, for every expression, environment and fuel budget.
pub open spec fn spec_eval(fuel: nat, e: SpecExpr, env: SpecEnv) -> SpecOutcome
    decreases fuel, 1int, 0int,
{
    if fuel == 0 {
        SpecOutcome::Failed(SpecEvalError::Exhausted, env)
    } else {
        match e {
            SpecExpr::Constant(SpecAtom::Symbol(name)) => if env.contains_key(name) {
                SpecOutcome::Done(env[name], env)
            } else {
                SpecOutcome::Failed(SpecEvalError::UndefinedSymbol(name), env)
            },
            SpecExpr::Constant(_) => SpecOutcome::Done(e, env),
            SpecExpr::Define(SpecAtom::Symbol(name), value) => {
                match spec_eval((fuel - 1) as nat, *value, env) {
                    SpecOutcome::Done(v, env1) => SpecOutcome::Done(
                        SpecExpr::Nil,
                        env1.insert(name, v),
                    ),
                    SpecOutcome::Failed(err, env1) => SpecOutcome::Failed(err, env1),
                }
            },
            SpecExpr::Define(_, _) => SpecOutcome::Failed(SpecEvalError::MalformedBinding, env),
            SpecExpr::Call(head, tail) => {
                // `quote` is detected on the unevaluated head, since its
                // argument must not be evaluated.
                if *head == SpecExpr::Constant(SpecAtom::Quote) {
                    if tail.len() == 1 {
                        SpecOutcome::Done(tail[0], env)
                    } else {
                        SpecOutcome::Failed(SpecEvalError::ArityError, env)
                    }
                } else {
                    match spec_eval((fuel - 1) as nat, *head, env) {
                        SpecOutcome::Done(h, env1) => {
                            match spec_eval_list((fuel - 1) as nat, tail, env1) {
                                SpecListOutcome::Done(vals, env2) => spec_apply_call(
                                    fuel as nat,
                                    h,
                                    vals,
                                    env2,
                                ),
                                SpecListOutcome::Failed(err, env2) => SpecOutcome::Failed(
                                    err,
                                    env2,
                                ),
                            }
                        },
                        SpecOutcome::Failed(err, env1) => SpecOutcome::Failed(err, env1),
                    }
                }
            },
            SpecExpr::Lambda(_, _) => SpecOutcome::Done(e, env),
            SpecExpr::List(_) => SpecOutcome::Done(e, env),
            SpecExpr::Nil => SpecOutcome::Done(e, env),
        }
    }
}

/// Left-to-right evaluation of a sequence of expressions, threading the
/// environment, stopping at the first failure.  Each later element is
/// evaluated under a budget one smaller, so the whole sequence stays within
/// the caller's budget.
pub open spec fn spec_eval_list(fuel: nat, es: Seq<SpecExpr>, env: SpecEnv) -> SpecListOutcome
    decreases fuel, 2int, es.len(),
{
    if es.len() == 0 {
        SpecListOutcome::Done(Seq::empty(), env)
    } else if fuel == 0 {
        SpecListOutcome::Failed(SpecEvalError::Exhausted, env)
    } else {
        match spec_eval(fuel, es[0], env) {
            SpecOutcome::Done(v, env1) => {
                match spec_eval_list((fuel - 1) as nat, es.subrange(1, es.len() as int), env1) {
                    SpecListOutcome::Done(vals, env2) => SpecListOutcome::Done(
                        seq![v] + vals,
                        env2,
                    ),
                    SpecListOutcome::Failed(err, env2) => SpecListOutcome::Failed(err, env2),
                }
            },
            SpecOutcome::Failed(err, env1) => SpecListOutcome::Failed(err, env1),
        }
    }
}

/// Whether an expression model is a numeric constant.
pub open spec fn is_num_expr(e: SpecExpr) -> bool {
    e matches SpecExpr::Constant(SpecAtom::Number(_))
}

/// The number held by a numeric constant.
pub open spec fn num_of_expr(e: SpecExpr) -> int {
    match e {
        SpecExpr::Constant(SpecAtom::Number(n)) => n,
        _ => 0,
    }
}

/// `spec_nums` succeeds exactly when every element is a numeric constant,
/// and then lists the numbers in order.
pub proof fn lemma_spec_nums(s: Seq<SpecExpr>)
    ensures
        (spec_nums(s) is Some) <==> (forall|i: int| 0 <= i < s.len() ==> is_num_expr(s[i])),
        spec_nums(s) is Some ==> spec_nums(s)->Some_0.len() == s.len(),
        spec_nums(s) is Some ==> forall|i: int|
            0 <= i < s.len() ==> spec_nums(s)->Some_0[i] == num_of_expr(s[i]),
    decreases s.len(),
{
    if s.len() > 0 {
        let rest = s.subrange(1, s.len() as int);
        lemma_spec_nums(rest);
        assert(forall|i: int| 0 <= i < rest.len() ==> rest[i] == s[i + 1]);
        if is_num_expr(s[0]) {
            if spec_nums(rest) is Some {
                assert forall|i: int| 0 <= i < s.len() implies is_num_expr(s[i]) by {
                    if i >= 1 {
                        assert(rest[i - 1] == s[i]);
                    }
                }
                assert forall|i: int|
                    0 <= i < s.len() implies spec_nums(s)->Some_0[i] == num_of_expr(s[i]) by {
                    if i >= 1 {
                        assert(rest[i - 1] == s[i]);
                        assert(spec_nums(s)->Some_0[i] == spec_nums(rest)->Some_0[i - 1]);
                    }
                }
            } else {
                let w = choose|i: int| 0 <= i < rest.len() && !is_num_expr(rest[i]);
                assert(!is_num_expr(s[w + 1]));
            }
        }
    }
}

/// The absolute value of an `i64`, as a `u64`.
fn abs_u64(x: i64) -> (r: u64)
    ensures
        r as int == abs_int(x as int),
{
    if x >= 0 {
        x as u64
    } else if x == i64::MIN {
        9223372036854775808u64
    } else {
        (-x) as u64
    }
}

/// One step of the arithmetic fold on fixed-width numbers: `None` on
/// division by zero or on a result outside the `i64` range.
fn apply_op(op: Operator, acc: i64, n: i64) -> (r: Option<i64>)
    ensures
        match spec_apply(op, acc as int, n as int) {
            Some(v) => r matches Some(x) && x as int == v,
            None => r is None,
        },
{
    match op {
        Operator::Plus => {
            let wide: i128 = acc as i128 + n as i128;
            if wide < i64::MIN as i128 || wide > i64::MAX as i128 {
                None
            } else {
                Some(wide as i64)
            }
        },
        Operator::Minus => {
            let wide: i128 = acc as i128 - n as i128;
            if wide < i64::MIN as i128 || wide > i64::MAX as i128 {
                None
            } else {
                Some(wide as i64)
            }
        },
        Operator::Multiply => {
            proof {
                let a = acc as int;
                let b = n as int;
                assert(a * b <= 85070591730234615865843651857942052864
                    && a * b >= -85070591730234615865843651857942052864) by (nonlinear_arith)
                    requires
                        -9223372036854775808 <= a <= 9223372036854775807,
                        -9223372036854775808 <= b <= 9223372036854775807,
                ;
            }
            let wide: i128 = acc as i128 * n as i128;
            if wide < i64::MIN as i128 || wide > i64::MAX as i128 {
                None
            } else {
                Some(wide as i64)
            }
        },
        Operator::Divide => {
            if n == 0 {
                None
            } else {
                let negative = (acc < 0) != (n < 0);
                let ua = abs_u64(acc);
                let un = abs_u64(n);
                let q = ua / un;
                if negative {
                    if q > 9223372036854775808u64 {
                        None
                    } else {
                        Some((-(q as i128)) as i64)
                    }
                } else {
                    if q > 9223372036854775807u64 {
                        None
                    } else {
                        Some(q as i64)
                    }
                }
            }
        },
    }
}

/// The numbers held by a slice of expressions: fails with a type mismatch
/// if any element is not a numeric constant.
pub fn exprs_to_numbers(exprs: &[Expr]) -> (r: Result<Vec<i64>, EvalError>)
    ensures
        match spec_nums(view_expr_seq(exprs@)) {
            Some(ns) => r matches Ok(v) && v@.len() == ns.len() && (forall|i: int|
                0 <= i < ns.len() ==> v@[i] as int == ns[i]),
            None => r matches Err(e) && e@ == SpecEvalError::TypeMismatch,
        },
{
    proof {
        lemma_view_expr_seq(exprs@);
        lemma_spec_nums(view_expr_seq(exprs@));
    }
    let ghost vs = view_expr_seq(exprs@);
    let mut nums: Vec<i64> = Vec::new();
    let mut i: usize = 0;
    while i < exprs.len()
        invariant
            i <= exprs@.len(),
            vs == view_expr_seq(exprs@),
            vs.len() == exprs@.len(),
            forall|j: int| 0 <= j < exprs@.len() ==> vs[j] == view_expr(exprs@[j]),
            nums@.len() == i,
            forall|j: int| 0 <= j < i ==> is_num_expr(vs[j]),
            forall|j: int| 0 <= j < i ==> (#[trigger] nums@[j]) as int == num_of_expr(vs[j]),
        decreases exprs@.len() - i,
    {
        match &exprs[i] {
            Expr::Constant(a) => match a {
                Atom::Number(n) => {
                    nums.push(*n);
                },
                _ => {
                    proof {
                        lemma_spec_nums(vs);
                        assert(!is_num_expr(vs[i as int]));
                    }
                    return Err(EvalError::TypeMismatch);
                },
            },
            _ => {
                proof {
                    lemma_spec_nums(vs);
                    assert(!is_num_expr(vs[i as int]));
                }
                return Err(EvalError::TypeMismatch);
            },
        }
        i += 1;
    }
    proof {
        lemma_spec_nums(vs);
    }
    Ok(nums)
}

/// The numbers held by a slice of atoms: fails with a type mismatch if any
/// element is not a number.
pub fn atoms_to_numbers(atoms: &[Atom]) -> (r: Result<Vec<i64>, EvalError>)
    ensures
        match r {
            Ok(v) => v@.len() == atoms@.len() && (forall|i: int|
                0 <= i < atoms@.len() ==> (#[trigger] atoms@[i])@ is Number && v@[i] as int
                    == atoms@[i]@->Number_0),
            Err(e) => e@ == SpecEvalError::TypeMismatch && (exists|i: int|
                0 <= i < atoms@.len() && !((#[trigger] atoms@[i])@ is Number)),
        },
{
    let mut nums: Vec<i64> = Vec::new();
    let mut i: usize = 0;
    while i < atoms.len()
        invariant
            i <= atoms@.len(),
            nums@.len() == i,
            forall|j: int| 0 <= j < i ==> (#[trigger] atoms@[j])@ is Number && nums@[j] as int
                == atoms@[j]@->Number_0,
        decreases atoms@.len() - i,
    {
        match &atoms[i] {
            Atom::Number(n) => {
                nums.push(*n);
            },
            _ => {
                return Err(EvalError::TypeMismatch);
            },
        }
        i += 1;
    }
    Ok(nums)
}

/// Apply an operator to already-evaluated arguments: every argument must be
/// a number, at least one is required, and the numbers are reduced by a
/// left fold.
fn apply_operator(op: Operator, vals: &Vec<Expr>) -> (r: Result<Expr, EvalError>)
    ensures
        ({
            let vs = view_expr_vec(*vals);
            match spec_nums(vs) {
                Some(ns) => if ns.len() == 0 {
                    r matches Err(e) && e@ == SpecEvalError::ArityError
                } else {
                    match spec_fold(op, ns[0], ns.subrange(1, ns.len() as int)) {
                        Some(total) => r matches Ok(out) && out@ == SpecExpr::Constant(
                            SpecAtom::Number(total),
                        ),
                        None => r matches Err(e) && e@ == SpecEvalError::ArithmeticFailure,
                    }
                },
                None => r matches Err(e) && e@ == SpecEvalError::TypeMismatch,
            }
        }),
{
    let nums = match exprs_to_numbers(vals.as_slice()) {
        Ok(v) => v,
        Err(e) => {
            return Err(e);
        },
    };
    if nums.len() == 0 {
        return Err(EvalError::ArityError);
    }
    let ghost ns = spec_nums(view_expr_vec(*vals))->Some_0;
    let mut acc: i64 = nums[0];
    let mut i: usize = 1;
    while i < nums.len()
        invariant
            1 <= i <= nums@.len(),
            spec_nums(view_expr_vec(*vals)) == Some(ns),
            ns.len() == nums@.len(),
            forall|j: int| 0 <= j < ns.len() ==> (#[trigger] nums@[j]) as int == ns[j],
            spec_fold(op, ns[0], ns.subrange(1, ns.len() as int)) == spec_fold(
                op,
                acc as int,
                ns.subrange(i as int, ns.len() as int),
            ),
        decreases nums@.len() - i,
    {
        let ghost pending = ns.subrange(i as int, ns.len() as int);
        proof {
            assert(pending[0] == ns[i as int]);
            assert(pending.subrange(1, pending.len() as int) =~= ns.subrange(
                i as int + 1,
                ns.len() as int,
            ));
        }
        match apply_op(op, acc, nums[i]) {
            Some(next) => {
                acc = next;
            },
            None => {
                return Err(EvalError::ArithmeticFailure);
            },
        }
        i += 1;
    }
    proof {
        assert(ns.subrange(ns.len() as int, ns.len() as int) =~= Seq::<int>::empty());
    }
    Ok(Expr::Constant(Atom::Number(acc)))
}

/// Bind each lambda parameter to the matching evaluated argument, stopping
/// at the shorter sequence; a non-symbol parameter fails, and the bindings
/// made before it stay in force.
fn bind_params(params: Vec<Atom>, vals: Vec<Expr>, env: &mut Environment) -> (r: Result<
    (),
    EvalError,
>)
    ensures
        match spec_bind_params(
            params@.map_values(|a: Atom| a@),
            view_expr_vec(vals),
            old(env)@,
        ) {
            Ok(bound) => r is Ok && final(env)@ == bound,
            Err(partial) => r matches Err(e) && e@ == SpecEvalError::MalformedBinding
                && final(env)@ == partial,
        },
    decreases params@.len(),
{
    let ghost ps = params@.map_values(|a: Atom| a@);
    let ghost vs = view_expr_vec(vals);
    proof {
        lemma_view_expr_seq(vals@);
    }
    if params.len() == 0 || vals.len() == 0 {
        return Ok(());
    }
    let mut params = params;
    let mut vals = vals;
    let ghost ovals = vals@;
    let p = params.remove(0);
    let v = vals.remove(0);
    match p {
        Atom::Symbol(name) => {
            proof {
                assert(ps[0] == p@);
                assert(vs[0] == view_expr(ovals[0]));
                assert(params@.map_values(|a: Atom| a@) =~= ps.subrange(1, ps.len() as int));
                lemma_view_expr_seq(vals@);
                assert(vals@ =~= ovals.subrange(1, ovals.len() as int));
                assert(view_expr_seq(vals@) =~= vs.subrange(1, vs.len() as int));
            }
            env.bind(name, v);
            bind_params(params, vals, env)
        },
        _ => Err(EvalError::MalformedBinding),
    }
}

/// Evaluate one expression against the environment, under a fuel budget
/// bounding the recursion depth.  The result, the failure, and the state of
/// the environment afterward are exactly those of the spec-level
/// interpreter `spec_eval`.
pub fn eval(e: Expr, env: &mut Environment, fuel: u64) -> (r: Result<Expr, EvalError>)
    ensures
        match spec_eval(fuel as nat, e@, old(env)@) {
            SpecOutcome::Done(v, m) => r matches Ok(out) && out@ == v && final(env)@ == m,
            SpecOutcome::Failed(err, m) => r matches Err(er) && er@ == err && final(env)@ == m,
        },
    decreases fuel, 1int, 0int,
{
    if fuel == 0 {
        return Err(EvalError::Exhausted);
    }
    match e {
        Expr::Constant(a) => match a {
            Atom::Symbol(name) => match env.lookup(&name) {
                Some(v) => Ok(v),
                None => Err(EvalError::UndefinedSymbol(name)),
            },
            other => Ok(Expr::Constant(other)),
        },
        Expr::Define(name, value) => match name {
            Atom::Symbol(sym) => {
                let v = match eval(*value, env, fuel - 1) {
                    Ok(v) => v,
                    Err(er) => {
                        return Err(er);
                    },
                };
                env.bind(sym, v);
                Ok(Expr::Nil)
            },
            _ => Err(EvalError::MalformedBinding),
        },
        Expr::Call(head, tail) => {
            let quoting = match &*head {
                Expr::Constant(Atom::Quote) => true,
                _ => false,
            };
            proof {
                lemma_view_expr_seq(tail@);
            }
            if quoting {
                let mut tail = tail;
                if tail.len() == 1 {
                    Ok(tail.remove(0))
                } else {
                    Err(EvalError::ArityError)
                }
            } else {
                let h = match eval(*head, env, fuel - 1) {
                    Ok(h) => h,
                    Err(er) => {
                        return Err(er);
                    },
                };
                let vals = match eval_list(tail, env, fuel - 1) {
                    Ok(v) => v,
                    Err(er) => {
                        return Err(er);
                    },
                };
                apply_call(h, vals, env, fuel)
            }
        },
        Expr::Lambda(params, body) => Ok(Expr::Lambda(params, body)),
        Expr::List(items) => Ok(Expr::List(items)),
        Expr::Nil => Ok(Expr::Nil),
    }
}

/// Evaluate the elements of a vector left to right, threading the
/// environment and stopping at the first failure.
fn eval_list(args: Vec<Expr>, env: &mut Environment, fuel: u64) -> (r: Result<Vec<Expr>, EvalError>)
    ensures
        match spec_eval_list(fuel as nat, view_expr_vec(args), old(env)@) {
            SpecListOutcome::Done(vs, m) => r matches Ok(v) && view_expr_vec(v) == vs
                && final(env)@ == m,
            SpecListOutcome::Failed(err, m) => r matches Err(er) && er@ == err && final(env)@ == m,
        },
    decreases fuel, 2int, args@.len(),
{
    let ghost oargs = args@;
    let ghost vs = view_expr_vec(args);
    proof {
        lemma_view_expr_seq(oargs);
    }
    if args.len() == 0 {
        let empty: Vec<Expr> = Vec::new();
        proof {
            assert(view_expr_seq(empty@) =~= Seq::<SpecExpr>::empty());
            assert(vs =~= Seq::<SpecExpr>::empty());
        }
        return Ok(empty);
    }
    if fuel == 0 {
        return Err(EvalError::Exhausted);
    }
    let mut args = args;
    let first = args.remove(0);
    let v = match eval(first, env, fuel) {
        Ok(v) => v,
        Err(er) => {
            return Err(er);
        },
    };
    proof {
        assert(args@ =~= oargs.subrange(1, oargs.len() as int));
        lemma_view_expr_seq(args@);
        assert(view_expr_seq(args@) =~= vs.subrange(1, vs.len() as int));
    }
    let mut rest = match eval_list(args, env, fuel - 1) {
        Ok(v) => v,
        Err(er) => {
            return Err(er);
        },
    };
    let ghost orest = rest@;
    rest.insert(0, v);
    proof {
        lemma_view_expr_seq(orest);
        lemma_view_expr_seq(rest@);
        assert(view_expr_seq(rest@) =~= seq![v@] + view_expr_seq(orest));
    }
    Ok(rest)
}

/// Apply an already-evaluated head to already-evaluated arguments: an
/// operator folds, a lambda binds and runs its body with the snapshot and
/// restore discipline, the builtins act on lists, and anything else is an
/// invalid callee.
fn apply_call(head: Expr, vals: Vec<Expr>, env: &mut Environment, fuel: u64) -> (r: Result<
    Expr,
    EvalError,
>)
    ensures
        match spec_apply_call(fuel as nat, head@, view_expr_vec(vals), old(env)@) {
            SpecOutcome::Done(v, m) => r matches Ok(out) && out@ == v && final(env)@ == m,
            SpecOutcome::Failed(err, m) => r matches Err(er) && er@ == err && final(env)@ == m,
        },
    decreases fuel, 0int, 0int,
{
    let ghost vs = view_expr_vec(vals);
    proof {
        lemma_view_expr_seq(vals@);
        assert(vs == view_expr_seq(vals@));
    }
    match head {
        Expr::Constant(a) => match a {
            Atom::Operator(op) => {
                let r = apply_operator(op, &vals);
                return r;
            },
            Atom::List => {
                return Ok(Expr::List(vals));
            },
            Atom::Car => {
                if vals.len() != 1 {
                    return Err(EvalError::TypeMismatch);
                }
                let mut vals = vals;
                match vals.remove(0) {
                    Expr::List(items) => {
                        let mut items = items;
                        proof {
                            lemma_view_expr_seq(items@);
                            assert(view_expr_vec(items) == view_expr_seq(items@));
                            assert(vs[0] == SpecExpr::List(view_expr_vec(items)));
                        }
                        if items.len() == 0 {
                            return Ok(Expr::Nil);
                        } else {
                            return Ok(items.remove(0));
                        }
                    },
                    _ => {
                        return Err(EvalError::TypeMismatch);
                    },
                }
            },
            Atom::Cdr => {
                if vals.len() != 1 {
                    return Err(EvalError::TypeMismatch);
                }
                let mut vals = vals;
                match vals.remove(0) {
                    Expr::List(items) => {
                        let mut items = items;
                        let ghost oitems = items@;
                        proof {
                            lemma_view_expr_seq(oitems);
                            assert(view_expr_vec(items) == view_expr_seq(oitems));
                            assert(vs[0] == SpecExpr::List(view_expr_seq(oitems)));
                        }
                        if items.len() <= 1 {
                            return Ok(Expr::Nil);
                        } else {
                            let _dropped = items.remove(0);
                            proof {
                                assert(items@ =~= oitems.subrange(1, oitems.len() as int));
                                lemma_view_expr_seq(items@);
                                assert(view_expr_vec(items) == view_expr_seq(items@));
                                assert(view_expr_seq(items@) =~= view_expr_seq(oitems).subrange(
                                    1,
                                    view_expr_seq(oitems).len() as int,
                                ));
                            }
                            return Ok(Expr::List(items));
                        }
                    },
                    _ => {
                        return Err(EvalError::TypeMismatch);
                    },
                }
            },
            _ => {
                return Err(EvalError::InvalidCallee);
            },
        },
        Expr::Lambda(params, body) => {
            let snapshot = env.snapshot();
            match bind_params(params, vals, env) {
                Ok(()) => {
                    if fuel == 0 {
                        return Err(EvalError::Exhausted);
                    }
                    match eval(*body, env, fuel - 1) {
                        Ok(out) => {
                            env.restore(snapshot);
                            return Ok(out);
                        },
                        Err(er) => {
                            return Err(er);
                        },
                    }
                },
                Err(er) => {
                    return Err(er);
                },
            }
        },
        _ => Err(EvalError::InvalidCallee),
    }
}

} // verus!
