//! Laws of the library, each stated over the spec-level models and proved
//! once for all inputs.

use vstd::prelude::*;

use crate::ast::SpecAtom;
use crate::ast::SpecExpr;
use crate::eval::SpecEnv;
use crate::eval::SpecEvalError;
use crate::eval::SpecListOutcome;
use crate::eval::SpecOutcome;
use crate::eval::is_num_expr;
use crate::eval::lemma_spec_nums;
use crate::eval::spec_apply_call;
use crate::eval::spec_bind_params;
use crate::eval::spec_eval;
use crate::eval::spec_eval_list;
use crate::eval::spec_fold;
use crate::eval::spec_nums;
use crate::ast::Operator;
use crate::parser::digit_end;
use crate::parser::digit_val;
use crate::parser::digits_val;
use crate::parser::is_digit;
use crate::parser::skip_ws;
use crate::parser::spec_atom;
use crate::parser::spec_parse;
use crate::parser::spec_parse_expr;
use crate::parser::spec_parse_exprs;
use crate::parser::word_at;
use crate::printer::spec_digits;
use crate::printer::spec_print_expr;

verus! {

/// Evaluating a sequence of numeric constants leaves each unchanged and
/// touches nothing in the environment.
proof fn lemma_eval_list_of_constants(fuel: nat, es: Seq<SpecExpr>, env: SpecEnv)
    requires
        forall|i: int| 0 <= i < es.len() ==> is_num_expr(#[trigger] es[i]),
        fuel >= es.len() + 1,
    ensures
        spec_eval_list(fuel, es, env) == SpecListOutcome::Done(es, env),
    decreases es.len(),
{
    if es.len() > 0 {
        let rest = es.subrange(1, es.len() as int);
        assert(spec_eval(fuel, es[0], env) == SpecOutcome::Done(es[0], env));
        lemma_eval_list_of_constants((fuel - 1) as nat, rest, env);
        assert(seq![es[0]] + rest =~= es);
        assert(spec_eval_list(fuel, es, env) == SpecListOutcome::Done(seq![es[0]] + rest, env));
    } else {
        assert(es =~= Seq::<SpecExpr>::empty());
    }
}

/// An operator applied to zero operands always fails with the arity
/// error, whatever the operator, the environment, and the (sufficient)
/// fuel: the empty tail is rejected, never reduced, and the verified
/// evaluator returns this failure instead of aborting the process.
pub proof fn lemma_operator_empty_tail(op: Operator, env: SpecEnv, fuel: nat)
    requires
        fuel >= 2,
    ensures
        spec_eval(
            fuel,
            SpecExpr::Call(Box::new(SpecExpr::Constant(SpecAtom::Operator(op))), Seq::empty()),
            env,
        ) == SpecOutcome::Failed(SpecEvalError::ArityError, env),
{
    let head = SpecExpr::Constant(SpecAtom::Operator(op));
    assert(spec_eval((fuel - 1) as nat, head, env) == SpecOutcome::Done(head, env));
    assert(spec_eval_list((fuel - 1) as nat, Seq::empty(), env) == SpecListOutcome::Done(
        Seq::empty(),
        env,
    ));
    assert(spec_nums(Seq::empty()) == Some(Seq::<int>::empty()));
    assert(spec_apply_call(fuel, head, Seq::empty(), env) == SpecOutcome::Failed(
        SpecEvalError::ArityError,
        env,
    ));
}

/// For every well-formed arithmetic call with at least one numeric
/// operand, the result is the order-dependent left fold of the operator
/// over the operands in the order written — never a commutative or
/// reassociated normal form — or the arithmetic failure the fold runs
/// into.
pub proof fn lemma_arith_left_fold(op: Operator, nums: Seq<int>, env: SpecEnv, fuel: nat)
    requires
        nums.len() >= 1,
        fuel >= nums.len() + 2,
        forall|k: int| 0 <= k < nums.len() ==> i64::MIN <= #[trigger] nums[k] <= i64::MAX,
    ensures
        ({
            let es = Seq::new(nums.len(), |i: int| SpecExpr::Constant(SpecAtom::Number(nums[i])));
            let call = SpecExpr::Call(
                Box::new(SpecExpr::Constant(SpecAtom::Operator(op))),
                es,
            );
            spec_eval(fuel, call, env) == match spec_fold(
                op,
                nums[0],
                nums.subrange(1, nums.len() as int),
            ) {
                Some(total) => SpecOutcome::Done(
                    SpecExpr::Constant(SpecAtom::Number(total)),
                    env,
                ),
                None => SpecOutcome::Failed(SpecEvalError::ArithmeticFailure, env),
            }
        }),
{
    let es = Seq::new(nums.len(), |i: int| SpecExpr::Constant(SpecAtom::Number(nums[i])));
    let head = SpecExpr::Constant(SpecAtom::Operator(op));
    assert(head != SpecExpr::Constant(SpecAtom::Quote));
    assert(spec_eval((fuel - 1) as nat, head, env) == SpecOutcome::Done(head, env));
    assert(forall|i: int| 0 <= i < es.len() ==> is_num_expr(#[trigger] es[i]));
    lemma_eval_list_of_constants((fuel - 1) as nat, es, env);
    lemma_spec_nums(es);
    let ns = spec_nums(es)->Some_0;
    assert(ns =~= nums);
    assert(spec_apply_call(fuel, head, es, env) == match spec_fold(
        op,
        nums[0],
        nums.subrange(1, nums.len() as int),
    ) {
        Some(total) => SpecOutcome::Done(SpecExpr::Constant(SpecAtom::Number(total)), env),
        None => SpecOutcome::Failed(SpecEvalError::ArithmeticFailure, env),
    });
}

/// The restore discipline of a lambda call: when the head evaluates to a
/// lambda, the arguments evaluate, the parameters bind, and the body
/// evaluates successfully, the call returns the body's result and leaves
/// the environment exactly as it stood after the arguments were
/// evaluated — the snapshot.  Whatever bindings the body made (its final
/// environment `scratch`, parameter bindings and nested `define`s alike)
/// do not survive the call.
pub proof fn lemma_lambda_call_restores(
    fuel: nat,
    head: SpecExpr,
    tail: Seq<SpecExpr>,
    env: SpecEnv,
    params: Seq<SpecAtom>,
    body: SpecExpr,
    vals: Seq<SpecExpr>,
    env1: SpecEnv,
    env2: SpecEnv,
    bound: SpecEnv,
    out: SpecExpr,
    scratch: SpecEnv,
)
    requires
        fuel >= 1,
        head != SpecExpr::Constant(SpecAtom::Quote),
        spec_eval((fuel - 1) as nat, head, env) == SpecOutcome::Done(
            SpecExpr::Lambda(params, Box::new(body)),
            env1,
        ),
        spec_eval_list((fuel - 1) as nat, tail, env1) == SpecListOutcome::Done(vals, env2),
        spec_bind_params(params, vals, env2) == Ok::<SpecEnv, SpecEnv>(bound),
        spec_eval((fuel - 1) as nat, body, bound) == SpecOutcome::Done(out, scratch),
    ensures
        spec_eval(fuel, SpecExpr::Call(Box::new(head), tail), env) == SpecOutcome::Done(
            out,
            env2,
        ),
{
    let lam = SpecExpr::Lambda(params, Box::new(body));
    assert(spec_apply_call(fuel, lam, vals, env2) == SpecOutcome::Done(out, env2));
}

/// A run of printed digits holds digit characters alone, and at least
/// one.
proof fn lemma_spec_digits_are_digits(v: int)
    requires
        v >= 0,
    ensures
        spec_digits(v).len() >= 1,
        forall|j: int| 0 <= j < spec_digits(v).len() ==> is_digit(#[trigger] spec_digits(v)[j]),
    decreases v,
{
    if v >= 10 {
        lemma_spec_digits_are_digits(v / 10);
    }
}

/// Reading printed digits gives back the printed number.
proof fn lemma_digits_val_inverse(v: int)
    requires
        v >= 0,
    ensures
        digits_val(spec_digits(v)) == v,
    decreases v,
{
    if v < 10 {
        let ds = spec_digits(v);
        assert(ds.drop_last() =~= Seq::<char>::empty());
        assert(digits_val(Seq::<char>::empty()) == 0);
        assert(digits_val(ds) == digits_val(ds.drop_last()) * 10 + digit_val(ds.last()));
    } else {
        lemma_digits_val_inverse(v / 10);
        let ds = spec_digits(v);
        assert(ds.drop_last() =~= spec_digits(v / 10));
        assert(ds.last() == crate::printer::digit_char(v % 10));
    }
}

/// A text of digit characters alone is scanned to its end.
proof fn lemma_digit_end_full(s: Seq<char>, pos: int)
    requires
        0 <= pos <= s.len(),
        forall|j: int| 0 <= j < s.len() ==> is_digit(#[trigger] s[j]),
    ensures
        digit_end(s, pos) == s.len(),
    decreases s.len() - pos,
{
    if pos < s.len() {
        lemma_digit_end_full(s, pos + 1);
    }
}

/// No whitespace stands in a text of digit characters alone.
proof fn lemma_skip_ws_digits(s: Seq<char>, pos: int)
    requires
        0 <= pos <= s.len(),
        forall|j: int| 0 <= j < s.len() ==> is_digit(#[trigger] s[j]),
    ensures
        skip_ws(s, pos) == pos,
{
}

/// A word of letters never stands at a digit: the words all open with a
/// letter.
proof fn lemma_no_word_at_digit(s: Seq<char>, pos: int, word: Seq<char>)
    requires
        0 <= pos < s.len(),
        is_digit(s[pos]),
        word.len() >= 1,
        crate::parser::is_alpha(word[0]),
    ensures
        !word_at(s, pos, word),
{
    if word_at(s, pos, word) {
        assert(s.subrange(pos, pos + word.len())[0] == s[pos]);
    }
}

/// The round trip of a numeric constant: printing it and parsing the
/// text back yields exactly that constant, for every representable value
/// that is not negative.  (A negative value prints with a leading minus,
/// which the grammar reads as an operator, not as part of a number.)
pub proof fn lemma_number_round_trip(n: int)
    requires
        0 <= n <= i64::MAX,
    ensures
        spec_parse(spec_print_expr(SpecExpr::Constant(SpecAtom::Number(n)))) == Ok::<
            Seq<SpecExpr>,
            crate::parser::SpecParseError,
        >(seq![SpecExpr::Constant(SpecAtom::Number(n))]),
{
    let s = spec_digits(n);
    assert(spec_print_expr(SpecExpr::Constant(SpecAtom::Number(n))) == s);
    lemma_spec_digits_are_digits(n);
    lemma_digits_val_inverse(n);
    lemma_skip_ws_digits(s, 0);
    lemma_digit_end_full(s, 0);
    lemma_no_word_at_digit(s, 0, seq!['q', 'u', 'o', 't', 'e']);
    lemma_no_word_at_digit(s, 0, seq!['l', 'i', 's', 't']);
    lemma_no_word_at_digit(s, 0, seq!['c', 'a', 'r']);
    lemma_no_word_at_digit(s, 0, seq!['c', 'd', 'r']);
    assert(s.subrange(0, s.len() as int) =~= s);
    let e = SpecExpr::Constant(SpecAtom::Number(n));
    assert(spec_atom(s, 0) == Some((SpecAtom::Number(n), s.len() as int)));
    assert(spec_parse_expr(s, 0) == Some((e, s.len() as int))) by {
        lemma_skip_ws_digits(s, 0);
    }
    let end = s.len() as int;
    assert(spec_parse_expr(s, end) is None) by {
        assert(skip_ws(s, end) == end);
        assert(spec_atom(s, end) is None);
    }
    assert(spec_parse_exprs(s, end) == (Seq::<SpecExpr>::empty(), end));
    assert(spec_parse_exprs(s, 0).0 =~= seq![e]);
    assert(spec_parse_exprs(s, 0).1 == end);
}

} // verus!
