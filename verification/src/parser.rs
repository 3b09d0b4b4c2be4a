//! The parser: from one line of text to the ordered sequence of top-level
//! expressions, specified by the spec-level grammar functions.
//!
//! The grammar, over ASCII text:
//!
//! ```text
//! expr      := define | lambda | call | constant
//! constant  := atom
//! call      := "(" expr expr* ")"
//! define    := "(" "define" atom expr ")"
//! lambda    := "(" "lambda" "(" atom* ")" expr ")"
//! ```
//!
//! An atom is a reserved builtin word (`quote`, `list`, `car`, `cdr`,
//! checked before generic symbols), a bare alphabetic symbol, a single
//! operator character, or a run of decimal digits; atoms and expressions
//! consume surrounding whitespace.  The alternatives of `expr` are tried in
//! the order written, and each word is matched as a plain prefix, so a
//! parenthesized form beginning with the literal word `define` or `lambda`
//! is never taken for a generic call.

use vstd::prelude::*;

use crate::ast::Atom;
use crate::ast::Expr;
use crate::ast::Operator;
use crate::ast::SpecAtom;
use crate::ast::SpecExpr;
use crate::printer::push_char;

verus! {

/// Whitespace, as the grammar skips it: space, tab, carriage return, line
/// feed.
pub open spec fn is_ws(c: char) -> bool {
    c == ' ' || c == '\t' || c == '\r' || c == '\n'
}

/// An ASCII alphabetic character.
pub open spec fn is_alpha(c: char) -> bool {
    (97 <= c as u32 <= 122) || (65 <= c as u32 <= 90)
}

/// An ASCII decimal digit.
pub open spec fn is_digit(c: char) -> bool {
    48 <= c as u32 <= 57
}

/// The numeric value of a digit character.
pub open spec fn digit_val(c: char) -> int {
    c as u32 - 48
}

/// An operator character.
pub open spec fn is_op(c: char) -> bool {
    c == '+' || c == '-' || c == '/' || c == '*'
}

/// The operator an operator character denotes.
pub open spec fn op_of(c: char) -> Operator {
    if c == '+' {
        Operator::Plus
    } else if c == '-' {
        Operator::Minus
    } else if c == '/' {
        Operator::Divide
    } else {
        Operator::Multiply
    }
}

/// The first position at or after `pos` that does not hold whitespace.
pub open spec fn skip_ws(s: Seq<char>, pos: int) -> int
    decreases s.len() - pos,
{
    if 0 <= pos < s.len() && is_ws(s[pos]) {
        skip_ws(s, pos + 1)
    } else {
        pos
    }
}

/// Skipping whitespace stays within the text and moves only forward.
pub broadcast proof fn lemma_skip_ws_bounds(s: Seq<char>, pos: int)
    requires
        0 <= pos <= s.len(),
    ensures
        pos <= #[trigger] skip_ws(s, pos) <= s.len(),
        skip_ws(s, pos) < s.len() ==> !is_ws(s[skip_ws(s, pos)]),
    decreases s.len() - pos,
{
    if pos < s.len() && is_ws(s[pos]) {
        lemma_skip_ws_bounds(s, pos + 1);
    }
}

/// The end of the alphabetic run beginning at `pos`.
pub open spec fn alpha_end(s: Seq<char>, pos: int) -> int
    decreases s.len() - pos,
{
    if 0 <= pos < s.len() && is_alpha(s[pos]) {
        alpha_end(s, pos + 1)
    } else {
        pos
    }
}

/// The alphabetic run stays within the text, holds alphabetic characters
/// alone, and is maximal.
pub broadcast proof fn lemma_alpha_end_bounds(s: Seq<char>, pos: int)
    requires
        0 <= pos <= s.len(),
    ensures
        pos <= #[trigger] alpha_end(s, pos) <= s.len(),
        alpha_end(s, pos) < s.len() ==> !is_alpha(s[alpha_end(s, pos)]),
        forall|j: int| pos <= j < alpha_end(s, pos) ==> is_alpha(s[j]),
    decreases s.len() - pos,
{
    if pos < s.len() && is_alpha(s[pos]) {
        lemma_alpha_end_bounds(s, pos + 1);
    }
}

/// The end of the digit run beginning at `pos`.
pub open spec fn digit_end(s: Seq<char>, pos: int) -> int
    decreases s.len() - pos,
{
    if 0 <= pos < s.len() && is_digit(s[pos]) {
        digit_end(s, pos + 1)
    } else {
        pos
    }
}

/// The digit run stays within the text, holds digits alone, and is
/// maximal.
pub broadcast proof fn lemma_digit_end_bounds(s: Seq<char>, pos: int)
    requires
        0 <= pos <= s.len(),
    ensures
        pos <= #[trigger] digit_end(s, pos) <= s.len(),
        digit_end(s, pos) < s.len() ==> !is_digit(s[digit_end(s, pos)]),
        forall|j: int| pos <= j < digit_end(s, pos) ==> is_digit(s[j]),
    decreases s.len() - pos,
{
    if pos < s.len() && is_digit(s[pos]) {
        lemma_digit_end_bounds(s, pos + 1);
    }
}

/// The number a run of digit characters denotes, most significant first.
pub open spec fn digits_val(ds: Seq<char>) -> int
    decreases ds.len(),
{
    if ds.len() == 0 {
        0
    } else {
        digits_val(ds.drop_last()) * 10 + digit_val(ds.last())
    }
}

/// A run of digits denotes a number that is not negative.
pub proof fn lemma_digits_val_nonneg(ds: Seq<char>)
    requires
        forall|j: int| 0 <= j < ds.len() ==> is_digit(ds[j]),
    ensures
        digits_val(ds) >= 0,
    decreases ds.len(),
{
    if ds.len() > 0 {
        lemma_digits_val_nonneg(ds.drop_last());
    }
}

/// Extending a run of digits to the right never shrinks its value.
pub proof fn lemma_digits_val_prefix(ds: Seq<char>, k: int)
    requires
        forall|j: int| 0 <= j < ds.len() ==> is_digit(ds[j]),
        0 <= k <= ds.len(),
    ensures
        digits_val(ds) >= digits_val(ds.take(k)),
    decreases ds.len() - k,
{
    if k < ds.len() {
        lemma_digits_val_prefix(ds, k + 1);
        let t = ds.take(k + 1);
        assert(t.drop_last() =~= ds.take(k));
        assert(t.last() == ds[k]);
        lemma_digits_val_nonneg(ds.take(k));
        assert(digits_val(t) == digits_val(ds.take(k)) * 10 + digit_val(ds[k]));
        assert(digit_val(ds[k]) >= 0);
        assert(digits_val(t) >= digits_val(ds.take(k)));
    } else {
        assert(ds.take(k) =~= ds);
    }
}

/// Does `word` stand at `pos` of `s`, as a plain prefix?
pub open spec fn word_at(s: Seq<char>, pos: int, word: Seq<char>) -> bool {
    0 <= pos && pos + word.len() <= s.len() && s.subrange(pos, pos + word.len()) == word
}

/// The builtin word recognized at `pos`, with its length, if any; the
/// words are tried in the grammar's order.
pub open spec fn builtin_at(s: Seq<char>, pos: int) -> Option<(SpecAtom, int)> {
    if word_at(s, pos, seq!['q', 'u', 'o', 't', 'e']) {
        Some((SpecAtom::Quote, 5))
    } else if word_at(s, pos, seq!['l', 'i', 's', 't']) {
        Some((SpecAtom::List, 4))
    } else if word_at(s, pos, seq!['c', 'a', 'r']) {
        Some((SpecAtom::Car, 3))
    } else if word_at(s, pos, seq!['c', 'd', 'r']) {
        Some((SpecAtom::Cdr, 3))
    } else {
        None
    }
}

/// Recognize one atom at `pos`: leading whitespace, then a builtin word, a
/// symbol, an operator, or a number (in that order), then trailing
/// whitespace.  The result holds the atom and the position after it.  A
/// digit run whose value does not fit the fixed-width numbers is not
/// recognized.
pub open spec fn spec_atom(s: Seq<char>, pos: int) -> Option<(SpecAtom, int)> {
    if pos < 0 || pos > s.len() {
        None
    } else {
        let p = skip_ws(s, pos);
        match builtin_at(s, p) {
            Some((b, width)) => Some((b, skip_ws(s, p + width))),
            None => if p < s.len() && is_alpha(s[p]) {
                let q = alpha_end(s, p);
                Some((SpecAtom::Symbol(s.subrange(p, q)), skip_ws(s, q)))
            } else if p < s.len() && is_op(s[p]) {
                Some((SpecAtom::Operator(op_of(s[p])), skip_ws(s, p + 1)))
            } else if p < s.len() && is_digit(s[p]) {
                let q = digit_end(s, p);
                let v = digits_val(s.subrange(p, q));
                if v <= i64::MAX {
                    Some((SpecAtom::Number(v), skip_ws(s, q)))
                } else {
                    None
                }
            } else {
                None
            },
        }
    }
}

/// Recognizing an atom consumes at least one character and stays within
/// the text.
pub broadcast proof fn lemma_spec_atom_advances(s: Seq<char>, pos: int)
    ensures
        #[trigger] spec_atom(s, pos) matches Some((a, p)) ==> pos < p <= s.len(),
{
    if 0 <= pos <= s.len() {
        lemma_skip_ws_bounds(s, pos);
        let p = skip_ws(s, pos);
        match builtin_at(s, p) {
            Some((b, width)) => {
                lemma_skip_ws_bounds(s, p + width);
            },
            None => {
                if p < s.len() && is_alpha(s[p]) {
                    lemma_alpha_end_bounds(s, p);
                    lemma_skip_ws_bounds(s, alpha_end(s, p));
                } else if p < s.len() && is_op(s[p]) {
                    lemma_skip_ws_bounds(s, p + 1);
                } else if p < s.len() && is_digit(s[p]) {
                    lemma_digit_end_bounds(s, p);
                    lemma_skip_ws_bounds(s, digit_end(s, p));
                }
            },
        }
    }
}

/// Recognize a `define` form at `pos`: `"(" "define" atom expr ")"`, the
/// word matched directly after the parenthesis.
pub open spec fn spec_parse_define(s: Seq<char>, pos: int) -> Option<(SpecExpr, int)>
    decreases s.len() - pos, 0int,
{
    if pos < 0 || pos >= s.len() || s[pos] != '(' {
        None
    } else if !word_at(s, pos + 1, seq!['d', 'e', 'f', 'i', 'n', 'e']) {
        None
    } else {
        match spec_atom(s, pos + 7) {
            Some((name, p1)) => if pos < p1 <= s.len() {
                match spec_parse_expr(s, p1) {
                    Some((value, p2)) => if p2 < s.len() && s[p2] == ')' {
                        Some((SpecExpr::Define(name, Box::new(value)), p2 + 1))
                    } else {
                        None
                    },
                    None => None,
                }
            } else {
                None
            },
            None => None,
        }
    }
}

/// Recognize a `lambda` form at `pos`:
/// `"(" "lambda" ws "(" atom* ")" ws expr ")"`, with at least one
/// whitespace character after the word and after the parameter list.
pub open spec fn spec_parse_lambda(s: Seq<char>, pos: int) -> Option<(SpecExpr, int)>
    decreases s.len() - pos, 0int,
{
    if pos < 0 || pos >= s.len() || s[pos] != '(' {
        None
    } else if !word_at(s, pos + 1, seq!['l', 'a', 'm', 'b', 'd', 'a']) {
        None
    } else {
        let w = skip_ws(s, pos + 7);
        if !(pos + 7 < w <= s.len()) {
            None
        } else if !(w < s.len() && s[w] == '(') {
            None
        } else {
            let (params, a_end) = spec_parse_atoms(s, w + 1);
            if !(w + 1 <= a_end <= s.len()) {
                None
            } else if !(a_end < s.len() && s[a_end] == ')') {
                None
            } else {
                let w2 = skip_ws(s, a_end + 1);
                if !(a_end + 1 < w2 <= s.len()) {
                    None
                } else {
                    match spec_parse_expr(s, w2) {
                        Some((body, p3)) => if p3 < s.len() && s[p3] == ')' {
                            Some((SpecExpr::Lambda(params, Box::new(body)), p3 + 1))
                        } else {
                            None
                        },
                        None => None,
                    }
                }
            }
        }
    }
}

/// Recognize a call at `pos`: `"(" expr expr* ")"`.
pub open spec fn spec_parse_call(s: Seq<char>, pos: int) -> Option<(SpecExpr, int)>
    decreases s.len() - pos, 0int,
{
    if pos < 0 || pos >= s.len() || s[pos] != '(' {
        None
    } else {
        match spec_parse_expr(s, pos + 1) {
            Some((head, p1)) => if pos < p1 <= s.len() {
                let (args, p2) = spec_parse_exprs(s, p1);
                if 0 <= p2 && p2 < s.len() && s[p2] == ')' {
                    Some((SpecExpr::Call(Box::new(head), args), p2 + 1))
                } else {
                    None
                }
            } else {
                None
            },
            None => None,
        }
    }
}

/// Recognize one expression at `pos`: leading whitespace, then a `define`,
/// a `lambda`, a call, or a constant, tried in that order, then trailing
/// whitespace.
pub open spec fn spec_parse_expr(s: Seq<char>, pos: int) -> Option<(SpecExpr, int)>
    decreases s.len() - pos, 1int,
{
    if pos < 0 || pos > s.len() {
        None
    } else {
        let p = skip_ws(s, pos);
        if !(pos <= p <= s.len()) {
            None
        } else {
            let picked = if spec_parse_define(s, p) is Some {
                spec_parse_define(s, p)
            } else if spec_parse_lambda(s, p) is Some {
                spec_parse_lambda(s, p)
            } else if spec_parse_call(s, p) is Some {
                spec_parse_call(s, p)
            } else {
                match spec_atom(s, p) {
                    Some((a, q)) => Some((SpecExpr::Constant(a), q)),
                    None => None,
                }
            };
            match picked {
                Some((e, q)) => if 0 <= q <= s.len() {
                    Some((e, skip_ws(s, q)))
                } else {
                    None
                },
                None => None,
            }
        }
    }
}

/// Recognize as many expressions as stand at `pos`, one after the other,
/// with the position after the last.
pub open spec fn spec_parse_exprs(s: Seq<char>, pos: int) -> (Seq<SpecExpr>, int)
    decreases s.len() - pos, 2int,
{
    if pos < 0 || pos > s.len() {
        (Seq::empty(), pos)
    } else {
        match spec_parse_expr(s, pos) {
            Some((e, p)) => if pos < p <= s.len() {
                let (rest, q) = spec_parse_exprs(s, p);
                (seq![e] + rest, q)
            } else {
                (seq![e], p)
            },
            None => (Seq::empty(), pos),
        }
    }
}

/// Recognize as many atoms as stand at `pos`, one after the other, with
/// the position after the last.
pub open spec fn spec_parse_atoms(s: Seq<char>, pos: int) -> (Seq<SpecAtom>, int)
    decreases s.len() - pos,
{
    if pos < 0 || pos > s.len() {
        (Seq::empty(), pos)
    } else {
        match spec_atom(s, pos) {
            Some((a, p)) => if pos < p <= s.len() {
                let (rest, q) = spec_parse_atoms(s, p);
                (seq![a] + rest, q)
            } else {
                (seq![a], p)
            },
            None => (Seq::empty(), pos),
        }
    }
}

/// Whether a character is whitespace.
fn is_ws_x(c: char) -> (r: bool)
    ensures
        r == is_ws(c),
{
    c == ' ' || c == '\t' || c == '\r' || c == '\n'
}

/// Whether a character is ASCII alphabetic.
fn is_alpha_x(c: char) -> (r: bool)
    ensures
        r == is_alpha(c),
{
    let u = c as u32;
    (97 <= u && u <= 122) || (65 <= u && u <= 90)
}

/// Whether a character is an ASCII decimal digit.
fn is_digit_x(c: char) -> (r: bool)
    ensures
        r == is_digit(c),
{
    let u = c as u32;
    48 <= u && u <= 57
}

/// Move past whitespace.
fn skip_ws_x(s: &Vec<char>, pos: usize) -> (r: usize)
    requires
        pos <= s@.len(),
    ensures
        r as int == skip_ws(s@, pos as int),
        pos <= r <= s@.len(),
{
    let mut i = pos;
    while i < s.len() && is_ws_x(s[i])
        invariant
            pos <= i <= s@.len(),
            skip_ws(s@, pos as int) == skip_ws(s@, i as int),
        decreases s@.len() - i,
    {
        i += 1;
    }
    i
}

/// Move past the alphabetic run.
fn alpha_end_x(s: &Vec<char>, pos: usize) -> (r: usize)
    requires
        pos <= s@.len(),
    ensures
        r as int == alpha_end(s@, pos as int),
        pos <= r <= s@.len(),
{
    let mut i = pos;
    while i < s.len() && is_alpha_x(s[i])
        invariant
            pos <= i <= s@.len(),
            alpha_end(s@, pos as int) == alpha_end(s@, i as int),
        decreases s@.len() - i,
    {
        i += 1;
    }
    i
}

/// Move past the digit run.
fn digit_end_x(s: &Vec<char>, pos: usize) -> (r: usize)
    requires
        pos <= s@.len(),
    ensures
        r as int == digit_end(s@, pos as int),
        pos <= r <= s@.len(),
{
    let mut i = pos;
    while i < s.len() && is_digit_x(s[i])
        invariant
            pos <= i <= s@.len(),
            digit_end(s@, pos as int) == digit_end(s@, i as int),
        decreases s@.len() - i,
    {
        i += 1;
    }
    i
}

/// Does `word` stand at `pos`, as a plain prefix?
fn has_word(s: &Vec<char>, pos: usize, word: &[char]) -> (r: bool)
    requires
        pos <= s@.len(),
    ensures
        r == word_at(s@, pos as int, word@),
{
    if word.len() > s.len() - pos {
        return false;
    }
    let mut i: usize = 0;
    while i < word.len()
        invariant
            0 <= i <= word@.len(),
            pos + word@.len() <= s@.len(),
            s@.len() <= usize::MAX,
            forall|j: int| 0 <= j < i ==> s@[pos + j] == word@[j],
        decreases word@.len() - i,
    {
        if s[pos + i] != word[i] {
            proof {
                assert(s@.subrange(pos as int, pos + word@.len())[i as int] == s@[pos + i]);
            }
            return false;
        }
        i += 1;
    }
    proof {
        assert(s@.subrange(pos as int, pos + word@.len()) =~= word@);
    }
    true
}

/// The characters of `s` between `from` and `to`, as an owned string.
fn collect_string(s: &Vec<char>, from: usize, to: usize) -> (r: String)
    requires
        from <= to <= s@.len(),
    ensures
        r@ == s@.subrange(from as int, to as int),
{
    let mut out = String::new();
    let mut i = from;
    while i < to
        invariant
            from <= i <= to <= s@.len(),
            out@ == s@.subrange(from as int, i as int),
        decreases to - i,
    {
        push_char(&mut out, s[i]);
        proof {
            assert(s@.subrange(from as int, i as int).push(s@[i as int]) =~= s@.subrange(
                from as int,
                i + 1,
            ));
        }
        i += 1;
    }
    out
}

/// The digit run from `from` to `to`, as a number, or `None` if its value
/// does not fit.
fn digits_to_number(s: &Vec<char>, from: usize, to: usize) -> (r: Option<i64>)
    requires
        from <= to <= s@.len(),
        forall|j: int| from <= j < to ==> is_digit(s@[j]),
    ensures
        ({
            let v = digits_val(s@.subrange(from as int, to as int));
            match r {
                Some(n) => n as int == v,
                None => v > i64::MAX,
            }
        }),
{
    let ghost ds = s@.subrange(from as int, to as int);
    proof {
        assert(forall|j: int| 0 <= j < ds.len() ==> is_digit(ds[j]));
    }
    let mut acc: u64 = 0;
    let mut i = from;
    while i < to
        invariant
            from <= i <= to <= s@.len(),
            ds == s@.subrange(from as int, to as int),
            forall|j: int| 0 <= j < ds.len() ==> is_digit(ds[j]),
            acc <= 9223372036854775807u64,
            acc as int == digits_val(ds.take(i - from)),
        decreases to - i,
    {
        proof {
            assert(ds[i - from] == s@[i as int]);
            assert(is_digit(s@[i as int]));
            assert(ds.take(i - from + 1).drop_last() =~= ds.take(i - from));
            assert(ds.take(i - from + 1).last() == ds[i - from]);
        }
        let d: u64 = (s[i] as u32 - 48) as u64;
        if acc > (9223372036854775807u64 - d) / 10 {
            proof {
                let k = i - from + 1;
                assert(acc * 10 + d > 9223372036854775807) by {
                    let m: int = 9223372036854775807 - d;
                    assert(m >= 0);
                    assert((m / 10) * 10 + m % 10 == m);
                    assert(acc as int >= m / 10 + 1);
                    assert(acc as int * 10 >= (m / 10 + 1) * 10) by (nonlinear_arith)
                        requires
                            acc as int >= m / 10 + 1,
                    ;
                }
                assert(digits_val(ds.take(k)) > i64::MAX);
                lemma_digits_val_prefix(ds, k);
                assert(ds.take(ds.len() as int) =~= ds);
            }
            return None;
        }
        proof {
            let m: int = 9223372036854775807 - d;
            assert((m / 10) * 10 + m % 10 == m);
            assert(acc as int * 10 <= (m / 10) * 10) by (nonlinear_arith)
                requires
                    acc as int <= m / 10,
            ;
        }
        acc = acc * 10 + d;
        i += 1;
    }
    proof {
        assert(ds.take(ds.len() as int) =~= ds);
    }
    Some(acc as i64)
}

/// Recognize one atom.
fn parse_atom_x(s: &Vec<char>, pos: usize) -> (r: Option<(Atom, usize)>)
    requires
        pos <= s@.len(),
    ensures
        match spec_atom(s@, pos as int) {
            Some((a, p)) => r matches Some(pair) && pair.0@ == a && pair.1 as int == p,
            None => r is None,
        },
        r matches Some(pair) ==> pos < pair.1 <= s@.len(),
{
    proof {
        lemma_spec_atom_advances(s@, pos as int);
    }
    let n = s.len();
    let p = skip_ws_x(s, pos);
    if has_word(s, p, &['q', 'u', 'o', 't', 'e']) {
        return Some((Atom::Quote, skip_ws_x(s, p + 5)));
    }
    if has_word(s, p, &['l', 'i', 's', 't']) {
        return Some((Atom::List, skip_ws_x(s, p + 4)));
    }
    if has_word(s, p, &['c', 'a', 'r']) {
        return Some((Atom::Car, skip_ws_x(s, p + 3)));
    }
    if has_word(s, p, &['c', 'd', 'r']) {
        return Some((Atom::Cdr, skip_ws_x(s, p + 3)));
    }
    if p < n {
        let c = s[p];
        if is_alpha_x(c) {
            let q = alpha_end_x(s, p);
            let name = collect_string(s, p, q);
            return Some((Atom::Symbol(name), skip_ws_x(s, q)));
        }
        if c == '+' {
            return Some((Atom::Operator(Operator::Plus), skip_ws_x(s, p + 1)));
        }
        if c == '-' {
            return Some((Atom::Operator(Operator::Minus), skip_ws_x(s, p + 1)));
        }
        if c == '/' {
            return Some((Atom::Operator(Operator::Divide), skip_ws_x(s, p + 1)));
        }
        if c == '*' {
            return Some((Atom::Operator(Operator::Multiply), skip_ws_x(s, p + 1)));
        }
        if is_digit_x(c) {
            let q = digit_end_x(s, p);
            proof {
                lemma_digit_end_bounds(s@, p as int);
            }
            match digits_to_number(s, p, q) {
                Some(n) => {
                    return Some((Atom::Number(n), skip_ws_x(s, q)));
                },
                None => {
                    return None;
                },
            }
        }
    }
    None
}

/// Recognize a `define` form.
fn parse_define_x(s: &Vec<char>, pos: usize) -> (r: Option<(Expr, usize)>)
    requires
        pos <= s@.len(),
    ensures
        match spec_parse_define(s@, pos as int) {
            Some((e, p)) => r matches Some(pair) && pair.0@ == e && pair.1 as int == p,
            None => r is None,
        },
        r matches Some(pair) ==> pos < pair.1 <= s@.len(),
    decreases s@.len() - pos, 0int,
{
    let n = s.len();
    if pos >= n || s[pos] != '(' {
        return None;
    }
    if !has_word(s, pos + 1, &['d', 'e', 'f', 'i', 'n', 'e']) {
        return None;
    }
    let (name, p1) = match parse_atom_x(s, pos + 7) {
        Some(pair) => pair,
        None => {
            return None;
        },
    };
    let (value, p2) = match parse_expr_x(s, p1) {
        Some(pair) => pair,
        None => {
            return None;
        },
    };
    if p2 < n && s[p2] == ')' {
        Some((Expr::Define(name, Box::new(value)), p2 + 1))
    } else {
        None
    }
}

/// Recognize a `lambda` form.
fn parse_lambda_x(s: &Vec<char>, pos: usize) -> (r: Option<(Expr, usize)>)
    requires
        pos <= s@.len(),
    ensures
        match spec_parse_lambda(s@, pos as int) {
            Some((e, p)) => r matches Some(pair) && pair.0@ == e && pair.1 as int == p,
            None => r is None,
        },
        r matches Some(pair) ==> pos < pair.1 <= s@.len(),
    decreases s@.len() - pos, 0int,
{
    let n = s.len();
    if pos >= n || s[pos] != '(' {
        return None;
    }
    if !has_word(s, pos + 1, &['l', 'a', 'm', 'b', 'd', 'a']) {
        return None;
    }
    let w = skip_ws_x(s, pos + 7);
    if !(w > pos + 7) {
        return None;
    }
    if !(w < n && s[w] == '(') {
        return None;
    }
    let (params, a_end) = parse_atoms_x(s, w + 1);
    if !(a_end < n && s[a_end] == ')') {
        return None;
    }
    let w2 = skip_ws_x(s, a_end + 1);
    if !(w2 > a_end + 1) {
        return None;
    }
    let (body, p3) = match parse_expr_x(s, w2) {
        Some(pair) => pair,
        None => {
            return None;
        },
    };
    if p3 < n && s[p3] == ')' {
        Some((Expr::Lambda(params, Box::new(body)), p3 + 1))
    } else {
        None
    }
}

/// Recognize a call.
fn parse_call_x(s: &Vec<char>, pos: usize) -> (r: Option<(Expr, usize)>)
    requires
        pos <= s@.len(),
    ensures
        match spec_parse_call(s@, pos as int) {
            Some((e, p)) => r matches Some(pair) && pair.0@ == e && pair.1 as int == p,
            None => r is None,
        },
        r matches Some(pair) ==> pos < pair.1 <= s@.len(),
    decreases s@.len() - pos, 0int,
{
    let n = s.len();
    if pos >= n || s[pos] != '(' {
        return None;
    }
    let (head, p1) = match parse_expr_x(s, pos + 1) {
        Some(pair) => pair,
        None => {
            return None;
        },
    };
    let (args, p2) = parse_exprs_x(s, p1);
    if p2 < n && s[p2] == ')' {
        Some((Expr::Call(Box::new(head), args), p2 + 1))
    } else {
        None
    }
}

/// Recognize one expression: the alternatives in the grammar's order,
/// with surrounding whitespace.
fn parse_expr_x(s: &Vec<char>, pos: usize) -> (r: Option<(Expr, usize)>)
    requires
        pos <= s@.len(),
    ensures
        match spec_parse_expr(s@, pos as int) {
            Some((e, p)) => r matches Some(pair) && pair.0@ == e && pair.1 as int == p,
            None => r is None,
        },
        r matches Some(pair) ==> pos < pair.1 <= s@.len(),
    decreases s@.len() - pos, 1int,
{
    let p = skip_ws_x(s, pos);
    let picked: Option<(Expr, usize)> = if let Some(pair) = parse_define_x(s, p) {
        Some(pair)
    } else if let Some(pair) = parse_lambda_x(s, p) {
        Some(pair)
    } else if let Some(pair) = parse_call_x(s, p) {
        Some(pair)
    } else {
        match parse_atom_x(s, p) {
            Some(pair) => Some((Expr::Constant(pair.0), pair.1)),
            None => None,
        }
    };
    match picked {
        Some(pair) => Some((pair.0, skip_ws_x(s, pair.1))),
        None => None,
    }
}

/// Recognize as many expressions as stand at `pos`, one after the other.
fn parse_exprs_x(s: &Vec<char>, pos: usize) -> (r: (Vec<Expr>, usize))
    requires
        pos <= s@.len(),
    ensures
        ({
            let (es, p) = spec_parse_exprs(s@, pos as int);
            crate::ast::view_expr_vec(r.0) == es && r.1 as int == p && pos <= r.1 <= s@.len()
        }),
    decreases s@.len() - pos, 2int,
{
    match parse_expr_x(s, pos) {
        Some(pair) => {
            let (e, p) = pair;
            let (rest, q) = parse_exprs_x(s, p);
            let mut out = rest;
            let ghost orest = out@;
            out.insert(0, e);
            proof {
                crate::ast::lemma_view_expr_seq(orest);
                crate::ast::lemma_view_expr_seq(out@);
                assert(crate::ast::view_expr_seq(out@) =~= seq![e@] + crate::ast::view_expr_seq(
                    orest,
                ));
            }
            (out, q)
        },
        None => {
            let empty: Vec<Expr> = Vec::new();
            proof {
                assert(crate::ast::view_expr_seq(empty@) =~= Seq::<SpecExpr>::empty());
            }
            (empty, pos)
        },
    }
}

/// Recognize as many atoms as stand at `pos`, one after the other.
fn parse_atoms_x(s: &Vec<char>, pos: usize) -> (r: (Vec<Atom>, usize))
    requires
        pos <= s@.len(),
    ensures
        ({
            let (atoms, p) = spec_parse_atoms(s@, pos as int);
            r.0@.map_values(|a: Atom| a@) == atoms && r.1 as int == p && pos <= r.1 <= s@.len()
        }),
    decreases s@.len() - pos,
{
    match parse_atom_x(s, pos) {
        Some(pair) => {
            let (a, p) = pair;
            let (rest, q) = parse_atoms_x(s, p);
            let mut out = rest;
            let ghost orest = out@;
            out.insert(0, a);
            proof {
                assert(out@.map_values(|x: Atom| x@) =~= seq![a@] + orest.map_values(
                    |x: Atom| x@,
                ));
            }
            (out, q)
        },
        None => {
            let empty: Vec<Atom> = Vec::new();
            proof {
                assert(empty@.map_values(|x: Atom| x@) =~= Seq::<SpecAtom>::empty());
            }
            (empty, pos)
        },
    }
}

/// The model of a parse failure: no expression recognized, or trailing
/// input left over, each with the position of the offending remainder.
pub enum SpecParseError {
    NoMatch(int),
    Trailing(int),
    TooLong,
}

/// What parsing a whole line comes to: one or more expressions consuming
/// the whole text, or a failure.
pub open spec fn spec_parse(s: Seq<char>) -> Result<Seq<SpecExpr>, SpecParseError> {
    let (es, p) = spec_parse_exprs(s, 0);
    if es.len() == 0 {
        Err(SpecParseError::NoMatch(p))
    } else if p == s.len() {
        Ok(es)
    } else {
        Err(SpecParseError::Trailing(p))
    }
}

/// A typed parse failure.
#[derive(Debug)]
pub enum ParseError {
    /// No expression could be recognized; `at` is the position of the
    /// remainder that matched no grammar rule.
    NoMatch { at: usize },
    /// One or more expressions were recognized, but non-whitespace input
    /// remains unconsumed, beginning at `at`.
    Trailing { at: usize },
    /// The line holds more than `MAX_INPUT` characters.
    TooLong,
}

impl View for ParseError {
    type V = SpecParseError;

    open spec fn view(&self) -> SpecParseError {
        match self {
            ParseError::NoMatch { at } => SpecParseError::NoMatch(*at as int),
            ParseError::Trailing { at } => SpecParseError::Trailing(*at as int),
            ParseError::TooLong => SpecParseError::TooLong,
        }
    }
}

/// The longest line the parser accepts.  Nesting depth is bounded by the
/// length of the line, so the bound keeps the recursive descent within a
/// fixed amount of native stack and surfaces anything longer as a
/// reported failure.
pub const MAX_INPUT: usize = 4096;

/// Parse one line of text into the ordered sequence of top-level
/// expressions it holds.  The result is exactly what the spec-level
/// grammar gives: one or more expressions consuming the whole line, or
/// the first failure, with the position of the offending remainder.
pub fn parse(input: &str) -> (r: Result<Vec<Expr>, ParseError>)
    ensures
        input@.len() > MAX_INPUT ==> (r matches Err(e) && e@ == SpecParseError::TooLong),
        input@.len() <= MAX_INPUT ==> match spec_parse(input@) {
            Ok(es) => r matches Ok(v) && crate::ast::view_expr_vec(v) == es,
            Err(pe) => r matches Err(e) && e@ == pe,
        },
{
    let n = input.unicode_len();
    if n > MAX_INPUT {
        return Err(ParseError::TooLong);
    }
    let mut chars: Vec<char> = Vec::new();
    let mut i: usize = 0;
    while i < n
        invariant
            i <= n,
            n == input@.len(),
            chars@.len() == i,
            forall|j: int| 0 <= j < i ==> chars@[j] == input@[j],
        decreases n - i,
    {
        chars.push(input.get_char(i));
        i += 1;
    }
    proof {
        assert(chars@ =~= input@);
    }
    let (es, p) = parse_exprs_x(&chars, 0);
    proof {
        crate::ast::lemma_view_expr_seq(es@);
    }
    if es.len() == 0 {
        Err(ParseError::NoMatch { at: p })
    } else if p == chars.len() {
        Ok(es)
    } else {
        Err(ParseError::Trailing { at: p })
    }
}

} // verus!
