//! The printer: the textual form of an expression, specified character by
//! character.  Numbers print in decimal, so a printed numeric constant
//! reads back through the parser as the same value.

use vstd::prelude::*;

use crate::ast::Atom;
use crate::ast::Expr;
use crate::ast::Operator;
use crate::ast::SpecAtom;
use crate::ast::SpecExpr;
use crate::ast::view_expr_seq;
use crate::ast::view_expr_vec;
use crate::ast::lemma_view_expr_seq;

verus! {

/// The digit character of a value below ten.
pub open spec fn digit_char(d: int) -> char {
    ((48 + d) as u8) as char
}

/// The decimal digits of a number that is not negative, most significant
/// first.
pub open spec fn spec_digits(v: int) -> Seq<char>
    decreases v,
{
    if v < 10 {
        seq![digit_char(v)]
    } else {
        spec_digits(v / 10).push(digit_char(v % 10))
    }
}

/// The textual form of a number: decimal digits, with a leading minus for
/// a negative value.
pub open spec fn spec_print_number(n: int) -> Seq<char> {
    if n < 0 {
        seq!['-'] + spec_digits(-n)
    } else {
        spec_digits(n)
    }
}

/// The textual form of an atom.
pub open spec fn spec_print_atom(a: SpecAtom) -> Seq<char> {
    match a {
        SpecAtom::Number(n) => spec_print_number(n),
        SpecAtom::Operator(Operator::Plus) => seq!['+'],
        SpecAtom::Operator(Operator::Minus) => seq!['-'],
        SpecAtom::Operator(Operator::Divide) => seq!['/'],
        SpecAtom::Operator(Operator::Multiply) => seq!['*'],
        SpecAtom::Symbol(name) => name,
        SpecAtom::Quote => seq!['q', 'u', 'o', 't', 'e'],
        SpecAtom::List => seq!['l', 'i', 's', 't'],
        SpecAtom::Car => seq!['c', 'a', 'r'],
        SpecAtom::Cdr => seq!['c', 'd', 'r'],
    }
}

/// The textual form of an expression.
pub open spec fn spec_print_expr(e: SpecExpr) -> Seq<char>
    decreases e, 0int, 0int,
{
    match e {
        SpecExpr::Constant(a) => spec_print_atom(a),
        SpecExpr::Define(name, value) => seq!['(', 'd', 'e', 'f', 'i', 'n', 'e', ' ']
            + spec_print_atom(name) + seq![' '] + spec_print_expr(*value) + seq![')'],
        SpecExpr::Call(head, args) => seq!['('] + spec_print_expr(*head) + spec_print_exprs(args)
            + seq![')'],
        SpecExpr::Lambda(params, body) => seq!['(', 'l', 'a', 'm', 'b', 'd', 'a', ' ', '(']
            + spec_print_atoms(params) + seq![')', ' '] + spec_print_expr(*body) + seq![')'],
        SpecExpr::List(items) => seq!['(', 'l', 'i', 's', 't'] + spec_print_exprs(items)
            + seq![')'],
        SpecExpr::Nil => seq!['N', 'i', 'l'],
    }
}

/// The textual forms of a sequence of expressions, each preceded by one
/// space.
pub open spec fn spec_print_exprs(es: Seq<SpecExpr>) -> Seq<char>
    decreases es, 1int, es.len(),
{
    if es.len() == 0 {
        Seq::empty()
    } else {
        seq![' '] + spec_print_expr(es[0]) + spec_print_exprs(es.subrange(1, es.len() as int))
    }
}

/// The textual forms of a sequence of atoms, separated by single spaces.
pub open spec fn spec_print_atoms(atoms: Seq<SpecAtom>) -> Seq<char>
    decreases atoms.len(),
{
    if atoms.len() == 0 {
        Seq::empty()
    } else if atoms.len() == 1 {
        spec_print_atom(atoms[0])
    } else {
        spec_print_atom(atoms[0]) + seq![' '] + spec_print_atoms(
            atoms.subrange(1, atoms.len() as int),
        )
    }
}

/// Relies on `String::push`: appends the given character to the end of
/// the string.  vstd gives `String::push` no specification of its own.
#[verifier::external_body]
pub(crate) fn push_char(s: &mut String, c: char)
    ensures
        final(s)@ == old(s)@.push(c),
{
    s.push(c);
}

/// Append the decimal digits of `v`.
fn print_digits(out: &mut String, v: u64)
    ensures
        final(out)@ == old(out)@ + spec_digits(v as int),
    decreases v,
{
    if v < 10 {
        push_char(out, (48 + v as u8) as char);
        proof {
            assert(final(out)@ =~= old(out)@ + spec_digits(v as int));
        }
    } else {
        print_digits(out, v / 10);
        push_char(out, (48 + (v % 10) as u8) as char);
        proof {
            assert(final(out)@ =~= old(out)@ + spec_digits(v as int));
        }
    }
}

/// Append the textual form of a number.
fn print_number(out: &mut String, n: i64)
    ensures
        final(out)@ == old(out)@ + spec_print_number(n as int),
{
    if n < 0 {
        push_char(out, '-');
        let magnitude: u64 = if n == i64::MIN {
            9223372036854775808u64
        } else {
            (-n) as u64
        };
        print_digits(out, magnitude);
        proof {
            assert(final(out)@ =~= old(out)@ + spec_print_number(n as int));
        }
    } else {
        print_digits(out, n as u64);
    }
}

/// Append the textual form of an atom.
fn print_atom(out: &mut String, a: &Atom)
    ensures
        final(out)@ == old(out)@ + spec_print_atom(a@),
{
    match a {
        Atom::Number(n) => print_number(out, *n),
        Atom::Operator(Operator::Plus) => push_char(out, '+'),
        Atom::Operator(Operator::Minus) => push_char(out, '-'),
        Atom::Operator(Operator::Divide) => push_char(out, '/'),
        Atom::Operator(Operator::Multiply) => push_char(out, '*'),
        Atom::Symbol(name) => out.append(name.as_str()),
        Atom::Quote => out.append("quote"),
        Atom::List => out.append("list"),
        Atom::Car => out.append("car"),
        Atom::Cdr => out.append("cdr"),
    }
    proof {
        reveal_strlit("quote");
        reveal_strlit("list");
        reveal_strlit("car");
        reveal_strlit("cdr");
        assert(final(out)@ =~= old(out)@ + spec_print_atom(a@));
    }
}

/// Append the textual form of an expression.
fn print_onto(out: &mut String, e: &Expr)
    ensures
        final(out)@ == old(out)@ + spec_print_expr(e@),
    decreases e, 0int, 0int,
{
    match e {
        Expr::Constant(a) => print_atom(out, a),
        Expr::Define(name, value) => {
            out.append("(define ");
            print_atom(out, name);
            push_char(out, ' ');
            print_onto(out, value);
            push_char(out, ')');
        },
        Expr::Call(head, tail) => {
            push_char(out, '(');
            print_onto(out, head);
            proof {
                assert(view_expr_vec(*tail).subrange(0, view_expr_vec(*tail).len() as int)
                    =~= view_expr_vec(*tail));
            }
            print_items(out, tail, 0);
            push_char(out, ')');
        },
        Expr::Lambda(params, body) => {
            out.append("(lambda (");
            proof {
                let ps = params@.map_values(|a: Atom| a@);
                assert(ps.subrange(0, ps.len() as int) =~= ps);
            }
            print_params(out, params, 0);
            out.append(") ");
            print_onto(out, body);
            push_char(out, ')');
        },
        Expr::List(items) => {
            out.append("(list");
            proof {
                assert(view_expr_vec(*items).subrange(0, view_expr_vec(*items).len() as int)
                    =~= view_expr_vec(*items));
            }
            print_items(out, items, 0);
            push_char(out, ')');
        },
        Expr::Nil => out.append("Nil"),
    }
    proof {
        reveal_strlit("(define ");
        reveal_strlit("(lambda (");
        reveal_strlit(") ");
        reveal_strlit("(list");
        reveal_strlit("Nil");
        assert(final(out)@ =~= old(out)@ + spec_print_expr(e@));
    }
}

/// Append the textual forms of the expressions from index `i` on, each
/// preceded by one space.
fn print_items(out: &mut String, items: &Vec<Expr>, i: usize)
    requires
        i <= items@.len(),
    ensures
        final(out)@ == old(out)@ + spec_print_exprs(
            view_expr_vec(*items).subrange(i as int, view_expr_vec(*items).len() as int),
        ),
    decreases items, 1int, items@.len() - i,
{
    let ghost vs = view_expr_vec(*items);
    proof {
        lemma_view_expr_seq(items@);
        assert(vs == view_expr_seq(items@));
    }
    if i < items.len() {
        push_char(out, ' ');
        proof {
            assert(decreases_to!(*items => items@));
            assert(decreases_to!(items@ => items@[i as int]));
        }
        print_onto(out, &items[i]);
        print_items(out, items, i + 1);
        proof {
            let tail = vs.subrange(i as int, vs.len() as int);
            assert(tail[0] == vs[i as int]);
            assert(tail.subrange(1, tail.len() as int) =~= vs.subrange(i + 1, vs.len() as int));
            assert(final(out)@ =~= old(out)@ + spec_print_exprs(tail));
        }
    } else {
        proof {
            assert(vs.subrange(i as int, vs.len() as int) =~= Seq::<SpecExpr>::empty());
        }
    }
}

/// Append the textual forms of the atoms from index `i` on, separated by
/// single spaces.
fn print_params(out: &mut String, params: &Vec<Atom>, i: usize)
    requires
        i <= params@.len(),
    ensures
        ({
            let ps = params@.map_values(|a: Atom| a@);
            final(out)@ == old(out)@ + spec_print_atoms(ps.subrange(i as int, ps.len() as int))
        }),
    decreases params@.len() - i,
{
    let ghost ps = params@.map_values(|a: Atom| a@);
    if i < params.len() {
        print_atom(out, &params[i]);
        if i + 1 < params.len() {
            push_char(out, ' ');
        }
        print_params(out, params, i + 1);
        proof {
            let tail = ps.subrange(i as int, ps.len() as int);
            assert(tail[0] == ps[i as int]);
            assert(ps[i as int] == params@[i as int]@);
            assert(tail.subrange(1, tail.len() as int) =~= ps.subrange(i + 1, ps.len() as int));
            assert(final(out)@ =~= old(out)@ + spec_print_atoms(tail));
        }
    } else {
        proof {
            assert(ps.subrange(i as int, ps.len() as int) =~= Seq::<SpecAtom>::empty());
        }
    }
}

/// The textual form of an expression, as an owned string.
pub fn print_expr(e: &Expr) -> (r: String)
    ensures
        r@ == spec_print_expr(e@),
{
    let mut out = String::new();
    print_onto(&mut out, e);
    proof {
        assert(out@ =~= spec_print_expr(e@));
    }
    out
}

} // verus!
