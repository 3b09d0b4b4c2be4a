//! The environment: a mutable table from symbol names to bound values,
//! modelled as a map from character sequences to expression models.
//!
//! Binding pushes a fresh entry, so the entry nearest the end of the table
//! is the one in force; the model is therefore built by folding the entries
//! from the front, the later entries overwriting the earlier ones.

use vstd::prelude::*;

use crate::ast::Expr;
use crate::ast::SpecExpr;
use crate::ast::view_expr;

verus! {

/// A mutable symbol table threaded through evaluation.
pub struct Environment {
    entries: Vec<(String, Expr)>,
}

/// The map that a sequence of entries denotes: each entry overwrites any
/// earlier binding of the same name.
spec fn map_of(s: Seq<(String, Expr)>) -> Map<Seq<char>, SpecExpr>
    decreases s.len(),
{
    if s.len() == 0 {
        Map::empty()
    } else {
        map_of(s.drop_last()).insert(s.last().0@, view_expr(s.last().1))
    }
}

/// The denoted map is fixed by the models of the entries alone.
proof fn lemma_map_of_congruent(s1: Seq<(String, Expr)>, s2: Seq<(String, Expr)>)
    requires
        s1.len() == s2.len(),
        forall|j: int| 0 <= j < s1.len() ==> (#[trigger] s1[j]).0@ == s2[j].0@
            && view_expr(s1[j].1) == view_expr(s2[j].1),
    ensures
        map_of(s1) == map_of(s2),
    decreases s1.len(),
{
    if s1.len() > 0 {
        lemma_map_of_congruent(s1.drop_last(), s2.drop_last());
    }
}

impl View for Environment {
    type V = Map<Seq<char>, SpecExpr>;

    closed spec fn view(&self) -> Map<Seq<char>, SpecExpr> {
        map_of(self.entries@)
    }
}

impl Environment {
    /// An empty table: no name is bound.
    pub fn new() -> (r: Environment)
        ensures
            r@ == Map::<Seq<char>, SpecExpr>::empty(),
    {
        Environment { entries: Vec::new() }
    }

    /// Insert-or-overwrite: afterward `name` is bound to `value`, and every
    /// other name is bound as before.
    pub fn bind(&mut self, name: String, value: Expr)
        ensures
            final(self)@ == old(self)@.insert(name@, value@),
    {
        let ghost old_entries = self.entries@;
        let ghost gname = name@;
        let ghost gvalue = value@;
        self.entries.push((name, value));
        proof {
            assert(self.entries@.drop_last() =~= old_entries);
            assert(self.entries@.last().0@ == gname);
            assert(view_expr(self.entries@.last().1) == gvalue);
        }
    }

    /// The value bound to `name`, as an owned copy, or `None` if `name` is
    /// not bound.
    pub fn lookup(&self, name: &String) -> (r: Option<Expr>)
        ensures
            match r {
                Some(v) => self@.contains_key(name@) && v@ == self@[name@],
                None => !self@.contains_key(name@),
            },
    {
        let mut i: usize = self.entries.len();
        proof {
            assert(self.entries@.take(i as int) =~= self.entries@);
        }
        while i > 0
            invariant
                i <= self.entries@.len(),
                self@.contains_key(name@) == map_of(self.entries@.take(i as int)).contains_key(
                    name@,
                ),
                self@.contains_key(name@) ==> self@[name@] == map_of(
                    self.entries@.take(i as int),
                )[name@],
            decreases i,
        {
            i -= 1;
            proof {
                assert(self.entries@.take(i + 1).drop_last() =~= self.entries@.take(i as int));
                assert(self.entries@.take(i + 1).last() == self.entries@[i as int]);
            }
            if self.entries[i].0 == *name {
                return Some(self.entries[i].1.dup());
            }
        }
        proof {
            assert(self.entries@.take(0) =~= Seq::<(String, Expr)>::empty());
        }
        None
    }

    /// An opaque copy of the whole table, denoting the same map.
    pub fn snapshot(&self) -> (r: Environment)
        ensures
            r@ == self@,
    {
        let mut copied: Vec<(String, Expr)> = Vec::new();
        let mut i: usize = 0;
        while i < self.entries.len()
            invariant
                i <= self.entries@.len(),
                copied@.len() == i,
                forall|j: int| 0 <= j < i ==> (#[trigger] copied@[j]).0@ == self.entries@[j].0@
                    && view_expr(copied@[j].1) == view_expr(self.entries@[j].1),
            decreases self.entries@.len() - i,
        {
            let entry = (self.entries[i].0.clone(), self.entries[i].1.dup());
            copied.push(entry);
            i += 1;
        }
        proof {
            lemma_map_of_congruent(copied@, self.entries@);
        }
        Environment { entries: copied }
    }

    /// Replace the whole table with a snapshot taken earlier.
    pub fn restore(&mut self, snap: Environment)
        ensures
            final(self)@ == snap@,
    {
        *self = snap;
    }
}

} // verus!
