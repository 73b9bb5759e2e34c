//! Elaborated MLTT syntax.
//!
//! Variables are de Bruijn indices: index zero names the nearest enclosing
//! term binder.  All subterms are shared, immutable `Rc` values.
use std::rc::Rc;

use vstd::prelude::*;

use crate::teardown_std::{rc_new, rc_try_unwrap, vec_new, vec_pop, vec_push};

verus! {

/// Terms are shared, immutable `Rc` nodes.
pub type Term = Rc<Expr>;

#[derive(Clone, Debug, PartialEq, Eq)]
pub enum Expr {
    Var(usize),
    /// A resolved global name.
    Global(String),
    Universe(u32),
    Pi { domain: Term, codomain: Term },
    Lam(Term),
    App { function: Term, argument: Term },
    Sigma { first: Term, second: Term },
    Pair { first: Term, second: Term },
    Fst(Term),
    Snd(Term),
    Nat,
    Zero,
    Succ(Term),
}

/// Number of syntax nodes of a term.
pub open spec fn expr_size(e: Expr) -> nat
    decreases e,
{
    match e {
        Expr::Pi { domain, codomain } => 1 + expr_size(*domain) + expr_size(*codomain),
        Expr::Sigma { first, second } => 1 + expr_size(*first) + expr_size(*second),
        Expr::App { function, argument } => 1 + expr_size(*function) + expr_size(*argument),
        Expr::Pair { first, second } => 1 + expr_size(*first) + expr_size(*second),
        Expr::Lam(b) => 1 + expr_size(*b),
        Expr::Fst(b) => 1 + expr_size(*b),
        Expr::Snd(b) => 1 + expr_size(*b),
        Expr::Succ(b) => 1 + expr_size(*b),
        _ => 1,
    }
}

/// Syntactic equality of terms, global names compared by their characters.
pub open spec fn same_expr(a: Expr, b: Expr) -> bool
    decreases a,
{
    match (a, b) {
        (Expr::Var(i), Expr::Var(j)) => i == j,
        (Expr::Global(x), Expr::Global(y)) => x@ == y@,
        (Expr::Universe(i), Expr::Universe(j)) => i == j,
        (Expr::Pi { domain: a1, codomain: a2 }, Expr::Pi { domain: b1, codomain: b2 }) =>
            same_expr(*a1, *b1) && same_expr(*a2, *b2),
        (Expr::Sigma { first: a1, second: a2 }, Expr::Sigma { first: b1, second: b2 }) =>
            same_expr(*a1, *b1) && same_expr(*a2, *b2),
        (Expr::App { function: a1, argument: a2 }, Expr::App { function: b1, argument: b2 }) =>
            same_expr(*a1, *b1) && same_expr(*a2, *b2),
        (Expr::Pair { first: a1, second: a2 }, Expr::Pair { first: b1, second: b2 }) =>
            same_expr(*a1, *b1) && same_expr(*a2, *b2),
        (Expr::Lam(x), Expr::Lam(y)) => same_expr(*x, *y),
        (Expr::Fst(x), Expr::Fst(y)) => same_expr(*x, *y),
        (Expr::Snd(x), Expr::Snd(y)) => same_expr(*x, *y),
        (Expr::Succ(x), Expr::Succ(y)) => same_expr(*x, *y),
        (Expr::Nat, Expr::Nat) => true,
        (Expr::Zero, Expr::Zero) => true,
        _ => false,
    }
}

/// Total number of syntax nodes held by a work list of terms.
pub open spec fn terms_size(s: Seq<Term>) -> nat
    decreases s.len(),
{
    if s.len() == 0 {
        0
    } else {
        terms_size(s.drop_last()) + expr_size(*s.last())
    }
}

/// The variable of de Bruijn index `index`.
pub fn var(index: usize) -> (t: Term)
    ensures
        *t == Expr::Var(index),
{
    Rc::new(Expr::Var(index))
}

/// A reference to the global declaration or constructor `name`.
pub fn global(name: &str) -> (t: Term)
    ensures
        *t matches Expr::Global(n) && n@ == name@,
{
    Rc::new(Expr::Global(name.to_owned()))
}

/// The universe `Type level`.
pub fn universe(level: u32) -> (t: Term)
    ensures
        *t == Expr::Universe(level),
{
    Rc::new(Expr::Universe(level))
}

/// The dependent function type `(x : domain) -> codomain`.
pub fn pi(domain: Term, codomain: Term) -> (t: Term)
    ensures
        *t == (Expr::Pi { domain, codomain }),
{
    Rc::new(Expr::Pi { domain, codomain })
}

/// The function `\x. body`.
pub fn lam(body: Term) -> (t: Term)
    ensures
        *t == Expr::Lam(body),
{
    Rc::new(Expr::Lam(body))
}

/// The application `function argument`.
pub fn app(function: Term, argument: Term) -> (t: Term)
    ensures
        *t == (Expr::App { function, argument }),
{
    Rc::new(Expr::App { function, argument })
}

/// The dependent pair type `(x : first) * second`.
pub fn sigma(first: Term, second: Term) -> (t: Term)
    ensures
        *t == (Expr::Sigma { first, second }),
{
    Rc::new(Expr::Sigma { first, second })
}

/// The pair `(first, second)`.
pub fn pair(first: Term, second: Term) -> (t: Term)
    ensures
        *t == (Expr::Pair { first, second }),
{
    Rc::new(Expr::Pair { first, second })
}

/// The type `Nat` of natural numbers.
pub fn nat_type() -> (t: Term)
    ensures
        *t == Expr::Nat,
{
    Rc::new(Expr::Nat)
}

/// The natural number `zero`.
pub fn zero() -> (t: Term)
    ensures
        *t == Expr::Zero,
{
    Rc::new(Expr::Zero)
}

/// The successor `succ term`.
pub fn succ(term: Term) -> (t: Term)
    ensures
        *t == Expr::Succ(term),
{
    Rc::new(Expr::Succ(term))
}

/// Decide syntactic equality of two terms (global names by characters).
pub(crate) fn same_term(a: &Term, b: &Term) -> (r: bool)
    ensures
        r == same_expr(**a, **b),
    decreases **a,
{
    match (&**a, &**b) {
        (Expr::Var(i), Expr::Var(j)) => *i == *j,
        (Expr::Global(x), Expr::Global(y)) => *x == *y,
        (Expr::Universe(i), Expr::Universe(j)) => *i == *j,
        (Expr::Pi { domain: a1, codomain: a2 }, Expr::Pi { domain: b1, codomain: b2 }) =>
            same_term(a1, b1) && same_term(a2, b2),
        (Expr::Sigma { first: a1, second: a2 }, Expr::Sigma { first: b1, second: b2 }) =>
            same_term(a1, b1) && same_term(a2, b2),
        (Expr::App { function: a1, argument: a2 }, Expr::App { function: b1, argument: b2 }) =>
            same_term(a1, b1) && same_term(a2, b2),
        (Expr::Pair { first: a1, second: a2 }, Expr::Pair { first: b1, second: b2 }) =>
            same_term(a1, b1) && same_term(a2, b2),
        (Expr::Lam(x), Expr::Lam(y)) => same_term(x, y),
        (Expr::Fst(x), Expr::Fst(y)) => same_term(x, y),
        (Expr::Snd(x), Expr::Snd(y)) => same_term(x, y),
        (Expr::Succ(x), Expr::Succ(y)) => same_term(x, y),
        (Expr::Nat, Expr::Nat) => true,
        (Expr::Zero, Expr::Zero) => true,
        _ => false,
    }
}

/// Whether no global name occurs in a term.
pub open spec fn global_free(e: Expr) -> bool
    decreases e,
{
    match e {
        Expr::Global(_) => false,
        Expr::Pi { domain: a, codomain: b } => global_free(*a) && global_free(*b),
        Expr::Sigma { first: a, second: b } => global_free(*a) && global_free(*b),
        Expr::App { function: a, argument: b } => global_free(*a) && global_free(*b),
        Expr::Pair { first: a, second: b } => global_free(*a) && global_free(*b),
        Expr::Lam(a) => global_free(*a),
        Expr::Fst(a) => global_free(*a),
        Expr::Snd(a) => global_free(*a),
        Expr::Succ(a) => global_free(*a),
        _ => true,
    }
}

/// Every term is syntactically equal to itself.
pub proof fn law_same_expr_reflexive(e: Expr)
    ensures
        same_expr(e, e),
    decreases e,
{
    match e {
        Expr::Pi { domain: a, codomain: b } | Expr::Sigma { first: a, second: b } | Expr::App {
            function: a,
            argument: b,
        } | Expr::Pair { first: a, second: b } => {
            let x: Expr = *a;
            let y: Expr = *b;
            law_same_expr_reflexive(x);
            law_same_expr_reflexive(y);
        },
        Expr::Lam(a) | Expr::Fst(a) | Expr::Snd(a) | Expr::Succ(a) => {
            let x: Expr = *a;
            law_same_expr_reflexive(x);
        },
        _ => {},
    }
}

/// Syntactic equality is equality of terms: on terms without global names
/// it holds exactly when the terms are equal (so two variables are the same
/// only with equal de Bruijn indices, two universes only at equal levels),
/// and two global names are the same exactly when their characters are.
pub proof fn law_same_expr_is_equality(a: Expr, b: Expr)
    ensures
        global_free(a) ==> (same_expr(a, b) <==> a == b),
        (a matches Expr::Global(x) && b matches Expr::Global(y)) ==> (same_expr(a, b) <==> a->Global_0@
            == b->Global_0@),
    decreases a,
{
    law_same_expr_reflexive(a);
    if global_free(a) && same_expr(a, b) {
        match (a, b) {
            (Expr::Pi { domain: a1, codomain: a2 }, Expr::Pi { domain: b1, codomain: b2 })
            | (Expr::Sigma { first: a1, second: a2 }, Expr::Sigma { first: b1, second: b2 })
            | (Expr::App { function: a1, argument: a2 }, Expr::App { function: b1, argument: b2 })
            | (Expr::Pair { first: a1, second: a2 }, Expr::Pair { first: b1, second: b2 }) => {
                let x1: Expr = *a1;
                let y1: Expr = *b1;
                let x2: Expr = *a2;
                let y2: Expr = *b2;
                law_same_expr_is_equality(x1, y1);
                law_same_expr_is_equality(x2, y2);
            },
            (Expr::Lam(a1), Expr::Lam(b1)) | (Expr::Fst(a1), Expr::Fst(b1)) | (Expr::Snd(a1), Expr::Snd(b1))
            | (Expr::Succ(a1), Expr::Succ(b1)) => {
                let x1: Expr = *a1;
                let y1: Expr = *b1;
                law_same_expr_is_equality(x1, y1);
            },
            _ => {},
        }
    }
}

fn take_one(slot: &mut Term, work: &mut Vec<Term>)
    ensures
        **final(slot) == Expr::Zero,
        final(work)@ == old(work)@.push(*old(slot)),
    opens_invariants none
    no_unwind
{
    let mut b = rc_new(Expr::Zero);
    std::mem::swap(slot, &mut b);
    vec_push(work, b);
}

fn take_two(a: &mut Term, b: &mut Term, work: &mut Vec<Term>)
    ensures
        **final(a) == Expr::Zero,
        **final(b) == Expr::Zero,
        final(work)@ == old(work)@.push(*old(a)).push(*old(b)),
    opens_invariants none
    no_unwind
{
    take_one(a, work);
    take_one(b, work);
}

/// The direct subterms of a term, left to right.
pub open spec fn expr_children(e: Expr) -> Seq<Term> {
    match e {
        Expr::Pi { domain, codomain } => seq![domain, codomain],
        Expr::Sigma { first, second } => seq![first, second],
        Expr::App { function, argument } => seq![function, argument],
        Expr::Pair { first, second } => seq![first, second],
        Expr::Lam(b) => seq![b],
        Expr::Fst(b) => seq![b],
        Expr::Snd(b) => seq![b],
        Expr::Succ(b) => seq![b],
        _ => Seq::empty(),
    }
}

/// A term of the same shape whose direct subterms are all `zero`.
pub open spec fn emptied(e: Expr) -> Expr {
    let z = Rc::new(Expr::Zero);
    match e {
        Expr::Pi { .. } => Expr::Pi { domain: z, codomain: z },
        Expr::Sigma { .. } => Expr::Sigma { first: z, second: z },
        Expr::App { .. } => Expr::App { function: z, argument: z },
        Expr::Pair { .. } => Expr::Pair { first: z, second: z },
        Expr::Lam(_) => Expr::Lam(z),
        Expr::Fst(_) => Expr::Fst(z),
        Expr::Snd(_) => Expr::Snd(z),
        Expr::Succ(_) => Expr::Succ(z),
        _ => e,
    }
}

/// Move the direct subterms of `expr` onto `work`, leaving `zero` leaves in
/// their place, so that teardown of a deep term needs no native recursion.
fn take_expr_children(expr: &mut Expr, work: &mut Vec<Term>)
    ensures
        *final(expr) == emptied(*old(expr)),
        final(work)@ == old(work)@ + expr_children(*old(expr)),
        terms_size(final(work)@) < terms_size(old(work)@) + expr_size(*old(expr)),
        final(work)@.len() >= old(work)@.len(),
        final(work)@.subrange(0, old(work)@.len() as int) == old(work)@,
    opens_invariants none
    no_unwind
{
    broadcast use lemma_terms_size_push;

    match expr {
        Expr::Pi { domain, codomain } => take_two(domain, codomain, work),
        Expr::Sigma { first, second } => take_two(first, second, work),
        Expr::App { function, argument } => take_two(function, argument, work),
        Expr::Pair { first, second } => take_two(first, second, work),
        Expr::Lam(body) => take_one(body, work),
        Expr::Fst(body) => take_one(body, work),
        Expr::Snd(body) => take_one(body, work),
        Expr::Succ(body) => take_one(body, work),
        Expr::Var(_) | Expr::Global(_) | Expr::Universe(_) | Expr::Nat | Expr::Zero => {},
    }
}

/// Pushing a term adds its size to the work list's total.
pub broadcast proof fn lemma_terms_size_push(s: Seq<Term>, t: Term)
    ensures
        #[trigger] terms_size(s.push(t)) == terms_size(s) + expr_size(*t),
{
    assert(s.push(t).drop_last() =~= s);
}

/// Release a work list of terms one node at a time.
fn release_terms(work: Vec<Term>)
    opens_invariants none
    no_unwind
{
    let mut work = work;
    loop
        decreases terms_size(work@),
    {
        let ghost before = work@;
        match vec_pop(&mut work) {
            Some(node) => {
                assert(before.drop_last() =~= work@);
                if let Ok(mut e) = rc_try_unwrap(node) {
                    take_expr_children(&mut e, &mut work);
                }
            },
            None => return ,
        }
    }
}

impl Drop for Expr {
    /// Deep terms are released iteratively through `take_expr_children` and
    /// `release_terms`.
    fn drop(&mut self)
        opens_invariants none
        no_unwind
    {
        let mut work = vec_new();
        take_expr_children(self, &mut work);
        release_terms(work);
    }
}

} // verus!
