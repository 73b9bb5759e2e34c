//! Bidirectional type checking of core terms, with conversion by NbE.
use std::rc::Rc;

use vstd::prelude::*;

use crate::error::KernelError;
use crate::eval::{
    close_outcome, eval_outcome, lemma_close_more_fuel, law_eval_more_fuel, outcome_value,
    project_first, share_env, visible, EvalConfig, Evaluator,
};
use crate::inductive::{Binder, InductiveDecl};
use crate::quote::{
    fresh, lemma_quote_more_fuel, quote, quote_neutral_outcome, quote_outcome, reified_term,
};
use crate::semantic::{Closure, Env, Neutral, Val, Value};
use crate::signature::{
    admission, law_constructor_global, lookup_constructor, lookup_declaration, Declaration,
    Definition, Signature,
};
use crate::syntax::{
    expr_children, expr_size, law_same_expr_is_equality, lemma_terms_size_push, same_expr,
    same_term, terms_size, Expr, Term,
};

verus! {

/// The declarations a checking run may consult.
pub type Sig = Option<Seq<Declaration>>;

/// Every universe written in the term has a successor level that fits in `u32`.
pub open spec fn below_top_universe(t: Expr) -> bool
    decreases t,
{
    match t {
        Expr::Universe(i) => i < u32::MAX,
        Expr::Pi { domain, codomain } => below_top_universe(*domain) && below_top_universe(*codomain),
        Expr::Sigma { first, second } => below_top_universe(*first) && below_top_universe(*second),
        Expr::App { function, argument } => below_top_universe(*function) && below_top_universe(
            *argument,
        ),
        Expr::Pair { first, second } => below_top_universe(*first) && below_top_universe(*second),
        Expr::Lam(b) => below_top_universe(*b),
        Expr::Fst(b) => below_top_universe(*b),
        Expr::Snd(b) => below_top_universe(*b),
        Expr::Succ(b) => below_top_universe(*b),
        _ => true,
    }
}

/// The innermost term under a run of `succ`.
pub open spec fn succ_base(t: Expr) -> Expr
    decreases t,
{
    match t {
        Expr::Succ(n) => succ_base(*n),
        _ => t,
    }
}

/// Peeling a run of `succ` gives a no larger term that is not a `succ`.
pub proof fn lemma_succ_base(t: Expr)
    ensures
        expr_size(succ_base(t)) <= expr_size(t),
        below_top_universe(t) ==> below_top_universe(succ_base(t)),
        !(succ_base(t) is Succ),
    decreases t,
{
    if let Expr::Succ(n) = t {
        let m: Expr = *n;
        lemma_succ_base(m);
    }
}

/// The value of `t` in `values`, evaluated with a fresh budget of `fuel`.
pub open spec fn value_in(sig: Sig, fuel: nat, values: Env, t: Expr) -> Result<Value, KernelError> {
    outcome_value(eval_outcome(sig, t, values, fuel))
}

/// A closure instantiated with `arg`, evaluated with a fresh budget of `fuel`.
pub open spec fn instantiate(sig: Sig, fuel: nat, c: Closure, arg: Value) -> Result<Value, KernelError> {
    outcome_value(close_outcome(sig, c, arg, fuel))
}

/// The level of a universe value.
pub open spec fn level_of(v: Value) -> Result<u32, KernelError> {
    match *v {
        Val::Universe(i) => Ok(i),
        _ => Err(KernelError::ExpectedType),
    }
}

/// The larger of two universe levels.
pub open spec fn max_level(a: u32, b: u32) -> u32 {
    if a >= b {
        a
    } else {
        b
    }
}

/// A binder type of domain level `dl` whose body has the inferred type `r`.
pub open spec fn lift(dl: u32, r: Result<Value, KernelError>) -> Result<Value, KernelError> {
    match r {
        Err(e) => Err(e),
        Ok(v) => match level_of(v) {
            Err(e) => Err(e),
            Ok(l) => Ok(Rc::new(Val::Universe(max_level(dl, l)))),
        },
    }
}

/// Whether a context can bind one more variable.
pub open spec fn can_extend(types: Env, values: Env) -> bool {
    types.len < usize::MAX && values.len < usize::MAX
}

/// Conversion: both types quote to the same normal form at depth `level`.
pub open spec fn same_type(expected: Value, found: Value, level: usize, fuel: nat) -> Result<bool, KernelError> {
    match reified_term(quote_outcome(expected, level, fuel)) {
        Err(e) => Err(e),
        Ok(a) => match reified_term(quote_outcome(found, level, fuel)) {
            Err(e) => Err(e),
            Ok(b) => Ok(same_expr(*a, *b)),
        },
    }
}

/// Universes are cumulative; every other type must be convertible.
pub open spec fn assignable_type(expected: Value, found: Value, level: usize, fuel: nat) -> Result<bool, KernelError> {
    match (*expected, *found) {
        (Val::Universe(e), Val::Universe(f)) => Ok(f <= e),
        _ => same_type(expected, found, level, fuel),
    }
}

/// The error reported for a failed conversion: both types quoted, or the
/// quotation error.
pub open spec fn mismatch_error(expected: Value, found: Value, level: usize, fuel: nat) -> KernelError {
    match reified_term(quote_outcome(expected, level, fuel)) {
        Err(e) => e,
        Ok(a) => match reified_term(quote_outcome(found, level, fuel)) {
            Err(e) => e,
            Ok(b) => KernelError::TypeMismatch { expected: a, found: b },
        },
    }
}

/// `A1 -> ... -> An -> result` for the field types `A1 .. An`.
pub open spec fn pi_telescope(fields: Seq<Binder>, result: Term) -> Term
    decreases fields.len(),
{
    if fields.len() == 0 {
        result
    } else {
        Rc::new(Expr::Pi { domain: fields[0].ty, codomain: pi_telescope(fields.drop_first(), result) })
    }
}

/// The synthesized type of a constructor of a closed inductive.
pub open spec fn constructor_type_of(decls: Seq<Declaration>, name: String) -> Result<Term, KernelError> {
    match lookup_constructor(decls, name@) {
        None => Err(KernelError::UnknownGlobal(name)),
        Some((ind, c)) => if ind.params@.len() != 0 || ind.indices@.len() != 0 {
            Err(KernelError::UnsupportedGlobal(name))
        } else {
            Ok(pi_telescope(c.fields@, Rc::new(Expr::Global(ind.name))))
        },
    }
}

/// The type of a global name: a definition's declared type, an inductive's
/// universe, or a constructor's synthesized type.
pub open spec fn global_type(sig: Sig, fuel: nat, values: Env, name: String) -> Result<Value, KernelError> {
    match sig {
        None => Err(KernelError::UnknownGlobal(name)),
        Some(decls) => match lookup_declaration(decls, name@) {
            Some(Declaration::Definition(def)) => value_in(sig, fuel, values, *def.spec_ty()),
            Some(Declaration::Inductive(ind)) => Ok(Rc::new(Val::Universe(ind.universe))),
            None => if lookup_constructor(decls, name@) is Some {
                match constructor_type_of(decls, name) {
                    Ok(ty) => value_in(sig, fuel, values, *ty),
                    Err(e) => Err(e),
                }
            } else {
                Err(KernelError::UnknownGlobal(name))
            },
        },
    }
}

/// The inferred type of `t` in the context of variable types `types` and
/// variable values `values` (each evaluation with a fresh budget of `fuel`).
pub open spec fn infer_type(sig: Sig, fuel: nat, types: Env, values: Env, t: Expr) -> Result<Value, KernelError>
    decreases expr_size(t), 0nat,
{
    match t {
        Expr::Var(i) => match types.lookup(i as nat) {
            Some(v) => Ok(v),
            None => Err(KernelError::UnboundVariable(i)),
        },
        Expr::Global(name) => global_type(sig, fuel, values, name),
        Expr::Universe(i) => Ok(Rc::new(Val::Universe((i + 1) as u32))),
        Expr::Pi { domain, codomain } => match infer_type(sig, fuel, types, values, *domain) {
            Err(e) => Err(e),
            Ok(dty) => match level_of(dty) {
                Err(e) => Err(e),
                Ok(dl) => match value_in(sig, fuel, values, *domain) {
                    Err(e) => Err(e),
                    Ok(dv) => if can_extend(types, values) {
                        lift(
                            dl,
                            infer_type(
                                sig,
                                fuel,
                                types.extended(dv),
                                values.extended(fresh(values.len)),
                                *codomain,
                            ),
                        )
                    } else {
                        Err(KernelError::OutOfFuel)
                    },
                },
            },
        },
        Expr::Sigma { first, second } => match infer_type(sig, fuel, types, values, *first) {
            Err(e) => Err(e),
            Ok(dty) => match level_of(dty) {
                Err(e) => Err(e),
                Ok(dl) => match value_in(sig, fuel, values, *first) {
                    Err(e) => Err(e),
                    Ok(dv) => if can_extend(types, values) {
                        lift(
                            dl,
                            infer_type(
                                sig,
                                fuel,
                                types.extended(dv),
                                values.extended(fresh(values.len)),
                                *second,
                            ),
                        )
                    } else {
                        Err(KernelError::OutOfFuel)
                    },
                },
            },
        },
        Expr::Lam(_) => Err(KernelError::CannotInferLambda),
        Expr::Pair { .. } => Err(KernelError::CannotInferLambda),
        Expr::App { function, argument } => match infer_type(sig, fuel, types, values, *function) {
            Err(e) => Err(e),
            Ok(fty) => match *fty {
                Val::Pi(domain, codomain) => match check_type(sig, fuel, types, values, *argument, domain) {
                    Err(e) => Err(e),
                    Ok(()) => match value_in(sig, fuel, values, *argument) {
                        Err(e) => Err(e),
                        Ok(arg) => instantiate(sig, fuel, codomain, arg),
                    },
                },
                _ => Err(KernelError::ExpectedFunction),
            },
        },
        Expr::Fst(p) => match infer_type(sig, fuel, types, values, *p) {
            Err(e) => Err(e),
            Ok(pty) => match *pty {
                Val::Sigma(first, _) => Ok(first),
                _ => Err(KernelError::ExpectedPair),
            },
        },
        Expr::Snd(p) => match infer_type(sig, fuel, types, values, *p) {
            Err(e) => Err(e),
            Ok(pty) => match *pty {
                Val::Sigma(_, second) => match value_in(sig, fuel, values, *p) {
                    Err(e) => Err(e),
                    Ok(pv) => match project_first(pv) {
                        Err(e) => Err(e),
                        Ok(first) => instantiate(sig, fuel, second, first),
                    },
                },
                _ => Err(KernelError::ExpectedPair),
            },
        },
        Expr::Nat => Ok(Rc::new(Val::Universe(0))),
        Expr::Zero => Ok(Rc::new(Val::Nat)),
        Expr::Succ(n) => {
            proof {
                lemma_succ_base(*n);
            }
            match check_type(sig, fuel, types, values, succ_base(*n), Rc::new(Val::Nat)) {
                Ok(()) => Ok(Rc::new(Val::Nat)),
                Err(e) => Err(e),
            }
        },
    }
}

/// Check `t` against the type value `expected`: lambdas against Pi types and
/// pairs against Sigma types structurally, everything else by inference and
/// cumulative conversion.
pub open spec fn check_type(sig: Sig, fuel: nat, types: Env, values: Env, t: Expr, expected: Value) -> Result<(), KernelError>
    decreases expr_size(t), 1nat,
{
    let expected_val: Val = *expected;
    match (t, expected_val) {
        (Expr::Lam(body), Val::Pi(domain, codomain)) => if can_extend(types, values) {
            match instantiate(sig, fuel, codomain, fresh(values.len)) {
                Err(e) => Err(e),
                Ok(cod) => check_type(
                    sig,
                    fuel,
                    types.extended(domain),
                    values.extended(fresh(values.len)),
                    *body,
                    cod,
                ),
            }
        } else {
            Err(KernelError::OutOfFuel)
        },
        (Expr::Pair { first, second }, Val::Sigma(first_ty, second_ty)) => match check_type(
            sig,
            fuel,
            types,
            values,
            *first,
            first_ty,
        ) {
            Err(e) => Err(e),
            Ok(()) => match value_in(sig, fuel, values, *first) {
                Err(e) => Err(e),
                Ok(fv) => match instantiate(sig, fuel, second_ty, fv) {
                    Err(e) => Err(e),
                    Ok(sty) => check_type(sig, fuel, types, values, *second, sty),
                },
            },
        },
        _ => match infer_type(sig, fuel, types, values, t) {
            Err(e) => Err(e),
            Ok(found) => match assignable_type(expected, found, values.len, fuel) {
                Err(e) => Err(e),
                Ok(true) => Ok(()),
                Ok(false) => Err(mismatch_error(expected, found, values.len, fuel)),
            },
        },
    }
}


/// Inference of `t` reaches a universe `Type u32::MAX`, whose own type has no
/// level in `u32`.
pub open spec fn infer_overflows(sig: Sig, fuel: nat, types: Env, values: Env, t: Expr) -> bool
    decreases expr_size(t), 1nat,
{
    match t {
        Expr::Universe(i) => i == u32::MAX,
        Expr::Pi { domain, codomain } => binder_overflows(sig, fuel, types, values, *domain, *codomain),
        Expr::Sigma { first, second } => binder_overflows(sig, fuel, types, values, *first, *second),
        Expr::App { function, argument } => infer_overflows(sig, fuel, types, values, *function) || match infer_type(
            sig,
            fuel,
            types,
            values,
            *function,
        ) {
            Ok(fty) => match *fty {
                Val::Pi(domain, _) => check_overflows(sig, fuel, types, values, *argument, domain),
                _ => false,
            },
            Err(_) => false,
        },
        Expr::Fst(p) => infer_overflows(sig, fuel, types, values, *p),
        Expr::Snd(p) => infer_overflows(sig, fuel, types, values, *p),
        Expr::Succ(n) => {
            proof {
                lemma_succ_base(*n);
            }
            check_overflows(sig, fuel, types, values, succ_base(*n), Rc::new(Val::Nat))
        },
        _ => false,
    }
}

/// A binder type overflows in its domain, or in its body one binder deeper.
pub open spec fn binder_overflows(sig: Sig, fuel: nat, types: Env, values: Env, domain: Expr, body: Expr) -> bool
    decreases expr_size(domain) + expr_size(body) + 1, 0nat,
{
    infer_overflows(sig, fuel, types, values, domain) || match infer_type(sig, fuel, types, values, domain) {
        Ok(dty) => match level_of(dty) {
            Ok(_) => match value_in(sig, fuel, values, domain) {
                Ok(dv) => can_extend(types, values) && infer_overflows(
                    sig,
                    fuel,
                    types.extended(dv),
                    values.extended(fresh(values.len)),
                    body,
                ),
                Err(_) => false,
            },
            Err(_) => false,
        },
        Err(_) => false,
    }
}

/// Checking `t` against `expected` reaches an overflowing inference.
pub open spec fn check_overflows(sig: Sig, fuel: nat, types: Env, values: Env, t: Expr, expected: Value) -> bool
    decreases expr_size(t), 2nat,
{
    match (t, *expected) {
        (Expr::Lam(body), Val::Pi(domain, codomain)) => can_extend(types, values) && match instantiate(
            sig,
            fuel,
            codomain,
            fresh(values.len),
        ) {
            Ok(cod) => check_overflows(
                sig,
                fuel,
                types.extended(domain),
                values.extended(fresh(values.len)),
                *body,
                cod,
            ),
            Err(_) => false,
        },
        (Expr::Pair { first, second }, Val::Sigma(first_ty, second_ty)) => check_overflows(
            sig,
            fuel,
            types,
            values,
            *first,
            first_ty,
        ) || match check_type(sig, fuel, types, values, *first, first_ty) {
            Ok(()) => match value_in(sig, fuel, values, *first) {
                Ok(fv) => match instantiate(sig, fuel, second_ty, fv) {
                    Ok(sty) => check_overflows(sig, fuel, types, values, *second, sty),
                    Err(_) => false,
                },
                Err(_) => false,
            },
            Err(_) => false,
        },
        _ => infer_overflows(sig, fuel, types, values, t),
    }
}

/// Inference of a closed term overflows.
pub open spec fn inference_overflows(sig: Sig, t: Expr, fuel: nat) -> bool {
    infer_overflows(sig, fuel, Env::empty(), Env::empty(), t)
}

/// Checking a closed term against a closed type overflows.
pub open spec fn checking_overflows(sig: Sig, t: Expr, ty: Expr, fuel: nat) -> bool {
    match value_in(sig, fuel, Env::empty(), ty) {
        Ok(expected) => check_overflows(sig, fuel, Env::empty(), Env::empty(), t, expected),
        Err(_) => false,
    }
}

/// Every term of `terms` has universes with a successor level in `u32`.
pub open spec fn all_below_top(terms: Seq<Term>) -> bool {
    forall|i: int| 0 <= i < terms.len() ==> below_top_universe(*#[trigger] terms[i])
}

proof fn lemma_below_top_children(e: Expr)
    ensures
        below_top_universe(e) == (!(e matches Expr::Universe(i) && i == u32::MAX) && all_below_top(
            expr_children(e),
        )),
{
    let c = expr_children(e);
    if c.len() == 2 {
        assert(all_below_top(c) == (below_top_universe(*c[0]) && below_top_universe(*c[1])));
    } else if c.len() == 1 {
        assert(all_below_top(c) == below_top_universe(*c[0]));
    }
}

proof fn lemma_all_below_top_append(a: Seq<Term>, b: Seq<Term>)
    ensures
        all_below_top(a + b) == (all_below_top(a) && all_below_top(b)),
{
    if all_below_top(a) && all_below_top(b) {
        assert forall|i: int| 0 <= i < (a + b).len() implies below_top_universe(*#[trigger] (a + b)[i]) by {
            if i >= a.len() {
                assert((a + b)[i] == b[i - a.len()]);
            }
        }
    }
    if all_below_top(a + b) {
        assert forall|i: int| 0 <= i < a.len() implies below_top_universe(*#[trigger] a[i]) by {
            assert((a + b)[i] == a[i]);
        }
        assert forall|i: int| 0 <= i < b.len() implies below_top_universe(*#[trigger] b[i]) by {
            assert((a + b)[i + a.len()] == b[i]);
        }
    }
}

fn push_children(e: &Expr, stack: &mut Vec<Term>)
    ensures
        final(stack)@ == old(stack)@ + expr_children(*e),
{
    match e {
        Expr::Pi { domain: a, codomain: b }
        | Expr::Sigma { first: a, second: b }
        | Expr::App { function: a, argument: b }
        | Expr::Pair { first: a, second: b } => {
            stack.push(a.clone());
            stack.push(b.clone());
        },
        Expr::Lam(a) | Expr::Fst(a) | Expr::Snd(a) | Expr::Succ(a) => stack.push(a.clone()),
        Expr::Var(_) | Expr::Global(_) | Expr::Universe(_) | Expr::Nat | Expr::Zero => {},
    }
}

/// Decide whether every universe written in `term` has a successor level in
/// `u32`; when it does, inference and checking of the term never overflow
/// (`lemma_below_top_infer`, `lemma_below_top_check`).  The term is walked
/// with a heap work list.
pub fn universes_below_top(term: &Term) -> (b: bool)
    ensures
        b == below_top_universe(**term),
{
    let mut stack: Vec<Term> = Vec::new();
    stack.push(term.clone());
    assert(all_below_top(stack@) == below_top_universe(**term)) by {
        assert(stack@[0] == *term);
    }
    while stack.len() > 0
        invariant
            all_below_top(stack@) == below_top_universe(**term),
        decreases terms_size(stack@),
    {
        let ghost before = stack@;
        let node = stack.pop().unwrap();
        proof {
            let rest = stack@;
            assert(before =~= rest + seq![node]);
            lemma_all_below_top_append(rest, seq![node]);
            assert(all_below_top(seq![node]) == below_top_universe(*node)) by {
                assert(seq![node][0] == node);
            }
            lemma_terms_size_push(rest, node);
            assert(rest.push(node) =~= before);
            let e: Expr = *node;
            lemma_below_top_children(e);
            lemma_all_below_top_append(rest, expr_children(e));
            lemma_children_size(e, rest);
        }
        if let Expr::Universe(i) = &*node {
            if *i == u32::MAX {
                return false;
            }
        }
        push_children(&node, &mut stack);
    }
    true
}

proof fn lemma_children_size(e: Expr, rest: Seq<Term>)
    ensures
        terms_size(rest + expr_children(e)) < terms_size(rest) + expr_size(e),
{
    let c = expr_children(e);
    if c.len() == 2 {
        assert(rest + c =~= rest.push(c[0]).push(c[1]));
        lemma_terms_size_push(rest, c[0]);
        lemma_terms_size_push(rest.push(c[0]), c[1]);
    } else if c.len() == 1 {
        assert(rest + c =~= rest.push(c[0]));
        lemma_terms_size_push(rest, c[0]);
    } else {
        assert(rest + c =~= rest);
    }
}

/// A term whose universes all have a successor level never overflows.
pub proof fn lemma_below_top_infer(sig: Sig, fuel: nat, types: Env, values: Env, t: Expr)
    requires
        below_top_universe(t),
    ensures
        !infer_overflows(sig, fuel, types, values, t),
    decreases expr_size(t), 1nat,
{
    match t {
        Expr::Pi { domain, codomain } => {
            let d: Expr = *domain;
            let b: Expr = *codomain;
            lemma_below_top_binder(sig, fuel, types, values, d, b);
        },
        Expr::Sigma { first, second } => {
            let d: Expr = *first;
            let b: Expr = *second;
            lemma_below_top_binder(sig, fuel, types, values, d, b);
        },
        Expr::App { function, argument } => {
            let f: Expr = *function;
            let a: Expr = *argument;
            lemma_below_top_infer(sig, fuel, types, values, f);
            if let Ok(fty) = infer_type(sig, fuel, types, values, f) {
                if let Val::Pi(domain, _) = *fty {
                    lemma_below_top_check(sig, fuel, types, values, a, domain);
                }
            }
        },
        Expr::Fst(p) => {
            let q: Expr = *p;
            lemma_below_top_infer(sig, fuel, types, values, q);
        },
        Expr::Snd(p) => {
            let q: Expr = *p;
            lemma_below_top_infer(sig, fuel, types, values, q);
        },
        Expr::Succ(n) => {
            let m: Expr = *n;
            lemma_succ_base(m);
            lemma_below_top_check(sig, fuel, types, values, succ_base(m), Rc::new(Val::Nat));
        },
        _ => {},
    }
}

proof fn lemma_below_top_binder(sig: Sig, fuel: nat, types: Env, values: Env, domain: Expr, body: Expr)
    requires
        below_top_universe(domain),
        below_top_universe(body),
    ensures
        !binder_overflows(sig, fuel, types, values, domain, body),
    decreases expr_size(domain) + expr_size(body) + 1, 0nat,
{
    lemma_below_top_infer(sig, fuel, types, values, domain);
    if let Ok(dty) = infer_type(sig, fuel, types, values, domain) {
        if let Ok(dv) = value_in(sig, fuel, values, domain) {
            lemma_below_top_infer(sig, fuel, types.extended(dv), values.extended(fresh(values.len)), body);
        }
    }
}

/// A term whose universes all have a successor level never overflows when
/// checked.
pub proof fn lemma_below_top_check(sig: Sig, fuel: nat, types: Env, values: Env, t: Expr, expected: Value)
    requires
        below_top_universe(t),
    ensures
        !check_overflows(sig, fuel, types, values, t, expected),
    decreases expr_size(t), 2nat,
{
    let ev: Val = *expected;
    match (t, ev) {
        (Expr::Lam(body), Val::Pi(domain, codomain)) => {
            let b: Expr = *body;
            if let Ok(cod) = instantiate(sig, fuel, codomain, fresh(values.len)) {
                lemma_below_top_check(
                    sig,
                    fuel,
                    types.extended(domain),
                    values.extended(fresh(values.len)),
                    b,
                    cod,
                );
            }
        },
        (Expr::Pair { first, second }, Val::Sigma(first_ty, second_ty)) => {
            let a: Expr = *first;
            let b: Expr = *second;
            lemma_below_top_check(sig, fuel, types, values, a, first_ty);
            if let Ok(fv) = value_in(sig, fuel, values, a) {
                if let Ok(sty) = instantiate(sig, fuel, second_ty, fv) {
                    lemma_below_top_check(sig, fuel, types, values, b, sty);
                }
            }
        },
        _ => lemma_below_top_infer(sig, fuel, types, values, t),
    }
}

/// Domain levels of a Pi/Sigma spine, applied outermost first to the body's type.
pub open spec fn wrap_levels(levels: Seq<u32>, r: Result<Value, KernelError>) -> Result<Value, KernelError>
    decreases levels.len(),
{
    if levels.len() == 0 {
        r
    } else {
        wrap_levels(levels.drop_last(), lift(levels.last(), r))
    }
}

/// `l` joined (by `max_level`) with every level of `levels`.
pub open spec fn max_fold(l: u32, levels: Seq<u32>) -> u32
    decreases levels.len(),
{
    if levels.len() == 0 {
        l
    } else {
        max_fold(max_level(levels.last(), l), levels.drop_last())
    }
}

proof fn lemma_wrap_push(levels: Seq<u32>, l: u32, r: Result<Value, KernelError>)
    ensures
        wrap_levels(levels.push(l), r) == wrap_levels(levels, lift(l, r)),
{
    assert(levels.push(l).drop_last() =~= levels);
}

proof fn lemma_wrap_error(levels: Seq<u32>, e: KernelError)
    ensures
        wrap_levels(levels, Err(e)) == Err::<Value, KernelError>(e),
    decreases levels.len(),
{
    if levels.len() > 0 {
        lemma_wrap_error(levels.drop_last(), e);
    }
}

proof fn lemma_wrap_value(levels: Seq<u32>, v: Value)
    requires
        levels.len() > 0,
    ensures
        wrap_levels(levels, Ok(v)) == (match level_of(v) {
            Ok(l) => Ok(Rc::new(Val::Universe(max_fold(l, levels)))),
            Err(e) => Err::<Value, KernelError>(e),
        }),
    decreases levels.len(),
{
    let rest = levels.drop_last();
    match level_of(v) {
        Ok(l) => {
            let u = Rc::new(Val::Universe(max_level(levels.last(), l)));
            if rest.len() > 0 {
                lemma_wrap_value(rest, u);
            }
        },
        Err(e) => lemma_wrap_error(rest, e),
    }
}

struct Context<'signature> {
    types: Env,
    values: Env,
    config: EvalConfig,
    signature: Option<&'signature Signature>,
}

impl<'signature> Context<'signature> {
    spec fn sig(&self) -> Sig {
        visible(self.signature)
    }

    spec fn fuel(&self) -> nat {
        self.config.fuel as nat
    }

    /// Bind one more variable of type `ty`; its value is the fresh neutral
    /// for the current depth.
    fn extend(&self, ty: Value) -> (r: Result<Self, KernelError>)
        ensures
            can_extend(self.types, self.values) ==> (r matches Ok(c) && c.types == self.types.extended(ty)
                && c.values == self.values.extended(fresh(self.values.len)) && c.config == self.config
                && c.signature == self.signature),
            !can_extend(self.types, self.values) ==> r == Err::<Self, KernelError>(KernelError::OutOfFuel),
    {
        if self.types.len == usize::MAX || self.values.len == usize::MAX {
            return Err(KernelError::OutOfFuel);
        }
        Ok(Self {
            types: self.types.extend(ty),
            values: self.values.extend(Rc::new(Val::Neutral(Neutral::Var(self.values.len)))),
            config: self.config,
            signature: self.signature,
        })
    }

    fn eval(&self, term: &Term) -> (r: Result<Value, KernelError>)
        ensures
            r == value_in(self.sig(), self.fuel(), self.values, **term),
    {
        let mut evaluator = Evaluator { remaining: self.config.fuel, signature: self.signature };
        evaluator.eval(term, &self.values)
    }

    fn instantiate(&self, c: &Closure, arg: Value) -> (r: Result<Value, KernelError>)
        ensures
            r == instantiate(self.sig(), self.fuel(), *c, arg),
    {
        let mut evaluator = Evaluator { remaining: self.config.fuel, signature: self.signature };
        evaluator.close(c, arg)
    }

    fn share(&self) -> (r: Self)
        ensures
            r == *self,
    {
        Context {
            types: share_env(&self.types),
            values: share_env(&self.values),
            config: self.config,
            signature: self.signature,
        }
    }
}

fn universe_level(value: &Value) -> (r: Result<u32, KernelError>)
    ensures
        r == level_of(*value),
{
    if let Val::Universe(i) = &**value {
        Ok(*i)
    } else {
        Err(KernelError::ExpectedType)
    }
}

fn same(a: &Value, b: &Value, level: usize, config: EvalConfig) -> (r: Result<bool, KernelError>)
    ensures
        r == same_type(*a, *b, level, config.fuel as nat),
{
    let qa = match quote(a, level, config) {
        Ok(t) => t,
        Err(e) => return Err(e),
    };
    let qb = match quote(b, level, config) {
        Ok(t) => t,
        Err(e) => return Err(e),
    };
    Ok(same_term(&qa, &qb))
}

/// MLTT universes are cumulative: a term inhabiting `Type_i` also inhabits
/// `Type_j` whenever `i <= j`. Other conversion is NbE structural equality.
fn assignable(expected: &Value, found: &Value, level: usize, config: EvalConfig) -> (r: Result<bool, KernelError>)
    ensures
        r == assignable_type(*expected, *found, level, config.fuel as nat),
{
    match (&**expected, &**found) {
        (Val::Universe(expected_level), Val::Universe(found_level)) => Ok(*found_level <= *expected_level),
        _ => same(expected, found, level, config),
    }
}

fn mismatch(expected: &Value, found: &Value, level: usize, config: EvalConfig) -> (r: Result<KernelError, KernelError>)
    ensures
        match r {
            Ok(e) => e == mismatch_error(*expected, *found, level, config.fuel as nat),
            Err(e) => e == mismatch_error(*expected, *found, level, config.fuel as nat),
        },
{
    let qe = match quote(expected, level, config) {
        Ok(t) => t,
        Err(e) => return Err(e),
    };
    let qf = match quote(found, level, config) {
        Ok(t) => t,
        Err(e) => return Err(e),
    };
    Ok(KernelError::TypeMismatch { expected: qe, found: qf })
}

/// Construct the type of a zero-parameter, zero-index constructor from its
/// field telescope: `A1 -> ... -> An -> I`.
fn constructor_type(signature: &Signature, name: &String) -> (r: Result<Term, KernelError>)
    ensures
        r == constructor_type_of(signature@, *name),
{
    let (inductive, constructor) = match signature.constructor(name.as_str()) {
        Some(found) => found,
        None => return Err(KernelError::UnknownGlobal(name.clone())),
    };
    if inductive.params.len() != 0 || inductive.indices.len() != 0 {
        return Err(KernelError::UnsupportedGlobal(name.clone()));
    }
    let fields = &constructor.fields;
    let ghost result = Rc::new(Expr::Global(inductive.name));
    let mut ty = Rc::new(Expr::Global(inductive.name.clone()));
    let mut i = fields.len();
    assert(fields@.skip(fields@.len() as int) =~= Seq::<Binder>::empty());
    while i > 0
        invariant
            i <= fields@.len(),
            ty == pi_telescope(fields@.skip(i as int), result),
        decreases i,
    {
        assert(fields@.skip(i - 1).drop_first() =~= fields@.skip(i as int));
        ty = Rc::new(Expr::Pi { domain: fields[i - 1].ty.clone(), codomain: ty });
        i = i - 1;
    }
    assert(fields@.skip(0) =~= fields@);
    Ok(ty)
}


/// The type of a global name in `ctx`.
fn global_type_in(ctx: &Context, name: &String) -> (r: Result<Value, KernelError>)
    ensures
        r == global_type(ctx.sig(), ctx.fuel(), ctx.values, *name),
{
    let signature = match ctx.signature {
        Some(signature) => signature,
        None => return Err(KernelError::UnknownGlobal(name.clone())),
    };
    match signature.get(name.as_str()) {
        Some(Declaration::Definition(definition)) => ctx.eval(definition.ty()),
        Some(Declaration::Inductive(inductive)) => Ok(Rc::new(Val::Universe(inductive.universe))),
        None => {
            if signature.constructor(name.as_str()).is_some() {
                match constructor_type(signature, name) {
                    Ok(ty) => ctx.eval(&ty),
                    Err(e) => Err(e),
                }
            } else {
                Err(KernelError::UnknownGlobal(name.clone()))
            }
        },
    }
}

/// Infer the type of `term`.  A dependent-type spine has one body binder per
/// layer; the whole Pi/Sigma run is processed on the heap rather than
/// nesting native calls per binder.
fn infer_in(ctx: &Context, term: &Term) -> (r: Result<Value, KernelError>)
    requires
        !infer_overflows(ctx.sig(), ctx.fuel(), ctx.types, ctx.values, **term),
    ensures
        r == infer_type(ctx.sig(), ctx.fuel(), ctx.types, ctx.values, **term),
    decreases expr_size(**term), 1nat,
{
    let ghost sig = ctx.sig();
    let ghost fuel = ctx.fuel();
    let mut cursor = term.clone();
    let mut active = ctx.share();
    let mut levels: Vec<u32> = Vec::new();
    loop
        invariant
            !infer_overflows(sig, fuel, active.types, active.values, *cursor),
            expr_size(*cursor) <= expr_size(**term),
            levels@.len() == 0 ==> cursor == *term && active == *ctx,
            levels@.len() > 0 ==> expr_size(*cursor) < expr_size(**term),
            active.signature == ctx.signature,
            active.config == ctx.config,
            sig == ctx.sig(),
            fuel == ctx.fuel(),
            infer_type(sig, fuel, ctx.types, ctx.values, **term) == wrap_levels(
                levels@,
                infer_type(sig, fuel, active.types, active.values, *cursor),
            ),
        ensures
            !(*cursor is Pi),
            !(*cursor is Sigma),
        decreases expr_size(*cursor),
    {
        let (domain, body) = match &*cursor {
            Expr::Pi { domain, codomain } => (domain.clone(), codomain.clone()),
            Expr::Sigma { first, second } => (first.clone(), second.clone()),
            _ => break,
        };
        let ghost prior = levels@;
        assert(!binder_overflows(sig, fuel, active.types, active.values, *domain, *body));
        let domain_type = match infer_in(&active, &domain) {
            Ok(t) => t,
            Err(e) => {
                assert(infer_type(sig, fuel, active.types, active.values, *cursor) == Err::<
                    Value,
                    KernelError,
                >(e));
                proof {
                    lemma_wrap_error(prior, e);
                }
                return Err(e);
            },
        };
        let level = match universe_level(&domain_type) {
            Ok(l) => l,
            Err(e) => {
                assert(infer_type(sig, fuel, active.types, active.values, *cursor) == Err::<
                    Value,
                    KernelError,
                >(e));
                proof {
                    lemma_wrap_error(prior, e);
                }
                return Err(e);
            },
        };
        let domain_value = match active.eval(&domain) {
            Ok(v) => v,
            Err(e) => {
                proof {
                    lemma_wrap_error(prior, e);
                }
                return Err(e);
            },
        };
        let next = match active.extend(domain_value) {
            Ok(c) => c,
            Err(e) => {
                proof {
                    lemma_wrap_error(prior, e);
                }
                return Err(e);
            },
        };
        proof {
            let b: Expr = *body;
            lemma_wrap_push(prior, level, infer_type(sig, fuel, next.types, next.values, b));
        }
        active = next;
        levels.push(level);
        cursor = body;
    }
    if levels.len() > 0 {
        let found = match infer_in(&active, &cursor) {
            Ok(t) => t,
            Err(e) => {
                proof {
                    lemma_wrap_error(levels@, e);
                }
                return Err(e);
            },
        };
        proof {
            lemma_wrap_value(levels@, found);
        }
        let mut level = match universe_level(&found) {
            Ok(l) => l,
            Err(e) => return Err(e),
        };
        let ghost base = level;
        let mut i = levels.len();
        assert(levels@.take(levels@.len() as int) =~= levels@);
        while i > 0
            invariant
                i <= levels@.len(),
                max_fold(base, levels@) == max_fold(level, levels@.take(i as int)),
            decreases i,
        {
            assert(levels@.take(i as int).drop_last() =~= levels@.take(i - 1));
            let outer = levels[i - 1];
            if outer >= level {
                level = outer;
            }
            i = i - 1;
        }
        return Ok(Rc::new(Val::Universe(level)));
    }
    infer_node(ctx, term)
}

/// Infer the type of a term that does not start a Pi/Sigma spine.
fn infer_node(ctx: &Context, term: &Term) -> (r: Result<Value, KernelError>)
    requires
        !infer_overflows(ctx.sig(), ctx.fuel(), ctx.types, ctx.values, **term),
        !(**term is Pi),
        !(**term is Sigma),
    ensures
        r == infer_type(ctx.sig(), ctx.fuel(), ctx.types, ctx.values, **term),
    decreases expr_size(**term), 0nat,
{
    match &**term {
        Expr::Var(i) => match ctx.types.get(*i) {
            Some(v) => Ok(v),
            None => Err(KernelError::UnboundVariable(*i)),
        },
        Expr::Global(name) => global_type_in(ctx, name),
        Expr::Universe(i) => Ok(Rc::new(Val::Universe(*i + 1))),
        Expr::Pi { .. } | Expr::Sigma { .. } => {
            proof {
                assert(false);
            }
            Err(KernelError::ExpectedType)
        },
        Expr::Lam(_) => Err(KernelError::CannotInferLambda),
        Expr::App { function, argument } => {
            let function_type = match infer_in(ctx, function) {
                Ok(t) => t,
                Err(e) => return Err(e),
            };
            match &*function_type {
                Val::Pi(domain, codomain) => {
                    match check_in(ctx, argument, domain) {
                        Ok(()) => {},
                        Err(e) => return Err(e),
                    }
                    let arg = match ctx.eval(argument) {
                        Ok(v) => v,
                        Err(e) => return Err(e),
                    };
                    ctx.instantiate(codomain, arg)
                },
                _ => Err(KernelError::ExpectedFunction),
            }
        },
        Expr::Pair { .. } => Err(KernelError::CannotInferLambda),
        Expr::Fst(p) => {
            let pair_type = match infer_in(ctx, p) {
                Ok(t) => t,
                Err(e) => return Err(e),
            };
            match &*pair_type {
                Val::Sigma(first, _) => Ok(first.clone()),
                _ => Err(KernelError::ExpectedPair),
            }
        },
        Expr::Snd(p) => {
            let pair_type = match infer_in(ctx, p) {
                Ok(t) => t,
                Err(e) => return Err(e),
            };
            match &*pair_type {
                Val::Sigma(_, second) => {
                    let pair_value = match ctx.eval(p) {
                        Ok(v) => v,
                        Err(e) => return Err(e),
                    };
                    let mut evaluator = Evaluator { remaining: ctx.config.fuel, signature: ctx.signature };
                    let first = match evaluator.fst(pair_value) {
                        Ok(v) => v,
                        Err(e) => return Err(e),
                    };
                    ctx.instantiate(second, first)
                },
                _ => Err(KernelError::ExpectedPair),
            }
        },
        Expr::Nat => Ok(Rc::new(Val::Universe(0))),
        Expr::Zero => Ok(Rc::new(Val::Nat)),
        Expr::Succ(n) => {
            proof {
                let m: Expr = **n;
                lemma_succ_base(m);
            }
            let mut base = n.clone();
            loop
                invariant
                    succ_base(*base) == succ_base(**n),
                    expr_size(*base) <= expr_size(**n),
                ensures
                    !(*base is Succ),
                decreases expr_size(*base),
            {
                let next = match &*base {
                    Expr::Succ(next) => next.clone(),
                    _ => break,
                };
                base = next;
            }
            match check_in(ctx, &base, &Rc::new(Val::Nat)) {
                Ok(()) => Ok(Rc::new(Val::Nat)),
                Err(e) => Err(e),
            }
        },
    }
}

/// Check `term` against the type value `expected`.
fn check_in(ctx: &Context, term: &Term, expected: &Value) -> (r: Result<(), KernelError>)
    requires
        !check_overflows(ctx.sig(), ctx.fuel(), ctx.types, ctx.values, **term, *expected),
    ensures
        r == check_type(ctx.sig(), ctx.fuel(), ctx.types, ctx.values, **term, *expected),
    decreases expr_size(**term), 2nat,
{
    match (&**term, &**expected) {
        (Expr::Lam(body), Val::Pi(domain, codomain)) => {
            let extended = match ctx.extend(domain.clone()) {
                Ok(c) => c,
                Err(e) => return Err(e),
            };
            let x = Rc::new(Val::Neutral(Neutral::Var(ctx.values.len)));
            let body_type = match ctx.instantiate(codomain, x) {
                Ok(v) => v,
                Err(e) => return Err(e),
            };
            check_in(&extended, body, &body_type)
        },
        (Expr::Pair { first, second }, Val::Sigma(first_type, second_type)) => {
            match check_in(ctx, first, first_type) {
                Ok(()) => {},
                Err(e) => return Err(e),
            }
            let first_value = match ctx.eval(first) {
                Ok(v) => v,
                Err(e) => return Err(e),
            };
            let second_expected = match ctx.instantiate(second_type, first_value) {
                Ok(v) => v,
                Err(e) => return Err(e),
            };
            check_in(ctx, second, &second_expected)
        },
        _ => {
            let found = match infer_in(ctx, term) {
                Ok(v) => v,
                Err(e) => return Err(e),
            };
            match assignable(expected, &found, ctx.values.len, ctx.config) {
                Ok(true) => Ok(()),
                Ok(false) => match mismatch(expected, &found, ctx.values.len, ctx.config) {
                    Ok(e) => Err(e),
                    Err(e) => Err(e),
                },
                Err(e) => Err(e),
            }
        },
    }
}

/// The normal form of the inferred type of a closed term.
pub open spec fn inferred_type(sig: Sig, t: Expr, fuel: nat) -> Result<Term, KernelError> {
    match infer_type(sig, fuel, Env::empty(), Env::empty(), t) {
        Ok(v) => reified_term(quote_outcome(v, 0, fuel)),
        Err(e) => Err(e),
    }
}

/// The outcome of checking a closed term against a closed type.
pub open spec fn checked_against(sig: Sig, t: Expr, ty: Expr, fuel: nat) -> Result<(), KernelError> {
    match value_in(sig, fuel, Env::empty(), ty) {
        Ok(expected) => check_type(sig, fuel, Env::empty(), Env::empty(), t, expected),
        Err(e) => Err(e),
    }
}

fn root_context(config: EvalConfig, signature: Option<&Signature>) -> (r: Context)
    ensures
        r.types == Env::empty(),
        r.values == Env::empty(),
        r.config == config,
        r.signature == signature,
{
    Context { types: Env { head: None, len: 0 }, values: Env { head: None, len: 0 }, config, signature }
}

/// Infer a closed term's type, returned in normal form.
pub fn infer(term: &Term) -> (r: Result<Term, KernelError>)
    requires
        !inference_overflows(None, **term, 100_000),
    ensures
        r == inferred_type(None, **term, 100_000),
{
    infer_with_config(term, EvalConfig::default())
}

/// Infer a closed term's type with a caller-selected resource budget.
pub fn infer_with_config(term: &Term, config: EvalConfig) -> (r: Result<Term, KernelError>)
    requires
        !inference_overflows(None, **term, config.fuel as nat),
    ensures
        r == inferred_type(None, **term, config.fuel as nat),
{
    let ctx = root_context(config, None);
    match infer_in(&ctx, term) {
        Ok(ty) => quote(&ty, 0, config),
        Err(e) => Err(e),
    }
}

/// Check a closed term against a closed type.
pub fn check(term: &Term, ty: &Term) -> (r: Result<(), KernelError>)
    requires
        !checking_overflows(None, **term, **ty, 100_000),
    ensures
        r == checked_against(None, **term, **ty, 100_000),
{
    check_with_config(term, ty, EvalConfig::default())
}

/// Check a closed term against a closed type with a caller-selected budget.
pub fn check_with_config(term: &Term, ty: &Term, config: EvalConfig) -> (r: Result<(), KernelError>)
    requires
        !checking_overflows(None, **term, **ty, config.fuel as nat),
    ensures
        r == checked_against(None, **term, **ty, config.fuel as nat),
{
    let ctx = root_context(config, None);
    match ctx.eval(ty) {
        Ok(expected) => check_in(&ctx, term, &expected),
        Err(e) => Err(e),
    }
}

/// Infer a closed term's type using declarations from `signature`.
pub fn infer_in_signature(term: &Term, signature: &Signature, config: EvalConfig) -> (r: Result<
    Term,
    KernelError,
>)
    requires
        !inference_overflows(Some(signature@), **term, config.fuel as nat),
    ensures
        r == inferred_type(Some(signature@), **term, config.fuel as nat),
{
    let ctx = root_context(config, Some(signature));
    match infer_in(&ctx, term) {
        Ok(ty) => quote(&ty, 0, config),
        Err(e) => Err(e),
    }
}

/// Check a closed term against a closed type using declarations from
/// `signature`.
pub fn check_in_signature(term: &Term, ty: &Term, signature: &Signature, config: EvalConfig) -> (r:
    Result<(), KernelError>)
    requires
        !checking_overflows(Some(signature@), **term, **ty, config.fuel as nat),
    ensures
        r == checked_against(Some(signature@), **term, **ty, config.fuel as nat),
{
    let ctx = root_context(config, Some(signature));
    match ctx.eval(ty) {
        Ok(expected) => check_in(&ctx, term, &expected),
        Err(e) => Err(e),
    }
}

proof fn lemma_quoted_universe(v: Value, level: usize, fuel: nat, i: u32)
    requires
        reified_term(quote_outcome(v, level, fuel)) == Ok::<Term, KernelError>(Rc::new(Expr::Universe(i))),
    ensures
        *v == Val::Universe(i),
{
    if let Val::Neutral(n) = *v {
        assert(!(reified_term(quote_neutral_outcome(n, level, fuel)) matches Ok(t) && *t is Universe));
    }
}

/// Universes are cumulative: a closed term whose inferred type is `Type i`
/// checks against `Type j` for every `j >= i`.
pub proof fn law_universe_cumulativity(sig: Sig, t: Expr, i: u32, j: u32, fuel: nat)
    requires
        inferred_type(sig, t, fuel) == Ok::<Term, KernelError>(Rc::new(Expr::Universe(i))),
        i <= j,
        fuel > 0,
    ensures
        checked_against(sig, t, Expr::Universe(j), fuel) == Ok::<(), KernelError>(()),
{
    let found = infer_type(sig, fuel, Env::empty(), Env::empty(), t)->Ok_0;
    lemma_quoted_universe(found, 0, fuel, i);
}

/// The global of a constructor of an admitted inductive has the type
/// `A1 -> ... -> An -> I`, evaluated in the enlarged signature.
pub proof fn law_constructor_type(decls: Seq<Declaration>, ind: InductiveDecl, k: int, fuel: nat, values: Env)
    requires
        admission(decls, Declaration::Inductive(ind)) is Ok,
        0 <= k < ind.constructors@.len(),
    ensures
        global_type(
            Some(decls.push(Declaration::Inductive(ind))),
            fuel,
            values,
            ind.constructors@[k].name,
        ) == value_in(
            Some(decls.push(Declaration::Inductive(ind))),
            fuel,
            values,
            *pi_telescope(ind.constructors@[k].fields@, Rc::new(Expr::Global(ind.name))),
        ),
{
    law_constructor_global(decls, ind, k);
}

/// Whether a result reports an exhausted budget.
pub open spec fn out_of_fuel<T>(r: Result<T, KernelError>) -> bool {
    r matches Err(KernelError::OutOfFuel)
}

proof fn lemma_value_more_fuel(sig: Sig, fuel: nat, extra: nat, values: Env, t: Expr)
    requires
        !out_of_fuel(value_in(sig, fuel, values, t)),
    ensures
        value_in(sig, fuel + extra, values, t) == value_in(sig, fuel, values, t),
{
    law_eval_more_fuel(sig, t, values, fuel, extra);
}

proof fn lemma_instantiate_more_fuel(sig: Sig, fuel: nat, extra: nat, c: Closure, arg: Value)
    requires
        !out_of_fuel(instantiate(sig, fuel, c, arg)),
    ensures
        instantiate(sig, fuel + extra, c, arg) == instantiate(sig, fuel, c, arg),
{
    lemma_close_more_fuel(sig, c, arg, fuel, extra);
}

proof fn lemma_reified_more_fuel(v: Value, level: usize, fuel: nat, extra: nat)
    requires
        !out_of_fuel(reified_term(quote_outcome(v, level, fuel))),
    ensures
        reified_term(quote_outcome(v, level, fuel + extra)) == reified_term(quote_outcome(v, level, fuel)),
{
    lemma_quote_more_fuel(v, level, fuel, extra);
}

proof fn lemma_assignable_more_fuel(expected: Value, found: Value, level: usize, fuel: nat, extra: nat)
    requires
        !out_of_fuel(assignable_type(expected, found, level, fuel)),
    ensures
        assignable_type(expected, found, level, fuel + extra) == assignable_type(expected, found, level, fuel),
        assignable_type(expected, found, level, fuel) == Ok::<bool, KernelError>(false)
            && !(mismatch_error(expected, found, level, fuel) is OutOfFuel) ==> mismatch_error(
            expected,
            found,
            level,
            fuel + extra,
        ) == mismatch_error(expected, found, level, fuel),
{
    if !out_of_fuel(reified_term(quote_outcome(expected, level, fuel))) {
        lemma_reified_more_fuel(expected, level, fuel, extra);
    }
    if !out_of_fuel(reified_term(quote_outcome(found, level, fuel))) {
        lemma_reified_more_fuel(found, level, fuel, extra);
    }
}

proof fn lemma_global_more_fuel(sig: Sig, fuel: nat, extra: nat, values: Env, name: String)
    requires
        !out_of_fuel(global_type(sig, fuel, values, name)),
    ensures
        global_type(sig, fuel + extra, values, name) == global_type(sig, fuel, values, name),
{
    if let Some(decls) = sig {
        match lookup_declaration(decls, name@) {
            Some(Declaration::Definition(def)) => {
                let ty: Expr = *def.spec_ty();
                lemma_value_more_fuel(sig, fuel, extra, values, ty);
            },
            Some(Declaration::Inductive(_)) => {},
            None => {
                if let Ok(ty) = constructor_type_of(decls, name) {
                    let synthesized: Expr = *ty;
                    lemma_value_more_fuel(sig, fuel, extra, values, synthesized);
                }
            },
        }
    }
}

/// Inference with more fuel than it needed infers the same type, or reports
/// the same typing error.
pub proof fn lemma_infer_more_fuel(sig: Sig, fuel: nat, extra: nat, types: Env, values: Env, t: Expr)
    requires
        !out_of_fuel(infer_type(sig, fuel, types, values, t)),
    ensures
        infer_type(sig, fuel + extra, types, values, t) == infer_type(sig, fuel, types, values, t),
    decreases expr_size(t), 0nat,
{
    match t {
        Expr::Global(name) => lemma_global_more_fuel(sig, fuel, extra, values, name),
        Expr::Pi { domain, codomain } => {
            let d: Expr = *domain;
            let b: Expr = *codomain;
            if !out_of_fuel(infer_type(sig, fuel, types, values, d)) {
                lemma_infer_more_fuel(sig, fuel, extra, types, values, d);
            }
            if let Ok(dty) = infer_type(sig, fuel, types, values, d) {
                if level_of(dty) is Ok {
                    if !out_of_fuel(value_in(sig, fuel, values, d)) {
                        lemma_value_more_fuel(sig, fuel, extra, values, d);
                    }
                    if let Ok(dv) = value_in(sig, fuel, values, d) {
                        let inner_types = types.extended(dv);
                        let inner_values = values.extended(fresh(values.len));
                        if can_extend(types, values) && !out_of_fuel(
                            infer_type(sig, fuel, inner_types, inner_values, b),
                        ) {
                            lemma_infer_more_fuel(sig, fuel, extra, inner_types, inner_values, b);
                        }
                    }
                }
            }
        },
        Expr::Sigma { first, second } => {
            let d: Expr = *first;
            let b: Expr = *second;
            if !out_of_fuel(infer_type(sig, fuel, types, values, d)) {
                lemma_infer_more_fuel(sig, fuel, extra, types, values, d);
            }
            if let Ok(dty) = infer_type(sig, fuel, types, values, d) {
                if level_of(dty) is Ok {
                    if !out_of_fuel(value_in(sig, fuel, values, d)) {
                        lemma_value_more_fuel(sig, fuel, extra, values, d);
                    }
                    if let Ok(dv) = value_in(sig, fuel, values, d) {
                        let inner_types = types.extended(dv);
                        let inner_values = values.extended(fresh(values.len));
                        if can_extend(types, values) && !out_of_fuel(
                            infer_type(sig, fuel, inner_types, inner_values, b),
                        ) {
                            lemma_infer_more_fuel(sig, fuel, extra, inner_types, inner_values, b);
                        }
                    }
                }
            }
        },
        Expr::App { function, argument } => {
            let f: Expr = *function;
            let a: Expr = *argument;
            if !out_of_fuel(infer_type(sig, fuel, types, values, f)) {
                lemma_infer_more_fuel(sig, fuel, extra, types, values, f);
            }
            if let Ok(fty) = infer_type(sig, fuel, types, values, f) {
                if let Val::Pi(domain, codomain) = *fty {
                    if !out_of_fuel(check_type(sig, fuel, types, values, a, domain)) {
                        lemma_check_more_fuel(sig, fuel, extra, types, values, a, domain);
                    }
                    if !out_of_fuel(value_in(sig, fuel, values, a)) {
                        lemma_value_more_fuel(sig, fuel, extra, values, a);
                    }
                    if let Ok(arg) = value_in(sig, fuel, values, a) {
                        if !out_of_fuel(instantiate(sig, fuel, codomain, arg)) {
                            lemma_instantiate_more_fuel(sig, fuel, extra, codomain, arg);
                        }
                    }
                }
            }
        },
        Expr::Fst(p) => {
            let q: Expr = *p;
            if !out_of_fuel(infer_type(sig, fuel, types, values, q)) {
                lemma_infer_more_fuel(sig, fuel, extra, types, values, q);
            }
        },
        Expr::Snd(p) => {
            let q: Expr = *p;
            if !out_of_fuel(infer_type(sig, fuel, types, values, q)) {
                lemma_infer_more_fuel(sig, fuel, extra, types, values, q);
            }
            if !out_of_fuel(value_in(sig, fuel, values, q)) {
                lemma_value_more_fuel(sig, fuel, extra, values, q);
            }
            if let Ok(pty) = infer_type(sig, fuel, types, values, q) {
                if let Val::Sigma(_, second) = *pty {
                    if let Ok(pv) = value_in(sig, fuel, values, q) {
                        if let Ok(first) = project_first(pv) {
                            if !out_of_fuel(instantiate(sig, fuel, second, first)) {
                                lemma_instantiate_more_fuel(sig, fuel, extra, second, first);
                            }
                        }
                    }
                }
            }
        },
        Expr::Succ(n) => {
            let m: Expr = *n;
            lemma_succ_base(m);
            let base = succ_base(m);
            let nat_type = Rc::new(Val::Nat);
            if !out_of_fuel(check_type(sig, fuel, types, values, base, nat_type)) {
                lemma_check_more_fuel(sig, fuel, extra, types, values, base, nat_type);
            }
        },
        _ => {},
    }
}

/// Checking with more fuel than it needed gives the same verdict.
pub proof fn lemma_check_more_fuel(
    sig: Sig,
    fuel: nat,
    extra: nat,
    types: Env,
    values: Env,
    t: Expr,
    expected: Value,
)
    requires
        !out_of_fuel(check_type(sig, fuel, types, values, t, expected)),
    ensures
        check_type(sig, fuel + extra, types, values, t, expected) == check_type(
            sig,
            fuel,
            types,
            values,
            t,
            expected,
        ),
    decreases expr_size(t), 1nat,
{
    let expected_val: Val = *expected;
    match (t, expected_val) {
        (Expr::Lam(body), Val::Pi(domain, codomain)) => {
            if can_extend(types, values) {
                let b: Expr = *body;
                if !out_of_fuel(instantiate(sig, fuel, codomain, fresh(values.len))) {
                    lemma_instantiate_more_fuel(sig, fuel, extra, codomain, fresh(values.len));
                }
                if let Ok(cod) = instantiate(sig, fuel, codomain, fresh(values.len)) {
                    lemma_check_more_fuel(
                        sig,
                        fuel,
                        extra,
                        types.extended(domain),
                        values.extended(fresh(values.len)),
                        b,
                        cod,
                    );
                }
            }
        },
        (Expr::Pair { first, second }, Val::Sigma(first_ty, second_ty)) => {
            let a: Expr = *first;
            let b: Expr = *second;
            if !out_of_fuel(check_type(sig, fuel, types, values, a, first_ty)) {
                lemma_check_more_fuel(sig, fuel, extra, types, values, a, first_ty);
            }
            if !out_of_fuel(value_in(sig, fuel, values, a)) {
                lemma_value_more_fuel(sig, fuel, extra, values, a);
            }
            if let Ok(fv) = value_in(sig, fuel, values, a) {
                if !out_of_fuel(instantiate(sig, fuel, second_ty, fv)) {
                    lemma_instantiate_more_fuel(sig, fuel, extra, second_ty, fv);
                }
                if let Ok(sty) = instantiate(sig, fuel, second_ty, fv) {
                    if !out_of_fuel(check_type(sig, fuel, types, values, b, sty)) {
                        lemma_check_more_fuel(sig, fuel, extra, types, values, b, sty);
                    }
                }
            }
        },
        _ => {
            if !out_of_fuel(infer_type(sig, fuel, types, values, t)) {
                lemma_infer_more_fuel(sig, fuel, extra, types, values, t);
            }
            if let Ok(found) = infer_type(sig, fuel, types, values, t) {
                if !out_of_fuel(assignable_type(expected, found, values.len, fuel)) {
                    lemma_assignable_more_fuel(expected, found, values.len, fuel, extra);
                }
            }
        },
    }
}

/// Running out of fuel is a resource outcome, never a typing judgment: an
/// inference that does not run out of fuel infers the same normal-form type,
/// or reports the same error, under any larger budget.
pub proof fn law_infer_more_fuel(sig: Sig, t: Expr, fuel: nat, extra: nat)
    requires
        inferred_type(sig, t, fuel) != Err::<Term, KernelError>(KernelError::OutOfFuel),
    ensures
        inferred_type(sig, t, fuel + extra) == inferred_type(sig, t, fuel),
{
    let e = Env::empty();
    if !out_of_fuel(infer_type(sig, fuel, e, e, t)) {
        lemma_infer_more_fuel(sig, fuel, extra, e, e, t);
    }
    if let Ok(v) = infer_type(sig, fuel, e, e, t) {
        lemma_reified_more_fuel(v, 0, fuel, extra);
    }
}

/// A check that does not run out of fuel gives the same verdict under any
/// larger budget.
pub proof fn law_check_more_fuel(sig: Sig, t: Expr, ty: Expr, fuel: nat, extra: nat)
    requires
        checked_against(sig, t, ty, fuel) != Err::<(), KernelError>(KernelError::OutOfFuel),
    ensures
        checked_against(sig, t, ty, fuel + extra) == checked_against(sig, t, ty, fuel),
{
    let e = Env::empty();
    if !out_of_fuel(value_in(sig, fuel, e, ty)) {
        lemma_value_more_fuel(sig, fuel, extra, e, ty);
    }
    if let Ok(expected) = value_in(sig, fuel, e, ty) {
        lemma_check_more_fuel(sig, fuel, extra, e, e, t, expected);
    }
}

/// In every context `Type i : Type (i + 1)`, `Nat : Type 0` and `zero : Nat`.
pub proof fn law_closed_forms(sig: Sig, fuel: nat, types: Env, values: Env, i: u32)
    requires
        i < u32::MAX,
    ensures
        infer_type(sig, fuel, types, values, Expr::Universe(i)) == Ok::<Value, KernelError>(
            Rc::new(Val::Universe((i + 1) as u32)),
        ),
        infer_type(sig, fuel, types, values, Expr::Nat) == Ok::<Value, KernelError>(
            Rc::new(Val::Universe(0)),
        ),
        infer_type(sig, fuel, types, values, Expr::Zero) == Ok::<Value, KernelError>(
            Rc::new(Val::Nat),
        ),
{
}

/// Pi formation: when `A : Type i` and, one binder deeper, `B : Type j`, the
/// type `(x : A) -> B` lives in `Type max(i, j)`; Sigma alike.
pub proof fn law_binder_formation(
    sig: Sig,
    fuel: nat,
    types: Env,
    values: Env,
    domain: Term,
    body: Term,
    i: u32,
    j: u32,
)
    requires
        infer_type(sig, fuel, types, values, *domain) == Ok::<Value, KernelError>(
            Rc::new(Val::Universe(i)),
        ),
        value_in(sig, fuel, values, *domain) is Ok,
        can_extend(types, values),
        infer_type(
            sig,
            fuel,
            types.extended(value_in(sig, fuel, values, *domain)->Ok_0),
            values.extended(fresh(values.len)),
            *body,
        ) == Ok::<Value, KernelError>(Rc::new(Val::Universe(j))),
    ensures
        infer_type(sig, fuel, types, values, Expr::Pi { domain, codomain: body }) == Ok::<
            Value,
            KernelError,
        >(Rc::new(Val::Universe(max_level(i, j)))),
        infer_type(sig, fuel, types, values, Expr::Sigma { first: domain, second: body }) == Ok::<
            Value,
            KernelError,
        >(Rc::new(Val::Universe(max_level(i, j)))),
{
}

proof fn lemma_quotes_to_universe(v: Value, level: usize, fuel: nat)
    requires
        reified_term(quote_outcome(v, level, fuel)) matches Ok(t) && *t is Universe,
    ensures
        *v is Universe,
{
    if let Val::Neutral(n) = *v {
        assert(!(reified_term(quote_neutral_outcome(n, level, fuel)) matches Ok(t) && *t is Universe));
    }
}

/// Cumulativity from a successful check: a closed term that checks against
/// `Type i` checks against `Type j` for every `j >= i`.
pub proof fn law_check_cumulativity(sig: Sig, t: Expr, i: u32, j: u32, fuel: nat)
    requires
        checked_against(sig, t, Expr::Universe(i), fuel) == Ok::<(), KernelError>(()),
        i <= j,
        fuel > 0,
    ensures
        checked_against(sig, t, Expr::Universe(j), fuel) == Ok::<(), KernelError>(()),
{
    let e = Env::empty();
    let expected = Rc::new(Val::Universe(i));
    assert(value_in(sig, fuel, e, Expr::Universe(i)) == Ok::<Value, KernelError>(expected));
    let found = infer_type(sig, fuel, e, e, t)->Ok_0;
    let found_val: Val = *found;
    if !(found_val is Universe) {
        let q = reified_term(quote_outcome(found, 0, fuel));
        assert(q matches Ok(b) && same_expr(Expr::Universe(i), *b));
        lemma_quotes_to_universe(found, 0, fuel);
    }
}

/// Conversion tells bound variables apart: at depth `level`, the fresh
/// variables of two distinct levels are not convertible, and their mismatch
/// reports their two (distinct) de Bruijn indices.
pub proof fn law_distinct_variables_not_convertible(k1: usize, k2: usize, level: usize, fuel: nat)
    requires
        k1 < level,
        k2 < level,
        k1 != k2,
    ensures
        same_type(fresh(k1), fresh(k2), level, fuel) == Ok::<bool, KernelError>(false),
        assignable_type(fresh(k1), fresh(k2), level, fuel) == Ok::<bool, KernelError>(false),
        mismatch_error(fresh(k1), fresh(k2), level, fuel) == (KernelError::TypeMismatch {
            expected: Rc::new(Expr::Var((level - k1 - 1) as usize)),
            found: Rc::new(Expr::Var((level - k2 - 1) as usize)),
        }),
{
    let a = Expr::Var((level - k1 - 1) as usize);
    let b = Expr::Var((level - k2 - 1) as usize);
    law_same_expr_is_equality(a, b);
    assert(!same_expr(a, b));
    assert(quote_neutral_outcome(Neutral::Var(k1), level, fuel) == Ok::<(Term, nat), KernelError>(
        (Rc::new(a), fuel),
    ));
    assert(quote_neutral_outcome(Neutral::Var(k2), level, fuel) == Ok::<(Term, nat), KernelError>(
        (Rc::new(b), fuel),
    ));
    assert(quote_outcome(fresh(k1), level, fuel) == Ok::<(Term, nat), KernelError>((Rc::new(a), fuel)));
    assert(quote_outcome(fresh(k2), level, fuel) == Ok::<(Term, nat), KernelError>((Rc::new(b), fuel)));
}

/// A term whose type is one bound type variable does not check against a
/// distinct bound type variable: the check reports a mismatch naming both.
pub proof fn law_check_rejects_distinct_type_variable(
    sig: Sig,
    fuel: nat,
    types: Env,
    values: Env,
    t: Expr,
    k1: usize,
    k2: usize,
)
    requires
        infer_type(sig, fuel, types, values, t) == Ok::<Value, KernelError>(fresh(k2)),
        k1 < values.len,
        k2 < values.len,
        k1 != k2,
    ensures
        check_type(sig, fuel, types, values, t, fresh(k1)) == Err::<(), KernelError>(
            KernelError::TypeMismatch {
                expected: Rc::new(Expr::Var((values.len - k1 - 1) as usize)),
                found: Rc::new(Expr::Var((values.len - k2 - 1) as usize)),
            },
        ),
{
    law_distinct_variables_not_convertible(k1, k2, values.len, fuel);
}

/// Dependent application substitutes the argument: when the function has
/// type `Pi(A, B)` and the argument checks against `A`, the application has
/// type `B` with the argument's value bound at index zero of `B`'s
/// environment.
pub proof fn law_application_type(
    sig: Sig,
    fuel: nat,
    types: Env,
    values: Env,
    function: Term,
    argument: Term,
    domain: Value,
    codomain: Closure,
    arg: Value,
)
    requires
        infer_type(sig, fuel, types, values, *function) == Ok::<Value, KernelError>(
            Rc::new(Val::Pi(domain, codomain)),
        ),
        check_type(sig, fuel, types, values, *argument, domain) == Ok::<(), KernelError>(()),
        value_in(sig, fuel, values, *argument) == Ok::<Value, KernelError>(arg),
        codomain.env.len < usize::MAX,
    ensures
        infer_type(sig, fuel, types, values, Expr::App { function, argument }) == outcome_value(
            eval_outcome(sig, *codomain.body, codomain.env.extended(arg), fuel),
        ),
{
    reveal(close_outcome);
}

/// Typing of projections from a dependent pair `p : Sigma(A, B)`: `fst p`
/// has type `A`, and `snd p` has type `B` with the first projection of `p`'s
/// value bound at index zero: the first component of a pair value, or the
/// neutral `fst` of a stuck one.
pub proof fn law_projection_types(
    sig: Sig,
    fuel: nat,
    types: Env,
    values: Env,
    p: Term,
    first_ty: Value,
    second: Closure,
    pv: Value,
)
    requires
        infer_type(sig, fuel, types, values, *p) == Ok::<Value, KernelError>(
            Rc::new(Val::Sigma(first_ty, second)),
        ),
        value_in(sig, fuel, values, *p) == Ok::<Value, KernelError>(pv),
        second.env.len < usize::MAX,
    ensures
        infer_type(sig, fuel, types, values, Expr::Fst(p)) == Ok::<Value, KernelError>(first_ty),
        *pv matches Val::Pair(a, _) ==> infer_type(sig, fuel, types, values, Expr::Snd(p))
            == outcome_value(eval_outcome(sig, *second.body, second.env.extended(a), fuel)),
        *pv matches Val::Neutral(n) ==> infer_type(sig, fuel, types, values, Expr::Snd(p))
            == outcome_value(
            eval_outcome(
                sig,
                *second.body,
                second.env.extended(Rc::new(Val::Neutral(Neutral::Fst(Rc::new(n))))),
                fuel,
            ),
        ),
        !(*pv is Pair) && !(*pv is Neutral) ==> infer_type(sig, fuel, types, values, Expr::Snd(p))
            == Err::<Value, KernelError>(KernelError::ExpectedPair),
{
    reveal(close_outcome);
}

/// The `k`-th domain met walking down a chain of Pi codomains.
pub open spec fn nth_domain(t: Term, k: nat) -> Option<Term>
    decreases k,
{
    match *t {
        Expr::Pi { domain, codomain } => if k == 0 {
            Some(domain)
        } else {
            nth_domain(codomain, (k - 1) as nat)
        },
        _ => None,
    }
}

/// What remains after walking down `k` Pi codomains.
pub open spec fn nth_codomain(t: Term, k: nat) -> Option<Term>
    decreases k,
{
    if k == 0 {
        Some(t)
    } else {
        match *t {
            Expr::Pi { codomain, .. } => nth_codomain(codomain, (k - 1) as nat),
            _ => None,
        }
    }
}

/// A constructor's field telescope lists the fields in declaration order:
/// walking down its Pi codomains meets the field types first to last, then
/// the result type.
pub proof fn law_telescope_order(fields: Seq<Binder>, result: Term, k: nat)
    ensures
        k < fields.len() ==> nth_domain(pi_telescope(fields, result), k) == Some(fields[k as int].ty),
        nth_codomain(pi_telescope(fields, result), fields.len()) == Some(result),
    decreases fields.len(),
{
    if fields.len() > 0 {
        let rest = fields.drop_first();
        if k > 0 {
            law_telescope_order(rest, result, (k - 1) as nat);
            if k < fields.len() {
                assert(rest[k - 1] == fields[k as int]);
            }
        } else {
            law_telescope_order(rest, result, 0);
        }
    }
}

/// The type of a constructor of an admitted inductive lists its field types
/// in declaration order and ends in the inductive itself.
pub proof fn law_constructor_type_order(decls: Seq<Declaration>, ind: InductiveDecl, c: int, k: nat)
    requires
        admission(decls, Declaration::Inductive(ind)) is Ok,
        0 <= c < ind.constructors@.len(),
    ensures
        ({
            let fields = ind.constructors@[c].fields@;
            let ty = constructor_type_of(
                decls.push(Declaration::Inductive(ind)),
                ind.constructors@[c].name,
            )->Ok_0;
            &&& k < fields.len() ==> nth_domain(ty, k) == Some(fields[k as int].ty)
            &&& nth_codomain(ty, fields.len()) == Some(Rc::new(Expr::Global(ind.name)))
        }),
{
    law_constructor_global(decls, ind, c);
    law_telescope_order(ind.constructors@[c].fields@, Rc::new(Expr::Global(ind.name)), k);
}

} // verus!
