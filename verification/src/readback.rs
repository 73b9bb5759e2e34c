//! Normal forms read back unchanged: evaluating a normal form in the
//! environment of fresh variables and quoting the result gives the normal
//! form again, so normalization is idempotent.
use std::rc::Rc;

use vstd::prelude::*;

use crate::check::{checked_against, infer_type, inferred_type, value_in};
use crate::error::KernelError;
use crate::eval::{apply_outcome, close_outcome, eval_outcome, project_first};
use crate::quote::{
    fresh, normal_form, quote_body, quote_neutral_outcome, quote_outcome, reified_term,
};
use crate::semantic::{node_lookup, Closure, Env, EnvNode, Neutral, Val, Value};
use crate::syntax::{expr_size, law_same_expr_reflexive, same_expr, Expr, Term};

verus! {

/// The environment of the fresh variables of levels `0 .. l`: index `i`
/// holds the variable of level `l - 1 - i`.
pub open spec fn fresh_env(l: nat) -> Env
    decreases l,
{
    if l == 0 {
        Env::empty()
    } else {
        fresh_env((l - 1) as nat).extended(fresh((l - 1) as usize))
    }
}

/// A normal form whose free variables are below `l`: no redex, no global.
pub open spec fn is_normal(t: Expr, l: nat) -> bool
    decreases t, 1nat,
{
    match t {
        Expr::Universe(_) | Expr::Nat | Expr::Zero => true,
        Expr::Succ(a) => is_normal(*a, l),
        Expr::Pi { domain, codomain } => is_normal(*domain, l) && is_normal(*codomain, l + 1),
        Expr::Sigma { first, second } => is_normal(*first, l) && is_normal(*second, l + 1),
        Expr::Lam(b) => is_normal(*b, l + 1),
        Expr::Pair { first, second } => is_normal(*first, l) && is_normal(*second, l),
        _ => is_neutral_term(t, l),
    }
}

/// A stuck term: a variable below `l` under applications to normal forms
/// and projections.
pub open spec fn is_neutral_term(t: Expr, l: nat) -> bool
    decreases t, 0nat,
{
    match t {
        Expr::Var(i) => i < l,
        Expr::App { function, argument } => is_neutral_term(*function, l) && is_normal(*argument, l),
        Expr::Fst(p) => is_neutral_term(*p, l),
        Expr::Snd(p) => is_neutral_term(*p, l),
        _ => false,
    }
}

/// `v` is the value of the normal form `t` in `fresh_env(l)`.
pub open spec fn denotes(v: Value, l: nat, t: Expr) -> bool
    decreases t, 1nat,
{
    match t {
        Expr::Universe(i) => *v == Val::Universe(i),
        Expr::Nat => *v == Val::Nat,
        Expr::Zero => *v == Val::Zero,
        Expr::Succ(a) => match *v {
            Val::Succ(x) => denotes(x, l, *a),
            _ => false,
        },
        Expr::Pi { domain, codomain } => match *v {
            Val::Pi(d, c) => denotes(d, l, *domain) && c.env == fresh_env(l) && c.body == codomain,
            _ => false,
        },
        Expr::Sigma { first, second } => match *v {
            Val::Sigma(d, c) => denotes(d, l, *first) && c.env == fresh_env(l) && c.body == second,
            _ => false,
        },
        Expr::Lam(b) => match *v {
            Val::Lam(c) => c.env == fresh_env(l) && c.body == b,
            _ => false,
        },
        Expr::Pair { first, second } => match *v {
            Val::Pair(a, b) => denotes(a, l, *first) && denotes(b, l, *second),
            _ => false,
        },
        _ => match *v {
            Val::Neutral(n) => denotes_neutral(n, l, t),
            _ => false,
        },
    }
}

/// `n` is the neutral value of the stuck term `t` in `fresh_env(l)`.
pub open spec fn denotes_neutral(n: Neutral, l: nat, t: Expr) -> bool
    decreases t, 0nat,
{
    match t {
        Expr::Var(i) => i < l && n == Neutral::Var((l - 1 - i) as usize),
        Expr::App { function, argument } => match n {
            Neutral::App(h, a) => denotes_neutral(*h, l, *function) && denotes(a, l, *argument),
            _ => false,
        },
        Expr::Fst(p) => match n {
            Neutral::Fst(h) => denotes_neutral(*h, l, *p),
            _ => false,
        },
        Expr::Snd(p) => match n {
            Neutral::Snd(h) => denotes_neutral(*h, l, *p),
            _ => false,
        },
        _ => false,
    }
}

/// No neutral global occurs in a value, its closures' environments included.
pub open spec fn no_globals(v: Value) -> bool
    decreases v,
{
    match *v {
        Val::Pi(d, c) => no_globals(d) && closure_without_globals(c),
        Val::Sigma(d, c) => no_globals(d) && closure_without_globals(c),
        Val::Lam(c) => closure_without_globals(c),
        Val::Succ(x) => no_globals(x),
        Val::Pair(a, b) => no_globals(a) && no_globals(b),
        Val::Neutral(n) => neutral_without_globals(n),
        _ => true,
    }
}

pub open spec fn closure_without_globals(c: Closure) -> bool
    decreases c,
{
    chain_without_globals(c.env.head)
}

pub open spec fn chain_without_globals(head: Option<Rc<EnvNode>>) -> bool
    decreases head,
{
    match head {
        None => true,
        Some(node) => no_globals(node.value) && chain_without_globals(node.previous),
    }
}

pub open spec fn neutral_without_globals(n: Neutral) -> bool
    decreases n,
{
    match n {
        Neutral::Var(_) => true,
        Neutral::Global(_) => false,
        Neutral::App(h, a) => neutral_without_globals(*h) && no_globals(a),
        Neutral::Fst(h) => neutral_without_globals(*h),
        Neutral::Snd(h) => neutral_without_globals(*h),
    }
}

proof fn lemma_fresh_without_globals(level: usize)
    ensures
        no_globals(fresh(level)),
{
    assert(neutral_without_globals(Neutral::Var(level)));
}

proof fn lemma_neutral_term_is_normal(t: Expr, l: nat)
    ensures
        is_neutral_term(t, l) ==> is_normal(t, l),
{
    match t {
        Expr::Var(_) => {},
        Expr::App { .. } => {},
        Expr::Fst(_) => {},
        Expr::Snd(_) => {},
        _ => {},
    }
}

proof fn lemma_neutral_value(v: Value, l: nat, t: Expr)
    requires
        is_neutral_term(t, l),
        denotes(v, l, t),
    ensures
        *v matches Val::Neutral(n) && denotes_neutral(n, l, t),
{
    match t {
        Expr::Var(_) => {},
        Expr::App { .. } => {},
        Expr::Fst(_) => {},
        Expr::Snd(_) => {},
        _ => {},
    }
}

proof fn lemma_fresh_env(l: nat, i: nat)
    requires
        l <= usize::MAX,
    ensures
        fresh_env(l).len == l,
        chain_without_globals(fresh_env(l).head),
        i < l ==> fresh_env(l).lookup(i) == Some(fresh((l - 1 - i) as usize)),
    decreases l,
{
    if l > 0 {
        lemma_fresh_without_globals((l - 1) as usize);
        if i > 0 {
            lemma_fresh_env((l - 1) as nat, (i - 1) as nat);
        } else {
            lemma_fresh_env((l - 1) as nat, 0);
        }
    }
}

proof fn lemma_chain_lookup_without_globals(head: Option<Rc<EnvNode>>, i: nat)
    requires
        chain_without_globals(head),
    ensures
        node_lookup(head, i) matches Some(v) ==> no_globals(v),
    decreases i,
{
    if let Some(node) = head {
        let n: EnvNode = *node;
        if i > 0 {
            lemma_chain_lookup_without_globals(n.previous, (i - 1) as nat);
        }
    }
}

/// Evaluation without a signature, in an environment free of globals, yields
/// values free of globals.
proof fn lemma_eval_without_globals(t: Expr, env: Env, fuel: nat)
    requires
        chain_without_globals(env.head),
    ensures
        eval_outcome(None, t, env, fuel) matches Ok((v, _)) ==> no_globals(v),
    decreases fuel, 0nat,
{
    reveal_with_fuel(no_globals, 2);
    reveal_with_fuel(neutral_without_globals, 2);
    if fuel > 0 {
        let f = (fuel - 1) as nat;
        match t {
            Expr::Var(i) => lemma_chain_lookup_without_globals(env.head, i as nat),
            Expr::Pi { domain, .. } => {
                let d: Expr = *domain;
                lemma_eval_without_globals(d, env, f);
            },
            Expr::Sigma { first, .. } => {
                let d: Expr = *first;
                lemma_eval_without_globals(d, env, f);
            },
            Expr::App { function, argument } => {
                let a: Expr = *function;
                let b: Expr = *argument;
                lemma_eval_without_globals(a, env, f);
                if let Ok((fv, f1)) = eval_outcome(None, a, env, f) {
                    if f1 < fuel {
                        lemma_eval_without_globals(b, env, f1);
                        if let Ok((av, f2)) = eval_outcome(None, b, env, f1) {
                            if f2 < fuel {
                                lemma_apply_without_globals(fv, av, f2);
                            }
                        }
                    }
                }
            },
            Expr::Pair { first, second } => {
                let a: Expr = *first;
                let b: Expr = *second;
                lemma_eval_without_globals(a, env, f);
                if let Ok((_, f1)) = eval_outcome(None, a, env, f) {
                    if f1 < fuel {
                        lemma_eval_without_globals(b, env, f1);
                    }
                }
            },
            Expr::Fst(p) => {
                let a: Expr = *p;
                lemma_eval_without_globals(a, env, f);
                if let Ok((pv, _)) = eval_outcome(None, a, env, f) {
                    if let Val::Neutral(n) = *pv {
                        assert(neutral_without_globals(Neutral::Fst(Rc::new(n))));
                    }
                }
            },
            Expr::Snd(p) => {
                let a: Expr = *p;
                lemma_eval_without_globals(a, env, f);
                if let Ok((pv, _)) = eval_outcome(None, a, env, f) {
                    if let Val::Neutral(n) = *pv {
                        assert(neutral_without_globals(Neutral::Snd(Rc::new(n))));
                    }
                }
            },
            Expr::Succ(n) => {
                let a: Expr = *n;
                lemma_eval_without_globals(a, env, f);
            },
            Expr::Lam(body) => {
                assert(closure_without_globals(Closure { env, body }));
            },
            _ => {},
        }
    }
}

proof fn lemma_close_without_globals(c: Closure, arg: Value, fuel: nat)
    requires
        closure_without_globals(c),
        no_globals(arg),
    ensures
        close_outcome(None, c, arg, fuel) matches Ok((v, _)) ==> no_globals(v),
    decreases fuel, 1nat,
{
    reveal(close_outcome);
    if c.env.len < usize::MAX {
        let b: Expr = *c.body;
        lemma_eval_without_globals(b, c.env.extended(arg), fuel);
    }
}

proof fn lemma_apply_without_globals(func: Value, arg: Value, fuel: nat)
    requires
        no_globals(func),
        no_globals(arg),
    ensures
        apply_outcome(None, func, arg, fuel) matches Ok((v, _)) ==> no_globals(v),
    decreases fuel, 2nat,
{
    reveal(close_outcome);
    match *func {
        Val::Lam(c) => {
            assert(closure_without_globals(c));
            lemma_close_without_globals(c, arg, fuel);
        },
        Val::Neutral(n) => {
            assert(neutral_without_globals(Neutral::App(Rc::new(n), arg)));
            assert(no_globals(Rc::new(Val::Neutral(Neutral::App(Rc::new(n), arg)))));
        },
        _ => {},
    }
}

/// What quotation of a value free of globals yields is a normal form.
proof fn lemma_quote_is_normal(v: Value, level: usize, fuel: nat)
    requires
        no_globals(v),
    ensures
        quote_outcome(v, level, fuel) matches Ok((t, _)) ==> is_normal(*t, level as nat),
    decreases fuel, v, 0nat,
{
    match *v {
        Val::Succ(inner) => lemma_quote_is_normal(inner, level, fuel),
        Val::Pi(domain, c) => {
            lemma_quote_is_normal(domain, level, fuel);
            if let Ok((_, f1)) = quote_outcome(domain, level, fuel) {
                if f1 <= fuel {
                    lemma_body_is_normal(c, level, f1);
                }
            }
        },
        Val::Sigma(first, c) => {
            lemma_quote_is_normal(first, level, fuel);
            if let Ok((_, f1)) = quote_outcome(first, level, fuel) {
                if f1 <= fuel {
                    lemma_body_is_normal(c, level, f1);
                }
            }
        },
        Val::Lam(c) => lemma_body_is_normal(c, level, fuel),
        Val::Pair(a, b) => {
            lemma_quote_is_normal(a, level, fuel);
            if let Ok((_, f1)) = quote_outcome(a, level, fuel) {
                if f1 <= fuel {
                    lemma_quote_is_normal(b, level, f1);
                }
            }
        },
        Val::Neutral(n) => lemma_neutral_is_normal(n, level, fuel),
        _ => {},
    }
}

proof fn lemma_body_is_normal(c: Closure, level: usize, fuel: nat)
    requires
        closure_without_globals(c),
    ensures
        quote_body(c, level, fuel) matches Ok((t, _)) ==> is_normal(*t, (level + 1) as nat),
    decreases fuel, c, 1nat,
{
    lemma_fresh_without_globals(level);
    lemma_close_without_globals(c, fresh(level), fuel);
    if let Ok((body, f1)) = close_outcome(None, c, fresh(level), fuel) {
        if f1 < fuel && level < usize::MAX {
            lemma_quote_is_normal(body, (level + 1) as usize, f1);
        }
    }
}

proof fn lemma_neutral_is_normal(n: Neutral, level: usize, fuel: nat)
    requires
        neutral_without_globals(n),
    ensures
        quote_neutral_outcome(n, level, fuel) matches Ok((t, _)) ==> is_neutral_term(*t, level as nat)
            && is_normal(*t, level as nat),
    decreases fuel, n, 0nat,
{
    match n {
        Neutral::App(h, a) => {
            let head: Neutral = *h;
            lemma_neutral_is_normal(head, level, fuel);
            if let Ok((ht, f1)) = quote_neutral_outcome(head, level, fuel) {
                if f1 <= fuel {
                    lemma_quote_is_normal(a, level, f1);
                    if let Ok((at, _)) = quote_outcome(a, level, f1) {
                        let made = Expr::App { function: ht, argument: at };
                        assert(is_neutral_term(made, level as nat));
                        lemma_neutral_term_is_normal(made, level as nat);
                    }
                }
            }
        },
        Neutral::Fst(h) => {
            let head: Neutral = *h;
            lemma_neutral_is_normal(head, level, fuel);
            if let Ok((ht, _)) = quote_neutral_outcome(head, level, fuel) {
                lemma_neutral_term_is_normal(Expr::Fst(ht), level as nat);
            }
        },
        Neutral::Snd(h) => {
            let head: Neutral = *h;
            lemma_neutral_is_normal(head, level, fuel);
            if let Ok((ht, _)) = quote_neutral_outcome(head, level, fuel) {
                lemma_neutral_term_is_normal(Expr::Snd(ht), level as nat);
            }
        },
        Neutral::Var(k) => {
            if k < level {
                lemma_neutral_term_is_normal(Expr::Var((level - k - 1) as usize), level as nat);
            }
        },
        _ => {},
    }
}

/// `t` evaluates in `fresh_env(l)` to what it denotes, or runs out of fuel.
pub open spec fn evaluates_to_denotation(t: Expr, l: nat, fuel: nat) -> bool {
    eval_outcome(None, t, fresh_env(l), fuel) == Err::<(Value, nat), KernelError>(KernelError::OutOfFuel)
        || (eval_outcome(None, t, fresh_env(l), fuel) matches Ok((v, _)) && denotes(v, l, t))
}

/// A normal form evaluates, in the environment of fresh variables, to the
/// value it denotes, unless fuel runs out.
proof fn lemma_eval_normal(t: Expr, l: nat, fuel: nat)
    requires
        is_normal(t, l),
        l <= usize::MAX,
    ensures
        evaluates_to_denotation(t, l, fuel),
    decreases t,
{
    reveal_with_fuel(denotes, 2);
    reveal_with_fuel(denotes_neutral, 2);
    reveal(close_outcome);
    if fuel > 0 {
        let f = (fuel - 1) as nat;
        let env = fresh_env(l);
        match t {
            Expr::Var(i) => {
                assert(is_neutral_term(t, l));
                lemma_fresh_env(l, i as nat);
            },
            Expr::Succ(a) => {
                let x: Expr = *a;
                lemma_eval_normal(x, l, f);
            },
            Expr::Pi { domain, .. } => {
                let d: Expr = *domain;
                lemma_eval_normal(d, l, f);
            },
            Expr::Sigma { first, .. } => {
                let d: Expr = *first;
                lemma_eval_normal(d, l, f);
            },
            Expr::Pair { first, second } => {
                let a: Expr = *first;
                let b: Expr = *second;
                lemma_eval_normal(a, l, f);
                if let Ok((_, f1)) = eval_outcome(None, a, env, f) {
                    lemma_eval_normal(b, l, f1);
                }
            },
            Expr::App { function, argument } => {
                let a: Expr = *function;
                let b: Expr = *argument;
                assert(is_neutral_term(t, l));
                assert(is_neutral_term(a, l) && is_normal(b, l));
                lemma_neutral_term_is_normal(a, l);
                lemma_eval_normal(a, l, f);
                if let Ok((fv, f1)) = eval_outcome(None, a, env, f) {
                    lemma_neutral_value(fv, l, a);
                    lemma_eval_normal(b, l, f1);
                    if let Ok((av, f2)) = eval_outcome(None, b, env, f1) {
                        if let Val::Neutral(n) = *fv {
                            assert(denotes_neutral(n, l, a));
                            let made = Neutral::App(Rc::new(n), av);
                            assert(denotes_neutral(made, l, t));
                            assert(apply_outcome(None, fv, av, f2) == Ok::<(Value, nat), KernelError>(
                                (Rc::new(Val::Neutral(made)), f2),
                            ));
                        }
                    }
                }
            },
            Expr::Fst(p) => {
                let a: Expr = *p;
                assert(is_neutral_term(t, l));
                assert(is_neutral_term(a, l));
                lemma_neutral_term_is_normal(a, l);
                lemma_eval_normal(a, l, f);
                if let Ok((pv, _)) = eval_outcome(None, a, env, f) {
                    lemma_neutral_value(pv, l, a);
                    if let Val::Neutral(n) = *pv {
                        assert(denotes_neutral(Neutral::Fst(Rc::new(n)), l, t));
                    }
                }
            },
            Expr::Snd(p) => {
                let a: Expr = *p;
                assert(is_neutral_term(t, l));
                assert(is_neutral_term(a, l));
                lemma_neutral_term_is_normal(a, l);
                lemma_eval_normal(a, l, f);
                if let Ok((pv, _)) = eval_outcome(None, a, env, f) {
                    lemma_neutral_value(pv, l, a);
                    if let Val::Neutral(n) = *pv {
                        assert(denotes_neutral(Neutral::Snd(Rc::new(n)), l, t));
                    }
                }
            },
            Expr::Global(_) => {
                assert(is_neutral_term(t, l));
            },
            _ => {},
        }
    }
}

/// Quoting the value of a normal form gives the normal form back, unless
/// fuel runs out.
proof fn lemma_quote_denoted(v: Value, level: usize, t: Expr, fuel: nat)
    requires
        denotes(v, level as nat, t),
        is_normal(t, level as nat),
    ensures
        quote_outcome(v, level, fuel) == Err::<(Term, nat), KernelError>(KernelError::OutOfFuel)
            || (quote_outcome(v, level, fuel) matches Ok((r, _)) && *r == t),
    decreases fuel, t, 1nat,
{
    match t {
        Expr::Succ(a) => {
            let x: Expr = *a;
            if let Val::Succ(inner) = *v {
                lemma_quote_denoted(inner, level, x, fuel);
            }
        },
        Expr::Pi { domain, codomain } => {
            let d: Expr = *domain;
            let body: Expr = *codomain;
            if let Val::Pi(dv, c) = *v {
                lemma_quote_denoted(dv, level, d, fuel);
                if let Ok((_, f1)) = quote_outcome(dv, level, fuel) {
                    if f1 <= fuel {
                        lemma_body_denoted(c, level, body, f1);
                    }
                }
            }
        },
        Expr::Sigma { first, second } => {
            let d: Expr = *first;
            let body: Expr = *second;
            if let Val::Sigma(dv, c) = *v {
                lemma_quote_denoted(dv, level, d, fuel);
                if let Ok((_, f1)) = quote_outcome(dv, level, fuel) {
                    if f1 <= fuel {
                        lemma_body_denoted(c, level, body, f1);
                    }
                }
            }
        },
        Expr::Lam(b) => {
            let body: Expr = *b;
            if let Val::Lam(c) = *v {
                lemma_body_denoted(c, level, body, fuel);
            }
        },
        Expr::Pair { first, second } => {
            let a: Expr = *first;
            let b: Expr = *second;
            if let Val::Pair(av, bv) = *v {
                lemma_quote_denoted(av, level, a, fuel);
                if let Ok((_, f1)) = quote_outcome(av, level, fuel) {
                    if f1 <= fuel {
                        lemma_quote_denoted(bv, level, b, f1);
                    }
                }
            }
        },
        Expr::Universe(_) | Expr::Nat | Expr::Zero => {},
        _ => {
            if let Val::Neutral(n) = *v {
                lemma_neutral_denoted(n, level, t, fuel);
            }
        },
    }
}

proof fn lemma_body_denoted(c: Closure, level: usize, body: Expr, fuel: nat)
    requires
        c.env == fresh_env(level as nat),
        *c.body == body,
        is_normal(body, (level + 1) as nat),
    ensures
        quote_body(c, level, fuel) == Err::<(Term, nat), KernelError>(KernelError::OutOfFuel)
            || (quote_body(c, level, fuel) matches Ok((r, _)) && *r == body),
    decreases fuel, body, 2nat,
{
    reveal(close_outcome);
    lemma_fresh_env(level as nat, 0);
    if level < usize::MAX {
        assert(c.env.extended(fresh(level)) == fresh_env((level + 1) as nat));
        lemma_eval_normal(body, (level + 1) as nat, fuel);
        if let Ok((bv, f1)) = close_outcome(None, c, fresh(level), fuel) {
            if f1 < fuel {
                lemma_quote_denoted(bv, (level + 1) as usize, body, f1);
            }
        }
    }
}

proof fn lemma_neutral_denoted(n: Neutral, level: usize, t: Expr, fuel: nat)
    requires
        denotes_neutral(n, level as nat, t),
        is_neutral_term(t, level as nat),
    ensures
        quote_neutral_outcome(n, level, fuel) == Err::<(Term, nat), KernelError>(KernelError::OutOfFuel)
            || (quote_neutral_outcome(n, level, fuel) matches Ok((r, _)) && *r == t),
    decreases fuel, t, 0nat,
{
    match t {
        Expr::App { function, argument } => {
            let a: Expr = *function;
            let b: Expr = *argument;
            if let Neutral::App(h, av) = n {
                let head: Neutral = *h;
                lemma_neutral_denoted(head, level, a, fuel);
                if let Ok((_, f1)) = quote_neutral_outcome(head, level, fuel) {
                    if f1 <= fuel {
                        lemma_quote_denoted(av, level, b, f1);
                    }
                }
            }
        },
        Expr::Fst(p) => {
            let a: Expr = *p;
            if let Neutral::Fst(h) = n {
                let head: Neutral = *h;
                lemma_neutral_denoted(head, level, a, fuel);
            }
        },
        Expr::Snd(p) => {
            let a: Expr = *p;
            if let Neutral::Snd(h) = n {
                let head: Neutral = *h;
                lemma_neutral_denoted(head, level, a, fuel);
            }
        },
        _ => {},
    }
}

/// Normalization is idempotent: normalizing a normal form gives it back
/// unchanged, with any budget that does not run out.
pub proof fn law_normalize_idempotent(t: Expr, fuel: nat, again: nat)
    requires
        normal_form(None, t, fuel) is Ok,
    ensures
        ({
            let n = normal_form(None, t, fuel)->Ok_0;
            normal_form(None, *n, again) == Err::<Term, KernelError>(KernelError::OutOfFuel)
                || normal_form(None, *n, again) == Ok::<Term, KernelError>(n)
        }),
{
    let v = eval_outcome(None, t, Env::empty(), fuel)->Ok_0.0;
    lemma_eval_without_globals(t, Env::empty(), fuel);
    lemma_quote_is_normal(v, 0, fuel);
    let n = normal_form(None, t, fuel)->Ok_0;
    let nt: Expr = *n;
    assert(fresh_env(0) == Env::empty());
    lemma_eval_normal(nt, 0, again);
    if let Ok((w, _)) = eval_outcome(None, nt, Env::empty(), again) {
        lemma_quote_denoted(w, 0, nt, again);
    }
}

proof fn lemma_value_without_globals(fuel: nat, values: Env, t: Expr)
    requires
        chain_without_globals(values.head),
    ensures
        value_in(None, fuel, values, t) matches Ok(v) ==> no_globals(v),
{
    lemma_eval_without_globals(t, values, fuel);
}

/// Inference without a signature, in contexts free of globals, infers types
/// free of globals.
proof fn lemma_infer_without_globals(fuel: nat, types: Env, values: Env, t: Expr)
    requires
        chain_without_globals(types.head),
        chain_without_globals(values.head),
    ensures
        infer_type(None, fuel, types, values, t) matches Ok(v) ==> no_globals(v),
    decreases expr_size(t),
{
    match t {
        Expr::Var(i) => lemma_chain_lookup_without_globals(types.head, i as nat),
        Expr::App { function, argument } => {
            let f: Expr = *function;
            let a: Expr = *argument;
            lemma_infer_without_globals(fuel, types, values, f);
            lemma_value_without_globals(fuel, values, a);
            if let Ok(fty) = infer_type(None, fuel, types, values, f) {
                if let Val::Pi(_, codomain) = *fty {
                    if let Ok(arg) = value_in(None, fuel, values, a) {
                        lemma_close_without_globals(codomain, arg, fuel);
                    }
                }
            }
        },
        Expr::Fst(p) => {
            let q: Expr = *p;
            lemma_infer_without_globals(fuel, types, values, q);
        },
        Expr::Snd(p) => {
            let q: Expr = *p;
            lemma_infer_without_globals(fuel, types, values, q);
            lemma_value_without_globals(fuel, values, q);
            if let Ok(pty) = infer_type(None, fuel, types, values, q) {
                if let Val::Sigma(_, second) = *pty {
                    if let Ok(pv) = value_in(None, fuel, values, q) {
                        if let Ok(first) = project_first(pv) {
                            if let Val::Neutral(n) = *pv {
                                assert(neutral_without_globals(n));
                                assert(neutral_without_globals(Neutral::Fst(Rc::new(n))));
                                assert(no_globals(Rc::new(Val::Neutral(Neutral::Fst(Rc::new(n))))));
                            }
                            lemma_close_without_globals(second, first, fuel);
                        }
                    }
                }
            }
        },
        _ => {},
    }
}

/// Every normal form of a closed inferred type is free of globals, so it is
/// a normal form in the sense of `is_normal`.
proof fn lemma_inferred_is_normal(t: Expr, fuel: nat)
    requires
        inferred_type(None, t, fuel) is Ok,
    ensures
        is_normal(*inferred_type(None, t, fuel)->Ok_0, 0),
        reified_term(quote_outcome(infer_type(None, fuel, Env::empty(), Env::empty(), t)->Ok_0, 0, fuel))
            == inferred_type(None, t, fuel),
{
    let e = Env::empty();
    lemma_infer_without_globals(fuel, e, e, t);
    let v = infer_type(None, fuel, e, e, t)->Ok_0;
    lemma_quote_is_normal(v, 0, fuel);
}

/// An inferred type is a normal form: normalizing it gives it back unchanged,
/// with any budget that does not run out.
pub proof fn law_inferred_type_is_normal(t: Expr, fuel: nat, again: nat)
    requires
        inferred_type(None, t, fuel) is Ok,
    ensures
        ({
            let ty = inferred_type(None, t, fuel)->Ok_0;
            normal_form(None, *ty, again) == Err::<Term, KernelError>(KernelError::OutOfFuel)
                || normal_form(None, *ty, again) == Ok::<Term, KernelError>(ty)
        }),
{
    lemma_inferred_is_normal(t, fuel);
    let ty = inferred_type(None, t, fuel)->Ok_0;
    let tt: Expr = *ty;
    assert(fresh_env(0) == Env::empty());
    lemma_eval_normal(tt, 0, again);
    if let Ok((w, _)) = eval_outcome(None, tt, Env::empty(), again) {
        lemma_quote_denoted(w, 0, tt, again);
    }
}

/// A closed term checks against its own inferred type (checked with the
/// same budget), unless fuel runs out.
pub proof fn law_checks_against_inferred_type(t: Expr, fuel: nat)
    requires
        inferred_type(None, t, fuel) is Ok,
    ensures
        ({
            let ty = inferred_type(None, t, fuel)->Ok_0;
            checked_against(None, t, *ty, fuel) == Err::<(), KernelError>(KernelError::OutOfFuel)
                || checked_against(None, t, *ty, fuel) == Ok::<(), KernelError>(())
        }),
{
    let e = Env::empty();
    lemma_inferred_is_normal(t, fuel);
    let ty = inferred_type(None, t, fuel)->Ok_0;
    let tt: Expr = *ty;
    let found = infer_type(None, fuel, e, e, t)->Ok_0;
    assert(fresh_env(0) == e);
    lemma_eval_normal(tt, 0, fuel);
    law_same_expr_reflexive(tt);
    if let Ok((expected, _)) = eval_outcome(None, tt, e, fuel) {
        lemma_quote_denoted(expected, 0, tt, fuel);
        assert(!(t is Lam) && !(t is Pair));
        let ev: Val = *expected;
        let fv: Val = *found;
        if let (Val::Universe(x), Val::Universe(y)) = (ev, fv) {
            assert(*ty == Expr::Universe(y));
            assert(x == y);
        }
    }
}

} // verus!
