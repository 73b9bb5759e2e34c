//! Evaluation of core terms into semantic values.
//!
//! The evaluator is a CEK-style machine with an explicit heap work stack and
//! a fuel budget; its meaning is the big-step evaluation `eval_outcome`.
use std::rc::Rc;

use vstd::prelude::*;

use crate::error::KernelError;
use crate::semantic::{clone_chain, Closure, Env, Neutral, Val, Value};
use crate::signature::{
    lookup_constructor, lookup_declaration, Declaration, Definition, Signature,
};
use crate::syntax::{Expr, Term};

verus! {

/// Evaluation uses a heap-allocated CEK-style work stack and explicit fuel.
/// Well-typed MLTT terms normalize; fuel makes the remaining CPU policy explicit.
#[derive(Clone, Copy, Debug)]
pub struct EvalConfig {
    pub fuel: usize,
}

impl Default for EvalConfig {
    fn default() -> (r: Self)
        ensures
            r.fuel == 100_000,
    {
        Self { fuel: 100_000 }
    }
}

/// What a step of evaluation yields: a value with the fuel left, or an error.
pub type Outcome = Result<(Value, nat), KernelError>;

/// The declarations visible to an evaluation.
pub open spec fn visible(signature: Option<&Signature>) -> Option<Seq<Declaration>> {
    match signature {
        Some(s) => Some(s@),
        None => None,
    }
}

/// The value part of an outcome.
pub open spec fn outcome_value(o: Outcome) -> Result<Value, KernelError> {
    match o {
        Ok((v, _)) => Ok(v),
        Err(e) => Err(e),
    }
}

/// `fst` on a value: pairs project, neutrals stay neutral.
pub open spec fn project_first(v: Value) -> Result<Value, KernelError> {
    match *v {
        Val::Pair(a, _) => Ok(a),
        Val::Neutral(n) => Ok(Rc::new(Val::Neutral(Neutral::Fst(Rc::new(n))))),
        _ => Err(KernelError::ExpectedPair),
    }
}

/// `snd` on a value: pairs project, neutrals stay neutral.
pub open spec fn project_second(v: Value) -> Result<Value, KernelError> {
    match *v {
        Val::Pair(_, b) => Ok(b),
        Val::Neutral(n) => Ok(Rc::new(Val::Neutral(Neutral::Snd(Rc::new(n))))),
        _ => Err(KernelError::ExpectedPair),
    }
}

/// A one-step result tagged with the fuel left after it.
pub open spec fn with_fuel(r: Result<Value, KernelError>, fuel: nat) -> Outcome {
    match r {
        Ok(v) => Ok((v, fuel)),
        Err(e) => Err(e),
    }
}

/// Big-step evaluation of `t` in `env` with `fuel` units: every visited term
/// node costs one unit; running out yields `OutOfFuel`.  Subterms are
/// evaluated left to right, functions before arguments.
pub open spec fn eval_outcome(sig: Option<Seq<Declaration>>, t: Expr, env: Env, fuel: nat) -> Outcome
    decreases fuel, 0nat,
{
    if fuel == 0 {
        Err(KernelError::OutOfFuel)
    } else {
        let f = (fuel - 1) as nat;
        match t {
            Expr::Var(i) => match env.lookup(i as nat) {
                Some(v) => Ok((v, f)),
                None => Err(KernelError::UnboundVariable(i)),
            },
            Expr::Global(name) => match sig {
                None => Err(KernelError::UnknownGlobal(name)),
                Some(decls) => match lookup_declaration(decls, name@) {
                    Some(Declaration::Definition(Definition::Transparent { body, .. })) => eval_outcome(
                        sig,
                        *body,
                        env,
                        f,
                    ),
                    Some(_) => Ok((Rc::new(Val::Neutral(Neutral::Global(name))), f)),
                    None => if lookup_constructor(decls, name@) is Some {
                        Ok((Rc::new(Val::Neutral(Neutral::Global(name))), f))
                    } else {
                        Err(KernelError::UnknownGlobal(name))
                    },
                },
            },
            Expr::Universe(i) => Ok((Rc::new(Val::Universe(i)), f)),
            Expr::Lam(body) => Ok((Rc::new(Val::Lam(Closure { env, body })), f)),
            Expr::Nat => Ok((Rc::new(Val::Nat), f)),
            Expr::Zero => Ok((Rc::new(Val::Zero), f)),
            Expr::Pi { domain, codomain } => match eval_outcome(sig, *domain, env, f) {
                Ok((d, f1)) => Ok((Rc::new(Val::Pi(d, Closure { env, body: codomain })), f1)),
                Err(e) => Err(e),
            },
            Expr::Sigma { first, second } => match eval_outcome(sig, *first, env, f) {
                Ok((d, f1)) => Ok((Rc::new(Val::Sigma(d, Closure { env, body: second })), f1)),
                Err(e) => Err(e),
            },
            Expr::App { function, argument } => match eval_outcome(sig, *function, env, f) {
                Ok((fv, f1)) => if f1 < fuel {
                    match eval_outcome(sig, *argument, env, f1) {
                        Ok((av, f2)) => if f2 < fuel {
                            apply_outcome(sig, fv, av, f2)
                        } else {
                            Err(KernelError::OutOfFuel)
                        },
                        Err(e) => Err(e),
                    }
                } else {
                    Err(KernelError::OutOfFuel)
                },
                Err(e) => Err(e),
            },
            Expr::Pair { first, second } => match eval_outcome(sig, *first, env, f) {
                Ok((a, f1)) => if f1 < fuel {
                    match eval_outcome(sig, *second, env, f1) {
                        Ok((b, f2)) => Ok((Rc::new(Val::Pair(a, b)), f2)),
                        Err(e) => Err(e),
                    }
                } else {
                    Err(KernelError::OutOfFuel)
                },
                Err(e) => Err(e),
            },
            Expr::Fst(p) => match eval_outcome(sig, *p, env, f) {
                Ok((v, f1)) => with_fuel(project_first(v), f1),
                Err(e) => Err(e),
            },
            Expr::Snd(p) => match eval_outcome(sig, *p, env, f) {
                Ok((v, f1)) => with_fuel(project_second(v), f1),
                Err(e) => Err(e),
            },
            Expr::Succ(n) => match eval_outcome(sig, *n, env, f) {
                Ok((v, f1)) => Ok((Rc::new(Val::Succ(v)), f1)),
                Err(e) => Err(e),
            },
        }
    }
}

/// Instantiate a closure with `arg` and evaluate its body.  A closure whose
/// environment already has `usize::MAX` entries cannot be extended.
#[verifier::opaque]
pub open spec fn close_outcome(sig: Option<Seq<Declaration>>, c: Closure, arg: Value, fuel: nat) -> Outcome
    decreases fuel, 1nat,
{
    if c.env.len < usize::MAX {
        eval_outcome(sig, *c.body, c.env.extended(arg), fuel)
    } else {
        Err(KernelError::OutOfFuel)
    }
}

/// Apply a function value: lambdas beta-reduce, neutral heads gain a spine.
pub open spec fn apply_outcome(sig: Option<Seq<Declaration>>, func: Value, arg: Value, fuel: nat) -> Outcome
    decreases fuel, 2nat,
{
    match *func {
        Val::Lam(c) => close_outcome(sig, c, arg, fuel),
        Val::Neutral(n) => Ok((Rc::new(Val::Neutral(Neutral::App(Rc::new(n), arg))), fuel)),
        _ => Err(KernelError::ExpectedFunction),
    }
}

/// Evaluation never gains fuel: a successful evaluation consumes at least one
/// unit, a closure instantiation at least one, an application none or more.
pub proof fn lemma_eval_consumes(sig: Option<Seq<Declaration>>, t: Expr, env: Env, fuel: nat)
    ensures
        eval_outcome(sig, t, env, fuel) matches Ok((_, r)) ==> r < fuel,
    decreases fuel, 0nat,
{
    if fuel > 0 {
        let f = (fuel - 1) as nat;
        match t {
            Expr::Global(name) => {
                if let Some(decls) = sig {
                    if let Some(Declaration::Definition(Definition::Transparent { body, .. })) =
                        lookup_declaration(decls, name@) {
                        let b: Expr = *body;
                        lemma_eval_consumes(sig, b, env, f);
                    }
                }
            },
            Expr::Pi { domain, codomain } => {
                let d: Expr = *domain;
                lemma_eval_consumes(sig, d, env, f);
            },
            Expr::Sigma { first, second } => {
                let d: Expr = *first;
                lemma_eval_consumes(sig, d, env, f);
            },
            Expr::App { function, argument } => {
                let a: Expr = *function;
                let b: Expr = *argument;
                lemma_eval_consumes(sig, a, env, f);
                if let Ok((fv, f1)) = eval_outcome(sig, a, env, f) {
                    lemma_eval_consumes(sig, b, env, f1);
                    if let Ok((av, f2)) = eval_outcome(sig, b, env, f1) {
                        lemma_apply_consumes(sig, fv, av, f2);
                    }
                }
            },
            Expr::Pair { first, second } => {
                let a: Expr = *first;
                let b: Expr = *second;
                lemma_eval_consumes(sig, a, env, f);
                if let Ok((_, f1)) = eval_outcome(sig, a, env, f) {
                    lemma_eval_consumes(sig, b, env, f1);
                }
            },
            Expr::Fst(p) => {
                let a: Expr = *p;
                lemma_eval_consumes(sig, a, env, f);
            },
            Expr::Snd(p) => {
                let a: Expr = *p;
                lemma_eval_consumes(sig, a, env, f);
            },
            Expr::Succ(n) => {
                let a: Expr = *n;
                lemma_eval_consumes(sig, a, env, f);
            },
            _ => {},
        }
    }
}

/// Instantiating a closure spends at least one unit of fuel.
pub proof fn lemma_close_consumes(sig: Option<Seq<Declaration>>, c: Closure, arg: Value, fuel: nat)
    ensures
        close_outcome(sig, c, arg, fuel) matches Ok((_, r)) ==> r < fuel,
    decreases fuel, 1nat,
{
    reveal(close_outcome);
    if c.env.len < usize::MAX {
        let b: Expr = *c.body;
        lemma_eval_consumes(sig, b, c.env.extended(arg), fuel);
    }
}

/// Applying a function value never gains fuel.
pub proof fn lemma_apply_consumes(sig: Option<Seq<Declaration>>, func: Value, arg: Value, fuel: nat)
    ensures
        apply_outcome(sig, func, arg, fuel) matches Ok((_, r)) ==> r <= fuel,
    decreases fuel, 2nat,
{
    reveal(close_outcome);
    if let Val::Lam(c) = *func {
        lemma_close_consumes(sig, c, arg, fuel);
    }
}


/// The evaluation state that a suspended machine frame resumes with.
pub(crate) enum EvalFrame {
    AppArgument { argument: Term, env: Env },
    Apply(Value),
    Pi { codomain: Term, env: Env },
    Sigma { second: Term, env: Env },
    PairSecond { second: Term, env: Env },
    MakePair(Value),
    Fst,
    Snd,
    Succ,
}

/// What the machine currently works on: a term to evaluate or a value to return.
enum Focus {
    Term(Term, Env),
    Value(Value),
}

spec fn frame_weight(f: EvalFrame) -> nat {
    match f {
        EvalFrame::AppArgument { .. } => 4,
        EvalFrame::Apply(_) => 2,
        EvalFrame::PairSecond { .. } => 3,
        _ => 1,
    }
}

spec fn frames_weight(s: Seq<EvalFrame>) -> nat
    decreases s.len(),
{
    if s.len() == 0 {
        0
    } else {
        frames_weight(s.drop_last()) + frame_weight(s.last())
    }
}

spec fn top_weight(s: Seq<EvalFrame>) -> nat {
    if s.len() == 0 {
        0
    } else {
        frame_weight(s.last())
    }
}

/// Continue a pending outcome through the suspended frames, innermost last.
spec fn resume(sig: Option<Seq<Declaration>>, frames: Seq<EvalFrame>, r: Outcome) -> Outcome
    decreases frames.len(), top_weight(frames),
{
    match r {
        Err(e) => Err(e),
        Ok((v, f)) => if frames.len() == 0 {
            Ok((v, f))
        } else {
            let rest = frames.drop_last();
            match frames.last() {
                EvalFrame::AppArgument { argument, env } => resume(
                    sig,
                    rest.push(EvalFrame::Apply(v)),
                    eval_outcome(sig, *argument, env, f),
                ),
                EvalFrame::Apply(func) => resume(sig, rest, apply_outcome(sig, func, v, f)),
                EvalFrame::Pi { codomain, env } => resume(
                    sig,
                    rest,
                    Ok((Rc::new(Val::Pi(v, Closure { env, body: codomain })), f)),
                ),
                EvalFrame::Sigma { second, env } => resume(
                    sig,
                    rest,
                    Ok((Rc::new(Val::Sigma(v, Closure { env, body: second })), f)),
                ),
                EvalFrame::PairSecond { second, env } => resume(
                    sig,
                    rest.push(EvalFrame::MakePair(v)),
                    eval_outcome(sig, *second, env, f),
                ),
                EvalFrame::MakePair(a) => resume(sig, rest, Ok((Rc::new(Val::Pair(a, v)), f))),
                EvalFrame::Fst => resume(sig, rest, with_fuel(project_first(v), f)),
                EvalFrame::Snd => resume(sig, rest, with_fuel(project_second(v), f)),
                EvalFrame::Succ => resume(sig, rest, Ok((Rc::new(Val::Succ(v)), f))),
            }
        },
    }
}

spec fn focus_outcome(sig: Option<Seq<Declaration>>, focus: Focus, fuel: nat) -> Outcome {
    match focus {
        Focus::Term(t, env) => eval_outcome(sig, *t, env, fuel),
        Focus::Value(v) => Ok((v, fuel)),
    }
}

spec fn focus_weight(focus: Focus) -> nat {
    match focus {
        Focus::Term(..) => 1,
        Focus::Value(_) => 0,
    }
}

proof fn lemma_push_frame(s: Seq<EvalFrame>, f: EvalFrame)
    ensures
        s.push(f).drop_last() == s,
        s.push(f).last() == f,
        s.push(f).len() == s.len() + 1,
        frames_weight(s.push(f)) == frames_weight(s) + frame_weight(f),
{
    assert(s.push(f).drop_last() =~= s);
}

proof fn lemma_pop_frame(s: Seq<EvalFrame>)
    requires
        s.len() > 0,
    ensures
        s.drop_last().push(s.last()) == s,
        frames_weight(s) == frames_weight(s.drop_last()) + frame_weight(s.last()),
{
    assert(s.drop_last().push(s.last()) =~= s);
}

/// An error in the focus ends the whole machine run with that error.
proof fn lemma_resume_error(sig: Option<Seq<Declaration>>, frames: Seq<EvalFrame>, e: KernelError)
    ensures
        resume(sig, frames, Err(e)) == Err::<(Value, nat), KernelError>(e),
{
}

proof fn lemma_resume_errors(sig: Option<Seq<Declaration>>, frames: Seq<EvalFrame>)
    ensures
        forall|e: KernelError| #[trigger] resume(sig, frames, Err(e)) == Err::<(Value, nat), KernelError>(e),
{
}

/// Share a neutral's components in a new neutral of the same shape.
pub(crate) fn share_neutral(n: &Neutral) -> (r: Neutral)
    ensures
        r == *n,
{
    match n {
        Neutral::Var(l) => Neutral::Var(*l),
        Neutral::Global(name) => Neutral::Global(name.clone()),
        Neutral::App(h, a) => Neutral::App(h.clone(), a.clone()),
        Neutral::Fst(h) => Neutral::Fst(h.clone()),
        Neutral::Snd(h) => Neutral::Snd(h.clone()),
    }
}

pub(crate) fn share_env(env: &Env) -> (r: Env)
    ensures
        r == *env,
{
    Env { head: clone_chain(&env.head), len: env.len }
}

pub(crate) struct Evaluator<'signature> {
    pub(crate) remaining: usize,
    pub(crate) signature: Option<&'signature Signature>,
}

impl<'signature> Evaluator<'signature> {
    pub(crate) open spec fn sig(self) -> Option<Seq<Declaration>> {
        visible(self.signature)
    }

    fn tick(&mut self) -> (r: Result<(), KernelError>)
        ensures
            final(self).signature == old(self).signature,
            old(self).remaining == 0 ==> r == Err::<(), KernelError>(KernelError::OutOfFuel)
                && final(self).remaining == 0,
            old(self).remaining > 0 ==> r is Ok && final(self).remaining == old(self).remaining - 1,
    {
        if self.remaining == 0 {
            Err(KernelError::OutOfFuel)
        } else {
            self.remaining = self.remaining - 1;
            Ok(())
        }
    }

    pub(crate) fn fst(&mut self, value: Value) -> (r: Result<Value, KernelError>)
        ensures
            *final(self) == *old(self),
            r == project_first(value),
    {
        match &*value {
            Val::Pair(a, _) => Ok(a.clone()),
            Val::Neutral(n) => Ok(Rc::new(Val::Neutral(Neutral::Fst(Rc::new(share_neutral(n)))))),
            _ => Err(KernelError::ExpectedPair),
        }
    }

    pub(crate) fn snd(&mut self, value: Value) -> (r: Result<Value, KernelError>)
        ensures
            *final(self) == *old(self),
            r == project_second(value),
    {
        match &*value {
            Val::Pair(_, b) => Ok(b.clone()),
            Val::Neutral(n) => Ok(Rc::new(Val::Neutral(Neutral::Snd(Rc::new(share_neutral(n)))))),
            _ => Err(KernelError::ExpectedPair),
        }
    }

    /// Instantiate `c` with `arg` and evaluate its body.
    pub(crate) fn close(&mut self, c: &Closure, arg: Value) -> (r: Result<Value, KernelError>)
        ensures
            final(self).signature == old(self).signature,
            match close_outcome(old(self).sig(), *c, arg, old(self).remaining as nat) {
                Ok((v, f)) => r == Ok::<Value, KernelError>(v) && final(self).remaining == f,
                Err(e) => r == Err::<Value, KernelError>(e),
            },
            r matches Err(KernelError::OutOfFuel) ==> final(self).remaining == 0,
    {
        proof {
            reveal(close_outcome);
        }
        if c.env.len == usize::MAX {
            self.remaining = 0;
            return Err(KernelError::OutOfFuel);
        }
        let env = c.env.extend(arg);
        self.eval(&c.body, &env)
    }

    /// Run the machine on `term` in `env`.
    pub(crate) fn eval(&mut self, term: &Term, env: &Env) -> (r: Result<Value, KernelError>)
        ensures
            final(self).signature == old(self).signature,
            match eval_outcome(old(self).sig(), **term, *env, old(self).remaining as nat) {
                Ok((v, f)) => r == Ok::<Value, KernelError>(v) && final(self).remaining == f,
                Err(e) => r == Err::<Value, KernelError>(e),
            },
            r matches Err(KernelError::OutOfFuel) ==> final(self).remaining == 0,
    {
        let ghost sig = self.sig();
        let mut focus = Focus::Term(term.clone(), share_env(env));
        let mut frames: Vec<EvalFrame> = Vec::new();
        loop
            invariant
                self.sig() == sig,
                self.signature == old(self).signature,
                resume(sig, frames@, focus_outcome(sig, focus, self.remaining as nat)) == eval_outcome(
                    sig,
                    **term,
                    *env,
                    old(self).remaining as nat,
                ),
            decreases self.remaining, frames_weight(frames@) + focus_weight(focus),
        {
            match focus {
                Focus::Term(t, env) => {
                    if let Err(e) = self.tick() {
                        proof {
                            lemma_resume_error(sig, frames@, e);
                        }
                        return Err(e);
                    }
                    // An exhausted or refused budget is left empty.
                    match self.step_term(&t, &env, &mut frames) {
                        Ok(next) => focus = next,
                        Err(e) => {
                            if let KernelError::OutOfFuel = &e {
                                self.remaining = 0;
                            }
                            return Err(e);
                        },
                    }
                },
                Focus::Value(result) => {
                    let ghost before = frames@;
                    match frames.pop() {
                        None => return Ok(result),
                        Some(frame) => {
                            proof {
                                lemma_pop_frame(before);
                            }
                            match self.step_frame(frame, result, &mut frames) {
                                Ok(next) => focus = next,
                                Err(e) => {
                                    if let KernelError::OutOfFuel = &e {
                                        self.remaining = 0;
                                    }
                                    return Err(e);
                                },
                            }
                        },
                    }
                },
            }
        }
    }

    /// Visit one term node (its tick already taken): produce a value or
    /// suspend a frame and focus on the first subterm.
    fn step_term(&self, t: &Term, env: &Env, frames: &mut Vec<EvalFrame>) -> (r: Result<Focus, KernelError>)
        ensures
            r matches Ok(focus) ==> resume(self.sig(), final(frames)@, focus_outcome(self.sig(), focus, self.remaining as nat))
                    == resume(self.sig(), old(frames)@, eval_outcome(self.sig(), **t, *env, (self.remaining + 1) as nat)),
            r matches Err(e) ==> resume(self.sig(), old(frames)@, eval_outcome(self.sig(), **t, *env, (self.remaining + 1) as nat))
                    == Err::<(Value, nat), KernelError>(e),
    {
        let ghost sig = self.sig();
        let ghost f = self.remaining as nat;
        let ghost fr = frames@;
        proof {
            let t0: Expr = **t;
            lemma_eval_consumes_all(sig, t0, *env);
            lemma_resume_errors(sig, fr);
        }
        match &**t {
            Expr::Var(i) => match env.get(*i) {
                Some(v) => {
                    assert(eval_outcome(sig, **t, *env, (f + 1) as nat) == Ok::<(Value, nat), KernelError>((v, f)));
                    Ok(Focus::Value(v))
                },
                None => Err(KernelError::UnboundVariable(*i)),
            },
            Expr::Global(name) => {
                let found = match self.signature {
                    Some(signature) => Some((signature.get(name.as_str()), signature)),
                    None => None,
                };
                match found {
                    None => Err(KernelError::UnknownGlobal(name.clone())),
                    Some((Some(Declaration::Definition(Definition::Transparent { body, .. })), _)) => {
                        assert(eval_outcome(sig, **t, *env, (f + 1) as nat) == eval_outcome(sig, **body, *env, f));
                        Ok(Focus::Term(body.clone(), share_env(env)))
                    },
                    Some((Some(_), _)) => Ok(Focus::Value(Rc::new(Val::Neutral(Neutral::Global(name.clone()))))),
                    Some((None, signature)) => {
                        if signature.constructor(name.as_str()).is_some() {
                            Ok(Focus::Value(Rc::new(Val::Neutral(Neutral::Global(name.clone())))))
                        } else {
                            Err(KernelError::UnknownGlobal(name.clone()))
                        }
                    },
                }
            },
            Expr::Universe(i) => Ok(Focus::Value(Rc::new(Val::Universe(*i)))),
            Expr::Lam(body) => Ok(Focus::Value(Rc::new(Val::Lam(Closure { env: share_env(env), body: body.clone() })))),
            Expr::Nat => Ok(Focus::Value(Rc::new(Val::Nat))),
            Expr::Zero => Ok(Focus::Value(Rc::new(Val::Zero))),
            Expr::Pi { domain, codomain } => {
                let frame = EvalFrame::Pi { codomain: codomain.clone(), env: share_env(env) };
                proof { lemma_push_frame(fr, frame); }
                frames.push(frame);
                Ok(Focus::Term(domain.clone(), share_env(env)))
            },
            Expr::Sigma { first, second } => {
                let frame = EvalFrame::Sigma { second: second.clone(), env: share_env(env) };
                proof { lemma_push_frame(fr, frame); }
                frames.push(frame);
                Ok(Focus::Term(first.clone(), share_env(env)))
            },
            Expr::App { function, argument } => {
                let frame = EvalFrame::AppArgument { argument: argument.clone(), env: share_env(env) };
                proof { lemma_push_frame(fr, frame); }
                frames.push(frame);
                proof {
                    let a: Expr = **function;
                    let b: Expr = **argument;
                    lemma_eval_consumes(sig, a, *env, f);
                    if let Ok((fv, f1)) = eval_outcome(sig, a, *env, f) {
                        lemma_eval_consumes(sig, b, *env, f1);
                        lemma_push_frame(fr, EvalFrame::Apply(fv));
                        let aa = EvalFrame::AppArgument { argument: *argument, env: *env };
                        assert(resume(sig, fr.push(aa), Ok((fv, f1))) == resume(sig, fr.push(EvalFrame::Apply(fv)), eval_outcome(sig, b, *env, f1)));
                        if let Ok((av, f2)) = eval_outcome(sig, b, *env, f1) {
                            assert(resume(sig, fr.push(EvalFrame::Apply(fv)), Ok((av, f2))) == resume(sig, fr, apply_outcome(sig, fv, av, f2)));
                        }
                    }
                }
                Ok(Focus::Term(function.clone(), share_env(env)))
            },
            Expr::Pair { first, second } => {
                let frame = EvalFrame::PairSecond { second: second.clone(), env: share_env(env) };
                proof { lemma_push_frame(fr, frame); }
                frames.push(frame);
                proof {
                    let a: Expr = **first;
                    let b: Expr = **second;
                    lemma_eval_consumes(sig, a, *env, f);
                    if let Ok((av, f1)) = eval_outcome(sig, a, *env, f) {
                        lemma_eval_consumes(sig, b, *env, f1);
                        lemma_push_frame(fr, EvalFrame::MakePair(av));
                        let ps = EvalFrame::PairSecond { second: *second, env: *env };
                        assert(resume(sig, fr.push(ps), Ok((av, f1))) == resume(sig, fr.push(EvalFrame::MakePair(av)), eval_outcome(sig, b, *env, f1)));
                        if let Ok((bv, f2)) = eval_outcome(sig, b, *env, f1) {
                            assert(resume(sig, fr.push(EvalFrame::MakePair(av)), Ok((bv, f2))) == resume(sig, fr, Ok((Rc::new(Val::Pair(av, bv)), f2))));
                        }
                    }
                }
                Ok(Focus::Term(first.clone(), share_env(env)))
            },
            Expr::Fst(p) => {
                proof { lemma_push_frame(fr, EvalFrame::Fst); }
                frames.push(EvalFrame::Fst);
                Ok(Focus::Term(p.clone(), share_env(env)))
            },
            Expr::Snd(p) => {
                proof { lemma_push_frame(fr, EvalFrame::Snd); }
                frames.push(EvalFrame::Snd);
                Ok(Focus::Term(p.clone(), share_env(env)))
            },
            Expr::Succ(n) => {
                proof { lemma_push_frame(fr, EvalFrame::Succ); }
                frames.push(EvalFrame::Succ);
                Ok(Focus::Term(n.clone(), share_env(env)))
            },
        }
    }

    /// Resume the innermost suspended frame with the value just computed.
    fn step_frame(&self, frame: EvalFrame, result: Value, frames: &mut Vec<EvalFrame>) -> (r: Result<Focus, KernelError>)
        ensures
            r matches Ok(focus) ==> resume(self.sig(), final(frames)@, focus_outcome(self.sig(), focus, self.remaining as nat))
                    == resume(self.sig(), old(frames)@.push(frame), Ok((result, self.remaining as nat))),
            r matches Ok(focus) ==> frames_weight(final(frames)@) + focus_weight(focus) < frames_weight(old(frames)@) + frame_weight(frame),
            r matches Err(e) ==> resume(self.sig(), old(frames)@.push(frame), Ok((result, self.remaining as nat)))
                    == Err::<(Value, nat), KernelError>(e),
    {
        let ghost sig = self.sig();
        let ghost fr = frames@;
        proof {
            lemma_push_frame(fr, frame);
            lemma_resume_errors(sig, fr);
            reveal(close_outcome);
        }
        match frame {
            EvalFrame::AppArgument { argument, env } => {
                proof { lemma_push_frame(fr, EvalFrame::Apply(result)); }
                frames.push(EvalFrame::Apply(result));
                Ok(Focus::Term(argument, env))
            },
            EvalFrame::Apply(function) => match &*function {
                Val::Universe(_) | Val::Pi(..) | Val::Sigma(..) | Val::Nat | Val::Zero | Val::Succ(_) | Val::Pair(..) => {
                    assert(apply_outcome(sig, function, result, self.remaining as nat) == Err::<(Value, nat), KernelError>(KernelError::ExpectedFunction));
                    Err(KernelError::ExpectedFunction)
                },
                Val::Lam(closure) => {
                    if closure.env.len == usize::MAX {
                        assert(apply_outcome(sig, function, result, self.remaining as nat) == Err::<(Value, nat), KernelError>(KernelError::OutOfFuel));
                        assert(resume(sig, fr.push(EvalFrame::Apply(function)), Ok((result, self.remaining as nat))) == resume(sig, fr, apply_outcome(sig, function, result, self.remaining as nat)));
                        return Err(KernelError::OutOfFuel);
                    }
                    Ok(Focus::Term(closure.body.clone(), closure.env.extend(result)))
                },
                Val::Neutral(neutral) => Ok(Focus::Value(Rc::new(Val::Neutral(Neutral::App(Rc::new(share_neutral(neutral)), result))))),
            },
            EvalFrame::Pi { codomain, env } => Ok(Focus::Value(Rc::new(Val::Pi(result, Closure { env, body: codomain })))),
            EvalFrame::Sigma { second, env } => Ok(Focus::Value(Rc::new(Val::Sigma(result, Closure { env, body: second })))),
            EvalFrame::PairSecond { second, env } => {
                proof { lemma_push_frame(fr, EvalFrame::MakePair(result)); }
                frames.push(EvalFrame::MakePair(result));
                Ok(Focus::Term(second, env))
            },
            EvalFrame::MakePair(first) => Ok(Focus::Value(Rc::new(Val::Pair(first, result)))),
            EvalFrame::Fst => match project_first_exec(result) {
                Ok(v) => Ok(Focus::Value(v)),
                Err(e) => {
                    assert(resume(sig, fr, Err(e)) == Err::<(Value, nat), KernelError>(e));
                    Err(e)
                },
            },
            EvalFrame::Snd => match project_second_exec(result) {
                Ok(v) => Ok(Focus::Value(v)),
                Err(e) => {
                    assert(resume(sig, fr, Err(e)) == Err::<(Value, nat), KernelError>(e));
                    Err(e)
                },
            },
            EvalFrame::Succ => Ok(Focus::Value(Rc::new(Val::Succ(result)))),
        }
    }
}

fn project_first_exec(value: Value) -> (r: Result<Value, KernelError>)
    ensures
        r == project_first(value),
{
    match &*value {
        Val::Pair(a, _) => Ok(a.clone()),
        Val::Neutral(n) => Ok(Rc::new(Val::Neutral(Neutral::Fst(Rc::new(share_neutral(n)))))),
        _ => Err(KernelError::ExpectedPair),
    }
}

fn project_second_exec(value: Value) -> (r: Result<Value, KernelError>)
    ensures
        r == project_second(value),
{
    match &*value {
        Val::Pair(_, b) => Ok(b.clone()),
        Val::Neutral(n) => Ok(Rc::new(Val::Neutral(Neutral::Snd(Rc::new(share_neutral(n)))))),
        _ => Err(KernelError::ExpectedPair),
    }
}

/// For every fuel amount, evaluation of `t` in `env` consumes fuel.
proof fn lemma_eval_consumes_all(sig: Option<Seq<Declaration>>, t: Expr, env: Env)
    ensures
        forall|fuel: nat| spends(#[trigger] eval_outcome(sig, t, env, fuel), fuel),
{
    assert forall|fuel: nat| spends(#[trigger] eval_outcome(sig, t, env, fuel), fuel) by {
        lemma_eval_consumes(sig, t, env, fuel);
    }
}

/// A successful outcome has strictly less fuel left than `fuel`.
pub open spec fn spends(o: Outcome, fuel: nat) -> bool {
    o matches Ok((_, r)) ==> r < fuel
}


/// Evaluate a closed core term without global declarations.
pub fn eval(term: &Term, config: EvalConfig) -> (r: Result<Value, KernelError>)
    ensures
        r == outcome_value(eval_outcome(None, **term, Env::empty(), config.fuel as nat)),
{
    let mut evaluator = Evaluator { remaining: config.fuel, signature: None };
    evaluator.eval(term, &Env { head: None, len: 0 })
}

/// Evaluate a closed core term with resolved global names from `signature`.
/// Transparent definitions unfold; opaque definitions, inductive names and
/// constructors stay neutral.
pub fn eval_in_signature(term: &Term, signature: &Signature, config: EvalConfig) -> (r: Result<
    Value,
    KernelError,
>)
    ensures
        r == outcome_value(
            eval_outcome(Some(signature@), **term, Env::empty(), config.fuel as nat),
        ),
{
    let mut evaluator = Evaluator { remaining: config.fuel, signature: Some(signature) };
    evaluator.eval(term, &Env { head: None, len: 0 })
}

/// An outcome run with `extra` more units of fuel.
pub open spec fn with_extra(o: Outcome, extra: nat) -> Outcome {
    match o {
        Ok((v, r)) => Ok((v, r + extra)),
        Err(e) => Err(e),
    }
}

/// Fuel is only a resource bound: giving an evaluation more fuel than it
/// needed leaves its value or its (non-resource) error unchanged, and the
/// extra fuel is left over.
pub proof fn law_eval_more_fuel(
    sig: Option<Seq<Declaration>>,
    t: Expr,
    env: Env,
    fuel: nat,
    extra: nat,
)
    requires
        eval_outcome(sig, t, env, fuel) != Err::<(Value, nat), KernelError>(KernelError::OutOfFuel),
    ensures
        eval_outcome(sig, t, env, fuel + extra) == with_extra(eval_outcome(sig, t, env, fuel), extra),
    decreases fuel, 0nat,
{
    let f = (fuel - 1) as nat;
    assert(fuel + extra - 1 == f + extra);
    match t {
        Expr::Global(name) => {
            if let Some(decls) = sig {
                if let Some(Declaration::Definition(Definition::Transparent { body, .. })) =
                    lookup_declaration(decls, name@) {
                    let b: Expr = *body;
                    law_eval_more_fuel(sig, b, env, f, extra);
                }
            }
        },
        Expr::Pi { domain, codomain } => {
            let d: Expr = *domain;
            law_eval_more_fuel(sig, d, env, f, extra);
        },
        Expr::Sigma { first, second } => {
            let d: Expr = *first;
            law_eval_more_fuel(sig, d, env, f, extra);
        },
        Expr::App { function, argument } => {
            let a: Expr = *function;
            let b: Expr = *argument;
            lemma_eval_consumes(sig, a, env, f);
            law_eval_more_fuel(sig, a, env, f, extra);
            if let Ok((fv, f1)) = eval_outcome(sig, a, env, f) {
                lemma_eval_consumes(sig, b, env, f1);
                law_eval_more_fuel(sig, b, env, f1, extra);
                if let Ok((av, f2)) = eval_outcome(sig, b, env, f1) {
                    lemma_apply_more_fuel(sig, fv, av, f2, extra);
                }
            }
        },
        Expr::Pair { first, second } => {
            let a: Expr = *first;
            let b: Expr = *second;
            lemma_eval_consumes(sig, a, env, f);
            law_eval_more_fuel(sig, a, env, f, extra);
            if let Ok((_, f1)) = eval_outcome(sig, a, env, f) {
                law_eval_more_fuel(sig, b, env, f1, extra);
            }
        },
        Expr::Fst(p) => {
            let a: Expr = *p;
            law_eval_more_fuel(sig, a, env, f, extra);
        },
        Expr::Snd(p) => {
            let a: Expr = *p;
            law_eval_more_fuel(sig, a, env, f, extra);
        },
        Expr::Succ(n) => {
            let a: Expr = *n;
            law_eval_more_fuel(sig, a, env, f, extra);
        },
        _ => {},
    }
}

proof fn lemma_apply_more_fuel(
    sig: Option<Seq<Declaration>>,
    func: Value,
    arg: Value,
    fuel: nat,
    extra: nat,
)
    requires
        apply_outcome(sig, func, arg, fuel) != Err::<(Value, nat), KernelError>(KernelError::OutOfFuel),
    ensures
        apply_outcome(sig, func, arg, fuel + extra) == with_extra(apply_outcome(sig, func, arg, fuel), extra),
    decreases fuel, 2nat,
{
    reveal(close_outcome);
    if let Val::Lam(c) = *func {
        if c.env.len < usize::MAX {
            let b: Expr = *c.body;
            law_eval_more_fuel(sig, b, c.env.extended(arg), fuel, extra);
        }
    }
}

/// Instantiating a closure with more fuel than it needed leaves its outcome
/// unchanged but for the extra fuel left over.
pub proof fn lemma_close_more_fuel(
    sig: Option<Seq<Declaration>>,
    c: Closure,
    arg: Value,
    fuel: nat,
    extra: nat,
)
    requires
        close_outcome(sig, c, arg, fuel) != Err::<(Value, nat), KernelError>(KernelError::OutOfFuel),
    ensures
        close_outcome(sig, c, arg, fuel + extra) == with_extra(close_outcome(sig, c, arg, fuel), extra),
{
    reveal(close_outcome);
    if c.env.len < usize::MAX {
        let b: Expr = *c.body;
        law_eval_more_fuel(sig, b, c.env.extended(arg), fuel, extra);
    }
}

/// Beta reduction: applying a lambda evaluates its body with the argument's
/// value bound at index zero, on the fuel left after the argument.
pub proof fn law_beta(sig: Option<Seq<Declaration>>, body: Term, argument: Term, env: Env, fuel: nat)
    requires
        fuel >= 2,
        env.len < usize::MAX,
        eval_outcome(sig, *argument, env, (fuel - 2) as nat) is Ok,
    ensures
        ({
            let (arg, rest) = eval_outcome(sig, *argument, env, (fuel - 2) as nat)->Ok_0;
            eval_outcome(
                sig,
                Expr::App { function: Rc::new(Expr::Lam(body)), argument },
                env,
                fuel,
            ) == eval_outcome(sig, *body, env.extended(arg), rest)
        }),
{
    reveal(close_outcome);
    let a: Expr = *argument;
    lemma_eval_consumes(sig, a, env, (fuel - 2) as nat);
    let lam_term: Expr = Expr::Lam(body);
    let closure = Closure { env, body };
    assert(eval_outcome(sig, lam_term, env, (fuel - 1) as nat) == Ok::<(Value, nat), KernelError>(
        (Rc::new(Val::Lam(closure)), (fuel - 2) as nat),
    ));
    let (arg, rest) = eval_outcome(sig, a, env, (fuel - 2) as nat)->Ok_0;
    assert(apply_outcome(sig, Rc::new(Val::Lam(closure)), arg, rest) == eval_outcome(
        sig,
        *body,
        env.extended(arg),
        rest,
    ));
    let app_term = Expr::App { function: Rc::new(lam_term), argument };
    assert(eval_outcome(sig, app_term, env, fuel) == apply_outcome(
        sig,
        Rc::new(Val::Lam(closure)),
        arg,
        rest,
    ));
}

/// Global names in a signature: transparent definitions unfold to their body
/// (one unit of fuel later); opaque definitions, inductive types and
/// constructors stay neutral heads.
pub proof fn law_global_evaluation(decls: Seq<Declaration>, name: String, env: Env, fuel: nat)
    requires
        fuel > 0,
    ensures
        lookup_declaration(decls, name@) matches Some(
            Declaration::Definition(Definition::Transparent { body, .. }),
        ) ==> eval_outcome(Some(decls), Expr::Global(name), env, fuel) == eval_outcome(
            Some(decls),
            *body,
            env,
            (fuel - 1) as nat,
        ),
        (lookup_declaration(decls, name@) matches Some(Declaration::Definition(Definition::Opaque { .. }))
            || lookup_declaration(decls, name@) matches Some(Declaration::Inductive(_))
            || (lookup_declaration(decls, name@) is None && lookup_constructor(decls, name@) is Some))
            ==> eval_outcome(Some(decls), Expr::Global(name), env, fuel) == Ok::<(Value, nat), KernelError>(
            (Rc::new(Val::Neutral(Neutral::Global(name))), (fuel - 1) as nat),
        ),
{
}

/// A variable evaluates to its binding, or is unbound exactly when its
/// index is at least the length of a well-formed environment.
pub proof fn law_variable_evaluation(sig: Option<Seq<Declaration>>, env: Env, index: usize, fuel: nat)
    requires
        env.well_formed(),
        fuel > 0,
    ensures
        index < env.len ==> eval_outcome(sig, Expr::Var(index), env, fuel) == Ok::<(Value, nat), KernelError>(
            (env.lookup(index as nat)->Some_0, (fuel - 1) as nat),
        ),
        index >= env.len ==> eval_outcome(sig, Expr::Var(index), env, fuel) == Err::<(Value, nat), KernelError>(
            KernelError::UnboundVariable(index),
        ),
{
    crate::semantic::law_bound_below_length(env, Rc::new(Val::Zero), index as nat);
}

} // verus!
