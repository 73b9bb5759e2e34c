//! Quotation (reification) of semantic values back into normal-form terms.
use std::rc::Rc;

use vstd::prelude::*;

use crate::error::KernelError;
use crate::eval::{
    close_outcome, eval, eval_in_signature, eval_outcome, law_eval_more_fuel,
    lemma_close_consumes, lemma_close_more_fuel, share_env, share_neutral, EvalConfig, Evaluator,
};
use crate::semantic::{Closure, Env, Neutral, Val, Value};
use crate::signature::{Declaration, Signature};
use crate::syntax::{Expr, Term};

verus! {

/// What quotation yields: a term with the fuel left, or an error.
pub type Reified = Result<(Term, nat), KernelError>;

/// The term part of a quotation outcome.
pub open spec fn reified_term(o: Reified) -> Result<Term, KernelError> {
    match o {
        Ok((t, _)) => Ok(t),
        Err(e) => Err(e),
    }
}

/// The fresh variable that stands for the binder at de Bruijn level `level`.
pub open spec fn fresh(level: usize) -> Value {
    Rc::new(Val::Neutral(Neutral::Var(level)))
}

/// The constructor that a reified subterm is placed under.
pub enum Hole {
    Succ,
    Lam,
    Fst,
    Snd,
    PiCodomain(Term),
    SigmaSecond(Term),
    PairSecond(Term),
    AppArgument(Term),
}

/// The term `t` placed in the hole `h`.
pub open spec fn plug(h: Hole, t: Term) -> Term {
    match h {
        Hole::Succ => Rc::new(Expr::Succ(t)),
        Hole::Lam => Rc::new(Expr::Lam(t)),
        Hole::Fst => Rc::new(Expr::Fst(t)),
        Hole::Snd => Rc::new(Expr::Snd(t)),
        Hole::PiCodomain(d) => Rc::new(Expr::Pi { domain: d, codomain: t }),
        Hole::SigmaSecond(d) => Rc::new(Expr::Sigma { first: d, second: t }),
        Hole::PairSecond(a) => Rc::new(Expr::Pair { first: a, second: t }),
        Hole::AppArgument(f) => Rc::new(Expr::App { function: f, argument: t }),
    }
}

/// A reified subterm placed in the hole `h`; errors pass through.
pub open spec fn wrap1(o: Reified, h: Hole) -> Reified {
    match o {
        Ok((t, f)) => Ok((plug(h, t), f)),
        Err(e) => Err(e),
    }
}

/// Quote under a closure: instantiate it with the fresh variable for
/// `level` (evaluation without globals) and quote the body one level deeper.
/// Going under a binder at level `usize::MAX` is refused as out of fuel.
pub open spec fn quote_body(c: Closure, level: usize, fuel: nat) -> Reified
    decreases fuel, c, 1nat,
{
    match close_outcome(None, c, fresh(level), fuel) {
        Ok((body, f1)) => if f1 < fuel && level < usize::MAX {
            quote_outcome(body, (level + 1) as usize, f1)
        } else {
            Err(KernelError::OutOfFuel)
        },
        Err(e) => Err(e),
    }
}

/// Reify a value at binder depth `level`, threading the fuel of the
/// evaluations it performs under binders.
pub open spec fn quote_outcome(v: Value, level: usize, fuel: nat) -> Reified
    decreases fuel, v, 0nat,
{
    match *v {
        Val::Universe(i) => Ok((Rc::new(Expr::Universe(i)), fuel)),
        Val::Nat => Ok((Rc::new(Expr::Nat), fuel)),
        Val::Zero => Ok((Rc::new(Expr::Zero), fuel)),
        Val::Succ(inner) => wrap1(quote_outcome(inner, level, fuel), Hole::Succ),
        Val::Pi(domain, c) => match quote_outcome(domain, level, fuel) {
            Ok((d, f1)) => if f1 <= fuel {
                wrap1(quote_body(c, level, f1), Hole::PiCodomain(d))
            } else {
                Err(KernelError::OutOfFuel)
            },
            Err(e) => Err(e),
        },
        Val::Sigma(first, c) => match quote_outcome(first, level, fuel) {
            Ok((d, f1)) => if f1 <= fuel {
                wrap1(quote_body(c, level, f1), Hole::SigmaSecond(d))
            } else {
                Err(KernelError::OutOfFuel)
            },
            Err(e) => Err(e),
        },
        Val::Lam(c) => wrap1(quote_body(c, level, fuel), Hole::Lam),
        Val::Pair(a, b) => match quote_outcome(a, level, fuel) {
            Ok((at, f1)) => if f1 <= fuel {
                wrap1(quote_outcome(b, level, f1), Hole::PairSecond(at))
            } else {
                Err(KernelError::OutOfFuel)
            },
            Err(e) => Err(e),
        },
        Val::Neutral(n) => quote_neutral_outcome(n, level, fuel),
    }
}

/// Reify a neutral at binder depth `level`: the variable of level `l` becomes
/// the index `level - l - 1`.
pub open spec fn quote_neutral_outcome(n: Neutral, level: usize, fuel: nat) -> Reified
    decreases fuel, n, 0nat,
{
    match n {
        Neutral::Var(l) => if l < level {
            Ok((Rc::new(Expr::Var((level - l - 1) as usize)), fuel))
        } else {
            Err(KernelError::UnboundVariable(l))
        },
        Neutral::Global(name) => Ok((Rc::new(Expr::Global(name)), fuel)),
        Neutral::App(h, a) => match quote_neutral_outcome(*h, level, fuel) {
            Ok((ht, f1)) => if f1 <= fuel {
                wrap1(quote_outcome(a, level, f1), Hole::AppArgument(ht))
            } else {
                Err(KernelError::OutOfFuel)
            },
            Err(e) => Err(e),
        },
        Neutral::Fst(h) => wrap1(quote_neutral_outcome(*h, level, fuel), Hole::Fst),
        Neutral::Snd(h) => wrap1(quote_neutral_outcome(*h, level, fuel), Hole::Snd),
    }
}


/// A successful quotation has no more fuel left than it started with.
pub open spec fn keeps(o: Reified, fuel: nat) -> bool {
    o matches Ok((_, r)) ==> r <= fuel
}

/// Quotation never gains fuel.
pub proof fn lemma_quote_consumes(v: Value, level: usize, fuel: nat)
    ensures
        keeps(quote_outcome(v, level, fuel), fuel),
    decreases fuel, v, 0nat,
{
    match *v {
        Val::Succ(inner) => lemma_quote_consumes(inner, level, fuel),
        Val::Pi(domain, c) => {
            lemma_quote_consumes(domain, level, fuel);
            if let Ok((_, f1)) = quote_outcome(domain, level, fuel) {
                lemma_body_consumes(c, level, f1);
            }
        },
        Val::Sigma(first, c) => {
            lemma_quote_consumes(first, level, fuel);
            if let Ok((_, f1)) = quote_outcome(first, level, fuel) {
                lemma_body_consumes(c, level, f1);
            }
        },
        Val::Lam(c) => lemma_body_consumes(c, level, fuel),
        Val::Pair(a, b) => {
            lemma_quote_consumes(a, level, fuel);
            if let Ok((_, f1)) = quote_outcome(a, level, fuel) {
                lemma_quote_consumes(b, level, f1);
            }
        },
        Val::Neutral(n) => lemma_neutral_consumes(n, level, fuel),
        _ => {},
    }
}

/// Quoting under a binder spends at least one unit of fuel.
pub proof fn lemma_body_consumes(c: Closure, level: usize, fuel: nat)
    ensures
        quote_body(c, level, fuel) matches Ok((_, r)) ==> r < fuel,
    decreases fuel, c, 1nat,
{
    lemma_close_consumes(None, c, fresh(level), fuel);
    if let Ok((body, f1)) = close_outcome(None, c, fresh(level), fuel) {
        if f1 < fuel && level < usize::MAX {
            lemma_quote_consumes(body, (level + 1) as usize, f1);
        }
    }
}

/// Quoting a neutral never gains fuel.
pub proof fn lemma_neutral_consumes(n: Neutral, level: usize, fuel: nat)
    ensures
        keeps(quote_neutral_outcome(n, level, fuel), fuel),
    decreases fuel, n, 0nat,
{
    match n {
        Neutral::App(h, a) => {
            let hh: Neutral = *h;
            lemma_neutral_consumes(hh, level, fuel);
            if let Ok((_, f1)) = quote_neutral_outcome(hh, level, fuel) {
                lemma_quote_consumes(a, level, f1);
            }
        },
        Neutral::Fst(h) => {
            let hh: Neutral = *h;
            lemma_neutral_consumes(hh, level, fuel);
        },
        Neutral::Snd(h) => {
            let hh: Neutral = *h;
            lemma_neutral_consumes(hh, level, fuel);
        },
        _ => {},
    }
}

pub(crate) enum QuoteTask {
    Value(Value, usize),
    Neutral(Rc<Neutral>, usize),
}

pub(crate) enum QuoteFrame {
    PiBody { closure: Closure, level: usize },
    SigmaBody { closure: Closure, level: usize },
    MakePi(Term),
    MakeSigma(Term),
    MakeLam,
    PairSecond { second: Value, level: usize },
    MakePair(Term),
    MakeSucc,
    NeutralAppArgument { argument: Value, level: usize },
    MakeApp(Term),
    MakeFst,
    MakeSnd,
}

enum QuoteFocus {
    Task(QuoteTask),
    Done(Term),
}

pub(crate) open spec fn task_outcome(task: QuoteTask, fuel: nat) -> Reified {
    match task {
        QuoteTask::Value(v, level) => quote_outcome(v, level, fuel),
        QuoteTask::Neutral(n, level) => quote_neutral_outcome(*n, level, fuel),
    }
}

spec fn qframe_weight(f: QuoteFrame) -> nat {
    match f {
        QuoteFrame::PiBody { .. } => 2,
        QuoteFrame::SigmaBody { .. } => 2,
        QuoteFrame::PairSecond { second, .. } => 2 + value_weight(second),
        QuoteFrame::NeutralAppArgument { argument, .. } => 2 + value_weight(argument),
        _ => 1,
    }
}

spec fn qtop_weight(s: Seq<QuoteFrame>) -> nat {
    if s.len() == 0 {
        0
    } else {
        qframe_weight(s.last())
    }
}

spec fn qframes_weight(s: Seq<QuoteFrame>) -> nat
    decreases s.len(),
{
    if s.len() == 0 {
        0
    } else {
        qframes_weight(s.drop_last()) + qframe_weight(s.last())
    }
}

/// How much structural work quoting a value takes before it needs fuel.
spec fn value_weight(v: Value) -> nat
    decreases v,
{
    match *v {
        Val::Succ(x) => value_weight(x) + 3,
        Val::Pi(d, _) => value_weight(d) + 3,
        Val::Sigma(d, _) => value_weight(d) + 3,
        Val::Pair(a, b) => value_weight(a) + value_weight(b) + 3,
        Val::Neutral(n) => neutral_weight(n) + 1,
        _ => 2,
    }
}

spec fn neutral_weight(n: Neutral) -> nat
    decreases n,
{
    match n {
        Neutral::App(h, a) => neutral_weight(*h) + value_weight(a) + 3,
        Neutral::Fst(h) => neutral_weight(*h) + 3,
        Neutral::Snd(h) => neutral_weight(*h) + 3,
        _ => 2,
    }
}

spec fn qfocus_weight(f: QuoteFocus) -> nat {
    match f {
        QuoteFocus::Task(QuoteTask::Value(v, _)) => value_weight(v),
        QuoteFocus::Task(QuoteTask::Neutral(n, _)) => neutral_weight(*n),
        QuoteFocus::Done(_) => 1,
    }
}

spec fn qfocus_outcome(f: QuoteFocus, fuel: nat) -> Reified {
    match f {
        QuoteFocus::Task(t) => task_outcome(t, fuel),
        QuoteFocus::Done(t) => Ok((t, fuel)),
    }
}

/// Continue a pending quotation through the suspended frames, innermost last.
spec fn qresume(frames: Seq<QuoteFrame>, r: Reified) -> Reified
    decreases frames.len(), qtop_weight(frames),
{
    match r {
        Err(e) => Err(e),
        Ok((t, f)) => if frames.len() == 0 {
            Ok((t, f))
        } else {
            let rest = frames.drop_last();
            match frames.last() {
                QuoteFrame::PiBody { closure, level } => match close_outcome(None, closure, fresh(level), f) {
                    Ok((body, f2)) => if level < usize::MAX {
                        qresume(rest.push(QuoteFrame::MakePi(t)), quote_outcome(body, (level + 1) as usize, f2))
                    } else {
                        Err(KernelError::OutOfFuel)
                    },
                    Err(e) => Err(e),
                },
                QuoteFrame::SigmaBody { closure, level } => match close_outcome(None, closure, fresh(level), f) {
                    Ok((body, f2)) => if level < usize::MAX {
                        qresume(rest.push(QuoteFrame::MakeSigma(t)), quote_outcome(body, (level + 1) as usize, f2))
                    } else {
                        Err(KernelError::OutOfFuel)
                    },
                    Err(e) => Err(e),
                },
                QuoteFrame::MakePi(d) => qresume(rest, Ok((plug(Hole::PiCodomain(d), t), f))),
                QuoteFrame::MakeSigma(d) => qresume(rest, Ok((plug(Hole::SigmaSecond(d), t), f))),
                QuoteFrame::MakeLam => qresume(rest, Ok((plug(Hole::Lam, t), f))),
                QuoteFrame::PairSecond { second, level } => qresume(
                    rest.push(QuoteFrame::MakePair(t)),
                    quote_outcome(second, level, f),
                ),
                QuoteFrame::MakePair(a) => qresume(rest, Ok((plug(Hole::PairSecond(a), t), f))),
                QuoteFrame::MakeSucc => qresume(rest, Ok((plug(Hole::Succ, t), f))),
                QuoteFrame::NeutralAppArgument { argument, level } => qresume(
                    rest.push(QuoteFrame::MakeApp(t)),
                    quote_outcome(argument, level, f),
                ),
                QuoteFrame::MakeApp(h) => qresume(rest, Ok((plug(Hole::AppArgument(h), t), f))),
                QuoteFrame::MakeFst => qresume(rest, Ok((plug(Hole::Fst, t), f))),
                QuoteFrame::MakeSnd => qresume(rest, Ok((plug(Hole::Snd, t), f))),
            }
        },
    }
}

spec fn make_frame(h: Hole) -> QuoteFrame {
    match h {
        Hole::Succ => QuoteFrame::MakeSucc,
        Hole::Lam => QuoteFrame::MakeLam,
        Hole::Fst => QuoteFrame::MakeFst,
        Hole::Snd => QuoteFrame::MakeSnd,
        Hole::PiCodomain(d) => QuoteFrame::MakePi(d),
        Hole::SigmaSecond(d) => QuoteFrame::MakeSigma(d),
        Hole::PairSecond(a) => QuoteFrame::MakePair(a),
        Hole::AppArgument(f) => QuoteFrame::MakeApp(f),
    }
}

/// Suspending a constructor frame is the same as plugging the result in.
proof fn lemma_qresume_plug(fr: Seq<QuoteFrame>, o: Reified, h: Hole)
    ensures
        qresume(fr.push(make_frame(h)), o) == qresume(fr, wrap1(o, h)),
{
    lemma_push_qframe(fr, make_frame(h));
    lemma_qresume_errors(fr);
}

proof fn lemma_push_qframe(s: Seq<QuoteFrame>, f: QuoteFrame)
    ensures
        s.push(f).drop_last() == s,
        s.push(f).last() == f,
        s.push(f).len() == s.len() + 1,
        qframes_weight(s.push(f)) == qframes_weight(s) + qframe_weight(f),
{
    assert(s.push(f).drop_last() =~= s);
}

proof fn lemma_pop_qframe(s: Seq<QuoteFrame>)
    requires
        s.len() > 0,
    ensures
        s.drop_last().push(s.last()) == s,
        qframes_weight(s) == qframes_weight(s.drop_last()) + qframe_weight(s.last()),
{
    assert(s.drop_last().push(s.last()) =~= s);
}

proof fn lemma_qresume_errors(frames: Seq<QuoteFrame>)
    ensures
        forall|e: KernelError| #[trigger] qresume(frames, Err(e)) == Err::<(Term, nat), KernelError>(e),
{
}


spec fn measure_below(
    fuel1: nat,
    w1: nat,
    fuel0: nat,
    w0: nat,
) -> bool {
    fuel1 < fuel0 || (fuel1 == fuel0 && w1 < w0)
}

/// Work on one task: produce a term, or suspend a frame and focus on a part.
fn qstep_task(ev: &mut Evaluator, task: QuoteTask, frames: &mut Vec<QuoteFrame>) -> (r: Result<QuoteFocus, KernelError>)
    requires
        old(ev).signature is None,
    ensures
        final(ev).signature is None,
        r matches Ok(focus) ==> qresume(final(frames)@, qfocus_outcome(focus, final(ev).remaining as nat))
            == qresume(old(frames)@, task_outcome(task, old(ev).remaining as nat)),
        r matches Ok(focus) ==> measure_below(
            final(ev).remaining as nat,
            qframes_weight(final(frames)@) + qfocus_weight(focus),
            old(ev).remaining as nat,
            qframes_weight(old(frames)@) + qfocus_weight(QuoteFocus::Task(task)),
        ),
        r matches Err(e) ==> qresume(old(frames)@, task_outcome(task, old(ev).remaining as nat))
            == Err::<(Term, nat), KernelError>(e),
{
    match task {
        QuoteTask::Value(value, level) => qstep_value(ev, value, level, frames),
        QuoteTask::Neutral(neutral, level) => qstep_neutral(ev, neutral, level, frames),
    }
}

fn qstep_value(ev: &mut Evaluator, value: Value, level: usize, frames: &mut Vec<QuoteFrame>) -> (r: Result<QuoteFocus, KernelError>)
    requires
        old(ev).signature is None,
    ensures
        final(ev).signature is None,
        r matches Ok(focus) ==> qresume(final(frames)@, qfocus_outcome(focus, final(ev).remaining as nat))
            == qresume(old(frames)@, quote_outcome(value, level, old(ev).remaining as nat)),
        r matches Ok(focus) ==> measure_below(
            final(ev).remaining as nat,
            qframes_weight(final(frames)@) + qfocus_weight(focus),
            old(ev).remaining as nat,
            qframes_weight(old(frames)@) + value_weight(value),
        ),
        r matches Err(e) ==> qresume(old(frames)@, quote_outcome(value, level, old(ev).remaining as nat))
            == Err::<(Term, nat), KernelError>(e),
{
    let ghost fr = frames@;
    let ghost f0 = ev.remaining as nat;
    proof {
        lemma_qresume_errors(fr);
        lemma_quote_consumes(value, level, f0);
    }
    match &*value {
        Val::Universe(i) => Ok(QuoteFocus::Done(Rc::new(Expr::Universe(*i)))),
        Val::Nat => Ok(QuoteFocus::Done(Rc::new(Expr::Nat))),
        Val::Zero => Ok(QuoteFocus::Done(Rc::new(Expr::Zero))),
        Val::Succ(inner) => {
            proof {
                lemma_push_qframe(fr, QuoteFrame::MakeSucc);
                lemma_qresume_plug(fr, quote_outcome(*inner, level, f0), Hole::Succ);
            }
            frames.push(QuoteFrame::MakeSucc);
            Ok(QuoteFocus::Task(QuoteTask::Value(inner.clone(), level)))
        },
        Val::Pi(domain, closure) => {
            let r = qstep_binder(domain, closure, level, true, frames);
            proof {
                assert(binder_value(*domain, *closure, true) == value);
                let _ = qresume(frames@, qfocus_outcome(r->Ok_0, f0));
            }
            r
        },
        Val::Sigma(first, closure) => {
            let r = qstep_binder(first, closure, level, false, frames);
            proof {
                assert(binder_value(*first, *closure, false) == value);
                let _ = qresume(frames@, qfocus_outcome(r->Ok_0, f0));
            }
            r
        },
        Val::Lam(closure) => {
            proof {
                lemma_push_qframe(fr, QuoteFrame::MakeLam);
                lemma_close_consumes(None, *closure, fresh(level), f0);
            }
            frames.push(QuoteFrame::MakeLam);
            let x = Rc::new(Val::Neutral(Neutral::Var(level)));
            let body = match ev.close(closure, x) {
                Ok(b) => b,
                Err(e) => {
                    assert(quote_body(*closure, level, f0) == Err::<(Term, nat), KernelError>(e));
                    return Err(e);
                },
            };
            if level == usize::MAX {
                assert(quote_body(*closure, level, f0) == Err::<(Term, nat), KernelError>(KernelError::OutOfFuel));
                return Err(KernelError::OutOfFuel);
            }
            proof {
                lemma_qresume_plug(fr, quote_outcome(body, (level + 1) as usize, ev.remaining as nat), Hole::Lam);
            }
            Ok(QuoteFocus::Task(QuoteTask::Value(body, level + 1)))
        },
        Val::Pair(first, second) => {
            let frame = QuoteFrame::PairSecond { second: second.clone(), level };
            proof {
                lemma_push_qframe(fr, frame);
                lemma_quote_consumes(*first, level, f0);
                if let Ok((at, f1)) = quote_outcome(*first, level, f0) {
                    lemma_push_qframe(fr, QuoteFrame::MakePair(at));
                    lemma_qresume_plug(fr, quote_outcome(*second, level, f1), Hole::PairSecond(at));
                }
            }
            frames.push(frame);
            Ok(QuoteFocus::Task(QuoteTask::Value(first.clone(), level)))
        },
        Val::Neutral(neutral) => Ok(
            QuoteFocus::Task(QuoteTask::Neutral(Rc::new(share_neutral(neutral)), level)),
        ),
    }
}

proof fn lemma_pi_step(fr: Seq<QuoteFrame>, domain: Value, closure: Closure, level: usize, f0: nat)
    ensures
        qresume(fr.push(QuoteFrame::PiBody { closure, level }), quote_outcome(domain, level, f0))
            == qresume(fr, quote_outcome(Rc::new(Val::Pi(domain, closure)), level, f0)),
{
    let frame = QuoteFrame::PiBody { closure, level };
    lemma_push_qframe(fr, frame);
    lemma_qresume_errors(fr);
    lemma_qresume_errors(fr.push(frame));
    lemma_quote_consumes(domain, level, f0);
    let v = Rc::new(Val::Pi(domain, closure));
    match quote_outcome(domain, level, f0) {
        Ok((dt, f1)) => {
            lemma_close_consumes(None, closure, fresh(level), f1);
            assert(quote_outcome(v, level, f0) == wrap1(quote_body(closure, level, f1), Hole::PiCodomain(dt)));
            match close_outcome(None, closure, fresh(level), f1) {
                Ok((bv, f2)) => {
                    if level < usize::MAX {
                        let x = quote_outcome(bv, (level + 1) as usize, f2);
                        lemma_qresume_plug(fr, x, Hole::PiCodomain(dt));
                        assert(quote_body(closure, level, f1) == x);
                    } else {
                        assert(quote_body(closure, level, f1) == Err::<(Term, nat), KernelError>(KernelError::OutOfFuel));
                    }
                },
                Err(e) => {
                    assert(quote_body(closure, level, f1) == Err::<(Term, nat), KernelError>(e));
                },
            }
        },
        Err(e) => {},
    }
}

proof fn lemma_sigma_step(fr: Seq<QuoteFrame>, domain: Value, closure: Closure, level: usize, f0: nat)
    ensures
        qresume(fr.push(QuoteFrame::SigmaBody { closure, level }), quote_outcome(domain, level, f0))
            == qresume(fr, quote_outcome(Rc::new(Val::Sigma(domain, closure)), level, f0)),
{
    let frame = QuoteFrame::SigmaBody { closure, level };
    lemma_push_qframe(fr, frame);
    lemma_qresume_errors(fr);
    lemma_qresume_errors(fr.push(frame));
    lemma_quote_consumes(domain, level, f0);
    let v = Rc::new(Val::Sigma(domain, closure));
    match quote_outcome(domain, level, f0) {
        Ok((dt, f1)) => {
            lemma_close_consumes(None, closure, fresh(level), f1);
            assert(quote_outcome(v, level, f0) == wrap1(quote_body(closure, level, f1), Hole::SigmaSecond(dt)));
            match close_outcome(None, closure, fresh(level), f1) {
                Ok((bv, f2)) => {
                    if level < usize::MAX {
                        let x = quote_outcome(bv, (level + 1) as usize, f2);
                        lemma_qresume_plug(fr, x, Hole::SigmaSecond(dt));
                        assert(quote_body(closure, level, f1) == x);
                    } else {
                        assert(quote_body(closure, level, f1) == Err::<(Term, nat), KernelError>(KernelError::OutOfFuel));
                    }
                },
                Err(e) => {
                    assert(quote_body(closure, level, f1) == Err::<(Term, nat), KernelError>(e));
                },
            }
        },
        Err(e) => {},
    }
}

spec fn binder_value(domain: Value, closure: Closure, is_pi: bool) -> Value {
    if is_pi {
        Rc::new(Val::Pi(domain, closure))
    } else {
        Rc::new(Val::Sigma(domain, closure))
    }
}

/// A Pi (`is_pi`) or Sigma value: quote the domain first, the body later.
fn qstep_binder(domain: &Value, closure: &Closure, level: usize, is_pi: bool, frames: &mut Vec<QuoteFrame>) -> (r: Result<QuoteFocus, KernelError>)
    ensures
        r is Ok,
        forall|f0: nat| #[trigger] qresume(final(frames)@, qfocus_outcome(r->Ok_0, f0))
            == qresume(old(frames)@, quote_outcome(binder_value(*domain, *closure, is_pi), level, f0)),
        qframes_weight(final(frames)@) + qfocus_weight(r->Ok_0)
            < qframes_weight(old(frames)@) + value_weight(binder_value(*domain, *closure, is_pi)),
{
    let ghost fr = frames@;
    let frame = if is_pi {
        QuoteFrame::PiBody { closure: share_closure(closure), level }
    } else {
        QuoteFrame::SigmaBody { closure: share_closure(closure), level }
    };
    proof {
        lemma_push_qframe(fr, frame);
        lemma_qresume_errors(fr);
        assert forall|f0: nat| #[trigger] qresume(fr.push(frame), quote_outcome(*domain, level, f0))
            == qresume(fr, quote_outcome(binder_value(*domain, *closure, is_pi), level, f0)) by {
            if is_pi {
                lemma_pi_step(fr, *domain, *closure, level, f0);
            } else {
                lemma_sigma_step(fr, *domain, *closure, level, f0);
            }
        }
    }
    frames.push(frame);
    Ok(QuoteFocus::Task(QuoteTask::Value(domain.clone(), level)))
}

fn qstep_neutral(ev: &mut Evaluator, neutral: Rc<Neutral>, level: usize, frames: &mut Vec<QuoteFrame>) -> (r: Result<QuoteFocus, KernelError>)
    requires
        old(ev).signature is None,
    ensures
        *final(ev) == *old(ev),
        r matches Ok(focus) ==> qresume(final(frames)@, qfocus_outcome(focus, final(ev).remaining as nat))
            == qresume(old(frames)@, quote_neutral_outcome(*neutral, level, old(ev).remaining as nat)),
        r matches Ok(focus) ==> qframes_weight(final(frames)@) + qfocus_weight(focus)
            < qframes_weight(old(frames)@) + neutral_weight(*neutral),
        r matches Err(e) ==> qresume(old(frames)@, quote_neutral_outcome(*neutral, level, old(ev).remaining as nat))
            == Err::<(Term, nat), KernelError>(e),
{
    let ghost fr = frames@;
    let ghost f0 = ev.remaining as nat;
    proof {
        lemma_qresume_errors(fr);
    }
    match &*neutral {
        Neutral::Var(l) => {
            if *l < level {
                Ok(QuoteFocus::Done(Rc::new(Expr::Var(level - *l - 1))))
            } else {
                Err(KernelError::UnboundVariable(*l))
            }
        },
        Neutral::Global(name) => Ok(QuoteFocus::Done(Rc::new(Expr::Global(name.clone())))),
        Neutral::App(function, argument) => {
            let frame = QuoteFrame::NeutralAppArgument { argument: argument.clone(), level };
            proof {
                lemma_push_qframe(fr, frame);
                let h: Neutral = **function;
                lemma_neutral_consumes(h, level, f0);
                if let Ok((ht, f1)) = quote_neutral_outcome(h, level, f0) {
                    lemma_push_qframe(fr, QuoteFrame::MakeApp(ht));
                    lemma_qresume_plug(fr, quote_outcome(*argument, level, f1), Hole::AppArgument(ht));
                }
            }
            frames.push(frame);
            Ok(QuoteFocus::Task(QuoteTask::Neutral(function.clone(), level)))
        },
        Neutral::Fst(pair) => {
            proof {
                let h: Neutral = **pair;
                lemma_push_qframe(fr, QuoteFrame::MakeFst);
                lemma_qresume_plug(fr, quote_neutral_outcome(h, level, f0), Hole::Fst);
            }
            frames.push(QuoteFrame::MakeFst);
            Ok(QuoteFocus::Task(QuoteTask::Neutral(pair.clone(), level)))
        },
        Neutral::Snd(pair) => {
            proof {
                let h: Neutral = **pair;
                lemma_push_qframe(fr, QuoteFrame::MakeSnd);
                lemma_qresume_plug(fr, quote_neutral_outcome(h, level, f0), Hole::Snd);
            }
            frames.push(QuoteFrame::MakeSnd);
            Ok(QuoteFocus::Task(QuoteTask::Neutral(pair.clone(), level)))
        },
    }
}

/// Resume the innermost suspended frame with the term just produced.
fn qstep_frame(ev: &mut Evaluator, frame: QuoteFrame, term: Term, frames: &mut Vec<QuoteFrame>) -> (r: Result<QuoteFocus, KernelError>)
    requires
        old(ev).signature is None,
    ensures
        final(ev).signature is None,
        r matches Ok(focus) ==> qresume(final(frames)@, qfocus_outcome(focus, final(ev).remaining as nat))
            == qresume(old(frames)@.push(frame), Ok((term, old(ev).remaining as nat))),
        r matches Ok(focus) ==> measure_below(
            final(ev).remaining as nat,
            qframes_weight(final(frames)@) + qfocus_weight(focus),
            old(ev).remaining as nat,
            qframes_weight(old(frames)@) + qframe_weight(frame) + 1,
        ),
        r matches Err(e) ==> qresume(old(frames)@.push(frame), Ok((term, old(ev).remaining as nat)))
            == Err::<(Term, nat), KernelError>(e),
{
    let ghost fr = frames@;
    let ghost f0 = ev.remaining as nat;
    proof {
        lemma_push_qframe(fr, frame);
        lemma_qresume_errors(fr);
    }
    match frame {
        QuoteFrame::PiBody { closure, level } => {
            proof {
                lemma_push_qframe(fr, QuoteFrame::MakePi(term));
                lemma_close_consumes(None, closure, fresh(level), f0);
            }
            frames.push(QuoteFrame::MakePi(term));
            let x = Rc::new(Val::Neutral(Neutral::Var(level)));
            let body = match ev.close(&closure, x) {
                Ok(b) => b,
                Err(e) => return Err(e),
            };
            if level == usize::MAX {
                return Err(KernelError::OutOfFuel);
            }
            Ok(QuoteFocus::Task(QuoteTask::Value(body, level + 1)))
        },
        QuoteFrame::SigmaBody { closure, level } => {
            proof {
                lemma_push_qframe(fr, QuoteFrame::MakeSigma(term));
                lemma_close_consumes(None, closure, fresh(level), f0);
            }
            frames.push(QuoteFrame::MakeSigma(term));
            let x = Rc::new(Val::Neutral(Neutral::Var(level)));
            let body = match ev.close(&closure, x) {
                Ok(b) => b,
                Err(e) => return Err(e),
            };
            if level == usize::MAX {
                return Err(KernelError::OutOfFuel);
            }
            Ok(QuoteFocus::Task(QuoteTask::Value(body, level + 1)))
        },
        QuoteFrame::MakePi(domain) => Ok(QuoteFocus::Done(Rc::new(Expr::Pi { domain, codomain: term }))),
        QuoteFrame::MakeSigma(first) => Ok(QuoteFocus::Done(Rc::new(Expr::Sigma { first, second: term }))),
        QuoteFrame::MakeLam => Ok(QuoteFocus::Done(Rc::new(Expr::Lam(term)))),
        QuoteFrame::PairSecond { second, level } => {
            proof { lemma_push_qframe(fr, QuoteFrame::MakePair(term)); }
            frames.push(QuoteFrame::MakePair(term));
            Ok(QuoteFocus::Task(QuoteTask::Value(second, level)))
        },
        QuoteFrame::MakePair(first) => Ok(QuoteFocus::Done(Rc::new(Expr::Pair { first, second: term }))),
        QuoteFrame::MakeSucc => Ok(QuoteFocus::Done(Rc::new(Expr::Succ(term)))),
        QuoteFrame::NeutralAppArgument { argument, level } => {
            proof { lemma_push_qframe(fr, QuoteFrame::MakeApp(term)); }
            frames.push(QuoteFrame::MakeApp(term));
            Ok(QuoteFocus::Task(QuoteTask::Value(argument, level)))
        },
        QuoteFrame::MakeApp(function) => Ok(QuoteFocus::Done(Rc::new(Expr::App { function, argument: term }))),
        QuoteFrame::MakeFst => Ok(QuoteFocus::Done(Rc::new(Expr::Fst(term)))),
        QuoteFrame::MakeSnd => Ok(QuoteFocus::Done(Rc::new(Expr::Snd(term)))),
    }
}

pub(crate) fn share_closure(c: &Closure) -> (r: Closure)
    ensures
        r == *c,
{
    Closure { env: share_env(&c.env), body: c.body.clone() }
}

/// Reification is an explicit heap machine, parallel to the evaluator; it
/// never uses one native frame per value/neutral constructor.  All closure
/// instantiations share one evaluator whose budget is `config.fuel`.
fn quote_task(initial: QuoteTask, config: EvalConfig) -> (r: Result<Term, KernelError>)
    ensures
        r == reified_term(task_outcome(initial, config.fuel as nat)),
{
    let ghost goal = task_outcome(initial, config.fuel as nat);
    let mut ev = Evaluator { remaining: config.fuel, signature: None };
    let mut focus = QuoteFocus::Task(initial);
    let mut frames: Vec<QuoteFrame> = Vec::new();
    loop
        invariant
            ev.signature is None,
            goal == task_outcome(initial, config.fuel as nat),
            qresume(frames@, qfocus_outcome(focus, ev.remaining as nat)) == goal,
        decreases ev.remaining, qframes_weight(frames@) + qfocus_weight(focus),
    {
        match focus {
            QuoteFocus::Task(task) => match qstep_task(&mut ev, task, &mut frames) {
                Ok(next) => focus = next,
                Err(e) => return Err(e),
            },
            QuoteFocus::Done(term) => {
                let ghost before = frames@;
                match frames.pop() {
                    None => return Ok(term),
                    Some(frame) => {
                        proof {
                            lemma_pop_qframe(before);
                        }
                        match qstep_frame(&mut ev, frame, term, &mut frames) {
                            Ok(next) => focus = next,
                            Err(e) => return Err(e),
                        }
                    },
                }
            },
        }
    }
}

/// Reify `value` at binder depth `level` with the budget of `config`.
pub fn quote(value: &Value, level: usize, config: EvalConfig) -> (r: Result<Term, KernelError>)
    ensures
        r == reified_term(quote_outcome(*value, level, config.fuel as nat)),
{
    quote_task(QuoteTask::Value(value.clone(), level), config)
}

/// Reify a neutral at binder depth `level` with the budget of `config`.
pub fn quote_neutral(neutral: &Neutral, level: usize, config: EvalConfig) -> (r: Result<Term, KernelError>)
    ensures
        r == reified_term(quote_neutral_outcome(*neutral, level, config.fuel as nat)),
{
    quote_task(QuoteTask::Neutral(Rc::new(share_neutral(neutral)), level), config)
}

/// Normal form of a closed term: evaluate, then reify at depth zero, each
/// machine with its own `fuel` budget.
pub open spec fn normal_form(sig: Option<Seq<Declaration>>, t: Expr, fuel: nat) -> Result<
    Term,
    KernelError,
> {
    match eval_outcome(sig, t, Env::empty(), fuel) {
        Ok((v, _)) => reified_term(quote_outcome(v, 0, fuel)),
        Err(e) => Err(e),
    }
}

/// Normalization by evaluation for closed terms.
pub fn normalize(term: &Term) -> (r: Result<Term, KernelError>)
    ensures
        r == normal_form(None, **term, 100_000),
{
    normalize_with_config(term, EvalConfig::default())
}

/// Normalize a closed term using `config` for evaluation and reification.
///
/// Fuel is a per-machine budget: evaluation and quotation each receive the
/// configured limit. Exhaustion is reported as `KernelError::OutOfFuel`.
pub fn normalize_with_config(term: &Term, config: EvalConfig) -> (r: Result<Term, KernelError>)
    ensures
        r == normal_form(None, **term, config.fuel as nat),
{
    let value = match eval(term, config) {
        Ok(v) => v,
        Err(e) => return Err(e),
    };
    quote(&value, 0, config)
}

/// Normalize a closed term with resolved globals from `signature`.
/// Transparent bodies unfold during evaluation; reification instantiates
/// closures without the signature.
pub fn normalize_in_signature(term: &Term, signature: &Signature, config: EvalConfig) -> (r: Result<
    Term,
    KernelError,
>)
    ensures
        r == normal_form(Some(signature@), **term, config.fuel as nat),
{
    let value = match eval_in_signature(term, signature, config) {
        Ok(v) => v,
        Err(e) => return Err(e),
    };
    quote(&value, 0, config)
}

/// A quotation outcome run with `extra` more units of fuel.
pub open spec fn reified_extra(o: Reified, extra: nat) -> Reified {
    match o {
        Ok((t, r)) => Ok((t, r + extra)),
        Err(e) => Err(e),
    }
}

/// Quoting with more fuel than needed reifies the same term, or reports the
/// same non-resource error.
pub proof fn lemma_quote_more_fuel(v: Value, level: usize, fuel: nat, extra: nat)
    requires
        quote_outcome(v, level, fuel) != Err::<(Term, nat), KernelError>(KernelError::OutOfFuel),
    ensures
        quote_outcome(v, level, fuel + extra) == reified_extra(quote_outcome(v, level, fuel), extra),
    decreases fuel, v, 0nat,
{
    match *v {
        Val::Succ(inner) => lemma_quote_more_fuel(inner, level, fuel, extra),
        Val::Pi(domain, c) => {
            lemma_quote_more_fuel(domain, level, fuel, extra);
            if let Ok((_, f1)) = quote_outcome(domain, level, fuel) {
                if f1 <= fuel {
                    lemma_body_more_fuel(c, level, f1, extra);
                }
            }
        },
        Val::Sigma(first, c) => {
            lemma_quote_more_fuel(first, level, fuel, extra);
            if let Ok((_, f1)) = quote_outcome(first, level, fuel) {
                if f1 <= fuel {
                    lemma_body_more_fuel(c, level, f1, extra);
                }
            }
        },
        Val::Lam(c) => lemma_body_more_fuel(c, level, fuel, extra),
        Val::Pair(a, b) => {
            lemma_quote_more_fuel(a, level, fuel, extra);
            if let Ok((_, f1)) = quote_outcome(a, level, fuel) {
                if f1 <= fuel {
                    lemma_quote_more_fuel(b, level, f1, extra);
                }
            }
        },
        Val::Neutral(n) => lemma_neutral_more_fuel(n, level, fuel, extra),
        _ => {},
    }
}

proof fn lemma_body_more_fuel(c: Closure, level: usize, fuel: nat, extra: nat)
    requires
        quote_body(c, level, fuel) != Err::<(Term, nat), KernelError>(KernelError::OutOfFuel),
    ensures
        quote_body(c, level, fuel + extra) == reified_extra(quote_body(c, level, fuel), extra),
    decreases fuel, c, 1nat,
{
    lemma_close_consumes(None, c, fresh(level), fuel);
    lemma_close_more_fuel(None, c, fresh(level), fuel, extra);
    if let Ok((body, f1)) = close_outcome(None, c, fresh(level), fuel) {
        if f1 < fuel && level < usize::MAX {
            lemma_quote_more_fuel(body, (level + 1) as usize, f1, extra);
        }
    }
}

proof fn lemma_neutral_more_fuel(n: Neutral, level: usize, fuel: nat, extra: nat)
    requires
        quote_neutral_outcome(n, level, fuel) != Err::<(Term, nat), KernelError>(KernelError::OutOfFuel),
    ensures
        quote_neutral_outcome(n, level, fuel + extra) == reified_extra(
            quote_neutral_outcome(n, level, fuel),
            extra,
        ),
    decreases fuel, n, 0nat,
{
    match n {
        Neutral::App(h, a) => {
            let head: Neutral = *h;
            lemma_neutral_more_fuel(head, level, fuel, extra);
            if let Ok((_, f1)) = quote_neutral_outcome(head, level, fuel) {
                if f1 <= fuel {
                    lemma_quote_more_fuel(a, level, f1, extra);
                }
            }
        },
        Neutral::Fst(h) => {
            let head: Neutral = *h;
            lemma_neutral_more_fuel(head, level, fuel, extra);
        },
        Neutral::Snd(h) => {
            let head: Neutral = *h;
            lemma_neutral_more_fuel(head, level, fuel, extra);
        },
        _ => {},
    }
}

/// Fuel is only a resource bound for normalization: a run that does not run
/// out of fuel gives the same normal form (or the same error) with any larger
/// budget.
pub proof fn law_normalize_more_fuel(
    sig: Option<Seq<Declaration>>,
    t: Expr,
    fuel: nat,
    extra: nat,
)
    requires
        normal_form(sig, t, fuel) != Err::<Term, KernelError>(KernelError::OutOfFuel),
    ensures
        normal_form(sig, t, fuel + extra) == normal_form(sig, t, fuel),
{
    law_eval_more_fuel(sig, t, Env::empty(), fuel, extra);
    if let Ok((v, _)) = eval_outcome(sig, t, Env::empty(), fuel) {
        lemma_quote_more_fuel(v, 0, fuel, extra);
    }
}

/// Quotation at depth `level` turns the neutral variable of de Bruijn level
/// `k` into the index `level - k - 1`; a level not yet bound is unbound.
pub proof fn law_level_to_index(k: usize, level: usize, fuel: nat)
    ensures
        k < level ==> quote_neutral_outcome(Neutral::Var(k), level, fuel) == Ok::<(Term, nat), KernelError>(
            (Rc::new(Expr::Var((level - k - 1) as usize)), fuel),
        ),
        k >= level ==> quote_neutral_outcome(Neutral::Var(k), level, fuel) == Err::<(Term, nat), KernelError>(
            KernelError::UnboundVariable(k),
        ),
{
}

} // verus!
