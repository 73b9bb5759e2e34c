//! Semantic values, neutrals, closures, and persistent environments for NbE.
use std::rc::Rc;

use vstd::prelude::*;

use crate::syntax::{expr_size, Expr, Term};
use crate::teardown_std::{option_take, rc_new, rc_try_unwrap, vec_new, vec_pop, vec_push};

verus! {

/// Semantic values are shared, immutable `Rc` nodes.
pub type Value = Rc<Val>;

#[derive(Clone, Debug)]
pub enum Val {
    Universe(u32),
    Pi(Value, Closure),
    Sigma(Value, Closure),
    Lam(Closure),
    Nat,
    Zero,
    Succ(Value),
    Pair(Value, Value),
    Neutral(Neutral),
}

#[derive(Clone, Debug)]
pub struct Closure {
    pub env: Env,
    pub body: Term,
}

/// A persistent environment. `extend` allocates one node and shares its tail;
/// closure capture is therefore an O(1) clone of the environment handle.
#[derive(Clone, Debug)]
pub struct Env {
    pub head: Option<Rc<EnvNode>>,
    pub len: usize,
}

#[derive(Debug)]
pub struct EnvNode {
    pub value: Value,
    pub previous: Option<Rc<EnvNode>>,
}

/// Neutral terms.  Variables are de Bruijn *levels*.
#[derive(Clone, Debug)]
pub enum Neutral {
    Var(usize),
    Global(String),
    App(Rc<Neutral>, Value),
    Fst(Rc<Neutral>),
    Snd(Rc<Neutral>),
}

/// The value bound at de Bruijn index `index` in a chain of nodes.
pub open spec fn node_lookup(head: Option<Rc<EnvNode>>, index: nat) -> Option<Value>
    decreases index,
{
    match head {
        None => None,
        Some(node) => if index == 0 {
            Some(node.value)
        } else {
            node_lookup(node.previous, (index - 1) as nat)
        },
    }
}

/// Number of nodes in a chain.
pub open spec fn chain_len(head: Option<Rc<EnvNode>>) -> nat
    decreases head,
{
    match head {
        None => 0,
        Some(node) => 1 + chain_len(node.previous),
    }
}

/// An index is bound exactly when it is below the length of the chain.
proof fn lemma_chain_lookup(head: Option<Rc<EnvNode>>, index: nat)
    ensures
        node_lookup(head, index) is Some <==> index < chain_len(head),
    decreases index,
{
    if let Some(node) = head {
        let n: EnvNode = *node;
        if index > 0 {
            lemma_chain_lookup(n.previous, (index - 1) as nat);
        }
    }
}

/// Share a chain handle.
pub(crate) fn clone_chain(head: &Option<Rc<EnvNode>>) -> (r: Option<Rc<EnvNode>>)
    ensures
        r == *head,
{
    match head {
        Some(h) => Some(h.clone()),
        None => None,
    }
}

impl Env {
    /// The value bound at de Bruijn index `index`.
    pub open spec fn lookup(self, index: nat) -> Option<Value> {
        node_lookup(self.head, index)
    }

    /// `len` counts the nodes of the chain, so it is the binder depth.
    pub open spec fn well_formed(self) -> bool {
        self.len == chain_len(self.head)
    }

    /// The environment `self` extended by `value`, as `extend` builds it.
    pub open spec fn extended(self, value: Value) -> Env {
        Env {
            head: Some(Rc::new(EnvNode { value, previous: self.head })),
            len: (self.len + 1) as usize,
        }
    }

    /// The empty environment.
    pub open spec fn empty() -> Env {
        Env { head: None, len: 0 }
    }

    pub fn extend(&self, value: Value) -> (r: Self)
        requires
            self.len < usize::MAX,
        ensures
            r == self.extended(value),
            r.len == self.len + 1,
            self.well_formed() ==> r.well_formed(),
    {
        Self {
            head: Some(Rc::new(EnvNode { value, previous: clone_chain(&self.head) })),
            len: self.len + 1,
        }
    }

    /// De Bruijn index lookup: zero denotes the most recent binder.
    pub fn get(&self, index: usize) -> (r: Option<Value>)
        ensures
            r == self.lookup(index as nat),
            self.well_formed() ==> (r is Some <==> index < self.len),
    {
        proof {
            lemma_chain_lookup(self.head, index as nat);
        }
        let mut node = match &self.head {
            Some(n) => n,
            None => return None,
        };
        let mut i: usize = 0;
        while i < index
            invariant
                i <= index,
                node_lookup(Some(*node), (index - i) as nat) == node_lookup(self.head, index as nat),
                self.well_formed() ==> (self.lookup(index as nat) is Some <==> index < self.len),
            decreases index - i,
        {
            assert(node_lookup(Some(*node), (index - i) as nat) == node_lookup(
                node.previous,
                (index - i - 1) as nat,
            ));
            node = match &node.previous {
                Some(n) => n,
                None => return None,
            };
            i = i + 1;
        }
        Some(node.value.clone())
    }
}

impl Default for Env {
    fn default() -> (r: Self)
        ensures
            r == Env::empty(),
            r.well_formed(),
    {
        Env { head: None, len: 0 }
    }
}

/// Number of nodes of a value that teardown visits (closures count once;
/// neutral spines and their arguments count in full).
pub open spec fn val_size(v: Val) -> nat
    decreases v,
{
    match v {
        Val::Pi(d, _) => 1 + val_size(*d),
        Val::Sigma(d, _) => 1 + val_size(*d),
        Val::Succ(x) => 1 + val_size(*x),
        Val::Pair(a, b) => 1 + val_size(*a) + val_size(*b),
        Val::Neutral(n) => 1 + neutral_size(n),
        _ => 1,
    }
}

/// Number of nodes of a neutral spine that teardown visits, arguments
/// included.
pub open spec fn neutral_size(n: Neutral) -> nat
    decreases n,
{
    match n {
        Neutral::App(h, a) => 1 + neutral_size(*h) + val_size(*a),
        Neutral::Fst(h) => 1 + neutral_size(*h),
        Neutral::Snd(h) => 1 + neutral_size(*h),
        _ => 1,
    }
}

/// Total teardown size of a work list of values.
pub open spec fn values_size(s: Seq<Value>) -> nat
    decreases s.len(),
{
    if s.len() == 0 {
        0
    } else {
        values_size(s.drop_last()) + val_size(*s.last())
    }
}

/// Total teardown size of a work list of spines.
pub open spec fn spines_size(s: Seq<Rc<Neutral>>) -> nat
    decreases s.len(),
{
    if s.len() == 0 {
        0
    } else {
        spines_size(s.drop_last()) + neutral_size(*s.last())
    }
}

broadcast proof fn lemma_values_size_push(s: Seq<Value>, v: Value)
    ensures
        #[trigger] values_size(s.push(v)) == values_size(s) + val_size(*v),
{
    assert(s.push(v).drop_last() =~= s);
}

broadcast proof fn lemma_spines_size_push(s: Seq<Rc<Neutral>>, n: Rc<Neutral>)
    ensures
        #[trigger] spines_size(s.push(n)) == spines_size(s) + neutral_size(*n),
{
    assert(s.push(n).drop_last() =~= s);
}

fn take_value(slot: &mut Value, work: &mut Vec<Value>)
    ensures
        **final(slot) == Val::Zero,
        final(work)@ == old(work)@.push(*old(slot)),
    opens_invariants none
    no_unwind
{
    let mut v = rc_new(Val::Zero);
    std::mem::swap(slot, &mut v);
    vec_push(work, v);
}

/// A closure holding nothing: the empty environment and the body `zero`.
pub open spec fn empty_closure() -> Closure {
    Closure { env: Env::empty(), body: Rc::new(Expr::Zero) }
}

/// The arguments held directly by the outermost node of a spine.
pub open spec fn neutral_arguments(n: Neutral) -> Seq<Value> {
    match n {
        Neutral::App(_, a) => seq![a],
        _ => Seq::empty(),
    }
}

/// The head of a neutral spine below its outermost node.
pub open spec fn spine_head(n: Neutral) -> Option<Rc<Neutral>> {
    match n {
        Neutral::App(h, _) => Some(h),
        Neutral::Fst(h) => Some(h),
        Neutral::Snd(h) => Some(h),
        _ => None,
    }
}

/// An optional spine head as a work list.
pub open spec fn head_list(h: Option<Rc<Neutral>>) -> Seq<Rc<Neutral>> {
    match h {
        Some(n) => seq![n],
        None => Seq::empty(),
    }
}

/// The value children of a value, left to right: closures are not among
/// them, and of a neutral value they are the arguments of its outermost node.
pub open spec fn val_children(v: Val) -> Seq<Value> {
    match v {
        Val::Pi(d, _) => seq![d],
        Val::Sigma(d, _) => seq![d],
        Val::Succ(x) => seq![x],
        Val::Pair(a, b) => seq![a, b],
        Val::Neutral(n) => neutral_arguments(n),
        _ => Seq::empty(),
    }
}

/// The spine that a neutral value holds below its outermost node.
pub open spec fn val_spines(v: Val) -> Seq<Rc<Neutral>> {
    match v {
        Val::Neutral(n) => head_list(spine_head(n)),
        _ => Seq::empty(),
    }
}

/// The outermost node of a spine with its head (and argument) detached.
pub open spec fn detached(n: Neutral) -> Neutral {
    let v = Rc::new(Neutral::Var(0));
    match n {
        Neutral::App(..) => Neutral::App(v, Rc::new(Val::Zero)),
        Neutral::Fst(_) => Neutral::Fst(v),
        Neutral::Snd(_) => Neutral::Snd(v),
        _ => n,
    }
}

/// A value of the same shape whose value children are `zero`, whose
/// closures are empty, and whose neutral spine is detached.
pub open spec fn released(v: Val) -> Val {
    let z = Rc::new(Val::Zero);
    match v {
        Val::Pi(..) => Val::Pi(z, empty_closure()),
        Val::Sigma(..) => Val::Sigma(z, empty_closure()),
        Val::Lam(_) => Val::Lam(empty_closure()),
        Val::Succ(_) => Val::Succ(z),
        Val::Pair(..) => Val::Pair(z, z),
        Val::Neutral(n) => Val::Neutral(detached(n)),
        _ => v,
    }
}

fn clear_closure(closure: &mut Closure)
    ensures
        *final(closure) == empty_closure(),
    opens_invariants none
    no_unwind
{
    closure.env = Env { head: None, len: 0 };
    closure.body = rc_new(Expr::Zero);
}

/// Move the value children of `value` onto `work`, the spine of a neutral
/// value onto `spines`, and release its closures.
fn take_val_children(value: &mut Val, work: &mut Vec<Value>, spines: &mut Vec<Rc<Neutral>>)
    ensures
        *final(value) == released(*old(value)),
        final(work)@ == old(work)@ + val_children(*old(value)),
        final(spines)@ == old(spines)@ + val_spines(*old(value)),
        values_size(final(work)@) + spines_size(final(spines)@) < values_size(old(work)@)
            + spines_size(old(spines)@) + val_size(*old(value)),
    opens_invariants none
    no_unwind
{
    broadcast use lemma_values_size_push, lemma_spines_size_push;

    match value {
        Val::Pi(domain, closure) => {
            take_value(domain, work);
            clear_closure(closure);
        },
        Val::Sigma(domain, closure) => {
            take_value(domain, work);
            clear_closure(closure);
        },
        Val::Lam(closure) => clear_closure(closure),
        Val::Succ(inner) => take_value(inner, work),
        Val::Pair(a, b) => {
            take_value(a, work);
            take_value(b, work);
        },
        Val::Neutral(n) => {
            let ghost spine = *n;
            if let Some(head) = take_neutral_head(n, work) {
                vec_push(spines, head);
            }
            assert(val_spines(*old(value)) == head_list(spine_head(spine)));
        },
        Val::Universe(_) | Val::Nat | Val::Zero => {},
    }
}

/// Detach the head of a neutral spine and move its argument onto `work`.
fn take_neutral_head(neutral: &mut Neutral, work: &mut Vec<Value>) -> (r: Option<Rc<Neutral>>)
    ensures
        r == spine_head(*old(neutral)),
        *final(neutral) == detached(*old(neutral)),
        final(work)@ == old(work)@ + neutral_arguments(*old(neutral)),
        values_size(final(work)@) + spines_size(head_list(r)) < values_size(old(work)@)
            + neutral_size(*old(neutral)),
    opens_invariants none
    no_unwind
{
    broadcast use lemma_values_size_push, lemma_spines_size_push;

    match neutral {
        Neutral::Var(_) | Neutral::Global(_) => None,
        Neutral::App(head, argument) => {
            take_value(argument, work);
            let mut h = rc_new(Neutral::Var(0));
            std::mem::swap(head, &mut h);
            assert(head_list(Some(h)) =~= Seq::<Rc<Neutral>>::empty().push(h));
            Some(h)
        },
        Neutral::Fst(head) => {
            let mut h = rc_new(Neutral::Var(0));
            std::mem::swap(head, &mut h);
            assert(head_list(Some(h)) =~= Seq::<Rc<Neutral>>::empty().push(h));
            Some(h)
        },
        Neutral::Snd(head) => {
            let mut h = rc_new(Neutral::Var(0));
            std::mem::swap(head, &mut h);
            assert(head_list(Some(h)) =~= Seq::<Rc<Neutral>>::empty().push(h));
            Some(h)
        },
    }
}

/// Release work lists of values and of spines one node at a time, so that no
/// nesting of values and neutral arguments recurses natively.
fn release_semantic(values: Vec<Value>, spines: Vec<Rc<Neutral>>)
    opens_invariants none
    no_unwind
{
    let mut values = values;
    let mut spines = spines;
    loop
        decreases values_size(values@) + spines_size(spines@),
    {
        let ghost values_before = values@;
        let ghost spines_before = spines@;
        match vec_pop(&mut values) {
            Some(node) => {
                assert(values_before.drop_last() =~= values@);
                if let Ok(mut v) = rc_try_unwrap(node) {
                    take_val_children(&mut v, &mut values, &mut spines);
                }
            },
            None => match vec_pop(&mut spines) {
                Some(node) => {
                    assert(spines_before.drop_last() =~= spines@);
                    if let Ok(mut n) = rc_try_unwrap(node) {
                        let ghost spines_mid = spines@;
                        if let Some(head) = take_neutral_head(&mut n, &mut values) {
                            vec_push(&mut spines, head);
                            proof {
                                lemma_spines_size_push(spines_mid, head);
                                assert(spines_size(head_list(Some(head))) == neutral_size(*head)) by {
                                    assert(head_list(Some(head)) =~= Seq::<Rc<Neutral>>::empty().push(head));
                                    lemma_spines_size_push(Seq::<Rc<Neutral>>::empty(), head);
                                }
                            }
                        }
                    }
                },
                None => return ,
            },
        }
    }
}

/// Release an environment chain one node at a time.
fn release_nodes(first: Option<Rc<EnvNode>>)
    opens_invariants none
    no_unwind
{
    let mut next = first;
    loop
        decreases chain_len(next),
    {
        match next {
            Some(node) => match rc_try_unwrap(node) {
                Ok(mut n) => {
                    next = option_take(&mut n.previous);
                },
                Err(_) => return ,
            },
            None => return ,
        }
    }
}

impl Drop for EnvNode {
    /// Chains are released iteratively through `release_nodes`.
    fn drop(&mut self)
        opens_invariants none
        no_unwind
    {
        release_nodes(option_take(&mut self.previous));
    }
}

impl Drop for Val {
    /// Deep values, neutral spines and their arguments are released
    /// iteratively through `take_val_children` and `release_semantic`.
    fn drop(&mut self)
        opens_invariants none
        no_unwind
    {
        let mut values = vec_new();
        let mut spines = vec_new();
        take_val_children(self, &mut values, &mut spines);
        release_semantic(values, spines);
    }
}

impl Drop for Neutral {
    /// Deep spines and their arguments are released iteratively through
    /// `take_neutral_head` and `release_semantic`.
    fn drop(&mut self)
        opens_invariants none
        no_unwind
    {
        let mut values = vec_new();
        let mut spines = vec_new();
        if let Some(head) = take_neutral_head(self, &mut values) {
            vec_push(&mut spines, head);
        }
        release_semantic(values, spines);
    }
}

/// In `Γ, A`, index `0` names the newly bound value and index `n + 1` names
/// what index `n` named in `Γ`.
pub proof fn law_extended_lookup(env: Env, value: Value, index: nat)
    ensures
        env.extended(value).lookup(0) == Some(value),
        env.extended(value).lookup(index + 1) == env.lookup(index),
{
}

/// In a well-formed environment an index is bound exactly when it is below
/// the length; extending keeps an environment well formed.
pub proof fn law_bound_below_length(env: Env, value: Value, index: nat)
    requires
        env.well_formed(),
    ensures
        env.lookup(index) is Some <==> index < env.len,
        env.len < usize::MAX ==> env.extended(value).well_formed(),
        Env::empty().well_formed(),
{
    lemma_chain_lookup(env.head, index);
}

} // verus!
