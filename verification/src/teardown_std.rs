//! The std calls that teardown makes.  Verus requires every `drop` to be
//! `no_unwind` and to open no invariants; vstd specifies these calls without
//! saying so.  Each wrapper below carries vstd's own contract for its call
//! and adds that signature: none of these calls panics (an allocation failure
//! aborts rather than unwinds).
use std::rc::Rc;

use vstd::prelude::*;

verus! {

/// `Option::take`: hands back the old contents and leaves `None`.
#[verifier::external_body]
pub(crate) fn option_take<T>(option: &mut Option<T>) -> (t: Option<T>)
    ensures
        t == *old(option),
        *final(option) is None,
    opens_invariants none
    no_unwind
{
    option.take()
}

/// `Rc::new`: a shared handle to `t`.
#[verifier::external_body]
pub(crate) fn rc_new<T>(t: T) -> (v: Rc<T>)
    ensures
        v == t,
    opens_invariants none
    no_unwind
{
    Rc::new(t)
}

/// `Rc::try_unwrap`: the contents when this was the only handle, else the
/// handle itself.
#[verifier::external_body]
pub(crate) fn rc_try_unwrap<T>(v: Rc<T>) -> (result: Result<T, Rc<T>>)
    ensures
        match result {
            Ok(t) => t == v,
            Err(e) => e == v,
        },
    opens_invariants none
    no_unwind
{
    Rc::try_unwrap(v)
}

/// `Vec::new`: an empty vector.
#[verifier::external_body]
pub(crate) fn vec_new<T>() -> (v: Vec<T>)
    ensures
        v@ == Seq::<T>::empty(),
    opens_invariants none
    no_unwind
{
    Vec::new()
}

/// `Vec::push`: `value` appended at the end.
#[verifier::external_body]
pub(crate) fn vec_push<T>(vec: &mut Vec<T>, value: T)
    ensures
        final(vec)@ == old(vec)@.push(value),
    opens_invariants none
    no_unwind
{
    vec.push(value)
}

/// `Vec::pop`: the last element removed, or `None` when empty.
#[verifier::external_body]
pub(crate) fn vec_pop<T>(vec: &mut Vec<T>) -> (value: Option<T>)
    ensures
        old(vec)@.len() > 0 ==> value == Some(old(vec)@[old(vec)@.len() - 1]) && final(vec)@ == old(
            vec,
        )@.subrange(0, old(vec)@.len() - 1),
        old(vec)@.len() == 0 ==> value == None::<T> && final(vec)@ == old(vec)@,
    opens_invariants none
    no_unwind
{
    vec.pop()
}

} // verus!
