//! Inductive declaration syntax and structural validation.
use vstd::prelude::*;

use crate::error::KernelError;
use crate::syntax::Term;

verus! {

/// A binder in an inductive declaration.  Parameters are fixed for every
/// constructor/result; indices may vary and are the inputs to elimination.
#[derive(Clone, Debug, PartialEq, Eq)]
pub struct Binder {
    pub name: String,
    pub ty: Term,
}

#[derive(Clone, Debug, PartialEq, Eq)]
pub struct ConstructorDecl {
    pub name: String,
    pub fields: Vec<Binder>,
    /// The result's index arguments, one for each `InductiveDecl::indices`.
    pub result_indices: Vec<Term>,
}

#[derive(Clone, Debug, PartialEq, Eq)]
pub struct InductiveDecl {
    pub name: String,
    pub params: Vec<Binder>,
    pub indices: Vec<Binder>,
    pub universe: u32,
    pub constructors: Vec<ConstructorDecl>,
}

/// Some binder has an empty name.
pub open spec fn has_unnamed_binder(binders: Seq<Binder>) -> bool {
    exists|i: int| 0 <= i < binders.len() && (#[trigger] binders[i]).name@.len() == 0
}

/// Some constructor has an empty name.
pub open spec fn has_unnamed_constructor(constructors: Seq<ConstructorDecl>) -> bool {
    exists|i: int| 0 <= i < constructors.len() && (#[trigger] constructors[i]).name@.len() == 0
}

/// Two constructors share a name.
pub open spec fn has_repeated_constructor(constructors: Seq<ConstructorDecl>) -> bool {
    exists|i: int, j: int|
        0 <= i < j < constructors.len() && (#[trigger] constructors[i]).name@ == (
        #[trigger] constructors[j]).name@
}

/// Some constructor's result does not have `n` index arguments.
pub open spec fn has_wrong_index_count(constructors: Seq<ConstructorDecl>, n: nat) -> bool {
    exists|i: int|
        0 <= i < constructors.len() && (#[trigger] constructors[i]).result_indices@.len() != n
}

/// The first structural defect of a declaration, in the order they are checked.
pub open spec fn shape_defect(d: InductiveDecl) -> Option<&'static str> {
    if d.constructors@.len() == 0 {
        Some("an inductive needs a constructor")
    } else if has_unnamed_binder(d.params@) || has_unnamed_binder(d.indices@) {
        Some("binders need names")
    } else if d.name@.len() == 0 {
        Some("inductive names need names")
    } else if has_unnamed_constructor(d.constructors@) {
        Some("constructors need names")
    } else if has_repeated_constructor(d.constructors@) {
        Some("constructor names must be distinct")
    } else if has_wrong_index_count(d.constructors@, d.indices@.len()) {
        Some("constructor result has the wrong number of indices")
    } else {
        None
    }
}

fn any_unnamed_binder(binders: &Vec<Binder>) -> (r: bool)
    ensures
        r == has_unnamed_binder(binders@),
{
    let mut i: usize = 0;
    while i < binders.len()
        invariant
            i <= binders@.len(),
            forall|k: int| 0 <= k < i ==> (#[trigger] binders@[k]).name@.len() != 0,
        decreases binders.len() - i,
    {
        if binders[i].name.as_str().is_empty() {
            return true;
        }
        i = i + 1;
    }
    false
}

impl InductiveDecl {
    /// Structural validation owned by the trusted declaration boundary.  Full
    /// positivity and constructor type checking belong to the next kernel step.
    #[verifier::loop_isolation(false)]
    pub fn validate_shape(&self) -> (r: Result<(), KernelError>)
        ensures
            r == (match shape_defect(*self) {
                Some(m) => Err(KernelError::InvalidInductive(m)),
                None => Ok(()),
            }),
    {
        let ctors = &self.constructors;
        if ctors.len() == 0 {
            return Err(KernelError::InvalidInductive("an inductive needs a constructor"));
        }
        if any_unnamed_binder(&self.params) || any_unnamed_binder(&self.indices) {
            return Err(KernelError::InvalidInductive("binders need names"));
        }
        if self.name.as_str().is_empty() {
            return Err(KernelError::InvalidInductive("inductive names need names"));
        }
        let mut i: usize = 0;
        while i < ctors.len()
            invariant
                i <= ctors@.len(),
                forall|k: int| 0 <= k < i ==> (#[trigger] ctors@[k]).name@.len() != 0,
            decreases ctors.len() - i,
        {
            if ctors[i].name.as_str().is_empty() {
                assert(ctors@[i as int].name@.len() == 0);
                return Err(KernelError::InvalidInductive("constructors need names"));
            }
            i = i + 1;
        }
        let mut i: usize = 0;
        while i < ctors.len()
            invariant
                i <= ctors@.len(),
                !has_unnamed_constructor(ctors@),
                forall|a: int, b: int|
                    0 <= a < i && a < b < ctors@.len() ==> (#[trigger] ctors@[a]).name@ != (
                    #[trigger] ctors@[b]).name@,
            decreases ctors.len() - i,
        {
            let mut j: usize = i + 1;
            while j < ctors.len()
                invariant
                    i < j <= ctors@.len(),
                    i < ctors@.len(),
                    forall|b: int| i < b < j ==> ctors@[i as int].name@ != (#[trigger] ctors@[b]).name@,
                decreases ctors.len() - j,
            {
                if ctors[j].name == ctors[i].name {
                    assert(ctors@[i as int].name@ == ctors@[j as int].name@);
                    return Err(KernelError::InvalidInductive("constructor names must be distinct"));
                }
                j = j + 1;
            }
            i = i + 1;
        }
        assert(!has_repeated_constructor(ctors@));
        let mut i: usize = 0;
        while i < ctors.len()
            invariant
                i <= ctors@.len(),
                !has_unnamed_constructor(ctors@),
                !has_repeated_constructor(ctors@),
                forall|k: int|
                    0 <= k < i ==> (#[trigger] ctors@[k]).result_indices@.len()
                        == self.indices@.len(),
            decreases ctors.len() - i,
        {
            if ctors[i].result_indices.len() != self.indices.len() {
                assert(ctors@[i as int].result_indices@.len() != self.indices@.len());
                return Err(
                    KernelError::InvalidInductive(
                        "constructor result has the wrong number of indices",
                    ),
                );
            }
            i = i + 1;
        }
        Ok(())
    }
}

/// Constructor names are compared at all pairs of positions: once the
/// earlier shape checks pass, any two constructors (neighbours or not) that
/// share a name make the declaration ill-shaped.
pub proof fn law_repeated_constructor_refused(d: InductiveDecl, i: int, j: int)
    requires
        0 <= i < j < d.constructors@.len(),
        d.constructors@[i].name@ == d.constructors@[j].name@,
        forall|k: int| 0 <= k < d.params@.len() ==> (#[trigger] d.params@[k]).name@.len() != 0,
        forall|k: int| 0 <= k < d.indices@.len() ==> (#[trigger] d.indices@[k]).name@.len() != 0,
        d.name@.len() != 0,
        forall|k: int| 0 <= k < d.constructors@.len() ==> (#[trigger] d.constructors@[k]).name@.len() != 0,
    ensures
        shape_defect(d) == Some("constructor names must be distinct"),
{
    assert(has_repeated_constructor(d.constructors@)) by {
        assert(d.constructors@[i].name@ == d.constructors@[j].name@);
    }
}

/// A well-shaped declaration has pairwise distinct constructor names, one
/// result index per declared index, named binders and at least one
/// constructor.
pub proof fn law_well_shaped_declaration(d: InductiveDecl)
    requires
        shape_defect(d) is None,
    ensures
        d.constructors@.len() > 0,
        d.name@.len() != 0,
        forall|i: int, j: int|
            0 <= i < j < d.constructors@.len() ==> (#[trigger] d.constructors@[i]).name@ != (
            #[trigger] d.constructors@[j]).name@,
        forall|k: int|
            0 <= k < d.constructors@.len() ==> (#[trigger] d.constructors@[k]).result_indices@.len()
                == d.indices@.len() && d.constructors@[k].name@.len() != 0,
        forall|k: int| 0 <= k < d.params@.len() ==> (#[trigger] d.params@[k]).name@.len() != 0,
        forall|k: int| 0 <= k < d.indices@.len() ==> (#[trigger] d.indices@[k]).name@.len() != 0,
{
}

} // verus!
