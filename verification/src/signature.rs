//! Persistent global declaration registry.
//!
//! This is the trusted admission boundary for closed definitions and the
//! structural registry for inductive declarations.
use std::rc::Rc;

use vstd::prelude::*;

use crate::check::{
    below_top_universe, check, checked_against, checking_overflows, constructor_type_of, infer,
    inference_overflows, inferred_type, lemma_below_top_check, lemma_below_top_infer, pi_telescope,
    universes_below_top, value_in,
};
use crate::semantic::Env;
use crate::error::KernelError;
use crate::inductive::{shape_defect, Binder, ConstructorDecl, InductiveDecl};
use crate::syntax::{expr_size, Expr, Term};

verus! {

#[derive(Clone, Debug, PartialEq, Eq)]
pub enum Definition {
    /// A declaration without a body.  It is opaque to evaluation.
    Opaque { name: String, ty: Term },
    /// A checked definition whose body is unfolded by NbE.
    Transparent { name: String, ty: Term, body: Term },
}

impl Definition {
    pub open spec fn spec_name(self) -> Seq<char> {
        match self {
            Definition::Opaque { name, .. } => name@,
            Definition::Transparent { name, .. } => name@,
        }
    }

    pub open spec fn spec_ty(self) -> Term {
        match self {
            Definition::Opaque { ty, .. } => ty,
            Definition::Transparent { ty, .. } => ty,
        }
    }

    pub fn name(&self) -> (r: &str)
        ensures
            r@ == self.spec_name(),
    {
        match self {
            Self::Opaque { name, .. } => name.as_str(),
            Self::Transparent { name, .. } => name.as_str(),
        }
    }

    pub fn ty(&self) -> (r: &Term)
        ensures
            *r == self.spec_ty(),
    {
        match self {
            Self::Opaque { ty, .. } => ty,
            Self::Transparent { ty, .. } => ty,
        }
    }
}

#[derive(Clone, Debug, PartialEq, Eq)]
pub enum Declaration {
    Definition(Definition),
    Inductive(InductiveDecl),
}

impl Declaration {
    pub open spec fn spec_name(self) -> Seq<char> {
        match self {
            Declaration::Definition(d) => d.spec_name(),
            Declaration::Inductive(i) => i.name@,
        }
    }

    pub fn name(&self) -> (r: &str)
        ensures
            r@ == self.spec_name(),
    {
        match self {
            Self::Definition(definition) => definition.name(),
            Self::Inductive(inductive) => inductive.name.as_str(),
        }
    }

    /// The declared name as an owned string.
    pub open spec fn name_string(self) -> String {
        match self {
            Declaration::Definition(Definition::Opaque { name, .. }) => name,
            Declaration::Definition(Definition::Transparent { name, .. }) => name,
            Declaration::Inductive(i) => i.name,
        }
    }

    fn owned_name(&self) -> (r: String)
        ensures
            r == self.name_string(),
    {
        match self {
            Self::Definition(Definition::Opaque { name, .. }) => name.clone(),
            Self::Definition(Definition::Transparent { name, .. }) => name.clone(),
            Self::Inductive(inductive) => inductive.name.clone(),
        }
    }
}

/// The first constructor of `constructors` named `name`.
pub open spec fn find_constructor(constructors: Seq<ConstructorDecl>, name: Seq<char>) -> Option<
    ConstructorDecl,
>
    decreases constructors.len(),
{
    if constructors.len() == 0 {
        None
    } else if constructors[0].name@ == name {
        Some(constructors[0])
    } else {
        find_constructor(constructors.drop_first(), name)
    }
}

/// The most recent declaration named `name`.
pub open spec fn lookup_declaration(decls: Seq<Declaration>, name: Seq<char>) -> Option<Declaration>
    decreases decls.len(),
{
    if decls.len() == 0 {
        None
    } else if decls.last().spec_name() == name {
        Some(decls.last())
    } else {
        lookup_declaration(decls.drop_last(), name)
    }
}

/// The most recent inductive declaring a constructor `name`, with that constructor.
pub open spec fn lookup_constructor(decls: Seq<Declaration>, name: Seq<char>) -> Option<
    (InductiveDecl, ConstructorDecl),
>
    decreases decls.len(),
{
    if decls.len() == 0 {
        None
    } else {
        match decls.last() {
            Declaration::Inductive(ind) => match find_constructor(ind.constructors@, name) {
                Some(c) => Some((ind, c)),
                None => lookup_constructor(decls.drop_last(), name),
            },
            Declaration::Definition(_) => lookup_constructor(decls.drop_last(), name),
        }
    }
}

/// Whether `name` is used by a declaration or by a constructor.
pub open spec fn name_taken(decls: Seq<Declaration>, name: Seq<char>) -> bool {
    lookup_declaration(decls, name) is Some || lookup_constructor(decls, name) is Some
}

#[derive(Debug)]
pub struct Signature {
    head: Option<Rc<Entry>>,
    len: usize,
}

#[derive(Debug)]
struct Entry {
    declaration: Declaration,
    previous: Option<Rc<Entry>>,
}

spec fn entries(head: Option<Rc<Entry>>) -> Seq<Declaration>
    decreases head,
{
    match head {
        None => Seq::empty(),
        Some(e) => entries(e.previous).push(e.declaration),
    }
}

proof fn lemma_entries_step(e: &Rc<Entry>)
    ensures
        entries(Some(*e)) == entries(e.previous).push(e.declaration),
        entries(Some(*e)).drop_last() == entries(e.previous),
        entries(Some(*e)).last() == e.declaration,
        entries(Some(*e)).len() > 0,
{
    assert(entries(e.previous).push(e.declaration).drop_last() =~= entries(e.previous));
}

impl View for Signature {
    type V = Seq<Declaration>;

    /// The declarations, oldest first.
    closed spec fn view(&self) -> Seq<Declaration> {
        entries(self.head)
    }
}

impl Signature {
    #[verifier::type_invariant]
    spec fn well_formed(self) -> bool {
        &&& self.len == entries(self.head).len()
        &&& registry_fresh(entries(self.head))
    }

    pub fn len(&self) -> (r: usize)
        ensures
            r == self@.len(),
    {
        proof {
            use_type_invariant(self);
        }
        self.len
    }

    pub fn is_empty(&self) -> (r: bool)
        ensures
            r == (self@.len() == 0),
    {
        proof {
            use_type_invariant(self);
        }
        self.len == 0
    }

    pub fn get(&self, name: &str) -> (r: Option<&Declaration>)
        ensures
            match r {
                Some(d) => lookup_declaration(self@, name@) == Some(*d),
                None => lookup_declaration(self@, name@) is None,
            },
    {
        let mut entry = &self.head;
        loop
            invariant
                lookup_declaration(entries(*entry), name@) == lookup_declaration(self@, name@),
            decreases *entry,
        {
            match entry {
                Some(current) => {
                    proof {
                        lemma_entries_step(current);
                    }
                    if name_is(&current.declaration, name) {
                        return Some(&current.declaration);
                    }
                    entry = &current.previous;
                },
                None => return None,
            }
        }
    }

    /// Find a constructor and the inductive declaration that owns it.
    pub fn constructor(&self, name: &str) -> (r: Option<(&InductiveDecl, &ConstructorDecl)>)
        ensures
            match r {
                Some((i, c)) => lookup_constructor(self@, name@) == Some((*i, *c)),
                None => lookup_constructor(self@, name@) is None,
            },
    {
        let mut entry = &self.head;
        loop
            invariant
                lookup_constructor(entries(*entry), name@) == lookup_constructor(self@, name@),
            decreases *entry,
        {
            match entry {
                Some(current) => {
                    proof {
                        lemma_entries_step(current);
                    }
                    if let Declaration::Inductive(inductive) = &current.declaration {
                        if let Some(c) = constructor_named(&inductive.constructors, name) {
                            return Some((inductive, c));
                        }
                    }
                    entry = &current.previous;
                },
                None => return None,
            }
        }
    }

    /// Look up an inductive declaration by its type constructor name.
    pub fn inductive(&self, name: &str) -> (r: Option<&InductiveDecl>)
        ensures
            match r {
                Some(i) => lookup_declaration(self@, name@) == Some(Declaration::Inductive(*i)),
                None => !(lookup_declaration(self@, name@) matches Some(Declaration::Inductive(_))),
            },
    {
        match self.get(name) {
            Some(Declaration::Inductive(inductive)) => Some(inductive),
            Some(Declaration::Definition(_)) | None => None,
        }
    }

    fn contains_name(&self, name: &str) -> (r: bool)
        ensures
            r == name_taken(self@, name@),
    {
        self.get(name).is_some() || self.constructor(name).is_some()
    }
}

/// Whether a declaration is named `name`.
fn name_is(declaration: &Declaration, name: &str) -> (r: bool)
    ensures
        r == (declaration.spec_name() == name@),
{
    let owned = name.to_owned();
    match declaration {
        Declaration::Definition(Definition::Opaque { name: n, .. }) => *n == owned,
        Declaration::Definition(Definition::Transparent { name: n, .. }) => *n == owned,
        Declaration::Inductive(inductive) => inductive.name == owned,
    }
}

/// The first constructor of `constructors` named `name`.
fn constructor_named<'a>(constructors: &'a Vec<ConstructorDecl>, name: &str) -> (r: Option<
    &'a ConstructorDecl,
>)
    ensures
        match r {
            Some(c) => find_constructor(constructors@, name@) == Some(*c),
            None => find_constructor(constructors@, name@) is None,
        },
{
    let owned = name.to_owned();
    let mut i: usize = 0;
    assert(constructors@.skip(0) =~= constructors@);
    while i < constructors.len()
        invariant
            i <= constructors@.len(),
            owned@ == name@,
            find_constructor(constructors@.skip(i as int), name@) == find_constructor(
                constructors@,
                name@,
            ),
        decreases constructors.len() - i,
    {
        assert(constructors@.skip(i as int).drop_first() =~= constructors@.skip(i + 1));
        if constructors[i].name == owned {
            return Some(&constructors[i]);
        }
        i = i + 1;
    }
    None
}

impl Clone for Signature {
    fn clone(&self) -> (r: Self)
        ensures
            r@ == self@,
    {
        proof {
            use_type_invariant(self);
        }
        let head = match &self.head {
            Some(h) => Some(h.clone()),
            None => None,
        };
        Signature { head, len: self.len }
    }
}

impl Default for Signature {
    fn default() -> (r: Self)
        ensures
            r@ == Seq::<Declaration>::empty(),
    {
        Signature { head: None, len: 0 }
    }
}

/// Checking the field types in order reaches an overflowing inference.
pub open spec fn binders_overflow(binders: Seq<Binder>) -> bool
    decreases binders.len(),
{
    binders.len() > 0 && (inference_overflows(None, *binders[0].ty, 100_000) || (type_verdict(
        *binders[0].ty,
    ) is Ok && binders_overflow(binders.drop_first())))
}

/// Checking the constructors' field types in order reaches an overflowing
/// inference.
pub open spec fn constructors_overflow(constructors: Seq<ConstructorDecl>) -> bool
    decreases constructors.len(),
{
    constructors.len() > 0 && (binders_overflow(constructors[0].fields@) || (binders_verdict(
        constructors[0].fields@,
    ) is Ok && constructors_overflow(constructors.drop_first())))
}

/// Validating `d` reaches an inference of `Type u32::MAX`, whose own type has
/// no level in `u32`.
pub open spec fn declaration_overflows(d: Declaration) -> bool {
    d.spec_name().len() != 0 && match d {
        Declaration::Definition(Definition::Opaque { ty, .. }) => inference_overflows(None, *ty, 100_000),
        Declaration::Definition(Definition::Transparent { ty, body, .. }) => inference_overflows(
            None,
            *ty,
            100_000,
        ) || (type_verdict(*ty) is Ok && checking_overflows(None, *body, *ty, 100_000)),
        Declaration::Inductive(ind) => shape_defect(ind) is None && fields_strictly_positive(ind)
            && ind.params@.len() == 0 && ind.indices@.len() == 0 && constructors_overflow(
            ind.constructors@,
        ),
    }
}

/// No occurrence of the global `name` in `t` stands to the left of an arrow,
/// at any depth: inside a Pi domain every occurrence is negative
/// (`positive` is false when `t` itself lies in some domain).
pub open spec fn strictly_positive_in(t: Expr, name: Seq<char>, positive: bool) -> bool
    decreases t,
{
    match t {
        Expr::Global(n) => positive || n@ != name,
        Expr::Pi { domain, codomain } => strictly_positive_in(*domain, name, false)
            && strictly_positive_in(*codomain, name, positive),
        Expr::Sigma { first, second } => strictly_positive_in(*first, name, positive)
            && strictly_positive_in(*second, name, positive),
        Expr::App { function, argument } => strictly_positive_in(*function, name, positive)
            && strictly_positive_in(*argument, name, positive),
        Expr::Pair { first, second } => strictly_positive_in(*first, name, positive)
            && strictly_positive_in(*second, name, positive),
        Expr::Lam(b) => strictly_positive_in(*b, name, positive),
        Expr::Fst(b) => strictly_positive_in(*b, name, positive),
        Expr::Snd(b) => strictly_positive_in(*b, name, positive),
        Expr::Succ(b) => strictly_positive_in(*b, name, positive),
        _ => true,
    }
}

/// Every field type of every constructor is strictly positive in the
/// inductive's own name.
pub open spec fn fields_strictly_positive(ind: InductiveDecl) -> bool {
    forall|i: int, j: int|
        0 <= i < ind.constructors@.len() && 0 <= j < ind.constructors@[i].fields@.len()
            ==> strictly_positive_in(
            *(#[trigger] ind.constructors@[i].fields@[j]).ty,
            ind.name@,
            true,
        )
}

/// Whether a closed term is a type: its inferred type is a universe.
pub open spec fn type_verdict(ty: Expr) -> Result<(), KernelError> {
    match inferred_type(None, ty, 100_000) {
        Err(e) => Err(e),
        Ok(t) => if *t is Universe {
            Ok(())
        } else {
            Err(KernelError::InvalidDeclaration("a declaration type must itself be a type"))
        },
    }
}

/// The first field type (in order) that is not a type.
pub open spec fn binders_verdict(binders: Seq<Binder>) -> Result<(), KernelError>
    decreases binders.len(),
{
    if binders.len() == 0 {
        Ok(())
    } else {
        match type_verdict(*binders[0].ty) {
            Err(e) => Err(e),
            Ok(()) => binders_verdict(binders.drop_first()),
        }
    }
}

/// The first constructor field type (constructors in order) that is not a type.
pub open spec fn constructors_verdict(constructors: Seq<ConstructorDecl>) -> Result<(), KernelError>
    decreases constructors.len(),
{
    if constructors.len() == 0 {
        Ok(())
    } else {
        match binders_verdict(constructors[0].fields@) {
            Err(e) => Err(e),
            Ok(()) => constructors_verdict(constructors.drop_first()),
        }
    }
}

/// The validation of a declaration on its own, before it meets a signature.
pub open spec fn declaration_verdict(d: Declaration) -> Result<(), KernelError> {
    if d.spec_name().len() == 0 {
        Err(KernelError::InvalidDeclaration("declaration names must not be empty"))
    } else {
        match d {
            Declaration::Definition(Definition::Opaque { ty, .. }) => type_verdict(*ty),
            Declaration::Definition(Definition::Transparent { ty, body, .. }) => match type_verdict(
                *ty,
            ) {
                Err(e) => Err(e),
                Ok(()) => checked_against(None, *body, *ty, 100_000),
            },
            Declaration::Inductive(ind) => match shape_defect(ind) {
                Some(m) => Err(KernelError::InvalidInductive(m)),
                None => if !fields_strictly_positive(ind) {
                    Err(KernelError::NonPositiveOccurrence(ind.name))
                } else if ind.params@.len() != 0 || ind.indices@.len() != 0 {
                    Err(
                        KernelError::InvalidDeclaration(
                            "inductive parameters and indices are not implemented yet",
                        ),
                    )
                } else {
                    constructors_verdict(ind.constructors@)
                },
            },
        }
    }
}

fn validate_name(name: &str) -> (r: Result<(), KernelError>)
    ensures
        r == (if name@.len() == 0 {
            Err(KernelError::InvalidDeclaration("declaration names must not be empty"))
        } else {
            Ok(())
        }),
{
    if name.is_empty() {
        Err(KernelError::InvalidDeclaration("declaration names must not be empty"))
    } else {
        Ok(())
    }
}

fn validate_type(ty: &Term) -> (r: Result<(), KernelError>)
    requires
        !inference_overflows(None, **ty, 100_000),
    ensures
        r == type_verdict(**ty),
{
    let inferred = match infer(ty) {
        Ok(t) => t,
        Err(e) => return Err(e),
    };
    match &*inferred {
        Expr::Universe(_) => Ok(()),
        _ => Err(KernelError::InvalidDeclaration("a declaration type must itself be a type")),
    }
}

fn validate_binders(binders: &Vec<Binder>) -> (r: Result<(), KernelError>)
    requires
        !binders_overflow(binders@),
    ensures
        r == binders_verdict(binders@),
{
    let mut i: usize = 0;
    assert(binders@.skip(0) =~= binders@);
    while i < binders.len()
        invariant
            i <= binders@.len(),
            !binders_overflow(binders@.skip(i as int)),
            binders_verdict(binders@) == binders_verdict(binders@.skip(i as int)),
        decreases binders.len() - i,
    {
        assert(binders@.skip(i as int).drop_first() =~= binders@.skip(i + 1));
        match validate_type(&binders[i].ty) {
            Ok(()) => {},
            Err(e) => return Err(e),
        }
        i = i + 1;
    }
    Ok(())
}

fn validate_constructor_fields(ind: &InductiveDecl) -> (r: Result<(), KernelError>)
    requires
        !constructors_overflow(ind.constructors@),
    ensures
        r == constructors_verdict(ind.constructors@),
{
    let constructors = &ind.constructors;
    let mut i: usize = 0;
    assert(constructors@.skip(0) =~= constructors@);
    while i < constructors.len()
        invariant
            i <= constructors@.len(),
            !constructors_overflow(constructors@.skip(i as int)),
            constructors == &ind.constructors,
            constructors_verdict(constructors@) == constructors_verdict(constructors@.skip(i as int)),
        decreases constructors.len() - i,
    {
        assert(constructors@.skip(i as int).drop_first() =~= constructors@.skip(i + 1));
        match validate_binders(&constructors[i].fields) {
            Ok(()) => {},
            Err(e) => return Err(e),
        }
        i = i + 1;
    }
    Ok(())
}

fn validate_declaration(declaration: &Declaration) -> (r: Result<(), KernelError>)
    requires
        !declaration_overflows(*declaration),
    ensures
        r == declaration_verdict(*declaration),
{
    match validate_name(declaration.name()) {
        Ok(()) => {},
        Err(e) => return Err(e),
    }
    match declaration {
        Declaration::Definition(Definition::Opaque { ty, .. }) => validate_type(ty),
        Declaration::Definition(Definition::Transparent { ty, body, .. }) => {
            match validate_type(ty) {
                Ok(()) => {},
                Err(e) => return Err(e),
            }
            check(body, ty)
        },
        Declaration::Inductive(inductive) => {
            match inductive.validate_shape() {
                Ok(()) => {},
                Err(e) => return Err(e),
            }
            match check_strict_positivity(inductive) {
                Ok(()) => {},
                Err(e) => return Err(e),
            }
            // The executable constructor fragment has closed fields: a
            // dependent telescope cannot yet be given a constructor type.
            if inductive.params.len() != 0 || inductive.indices.len() != 0 {
                return Err(
                    KernelError::InvalidDeclaration(
                        "inductive parameters and indices are not implemented yet",
                    ),
                );
            }
            validate_constructor_fields(inductive)
        },
    }
}

/// Conservative strict-positivity check for the recursive name in constructor
/// fields.  An occurrence left of a Pi arrow, at any depth, is negative;
/// occurrences in a codomain, Sigma component, pair, or ordinary application
/// retain polarity.
fn check_strict_positivity(inductive: &InductiveDecl) -> (r: Result<(), KernelError>)
    ensures
        r == (if fields_strictly_positive(*inductive) {
            Ok(())
        } else {
            Err(KernelError::NonPositiveOccurrence(inductive.name))
        }),
{
    let constructors = &inductive.constructors;
    let mut i: usize = 0;
    while i < constructors.len()
        invariant
            i <= constructors@.len(),
            constructors == &inductive.constructors,
            forall|k: int, j: int|
                0 <= k < i && 0 <= j < constructors@[k].fields@.len() ==> strictly_positive_in(
                    *(#[trigger] constructors@[k].fields@[j]).ty,
                    inductive.name@,
                    true,
                ),
        decreases constructors.len() - i,
    {
        let fields = &constructors[i].fields;
        let mut j: usize = 0;
        while j < fields.len()
            invariant
                i < constructors@.len(),
                j <= fields@.len(),
                fields == &constructors@[i as int].fields,
                constructors == &inductive.constructors,
                forall|k: int, l: int|
                    0 <= k < i && 0 <= l < constructors@[k].fields@.len() ==> strictly_positive_in(
                        *(#[trigger] constructors@[k].fields@[l]).ty,
                        inductive.name@,
                        true,
                    ),
                forall|l: int| 0 <= l < j ==> strictly_positive_in(
                    *(#[trigger] fields@[l]).ty,
                    inductive.name@,
                    true,
                ),
            decreases fields.len() - j,
        {
            match check_positive_term(&fields[j].ty, &inductive.name, true) {
                Ok(()) => {},
                Err(e) => return Err(e),
            }
            j = j + 1;
        }
        i = i + 1;
    }
    Ok(())
}

fn check_positive_term(term: &Term, inductive_name: &String, positive: bool) -> (r: Result<(), KernelError>)
    ensures
        r == (if strictly_positive_in(**term, inductive_name@, positive) {
            Ok(())
        } else {
            Err(KernelError::NonPositiveOccurrence(*inductive_name))
        }),
    decreases expr_size(**term),
{
    match &**term {
        Expr::Global(name) => {
            if !positive && *name == *inductive_name {
                Err(KernelError::NonPositiveOccurrence(inductive_name.clone()))
            } else {
                Ok(())
            }
        },
        Expr::Pi { domain, codomain } => {
            match check_positive_term(domain, inductive_name, false) {
                Ok(()) => {},
                Err(e) => return Err(e),
            }
            check_positive_term(codomain, inductive_name, positive)
        },
        Expr::Sigma { first, second }
        | Expr::App { function: first, argument: second }
        | Expr::Pair { first, second } => {
            match check_positive_term(first, inductive_name, positive) {
                Ok(()) => {},
                Err(e) => return Err(e),
            }
            check_positive_term(second, inductive_name, positive)
        },
        Expr::Lam(body) | Expr::Fst(body) | Expr::Snd(body) | Expr::Succ(body) => {
            check_positive_term(body, inductive_name, positive)
        },
        Expr::Var(_) | Expr::Universe(_) | Expr::Nat | Expr::Zero => Ok(()),
    }
}

/// Two constructors of `constructors` are named `name`.
pub open spec fn named_twice(constructors: Seq<ConstructorDecl>, name: Seq<char>) -> bool {
    exists|i: int, j: int|
        0 <= i < j < constructors.len() && (#[trigger] constructors[i]).name@ == name && (
        #[trigger] constructors[j]).name@ == name
}

/// A constructor of `ind` whose name is taken in `decls`, is the inductive's
/// own name, or is shared by two of its constructors.
pub open spec fn constructor_clash(decls: Seq<Declaration>, ind: InductiveDecl, c: ConstructorDecl) -> bool {
    name_taken(decls, c.name@) || c.name@ == ind.name@ || named_twice(ind.constructors@, c.name@)
}

/// The first constructor of `constructors` (in order) that clashes.
pub open spec fn first_clash(decls: Seq<Declaration>, ind: InductiveDecl, constructors: Seq<ConstructorDecl>) -> Option<ConstructorDecl>
    decreases constructors.len(),
{
    if constructors.len() == 0 {
        None
    } else if constructor_clash(decls, ind, constructors[0]) {
        Some(constructors[0])
    } else {
        first_clash(decls, ind, constructors.drop_first())
    }
}

/// Whether `decls` admits `d`: the declaration is valid on its own, its name
/// is free, and each constructor name is free and unambiguous.
pub open spec fn admission(decls: Seq<Declaration>, d: Declaration) -> Result<(), KernelError> {
    match declaration_verdict(d) {
        Err(e) => Err(e),
        Ok(()) => if name_taken(decls, d.spec_name()) {
            Err(KernelError::DuplicateDeclaration(d.name_string()))
        } else {
            match d {
                Declaration::Inductive(ind) => match first_clash(decls, ind, ind.constructors@) {
                    Some(c) => Err(KernelError::DuplicateDeclaration(c.name)),
                    None => Ok(()),
                },
                Declaration::Definition(_) => Ok(()),
            }
        },
    }
}

/// Whether two constructors of `constructors` are named `name`.
fn appears_twice(constructors: &Vec<ConstructorDecl>, name: &String) -> (r: bool)
    ensures
        r == named_twice(constructors@, name@),
{
    let mut seen = false;
    let mut k: usize = 0;
    while k < constructors.len()
        invariant
            k <= constructors@.len(),
            seen == exists|i: int| 0 <= i < k && (#[trigger] constructors@[i]).name@ == name@,
            !exists|i: int, j: int|
                0 <= i < j < k && (#[trigger] constructors@[i]).name@ == name@ && (
                #[trigger] constructors@[j]).name@ == name@,
        decreases constructors.len() - k,
    {
        if constructors[k].name == *name {
            if seen {
                proof {
                    let i = choose|i: int| 0 <= i < k && (#[trigger] constructors@[i]).name@ == name@;
                    assert(constructors@[i].name@ == name@ && constructors@[k as int].name@ == name@);
                }
                return true;
            }
            seen = true;
        }
        k = k + 1;
    }
    false
}

impl Signature {
    /// Validate `declaration` and return a new signature that shares this
    /// signature as its tail.  `self` is left unchanged.
    pub fn insert(&self, declaration: Declaration) -> (r: Result<Self, KernelError>)
        requires
            !declaration_overflows(declaration),
            self@.len() < usize::MAX,
        ensures
            match admission(self@, declaration) {
                Ok(()) => r matches Ok(s) && s@ == self@.push(declaration),
                Err(e) => r == Err::<Self, KernelError>(e),
            },
            r matches Ok(s) ==> registry_fresh(s@),
    {
        proof {
            use_type_invariant(self);
        }
        let verdict = validate_declaration(&declaration);
        if let Err(e) = verdict {
            return Err(e);
        }
        assert(declaration_verdict(declaration) is Ok);
        if self.contains_name(declaration.name()) {
            return Err(KernelError::DuplicateDeclaration(declaration.owned_name()));
        }
        if let Declaration::Inductive(inductive) = &declaration {
            let constructors = &inductive.constructors;
            let mut i: usize = 0;
            assert(constructors@.skip(0) =~= constructors@);
            while i < constructors.len()
                invariant
                    i <= constructors@.len(),
                    constructors == &inductive.constructors,
                    declaration == Declaration::Inductive(*inductive),
                    declaration_verdict(declaration) is Ok,
                    !name_taken(self@, declaration.spec_name()),
                    first_clash(self@, *inductive, constructors@) == first_clash(
                        self@,
                        *inductive,
                        constructors@.skip(i as int),
                    ),
                decreases constructors.len() - i,
            {
                assert(constructors@.skip(i as int).drop_first() =~= constructors@.skip(i + 1));
                let constructor = &constructors[i];
                if self.contains_name(constructor.name.as_str()) || constructor.name == inductive.name
                    || appears_twice(constructors, &constructor.name) {
                    assert(constructors@.skip(i as int)[0] == constructors@[i as int]);
                    assert(constructor_clash(self@, *inductive, constructors@[i as int]));
                    return Err(KernelError::DuplicateDeclaration(constructor.name.clone()));
                }
                i = i + 1;
            }
        }
        let previous = match &self.head {
            Some(h) => Some(h.clone()),
            None => None,
        };
        proof {
            law_admission_keeps_registry_fresh(self@, declaration);
        }
        let entry = Rc::new(Entry { declaration, previous });
        proof {
            lemma_entries_step(&entry);
        }
        Ok(Signature { head: Some(entry), len: self.len + 1 })
    }
}

/// `d` was free to enter a registry holding `prior`: its name and each of its
/// constructor names were untaken and unambiguous.
pub open spec fn entry_fresh(prior: Seq<Declaration>, d: Declaration) -> bool {
    &&& !name_taken(prior, d.spec_name())
    &&& (d matches Declaration::Inductive(ind) ==> forall|k: int|
        0 <= k < ind.constructors@.len() ==> !constructor_clash(
            prior,
            ind,
            #[trigger] ind.constructors@[k],
        ))
}

/// Every declaration of the registry was fresh when it was added.
pub open spec fn registry_fresh(decls: Seq<Declaration>) -> bool {
    forall|j: int| 0 <= j < decls.len() ==> entry_fresh(decls.take(j), #[trigger] decls[j])
}

proof fn lemma_no_clash(decls: Seq<Declaration>, ind: InductiveDecl, constructors: Seq<ConstructorDecl>)
    requires
        first_clash(decls, ind, constructors) is None,
    ensures
        forall|k: int| 0 <= k < constructors.len() ==> !constructor_clash(decls, ind, #[trigger] constructors[k]),
    decreases constructors.len(),
{
    if constructors.len() > 0 {
        lemma_no_clash(decls, ind, constructors.drop_first());
        assert forall|k: int| 0 <= k < constructors.len() implies !constructor_clash(
            decls,
            ind,
            #[trigger] constructors[k],
        ) by {
            if k > 0 {
                assert(constructors[k] == constructors.drop_first()[k - 1]);
            }
        }
    }
}

/// An admitted declaration is fresh for the registry that admits it.
pub proof fn law_admitted_is_fresh(decls: Seq<Declaration>, d: Declaration)
    requires
        admission(decls, d) is Ok,
    ensures
        entry_fresh(decls, d),
{
    if let Declaration::Inductive(ind) = d {
        lemma_no_clash(decls, ind, ind.constructors@);
    }
}

/// Admission keeps the registry invariant: in a registry built by successful
/// insertions, every declaration and constructor name was fresh when added.
pub proof fn law_admission_keeps_registry_fresh(decls: Seq<Declaration>, d: Declaration)
    requires
        registry_fresh(decls),
        admission(decls, d) is Ok,
    ensures
        registry_fresh(decls.push(d)),
{
    law_admitted_is_fresh(decls, d);
    let after = decls.push(d);
    assert forall|j: int| 0 <= j < after.len() implies entry_fresh(after.take(j), #[trigger] after[j]) by {
        if j < decls.len() {
            assert(after.take(j) =~= decls.take(j));
            assert(after[j] == decls[j]);
        } else {
            assert(after.take(j) =~= decls);
        }
    }
}

/// Reading after a write: once `d` is admitted, its name resolves to `d`, and
/// every other name resolves as it did before; a constructor name resolves to
/// `d`'s constructor when `d` declares it, and as before otherwise.
pub proof fn law_insert_then_lookup(decls: Seq<Declaration>, d: Declaration, other: Seq<char>)
    requires
        admission(decls, d) is Ok,
        other != d.spec_name(),
    ensures
        lookup_declaration(decls.push(d), d.spec_name()) == Some(d),
        lookup_declaration(decls.push(d), other) == lookup_declaration(decls, other),
        (d is Inductive && find_constructor(d->Inductive_0.constructors@, other) is Some)
            ==> lookup_constructor(decls.push(d), other) == Some(
            (d->Inductive_0, find_constructor(d->Inductive_0.constructors@, other)->Some_0),
        ),
        !(d matches Declaration::Inductive(ind) && find_constructor(ind.constructors@, other) is Some)
            ==> lookup_constructor(decls.push(d), other) == lookup_constructor(decls, other),
{
    assert(decls.push(d).drop_last() =~= decls);
}

/// A name is declared at most once: declaring an admitted name again is
/// refused as a duplicate.
pub proof fn law_redeclaration_refused(decls: Seq<Declaration>, d: Declaration, again: Declaration)
    requires
        admission(decls, d) is Ok,
        declaration_verdict(again) is Ok,
        again.spec_name() == d.spec_name(),
    ensures
        admission(decls.push(d), again) == Err::<(), KernelError>(
            KernelError::DuplicateDeclaration(again.name_string()),
        ),
{
    assert(decls.push(d).drop_last() =~= decls);
}

proof fn lemma_find_constructor(constructors: Seq<ConstructorDecl>, k: int, name: Seq<char>)
    requires
        0 <= k < constructors.len(),
        constructors[k].name@ == name,
        forall|i: int| 0 <= i < k ==> (#[trigger] constructors[i]).name@ != name,
    ensures
        find_constructor(constructors, name) == Some(constructors[k]),
    decreases k,
{
    if k > 0 {
        assert forall|i: int| 0 <= i < k - 1 implies (#[trigger] constructors.drop_first()[i]).name@ != name by {
            assert(constructors.drop_first()[i] == constructors[i + 1]);
        }
        lemma_find_constructor(constructors.drop_first(), k - 1, name);
    }
}

/// A constructor of an admitted inductive resolves to that inductive and
/// itself, and its global has the synthesized type `A1 -> ... -> An -> I`.
pub proof fn law_constructor_global(decls: Seq<Declaration>, ind: InductiveDecl, k: int)
    requires
        admission(decls, Declaration::Inductive(ind)) is Ok,
        0 <= k < ind.constructors@.len(),
    ensures
        lookup_declaration(
            decls.push(Declaration::Inductive(ind)),
            ind.constructors@[k].name@,
        ) is None,
        lookup_constructor(decls.push(Declaration::Inductive(ind)), ind.constructors@[k].name@)
            == Some((ind, ind.constructors@[k])),
        constructor_type_of(decls.push(Declaration::Inductive(ind)), ind.constructors@[k].name)
            == Ok::<Term, KernelError>(
            pi_telescope(ind.constructors@[k].fields@, Rc::new(Expr::Global(ind.name))),
        ),
{
    let d = Declaration::Inductive(ind);
    let after = decls.push(d);
    let c = ind.constructors@[k];
    law_admitted_is_fresh(decls, d);
    assert(!constructor_clash(decls, ind, ind.constructors@[k]));
    assert(after.drop_last() =~= decls);
    assert forall|i: int| 0 <= i < k implies (#[trigger] ind.constructors@[i]).name@ != c.name@ by {
        if ind.constructors@[i].name@ == c.name@ {
            assert(named_twice(ind.constructors@, c.name@));
        }
    }
    lemma_find_constructor(ind.constructors@, k, c.name@);
}

/// Only checked declarations are admitted: a definition's type is a type and
/// a transparent body checks against it; an inductive is closed, well
/// shaped, strictly positive, and its field types are types.
pub proof fn law_admitted_declaration_is_checked(decls: Seq<Declaration>, d: Declaration)
    requires
        admission(decls, d) is Ok,
    ensures
        d.spec_name().len() != 0,
        d matches Declaration::Definition(Definition::Opaque { ty, .. }) ==> type_verdict(*ty) is Ok,
        d matches Declaration::Definition(Definition::Transparent { ty, body, .. }) ==> type_verdict(
            *ty,
        ) is Ok && checked_against(None, *body, *ty, 100_000) is Ok,
        d matches Declaration::Inductive(ind) ==> {
            &&& shape_defect(ind) is None
            &&& fields_strictly_positive(ind)
            &&& ind.params@.len() == 0
            &&& ind.indices@.len() == 0
            &&& constructors_verdict(ind.constructors@) is Ok
        },
{
}

/// Whether the global `name` occurs anywhere in `t`.
pub open spec fn mentions(t: Expr, name: Seq<char>) -> bool
    decreases t,
{
    match t {
        Expr::Global(n) => n@ == name,
        Expr::Pi { domain, codomain } => mentions(*domain, name) || mentions(*codomain, name),
        Expr::Sigma { first, second } => mentions(*first, name) || mentions(*second, name),
        Expr::App { function, argument } => mentions(*function, name) || mentions(*argument, name),
        Expr::Pair { first, second } => mentions(*first, name) || mentions(*second, name),
        Expr::Lam(b) => mentions(*b, name),
        Expr::Fst(b) => mentions(*b, name),
        Expr::Snd(b) => mentions(*b, name),
        Expr::Succ(b) => mentions(*b, name),
        _ => false,
    }
}

proof fn lemma_mention_is_negative(t: Expr, name: Seq<char>)
    requires
        mentions(t, name),
    ensures
        !strictly_positive_in(t, name, false),
    decreases t,
{
    match t {
        Expr::Pi { domain, codomain } => {
            let d: Expr = *domain;
            let c: Expr = *codomain;
            if mentions(d, name) {
                lemma_mention_is_negative(d, name);
            } else {
                lemma_mention_is_negative(c, name);
            }
        },
        Expr::Sigma { first, second } | Expr::App { function: first, argument: second } | Expr::Pair {
            first,
            second,
        } => {
            let a: Expr = *first;
            let b: Expr = *second;
            if mentions(a, name) {
                lemma_mention_is_negative(a, name);
            } else {
                lemma_mention_is_negative(b, name);
            }
        },
        Expr::Lam(b) | Expr::Fst(b) | Expr::Snd(b) | Expr::Succ(b) => {
            let inner: Expr = *b;
            lemma_mention_is_negative(inner, name);
        },
        _ => {},
    }
}

/// An inductive with a constructor field `A -> B` whose domain `A` mentions
/// the inductive's own name anywhere (however deeply nested, e.g.
/// `(I -> Nat) -> Nat`) is refused as a non-positive occurrence (once its name
/// and shape pass).
pub proof fn law_negative_occurrence_refused(ind: InductiveDecl, k: int, j: int, domain: Term, rest: Term)
    requires
        ind.name@.len() != 0,
        shape_defect(ind) is None,
        0 <= k < ind.constructors@.len(),
        0 <= j < ind.constructors@[k].fields@.len(),
        *ind.constructors@[k].fields@[j].ty == (Expr::Pi { domain, codomain: rest }),
        mentions(*domain, ind.name@),
    ensures
        declaration_verdict(Declaration::Inductive(ind)) == Err::<(), KernelError>(
            KernelError::NonPositiveOccurrence(ind.name),
        ),
{
    let d: Expr = *domain;
    lemma_mention_is_negative(d, ind.name@);
    assert(!strictly_positive_in(*ind.constructors@[k].fields@[j].ty, ind.name@, true));
}

/// Every universe written in the field types has a successor level in `u32`.
pub open spec fn binders_below_top(binders: Seq<Binder>) -> bool {
    forall|j: int| 0 <= j < binders.len() ==> below_top_universe(*(#[trigger] binders[j]).ty)
}

/// Every universe written in the terms that admitting `d` type checks has a
/// successor level in `u32`.
pub open spec fn declaration_below_top(d: Declaration) -> bool {
    match d {
        Declaration::Definition(Definition::Opaque { ty, .. }) => below_top_universe(*ty),
        Declaration::Definition(Definition::Transparent { ty, body, .. }) => below_top_universe(*ty)
            && below_top_universe(*body),
        Declaration::Inductive(ind) => constructors_below_top(ind.constructors@),
    }
}

/// Every universe written in the constructors' field types has a successor
/// level in `u32`.
pub open spec fn constructors_below_top(constructors: Seq<ConstructorDecl>) -> bool {
    forall|i: int| 0 <= i < constructors.len() ==> binders_below_top((#[trigger] constructors[i]).fields@)
}

proof fn lemma_bounded_binders(binders: Seq<Binder>)
    requires
        binders_below_top(binders),
    ensures
        !binders_overflow(binders),
    decreases binders.len(),
{
    if binders.len() > 0 {
        let ty: Expr = *binders[0].ty;
        lemma_below_top_infer(None, 100_000, Env::empty(), Env::empty(), ty);
        assert forall|j: int| 0 <= j < binders.drop_first().len() implies below_top_universe(
            *(#[trigger] binders.drop_first()[j]).ty,
        ) by {
            assert(binders.drop_first()[j] == binders[j + 1]);
        }
        lemma_bounded_binders(binders.drop_first());
    }
}

proof fn lemma_bounded_constructors(constructors: Seq<ConstructorDecl>)
    requires
        constructors_below_top(constructors),
    ensures
        !constructors_overflow(constructors),
    decreases constructors.len(),
{
    if constructors.len() > 0 {
        lemma_bounded_binders(constructors[0].fields@);
        assert forall|i: int| 0 <= i < constructors.drop_first().len() implies binders_below_top(
            (#[trigger] constructors.drop_first()[i]).fields@,
        ) by {
            assert(constructors.drop_first()[i] == constructors[i + 1]);
        }
        assert(constructors_below_top(constructors.drop_first()));
        lemma_bounded_constructors(constructors.drop_first());
    }
}

/// A declaration whose written universes all have a successor level never
/// overflows during admission, so `insert` may be called on it.
pub proof fn law_bounded_declaration(d: Declaration)
    requires
        declaration_below_top(d),
    ensures
        !declaration_overflows(d),
{
    let e = Env::empty();
    match d {
        Declaration::Definition(Definition::Opaque { ty, .. }) => {
            let t: Expr = *ty;
            lemma_below_top_infer(None, 100_000, e, e, t);
        },
        Declaration::Definition(Definition::Transparent { ty, body, .. }) => {
            let t: Expr = *ty;
            let b: Expr = *body;
            lemma_below_top_infer(None, 100_000, e, e, t);
            if let Ok(expected) = value_in(None, 100_000, e, t) {
                lemma_below_top_check(None, 100_000, e, e, b, expected);
            }
        },
        Declaration::Inductive(ind) => lemma_bounded_constructors(ind.constructors@),
    }
}

fn binders_universes_below_top(binders: &Vec<Binder>) -> (b: bool)
    ensures
        b == binders_below_top(binders@),
{
    let mut j: usize = 0;
    while j < binders.len()
        invariant
            j <= binders@.len(),
            forall|k: int| 0 <= k < j ==> below_top_universe(*(#[trigger] binders@[k]).ty),
        decreases binders.len() - j,
    {
        if !universes_below_top(&binders[j].ty) {
            return false;
        }
        j = j + 1;
    }
    true
}

/// Decide `declaration_below_top`: whether every universe written in the
/// terms that admitting `d` type checks has a successor level in `u32`.
pub fn declaration_universes_below_top(d: &Declaration) -> (b: bool)
    ensures
        b == declaration_below_top(*d),
{
    match d {
        Declaration::Definition(Definition::Opaque { ty, .. }) => universes_below_top(ty),
        Declaration::Definition(Definition::Transparent { ty, body, .. }) => universes_below_top(ty)
            && universes_below_top(body),
        Declaration::Inductive(ind) => {
            let constructors = &ind.constructors;
            let mut i: usize = 0;
            while i < constructors.len()
                invariant
                    i <= constructors@.len(),
                    constructors == &ind.constructors,
                    *d == Declaration::Inductive(*ind),
                    forall|k: int| 0 <= k < i ==> binders_below_top((#[trigger] constructors@[k]).fields@),
                decreases constructors.len() - i,
            {
                if !binders_universes_below_top(&constructors[i].fields) {
                    assert(!constructors_below_top(constructors@)) by {
                        assert(!binders_below_top(constructors@[i as int].fields@));
                    }
                    return false;
                }
                i = i + 1;
            }
            true
        },
    }
}

proof fn lemma_declared_name_resolves(s: Seq<Declaration>, i: int)
    requires
        0 <= i < s.len(),
    ensures
        lookup_declaration(s, s[i].spec_name()) is Some,
    decreases s.len(),
{
    if s.last().spec_name() != s[i].spec_name() {
        assert(i < s.len() - 1);
        assert(s.drop_last()[i] == s[i]);
        lemma_declared_name_resolves(s.drop_last(), i);
    }
}

proof fn lemma_declared_constructor_resolves(s: Seq<Declaration>, i: int, name: Seq<char>)
    requires
        0 <= i < s.len(),
        s[i] matches Declaration::Inductive(ind) && find_constructor(ind.constructors@, name) is Some,
    ensures
        lookup_constructor(s, name) is Some,
    decreases s.len(),
{
    if !(s.last() matches Declaration::Inductive(ind) && find_constructor(ind.constructors@, name) is Some) {
        assert(i < s.len() - 1);
        assert(s.drop_last()[i] == s[i]);
        lemma_declared_constructor_resolves(s.drop_last(), i, name);
    }
}

proof fn lemma_found_constructor(constructors: Seq<ConstructorDecl>, name: Seq<char>)
    requires
        find_constructor(constructors, name) is Some,
    ensures
        exists|k: int|
            0 <= k < constructors.len() && #[trigger] constructors[k] == find_constructor(
                constructors,
                name,
            )->Some_0 && constructors[k].name@ == name,
    decreases constructors.len(),
{
    if constructors[0].name@ == name {
        assert(constructors[0] == find_constructor(constructors, name)->Some_0);
    } else {
        lemma_found_constructor(constructors.drop_first(), name);
        let k = choose|k: int|
            0 <= k < constructors.drop_first().len() && #[trigger] constructors.drop_first()[k]
                == find_constructor(constructors.drop_first(), name)->Some_0
                && constructors.drop_first()[k].name@ == name;
        assert(constructors[k + 1] == constructors.drop_first()[k]);
    }
}

/// Names in a registry built by admission are pairwise distinct: a later
/// declaration's name, and each of its constructor names, differ from an
/// earlier declaration's name and from every constructor name it declared.
pub proof fn law_registry_names_distinct(decls: Seq<Declaration>, i: int, j: int)
    requires
        registry_fresh(decls),
        0 <= i < j < decls.len(),
    ensures
        decls[i].spec_name() != decls[j].spec_name(),
        decls[i] matches Declaration::Inductive(earlier) ==> find_constructor(
            earlier.constructors@,
            decls[j].spec_name(),
        ) is None,
        decls[j] matches Declaration::Inductive(later) ==> forall|k: int|
            0 <= k < later.constructors@.len() ==> {
                &&& (#[trigger] later.constructors@[k]).name@ != decls[i].spec_name()
                &&& (decls[i] matches Declaration::Inductive(earlier) ==> find_constructor(
                    earlier.constructors@,
                    later.constructors@[k].name@,
                ) is None)
            },
{
    let prior = decls.take(j);
    assert(entry_fresh(prior, decls[j]));
    assert(prior[i] == decls[i]);
    lemma_declared_name_resolves(prior, i);
    if let Declaration::Inductive(earlier) = decls[i] {
        if find_constructor(earlier.constructors@, decls[j].spec_name()) is Some {
            lemma_declared_constructor_resolves(prior, i, decls[j].spec_name());
        }
    }
    if let Declaration::Inductive(later) = decls[j] {
        assert forall|k: int| 0 <= k < later.constructors@.len() implies {
            &&& (#[trigger] later.constructors@[k]).name@ != decls[i].spec_name()
            &&& (decls[i] matches Declaration::Inductive(earlier) ==> find_constructor(
                earlier.constructors@,
                later.constructors@[k].name@,
            ) is None)
        } by {
            let c = later.constructors@[k];
            assert(!constructor_clash(prior, later, c));
            if let Declaration::Inductive(earlier) = decls[i] {
                if find_constructor(earlier.constructors@, c.name@) is Some {
                    lemma_declared_constructor_resolves(prior, i, c.name@);
                }
            }
        }
    }
}

/// In a registry built by admission no name is both a declaration and a
/// constructor, so `get` and `constructor` never both answer for one name.
pub proof fn law_name_resolves_once(decls: Seq<Declaration>, name: Seq<char>)
    requires
        registry_fresh(decls),
    ensures
        !(lookup_declaration(decls, name) is Some && lookup_constructor(decls, name) is Some),
    decreases decls.len(),
{
    if decls.len() > 0 {
        let prior = decls.drop_last();
        let d = decls.last();
        assert(decls.take(decls.len() - 1) =~= prior);
        assert(entry_fresh(prior, d));
        assert forall|j: int| 0 <= j < prior.len() implies entry_fresh(prior.take(j), #[trigger] prior[j]) by {
            assert(prior.take(j) =~= decls.take(j));
            assert(prior[j] == decls[j]);
        }
        law_name_resolves_once(prior, name);
        if let Declaration::Inductive(ind) = d {
            if find_constructor(ind.constructors@, name) is Some {
                lemma_found_constructor(ind.constructors@, name);
                let k = choose|k: int|
                    0 <= k < ind.constructors@.len() && #[trigger] ind.constructors@[k]
                        == find_constructor(ind.constructors@, name)->Some_0
                        && ind.constructors@[k].name@ == name;
                assert(!constructor_clash(prior, ind, ind.constructors@[k]));
            }
        }
    }
}

} // verus!
