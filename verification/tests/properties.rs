//! Concrete instances of the library's laws, its error variants, and the
//! edge cases of typing and admission.
use std::rc::Rc;

use eagle::{
    app, check, check_in_signature, check_with_config, eval, global, infer, infer_in_signature,
    infer_with_config, lam, nat_type, normalize, normalize_in_signature, normalize_with_config,
    pair, pi, quote, quote_neutral, sigma, succ, universe, var, zero, Binder, ConstructorDecl,
    Declaration, Definition, Env, EvalConfig, Expr, InductiveDecl, KernelError, Neutral,
    Signature, Val, declaration_universes_below_top, universes_below_top,
};

fn config(fuel: usize) -> EvalConfig {
    EvalConfig { fuel }
}

fn constructor(name: &str, fields: Vec<Binder>) -> ConstructorDecl {
    ConstructorDecl {
        name: name.into(),
        fields,
        result_indices: vec![],
    }
}

fn closed_inductive(name: &str, constructors: Vec<ConstructorDecl>) -> InductiveDecl {
    InductiveDecl {
        name: name.into(),
        params: vec![],
        indices: vec![],
        universe: 0,
        constructors,
    }
}

fn field(name: &str, ty: Rc<Expr>) -> Binder {
    Binder {
        name: name.into(),
        ty,
    }
}

fn opaque(name: &str, ty: Rc<Expr>) -> Declaration {
    Declaration::Definition(Definition::Opaque {
        name: name.into(),
        ty,
    })
}

#[test]
fn default_budget_is_one_hundred_thousand() {
    assert_eq!(EvalConfig::default().fuel, 100_000);
}

#[test]
fn more_fuel_keeps_an_evaluation_result() {
    let term = app(lam(succ(var(0))), zero());
    assert!(matches!(eval(&term, config(4)), Err(KernelError::OutOfFuel)));
    let small = eval(&term, config(5)).unwrap();
    let large = eval(&term, config(1_000)).unwrap();
    assert_eq!(
        quote(&small, 0, EvalConfig::default()).unwrap(),
        quote(&large, 0, EvalConfig::default()).unwrap()
    );
    assert_eq!(quote(&small, 0, EvalConfig::default()).unwrap(), succ(zero()));
}

#[test]
fn more_fuel_keeps_a_normal_form_and_a_typing_verdict() {
    let term = app(lam(var(0)), succ(zero()));
    assert!(matches!(
        normalize_with_config(&term, config(2)),
        Err(KernelError::OutOfFuel)
    ));
    let enough = normalize_with_config(&term, config(5)).unwrap();
    assert_eq!(enough, succ(zero()));
    assert_eq!(normalize_with_config(&term, config(500)).unwrap(), enough);

    let ty = pi(nat_type(), nat_type());
    assert_eq!(infer_with_config(&ty, config(1)).unwrap(), universe(0));
    assert_eq!(infer_with_config(&ty, config(90)).unwrap(), universe(0));
    assert!(matches!(
        check_with_config(&lam(var(0)), &ty, config(2)),
        Ok(())
    ));
    assert!(matches!(
        check_with_config(&lam(var(0)), &ty, config(200)),
        Ok(())
    ));
    assert!(matches!(
        check_with_config(&zero(), &ty, config(3)),
        Err(KernelError::TypeMismatch { .. })
    ));
    assert!(matches!(
        check_with_config(&zero(), &ty, config(300)),
        Err(KernelError::TypeMismatch { .. })
    ));
}

#[test]
fn zero_fuel_evaluates_nothing() {
    assert!(matches!(
        eval(&universe(0), config(0)),
        Err(KernelError::OutOfFuel)
    ));
    assert!(matches!(eval(&var(3), config(0)), Err(KernelError::OutOfFuel)));
}

#[test]
fn cumulativity_admits_every_higher_universe() {
    assert_eq!(infer(&nat_type()).unwrap(), universe(0));
    for level in 0..5 {
        check(&nat_type(), &universe(level)).unwrap();
    }
    assert_eq!(infer(&universe(3)).unwrap(), universe(4));
    check(&universe(3), &universe(4)).unwrap();
    check(&universe(3), &universe(9)).unwrap();
    assert!(matches!(
        check(&universe(3), &universe(3)),
        Err(KernelError::TypeMismatch { .. })
    ));
}

#[test]
fn binder_types_live_in_the_larger_universe() {
    assert_eq!(infer(&pi(universe(1), universe(3))).unwrap(), universe(4));
    assert_eq!(infer(&pi(universe(5), nat_type())).unwrap(), universe(6));
    assert_eq!(infer(&sigma(nat_type(), universe(2))).unwrap(), universe(3));
    assert_eq!(
        infer(&pi(nat_type(), pi(universe(0), nat_type()))).unwrap(),
        universe(1)
    );
}

#[test]
fn dependent_codomains_see_the_bound_variable() {
    // (A : Type 0) -> A -> A
    let poly_id_ty = pi(universe(0), pi(var(0), var(1)));
    assert_eq!(infer(&poly_id_ty).unwrap(), universe(1));
    check(&lam(lam(var(0))), &poly_id_ty).unwrap();
    assert!(matches!(
        check(&lam(lam(var(1))), &poly_id_ty),
        Err(KernelError::TypeMismatch { .. })
    ));
}

#[test]
fn a_mismatch_reports_both_quoted_types() {
    match check(&zero(), &universe(0)) {
        Err(KernelError::TypeMismatch { expected, found }) => {
            assert_eq!(expected, universe(0));
            assert_eq!(found, nat_type());
        }
        other => panic!("unexpected {:?}", other),
    }
}

#[test]
fn each_typing_error_has_its_input() {
    assert!(matches!(
        infer(&var(2)),
        Err(KernelError::UnboundVariable(2))
    ));
    assert!(matches!(
        infer(&app(zero(), zero())),
        Err(KernelError::ExpectedFunction)
    ));
    assert!(matches!(
        infer(&Rc::new(Expr::Fst(zero()))),
        Err(KernelError::ExpectedPair)
    ));
    assert!(matches!(
        normalize(&Rc::new(Expr::Snd(zero()))),
        Err(KernelError::ExpectedPair)
    ));
    assert!(matches!(
        infer(&pi(zero(), nat_type())),
        Err(KernelError::ExpectedType)
    ));
    assert!(matches!(
        infer(&lam(var(0))),
        Err(KernelError::CannotInferLambda)
    ));
    assert!(matches!(
        infer(&pair(zero(), zero())),
        Err(KernelError::CannotInferLambda)
    ));
    assert!(matches!(
        infer(&global("nowhere")),
        Err(KernelError::UnknownGlobal(name)) if name == "nowhere"
    ));
}

#[test]
fn succ_checks_its_innermost_argument() {
    assert_eq!(infer(&succ(succ(succ(zero())))).unwrap(), nat_type());
    assert!(matches!(
        infer(&succ(succ(universe(0)))),
        Err(KernelError::TypeMismatch { .. })
    ));
}

#[test]
fn pairs_check_against_dependent_sigma_types() {
    // (A : Type 0) * A, inhabited by (Nat, zero).
    let ty = sigma(universe(0), var(0));
    check(&pair(nat_type(), zero()), &ty).unwrap();
    assert!(matches!(
        check(&pair(nat_type(), nat_type()), &ty),
        Err(KernelError::TypeMismatch { .. })
    ));
}

#[test]
fn environments_bind_index_zero_to_the_newest_value() {
    let base = Env::default().extend(Rc::new(Val::Zero));
    let child = base.extend(Rc::new(Val::Nat));
    assert_eq!(child.len, 2);
    assert!(matches!(child.get(0).as_deref(), Some(Val::Nat)));
    assert!(matches!(child.get(1).as_deref(), Some(Val::Zero)));
    assert!(matches!(base.get(0).as_deref(), Some(Val::Zero)));
    assert!(child.get(2).is_none());
}

#[test]
fn quotation_turns_levels_into_indices() {
    let config = EvalConfig::default();
    assert_eq!(quote_neutral(&Neutral::Var(0), 3, config).unwrap(), var(2));
    assert_eq!(quote_neutral(&Neutral::Var(2), 3, config).unwrap(), var(0));
    assert!(matches!(
        quote_neutral(&Neutral::Var(3), 3, config),
        Err(KernelError::UnboundVariable(3))
    ));
}

#[test]
fn an_admitted_name_resolves_and_others_stay_put() {
    let before = Signature::default().insert(opaque("a", nat_type())).unwrap();
    let after = before.insert(opaque("b", universe(0))).unwrap();
    assert_eq!(before.len(), 1);
    assert_eq!(after.len(), 2);
    assert!(matches!(
        after.get("b"),
        Some(Declaration::Definition(Definition::Opaque { name, .. })) if name == "b"
    ));
    assert_eq!(after.get("a"), before.get("a"));
    assert!(before.get("b").is_none());
    assert!(after.inductive("a").is_none());
}

#[test]
fn redeclaring_any_taken_name_is_refused() {
    let signature = Signature::default()
        .insert(Declaration::Inductive(closed_inductive(
            "Unit",
            vec![constructor("unit", vec![])],
        )))
        .unwrap();
    assert!(matches!(
        signature.insert(opaque("Unit", nat_type())),
        Err(KernelError::DuplicateDeclaration(name)) if name == "Unit"
    ));
    assert!(matches!(
        signature.insert(opaque("unit", nat_type())),
        Err(KernelError::DuplicateDeclaration(name)) if name == "unit"
    ));
    let clashing = closed_inductive("Other", vec![constructor("unit", vec![])]);
    assert!(matches!(
        signature.insert(Declaration::Inductive(clashing)),
        Err(KernelError::DuplicateDeclaration(name)) if name == "unit"
    ));
    let self_named = closed_inductive("Loop", vec![constructor("Loop", vec![])]);
    assert!(matches!(
        Signature::default().insert(Declaration::Inductive(self_named)),
        Err(KernelError::DuplicateDeclaration(name)) if name == "Loop"
    ));
}

#[test]
fn constructors_have_their_field_telescope_type() {
    let pair_decl = closed_inductive(
        "NatPair",
        vec![constructor(
            "mk",
            vec![field("left", nat_type()), field("right", nat_type())],
        )],
    );
    let signature = Signature::default()
        .insert(Declaration::Inductive(pair_decl))
        .unwrap();
    let config = EvalConfig::default();
    // The constructor's type is a Pi value; quotation evaluates under its
    // binders without the signature, so neither the bare constructor's type
    // nor a conversion at that type can be read back, while a saturated
    // application's type can.
    assert!(matches!(
        infer_in_signature(&global("mk"), &signature, config),
        Err(KernelError::UnknownGlobal(name)) if name == "NatPair"
    ));
    let partial = app(global("mk"), zero());
    assert!(matches!(
        check_in_signature(&partial, &pi(nat_type(), global("NatPair")), &signature, config),
        Err(KernelError::UnknownGlobal(name)) if name == "NatPair"
    ));
    let built = app(app(global("mk"), zero()), succ(zero()));
    assert_eq!(
        infer_in_signature(&built, &signature, config).unwrap(),
        global("NatPair")
    );
    assert_eq!(normalize_in_signature(&built, &signature, config).unwrap(), built);
    let (owner, found) = signature.constructor("mk").unwrap();
    assert_eq!(owner.name, "NatPair");
    assert_eq!(found.fields.len(), 2);
    assert!(signature.constructor("NatPair").is_none());
}

#[test]
fn opaque_globals_type_applications_and_projections() {
    let signature = Signature::default()
        .insert(opaque("f", pi(nat_type(), nat_type())))
        .unwrap()
        .insert(opaque("p", sigma(nat_type(), nat_type())))
        .unwrap();
    let config = EvalConfig::default();
    assert_eq!(
        infer_in_signature(&app(global("f"), zero()), &signature, config).unwrap(),
        nat_type()
    );
    assert_eq!(
        infer_in_signature(&Rc::new(Expr::Snd(global("p"))), &signature, config).unwrap(),
        nat_type()
    );
    assert_eq!(
        normalize_in_signature(&Rc::new(Expr::Fst(global("p"))), &signature, config).unwrap(),
        Rc::new(Expr::Fst(global("p")))
    );
    check_in_signature(&app(global("f"), zero()), &nat_type(), &signature, config).unwrap();
}

#[test]
fn declarations_must_be_named_and_typed() {
    assert!(matches!(
        Signature::default().insert(opaque("", nat_type())),
        Err(KernelError::InvalidDeclaration("declaration names must not be empty"))
    ));
    assert!(matches!(
        Signature::default().insert(opaque("z", zero())),
        Err(KernelError::InvalidDeclaration("a declaration type must itself be a type"))
    ));
    let bad_field = closed_inductive("Holder", vec![constructor("hold", vec![field("x", zero())])]);
    assert!(matches!(
        Signature::default().insert(Declaration::Inductive(bad_field)),
        Err(KernelError::InvalidDeclaration("a declaration type must itself be a type"))
    ));
    let empty = closed_inductive("Empty", vec![]);
    assert!(matches!(
        Signature::default().insert(Declaration::Inductive(empty)),
        Err(KernelError::InvalidInductive("an inductive needs a constructor"))
    ));
}

#[test]
fn positivity_refuses_the_name_in_any_arrow_domain() {
    // ((I -> Nat) -> Nat): the name sits inside the domain of a domain.
    let nested = closed_inductive(
        "I",
        vec![constructor(
            "mk",
            vec![field("f", pi(pi(global("I"), nat_type()), nat_type()))],
        )],
    );
    assert!(matches!(
        Signature::default().insert(Declaration::Inductive(nested)),
        Err(KernelError::NonPositiveOccurrence(name)) if name == "I"
    ));
    let negative = closed_inductive(
        "Neg",
        vec![constructor(
            "mk_neg",
            vec![field("k", sigma(nat_type(), pi(global("Neg"), nat_type())))],
        )],
    );
    assert!(matches!(
        Signature::default().insert(Declaration::Inductive(negative)),
        Err(KernelError::NonPositiveOccurrence(name)) if name == "Neg"
    ));
    // Nat -> Good: the name only in a codomain passes positivity, and
    // admission then fails on typing the field (recursive fields are not
    // executable yet).
    let positive = closed_inductive(
        "Good",
        vec![constructor("mk_good", vec![field("k", pi(nat_type(), global("Good")))])],
    );
    assert!(matches!(
        Signature::default().insert(Declaration::Inductive(positive)),
        Err(KernelError::UnknownGlobal(name)) if name == "Good"
    ));
}

#[test]
fn transparent_definitions_are_checked_and_unfold() {
    let signature = Signature::default()
        .insert(Declaration::Definition(Definition::Transparent {
            name: "two".into(),
            ty: nat_type(),
            body: succ(succ(zero())),
        }))
        .unwrap();
    assert_eq!(
        normalize_in_signature(&succ(global("two")), &signature, EvalConfig::default()).unwrap(),
        succ(succ(succ(zero())))
    );
    let declared = signature.get("two").unwrap();
    assert_eq!(declared.name(), "two");
    match declared {
        Declaration::Definition(definition) => {
            assert_eq!(definition.name(), "two");
            assert_eq!(definition.ty(), &nat_type());
        }
        Declaration::Inductive(_) => panic!("a definition was declared"),
    }
}

#[test]
fn the_top_universe_is_detected_before_typing() {
    assert!(universes_below_top(&pi(nat_type(), universe(7))));
    assert!(universes_below_top(&lam(app(var(0), succ(zero())))));
    assert!(!universes_below_top(&pi(nat_type(), universe(u32::MAX))));
    assert!(!universes_below_top(&pair(zero(), lam(universe(u32::MAX)))));
    assert!(universes_below_top(&universe(u32::MAX - 1)));
    let mut deep = universe(0);
    for _ in 0..50_000 {
        deep = succ(deep);
    }
    assert!(universes_below_top(&deep));

    assert!(declaration_universes_below_top(&opaque("a", universe(3))));
    assert!(!declaration_universes_below_top(&Declaration::Definition(
        Definition::Transparent {
            name: "b".into(),
            ty: universe(1),
            body: universe(u32::MAX),
        }
    )));
    let holder = closed_inductive(
        "Holder",
        vec![
            constructor("empty", vec![]),
            constructor("full", vec![field("x", universe(u32::MAX))]),
        ],
    );
    assert!(!declaration_universes_below_top(&Declaration::Inductive(holder)));
}

#[test]
fn nested_neutral_arguments_are_released_iteratively() {
    let mut value = Rc::new(Val::Neutral(Neutral::Var(0)));
    for _ in 0..200_000 {
        value = Rc::new(Val::Neutral(Neutral::App(Rc::new(Neutral::Var(0)), value)));
    }
    drop(value);
    let mut spine = Neutral::Var(0);
    for _ in 0..200_000 {
        let argument = Rc::new(Val::Neutral(Neutral::Fst(Rc::new(spine))));
        spine = Neutral::App(Rc::new(Neutral::Var(1)), argument);
    }
    drop(spine);
}

#[test]
fn normalizing_a_normal_form_gives_it_back() {
    let twice = lam(lam(app(var(1), app(var(1), var(0)))));
    let term = app(twice, lam(succ(var(0))));
    let normal = normalize(&term).unwrap();
    assert_eq!(normal, lam(succ(succ(var(0)))));
    assert_eq!(normalize(&normal).unwrap(), normal);
    let dependent = pi(universe(0), pi(var(0), app(lam(var(0)), var(1))));
    let normal = normalize(&dependent).unwrap();
    assert_eq!(normal, pi(universe(0), pi(var(0), var(1))));
    assert_eq!(normalize(&normal).unwrap(), normal);
}

#[test]
fn inferred_types_are_normal_and_check_their_terms() {
    let terms = vec![
        zero(),
        succ(succ(zero())),
        nat_type(),
        universe(4),
        pi(universe(0), pi(var(0), var(1))),
        sigma(nat_type(), universe(1)),
    ];
    for term in terms {
        let ty = infer(&term).unwrap();
        assert_eq!(normalize(&ty).unwrap(), ty);
        check(&term, &ty).unwrap();
    }
}
