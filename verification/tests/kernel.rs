//! The kernel's scenarios: typing, conversion, evaluation budgets, deep
//! terms, and the declaration registry.
use std::rc::Rc;

use eagle::{
    app, check, check_in_signature, check_with_config, eval, eval_in_signature, global, infer,
    infer_in_signature, infer_with_config, lam, nat_type, normalize, normalize_in_signature,
    normalize_with_config, pair, pi, quote, quote_neutral, sigma, succ, universe, var, zero, Binder,
    ConstructorDecl, Declaration, Definition, Env, EvalConfig, Expr, InductiveDecl, KernelError,
    Neutral, Signature, Val,
};


#[test]
fn rc_sharing_is_the_term_representation() {
    let n = nat_type();
    let p = pi(n.clone(), n.clone());
    assert_eq!(Rc::strong_count(&n), 3);
    assert_eq!(infer(&p).unwrap(), universe(0));
}
#[test]
fn universe_cumulativity_starts_correctly() {
    assert_eq!(infer(&universe(2)).unwrap(), universe(3));
}
#[test]
fn universes_are_cumulative() {
    // Nat : Type0, and cumulative conversion admits Type0 <= Type1.
    check(&nat_type(), &universe(1)).unwrap();
    assert!(check(&universe(1), &universe(2)).is_ok());
}
#[test]
fn pi_and_nbe_beta_reduce() {
    let id_ty = pi(nat_type(), nat_type());
    let id = lam(var(0));
    let applied = app(id.clone(), succ(zero()));
    check(&id, &id_ty).unwrap();
    assert_eq!(normalize(&applied).unwrap(), succ(zero()));
}
#[test]
fn conversion_has_beta_but_no_unrequested_eta_rule() {
    // \f. \x. f x is eta-equivalent to \f. f in some presentations, but
    // the current core intentionally specifies beta conversion only.
    let eta_expansion = lam(lam(app(var(1), var(0))));
    let ty = pi(pi(nat_type(), nat_type()), pi(nat_type(), nat_type()));
    check(&eta_expansion, &ty).unwrap();
    assert_eq!(normalize(&eta_expansion).unwrap(), eta_expansion);
}
#[test]
fn sigma_pair_and_projections() {
    let ty = sigma(nat_type(), nat_type());
    let value = pair(zero(), succ(zero()));
    check(&value, &ty).unwrap();
    assert_eq!(
        normalize(&Rc::new(Expr::Fst(value.clone()))).unwrap(),
        zero()
    );
    assert_eq!(normalize(&Rc::new(Expr::Snd(value))).unwrap(), succ(zero()));
}
#[test]
fn evaluation_has_explicit_stack_cpu_budget() {
    assert!(matches!(
        eval(&zero(), EvalConfig { fuel: 0 }),
        Err(KernelError::OutOfFuel)
    ));
    assert!(eval(&succ(zero()), EvalConfig { fuel: 2 }).is_ok());
}
#[test]
fn persistent_environments_extend_in_constant_work_and_share_tails() {
    let base = Env::default().extend(Rc::new(Val::Zero));
    let child = base.extend(Rc::new(Val::Succ(Rc::new(Val::Zero))));
    let base_head = base.head.as_ref().unwrap();
    assert!(Rc::ptr_eq(
        base_head,
        child.head.as_ref().unwrap().previous.as_ref().unwrap()
    ));
    assert_eq!(Rc::strong_count(base_head), 2);

    // This is a structural, not timing-sensitive, regression test: every
    // extension has exactly one new node and shares the preceding 100,000.
    let mut env = Env::default();
    for _ in 0..100_000 {
        env = env.extend(Rc::new(Val::Zero));
    }
    assert_eq!(env.len, 100_000);
    // Scope exit drops all 100,000 nodes normally via EnvNode's iterative Drop.
}
#[test]
fn deep_unary_naturals_do_not_use_native_recursion_in_hot_paths() {
    let depth: usize = 50_000;
    let mut term = zero();
    for _ in 0..depth {
        term = succ(term);
    }
    let value = eval(&term, EvalConfig { fuel: depth + 1 }).unwrap();
    let normal = quote(&value, 0, EvalConfig::default()).unwrap();
    assert_eq!(infer(&term).unwrap(), nat_type());
    check(&term, &nat_type()).unwrap();
    drop(normal);
    drop(value);
    drop(term);
}
#[test]
fn deep_application_spine_evaluates_quotes_and_drops_normally() {
    let depth: usize = 50_000;
    let identity = lam(var(0));
    let mut term = zero();
    // Right-associated applications exercise argument continuations too.
    for _ in 0..depth {
        term = app(identity.clone(), term);
    }
    let value = eval(
        &term,
        EvalConfig {
            fuel: depth * 3 + 1,
        },
    )
    .unwrap();
    assert_eq!(quote(&value, 0, EvalConfig::default()).unwrap(), zero());
    drop(value);
    drop(term);
}
#[test]
fn deep_pi_spine_infers_checks_and_drops_normally() {
    let depth: usize = 50_000;
    let mut term = nat_type();
    for _ in 0..depth {
        term = pi(nat_type(), term);
    }
    assert_eq!(infer(&term).unwrap(), universe(0));
    check(&term, &universe(0)).unwrap();
    drop(term);
}
#[test]
fn quote_reifies_a_deep_pi_value_tree() {
    let depth: usize = 50_000;
    let mut term = nat_type();
    for _ in 0..depth {
        term = pi(nat_type(), term);
    }
    let normal = normalize(&term).unwrap();
    assert!(matches!(normal.as_ref(), Expr::Pi { .. }));
    drop(normal);
    drop(term);
}
#[test]
fn quote_reifies_a_deep_pair_value_tree() {
    let depth: usize = 50_000;
    let mut term = zero();
    for _ in 0..depth {
        term = pair(zero(), term);
    }
    let value = eval(
        &term,
        EvalConfig {
            fuel: depth * 2 + 1,
        },
    )
    .unwrap();
    let normal = quote(&value, 0, EvalConfig::default()).unwrap();
    assert!(matches!(normal.as_ref(), Expr::Pair { .. }));
    drop(normal);
    drop(value);
    drop(term);
}
#[test]
fn quote_reifies_a_deep_neutral_application_spine() {
    let depth: usize = 50_000;
    let mut neutral = Rc::new(Neutral::Var(0));
    for _ in 0..depth {
        neutral = Rc::new(Neutral::App(neutral, Rc::new(Val::Zero)));
    }
    let term = quote_neutral(&neutral, 1, EvalConfig::default()).unwrap();
    assert!(matches!(term.as_ref(), Expr::App { .. }));
    drop(term);
    drop(neutral);
}
#[test]
fn inductive_parameters_and_indices_are_distinct() {
    let vec = InductiveDecl {
        name: "Vec".into(),
        params: vec![Binder {
            name: "A".into(),
            ty: universe(0),
        }],
        indices: vec![Binder {
            name: "n".into(),
            ty: nat_type(),
        }],
        universe: 0,
        constructors: vec![ConstructorDecl {
            name: "nil".into(),
            fields: vec![],
            result_indices: vec![zero()],
        }],
    };
    vec.validate_shape().unwrap();
    let bad = InductiveDecl {
        constructors: vec![ConstructorDecl {
            name: "broken".into(),
            fields: vec![],
            result_indices: vec![],
        }],
        ..vec
    };
    assert!(matches!(
        bad.validate_shape(),
        Err(KernelError::InvalidInductive(_))
    ));
}

#[test]
fn public_kernel_operations_honor_the_callers_fuel_budget() {
    let term = succ(zero());
    let no_fuel = EvalConfig { fuel: 0 };
    assert!(matches!(
        normalize_with_config(&term, no_fuel),
        Err(KernelError::OutOfFuel)
    ));
    assert!(matches!(
        infer_with_config(&pi(nat_type(), nat_type()), no_fuel),
        Err(KernelError::OutOfFuel)
    ));
    assert!(matches!(
        check_with_config(&term, &nat_type(), no_fuel),
        Err(KernelError::OutOfFuel)
    ));
}

#[test]
fn malformed_terms_report_their_typing_error_not_resource_exhaustion() {
    assert!(matches!(
        infer(&var(0)),
        Err(KernelError::UnboundVariable(0))
    ));
    assert!(matches!(check(&zero(), &nat_type()), Ok(())));
    assert!(matches!(
        check(&zero(), &pi(nat_type(), nat_type())),
        Err(KernelError::TypeMismatch { .. })
    ));
    assert!(matches!(
        normalize(&app(zero(), zero())),
        Err(KernelError::ExpectedFunction)
    ));
    assert!(matches!(
        normalize(&app(pi(nat_type(), nat_type()), zero())),
        Err(KernelError::ExpectedFunction)
    ));
}

#[test]
fn signature_validates_definitions_and_persists_prior_versions() {
    let signature = Signature::default();
    let checked = signature
        .insert(Declaration::Definition(Definition::Transparent {
            name: "one".into(),
            ty: nat_type(),
            body: succ(zero()),
        }))
        .unwrap();
    assert!(signature.is_empty());
    assert_eq!(checked.len(), 1);
    assert!(matches!(
        checked.get("one"),
        Some(Declaration::Definition(_))
    ));
    assert!(matches!(
        checked.insert(Declaration::Definition(Definition::Opaque {
            name: "one".into(),
            ty: nat_type(),
        })),
        Err(KernelError::DuplicateDeclaration(name)) if name == "one"
    ));
}

#[test]
fn signature_rejects_ill_typed_definition_bodies_and_constructor_name_clashes() {
    let signature = Signature::default();
    assert!(matches!(
        signature.insert(Declaration::Definition(Definition::Transparent {
            name: "bad".into(),
            ty: nat_type(),
            body: universe(0),
        })),
        Err(KernelError::TypeMismatch { .. })
    ));

    let bool_decl = InductiveDecl {
        name: "Bool".into(),
        params: vec![],
        indices: vec![],
        universe: 0,
        constructors: vec![
            ConstructorDecl {
                name: "true".into(),
                fields: vec![],
                result_indices: vec![],
            },
            ConstructorDecl {
                name: "false".into(),
                fields: vec![],
                result_indices: vec![],
            },
        ],
    };
    let signature = signature.insert(Declaration::Inductive(bool_decl)).unwrap();
    assert!(matches!(
        signature.insert(Declaration::Definition(Definition::Opaque {
            name: "true".into(),
            ty: nat_type(),
        })),
        Err(KernelError::DuplicateDeclaration(name)) if name == "true"
    ));
}

#[test]
fn signature_aware_evaluation_unfolds_transparent_and_preserves_opaque_globals() {
    let signature = Signature::default()
        .insert(Declaration::Definition(Definition::Transparent {
            name: "one".into(),
            ty: nat_type(),
            body: succ(zero()),
        }))
        .unwrap()
        .insert(Declaration::Definition(Definition::Opaque {
            name: "external_nat".into(),
            ty: nat_type(),
        }))
        .unwrap();

    let one = eval_in_signature(&global("one"), &signature, EvalConfig::default()).unwrap();
    assert_eq!(quote(&one, 0, EvalConfig::default()).unwrap(), succ(zero()));
    assert_eq!(
        infer_in_signature(&global("one"), &signature, EvalConfig::default()).unwrap(),
        nat_type()
    );
    check_in_signature(
        &global("external_nat"),
        &nat_type(),
        &signature,
        EvalConfig::default(),
    )
    .unwrap();

    let opaque =
        eval_in_signature(&global("external_nat"), &signature, EvalConfig::default()).unwrap();
    assert_eq!(
        quote(&opaque, 0, EvalConfig::default()).unwrap(),
        global("external_nat")
    );
    assert!(matches!(
        eval(&global("missing"), EvalConfig::default()),
        Err(KernelError::UnknownGlobal(name)) if name == "missing"
    ));
}

#[test]
fn closed_inductive_types_and_constructor_spines_are_checked() {
    let bool_decl = InductiveDecl {
        name: "Bool".into(),
        params: vec![],
        indices: vec![],
        universe: 0,
        constructors: vec![
            ConstructorDecl {
                name: "true".into(),
                fields: vec![],
                result_indices: vec![],
            },
            ConstructorDecl {
                name: "false".into(),
                fields: vec![],
                result_indices: vec![],
            },
        ],
    };
    let signature = Signature::default()
        .insert(Declaration::Inductive(bool_decl))
        .unwrap();
    assert_eq!(
        infer_in_signature(&global("Bool"), &signature, EvalConfig::default()).unwrap(),
        universe(0)
    );
    assert_eq!(
        infer_in_signature(&global("true"), &signature, EvalConfig::default()).unwrap(),
        global("Bool")
    );
    check_in_signature(
        &global("false"),
        &global("Bool"),
        &signature,
        EvalConfig::default(),
    )
    .unwrap();

    let boxed = InductiveDecl {
        name: "BoxNat".into(),
        params: vec![],
        indices: vec![],
        universe: 0,
        constructors: vec![ConstructorDecl {
            name: "box".into(),
            fields: vec![Binder {
                name: "value".into(),
                ty: nat_type(),
            }],
            result_indices: vec![],
        }],
    };
    let signature = signature.insert(Declaration::Inductive(boxed)).unwrap();
    let value = app(global("box"), succ(zero()));
    assert_eq!(
        infer_in_signature(&value, &signature, EvalConfig::default()).unwrap(),
        global("BoxNat")
    );
    assert_eq!(
        normalize_in_signature(&value, &signature, EvalConfig::default()).unwrap(),
        value
    );
}

#[test]
fn signature_rejects_inductive_features_outside_the_implemented_fragment() {
    let parameterized = InductiveDecl {
        name: "List".into(),
        params: vec![Binder {
            name: "A".into(),
            ty: universe(0),
        }],
        indices: vec![],
        universe: 0,
        constructors: vec![ConstructorDecl {
            name: "nil".into(),
            fields: vec![],
            result_indices: vec![],
        }],
    };
    assert!(matches!(
        Signature::default().insert(Declaration::Inductive(parameterized)),
        Err(KernelError::InvalidDeclaration(_))
    ));
}

#[test]
fn inductive_admission_rejects_ambiguous_names_before_registry_insertion() {
    let duplicate = InductiveDecl {
        name: "Choice".into(),
        params: vec![],
        indices: vec![],
        universe: 0,
        constructors: vec![
            ConstructorDecl {
                name: "pick".into(),
                fields: vec![],
                result_indices: vec![],
            },
            ConstructorDecl {
                name: "pick".into(),
                fields: vec![],
                result_indices: vec![],
            },
        ],
    };
    assert!(matches!(
        Signature::default().insert(Declaration::Inductive(duplicate)),
        Err(KernelError::InvalidInductive(
            "constructor names must be distinct"
        ))
    ));
}

#[test]
fn strict_positivity_rejects_a_recursive_name_to_the_left_of_an_arrow() {
    let bad = InductiveDecl {
        name: "Bad".into(),
        params: vec![],
        indices: vec![],
        universe: 0,
        constructors: vec![ConstructorDecl {
            name: "mk_bad".into(),
            fields: vec![Binder {
                name: "consume".into(),
                ty: pi(global("Bad"), nat_type()),
            }],
            result_indices: vec![],
        }],
    };
    assert!(matches!(
        Signature::default().insert(Declaration::Inductive(bad)),
        Err(KernelError::NonPositiveOccurrence(name)) if name == "Bad"
    ));
}
