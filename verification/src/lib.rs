//! Eagle: the trusted kernel of a small Martin-Löf type theory.
//!
//! Core terms (`syntax`) are evaluated into semantic values (`semantic`,
//! `eval`), read back into normal forms (`quote`), and type checked
//! bidirectionally with conversion by normalization (`check`).  Global
//! definitions and closed inductive types live in a persistent, validated
//! registry (`signature`, `inductive`).  Every operation runs on an explicit
//! fuel budget; running out is reported as `KernelError::OutOfFuel`.
pub mod check;
pub mod error;
pub mod eval;
pub mod inductive;
pub mod quote;
pub mod readback;
pub mod semantic;
pub mod signature;
pub mod syntax;
mod teardown_std;

pub use check::{
    check, check_in_signature, check_with_config, infer, infer_in_signature, infer_with_config,
    universes_below_top,
};
pub use error::KernelError;
pub use eval::{eval, eval_in_signature, EvalConfig};
pub use inductive::{Binder, ConstructorDecl, InductiveDecl};
pub use quote::{normalize, normalize_in_signature, normalize_with_config, quote, quote_neutral};
pub use semantic::{Closure, Env, EnvNode, Neutral, Val, Value};
pub use signature::{declaration_universes_below_top, Declaration, Definition, Signature};
pub use syntax::{
    app, global, lam, nat_type, pair, pi, sigma, succ, universe, var, zero, Expr, Term,
};
