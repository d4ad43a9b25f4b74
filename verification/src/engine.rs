//! The reduction engine: the outside term representation and the call that
//! beta-normalizes a term.

use vstd::prelude::*;

verus! {

#[verifier::external_type_specification]
#[verifier::external_body]
pub struct ExLcTerm(lambda_calculus::term::Term);

/// The beta-normal form of a term, as the reduction engine computes it: a
/// function of the term alone, since the engine is deterministic and its
/// reduction confluent.
pub uninterp spec fn normal_form_of(t: crate::expr::Expr) -> crate::expr::Expr;

/// Relies on lambda_calculus::term::{abs, app} and its Expr::Var: the body
/// rebuilds the same tree, node for node, in the outside representation.
#[verifier::external_body]
fn to_foreign(t: &crate::expr::Expr) -> lambda_calculus::term::Term {
    match t {
        crate::expr::Expr::Var(i) => lambda_calculus::term::Term::Var(*i),
        crate::expr::Expr::Abs(body) => lambda_calculus::term::abs(to_foreign(body)),
        crate::expr::Expr::App(f, a) => lambda_calculus::term::app(to_foreign(f), to_foreign(a)),
    }
}

/// Relies on lambda_calculus::term::Term: the body reads the outside tree
/// back, node for node.
#[verifier::external_body]
fn from_foreign(t: lambda_calculus::term::Term) -> crate::expr::Expr {
    match t {
        lambda_calculus::term::Term::Var(i) => crate::expr::Expr::Var(i),
        lambda_calculus::term::Term::Abs(body) => crate::expr::Expr::Abs(
            Box::new(from_foreign(*body)),
        ),
        lambda_calculus::term::Term::App(pair) => {
            let (f, a) = *pair;
            crate::expr::Expr::App(Box::new(from_foreign(f)), Box::new(from_foreign(a)))
        },
    }
}

/// Relies on lambda_calculus::reduction::beta with the normal order and no
/// step limit: it beta-normalizes the term, deterministically, depending on
/// the term alone; on a diverging program it does not return.
#[verifier::external_body]
pub(crate) fn normalize(t: &crate::expr::Expr) -> (r: crate::expr::Expr)
    ensures
        r == normal_form_of(*t),
{
    from_foreign(
        lambda_calculus::reduction::beta(to_foreign(t), lambda_calculus::reduction::Order::NOR, 0),
    )
}

} // verus!
