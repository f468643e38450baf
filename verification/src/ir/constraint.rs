//! Supertype constraints over resolved names, and the instantiable sets
//! that they stand for.

use super::instantiables::operand_views;
use super::instantiables::operands_wf;
use super::instantiables::product_of_all;
use super::instantiables::selections_of_all;
use super::instantiables::sum_of_all;
use super::instantiables::Instantiables;
use super::namespace::declares;
use super::namespace::index_of;
use super::namespace::EntryView;
use super::namespace::Namespace;
use super::scope::Path;
use super::scope::PathView;
use super::scope::Scope;
use crate::error::plain_error;
use crate::error::ErrorKind;
use crate::error::ErrorView;
use crate::error::SemanticError;
use vstd::prelude::*;

verus! {

/// The expression of `SUPERTYPE OF (...)`, every name resolved to the path
/// of an entity.
#[derive(Debug, PartialEq, Eq)]
pub enum ConstraintExpr {
    /// A resolved supertype name
    Reference(Path),
    /// `ONEOF (A, B, ...)`: mutually exclusive alternatives
    OneOf(Vec<ConstraintExpr>),
    /// `A AND B ...`: simultaneous instantiation
    And(Vec<ConstraintExpr>),
    /// `A ANDOR B ...`: any non-empty subset may be instantiated together
    AndOr(Vec<ConstraintExpr>),
}

/// A constraint as plain values.
pub enum ConstraintView {
    Reference(PathView),
    OneOf(Seq<ConstraintView>),
    And(Seq<ConstraintView>),
    AndOr(Seq<ConstraintView>),
}

/// The first `n` constraints of a sequence as plain values.
pub open spec fn constraint_views(s: Seq<ConstraintExpr>, n: nat) -> Seq<ConstraintView>
    decreases s, n,
{
    if n == 0 || n > s.len() {
        Seq::empty()
    } else {
        constraint_views(s, (n - 1) as nat).push(s[n - 1]@)
    }
}

impl View for ConstraintExpr {
    type V = ConstraintView;

    open spec fn view(&self) -> ConstraintView
        decreases self,
    {
        match self {
            ConstraintExpr::Reference(path) => ConstraintView::Reference(path@),
            ConstraintExpr::OneOf(exprs) => ConstraintView::OneOf(
                constraint_views(exprs@, exprs@.len()),
            ),
            ConstraintExpr::And(exprs) => ConstraintView::And(
                constraint_views(exprs@, exprs@.len()),
            ),
            ConstraintExpr::AndOr(exprs) => ConstraintView::AndOr(
                constraint_views(exprs@, exprs@.len()),
            ),
        }
    }
}

/// The diagnostic for a constraint without operands.
pub open spec fn empty_constraint_error() -> ErrorView {
    plain_error(ErrorKind::EmptyConstraint, Seq::empty(), Seq::empty())
}

/// The diagnostic for an `AND` of one operand, which is to be written as
/// that operand alone.
pub open spec fn lone_operand_error() -> ErrorView {
    plain_error(ErrorKind::Internal, Seq::empty(), Seq::empty())
}

/// The instantiable sets of the first `n` operands, or the diagnostic of
/// the first operand that has one.
pub open spec fn evaluated_all(
    ns: Seq<EntryView>,
    es: Seq<ConstraintView>,
    n: nat,
) -> Result<Seq<Seq<Seq<usize>>>, ErrorView>
    decreases es, n,
{
    if n == 0 || n > es.len() {
        Ok(Seq::empty())
    } else {
        match evaluated_all(ns, es, (n - 1) as nat) {
            Err(x) => Err(x),
            Ok(fs) => match evaluated(ns, es[n - 1]) {
                Err(x) => Err(x),
                Ok(f) => Ok(fs.push(f)),
            },
        }
    }
}

/// The instantiable set that a constraint stands for in the namespace `ns`.
///
/// A reference stands for the single alternative of the entity alone;
/// `ONEOF`, `AND` and `ANDOR` combine what their operands stand for. An
/// undeclared path is `Unresolved`; an operator without operands is an
/// `EmptyConstraint`; an `AND` of one operand is `Internal`. The
/// diagnostic of an operand comes before that of its operator, and that of
/// an earlier operand before that of a later one.
pub open spec fn evaluated(ns: Seq<EntryView>, e: ConstraintView) -> Result<
    Seq<Seq<usize>>,
    ErrorView,
>
    decreases e, 0nat,
{
    match e {
        ConstraintView::Reference(p) => if declares(ns, p) {
            Ok(seq![seq![index_of(ns, p) as usize]])
        } else {
            Err(plain_error(ErrorKind::Unresolved, p.scope, p.name))
        },
        ConstraintView::OneOf(es) => match evaluated_all(ns, es, es.len()) {
            Err(x) => Err(x),
            Ok(fs) => if es.len() == 0 {
                Err(empty_constraint_error())
            } else {
                Ok(sum_of_all(fs))
            },
        },
        ConstraintView::And(es) => match evaluated_all(ns, es, es.len()) {
            Err(x) => Err(x),
            Ok(fs) => if es.len() == 0 {
                Err(empty_constraint_error())
            } else if es.len() == 1 {
                Err(lone_operand_error())
            } else {
                Ok(product_of_all(fs))
            },
        },
        ConstraintView::AndOr(es) => match evaluated_all(ns, es, es.len()) {
            Err(x) => Err(x),
            Ok(fs) => if es.len() == 0 {
                Err(empty_constraint_error())
            } else {
                Ok(selections_of_all(fs))
            },
        },
    }
}

impl Instantiables {
    /// The instantiable sets of the operands `exprs`, or the diagnostic of
    /// the first that has one.
    fn from_constraint_exprs(ns: &Namespace, exprs: &Vec<ConstraintExpr>) -> (r: Result<
        Vec<Self>,
        SemanticError,
    >)
        ensures
            match evaluated_all(ns@, constraint_views(exprs@, exprs@.len()), exprs@.len()) {
                Ok(fs) => r is Ok && operand_views(r->Ok_0@) == fs && operands_wf(fs)
                    && fs.len() == exprs@.len(),
                Err(x) => r is Err && r->Err_0@ == x,
            },
        decreases exprs,
    {
        let ghost es = constraint_views(exprs@, exprs@.len());
        let mut out: Vec<Self> = Vec::new();
        let mut i: usize = 0;
        proof {
            assert(operand_views(out@) =~= Seq::<Seq<Seq<usize>>>::empty());
            lemma_constraint_views(exprs@, exprs@.len());
        }
        while i < exprs.len()
            invariant
                i <= exprs.len(),
                es == constraint_views(exprs@, exprs@.len()),
                es.len() == exprs@.len(),
                forall|k: int| 0 <= k < es.len() ==> es[k] == (#[trigger] exprs@[k])@,
                evaluated_all(ns@, es, i as nat) == Ok::<Seq<Seq<Seq<usize>>>, ErrorView>(
                    operand_views(out@),
                ),
                operands_wf(operand_views(out@)),
                out@.len() == i,
            decreases exprs.len() - i,
        {
            let ghost prior = out@;
            proof {
                assert(es[i as int] == exprs@[i as int]@);
            }
            match Self::from_constraint_expr(ns, &exprs[i]) {
                Err(x) => {
                    proof {
                        lemma_evaluated_all_err(ns@, es, (i + 1) as nat, exprs@.len());
                    }
                    return Err(x);
                },
                Ok(p) => {
                    out.push(p);
                    proof {
                        assert(operand_views(out@) =~= operand_views(prior).push(p@));
                    }
                },
            }
            i += 1;
        }
        Ok(out)
    }

    /// The instantiable set that the constraint `expr` stands for.
    ///
    /// A reference to a declared path gives the single alternative of its
    /// index; `ONEOF`, `AND` and `ANDOR` combine their operands with
    /// [`Instantiables::oneof`], [`Instantiables::and`] and
    /// [`Instantiables::andor`]. A reference to an undeclared path, an
    /// operator without operands and an `AND` of one operand are answered
    /// with a diagnostic, as [`evaluated`] says.
    pub fn from_constraint_expr(ns: &Namespace, expr: &ConstraintExpr) -> (r: Result<
        Self,
        SemanticError,
    >)
        ensures
            match evaluated(ns@, expr@) {
                Ok(v) => r is Ok && r->Ok_0@ == v && r->Ok_0.wf(),
                Err(x) => r is Err && r->Err_0@ == x,
            },
        decreases expr,
    {
        proof {
            reveal_strlit("");
            assert(""@ =~= Seq::<char>::empty());
        }
        match expr {
            ConstraintExpr::Reference(path) => {
                proof {
                    assert(expr@ == ConstraintView::Reference(path@));
                }
                match ns.get(path) {
                    Ok((_ast, index)) => Ok(Self::single(index)),
                    Err(x) => Err(x),
                }
            },
            ConstraintExpr::OneOf(exprs) => {
                proof {
                    lemma_constraint_views(exprs@, exprs@.len());
                    assert(expr@ == ConstraintView::OneOf(constraint_views(exprs@, exprs@.len())));
                }
                match Self::from_constraint_exprs(ns, exprs) {
                    Err(x) => Err(x),
                    Ok(parts) => {
                        if parts.len() == 0 {
                            Err(SemanticError::new(ErrorKind::EmptyConstraint, &Scope::root(), ""))
                        } else {
                            Ok(Self::oneof(parts))
                        }
                    },
                }
            },
            ConstraintExpr::And(exprs) => {
                proof {
                    lemma_constraint_views(exprs@, exprs@.len());
                    assert(expr@ == ConstraintView::And(constraint_views(exprs@, exprs@.len())));
                }
                match Self::from_constraint_exprs(ns, exprs) {
                    Err(x) => Err(x),
                    Ok(terms) => {
                        if terms.len() == 0 {
                            Err(SemanticError::new(ErrorKind::EmptyConstraint, &Scope::root(), ""))
                        } else if terms.len() == 1 {
                            Err(SemanticError::new(ErrorKind::Internal, &Scope::root(), ""))
                        } else {
                            Ok(Self::and(terms))
                        }
                    },
                }
            },
            ConstraintExpr::AndOr(exprs) => {
                proof {
                    lemma_constraint_views(exprs@, exprs@.len());
                    assert(expr@ == ConstraintView::AndOr(constraint_views(exprs@, exprs@.len())));
                }
                match Self::from_constraint_exprs(ns, exprs) {
                    Err(x) => Err(x),
                    Ok(factors) => {
                        if factors.len() == 0 {
                            Err(SemanticError::new(ErrorKind::EmptyConstraint, &Scope::root(), ""))
                        } else {
                            Ok(Self::andor(factors))
                        }
                    },
                }
            },
        }
    }
}

/// The views of all constraints of a sequence, one for one.
pub proof fn lemma_constraint_views(s: Seq<ConstraintExpr>, n: nat)
    requires
        n <= s.len(),
    ensures
        constraint_views(s, n).len() == n,
        forall|k: int| 0 <= k < n ==> constraint_views(s, n)[k] == (#[trigger] s[k])@,
    decreases n,
{
    if n > 0 {
        lemma_constraint_views(s, (n - 1) as nat);
        assert(constraint_views(s, n) == constraint_views(s, (n - 1) as nat).push(s[n - 1]@));
    } else {
        assert(constraint_views(s, n) == Seq::<ConstraintView>::empty());
    }
}

/// Once an operand has a diagnostic, so have all longer runs of operands, the same one.
pub proof fn lemma_evaluated_all_err(
    ns: Seq<EntryView>,
    es: Seq<ConstraintView>,
    n: nat,
    m: nat,
)
    requires
        evaluated_all(ns, es, n) is Err,
        n <= m <= es.len(),
    ensures
        evaluated_all(ns, es, m) == evaluated_all(ns, es, n),
    decreases m,
{
    if n < m {
        lemma_evaluated_all_err(ns, es, n, (m - 1) as nat);
    }
}

} // verus!
