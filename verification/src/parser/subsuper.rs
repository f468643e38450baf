//! The subtype and supertype declarations of an entity head.

use super::is_at;
use super::sp;
use super::span;
use super::spec_simple_id;
use super::word_at;
use super::Source;
use crate::ast::lemma_supertype_views_push;
use crate::ast::reference_views;
use crate::ast::supertype_views;
use crate::ast::Place;
use crate::ast::Reference;
use crate::ast::ReferenceView;
use crate::ast::SupertypeExpression;
use crate::ast::SupertypeView;
use vstd::prelude::*;

verus! {

/// An identifier at `pos`, as a reference.
pub open spec fn spec_reference(s: Seq<char>, pos: int) -> Result<(ReferenceView, int), int> {
    match spec_simple_id(s, pos) {
        Ok((name, end)) => Ok((ReferenceView { name, span: span(pos, end) }, end)),
        Err(at) => Err(at),
    }
}

/// `{ , entity_ref }`
pub open spec fn spec_more_references(s: Seq<char>, pos: int) -> (Seq<ReferenceView>, int)
    decreases s.len() - pos,
{
    let p1 = sp(s, pos);
    if 0 <= pos <= p1 && is_at(s, p1, ',') {
        match spec_reference(s, sp(s, p1 + 1)) {
            Ok((r, end)) => if pos < end <= s.len() {
                (seq![r] + spec_more_references(s, end).0, spec_more_references(s, end).1)
            } else {
                (Seq::empty(), pos)
            },
            Err(_) => (Seq::empty(), pos),
        }
    } else {
        (Seq::empty(), pos)
    }
}

/// `( entity_ref { , entity_ref } )`
pub open spec fn spec_references(s: Seq<char>, pos: int) -> Result<(Seq<ReferenceView>, int), int> {
    if !is_at(s, pos, '(') {
        Err(pos)
    } else {
        match spec_reference(s, sp(s, pos + 1)) {
            Err(at) => Err(at),
            Ok((first, p1)) => {
                let (more, p2) = spec_more_references(s, p1);
                let p3 = sp(s, p2);
                if is_at(s, p3, ')') {
                    Ok((seq![first] + more, p3 + 1))
                } else {
                    Err(p3)
                }
            },
        }
    }
}

/// 322 supertype_term = entity_ref | one_of | `(` supertype_expression `)` .
///
/// 263 one_of = ONEOF `(` supertype_expression { `,` supertype_expression } `)` .
pub open spec fn spec_term(s: Seq<char>, pos: int) -> Result<(SupertypeView, int), int>
    decreases s.len() - pos, 0int,
{
    if word_at(s, pos, "ONEOF"@) {
        let p1 = sp(s, pos + "ONEOF"@.len());
        if !is_at(s, p1, '(') {
            Err(p1)
        } else {
            let p2 = sp(s, p1 + 1);
            if !(pos < p2 <= s.len()) {
                Err(p2)
            } else {
                match spec_expression(s, p2) {
                    Err(at) => Err(at),
                    Ok((first, p3)) => if !(pos < p3 <= s.len()) {
                        Err(p3)
                    } else {
                        let (more, p4) = spec_more_expressions(s, p3);
                        let p5 = sp(s, p4);
                        if is_at(s, p5, ')') {
                            Ok((SupertypeView::OneOf(seq![first] + more, span(pos, p5 + 1)), p5 + 1))
                        } else {
                            Err(p5)
                        }
                    },
                }
            }
        }
    } else if is_at(s, pos, '(') {
        let p1 = sp(s, pos + 1);
        if !(pos < p1 <= s.len()) {
            Err(p1)
        } else {
            match spec_expression(s, p1) {
                Err(at) => Err(at),
                Ok((e, p2)) => {
                    let p3 = sp(s, p2);
                    if is_at(s, p3, ')') {
                        Ok((e, p3 + 1))
                    } else {
                        Err(p3)
                    }
                },
            }
        }
    } else {
        match spec_reference(s, pos) {
            Ok((r, end)) => Ok((SupertypeView::Reference(r), end)),
            Err(at) => Err(at),
        }
    }
}

/// `{ , supertype_expression }`
pub open spec fn spec_more_expressions(s: Seq<char>, pos: int) -> (Seq<SupertypeView>, int)
    decreases s.len() - pos, 3int,
{
    let p1 = sp(s, pos);
    if 0 <= pos <= p1 && is_at(s, p1, ',') {
        let p2 = sp(s, p1 + 1);
        if !(pos < p2 <= s.len()) {
            (Seq::empty(), pos)
        } else {
            match spec_expression(s, p2) {
                Ok((e, end)) => if pos < end <= s.len() {
                    (seq![e] + spec_more_expressions(s, end).0, spec_more_expressions(s, end).1)
                } else {
                    (Seq::empty(), pos)
                },
                Err(_) => (Seq::empty(), pos),
            }
        }
    } else {
        (Seq::empty(), pos)
    }
}

/// `{ AND supertype_term }`
pub open spec fn spec_more_terms(s: Seq<char>, pos: int) -> (Seq<SupertypeView>, int)
    decreases s.len() - pos, 3int,
{
    let p1 = sp(s, pos);
    if 0 <= pos <= p1 && word_at(s, p1, "AND"@) {
        let p2 = sp(s, p1 + "AND"@.len());
        if !(pos < p2 <= s.len()) {
            (Seq::empty(), pos)
        } else {
            match spec_term(s, p2) {
                Ok((t, end)) => if pos < end <= s.len() {
                    (seq![t] + spec_more_terms(s, end).0, spec_more_terms(s, end).1)
                } else {
                    (Seq::empty(), pos)
                },
                Err(_) => (Seq::empty(), pos),
            }
        }
    } else {
        (Seq::empty(), pos)
    }
}

/// 321 supertype_factor = supertype_term { AND supertype_term } .
///
/// One term alone stands for itself.
pub open spec fn spec_factor(s: Seq<char>, pos: int) -> Result<(SupertypeView, int), int>
    decreases s.len() - pos, 1int,
{
    match spec_term(s, pos) {
        Err(at) => Err(at),
        Ok((first, p1)) => if !(pos < p1 <= s.len()) {
            Ok((first, p1))
        } else {
            let (more, p2) = spec_more_terms(s, p1);
            if more.len() == 0 {
                Ok((first, p1))
            } else {
                Ok((SupertypeView::And(seq![first] + more, span(pos, p2)), p2))
            }
        },
    }
}

/// `{ ANDOR supertype_factor }`
pub open spec fn spec_more_factors(s: Seq<char>, pos: int) -> (Seq<SupertypeView>, int)
    decreases s.len() - pos, 3int,
{
    let p1 = sp(s, pos);
    if 0 <= pos <= p1 && word_at(s, p1, "ANDOR"@) {
        let p2 = sp(s, p1 + "ANDOR"@.len());
        if !(pos < p2 <= s.len()) {
            (Seq::empty(), pos)
        } else {
            match spec_factor(s, p2) {
                Ok((f, end)) => if pos < end <= s.len() {
                    (seq![f] + spec_more_factors(s, end).0, spec_more_factors(s, end).1)
                } else {
                    (Seq::empty(), pos)
                },
                Err(_) => (Seq::empty(), pos),
            }
        }
    } else {
        (Seq::empty(), pos)
    }
}

/// 320 supertype_expression = supertype_factor { ANDOR supertype_factor } .
///
/// One factor alone stands for itself.
pub open spec fn spec_expression(s: Seq<char>, pos: int) -> Result<(SupertypeView, int), int>
    decreases s.len() - pos, 2int,
{
    match spec_factor(s, pos) {
        Err(at) => Err(at),
        Ok((first, p1)) => if !(pos < p1 <= s.len()) {
            Ok((first, p1))
        } else {
            let (more, p2) = spec_more_factors(s, p1);
            if more.len() == 0 {
                Ok((first, p1))
            } else {
                Ok((SupertypeView::AndOr(seq![first] + more, span(pos, p2)), p2))
            }
        },
    }
}

/// 310 subtype_constraint = OF `(` supertype_expression `)` .
pub open spec fn spec_subtype_constraint(s: Seq<char>, pos: int) -> Result<
    (SupertypeView, int),
    int,
> {
    if !word_at(s, pos, "OF"@) {
        Err(pos)
    } else {
        let p1 = sp(s, pos + "OF"@.len());
        if !is_at(s, p1, '(') {
            Err(p1)
        } else {
            match spec_expression(s, sp(s, p1 + 1)) {
                Err(at) => Err(at),
                Ok((e, p2)) => {
                    let p3 = sp(s, p2);
                    if is_at(s, p3, ')') {
                        Ok((e, p3 + 1))
                    } else {
                        Err(p3)
                    }
                },
            }
        }
    }
}

/// What an entity head says of supertypes and subtypes.
pub struct SubSuperView {
    pub is_abstract: bool,
    pub constraint: Option<SupertypeView>,
    pub subtype_of: Seq<ReferenceView>,
}

/// 319 supertype_constraint = abstract_entity_declaration | abstract_supertype_declaration | supertype_rule .
///
/// `ABSTRACT`, `ABSTRACT SUPERTYPE`, each with or without a constraint,
/// or `SUPERTYPE` with one: whether the entity is abstract, the
/// constraint, and where the declaration ends. `None` if none stands at `pos`.
pub open spec fn spec_supertype_constraint(s: Seq<char>, pos: int) -> Option<
    (bool, Option<SupertypeView>, int),
> {
    if word_at(s, pos, "ABSTRACT"@) {
        let p1 = pos + "ABSTRACT"@.len();
        let p2 = sp(s, p1);
        if word_at(s, p2, "SUPERTYPE"@) {
            let p3 = p2 + "SUPERTYPE"@.len();
            match spec_subtype_constraint(s, sp(s, p3)) {
                Ok((e, p4)) => Some((true, Some(e), p4)),
                Err(_) => Some((true, None, p3)),
            }
        } else {
            Some((true, None, p1))
        }
    } else if word_at(s, pos, "SUPERTYPE"@) {
        match spec_subtype_constraint(s, sp(s, pos + "SUPERTYPE"@.len())) {
            Ok((e, p1)) => Some((false, Some(e), p1)),
            Err(_) => None,
        }
    } else {
        None
    }
}

/// 318 subtype_declaration = SUBTYPE OF `(` entity_ref { `,` entity_ref } `)` .
pub open spec fn spec_subtype_declaration(s: Seq<char>, pos: int) -> Option<
    (Seq<ReferenceView>, int),
> {
    if !word_at(s, pos, "SUBTYPE"@) {
        None
    } else {
        let p1 = sp(s, pos + "SUBTYPE"@.len());
        if !word_at(s, p1, "OF"@) {
            None
        } else {
            match spec_references(s, sp(s, p1 + "OF"@.len())) {
                Ok((refs, end)) => Some((refs, end)),
                Err(_) => None,
            }
        }
    }
}

/// 312 subsuper = \[ supertype_constraint \] \[ subtype_declaration \] .
///
/// What stands behind the name of an entity, from `pos` on; where
/// neither declaration is there, nothing is consumed.
pub open spec fn spec_subsuper(s: Seq<char>, pos: int) -> (SubSuperView, int) {
    let (is_abstract, constraint, p1) = match spec_supertype_constraint(s, sp(s, pos)) {
        Some(x) => x,
        None => (false, None, pos),
    };
    let (subtype_of, p2) = match spec_subtype_declaration(s, sp(s, p1)) {
        Some(x) => x,
        None => (Seq::empty(), p1),
    };
    (SubSuperView { is_abstract, constraint, subtype_of }, p2)
}

/// What an entity head says of supertypes and subtypes.
pub struct SubSuper {
    pub is_abstract: bool,
    pub constraint: Option<SupertypeExpression>,
    pub subtype_of: Vec<Reference>,
}

impl View for SubSuper {
    type V = SubSuperView;

    open spec fn view(&self) -> SubSuperView {
        SubSuperView {
            is_abstract: self.is_abstract,
            constraint: match self.constraint {
                Some(e) => Some(e@),
                None => None,
            },
            subtype_of: reference_views(self.subtype_of@),
        }
    }
}

/// The views after a push are the views before it, and the view of what was pushed.
pub proof fn lemma_reference_views_push(a: Seq<Reference>, r: Reference)
    ensures
        reference_views(a.push(r)) == reference_views(a).push(r@),
{
    assert(reference_views(a.push(r)) =~= reference_views(a).push(r@));
}

impl<'a> Source<'a> {
    /// An identifier at `pos`, as a reference.
    pub fn reference_at(&self, pos: usize) -> (r: Result<(Reference, usize), usize>)
        ensures
            match spec_reference(self@, pos as int) {
                Ok((v, end)) => r matches Ok(x) && x.0@ == v && x.1 == end && pos < end
                    <= self@.len(),
                Err(at) => r matches Err(e) && e == at,
            },
    {
        match self.simple_id_at(pos) {
            Ok((name, end)) => Ok((Reference { name, span: Place::new(pos, end) }, end)),
            Err(at) => Err(at),
        }
    }

    /// `{ , entity_ref }` at `pos`: puts the references behind `refs`.
    fn more_references_at(&self, pos: usize, refs: &mut Vec<Reference>) -> (end: usize)
        requires
            pos <= self@.len(),
        ensures
            reference_views(final(refs)@) == reference_views(old(refs)@) + spec_more_references(
                self@,
                pos as int,
            ).0,
            end == spec_more_references(self@, pos as int).1,
            pos <= end <= self@.len(),
        decreases self@.len() - pos,
    {
        let ghost before = reference_views(refs@);
        proof {
            assert(before + Seq::<ReferenceView>::empty() =~= before);
        }
        let p1 = self.skip(pos);
        if !self.is_at(p1, ',') {
            return pos;
        }
        let p2 = self.skip(p1 + 1);
        match self.reference_at(p2) {
            Err(_) => pos,
            Ok((r, end)) => {
                let ghost rv = r@;
                let ghost old_refs = refs@;
                refs.push(r);
                proof {
                    lemma_reference_views_push(old_refs, r);
                }
                let last = self.more_references_at(end, refs);
                proof {
                    let rest = spec_more_references(self@, end as int).0;
                    assert(before.push(rv) + rest =~= before + (seq![rv] + rest));
                }
                last
            },
        }
    }

    /// `( entity_ref { , entity_ref } )` at `pos`.
    pub fn references_at(&self, pos: usize) -> (r: Result<(Vec<Reference>, usize), usize>)
        ensures
            match spec_references(self@, pos as int) {
                Ok((v, end)) => r matches Ok(x) && reference_views(x.0@) == v && x.1 == end && pos
                    < end <= self@.len(),
                Err(at) => r matches Err(e) && e == at,
            },
    {
        if !self.is_at(pos, '(') {
            return Err(pos);
        }
        let p0 = self.skip(pos + 1);
        match self.reference_at(p0) {
            Err(at) => Err(at),
            Ok((first, p1)) => {
                let ghost fv = first@;
                let mut refs: Vec<Reference> = Vec::new();
                refs.push(first);
                proof {
                    assert(reference_views(refs@) =~= seq![fv]);
                }
                let p2 = self.more_references_at(p1, &mut refs);
                let p3 = self.skip(p2);
                if self.is_at(p3, ')') {
                    Ok((refs, p3 + 1))
                } else {
                    Err(p3)
                }
            },
        }
    }

    /// A supertype term at `pos`.
    fn term_at(&self, pos: usize) -> (r: Result<(SupertypeExpression, usize), usize>)
        ensures
            match spec_term(self@, pos as int) {
                Ok((v, end)) => r matches Ok(x) && x.0@ == v && x.1 == end && pos < end
                    <= self@.len(),
                Err(at) => r matches Err(e) && e == at,
            },
        decreases self@.len() - pos, 0int,
    {
        if let Some(after) = self.keyword(pos, "ONEOF") {
            let p1 = self.skip(after);
            if !self.is_at(p1, '(') {
                return Err(p1);
            }
            let p2 = self.skip(p1 + 1);
            match self.expression_at(p2) {
                Err(at) => Err(at),
                Ok((first, p3)) => {
                    let ghost fv = first@;
                    let mut operands: Vec<SupertypeExpression> = Vec::new();
                    operands.push(first);
                    proof {
                        lemma_supertype_views_push(Seq::<SupertypeExpression>::empty(), first);
                        assert(Seq::<SupertypeExpression>::empty().push(first) =~= operands@);
                        assert(supertype_views(operands@, operands@.len()) =~= seq![fv]);
                    }
                    let p4 = self.more_expressions_at(p3, &mut operands);
                    let p5 = self.skip(p4);
                    if self.is_at(p5, ')') {
                        Ok((SupertypeExpression::OneOf(operands, Place::new(pos, p5 + 1)), p5 + 1))
                    } else {
                        Err(p5)
                    }
                },
            }
        } else if self.is_at(pos, '(') {
            let p1 = self.skip(pos + 1);
            match self.expression_at(p1) {
                Err(at) => Err(at),
                Ok((e, p2)) => {
                    let p3 = self.skip(p2);
                    if self.is_at(p3, ')') {
                        Ok((e, p3 + 1))
                    } else {
                        Err(p3)
                    }
                },
            }
        } else {
            match self.reference_at(pos) {
                Ok((r, end)) => Ok((SupertypeExpression::Reference(r), end)),
                Err(at) => Err(at),
            }
        }
    }

    /// `{ , supertype_expression }` at `pos`: puts the expressions behind `out`.
    fn more_expressions_at(&self, pos: usize, out: &mut Vec<SupertypeExpression>) -> (end: usize)
        requires
            pos <= self@.len(),
        ensures
            supertype_views(final(out)@, final(out)@.len()) == supertype_views(
                old(out)@,
                old(out)@.len(),
            ) + spec_more_expressions(self@, pos as int).0,
            end == spec_more_expressions(self@, pos as int).1,
            pos <= end <= self@.len(),
        decreases self@.len() - pos, 3int,
    {
        let ghost before = supertype_views(out@, out@.len());
        proof {
            assert(before + Seq::<SupertypeView>::empty() =~= before);
        }
        let p1 = self.skip(pos);
        if !self.is_at(p1, ',') {
            return pos;
        }
        let p2 = self.skip(p1 + 1);
        match self.expression_at(p2) {
            Err(_) => pos,
            Ok((e, end)) => {
                let ghost ev = e@;
                let ghost old_out = out@;
                out.push(e);
                proof {
                    lemma_supertype_views_push(old_out, e);
                }
                let last = self.more_expressions_at(end, out);
                proof {
                    let rest = spec_more_expressions(self@, end as int).0;
                    assert(before.push(ev) + rest =~= before + (seq![ev] + rest));
                }
                last
            },
        }
    }

    /// `{ AND supertype_term }` at `pos`: puts the terms behind `out`.
    fn more_terms_at(&self, pos: usize, out: &mut Vec<SupertypeExpression>) -> (end: usize)
        requires
            pos <= self@.len(),
        ensures
            supertype_views(final(out)@, final(out)@.len()) == supertype_views(
                old(out)@,
                old(out)@.len(),
            ) + spec_more_terms(self@, pos as int).0,
            final(out)@.len() == old(out)@.len() + spec_more_terms(self@, pos as int).0.len(),
            end == spec_more_terms(self@, pos as int).1,
            pos <= end <= self@.len(),
        decreases self@.len() - pos, 3int,
    {
        let ghost before = supertype_views(out@, out@.len());
        proof {
            assert(before + Seq::<SupertypeView>::empty() =~= before);
        }
        proof {
            reveal_strlit("AND");
        }
        let p1 = self.skip(pos);
        let after = match self.keyword(p1, "AND") {
            None => {
                return pos;
            },
            Some(after) => after,
        };
        let p2 = self.skip(after);
        match self.term_at(p2) {
            Err(_) => pos,
            Ok((t, end)) => {
                let ghost tv = t@;
                let ghost old_out = out@;
                out.push(t);
                proof {
                    lemma_supertype_views_push(old_out, t);
                }
                let last = self.more_terms_at(end, out);
                proof {
                    let rest = spec_more_terms(self@, end as int).0;
                    assert(before.push(tv) + rest =~= before + (seq![tv] + rest));
                }
                last
            },
        }
    }

    /// A supertype factor at `pos`.
    fn factor_at(&self, pos: usize) -> (r: Result<(SupertypeExpression, usize), usize>)
        ensures
            match spec_factor(self@, pos as int) {
                Ok((v, end)) => r matches Ok(x) && x.0@ == v && x.1 == end && pos < end
                    <= self@.len(),
                Err(at) => r matches Err(e) && e == at,
            },
        decreases self@.len() - pos, 1int,
    {
        match self.term_at(pos) {
            Err(at) => Err(at),
            Ok((first, p1)) => {
                let ghost fv = first@;
                let mut rest: Vec<SupertypeExpression> = Vec::new();
                proof {
                    assert(supertype_views(rest@, rest@.len()) =~= Seq::<SupertypeView>::empty());
                }
                let p2 = self.more_terms_at(p1, &mut rest);
                if rest.len() == 0 {
                    Ok((first, p1))
                } else {
                    let ghost more = supertype_views(rest@, rest@.len());
                    let ghost tail = rest@;
                    rest.insert(0, first);
                    proof {
                        assert(Seq::<SupertypeView>::empty() + spec_more_terms(self@, p1 as int).0
                            =~= spec_more_terms(self@, p1 as int).0);
                        lemma_supertype_views_insert_first(tail, first);
                        assert(rest@ =~= tail.insert(0, first));
                    }
                    Ok((SupertypeExpression::And(rest, Place::new(pos, p2)), p2))
                }
            },
        }
    }

    /// `{ ANDOR supertype_factor }` at `pos`: puts the factors behind `out`.
    fn more_factors_at(&self, pos: usize, out: &mut Vec<SupertypeExpression>) -> (end: usize)
        requires
            pos <= self@.len(),
        ensures
            supertype_views(final(out)@, final(out)@.len()) == supertype_views(
                old(out)@,
                old(out)@.len(),
            ) + spec_more_factors(self@, pos as int).0,
            final(out)@.len() == old(out)@.len() + spec_more_factors(self@, pos as int).0.len(),
            end == spec_more_factors(self@, pos as int).1,
            pos <= end <= self@.len(),
        decreases self@.len() - pos, 3int,
    {
        let ghost before = supertype_views(out@, out@.len());
        proof {
            assert(before + Seq::<SupertypeView>::empty() =~= before);
        }
        proof {
            reveal_strlit("ANDOR");
        }
        let p1 = self.skip(pos);
        let after = match self.keyword(p1, "ANDOR") {
            None => {
                return pos;
            },
            Some(after) => after,
        };
        let p2 = self.skip(after);
        match self.factor_at(p2) {
            Err(_) => pos,
            Ok((f, end)) => {
                let ghost fv = f@;
                let ghost old_out = out@;
                out.push(f);
                proof {
                    lemma_supertype_views_push(old_out, f);
                }
                let last = self.more_factors_at(end, out);
                proof {
                    let rest = spec_more_factors(self@, end as int).0;
                    assert(before.push(fv) + rest =~= before + (seq![fv] + rest));
                }
                last
            },
        }
    }

    /// A supertype expression at `pos`.
    pub fn expression_at(&self, pos: usize) -> (r: Result<(SupertypeExpression, usize), usize>)
        ensures
            match spec_expression(self@, pos as int) {
                Ok((v, end)) => r matches Ok(x) && x.0@ == v && x.1 == end && pos < end
                    <= self@.len(),
                Err(at) => r matches Err(e) && e == at,
            },
        decreases self@.len() - pos, 2int,
    {
        match self.factor_at(pos) {
            Err(at) => Err(at),
            Ok((first, p1)) => {
                let mut rest: Vec<SupertypeExpression> = Vec::new();
                proof {
                    assert(supertype_views(rest@, rest@.len()) =~= Seq::<SupertypeView>::empty());
                }
                let p2 = self.more_factors_at(p1, &mut rest);
                if rest.len() == 0 {
                    Ok((first, p1))
                } else {
                    let ghost tail = rest@;
                    rest.insert(0, first);
                    proof {
                        assert(Seq::<SupertypeView>::empty() + spec_more_factors(
                            self@,
                            p1 as int,
                        ).0 =~= spec_more_factors(self@, p1 as int).0);
                        lemma_supertype_views_insert_first(tail, first);
                        assert(rest@ =~= tail.insert(0, first));
                    }
                    Ok((SupertypeExpression::AndOr(rest, Place::new(pos, p2)), p2))
                }
            },
        }
    }
}

/// The views after an insertion at the front are the view of what was
/// inserted, and the views before it.
pub proof fn lemma_supertype_views_insert_first(s: Seq<SupertypeExpression>, e: SupertypeExpression)
    ensures
        supertype_views(s.insert(0, e), s.len() + 1) == seq![e@] + supertype_views(s, s.len()),
{
    let t = s.insert(0, e);
    crate::ast::lemma_supertype_views(s, s.len());
    crate::ast::lemma_supertype_views(t, t.len());
    let a = supertype_views(t, t.len());
    let b = seq![e@] + supertype_views(s, s.len());
    assert forall|j: int| 0 <= j < a.len() implies a[j] == b[j] by {
        assert(a[j] == t[j]@);
        if j > 0 {
            assert(t[j] == s[j - 1]);
            assert(b[j] == s[j - 1]@);
        }
    }
    assert(a =~= b);
}

impl<'a> Source<'a> {
    /// `OF ( supertype_expression )` at `pos`.
    fn subtype_constraint_at(&self, pos: usize) -> (r: Result<(SupertypeExpression, usize), usize>)
        ensures
            match spec_subtype_constraint(self@, pos as int) {
                Ok((v, end)) => r matches Ok(x) && x.0@ == v && x.1 == end && pos < end
                    <= self@.len(),
                Err(at) => r matches Err(e) && e == at,
            },
    {
        let after = match self.keyword(pos, "OF") {
            None => {
                return Err(pos);
            },
            Some(after) => after,
        };
        let p1 = self.skip(after);
        if !self.is_at(p1, '(') {
            return Err(p1);
        }
        let p0 = self.skip(p1 + 1);
        match self.expression_at(p0) {
            Err(at) => Err(at),
            Ok((e, p2)) => {
                let p3 = self.skip(p2);
                if self.is_at(p3, ')') {
                    Ok((e, p3 + 1))
                } else {
                    Err(p3)
                }
            },
        }
    }

    /// The supertype constraint at `pos`, if one stands there.
    fn supertype_constraint_at(&self, pos: usize) -> (r: Option<
        (bool, Option<SupertypeExpression>, usize),
    >)
        requires
            pos <= self@.len(),
        ensures
            match spec_supertype_constraint(self@, pos as int) {
                Some((is_abstract, constraint, end)) => r matches Some(x) && x.0 == is_abstract
                    && x.2 == end && pos <= end <= self@.len() && match constraint {
                    Some(e) => x.1 matches Some(c) && c@ == e,
                    None => x.1 is None,
                },
                None => r is None,
            },
    {
        if let Some(p1) = self.keyword(pos, "ABSTRACT") {
            let p2 = self.skip(p1);
            if let Some(p3) = self.keyword(p2, "SUPERTYPE") {
                let p0 = self.skip(p3);
                match self.subtype_constraint_at(p0) {
                    Ok((e, p4)) => Some((true, Some(e), p4)),
                    Err(_) => Some((true, None, p3)),
                }
            } else {
                Some((true, None, p1))
            }
        } else if let Some(after) = self.keyword(pos, "SUPERTYPE") {
            let p0 = self.skip(after);
            match self.subtype_constraint_at(p0) {
                Ok((e, p1)) => Some((false, Some(e), p1)),
                Err(_) => None,
            }
        } else {
            None
        }
    }

    /// The subtype declaration at `pos`, if one stands there.
    fn subtype_declaration_at(&self, pos: usize) -> (r: Option<(Vec<Reference>, usize)>)
        requires
            pos <= self@.len(),
        ensures
            match spec_subtype_declaration(self@, pos as int) {
                Some((refs, end)) => r matches Some(x) && reference_views(x.0@) == refs && x.1
                    == end && pos <= end <= self@.len(),
                None => r is None,
            },
    {
        let after = match self.keyword(pos, "SUBTYPE") {
            None => {
                return None;
            },
            Some(after) => after,
        };
        let p1 = self.skip(after);
        let after = match self.keyword(p1, "OF") {
            None => {
                return None;
            },
            Some(after) => after,
        };
        let p0 = self.skip(after);
        match self.references_at(p0) {
            Ok((refs, end)) => Some((refs, end)),
            Err(_) => None,
        }
    }

    /// What stands behind the name of an entity, from `pos` on.
    pub fn subsuper_at(&self, pos: usize) -> (r: (SubSuper, usize))
        requires
            pos <= self@.len(),
        ensures
            r.0@ == spec_subsuper(self@, pos as int).0,
            r.1 == spec_subsuper(self@, pos as int).1,
            pos <= r.1 <= self@.len(),
    {
        let p0 = self.skip(pos);
        let (is_abstract, constraint, p1) = match self.supertype_constraint_at(p0) {
            Some(x) => x,
            None => (false, None, pos),
        };
        let p2 = self.skip(p1);
        let (subtype_of, end) = match self.subtype_declaration_at(p2) {
            Some(x) => x,
            None => {
                let none: Vec<Reference> = Vec::new();
                proof {
                    assert(reference_views(none@) =~= Seq::<ReferenceView>::empty());
                }
                (none, p1)
            },
        };
        (SubSuper { is_abstract, constraint, subtype_of }, end)
    }
}

} // verus!
