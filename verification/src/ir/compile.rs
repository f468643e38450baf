//! From the syntax tree to the intermediate representation: names are
//! resolved in the namespace, supertype constraints are turned into
//! instantiable sets, and every diagnostic met on the way is collected.

use super::cycle::acyclic;
use super::cycle::caught_list;
use super::cycle::caught_nodes;
use super::cycle::edges;
use super::namespace::declares;
use super::namespace::duplicate_error;
use super::namespace::index_of;
use super::namespace::indices_within;
use super::namespace::paths_at;
use super::namespace::resolve;
use super::namespace::AstRef;
use super::namespace::Node;
use super::schema::IR;
use super::namespace::EntryView;
use super::namespace::Namespace;
use super::namespace::Resolution;
use super::schema::TypeRef;
use super::scope::Path;
use super::scope::PathView;
use super::scope::Scope;
use super::scope::ScopeType;
use super::scope::Segment;
use super::constraint::constraint_views;
use super::constraint::lemma_constraint_views;
use super::constraint::ConstraintExpr;
use super::constraint::ConstraintView;
use super::constraint::evaluated;
use super::instantiables::product;
use super::instantiables::Instantiables;
use super::instantiables::lemma_operand_views_push;
use super::instantiables::operand_views;
use super::instantiables::sum_of_all;
use super::schema::Attribute;
use super::schema::Entity;
use super::schema::Schema;
use super::schema::TypeDecl;
use crate::ast;
use crate::ast::Reference;
use crate::ast::SupertypeExpression;
use crate::ast::Span;
use crate::ast::Underlying;
use crate::error::error_views;
use crate::error::path_views;
use crate::error::plain_error;
use crate::error::ErrorKind;
use crate::error::ErrorView;
use crate::error::SemanticError;
use crate::parser::name_views;
use vstd::prelude::*;

verus! {

/// Whether a declaration of kind `ty` can be meant: an entity where an
/// entity is asked for, an entity or a type elsewhere.
pub open spec fn kind_fits(ty: ScopeType, entity_only: bool) -> bool {
    ty == ScopeType::Entity || (!entity_only && ty == ScopeType::Type)
}

/// The diagnostic of `kind` for the name `name` used at `span` in `scope`.
pub open spec fn error_at(kind: ErrorKind, scope: Seq<Segment>, name: Seq<char>, span: Span) -> ErrorView {
    ErrorView { span, ..plain_error(kind, scope, name) }
}

/// The index of the declaration that the reference `r`, used in `scope`,
/// names; or why it names none. A name that resolves to a declaration of
/// a kind that cannot be meant is unresolved.
pub open spec fn resolved(
    ns: Seq<EntryView>,
    scope: Seq<Segment>,
    r: Reference,
    entity_only: bool,
) -> Result<int, ErrorView> {
    match resolve(ns, scope, r.name@) {
        Resolution::Found(i) => if kind_fits(ns[i].path.ty, entity_only) {
            Ok(i)
        } else {
            Err(error_at(ErrorKind::Unresolved, scope, r.name@, r.span.0))
        },
        Resolution::Ambiguous => Err(error_at(ErrorKind::Ambiguous, scope, r.name@, r.span.0)),
        Resolution::Unresolved => Err(error_at(ErrorKind::Unresolved, scope, r.name@, r.span.0)),
    }
}

/// The diagnostics of a reference: one or none.
pub open spec fn reference_error(
    ns: Seq<EntryView>,
    scope: Seq<Segment>,
    r: Reference,
    entity_only: bool,
) -> Seq<ErrorView> {
    match resolved(ns, scope, r, entity_only) {
        Ok(_) => Seq::empty(),
        Err(x) => seq![x],
    }
}

/// The diagnostics of the first `n` references, in their order.
pub open spec fn reference_errors(
    ns: Seq<EntryView>,
    scope: Seq<Segment>,
    rs: Seq<Reference>,
    n: nat,
    entity_only: bool,
) -> Seq<ErrorView>
    decreases n,
{
    if n == 0 || n > rs.len() {
        Seq::empty()
    } else {
        reference_errors(ns, scope, rs, (n - 1) as nat, entity_only) + reference_error(
            ns,
            scope,
            rs[n - 1],
            entity_only,
        )
    }
}

/// The indices of the declarations that the first `n` references name,
/// in their order, those left out that name none.
pub open spec fn reference_indices(
    ns: Seq<EntryView>,
    scope: Seq<Segment>,
    rs: Seq<Reference>,
    n: nat,
    entity_only: bool,
) -> Seq<usize>
    decreases n,
{
    if n == 0 || n > rs.len() {
        Seq::empty()
    } else {
        let before = reference_indices(ns, scope, rs, (n - 1) as nat, entity_only);
        match resolved(ns, scope, rs[n - 1], entity_only) {
            Ok(i) => before.push(i as usize),
            Err(_) => before,
        }
    }
}

/// Resolves the reference `r` used in `scope`.
pub fn resolve_reference(ns: &Namespace, scope: &Scope, r: &Reference, entity_only: bool) -> (out:
    Result<usize, SemanticError>)
    ensures
        match resolved(ns@, scope@, *r, entity_only) {
            Ok(i) => out matches Ok(index) && index == i && 0 <= i < ns@.len(),
            Err(x) => out is Err && out->Err_0@ == x,
        },
{
    match ns.lookup(scope, r.name.as_str()) {
        Ok((_ast, index)) => {
            let ty = ns.indexed(index).0.ty;
            if ty == ScopeType::Entity || (!entity_only && ty == ScopeType::Type) {
                Ok(index)
            } else {
                Err(SemanticError::new(ErrorKind::Unresolved, scope, r.name.as_str()).at(r.span.0))
            }
        },
        Err(e) => Err(e.at(r.span.0)),
    }
}

/// The views after a push are the views before it, and the view of what was pushed.
pub proof fn lemma_error_views_push(a: Seq<SemanticError>, e: SemanticError)
    ensures
        error_views(a.push(e)) == error_views(a).push(e@),
{
    assert(error_views(a.push(e)) =~= error_views(a).push(e@));
}

/// The views after a push are the views before it, and the view of what was pushed.
pub proof fn lemma_path_views_push(a: Seq<Path>, p: Path)
    ensures
        path_views(a.push(p)) == path_views(a).push(p@),
{
    assert(path_views(a.push(p)) =~= path_views(a).push(p@));
}

/// Resolves the references `rs` used in `scope`: the paths and the
/// indices of the declarations they name, in their order. The
/// diagnostics of those that name none are put behind `errors`.
pub fn resolve_references(
    ns: &Namespace,
    scope: &Scope,
    rs: &Vec<Reference>,
    entity_only: bool,
    errors: &mut Vec<SemanticError>,
) -> (out: (Vec<Path>, Vec<usize>))
    ensures
        error_views(final(errors)@) == error_views(old(errors)@) + reference_errors(
            ns@,
            scope@,
            rs@,
            rs@.len(),
            entity_only,
        ),
        out.1@ == reference_indices(ns@, scope@, rs@, rs@.len(), entity_only),
        indices_within(ns@, out.1@),
        path_views(out.0@) == paths_at(ns@, out.1@),
{
    let ghost errors0 = error_views(errors@);
    let mut paths: Vec<Path> = Vec::new();
    let mut indices: Vec<usize> = Vec::new();
    let mut k: usize = 0;
    proof {
        assert(errors0 + Seq::<ErrorView>::empty() =~= errors0);
        assert(path_views(paths@) =~= paths_at(ns@, indices@));
    }
    while k < rs.len()
        invariant
            k <= rs.len(),
            errors0 == error_views(old(errors)@),
            error_views(errors@) == errors0 + reference_errors(
                ns@,
                scope@,
                rs@,
                k as nat,
                entity_only,
            ),
            indices@ == reference_indices(ns@, scope@, rs@, k as nat, entity_only),
            indices_within(ns@, indices@),
            path_views(paths@) == paths_at(ns@, indices@),
        decreases rs.len() - k,
    {
        let ghost done = reference_errors(ns@, scope@, rs@, k as nat, entity_only);
        let ghost one = reference_error(ns@, scope@, rs@[k as int], entity_only);
        proof {
            assert(reference_errors(ns@, scope@, rs@, (k + 1) as nat, entity_only) == done + one);
        }
        match resolve_reference(ns, scope, &rs[k], entity_only) {
            Ok(index) => {
                let ghost paths_before = paths@;
                let ghost indices_before = indices@;
                let path = ns.indexed(index).0.clone();
                paths.push(path);
                indices.push(index);
                proof {
                    lemma_path_views_push(paths_before, path);
                    assert(paths_at(ns@, indices@) =~= paths_at(ns@, indices_before).push(path@));
                    assert(errors0 + done + one =~= errors0 + done);
                    assert(errors0 + (done + one) =~= errors0 + done);
                }
            },
            Err(e) => {
                let ghost before = errors@;
                errors.push(e);
                proof {
                    lemma_error_views_push(before, e);
                    assert((errors0 + done).push(e@) =~= errors0 + (done + one));
                }
            },
        }
        k += 1;
    }
    (paths, indices)
}

/// The diagnostics of the names that the type `u`, used in `scope`, is made of.
pub open spec fn type_errors(ns: Seq<EntryView>, scope: Seq<Segment>, u: Underlying) -> Seq<
    ErrorView,
>
    decreases u,
{
    match u {
        Underlying::Simple(_) => Seq::empty(),
        Underlying::Named(r) => reference_error(ns, scope, r, false),
        Underlying::Select(rs) => reference_errors(ns, scope, rs@, rs@.len(), false),
        Underlying::Enumeration(_) => Seq::empty(),
        Underlying::Aggregate { kind, bounds, element } => type_errors(ns, scope, *element),
    }
}

/// `t` is the type `u`, used in `scope`, with its names resolved: of the
/// same shape, every name replaced by the path of the declaration that
/// it resolves to.
pub open spec fn type_matches(ns: Seq<EntryView>, scope: Seq<Segment>, u: Underlying, t: TypeRef) -> bool
    decreases u,
{
    match u {
        Underlying::Simple(s) => t matches TypeRef::Simple(x) && x == s,
        Underlying::Named(r) => t matches TypeRef::Named(p) && resolved(ns, scope, r, false) matches Ok(
            i,
        ) && p@ == ns[i].path,
        Underlying::Select(rs) => t matches TypeRef::Select(ps) && path_views(ps@) == paths_at(
            ns,
            reference_indices(ns, scope, rs@, rs@.len(), false),
        ),
        Underlying::Enumeration(items) => t matches TypeRef::Enumeration(xs) && name_views(xs@)
            == name_views(items@),
        Underlying::Aggregate { kind, bounds, element } => t matches TypeRef::Aggregate {
            kind: k,
            bounds: b,
            element: e,
        } && k == kind && b == bounds && type_matches(ns, scope, *element, *e),
    }
}

/// Copies names.
pub fn cloned_names(names: &Vec<String>) -> (r: Vec<String>)
    ensures
        name_views(r@) == name_views(names@),
{
    let mut out: Vec<String> = Vec::new();
    let mut i: usize = 0;
    while i < names.len()
        invariant
            i <= names.len(),
            name_views(out@) == name_views(names@).take(i as int),
        decreases names.len() - i,
    {
        let ghost before = out@;
        let name = names[i].clone();
        out.push(name);
        proof {
            assert(name_views(out@) =~= name_views(before).push(name@));
            assert(name_views(names@).take(i + 1) =~= name_views(names@).take(i as int).push(
                name@,
            ));
        }
        i += 1;
    }
    proof {
        assert(name_views(names@).take(i as int) =~= name_views(names@));
    }
    out
}

/// Resolves the names of the type `u` used in `scope`. The diagnostics
/// of those that name nothing are put behind `errors`; without any, the
/// resolved type is returned.
pub fn resolve_type(
    ns: &Namespace,
    scope: &Scope,
    u: &Underlying,
    errors: &mut Vec<SemanticError>,
) -> (out: Option<TypeRef>)
    ensures
        error_views(final(errors)@) == error_views(old(errors)@) + type_errors(ns@, scope@, *u),
        out is Some <==> type_errors(ns@, scope@, *u).len() == 0,
        out is Some ==> type_matches(ns@, scope@, *u, out->0),
    decreases u,
{
    let ghost errors0 = error_views(errors@);
    proof {
        assert(errors0 + Seq::<ErrorView>::empty() =~= errors0);
    }
    match u {
        Underlying::Simple(s) => Some(TypeRef::Simple(*s)),
        Underlying::Named(r) => match resolve_reference(ns, scope, r, false) {
            Ok(index) => Some(TypeRef::Named(ns.indexed(index).0.clone())),
            Err(e) => {
                let ghost before = errors@;
                errors.push(e);
                proof {
                    lemma_error_views_push(before, e);
                    assert(errors0.push(e@) =~= errors0 + seq![e@]);
                }
                None
            },
        },
        Underlying::Select(rs) => {
            let before = errors.len();
            let (paths, _indices) = resolve_references(ns, scope, rs, false, errors);
            proof {
                lemma_reference_errors_len(ns@, scope@, rs@, rs@.len(), false);
                assert(error_views(errors@).len() == errors@.len());
                assert(errors0.len() == before);
            }
            if errors.len() == before {
                Some(TypeRef::Select(paths))
            } else {
                None
            }
        },
        Underlying::Enumeration(items) => Some(TypeRef::Enumeration(cloned_names(items))),
        Underlying::Aggregate { kind, bounds, element } => {
            match resolve_type(ns, scope, &**element, errors) {
                Some(e) => Some(
                    TypeRef::Aggregate { kind: *kind, bounds: *bounds, element: Box::new(e) },
                ),
                None => None,
            }
        },
    }
}

/// There are as many diagnostics as references that name nothing, and as
/// many indices as references that name something.
pub proof fn lemma_reference_errors_len(
    ns: Seq<EntryView>,
    scope: Seq<Segment>,
    rs: Seq<Reference>,
    n: nat,
    entity_only: bool,
)
    requires
        n <= rs.len(),
    ensures
        reference_errors(ns, scope, rs, n, entity_only).len() + reference_indices(
            ns,
            scope,
            rs,
            n,
            entity_only,
        ).len() == n,
    decreases n,
{
    if n > 0 {
        lemma_reference_errors_len(ns, scope, rs, (n - 1) as nat, entity_only);
    }
}

/// The diagnostics of the first `n` operands, in their order.
pub open spec fn lowering_errors_all(
    ns: Seq<EntryView>,
    scope: Seq<Segment>,
    es: Seq<SupertypeExpression>,
    n: nat,
) -> Seq<ErrorView>
    decreases es, n,
{
    if n == 0 || n > es.len() {
        Seq::empty()
    } else {
        lowering_errors_all(ns, scope, es, (n - 1) as nat) + lowering_errors(ns, scope, es[n - 1])
    }
}

/// The diagnostics of the names in the supertype expression `e` of an
/// entity with the scope `scope`: one for each that does not resolve to
/// an entity, in the order of the text.
pub open spec fn lowering_errors(ns: Seq<EntryView>, scope: Seq<Segment>, e: SupertypeExpression) -> Seq<
    ErrorView,
>
    decreases e, 0nat,
{
    match e {
        SupertypeExpression::Reference(r) => reference_error(ns, scope, r, true),
        SupertypeExpression::OneOf(es, _) => lowering_errors_all(ns, scope, es@, es@.len()),
        SupertypeExpression::And(es, _) => lowering_errors_all(ns, scope, es@, es@.len()),
        SupertypeExpression::AndOr(es, _) => lowering_errors_all(ns, scope, es@, es@.len()),
    }
}

/// The first `n` operands with their names resolved.
pub open spec fn lowered_all(
    ns: Seq<EntryView>,
    scope: Seq<Segment>,
    es: Seq<SupertypeExpression>,
    n: nat,
) -> Seq<ConstraintView>
    decreases es, n,
{
    if n == 0 || n > es.len() {
        Seq::empty()
    } else {
        lowered_all(ns, scope, es, (n - 1) as nat).push(lowered(ns, scope, es[n - 1]))
    }
}

/// The supertype expression `e` with its names resolved: of the same
/// shape, every name replaced by the path of the entity that it resolves
/// to. It says nothing of a name that resolves to none.
pub open spec fn lowered(ns: Seq<EntryView>, scope: Seq<Segment>, e: SupertypeExpression) -> ConstraintView
    decreases e, 0nat,
{
    match e {
        SupertypeExpression::Reference(r) => match resolved(ns, scope, r, true) {
            Ok(i) => ConstraintView::Reference(ns[i].path),
            Err(_) => ConstraintView::Reference(arbitrary()),
        },
        SupertypeExpression::OneOf(es, _) => ConstraintView::OneOf(
            lowered_all(ns, scope, es@, es@.len()),
        ),
        SupertypeExpression::And(es, _) => ConstraintView::And(
            lowered_all(ns, scope, es@, es@.len()),
        ),
        SupertypeExpression::AndOr(es, _) => ConstraintView::AndOr(
            lowered_all(ns, scope, es@, es@.len()),
        ),
    }
}

impl ConstraintExpr {
    /// Resolves the names of the operands `es`. The diagnostics are put
    /// behind `errors`; without any, the resolved operands are returned.
    fn lower_all(
        ns: &Namespace,
        scope: &Scope,
        es: &Vec<SupertypeExpression>,
        errors: &mut Vec<SemanticError>,
    ) -> (out: Option<Vec<ConstraintExpr>>)
        ensures
            error_views(final(errors)@) == error_views(old(errors)@) + lowering_errors_all(
                ns@,
                scope@,
                es@,
                es@.len(),
            ),
            out is Some <==> lowering_errors_all(ns@, scope@, es@, es@.len()).len() == 0,
            out is Some ==> constraint_views(out->0@, out->0@.len()) == lowered_all(
                ns@,
                scope@,
                es@,
                es@.len(),
            ),
        decreases es,
    {
        let ghost errors0 = error_views(errors@);
        let mut done: Vec<ConstraintExpr> = Vec::new();
        let mut failed = false;
        let mut k: usize = 0;
        proof {
            assert(errors0 + Seq::<ErrorView>::empty() =~= errors0);
        }
        while k < es.len()
            invariant
                k <= es.len(),
                errors0 == error_views(old(errors)@),
                error_views(errors@) == errors0 + lowering_errors_all(ns@, scope@, es@, k as nat),
                failed <==> lowering_errors_all(ns@, scope@, es@, k as nat).len() > 0,
                !failed ==> done@.len() == k && constraint_views(done@, k as nat) == lowered_all(
                    ns@,
                    scope@,
                    es@,
                    k as nat,
                ),
            decreases es.len() - k,
        {
            let ghost sofar = lowering_errors_all(ns@, scope@, es@, k as nat);
            let ghost one = lowering_errors(ns@, scope@, es@[k as int]);
            let ghost before = done@;
            proof {
                assert(lowering_errors_all(ns@, scope@, es@, (k + 1) as nat) == sofar + one);
                assert(errors0 + sofar + one =~= errors0 + (sofar + one));
            }
            match Self::lower(ns, scope, &es[k], errors) {
                Some(c) => {
                    if !failed {
                        done.push(c);
                        proof {
                            lemma_constraint_views(before, k as nat);
                            lemma_constraint_views(done@, (k + 1) as nat);
                            let a = constraint_views(done@, (k + 1) as nat);
                            let b = constraint_views(before, k as nat).push(c@);
                            assert(done@ == before.push(c));
                            assert forall|j: int| 0 <= j < a.len() implies a[j] == b[j] by {
                                assert(a[j] == done@[j]@);
                                if j < k {
                                    assert(done@[j] == before[j]);
                                    assert(b[j] == before[j]@);
                                }
                            }
                            assert(a =~= b);
                        }
                    }
                },
                None => {
                    failed = true;
                },
            }
            k += 1;
        }
        if failed {
            None
        } else {
            Some(done)
        }
    }

    /// Resolves the names of the supertype expression `e` of an entity
    /// with the scope `scope`: each must name an entity. The diagnostics
    /// of those that do not are put behind `errors`, in the order of the
    /// text; without any, the resolved expression is returned.
    pub fn lower(
        ns: &Namespace,
        scope: &Scope,
        e: &SupertypeExpression,
        errors: &mut Vec<SemanticError>,
    ) -> (out: Option<ConstraintExpr>)
        ensures
            error_views(final(errors)@) == error_views(old(errors)@) + lowering_errors(
                ns@,
                scope@,
                *e,
            ),
            out is Some <==> lowering_errors(ns@, scope@, *e).len() == 0,
            out is Some ==> out->0@ == lowered(ns@, scope@, *e),
        decreases e,
    {
        let ghost errors0 = error_views(errors@);
        match e {
            SupertypeExpression::Reference(r) => match resolve_reference(ns, scope, r, true) {
                Ok(index) => {
                    proof {
                        assert(errors0 + Seq::<ErrorView>::empty() =~= errors0);
                    }
                    Some(ConstraintExpr::Reference(ns.indexed(index).0.clone()))
                },
                Err(x) => {
                    let ghost before = errors@;
                    errors.push(x);
                    proof {
                        lemma_error_views_push(before, x);
                        assert(errors0.push(x@) =~= errors0 + seq![x@]);
                    }
                    None
                },
            },
            SupertypeExpression::OneOf(es, _) => match Self::lower_all(ns, scope, es, errors) {
                Some(cs) => Some(ConstraintExpr::OneOf(cs)),
                None => None,
            },
            SupertypeExpression::And(es, _) => match Self::lower_all(ns, scope, es, errors) {
                Some(cs) => Some(ConstraintExpr::And(cs)),
                None => None,
            },
            SupertypeExpression::AndOr(es, _) => match Self::lower_all(ns, scope, es, errors) {
                Some(cs) => Some(ConstraintExpr::AndOr(cs)),
                None => None,
            },
        }
    }
}

/// The scope of what a schema declares.
pub open spec fn schema_scope(schema: ast::Schema) -> Seq<Segment> {
    seq![(ScopeType::Schema, schema.name@)]
}

/// The scope of what stands inside an entity of a schema.
pub open spec fn entity_scope(schema: ast::Schema, entity: ast::Entity) -> Seq<Segment> {
    schema_scope(schema).push((ScopeType::Entity, entity.name@))
}

/// The path of an entity of a schema.
pub open spec fn entity_path(schema: ast::Schema, entity: ast::Entity) -> PathView {
    PathView { scope: schema_scope(schema), ty: ScopeType::Entity, name: entity.name@ }
}

/// The diagnostics of the types of the first `n` attributes, in their order.
pub open spec fn attribute_errors(
    ns: Seq<EntryView>,
    scope: Seq<Segment>,
    attrs: Seq<ast::Attribute>,
    n: nat,
) -> Seq<ErrorView>
    decreases n,
{
    if n == 0 || n > attrs.len() {
        Seq::empty()
    } else {
        attribute_errors(ns, scope, attrs, (n - 1) as nat) + type_errors(ns, scope, attrs[n - 1].ty)
    }
}

/// `out` holds the first `n` attributes, one for one, with the names in
/// their types resolved.
pub open spec fn attributes_match(
    ns: Seq<EntryView>,
    scope: Seq<Segment>,
    attrs: Seq<ast::Attribute>,
    n: nat,
    out: Seq<Attribute>,
) -> bool {
    &&& out.len() == n
    &&& n <= attrs.len()
    &&& forall|k: int|
        0 <= k < n ==> (#[trigger] out[k]).name@ == attrs[k].name@ && out[k].optional
            == attrs[k].optional && type_matches(ns, scope, attrs[k].ty, out[k].ty)
}

/// Where a supertype expression stands in the input.
pub open spec fn expression_span(e: SupertypeExpression) -> Span {
    match e {
        SupertypeExpression::Reference(r) => r.span.0,
        SupertypeExpression::OneOf(_, span) => span.0,
        SupertypeExpression::And(_, span) => span.0,
        SupertypeExpression::AndOr(_, span) => span.0,
    }
}

/// The diagnostics of the `SUPERTYPE OF` constraint of an entity: those
/// of its names; or, where all resolve, that of the expression itself,
/// which then names the entity and the place of the expression.
pub open spec fn constraint_errors(ns: Seq<EntryView>, schema: ast::Schema, entity: ast::Entity) -> Seq<
    ErrorView,
> {
    match entity.constraint {
        None => Seq::empty(),
        Some(e) => {
            let scope = entity_scope(schema, entity);
            if lowering_errors(ns, scope, e).len() > 0 {
                lowering_errors(ns, scope, e)
            } else {
                match evaluated(ns, lowered(ns, scope, e)) {
                    Ok(_) => Seq::empty(),
                    Err(x) => seq![error_at(x.kind, scope, entity.name@, expression_span(e))],
                }
            }
        },
    }
}

/// `base` joined with the single alternative of each of the first `n` supertypes.
pub open spec fn with_supertypes(base: Seq<Seq<usize>>, supers: Seq<usize>, n: nat) -> Seq<
    Seq<usize>,
>
    decreases n,
{
    if n == 0 || n > supers.len() {
        base
    } else {
        product(with_supertypes(base, supers, (n - 1) as nat), seq![seq![supers[n - 1]]])
    }
}

/// The indices of the supertypes of an entity, in their order.
pub open spec fn supertype_indices(ns: Seq<EntryView>, schema: ast::Schema, entity: ast::Entity) -> Seq<
    usize,
> {
    reference_indices(
        ns,
        entity_scope(schema, entity),
        entity.subtype_of@,
        entity.subtype_of@.len(),
        true,
    )
}

/// The instantiable set of an entity with the index `i`: the entity
/// alone; joined with what its `SUPERTYPE OF` constraint stands for, if
/// it has one; joined with each of its supertypes.
pub open spec fn entity_instantiables(
    ns: Seq<EntryView>,
    schema: ast::Schema,
    entity: ast::Entity,
    i: usize,
) -> Seq<Seq<usize>> {
    let base = seq![seq![i]];
    let constrained = match entity.constraint {
        None => base,
        Some(e) => match evaluated(ns, lowered(ns, entity_scope(schema, entity), e)) {
            Ok(s) => product(base, s),
            Err(_) => base,
        },
    };
    let supers = supertype_indices(ns, schema, entity);
    with_supertypes(constrained, supers, supers.len())
}

/// The diagnostics of an entity: an `Internal` one if the namespace does
/// not hold it; else those of the types of its attributes, of its
/// supertypes, and of its `SUPERTYPE OF` constraint, in this order.
pub open spec fn entity_errors(ns: Seq<EntryView>, schema: ast::Schema, entity: ast::Entity) -> Seq<
    ErrorView,
> {
    let scope = entity_scope(schema, entity);
    if !super::namespace::declares(ns, entity_path(schema, entity)) {
        seq![error_at(ErrorKind::Internal, schema_scope(schema), entity.name@, entity.span.0)]
    } else {
        attribute_errors(ns, scope, entity.attributes@, entity.attributes@.len())
            + reference_errors(ns, scope, entity.subtype_of@, entity.subtype_of@.len(), true)
            + constraint_errors(ns, schema, entity)
    }
}

/// `out` is the entity `entity` of `schema` compiled: its names resolved
/// in `ns`, its instantiable set computed.
pub open spec fn entity_matches(
    ns: Seq<EntryView>,
    schema: ast::Schema,
    entity: ast::Entity,
    out: Entity,
) -> bool {
    let scope = entity_scope(schema, entity);
    &&& out.name@ == entity.name@
    &&& out.is_abstract == entity.is_abstract
    &&& out.scope@ == schema_scope(schema)
    &&& path_views(out.supertypes@) == paths_at(ns, supertype_indices(ns, schema, entity))
    &&& attributes_match(
        ns,
        scope,
        entity.attributes@,
        entity.attributes@.len(),
        out.attributes@,
    )
    &&& out.instantiables@ == entity_instantiables(
        ns,
        schema,
        entity,
        super::namespace::index_of(ns, entity_path(schema, entity)) as usize,
    )
    &&& match entity.constraint {
        None => out.constraint is None,
        Some(e) => out.constraint matches Some(c) && c@ == lowered(ns, scope, e),
    }
}

/// Where a supertype expression stands in the input.
pub fn span_of(e: &SupertypeExpression) -> (r: Span)
    ensures
        r == expression_span(*e),
{
    match e {
        SupertypeExpression::Reference(r) => r.span.0,
        SupertypeExpression::OneOf(_, span) => span.0,
        SupertypeExpression::And(_, span) => span.0,
        SupertypeExpression::AndOr(_, span) => span.0,
    }
}

/// As many views as diagnostics.
pub proof fn lemma_error_views_len(a: Seq<SemanticError>)
    ensures
        error_views(a).len() == a.len(),
{
}

impl Entity {
    /// Resolves the types of the attributes `attrs` of an entity with the
    /// scope `scope`. The diagnostics are put behind `errors`; without
    /// any, the resolved attributes are returned.
    fn compile_attributes(
        ns: &Namespace,
        scope: &Scope,
        attrs: &Vec<ast::Attribute>,
        errors: &mut Vec<SemanticError>,
    ) -> (out: Option<Vec<Attribute>>)
        ensures
            error_views(final(errors)@) == error_views(old(errors)@) + attribute_errors(
                ns@,
                scope@,
                attrs@,
                attrs@.len(),
            ),
            out is Some <==> attribute_errors(ns@, scope@, attrs@, attrs@.len()).len() == 0,
            out is Some ==> attributes_match(ns@, scope@, attrs@, attrs@.len(), out->0@),
    {
        let ghost errors0 = error_views(errors@);
        let mut done: Vec<Attribute> = Vec::new();
        let mut failed = false;
        let mut k: usize = 0;
        proof {
            assert(errors0 + Seq::<ErrorView>::empty() =~= errors0);
        }
        while k < attrs.len()
            invariant
                k <= attrs.len(),
                errors0 == error_views(old(errors)@),
                error_views(errors@) == errors0 + attribute_errors(ns@, scope@, attrs@, k as nat),
                failed <==> attribute_errors(ns@, scope@, attrs@, k as nat).len() > 0,
                !failed ==> attributes_match(ns@, scope@, attrs@, k as nat, done@),
            decreases attrs.len() - k,
        {
            let ghost sofar = attribute_errors(ns@, scope@, attrs@, k as nat);
            let ghost one = type_errors(ns@, scope@, attrs@[k as int].ty);
            let ghost before = done@;
            proof {
                assert(attribute_errors(ns@, scope@, attrs@, (k + 1) as nat) == sofar + one);
                assert(errors0 + sofar + one =~= errors0 + (sofar + one));
            }
            match resolve_type(ns, scope, &attrs[k].ty, errors) {
                Some(ty) => {
                    if !failed {
                        let a = Attribute {
                            name: attrs[k].name.clone(),
                            ty,
                            optional: attrs[k].optional,
                        };
                        done.push(a);
                        proof {
                            assert forall|j: int| 0 <= j < k + 1 implies (#[trigger] done@[j]).name@
                                == attrs@[j].name@ && done@[j].optional == attrs@[j].optional
                                && type_matches(ns@, scope@, attrs@[j].ty, done@[j].ty) by {
                                if j < k {
                                    assert(done@[j] == before[j]);
                                }
                            }
                        }
                    }
                },
                None => {
                    failed = true;
                },
            }
            k += 1;
        }
        if failed {
            None
        } else {
            Some(done)
        }
    }

    /// `base` joined with the single alternative of each of `supers`.
    fn join_supertypes(base: Instantiables, supers: &Vec<usize>) -> (r: Instantiables)
        requires
            base.wf(),
        ensures
            r@ == with_supertypes(base@, supers@, supers@.len()),
            r.wf(),
    {
        let ghost start = base@;
        let mut acc = base;
        let mut k: usize = 0;
        while k < supers.len()
            invariant
                k <= supers.len(),
                acc@ == with_supertypes(start, supers@, k as nat),
                acc.wf(),
            decreases supers.len() - k,
        {
            acc = acc & Instantiables::single(supers[k]);
            k += 1;
        }
        acc
    }

    /// Compiles the entity `entity` of `schema`: resolves the types of its
    /// attributes, its supertypes and the names of its `SUPERTYPE OF`
    /// constraint, and computes its instantiable set.
    ///
    /// The diagnostics are put behind `errors`, as [`entity_errors`] lists
    /// them; without any, the compiled entity is returned.
    pub fn compile(
        ns: &Namespace,
        schema: &ast::Schema,
        entity: &ast::Entity,
        errors: &mut Vec<SemanticError>,
    ) -> (out: Option<Entity>)
        ensures
            error_views(final(errors)@) == error_views(old(errors)@) + entity_errors(
                ns@,
                *schema,
                *entity,
            ),
            out is Some <==> entity_errors(ns@, *schema, *entity).len() == 0,
            out is Some ==> entity_matches(ns@, *schema, *entity, out->0) && out->0.instantiables.wf(),
    {
        let ghost errors0 = error_views(errors@);
        let declared_in = Scope::root().schema(schema.name.as_str());
        let scope = declared_in.entity(entity.name.as_str());
        let own = Path::entity(&declared_in, entity.name.as_str());
        proof {
            assert(declared_in@ =~= schema_scope(*schema));
            assert(own@ == entity_path(*schema, *entity));
        }
        let index = match ns.get(&own) {
            Ok((_ast, index)) => index,
            Err(_) => {
                let ghost before = errors@;
                let e = SemanticError::new(
                    ErrorKind::Internal,
                    &declared_in,
                    entity.name.as_str(),
                ).at(entity.span.0);
                errors.push(e);
                proof {
                    lemma_error_views_push(before, e);
                    assert(errors0.push(e@) =~= errors0 + seq![e@]);
                }
                return None;
            },
        };
        let ghost a = attribute_errors(ns@, scope@, entity.attributes@, entity.attributes@.len());
        let ghost b = reference_errors(
            ns@,
            scope@,
            entity.subtype_of@,
            entity.subtype_of@.len(),
            true,
        );
        let ghost c = constraint_errors(ns@, *schema, *entity);
        let attributes = Self::compile_attributes(ns, &scope, &entity.attributes, errors);
        let (supertypes, supers) = resolve_references(ns, &scope, &entity.subtype_of, true, errors);
        proof {
            assert(error_views(errors@) == errors0 + a + b);
        }
        let mut value: Option<Instantiables> = None;
        let constraint = match &entity.constraint {
            None => {
                proof {
                    assert(errors0 + a + b + c =~= errors0 + a + b);
                }
                None
            },
            Some(e) => match ConstraintExpr::lower(ns, &scope, e, errors) {
                None => None,
                Some(lowered) => {
                    match Instantiables::from_constraint_expr(ns, &lowered) {
                        Ok(s) => {
                            value = Some(s);
                            proof {
                                assert(errors0 + a + b + c =~= errors0 + a + b);
                                assert(errors0 + a + b + Seq::<ErrorView>::empty() =~= errors0 + a
                                    + b);
                            }
                            Some(lowered)
                        },
                        Err(x) => {
                            let ghost before = errors@;
                            let d = SemanticError::new(x.kind, &scope, entity.name.as_str()).at(
                                span_of(e),
                            );
                            errors.push(d);
                            proof {
                                lemma_error_views_push(before, d);
                                assert((errors0 + a + b + Seq::<ErrorView>::empty()).push(d@)
                                    =~= errors0 + a + b + seq![d@]);
                            }
                            None
                        },
                    }
                },
            },
        };
        proof {
            assert(error_views(errors@) == errors0 + a + b + c);
            assert(errors0 + a + b + c =~= errors0 + (a + b + c));
            lemma_reference_errors_len(
                ns@,
                scope@,
                entity.subtype_of@,
                entity.subtype_of@.len(),
                true,
            );
        }
        let attributes = match attributes {
            Some(attributes) => attributes,
            None => {
                return None;
            },
        };
        if supers.len() != entity.subtype_of.len() {
            return None;
        }
        let single = Instantiables::single(index);
        let constrained = match &entity.constraint {
            None => single,
            Some(_) => match value {
                Some(s) => single & s,
                None => {
                    return None;
                },
            },
        };
        let instantiables = Self::join_supertypes(constrained, &supers);
        Some(
            Entity {
                name: entity.name.clone(),
                is_abstract: entity.is_abstract,
                scope: declared_in,
                supertypes,
                attributes,
                instantiables,
                constraint,
            },
        )
    }
}

/// The scope of what stands inside a type of a schema.
pub open spec fn type_scope(schema: ast::Schema, decl: ast::TypeDecl) -> Seq<Segment> {
    schema_scope(schema).push((ScopeType::Type, decl.name@))
}

/// The diagnostics of the first `n` types of a schema, in their order.
pub open spec fn type_decl_errors(ns: Seq<EntryView>, schema: ast::Schema, n: nat) -> Seq<ErrorView>
    decreases n,
{
    if n == 0 || n > schema.types@.len() {
        Seq::empty()
    } else {
        type_decl_errors(ns, schema, (n - 1) as nat) + type_errors(
            ns,
            type_scope(schema, schema.types@[n - 1]),
            schema.types@[n - 1].underlying,
        )
    }
}

/// `out` holds the first `n` types of a schema, one for one, with the
/// names in what they are declared as resolved.
pub open spec fn types_match(ns: Seq<EntryView>, schema: ast::Schema, n: nat, out: Seq<TypeDecl>) -> bool {
    &&& out.len() == n
    &&& n <= schema.types@.len()
    &&& forall|k: int|
        0 <= k < n ==> (#[trigger] out[k]).name@ == schema.types@[k].name@ && type_matches(
            ns,
            type_scope(schema, schema.types@[k]),
            schema.types@[k].underlying,
            out[k].underlying,
        )
}

/// The diagnostics of the first `n` entities of a schema, in their order.
pub open spec fn entities_errors(ns: Seq<EntryView>, schema: ast::Schema, n: nat) -> Seq<ErrorView>
    decreases n,
{
    if n == 0 || n > schema.entities@.len() {
        Seq::empty()
    } else {
        entities_errors(ns, schema, (n - 1) as nat) + entity_errors(
            ns,
            schema,
            schema.entities@[n - 1],
        )
    }
}

/// `out` holds the first `n` entities of a schema, one for one, compiled.
pub open spec fn entities_match(ns: Seq<EntryView>, schema: ast::Schema, n: nat, out: Seq<Entity>) -> bool {
    &&& out.len() == n
    &&& n <= schema.entities@.len()
    &&& forall|k: int|
        0 <= k < n ==> entity_matches(ns, schema, schema.entities@[k], #[trigger] out[k])
            && out[k].instantiables.wf()
}

/// The instantiable sets of entities.
pub open spec fn entity_sets(entities: Seq<Entity>) -> Seq<Seq<Seq<usize>>> {
    entities.map_values(|e: Entity| e.instantiables@)
}

/// The diagnostics of a schema: those of its types, then those of its entities.
pub open spec fn schema_errors(ns: Seq<EntryView>, schema: ast::Schema) -> Seq<ErrorView> {
    type_decl_errors(ns, schema, schema.types@.len()) + entities_errors(
        ns,
        schema,
        schema.entities@.len(),
    )
}

/// `out` is `schema` compiled: its types and entities compiled one for
/// one, and the instantiable sets of all its entities united.
pub open spec fn schema_matches(ns: Seq<EntryView>, schema: ast::Schema, out: Schema) -> bool {
    &&& out.name@ == schema.name@
    &&& types_match(ns, schema, schema.types@.len(), out.types@)
    &&& entities_match(ns, schema, schema.entities@.len(), out.entities@)
    &&& out.instantiables@ == sum_of_all(entity_sets(out.entities@))
    &&& out.instantiables.wf()
}

impl Schema {
    /// Resolves what the types of `schema` are declared as.
    fn compile_types(ns: &Namespace, schema: &ast::Schema, errors: &mut Vec<SemanticError>) -> (out:
        Option<Vec<TypeDecl>>)
        ensures
            error_views(final(errors)@) == error_views(old(errors)@) + type_decl_errors(
                ns@,
                *schema,
                schema.types@.len(),
            ),
            out is Some <==> type_decl_errors(ns@, *schema, schema.types@.len()).len() == 0,
            out is Some ==> types_match(ns@, *schema, schema.types@.len(), out->0@),
    {
        let ghost errors0 = error_views(errors@);
        let declared_in = Scope::root().schema(schema.name.as_str());
        let mut done: Vec<TypeDecl> = Vec::new();
        let mut failed = false;
        let mut k: usize = 0;
        proof {
            assert(errors0 + Seq::<ErrorView>::empty() =~= errors0);
            assert(declared_in@ =~= schema_scope(*schema));
        }
        while k < schema.types.len()
            invariant
                k <= schema.types.len(),
                declared_in@ == schema_scope(*schema),
                errors0 == error_views(old(errors)@),
                error_views(errors@) == errors0 + type_decl_errors(ns@, *schema, k as nat),
                failed <==> type_decl_errors(ns@, *schema, k as nat).len() > 0,
                !failed ==> types_match(ns@, *schema, k as nat, done@),
            decreases schema.types.len() - k,
        {
            let decl = &schema.types[k];
            let scope = declared_in.type_(decl.name.as_str());
            let ghost sofar = type_decl_errors(ns@, *schema, k as nat);
            let ghost one = type_errors(ns@, scope@, decl.underlying);
            let ghost before = done@;
            proof {
                assert(type_decl_errors(ns@, *schema, (k + 1) as nat) == sofar + one);
                assert(errors0 + sofar + one =~= errors0 + (sofar + one));
            }
            match resolve_type(ns, &scope, &decl.underlying, errors) {
                Some(underlying) => {
                    if !failed {
                        done.push(TypeDecl { name: decl.name.clone(), underlying });
                        proof {
                            assert forall|j: int| 0 <= j < k + 1 implies (#[trigger] done@[j]).name@
                                == schema.types@[j].name@ && type_matches(
                                ns@,
                                type_scope(*schema, schema.types@[j]),
                                schema.types@[j].underlying,
                                done@[j].underlying,
                            ) by {
                                if j < k {
                                    assert(done@[j] == before[j]);
                                }
                            }
                        }
                    }
                },
                None => {
                    failed = true;
                },
            }
            k += 1;
        }
        if failed {
            None
        } else {
            Some(done)
        }
    }

    /// Compiles the entities of `schema`.
    fn compile_entities(ns: &Namespace, schema: &ast::Schema, errors: &mut Vec<SemanticError>) -> (out:
        Option<Vec<Entity>>)
        ensures
            error_views(final(errors)@) == error_views(old(errors)@) + entities_errors(
                ns@,
                *schema,
                schema.entities@.len(),
            ),
            out is Some <==> entities_errors(ns@, *schema, schema.entities@.len()).len() == 0,
            out is Some ==> entities_match(ns@, *schema, schema.entities@.len(), out->0@),
    {
        let ghost errors0 = error_views(errors@);
        let mut done: Vec<Entity> = Vec::new();
        let mut failed = false;
        let mut k: usize = 0;
        proof {
            assert(errors0 + Seq::<ErrorView>::empty() =~= errors0);
        }
        while k < schema.entities.len()
            invariant
                k <= schema.entities.len(),
                errors0 == error_views(old(errors)@),
                error_views(errors@) == errors0 + entities_errors(ns@, *schema, k as nat),
                failed <==> entities_errors(ns@, *schema, k as nat).len() > 0,
                !failed ==> entities_match(ns@, *schema, k as nat, done@),
            decreases schema.entities.len() - k,
        {
            let ghost sofar = entities_errors(ns@, *schema, k as nat);
            let ghost one = entity_errors(ns@, *schema, schema.entities@[k as int]);
            let ghost before = done@;
            proof {
                assert(entities_errors(ns@, *schema, (k + 1) as nat) == sofar + one);
                assert(errors0 + sofar + one =~= errors0 + (sofar + one));
            }
            match Entity::compile(ns, schema, &schema.entities[k], errors) {
                Some(entity) => {
                    if !failed {
                        done.push(entity);
                        proof {
                            assert forall|j: int| 0 <= j < k + 1 implies entity_matches(
                                ns@,
                                *schema,
                                schema.entities@[j],
                                #[trigger] done@[j],
                            ) && done@[j].instantiables.wf() by {
                                if j < k {
                                    assert(done@[j] == before[j]);
                                }
                            }
                        }
                    }
                },
                None => {
                    failed = true;
                },
            }
            k += 1;
        }
        if failed {
            None
        } else {
            Some(done)
        }
    }

    /// The instantiable sets of all `entities` united.
    fn rollup(entities: &Vec<Entity>) -> (r: Instantiables)
        requires
            forall|k: int| 0 <= k < entities@.len() ==> (#[trigger] entities@[k]).instantiables.wf(),
        ensures
            r@ == sum_of_all(entity_sets(entities@)),
            r.wf(),
    {
        let mut sets: Vec<Instantiables> = Vec::new();
        let mut k: usize = 0;
        proof {
            assert(operand_views(sets@) =~= entity_sets(entities@).take(0));
        }
        while k < entities.len()
            invariant
                k <= entities.len(),
                operand_views(sets@) == entity_sets(entities@).take(k as int),
                forall|j: int|
                    0 <= j < entities@.len() ==> (#[trigger] entities@[j]).instantiables.wf(),
            decreases entities.len() - k,
        {
            let ghost before = sets@;
            let set = entities[k].instantiables.clone();
            sets.push(set);
            proof {
                lemma_operand_views_push(before, set);
                assert(entity_sets(entities@).take(k + 1) =~= entity_sets(entities@).take(
                    k as int,
                ).push(set@));
            }
            k += 1;
        }
        proof {
            assert(entity_sets(entities@).take(k as int) =~= entity_sets(entities@));
            assert forall|j: int| 0 <= j < entity_sets(entities@).len() implies super::instantiables::parts_wf(
                #[trigger] entity_sets(entities@)[j],
            ) by {
                assert(entities@[j].instantiables.wf());
            }
        }
        Instantiables::oneof(sets)
    }

    /// Compiles `schema`: its types, its entities, and the partial complex
    /// entities of all its entities together.
    ///
    /// The diagnostics are put behind `errors`, as [`schema_errors`] lists
    /// them; without any, the compiled schema is returned.
    pub fn compile(ns: &Namespace, schema: &ast::Schema, errors: &mut Vec<SemanticError>) -> (out:
        Option<Schema>)
        ensures
            error_views(final(errors)@) == error_views(old(errors)@) + schema_errors(ns@, *schema),
            out is Some <==> schema_errors(ns@, *schema).len() == 0,
            out is Some ==> schema_matches(ns@, *schema, out->0),
    {
        let ghost errors0 = error_views(errors@);
        let ghost a = type_decl_errors(ns@, *schema, schema.types@.len());
        let ghost b = entities_errors(ns@, *schema, schema.entities@.len());
        let types = Self::compile_types(ns, schema, errors);
        let entities = Self::compile_entities(ns, schema, errors);
        proof {
            assert(errors0 + a + b =~= errors0 + (a + b));
        }
        match (types, entities) {
            (Some(types), Some(entities)) => {
                let instantiables = Self::rollup(&entities);
                Some(Schema { name: schema.name.clone(), types, entities, instantiables })
            },
            _ => None,
        }
    }
}

/// The entry of a schema, the `si`-th of the syntax tree.
pub open spec fn schema_entry(schema: ast::Schema, si: usize) -> EntryView {
    EntryView {
        path: PathView { scope: Seq::empty(), ty: ScopeType::Schema, name: schema.name@ },
        ast: AstRef { node: Node::Schema { schema: si }, span: schema.span.0 },
    }
}

/// The entry of the `ei`-th entity of a schema.
pub open spec fn entity_entry(schema: ast::Schema, si: usize, ei: usize) -> EntryView {
    EntryView {
        path: entity_path(schema, schema.entities@[ei as int]),
        ast: AstRef {
            node: Node::Entity { schema: si, entity: ei },
            span: schema.entities@[ei as int].span.0,
        },
    }
}

/// The entry of the `ti`-th type of a schema.
pub open spec fn type_entry(schema: ast::Schema, si: usize, ti: usize) -> EntryView {
    EntryView {
        path: PathView {
            scope: schema_scope(schema),
            ty: ScopeType::Type,
            name: schema.types@[ti as int].name@,
        },
        ast: AstRef { node: Node::Type { schema: si, ty: ti }, span: schema.types@[ti as int].span.0 },
    }
}

/// What a schema declares, in the order of insertion: the schema itself,
/// its entities, its types.
pub open spec fn declarations_of(schema: ast::Schema, si: usize) -> Seq<EntryView> {
    seq![schema_entry(schema, si)] + Seq::new(
        schema.entities@.len(),
        |ei: int| entity_entry(schema, si, ei as usize),
    ) + Seq::new(schema.types@.len(), |ti: int| type_entry(schema, si, ti as usize))
}

/// What the first `n` schemas declare, in the order of insertion.
pub open spec fn declarations(schemas: Seq<ast::Schema>, n: nat) -> Seq<EntryView>
    decreases n,
{
    if n == 0 || n > schemas.len() {
        Seq::empty()
    } else {
        declarations(schemas, (n - 1) as nat) + declarations_of(schemas[n - 1], (n - 1) as usize)
    }
}

/// The namespace that results from inserting `decls` in their order, and
/// the diagnostics of those whose path was there already, which are left out.
pub open spec fn inserted(decls: Seq<EntryView>) -> (Seq<EntryView>, Seq<ErrorView>)
    decreases decls.len(),
{
    if decls.len() == 0 {
        (Seq::empty(), Seq::empty())
    } else {
        let (ns, errors) = inserted(decls.drop_last());
        let d = decls.last();
        if declares(ns, d.path) {
            (
                ns,
                errors.push(duplicate_error(d.path, d.ast.span, ns[index_of(ns, d.path)].ast.span)),
            )
        } else {
            (ns.push(d), errors)
        }
    }
}

/// The namespace of a syntax tree.
pub open spec fn namespace_of(st: ast::SyntaxTree) -> Seq<EntryView> {
    inserted(declarations(st.schemas@, st.schemas@.len())).0
}

/// The diagnostics of the declarations of a syntax tree.
pub open spec fn namespace_errors(st: ast::SyntaxTree) -> Seq<ErrorView> {
    inserted(declarations(st.schemas@, st.schemas@.len())).1
}

impl Namespace {
    /// Inserts one declaration; a duplicate is left out and its diagnostic
    /// put behind `errors`.
    fn declare(
        &mut self,
        path: Path,
        ast: AstRef,
        errors: &mut Vec<SemanticError>,
        Ghost(done): Ghost<Seq<EntryView>>,
        Ghost(errors0): Ghost<Seq<ErrorView>>,
    )
        requires
            old(self)@ == inserted(done).0,
            error_views(old(errors)@) == errors0 + inserted(done).1,
            old(self).wf(),
        ensures
            final(self)@ == inserted(done.push(EntryView { path: path@, ast })).0,
            error_views(final(errors)@) == errors0 + inserted(
                done.push(EntryView { path: path@, ast }),
            ).1,
            final(self).wf(),
    {
        let ghost d = EntryView { path: path@, ast };
        proof {
            assert(done.push(d).drop_last() =~= done);
        }
        match self.insert(path, ast) {
            Ok(_) => {},
            Err(e) => {
                let ghost before = errors@;
                errors.push(e);
                proof {
                    lemma_error_views_push(before, e);
                    assert((errors0 + inserted(done).1).push(e@) =~= errors0 + inserted(
                        done.push(d),
                    ).1);
                }
            },
        }
    }

    /// The namespace of the syntax tree `st`: every schema, each with its
    /// entities and then its types, in the order of the tree.
    ///
    /// A declaration whose path is there already is left out, and its
    /// diagnostic put behind `errors`.
    pub fn from_syntax_tree(st: &ast::SyntaxTree, errors: &mut Vec<SemanticError>) -> (ns: Self)
        ensures
            ns@ == namespace_of(*st),
            ns.wf(),
            error_views(final(errors)@) == error_views(old(errors)@) + namespace_errors(*st),
    {
        let ghost errors0 = error_views(errors@);
        let mut ns = Namespace::new();
        let root = Scope::root();
        let mut si: usize = 0;
        let ghost mut done = Seq::<EntryView>::empty();
        proof {
            assert(errors0 + Seq::<ErrorView>::empty() =~= errors0);
        }
        while si < st.schemas.len()
            invariant
                si <= st.schemas.len(),
                root@ == Seq::<Segment>::empty(),
                errors0 == error_views(old(errors)@),
                done == declarations(st.schemas@, si as nat),
                ns@ == inserted(done).0,
                error_views(errors@) == errors0 + inserted(done).1,
                ns.wf(),
            decreases st.schemas.len() - si,
        {
            let schema = &st.schemas[si];
            let ghost all = declarations_of(*schema, si);
            let ghost start = done;
            let scope = root.schema(schema.name.as_str());
            proof {
                assert(scope@ =~= schema_scope(*schema));
            }
            ns.declare(
                Path::schema(&root, schema.name.as_str()),
                AstRef { node: Node::Schema { schema: si }, span: schema.span.0 },
                errors,
                Ghost(done),
                Ghost(errors0),
            );
            proof {
                done = done.push(schema_entry(*schema, si));
                assert(done =~= start + all.take(1));
            }
            let mut ei: usize = 0;
            while ei < schema.entities.len()
                invariant
                    ei <= schema.entities.len(),
                    si < st.schemas.len(),
                    schema == &st.schemas@[si as int],
                    all == declarations_of(*schema, si),
                    scope@ == schema_scope(*schema),
                    done == start + all.take(1 + ei),
                    ns@ == inserted(done).0,
                    error_views(errors@) == errors0 + inserted(done).1,
                    ns.wf(),
                decreases schema.entities.len() - ei,
            {
                let entity = &schema.entities[ei];
                ns.declare(
                    Path::entity(&scope, entity.name.as_str()),
                    AstRef { node: Node::Entity { schema: si, entity: ei }, span: entity.span.0 },
                    errors,
                    Ghost(done),
                    Ghost(errors0),
                );
                proof {
                    let d = entity_entry(*schema, si, ei);
                    assert(all[1 + ei] == d);
                    assert(start + all.take(1 + ei + 1) =~= (start + all.take(1 + ei)).push(d));
                    done = done.push(d);
                }
                ei += 1;
            }
            let mut ti: usize = 0;
            while ti < schema.types.len()
                invariant
                    ti <= schema.types.len(),
                    si < st.schemas.len(),
                    schema == &st.schemas@[si as int],
                    all == declarations_of(*schema, si),
                    scope@ == schema_scope(*schema),
                    done == start + all.take(1 + schema.entities@.len() + ti),
                    ns@ == inserted(done).0,
                    error_views(errors@) == errors0 + inserted(done).1,
                    ns.wf(),
                decreases schema.types.len() - ti,
            {
                let decl = &schema.types[ti];
                ns.declare(
                    Path::type_(&scope, decl.name.as_str()),
                    AstRef { node: Node::Type { schema: si, ty: ti }, span: decl.span.0 },
                    errors,
                    Ghost(done),
                    Ghost(errors0),
                );
                proof {
                    let d = type_entry(*schema, si, ti);
                    let at = 1 + schema.entities@.len() + ti;
                    assert(all[at] == d);
                    assert(start + all.take(at + 1) =~= (start + all.take(at)).push(d));
                    done = done.push(d);
                }
                ti += 1;
            }
            proof {
                assert(all.take(all.len() as int) =~= all);
                assert(declarations(st.schemas@, (si + 1) as nat) == start + all);
            }
            si += 1;
        }
        ns
    }
}

/// The indices of the supertypes of entry `i` of the namespace: those of
/// the entity that the entry is, none for another entry.
pub open spec fn supertypes_of_entry(ns: Seq<EntryView>, st: ast::SyntaxTree, i: int) -> Seq<usize> {
    match ns[i].ast.node {
        Node::Entity { schema: si, entity: ei } => if si < st.schemas@.len() && ei
            < st.schemas@[si as int].entities@.len() {
            supertype_indices(
                ns,
                st.schemas@[si as int],
                st.schemas@[si as int].entities@[ei as int],
            )
        } else {
            Seq::empty()
        },
        _ => Seq::empty(),
    }
}

/// The graph of supertypes: a node for each entry of the namespace, an
/// edge from each entity to each of its supertypes.
pub open spec fn supertype_graph(ns: Seq<EntryView>, st: ast::SyntaxTree) -> Seq<Seq<usize>> {
    Seq::new(ns.len(), |i: int| supertypes_of_entry(ns, st, i))
}

/// The diagnostic for the entities `nodes` caught in circles of
/// supertypes: it stands at the first of them and names them all.
pub open spec fn cycle_error(ns: Seq<EntryView>, nodes: Seq<usize>) -> ErrorView {
    let first = ns[nodes[0] as int];
    ErrorView {
        kind: ErrorKind::CyclicSupertype,
        span: first.ast.span,
        secondary: None,
        scope: first.path.scope,
        identifier: first.path.name,
        involved: paths_at(ns, nodes),
    }
}

/// The diagnostics of the first `n` schemas, in their order.
pub open spec fn all_schema_errors(ns: Seq<EntryView>, schemas: Seq<ast::Schema>, n: nat) -> Seq<
    ErrorView,
>
    decreases n,
{
    if n == 0 || n > schemas.len() {
        Seq::empty()
    } else {
        all_schema_errors(ns, schemas, (n - 1) as nat) + schema_errors(ns, schemas[n - 1])
    }
}

/// `out` holds the first `n` schemas, one for one, compiled.
pub open spec fn schemas_match(
    ns: Seq<EntryView>,
    schemas: Seq<ast::Schema>,
    n: nat,
    out: Seq<Schema>,
) -> bool {
    &&& out.len() == n
    &&& n <= schemas.len()
    &&& forall|k: int| 0 <= k < n ==> schema_matches(ns, schemas[k], #[trigger] out[k])
}

/// Every diagnostic of a syntax tree: those of its declarations, then
/// those of its schemas. Where there is none of these, supertypes are
/// checked for circles, which gives one diagnostic or none.
pub open spec fn diagnostics(st: ast::SyntaxTree) -> Seq<ErrorView> {
    let ns = namespace_of(st);
    let found = namespace_errors(st) + all_schema_errors(ns, st.schemas@, st.schemas@.len());
    if found.len() > 0 {
        found
    } else if acyclic(supertype_graph(ns, st)) {
        Seq::empty()
    } else {
        seq![cycle_error(ns, caught_list(supertype_graph(ns, st)))]
    }
}

/// `ir` is the syntax tree `st` compiled: its schemas compiled one for
/// one against the namespace of the tree.
pub open spec fn ir_matches(st: ast::SyntaxTree, ir: IR) -> bool {
    schemas_match(namespace_of(st), st.schemas@, st.schemas@.len(), ir.schemas@)
}

impl IR {
    /// The graph of supertypes of `st` over the entries of `ns`.
    fn supertype_graph(ns: &Namespace, st: &ast::SyntaxTree) -> (g: Vec<Vec<usize>>)
        ensures
            edges(g@) == supertype_graph(ns@, *st),
            g@.len() == ns@.len(),
    {
        let root = Scope::root();
        let mut g: Vec<Vec<usize>> = Vec::new();
        let mut i: usize = 0;
        let n = ns.len();
        while i < n
            invariant
                i <= n,
                n == ns@.len(),
                root@ == Seq::<Segment>::empty(),
                g@.len() == i,
                forall|k: int| 0 <= k < i ==> (#[trigger] g@[k])@ == supertypes_of_entry(ns@, *st, k),
            decreases n - i,
        {
            let (_path, ast) = ns.indexed(i);
            let mut supers: Vec<usize> = Vec::new();
            match ast.node {
                Node::Entity { schema: si, entity: ei } => {
                    if si < st.schemas.len() && ei < st.schemas[si].entities.len() {
                        let schema = &st.schemas[si];
                        let entity = &schema.entities[ei];
                        let scope = root.schema(schema.name.as_str()).entity(entity.name.as_str());
                        proof {
                            assert(scope@ =~= entity_scope(*schema, *entity));
                        }
                        let mut scratch: Vec<SemanticError> = Vec::new();
                        let (_paths, indices) = resolve_references(
                            ns,
                            &scope,
                            &entity.subtype_of,
                            true,
                            &mut scratch,
                        );
                        supers = indices;
                    }
                },
                _ => {},
            }
            let ghost before = g@;
            g.push(supers);
            proof {
                assert forall|k: int| 0 <= k < i + 1 implies (#[trigger] g@[k])@
                    == supertypes_of_entry(ns@, *st, k) by {
                    if k < i {
                        assert(g@[k] == before[k]);
                    }
                }
            }
            i += 1;
        }
        proof {
            assert(edges(g@) =~= supertype_graph(ns@, *st));
        }
        g
    }

    /// The diagnostic for the entities `nodes` caught in circles of supertypes.
    fn cycle_error(ns: &Namespace, nodes: &Vec<usize>) -> (e: SemanticError)
        requires
            nodes@.len() > 0,
            indices_within(ns@, nodes@),
        ensures
            e@ == cycle_error(ns@, nodes@),
    {
        let mut involved: Vec<Path> = Vec::new();
        let mut k: usize = 0;
        proof {
            assert(path_views(involved@) =~= paths_at(ns@, nodes@.take(0)));
        }
        while k < nodes.len()
            invariant
                k <= nodes.len(),
                indices_within(ns@, nodes@),
                path_views(involved@) == paths_at(ns@, nodes@.take(k as int)),
            decreases nodes.len() - k,
        {
            let ghost before = involved@;
            let path = ns.indexed(nodes[k]).0.clone();
            involved.push(path);
            proof {
                lemma_path_views_push(before, path);
                assert(paths_at(ns@, nodes@.take(k + 1)) =~= paths_at(
                    ns@,
                    nodes@.take(k as int),
                ).push(path@));
            }
            k += 1;
        }
        proof {
            assert(nodes@.take(k as int) =~= nodes@);
        }
        let (path, ast) = ns.indexed(nodes[0]);
        SemanticError::new(ErrorKind::CyclicSupertype, &path.scope, path.name.as_str()).at(
            ast.span,
        ).with_involved(involved)
    }

    /// Compiles the syntax tree `st` into the intermediate representation.
    ///
    /// All declarations are entered into the namespace; then every schema
    /// is compiled; then, if nothing was found so far, the supertypes are
    /// checked for circles. Every diagnostic met is collected, as
    /// [`diagnostics`] lists them. The result is the representation if
    /// there is none, and the list of them otherwise: never both, and the
    /// list is never empty.
    pub fn from_syntax_tree(st: &ast::SyntaxTree) -> (r: Result<IR, Vec<SemanticError>>)
        ensures
            match r {
                Ok(ir) => diagnostics(*st).len() == 0 && ir_matches(*st, ir),
                Err(errors) => errors@.len() > 0 && error_views(errors@) == diagnostics(*st),
            },
    {
        let mut errors: Vec<SemanticError> = Vec::new();
        proof {
            assert(error_views(errors@) =~= Seq::<ErrorView>::empty());
        }
        let ns = Namespace::from_syntax_tree(st, &mut errors);
        let ghost declared = namespace_errors(*st);
        proof {
            assert(Seq::<ErrorView>::empty() + declared =~= declared);
        }
        let mut schemas: Vec<Schema> = Vec::new();
        let mut failed = false;
        let mut k: usize = 0;
        proof {
            assert(declared + Seq::<ErrorView>::empty() =~= declared);
        }
        while k < st.schemas.len()
            invariant
                k <= st.schemas.len(),
                ns@ == namespace_of(*st),
                declared == namespace_errors(*st),
                error_views(errors@) == declared + all_schema_errors(ns@, st.schemas@, k as nat),
                failed <==> all_schema_errors(ns@, st.schemas@, k as nat).len() > 0,
                !failed ==> schemas_match(ns@, st.schemas@, k as nat, schemas@),
            decreases st.schemas.len() - k,
        {
            let ghost sofar = all_schema_errors(ns@, st.schemas@, k as nat);
            let ghost one = schema_errors(ns@, st.schemas@[k as int]);
            let ghost before = schemas@;
            proof {
                assert(all_schema_errors(ns@, st.schemas@, (k + 1) as nat) == sofar + one);
                assert(declared + sofar + one =~= declared + (sofar + one));
            }
            match Schema::compile(&ns, &st.schemas[k], &mut errors) {
                Some(schema) => {
                    if !failed {
                        schemas.push(schema);
                        proof {
                            assert forall|j: int| 0 <= j < k + 1 implies schema_matches(
                                ns@,
                                st.schemas@[j],
                                #[trigger] schemas@[j],
                            ) by {
                                if j < k {
                                    assert(schemas@[j] == before[j]);
                                }
                            }
                        }
                    }
                },
                None => {
                    failed = true;
                },
            }
            k += 1;
        }
        proof {
            lemma_error_views_len(errors@);
        }
        if errors.len() > 0 {
            return Err(errors);
        }
        let g = Self::supertype_graph(&ns, st);
        let nodes = caught_nodes(&g);
        if nodes.len() > 0 {
            proof {
                assert forall|j: int| 0 <= j < nodes@.len() implies #[trigger] nodes@[j]
                    < ns@.len() by {
                    assert(nodes@.contains(nodes@[j]));
                    assert(super::cycle::caught(edges(g@), nodes@[j] as int));
                }
            }
            let e = Self::cycle_error(&ns, &nodes);
            let ghost before = errors@;
            errors.push(e);
            proof {
                lemma_error_views_push(before, e);
                assert(error_views(errors@) =~= seq![e@]);
            }
            return Err(errors);
        }
        Ok(IR { schemas })
    }
}

} // verus!
