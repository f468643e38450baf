//! Declarations: entities and types, the schemas that hold them, and the
//! whole input.

use super::remark_views;
use super::remarks_in;
use super::spec_simple_id;
use super::is_at;
use super::subsuper::lemma_reference_views_push;
use super::sp;
use super::span;
use super::subsuper::spec_more_references;
use super::subsuper::spec_reference;
use super::subsuper::spec_subsuper;
use super::types::spec_type;
use super::types::spec_type_decl;
use super::word_at;
use super::ParseResult;
use super::Source;
use super::TokenizeFailed;
use crate::ast::attribute_views;
use crate::ast::entity_views;
use crate::ast::reference_views;
use crate::ast::schema_views;
use crate::ast::type_decl_views;
use crate::ast::Attribute;
use crate::ast::Component;
use crate::ast::AttributeView;
use crate::ast::Entity;
use crate::ast::EntityView;
use crate::ast::Place;
use crate::ast::Reference;
use crate::ast::ReferenceView;
use crate::ast::Remark;
use crate::ast::Schema;
use crate::ast::SchemaView;
use crate::ast::SyntaxTree;
use crate::ast::SyntaxTreeView;
use crate::ast::TypeDecl;
use crate::ast::TypeDeclView;
use crate::ast::UnderlyingView;
use vstd::prelude::*;

verus! {

/// The attributes declared together: one for each name, all of the type `ty`.
pub open spec fn attributes_of(refs: Seq<ReferenceView>, ty: UnderlyingView, optional: bool) -> Seq<
    AttributeView,
> {
    refs.map_values(|r: ReferenceView| AttributeView { name: r.name, ty, optional, span: r.span })
}

/// 215 explicit_attr = attribute_decl { `,` attribute_decl } `:` \[ OPTIONAL \] parameter_type `;` .
pub open spec fn spec_explicit_attr(s: Seq<char>, pos: int) -> Result<(Seq<AttributeView>, int), int> {
    match spec_reference(s, pos) {
        Err(at) => Err(at),
        Ok((first, p1)) => {
            let (more, p2) = spec_more_references(s, p1);
            let p3 = sp(s, p2);
            if !is_at(s, p3, ':') {
                Err(p3)
            } else {
                let p4 = sp(s, p3 + 1);
                let (optional, p5) = if word_at(s, p4, "OPTIONAL"@) {
                    (true, sp(s, p4 + "OPTIONAL"@.len()))
                } else {
                    (false, p4)
                };
                match spec_type(s, p5) {
                    Err(at) => Err(at),
                    Ok((ty, p6)) => {
                        let p7 = sp(s, p6);
                        if is_at(s, p7, ';') {
                            Ok((attributes_of(seq![first] + more, ty, optional), p7 + 1))
                        } else {
                            Err(p7)
                        }
                    },
                }
            }
        },
    }
}

/// 204 entity_body = { explicit_attr } .
pub open spec fn spec_attributes(s: Seq<char>, pos: int) -> (Seq<AttributeView>, int)
    decreases s.len() - pos,
{
    match spec_explicit_attr(s, sp(s, pos)) {
        Ok((attrs, end)) => if 0 <= pos < end <= s.len() {
            (attrs + spec_attributes(s, end).0, spec_attributes(s, end).1)
        } else {
            (Seq::empty(), pos)
        },
        Err(_) => (Seq::empty(), pos),
    }
}

/// 206 entity_decl = entity_head entity_body END_ENTITY `;` .
///
/// 207 entity_head = ENTITY entity_id subsuper `;` .
pub open spec fn spec_entity_decl(s: Seq<char>, pos: int) -> Result<(EntityView, int), int> {
    if !word_at(s, pos, "ENTITY"@) {
        Err(pos)
    } else {
        match spec_simple_id(s, sp(s, pos + "ENTITY"@.len())) {
            Err(at) => Err(at),
            Ok((name, p1)) => {
                let (subsuper, p2) = spec_subsuper(s, p1);
                let p3 = sp(s, p2);
                if !is_at(s, p3, ';') {
                    Err(p3)
                } else {
                    let (attributes, p4) = spec_attributes(s, p3 + 1);
                    let p5 = sp(s, p4);
                    if !word_at(s, p5, "END_ENTITY"@) {
                        Err(p5)
                    } else {
                        let p6 = sp(s, p5 + "END_ENTITY"@.len());
                        if is_at(s, p6, ';') {
                            Ok(
                                (
                                    EntityView {
                                        name,
                                        attributes,
                                        subtype_of: subsuper.subtype_of,
                                        constraint: subsuper.constraint,
                                        is_abstract: subsuper.is_abstract,
                                        span: span(pos, p6 + 1),
                                    },
                                    p6 + 1,
                                ),
                            )
                        } else {
                            Err(p6)
                        }
                    }
                }
            },
        }
    }
}

/// A declaration of a schema.
#[derive(Debug, PartialEq, Eq)]
pub enum Declaration {
    Entity(Entity),
    Type(TypeDecl),
}

/// A declaration as plain values.
pub enum DeclarationView {
    Entity(EntityView),
    Type(TypeDeclView),
}

impl View for Declaration {
    type V = DeclarationView;

    open spec fn view(&self) -> DeclarationView {
        match self {
            Declaration::Entity(e) => DeclarationView::Entity(e@),
            Declaration::Type(t) => DeclarationView::Type(t@),
        }
    }
}

/// 199 declaration = entity_decl | function_decl | procedure_decl | subtype_constraint_decl | type_decl .
///
/// An entity or a type; where neither is there, the failure is that of the type.
pub open spec fn spec_declaration(s: Seq<char>, pos: int) -> Result<(DeclarationView, int), int> {
    match spec_entity_decl(s, pos) {
        Ok((e, end)) => Ok((DeclarationView::Entity(e), end)),
        Err(_) => match spec_type_decl(s, pos) {
            Ok((t, end)) => Ok((DeclarationView::Type(t), end)),
            Err(at) => Err(at),
        },
    }
}

/// 295 schema_body = { interface_specification } \[ constant_decl \] { declaration | rule_decl } .
///
/// The entities and the types declared from `pos` on, each kind in its
/// order, and where the declarations end.
pub open spec fn spec_schema_body(s: Seq<char>, pos: int) -> (
    Seq<EntityView>,
    Seq<TypeDeclView>,
    int,
)
    decreases s.len() - pos,
{
    match spec_declaration(s, sp(s, pos)) {
        Ok((d, end)) => if 0 <= pos < end <= s.len() {
            let rest = spec_schema_body(s, end);
            match d {
                DeclarationView::Entity(e) => (seq![e] + rest.0, rest.1, rest.2),
                DeclarationView::Type(t) => (rest.0, seq![t] + rest.1, rest.2),
            }
        } else {
            (Seq::empty(), Seq::empty(), pos)
        },
        Err(_) => (Seq::empty(), Seq::empty(), pos),
    }
}

/// 296 schema_decl = SCHEMA schema_id \[ schema_version_id \] `;` schema_body END_SCHEMA `;` .
pub open spec fn spec_schema_decl(s: Seq<char>, pos: int) -> Result<(SchemaView, int), int> {
    if !word_at(s, pos, "SCHEMA"@) {
        Err(pos)
    } else {
        match spec_simple_id(s, sp(s, pos + "SCHEMA"@.len())) {
            Err(at) => Err(at),
            Ok((name, p1)) => {
                let p2 = sp(s, p1);
                if !is_at(s, p2, ';') {
                    Err(p2)
                } else {
                    let (entities, types, p3) = spec_schema_body(s, p2 + 1);
                    let p4 = sp(s, p3);
                    if !word_at(s, p4, "END_SCHEMA"@) {
                        Err(p4)
                    } else {
                        let p5 = sp(s, p4 + "END_SCHEMA"@.len());
                        if is_at(s, p5, ';') {
                            Ok(
                                (
                                    SchemaView {
                                        name,
                                        types,
                                        entities,
                                        remarks: remarks_in(s, pos, p5 + 1),
                                        span: span(pos, p5 + 1),
                                    },
                                    p5 + 1,
                                ),
                            )
                        } else {
                            Err(p5)
                        }
                    }
                }
            },
        }
    }
}

/// `{ schema_decl }`
pub open spec fn spec_more_schemas(s: Seq<char>, pos: int) -> (Seq<SchemaView>, int)
    decreases s.len() - pos,
{
    match spec_schema_decl(s, sp(s, pos)) {
        Ok((schema, end)) => if 0 <= pos < end <= s.len() {
            (seq![schema] + spec_more_schemas(s, end).0, spec_more_schemas(s, end).1)
        } else {
            (Seq::empty(), pos)
        },
        Err(_) => (Seq::empty(), pos),
    }
}

/// The whole input: one schema or more, blanks and remarks around them,
/// and nothing else. Where something else follows the schemas, the
/// failure is that of the schema which does not start there.
pub open spec fn spec_syntax_tree(s: Seq<char>) -> Result<SyntaxTreeView, int> {
    match spec_schema_decl(s, sp(s, 0)) {
        Err(at) => Err(at),
        Ok((first, p1)) => {
            let (more, p2) = spec_more_schemas(s, p1);
            let p3 = sp(s, p2);
            if p3 == s.len() {
                Ok(
                    SyntaxTreeView {
                        schemas: seq![first] + more,
                        remarks: remarks_in(s, 0, s.len() as int),
                    },
                )
            } else {
                match spec_schema_decl(s, p3) {
                    Err(at) => Err(at),
                    Ok(_) => Err(p3),
                }
            }
        },
    }
}

/// The views after a push are the views before it, and the view of what was pushed.
proof fn lemma_entity_views_push(a: Seq<Entity>, e: Entity)
    ensures
        entity_views(a.push(e)) == entity_views(a).push(e@),
{
    assert(entity_views(a.push(e)) =~= entity_views(a).push(e@));
}

/// The views after a push are the views before it, and the view of what was pushed.
proof fn lemma_type_decl_views_push(a: Seq<TypeDecl>, t: TypeDecl)
    ensures
        type_decl_views(a.push(t)) == type_decl_views(a).push(t@),
{
    assert(type_decl_views(a.push(t)) =~= type_decl_views(a).push(t@));
}

/// The views after a push are the views before it, and the view of what was pushed.
proof fn lemma_schema_views_push(a: Seq<Schema>, x: Schema)
    ensures
        schema_views(a.push(x)) == schema_views(a).push(x@),
{
    assert(schema_views(a.push(x)) =~= schema_views(a).push(x@));
}

/// Putting one element before a sequence that follows others is the
/// same as putting it behind the others.
proof fn lemma_push_then_add<T>(a: Seq<T>, x: T, b: Seq<T>)
    ensures
        a.push(x) + b == a + (seq![x] + b),
{
    assert(a.push(x) + b =~= a + (seq![x] + b));
}

/// The views of a concatenation are the concatenation of the views.
proof fn lemma_attribute_views_add(a: Seq<Attribute>, b: Seq<Attribute>)
    ensures
        attribute_views(a + b) == attribute_views(a) + attribute_views(b),
{
    assert(attribute_views(a + b) =~= attribute_views(a) + attribute_views(b));
}

impl<'a> Source<'a> {
    /// An attribute declaration at `pos`: an attribute for each name.
    fn attribute_group_at(&self, pos: usize) -> (r: Result<(Vec<Attribute>, usize), usize>)
        requires
            pos <= self@.len(),
        ensures
            match spec_explicit_attr(self@, pos as int) {
                Ok((v, end)) => r matches Ok(x) && attribute_views(x.0@) == v && x.1 == end && pos
                    < end <= self@.len(),
                Err(at) => r matches Err(e) && e == at,
            },
    {
        proof {
            reveal_strlit("OPTIONAL");
        }
        match self.reference_at(pos) {
            Err(at) => Err(at),
            Ok((first, p1)) => {
                let ghost fv = first@;
                let mut refs: Vec<Reference> = Vec::new();
                refs.push(first);
                proof {
                    assert(reference_views(refs@) =~= seq![fv]);
                }
                let p2 = self.more_names_with_places(p1, &mut refs);
                let p3 = self.skip(p2);
                if !self.is_at(p3, ':') {
                    return Err(p3);
                }
                let p4 = self.skip(p3 + 1);
                let (optional, p5) = match self.keyword(p4, "OPTIONAL") {
                    Some(after) => (true, self.skip(after)),
                    None => (false, p4),
                };
                match self.type_at(p5) {
                    Err(at) => Err(at),
                    Ok((ty, p6)) => {
                        let p7 = self.skip(p6);
                        if !self.is_at(p7, ';') {
                            return Err(p7);
                        }
                        let ghost tv = ty@;
                        let ghost all = attributes_of(reference_views(refs@), tv, optional);
                        let mut out: Vec<Attribute> = Vec::new();
                        let mut k: usize = 0;
                        proof {
                            assert(attribute_views(out@) =~= all.take(0));
                        }
                        while k < refs.len()
                            invariant
                                k <= refs.len(),
                                p5 <= self@.len(),
                                spec_type(self@, p5 as int) matches Ok(x) && x.0 == tv,
                                all == attributes_of(reference_views(refs@), tv, optional),
                                attribute_views(out@) == all.take(k as int),
                            decreases refs.len() - k,
                        {
                            let ghost before = out@;
                            match self.type_at(p5) {
                                Ok((again, _)) => {
                                    let a = Attribute {
                                        name: refs[k].name.clone(),
                                        ty: again,
                                        optional,
                                        span: refs[k].span,
                                    };
                                    out.push(a);
                                    proof {
                                        assert(all[k as int] == a@);
                                        assert(attribute_views(out@) =~= attribute_views(
                                            before,
                                        ).push(a@));
                                        assert(all.take(k + 1) =~= all.take(k as int).push(a@));
                                    }
                                },
                                Err(_) => {
                                    proof {
                                        assert(false);
                                    }
                                },
                            }
                            k += 1;
                        }
                        proof {
                            assert(all.take(k as int) =~= all);
                        }
                        Ok((out, p7 + 1))
                    },
                }
            },
        }
    }

    /// `{ , id }` at `pos`: puts the names, each with its place, behind `refs`.
    fn more_names_with_places(&self, pos: usize, refs: &mut Vec<Reference>) -> (end: usize)
        requires
            pos <= self@.len(),
        ensures
            reference_views(final(refs)@) == reference_views(old(refs)@) + spec_more_references(
                self@,
                pos as int,
            ).0,
            end == spec_more_references(self@, pos as int).1,
            pos <= end <= self@.len(),
        decreases self@.len() - pos,
    {
        let ghost before = reference_views(refs@);
        proof {
            assert(before + Seq::<ReferenceView>::empty() =~= before);
        }
        let p1 = self.skip(pos);
        if !self.is_at(p1, ',') {
            return pos;
        }
        let p2 = self.skip(p1 + 1);
        match self.reference_at(p2) {
            Err(_) => pos,
            Ok((r, end)) => {
                let ghost rv = r@;
                let ghost old_refs = refs@;
                refs.push(r);
                proof {
                    lemma_reference_views_push(old_refs, r);
                }
                let last = self.more_names_with_places(end, refs);
                proof {
                    let rest = spec_more_references(self@, end as int).0;
                    assert(before.push(rv) + rest =~= before + (seq![rv] + rest));
                }
                last
            },
        }
    }

    /// `{ explicit_attr }` at `pos`: puts the attributes behind `out`.
    fn attributes_at(&self, pos: usize, out: &mut Vec<Attribute>) -> (end: usize)
        requires
            pos <= self@.len(),
        ensures
            attribute_views(final(out)@) == attribute_views(old(out)@) + spec_attributes(
                self@,
                pos as int,
            ).0,
            end == spec_attributes(self@, pos as int).1,
            pos <= end <= self@.len(),
        decreases self@.len() - pos,
    {
        let ghost before = attribute_views(out@);
        proof {
            assert(before + Seq::<AttributeView>::empty() =~= before);
        }
        let p1 = self.skip(pos);
        match self.attribute_group_at(p1) {
            Err(_) => pos,
            Ok((group, end)) => {
                let ghost gv = attribute_views(group@);
                let ghost a = out@;
                let ghost b = group@;
                let mut group = group;
                out.append(&mut group);
                proof {
                    lemma_attribute_views_add(a, b);
                }
                let last = self.attributes_at(end, out);
                proof {
                    let rest = spec_attributes(self@, end as int).0;
                    assert((before + gv) + rest =~= before + (gv + rest));
                }
                last
            },
        }
    }

    /// An entity declaration at `pos`.
    pub fn entity_decl_at(&self, pos: usize) -> (r: Result<(Entity, usize), usize>)
        requires
            pos <= self@.len(),
        ensures
            match spec_entity_decl(self@, pos as int) {
                Ok((v, end)) => r matches Ok(x) && x.0@ == v && x.1 == end && pos < end
                    <= self@.len(),
                Err(at) => r matches Err(e) && e == at,
            },
    {
        let after = match self.keyword(pos, "ENTITY") {
            None => {
                return Err(pos);
            },
            Some(after) => after,
        };
        let p0 = self.skip(after);
        match self.simple_id_at(p0) {
            Err(at) => Err(at),
            Ok((name, p1)) => {
                let (subsuper, p2) = self.subsuper_at(p1);
                let p3 = self.skip(p2);
                if !self.is_at(p3, ';') {
                    return Err(p3);
                }
                let mut attributes: Vec<Attribute> = Vec::new();
                proof {
                    assert(attribute_views(attributes@) =~= Seq::<AttributeView>::empty());
                    assert(Seq::<AttributeView>::empty() + spec_attributes(self@, p3 + 1).0
                        =~= spec_attributes(self@, p3 + 1).0);
                }
                let p4 = self.attributes_at(p3 + 1, &mut attributes);
                let p5 = self.skip(p4);
                let after = match self.keyword(p5, "END_ENTITY") {
                    None => {
                        return Err(p5);
                    },
                    Some(after) => after,
                };
                let p6 = self.skip(after);
                if self.is_at(p6, ';') {
                    Ok(
                        (
                            Entity {
                                name,
                                attributes,
                                subtype_of: subsuper.subtype_of,
                                constraint: subsuper.constraint,
                                is_abstract: subsuper.is_abstract,
                                span: Place::new(pos, p6 + 1),
                            },
                            p6 + 1,
                        ),
                    )
                } else {
                    Err(p6)
                }
            },
        }
    }

    /// A declaration at `pos`.
    pub fn declaration_at(&self, pos: usize) -> (r: Result<(Declaration, usize), usize>)
        requires
            pos <= self@.len(),
        ensures
            match spec_declaration(self@, pos as int) {
                Ok((v, end)) => r matches Ok(x) && x.0@ == v && x.1 == end && pos < end
                    <= self@.len(),
                Err(at) => r matches Err(e) && e == at,
            },
    {
        match self.entity_decl_at(pos) {
            Ok((e, end)) => Ok((Declaration::Entity(e), end)),
            Err(_) => match self.type_decl_at(pos) {
                Ok((t, end)) => Ok((Declaration::Type(t), end)),
                Err(at) => Err(at),
            },
        }
    }

    /// `{ declaration }` at `pos`: puts the entities behind `entities`
    /// and the types behind `types`.
    pub fn schema_body_at(&self, pos: usize, entities: &mut Vec<Entity>, types: &mut Vec<TypeDecl>) -> (end:
        usize)
        requires
            pos <= self@.len(),
        ensures
            entity_views(final(entities)@) == entity_views(old(entities)@) + spec_schema_body(
                self@,
                pos as int,
            ).0,
            type_decl_views(final(types)@) == type_decl_views(old(types)@) + spec_schema_body(
                self@,
                pos as int,
            ).1,
            end == spec_schema_body(self@, pos as int).2,
            pos <= end <= self@.len(),
        decreases self@.len() - pos,
    {
        let ghost e0 = entity_views(entities@);
        let ghost t0 = type_decl_views(types@);
        proof {
            assert(e0 + Seq::<EntityView>::empty() =~= e0);
            assert(t0 + Seq::<TypeDeclView>::empty() =~= t0);
        }
        let ghost whole = spec_schema_body(self@, pos as int);
        let p1 = self.skip(pos);
        match self.declaration_at(p1) {
            Err(_) => {
                proof {
                    assert(whole == (
                        Seq::<EntityView>::empty(),
                        Seq::<TypeDeclView>::empty(),
                        pos as int,
                    ));
                }
                pos
            },
            Ok((d, end)) => {
                let ghost rest = spec_schema_body(self@, end as int);
                match d {
                    Declaration::Entity(e) => {
                        let ghost ev = e@;
                        let ghost before = entities@;
                        entities.push(e);
                        proof {
                            assert(whole == (seq![ev] + rest.0, rest.1, rest.2));
                            lemma_entity_views_push(before, e);
                        }
                        let last = self.schema_body_at(end, entities, types);
                        proof {
                            lemma_push_then_add(e0, ev, rest.0);
                        }
                        last
                    },
                    Declaration::Type(t) => {
                        let ghost tv = t@;
                        let ghost before = types@;
                        types.push(t);
                        proof {
                            assert(whole == (rest.0, seq![tv] + rest.1, rest.2));
                            lemma_type_decl_views_push(before, t);
                        }
                        let last = self.schema_body_at(end, entities, types);
                        proof {
                            lemma_push_then_add(t0, tv, rest.1);
                        }
                        last
                    },
                }
            },
        }
    }

    /// A schema at `pos`.
    pub fn schema_decl_at(&self, pos: usize) -> (r: Result<(Schema, usize), usize>)
        requires
            pos <= self@.len(),
        ensures
            match spec_schema_decl(self@, pos as int) {
                Ok((v, end)) => r matches Ok(x) && x.0@ == v && x.1 == end && pos < end
                    <= self@.len(),
                Err(at) => r matches Err(e) && e == at,
            },
    {
        let after = match self.keyword(pos, "SCHEMA") {
            None => {
                return Err(pos);
            },
            Some(after) => after,
        };
        let p0 = self.skip(after);
        match self.simple_id_at(p0) {
            Err(at) => Err(at),
            Ok((name, p1)) => {
                let p2 = self.skip(p1);
                if !self.is_at(p2, ';') {
                    return Err(p2);
                }
                let mut entities: Vec<Entity> = Vec::new();
                let mut types: Vec<TypeDecl> = Vec::new();
                proof {
                    let body = spec_schema_body(self@, p2 + 1);
                    assert(entity_views(entities@) =~= Seq::<EntityView>::empty());
                    assert(type_decl_views(types@) =~= Seq::<TypeDeclView>::empty());
                    assert(Seq::<EntityView>::empty() + body.0 =~= body.0);
                    assert(Seq::<TypeDeclView>::empty() + body.1 =~= body.1);
                }
                let p3 = self.schema_body_at(p2 + 1, &mut entities, &mut types);
                let p4 = self.skip(p3);
                let after = match self.keyword(p4, "END_SCHEMA") {
                    None => {
                        return Err(p4);
                    },
                    Some(after) => after,
                };
                let p5 = self.skip(after);
                if self.is_at(p5, ';') {
                    let remarks = self.remarks_in(pos, p5 + 1);
                    Ok(
                        (
                            Schema { name, types, entities, remarks, span: Place::new(pos, p5 + 1) },
                            p5 + 1,
                        ),
                    )
                } else {
                    Err(p5)
                }
            },
        }
    }

    /// `{ schema_decl }` at `pos`: puts the schemas behind `out`.
    fn more_schemas_at(&self, pos: usize, out: &mut Vec<Schema>) -> (end: usize)
        requires
            pos <= self@.len(),
        ensures
            schema_views(final(out)@) == schema_views(old(out)@) + spec_more_schemas(
                self@,
                pos as int,
            ).0,
            end == spec_more_schemas(self@, pos as int).1,
            pos <= end <= self@.len(),
        decreases self@.len() - pos,
    {
        let ghost before = schema_views(out@);
        proof {
            assert(before + Seq::<SchemaView>::empty() =~= before);
        }
        let p1 = self.skip(pos);
        match self.schema_decl_at(p1) {
            Err(_) => pos,
            Ok((schema, end)) => {
                let ghost sv = schema@;
                let ghost old_out = out@;
                out.push(schema);
                proof {
                    lemma_schema_views_push(old_out, schema);
                }
                let last = self.more_schemas_at(end, out);
                proof {
                    lemma_push_then_add(before, sv, spec_more_schemas(self@, end as int).0);
                }
                last
            },
        }
    }

    /// The whole input as a syntax tree.
    pub fn syntax_tree(&self) -> (r: Result<SyntaxTree, usize>)
        ensures
            match spec_syntax_tree(self@) {
                Ok(v) => r matches Ok(x) && x@ == v,
                Err(at) => r matches Err(e) && e == at,
            },
    {
        let n = self.len();
        let p0 = self.skip(0);
        match self.schema_decl_at(p0) {
            Err(at) => Err(at),
            Ok((first, p1)) => {
                let ghost fv = first@;
                let mut schemas: Vec<Schema> = Vec::new();
                schemas.push(first);
                proof {
                    assert(schema_views(schemas@) =~= seq![fv]);
                }
                let p2 = self.more_schemas_at(p1, &mut schemas);
                let p3 = self.skip(p2);
                if p3 == n {
                    let remarks = self.remarks_in(0, n);
                    Ok(SyntaxTree { schemas, remarks })
                } else {
                    match self.schema_decl_at(p3) {
                        Err(at) => Err(at),
                        Ok(_) => Err(p3),
                    }
                }
            },
        }
    }
}

/// 206 entity_decl = entity_head entity_body END_ENTITY `;` .
pub fn entity_decl<'a>(input: &'a str) -> (r: ParseResult<'a, Entity>)
    ensures
        match spec_entity_decl(input@, 0) {
            Ok((v, end)) => r matches Ok((rest, (value, found))) && rest@ == input@.skip(end)
                && value@ == v && remark_views(found@) == remarks_in(input@, 0, end),
            Err(at) => r matches Err(e) && e.offset == at,
        },
{
    let src = Source::new(input);
    match src.entity_decl_at(0) {
        Ok((value, end)) => Ok((src.rest(end), (value, src.remarks_in(0, end)))),
        Err(at) => Err(TokenizeFailed { offset: at }),
    }
}

/// 327 type_decl = TYPE type_id `=` underlying_type `;` \[ where_clause \] END_TYPE `;` .
pub fn type_decl<'a>(input: &'a str) -> (r: ParseResult<'a, TypeDecl>)
    ensures
        match spec_type_decl(input@, 0) {
            Ok((v, end)) => r matches Ok((rest, (value, found))) && rest@ == input@.skip(end)
                && value@ == v && remark_views(found@) == remarks_in(input@, 0, end),
            Err(at) => r matches Err(e) && e.offset == at,
        },
{
    let src = Source::new(input);
    match src.type_decl_at(0) {
        Ok((value, end)) => Ok((src.rest(end), (value, src.remarks_in(0, end)))),
        Err(at) => Err(TokenizeFailed { offset: at }),
    }
}

/// 199 declaration = [entity_decl] | [function_decl] | [procedure_decl] | [subtype_constraint_decl] | [type_decl] .
pub fn declaration<'a>(input: &'a str) -> (r: ParseResult<'a, Declaration>)
    ensures
        match spec_declaration(input@, 0) {
            Ok((v, end)) => r matches Ok((rest, (value, found))) && rest@ == input@.skip(end)
                && value@ == v && remark_views(found@) == remarks_in(input@, 0, end),
            Err(at) => r matches Err(e) && e.offset == at,
        },
{
    let src = Source::new(input);
    match src.declaration_at(0) {
        Ok((value, end)) => Ok((src.rest(end), (value, src.remarks_in(0, end)))),
        Err(at) => Err(TokenizeFailed { offset: at }),
    }
}

/// 295 schema_body = { [interface_specification] } \[ [constant_decl] \] { [declaration] | [rule_decl] } .
///
/// The entities and the types declared at the start of `input`, each
/// kind in its order. It does not fail: where no declaration stands,
/// both lists are empty and nothing is read.
pub fn schema_body<'a>(input: &'a str) -> (r: ParseResult<'a, (Vec<Entity>, Vec<TypeDecl>)>)
    ensures
        r matches Ok((rest, (value, found))) && rest@ == input@.skip(spec_schema_body(input@, 0).2)
            && entity_views(value.0@) == spec_schema_body(input@, 0).0 && type_decl_views(value.1@)
            == spec_schema_body(input@, 0).1 && remark_views(found@) == remarks_in(
            input@,
            0,
            spec_schema_body(input@, 0).2,
        ),
{
    let src = Source::new(input);
    let mut entities: Vec<Entity> = Vec::new();
    let mut types: Vec<TypeDecl> = Vec::new();
    proof {
        let body = spec_schema_body(src@, 0);
        assert(entity_views(entities@) =~= Seq::<EntityView>::empty());
        assert(type_decl_views(types@) =~= Seq::<TypeDeclView>::empty());
        assert(Seq::<EntityView>::empty() + body.0 =~= body.0);
        assert(Seq::<TypeDeclView>::empty() + body.1 =~= body.1);
    }
    let end = src.schema_body_at(0, &mut entities, &mut types);
    Ok((src.rest(end), ((entities, types), src.remarks_in(0, end))))
}

/// 296 schema_decl = SCHEMA [schema_id] \[ schema_version_id \] `;` [schema_body] END_SCHEMA `;` .
pub fn schema_decl<'a>(input: &'a str) -> (r: ParseResult<'a, Schema>)
    ensures
        match spec_schema_decl(input@, 0) {
            Ok((v, end)) => r matches Ok((rest, (value, found))) && rest@ == input@.skip(end)
                && value@ == v && remark_views(found@) == remarks_in(input@, 0, end),
            Err(at) => r matches Err(e) && e.offset == at,
        },
{
    let src = Source::new(input);
    match src.schema_decl_at(0) {
        Ok((value, end)) => Ok((src.rest(end), (value, src.remarks_in(0, end)))),
        Err(at) => Err(TokenizeFailed { offset: at }),
    }
}

impl SyntaxTree {
    /// The syntax tree of the EXPRESS text `input`: its schemas and all
    /// its remarks.
    ///
    /// The text is one schema or more, with blanks and remarks around
    /// them and nothing else; any other text fails, at the offset where it
    /// stops being that.
    pub fn parse(input: &str) -> (r: Result<Self, TokenizeFailed>)
        ensures
            match spec_syntax_tree(input@) {
                Ok(v) => r matches Ok(x) && x@ == v,
                Err(at) => r matches Err(e) && e.offset == at,
            },
    {
        let src = Source::new(input);
        match src.syntax_tree() {
            Ok(st) => Ok(st),
            Err(at) => Err(TokenizeFailed { offset: at }),
        }
    }
}

impl Component for Entity {
    open spec fn production(s: Seq<char>, pos: int) -> Result<(Self::V, int), int> {
        spec_entity_decl(s, pos)
    }

    fn parse(input: &str) -> (r: Result<(Self, Vec<Remark>), TokenizeFailed>) {
        let src = Source::new(input);
        let start = src.blanks_end(0);
        match src.entity_decl_at(start) {
            Ok((value, end)) => Ok((value, src.remarks_in(start, end))),
            Err(at) => Err(TokenizeFailed { offset: at }),
        }
    }
}

impl Component for TypeDecl {
    open spec fn production(s: Seq<char>, pos: int) -> Result<(Self::V, int), int> {
        spec_type_decl(s, pos)
    }

    fn parse(input: &str) -> (r: Result<(Self, Vec<Remark>), TokenizeFailed>) {
        let src = Source::new(input);
        let start = src.blanks_end(0);
        match src.type_decl_at(start) {
            Ok((value, end)) => Ok((value, src.remarks_in(start, end))),
            Err(at) => Err(TokenizeFailed { offset: at }),
        }
    }
}

impl Component for Declaration {
    open spec fn production(s: Seq<char>, pos: int) -> Result<(Self::V, int), int> {
        spec_declaration(s, pos)
    }

    fn parse(input: &str) -> (r: Result<(Self, Vec<Remark>), TokenizeFailed>) {
        let src = Source::new(input);
        let start = src.blanks_end(0);
        match src.declaration_at(start) {
            Ok((value, end)) => Ok((value, src.remarks_in(start, end))),
            Err(at) => Err(TokenizeFailed { offset: at }),
        }
    }
}

impl Component for Schema {
    open spec fn production(s: Seq<char>, pos: int) -> Result<(Self::V, int), int> {
        spec_schema_decl(s, pos)
    }

    fn parse(input: &str) -> (r: Result<(Self, Vec<Remark>), TokenizeFailed>) {
        let src = Source::new(input);
        let start = src.blanks_end(0);
        match src.schema_decl_at(start) {
            Ok((value, end)) => Ok((value, src.remarks_in(start, end))),
            Err(at) => Err(TokenizeFailed { offset: at }),
        }
    }
}

} // verus!
