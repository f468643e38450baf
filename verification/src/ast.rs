//! Abstract syntax tree of the EXPRESS language, as far as the compiler
//! reads it: schemas, their entities and types, and the supertype
//! constraints of the entities.

use crate::parser::entity::blanks_end;
use crate::parser::name_views;
use crate::parser::remarks_in;
use crate::parser::TokenizeFailed;
use crate::parser::remark_views;
use crate::parser::RemarkView;
use vstd::prelude::*;
use vstd::std_specs::cmp::PartialEqSpecImpl;

verus! {

/// A range of the input text, counted in characters: from `start` up to,
/// but without, `end`.
#[derive(Debug, Clone, Copy, PartialEq, Eq, Hash, Structural)]
pub struct Span {
    pub start: usize,
    pub end: usize,
}

impl Span {
    /// The range from `start` up to `end`.
    pub fn new(start: usize, end: usize) -> (r: Self)
        ensures
            r == (Span { start, end }),
    {
        Span { start, end }
    }

    /// The empty range at the start of the input, for what has no place in it.
    pub fn none() -> (r: Self)
        ensures
            r == (Span { start: 0, end: 0 }),
    {
        Span { start: 0, end: 0 }
    }
}

/// Where a node of the syntax tree stands in the input.
///
/// Nodes are compared by what they say, not by where they stand: any two
/// places are equal, so that a declaration equals its like elsewhere in
/// the input or in another input.
#[derive(Debug, Clone, Copy)]
pub struct Place(pub Span);

impl PartialEq for Place {
    fn eq(&self, other: &Self) -> (r: bool) {
        true
    }
}

impl Eq for Place {

}

impl PartialEqSpecImpl for Place {
    open spec fn obeys_eq_spec() -> bool {
        true
    }

    open spec fn eq_spec(&self, other: &Self) -> bool {
        true
    }
}

impl Place {
    /// The place from `start` up to `end`.
    pub fn new(start: usize, end: usize) -> (r: Self)
        ensures
            r.0 == (Span { start, end }),
    {
        Place(Span { start, end })
    }
}

/// Remarks in EXPRESS input, `(* ... *)` or `-- ...`
#[derive(Debug, Clone, PartialEq, Eq)]
pub struct Remark {
    pub tag: Option<Vec<String>>,
    pub remark: String,
}

/// The simple data types.
#[derive(Debug, Clone, Copy, PartialEq, Eq, Hash, Structural)]
pub enum SimpleType {
    Integer,
    Real,
    String,
    Boolean,
    Logical,
    Binary,
}

/// The aggregation data types.
#[derive(Debug, Clone, Copy, PartialEq, Eq, Hash, Structural)]
pub enum AggregateKind {
    ArrayOf,
    ListOf,
    SetOf,
    BagOf,
}

/// The bounds of an aggregate, `[lower:upper]`; no upper bound stands for `?`.
#[derive(Debug, Clone, Copy, PartialEq, Eq, Hash, Structural)]
pub struct Bounds {
    pub lower: i64,
    pub upper: Option<i64>,
}

/// A use of an identifier, and where it stands in the input.
#[derive(Debug, PartialEq, Eq)]
pub struct Reference {
    pub name: String,
    pub span: Place,
}

/// What a type is declared as, or what an attribute holds.
#[derive(Debug, PartialEq, Eq)]
pub enum Underlying {
    Simple(SimpleType),
    Named(Reference),
    Select(Vec<Reference>),
    Enumeration(Vec<String>),
    Aggregate { kind: AggregateKind, bounds: Option<Bounds>, element: Box<Underlying> },
}

/// `TYPE name = underlying; END_TYPE;`
#[derive(Debug, PartialEq, Eq)]
pub struct TypeDecl {
    pub name: String,
    pub underlying: Underlying,
    pub span: Place,
}

/// An explicit attribute of an entity, `name : ty;`
#[derive(Debug, PartialEq, Eq)]
pub struct Attribute {
    pub name: String,
    pub ty: Underlying,
    /// Whether the attribute is declared `OPTIONAL`
    pub optional: bool,
    pub span: Place,
}

/// The expression of `SUPERTYPE OF (...)`, over the identifiers of the input.
#[derive(Debug, PartialEq, Eq)]
pub enum SupertypeExpression {
    Reference(Reference),
    OneOf(Vec<SupertypeExpression>, Place),
    And(Vec<SupertypeExpression>, Place),
    AndOr(Vec<SupertypeExpression>, Place),
}

/// `ENTITY name ... END_ENTITY;`
#[derive(Debug, PartialEq, Eq)]
pub struct Entity {
    pub name: String,
    pub attributes: Vec<Attribute>,
    /// The entities named after `SUBTYPE OF`, in their order
    pub subtype_of: Vec<Reference>,
    /// The expression after `SUPERTYPE OF`
    pub constraint: Option<SupertypeExpression>,
    /// Whether the entity is declared `ABSTRACT`
    pub is_abstract: bool,
    pub span: Place,
}

/// `SCHEMA name; ... END_SCHEMA;`
#[derive(Debug, PartialEq, Eq)]
pub struct Schema {
    pub name: String,
    pub types: Vec<TypeDecl>,
    pub entities: Vec<Entity>,
    pub remarks: Vec<Remark>,
    pub span: Place,
}

/// Entire syntax tree parsed from EXPRESS Language string
#[derive(Debug, PartialEq, Eq)]
pub struct SyntaxTree {
    pub schemas: Vec<Schema>,
    pub remarks: Vec<Remark>,
}

/// A reference as plain values.
pub struct ReferenceView {
    pub name: Seq<char>,
    pub span: Span,
}

impl View for Reference {
    type V = ReferenceView;

    open spec fn view(&self) -> ReferenceView {
        ReferenceView { name: self.name@, span: self.span.0 }
    }
}

/// The references of a sequence as plain values.
pub open spec fn reference_views(s: Seq<Reference>) -> Seq<ReferenceView> {
    s.map_values(|r: Reference| r@)
}

/// What a type is declared as, as plain values.
pub enum UnderlyingView {
    Simple(SimpleType),
    Named(ReferenceView),
    Select(Seq<ReferenceView>),
    Enumeration(Seq<Seq<char>>),
    Aggregate { kind: AggregateKind, bounds: Option<Bounds>, element: Box<UnderlyingView> },
}

impl View for Underlying {
    type V = UnderlyingView;

    open spec fn view(&self) -> UnderlyingView
        decreases self,
    {
        match self {
            Underlying::Simple(ty) => UnderlyingView::Simple(*ty),
            Underlying::Named(r) => UnderlyingView::Named(r@),
            Underlying::Select(rs) => UnderlyingView::Select(reference_views(rs@)),
            Underlying::Enumeration(items) => UnderlyingView::Enumeration(name_views(items@)),
            Underlying::Aggregate { kind, bounds, element } => UnderlyingView::Aggregate {
                kind: *kind,
                bounds: *bounds,
                element: Box::new((**element)@),
            },
        }
    }
}

/// A declared type as plain values.
pub struct TypeDeclView {
    pub name: Seq<char>,
    pub underlying: UnderlyingView,
    pub span: Span,
}

impl View for TypeDecl {
    type V = TypeDeclView;

    open spec fn view(&self) -> TypeDeclView {
        TypeDeclView { name: self.name@, underlying: self.underlying@, span: self.span.0 }
    }
}

/// An attribute as plain values.
pub struct AttributeView {
    pub name: Seq<char>,
    pub ty: UnderlyingView,
    pub optional: bool,
    pub span: Span,
}

impl View for Attribute {
    type V = AttributeView;

    open spec fn view(&self) -> AttributeView {
        AttributeView {
            name: self.name@,
            ty: self.ty@,
            optional: self.optional,
            span: self.span.0,
        }
    }
}

/// A supertype expression as plain values.
pub enum SupertypeView {
    Reference(ReferenceView),
    OneOf(Seq<SupertypeView>, Span),
    And(Seq<SupertypeView>, Span),
    AndOr(Seq<SupertypeView>, Span),
}

/// The first `n` supertype expressions of a sequence as plain values.
pub open spec fn supertype_views(s: Seq<SupertypeExpression>, n: nat) -> Seq<SupertypeView>
    decreases s, n,
{
    if n == 0 || n > s.len() {
        Seq::empty()
    } else {
        supertype_views(s, (n - 1) as nat).push(s[n - 1]@)
    }
}

impl View for SupertypeExpression {
    type V = SupertypeView;

    open spec fn view(&self) -> SupertypeView
        decreases self,
    {
        match self {
            SupertypeExpression::Reference(r) => SupertypeView::Reference(r@),
            SupertypeExpression::OneOf(es, span) => SupertypeView::OneOf(
                supertype_views(es@, es@.len()),
                span.0,
            ),
            SupertypeExpression::And(es, span) => SupertypeView::And(
                supertype_views(es@, es@.len()),
                span.0,
            ),
            SupertypeExpression::AndOr(es, span) => SupertypeView::AndOr(
                supertype_views(es@, es@.len()),
                span.0,
            ),
        }
    }
}

/// The views of all supertype expressions of a sequence, one for one.
pub proof fn lemma_supertype_views(s: Seq<SupertypeExpression>, n: nat)
    requires
        n <= s.len(),
    ensures
        supertype_views(s, n).len() == n,
        forall|k: int| 0 <= k < n ==> supertype_views(s, n)[k] == (#[trigger] s[k])@,
    decreases n,
{
    if n > 0 {
        lemma_supertype_views(s, (n - 1) as nat);
        assert(supertype_views(s, n) == supertype_views(s, (n - 1) as nat).push(s[n - 1]@));
    } else {
        assert(supertype_views(s, n) == Seq::<SupertypeView>::empty());
    }
}

/// The views after a push are the views before it, and the view of what was pushed.
pub proof fn lemma_supertype_views_push(s: Seq<SupertypeExpression>, e: SupertypeExpression)
    ensures
        supertype_views(s.push(e), s.len() + 1) == supertype_views(s, s.len()).push(e@),
{
    let t = s.push(e);
    lemma_supertype_views(s, s.len());
    lemma_supertype_views(t, t.len());
    let a = supertype_views(t, t.len());
    let b = supertype_views(s, s.len()).push(e@);
    assert forall|j: int| 0 <= j < a.len() implies a[j] == b[j] by {
        assert(a[j] == t[j]@);
        if j < s.len() {
            assert(t[j] == s[j]);
            assert(b[j] == s[j]@);
        }
    }
    assert(a =~= b);
}

/// An entity as plain values.
pub struct EntityView {
    pub name: Seq<char>,
    pub attributes: Seq<AttributeView>,
    pub subtype_of: Seq<ReferenceView>,
    pub constraint: Option<SupertypeView>,
    pub is_abstract: bool,
    pub span: Span,
}

/// The attributes of a sequence as plain values.
pub open spec fn attribute_views(s: Seq<Attribute>) -> Seq<AttributeView> {
    s.map_values(|a: Attribute| a@)
}

impl View for Entity {
    type V = EntityView;

    open spec fn view(&self) -> EntityView {
        EntityView {
            name: self.name@,
            attributes: attribute_views(self.attributes@),
            subtype_of: reference_views(self.subtype_of@),
            constraint: match self.constraint {
                Some(e) => Some(e@),
                None => None,
            },
            is_abstract: self.is_abstract,
            span: self.span.0,
        }
    }
}

/// A schema as plain values.
pub struct SchemaView {
    pub name: Seq<char>,
    pub types: Seq<TypeDeclView>,
    pub entities: Seq<EntityView>,
    pub remarks: Seq<RemarkView>,
    pub span: Span,
}

/// The types of a sequence as plain values.
pub open spec fn type_decl_views(s: Seq<TypeDecl>) -> Seq<TypeDeclView> {
    s.map_values(|t: TypeDecl| t@)
}

/// The entities of a sequence as plain values.
pub open spec fn entity_views(s: Seq<Entity>) -> Seq<EntityView> {
    s.map_values(|e: Entity| e@)
}

impl View for Schema {
    type V = SchemaView;

    open spec fn view(&self) -> SchemaView {
        SchemaView {
            name: self.name@,
            types: type_decl_views(self.types@),
            entities: entity_views(self.entities@),
            remarks: remark_views(self.remarks@),
            span: self.span.0,
        }
    }
}

/// A syntax tree as plain values.
pub struct SyntaxTreeView {
    pub schemas: Seq<SchemaView>,
    pub remarks: Seq<RemarkView>,
}

/// The schemas of a sequence as plain values.
pub open spec fn schema_views(s: Seq<Schema>) -> Seq<SchemaView> {
    s.map_values(|x: Schema| x@)
}

impl View for SyntaxTree {
    type V = SyntaxTreeView;

    open spec fn view(&self) -> SyntaxTreeView {
        SyntaxTreeView { schemas: schema_views(self.schemas@), remarks: remark_views(self.remarks@) }
    }
}

/// A part of the syntax tree that can be read from a text of its own.
pub trait Component: Sized + View {
    /// The production of the grammar that yields the component: what
    /// stands at `pos` of `s` and where it ends, or where it fails.
    spec fn production(s: Seq<char>, pos: int) -> Result<(Self::V, int), int>;

    /// The component at the start of `input`, behind any blanks, and the
    /// remarks in it. What follows the component is not looked at.
    fn parse(input: &str) -> (r: Result<(Self, Vec<Remark>), TokenizeFailed>)
        ensures
            match Self::production(input@, blanks_end(input@, 0)) {
                Ok((v, end)) => r matches Ok((value, found)) && value@ == v && remark_views(found@)
                    == remarks_in(input@, blanks_end(input@, 0), end),
                Err(at) => r matches Err(e) && e.offset == at,
            },
    ;

    /// The component at the start of `input`, behind any blanks.
    fn from_str(input: &str) -> (r: Result<Self, TokenizeFailed>)
        ensures
            match Self::production(input@, blanks_end(input@, 0)) {
                Ok((v, end)) => r matches Ok(value) && value@ == v,
                Err(at) => r matches Err(e) && e.offset == at,
            },
    {
        match Self::parse(input) {
            Ok((component, _remarks)) => Ok(component),
            Err(e) => Err(e),
        }
    }
}

} // verus!
