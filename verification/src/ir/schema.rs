//! The shape of the intermediate representation: per schema its types and
//! entities, every name resolved to a path.

use super::constraint::ConstraintExpr;
use super::instantiables::restriction;
use super::instantiables::Instantiables;
use super::scope::Path;
use super::scope::Scope;
use crate::ast::AggregateKind;
use crate::ast::Bounds;
use crate::ast::SimpleType;
use vstd::prelude::*;

verus! {

/// What a type is declared as, or what an attribute holds, every named
/// type resolved to the path of its declaration.
#[derive(Debug, PartialEq, Eq)]
pub enum TypeRef {
    Simple(SimpleType),
    /// A declared type or entity
    Named(Path),
    /// One of several declared types or entities
    Select(Vec<Path>),
    /// One of the listed names
    Enumeration(Vec<String>),
    Aggregate { kind: AggregateKind, bounds: Option<Bounds>, element: Box<TypeRef> },
}

/// A declared type.
#[derive(Debug, PartialEq, Eq)]
pub struct TypeDecl {
    pub name: String,
    pub underlying: TypeRef,
}

/// An attribute of an entity.
#[derive(Debug, PartialEq, Eq)]
pub struct Attribute {
    pub name: String,
    pub ty: TypeRef,
    /// Whether a value may be missing
    pub optional: bool,
}

/// An entity with everything it names resolved.
#[derive(Debug, PartialEq, Eq)]
pub struct Entity {
    pub name: String,
    /// Whether the entity itself cannot be instantiated, only its subtypes
    pub is_abstract: bool,
    /// The scope in which the entity is declared
    pub scope: Scope,
    /// The entities named after `SUBTYPE OF`, in their order
    pub supertypes: Vec<Path>,
    pub attributes: Vec<Attribute>,
    /// The partial complex entities as which an instance may appear
    pub instantiables: Instantiables,
    /// The expression after `SUPERTYPE OF`
    pub constraint: Option<ConstraintExpr>,
}

/// A schema with everything it names resolved.
#[derive(Debug, PartialEq, Eq)]
pub struct Schema {
    pub name: String,
    pub types: Vec<TypeDecl>,
    pub entities: Vec<Entity>,
    /// Every partial complex entity that the schema may serialize: those
    /// of all its entities together
    pub instantiables: Instantiables,
}

/// The result of a compilation.
#[derive(Debug, PartialEq, Eq)]
pub struct IR {
    pub schemas: Vec<Schema>,
}

impl TypeDecl {
    /// The name of the type.
    pub fn id(&self) -> (r: &str)
        ensures
            r@ == self.name@,
    {
        self.name.as_str()
    }
}

impl Entity {
    /// Whether the entity names no supertype.
    pub fn is_root(&self) -> (r: bool)
        ensures
            r == (self.supertypes@.len() == 0),
    {
        self.supertypes.len() == 0
    }
}

impl Schema {
    /// The subtype lattice of the entity with the namespace index `root`:
    /// the partial complex entities of the schema that hold it.
    pub fn lattice(&self, root: usize) -> (r: Instantiables)
        ensures
            r@ == restriction(self.instantiables@, seq![seq![root]]),
            self.instantiables.wf() ==> r.wf(),
    {
        let all = self.instantiables.clone();
        proof {
            assert(all.wf() == self.instantiables.wf());
        }
        all / Instantiables::single(root)
    }
}

} // verus!
