//! Intermediate representation: names resolved to namespace indices and
//! the instantiable sets computed from `SUPERTYPE OF` constraints.

pub mod arrange;
pub mod compile;
pub mod complex_entity;
pub mod constraint;
pub mod cycle;
pub mod instantiables;
pub mod laws;
pub mod namespace;
pub mod order;
pub mod schema;
pub mod scope;

pub use self::complex_entity::PartialComplexEntity;
pub use self::constraint::ConstraintExpr;
pub use self::instantiables::Instantiables;
pub use self::namespace::AstRef;
pub use self::namespace::Namespace;
pub use self::namespace::Node;
pub use self::schema::Attribute;
pub use self::schema::Entity;
pub use self::schema::Schema;
pub use self::schema::TypeDecl;
pub use self::schema::TypeRef;
pub use self::schema::IR;
pub use self::scope::Path;
pub use self::scope::Scope;
pub use self::scope::ScopeType;
