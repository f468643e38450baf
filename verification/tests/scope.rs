use espr::ir::Path;
use espr::ir::Scope;
use espr::ir::ScopeType;
use std::cmp::Ordering;

#[test]
fn scope() {
    let root = Scope::root();
    assert_eq!(root.to_string(), "");

    let schema = root.pushed(ScopeType::Schema, "schema1");
    assert_eq!(schema.to_string(), "schema1");
    assert_eq!(schema.to_debug_string(), "Scope(schema1[Schema])");

    let entity = schema.pushed(ScopeType::Entity, "entity1");
    assert_eq!(entity.to_string(), "schema1.entity1");
    assert_eq!(
        entity.to_debug_string(),
        "Scope(schema1[Schema].entity1[Entity])"
    );
}

#[test]
fn root_prints_as_empty_scope() {
    assert_eq!(Scope::root().to_debug_string(), "Scope()");
    assert_eq!(Scope::root().depth(), 0);
}

#[test]
fn enclosing_scope_is_below_what_it_encloses() {
    let root = Scope::root();
    let schema = root.pushed(ScopeType::Schema, "schema");
    let entity = schema.entity("e");
    assert!(root < schema);
    assert!(root <= schema);
    assert!(schema > root);
    assert!(schema < entity);
    assert!(root < entity);
    assert_eq!(root.partial_cmp(&root), Some(Ordering::Equal));
    assert_eq!(schema.partial_cmp(&entity), Some(Ordering::Less));
    assert_eq!(entity.partial_cmp(&schema), Some(Ordering::Greater));
    assert!(root.is_prefix_of(&entity));
    assert!(!entity.is_prefix_of(&root));
}

#[test]
fn scopes_side_by_side_are_not_comparable() {
    let root = Scope::root();
    let schema1 = root.pushed(ScopeType::Schema, "schema1");
    let schema2 = root.pushed(ScopeType::Schema, "schema2");
    assert!(root < schema1);
    assert!(root < schema2);
    assert!(!(schema1 <= schema2));
    assert!(!(schema1 >= schema2));
    assert_eq!(schema1.partial_cmp(&schema2), None);
    // the kind is part of a step
    let as_type = root.pushed(ScopeType::Type, "schema1");
    assert_eq!(schema1.partial_cmp(&as_type), None);
    assert_ne!(schema1, as_type);
}

#[test]
fn pushed_and_popped() {
    let root = Scope::root();
    assert!(root.popped().is_none());
    let schema = root.schema("s");
    let entity = schema.entity("e");
    assert_eq!(entity.popped(), Some(schema.clone()));
    assert_eq!(schema.popped(), Some(root));
    assert_eq!(entity.depth(), 2);
}

#[test]
fn one_constructor_for_each_kind() {
    let root = Scope::root();
    assert_eq!(root.entity("x"), root.pushed(ScopeType::Entity, "x"));
    assert_eq!(root.alias("x"), root.pushed(ScopeType::Alias, "x"));
    assert_eq!(root.function("x"), root.pushed(ScopeType::Function, "x"));
    assert_eq!(root.procedure("x"), root.pushed(ScopeType::Procedure, "x"));
    assert_eq!(root.query("x"), root.pushed(ScopeType::Query, "x"));
    assert_eq!(root.repeat("x"), root.pushed(ScopeType::Repeat, "x"));
    assert_eq!(root.rule("x"), root.pushed(ScopeType::Rule, "x"));
    assert_eq!(root.schema("x"), root.pushed(ScopeType::Schema, "x"));
    assert_eq!(root.subtype("x"), root.pushed(ScopeType::SubType, "x"));
    assert_eq!(root.type_("x"), root.pushed(ScopeType::Type, "x"));
    assert_eq!(root.subtype("x").to_debug_string(), "Scope(x[SubType])");
}

#[test]
fn path_of_each_kind() {
    let s = Scope::root().schema("s");
    assert_eq!(Path::entity(&s, "x"), Path::new(&s, ScopeType::Entity, "x"));
    assert_eq!(Path::alias(&s, "x"), Path::new(&s, ScopeType::Alias, "x"));
    assert_eq!(Path::function(&s, "x"), Path::new(&s, ScopeType::Function, "x"));
    assert_eq!(Path::procedure(&s, "x"), Path::new(&s, ScopeType::Procedure, "x"));
    assert_eq!(Path::query(&s, "x"), Path::new(&s, ScopeType::Query, "x"));
    assert_eq!(Path::repeat(&s, "x"), Path::new(&s, ScopeType::Repeat, "x"));
    assert_eq!(Path::rule(&s, "x"), Path::new(&s, ScopeType::Rule, "x"));
    assert_eq!(Path::schema(&s, "x"), Path::new(&s, ScopeType::Schema, "x"));
    assert_eq!(Path::subtype(&s, "x"), Path::new(&s, ScopeType::SubType, "x"));
    assert_eq!(Path::type_(&s, "x"), Path::new(&s, ScopeType::Type, "x"));
    assert_ne!(Path::entity(&s, "x"), Path::type_(&s, "x"));
    assert_ne!(Path::entity(&s, "x"), Path::entity(&s, "y"));
    assert_ne!(Path::entity(&s, "x"), Path::entity(&Scope::root(), "x"));
}

#[test]
fn path_is_printed_with_its_scope() {
    let s = Scope::root().schema("schema1");
    let p = Path::entity(&s, "entity1");
    assert_eq!(p.to_string(), "schema1.entity1");
    assert_eq!(p.to_debug_string(), "Scope(schema1[Schema]).entity1[Entity]");
    let top = Path::schema(&Scope::root(), "schema1");
    assert_eq!(top.to_string(), ".schema1");
    assert_eq!(top.to_debug_string(), "Scope().schema1[Schema]");
}
