use espr::ast::SimpleType;
use espr::codegen::conversion;
use espr::codegen::Conversion;
use espr::codegen::FieldShape;
use espr::codegen::TableEntry;
use espr::ir::Entity;
use espr::ir::Instantiables;
use espr::ir::Schema;
use espr::ir::Scope;
use espr::ir::TypeDecl;
use espr::ir::TypeRef;

fn entity(name: &str) -> Entity {
    Entity {
        name: name.to_string(),
        is_abstract: false,
        scope: Scope::root().schema("s"),
        supertypes: vec![],
        attributes: vec![],
        instantiables: Instantiables::default(),
        constraint: None,
    }
}

fn entry(data_type: &str, holder_name: &str, holders_name: &str) -> TableEntry {
    TableEntry {
        data_type: data_type.to_string(),
        holder_name: holder_name.to_string(),
        holders_name: holders_name.to_string(),
    }
}

#[test]
fn entry_of_a_name() {
    assert_eq!(
        TableEntry::of("cartesian_point"),
        entry("CartesianPoint", "cartesian_point", "cartesian_point_holders")
    );
}

#[test]
fn keyword_is_made_safe_for_the_table() {
    assert_eq!(TableEntry::of("type"), entry("Type", "r#type", "type_holders"));
    assert_eq!(TableEntry::of("match"), entry("Match", "r#match", "match_holders"));
}

#[test]
fn entry_from_given_names() {
    assert_eq!(
        TableEntry::new("a", "B".to_string(), "c".to_string()),
        entry("B", "c", "a_holders")
    );
}

#[test]
fn tables_for_entities_then_types_but_no_enumeration() {
    let schema = Schema {
        name: "s".to_string(),
        types: vec![
            TypeDecl {
                name: "length_measure".to_string(),
                underlying: TypeRef::Simple(SimpleType::Real),
            },
            TypeDecl {
                name: "colour".to_string(),
                underlying: TypeRef::Enumeration(vec!["red".to_string()]),
            },
            TypeDecl {
                name: "label".to_string(),
                underlying: TypeRef::Simple(SimpleType::String),
            },
        ],
        entities: vec![entity("point"), entity("line_segment")],
        instantiables: Instantiables::default(),
    };
    assert_eq!(
        schema.table_entries(),
        vec![
            entry("Point", "point", "point_holders"),
            entry("LineSegment", "line_segment", "line_segment_holders"),
            entry("LengthMeasure", "length_measure", "length_measure_holders"),
            entry("Label", "label", "label_holders"),
        ]
    );
}

#[test]
fn conversion_of_each_shape() {
    for shape in [FieldShape::Path, FieldShape::Optional, FieldShape::List] {
        assert_eq!(conversion(shape, false), Some(Conversion::Keep));
    }
    assert_eq!(conversion(FieldShape::Path, true), Some(Conversion::IntoOwned));
    assert_eq!(
        conversion(FieldShape::Optional, true),
        Some(Conversion::IntoOwnedIfSome)
    );
    assert_eq!(conversion(FieldShape::List, true), None);
}
