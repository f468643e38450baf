use espr::ast::SimpleType;
use espr::parser::entity::entity;
use espr::parser::entity::entity_end;
use espr::parser::entity::flatten;
use espr::parser::entity::paramter_type;
use espr::parser::entity::Entity;
use espr::parser::entity::ParameterType;
use espr::parser::TokenizeFailed;

#[test]
fn entity_head() {
    let (residual, name) = espr::parser::entity::entity_head("ENTITY homhom;").unwrap();
    assert_eq!(name, "homhom");
    assert_eq!(residual, "");
}

#[test]
fn explicit_attr() {
    let (residual, (id, ty)) = espr::parser::entity::explicit_attr("x : REAL;").unwrap();
    assert_eq!(id, &["x"]);
    assert!(matches!(ty, ParameterType::Simple(SimpleType::Real)));
    assert_eq!(residual, "");

    let (residual, (id, ty)) = espr::parser::entity::explicit_attr("x, y : REAL;").unwrap();
    assert_eq!(id, &["x", "y"]);
    assert!(matches!(ty, ParameterType::Simple(SimpleType::Real)));
    assert_eq!(residual, "");
}

#[test]
fn entity_with_two_attributes() {
    let exp_str = r#"
ENTITY first;
  m_ref : second;
  fattr : REAL;
END_ENTITY;
"#
    .trim();

    let (residual, entity) = entity(exp_str).unwrap();
    assert_eq!(entity.name, "first");

    assert_eq!(entity.attributes.len(), 2);
    // check `m_ref`
    assert_eq!(entity.attributes[0].0, "m_ref");
    assert!(matches!(entity.attributes[0].1, ParameterType::Named(_)));
    // check `fattr`
    assert_eq!(entity.attributes[1].0, "fattr");
    assert!(matches!(
        entity.attributes[1].1,
        ParameterType::Simple(SimpleType::Real)
    ));

    assert_eq!(residual, "");
}

#[test]
fn attributes_declared_together_share_their_type() {
    let (residual, e) = entity("ENTITY point;\n  x, y ,z: REAL;\n  label : name;\nEND_ENTITY ;rest")
        .unwrap();
    assert_eq!(residual, "rest");
    assert_eq!(
        e,
        Entity {
            name: "point".to_string(),
            attributes: vec![
                ("x".to_string(), ParameterType::Simple(SimpleType::Real)),
                ("y".to_string(), ParameterType::Simple(SimpleType::Real)),
                ("z".to_string(), ParameterType::Simple(SimpleType::Real)),
                ("label".to_string(), ParameterType::Named("name".to_string())),
            ],
        }
    );
}

#[test]
fn entity_without_attributes() {
    assert_eq!(
        entity("ENTITY a;END_ENTITY;"),
        Ok((
            "",
            Entity {
                name: "a".to_string(),
                attributes: vec![]
            }
        ))
    );
    assert_eq!(
        entity("ENTITY a ; \n END_ENTITY;"),
        Ok((
            "",
            Entity {
                name: "a".to_string(),
                attributes: vec![]
            }
        ))
    );
}

#[test]
fn what_follows_an_attribute_needs_a_blank_before_it() {
    assert!(entity("ENTITY a; x : REAL; END_ENTITY;").is_ok());
    assert_eq!(
        entity("ENTITY a; x : REAL;END_ENTITY;"),
        Err(TokenizeFailed { offset: 19 })
    );
    assert_eq!(
        entity("ENTITY a; x : REAL;y : REAL; END_ENTITY;"),
        Err(TokenizeFailed { offset: 19 })
    );
    assert_eq!(
        entity("ENTITY a; x : REAL;"),
        Err(TokenizeFailed { offset: 19 })
    );
}

#[test]
fn entity_fails_where_the_text_stops_matching() {
    assert_eq!(entity("entity a;"), Err(TokenizeFailed { offset: 0 }));
    assert_eq!(entity("ENTITYa;"), Err(TokenizeFailed { offset: 6 }));
    assert_eq!(entity("ENTITY A;"), Err(TokenizeFailed { offset: 7 }));
    assert_eq!(entity("ENTITY a"), Err(TokenizeFailed { offset: 8 }));
    assert_eq!(entity("ENTITY a; x REAL; END_ENTITY;"), Err(TokenizeFailed { offset: 10 }));
    assert_eq!(entity("ENTITY a; END_ENTITY"), Err(TokenizeFailed { offset: 20 }));
}

#[test]
fn every_simple_type() {
    let simple = |s| paramter_type(s).map(|r| r.1);
    assert_eq!(simple("BINARY"), Ok(ParameterType::Simple(SimpleType::Binary)));
    assert_eq!(simple("BOOLEAN"), Ok(ParameterType::Simple(SimpleType::Boolean)));
    assert_eq!(simple("INTEGER"), Ok(ParameterType::Simple(SimpleType::Integer)));
    assert_eq!(simple("LOGICAL"), Ok(ParameterType::Simple(SimpleType::Logical)));
    assert_eq!(simple("REAL"), Ok(ParameterType::Simple(SimpleType::Real)));
    assert_eq!(simple("STRING"), Ok(ParameterType::Simple(SimpleType::String)));
    assert_eq!(simple("length"), Ok(ParameterType::Named("length".to_string())));
    assert_eq!(simple("Real"), Err(TokenizeFailed { offset: 0 }));
    assert_eq!(paramter_type("REALLY"), Ok(("LY", ParameterType::Simple(SimpleType::Real))));
}

#[test]
fn explicit_attr_fails_where_the_text_stops_matching() {
    let attr = espr::parser::entity::explicit_attr;
    assert_eq!(attr(": REAL;"), Err(TokenizeFailed { offset: 0 }));
    assert_eq!(attr("x, : REAL;"), Err(TokenizeFailed { offset: 1 }));
    assert_eq!(attr("x  REAL;"), Err(TokenizeFailed { offset: 3 }));
    assert_eq!(attr("x : 1;"), Err(TokenizeFailed { offset: 4 }));
    assert_eq!(attr("x : REAL"), Err(TokenizeFailed { offset: 8 }));
    assert_eq!(
        attr("x :REAL ;y"),
        Ok(("y", (vec!["x".to_string()], ParameterType::Simple(SimpleType::Real))))
    );
}

#[test]
fn entity_end_alone() {
    assert_eq!(entity_end("END_ENTITY  ; x"), Ok((" x", ())));
    assert_eq!(entity_end("END_ENTITY"), Err(TokenizeFailed { offset: 10 }));
    assert_eq!(entity_end("END"), Err(TokenizeFailed { offset: 0 }));
}

#[test]
fn flatten_pairs_each_name_with_the_type() {
    let groups = vec![
        (
            vec!["a".to_string(), "b".to_string()],
            ParameterType::Simple(SimpleType::Integer),
        ),
        (vec![], ParameterType::Named("none".to_string())),
        (vec!["c".to_string()], ParameterType::Named("t".to_string())),
    ];
    assert_eq!(
        flatten(&groups),
        vec![
            ("a".to_string(), ParameterType::Simple(SimpleType::Integer)),
            ("b".to_string(), ParameterType::Simple(SimpleType::Integer)),
            ("c".to_string(), ParameterType::Named("t".to_string())),
        ]
    );
    assert_eq!(groups[0].1.clone(), ParameterType::Simple(SimpleType::Integer));
}

#[test]
fn parameter_type_from_a_name_or_a_simple_type() {
    assert_eq!(
        ParameterType::from("length".to_string()),
        ParameterType::Named("length".to_string())
    );
    assert_eq!(
        ParameterType::from(SimpleType::Logical),
        ParameterType::Simple(SimpleType::Logical)
    );
}
