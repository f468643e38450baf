use espr::ast::AggregateKind;
use espr::ast::Bounds;
use espr::ast::Remark;
use espr::ast::SimpleType;
use espr::ast::Span;
use espr::ast::SupertypeExpression;
use espr::ast::SyntaxTree;
use espr::ast::Underlying;
use espr::error::ErrorKind;
use espr::ir::Instantiables;
use espr::ir::Path;
use espr::ir::Scope;
use espr::ir::IR;
use espr::parser::declaration;
use espr::parser::declaration::Declaration;
use espr::parser::entity_decl;
use espr::parser::schema_body;
use espr::parser::schema_decl;
use espr::parser::type_decl;
use espr::parser::TokenizeFailed;

fn listed(i: &Instantiables) -> Vec<Vec<usize>> {
    i.parts.iter().map(|p| p.indices.clone()).collect()
}

fn remark(text: &str) -> Remark {
    Remark {
        tag: None,
        remark: text.to_string(),
    }
}

#[test]
fn parse_remarks() {
    let st = SyntaxTree::parse(
        r#"
            SCHEMA one;
              ENTITY first;
                m_ref : second;
                fattr : STRING;
              END_ENTITY; -- first
              ENTITY second;
                sattr : STRING;
              END_ENTITY; -- second
              (* this is the example! *)
            END_SCHEMA;

            (* Hey! *)

            SCHEMA geometry0;
              ENTITY point;
                x, (* y, *) z: REAL; -- skip y
              END_ENTITY;
            END_SCHEMA;
            "#,
    )
    .unwrap();
    assert_eq!(st.remarks.len(), 6);
}

#[test]
fn schema() {
    let exp_str = r#"
        SCHEMA my_first_schema;
          ENTITY first;
            m_ref : second;
            fattr : STRING;
          END_ENTITY;

          ENTITY second;
            sattr : STRING;
          END_ENTITY;
        END_SCHEMA;
        "#
    .trim();

    let (residual, (schema, _remark)) = schema_decl(exp_str).unwrap();
    assert_eq!(schema.name, "my_first_schema");
    assert_eq!(schema.entities.len(), 2);
    assert_eq!(
        schema.entities[0],
        entity_decl(
            r#"
                ENTITY first;
                  m_ref : second;
                  fattr : STRING;
                END_ENTITY;
                "#
            .trim()
        )
        .unwrap()
        .1
         .0
    );
    assert_eq!(
        schema.entities[1],
        entity_decl(
            r#"
                ENTITY second;
                  sattr : STRING;
                END_ENTITY;
                "#
            .trim()
        )
        .unwrap()
        .1
         .0
    );
    assert_eq!(residual, "");
}

#[test]
fn remarks_of_a_tree_and_of_its_schemas() {
    let st = SyntaxTree::parse(
        "(* a *) SCHEMA one; -- b\n ENTITY e; END_ENTITY; END_SCHEMA; (* c *)\nSCHEMA two;(*d*)END_SCHEMA;--e",
    )
    .unwrap();
    assert_eq!(
        st.remarks,
        vec![remark(" a "), remark(" b"), remark(" c "), remark("d"), remark("e")]
    );
    assert_eq!(st.schemas[0].remarks, vec![remark(" b")]);
    assert_eq!(st.schemas[1].remarks, vec![remark("d")]);
    assert_eq!(st.schemas[0].span.0, Span::new(8, 59));
}

#[test]
fn entity_with_places() {
    let (rest, (e, remarks)) =
        entity_decl("ENTITY point;\n  x, y : REAL;\n  tag : OPTIONAL label;\nEND_ENTITY; more")
            .unwrap();
    assert_eq!(rest, " more");
    assert!(remarks.is_empty());
    assert_eq!(e.name, "point");
    assert_eq!(e.span.0, Span::new(0, 64));
    assert!(!e.is_abstract);
    assert!(e.subtype_of.is_empty());
    assert!(e.constraint.is_none());
    let names: Vec<&str> = e.attributes.iter().map(|a| a.name.as_str()).collect();
    assert_eq!(names, vec!["x", "y", "tag"]);
    assert_eq!(e.attributes[0].ty, Underlying::Simple(SimpleType::Real));
    assert_eq!(e.attributes[1].ty, Underlying::Simple(SimpleType::Real));
    assert_eq!(e.attributes[0].span.0, Span::new(16, 17));
    assert_eq!(e.attributes[1].span.0, Span::new(19, 20));
    assert!(!e.attributes[1].optional);
    assert!(e.attributes[2].optional);
    match &e.attributes[2].ty {
        Underlying::Named(r) => {
            assert_eq!(r.name, "label");
            assert_eq!(r.span.0, Span::new(46, 51));
        }
        other => panic!("not a name: {:?}", other),
    }
}

#[test]
fn subtype_and_supertype_declarations() {
    let (_, (e, _)) = entity_decl(
        "ENTITY b ABSTRACT SUPERTYPE OF (ONEOF (c, d) ANDOR e AND (f ANDOR g)) SUBTYPE OF (a, z); END_ENTITY;",
    )
    .unwrap();
    assert!(e.is_abstract);
    let supers: Vec<&str> = e.subtype_of.iter().map(|r| r.name.as_str()).collect();
    assert_eq!(supers, vec!["a", "z"]);
    // ANDOR of: ONEOF (c, d); AND of: e, (f ANDOR g)
    match e.constraint {
        Some(SupertypeExpression::AndOr(factors, _)) => {
            assert_eq!(factors.len(), 2);
            match &factors[0] {
                SupertypeExpression::OneOf(operands, _) => assert_eq!(operands.len(), 2),
                other => panic!("not a ONEOF: {:?}", other),
            }
            match &factors[1] {
                SupertypeExpression::And(terms, _) => {
                    assert_eq!(terms.len(), 2);
                    assert!(matches!(&terms[0], SupertypeExpression::Reference(r) if r.name == "e"));
                    assert!(matches!(&terms[1], SupertypeExpression::AndOr(inner, _) if inner.len() == 2));
                }
                other => panic!("not an AND: {:?}", other),
            }
        }
        other => panic!("not an ANDOR: {:?}", other),
    }
    match entity_decl("ENTITY a SUPERTYPE OF (b AND c); END_ENTITY;").unwrap().1 .0.constraint {
        Some(SupertypeExpression::And(terms, place)) => {
            assert_eq!(terms.len(), 2);
            assert_eq!(place.0, Span::new(23, 30));
        }
        other => panic!("not an AND: {:?}", other),
    }
    match entity_decl("ENTITY a SUPERTYPE OF ((b)); END_ENTITY;").unwrap().1 .0.constraint {
        Some(SupertypeExpression::Reference(r)) => assert_eq!(r.name, "b"),
        other => panic!("not a name: {:?}", other),
    }
    let (_, (e, _)) = entity_decl("ENTITY a ABSTRACT; END_ENTITY;").unwrap();
    assert!(e.is_abstract && e.constraint.is_none());
    let (_, (e, _)) = entity_decl("ENTITY a ABSTRACT SUPERTYPE; END_ENTITY;").unwrap();
    assert!(e.is_abstract && e.constraint.is_none());
}

#[test]
fn entity_decl_fails_where_the_text_stops_matching() {
    assert_eq!(entity_decl("TYPE a"), Err(TokenizeFailed { offset: 0 }));
    assert_eq!(entity_decl("ENTITY A; END_ENTITY;"), Err(TokenizeFailed { offset: 7 }));
    assert_eq!(
        entity_decl("ENTITY a SUPERTYPE (b); END_ENTITY;"),
        Err(TokenizeFailed { offset: 9 })
    );
    assert_eq!(
        entity_decl("ENTITY a SUBTYPE OF (); END_ENTITY;"),
        Err(TokenizeFailed { offset: 9 })
    );
    assert_eq!(
        entity_decl("ENTITY a; x : ; END_ENTITY;"),
        Err(TokenizeFailed { offset: 10 })
    );
    assert_eq!(entity_decl("ENTITY a; END_ENTITY"), Err(TokenizeFailed { offset: 20 }));
}

#[test]
fn type_declarations() {
    let ty = |text: &str| type_decl(text).map(|r| r.1 .0.underlying);
    assert_eq!(
        ty("TYPE length = REAL; END_TYPE;"),
        Ok(Underlying::Simple(SimpleType::Real))
    );
    assert_eq!(
        ty("TYPE colour = ENUMERATION OF (red, green , blue); END_TYPE;"),
        Ok(Underlying::Enumeration(vec![
            "red".to_string(),
            "green".to_string(),
            "blue".to_string()
        ]))
    );
    match ty("TYPE either = SELECT (point, line); END_TYPE;") {
        Ok(Underlying::Select(refs)) => {
            let names: Vec<&str> = refs.iter().map(|r| r.name.as_str()).collect();
            assert_eq!(names, vec!["point", "line"]);
        }
        other => panic!("not a select: {:?}", other),
    }
    assert_eq!(
        ty("TYPE matrix = ARRAY [1:3] OF LIST [0:?] OF INTEGER; END_TYPE;"),
        Ok(Underlying::Aggregate {
            kind: AggregateKind::ArrayOf,
            bounds: Some(Bounds {
                lower: 1,
                upper: Some(3)
            }),
            element: Box::new(Underlying::Aggregate {
                kind: AggregateKind::ListOf,
                bounds: Some(Bounds {
                    lower: 0,
                    upper: None
                }),
                element: Box::new(Underlying::Simple(SimpleType::Integer)),
            }),
        })
    );
    assert_eq!(
        ty("TYPE s = SET OF BAG [ -2 : 9223372036854775807 ] OF BOOLEAN; END_TYPE;"),
        Ok(Underlying::Aggregate {
            kind: AggregateKind::SetOf,
            bounds: None,
            element: Box::new(Underlying::Aggregate {
                kind: AggregateKind::BagOf,
                bounds: Some(Bounds {
                    lower: -2,
                    upper: Some(9223372036854775807)
                }),
                element: Box::new(Underlying::Simple(SimpleType::Boolean)),
            }),
        })
    );
}

#[test]
fn type_decl_fails_where_the_text_stops_matching() {
    let at = |text: &str| type_decl(text).map(|r| r.0.len());
    assert_eq!(at("TYPE a = ; END_TYPE;"), Err(TokenizeFailed { offset: 9 }));
    assert_eq!(at("TYPE a REAL; END_TYPE;"), Err(TokenizeFailed { offset: 7 }));
    assert_eq!(at("TYPE a = REAL END_TYPE;"), Err(TokenizeFailed { offset: 14 }));
    assert_eq!(at("TYPE a = LIST REAL; END_TYPE;"), Err(TokenizeFailed { offset: 14 }));
    // a bound beyond the greatest integer: no bounds are read, and OF is missed
    assert_eq!(
        at("TYPE a = LIST [0:9223372036854775808] OF REAL; END_TYPE;"),
        Err(TokenizeFailed { offset: 14 })
    );
    assert_eq!(at("TYPE a = ENUMERATION (x); END_TYPE;"), Err(TokenizeFailed { offset: 21 }));
    assert_eq!(at("TYPE a = SELECT (); END_TYPE;"), Err(TokenizeFailed { offset: 17 }));
}

#[test]
fn declaration_is_entity_or_type() {
    assert!(matches!(
        declaration("ENTITY a; END_ENTITY;"),
        Ok(("", (Declaration::Entity(_), _)))
    ));
    assert!(matches!(
        declaration("TYPE a = REAL; END_TYPE;"),
        Ok(("", (Declaration::Type(_), _)))
    ));
    assert_eq!(declaration("SCHEMA a;"), Err(TokenizeFailed { offset: 0 }));
    assert_eq!(declaration("TYPE a;"), Err(TokenizeFailed { offset: 6 }));
}

#[test]
fn schema_body_sorts_declarations_by_kind() {
    let (rest, ((entities, types), remarks)) = schema_body(
        " TYPE t = REAL; END_TYPE; ENTITY a; END_ENTITY; (* r *) TYPE u = t; END_TYPE; ENTITY b; END_ENTITY; END_SCHEMA;",
    )
    .unwrap();
    assert_eq!(rest, " END_SCHEMA;");
    let names: Vec<&str> = entities.iter().map(|e| e.name.as_str()).collect();
    assert_eq!(names, vec!["a", "b"]);
    let names: Vec<&str> = types.iter().map(|t| t.name.as_str()).collect();
    assert_eq!(names, vec!["t", "u"]);
    assert_eq!(remarks, vec![remark(" r ")]);
    let (rest, ((entities, types), _)) = schema_body("  nothing").unwrap();
    assert_eq!(rest, "  nothing");
    assert!(entities.is_empty() && types.is_empty());
}

#[test]
fn syntax_tree_fails_where_the_text_stops_matching() {
    assert_eq!(SyntaxTree::parse(""), Err(TokenizeFailed { offset: 0 }));
    assert_eq!(SyntaxTree::parse("  -- nothing"), Err(TokenizeFailed { offset: 12 }));
    assert_eq!(
        SyntaxTree::parse("SCHEMA a; END_SCHEMA; junk"),
        Err(TokenizeFailed { offset: 22 })
    );
    assert_eq!(
        SyntaxTree::parse("SCHEMA a; END_SCHEMA; SCHEMA b END_SCHEMA;"),
        Err(TokenizeFailed { offset: 31 })
    );
    assert_eq!(
        SyntaxTree::parse("SCHEMA a; ENTITY x END_ENTITY; END_SCHEMA;"),
        Err(TokenizeFailed { offset: 10 })
    );
    assert_eq!(
        SyntaxTree::parse("SCHEMA a; (* open END_SCHEMA;"),
        Err(TokenizeFailed { offset: 10 })
    );
}

#[test]
fn instantiables_of_a_schema_text() {
    let st = SyntaxTree::parse(
        r#"
        SCHEMA s;
          ENTITY a SUPERTYPE OF (ONEOF (b, c)); END_ENTITY;
          ENTITY b SUBTYPE OF (a); END_ENTITY;
          ENTITY c SUBTYPE OF (a); END_ENTITY;
        END_SCHEMA;
        "#,
    )
    .unwrap();
    let ir = IR::from_syntax_tree(&st).unwrap();
    let s = &ir.schemas[0];
    // a, b, c are the entries 1, 2, 3 of the namespace
    assert_eq!(listed(&s.entities[0].instantiables), vec![vec![1, 2], vec![1, 3]]);
    assert_eq!(listed(&s.entities[1].instantiables), vec![vec![1, 2]]);
    assert_eq!(listed(&s.entities[2].instantiables), vec![vec![1, 3]]);
}

#[test]
fn circle_of_supertypes_in_a_schema_text() {
    let text = "SCHEMA s; ENTITY a SUBTYPE OF (b); END_ENTITY; ENTITY b SUBTYPE OF (a); END_ENTITY; END_SCHEMA;";
    let st = SyntaxTree::parse(text).unwrap();
    let errors = IR::from_syntax_tree(&st).unwrap_err();
    assert_eq!(errors.len(), 1);
    assert_eq!(errors[0].kind, ErrorKind::CyclicSupertype);
    let scope = Scope::root().schema("s");
    assert_eq!(
        errors[0].involved,
        vec![Path::entity(&scope, "a"), Path::entity(&scope, "b")]
    );
    assert_eq!(errors[0].span, Span::new(10, 46));
    assert_eq!(&text[10..46], "ENTITY a SUBTYPE OF (b); END_ENTITY;");
}

#[test]
fn unresolved_name_points_into_the_text() {
    let text = "SCHEMA s;\n  ENTITY a;\n    x : nowhere;\n  END_ENTITY;\nEND_SCHEMA;";
    let st = SyntaxTree::parse(text).unwrap();
    let errors = IR::from_syntax_tree(&st).unwrap_err();
    assert_eq!(errors.len(), 1);
    assert_eq!(errors[0].kind, ErrorKind::Unresolved);
    assert_eq!(errors[0].identifier, "nowhere");
    assert_eq!(&text[errors[0].span.start..errors[0].span.end], "nowhere");
}

#[test]
fn instantiable_type_is_a_concrete_type_or_a_name() {
    let ty = |text| espr::parser::instantiable_type(text).map(|r| (r.0, r.1 .0));
    assert_eq!(ty("REAL;"), Ok((";", Underlying::Simple(SimpleType::Real))));
    assert_eq!(
        ty("SET [1:?] OF (* of *) STRING := x"),
        Ok((
            " := x",
            Underlying::Aggregate {
                kind: AggregateKind::SetOf,
                bounds: Some(Bounds {
                    lower: 1,
                    upper: None
                }),
                element: Box::new(Underlying::Simple(SimpleType::String)),
            }
        ))
    );
    assert!(matches!(ty("point"), Ok(("", Underlying::Named(_)))));
    assert_eq!(ty("SELECT (a)"), Err(TokenizeFailed { offset: 0 }));
    assert_eq!(
        espr::parser::instantiable_type("LIST OF (* r *) BINARY").map(|r| r.1 .1),
        Ok(vec![remark(" r ")])
    );
}

#[test]
fn component_is_read_from_a_text_of_its_own() {
    use_component();
}

fn use_component() {
    let (e, remarks) =
        <espr::ast::Entity as espr::ast::Component>::parse(" \n ENTITY a; -- r\n END_ENTITY; junk")
            .unwrap();
    assert_eq!(e.name, "a");
    assert_eq!(remarks, vec![remark(" r")]);
    let t = <espr::ast::TypeDecl as espr::ast::Component>::from_str("TYPE t = REAL; END_TYPE;").unwrap();
    assert_eq!(t.name, "t");
    let s = <espr::ast::Schema as espr::ast::Component>::from_str("\tSCHEMA s; END_SCHEMA;").unwrap();
    assert_eq!(s.name, "s");
    let d = <Declaration as espr::ast::Component>::from_str("TYPE t = REAL; END_TYPE;").unwrap();
    assert!(matches!(d, Declaration::Type(_)));
    assert_eq!(
        <espr::ast::Entity as espr::ast::Component>::from_str("  ENTITY ;"),
        Err(TokenizeFailed { offset: 9 })
    );
    // only blanks are passed over before the component
    assert_eq!(
        <espr::ast::Entity as espr::ast::Component>::from_str("(* r *) ENTITY a; END_ENTITY;"),
        Err(TokenizeFailed { offset: 0 })
    );
}
