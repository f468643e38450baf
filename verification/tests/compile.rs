use espr::ast::AggregateKind;
use espr::ast::Attribute;
use espr::ast::Bounds;
use espr::ast::Entity;
use espr::ast::Place;
use espr::ast::Reference;
use espr::ast::Schema;
use espr::ast::SimpleType;
use espr::ast::Span;
use espr::ast::SupertypeExpression;
use espr::ast::SyntaxTree;
use espr::ast::TypeDecl;
use espr::ast::Underlying;
use espr::error::ErrorKind;
use espr::error::SemanticError;
use espr::ir::cycle::caught_nodes;
use espr::ir::ConstraintExpr;
use espr::ir::Entity as CompiledEntity;
use espr::ir::Schema as CompiledSchema;
use espr::ir::Instantiables;
use espr::ir::Namespace;
use espr::ir::Path;
use espr::ir::Scope;
use espr::ir::TypeRef;
use espr::ir::IR;

fn name(n: &str, at: usize) -> Reference {
    Reference {
        name: n.to_string(),
        span: Place::new(at, at + n.len()),
    }
}

fn entity(n: &str, at: usize) -> Entity {
    Entity {
        name: n.to_string(),
        attributes: vec![],
        subtype_of: vec![],
        constraint: None,
        is_abstract: false,
        span: Place::new(at, at + 50),
    }
}

fn schema(n: &str, entities: Vec<Entity>, types: Vec<TypeDecl>) -> Schema {
    Schema {
        name: n.to_string(),
        types,
        entities,
        remarks: vec![],
        span: Place::new(0, 1000),
    }
}

fn tree(schemas: Vec<Schema>) -> SyntaxTree {
    SyntaxTree {
        schemas,
        remarks: vec![],
    }
}

fn listed(i: &Instantiables) -> Vec<Vec<usize>> {
    i.parts.iter().map(|p| p.indices.clone()).collect()
}

/// ENTITY a SUPERTYPE OF (ONEOF (b, c)); ENTITY b SUBTYPE OF (a); ENTITY c SUBTYPE OF (a);
fn one_of_two() -> SyntaxTree {
    let mut a = entity("a", 10);
    a.constraint = Some(SupertypeExpression::OneOf(
        vec![
            SupertypeExpression::Reference(name("b", 40)),
            SupertypeExpression::Reference(name("c", 43)),
        ],
        Place::new(33, 45),
    ));
    let mut b = entity("b", 100);
    b.subtype_of = vec![name("a", 120)];
    let mut c = entity("c", 200);
    c.subtype_of = vec![name("a", 220)];
    tree(vec![schema("s", vec![a, b, c], vec![])])
}

#[test]
fn supertype_oneof_of_two_subtypes() {
    let ir = IR::from_syntax_tree(&one_of_two()).unwrap();
    assert_eq!(ir.schemas.len(), 1);
    let s = &ir.schemas[0];
    assert_eq!(s.name, "s");
    // the schema is entry 0; a, b, c are entries 1, 2, 3
    assert_eq!(listed(&s.entities[0].instantiables), vec![vec![1, 2], vec![1, 3]]);
    assert_eq!(listed(&s.entities[1].instantiables), vec![vec![1, 2]]);
    assert_eq!(listed(&s.entities[2].instantiables), vec![vec![1, 3]]);
    assert_eq!(listed(&s.instantiables), vec![vec![1, 2], vec![1, 3]]);
    assert_eq!(listed(&s.lattice(1)), vec![vec![1, 2], vec![1, 3]]);
    assert_eq!(listed(&s.lattice(2)), vec![vec![1, 2]]);
    assert!(s.entities[0].is_root());
    assert!(!s.entities[1].is_root());
}

#[test]
fn compiled_entity_carries_resolved_names() {
    let ir = IR::from_syntax_tree(&one_of_two()).unwrap();
    let scope = Scope::root().schema("s");
    let a = &ir.schemas[0].entities[0];
    assert_eq!(a.name, "a");
    assert_eq!(a.scope, scope);
    assert!(a.supertypes.is_empty());
    assert_eq!(
        a.constraint,
        Some(ConstraintExpr::OneOf(vec![
            ConstraintExpr::Reference(Path::entity(&scope, "b")),
            ConstraintExpr::Reference(Path::entity(&scope, "c")),
        ]))
    );
    let b = &ir.schemas[0].entities[1];
    assert_eq!(b.supertypes, vec![Path::entity(&scope, "a")]);
    assert_eq!(b.constraint, None);
}

#[test]
fn circle_of_supertypes_is_reported() {
    let mut a = entity("a", 10);
    a.subtype_of = vec![name("b", 30)];
    let mut b = entity("b", 100);
    b.subtype_of = vec![name("a", 120)];
    let errors = IR::from_syntax_tree(&tree(vec![schema("s", vec![a, b], vec![])])).unwrap_err();
    let scope = Scope::root().schema("s");
    assert_eq!(
        errors,
        vec![SemanticError {
            kind: ErrorKind::CyclicSupertype,
            span: Span::new(10, 60),
            secondary: None,
            scope: scope.clone(),
            identifier: "a".to_string(),
            involved: vec![Path::entity(&scope, "a"), Path::entity(&scope, "b")],
        }]
    );
}

#[test]
fn entity_that_is_its_own_supertype_is_a_circle() {
    let mut a = entity("a", 10);
    a.subtype_of = vec![name("a", 30)];
    let errors = IR::from_syntax_tree(&tree(vec![schema("s", vec![a, entity("b", 100)], vec![])]))
        .unwrap_err();
    assert_eq!(errors.len(), 1);
    assert_eq!(errors[0].kind, ErrorKind::CyclicSupertype);
    assert_eq!(
        errors[0].involved,
        vec![Path::entity(&Scope::root().schema("s"), "a")]
    );
}

#[test]
fn entity_below_a_circle_is_caught_with_it() {
    let mut a = entity("a", 10);
    a.subtype_of = vec![name("b", 30)];
    let mut b = entity("b", 100);
    b.subtype_of = vec![name("a", 120)];
    let mut c = entity("c", 200);
    c.subtype_of = vec![name("b", 220)];
    let d = entity("d", 300);
    let errors =
        IR::from_syntax_tree(&tree(vec![schema("s", vec![d, a, b, c], vec![])])).unwrap_err();
    let scope = Scope::root().schema("s");
    assert_eq!(errors.len(), 1);
    assert_eq!(errors[0].identifier, "a");
    assert_eq!(
        errors[0].involved,
        vec![
            Path::entity(&scope, "a"),
            Path::entity(&scope, "b"),
            Path::entity(&scope, "c")
        ]
    );
}

#[test]
fn caught_nodes_of_graphs() {
    assert_eq!(caught_nodes(&vec![]), Vec::<usize>::new());
    // 0 -> 1 -> 2, 3 -> 1
    assert_eq!(
        caught_nodes(&vec![vec![1], vec![2], vec![], vec![1]]),
        Vec::<usize>::new()
    );
    // 1 -> 2 -> 3 -> 1, 0 -> 1, 4 alone
    assert_eq!(
        caught_nodes(&vec![vec![1], vec![2], vec![3], vec![1], vec![]]),
        vec![0, 1, 2, 3]
    );
    // a diamond is no circle
    assert_eq!(
        caught_nodes(&vec![vec![1, 2], vec![3], vec![3], vec![]]),
        Vec::<usize>::new()
    );
    // an edge that leaves the graph ends there
    assert_eq!(caught_nodes(&vec![vec![7], vec![1]]), vec![1]);
    // a long chain
    let chain: Vec<Vec<usize>> = (0..50).map(|i| if i < 49 { vec![i + 1] } else { vec![] }).collect();
    assert_eq!(caught_nodes(&chain), Vec::<usize>::new());
}

#[test]
fn multiple_supertypes_are_all_joined() {
    let a = entity("a", 10);
    let b = entity("b", 100);
    let mut c = entity("c", 200);
    c.subtype_of = vec![name("b", 220), name("a", 223)];
    let ir = IR::from_syntax_tree(&tree(vec![schema("s", vec![a, b, c], vec![])])).unwrap();
    let s = &ir.schemas[0];
    assert_eq!(listed(&s.entities[2].instantiables), vec![vec![1, 2, 3]]);
    let scope = Scope::root().schema("s");
    assert_eq!(
        s.entities[2].supertypes,
        vec![Path::entity(&scope, "b"), Path::entity(&scope, "a")]
    );
    assert_eq!(listed(&s.instantiables), vec![vec![1], vec![2], vec![1, 2, 3]]);
    assert_eq!(listed(&s.lattice(1)), vec![vec![1], vec![1, 2, 3]]);
}

#[test]
fn andor_constraint_with_supertype() {
    // ENTITY a; ENTITY b SUBTYPE OF (a) SUPERTYPE OF (c ANDOR d); ENTITY c; ENTITY d;
    let a = entity("a", 0);
    let mut b = entity("b", 100);
    b.subtype_of = vec![name("a", 110)];
    b.constraint = Some(SupertypeExpression::AndOr(
        vec![
            SupertypeExpression::Reference(name("c", 130)),
            SupertypeExpression::Reference(name("d", 140)),
        ],
        Place::new(130, 141),
    ));
    let ir = IR::from_syntax_tree(&tree(vec![schema(
        "s",
        vec![a, b, entity("c", 200), entity("d", 300)],
        vec![],
    )]))
    .unwrap();
    assert_eq!(
        listed(&ir.schemas[0].entities[1].instantiables),
        vec![vec![1, 2, 3], vec![1, 2, 4], vec![1, 2, 3, 4]]
    );
}

#[test]
fn types_and_attributes_are_resolved() {
    let mut first = entity("first", 10);
    first.attributes = vec![
        Attribute {
            name: "m_ref".to_string(),
            ty: Underlying::Named(name("second", 30)),
            optional: false,
            span: Place::new(22, 37),
        },
        Attribute {
            name: "fattr".to_string(),
            ty: Underlying::Simple(SimpleType::String),
            optional: false,
            span: Place::new(40, 55),
        },
        Attribute {
            name: "points".to_string(),
            ty: Underlying::Aggregate {
                kind: AggregateKind::ListOf,
                bounds: Some(Bounds {
                    lower: 1,
                    upper: None,
                }),
                element: Box::new(Underlying::Named(name("length", 70))),
            },
            optional: false,
            span: Place::new(60, 80),
        },
    ];
    let types = vec![
        TypeDecl {
            name: "length".to_string(),
            underlying: Underlying::Simple(SimpleType::Real),
            span: Place::new(200, 230),
        },
        TypeDecl {
            name: "either".to_string(),
            underlying: Underlying::Select(vec![name("first", 250), name("length", 257)]),
            span: Place::new(240, 270),
        },
        TypeDecl {
            name: "colour".to_string(),
            underlying: Underlying::Enumeration(vec!["red".to_string(), "green".to_string()]),
            span: Place::new(280, 300),
        },
    ];
    let ir = IR::from_syntax_tree(&tree(vec![schema(
        "one",
        vec![first, entity("second", 100)],
        types,
    )]))
    .unwrap();
    let scope = Scope::root().schema("one");
    let s = &ir.schemas[0];
    let attrs = &s.entities[0].attributes;
    assert_eq!(attrs.len(), 3);
    assert_eq!(attrs[0].name, "m_ref");
    assert_eq!(attrs[0].ty, TypeRef::Named(Path::entity(&scope, "second")));
    assert_eq!(attrs[1].ty, TypeRef::Simple(SimpleType::String));
    assert_eq!(
        attrs[2].ty,
        TypeRef::Aggregate {
            kind: AggregateKind::ListOf,
            bounds: Some(Bounds {
                lower: 1,
                upper: None
            }),
            element: Box::new(TypeRef::Named(Path::type_(&scope, "length"))),
        }
    );
    assert_eq!(s.types.len(), 3);
    assert_eq!(s.types[0].id(), "length");
    assert_eq!(s.types[0].underlying, TypeRef::Simple(SimpleType::Real));
    assert_eq!(
        s.types[1].underlying,
        TypeRef::Select(vec![
            Path::entity(&scope, "first"),
            Path::type_(&scope, "length")
        ])
    );
    assert_eq!(
        s.types[2].underlying,
        TypeRef::Enumeration(vec!["red".to_string(), "green".to_string()])
    );
}

#[test]
fn namespace_of_a_tree_lists_schema_entities_types() {
    let types = vec![TypeDecl {
        name: "t".to_string(),
        underlying: Underlying::Simple(SimpleType::Integer),
        span: Place::new(200, 230),
    }];
    let st = tree(vec![
        schema("one", vec![entity("a", 10), entity("b", 100)], types),
        schema("two", vec![entity("a", 10)], vec![]),
    ]);
    let mut errors = vec![];
    let ns = Namespace::from_syntax_tree(&st, &mut errors);
    assert!(errors.is_empty());
    assert_eq!(ns.len(), 6);
    let root = Scope::root();
    let paths: Vec<Path> = (0..ns.len()).map(|i| ns.indexed(i).0.clone()).collect();
    assert_eq!(
        paths,
        vec![
            Path::schema(&root, "one"),
            Path::entity(&root.schema("one"), "a"),
            Path::entity(&root.schema("one"), "b"),
            Path::type_(&root.schema("one"), "t"),
            Path::schema(&root, "two"),
            Path::entity(&root.schema("two"), "a"),
        ]
    );
}

#[test]
fn all_diagnostics_are_collected() {
    // duplicate entity a; attribute of unknown type; unknown supertype;
    // unknown names in a constraint; a type naming a schema
    let mut a = entity("a", 10);
    a.attributes = vec![Attribute {
        name: "x".to_string(),
        ty: Underlying::Named(name("nowhere", 20)),
        optional: false,
            span: Place::new(18, 30),
    }];
    a.subtype_of = vec![name("missing", 40), name("b", 50)];
    a.constraint = Some(SupertypeExpression::OneOf(
        vec![
            SupertypeExpression::Reference(name("p", 60)),
            SupertypeExpression::And(
                vec![
                    SupertypeExpression::Reference(name("b", 63)),
                    SupertypeExpression::Reference(name("t", 66)),
                ],
                Place::new(63, 67),
            ),
        ],
        Place::new(55, 70),
    ));
    let again = entity("a", 300);
    let types = vec![TypeDecl {
        name: "t".to_string(),
        underlying: Underlying::Named(name("s", 410)),
        span: Place::new(400, 420),
    }];
    let errors = IR::from_syntax_tree(&tree(vec![schema(
        "s",
        vec![a, entity("b", 100), again],
        types,
    )]))
    .unwrap_err();
    let s = Scope::root().schema("s");
    let in_a = s.entity("a");
    let unresolved = |scope: &Scope, n: &str, at: usize| {
        SemanticError::new(ErrorKind::Unresolved, scope, n).at(Span::new(at, at + n.len()))
    };
    let expected = vec![
        // the namespace
        SemanticError::new(ErrorKind::DuplicatePath, &s, "a")
            .at(Span::new(300, 350))
            .with_secondary(Span::new(10, 60)),
        // the type t: a schema is neither a type nor an entity
        unresolved(&s.type_("t"), "s", 410),
        // the first a
        unresolved(&in_a, "nowhere", 20),
        unresolved(&in_a, "missing", 40),
        unresolved(&in_a, "p", 60),
        // t is a type, and a supertype must be an entity
        unresolved(&in_a, "t", 66),
    ];
    assert_eq!(errors, expected);
}

#[test]
fn empty_constraint_is_reported_at_its_place() {
    let mut a = entity("a", 10);
    a.constraint = Some(SupertypeExpression::OneOf(vec![], Place::new(40, 48)));
    let mut b = entity("b", 100);
    b.constraint = Some(SupertypeExpression::And(
        vec![SupertypeExpression::Reference(name("a", 140))],
        Place::new(133, 145),
    ));
    let errors = IR::from_syntax_tree(&tree(vec![schema("s", vec![a, b], vec![])])).unwrap_err();
    let s = Scope::root().schema("s");
    assert_eq!(
        errors,
        vec![
            SemanticError::new(ErrorKind::EmptyConstraint, &s.entity("a"), "a")
                .at(Span::new(40, 48)),
            SemanticError::new(ErrorKind::Internal, &s.entity("b"), "b").at(Span::new(133, 145)),
        ]
    );
}

#[test]
fn names_of_another_schema_are_not_visible() {
    let mut b = entity("b", 100);
    b.subtype_of = vec![name("a", 120)];
    let errors = IR::from_syntax_tree(&tree(vec![
        schema("one", vec![entity("a", 10)], vec![]),
        schema("two", vec![b], vec![]),
    ]))
    .unwrap_err();
    assert_eq!(
        errors,
        vec![
            SemanticError::new(ErrorKind::Unresolved, &Scope::root().schema("two").entity("b"), "a")
                .at(Span::new(120, 121))
        ]
    );
}

#[test]
fn tree_without_schema_compiles_to_nothing() {
    let ir = IR::from_syntax_tree(&tree(vec![])).unwrap();
    assert!(ir.schemas.is_empty());
    let ir = IR::from_syntax_tree(&tree(vec![schema("s", vec![], vec![])])).unwrap();
    assert_eq!(ir.schemas[0].instantiables, Instantiables::default());
}

#[test]
fn lowering_resolves_names_to_entities() {
    let st = one_of_two();
    let mut errors = vec![];
    let ns = Namespace::from_syntax_tree(&st, &mut errors);
    let scope = Scope::root().schema("s").entity("a");
    let e = st.schemas[0].entities[0].constraint.as_ref().unwrap();
    let lowered = ConstraintExpr::lower(&ns, &scope, e, &mut errors).unwrap();
    assert!(errors.is_empty());
    let s = Scope::root().schema("s");
    assert_eq!(
        lowered,
        ConstraintExpr::OneOf(vec![
            ConstraintExpr::Reference(Path::entity(&s, "b")),
            ConstraintExpr::Reference(Path::entity(&s, "c")),
        ])
    );
    assert_eq!(
        listed(&Instantiables::from_constraint_expr(&ns, &lowered).unwrap()),
        vec![vec![2], vec![3]]
    );
}

#[test]
fn entity_that_the_namespace_does_not_hold_is_an_internal_error() {
    let st = one_of_two();
    let ns = Namespace::new();
    let mut errors = vec![];
    let compiled = CompiledEntity::compile(&ns, &st.schemas[0], &st.schemas[0].entities[1], &mut errors);
    assert!(compiled.is_none());
    assert_eq!(
        errors,
        vec![SemanticError::new(ErrorKind::Internal, &Scope::root().schema("s"), "b")
            .at(Span::new(100, 150))]
    );
}

#[test]
fn schema_compiled_against_a_given_namespace() {
    let st = one_of_two();
    let mut errors = vec![];
    let ns = Namespace::from_syntax_tree(&st, &mut errors);
    let schema = CompiledSchema::compile(&ns, &st.schemas[0], &mut errors).unwrap();
    assert!(errors.is_empty());
    assert_eq!(schema.entities.len(), 3);
    assert_eq!(listed(&schema.instantiables), vec![vec![1, 2], vec![1, 3]]);
    let paths = schema.instantiables.as_path(&ns);
    let s = Scope::root().schema("s");
    assert_eq!(
        paths,
        vec![
            vec![Path::entity(&s, "a"), Path::entity(&s, "b")],
            vec![Path::entity(&s, "a"), Path::entity(&s, "c")],
        ]
    );
    assert_eq!(
        schema.entities[1].instantiables.parts[0].as_path(&ns),
        vec![Path::entity(&s, "a"), Path::entity(&s, "b")]
    );
}
