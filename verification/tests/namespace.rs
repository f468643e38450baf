use espr::ast::Span;
use espr::error::ErrorKind;
use espr::error::SemanticError;
use espr::ir::AstRef;
use espr::ir::ConstraintExpr;
use espr::ir::Instantiables;
use espr::ir::Namespace;
use espr::ir::Node;
use espr::ir::Path;
use espr::ir::Scope;

fn entity_ref(schema: usize, entity: usize, start: usize) -> AstRef {
    AstRef {
        node: Node::Entity { schema, entity },
        span: Span::new(start, start + 10),
    }
}

fn type_ref(schema: usize, ty: usize, start: usize) -> AstRef {
    AstRef {
        node: Node::Type { schema, ty },
        span: Span::new(start, start + 10),
    }
}

/// schema s with entities a, b, c and type t; schema u with entity a
fn sample() -> Namespace {
    let root = Scope::root();
    let s = root.schema("s");
    let u = root.schema("u");
    let mut ns = Namespace::new();
    let schema_s = AstRef {
        node: Node::Schema { schema: 0 },
        span: Span::new(0, 100),
    };
    let schema_u = AstRef {
        node: Node::Schema { schema: 1 },
        span: Span::new(100, 200),
    };
    assert_eq!(ns.insert(Path::schema(&root, "s"), schema_s), Ok(0));
    assert_eq!(ns.insert(Path::entity(&s, "a"), entity_ref(0, 0, 10)), Ok(1));
    assert_eq!(ns.insert(Path::entity(&s, "b"), entity_ref(0, 1, 20)), Ok(2));
    assert_eq!(ns.insert(Path::entity(&s, "c"), entity_ref(0, 2, 30)), Ok(3));
    assert_eq!(ns.insert(Path::type_(&s, "t"), type_ref(0, 0, 40)), Ok(4));
    assert_eq!(ns.insert(Path::schema(&root, "u"), schema_u), Ok(5));
    assert_eq!(ns.insert(Path::entity(&u, "a"), entity_ref(1, 0, 110)), Ok(6));
    ns
}

#[test]
fn insert_numbers_in_order() {
    let ns = sample();
    assert_eq!(ns.len(), 7);
    assert_eq!(Namespace::new().len(), 0);
}

#[test]
fn indexed_gives_back_path_and_node() {
    let ns = sample();
    let s = Scope::root().schema("s");
    let (path, ast) = ns.indexed(2);
    assert_eq!(*path, Path::entity(&s, "b"));
    assert_eq!(ast, entity_ref(0, 1, 20));
    let (path, ast) = ns.indexed(4);
    assert_eq!(*path, Path::type_(&s, "t"));
    assert_eq!(ast, type_ref(0, 0, 40));
}

#[test]
fn second_declaration_of_a_path_is_refused() {
    let mut ns = sample();
    let s = Scope::root().schema("s");
    let again = ns.insert(Path::entity(&s, "b"), entity_ref(0, 7, 70));
    assert_eq!(
        again,
        Err(SemanticError {
            kind: ErrorKind::DuplicatePath,
            span: Span::new(70, 80),
            secondary: Some(Span::new(20, 30)),
            scope: s.clone(),
            identifier: "b".to_string(),
            involved: vec![],
        })
    );
    assert_eq!(ns.len(), 7);
    assert_eq!(*ns.indexed(2).0, Path::entity(&s, "b"));
    assert_eq!(ns.indexed(2).1, entity_ref(0, 1, 20));
}

#[test]
fn same_name_of_another_kind_is_another_path() {
    let mut ns = sample();
    let s = Scope::root().schema("s");
    assert_eq!(ns.insert(Path::type_(&s, "b"), type_ref(0, 1, 50)), Ok(7));
    assert_eq!(ns.insert(Path::entity(&s, "t"), entity_ref(0, 3, 60)), Ok(8));
    assert_eq!(ns.len(), 9);
}

#[test]
fn every_inserted_path_resolves_to_its_index() {
    let ns = sample();
    for i in 0..ns.len() {
        let (path, ast) = ns.indexed(i);
        assert_eq!(ns.lookup(&path.scope, &path.name), Ok((ast, i)));
        assert_eq!(ns.get(path), Ok((ast, i)));
        assert_eq!(ns.position(path), Some(i));
    }
}

#[test]
fn lookup_walks_outward() {
    let ns = sample();
    let s = Scope::root().schema("s");
    let inside = s.entity("a").function("f");
    assert_eq!(ns.lookup(&inside, "c"), Ok((entity_ref(0, 2, 30), 3)));
    assert_eq!(ns.lookup(&inside, "t"), Ok((type_ref(0, 0, 40), 4)));
    assert_eq!(ns.lookup(&inside, "u").map(|r| r.1), Ok(5));
    assert_eq!(ns.lookup(&s, "s").map(|r| r.1), Ok(0));
}

#[test]
fn lookup_takes_the_nearest_declaration() {
    let ns = sample();
    let s = Scope::root().schema("s");
    let u = Scope::root().schema("u");
    assert_eq!(ns.lookup(&s, "a").map(|r| r.1), Ok(1));
    assert_eq!(ns.lookup(&u, "a").map(|r| r.1), Ok(6));
    assert_eq!(ns.lookup(&u.entity("a"), "a").map(|r| r.1), Ok(6));
}

#[test]
fn lookup_of_what_is_not_visible_is_unresolved() {
    let ns = sample();
    let s = Scope::root().schema("s");
    let u = Scope::root().schema("u");
    assert_eq!(
        ns.lookup(&s.entity("a"), "nothing"),
        Err(SemanticError::new(
            ErrorKind::Unresolved,
            &s.entity("a"),
            "nothing"
        ))
    );
    // b is declared in s, which does not enclose u
    assert_eq!(
        ns.lookup(&u, "b"),
        Err(SemanticError::new(ErrorKind::Unresolved, &u, "b"))
    );
    assert_eq!(
        ns.lookup(&Scope::root(), "a"),
        Err(SemanticError::new(ErrorKind::Unresolved, &Scope::root(), "a"))
    );
}

#[test]
fn two_kinds_of_one_name_in_one_scope_are_ambiguous() {
    let mut ns = sample();
    let s = Scope::root().schema("s");
    assert_eq!(ns.insert(Path::type_(&s, "b"), type_ref(0, 1, 50)), Ok(7));
    assert_eq!(
        ns.lookup(&s.entity("a"), "b"),
        Err(SemanticError::new(ErrorKind::Ambiguous, &s.entity("a"), "b"))
    );
    // the exact path still finds each
    assert_eq!(ns.get(&Path::type_(&s, "b")).map(|r| r.1), Ok(7));
    assert_eq!(ns.get(&Path::entity(&s, "b")).map(|r| r.1), Ok(2));
}

#[test]
fn get_of_an_undeclared_path_is_unresolved() {
    let ns = sample();
    let s = Scope::root().schema("s");
    assert_eq!(
        ns.get(&Path::type_(&s, "a")),
        Err(SemanticError::new(ErrorKind::Unresolved, &s, "a"))
    );
    assert_eq!(ns.position(&Path::type_(&s, "a")), None);
}

#[test]
fn error_message_names_identifier_and_scope() {
    let s = Scope::root().schema("s").entity("a");
    let e = SemanticError::new(ErrorKind::Unresolved, &s, "x");
    assert_eq!(e.message(), "unresolved reference `x` in scope `s.a`");
    assert_eq!(e.span, Span::none());
    let e = e.at(Span::new(3, 4)).with_secondary(Span::new(1, 2));
    assert_eq!(e.span, Span::new(3, 4));
    assert_eq!(e.secondary, Some(Span::new(1, 2)));
    assert_eq!(e.clone(), e);
    assert_eq!(ErrorKind::DuplicatePath.text(), "duplicate declaration");
    assert_eq!(ErrorKind::Ambiguous.text(), "ambiguous reference");
    assert_eq!(ErrorKind::CyclicSupertype.text(), "cyclic supertype");
    assert_eq!(ErrorKind::EmptyConstraint.text(), "empty constraint");
    assert_eq!(ErrorKind::InfeasibleConstraint.text(), "infeasible constraint");
    assert_eq!(ErrorKind::Internal.text(), "internal error");
}

fn reference(ns: &Namespace, index: usize) -> ConstraintExpr {
    ConstraintExpr::Reference(ns.indexed(index).0.clone())
}

fn listed(i: &Instantiables) -> Vec<Vec<usize>> {
    i.parts.iter().map(|p| p.indices.clone()).collect()
}

#[test]
fn constraint_of_a_reference_is_its_index_alone() {
    let ns = sample();
    let r = Instantiables::from_constraint_expr(&ns, &reference(&ns, 3)).unwrap();
    assert_eq!(listed(&r), vec![vec![3]]);
}

#[test]
fn constraint_operators_combine_their_operands() {
    let ns = sample();
    let oneof = ConstraintExpr::OneOf(vec![reference(&ns, 2), reference(&ns, 3), reference(&ns, 1)]);
    assert_eq!(
        listed(&Instantiables::from_constraint_expr(&ns, &oneof).unwrap()),
        vec![vec![1], vec![2], vec![3]]
    );
    let and = ConstraintExpr::And(vec![reference(&ns, 2), reference(&ns, 3), reference(&ns, 1)]);
    assert_eq!(
        listed(&Instantiables::from_constraint_expr(&ns, &and).unwrap()),
        vec![vec![1, 2, 3]]
    );
    let andor = ConstraintExpr::AndOr(vec![reference(&ns, 2), reference(&ns, 3)]);
    assert_eq!(
        listed(&Instantiables::from_constraint_expr(&ns, &andor).unwrap()),
        vec![vec![2], vec![3], vec![2, 3]]
    );
}

#[test]
fn nested_constraint() {
    let ns = sample();
    // (b ANDOR c) AND ONEOF(a, u.a)
    let e = ConstraintExpr::And(vec![
        ConstraintExpr::AndOr(vec![reference(&ns, 2), reference(&ns, 3)]),
        ConstraintExpr::OneOf(vec![reference(&ns, 1), reference(&ns, 6)]),
    ]);
    assert_eq!(
        listed(&Instantiables::from_constraint_expr(&ns, &e).unwrap()),
        vec![
            vec![1, 2],
            vec![1, 3],
            vec![2, 6],
            vec![3, 6],
            vec![1, 2, 3],
            vec![2, 3, 6]
        ]
    );
}

#[test]
fn constraint_without_operands_is_an_error() {
    let ns = sample();
    let empty = SemanticError::new(ErrorKind::EmptyConstraint, &Scope::root(), "");
    assert_eq!(
        Instantiables::from_constraint_expr(&ns, &ConstraintExpr::OneOf(vec![])),
        Err(empty.clone())
    );
    assert_eq!(
        Instantiables::from_constraint_expr(&ns, &ConstraintExpr::And(vec![])),
        Err(empty.clone())
    );
    assert_eq!(
        Instantiables::from_constraint_expr(&ns, &ConstraintExpr::AndOr(vec![])),
        Err(empty.clone())
    );
    let inner = ConstraintExpr::OneOf(vec![reference(&ns, 1), ConstraintExpr::AndOr(vec![])]);
    assert_eq!(Instantiables::from_constraint_expr(&ns, &inner), Err(empty));
}

#[test]
fn and_of_one_operand_is_an_error() {
    let ns = sample();
    let e = ConstraintExpr::And(vec![reference(&ns, 1)]);
    assert_eq!(
        Instantiables::from_constraint_expr(&ns, &e),
        Err(SemanticError::new(ErrorKind::Internal, &Scope::root(), ""))
    );
    // one operand is fine for the others
    let e = ConstraintExpr::OneOf(vec![reference(&ns, 1)]);
    assert_eq!(
        listed(&Instantiables::from_constraint_expr(&ns, &e).unwrap()),
        vec![vec![1]]
    );
    let e = ConstraintExpr::AndOr(vec![reference(&ns, 1)]);
    assert_eq!(
        listed(&Instantiables::from_constraint_expr(&ns, &e).unwrap()),
        vec![vec![1]]
    );
}

#[test]
fn constraint_with_an_undeclared_path_is_unresolved() {
    let ns = sample();
    let s = Scope::root().schema("s");
    let missing = ConstraintExpr::Reference(Path::entity(&s, "zz"));
    let e = ConstraintExpr::And(vec![reference(&ns, 1), missing]);
    assert_eq!(
        Instantiables::from_constraint_expr(&ns, &e),
        Err(SemanticError::new(ErrorKind::Unresolved, &s, "zz"))
    );
    // the first operand at fault decides, and comes before the operator
    let first = ConstraintExpr::Reference(Path::entity(&s, "first"));
    let e = ConstraintExpr::And(vec![first, ConstraintExpr::OneOf(vec![])]);
    assert_eq!(
        Instantiables::from_constraint_expr(&ns, &e),
        Err(SemanticError::new(ErrorKind::Unresolved, &s, "first"))
    );
}
