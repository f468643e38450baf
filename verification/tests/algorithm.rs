use espr::ast::AggregateKind;
use espr::ast::Remark;
use espr::ast::SimpleType;
use espr::ast::Underlying;
use espr::parser::algorithm::FormalParameter;
use espr::parser::formal_parameter;
use espr::parser::function_head;
use espr::parser::procedure_head;
use espr::parser::TokenizeFailed;

fn formal(name: &str, ty: SimpleType, is_variable: bool) -> FormalParameter {
    FormalParameter {
        name: name.to_string(),
        ty: Underlying::Simple(ty),
        is_variable,
    }
}

#[test]
fn formal_parameters_share_their_type() {
    assert_eq!(
        formal_parameter("a, b : REAL; c"),
        Ok((
            "; c",
            (
                vec![
                    formal("a", SimpleType::Real, false),
                    formal("b", SimpleType::Real, false)
                ],
                vec![]
            )
        ))
    );
    let (_, (ps, remarks)) = formal_parameter("xs (* all *) : LIST OF INTEGER").unwrap();
    assert_eq!(ps.len(), 1);
    assert!(matches!(
        &ps[0].ty,
        Underlying::Aggregate {
            kind: AggregateKind::ListOf,
            ..
        }
    ));
    assert_eq!(
        remarks,
        vec![Remark {
            tag: None,
            remark: " all ".to_string()
        }]
    );
    assert_eq!(formal_parameter("a REAL"), Err(TokenizeFailed { offset: 2 }));
    assert_eq!(formal_parameter("a, : REAL"), Err(TokenizeFailed { offset: 1 }));
    assert_eq!(formal_parameter("a : "), Err(TokenizeFailed { offset: 4 }));
}

#[test]
fn procedure_head_with_variable_parameters() {
    assert_eq!(
        procedure_head("PROCEDURE swap (VAR a, b : INTEGER; n : REAL; VAR ok : BOOLEAN);\nLOCAL"),
        Ok((
            "\nLOCAL",
            (
                (
                    "swap".to_string(),
                    vec![
                        formal("a", SimpleType::Integer, true),
                        formal("b", SimpleType::Integer, true),
                        formal("n", SimpleType::Real, false),
                        formal("ok", SimpleType::Boolean, true),
                    ]
                ),
                vec![]
            )
        ))
    );
    assert_eq!(
        procedure_head("PROCEDURE nothing;"),
        Ok(("", (("nothing".to_string(), vec![]), vec![])))
    );
}

#[test]
fn procedure_head_fails_where_the_text_stops_matching() {
    assert_eq!(procedure_head("FUNCTION f;"), Err(TokenizeFailed { offset: 0 }));
    assert_eq!(procedure_head("PROCEDURE ;"), Err(TokenizeFailed { offset: 10 }));
    assert_eq!(procedure_head("PROCEDURE p"), Err(TokenizeFailed { offset: 11 }));
    // a list of parameters that is not one is left in the text, and `;` is missed
    assert_eq!(procedure_head("PROCEDURE p ();"), Err(TokenizeFailed { offset: 12 }));
    assert_eq!(
        procedure_head("PROCEDURE p (a : REAL b : REAL);"),
        Err(TokenizeFailed { offset: 12 })
    );
}

#[test]
fn function_head_with_result_type() {
    assert_eq!(
        function_head("FUNCTION norm (x, y : REAL) : REAL;"),
        Ok((
            "",
            (
                (
                    "norm".to_string(),
                    vec![
                        formal("x", SimpleType::Real, false),
                        formal("y", SimpleType::Real, false)
                    ],
                    Underlying::Simple(SimpleType::Real)
                ),
                vec![]
            )
        ))
    );
    assert_eq!(
        function_head("FUNCTION one : INTEGER ; x"),
        Ok((
            " x",
            (
                (
                    "one".to_string(),
                    vec![],
                    Underlying::Simple(SimpleType::Integer)
                ),
                vec![]
            )
        ))
    );
}

#[test]
fn function_parameters_stand_one_after_another() {
    assert_eq!(
        function_head("FUNCTION f (a : REAL b : STRING) : LOGICAL;")
            .map(|r| r.1 .0 .1),
        Ok(vec![
            formal("a", SimpleType::Real, false),
            formal("b", SimpleType::String, false)
        ])
    );
    assert_eq!(
        function_head("FUNCTION f (a : REAL; b : STRING) : LOGICAL;"),
        Err(TokenizeFailed { offset: 11 })
    );
    assert_eq!(
        function_head("FUNCTION f (VAR a : REAL) : LOGICAL;"),
        Err(TokenizeFailed { offset: 11 })
    );
    assert_eq!(function_head("FUNCTION f;"), Err(TokenizeFailed { offset: 10 }));
    assert_eq!(function_head("FUNCTION f : ;"), Err(TokenizeFailed { offset: 13 }));
    assert_eq!(function_head("FUNCTION f : REAL"), Err(TokenizeFailed { offset: 17 }));
}
