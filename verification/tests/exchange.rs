use espr::exchange::list;
use espr::exchange::omitted_parameter;
use espr::exchange::parameter;
use espr::exchange::parameter_list;
use espr::exchange::typed_parameter;
use espr::exchange::untyped_parameter;
use espr::exchange::Parameter;
use espr::exchange::RValue;
use espr::parser::TokenizeFailed;

fn written(text: &str) -> Parameter {
    Parameter::Real(text.to_string())
}

#[test]
fn parameter_of_each_kind() {
    // Real number
    let (residual, p) = parameter("1.0").unwrap();
    assert_eq!(residual, "");
    assert_eq!(p, written("1.0"));

    // String
    let (residual, p) = parameter("'ruststep'").unwrap();
    assert_eq!(residual, "");
    assert_eq!(p, Parameter::string("ruststep"));

    // non-uniform list
    let (residual, p) = parameter("('ruststep', 1.0)").unwrap();
    assert_eq!(residual, "");
    assert_eq!(p, Parameter::list(vec![Parameter::string("ruststep"), written("1.0")]));

    // typed
    let (residual, p) = parameter("FILE_NAME('ruststep')").unwrap();
    assert_eq!(residual, "");
    assert!(matches!(p, Parameter::Typed { .. }));
}

#[test]
fn numbers() {
    let p = |text| untyped_parameter(text);
    assert_eq!(p("12"), Ok(("", Parameter::integer(12))));
    assert_eq!(p("-12,"), Ok((",", Parameter::integer(-12))));
    assert_eq!(p("+0"), Ok(("", Parameter::integer(0))));
    assert_eq!(p("9223372036854775807"), Ok(("", Parameter::integer(i64::MAX))));
    assert_eq!(p("-9223372036854775807"), Ok(("", Parameter::integer(-i64::MAX))));
    assert_eq!(p("9223372036854775808"), Err(TokenizeFailed { offset: 0 }));
    assert_eq!(p("1."), Ok(("", written("1."))));
    assert_eq!(p("-1.5E-3)"), Ok((")", written("-1.5E-3"))));
    assert_eq!(p("1.E+10"), Ok(("", written("1.E+10"))));
    // an exponent needs digits: without them the number ends before it
    assert_eq!(p("2.5E"), Ok(("E", written("2.5"))));
    assert_eq!(p("2.5E+x"), Ok(("E+x", written("2.5"))));
    // a real number of any size is kept as written
    assert_eq!(
        p("123456789012345678901234567890.5"),
        Ok(("", written("123456789012345678901234567890.5")))
    );
    assert_eq!(p(".5"), Err(TokenizeFailed { offset: 0 }));
    assert_eq!(p("-"), Err(TokenizeFailed { offset: 0 }));
}

#[test]
fn strings() {
    let p = |text| untyped_parameter(text);
    assert_eq!(p("''"), Ok(("", Parameter::string(""))));
    assert_eq!(p("'it''s'"), Ok(("", Parameter::string("it's"))));
    assert_eq!(p("''''"), Ok(("", Parameter::string("'"))));
    assert_eq!(p("'a''''b' x"), Ok((" x", Parameter::string("a''b"))));
    assert_eq!(p("'a', 'b'"), Ok((", 'b'", Parameter::string("a"))));
    assert_eq!(p("'open"), Err(TokenizeFailed { offset: 0 }));
    assert_eq!(p("'open''"), Err(TokenizeFailed { offset: 0 }));
}

#[test]
fn references_and_enumerations() {
    let p = |text| untyped_parameter(text);
    assert_eq!(p("#12"), Ok(("", Parameter::RValue(RValue::Entity(12)))));
    assert_eq!(p("@3"), Ok(("", Parameter::RValue(RValue::Value(3)))));
    assert_eq!(
        p("#ORIGIN"),
        Ok(("", Parameter::RValue(RValue::ConstantEntity("ORIGIN".to_string()))))
    );
    assert_eq!(
        p("@PI_2"),
        Ok(("", Parameter::RValue(RValue::ConstantValue("PI_2".to_string()))))
    );
    assert_eq!(
        p("#18446744073709551615"),
        Ok(("", Parameter::RValue(RValue::Entity(u64::MAX))))
    );
    assert_eq!(p("#18446744073709551616"), Err(TokenizeFailed { offset: 0 }));
    assert_eq!(p("#"), Err(TokenizeFailed { offset: 0 }));
    assert_eq!(p(".T."), Ok(("", Parameter::Enumeration("T".to_string()))));
    assert_eq!(p(".STEEL_1.)"), Ok((")", Parameter::Enumeration("STEEL_1".to_string()))));
    assert_eq!(p(".T"), Err(TokenizeFailed { offset: 0 }));
    assert_eq!(p(".t."), Err(TokenizeFailed { offset: 0 }));
    assert_eq!(p("$"), Ok(("", Parameter::NotProvided)));
}

#[test]
fn lists() {
    assert_eq!(list("()"), Ok(("", Parameter::list(vec![]))));
    assert_eq!(list("( /* nothing */ )"), Ok(("", Parameter::list(vec![]))));
    assert_eq!(
        list("(1, (2.0, $), *, .F.) ;"),
        Ok((
            " ;",
            Parameter::list(vec![
                Parameter::integer(1),
                Parameter::list(vec![written("2.0"), Parameter::NotProvided]),
                Parameter::Omitted,
                Parameter::Enumeration("F".to_string()),
            ])
        ))
    );
    assert_eq!(list("(1,)"), Err(TokenizeFailed { offset: 2 }));
    assert_eq!(list("(1 2)"), Err(TokenizeFailed { offset: 3 }));
    assert_eq!(list("(1"), Err(TokenizeFailed { offset: 2 }));
    assert_eq!(list("1"), Err(TokenizeFailed { offset: 0 }));
    assert_eq!(list("( /* open )"), Err(TokenizeFailed { offset: 2 }));
}

#[test]
fn typed_parameters() {
    assert_eq!(
        typed_parameter("LENGTH_MEASURE(1.5)"),
        Ok((
            "",
            Parameter::Typed {
                name: "LENGTH_MEASURE".to_string(),
                ty: Box::new(written("1.5"))
            }
        ))
    );
    assert_eq!(
        typed_parameter("!MINE ( A(#1) )"),
        Ok((
            "",
            Parameter::Typed {
                name: "!MINE".to_string(),
                ty: Box::new(Parameter::Typed {
                    name: "A".to_string(),
                    ty: Box::new(Parameter::RValue(RValue::Entity(1)))
                })
            }
        ))
    );
    assert_eq!(typed_parameter("name(1)"), Err(TokenizeFailed { offset: 0 }));
    assert_eq!(typed_parameter("A 1"), Err(TokenizeFailed { offset: 2 }));
    assert_eq!(typed_parameter("A()"), Err(TokenizeFailed { offset: 2 }));
    assert_eq!(typed_parameter("A(1"), Err(TokenizeFailed { offset: 3 }));
}

#[test]
fn omitted_and_anything() {
    assert_eq!(omitted_parameter("*,"), Ok((",", Parameter::Omitted)));
    assert_eq!(omitted_parameter("$"), Err(TokenizeFailed { offset: 0 }));
    assert_eq!(parameter("*"), Ok(("", Parameter::Omitted)));
    assert_eq!(parameter("?"), Err(TokenizeFailed { offset: 0 }));
    assert_eq!(parameter(""), Err(TokenizeFailed { offset: 0 }));
}

#[test]
fn parameter_lists() {
    assert_eq!(
        parameter_list("'a' , #1,/* c */.T. )"),
        Ok((
            " )",
            vec![
                Parameter::string("a"),
                Parameter::RValue(RValue::Entity(1)),
                Parameter::Enumeration("T".to_string())
            ]
        ))
    );
    assert_eq!(parameter_list("1,"), Ok((",", vec![Parameter::integer(1)])));
    assert_eq!(parameter_list(")"), Err(TokenizeFailed { offset: 0 }));
}
