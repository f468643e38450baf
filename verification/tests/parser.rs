use espr::ast::Remark;
use espr::parser::interface_specification;
use espr::parser::named_type_or_rename;
use espr::parser::reference_clause;
use espr::parser::resource_or_rename;
use espr::parser::rule_head;
use espr::parser::schema::Interface;
use espr::parser::schema::InterfaceSpecification;
use espr::parser::schema::Renamed;
use espr::parser::schema::RuleHead;
use espr::parser::simple_id;
use espr::parser::use_clause;
use espr::parser::Source;
use espr::parser::TokenizeFailed;

fn renamed(name: &str, rename: Option<&str>) -> Renamed {
    Renamed {
        name: name.to_string(),
        rename: rename.map(|r| r.to_string()),
    }
}

#[test]
fn letter() {
    let (residual, l) = espr::parser::letter("h").unwrap();
    assert_eq!(l, 'h');
    assert_eq!(residual, "");

    let (residual, l) = espr::parser::letter("abc").unwrap();
    assert_eq!(l, 'a');
    assert_eq!(residual, "bc");

    // Capital is not allowed
    assert!(espr::parser::letter("H").is_err());
    // Number is not allowed
    assert!(espr::parser::letter("2").is_err());
}

#[test]
fn digit() {
    let (residual, l) = espr::parser::digit("123").unwrap();
    assert_eq!(l, '1');
    assert_eq!(residual, "23");

    // Alphabets are not allowed
    assert!(espr::parser::digit("h").is_err());
}

#[test]
fn simple_id_valid() {
    let (residual, id) = simple_id("h").unwrap();
    assert_eq!(id, "h");
    assert_eq!(residual, "");

    let (residual, id) = simple_id("homhom").unwrap();
    assert_eq!(id, "homhom");
    assert_eq!(residual, "");

    let (residual, id) = simple_id("ho_mhom").unwrap();
    assert_eq!(id, "ho_mhom");
    assert_eq!(residual, "");

    let (residual, id) = simple_id("h10o_1mh2om").unwrap();
    assert_eq!(id, "h10o_1mh2om");
    assert_eq!(residual, "");
}

#[test]
fn simple_id_invalid() {
    // Capital is not allowed
    assert!(simple_id("HomHom").is_err());
    // `_` cannot use as first
    assert!(simple_id("_homhom").is_err());
    // digit cannot use as first
    assert!(simple_id("1homhom").is_err());
    // Empty is invlaid
    assert!(simple_id("").is_err());
}

#[test]
fn letter_and_digit_of_nothing() {
    assert_eq!(espr::parser::letter(""), Err(TokenizeFailed { offset: 0 }));
    assert_eq!(espr::parser::digit(""), Err(TokenizeFailed { offset: 0 }));
    assert_eq!(espr::parser::letter("z9"), Ok(("9", 'z')));
    assert_eq!(espr::parser::digit("9z"), Ok(("z", '9')));
}

#[test]
fn simple_id_stops_at_the_first_other_character() {
    assert_eq!(simple_id("abc def"), Ok((" def", "abc".to_string())));
    assert_eq!(simple_id("a_1;"), Ok((";", "a_1".to_string())));
    assert_eq!(simple_id("aB"), Ok(("B", "a".to_string())));
    assert_eq!(simple_id("h\u{e9}llo"), Ok(("\u{e9}llo", "h".to_string())));
}

#[test]
fn source_gives_characters_and_slices() {
    let src = Source::new("a\u{e9}b (* x *)");
    assert_eq!(src.len(), 11);
    assert_eq!(src.at(1), '\u{e9}');
    assert_eq!(src.slice(1, 3), "\u{e9}b");
    assert_eq!(src.rest(4), "(* x *)");
    assert!(src.pair_at(4, '(', '*'));
    assert!(!src.pair_at(10, ')', ')'));
    assert!(src.word_at(4, "(* x"));
    assert!(!src.word_at(8, "*) "));
}

#[test]
fn blanks_and_remarks_are_skipped() {
    let src = Source::new("  \t\r\n(* one *) -- two\n(* \"a.b\" three (* in *) *)x");
    let (remarks, end) = src.spaces_at(0);
    assert_eq!(src.rest(end), "x");
    assert_eq!(
        remarks,
        vec![
            Remark {
                tag: None,
                remark: " one ".to_string()
            },
            Remark {
                tag: None,
                remark: " two".to_string()
            },
            Remark {
                tag: None,
                remark: " \"a.b\" three (* in *) ".to_string()
            },
        ]
    );
}

#[test]
fn remark_tags_are_split_into_names() {
    let src = Source::new("(*\"first.m_ref\" the reference*)--\"second\"");
    let (remarks, end) = src.spaces_at(0);
    assert_eq!(end, src.len());
    assert_eq!(
        remarks,
        vec![
            Remark {
                tag: Some(vec!["first".to_string(), "m_ref".to_string()]),
                remark: " the reference".to_string()
            },
            Remark {
                tag: Some(vec!["second".to_string()]),
                remark: "".to_string()
            },
        ]
    );
}

#[test]
fn unfinished_remark_is_not_skipped() {
    let src = Source::new(" (* open (* in *) ");
    let (remarks, end) = src.spaces_at(0);
    assert_eq!(end, 1);
    assert!(remarks.is_empty());
    assert!(src.remark_at(1).is_none());
}

#[test]
fn resource_with_and_without_rename() {
    assert_eq!(
        resource_or_rename("point"),
        Ok(("", (renamed("point", None), vec![])))
    );
    assert_eq!(
        resource_or_rename("point AS pt, x"),
        Ok((", x", (renamed("point", Some("pt")), vec![])))
    );
    assert_eq!(
        named_type_or_rename("point (* old *) AS-- new\n pt)"),
        Ok((
            ")",
            (
                renamed("point", Some("pt")),
                vec![
                    Remark {
                        tag: None,
                        remark: " old ".to_string()
                    },
                    Remark {
                        tag: None,
                        remark: " new".to_string()
                    }
                ]
            )
        ))
    );
}

#[test]
fn rename_that_does_not_follow_is_left_in_the_text() {
    assert_eq!(
        resource_or_rename("point AS 1"),
        Ok((" AS 1", (renamed("point", None), vec![])))
    );
    assert_eq!(
        resource_or_rename("point (* r *) ;"),
        Ok((" (* r *) ;", (renamed("point", None), vec![])))
    );
    assert_eq!(resource_or_rename("AS"), Err(TokenizeFailed { offset: 0 }));
}

#[test]
fn reference_clause_of_a_whole_schema() {
    assert_eq!(
        reference_clause("REFERENCE FROM geometry;rest"),
        Ok((
            "rest",
            (
                Interface {
                    schema: "geometry".to_string(),
                    items: None
                },
                vec![]
            )
        ))
    );
}

#[test]
fn reference_clause_with_resources() {
    assert_eq!(
        reference_clause("REFERENCE FROM geometry (point AS pt, line , plane AS p2) ;"),
        Ok((
            "",
            (
                Interface {
                    schema: "geometry".to_string(),
                    items: Some(vec![
                        renamed("point", Some("pt")),
                        renamed("line", None),
                        renamed("plane", Some("p2"))
                    ])
                },
                vec![]
            )
        ))
    );
}

#[test]
fn use_clause_with_types_and_remarks() {
    assert_eq!(
        use_clause("USE(* a *)FROM s(x,(* b *)y AS z);"),
        Ok((
            "",
            (
                Interface {
                    schema: "s".to_string(),
                    items: Some(vec![renamed("x", None), renamed("y", Some("z"))])
                },
                vec![
                    Remark {
                        tag: None,
                        remark: " a ".to_string()
                    },
                    Remark {
                        tag: None,
                        remark: " b ".to_string()
                    }
                ]
            )
        ))
    );
}

#[test]
fn clauses_fail_where_the_text_stops_matching() {
    assert_eq!(reference_clause("USE FROM s;"), Err(TokenizeFailed { offset: 0 }));
    assert_eq!(use_clause("USE s;"), Err(TokenizeFailed { offset: 4 }));
    assert_eq!(use_clause("USE FROM S;"), Err(TokenizeFailed { offset: 9 }));
    assert_eq!(use_clause("USE FROM s"), Err(TokenizeFailed { offset: 10 }));
    assert_eq!(use_clause("USE FROM s (a,) ;"), Err(TokenizeFailed { offset: 11 }));
    assert_eq!(use_clause("USE FROM s (a b);"), Err(TokenizeFailed { offset: 11 }));
    assert_eq!(use_clause("USE FROM s (a) x"), Err(TokenizeFailed { offset: 15 }));
}

#[test]
fn interface_specification_is_either_clause() {
    assert_eq!(
        interface_specification("REFERENCE FROM a;"),
        Ok((
            "",
            (
                InterfaceSpecification::Reference(Interface {
                    schema: "a".to_string(),
                    items: None
                }),
                vec![]
            )
        ))
    );
    assert_eq!(
        interface_specification("USE FROM a (b);"),
        Ok((
            "",
            (
                InterfaceSpecification::Use(Interface {
                    schema: "a".to_string(),
                    items: Some(vec![renamed("b", None)])
                }),
                vec![]
            )
        ))
    );
    assert_eq!(
        interface_specification("SCHEMA a;"),
        Err(TokenizeFailed { offset: 0 })
    );
    assert_eq!(
        interface_specification("USE FROM ;"),
        Err(TokenizeFailed { offset: 9 })
    );
}

#[test]
fn rule_head_with_entities() {
    assert_eq!(
        rule_head("RULE unique_names FOR (person, company);\nWHERE"),
        Ok((
            "\nWHERE",
            (
                RuleHead {
                    name: "unique_names".to_string(),
                    entities: vec!["person".to_string(), "company".to_string()]
                },
                vec![]
            )
        ))
    );
}

#[test]
fn rule_head_takes_no_rename_and_needs_entities() {
    assert_eq!(
        rule_head("RULE r FOR (a AS b);"),
        Err(TokenizeFailed { offset: 14 })
    );
    assert_eq!(rule_head("RULE r FOR ();"), Err(TokenizeFailed { offset: 12 }));
    assert_eq!(rule_head("RULE r (a);"), Err(TokenizeFailed { offset: 7 }));
    assert_eq!(rule_head("RULE FOR (a);"), Err(TokenizeFailed { offset: 5 }));
}
