use rust_api::rules::{
    emit_call, expand_newtype, expand_validatable, is_string_type, parse_validate_attrs, Attribute,
    CallArg, ItemShape, MetaArg, NamedField, RuleSyntax, TupleField, ValidateRule, ValidatorCall,
};

fn flag(name: &str) -> RuleSyntax {
    RuleSyntax::Flag(name.to_string())
}

fn assign(name: &str, value: &str) -> RuleSyntax {
    RuleSyntax::Assign(name.to_string(), value.to_string())
}

fn arg(key: &str, value: &str) -> MetaArg {
    MetaArg { key: Some(key.to_string()), value: value.to_string(), string_literal: None }
}

fn lit(key: &str, contents: &str) -> MetaArg {
    MetaArg {
        key: Some(key.to_string()),
        value: format!("{contents:?}"),
        string_literal: Some(contents.to_string()),
    }
}

fn group(name: &str, args: Vec<MetaArg>) -> RuleSyntax {
    RuleSyntax::Group(name.to_string(), Ok(args))
}

fn unreadable_group(name: &str, error: &str) -> RuleSyntax {
    RuleSyntax::Group(name.to_string(), Err(error.to_string()))
}

fn validate(items: Vec<RuleSyntax>) -> Attribute {
    Attribute { path: Some("validate".to_string()), items, syntax_error: None }
}

fn other_attr(path: &str) -> Attribute {
    Attribute { path: Some(path.to_string()), items: vec![flag("email")], syntax_error: None }
}

/// A call written as `function(arg, ...)`, with `&v` and `v` for the value.
fn render(call: &ValidatorCall) -> String {
    let args: Vec<String> = call
        .args
        .iter()
        .map(|a| match a {
            CallArg::Ref => "&v".to_string(),
            CallArg::Direct => "v".to_string(),
            CallArg::Expr(e) => e.clone(),
            CallArg::Ident(i) => i.clone(),
            CallArg::Str(s) => format!("{s:?}"),
        })
        .collect();
    format!("{}({})", call.function, args.join(", "))
}

fn parse(s: RuleSyntax) -> Result<ValidateRule, String> {
    ValidateRule::parse(&s)
}

#[test]
fn rule_syntax_parses_into_rules() {
    assert!(matches!(parse(flag("email")), Ok(ValidateRule::Flag(n)) if n == "email"));
    assert!(matches!(
        parse(assign("min_length", "3")),
        Ok(ValidateRule::NameValue { name, value }) if name == "min_length" && value == "3"
    ));
    assert!(matches!(
        parse(group("range", vec![arg("min", "18"), arg("max", "120")])),
        Ok(ValidateRule::Range { min, max }) if min == "18" && max == "120"
    ));
    assert!(matches!(
        parse(group("custom", vec![lit("predicate", "is_free"), lit("message", "taken")])),
        Ok(ValidateRule::Custom { predicate, message }) if predicate == "is_free" && message == "taken"
    ));
}

#[test]
fn range_and_custom_need_their_keys() {
    assert_eq!(parse(group("range", vec![arg("max", "1")])).err().unwrap(), "range requires min");
    assert_eq!(parse(group("range", vec![arg("min", "1")])).err().unwrap(), "range requires max");
    assert_eq!(parse(group("range", vec![])).err().unwrap(), "range requires min");
    // `predicate` must be a string literal.
    assert_eq!(
        parse(group("custom", vec![arg("predicate", "f"), lit("message", "m")])).err().unwrap(),
        "custom requires predicate"
    );
    assert_eq!(
        parse(group("custom", vec![lit("predicate", "f")])).err().unwrap(),
        "custom requires message"
    );
    assert_eq!(
        parse(group("between", vec![arg("min", "1")])).err().unwrap(),
        "unknown validate rule `between`"
    );
}

#[test]
fn last_occurrence_of_a_key_counts_and_others_are_ignored() {
    let rule = parse(group(
        "range",
        vec![arg("min", "1"), arg("step", "2"), arg("max", "9"), arg("min", "5")],
    ))
    .unwrap();
    assert!(matches!(rule, ValidateRule::Range { min, max } if min == "5" && max == "9"));
    let unkeyed = MetaArg { key: None, value: "x".to_string(), string_literal: None };
    let rule = parse(group("range", vec![unkeyed, arg("min", "0"), arg("max", "0")])).unwrap();
    assert!(matches!(rule, ValidateRule::Range { min, .. } if min == "0"));
}

#[test]
fn each_rule_emits_its_validator_call() {
    let cases: Vec<(RuleSyntax, &str)> = vec![
        (flag("email"), "validate_email(\"email\", &v)"),
        (flag("url"), "validate_url(\"email\", &v)"),
        (flag("uuid"), "validate_uuid(\"email\", &v)"),
        (flag("non_empty"), "validate_non_empty(\"email\", &v)"),
        (flag("us_zip"), "validate_us_zip(\"email\", &v)"),
        (flag("ca_postal"), "validate_ca_postal(\"email\", &v)"),
        (flag("phone_e164"), "validate_phone_e164(\"email\", &v)"),
        (assign("min_length", "3"), "validate_min_length(\"email\", &v, 3)"),
        (assign("max_length", "50"), "validate_max_length(\"email\", &v, 50)"),
        (assign("matches", "\"^[a-z]+$\""), "validate_matches(\"email\", &v, \"^[a-z]+$\")"),
        (
            group("range", vec![arg("min", "18"), arg("max", "120")]),
            "validate_range(\"email\", v, 18, 120)",
        ),
        (
            group("custom", vec![lit("predicate", "is_free"), lit("message", "taken")]),
            "validate_custom(\"email\", &v, is_free, \"taken\")",
        ),
    ];
    for (syntax, expected) in cases {
        let rule = parse(syntax).unwrap();
        let call = emit_call(&rule, "email").unwrap();
        assert_eq!(render(&call), expected);
    }
}

#[test]
fn unknown_flags_and_keys_are_errors() {
    let rule = parse(flag("emial")).unwrap();
    assert_eq!(emit_call(&rule, "f").err().unwrap(), "unknown validate flag `emial`");
    let rule = parse(assign("min_len", "3")).unwrap();
    assert_eq!(emit_call(&rule, "f").err().unwrap(), "unknown validate key `min_len`");
}

#[test]
fn only_validate_attributes_are_read() {
    let attrs = vec![
        other_attr("serde"),
        validate(vec![flag("email"), assign("max_length", "50")]),
        Attribute { path: None, items: vec![flag("bogus")], syntax_error: None },
        validate(vec![assign("min_length", "3")]),
    ];
    let rules = parse_validate_attrs(&attrs).unwrap();
    assert_eq!(rules.len(), 3);
    assert!(matches!(&rules[0], ValidateRule::Flag(n) if n == "email"));
    assert!(matches!(&rules[2], ValidateRule::NameValue { name, .. } if name == "min_length"));
    assert!(parse_validate_attrs(&vec![]).unwrap().is_empty());
}

#[test]
fn first_error_in_attributes_wins() {
    let attrs = vec![
        validate(vec![flag("email"), group("range", vec![arg("max", "1")])]),
        validate(vec![group("nope", vec![])]),
    ];
    assert_eq!(parse_validate_attrs(&attrs).err().unwrap(), "range requires min");
    let attrs = vec![
        Attribute {
            path: Some("validate".to_string()),
            items: vec![flag("email")],
            syntax_error: Some("expected `,`".to_string()),
        },
        validate(vec![group("nope", vec![])]),
    ];
    assert_eq!(parse_validate_attrs(&attrs).err().unwrap(), "expected `,`");
    let attrs = vec![Attribute {
        path: Some("validate".to_string()),
        items: vec![group("nope", vec![])],
        syntax_error: Some("expected `,`".to_string()),
    }];
    assert_eq!(parse_validate_attrs(&attrs).err().unwrap(), "unknown validate rule `nope`");
}

fn named(name: &str, attrs: Vec<Attribute>) -> NamedField {
    NamedField { name: name.to_string(), attrs }
}

#[test]
fn validatable_plan_has_one_call_per_rule_in_order() {
    let shape = ItemShape::NamedStruct(vec![
        named("email", vec![validate(vec![flag("email")])]),
        named("note", vec![]),
        named("username", vec![validate(vec![assign("min_length", "3"), assign("max_length", "50")])]),
        named("age", vec![validate(vec![group("range", vec![arg("min", "18"), arg("max", "120")])])]),
    ]);
    let calls = expand_validatable(&shape).unwrap();
    let seen: Vec<(String, String)> =
        calls.iter().map(|c| (c.field.clone(), render(&c.call))).collect();
    assert_eq!(
        seen,
        vec![
            ("email".to_string(), "validate_email(\"email\", &v)".to_string()),
            ("username".to_string(), "validate_min_length(\"username\", &v, 3)".to_string()),
            ("username".to_string(), "validate_max_length(\"username\", &v, 50)".to_string()),
            ("age".to_string(), "validate_range(\"age\", v, 18, 120)".to_string()),
        ]
    );
    assert!(expand_validatable(&ItemShape::NamedStruct(vec![named("x", vec![])])).unwrap().is_empty());
}

#[test]
fn validatable_refuses_other_shapes() {
    assert_eq!(
        expand_validatable(&ItemShape::TupleStruct(vec![])).err().unwrap(),
        "#[derive(Validatable)] only supports structs with named fields"
    );
    assert_eq!(
        expand_validatable(&ItemShape::UnitStruct).err().unwrap(),
        "#[derive(Validatable)] only supports structs with named fields"
    );
    assert_eq!(
        expand_validatable(&ItemShape::NotAStruct).err().unwrap(),
        "#[derive(Validatable)] only supports structs"
    );
    let shape = ItemShape::NamedStruct(vec![
        named("a", vec![validate(vec![flag("email")])]),
        named("b", vec![validate(vec![flag("zip")])]),
        named("c", vec![validate(vec![group("range", vec![])])]),
    ]);
    assert_eq!(expand_validatable(&shape).err().unwrap(), "unknown validate flag `zip`");
}

fn tuple_field(ty: Option<&str>, attrs: Vec<Attribute>) -> TupleField {
    TupleField { inner_type: ty.map(|t| t.to_string()), attrs }
}

#[test]
fn newtype_plan_validates_the_inner_value() {
    let shape = ItemShape::TupleStruct(vec![tuple_field(
        Some("String"),
        vec![
            validate(vec![assign("min_length", "3")]),
            validate(vec![assign("max_length", "30")]),
            validate(vec![assign("matches", "\"^[a-z0-9_]+$\"")]),
        ],
    )]);
    let plan = expand_newtype(&shape).unwrap();
    assert!(plan.as_str);
    let calls: Vec<String> = plan.calls.iter().map(render).collect();
    assert_eq!(
        calls,
        vec![
            "validate_min_length(\"value\", &v, 3)",
            "validate_max_length(\"value\", &v, 30)",
            "validate_matches(\"value\", &v, \"^[a-z0-9_]+$\")",
        ]
    );
    let plain = expand_newtype(&ItemShape::TupleStruct(vec![tuple_field(Some("u32"), vec![])])).unwrap();
    assert!(!plain.as_str);
    assert!(plain.calls.is_empty());
}

#[test]
fn newtype_refuses_other_shapes() {
    assert_eq!(
        expand_newtype(&ItemShape::NotAStruct).err().unwrap(),
        "#[derive(NewType)] only supports tuple structs"
    );
    assert_eq!(
        expand_newtype(&ItemShape::NamedStruct(vec![])).err().unwrap(),
        "#[derive(NewType)] requires a tuple struct: `pub struct Foo(InnerType);`"
    );
    assert_eq!(
        expand_newtype(&ItemShape::UnitStruct).err().unwrap(),
        "#[derive(NewType)] requires a tuple struct: `pub struct Foo(InnerType);`"
    );
    let two = ItemShape::TupleStruct(vec![tuple_field(None, vec![]), tuple_field(None, vec![])]);
    assert_eq!(
        expand_newtype(&two).err().unwrap(),
        "#[derive(NewType)] requires exactly one inner field"
    );
    let bad = ItemShape::TupleStruct(vec![tuple_field(Some("String"), vec![validate(vec![flag("emali")])])]);
    assert_eq!(expand_newtype(&bad).err().unwrap(), "unknown validate flag `emali`");
}

#[test]
fn string_type_is_recognised_by_its_last_segment() {
    assert!(is_string_type(&tuple_field(Some("String"), vec![])));
    assert!(!is_string_type(&tuple_field(Some("str"), vec![])));
    assert!(!is_string_type(&tuple_field(None, vec![])));
}

#[test]
fn unreadable_group_arguments() {
    // An unknown group is refused by name, whatever its arguments.
    assert_eq!(
        parse(unreadable_group("foo", "expected identifier")).err().unwrap(),
        "unknown validate rule `foo`"
    );
    // For `range` and `custom`, the arguments' syntax error is the error.
    assert_eq!(
        parse(unreadable_group("range", "expected identifier")).err().unwrap(),
        "expected identifier"
    );
    assert_eq!(
        parse(unreadable_group("custom", "unexpected token")).err().unwrap(),
        "unexpected token"
    );
}
