use outpack::number::Number;
use outpack::query::QueryError;
use outpack::query_parse::{parse_query, preparse_query};
use outpack::query_types::{Literal, Lookup, QueryNode, Test, TestValue};

fn dbg(query: &str) -> String {
    format!("{:?}", parse_query(query).unwrap())
}

fn parse_error_text(query: &str) -> String {
    let e = parse_query(query).unwrap_err();
    QueryError::ParseError(Box::new(e)).to_string()
}

fn id_is(v: &str) -> String {
    format!("Test(Equal, Lookup(Id), Literal(String({:?})))", v)
}

fn param_number(query: &str, expected: Number) {
    match parse_query(query).unwrap() {
        QueryNode::Test(Test::Equal, TestValue::Lookup(Lookup::Parameter(p)), TestValue::Literal(Literal::Number(n))) => {
            assert_eq!(p, "x");
            assert_eq!(n.compare(&expected), 0, "{} read as {:?}", query, n);
        }
        other => panic!("unexpected node for {}: {:?}", query, other),
    }
}

#[test]
fn query_can_be_preparsed() {
    assert_eq!(preparse_query("latest"), "latest()");
    assert_eq!(preparse_query("latest()"), "latest()");
    assert_eq!(preparse_query(r#"latest(name == "foo")"#), r#"latest(name == "foo")"#);
    assert_eq!(preparse_query(r#""123""#), r#"id == "123""#);
    assert_eq!(preparse_query(r#"name == "foo""#), r#"name == "foo""#);
}

#[test]
fn query_parse_query_can_be_parsed() {
    assert_eq!(dbg("latest()"), "Latest(None)");
    assert_eq!(dbg(r#"id == "123""#), id_is("123"));
    assert_eq!(dbg("id == '123'"), id_is("123"));
    assert_eq!(dbg(r#"id == "12 3""#), id_is("12 3"));
    assert_eq!(dbg(r#"name == "123""#), r#"Test(Equal, Lookup(Name), Literal(String("123")))"#);
    assert_eq!(dbg(r#"name == '1"23'"#), r#"Test(Equal, Lookup(Name), Literal(String("1\"23")))"#);
    assert_eq!(dbg(r#"latest(id == "123")"#), format!("Latest(Some({}))", id_is("123")));
    assert_eq!(
        dbg(r#"latest(name == "example")"#),
        r#"Latest(Some(Test(Equal, Lookup(Name), Literal(String("example")))))"#
    );
    assert!(parse_query(r#"latest("123")"#).is_err());
    assert!(parse_query("123").is_err());
}

#[test]
fn bare_quoted_id_reads_as_id_test() {
    assert_eq!(dbg(r#""123""#), id_is("123"));
}

#[test]
fn bare_latest_reads_as_latest_call() {
    assert_eq!(dbg("latest"), dbg("latest()"));
    assert_eq!(dbg("latest"), "Latest(None)");
}

#[test]
fn query_can_parse_parameters() {
    let px = |v: &str| format!("Test(Equal, Lookup(Parameter(\"x\")), Literal({}))", v);
    assert_eq!(dbg(r#"parameter:x == "foo""#), px(r#"String("foo")"#));
    assert_eq!(dbg(r#"parameter:x=="foo""#), px(r#"String("foo")"#));
    assert_eq!(
        dbg(r#"parameter:longer=="foo""#),
        r#"Test(Equal, Lookup(Parameter("longer")), Literal(String("foo")))"#
    );
    assert_eq!(
        dbg(r#"parameter:x123=="foo""#),
        r#"Test(Equal, Lookup(Parameter("x123")), Literal(String("foo")))"#
    );
    assert_eq!(dbg("parameter:x == true"), px("Bool(true)"));
    assert_eq!(dbg("parameter:x == TRUE"), px("Bool(true)"));
    assert_eq!(dbg("parameter:x == True"), px("Bool(true)"));
    assert_eq!(dbg("parameter:x == false"), px("Bool(false)"));
    assert_eq!(dbg("parameter:x == FALSE"), px("Bool(false)"));
    assert_eq!(dbg("parameter:x == False"), px("Bool(false)"));
    assert!(parse_error_text("parameter:x == T").contains("expected lookup or literal"));

    let two = Number { mantissa: 2, exponent: 0 };
    param_number("parameter:x == 2", two);
    param_number("parameter:x == +2", two);
    param_number("parameter:x == 2.0", two);
    param_number("parameter:x == 2.", two);
    param_number("parameter:x == -2.0", Number { mantissa: -2, exponent: 0 });
    param_number("parameter:x == +2.0", two);
    param_number("parameter:x == 1e3", Number { mantissa: 1000, exponent: 0 });
    param_number("parameter:x == 1e+3", Number { mantissa: 1000, exponent: 0 });
    param_number("parameter:x == 2.3e-2", Number { mantissa: 23, exponent: -3 });
    param_number("parameter:x == -2.3e-2", Number { mantissa: -23, exponent: -3 });
}

#[test]
fn number_text_out_of_range_is_a_parse_error() {
    assert!(parse_error_text("parameter:x == 12345678901234567890").contains("number out of range"));
    param_number("parameter:x == 0.000000000000000000000000001", Number { mantissa: 1, exponent: -27 });
}

#[test]
fn query_can_parse_tests() {
    let t = |op: &str| format!("Test({}, Lookup(Id), Literal(String(\"123\")))", op);
    assert_eq!(dbg(r#"id == "123""#), t("Equal"));
    assert_eq!(dbg(r#"id != "123""#), t("NotEqual"));
    assert_eq!(dbg(r#"id < "123""#), t("LessThan"));
    assert_eq!(dbg(r#"id <= "123""#), t("LessThanOrEqual"));
    assert_eq!(dbg(r#"id > "123""#), t("GreaterThan"));
    assert_eq!(dbg(r#"id >= "123""#), t("GreaterThanOrEqual"));
    let e = parse_error_text(r#"name =! "123""#);
    assert!(e.contains("Encountered unknown infix operator: =!"));
}

#[test]
fn query_can_parse_negation_and_brackets() {
    assert_eq!(dbg("!latest()"), "Negation(Latest(None))");
    assert_eq!(dbg("(latest())"), "Brackets(Latest(None))");
    assert_eq!(dbg(r#"id == "123""#), id_is("123"));
    assert_eq!(dbg(r#"!id == "123""#), format!("Negation({})", id_is("123")));
    assert_eq!(dbg(r#"(!id == "123")"#), format!("Brackets(Negation({}))", id_is("123")));
    assert_eq!(
        dbg(r#"!(!id == "123")"#),
        format!("Negation(Brackets(Negation({})))", id_is("123"))
    );
}

#[test]
fn query_can_parse_logical_operators() {
    assert_eq!(
        dbg(r#"id == "123" || id == "345""#),
        format!("BooleanOperator(Or, {}, {})", id_is("123"), id_is("345"))
    );
    assert_eq!(
        dbg(r#"id == "123" && id == "345""#),
        format!("BooleanOperator(And, {}, {})", id_is("123"), id_is("345"))
    );
    assert_eq!(
        dbg(r#"id == "123" && id == "345" || id == "this""#),
        format!(
            "BooleanOperator(Or, BooleanOperator(And, {}, {}), {})",
            id_is("123"),
            id_is("345"),
            id_is("this")
        )
    );
    assert_eq!(
        dbg(r#"id == "this" || id == "123" && id == "345""#),
        format!(
            "BooleanOperator(Or, {}, BooleanOperator(And, {}, {}))",
            id_is("this"),
            id_is("123"),
            id_is("345")
        )
    );
    assert_eq!(
        dbg(r#"(id == "this" || id == "123") && id == "345""#),
        format!(
            "BooleanOperator(And, Brackets(BooleanOperator(Or, {}, {})), {})",
            id_is("this"),
            id_is("123"),
            id_is("345")
        )
    );
}

#[test]
fn query_can_parse_nested_latest() {
    assert_eq!(
        dbg(r#"latest(id == "123" || name == "this")"#),
        format!(
            "Latest(Some(BooleanOperator(Or, {}, Test(Equal, Lookup(Name), Literal(String(\"this\"))))))",
            id_is("123")
        )
    );
}

#[test]
fn query_can_parse_single_func() {
    assert_eq!(
        dbg(r#"single(parameter:x == "foo")"#),
        r#"Single(Test(Equal, Lookup(Parameter("x")), Literal(String("foo"))))"#
    );
    let e = parse_error_text("single()");
    assert!(e.contains("Failed to parse query"));
    assert!(e.contains("expected body"));
}

#[test]
fn query_can_parse_infix_in_any_order() {
    let px = r#"Lookup(Parameter("x")), Literal(String("foo"))"#;
    assert_eq!(dbg(r#"parameter:x == "foo""#), format!("Test(Equal, {})", px));
    assert_eq!(dbg(r#""foo" == parameter:x"#), format!("Test(Equal, {})", px));
    assert_eq!(dbg(r#"parameter:x < "foo""#), format!("Test(LessThan, {})", px));
    assert_eq!(dbg(r#""foo" < parameter:x"#), format!("Test(GreaterThan, {})", px));
    assert_eq!(
        dbg(r#""foo" == "foo""#),
        r#"Test(Equal, Literal(String("foo")), Literal(String("foo")))"#
    );
    assert_eq!(
        dbg("parameter:x == parameter:x"),
        r#"Test(Equal, Lookup(Parameter("x")), Lookup(Parameter("x")))"#
    );
}

#[test]
fn this_and_environment_lookups_parse() {
    assert_eq!(
        dbg("this:a == environment:b"),
        r#"Test(Equal, Lookup(This("a")), Lookup(Environment("b")))"#
    );
    assert!(parse_error_text("parameter: == 1").contains("expected lookup name"));
    assert!(parse_error_text("latest() latest()").contains("expected end of query"));
    assert!(parse_error_text("(latest()").contains("expected closing parenthesis"));
    assert!(parse_error_text("id == \"abc").contains("unterminated string"));
    assert!(parse_error_text("id == 1 & id == 2").contains("unexpected character"));
    assert!(parse_error_text("id \"x\"").contains("expected infix operator"));
}
