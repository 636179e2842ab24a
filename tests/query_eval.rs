use outpack::index::{Index, Packet, Parameter, ParameterValue};
use outpack::number::Number;
use outpack::query::{format_query_result, run_query, QueryError};
use outpack::query_eval::{eval_query, lookup_filter};
use outpack::query_types::{Literal, Lookup, Operator, QueryNode, Test, TestValue};

fn packet(id: &str, name: &str, params: Option<Vec<Parameter>>) -> Packet {
    Packet { id: String::from(id), name: String::from(name), parameters: params }
}

fn param(name: &str, value: ParameterValue) -> Parameter {
    Parameter { name: String::from(name), value }
}

fn num(m: i64, e: i64) -> Number {
    Number { mantissa: m, exponent: e }
}

fn yf() -> Option<Vec<Parameter>> {
    Some(vec![param("disease", ParameterValue::String(String::from("YF")))])
}

fn example_index() -> Index {
    Index {
        packets: vec![
            packet("20170818-164830-33e0ab01", "modup-201707-queries1", yf()),
            packet("20170818-164847-7574883b", "modup-201707-queries1", None),
            packet(
                "20180220-095832-16a4bbed",
                "modup-201707-params1",
                Some(vec![
                    param("tolerance", ParameterValue::Number(num(1, -3))),
                    param("size", ParameterValue::Number(num(10, 0))),
                    param("disease", ParameterValue::String(String::from("YF"))),
                    param("pull_data", ParameterValue::Bool(true)),
                ]),
            ),
            packet("20180818-164043-7cdcde4b", "modup-201707-queries1", yf()),
        ],
    }
}

fn ids(index: &Index, res: Vec<usize>) -> Vec<String> {
    res.into_iter().map(|i| index.packets[i].id.clone()).collect()
}

fn run(query: QueryNode) -> Vec<String> {
    let index = example_index();
    let res = eval_query(&index, &query).unwrap();
    ids(&index, res)
}

fn test_node(t: Test, lhs: TestValue, rhs: TestValue) -> QueryNode {
    QueryNode::Test(t, lhs, rhs)
}

fn lit_s(s: &str) -> TestValue {
    TestValue::Literal(Literal::String(String::from(s)))
}

fn lit_n(m: i64, e: i64) -> TestValue {
    TestValue::Literal(Literal::Number(num(m, e)))
}

fn lit_b(b: bool) -> TestValue {
    TestValue::Literal(Literal::Bool(b))
}

fn par(p: &str) -> TestValue {
    TestValue::Lookup(Lookup::Parameter(String::from(p)))
}

fn latest() -> QueryNode {
    QueryNode::Latest(None)
}

fn test_query(query: &str, expected: &str) {
    assert_eq!(run_query(&example_index(), query).unwrap(), expected);
}

#[test]
fn query_lookup_works() {
    let q = test_node(Test::Equal, TestValue::Lookup(Lookup::Id), lit_s("20180818-164043-7cdcde4b"));
    assert_eq!(run(q), vec!["20180818-164043-7cdcde4b"]);
    let q = test_node(Test::Equal, TestValue::Lookup(Lookup::Name), lit_s("modup-201707-queries1"));
    assert_eq!(
        run(q),
        vec!["20170818-164830-33e0ab01", "20170818-164847-7574883b", "20180818-164043-7cdcde4b"]
    );
    let q = test_node(Test::Equal, TestValue::Lookup(Lookup::Id), lit_s("123"));
    assert_eq!(run(q).len(), 0);
    let q = test_node(Test::Equal, par("disease"), lit_s("YF"));
    assert_eq!(run(q).len(), 3);
    let q = test_node(Test::Equal, par("foo"), lit_s("bar"));
    assert_eq!(run(q).len(), 0);
}

#[test]
fn query_latest_works() {
    assert_eq!(run(latest()), vec!["20180818-164043-7cdcde4b"]);
    let inner = test_node(Test::Equal, TestValue::Lookup(Lookup::Name), lit_s("modup-201707-queries1"));
    assert_eq!(run(QueryNode::Latest(Some(Box::new(inner)))), vec!["20180818-164043-7cdcde4b"]);
    let inner = test_node(Test::Equal, TestValue::Lookup(Lookup::Name), lit_s("123"));
    assert_eq!(run(QueryNode::Latest(Some(Box::new(inner)))).len(), 0);
}

#[test]
fn latest_of_empty_index_is_empty() {
    let index = Index { packets: Vec::new() };
    assert_eq!(eval_query(&index, &latest()).unwrap().len(), 0);
    assert_eq!(run_query(&index, "latest").unwrap(), "Found no packets");
}

#[test]
fn can_get_parameter_as_literal() {
    let index = example_index();
    let packet = &index.packets[2];
    assert!(packet.get_parameter("missing").is_none());
    assert!(matches!(packet.get_parameter("disease"), Some(Literal::String(s)) if s == "YF"));
    assert!(matches!(packet.get_parameter("pull_data"), Some(Literal::Bool(true))));
    assert!(matches!(packet.get_parameter("tolerance"), Some(Literal::Number(n)) if n.compare(&num(1, -3)) == 0));
    assert!(matches!(packet.get_parameter("size"), Some(Literal::Number(n)) if n.compare(&num(100, -1)) == 0));
    let other = packet_with_other();
    assert!(other.get_parameter("list").is_none());
    assert!(other.lookup_value(&Lookup::This(String::from("x"))).is_none());
    assert!(matches!(other.lookup_value(&Lookup::Id), Some(Literal::String(s)) if s == "20200101-000000-00000000"));
}

fn packet_with_other() -> Packet {
    packet("20200101-000000-00000000", "n", Some(vec![param("list", ParameterValue::Other)]))
}

#[test]
fn can_test_lookup_filter() {
    let index = example_index();
    let p = &index.packets[2];
    let check = |t: Test, l: TestValue, r: TestValue, expected: bool| {
        assert_eq!(lookup_filter(p, &t, &l, &r), expected, "{:?} {:?} {:?}", t, l, r);
    };
    check(Test::Equal, par("tolerance"), lit_n(1, -3), true);
    check(Test::Equal, par("tolerance"), lit_n(2, -3), false);
    check(Test::Equal, par("tolerance"), lit_s("0.001"), false);
    check(Test::Equal, par("disease"), lit_s("YF"), true);
    check(Test::Equal, par("disease"), lit_s("HepB"), false);
    check(Test::Equal, par("disease"), lit_n(5, -1), false);
    check(Test::Equal, par("size"), lit_n(10, 0), true);
    check(Test::Equal, par("size"), lit_n(100, -1), true);
    check(Test::Equal, par("size"), lit_n(9, 0), false);
    check(Test::Equal, par("size"), lit_b(true), false);
    check(Test::Equal, par("pull_data"), lit_b(true), true);
    check(Test::Equal, par("pull_data"), lit_b(false), false);
    check(Test::Equal, par("pull_data"), lit_s("true"), false);
    check(Test::NotEqual, par("tolerance"), lit_n(2, -3), true);
    check(Test::LessThan, par("tolerance"), lit_n(2, -3), true);
    check(Test::LessThanOrEqual, par("tolerance"), lit_n(2, -3), true);
    check(Test::GreaterThan, par("tolerance"), lit_n(0, 0), true);
    check(Test::GreaterThanOrEqual, par("tolerance"), lit_n(0, 0), true);
    check(Test::LessThan, par("tolerance"), lit_n(0, 0), false);
    check(Test::LessThanOrEqual, par("tolerance"), lit_n(0, 0), false);
    check(Test::LessThan, par("pull_data"), lit_b(true), false);
    check(Test::LessThan, par("pull_data"), lit_b(false), false);
    check(Test::LessThan, par("disease"), lit_s("YF"), false);
    check(Test::LessThanOrEqual, par("disease"), lit_s("YF"), false);
    check(Test::GreaterThan, par("disease"), lit_s("YF"), false);
    check(Test::GreaterThanOrEqual, par("disease"), lit_s("YF"), false);
    check(Test::Equal, lit_n(1, -3), lit_n(1, -3), true);
    check(Test::Equal, lit_n(1, -3), lit_n(2, -3), false);
    check(Test::Equal, lit_n(1, -3), lit_s("0.002"), false);
    check(Test::NotEqual, lit_n(1, -3), lit_n(1, -3), false);
    check(Test::Equal, par("tolerance"), par("tolerance"), true);
    check(Test::NotEqual, par("tolerance"), par("tolerance"), false);
    check(Test::GreaterThan, par("tolerance"), par("tolerance"), false);
    check(Test::LessThanOrEqual, par("tolerance"), par("tolerance"), true);
    check(Test::NotEqual, par("pull_data"), lit_s("true"), false);
    check(Test::Equal, par("missing"), par("missing"), false);
}

#[test]
fn can_use_different_test_types() {
    let one = vec!["20180220-095832-16a4bbed"];
    assert_eq!(run(test_node(Test::Equal, TestValue::Lookup(Lookup::Name), lit_s("modup-201707-params1"))), one);
    assert_eq!(run(test_node(Test::Equal, par("size"), lit_n(10, 0))), one);
    assert_eq!(run(test_node(Test::LessThan, par("size"), lit_n(101, -1))), one);
    assert_eq!(run(test_node(Test::GreaterThan, par("size"), lit_n(94, -1))), one);
    assert_eq!(run(test_node(Test::GreaterThan, par("size"), lit_n(10, 0))).len(), 0);
    assert_eq!(run(test_node(Test::GreaterThanOrEqual, par("size"), lit_n(10, 0))), one);
    assert_eq!(run(test_node(Test::LessThanOrEqual, par("size"), lit_n(10, 0))), one);
    assert_eq!(run(test_node(Test::NotEqual, par("pull_data"), lit_b(false))), one);
    assert_eq!(run(test_node(Test::NotEqual, par("pull_data"), lit_b(true))).len(), 0);
}

#[test]
fn invalid_comparisons_dont_match() {
    assert_eq!(run(test_node(Test::GreaterThan, par("disease"), lit_s("ABC"))).len(), 0);
    assert_eq!(run(test_node(Test::LessThan, par("disease"), lit_s("ABC"))).len(), 0);
    assert_eq!(run(test_node(Test::GreaterThanOrEqual, par("disease"), lit_s("YF"))).len(), 0);
    assert_eq!(run(test_node(Test::LessThanOrEqual, par("disease"), lit_s("YF"))).len(), 0);
    assert_eq!(run(test_node(Test::GreaterThanOrEqual, par("pull_data"), lit_b(true))).len(), 0);
    assert_eq!(run(test_node(Test::LessThanOrEqual, par("pull_data"), lit_b(false))).len(), 0);
}

#[test]
fn query_does_no_type_coersion() {
    assert_eq!(run(test_node(Test::Equal, par("pull_data"), lit_s("TRUE"))).len(), 0);
    assert_eq!(run(test_node(Test::Equal, par("pull_data"), lit_s("true"))).len(), 0);
    assert_eq!(run(test_node(Test::Equal, par("pull_data"), lit_s("T"))).len(), 0);
    assert_eq!(run(test_node(Test::Equal, par("pull_data"), lit_n(1, 0))).len(), 0);
}

#[test]
fn query_with_negation_works() {
    assert_eq!(
        run(QueryNode::Negation(Box::new(latest()))),
        vec!["20170818-164830-33e0ab01", "20170818-164847-7574883b", "20180220-095832-16a4bbed"]
    );
    assert_eq!(
        run(QueryNode::Negation(Box::new(QueryNode::Negation(Box::new(latest()))))),
        vec!["20180818-164043-7cdcde4b"]
    );
}

#[test]
fn double_negation_selects_the_same() {
    let q = || test_node(Test::Equal, par("disease"), lit_s("YF"));
    assert_eq!(
        run(QueryNode::Negation(Box::new(QueryNode::Negation(Box::new(q()))))),
        run(q())
    );
}

#[test]
fn query_with_brackets_works() {
    assert_eq!(run(QueryNode::Brackets(Box::new(latest()))), vec!["20180818-164043-7cdcde4b"]);
    assert_eq!(
        run(QueryNode::Brackets(Box::new(QueryNode::Brackets(Box::new(latest()))))),
        vec!["20180818-164043-7cdcde4b"]
    );
    assert_eq!(
        run(QueryNode::Brackets(Box::new(QueryNode::Negation(Box::new(latest()))))),
        vec!["20170818-164830-33e0ab01", "20170818-164847-7574883b", "20180220-095832-16a4bbed"]
    );
}

#[test]
fn query_with_boolean_operators_works() {
    let params1 = || test_node(Test::Equal, TestValue::Lookup(Lookup::Name), lit_s("modup-201707-params1"));
    let res = run(QueryNode::BooleanOperator(Operator::Or, Box::new(latest()), Box::new(params1())));
    assert_eq!(res, vec!["20180220-095832-16a4bbed", "20180818-164043-7cdcde4b"]);
    let res = run(QueryNode::BooleanOperator(
        Operator::And,
        Box::new(QueryNode::Negation(Box::new(latest()))),
        Box::new(params1()),
    ));
    assert_eq!(res, vec!["20180220-095832-16a4bbed"]);
}

#[test]
fn and_is_within_and_or_covers_both_sides() {
    let l = || test_node(Test::Equal, par("disease"), lit_s("YF"));
    let r = || test_node(Test::Equal, TestValue::Lookup(Lookup::Name), lit_s("modup-201707-queries1"));
    let and = run(QueryNode::BooleanOperator(Operator::And, Box::new(l()), Box::new(r())));
    let or = run(QueryNode::BooleanOperator(Operator::Or, Box::new(l()), Box::new(r())));
    let (a, b) = (run(l()), run(r()));
    assert!(and.iter().all(|x| a.contains(x) && b.contains(x)));
    assert!(a.iter().chain(b.iter()).all(|x| or.contains(x)));
    assert_eq!(and, vec!["20170818-164830-33e0ab01", "20180818-164043-7cdcde4b"]);
    assert_eq!(or.len(), 4);
}

#[test]
fn query_with_single_works() {
    assert_eq!(run(QueryNode::Single(Box::new(latest()))), vec!["20180818-164043-7cdcde4b"]);
    let index = example_index();
    let q = QueryNode::Single(Box::new(QueryNode::Negation(Box::new(latest()))));
    let e = eval_query(&index, &q).unwrap_err();
    assert!(matches!(e, QueryError::EvalError(..)));
    assert!(e.to_string().contains("Query found 3 packets, but expected exactly one"));
}

#[test]
fn single_of_nothing_is_an_error() {
    let e = run_query(&example_index(), r#"single(name == "nothing")"#).unwrap_err();
    assert!(matches!(e, QueryError::EvalError(..)));
    assert!(e.to_string().contains("expected exactly one"));
    assert!(e.to_string().contains("Query found 0 packets"));
}

#[test]
fn query_result_can_be_formatted() {
    let index = example_index();
    let res = format_query_result(&index, Ok(vec![0, 1, 3])).unwrap();
    assert_eq!(res, "20170818-164830-33e0ab01\n20170818-164847-7574883b\n20180818-164043-7cdcde4b");
    let res = format_query_result(&index, Ok(vec![0])).unwrap();
    assert_eq!(res, "20170818-164830-33e0ab01");
    let res = format_query_result(&index, Ok(vec![])).unwrap();
    assert_eq!(res, "Found no packets")
}

#[test]
fn query_format_propagates_error() {
    let index = example_index();
    let res = format_query_result(&index, Err(QueryError::EvalError(String::from("An error"))));
    match res {
        Ok(_) => panic!("QueryError should be propagated in format"),
        Err(e) => {
            assert!(matches!(e, QueryError::EvalError(..)));
            assert!(e.to_string().contains("An error"));
        }
    };
}

#[test]
fn locates_latest_packet() {
    test_query("latest", "20180818-164043-7cdcde4b");
}

#[test]
fn latest_scenarios() {
    test_query("!latest()", "20170818-164830-33e0ab01\n20170818-164847-7574883b\n20180220-095832-16a4bbed");
    test_query("single(latest())", "20180818-164043-7cdcde4b");
    let e = run_query(&example_index(), "single(!latest())").unwrap_err();
    assert_eq!(e.to_string(), "Failed to evaluate query\nQuery found 3 packets, but expected exactly one");
}

#[test]
fn returns_parse_error_if_syntax_invalid() {
    let e = run_query(&example_index(), "invalid").unwrap_err();
    assert!(matches!(e, QueryError::ParseError(..)));
    let text = e.to_string();
    assert!(text.contains("Failed to parse query\n"));
}

#[test]
fn eval_error_can_be_displayed() {
    let err = QueryError::EvalError("my error msg".to_string());
    assert_eq!(err.to_string(), "Failed to evaluate query\nmy error msg");
}

#[test]
fn can_get_packet_by_id() {
    test_query("id == \"20170818-164847-7574883b\"", "20170818-164847-7574883b");
    test_query("id == \"20170818-164830-33e0ab01\"", "20170818-164830-33e0ab01");
    test_query("\"123\"", "Found no packets");
}

#[test]
fn can_get_packet_by_name() {
    test_query(
        "name == \"modup-201707-queries1\"",
        "20170818-164830-33e0ab01\n20170818-164847-7574883b\n20180818-164043-7cdcde4b",
    );
    test_query(
        "name == 'modup-201707-queries1'",
        "20170818-164830-33e0ab01\n20170818-164847-7574883b\n20180818-164043-7cdcde4b",
    );
    test_query("name == \"notathing\"", "Found no packets");
    let e = run_query(&example_index(), "name == invalid").unwrap_err();
    assert!(matches!(e, QueryError::ParseError(..)));
}

#[test]
fn can_get_latest_of_lookup() {
    test_query("latest(name == \"modup-201707-queries1\")", "20180818-164043-7cdcde4b");
}

#[test]
fn can_get_packet_by_parameter() {
    let packets = run_query(&example_index(), "parameter:disease == \"YF\"").unwrap();
    assert_eq!(
        packets,
        "20170818-164830-33e0ab01\n20180220-095832-16a4bbed\n20180818-164043-7cdcde4b"
    );
    test_query("latest(parameter:disease == \"YF\")", "20180818-164043-7cdcde4b");
    test_query("latest(parameter:unknown == \"YF\")", "Found no packets");
}

#[test]
fn can_get_packet_by_boolean_parameter() {
    test_query("parameter:pull_data == TRUE", "20180220-095832-16a4bbed");
    test_query("parameter:pull_data == true", "20180220-095832-16a4bbed");
    test_query("parameter:pull_data == false", "Found no packets");
    test_query("parameter:pull_data == \"true\"", "Found no packets");
    test_query("parameter:pull_data == 1", "Found no packets");
    test_query("parameter:pull_data == 0", "Found no packets");
    let e = run_query(&example_index(), "parameter:pull_data == T").unwrap_err();
    assert!(matches!(e, QueryError::ParseError(..)));
}

#[test]
fn can_get_packet_by_numeric_parameter() {
    test_query("parameter:tolerance == 0.001", "20180220-095832-16a4bbed");
    test_query("parameter:tolerance == 1e-3", "20180220-095832-16a4bbed");
    test_query("parameter:tolerance == 0.1e-2", "20180220-095832-16a4bbed");
    test_query("parameter:tolerance == 0.002", "Found no packets");
    test_query("parameter:size == 10", "20180220-095832-16a4bbed");
    test_query("parameter:size == 10.0", "20180220-095832-16a4bbed");
    test_query("parameter:size == 1e1", "20180220-095832-16a4bbed");
    test_query("parameter:size == 1e+1", "20180220-095832-16a4bbed");
    test_query("parameter:size == \"10\"", "Found no packets");
}

#[test]
fn no_packets_returned_incompatible_types() {
    test_query("id == 12345", "Found no packets");
    test_query("id == true", "Found no packets");
    test_query("name == true", "Found no packets");
}

#[test]
fn can_get_packet_other_comparisons() {
    test_query("parameter:tolerance < 0.002", "20180220-095832-16a4bbed");
    test_query("parameter:tolerance <= 0.002", "20180220-095832-16a4bbed");
    test_query("parameter:tolerance > 0.1e-5", "20180220-095832-16a4bbed");
    test_query("parameter:tolerance >= 0.1e-2", "20180220-095832-16a4bbed");
    test_query("parameter:tolerance < 0.1e-2", "Found no packets");
    test_query("parameter:disease < \"AB\"", "Found no packets");
    test_query("parameter:disease > \"AB\"", "Found no packets");
    test_query("parameter:disease <= \"YF\"", "Found no packets");
}

#[test]
fn string_parameter_less_than_selects_nothing() {
    test_query("parameter:disease < \"ZZ\"", "Found no packets");
}

#[test]
fn literal_partial_eq_ord_works() {
    let a = num(10, 0);
    let b = num(100, -1);
    let c = num(111, -1);
    assert_eq!(a.compare(&b), 0);
    assert_eq!(a.compare(&c), -1);
    assert_eq!(c.compare(&a), 1);
    assert_eq!(num(-5, 30).compare(&num(7, -30)), -1);
    assert_eq!(num(0, 40).compare(&num(0, -40)), 0);
    assert_eq!(num(i64::MAX, 0).compare(&num(1, 19)), -1);
}
