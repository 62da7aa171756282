use galvanic_mock::data::BehaviourMatcher;
use galvanic_mock::data::ExpectRepeat;
use galvanic_mock::data::GivenRepeat;
use galvanic_mock::data::Return;
use galvanic_mock::parser::parse_bind;
use galvanic_mock::parser::parse_expect_interaction;
use galvanic_mock::parser::parse_given;
use galvanic_mock::parser::parse_givens;
use galvanic_mock::parser::parse_new_mock;
use galvanic_mock::tokens::tokenize;

#[test]
fn should_parse_bind() {
    let tokens = tokenize("bind x: i32 = 1 + 2");
    let (field, _) = parse_bind(&tokens, 0).expect("");

    assert_eq!(field.name, "x");
    assert_eq!(field.ty, "i32");
    assert_eq!(field.initializer, "1 + 2");
}

#[test]
fn should_parse_given_return_from_call() {
    let tokens = tokenize("<mock as MyTrait>::foo() then_return_from || { 2 } always");
    let (stmts, _) = parse_given(&tokens, 0).expect("");
    let stmt = &stmts[0];

    assert_eq!(stmt.mock_var, "mock");
    assert_eq!(stmt.method, "foo");
    assert!(matches!(&stmt.matcher, BehaviourMatcher::PerArgument(args) if args.is_empty()));
    assert!(matches!(&stmt.return_stmt, Return::FromCall(e) if e.as_str() == "| | { 2 }"));
    assert!(matches!(&stmt.repeat, GivenRepeat::Always));
}

#[test]
fn should_parse_given_with_universal_function_call_syntax() {
    let tokens = tokenize("<mock as MyTrait>::foo() then_return_from || { 2 } always");
    let (stmts, _) = parse_given(&tokens, 0).expect("Could not parse expected type");
    let stmt = &stmts[0];

    assert_eq!(stmt.mock_var, "mock");
    assert_eq!(stmt.ufc_trait, "MyTrait");
    assert_eq!(stmt.method, "foo");
    assert!(matches!(&stmt.return_stmt, Return::FromCall(e) if e.as_str() == "| | { 2 }"));
    assert!(matches!(&stmt.repeat, GivenRepeat::Always));
}

#[test]
fn should_parse_given_spy_on_object() {
    let tokens = tokenize("<mock as MyTrait>::foo() then_spy_on_object always");
    let (stmts, _) = parse_given(&tokens, 0).expect("");
    let stmt = &stmts[0];

    assert_eq!(stmt.mock_var, "mock");
    assert_eq!(stmt.method, "foo");
    assert!(matches!(&stmt.return_stmt, Return::FromSpy));
    assert!(matches!(&stmt.repeat, GivenRepeat::Always));
}

#[test]
fn should_parse_given_panic() {
    let tokens = tokenize("<mock as MyTrait>::foo() then_panic always");
    let (stmts, _) = parse_given(&tokens, 0).expect("");
    let stmt = &stmts[0];

    assert_eq!(stmt.mock_var, "mock");
    assert_eq!(stmt.method, "foo");
    assert!(matches!(&stmt.return_stmt, Return::Panic));
    assert!(matches!(&stmt.repeat, GivenRepeat::Always));
}

#[test]
fn should_parse_given_times() {
    let tokens = tokenize("<mock as MyTrait>::foo() then_return 1 times 2");
    let (stmts, _) = parse_given(&tokens, 0).expect("");
    let stmt = &stmts[0];

    assert_eq!(stmt.mock_var, "mock");
    assert_eq!(stmt.method, "foo");
    assert!(matches!(&stmt.return_stmt, Return::FromValue(e) if e.as_str() == "1"));
    assert!(matches!(&stmt.repeat, GivenRepeat::Times(e) if e.as_str() == "2"));
}

#[test]
fn should_parse_given_always() {
    let tokens = tokenize("<mock as MyTrait>::foo() then_return 1 always");
    let (stmts, _) = parse_given(&tokens, 0).expect("");
    let stmt = &stmts[0];

    assert_eq!(stmt.mock_var, "mock");
    assert_eq!(stmt.method, "foo");
    assert!(matches!(&stmt.return_stmt, Return::FromValue(e) if e.as_str() == "1"));
    assert!(matches!(&stmt.repeat, GivenRepeat::Always));
}

#[test]
fn should_parse_given_args() {
    let tokens = tokenize("<mock as MyTrait>::foo(2, 4) then_return 1 always");
    let (stmts, _) = parse_given(&tokens, 0).expect("");
    let stmt = &stmts[0];

    assert_eq!(stmt.mock_var, "mock");
    assert_eq!(stmt.method, "foo");
    match &stmt.matcher {
        BehaviourMatcher::PerArgument(args) => {
            assert_eq!(args.len(), 2);
            assert_eq!(args[0], "2");
            assert_eq!(args[1], "4");
        }
        _ => panic!("expected per-argument matchers"),
    }
    assert!(matches!(&stmt.return_stmt, Return::FromValue(e) if e.as_str() == "1"));
    assert!(matches!(&stmt.repeat, GivenRepeat::Always));
}

#[test]
fn should_parse_given_matcher() {
    let tokens = tokenize("<mock as MyTrait>::foo |a,b| true then_return 1 always");
    let (stmts, _) = parse_given(&tokens, 0).expect("");
    let stmt = &stmts[0];

    assert_eq!(stmt.mock_var, "mock");
    assert_eq!(stmt.method, "foo");
    assert!(matches!(&stmt.matcher, BehaviourMatcher::Explicit(e) if e.as_str() == "| a , b | true"));
    assert!(matches!(&stmt.return_stmt, Return::FromValue(e) if e.as_str() == "1"));
    assert!(matches!(&stmt.repeat, GivenRepeat::Always));
}

#[test]
fn should_parse_givens() {
    let tokens = tokenize("given! { <mock as MyTrait>::foo() then_return 1 always; }");
    let (binds, givens, _) = parse_givens(&tokens).expect("");

    assert_eq!(binds.len(), 0);
    assert_eq!(givens.len(), 1);
}

#[test]
fn should_parse_givens_with_block() {
    let tokens = tokenize(
        "given! { <mock as MyTrait>::foo() then_return 1 always; <mock as MyTrait>::{ foo() then_return 1 always; foo() then_return 1 always; }; }",
    );
    let (binds, givens, _) = parse_givens(&tokens).expect("");

    assert_eq!(binds.len(), 0);
    assert_eq!(givens.len(), 3);
}

#[test]
fn should_parse_givens_with_bind() {
    let tokens = tokenize(
        "given! { bind x: i32 = 1; bind x: f32 = 2.0; <mock as MyTrait>::foo() then_return 1 always; }",
    );
    let (binds, givens, _) = parse_givens(&tokens).expect("");
    let tokens2 = tokenize(
        "given ! { < x as TestTrait < i32 , f64 >>::func ( eq ( 2 ) , eq ( 2.2 ) ) then_return 12 always ; }",
    );
    parse_givens(&tokens2).expect("");

    assert_eq!(binds.len(), 2);
    assert_eq!(givens.len(), 1);
}

#[test]
fn parses_generic_trait_reference_with_nested_angles() {
    let tokens = tokenize("< x as TestTrait < i32 , f64 >>::func ( eq ( 2 ) ) then_return 12 always ;");
    let (stmts, _) = parse_given(&tokens, 0).expect("");
    assert_eq!(stmts[0].ufc_trait, "TestTrait < i32 , f64 >");
    assert_eq!(stmts[0].method, "func");
}

#[test]
fn parses_expect_statement_bounds() {
    let tokens = tokenize("<mock as TestTrait>::func(|&a| a < 2) between 2,4;");
    let (stmt, _) = parse_expect_interaction(&tokens, 0).expect("");
    assert_eq!(stmt.method, "func");
    assert!(matches!(&stmt.repeat, ExpectRepeat::Between(lo, hi) if lo.as_str() == "2" && hi.as_str() == "4"));
}

#[test]
fn expect_never_is_times_zero() {
    let tokens = tokenize("<mock as TestTrait>::func(|&a| a < 2) never;");
    let (stmt, _) = parse_expect_interaction(&tokens, 0).expect("");
    assert!(matches!(&stmt.repeat, ExpectRepeat::Times(e) if e.as_str() == "0"));
}

#[test]
fn parses_new_mock_with_explicit_name_and_attributes() {
    let tokens = tokenize("new_mock ! ( TestTrait , MyTrait < i32 > # [ derive ( Debug ) ] for MyMock ) ;");
    let (requested, _) = parse_new_mock(&tokens).expect("");
    assert_eq!(requested.traits.len(), 2);
    assert_eq!(requested.traits[0], "TestTrait");
    assert_eq!(requested.traits[1], "MyTrait < i32 >");
    assert_eq!(requested.attributes.len(), 1);
    assert_eq!(requested.attributes[0], "#[derive ( Debug )]");
    assert_eq!(requested.maybe_type_name.as_deref(), Some("MyMock"));
}

#[test]
fn malformed_given_block_is_an_error() {
    let tokens = tokenize("given! { <mock as MyTrait>::foo() then_return 1 }");
    assert!(parse_givens(&tokens).is_err());
}

#[test]
fn malformed_statement_without_then_clause_is_an_error() {
    let tokens = tokenize("given! { <mock as MyTrait>::foo() always; }");
    assert!(parse_givens(&tokens).is_err());
}
