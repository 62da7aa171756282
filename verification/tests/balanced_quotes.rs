use galvanic_mock::scan::MacroInvocationPos;
use galvanic_mock::scan::find_next_mock_macro_invocation;
use galvanic_mock::scan::find_sub;
use galvanic_mock::scan::has_balanced_quotes;

#[test]
fn should_have_balanced_quotes_if_none_exist() {
    let x = "df df df";
    assert!(has_balanced_quotes(x));
}

#[test]
fn should_have_balanced_quotes_if_single_pair() {
    let x = "df \"df\" df";
    assert!(has_balanced_quotes(x));
}

#[test]
fn should_have_balanced_quotes_if_single_pair_with_escapes() {
    let x = "df \"d\\\"f\" df";
    assert!(has_balanced_quotes(x));
}

#[test]
fn should_have_balanced_quotes_if_multiple_pairs() {
    let x = "df \"df\" \"df\" df";
    assert!(has_balanced_quotes(x));
}

#[test]
fn should_not_have_balanced_quotes_if_single() {
    let x = "df \"df df";
    assert!(!has_balanced_quotes(x));
}

#[test]
fn should_not_have_balanced_quotes_if_escaped_pair() {
    let x = "df \"d\\\" df";
    assert!(!has_balanced_quotes(x));
}

#[test]
fn find_sub_first_occurrence() {
    assert_eq!(find_sub("abcabc", "ca"), Some(2));
    assert_eq!(find_sub("abcabc", "zz"), None);
    assert_eq!(find_sub("abc", ""), Some(0));
}

#[test]
fn finds_earliest_macro_invocation() {
    let src = "x given ! { } y new_mock ! ( T ) ;";
    match find_next_mock_macro_invocation(src) {
        Some(MacroInvocationPos::Given(p)) => assert_eq!(p, 2),
        _ => panic!("expected the given invocation"),
    }
}

#[test]
fn macro_name_inside_string_is_hidden() {
    let src = "let s = \"given ! inside\";";
    assert!(find_next_mock_macro_invocation(src).is_none());
}

#[test]
fn no_invocation_in_plain_text() {
    assert!(find_next_mock_macro_invocation("fn f ( ) { }").is_none());
}
