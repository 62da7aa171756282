use galvanic_mock::data::MethodArg;
use galvanic_mock::data::MethodSig;
use galvanic_mock::data::MockableTraits;
use galvanic_mock::data::RequestedMock;
use galvanic_mock::data::TraitInfo;
use galvanic_mock::data::TraitItem;
use galvanic_mock::generate::determine_requested_trait_idx_by_method;
use galvanic_mock::generate::determine_requested_trait_idx_by_ufc;

fn method(name: &str) -> TraitItem {
    TraitItem::Method(MethodSig { name: name.to_string(), args: vec![MethodArg::SelfRef], ret: None })
}

fn generic_trait_with_foo() -> TraitInfo {
    TraitInfo::new(false, vec!["T".to_string()], Vec::new(), vec![method("foo")])
}

fn requested(traits: &[&str]) -> RequestedMock {
    RequestedMock {
        traits: traits.iter().map(|t| t.to_string()).collect(),
        attributes: Vec::new(),
        maybe_type_name: Some("MyMock".to_string()),
    }
}

#[test]
fn should_get_trait_idx_by_ufc() {
    let mut mockable = MockableTraits::new();
    mockable.insert("MyTrait", generic_trait_with_foo());
    let req = requested(&["MyTrait < i32 >", "MyTrait < f32 >"]);

    let maybe_idx1 = determine_requested_trait_idx_by_ufc(&req, &mockable, "MyTrait < i32 >", "foo");
    let maybe_idx2 = determine_requested_trait_idx_by_ufc(&req, &mockable, "MyTrait < f32 >", "foo");

    assert_eq!(maybe_idx1, Ok(0));
    assert_eq!(maybe_idx2, Ok(1));
}

#[test]
fn should_fail_get_trait_idx_by_ufc_unmockable_trait() {
    let mockable = MockableTraits::new();
    let req = requested(&["MyTrait < i32 >"]);

    let maybe_idx = determine_requested_trait_idx_by_ufc(&req, &mockable, "MyTrait < i32 >", "foo");

    assert!(maybe_idx.is_err(), "trait should not be found");
}

#[test]
fn should_fail_get_trait_idx_by_wrong_ufc() {
    let mut mockable = MockableTraits::new();
    mockable.insert("MyTrait", generic_trait_with_foo());
    let req = requested(&[]);

    let maybe_idx = determine_requested_trait_idx_by_ufc(&req, &mockable, "MyTrait < i32 >", "foo");

    assert!(maybe_idx.is_err(), "trait should not be found");
}

#[test]
fn should_fail_get_trait_idx_by_ufc_wrong_method() {
    let mut mockable = MockableTraits::new();
    mockable.insert("MyTrait", generic_trait_with_foo());
    let req = requested(&["MyTrait < i32 >"]);

    let maybe_idx = determine_requested_trait_idx_by_ufc(&req, &mockable, "MyTrait < i32 >", "bar");

    assert!(maybe_idx.is_err(), "trait should not be found");
}

#[test]
fn should_get_trait_idx_by_method() {
    let mut mockable = MockableTraits::new();
    mockable.insert("MyTrait1", TraitInfo::new(false, Vec::new(), Vec::new(), vec![method("foo")]));
    mockable.insert("MyTrait2", TraitInfo::new(false, Vec::new(), Vec::new(), vec![method("bar")]));
    let req = requested(&["MyTrait1", "MyTrait2"]);

    let maybe_idx1 = determine_requested_trait_idx_by_method(&req, &mockable, "foo");
    let maybe_idx2 = determine_requested_trait_idx_by_method(&req, &mockable, "bar");

    assert_eq!(maybe_idx1, Ok(0));
    assert_eq!(maybe_idx2, Ok(1));
}

#[test]
fn should_get_trait_idx_by_method_ambiguous_method() {
    let mut mockable = MockableTraits::new();
    mockable.insert("MyTrait1", TraitInfo::new(false, Vec::new(), Vec::new(), vec![method("foo")]));
    mockable.insert("MyTrait2", TraitInfo::new(false, Vec::new(), Vec::new(), vec![method("foo")]));
    let req = requested(&["MyTrait1", "MyTrait2"]);

    let maybe_idx = determine_requested_trait_idx_by_method(&req, &mockable, "foo");

    assert!(maybe_idx.is_err(), "ambiguous method name should not map to an index");
}

#[test]
fn method_resolution_reports_missing_method() {
    let mut mockable = MockableTraits::new();
    mockable.insert("MyTrait1", TraitInfo::new(false, Vec::new(), Vec::new(), vec![method("foo")]));
    let req = requested(&["MyTrait1"]);

    let err = determine_requested_trait_idx_by_method(&req, &mockable, "baz").unwrap_err();
    assert!(err.contains("No requested trait with a method named `baz`"));
}
