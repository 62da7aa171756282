use galvanic_mock::behaviour::ExpectBehaviour;
use galvanic_mock::behaviour::all_arguments_match;
use galvanic_mock::behaviour::GivenBehaviour;
use galvanic_mock::data::BehaviourMatcher;
use galvanic_mock::data::GivenRepeat;
use galvanic_mock::data::GivenStatement;
use galvanic_mock::data::MethodArg;
use galvanic_mock::data::MethodSig;
use galvanic_mock::data::MockableTraits;
use galvanic_mock::data::Return;
use galvanic_mock::data::TraitInfo;
use galvanic_mock::data::TraitItem;
use galvanic_mock::generate::create_instantiated_traits;
use galvanic_mock::generate::gen_new_mock_type_name;
use galvanic_mock::generate::strip_generics;
use galvanic_mock::generate::type_name_of;
use galvanic_mock::generate::typed_arguments_for_method_sig;
use galvanic_mock::mock::CallOutcome;
use galvanic_mock::mock::MockState;
use galvanic_mock::session::MockSession;
use galvanic_mock::type_param_mapper::TypeParamMapper;
use galvanic_mock::unifier::MockedTraitUnifier;
use galvanic_mock::usize_to_string;

#[test]
fn unique_ids_are_stable_and_start_at_one() {
    let mut unifier = MockedTraitUnifier::new();
    unifier.register_trait("TraitA");
    unifier.register_trait("TraitB < i32 >");
    unifier.register_trait("TraitA");

    assert_eq!(unifier.get_unique_id_for("TraitA"), Some(1));
    assert_eq!(unifier.get_unique_id_for("TraitB < i32 >"), Some(2));
    assert_eq!(unifier.get_unique_id_for("TraitB < f32 >"), None);

    unifier.register_trait("TraitB < f32 >");
    assert_eq!(unifier.get_unique_id_for("TraitB < f32 >"), Some(3));
    assert_eq!(unifier.get_unique_id_for("TraitA"), Some(1));

    let all = unifier.get_all_traits();
    assert_eq!(all, vec!["TraitA", "TraitB < i32 >", "TraitB < f32 >"]);
}

#[test]
fn earliest_registered_matching_behaviour_wins() {
    let mut state = MockState::new();
    state.add_given_behaviour("T", "m", GivenBehaviour::with(10, "first"));
    state.add_given_behaviour("T", "m", GivenBehaviour::with(20, "second"));

    let em: Vec<bool> = Vec::new();
    let gm = vec![true, true];
    match state.handle_call("T", "m", &em, &gm) {
        CallOutcome::Matched { index, stmt_id } => {
            assert_eq!(index, 0);
            assert_eq!(stmt_id, 10);
        }
        CallOutcome::NoMatch { .. } => panic!("both behaviours match"),
    }
}

#[test]
fn saturated_behaviour_is_removed_and_matches_at_most_its_limit() {
    let mut state = MockState::new();
    state.add_given_behaviour("T", "m", GivenBehaviour::with_times(2, 1, "limited"));
    state.add_given_behaviour("T", "m", GivenBehaviour::with(2, "unconditional"));

    let em: Vec<bool> = Vec::new();
    let mut winners = Vec::new();
    for _ in 0..4 {
        let gm: Vec<bool> = state.given_stmt_ids("T", "m").iter().map(|_| true).collect();
        match state.handle_call("T", "m", &em, &gm) {
            CallOutcome::Matched { stmt_id, .. } => winners.push(stmt_id),
            CallOutcome::NoMatch { .. } => panic!("the unconditional behaviour never saturates"),
        }
    }
    assert_eq!(winners, vec![1, 1, 2, 2]);
    assert_eq!(state.given_stmt_ids("T", "m"), vec![2]);
}

#[test]
fn expect_counters_count_even_without_a_matching_given() {
    let mut state = MockState::new();
    state.add_expect_behaviour("T", "m", ExpectBehaviour::with_times(1, 7, "expectation"));

    let em = vec![true];
    let gm: Vec<bool> = Vec::new();
    match state.handle_call("T", "m", &em, &gm) {
        CallOutcome::NoMatch { remaining } => assert_eq!(remaining.len(), 0),
        CallOutcome::Matched { .. } => panic!("there is no given behaviour"),
    }

    assert!(state.verify().is_ok(), "the call counted against the expectation");
}

#[test]
fn expect_bounds_are_inclusive() {
    let mut b = ExpectBehaviour::with_between(2, 4, 1, "between");
    assert!(!b.is_saturated());
    b.matched();
    assert!(!b.is_saturated());
    b.matched();
    assert!(b.is_saturated());
    b.matched();
    assert!(b.is_saturated());
    b.matched();
    assert!(b.is_saturated());
    b.matched();
    assert!(!b.is_saturated());

    let mut lo = ExpectBehaviour::with_at_least(2, 2, "at least");
    assert!(!lo.is_saturated());
    lo.matched();
    lo.matched();
    assert!(lo.is_saturated());
    lo.matched();
    assert!(lo.is_saturated());

    let mut hi = ExpectBehaviour::with_at_most(1, 3, "at most");
    assert!(hi.is_saturated());
    hi.matched();
    assert!(hi.is_saturated());
    hi.matched();
    assert!(!hi.is_saturated());

    let mut never = ExpectBehaviour::with_times(0, 4, "never");
    assert!(never.is_saturated());
    never.matched();
    assert!(!never.is_saturated());
}

#[test]
fn statement_rendering_is_stable() {
    let stmt = GivenStatement {
        block_id: 3,
        stmt_id: 4,
        mock_var: "mock".to_string(),
        ufc_trait: "TestTrait".to_string(),
        method: "func".to_string(),
        matcher: BehaviourMatcher::PerArgument(vec!["| & a | a < 2".to_string()]),
        return_stmt: Return::FromValue("12".to_string()),
        repeat: GivenRepeat::Always,
    };
    let first = stmt.describe();
    let second = stmt.describe();
    assert_eq!(first, second);
    assert_eq!(first, "TestTrait::func(| & a | a < 2) then_return 12 always");
}

#[test]
fn scenario_limited_then_unconditional_stub() {
    let mut state = MockState::new();
    state.add_given_behaviour("T", "m", GivenBehaviour::with_times(2, 1, "x < 2 gives 12"));
    state.add_given_behaviour("T", "m", GivenBehaviour::with(2, "x >= 2 gives 24"));

    let em: Vec<bool> = Vec::new();
    let mut results = Vec::new();
    for x in [1, 1, 3, 3] {
        let gm: Vec<bool> = state
            .given_stmt_ids("T", "m")
            .iter()
            .map(|id| if *id == 1 { x < 2 } else { x >= 2 })
            .collect();
        match state.handle_call("T", "m", &em, &gm) {
            CallOutcome::Matched { stmt_id, .. } => results.push(if stmt_id == 1 { 12 } else { 24 }),
            CallOutcome::NoMatch { .. } => panic!("a behaviour matches each call"),
        }
    }
    assert_eq!(results, vec![12, 12, 24, 24]);
}

#[test]
fn scenario_expectation_satisfied_or_failed_by_count() {
    let run = |calls: &[i32]| -> bool {
        let mut state = MockState::new();
        state.add_given_behaviour("T", "m", GivenBehaviour::with(1, "always 12"));
        state.add_expect_behaviour("T", "m", ExpectBehaviour::with_times(2, 2, "x < 2 twice"));
        for x in calls {
            let em = vec![*x < 2];
            let gm = vec![true];
            match state.handle_call("T", "m", &em, &gm) {
                CallOutcome::Matched { .. } => {}
                CallOutcome::NoMatch { .. } => panic!("the unconditional behaviour matches"),
            }
        }
        state.verify().is_ok()
    };
    assert!(run(&[1, 1, 3, 3]));
    assert!(!run(&[1, 3, 3]));
}

#[test]
fn scenario_no_matching_given_statement_is_reported() {
    let mut state = MockState::new();
    state.add_given_behaviour("T", "m", GivenBehaviour::with(1, "only even"));

    let em: Vec<bool> = Vec::new();
    let gm = vec![false];
    match state.handle_call("T", "m", &em, &gm) {
        CallOutcome::NoMatch { remaining } => {
            assert_eq!(remaining, vec!["only even"]);
        }
        CallOutcome::Matched { .. } => panic!("nothing matches"),
    }
}

#[test]
fn verification_lists_every_unsatisfied_expectation() {
    let mut state = MockState::new();
    state.add_expect_behaviour("T", "m", ExpectBehaviour::with_times(1, 1, "first expectation"));
    state.add_expect_behaviour("T", "n", ExpectBehaviour::with_at_least(2, 2, "second expectation"));

    assert!(!state.are_expected_behaviours_satisfied());
    let msgs = state.verify().unwrap_err();
    assert_eq!(msgs, vec!["first expectation", "second expectation"]);

    state.reset_expected_behaviours();
    assert!(state.are_expected_behaviours_satisfied());
    assert!(state.verify().is_ok());
}

#[test]
fn decimal_rendering_of_identifiers() {
    assert_eq!(usize_to_string(0), "0");
    assert_eq!(usize_to_string(7), "7");
    assert_eq!(usize_to_string(12), "12");
    assert_eq!(usize_to_string(105), "105");
    assert_eq!(gen_new_mock_type_name(17), "Mock17");
}

#[test]
fn type_parameter_substitution() {
    let mut mapper = TypeParamMapper::new();
    mapper.add_mapping("A", "i32");
    assert_eq!(mapper.instantiate_from_ty("MyFoo < A >"), "MyFoo < i32 >");
    assert_eq!(mapper.instantiate_from_ty("MyFoo < Vec < A > >"), "MyFoo < Vec < i32 > >");
    assert_eq!(mapper.instantiate_from_ty("& A"), "& i32");
    assert_eq!(mapper.instantiate_from_ty("B"), "B");
}

#[test]
fn base_path_and_type_name() {
    assert_eq!(strip_generics("MyTrait < i32 , f32 >"), "MyTrait");
    assert_eq!(strip_generics(":: a :: b :: MyTrait"), ":: a :: b :: MyTrait");
    assert_eq!(type_name_of("MyTrait < i32 >").as_deref(), Some("MyTrait"));
    assert_eq!(type_name_of(":: a :: b :: MyTrait").as_deref(), Some("MyTrait"));
}

#[test]
fn typed_arguments_are_numbered_and_instantiated() {
    let mut mapper = TypeParamMapper::new();
    mapper.add_mapping("T", "i32");
    let sig = MethodSig {
        name: "func".to_string(),
        args: vec![
            MethodArg::SelfRef,
            MethodArg::Typed("T".to_string()),
            MethodArg::Typed("& F".to_string()),
        ],
        ret: Some("i32".to_string()),
    };
    let args = typed_arguments_for_method_sig(&sig, &mapper);
    assert_eq!(args, vec!["& self", "arg1 : i32", "arg2 : & F"]);
}

#[test]
fn unknown_trait_usage_is_rejected_with_known_traits_listed() {
    let mut mockable = MockableTraits::new();
    mockable.insert(
        "Known",
        TraitInfo::new(false, Vec::new(), Vec::new(), Vec::new()),
    );
    let err = match create_instantiated_traits("Unknown < i32 >", &mockable) {
        Err(e) => e,
        Ok(_) => panic!("an unregistered trait must be rejected"),
    };
    assert!(err.contains("`Unknown < i32 >` not found in"));
    assert!(err.contains("Known"));
}

fn trait_with_func() -> TraitInfo {
    TraitInfo::new(
        false,
        Vec::new(),
        Vec::new(),
        vec![TraitItem::Method(MethodSig {
            name: "func".to_string(),
            args: vec![MethodArg::SelfRef, MethodArg::Typed("i32".to_string())],
            ret: Some("i32".to_string()),
        })],
    )
}

#[test]
fn given_statement_for_unrequested_trait_is_rejected() {
    let mut session = MockSession::new();
    session.mockable(None, "TestTrait", trait_with_func());
    let err = session
        .handle_given("given ! { < mock as TestTrait > :: func | _ | true then_return 12 always ; } rest", 5)
        .unwrap_err();
    assert!(err.contains("has not been requested for any mock"));
}

#[test]
fn spy_returns_are_an_explicit_unimplemented_error() {
    let mut session = MockSession::new();
    session.mockable(None, "TestTrait", trait_with_func());
    session
        .handle_new_mock("new_mock ! ( TestTrait ) ; rest", 1)
        .expect("the request parses");
    let err = session
        .handle_given("given ! { < mock as TestTrait > :: func | _ | true then_spy_on_object always ; } rest", 5)
        .unwrap_err();
    assert!(err.contains("not implemented yet"));
}

#[test]
fn handle_given_emits_registration_code_and_remainder() {
    let mut session = MockSession::new();
    session.mockable(None, "TestTrait", trait_with_func());
    session
        .handle_new_mock("new_mock ! ( TestTrait ) ; rest", 1)
        .expect("the request parses");

    let (generated, remainder) = session
        .handle_given("given ! { < mock as TestTrait > :: func | _ | true then_return 12 times 2 ; } rest", 5)
        .expect("the block parses");
    assert!(generated.contains("let binding = std::rc::Rc::new(mock::Binding5 {  });"));
    assert!(generated.contains("mock.set_binding(5, binding.clone());"));
    assert!(generated.contains("mock.add_given_behaviour_for_trait1_func(GivenBehaviour::with_times(2, 5, "));
    assert_eq!(remainder, " rest");

    let stmt = &session.given_statements[0];
    assert_eq!(stmt.block_id, 5);
    assert_eq!(stmt.stmt_id, 5);
    assert_eq!(stmt.ufc_trait, "TestTrait");
}

#[test]
fn handle_expect_interactions_records_statements() {
    let mut session = MockSession::new();
    session.mockable(None, "TestTrait", trait_with_func());
    session
        .handle_new_mock("new_mock ! ( TestTrait ) ; rest", 1)
        .expect("the request parses");

    let (generated, remainder) = session
        .handle_expect_interactions(
            "expect_interactions ! { < mock as TestTrait > :: func ( | & a | a < 2 ) between 2 , 4 ; } tail",
            9,
        )
        .expect("the block parses");
    assert!(generated.contains("mock.set_binding(9, binding.clone());"));
    assert!(generated.contains("mock.add_expect_behaviour(\"TestTrait\", \"func\", ExpectBehaviour::with_between(2, 4, 9, "));
    assert_eq!(remainder, " tail");
    assert_eq!(session.expect_statements.len(), 1);
    assert_eq!(session.expect_statements[0].stmt_id, 9);
}

#[test]
fn per_argument_matchers_are_conjoined() {
    assert!(all_arguments_match(&vec![true, true]));
    assert!(!all_arguments_match(&vec![true, false]));
    assert!(!all_arguments_match(&vec![false, true]));
    let empty: Vec<bool> = Vec::new();
    assert!(all_arguments_match(&empty));
}
