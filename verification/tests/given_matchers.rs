use galvanic_mock::behaviour::GivenBehaviour;
use galvanic_mock::behaviour::all_arguments_match;
use galvanic_mock::mock::CallOutcome;
use galvanic_mock::mock::MockState;

const TRAIT: &str = "TestTrait";
const METHOD: &str = "func";

struct TwoArgMock {
    state: MockState,
    matchers: Vec<(usize, Box<dyn Fn(i32, f64) -> bool>)>,
    returns: Vec<(usize, i32)>,
    next_id: usize,
}

impl TwoArgMock {
    fn new() -> TwoArgMock {
        TwoArgMock { state: MockState::new(), matchers: Vec::new(), returns: Vec::new(), next_id: 0 }
    }

    fn given_always(&mut self, m: Box<dyn Fn(i32, f64) -> bool>, value: i32, repr: &str) {
        self.next_id += 1;
        let id = self.next_id;
        self.state.add_given_behaviour(TRAIT, METHOD, GivenBehaviour::with(id, repr));
        self.matchers.push((id, m));
        self.returns.push((id, value));
    }

    fn lookup(&self, id: usize, x: i32, y: f64) -> bool {
        self.matchers.iter().find(|p| p.0 == id).map(|p| (p.1)(x, y)).unwrap_or(false)
    }

    fn func(&mut self, x: i32, y: f64) -> i32 {
        let em: Vec<bool> = self.state.expect_stmt_ids(TRAIT, METHOD).iter().map(|id| self.lookup(*id, x, y)).collect();
        let gm: Vec<bool> = self.state.given_stmt_ids(TRAIT, METHOD).iter().map(|id| self.lookup(*id, x, y)).collect();
        match self.state.handle_call(TRAIT, METHOD, &em, &gm) {
            CallOutcome::Matched { stmt_id, .. } => {
                self.returns.iter().find(|p| p.0 == stmt_id).map(|p| p.1).expect("a registered return value")
            }
            CallOutcome::NoMatch { remaining } => {
                panic!("No matching given! statement found among the remaining ones: {:?}", remaining)
            }
        }
    }
}

struct OneArgMock {
    state: MockState,
    matchers: Vec<(usize, Box<dyn Fn(i32) -> bool>)>,
    returns: Vec<(usize, i32)>,
    next_id: usize,
}

impl OneArgMock {
    fn new() -> OneArgMock {
        OneArgMock { state: MockState::new(), matchers: Vec::new(), returns: Vec::new(), next_id: 0 }
    }

    fn given_always(&mut self, m: Box<dyn Fn(i32) -> bool>, value: i32, repr: &str) {
        self.next_id += 1;
        let id = self.next_id;
        self.state.add_given_behaviour(TRAIT, METHOD, GivenBehaviour::with(id, repr));
        self.matchers.push((id, m));
        self.returns.push((id, value));
    }

    fn lookup(&self, id: usize, x: i32) -> bool {
        self.matchers.iter().find(|p| p.0 == id).map(|p| (p.1)(x)).unwrap_or(false)
    }

    fn func(&mut self, x: i32) -> i32 {
        let em: Vec<bool> = self.state.expect_stmt_ids(TRAIT, METHOD).iter().map(|id| self.lookup(*id, x)).collect();
        let gm: Vec<bool> = self.state.given_stmt_ids(TRAIT, METHOD).iter().map(|id| self.lookup(*id, x)).collect();
        match self.state.handle_call(TRAIT, METHOD, &em, &gm) {
            CallOutcome::Matched { stmt_id, .. } => {
                self.returns.iter().find(|p| p.0 == stmt_id).map(|p| p.1).expect("a registered return value")
            }
            CallOutcome::NoMatch { remaining } => {
                panic!("No matching given! statement found among the remaining ones: {:?}", remaining)
            }
        }
    }
}

#[test]
fn given_method_with_multiple_args_test_per_argument_matcher() {
    let mut mock = TwoArgMock::new();
    mock.given_always(
        Box::new(|a, b| all_arguments_match(&vec![a < 2, b > 3.3])),
        12,
        "func ( | & a | a < 2 , | & b | b > 3.3 ) then_return 12 always",
    );
    mock.given_always(
        Box::new(|a, b| all_arguments_match(&vec![a >= 2, b > 3.3])),
        24,
        "func ( | & a | a >= 2 , | & b | b > 3.3 ) then_return 24 always",
    );

    assert_eq!(mock.func(1, 4.4), 12);
    assert_eq!(mock.func(1, 4.4), 12);
    assert_eq!(mock.func(3, 4.4), 24);
    assert_eq!(mock.func(3, 4.4), 24);
}

#[test]
fn given_method_with_multiple_args_test_explicit_matcher() {
    let mut mock = TwoArgMock::new();
    mock.given_always(Box::new(|a, _| a < 2), 12, "func | & ( a , b ) | a < 2 then_return 12 always");
    mock.given_always(Box::new(|a, _| a >= 2), 24, "func | & ( a , b ) | a >= 2 then_return 24 always");

    assert_eq!(mock.func(1, 4.4), 12);
    assert_eq!(mock.func(1, 4.4), 12);
    assert_eq!(mock.func(3, 4.4), 24);
    assert_eq!(mock.func(3, 4.4), 24);
}

#[test]
fn method_single_arg_given_test_per_argument_matcher() {
    let mut mock = OneArgMock::new();
    mock.given_always(Box::new(|a| all_arguments_match(&vec![a < 2])), 12, "func ( | & a | a < 2 ) then_return 12 always");
    mock.given_always(Box::new(|a| all_arguments_match(&vec![a >= 2])), 24, "func ( | & a | a >= 2 ) then_return 24 always");

    assert_eq!(mock.func(1), 12);
    assert_eq!(mock.func(1), 12);
    assert_eq!(mock.func(3), 24);
    assert_eq!(mock.func(3), 24);
}

#[test]
fn method_single_arg_given_test_explicit_matcher() {
    let mut mock = OneArgMock::new();
    mock.given_always(Box::new(|a| a < 2), 12, "func | & ( a , ) | a < 2 then_return 12 always");
    mock.given_always(Box::new(|a| a >= 2), 24, "func | & ( a , ) | a >= 2 then_return 24 always");

    assert_eq!(mock.func(1), 12);
    assert_eq!(mock.func(1), 12);
    assert_eq!(mock.func(3), 24);
    assert_eq!(mock.func(3), 24);
}

#[test]
fn given_void_method_without_args_test() {
    let mut state = MockState::new();
    state.add_given_behaviour(TRAIT, METHOD, GivenBehaviour::with(1, "func | | true then_return ( ) always"));

    let em: Vec<bool> = Vec::new();
    let gm = vec![true];
    match state.handle_call(TRAIT, METHOD, &em, &gm) {
        CallOutcome::Matched { stmt_id, .. } => assert_eq!(stmt_id, 1),
        CallOutcome::NoMatch { .. } => panic!("the unconditional behaviour must match"),
    }
}

#[test]
#[should_panic]
fn given_block_missing_for_method_test_per_argument_matcher() {
    let mut mock = OneArgMock::new();
    mock.func(1);
}
