use galvanic_mock::behaviour::GivenBehaviour;
use galvanic_mock::mock::CallOutcome;
use galvanic_mock::mock::MockState;

const TRAIT: &str = "TestTrait";
const METHOD: &str = "func";

struct TestMock {
    state: MockState,
    matchers: Vec<(usize, Box<dyn Fn(i32) -> bool>)>,
    returns: Vec<(usize, i32)>,
    next_id: usize,
}

impl TestMock {
    fn new() -> TestMock {
        TestMock { state: MockState::new(), matchers: Vec::new(), returns: Vec::new(), next_id: 0 }
    }

    fn next(&mut self) -> usize {
        self.next_id += 1;
        self.next_id
    }

    fn given_always(&mut self, m: Box<dyn Fn(i32) -> bool>, value: i32, repr: &str) {
        let id = self.next();
        self.state.add_given_behaviour(TRAIT, METHOD, GivenBehaviour::with(id, repr));
        self.matchers.push((id, m));
        self.returns.push((id, value));
    }

    fn given_times(&mut self, times: usize, m: Box<dyn Fn(i32) -> bool>, value: i32, repr: &str) {
        let id = self.next();
        self.state.add_given_behaviour(TRAIT, METHOD, GivenBehaviour::with_times(times, id, repr));
        self.matchers.push((id, m));
        self.returns.push((id, value));
    }

    fn reset_given_behaviours(&mut self) {
        self.state.reset_given_behaviours();
    }

    fn lookup(&self, id: usize, x: i32) -> bool {
        self.matchers.iter().find(|p| p.0 == id).map(|p| (p.1)(x)).unwrap_or(false)
    }

    fn func(&mut self, x: i32) -> i32 {
        let em: Vec<bool> = self.state.expect_stmt_ids(TRAIT, METHOD).iter().map(|id| self.lookup(*id, x)).collect();
        let gm: Vec<bool> = self.state.given_stmt_ids(TRAIT, METHOD).iter().map(|id| self.lookup(*id, x)).collect();
        match self.state.handle_call(TRAIT, METHOD, &em, &gm) {
            CallOutcome::Matched { stmt_id, .. } => {
                self.returns.iter().find(|p| p.0 == stmt_id).map(|p| p.1).expect("a registered return value")
            }
            CallOutcome::NoMatch { remaining } => {
                panic!("No matching given! statement found among the remaining ones: {:?}", remaining)
            }
        }
    }
}

#[test]
fn test_times_within_bound() {
    let mut mock = TestMock::new();
    mock.given_times(2, Box::new(|_| true), 12, "func | _ | true then_return 12 times 2");

    assert_eq!(mock.func(1), 12);
    assert_eq!(mock.func(2), 12);
}

#[test]
#[should_panic]
fn test_times_out_of_bound() {
    let mut mock = TestMock::new();
    mock.given_times(2, Box::new(|_| true), 12, "func | _ | true then_return 12 times 2");

    assert_eq!(mock.func(1), 12);
    assert_eq!(mock.func(2), 12);
    assert_eq!(mock.func(3), 12);
}

#[test]
fn test_times_in_sequence() {
    let mut mock = TestMock::new();
    mock.given_times(1, Box::new(|_| true), 12, "func | _ | true then_return 12 times 1");
    mock.given_times(1, Box::new(|_| true), 24, "func | _ | true then_return 24 times 1");

    assert_eq!(mock.func(1), 12);
    assert_eq!(mock.func(2), 24);
}

#[test]
fn test_multiple_given_blocks_with_reset_of_given_behaviours() {
    let mut mock = TestMock::new();
    mock.given_always(Box::new(|_| true), 12, "func | _ | true then_return 12 always");
    assert_eq!(mock.func(1), 12);

    mock.reset_given_behaviours();

    mock.given_always(Box::new(|_| true), 24, "func | _ | true then_return 24 always");
    assert_eq!(mock.func(2), 24);
}
