use galvanic_mock::behaviour::GivenBehaviour;
use galvanic_mock::mock::CallOutcome;
use galvanic_mock::mock::MockState;

const TRAIT: &str = "TestTrait";
const METHOD: &str = "func";

enum Policy {
    FromCall(Box<dyn Fn(i32) -> i32>),
    Panics,
}

struct TestMock {
    state: MockState,
    matchers: Vec<(usize, Box<dyn Fn(i32) -> bool>)>,
    returns: Vec<(usize, Policy)>,
    next_id: usize,
}

impl TestMock {
    fn new() -> TestMock {
        TestMock { state: MockState::new(), matchers: Vec::new(), returns: Vec::new(), next_id: 0 }
    }

    fn given_always(&mut self, m: Box<dyn Fn(i32) -> bool>, policy: Policy, repr: &str) {
        self.next_id += 1;
        let id = self.next_id;
        self.state.add_given_behaviour(TRAIT, METHOD, GivenBehaviour::with(id, repr));
        self.matchers.push((id, m));
        self.returns.push((id, policy));
    }

    fn lookup(&self, id: usize, x: i32) -> bool {
        self.matchers.iter().find(|p| p.0 == id).map(|p| (p.1)(x)).unwrap_or(false)
    }

    fn func(&mut self, x: i32) -> i32 {
        let em: Vec<bool> = self.state.expect_stmt_ids(TRAIT, METHOD).iter().map(|id| self.lookup(*id, x)).collect();
        let gm: Vec<bool> = self.state.given_stmt_ids(TRAIT, METHOD).iter().map(|id| self.lookup(*id, x)).collect();
        match self.state.handle_call(TRAIT, METHOD, &em, &gm) {
            CallOutcome::Matched { stmt_id, .. } => {
                match self.returns.iter().find(|p| p.0 == stmt_id).map(|p| &p.1).expect("a registered policy") {
                    Policy::FromCall(f) => f(x),
                    Policy::Panics => panic!("Panic by behaviour. Don't forget the towel."),
                }
            }
            CallOutcome::NoMatch { remaining } => {
                panic!("No matching given! statement found among the remaining ones: {:?}", remaining)
            }
        }
    }
}

#[test]
fn given_different_returns_test_then_return_from() {
    let mut mock = TestMock::new();
    mock.given_always(
        Box::new(|_| true),
        Policy::FromCall(Box::new(|a| a * 2)),
        "func | _ | true then_return_from | & ( a , ) | a * 2 always",
    );

    assert_eq!(mock.func(1), 2);
    assert_eq!(mock.func(2), 4);
}

#[test]
#[should_panic]
fn given_different_returns_test_then_panic() {
    let mut mock = TestMock::new();
    mock.given_always(
        Box::new(|a| a < 2),
        Policy::Panics,
        "func | & ( a , ) | a < 2 then_panic always",
    );

    mock.func(1);
}

#[test]
fn return_givens_test_then_return_from() {
    let mut mock = TestMock::new();
    mock.given_always(
        Box::new(|_| true),
        Policy::FromCall(Box::new(|a| a * 2)),
        "func | _ | true then_return_from | & ( a , ) | a * 2 always",
    );

    assert_eq!(mock.func(1), 2);
    assert_eq!(mock.func(2), 4);
}

#[test]
#[should_panic]
fn return_givens_test_then_panic() {
    let mut mock = TestMock::new();
    mock.given_always(
        Box::new(|a| a < 2),
        Policy::Panics,
        "func | & ( a , ) | a < 2 then_panic always",
    );

    mock.func(1);
}
