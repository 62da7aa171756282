use galvanic_mock::behaviour::ExpectBehaviour;
use galvanic_mock::behaviour::GivenBehaviour;
use galvanic_mock::mock::CallOutcome;
use galvanic_mock::mock::MockState;

const TRAIT: &str = "TestTrait";
const METHOD: &str = "func";
const OTHER_TRAIT: &str = ":: multiple_traits :: OtherTrait";
const OTHER_METHOD: &str = "other_func";

struct TestMock {
    state: MockState,
    matchers: Vec<(usize, Box<dyn Fn(i32) -> bool>)>,
    returns: Vec<(usize, i32)>,
    next_id: usize,
}

impl TestMock {
    fn new() -> TestMock {
        TestMock { state: MockState::new(), matchers: Vec::new(), returns: Vec::new(), next_id: 0 }
    }

    fn next(&mut self) -> usize {
        self.next_id += 1;
        self.next_id
    }

    fn given_always(&mut self, trait_name: &str, method: &str, m: Box<dyn Fn(i32) -> bool>, value: i32, repr: &str) {
        let id = self.next();
        self.state.add_given_behaviour(trait_name, method, GivenBehaviour::with(id, repr));
        self.matchers.push((id, m));
        self.returns.push((id, value));
    }

    fn expect_times(&mut self, trait_name: &str, method: &str, times: usize, m: Box<dyn Fn(i32) -> bool>) {
        let id = self.next();
        self.state.add_expect_behaviour(trait_name, method, ExpectBehaviour::with_times(times, id, "expectation"));
        self.matchers.push((id, m));
    }

    fn expect_at_least(&mut self, times: usize, m: Box<dyn Fn(i32) -> bool>) {
        let id = self.next();
        self.state.add_expect_behaviour(TRAIT, METHOD, ExpectBehaviour::with_at_least(times, id, "expectation"));
        self.matchers.push((id, m));
    }

    fn expect_at_most(&mut self, times: usize, m: Box<dyn Fn(i32) -> bool>) {
        let id = self.next();
        self.state.add_expect_behaviour(TRAIT, METHOD, ExpectBehaviour::with_at_most(times, id, "expectation"));
        self.matchers.push((id, m));
    }

    fn expect_between(&mut self, lo: usize, hi: usize, m: Box<dyn Fn(i32) -> bool>) {
        let id = self.next();
        self.state.add_expect_behaviour(TRAIT, METHOD, ExpectBehaviour::with_between(lo, hi, id, "expectation"));
        self.matchers.push((id, m));
    }

    fn lookup(&self, id: usize, x: i32) -> bool {
        self.matchers.iter().find(|p| p.0 == id).map(|p| (p.1)(x)).unwrap_or(false)
    }

    fn call(&mut self, trait_name: &str, method: &str, x: i32) -> i32 {
        let em: Vec<bool> = self.state.expect_stmt_ids(trait_name, method).iter().map(|id| self.lookup(*id, x)).collect();
        let gm: Vec<bool> = self.state.given_stmt_ids(trait_name, method).iter().map(|id| self.lookup(*id, x)).collect();
        match self.state.handle_call(trait_name, method, &em, &gm) {
            CallOutcome::Matched { stmt_id, .. } => {
                self.returns.iter().find(|p| p.0 == stmt_id).map(|p| p.1).expect("a registered return value")
            }
            CallOutcome::NoMatch { remaining } => {
                panic!("No matching given! statement found among the remaining ones: {:?}", remaining)
            }
        }
    }

    fn func(&mut self, x: i32) -> i32 {
        self.call(TRAIT, METHOD, x)
    }

    fn verify(&self) {
        if self.state.verify().is_err() {
            panic!("There are unsatisfied expected behaviours for mocked traits.");
        }
    }
}

fn mock_returning_12() -> TestMock {
    let mut mock = TestMock::new();
    mock.given_always(TRAIT, METHOD, Box::new(|_| true), 12, "func | _ | true then_return 12 always");
    mock
}

#[test]
fn expect_different_interactions_matching_expectation() {
    let mut mock = mock_returning_12();
    mock.expect_times(TRAIT, METHOD, 2, Box::new(|a| a < 2));

    mock.func(1);
    mock.func(1);
    mock.func(3);
    mock.func(3);

    mock.verify();
}

#[test]
#[should_panic]
fn expect_different_interactions_violating_expectation_too_few() {
    let mut mock = mock_returning_12();
    mock.expect_times(TRAIT, METHOD, 2, Box::new(|a| a < 2));

    mock.func(1);
    mock.func(3);
    mock.func(3);

    mock.verify();
}

#[test]
#[should_panic]
fn expect_different_interactions_violating_expectation_too_many() {
    let mut mock = mock_returning_12();
    mock.expect_times(TRAIT, METHOD, 2, Box::new(|a| a < 2));

    mock.func(1);
    mock.func(1);
    mock.func(1);
    mock.func(3);
    mock.func(3);

    mock.verify();
}

#[test]
fn matching_expectation_exact() {
    let mut mock = mock_returning_12();
    mock.expect_at_most(2, Box::new(|a| a < 2));

    mock.func(1);
    mock.func(1);
    mock.func(3);
    mock.func(3);

    mock.verify();
}

#[test]
fn matching_expectation_fewer() {
    let mut mock = mock_returning_12();
    mock.expect_at_most(2, Box::new(|a| a < 2));

    mock.func(1);
    mock.func(3);
    mock.func(3);

    mock.verify();
}


#[test]
fn matching_expectation_at_least() {
    let mut mock = mock_returning_12();
    mock.expect_at_least(2, Box::new(|a| a < 2));

    mock.func(1);
    mock.func(1);
    mock.func(3);
    mock.func(3);

    mock.verify();
}


#[test]
fn matching_expectation_more() {
    let mut mock = mock_returning_12();
    mock.expect_at_least(2, Box::new(|a| a < 2));

    mock.func(1);
    mock.func(1);
    mock.func(1);
    mock.func(3);
    mock.func(3);

    mock.verify();
}

#[test]
fn matching_expectation_exact_lower_bound() {
    let mut mock = mock_returning_12();
    mock.expect_between(2, 4, Box::new(|a| a < 2));

    mock.func(1);
    mock.func(1);
    mock.func(3);
    mock.func(3);

    mock.verify();
}

#[test]
fn matching_expectation_between_bounds() {
    let mut mock = mock_returning_12();
    mock.expect_between(2, 4, Box::new(|a| a < 2));

    mock.func(1);
    mock.func(1);
    mock.func(3);
    mock.func(3);
    mock.func(1);

    mock.verify();
}

#[test]
fn matching_expectation_exact_upper_bound() {
    let mut mock = mock_returning_12();
    mock.expect_between(2, 4, Box::new(|a| a < 2));

    mock.func(1);
    mock.func(1);
    mock.func(3);
    mock.func(3);
    mock.func(1);
    mock.func(1);

    mock.verify();
}

#[test]
fn matching_expectation_never() {
    let mut mock = mock_returning_12();
    mock.expect_times(TRAIT, METHOD, 0, Box::new(|a| a < 2));

    mock.func(3);
    mock.func(3);

    mock.verify();
}

#[test]
#[should_panic]
fn violating_expectation() {
    let mut mock = mock_returning_12();
    mock.expect_times(TRAIT, METHOD, 0, Box::new(|a| a < 2));

    mock.func(1);
    mock.func(3);
    mock.func(3);

    mock.verify();
}

#[test]
fn matching_expectation_multiple_traits() {
    let mut mock = mock_returning_12();
    mock.given_always(OTHER_TRAIT, OTHER_METHOD, Box::new(|_| true), 24, "other_func | _ | true then_return 24 always");
    mock.expect_times(TRAIT, METHOD, 0, Box::new(|a| a < 2));
    mock.expect_times(OTHER_TRAIT, OTHER_METHOD, 0, Box::new(|_| true));

    mock.func(3);
    mock.func(3);

    mock.verify();
}
