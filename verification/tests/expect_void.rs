use galvanic_mock::behaviour::ExpectBehaviour;
use galvanic_mock::behaviour::GivenBehaviour;
use galvanic_mock::mock::CallOutcome;
use galvanic_mock::mock::MockState;

const TRAIT: &str = "TestTrait";
const METHOD: &str = "func";

struct VoidMock {
    state: MockState,
    matchers: Vec<(usize, Box<dyn Fn(i32) -> bool>)>,
    next_id: usize,
}

impl VoidMock {
    fn new() -> VoidMock {
        VoidMock { state: MockState::new(), matchers: Vec::new(), next_id: 0 }
    }

    fn given_always(&mut self, m: Box<dyn Fn(i32) -> bool>, repr: &str) {
        self.next_id += 1;
        let id = self.next_id;
        self.state.add_given_behaviour(TRAIT, METHOD, GivenBehaviour::with(id, repr));
        self.matchers.push((id, m));
    }

    fn expect_times(&mut self, times: usize, m: Box<dyn Fn(i32) -> bool>) {
        self.next_id += 1;
        let id = self.next_id;
        self.state.add_expect_behaviour(TRAIT, METHOD, ExpectBehaviour::with_times(times, id, "expectation"));
        self.matchers.push((id, m));
    }

    fn lookup(&self, id: usize, x: i32) -> bool {
        self.matchers.iter().find(|p| p.0 == id).map(|p| (p.1)(x)).unwrap_or(false)
    }

    fn func(&mut self, x: i32) {
        let em: Vec<bool> = self.state.expect_stmt_ids(TRAIT, METHOD).iter().map(|id| self.lookup(*id, x)).collect();
        let gm: Vec<bool> = self.state.given_stmt_ids(TRAIT, METHOD).iter().map(|id| self.lookup(*id, x)).collect();
        match self.state.handle_call(TRAIT, METHOD, &em, &gm) {
            CallOutcome::Matched { .. } => {}
            CallOutcome::NoMatch { remaining } => {
                panic!("No matching given! statement found among the remaining ones: {:?}", remaining)
            }
        }
    }

    fn verify(&self) {
        if self.state.verify().is_err() {
            panic!("There are unsatisfied expected behaviours for mocked traits.");
        }
    }
}

#[test]
fn expect_void_method_matching_expectation() {
    let mut mock = VoidMock::new();
    mock.given_always(Box::new(|_| true), "func ( | _ | true ) then_return ( ) always");
    mock.expect_times(1, Box::new(|a| a < 2));

    mock.func(1);

    mock.verify();
}
