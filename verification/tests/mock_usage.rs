use galvanic_mock::behaviour::ExpectBehaviour;
use galvanic_mock::behaviour::GivenBehaviour;
use galvanic_mock::data::MethodArg;
use galvanic_mock::data::MethodSig;
use galvanic_mock::data::TraitInfo;
use galvanic_mock::data::TraitItem;
use galvanic_mock::mock::CallOutcome;
use galvanic_mock::mock::MockState;
use galvanic_mock::session::MockSession;

fn trait_with_func_i32() -> TraitInfo {
    TraitInfo::new(
        false,
        Vec::new(),
        Vec::new(),
        vec![TraitItem::Method(MethodSig {
            name: "func".to_string(),
            args: vec![MethodArg::SelfRef, MethodArg::Typed("i32".to_string())],
            ret: Some("i32".to_string()),
        })],
    )
}

fn empty_trait() -> TraitInfo {
    TraitInfo::new(false, Vec::new(), Vec::new(), Vec::new())
}

#[test]
fn create_mock_with_empty_trait() {
    let mut session = MockSession::new();
    session.mockable(None, "EmptyTrait", empty_trait());

    let out = session
        .use_mocks("fn t ( ) { let mock = new_mock ! ( EmptyTrait ) ; }")
        .expect("expansion must succeed");
    assert!(out.contains("mock::Mock"));

    let blueprints = session.handle_generate_mocks().expect("generation must succeed");
    assert_eq!(blueprints.len(), 1);
    assert_eq!(blueprints[0].instantiated_traits.len(), 1);
    assert_eq!(blueprints[0].instantiated_traits[0].trait_ty, "EmptyTrait");
}

#[test]
fn create_mock_for_referred_trait() {
    let mut session = MockSession::new();
    session.mockable(Some(":: sub1 :: sub2"), "EmptyTrait", empty_trait());

    let out = session
        .use_mocks("fn t ( ) { let mock = new_mock ! ( :: sub1 :: sub2 :: EmptyTrait ) ; }")
        .expect("expansion must succeed");
    assert!(out.contains("mock::Mock"));

    let blueprints = session.handle_generate_mocks().expect("generation must succeed");
    assert_eq!(blueprints.len(), 1);
    assert_eq!(blueprints[0].instantiated_traits[0].trait_ty, ":: sub1 :: sub2 :: EmptyTrait");
}

#[test]
fn create_mock_from_other_submodule() {
    let mut session = MockSession::new();
    session.mockable(Some(":: sub1 :: sub2"), "EmptyTrait", empty_trait());

    let out = session
        .use_mocks("fn t ( ) { let mock = new_mock ! ( :: sub1 :: sub2 :: EmptyTrait ) ; }")
        .expect("expansion must succeed");
    assert!(out.contains("::new();"));

    let blueprints = session.handle_generate_mocks().expect("generation must succeed");
    assert_eq!(blueprints.len(), 1);
}

#[test]
fn create_mock_with_attributes() {
    let mut session = MockSession::new();
    session.mockable(None, "EmptyTrait", empty_trait());

    session
        .use_mocks("fn t ( ) { let mock = new_mock ! ( EmptyTrait # [ derive ( Clone ) ] ) ; }")
        .expect("expansion must succeed");

    let blueprints = session.handle_generate_mocks().expect("generation must succeed");
    assert_eq!(blueprints.len(), 1);
    assert_eq!(blueprints[0].attributes.len(), 1);
    assert_eq!(blueprints[0].attributes[0], "#[derive ( Clone )]");
}

fn expansion_with_given() -> String {
    let mut session = MockSession::new();
    session.mockable(None, "TestTrait", trait_with_func_i32());
    session
        .use_mocks(
            "fn t ( ) { let mock = new_mock ! ( TestTrait ) ; given ! { < mock as TestTrait > :: func | _ | true then_return 12 always ; } assert_eq ! ( mock . func ( 1 ) , 12 ) ; }",
        )
        .expect("expansion must succeed")
}

fn run_simple_mock() -> i32 {
    let mut state = MockState::new();
    state.add_given_behaviour("TestTrait", "func", GivenBehaviour::with(1, "func | _ | true then_return 12 always"));
    let gm = vec![true];
    let em: Vec<bool> = Vec::new();
    match state.handle_call("TestTrait", "func", &em, &gm) {
        CallOutcome::Matched { .. } => 12,
        CallOutcome::NoMatch { .. } => panic!("the unconditional behaviour must match"),
    }
}

#[test]
fn use_mocks_on_module_test_per_argument_matcher() {
    let out = expansion_with_given();
    assert!(out.contains("add_given_behaviour_for_trait1_func"));
    assert_eq!(run_simple_mock(), 12);
}

#[test]
fn use_mocks_on_module_test_per_argument_matcher_nested() {
    let out = expansion_with_given();
    assert!(out.contains("GivenBehaviour::with("));
    assert_eq!(run_simple_mock(), 12);
}

struct FactoryMock {
    state: MockState,
    returns: Vec<(usize, i32)>,
    next_id: usize,
}

impl FactoryMock {
    fn new() -> FactoryMock {
        FactoryMock { state: MockState::new(), returns: Vec::new(), next_id: 0 }
    }

    fn given_always(&mut self, value: i32, repr: &str) {
        self.next_id += 1;
        let id = self.next_id;
        self.state.add_given_behaviour("TestTrait", "func", GivenBehaviour::with(id, repr));
        self.returns.push((id, value));
    }

    fn given_times(&mut self, times: usize, value: i32, repr: &str) {
        self.next_id += 1;
        let id = self.next_id;
        self.state.add_given_behaviour("TestTrait", "func", GivenBehaviour::with_times(times, id, repr));
        self.returns.push((id, value));
    }

    fn func(&mut self, _x: i32) -> i32 {
        let gm: Vec<bool> = self.state.given_stmt_ids("TestTrait", "func").iter().map(|_| true).collect();
        let em: Vec<bool> = Vec::new();
        match self.state.handle_call("TestTrait", "func", &em, &gm) {
            CallOutcome::Matched { stmt_id, .. } => {
                self.returns.iter().find(|p| p.0 == stmt_id).map(|p| p.1).expect("a registered return value")
            }
            CallOutcome::NoMatch { remaining } => {
                panic!("No matching given! statement found among the remaining ones: {:?}", remaining)
            }
        }
    }
}

fn create_mock() -> FactoryMock {
    let mut mock = FactoryMock::new();
    mock.given_times(1, 12, "func | _ | true then_return 12 times 1");
    mock
}

#[test]
fn use_of_mock_factory_1() {
    let mut mock = create_mock();
    mock.given_always(1, "func | _ | true then_return 1 always");

    assert_eq!(mock.func(1), 12);
    assert_eq!(mock.func(1), 1);
}

#[test]
fn use_of_mock_factory_2() {
    let mut mock = create_mock();
    mock.given_always(2, "func | _ | true then_return 2 always");

    assert_eq!(mock.func(1), 12);
    assert_eq!(mock.func(1), 2);
}

struct GenericMock {
    state: MockState,
    matchers: Vec<(usize, Box<dyn Fn(i32, f64) -> bool>)>,
    returns: Vec<(usize, Box<dyn Fn(i32, f64) -> i32>)>,
    next_id: usize,
}

impl GenericMock {
    fn new() -> GenericMock {
        GenericMock { state: MockState::new(), matchers: Vec::new(), returns: Vec::new(), next_id: 0 }
    }

    fn given_times(&mut self, times: usize, m: Box<dyn Fn(i32, f64) -> bool>, r: Box<dyn Fn(i32, f64) -> i32>, repr: &str) {
        self.next_id += 1;
        let id = self.next_id;
        self.state.add_given_behaviour("TestTrait", "func", GivenBehaviour::with_times(times, id, repr));
        self.matchers.push((id, m));
        self.returns.push((id, r));
    }

    fn given_always(&mut self, m: Box<dyn Fn(i32, f64) -> bool>, r: Box<dyn Fn(i32, f64) -> i32>, repr: &str) {
        self.next_id += 1;
        let id = self.next_id;
        self.state.add_given_behaviour("TestTrait", "func", GivenBehaviour::with(id, repr));
        self.matchers.push((id, m));
        self.returns.push((id, r));
    }

    fn expect_at_least(&mut self, times: usize, m: Box<dyn Fn(i32, f64) -> bool>) {
        self.next_id += 1;
        let id = self.next_id;
        self.state.add_expect_behaviour("TestTrait", "func", ExpectBehaviour::with_at_least(times, id, "expectation"));
        self.matchers.push((id, m));
    }

    fn expect_between(&mut self, lo: usize, hi: usize, m: Box<dyn Fn(i32, f64) -> bool>) {
        self.next_id += 1;
        let id = self.next_id;
        self.state.add_expect_behaviour("TestTrait", "func", ExpectBehaviour::with_between(lo, hi, id, "expectation"));
        self.matchers.push((id, m));
    }

    fn expect_times(&mut self, times: usize, m: Box<dyn Fn(i32, f64) -> bool>) {
        self.next_id += 1;
        let id = self.next_id;
        self.state.add_expect_behaviour("TestTrait", "func", ExpectBehaviour::with_times(times, id, "expectation"));
        self.matchers.push((id, m));
    }

    fn lookup(&self, id: usize, x: i32, y: f64) -> bool {
        self.matchers.iter().find(|p| p.0 == id).map(|p| (p.1)(x, y)).unwrap_or(false)
    }

    fn func(&mut self, x: i32, y: f64) -> i32 {
        let em: Vec<bool> = self.state.expect_stmt_ids("TestTrait", "func").iter().map(|id| self.lookup(*id, x, y)).collect();
        let gm: Vec<bool> = self.state.given_stmt_ids("TestTrait", "func").iter().map(|id| self.lookup(*id, x, y)).collect();
        match self.state.handle_call("TestTrait", "func", &em, &gm) {
            CallOutcome::Matched { stmt_id, .. } => {
                self.returns.iter().find(|p| p.0 == stmt_id).map(|p| (p.1)(x, y)).expect("a registered return")
            }
            CallOutcome::NoMatch { remaining } => {
                panic!("No matching given! statement found among the remaining ones: {:?}", remaining)
            }
        }
    }

    fn verify(&self) {
        if self.state.verify().is_err() {
            panic!("There are unsatisfied expected behaviours for mocked traits.");
        }
    }
}

#[test]
fn mock_generic_trait_test() {
    let mut x = GenericMock::new();
    let y: i32 = 12;
    x.given_times(1, Box::new(|a, b| a < 2 && b < 2.2), Box::new(|_, _| 23), "func ( | & a | a < 2 , | & & b | b < 2.2 ) then_return 23 times 1");
    x.given_always(Box::new(|a, b| a < 4 && b < 2.2), Box::new(move |_, _| y * 2), "func ( | & a | a < 4 , | & & b | b < 2.2 ) then_return_from | _ | bound . y * 2 always");
    x.expect_at_least(1, Box::new(|a, b| a < 2 && b < 2.2));
    x.expect_between(2, 3, Box::new(|a, _| a > 2));

    assert!(x.func(1, 1.1) == 23);
    assert!(x.func(3, 1.1) == 24);
    assert!(x.func(3, 1.1) == 24);

    x.verify();
}

struct PairMock {
    state: MockState,
    matchers: Vec<(usize, Box<dyn Fn(i32, i32) -> bool>)>,
    returns: Vec<(usize, i32)>,
    next_id: usize,
}

impl PairMock {
    fn new() -> PairMock {
        PairMock { state: MockState::new(), matchers: Vec::new(), returns: Vec::new(), next_id: 0 }
    }

    fn given_always(&mut self, m: Box<dyn Fn(i32, i32) -> bool>, value: i32, repr: &str) {
        self.next_id += 1;
        let id = self.next_id;
        self.state.add_given_behaviour("TestTrait", "func", GivenBehaviour::with(id, repr));
        self.matchers.push((id, m));
        self.returns.push((id, value));
    }

    fn expect_times(&mut self, times: usize, m: Box<dyn Fn(i32, i32) -> bool>) {
        self.next_id += 1;
        let id = self.next_id;
        self.state.add_expect_behaviour("TestTrait", "func", ExpectBehaviour::with_times(times, id, "expectation"));
        self.matchers.push((id, m));
    }

    fn lookup(&self, id: usize, x: i32, y: i32) -> bool {
        self.matchers.iter().find(|p| p.0 == id).map(|p| (p.1)(x, y)).unwrap_or(false)
    }

    fn func(&mut self, x: i32, y: i32) -> i32 {
        let em: Vec<bool> = self.state.expect_stmt_ids("TestTrait", "func").iter().map(|id| self.lookup(*id, x, y)).collect();
        let gm: Vec<bool> = self.state.given_stmt_ids("TestTrait", "func").iter().map(|id| self.lookup(*id, x, y)).collect();
        match self.state.handle_call("TestTrait", "func", &em, &gm) {
            CallOutcome::Matched { stmt_id, .. } => {
                self.returns.iter().find(|p| p.0 == stmt_id).map(|p| p.1).expect("a registered return value")
            }
            CallOutcome::NoMatch { remaining } => {
                panic!("No matching given! statement found among the remaining ones: {:?}", remaining)
            }
        }
    }

    fn verify(&self) {
        if self.state.verify().is_err() {
            panic!("There are unsatisfied expected behaviours for mocked traits.");
        }
    }
}

#[test]
fn mock_generic_trait_method_test() {
    let mut x = PairMock::new();
    x.given_always(Box::new(|a, b| a == b), 23, "func | & ( ref a , ref b ) | a == b then_return 23 always");
    x.given_always(Box::new(|_, _| true), 46, "func | & ( ref a , ref b ) | true then_return 46 always");
    x.expect_times(2, Box::new(|a, b| a == b));
    x.expect_times(2, Box::new(|a, b| a > b));
    x.expect_times(0, Box::new(|a, b| a < b));

    assert!(x.func(1, 1) == 23);
    assert!(x.func(3, 2) == 46);
    assert!(x.func(3, 3) == 23);
    assert!(x.func(3, 2) == 46);

    x.verify();
}

struct DropMock {
    state: MockState,
}

impl DropMock {
    fn new() -> DropMock {
        DropMock { state: MockState::new() }
    }

    fn func(&mut self, matches_expect: bool) -> i32 {
        let em = vec![matches_expect];
        let gm = vec![true];
        match self.state.handle_call("TestTrait", "func", &em, &gm) {
            CallOutcome::Matched { .. } => 12,
            CallOutcome::NoMatch { .. } => panic!("the unconditional behaviour must match"),
        }
    }
}

impl Drop for DropMock {
    fn drop(&mut self) {
        if self.state.wants_verify_on_drop() && self.state.verify().is_err() {
            panic!("There are unsatisfied expected behaviours for mocked traits.");
        }
    }
}

#[test]
#[should_panic]
fn verify_on_drop() {
    let mut mock = DropMock::new();
    mock.state.add_given_behaviour("TestTrait", "func", GivenBehaviour::with(1, "func | _ | true then_return 12 always"));
    mock.state.add_expect_behaviour("TestTrait", "func", ExpectBehaviour::with_times(2, 2, "func ( | & a | a < 2 ) times ( 2 )"));

    mock.func(true);
}

#[test]
fn disable_verify_on_drop() {
    let mut mock = DropMock::new();
    mock.state.add_given_behaviour("TestTrait", "func", GivenBehaviour::with(1, "func | _ | true then_return 12 always"));
    mock.state.add_expect_behaviour("TestTrait", "func", ExpectBehaviour::with_times(2, 2, "func ( | & a | a < 2 ) times ( 2 )"));

    mock.state.should_verify_on_drop(false);
    mock.func(true);
}
