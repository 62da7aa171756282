use galvanic_mock::data::Binding;
use galvanic_mock::data::BindingField;
use galvanic_mock::data::MethodArg;
use galvanic_mock::data::MethodSig;
use galvanic_mock::data::TraitInfo;
use galvanic_mock::data::TraitItem;
use galvanic_mock::generate::extract_parameterized_types_from_trait_use;
use galvanic_mock::implementers::MockStructImplementer;
use galvanic_mock::implementers::TraitImplementer;
use galvanic_mock::session::MockSession;
use galvanic_mock::session::binding_name_for;
use galvanic_mock::session::implement_bindings;
use galvanic_mock::session::implement_initialize_binding;

fn trait_with_func() -> TraitInfo {
    TraitInfo::new(
        false,
        vec!["T".to_string()],
        Vec::new(),
        vec![TraitItem::Method(MethodSig {
            name: "func".to_string(),
            args: vec![MethodArg::SelfRef, MethodArg::Typed("T".to_string())],
            ret: Some("i32".to_string()),
        })],
    )
}

#[test]
fn emits_the_mock_struct_and_management_api() {
    let attrs = vec!["#[derive ( Debug )]".to_string()];
    let fragments = MockStructImplementer::for_("MyMock", &attrs).implement();
    assert_eq!(fragments.len(), 3);
    assert!(fragments[0].contains("#[derive ( Debug )] struct MyMock"));
    assert!(fragments[1].contains("pub fn new ( )"));
    assert!(fragments[1].contains("pub fn set_binding"));
    assert!(fragments[1].contains("pub fn binding_for"));
    assert!(fragments[1].contains("if ! std :: thread :: panicking ( ) { panic !"));
    assert!(fragments[1].contains("pub fn should_verify_on_drop"));
    assert!(fragments[1].contains("pub fn reset_given_behaviours"));
    assert!(fragments[1].contains("Behaviour unsatisfied: {}"));
    assert!(fragments[1].contains("pub fn verify"));
    assert!(fragments[2].contains("Drop for MyMock"));
    assert!(fragments[2].contains("wants_verify_on_drop ( ) { self . verify ( ) ; }"));
}

#[test]
fn emits_a_trait_implementation_wired_to_the_dispatch_engine() {
    let mut session = MockSession::new();
    session.mockable(None, "TestTrait", trait_with_func());
    session
        .use_mocks(
            "fn t ( ) { let mock = new_mock ! ( TestTrait < i32 > for MyMock ) ; given ! { < mock as TestTrait < i32 > > :: func ( | & a | a < 2 ) then_return 12 times 2 ; } expect_interactions ! { < mock as TestTrait < i32 > > :: func ( | & a | a < 2 ) times 2 ; } }",
        )
        .expect("expansion must succeed");
    let blueprints = session.handle_generate_mocks().expect("generation must succeed");
    assert_eq!(blueprints.len(), 1);
    let bp = &blueprints[0];
    assert_eq!(bp.mock_type_name, "MyMock");
    assert_eq!(bp.given_statements.len(), 1);
    assert_eq!(bp.expect_statements.len(), 1);

    let (type_args, assoc) = extract_parameterized_types_from_trait_use("TestTrait < i32 >");
    assert_eq!(type_args, vec!["i32"]);
    assert!(assoc.is_empty());

    let implementer = TraitImplementer::for_(
        bp.mock_type_name.as_str(),
        1,
        bp.given_statements.clone(),
        bp.expect_statements.clone(),
    );
    let fragments = implementer
        .implement(&bp.instantiated_traits[0], &type_args, &assoc)
        .expect("emission must succeed");
    assert_eq!(fragments.len(), 2);
    assert!(fragments[0].contains("impl TestTrait < i32 > for MyMock"));
    assert!(fragments[0].contains("fn func ( & self , arg1 : i32 ) -> i32"));
    assert!(fragments[0].contains("( | & a | a < 2 ) ( & curried_args . 0 ) . into ( )"));
    assert!(fragments[0].contains("let binding = self . binding_for ("));
    assert!(fragments[0].contains("downcast_ref"));
    assert!(fragments[0].contains("handle_call"));
    assert!(fragments[0].contains("return 12 ;"));
    assert!(fragments[1].contains("pub fn add_given_behaviour_for_trait1_func"));
}

#[test]
fn associated_type_bindings_become_type_items() {
    let (type_args, assoc) =
        extract_parameterized_types_from_trait_use("TestTrait < i32 , f64 , Assoc = String >");
    assert_eq!(type_args, vec!["i32", "f64"]);
    assert_eq!(assoc.len(), 1);
    assert_eq!(assoc[0].0, "Assoc");
    assert_eq!(assoc[0].1, "String");

    let info = TraitInfo::new(
        false,
        vec!["T".to_string(), "F".to_string()],
        Vec::new(),
        vec![
            TraitItem::AssocType("Assoc".to_string()),
            TraitItem::Method(MethodSig {
                name: "func".to_string(),
                args: vec![MethodArg::SelfRef, MethodArg::Typed("T".to_string())],
                ret: Some("i32".to_string()),
            }),
        ],
    );
    let mut mockable = galvanic_mock::data::MockableTraits::new();
    mockable.insert("TestTrait", info);
    let inst = galvanic_mock::generate::create_instantiated_traits(
        "TestTrait < i32 , f64 , Assoc = String >",
        &mockable,
    )
    .expect("the trait is registered");

    let implementer = TraitImplementer::for_("MyMock", 1, Vec::new(), Vec::new());
    let fragments = implementer
        .implement(&inst, &type_args, &assoc)
        .expect("emission must succeed");
    assert!(fragments[0].starts_with("impl TestTrait < i32, f64 > for MyMock { type Assoc = String ; "));
    assert!(fragments[0].contains("type Assoc = String ;"));
}

#[test]
fn static_methods_are_rejected() {
    let info = TraitInfo::new(
        false,
        Vec::new(),
        Vec::new(),
        vec![TraitItem::Method(MethodSig {
            name: "func".to_string(),
            args: vec![MethodArg::Typed("i32".to_string())],
            ret: None,
        })],
    );
    let mut mockable = galvanic_mock::data::MockableTraits::new();
    mockable.insert("TestTrait", info);
    let inst = galvanic_mock::generate::create_instantiated_traits("TestTrait", &mockable)
        .expect("the trait is registered");

    let implementer = TraitImplementer::for_("MyMock", 1, Vec::new(), Vec::new());
    let err = match implementer.implement(&inst, &Vec::new(), &Vec::new()) {
        Err(e) => e,
        Ok(_) => panic!("a method without a self receiver must be rejected"),
    };
    assert_eq!(err, "Static methods are not supported yet.");
}

#[test]
fn per_argument_arity_mismatch_is_rejected() {
    let mut session = MockSession::new();
    session.mockable(None, "TestTrait", trait_with_func());
    session
        .use_mocks(
            "fn t ( ) { let mock = new_mock ! ( TestTrait < i32 > for MyMock ) ; given ! { < mock as TestTrait < i32 > > :: func ( | & a | a < 2 , | & b | b < 2 ) then_return 12 always ; } }",
        )
        .expect("expansion must succeed");
    let err = match session.generate_mock_code() {
        Err(e) => e,
        Ok(_) => panic!("an over-supplied per-argument matcher must be rejected"),
    };
    assert!(err.contains("exactly one predicate per method argument"));
}

#[test]
fn generated_code_is_assembled_from_a_session() {
    let mut session = MockSession::new();
    session.mockable(None, "TestTrait", trait_with_func());
    let expanded = session
        .use_mocks(
            "fn t ( ) { let mock = new_mock ! ( TestTrait < i32 > for MyMock ) ; given ! { < mock as TestTrait < i32 > > :: func ( | & a | a < 2 ) then_return 12 times 2 ; } }",
        )
        .expect("expansion must succeed");
    assert!(expanded.contains("GivenBehaviour::with_times(2, "));
    assert!(expanded.contains("set_binding("));
    assert!(!expanded.contains("binding.clone(), \""));
    let fragments = session.generate_mock_code().expect("emission must succeed");
    let joined = fragments.join("\n");
    assert!(joined.contains("struct MyMock"));
    assert!(joined.contains("impl TestTrait < i32 > for MyMock"));
    assert!(joined.contains("pub fn add_given_behaviour_for_trait1_func"));
    assert!(joined.contains("impl std::ops::Drop for MyMock"));
}

#[test]
fn lifetimes_are_stripped_during_instantiation() {
    let mut mapper = galvanic_mock::type_param_mapper::TypeParamMapper::new();
    mapper.add_mapping("T", "i32");
    assert_eq!(mapper.instantiate_from_ty("& 'a T"), "& i32");
    assert_eq!(mapper.instantiate_from_ty("&'a mut T"), "& mut i32");
}

#[test]
fn emits_binding_types_and_initializers() {
    let binding = Binding {
        block_id: 42,
        fields: vec![BindingField {
            name: "y".to_string(),
            ty: "i32".to_string(),
            initializer: "12".to_string(),
        }],
    };
    assert_eq!(binding_name_for(42), "Binding42");
    assert_eq!(
        implement_initialize_binding(&binding),
        "mock::Binding42 { y : 12 }"
    );
    let decls = implement_bindings(&vec![binding]);
    assert_eq!(decls.len(), 1);
    assert_eq!(
        decls[0],
        "#[derive(Clone)] pub(crate) struct Binding42 { pub y : i32 }"
    );
}
