//! Emission of the mock shell: the code text of the mock struct with its
//! management API, and of the trait implementations whose method bodies
//! feed the call into the runtime dispatch engine. The emitted text only
//! forwards to the library's verified runtime (`MockState` holds the
//! collections and runs the matching algorithm); every fragment is fixed
//! by its contract as a spec-level string function of the mock name, the
//! attributes, the instantiated trait and the statements.

use vstd::prelude::*;
use vstd::string::StringExecFns;
use crate::data::BehaviourMatcher;
use crate::data::ExpectStatement;
use crate::data::GivenStatement;
use crate::data::MethodArg;
use crate::data::MethodSig;
use crate::data::Return;
use crate::data::TraitItem;
use crate::generate::InstantiatedTrait;
use crate::generate::spec_typed_argument;
use crate::generate::spec_typed_count;
use crate::generate::typed_arguments_for_method_sig;
use crate::strutil::spec_decimal;
use crate::strutil::str_eq;
use crate::strutil::usize_to_string;
use crate::type_param_mapper::spec_instantiated;

verus! {

/// The attribute prefix of the emitted struct: every attribute followed by
/// one space.
pub open spec fn spec_attr_prefix(attrs: Seq<Seq<char>>) -> Seq<char>
    decreases attrs.len(),
{
    if attrs.len() == 0 {
        Seq::empty()
    } else {
        spec_attr_prefix(attrs.drop_last()) + attrs.last() + " "@
    }
}

/// The emitted struct definition of a mock.
pub open spec fn spec_mock_struct_text(name: Seq<char>, attrs: Seq<Seq<char>>) -> Seq<char> {
    spec_attr_prefix(attrs) + "struct "@ + name
        + " { state : std::cell::RefCell < MockState > , bindings : std::cell::RefCell < std::collections::HashMap < usize , std::rc::Rc < dyn std::any::Any > > > }"@
}

/// The emitted management API of a mock: construction, behaviour
/// registration and reset, satisfaction check, and a `verify` that prints
/// every unsatisfied expectation before raising.
pub open spec fn spec_mock_api_text(name: Seq<char>) -> Seq<char> {
    "impl "@ + name + " { pub fn new ( ) -> Self { "@ + name
        + " { state : std::cell::RefCell::new ( MockState::new ( ) ) , bindings : std::cell::RefCell::new ( std::collections::HashMap::new ( ) ) } } pub fn set_binding ( & self , block_id : usize , binding : std::rc::Rc < dyn std::any::Any > ) { self . bindings . borrow_mut ( ) . insert ( block_id , binding ) ; } pub fn binding_for ( & self , block_id : usize ) -> std::rc::Rc < dyn std::any::Any > { self . bindings . borrow ( ) . get ( & block_id ) . expect ( \"galvanic_mock internal error: no binding registered for the block\" ) . clone ( ) } pub fn should_verify_on_drop ( & mut self , flag : bool ) { self . state . borrow_mut ( ) . should_verify_on_drop ( flag ) ; } pub fn add_given_behaviour ( & self , requested_trait : & str , method : & str , behaviour : GivenBehaviour ) { self . state . borrow_mut ( ) . add_given_behaviour ( requested_trait , method , behaviour ) ; } pub fn reset_given_behaviours ( & mut self ) { self . state . borrow_mut ( ) . reset_given_behaviours ( ) ; } pub fn add_expect_behaviour ( & self , requested_trait : & str , method : & str , behaviour : ExpectBehaviour ) { self . state . borrow_mut ( ) . add_expect_behaviour ( requested_trait , method , behaviour ) ; } pub fn reset_expected_behaviours ( & mut self ) { self . state . borrow_mut ( ) . reset_expected_behaviours ( ) ; } pub fn are_expected_behaviours_satisfied ( & self ) -> bool { self . state . borrow ( ) . are_expected_behaviours_satisfied ( ) } pub fn verify ( & self ) { match self . state . borrow ( ) . verify ( ) { Ok ( _ ) => ( ) , Err ( msgs ) => { for m in & msgs { println ! ( \"Behaviour unsatisfied: {}\" , m ) ; } if ! std :: thread :: panicking ( ) { panic ! ( \"There are unsatisfied expected behaviours for mocked traits.\" ) ; } } } } }"@
}

/// The emitted drop hook: dropping the mock verifies the expectations
/// unless that was switched off; `verify` itself suppresses the raise
/// while the thread is already unwinding from an earlier failure.
pub open spec fn spec_mock_drop_text(name: Seq<char>) -> Seq<char> {
    "impl std::ops::Drop for "@ + name
        + " { fn drop ( & mut self ) { if self . state . borrow ( ) . wants_verify_on_drop ( ) { self . verify ( ) ; } } }"@
}

/// Emits the mock struct and its management API.
pub struct MockStructImplementer {
    pub mock_type_name: String,
    pub attributes: Vec<String>,
}

impl MockStructImplementer {
    /// A builder for the mock struct of the given name, carrying the extra
    /// attributes to apply to it.
    pub fn for_(mock_type_name: &str, attributes: &Vec<String>) -> (r: Self)
        ensures
            r.mock_type_name@ == mock_type_name@,
            r.attributes@.map_values(|a: String| a@) == attributes@.map_values(|a: String| a@),
    {
        let mut copied: Vec<String> = Vec::new();
        let mut i: usize = 0;
        while i < attributes.len()
            invariant
                i <= attributes@.len(),
                copied@.len() == i,
                forall|k: int| 0 <= k < i ==> #[trigger] copied@[k]@ == attributes@[k]@,
            decreases attributes@.len() - i,
        {
            copied.push(attributes[i].clone());
            i += 1;
        }
        let r = MockStructImplementer {
            mock_type_name: mock_type_name.to_owned(),
            attributes: copied,
        };
        proof {
            assert(r.attributes@.map_values(|a: String| a@) =~= attributes@.map_values(
                |a: String| a@,
            ));
        }
        r
    }

    /// The struct definition, the management API and the drop hook of the
    /// mock, as three code fragments fixed by the name and attributes.
    pub fn implement(&self) -> (r: Vec<String>)
        ensures
            r@.len() == 3,
            r@[0]@ == spec_mock_struct_text(
                self.mock_type_name@,
                self.attributes@.map_values(|a: String| a@),
            ),
            r@[1]@ == spec_mock_api_text(self.mock_type_name@),
            r@[2]@ == spec_mock_drop_text(self.mock_type_name@),
    {
        let name = self.mock_type_name.as_str();
        let ghost attrs = self.attributes@.map_values(|a: String| a@);

        let mut item = String::new();
        let mut i: usize = 0;
        while i < self.attributes.len()
            invariant
                attrs == self.attributes@.map_values(|a: String| a@),
                i <= self.attributes@.len(),
                item@ == spec_attr_prefix(attrs.take(i as int)),
            decreases self.attributes@.len() - i,
        {
            item.append(self.attributes[i].as_str());
            item.append(" ");
            proof {
                let taken = attrs.take(i + 1);
                assert(taken.drop_last() =~= attrs.take(i as int));
                assert(taken.last() == attrs[i as int]);
            }
            i += 1;
        }
        proof {
            assert(attrs.take(attrs.len() as int) =~= attrs);
        }
        item.append("struct ");
        item.append(name);
        item.append(
            " { state : std::cell::RefCell < MockState > , bindings : std::cell::RefCell < std::collections::HashMap < usize , std::rc::Rc < dyn std::any::Any > > > }",
        );

        let mut api = String::from_str("impl ");
        api.append(name);
        api.append(" { pub fn new ( ) -> Self { ");
        api.append(name);
        api.append(
            " { state : std::cell::RefCell::new ( MockState::new ( ) ) , bindings : std::cell::RefCell::new ( std::collections::HashMap::new ( ) ) } } pub fn set_binding ( & self , block_id : usize , binding : std::rc::Rc < dyn std::any::Any > ) { self . bindings . borrow_mut ( ) . insert ( block_id , binding ) ; } pub fn binding_for ( & self , block_id : usize ) -> std::rc::Rc < dyn std::any::Any > { self . bindings . borrow ( ) . get ( & block_id ) . expect ( \"galvanic_mock internal error: no binding registered for the block\" ) . clone ( ) } pub fn should_verify_on_drop ( & mut self , flag : bool ) { self . state . borrow_mut ( ) . should_verify_on_drop ( flag ) ; } pub fn add_given_behaviour ( & self , requested_trait : & str , method : & str , behaviour : GivenBehaviour ) { self . state . borrow_mut ( ) . add_given_behaviour ( requested_trait , method , behaviour ) ; } pub fn reset_given_behaviours ( & mut self ) { self . state . borrow_mut ( ) . reset_given_behaviours ( ) ; } pub fn add_expect_behaviour ( & self , requested_trait : & str , method : & str , behaviour : ExpectBehaviour ) { self . state . borrow_mut ( ) . add_expect_behaviour ( requested_trait , method , behaviour ) ; } pub fn reset_expected_behaviours ( & mut self ) { self . state . borrow_mut ( ) . reset_expected_behaviours ( ) ; } pub fn are_expected_behaviours_satisfied ( & self ) -> bool { self . state . borrow ( ) . are_expected_behaviours_satisfied ( ) } pub fn verify ( & self ) { match self . state . borrow ( ) . verify ( ) { Ok ( _ ) => ( ) , Err ( msgs ) => { for m in & msgs { println ! ( \"Behaviour unsatisfied: {}\" , m ) ; } if ! std :: thread :: panicking ( ) { panic ! ( \"There are unsatisfied expected behaviours for mocked traits.\" ) ; } } } } }",
        );

        let mut drop_impl = String::from_str("impl std::ops::Drop for ");
        drop_impl.append(name);
        drop_impl.append(
            " { fn drop ( & mut self ) { if self . state . borrow ( ) . wants_verify_on_drop ( ) { self . verify ( ) ; } } }",
        );

        let mut r: Vec<String> = Vec::new();
        r.push(item);
        r.push(api);
        r.push(drop_impl);
        r
    }
}

/// The emitted per-argument match expression fragments, conjoined in
/// argument order; predicate `k` is applied to field `k` of the curried
/// argument tuple.
pub open spec fn spec_per_arg_frags(es: Seq<Seq<char>>) -> Seq<char>
    decreases es.len(),
{
    if es.len() == 0 {
        Seq::empty()
    } else {
        spec_per_arg_frags(es.drop_last()) + (if es.len() > 1 {
            " && "@
        } else {
            Seq::empty()
        }) + " ( "@ + es.last() + " ) ( & curried_args . "@ + spec_decimal(es.len() - 1)
            + " ) . into ( )"@
    }
}

/// The emitted match expression of a statement's matcher: truthy for a
/// matcher-less statement, the explicit predicate applied to the whole
/// curried tuple, or the per-argument conjunction.
pub open spec fn spec_match_expr_text(m: &BehaviourMatcher) -> Seq<char> {
    match m {
        BehaviourMatcher::Void => "true"@,
        BehaviourMatcher::Explicit(e) => "( "@ + e@ + " ) ( & curried_args ) . into ( )"@,
        BehaviourMatcher::PerArgument(es) => "("@ + spec_per_arg_frags(
            es@.map_values(|s: String| s@),
        ) + " )"@,
    }
}

/// The emitted return statement of a given-statement's policy.
pub open spec fn spec_return_expr_text(r: &Return) -> Seq<char> {
    match r {
        Return::FromValue(e) => "return "@ + e@ + " ;"@,
        Return::FromCall(e) => "return ( "@ + e@ + " ) ( & curried_args ) ;"@,
        Return::FromSpy => "panic ! ( \"return_from_spy is not implemented yet.\" ) ;"@,
        Return::Panic => "panic ! ( \"Panic by behaviour. Don't forget the towel.\" ) ;"@,
    }
}

fn match_expr_text(matcher: &BehaviourMatcher) -> (r: String)
    ensures
        r@ == spec_match_expr_text(matcher),
{
    match matcher {
        BehaviourMatcher::Void => String::from_str("true"),
        BehaviourMatcher::Explicit(e) => {
            let mut t = String::from_str("( ");
            t.append(e.as_str());
            t.append(" ) ( & curried_args ) . into ( )");
            t
        },
        BehaviourMatcher::PerArgument(es) => {
            let ghost views = es@.map_values(|s: String| s@);
            let mut t = String::from_str("(");
            let mut i: usize = 0;
            while i < es.len()
                invariant
                    views == es@.map_values(|s: String| s@),
                    i <= es@.len(),
                    t@ == "("@ + spec_per_arg_frags(views.take(i as int)),
                decreases es@.len() - i,
            {
                if i > 0 {
                    t.append(" && ");
                }
                t.append(" ( ");
                t.append(es[i].as_str());
                t.append(" ) ( & curried_args . ");
                let num = usize_to_string(i);
                t.append(num.as_str());
                t.append(" ) . into ( )");
                proof {
                    let taken = views.take(i + 1);
                    assert(taken.drop_last() =~= views.take(i as int));
                    assert(taken.last() == views[i as int]);
                }
                i += 1;
            }
            proof {
                assert(views.take(views.len() as int) =~= views);
            }
            t.append(" )");
            t
        },
    }
}

fn return_expr_text(return_stmt: &Return) -> (r: String)
    ensures
        r@ == spec_return_expr_text(return_stmt),
{
    match return_stmt {
        Return::FromValue(e) => {
            let mut t = String::from_str("return ");
            t.append(e.as_str());
            t.append(" ;");
            t
        },
        Return::FromCall(e) => {
            let mut t = String::from_str("return ( ");
            t.append(e.as_str());
            t.append(" ) ( & curried_args ) ;");
            t
        },
        Return::FromSpy => String::from_str(
            "panic ! ( \"return_from_spy is not implemented yet.\" ) ;",
        ),
        Return::Panic => String::from_str(
            "panic ! ( \"Panic by behaviour. Don't forget the towel.\" ) ;",
        ),
    }
}

/// The emitted comma-separated argument list of a method signature.
pub open spec fn spec_args_list(
    args: Seq<MethodArg>,
    pairs: Seq<(Seq<char>, Seq<char>)>,
    upto: int,
) -> Seq<char>
    decreases upto,
{
    if upto <= 0 {
        Seq::empty()
    } else {
        spec_args_list(args, pairs, upto - 1) + (if upto > 1 {
            " , "@
        } else {
            Seq::empty()
        }) + spec_typed_argument(args, upto - 1, pairs)
    }
}

/// The emitted elements of the curried argument tuple: `argn , ` for each
/// value argument, in order.
pub open spec fn spec_arg_tuple(args: Seq<MethodArg>, upto: int) -> Seq<char>
    decreases upto,
{
    if upto <= 0 {
        Seq::empty()
    } else {
        spec_arg_tuple(args, upto - 1) + (if args[upto - 1] is Typed {
            "arg"@ + spec_decimal(1 + spec_typed_count(args, upto - 1)) + " , "@
        } else {
            Seq::empty()
        })
    }
}

/// The emitted prelude of every statement arm: it fetches the statement's
/// block binding from the mock and downcasts it to the block's binding
/// value type, so the statement's matcher and return expressions can read
/// the bound values.
pub open spec fn spec_bound_prelude(block_id: int) -> Seq<char> {
    "let binding = self . binding_for ( "@ + spec_decimal(block_id)
        + " ) ; let bound = binding . downcast_ref :: < "@ + "Binding"@ + spec_decimal(block_id)
        + " > ( ) . expect ( \"galvanic_mock internal error: unable to downcast binding type\" ) ; "@
}

/// The emitted match arms deciding, per expect-statement of the method,
/// whether its matcher accepts the call.
pub open spec fn spec_expect_arms(es: Seq<ExpectStatement>, name: Seq<char>) -> Seq<char>
    decreases es.len(),
{
    if es.len() == 0 {
        Seq::empty()
    } else {
        spec_expect_arms(es.drop_last(), name) + (if es.last().method@ == name {
            spec_decimal(es.last().stmt_id as int) + " => { "@ + spec_bound_prelude(
                es.last().block_id as int,
            ) + spec_match_expr_text(&es.last().matcher) + " } , "@
        } else {
            Seq::empty()
        })
    }
}

/// The emitted match arms deciding, per given-statement of the method,
/// whether its matcher accepts the call.
pub open spec fn spec_given_arms(gs: Seq<GivenStatement>, name: Seq<char>) -> Seq<char>
    decreases gs.len(),
{
    if gs.len() == 0 {
        Seq::empty()
    } else {
        spec_given_arms(gs.drop_last(), name) + (if gs.last().method@ == name {
            spec_decimal(gs.last().stmt_id as int) + " => { "@ + spec_bound_prelude(
                gs.last().block_id as int,
            ) + spec_match_expr_text(&gs.last().matcher) + " } , "@
        } else {
            Seq::empty()
        })
    }
}

/// The emitted return dispatch: per given-statement of the method, the
/// winner's statement id selects its return policy, with the block's bound
/// values in scope.
pub open spec fn spec_given_returns(gs: Seq<GivenStatement>, name: Seq<char>) -> Seq<char>
    decreases gs.len(),
{
    if gs.len() == 0 {
        Seq::empty()
    } else {
        spec_given_returns(gs.drop_last(), name) + (if gs.last().method@ == name {
            "if stmt_id == "@ + spec_decimal(gs.last().stmt_id as int) + " { "@
                + spec_bound_prelude(gs.last().block_id as int) + spec_return_expr_text(
                &gs.last().return_stmt,
            ) + " } "@
        } else {
            Seq::empty()
        })
    }
}

fn bound_prelude(block_id: usize) -> (r: String)
    ensures
        r@ == spec_bound_prelude(block_id as int),
{
    let mut r = String::from_str("let binding = self . binding_for ( ");
    let bid = usize_to_string(block_id);
    r.append(bid.as_str());
    r.append(" ) ; let bound = binding . downcast_ref :: < ");
    r.append("Binding");
    let bid2 = usize_to_string(block_id);
    r.append(bid2.as_str());
    r.append(
        " > ( ) . expect ( \"galvanic_mock internal error: unable to downcast binding type\" ) ; ",
    );
    r
}

/// The emitted return type annotation of a method, instantiated.
pub open spec fn spec_ret_text(ret: &Option<String>, pairs: Seq<(Seq<char>, Seq<char>)>) -> Seq<
    char,
> {
    match ret {
        Some(t) => " -> "@ + spec_instantiated(pairs, t@),
        None => Seq::empty(),
    }
}

/// The full emitted body of one mocked method: it builds the curried
/// argument tuple, evaluates every statement matcher into the per-id
/// decision vectors, hands them to the verified dispatch engine, and maps
/// the winning statement id to its return policy; with no winner it panics
/// naming every remaining given-behaviour.
pub open spec fn spec_method_text(
    trait_ty: Seq<char>,
    sig: &MethodSig,
    pairs: Seq<(Seq<char>, Seq<char>)>,
    gs: Seq<GivenStatement>,
    es: Seq<ExpectStatement>,
) -> Seq<char> {
    "fn "@ + sig.name@ + " ( "@ + spec_args_list(sig.args@, pairs, sig.args@.len() as int) + " )"@
        + spec_ret_text(&sig.ret, pairs) + " { let curried_args = ( "@ + spec_arg_tuple(
        sig.args@,
        sig.args@.len() as int,
    ) + ") ; let expect_matches : Vec < bool > = self . state . borrow ( ) . expect_stmt_ids ( \""@
        + trait_ty + "\" , \""@ + sig.name@ + "\" ) . iter ( ) . map ( | stmt_id | match * stmt_id { "@
        + spec_expect_arms(es, sig.name@)
        + "_ => false } ) . collect ( ) ; let given_matches : Vec < bool > = self . state . borrow ( ) . given_stmt_ids ( \""@
        + trait_ty + "\" , \""@ + sig.name@ + "\" ) . iter ( ) . map ( | stmt_id | match * stmt_id { "@
        + spec_given_arms(gs, sig.name@)
        + "_ => false } ) . collect ( ) ; match self . state . borrow_mut ( ) . handle_call ( \""@
        + trait_ty + "\" , \""@ + sig.name@
        + "\" , & expect_matches , & given_matches ) { CallOutcome :: Matched { stmt_id , .. } => { "@
        + spec_given_returns(gs, sig.name@)
        + "unreachable ! ( ) } CallOutcome :: NoMatch { remaining } => panic ! ( \"No matching given! statement found among the remaining ones: {:?}\" , remaining ) } }"@
}

/// Whether a method signature has a self receiver.
pub open spec fn spec_has_self(args: Seq<MethodArg>) -> bool {
    exists|k: int| 0 <= k < args.len() && !((#[trigger] args[k]) is Typed)
}

/// Whether a statement's matcher fits a method of the given arity: a
/// per-argument matcher must supply exactly one predicate per value
/// argument; other matcher forms always fit.
pub open spec fn spec_matcher_fits(m: &BehaviourMatcher, arity: int) -> bool {
    match m {
        BehaviourMatcher::PerArgument(es) => es@.len() == arity,
        _ => true,
    }
}

fn has_self_receiver(sig: &MethodSig) -> (r: bool)
    ensures
        r == spec_has_self(sig.args@),
{
    let mut k: usize = 0;
    while k < sig.args.len()
        invariant
            k <= sig.args@.len(),
            forall|l: int| 0 <= l < k ==> (#[trigger] sig.args@[l]) is Typed,
        decreases sig.args@.len() - k,
    {
        match &sig.args[k] {
            MethodArg::Typed(_) => {},
            _ => {
                return true;
            },
        }
        k += 1;
    }
    false
}

fn matcher_fits(m: &BehaviourMatcher, arity: usize) -> (r: bool)
    ensures
        r == spec_matcher_fits(m, arity as int),
{
    match m {
        BehaviourMatcher::PerArgument(es) => es.len() == arity,
        _ => true,
    }
}

/// Emits one trait implementation for a mock: each method body builds the
/// curried argument tuple, evaluates the statements' matchers, and hands
/// the decisions to the runtime dispatch engine.
pub struct TraitImplementer {
    pub mock_type_name: String,
    pub unique_id: usize,
    pub given_statements: Vec<GivenStatement>,
    pub expect_statements: Vec<ExpectStatement>,
}

impl TraitImplementer {
    /// A builder for the implementation of one instantiated trait on the
    /// mock, fed with the statements addressed to that trait.
    pub fn for_(
        mock_type_name: &str,
        unique_id: usize,
        given_statements_for_trait: Vec<GivenStatement>,
        expect_statements_for_trait: Vec<ExpectStatement>,
    ) -> (r: Self)
        ensures
            r.mock_type_name@ == mock_type_name@,
            r.unique_id == unique_id,
            r.given_statements == given_statements_for_trait,
            r.expect_statements == expect_statements_for_trait,
    {
        TraitImplementer {
            mock_type_name: mock_type_name.to_owned(),
            unique_id,
            given_statements: given_statements_for_trait,
            expect_statements: expect_statements_for_trait,
        }
    }

    /// The emitted code of one mocked method, fixed by the trait usage,
    /// the signature, the substitution, and the statements. Generation is
    /// refused for a method without a self receiver (an unimplemented
    /// feature, reported rather than mis-generated) and for a statement
    /// whose per-argument matcher does not supply exactly one predicate
    /// per value argument.
    pub fn implement_mocked_method(&self, inst: &InstantiatedTrait, sig: &MethodSig) -> (r: Result<
        String,
        String,
    >)
        requires
            sig.args@.len() < usize::MAX,
        ensures
            r is Ok <==> spec_has_self(sig.args@) && (forall|k: int|
                0 <= k < self.given_statements@.len() && (#[trigger] self.given_statements@[k]).method@
                    == sig.name@ ==> spec_matcher_fits(
                    &self.given_statements@[k].matcher,
                    spec_typed_count(sig.args@, sig.args@.len() as int),
                )) && (forall|k: int|
                0 <= k < self.expect_statements@.len() && (#[trigger] self.expect_statements@[k]).method@
                    == sig.name@ ==> spec_matcher_fits(
                    &self.expect_statements@[k].matcher,
                    spec_typed_count(sig.args@, sig.args@.len() as int),
                )),
            r matches Ok(text) ==> text@ == spec_method_text(
                inst.trait_ty@,
                sig,
                inst.mapper@,
                self.given_statements@,
                self.expect_statements@,
            ),
    {
        if !has_self_receiver(sig) {
            return Err(String::from_str("Static methods are not supported yet."));
        }
        let ghost arity_spec = spec_typed_count(sig.args@, sig.args@.len() as int);
        let arity = count_typed_args(sig);

        let mut g: usize = 0;
        while g < self.given_statements.len()
            invariant
                arity_spec == spec_typed_count(sig.args@, sig.args@.len() as int),
                arity as int == arity_spec,
                g <= self.given_statements@.len(),
                forall|k: int|
                    0 <= k < g && (#[trigger] self.given_statements@[k]).method@ == sig.name@
                        ==> spec_matcher_fits(&self.given_statements@[k].matcher, arity_spec),
            decreases self.given_statements@.len() - g,
        {
            let stmt = &self.given_statements[g];
            proof {
                assert(*stmt == self.given_statements@[g as int]);
            }
            if str_eq(stmt.method.as_str(), sig.name.as_str()) && !matcher_fits(
                &stmt.matcher,
                arity,
            ) {
                proof {
                    assert(self.given_statements@[g as int].method@ == sig.name@
                        && !spec_matcher_fits(
                        &self.given_statements@[g as int].matcher,
                        spec_typed_count(sig.args@, sig.args@.len() as int),
                    ));
                }
                return Err(
                    String::from_str(
                        "A per-argument matcher must supply exactly one predicate per method argument.",
                    ),
                );
            }
            g += 1;
        }
        let mut x: usize = 0;
        while x < self.expect_statements.len()
            invariant
                arity_spec == spec_typed_count(sig.args@, sig.args@.len() as int),
                arity as int == arity_spec,
                x <= self.expect_statements@.len(),
                forall|k: int|
                    0 <= k < x && (#[trigger] self.expect_statements@[k]).method@ == sig.name@
                        ==> spec_matcher_fits(&self.expect_statements@[k].matcher, arity_spec),
            decreases self.expect_statements@.len() - x,
        {
            let stmt = &self.expect_statements[x];
            proof {
                assert(*stmt == self.expect_statements@[x as int]);
            }
            if str_eq(stmt.method.as_str(), sig.name.as_str()) && !matcher_fits(
                &stmt.matcher,
                arity,
            ) {
                proof {
                    assert(self.expect_statements@[x as int].method@ == sig.name@
                        && !spec_matcher_fits(
                        &self.expect_statements@[x as int].matcher,
                        spec_typed_count(sig.args@, sig.args@.len() as int),
                    ));
                }
                return Err(
                    String::from_str(
                        "A per-argument matcher must supply exactly one predicate per method argument.",
                    ),
                );
            }
            x += 1;
        }

        let mut t = String::from_str("fn ");
        t.append(sig.name.as_str());
        t.append(" ( ");
        let args = typed_arguments_for_method_sig(sig, &inst.mapper);
        let mut i: usize = 0;
        while i < args.len()
            invariant
                args@.len() == sig.args@.len(),
                forall|k: int|
                    0 <= k < args@.len() ==> (#[trigger] args@[k])@ == spec_typed_argument(
                        sig.args@,
                        k,
                        inst.mapper@,
                    ),
                i <= args@.len(),
                t@ == "fn "@ + sig.name@ + " ( "@ + spec_args_list(
                    sig.args@,
                    inst.mapper@,
                    i as int,
                ),
            decreases args@.len() - i,
        {
            if i > 0 {
                t.append(" , ");
            }
            t.append(args[i].as_str());
            i += 1;
        }
        t.append(" )");
        match &sig.ret {
            Some(ret) => {
                t.append(" -> ");
                let inst_ret = inst.mapper.instantiate_from_ty(ret.as_str());
                t.append(inst_ret.as_str());
            },
            None => {},
        }
        t.append(" { let curried_args = ( ");
        let mut a: usize = 0;
        let mut arg_idx: usize = 1;
        while a < sig.args.len()
            invariant
                sig.args@.len() < usize::MAX,
                a <= sig.args@.len(),
                arg_idx as int == 1 + spec_typed_count(sig.args@, a as int),
                arg_idx <= a + 1,
                t@ == "fn "@ + sig.name@ + " ( "@ + spec_args_list(
                    sig.args@,
                    inst.mapper@,
                    sig.args@.len() as int,
                ) + " )"@ + spec_ret_text(&sig.ret, inst.mapper@) + " { let curried_args = ( "@
                    + spec_arg_tuple(sig.args@, a as int),
            decreases sig.args@.len() - a,
        {
            proof {
                assert(spec_typed_count(sig.args@, a + 1) == spec_typed_count(sig.args@, a as int)
                    + (if sig.args@[a as int] is Typed {
                    1int
                } else {
                    0int
                }));
            }
            match &sig.args[a] {
                MethodArg::Typed(_) => {
                    t.append("arg");
                    let num = usize_to_string(arg_idx);
                    t.append(num.as_str());
                    t.append(" , ");
                    arg_idx = arg_idx + 1;
                },
                _ => {},
            }
            a += 1;
        }
        t.append(") ; let expect_matches : Vec < bool > = self . state . borrow ( ) . expect_stmt_ids ( \"");
        t.append(inst.trait_ty.as_str());
        t.append("\" , \"");
        t.append(sig.name.as_str());
        t.append("\" ) . iter ( ) . map ( | stmt_id | match * stmt_id { ");
        let ghost mid1 = t@;
        let mut e: usize = 0;
        while e < self.expect_statements.len()
            invariant
                e <= self.expect_statements@.len(),
                t@ == mid1 + spec_expect_arms(self.expect_statements@.take(e as int), sig.name@),
            decreases self.expect_statements@.len() - e,
        {
            let stmt = &self.expect_statements[e];
            if str_eq(stmt.method.as_str(), sig.name.as_str()) {
                let sid = usize_to_string(stmt.stmt_id);
                t.append(sid.as_str());
                t.append(" => { ");
                let pre = bound_prelude(stmt.block_id);
                t.append(pre.as_str());
                let me = match_expr_text(&stmt.matcher);
                t.append(me.as_str());
                t.append(" } , ");
            }
            proof {
                let taken = self.expect_statements@.take(e + 1);
                assert(taken.drop_last() =~= self.expect_statements@.take(e as int));
                assert(taken.last() == self.expect_statements@[e as int]);
            }
            e += 1;
        }
        proof {
            assert(self.expect_statements@.take(self.expect_statements@.len() as int)
                =~= self.expect_statements@);
        }
        t.append("_ => false } ) . collect ( ) ; let given_matches : Vec < bool > = self . state . borrow ( ) . given_stmt_ids ( \"");
        t.append(inst.trait_ty.as_str());
        t.append("\" , \"");
        t.append(sig.name.as_str());
        t.append("\" ) . iter ( ) . map ( | stmt_id | match * stmt_id { ");
        let ghost mid2 = t@;
        let mut g2: usize = 0;
        while g2 < self.given_statements.len()
            invariant
                g2 <= self.given_statements@.len(),
                t@ == mid2 + spec_given_arms(self.given_statements@.take(g2 as int), sig.name@),
            decreases self.given_statements@.len() - g2,
        {
            let stmt = &self.given_statements[g2];
            if str_eq(stmt.method.as_str(), sig.name.as_str()) {
                let sid = usize_to_string(stmt.stmt_id);
                t.append(sid.as_str());
                t.append(" => { ");
                let pre = bound_prelude(stmt.block_id);
                t.append(pre.as_str());
                let me = match_expr_text(&stmt.matcher);
                t.append(me.as_str());
                t.append(" } , ");
            }
            proof {
                let taken = self.given_statements@.take(g2 + 1);
                assert(taken.drop_last() =~= self.given_statements@.take(g2 as int));
                assert(taken.last() == self.given_statements@[g2 as int]);
            }
            g2 += 1;
        }
        proof {
            assert(self.given_statements@.take(self.given_statements@.len() as int)
                =~= self.given_statements@);
        }
        t.append("_ => false } ) . collect ( ) ; match self . state . borrow_mut ( ) . handle_call ( \"");
        t.append(inst.trait_ty.as_str());
        t.append("\" , \"");
        t.append(sig.name.as_str());
        t.append("\" , & expect_matches , & given_matches ) { CallOutcome :: Matched { stmt_id , .. } => { ");
        let ghost mid3 = t@;
        let mut w: usize = 0;
        while w < self.given_statements.len()
            invariant
                w <= self.given_statements@.len(),
                t@ == mid3 + spec_given_returns(self.given_statements@.take(w as int), sig.name@),
            decreases self.given_statements@.len() - w,
        {
            let stmt = &self.given_statements[w];
            if str_eq(stmt.method.as_str(), sig.name.as_str()) {
                t.append("if stmt_id == ");
                let sid = usize_to_string(stmt.stmt_id);
                t.append(sid.as_str());
                t.append(" { ");
                let pre = bound_prelude(stmt.block_id);
                t.append(pre.as_str());
                let re = return_expr_text(&stmt.return_stmt);
                t.append(re.as_str());
                t.append(" } ");
            }
            proof {
                let taken = self.given_statements@.take(w + 1);
                assert(taken.drop_last() =~= self.given_statements@.take(w as int));
                assert(taken.last() == self.given_statements@[w as int]);
            }
            w += 1;
        }
        proof {
            assert(self.given_statements@.take(self.given_statements@.len() as int)
                =~= self.given_statements@);
        }
        t.append("unreachable ! ( ) } CallOutcome :: NoMatch { remaining } => panic ! ( \"No matching given! statement found among the remaining ones: {:?}\" , remaining ) } }");
        Ok(t)
    }
}

/// The emitted associated-type equalities of an implementation header's
/// bindings, e.g. `type Assoc = String ;`.
pub open spec fn spec_assoc_items(assoc: Seq<(Seq<char>, Seq<char>)>) -> Seq<char>
    decreases assoc.len(),
{
    if assoc.len() == 0 {
        Seq::empty()
    } else {
        spec_assoc_items(assoc.drop_last()) + "type "@ + assoc.last().0 + " = "@ + assoc.last().1
            + " ; "@
    }
}

/// The emitted method implementations of a trait, in item order.
pub open spec fn spec_methods_text(
    trait_ty: Seq<char>,
    pairs: Seq<(Seq<char>, Seq<char>)>,
    items: Seq<TraitItem>,
    gs: Seq<GivenStatement>,
    es: Seq<ExpectStatement>,
) -> Seq<char>
    decreases items.len(),
{
    if items.len() == 0 {
        Seq::empty()
    } else {
        spec_methods_text(trait_ty, pairs, items.drop_last(), gs, es) + (match items.last() {
            TraitItem::Method(sig) => spec_method_text(trait_ty, &sig, pairs, gs, es) + " "@,
            TraitItem::AssocType(_) => Seq::empty(),
        })
    }
}

/// The emitted implementation header's generic argument list.
pub open spec fn spec_impl_generics(args: Seq<Seq<char>>) -> Seq<char> {
    if args.len() == 0 {
        Seq::empty()
    } else {
        " < "@ + crate::data::spec_comma_joined(args) + " >"@
    }
}

/// The emitted trait implementation: the trait's base path with the
/// concrete type arguments (associated-type bindings moved out into
/// `type` items), implemented for the mock type, with one dispatching
/// method per trait method.
pub open spec fn spec_trait_impl_text(
    trait_ty: Seq<char>,
    args: Seq<Seq<char>>,
    assoc: Seq<(Seq<char>, Seq<char>)>,
    name: Seq<char>,
    pairs: Seq<(Seq<char>, Seq<char>)>,
    items: Seq<TraitItem>,
    gs: Seq<GivenStatement>,
    es: Seq<ExpectStatement>,
) -> Seq<char> {
    "impl "@ + crate::generate::spec_base_path(trait_ty) + spec_impl_generics(args) + " for "@
        + name + " { "@ + spec_assoc_items(assoc) + spec_methods_text(trait_ty, pairs, items, gs, es)
        + "}"@
}

/// The emitted per-trait registration helpers: one
/// `add_given_behaviour_for_trait<id>_<method>` per trait method, each
/// forwarding to the generic registration with the trait and method fixed.
pub open spec fn spec_helpers_text(
    name: Seq<char>,
    unique_id: int,
    trait_ty: Seq<char>,
    items: Seq<TraitItem>,
) -> Seq<char>
    decreases items.len(),
{
    if items.len() == 0 {
        Seq::empty()
    } else {
        spec_helpers_text(name, unique_id, trait_ty, items.drop_last()) + (match items.last() {
            TraitItem::Method(sig) => "pub fn add_given_behaviour_for_trait"@ + spec_decimal(
                unique_id,
            ) + "_"@ + sig.name@
                + " ( & self , behaviour : GivenBehaviour ) { self . add_given_behaviour ( \""@
                + trait_ty + "\" , \""@ + sig.name@ + "\" , behaviour ) ; } "@,
            TraitItem::AssocType(_) => Seq::empty(),
        })
    }
}

impl TraitImplementer {
    /// The implementation of the instantiated trait for the mock type and
    /// the per-trait registration helpers, as two fragments fixed by the
    /// trait usage (split by the caller into its concrete type arguments
    /// and associated-type bindings), the mock name and the statements.
    /// Generation fails exactly where a method does.
    pub fn implement(
        &self,
        inst: &InstantiatedTrait,
        type_args: &Vec<String>,
        assoc_bindings: &Vec<(String, String)>,
    ) -> (r: Result<Vec<String>, String>)
        requires
            forall|k: int|
                0 <= k < inst.info.items@.len() ==> ((#[trigger] inst.info.items@[k]) matches
                    TraitItem::Method(sig) ==> sig.args@.len() < usize::MAX),
        ensures
            r matches Ok(v) ==> v@.len() == 2 && v@[0]@ == spec_trait_impl_text(
                inst.trait_ty@,
                type_args@.map_values(|a: String| a@),
                assoc_bindings@.map_values(|p: (String, String)| (p.0@, p.1@)),
                self.mock_type_name@,
                inst.mapper@,
                inst.info.items@,
                self.given_statements@,
                self.expect_statements@,
            ) && v@[1]@ == spec_helpers_text(
                self.mock_type_name@,
                self.unique_id as int,
                inst.trait_ty@,
                inst.info.items@,
            ),
    {
        let ghost args_v = type_args@.map_values(|a: String| a@);
        let ghost assoc_v = assoc_bindings@.map_values(|p: (String, String)| (p.0@, p.1@));

        let mut impl_text = String::from_str("impl ");
        let base = crate::generate::strip_generics(inst.trait_ty.as_str());
        impl_text.append(base.as_str());
        if type_args.len() > 0 {
            impl_text.append(" < ");
            let joined = crate::data::comma_join(type_args);
            impl_text.append(joined.as_str());
            impl_text.append(" >");
        }
        impl_text.append(" for ");
        impl_text.append(self.mock_type_name.as_str());
        impl_text.append(" { ");
        let mut b: usize = 0;
        let ghost head = impl_text@;
        while b < assoc_bindings.len()
            invariant
                assoc_v == assoc_bindings@.map_values(|p: (String, String)| (p.0@, p.1@)),
                b <= assoc_bindings@.len(),
                impl_text@ == head + spec_assoc_items(assoc_v.take(b as int)),
            decreases assoc_bindings@.len() - b,
        {
            impl_text.append("type ");
            impl_text.append(assoc_bindings[b].0.as_str());
            impl_text.append(" = ");
            impl_text.append(assoc_bindings[b].1.as_str());
            impl_text.append(" ; ");
            proof {
                let taken = assoc_v.take(b + 1);
                assert(taken.drop_last() =~= assoc_v.take(b as int));
                assert(taken.last() == assoc_v[b as int]);
            }
            b += 1;
        }
        proof {
            assert(assoc_v.take(assoc_v.len() as int) =~= assoc_v);
        }

        let ghost mid = impl_text@;
        let mut i: usize = 0;
        while i < inst.info.items.len()
            invariant
                forall|k: int|
                    0 <= k < inst.info.items@.len() ==> ((#[trigger] inst.info.items@[k]) matches
                        TraitItem::Method(sig) ==> sig.args@.len() < usize::MAX),
                i <= inst.info.items@.len(),
                impl_text@ == mid + spec_methods_text(
                    inst.trait_ty@,
                    inst.mapper@,
                    inst.info.items@.take(i as int),
                    self.given_statements@,
                    self.expect_statements@,
                ),
            decreases inst.info.items@.len() - i,
        {
            match &inst.info.items[i] {
                TraitItem::Method(sig) => {
                    let m = match self.implement_mocked_method(inst, sig) {
                        Ok(m) => m,
                        Err(e) => {
                            return Err(e);
                        },
                    };
                    impl_text.append(m.as_str());
                    impl_text.append(" ");
                },
                TraitItem::AssocType(_) => {},
            }
            proof {
                let taken = inst.info.items@.take(i + 1);
                assert(taken.drop_last() =~= inst.info.items@.take(i as int));
                assert(taken.last() == inst.info.items@[i as int]);
            }
            i += 1;
        }
        proof {
            assert(inst.info.items@.take(inst.info.items@.len() as int) =~= inst.info.items@);
        }
        impl_text.append("}");

        let mut helpers = String::new();
        let ghost hbase = helpers@;
        let mut h: usize = 0;
        while h < inst.info.items.len()
            invariant
                h <= inst.info.items@.len(),
                helpers@ == spec_helpers_text(
                    self.mock_type_name@,
                    self.unique_id as int,
                    inst.trait_ty@,
                    inst.info.items@.take(h as int),
                ),
            decreases inst.info.items@.len() - h,
        {
            match &inst.info.items[h] {
                TraitItem::Method(sig) => {
                    helpers.append("pub fn add_given_behaviour_for_trait");
                    let id_text = usize_to_string(self.unique_id);
                    helpers.append(id_text.as_str());
                    helpers.append("_");
                    helpers.append(sig.name.as_str());
                    helpers.append(
                        " ( & self , behaviour : GivenBehaviour ) { self . add_given_behaviour ( \"",
                    );
                    helpers.append(inst.trait_ty.as_str());
                    helpers.append("\" , \"");
                    helpers.append(sig.name.as_str());
                    helpers.append("\" , behaviour ) ; } ");
                },
                TraitItem::AssocType(_) => {},
            }
            proof {
                let taken = inst.info.items@.take(h + 1);
                assert(taken.drop_last() =~= inst.info.items@.take(h as int));
                assert(taken.last() == inst.info.items@[h as int]);
            }
            h += 1;
        }
        proof {
            assert(inst.info.items@.take(inst.info.items@.len() as int) =~= inst.info.items@);
        }

        let mut r: Vec<String> = Vec::new();
        r.push(impl_text);
        r.push(helpers);
        Ok(r)
    }
}

fn count_typed_args(sig: &MethodSig) -> (r: usize)
    requires
        sig.args@.len() < usize::MAX,
    ensures
        r as int == spec_typed_count(sig.args@, sig.args@.len() as int),
{
    let mut r: usize = 0;
    let mut i: usize = 0;
    while i < sig.args.len()
        invariant
            sig.args@.len() < usize::MAX,
            i <= sig.args@.len(),
            r as int == spec_typed_count(sig.args@, i as int),
            r <= i,
        decreases sig.args@.len() - i,
    {
        proof {
            assert(spec_typed_count(sig.args@, i + 1) == spec_typed_count(sig.args@, i as int) + (
            if sig.args@[i as int] is Typed {
                1int
            } else {
                0int
            }));
        }
        match &sig.args[i] {
            MethodArg::Typed(_) => {
                r = r + 1;
            },
            _ => {},
        }
        i += 1;
    }
    r
}

} // verus!
