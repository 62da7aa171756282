//! One compilation session of mock expansion: the explicit context object
//! holding the mockable-trait registry, the requested mocks, the pending
//! statements and bindings, and the trait-usage unifier. DSL blocks found
//! in source text are parsed, recorded here, and replaced with generated
//! registration code; once per expansion the accumulated state is drained
//! into one blueprint per requested mock.

use vstd::prelude::*;
use vstd::string::StrSliceExecFns;
use vstd::string::StringExecFns;
use crate::data::Binding;
use crate::data::ExpectRepeat;
use crate::data::ExpectStatement;
use crate::data::GivenRepeat;
use crate::data::GivenStatement;
use crate::data::MockableTraits;
use crate::data::RequestedMock;
use crate::data::Return;
use crate::data::TraitInfo;
use crate::generate::InstantiatedTrait;
use crate::generate::create_instantiated_traits;
use crate::generate::extract_parameterized_types_from_trait_use;
use crate::generate::gen_new_mock_type_name;
use crate::implementers::MockStructImplementer;
use crate::implementers::TraitImplementer;
use crate::parser::parse_expect_interactions;
use crate::parser::parse_givens;
use crate::parser::parse_new_mock;
use crate::scan::MacroInvocationPos;
use crate::scan::find_next_mock_macro_invocation;
use crate::data::spec_describe_expect;
use crate::data::spec_describe_given;
use crate::strutil::spec_decimal;
use crate::strutil::str_eq;
use crate::strutil::usize_to_string;
use crate::tokens::spec_space_joined;
use crate::tokens::spec_token_texts;
use crate::tokens::tokenize;
use crate::unifier::MockedTraitUnifier;
use crate::unifier::id_of;

verus! {

/// The text with every quote and backslash escaped, so it can stand inside
/// a generated string literal.
pub open spec fn spec_escaped(s: Seq<char>) -> Seq<char>
    decreases s.len(),
{
    if s.len() == 0 {
        Seq::empty()
    } else {
        spec_escaped(s.drop_last()) + (if s.last() == '"' || s.last() == '\\' {
            seq!['\\', s.last()]
        } else {
            seq![s.last()]
        })
    }
}

/// Escapes quotes and backslashes for embedding in a generated literal.
fn escape_str(s: &str) -> (r: String)
    ensures
        r@ == spec_escaped(s@),
{
    let len = s.unicode_len();
    let mut r = String::new();
    let mut i: usize = 0;
    while i < len
        invariant
            len == s@.len(),
            i <= len,
            r@ == spec_escaped(s@.take(i as int)),
        decreases len - i,
    {
        let c = s.get_char(i);
        proof {
            reveal_strlit("\\\"");
            reveal_strlit("\\\\");
        }
        if c == '"' {
            r.append("\\\"");
        } else if c == '\\' {
            r.append("\\\\");
        } else {
            let piece = s.substring_char(i, i + 1);
            r.append(piece);
        }
        proof {
            let taken = s@.take(i + 1);
            assert(taken.drop_last() =~= s@.take(i as int));
            assert(taken.last() == s@[i as int]);
            assert(r@ =~= spec_escaped(taken));
        }
        i += 1;
    }
    proof {
        assert(s@.take(len as int) =~= s@);
    }
    r
}

/// The generated name of the binding value type of one DSL block.
pub fn binding_name_for(block_id: usize) -> (r: String)
    ensures
        r@ == "Binding"@ + crate::strutil::spec_decimal(block_id as int),
{
    let mut r = String::from_str("Binding");
    let num = usize_to_string(block_id);
    r.append(num.as_str());
    r
}

/// The field declarations of a binding value type, comma-separated.
pub open spec fn spec_binding_decl_fields(fields: Seq<crate::data::BindingField>) -> Seq<char>
    decreases fields.len(),
{
    if fields.len() == 0 {
        Seq::empty()
    } else {
        spec_binding_decl_fields(fields.drop_last()) + (if fields.len() > 1 {
            ", "@
        } else {
            Seq::empty()
        }) + "pub "@ + fields.last().name@ + " : "@ + fields.last().ty@
    }
}

/// The generated declaration of one block's binding value type.
pub open spec fn spec_binding_decl(binding: &Binding) -> Seq<char> {
    "#[derive(Clone)] pub(crate) struct "@ + "Binding"@ + spec_decimal(binding.block_id as int)
        + " { "@ + spec_binding_decl_fields(binding.fields@) + " }"@
}

/// The field initializers of a binding value, comma-separated.
pub open spec fn spec_binding_init_fields(fields: Seq<crate::data::BindingField>) -> Seq<char>
    decreases fields.len(),
{
    if fields.len() == 0 {
        Seq::empty()
    } else {
        spec_binding_init_fields(fields.drop_last()) + (if fields.len() > 1 {
            ", "@
        } else {
            Seq::empty()
        }) + fields.last().name@ + " : "@ + fields.last().initializer@
    }
}

/// The generated expression constructing one block's binding value.
pub open spec fn spec_binding_init(binding: &Binding) -> Seq<char> {
    "mock::"@ + "Binding"@ + spec_decimal(binding.block_id as int) + " { "@
        + spec_binding_init_fields(binding.fields@) + " }"@
}

/// The generated declaration of one block's binding value type.
fn implement_binding(binding: &Binding) -> (r: String)
    ensures
        r@ == spec_binding_decl(binding),
{
    let mut r = String::from_str("#[derive(Clone)] pub(crate) struct ");
    let name = binding_name_for(binding.block_id);
    r.append(name.as_str());
    r.append(" { ");
    let mut i: usize = 0;
    while i < binding.fields.len()
        invariant
            i <= binding.fields@.len(),
            r@ == "#[derive(Clone)] pub(crate) struct "@ + "Binding"@ + spec_decimal(
                binding.block_id as int,
            ) + " { "@ + spec_binding_decl_fields(binding.fields@.take(i as int)),
        decreases binding.fields@.len() - i,
    {
        if i > 0 {
            r.append(", ");
        }
        r.append("pub ");
        r.append(binding.fields[i].name.as_str());
        r.append(" : ");
        r.append(binding.fields[i].ty.as_str());
        proof {
            let taken = binding.fields@.take(i + 1);
            assert(taken.drop_last() =~= binding.fields@.take(i as int));
            assert(taken.last() == binding.fields@[i as int]);
        }
        i += 1;
    }
    proof {
        assert(binding.fields@.take(binding.fields@.len() as int) =~= binding.fields@);
    }
    r.append(" }");
    r
}

/// The generated declarations of all recorded binding value types.
pub fn implement_bindings(bindings: &Vec<Binding>) -> (r: Vec<String>)
    ensures
        r@.len() == bindings@.len(),
        forall|k: int|
            0 <= k < bindings@.len() ==> (#[trigger] r@[k])@ == spec_binding_decl(&bindings@[k]),
{
    let mut r: Vec<String> = Vec::new();
    let mut i: usize = 0;
    while i < bindings.len()
        invariant
            i <= bindings@.len(),
            r@.len() == i,
            forall|k: int|
                0 <= k < i ==> (#[trigger] r@[k])@ == spec_binding_decl(&bindings@[k]),
        decreases bindings@.len() - i,
    {
        r.push(implement_binding(&bindings[i]));
        i += 1;
    }
    r
}

/// The generated expression constructing one block's binding value.
pub fn implement_initialize_binding(binding: &Binding) -> (r: String)
    ensures
        r@ == spec_binding_init(binding),
{
    let mut r = String::from_str("mock::");
    let name = binding_name_for(binding.block_id);
    r.append(name.as_str());
    r.append(" { ");
    let mut i: usize = 0;
    while i < binding.fields.len()
        invariant
            i <= binding.fields@.len(),
            r@ == "mock::"@ + "Binding"@ + spec_decimal(binding.block_id as int) + " { "@
                + spec_binding_init_fields(binding.fields@.take(i as int)),
        decreases binding.fields@.len() - i,
    {
        if i > 0 {
            r.append(", ");
        }
        r.append(binding.fields[i].name.as_str());
        r.append(" : ");
        r.append(binding.fields[i].initializer.as_str());
        proof {
            let taken = binding.fields@.take(i + 1);
            assert(taken.drop_last() =~= binding.fields@.take(i as int));
            assert(taken.last() == binding.fields@[i as int]);
        }
        i += 1;
    }
    proof {
        assert(binding.fields@.take(binding.fields@.len() as int) =~= binding.fields@);
    }
    r.append(" }");
    r
}

/// One mock ready for synthesis: its type name, extra attributes, resolved
/// trait instantiations, and the statements addressed to it.
pub struct MockBlueprint {
    pub mock_type_name: String,
    pub attributes: Vec<String>,
    pub instantiated_traits: Vec<InstantiatedTrait>,
    pub given_statements: Vec<GivenStatement>,
    pub expect_statements: Vec<ExpectStatement>,
}

/// The generated registration line of one given-statement: the per-trait
/// add method named by the statement's unifier id, constructing the
/// runtime behaviour from the statement id, the shared binding, and the
/// escaped statement rendering.
pub open spec fn spec_given_add_line(stmt: &GivenStatement, uid: int) -> Seq<char> {
    stmt.mock_var@ + ".set_binding("@ + spec_decimal(stmt.block_id as int)
        + ", binding.clone()); "@ + stmt.mock_var@ + ".add_given_behaviour_for_trait"@
        + spec_decimal(uid) + "_"@ + stmt.method@ + (match stmt.repeat {
        GivenRepeat::Always => "(GivenBehaviour::with("@ + spec_decimal(stmt.stmt_id as int)
            + ", \""@ + spec_escaped(spec_describe_given(stmt)) + "\"));"@,
        GivenRepeat::Times(e) => "(GivenBehaviour::with_times("@ + e@ + ", "@ + spec_decimal(
            stmt.stmt_id as int,
        ) + ", \""@ + spec_escaped(spec_describe_given(stmt)) + "\"));"@,
    })
}

/// The generated registration lines of a block's given-statements, in
/// statement order, each carrying its trait usage's unifier id.
pub open spec fn spec_given_lines(stmts: Seq<GivenStatement>, unifier: Seq<Seq<char>>) -> Seq<
    char,
>
    decreases stmts.len(),
{
    if stmts.len() == 0 {
        Seq::empty()
    } else {
        spec_given_lines(stmts.drop_last(), unifier) + spec_given_add_line(
            &stmts.last(),
            id_of(unifier, stmts.last().ufc_trait@)->0,
        ) + " "@
    }
}

/// The whole generated replacement of a `given!` block: the shared
/// binding construction followed by one registration line per statement.
pub open spec fn spec_given_block_text(
    binding: &Binding,
    stmts: Seq<GivenStatement>,
    unifier: Seq<Seq<char>>,
) -> Seq<char> {
    "let binding = std::rc::Rc::new("@ + spec_binding_init(binding) + "); "@ + spec_given_lines(
        stmts,
        unifier,
    )
}

/// The generated registration line of one expect-statement.
pub open spec fn spec_expect_add_line(stmt: &ExpectStatement) -> Seq<char> {
    stmt.mock_var@ + ".set_binding("@ + spec_decimal(stmt.block_id as int)
        + ", binding.clone()); "@ + stmt.mock_var@ + ".add_expect_behaviour(\""@ + spec_escaped(
        stmt.ufc_trait@,
    ) + "\", \""@ + stmt.method@ + "\", ExpectBehaviour::"@ + (match stmt.repeat {
        ExpectRepeat::Times(e) => "with_times("@ + e@ + ", "@,
        ExpectRepeat::AtLeast(e) => "with_at_least("@ + e@ + ", "@,
        ExpectRepeat::AtMost(e) => "with_at_most("@ + e@ + ", "@,
        ExpectRepeat::Between(lo, hi) => "with_between("@ + lo@ + ", "@ + hi@ + ", "@,
    }) + spec_decimal(stmt.stmt_id as int) + ", \""@ + spec_escaped(spec_describe_expect(stmt))
        + "\"));"@
}

/// The generated registration lines of a block's expect-statements.
pub open spec fn spec_expect_lines(stmts: Seq<ExpectStatement>) -> Seq<char>
    decreases stmts.len(),
{
    if stmts.len() == 0 {
        Seq::empty()
    } else {
        spec_expect_lines(stmts.drop_last()) + spec_expect_add_line(&stmts.last()) + " "@
    }
}

/// The whole generated replacement of an `expect_interactions!` block.
pub open spec fn spec_expect_block_text(binding: &Binding, stmts: Seq<ExpectStatement>) -> Seq<
    char,
> {
    "let binding = std::rc::Rc::new("@ + spec_binding_init(binding) + "); "@ + spec_expect_lines(
        stmts,
    )
}

fn given_add_line(stmt: &GivenStatement, unique_id: usize) -> (r: String)
    requires
        !(stmt.return_stmt is FromSpy),
    ensures
        r@ == spec_given_add_line(stmt, unique_id as int),
{
    let described = stmt.describe();
    let repr = escape_str(described.as_str());
    let mut line = String::new();
    line.append(stmt.mock_var.as_str());
    line.append(".set_binding(");
    let bid = usize_to_string(stmt.block_id);
    line.append(bid.as_str());
    line.append(", binding.clone()); ");
    line.append(stmt.mock_var.as_str());
    line.append(".add_given_behaviour_for_trait");
    let id_text = usize_to_string(unique_id);
    line.append(id_text.as_str());
    line.append("_");
    line.append(stmt.method.as_str());
    match &stmt.repeat {
        GivenRepeat::Always => {
            line.append("(GivenBehaviour::with(");
            let sid = usize_to_string(stmt.stmt_id);
            line.append(sid.as_str());
            line.append(", \"");
            line.append(repr.as_str());
            line.append("\"));");
        },
        GivenRepeat::Times(e) => {
            line.append("(GivenBehaviour::with_times(");
            line.append(e.as_str());
            line.append(", ");
            let sid = usize_to_string(stmt.stmt_id);
            line.append(sid.as_str());
            line.append(", \"");
            line.append(repr.as_str());
            line.append("\"));");
        },
    }
    line
}

fn expect_add_line(stmt: &ExpectStatement) -> (r: String)
    ensures
        r@ == spec_expect_add_line(stmt),
{
    let described = stmt.describe();
    let repr = escape_str(described.as_str());
    let trait_repr = escape_str(stmt.ufc_trait.as_str());
    let mut line = String::new();
    line.append(stmt.mock_var.as_str());
    line.append(".set_binding(");
    let bid = usize_to_string(stmt.block_id);
    line.append(bid.as_str());
    line.append(", binding.clone()); ");
    line.append(stmt.mock_var.as_str());
    line.append(".add_expect_behaviour(\"");
    line.append(trait_repr.as_str());
    line.append("\", \"");
    line.append(stmt.method.as_str());
    line.append("\", ExpectBehaviour::");
    match &stmt.repeat {
        ExpectRepeat::Times(e) => {
            line.append("with_times(");
            line.append(e.as_str());
            line.append(", ");
        },
        ExpectRepeat::AtLeast(e) => {
            line.append("with_at_least(");
            line.append(e.as_str());
            line.append(", ");
        },
        ExpectRepeat::AtMost(e) => {
            line.append("with_at_most(");
            line.append(e.as_str());
            line.append(", ");
        },
        ExpectRepeat::Between(lo, hi) => {
            line.append("with_between(");
            line.append(lo.as_str());
            line.append(", ");
            line.append(hi.as_str());
            line.append(", ");
        },
    }
    let sid = usize_to_string(stmt.stmt_id);
    line.append(sid.as_str());
    line.append(", \"");
    line.append(repr.as_str());
    line.append("\"));");
    line
}

/// Whether a statement's trait usage is among a mock's requested usages.
pub open spec fn spec_given_addressed(req: &RequestedMock, stmt: &GivenStatement) -> bool {
    exists|k: int| 0 <= k < req.traits@.len() && (#[trigger] req.traits@[k])@ == stmt.ufc_trait@
}

/// Whether an expect-statement's trait usage is among a mock's requested
/// usages.
pub open spec fn spec_expect_addressed(req: &RequestedMock, stmt: &ExpectStatement) -> bool {
    exists|k: int| 0 <= k < req.traits@.len() && (#[trigger] req.traits@[k])@ == stmt.ufc_trait@
}

/// The recorded given-statements addressing one mock, in order.
pub open spec fn spec_given_filtered(req: &RequestedMock, stmts: Seq<GivenStatement>) -> Seq<
    GivenStatement,
>
    decreases stmts.len(),
{
    if stmts.len() == 0 {
        Seq::empty()
    } else {
        spec_given_filtered(req, stmts.drop_last()) + (if spec_given_addressed(
            req,
            &stmts.last(),
        ) {
            seq![stmts.last()]
        } else {
            Seq::empty()
        })
    }
}

/// The recorded expect-statements addressing one mock, in order.
pub open spec fn spec_expect_filtered(req: &RequestedMock, stmts: Seq<ExpectStatement>) -> Seq<
    ExpectStatement,
>
    decreases stmts.len(),
{
    if stmts.len() == 0 {
        Seq::empty()
    } else {
        spec_expect_filtered(req, stmts.drop_last()) + (if spec_expect_addressed(
            req,
            &stmts.last(),
        ) {
            seq![stmts.last()]
        } else {
            Seq::empty()
        })
    }
}

/// The canonical registry key of a mockable trait: the space-joined token
/// text of its qualified path (the module path, `::`, and the name when a
/// module path is given; the bare name otherwise).
pub open spec fn spec_mockable_key(trait_module: Option<&str>, trait_name: Seq<char>) -> Seq<
    char,
> {
    let pre = match trait_module {
        Some(p) => spec_space_joined(spec_token_texts(p@)) + " :: "@,
        None => Seq::<char>::empty(),
    };
    spec_space_joined(spec_token_texts(pre + trait_name))
}

/// The mutable state of one mock-expansion session.
pub struct MockSession {
    pub mockable_traits: MockableTraits,
    pub requested_mocks: Vec<RequestedMock>,
    pub given_statements: Vec<GivenStatement>,
    pub expect_statements: Vec<ExpectStatement>,
    pub bindings: Vec<Binding>,
    pub unifier: MockedTraitUnifier,
}

impl MockSession {
    /// A fresh session with empty registries.
    pub fn new() -> (r: Self)
        ensures
            r.requested_mocks@.len() == 0,
            r.given_statements@.len() == 0,
            r.expect_statements@.len() == 0,
            r.bindings@.len() == 0,
            r.unifier@.len() == 0,
            r.mockable_traits.entries_spec().len() == 0,
    {
        MockSession {
            mockable_traits: MockableTraits::new(),
            requested_mocks: Vec::new(),
            given_statements: Vec::new(),
            expect_statements: Vec::new(),
            bindings: Vec::new(),
            unifier: MockedTraitUnifier::new(),
        }
    }

    /// Registers a trait as mockable: under its local name in the bare
    /// form, or under the given absolute module path when the trait is
    /// defined elsewhere or re-exported. The key is the canonical token
    /// text of the qualified path; the registered shape is exactly the one
    /// handed in.
    pub fn mockable(&mut self, trait_module: Option<&str>, trait_name: &str, info: TraitInfo)
        ensures
            final(self).mockable_traits.spec_contains(
                spec_mockable_key(trait_module, trait_name@),
            ),
            final(self).mockable_traits.spec_info_of(spec_mockable_key(trait_module, trait_name@))
                == info,
            forall|q: Seq<char>|
                old(self).mockable_traits.spec_contains(q) ==> #[trigger] final(self).mockable_traits.spec_contains(q),
            final(self).requested_mocks@ == old(self).requested_mocks@,
            final(self).given_statements@ == old(self).given_statements@,
            final(self).expect_statements@ == old(self).expect_statements@,
            final(self).bindings@ == old(self).bindings@,
            final(self).unifier@ == old(self).unifier@,
    {
        let mut key = String::new();
        match trait_module {
            None => {},
            Some(p) => {
                let toks = tokenize(p);
                let joined = crate::tokens::join_tokens(&toks, 0, toks.len());
                proof {
                    assert(toks@.subrange(0, toks@.len() as int) =~= toks@);
                }
                key.append(joined.as_str());
                key.append(" :: ");
            },
        }
        key.append(trait_name);
        let toks = tokenize(key.as_str());
        let canonical = crate::tokens::join_tokens(&toks, 0, toks.len());
        proof {
            assert(toks@.subrange(0, toks@.len() as int) =~= toks@);
            assert(canonical@ == spec_mockable_key(trait_module, trait_name@));
        }
        self.mockable_traits.insert(canonical.as_str(), info);
    }

    /// Handles one `new_mock!` invocation found at `absolute_position`:
    /// parses the request, defaults the mock's type name to a synthetic
    /// position-derived name, registers each requested trait usage with
    /// the unifier, records the request, and returns the generated
    /// construction expression with the unconsumed remainder of the text.
    pub fn handle_new_mock(&mut self, source: &str, absolute_position: usize) -> (r: Result<
        (String, String),
        String,
    >)
        ensures
            (match r {
                Ok(out) => {
                    let req = final(self).requested_mocks@.last();
                    &&& out.1@.len() < source@.len()
                    &&& out.1@ == source@.skip(source@.len() - out.1@.len())
                    &&& final(self).requested_mocks@.len() == old(self).requested_mocks@.len() + 1
                    &&& forall|k: int|
                        0 <= k < old(self).requested_mocks@.len() ==> #[trigger] final(self).requested_mocks@[k] == old(self).requested_mocks@[k]
                    &&& req.maybe_type_name is Some
                    &&& out.0@ == "mock::"@ + req.maybe_type_name->0@ + "::new();"@
                    &&& forall|k: int|
                        0 <= k < req.traits@.len() ==> id_of(
                            final(self).unifier@,
                            #[trigger] req.traits@[k]@,
                        ) is Some
                    &&& final(self).given_statements@ == old(self).given_statements@
                    &&& final(self).expect_statements@ == old(self).expect_statements@
                    &&& final(self).bindings@ == old(self).bindings@
                    &&& final(self).mockable_traits.entries_spec() == old(self).mockable_traits.entries_spec()
                },
                Err(_) => *final(self) == *old(self),
            }),
    {
        let tokens = tokenize(source);
        let parsed = parse_new_mock(&tokens);
        let (mut requested_mock, end) = match parsed {
            Ok(p) => p,
            Err(e) => {
                return Err(e);
            },
        };
        if requested_mock.maybe_type_name.is_none() {
            requested_mock.maybe_type_name = Some(gen_new_mock_type_name(absolute_position));
        }

        let mut k: usize = 0;
        while k < requested_mock.traits.len()
            invariant
                k <= requested_mock.traits@.len(),
                self.requested_mocks@ == old(self).requested_mocks@,
                self.given_statements@ == old(self).given_statements@,
                self.expect_statements@ == old(self).expect_statements@,
                self.bindings@ == old(self).bindings@,
                self.mockable_traits.entries_spec() == old(self).mockable_traits.entries_spec(),
                forall|j: int|
                    0 <= j < k ==> id_of(
                        self.unifier@,
                        #[trigger] requested_mock.traits@[j]@,
                    ) is Some,
            decreases requested_mock.traits@.len() - k,
        {
            let ghost u1 = self.unifier@;
            self.unifier.register_trait(requested_mock.traits[k].as_str());
            proof {
                if id_of(u1, requested_mock.traits@[k as int]@) is None {
                    assert(self.unifier@ == u1.push(requested_mock.traits@[k as int]@));
                }
                assert forall|j: int| 0 <= j < k + 1 implies id_of(
                    self.unifier@,
                    #[trigger] requested_mock.traits@[j]@,
                ) is Some by {
                    if j < k {
                        if self.unifier@ != u1 {
                            crate::unifier::lemma_id_of_push(
                                u1,
                                requested_mock.traits@[k as int]@,
                                requested_mock.traits@[j]@,
                            );
                        }
                    }
                }
            }
            k += 1;
        }

        let mock_type_name = match &requested_mock.maybe_type_name {
            Some(n) => n.clone(),
            None => gen_new_mock_type_name(absolute_position),
        };
        let mut generated = String::from_str("mock::");
        generated.append(mock_type_name.as_str());
        generated.append("::new();");

        self.requested_mocks.push(requested_mock);

        let last = end - 1;
        proof {
            assert((last as int) < tokens@.len());
            assert(tokens@[last as int].start < tokens@[last as int].end);
            assert(tokens@[last as int].end <= source@.len());
        }
        let cut = tokens[last].end;
        let len = source.unicode_len();
        let remainder = source.substring_char(cut, len).to_owned();
        proof {
            assert(remainder@ =~= source@.skip(cut as int));
            assert(remainder@ =~= source@.skip(source@.len() - remainder@.len()));
        }
        Ok((generated, remainder))
    }

    /// Handles one `given!` block found at `absolute_position`: parses it,
    /// assigns the block and statement identities from the absolute source
    /// position, checks every statement's trait against the unifier,
    /// records statements and binding, and returns the generated
    /// registration code with the unconsumed remainder. A statement whose
    /// trait was never requested, and a `then_spy_on_object` statement,
    /// are errors.
    pub fn handle_given(&mut self, source: &str, absolute_position: usize) -> (r: Result<
        (String, String),
        String,
    >)
        ensures
            (match r {
                Ok(out) => {
                    let base = old(self).given_statements@.len();
                    let added = final(self).given_statements@.skip(base as int);
                    &&& out.1@.len() < source@.len()
                    &&& out.1@ == source@.skip(source@.len() - out.1@.len())
                    &&& final(self).given_statements@.len() >= base
                    &&& forall|k: int|
                        0 <= k < base ==> #[trigger] final(self).given_statements@[k] == old(self).given_statements@[k]
                    &&& forall|k: int|
                        0 <= k < added.len() ==> (#[trigger] added[k]).block_id
                            == absolute_position && added[k].stmt_id as int == absolute_position
                            + k && id_of(old(self).unifier@, added[k].ufc_trait@) is Some && !(
                        added[k].return_stmt is FromSpy)
                    &&& final(self).bindings@.len() == old(self).bindings@.len() + 1
                    &&& forall|k: int|
                        0 <= k < old(self).bindings@.len() ==> #[trigger] final(self).bindings@[k]
                            == old(self).bindings@[k]
                    &&& final(self).bindings@.last().block_id == absolute_position
                    &&& out.0@ == spec_given_block_text(
                        &final(self).bindings@.last(),
                        added,
                        old(self).unifier@,
                    )
                    &&& final(self).expect_statements@ == old(self).expect_statements@
                    &&& final(self).requested_mocks@ == old(self).requested_mocks@
                    &&& final(self).unifier@ == old(self).unifier@
                    &&& final(self).mockable_traits.entries_spec() == old(self).mockable_traits.entries_spec()
                },
                Err(_) => *final(self) == *old(self),
            }),
    {
        let tokens = tokenize(source);
        let parsed = parse_givens(&tokens);
        let (binding_fields, given_definitions, end) = match parsed {
            Ok(p) => p,
            Err(e) => {
                return Err(e);
            },
        };
        if absolute_position >= usize::MAX - given_definitions.len() {
            return Err(String::from_str("Source position too large for statement identifiers"));
        }
        if self.unifier.is_full() {
            return Err(String::from_str("Too many distinct trait usages"));
        }

        let mut new_stmts: Vec<GivenStatement> = Vec::new();
        let mut add_statements: Vec<String> = Vec::new();
        let mut idx: usize = 0;
        while idx < given_definitions.len()
            invariant
                idx <= given_definitions@.len(),
                absolute_position + given_definitions@.len() < usize::MAX,
                self.unifier@.len() < usize::MAX,
                new_stmts@.len() == idx,
                add_statements@.len() == idx,
                forall|k: int|
                    0 <= k < idx ==> (#[trigger] new_stmts@[k]).block_id == absolute_position
                        && new_stmts@[k].stmt_id as int == absolute_position + k && id_of(
                        self.unifier@,
                        new_stmts@[k].ufc_trait@,
                    ) is Some && !(new_stmts@[k].return_stmt is FromSpy),
                forall|k: int|
                    0 <= k < idx ==> (#[trigger] add_statements@[k])@ == spec_given_add_line(
                        &new_stmts@[k],
                        id_of(self.unifier@, new_stmts@[k].ufc_trait@)->0,
                    ),
            decreases given_definitions@.len() - idx,
        {
            let mut stmt = given_definitions[idx].clone();
            stmt.block_id = absolute_position;
            stmt.stmt_id = absolute_position + idx;

            let is_spy = match &stmt.return_stmt {
                Return::FromSpy => true,
                _ => false,
            };
            if is_spy {
                return Err(String::from_str("return_from_spy is not implemented yet."));
            }

            let unique_id = match self.unifier.get_unique_id_for(stmt.ufc_trait.as_str()) {
                Some(id) => id,
                None => {
                    let mut msg = String::from_str("The trait `");
                    msg.append(stmt.ufc_trait.as_str());
                    msg.append(
                        "` used in the given statement has not been requested for any mock. ",
                    );
                    msg.append(
                        "Did you specify all generic and associated types (and in the same order)?",
                    );
                    return Err(msg);
                },
            };

            let line = given_add_line(&stmt, unique_id);
            add_statements.push(line);
            new_stmts.push(stmt);
            idx += 1;
        }

        let ghost base = self.given_statements@.len();
        let ghost committed = new_stmts@;
        self.given_statements.append(&mut new_stmts);
        let binding = Binding { block_id: absolute_position, fields: binding_fields };
        let binding_initialization = implement_initialize_binding(&binding);
        self.bindings.push(binding);

        let mut given_block = String::from_str("let binding = std::rc::Rc::new(");
        given_block.append(binding_initialization.as_str());
        given_block.append("); ");
        let ghost head = given_block@;
        let mut k: usize = 0;
        while k < add_statements.len()
            invariant
                committed.len() == add_statements@.len(),
                forall|l: int|
                    0 <= l < committed.len() ==> (#[trigger] add_statements@[l])@
                        == spec_given_add_line(
                        &committed[l],
                        id_of(old(self).unifier@, committed[l].ufc_trait@)->0,
                    ),
                k <= add_statements@.len(),
                given_block@ == head + spec_given_lines(
                    committed.take(k as int),
                    old(self).unifier@,
                ),
            decreases add_statements@.len() - k,
        {
            given_block.append(add_statements[k].as_str());
            given_block.append(" ");
            proof {
                let taken = committed.take(k + 1);
                assert(taken.drop_last() =~= committed.take(k as int));
                assert(taken.last() == committed[k as int]);
            }
            k += 1;
        }
        proof {
            assert(committed.take(committed.len() as int) =~= committed);
            assert(self.given_statements@.skip(base as int) =~= committed);
        }

        let last = end - 1;
        proof {
            assert((last as int) < tokens@.len());
            assert(tokens@[last as int].start < tokens@[last as int].end);
            assert(tokens@[last as int].end <= source@.len());
        }
        let cut = tokens[last].end;
        let len = source.unicode_len();
        let remainder = source.substring_char(cut, len).to_owned();
        proof {
            assert(remainder@ =~= source@.skip(cut as int));
            assert(remainder@ =~= source@.skip(source@.len() - remainder@.len()));
        }
        Ok((given_block, remainder))
    }

    /// Handles one `expect_interactions!` block found at
    /// `absolute_position`: parses it, assigns identities, records the
    /// statements and binding, and returns the generated registration code
    /// with the unconsumed remainder.
    pub fn handle_expect_interactions(&mut self, source: &str, absolute_position: usize) -> (r:
        Result<(String, String), String>)
        ensures
            (match r {
                Ok(out) => {
                    let base = old(self).expect_statements@.len();
                    let added = final(self).expect_statements@.skip(base as int);
                    &&& out.1@.len() < source@.len()
                    &&& out.1@ == source@.skip(source@.len() - out.1@.len())
                    &&& final(self).expect_statements@.len() >= base
                    &&& forall|k: int|
                        0 <= k < base ==> #[trigger] final(self).expect_statements@[k] == old(self).expect_statements@[k]
                    &&& forall|k: int|
                        0 <= k < added.len() ==> (#[trigger] added[k]).block_id
                            == absolute_position && added[k].stmt_id as int == absolute_position
                            + k
                    &&& final(self).bindings@.len() == old(self).bindings@.len() + 1
                    &&& forall|k: int|
                        0 <= k < old(self).bindings@.len() ==> #[trigger] final(self).bindings@[k]
                            == old(self).bindings@[k]
                    &&& final(self).bindings@.last().block_id == absolute_position
                    &&& out.0@ == spec_expect_block_text(&final(self).bindings@.last(), added)
                    &&& final(self).given_statements@ == old(self).given_statements@
                    &&& final(self).requested_mocks@ == old(self).requested_mocks@
                    &&& final(self).unifier@ == old(self).unifier@
                    &&& final(self).mockable_traits.entries_spec() == old(self).mockable_traits.entries_spec()
                },
                Err(_) => *final(self) == *old(self),
            }),
    {
        let tokens = tokenize(source);
        let parsed = parse_expect_interactions(&tokens);
        let (binding_fields, expect_definitions, end) = match parsed {
            Ok(p) => p,
            Err(e) => {
                return Err(e);
            },
        };
        if absolute_position >= usize::MAX - expect_definitions.len() {
            return Err(String::from_str("Source position too large for statement identifiers"));
        }

        let mut new_stmts: Vec<ExpectStatement> = Vec::new();
        let mut add_statements: Vec<String> = Vec::new();
        let mut idx: usize = 0;
        while idx < expect_definitions.len()
            invariant
                idx <= expect_definitions@.len(),
                absolute_position + expect_definitions@.len() < usize::MAX,
                new_stmts@.len() == idx,
                add_statements@.len() == idx,
                forall|k: int|
                    0 <= k < idx ==> (#[trigger] new_stmts@[k]).block_id == absolute_position
                        && new_stmts@[k].stmt_id as int == absolute_position + k,
                forall|k: int|
                    0 <= k < idx ==> (#[trigger] add_statements@[k])@ == spec_expect_add_line(
                        &new_stmts@[k],
                    ),
            decreases expect_definitions@.len() - idx,
        {
            let mut stmt = expect_definitions[idx].clone();
            stmt.block_id = absolute_position;
            stmt.stmt_id = absolute_position + idx;

            let line = expect_add_line(&stmt);
            add_statements.push(line);
            new_stmts.push(stmt);
            idx += 1;
        }

        let ghost base = self.expect_statements@.len();
        let ghost committed = new_stmts@;
        self.expect_statements.append(&mut new_stmts);
        let binding = Binding { block_id: absolute_position, fields: binding_fields };
        let binding_initialization = implement_initialize_binding(&binding);
        self.bindings.push(binding);

        let mut block = String::from_str("let binding = std::rc::Rc::new(");
        block.append(binding_initialization.as_str());
        block.append("); ");
        let ghost head = block@;
        let mut k: usize = 0;
        while k < add_statements.len()
            invariant
                committed.len() == add_statements@.len(),
                forall|l: int|
                    0 <= l < committed.len() ==> (#[trigger] add_statements@[l])@
                        == spec_expect_add_line(&committed[l]),
                k <= add_statements@.len(),
                block@ == head + spec_expect_lines(committed.take(k as int)),
            decreases add_statements@.len() - k,
        {
            block.append(add_statements[k].as_str());
            block.append(" ");
            proof {
                let taken = committed.take(k + 1);
                assert(taken.drop_last() =~= committed.take(k as int));
                assert(taken.last() == committed[k as int]);
            }
            k += 1;
        }
        proof {
            assert(committed.take(committed.len() as int) =~= committed);
            assert(self.expect_statements@.skip(base as int) =~= committed);
        }

        let last = end - 1;
        proof {
            assert((last as int) < tokens@.len());
            assert(tokens@[last as int].start < tokens@[last as int].end);
            assert(tokens@[last as int].end <= source@.len());
        }
        let cut = tokens[last].end;
        let len = source.unicode_len();
        let remainder = source.substring_char(cut, len).to_owned();
        proof {
            assert(remainder@ =~= source@.skip(cut as int));
            assert(remainder@ =~= source@.skip(source@.len() - remainder@.len()));
        }
        Ok((block, remainder))
    }

    /// Drains the session into one blueprint per requested mock: every
    /// requested trait usage is resolved against the registry (an unknown
    /// one is an error naming the registered traits), each mock receives
    /// the statements addressed to its requested traits, and the pending
    /// requests, statements and bindings are cleared for the next
    /// expansion. The unifier and the trait registry persist.
    pub fn handle_generate_mocks(&mut self) -> (r: Result<Vec<MockBlueprint>, String>)
        ensures
            (match r {
                Ok(blueprints) => {
                    &&& blueprints@.len() == old(self).requested_mocks@.len()
                    &&& forall|m: int|
                        0 <= m < blueprints@.len() ==> (#[trigger] blueprints@[m]).instantiated_traits@.len() == old(self).requested_mocks@[m].traits@.len()
                    &&& forall|m: int, t: int|
                        0 <= m < blueprints@.len() && 0 <= t < old(self).requested_mocks@[m].traits@.len() ==> (#[trigger] blueprints@[m].instantiated_traits@[t]).trait_ty@ == old(self).requested_mocks@[m].traits@[t]@
                    &&& forall|m: int|
                        0 <= m < blueprints@.len() ==> (#[trigger] blueprints@[m]).mock_type_name@
                            == (match old(self).requested_mocks@[m].maybe_type_name {
                            Some(n) => n@,
                            None => "Mock"@,
                        })
                    &&& forall|m: int|
                        0 <= m < blueprints@.len() ==> (#[trigger] blueprints@[m]).given_statements@.len() == spec_given_filtered(
                            &old(self).requested_mocks@[m],
                            old(self).given_statements@,
                        ).len()
                    &&& forall|m: int, k: int|
                        0 <= m < blueprints@.len() && 0 <= k < blueprints@[m].given_statements@.len() ==> crate::data::spec_given_stmt_like(
                            &(#[trigger] blueprints@[m].given_statements@[k]),
                            &spec_given_filtered(
                                &old(self).requested_mocks@[m],
                                old(self).given_statements@,
                            )[k],
                        )
                    &&& forall|m: int|
                        0 <= m < blueprints@.len() ==> (#[trigger] blueprints@[m]).expect_statements@.len() == spec_expect_filtered(
                            &old(self).requested_mocks@[m],
                            old(self).expect_statements@,
                        ).len()
                    &&& forall|m: int, k: int|
                        0 <= m < blueprints@.len() && 0 <= k < blueprints@[m].expect_statements@.len() ==> crate::data::spec_expect_stmt_like(
                            &(#[trigger] blueprints@[m].expect_statements@[k]),
                            &spec_expect_filtered(
                                &old(self).requested_mocks@[m],
                                old(self).expect_statements@,
                            )[k],
                        )
                    &&& final(self).requested_mocks@.len() == 0
                    &&& final(self).given_statements@.len() == 0
                    &&& final(self).expect_statements@.len() == 0
                    &&& final(self).bindings@.len() == 0
                    &&& final(self).unifier@ == old(self).unifier@
                    &&& final(self).mockable_traits.entries_spec() == old(self).mockable_traits.entries_spec()
                },
                Err(_) => *final(self) == *old(self),
            }),
            r is Ok <==> forall|m: int, t: int|
                0 <= m < old(self).requested_mocks@.len() && 0 <= t < old(self).requested_mocks@[m].traits@.len() ==> old(self).mockable_traits.spec_contains(
                    crate::generate::spec_base_path(#[trigger] old(self).requested_mocks@[m].traits@[t]@),
                ),
    {
        let mut blueprints: Vec<MockBlueprint> = Vec::new();
        let mut m: usize = 0;
        while m < self.requested_mocks.len()
            invariant
                m <= self.requested_mocks@.len(),
                blueprints@.len() == m,
                self.requested_mocks@ == old(self).requested_mocks@,
                self.given_statements@ == old(self).given_statements@,
                self.expect_statements@ == old(self).expect_statements@,
                self.bindings@ == old(self).bindings@,
                self.unifier@ == old(self).unifier@,
                self.mockable_traits.entries_spec() == old(self).mockable_traits.entries_spec(),
                forall|m2: int|
                    0 <= m2 < m ==> (#[trigger] blueprints@[m2]).instantiated_traits@.len()
                        == old(self).requested_mocks@[m2].traits@.len(),
                forall|m2: int, t: int|
                    0 <= m2 < m && 0 <= t < old(self).requested_mocks@[m2].traits@.len() ==> (
                    #[trigger] blueprints@[m2].instantiated_traits@[t]).trait_ty@ == old(self).requested_mocks@[m2].traits@[t]@,
                forall|m2: int|
                    0 <= m2 < m ==> (#[trigger] blueprints@[m2]).mock_type_name@ == (
                    match old(self).requested_mocks@[m2].maybe_type_name {
                        Some(n) => n@,
                        None => "Mock"@,
                    }),
                forall|m2: int, t: int|
                    0 <= m2 < m && 0 <= t < old(self).requested_mocks@[m2].traits@.len()
                        ==> old(self).mockable_traits.spec_contains(
                        crate::generate::spec_base_path(
                            #[trigger] old(self).requested_mocks@[m2].traits@[t]@,
                        ),
                    ),
                forall|m2: int|
                    0 <= m2 < m ==> (#[trigger] blueprints@[m2]).given_statements@.len()
                        == spec_given_filtered(
                        &old(self).requested_mocks@[m2],
                        old(self).given_statements@,
                    ).len(),
                forall|m2: int, k: int|
                    0 <= m2 < m && 0 <= k < blueprints@[m2].given_statements@.len()
                        ==> crate::data::spec_given_stmt_like(
                        &(#[trigger] blueprints@[m2].given_statements@[k]),
                        &spec_given_filtered(
                            &old(self).requested_mocks@[m2],
                            old(self).given_statements@,
                        )[k],
                    ),
                forall|m2: int|
                    0 <= m2 < m ==> (#[trigger] blueprints@[m2]).expect_statements@.len()
                        == spec_expect_filtered(
                        &old(self).requested_mocks@[m2],
                        old(self).expect_statements@,
                    ).len(),
                forall|m2: int, k: int|
                    0 <= m2 < m && 0 <= k < blueprints@[m2].expect_statements@.len()
                        ==> crate::data::spec_expect_stmt_like(
                        &(#[trigger] blueprints@[m2].expect_statements@[k]),
                        &spec_expect_filtered(
                            &old(self).requested_mocks@[m2],
                            old(self).expect_statements@,
                        )[k],
                    ),
            decreases self.requested_mocks@.len() - m,
        {
            let requested = &self.requested_mocks[m];
            let mock_type_name = match &requested.maybe_type_name {
                Some(n) => n.clone(),
                None => String::from_str("Mock"),
            };

            proof {
                assert(*requested == old(self).requested_mocks@[m as int]);
            }
            let mut instantiated: Vec<InstantiatedTrait> = Vec::new();
            let mut t: usize = 0;
            while t < requested.traits.len()
                invariant
                    m < old(self).requested_mocks@.len(),
                    *requested == old(self).requested_mocks@[m as int],
                    t <= requested.traits@.len(),
                    instantiated@.len() == t,
                    self.mockable_traits.entries_spec() == old(self).mockable_traits.entries_spec(),
                    forall|t2: int|
                        0 <= t2 < t ==> (#[trigger] instantiated@[t2]).trait_ty@
                            == requested.traits@[t2]@,
                    forall|t2: int|
                        0 <= t2 < t ==> self.mockable_traits.spec_contains(
                            crate::generate::spec_base_path(#[trigger] requested.traits@[t2]@),
                        ),
                decreases requested.traits@.len() - t,
            {
                let it = match create_instantiated_traits(
                    requested.traits[t].as_str(),
                    &self.mockable_traits,
                ) {
                    Ok(it) => it,
                    Err(e) => {
                        proof {
                            assert(!old(self).mockable_traits.spec_contains(
                                crate::generate::spec_base_path(
                                    old(self).requested_mocks@[m as int].traits@[t as int]@,
                                ),
                            ));
                        }
                        return Err(e);
                    },
                };
                instantiated.push(it);
                t += 1;
            }

            let mut given_for_mock: Vec<GivenStatement> = Vec::new();
            let mut g: usize = 0;
            while g < self.given_statements.len()
                invariant
                    m < old(self).requested_mocks@.len(),
                    *requested == old(self).requested_mocks@[m as int],
                    self.given_statements@ == old(self).given_statements@,
                    g <= self.given_statements@.len(),
                    given_for_mock@.len() == spec_given_filtered(
                        requested,
                        self.given_statements@.take(g as int),
                    ).len(),
                    forall|k: int|
                        0 <= k < given_for_mock@.len() ==> crate::data::spec_given_stmt_like(
                            &(#[trigger] given_for_mock@[k]),
                            &spec_given_filtered(
                                requested,
                                self.given_statements@.take(g as int),
                            )[k],
                        ),
                decreases self.given_statements@.len() - g,
            {
                let stmt = &self.given_statements[g];
                if requested_has_usage(requested, stmt.ufc_trait.as_str()) {
                    given_for_mock.push(stmt.clone_statement());
                }
                proof {
                    let taken = self.given_statements@.take(g + 1);
                    assert(taken.drop_last() =~= self.given_statements@.take(g as int));
                    assert(taken.last() == self.given_statements@[g as int]);
                    assert(*stmt == self.given_statements@[g as int]);
                }
                g += 1;
            }
            proof {
                assert(self.given_statements@.take(self.given_statements@.len() as int)
                    =~= self.given_statements@);
            }

            let mut expect_for_mock: Vec<ExpectStatement> = Vec::new();
            let mut x: usize = 0;
            while x < self.expect_statements.len()
                invariant
                    m < old(self).requested_mocks@.len(),
                    *requested == old(self).requested_mocks@[m as int],
                    self.expect_statements@ == old(self).expect_statements@,
                    x <= self.expect_statements@.len(),
                    expect_for_mock@.len() == spec_expect_filtered(
                        requested,
                        self.expect_statements@.take(x as int),
                    ).len(),
                    forall|k: int|
                        0 <= k < expect_for_mock@.len() ==> crate::data::spec_expect_stmt_like(
                            &(#[trigger] expect_for_mock@[k]),
                            &spec_expect_filtered(
                                requested,
                                self.expect_statements@.take(x as int),
                            )[k],
                        ),
                decreases self.expect_statements@.len() - x,
            {
                let stmt = &self.expect_statements[x];
                if requested_has_usage(requested, stmt.ufc_trait.as_str()) {
                    expect_for_mock.push(stmt.clone_statement());
                }
                proof {
                    let taken = self.expect_statements@.take(x + 1);
                    assert(taken.drop_last() =~= self.expect_statements@.take(x as int));
                    assert(taken.last() == self.expect_statements@[x as int]);
                    assert(*stmt == self.expect_statements@[x as int]);
                }
                x += 1;
            }
            proof {
                assert(self.expect_statements@.take(self.expect_statements@.len() as int)
                    =~= self.expect_statements@);
            }

            let mut attributes: Vec<String> = Vec::new();
            let mut a: usize = 0;
            while a < requested.attributes.len()
                invariant
                    a <= requested.attributes@.len(),
                decreases requested.attributes@.len() - a,
            {
                attributes.push(requested.attributes[a].clone());
                a += 1;
            }

            blueprints.push(
                MockBlueprint {
                    mock_type_name,
                    attributes,
                    instantiated_traits: instantiated,
                    given_statements: given_for_mock,
                    expect_statements: expect_for_mock,
                },
            );
            m += 1;
        }

        self.requested_mocks.clear();
        self.given_statements.clear();
        self.expect_statements.clear();
        self.bindings.clear();
        Ok(blueprints)
    }

    /// The number of fragments one requested-mock list emits beyond the
    /// binding declarations: three shell fragments per mock and two per
    /// requested trait.
    pub open spec fn spec_fragment_count(mocks: Seq<RequestedMock>) -> int
        decreases mocks.len(),
    {
        if mocks.len() == 0 {
            0
        } else {
            Self::spec_fragment_count(mocks.drop_last()) + 3 + 2 * mocks.last().traits@.len()
        }
    }

    /// Drains the session and emits the complete generated mock code: the
    /// binding value types, then per requested mock the runtime-shell
    /// struct with its management API and drop hook, and per requested
    /// trait the dispatching implementation with its registration helpers.
    pub fn generate_mock_code(&mut self) -> (r: Result<Vec<String>, String>)
        ensures
            r is Ok ==> final(self).requested_mocks@.len() == 0 && final(self).given_statements@.len() == 0 && final(self).expect_statements@.len() == 0 && final(self).bindings@.len() == 0,
            r matches Ok(frags) ==> frags@.len() == old(self).bindings@.len()
                + Self::spec_fragment_count(old(self).requested_mocks@) && (forall|k: int|
                0 <= k < old(self).bindings@.len() ==> (#[trigger] frags@[k])@
                    == spec_binding_decl(&old(self).bindings@[k])),
    {
        let mut fragments = implement_bindings(&self.bindings);
        let ghost base = old(self).bindings@.len() as int;
        let ghost requested0 = self.requested_mocks@;
        if self.unifier.is_full() {
            return Err(String::from_str("Too many distinct trait usages"));
        }
        let blueprints = match self.handle_generate_mocks() {
            Ok(b) => b,
            Err(e) => {
                return Err(e);
            },
        };
        let ghost all_bps = blueprints@;

        let mut bps = blueprints;
        let ghost mut done: int = 0;
        while bps.len() > 0
            invariant
                self.requested_mocks@.len() == 0,
                self.given_statements@.len() == 0,
                self.expect_statements@.len() == 0,
                self.bindings@.len() == 0,
                self.unifier@.len() < usize::MAX,
                base == old(self).bindings@.len() as int,
                requested0 == old(self).requested_mocks@,
                all_bps.len() == requested0.len(),
                forall|m: int|
                    0 <= m < all_bps.len() ==> (#[trigger] all_bps[m]).instantiated_traits@.len()
                        == requested0[m].traits@.len(),
                0 <= done <= all_bps.len(),
                bps@ == all_bps.skip(done),
                base <= fragments@.len(),
                fragments@.len() == base + Self::spec_fragment_count(requested0.take(done)),
                forall|k: int|
                    0 <= k < base ==> (#[trigger] fragments@[k])@ == spec_binding_decl(
                        &old(self).bindings@[k],
                    ),
            decreases bps@.len(),
        {
            let ghost frags_at_mock = fragments@.len() as int;
            let bp = bps.remove(0);
            proof {
                assert(bp == all_bps[done]);
                assert(bps@ =~= all_bps.skip(done + 1));
            }
            let shell = MockStructImplementer::for_(
                bp.mock_type_name.as_str(),
                &bp.attributes,
            ).implement();
            let mut sh = shell;
            while sh.len() > 0
                invariant
                    base == old(self).bindings@.len() as int,
                    base <= fragments@.len(),
                    fragments@.len() == frags_at_mock + 3 - sh@.len(),
                    sh@.len() <= 3,
                    forall|k: int|
                        0 <= k < base ==> (#[trigger] fragments@[k])@ == spec_binding_decl(
                            &old(self).bindings@[k],
                        ),
                decreases sh@.len(),
            {
                fragments.push(sh.remove(0));
            }

            let mut its = bp.instantiated_traits;
            let ghost n_traits = its@.len() as int;
            proof {
                assert(n_traits == requested0[done].traits@.len());
            }
            let mut uid: usize = 1;
            while its.len() > 0
                invariant
                    base == old(self).bindings@.len() as int,
                    base <= fragments@.len(),
                    self.unifier@.len() < usize::MAX,
                    its@.len() <= n_traits,
                    fragments@.len() == frags_at_mock + 3 + 2 * (n_traits - its@.len()),
                    forall|k: int|
                        0 <= k < base ==> (#[trigger] fragments@[k])@ == spec_binding_decl(
                            &old(self).bindings@[k],
                        ),
                decreases its@.len(),
            {
                let it = its.remove(0);
                uid = match self.unifier.get_unique_id_for(it.trait_ty.as_str()) {
                    Some(id) => id,
                    None => {
                        let mut msg = String::from_str("The trait `");
                        msg.append(it.trait_ty.as_str());
                        msg.append("` has not been requested for any mock.");
                        return Err(msg);
                    },
                };

                let mut k: usize = 0;
                while k < it.info.items.len()
                    invariant
                        k <= it.info.items@.len(),
                        forall|j: int|
                            0 <= j < k ==> ((#[trigger] it.info.items@[j]) matches
                                crate::data::TraitItem::Method(sig) ==> sig.args@.len()
                                < usize::MAX),
                    decreases it.info.items@.len() - k,
                {
                    match &it.info.items[k] {
                        crate::data::TraitItem::Method(sig) => {
                            if sig.args.len() >= usize::MAX {
                                return Err(String::from_str("Too many method arguments"));
                            }
                        },
                        crate::data::TraitItem::AssocType(_) => {},
                    }
                    k += 1;
                }

                let mut givens_for_trait: Vec<GivenStatement> = Vec::new();
                let mut g: usize = 0;
                while g < bp.given_statements.len()
                    invariant
                        g <= bp.given_statements@.len(),
                    decreases bp.given_statements@.len() - g,
                {
                    if str_eq(
                        bp.given_statements[g].ufc_trait.as_str(),
                        it.trait_ty.as_str(),
                    ) {
                        givens_for_trait.push(bp.given_statements[g].clone());
                    }
                    g += 1;
                }
                let mut expects_for_trait: Vec<ExpectStatement> = Vec::new();
                let mut x: usize = 0;
                while x < bp.expect_statements.len()
                    invariant
                        x <= bp.expect_statements@.len(),
                    decreases bp.expect_statements@.len() - x,
                {
                    if str_eq(
                        bp.expect_statements[x].ufc_trait.as_str(),
                        it.trait_ty.as_str(),
                    ) {
                        expects_for_trait.push(bp.expect_statements[x].clone());
                    }
                    x += 1;
                }

                let (type_args, assoc_bindings) = extract_parameterized_types_from_trait_use(
                    it.trait_ty.as_str(),
                );
                let implementer = TraitImplementer::for_(
                    bp.mock_type_name.as_str(),
                    uid,
                    givens_for_trait,
                    expects_for_trait,
                );
                let trait_frags = match implementer.implement(&it, &type_args, &assoc_bindings) {
                    Ok(f) => f,
                    Err(e) => {
                        return Err(e);
                    },
                };
                let ghost frags_at_trait = fragments@.len() as int;
                let mut tf = trait_frags;
                while tf.len() > 0
                    invariant
                        base == old(self).bindings@.len() as int,
                        base <= fragments@.len(),
                        fragments@.len() == frags_at_trait + 2 - tf@.len(),
                        tf@.len() <= 2,
                        forall|k: int|
                            0 <= k < base ==> (#[trigger] fragments@[k])@ == spec_binding_decl(
                                &old(self).bindings@[k],
                            ),
                    decreases tf@.len(),
                {
                    fragments.push(tf.remove(0));
                }
            }
            proof {
                let taken = requested0.take(done + 1);
                assert(taken.drop_last() =~= requested0.take(done));
                assert(taken.last() == requested0[done]);
                done = done + 1;
            }
        }
        proof {
            assert(requested0.take(requested0.len() as int) =~= requested0);
        }
        Ok(fragments)
    }

    /// The computing core of the `use_mocks` expansion: repeatedly finds
    /// the next DSL macro invocation in the source, hands it to the
    /// matching handler, splices the generated code in its place, and
    /// scans on behind the replaced block; text without invocations passes
    /// through unchanged.
    pub fn use_mocks(&mut self, source: &str) -> (r: Result<String, String>)
        ensures
            (r is Ok && (forall|q: int|
                !crate::scan::spec_macro_candidate(source@, "new_mock !"@, q)) && (forall|q: int|
                !crate::scan::spec_macro_candidate(source@, "given !"@, q)) && (forall|q: int|
                !crate::scan::spec_macro_candidate(source@, "expect_interactions !"@, q)) ==> r->Ok_0@
                == source@),
    {
        let mut reassembled = String::new();
        let mut remainder: String = source.to_owned();
        let mut absolute_pos: usize = 0;
        let ghost mut saw_invocation: bool = false;
        loop
            invariant
                !saw_invocation ==> reassembled@ == Seq::<char>::empty() && remainder@ == source@,
                saw_invocation ==> ((exists|q: int|
                    crate::scan::spec_macro_candidate(source@, "new_mock !"@, q)) || (exists|
                    q: int,
                |
                    crate::scan::spec_macro_candidate(source@, "given !"@, q)) || (exists|q: int|
                    crate::scan::spec_macro_candidate(source@, "expect_interactions !"@, q))),
            decreases remainder@.len(),
        {
            let found = find_next_mock_macro_invocation(remainder.as_str());
            match found {
                None => {
                    reassembled.append(remainder.as_str());
                    return Ok(reassembled);
                },
                Some(invocation) => {
                    proof {
                        saw_invocation = true;
                    }
                    let pos: usize;
                    let kind: u8;
                    match invocation {
                        MacroInvocationPos::NewMock(p) => {
                            pos = p;
                            kind = 0;
                        },
                        MacroInvocationPos::Given(p) => {
                            pos = p;
                            kind = 1;
                        },
                        MacroInvocationPos::ExpectInteractions(p) => {
                            pos = p;
                            kind = 2;
                        },
                    }
                    proof {
                        reveal_strlit("new_mock !");
                        reveal_strlit("given !");
                        reveal_strlit("expect_interactions !");
                    }
                    let len = remainder.unicode_len();
                    let left = remainder.substring_char(0, pos).to_owned();
                    reassembled.append(left.as_str());
                    if absolute_pos > usize::MAX - pos {
                        return Err(
                            String::from_str("Source position too large for block identifiers"),
                        );
                    }
                    let abs = absolute_pos + pos;
                    let right = remainder.substring_char(pos, len);
                    let handled = if kind == 0 {
                        self.handle_new_mock(right, abs)
                    } else if kind == 1 {
                        self.handle_given(right, abs)
                    } else {
                        self.handle_expect_interactions(right, abs)
                    };
                    let (generated, rest) = match handled {
                        Ok(p) => p,
                        Err(e) => {
                            return Err(e);
                        },
                    };
                    reassembled.append(generated.as_str());
                    absolute_pos = abs;
                    remainder = rest;
                },
            }
        }
    }
}

/// Whether one of the mock's requested trait usages reads exactly `usage`.
fn requested_has_usage(requested: &RequestedMock, usage: &str) -> (r: bool)
    ensures
        r == exists|k: int|
            0 <= k < requested.traits@.len() && (#[trigger] requested.traits@[k])@ == usage@,
{
    let mut k: usize = 0;
    while k < requested.traits.len()
        invariant
            k <= requested.traits@.len(),
            forall|l: int| 0 <= l < k ==> (#[trigger] requested.traits@[l])@ != usage@,
        decreases requested.traits@.len() - k,
    {
        if str_eq(requested.traits[k].as_str(), usage) {
            return true;
        }
        k += 1;
    }
    false
}

} // verus!
