//! The statement model shared by stub ("given") and interaction ("expect")
//! declarations: argument matchers, return policies, repetition policies,
//! and the statement records the DSL parser produces. Types, paths and
//! expressions embedded in statements are carried as their token text, in
//! the canonical space-separated form the tokenizer produces.

use vstd::prelude::*;
use vstd::string::StringExecFns;

verus! {

/// How a statement matches the arguments of a call: not at all (for
/// methods without arguments), one predicate over the whole curried
/// argument tuple, or one predicate per argument position, conjoined.
#[derive(Clone)]
pub enum BehaviourMatcher {
    Void,
    Explicit(String),
    PerArgument(Vec<String>),
}

/// What a given-statement returns on a match: a value, the application of a
/// closure to the curried arguments, a delegation to a spied object (parsed
/// but not implemented), or a deliberate panic.
#[derive(Clone)]
pub enum Return {
    FromValue(String),
    FromCall(String),
    FromSpy,
    Panic,
}

/// How often a given-statement may match: a bounded number of times, or
/// unboundedly.
#[derive(Clone)]
pub enum GivenRepeat {
    Times(String),
    Always,
}

/// The acceptable match-count range of an expect-statement.
#[derive(Clone)]
pub enum ExpectRepeat {
    Times(String),
    AtLeast(String),
    AtMost(String),
    Between(String, String),
}

/// One parsed given-statement.
#[derive(Clone)]
pub struct GivenStatement {
    pub block_id: usize,
    pub stmt_id: usize,
    pub mock_var: String,
    pub ufc_trait: String,
    pub method: String,
    pub matcher: BehaviourMatcher,
    pub return_stmt: Return,
    pub repeat: GivenRepeat,
}

/// One parsed expect-statement.
#[derive(Clone)]
pub struct ExpectStatement {
    pub block_id: usize,
    pub stmt_id: usize,
    pub mock_var: String,
    pub ufc_trait: String,
    pub method: String,
    pub matcher: BehaviourMatcher,
    pub repeat: ExpectRepeat,
}

/// Whether two matchers carry the same content.
pub open spec fn spec_matcher_like(a: &BehaviourMatcher, b: &BehaviourMatcher) -> bool {
    match a {
        BehaviourMatcher::Void => b is Void,
        BehaviourMatcher::Explicit(x) => (b matches BehaviourMatcher::Explicit(y) && x@ == y@),
        BehaviourMatcher::PerArgument(xs) => (b matches BehaviourMatcher::PerArgument(ys)
            && xs@.map_values(|s: String| s@) == ys@.map_values(|s: String| s@)),
    }
}

/// Whether two return policies carry the same content.
pub open spec fn spec_return_like(a: &Return, b: &Return) -> bool {
    match a {
        Return::FromValue(x) => (b matches Return::FromValue(y) && x@ == y@),
        Return::FromCall(x) => (b matches Return::FromCall(y) && x@ == y@),
        Return::FromSpy => b is FromSpy,
        Return::Panic => b is Panic,
    }
}

/// Whether two given-repetition policies carry the same content.
pub open spec fn spec_given_repeat_like(a: &GivenRepeat, b: &GivenRepeat) -> bool {
    match a {
        GivenRepeat::Times(x) => (b matches GivenRepeat::Times(y) && x@ == y@),
        GivenRepeat::Always => b is Always,
    }
}

/// Whether two expect-repetition policies carry the same content.
pub open spec fn spec_expect_repeat_like(a: &ExpectRepeat, b: &ExpectRepeat) -> bool {
    match a {
        ExpectRepeat::Times(x) => (b matches ExpectRepeat::Times(y) && x@ == y@),
        ExpectRepeat::AtLeast(x) => (b matches ExpectRepeat::AtLeast(y) && x@ == y@),
        ExpectRepeat::AtMost(x) => (b matches ExpectRepeat::AtMost(y) && x@ == y@),
        ExpectRepeat::Between(xl, xh) => (b matches ExpectRepeat::Between(yl, yh) && xl@ == yl@
            && xh@ == yh@),
    }
}

/// Whether two given-statements carry the same content.
pub open spec fn spec_given_stmt_like(a: &GivenStatement, b: &GivenStatement) -> bool {
    &&& a.block_id == b.block_id
    &&& a.stmt_id == b.stmt_id
    &&& a.mock_var@ == b.mock_var@
    &&& a.ufc_trait@ == b.ufc_trait@
    &&& a.method@ == b.method@
    &&& spec_matcher_like(&a.matcher, &b.matcher)
    &&& spec_return_like(&a.return_stmt, &b.return_stmt)
    &&& spec_given_repeat_like(&a.repeat, &b.repeat)
}

/// Whether two expect-statements carry the same content.
pub open spec fn spec_expect_stmt_like(a: &ExpectStatement, b: &ExpectStatement) -> bool {
    &&& a.block_id == b.block_id
    &&& a.stmt_id == b.stmt_id
    &&& a.mock_var@ == b.mock_var@
    &&& a.ufc_trait@ == b.ufc_trait@
    &&& a.method@ == b.method@
    &&& spec_matcher_like(&a.matcher, &b.matcher)
    &&& spec_expect_repeat_like(&a.repeat, &b.repeat)
}

fn copy_strings(v: &Vec<String>) -> (r: Vec<String>)
    ensures
        r@.map_values(|s: String| s@) == v@.map_values(|s: String| s@),
{
    let mut r: Vec<String> = Vec::new();
    let mut i: usize = 0;
    while i < v.len()
        invariant
            i <= v@.len(),
            r@.len() == i,
            forall|k: int| 0 <= k < i ==> #[trigger] r@[k]@ == v@[k]@,
        decreases v@.len() - i,
    {
        r.push(v[i].clone());
        i += 1;
    }
    proof {
        assert(r@.map_values(|s: String| s@) =~= v@.map_values(|s: String| s@));
    }
    r
}

fn copy_matcher(m: &BehaviourMatcher) -> (r: BehaviourMatcher)
    ensures
        spec_matcher_like(&r, m),
{
    match m {
        BehaviourMatcher::Void => BehaviourMatcher::Void,
        BehaviourMatcher::Explicit(e) => BehaviourMatcher::Explicit(e.clone()),
        BehaviourMatcher::PerArgument(es) => BehaviourMatcher::PerArgument(copy_strings(es)),
    }
}

impl GivenStatement {
    /// A content-faithful copy of the statement.
    pub fn clone_statement(&self) -> (r: GivenStatement)
        ensures
            spec_given_stmt_like(&r, self),
    {
        GivenStatement {
            block_id: self.block_id,
            stmt_id: self.stmt_id,
            mock_var: self.mock_var.clone(),
            ufc_trait: self.ufc_trait.clone(),
            method: self.method.clone(),
            matcher: copy_matcher(&self.matcher),
            return_stmt: match &self.return_stmt {
                Return::FromValue(e) => Return::FromValue(e.clone()),
                Return::FromCall(e) => Return::FromCall(e.clone()),
                Return::FromSpy => Return::FromSpy,
                Return::Panic => Return::Panic,
            },
            repeat: match &self.repeat {
                GivenRepeat::Times(e) => GivenRepeat::Times(e.clone()),
                GivenRepeat::Always => GivenRepeat::Always,
            },
        }
    }
}

impl ExpectStatement {
    /// A content-faithful copy of the statement.
    pub fn clone_statement(&self) -> (r: ExpectStatement)
        ensures
            spec_expect_stmt_like(&r, self),
    {
        ExpectStatement {
            block_id: self.block_id,
            stmt_id: self.stmt_id,
            mock_var: self.mock_var.clone(),
            ufc_trait: self.ufc_trait.clone(),
            method: self.method.clone(),
            matcher: copy_matcher(&self.matcher),
            repeat: match &self.repeat {
                ExpectRepeat::Times(e) => ExpectRepeat::Times(e.clone()),
                ExpectRepeat::AtLeast(e) => ExpectRepeat::AtLeast(e.clone()),
                ExpectRepeat::AtMost(e) => ExpectRepeat::AtMost(e.clone()),
                ExpectRepeat::Between(lo, hi) => ExpectRepeat::Between(lo.clone(), hi.clone()),
            },
        }
    }
}

/// The text of a comma-separated list, e.g. `a, b, c`.
pub open spec fn spec_comma_joined(items: Seq<Seq<char>>) -> Seq<char>
    decreases items.len(),
{
    if items.len() == 0 {
        Seq::empty()
    } else if items.len() == 1 {
        items[0]
    } else {
        spec_comma_joined(items.drop_last()) + ", "@ + items.last()
    }
}

/// Joins strings with `", "` between them.
pub fn comma_join(items: &Vec<String>) -> (r: String)
    ensures
        r@ == spec_comma_joined(items@.map_values(|s: String| s@)),
{
    let ghost views = items@.map_values(|s: String| s@);
    let mut r = String::new();
    let mut i: usize = 0;
    while i < items.len()
        invariant
            i <= items.len(),
            views == items@.map_values(|s: String| s@),
            views.len() == items@.len(),
            r@ == spec_comma_joined(views.take(i as int)),
        decreases items.len() - i,
    {
        if i > 0 {
            r.append(", ");
        }
        r.append(items[i].as_str());
        proof {
            let taken = views.take(i + 1);
            assert(taken.drop_last() =~= views.take(i as int));
            assert(taken.last() == views[i as int]);
            assert(r@ == spec_comma_joined(taken));
        }
        i += 1;
    }
    proof {
        assert(views.take(views.len() as int) =~= views);
    }
    r
}

/// The rendering of a matcher: empty for `Void`, the predicate between
/// spaces for `Explicit`, the parenthesized comma-joined predicates for
/// `PerArgument`.
pub open spec fn spec_matcher_text(m: &BehaviourMatcher) -> Seq<char> {
    match m {
        BehaviourMatcher::Void => Seq::empty(),
        BehaviourMatcher::Explicit(e) => " "@ + e@ + " "@,
        BehaviourMatcher::PerArgument(es) => "("@ + spec_comma_joined(
            es@.map_values(|s: String| s@),
        ) + ")"@,
    }
}

fn matcher_text(m: &BehaviourMatcher) -> (r: String)
    ensures
        r@ == spec_matcher_text(m),
{
    match m {
        BehaviourMatcher::Void => String::new(),
        BehaviourMatcher::Explicit(e) => {
            let mut r = String::from_str(" ");
            r.append(e.as_str());
            r.append(" ");
            r
        },
        BehaviourMatcher::PerArgument(es) => {
            let mut r = String::from_str("(");
            let joined = comma_join(es);
            r.append(joined.as_str());
            r.append(")");
            r
        },
    }
}

/// The rendering of a return policy. A spy return has no rendering: it is
/// rejected before any statement holding it is rendered.
pub open spec fn spec_return_text(r: &Return) -> Seq<char> {
    match r {
        Return::FromValue(e) => "then_return "@ + e@,
        Return::FromCall(e) => "then_return_from "@ + e@,
        Return::FromSpy => Seq::empty(),
        Return::Panic => "then_panic"@,
    }
}

fn return_text(r: &Return) -> (t: String)
    requires
        !(r is FromSpy),
    ensures
        t@ == spec_return_text(r),
{
    match r {
        Return::FromValue(e) => {
            let mut t = String::from_str("then_return ");
            t.append(e.as_str());
            t
        },
        Return::FromCall(e) => {
            let mut t = String::from_str("then_return_from ");
            t.append(e.as_str());
            t
        },
        Return::FromSpy => String::new(),
        Return::Panic => String::from_str("then_panic"),
    }
}

/// The rendering of a given-repetition policy.
pub open spec fn spec_given_repeat_text(r: &GivenRepeat) -> Seq<char> {
    match r {
        GivenRepeat::Times(e) => "times "@ + e@,
        GivenRepeat::Always => "always"@,
    }
}

fn given_repeat_text(r: &GivenRepeat) -> (t: String)
    ensures
        t@ == spec_given_repeat_text(r),
{
    match r {
        GivenRepeat::Times(e) => {
            let mut t = String::from_str("times ");
            t.append(e.as_str());
            t
        },
        GivenRepeat::Always => String::from_str("always"),
    }
}

/// The rendering of an expect-repetition policy.
pub open spec fn spec_expect_repeat_text(r: &ExpectRepeat) -> Seq<char> {
    match r {
        ExpectRepeat::Times(e) => "times "@ + e@,
        ExpectRepeat::AtLeast(e) => "at_least "@ + e@,
        ExpectRepeat::AtMost(e) => "at_most "@ + e@,
        ExpectRepeat::Between(lo, hi) => "between "@ + lo@ + ", "@ + hi@,
    }
}

fn expect_repeat_text(r: &ExpectRepeat) -> (t: String)
    ensures
        t@ == spec_expect_repeat_text(r),
{
    match r {
        ExpectRepeat::Times(e) => {
            let mut t = String::from_str("times ");
            t.append(e.as_str());
            t
        },
        ExpectRepeat::AtLeast(e) => {
            let mut t = String::from_str("at_least ");
            t.append(e.as_str());
            t
        },
        ExpectRepeat::AtMost(e) => {
            let mut t = String::from_str("at_most ");
            t.append(e.as_str());
            t
        },
        ExpectRepeat::Between(lo, hi) => {
            let mut t = String::from_str("between ");
            t.append(lo.as_str());
            t.append(", ");
            t.append(hi.as_str());
            t
        },
    }
}

/// The human-readable rendering of a given-statement: a pure function of
/// the statement, so repeated renderings of one statement are identical.
pub open spec fn spec_describe_given(s: &GivenStatement) -> Seq<char> {
    s.ufc_trait@ + "::"@ + s.method@ + spec_matcher_text(&s.matcher) + " "@ + spec_return_text(
        &s.return_stmt,
    ) + " "@ + spec_given_repeat_text(&s.repeat)
}

/// The human-readable rendering of an expect-statement.
pub open spec fn spec_describe_expect(s: &ExpectStatement) -> Seq<char> {
    s.ufc_trait@ + "::"@ + s.method@ + spec_matcher_text(&s.matcher) + " "@
        + spec_expect_repeat_text(&s.repeat)
}

impl GivenStatement {
    /// The rendered trait reference of the statement.
    pub fn trait_name(&self) -> (r: String)
        ensures
            r@ == self.ufc_trait@,
    {
        self.ufc_trait.clone()
    }

    /// The method name of the statement.
    pub fn method_name(&self) -> (r: String)
        ensures
            r@ == self.method@,
    {
        self.method.clone()
    }

    /// Renders the statement for diagnostics. A statement with a spy return
    /// is rejected before rendering, so none is ever rendered.
    pub fn describe(&self) -> (r: String)
        requires
            !(self.return_stmt is FromSpy),
        ensures
            r@ == spec_describe_given(self),
    {
        let mut r = self.ufc_trait.clone();
        r.append("::");
        r.append(self.method.as_str());
        let mt = matcher_text(&self.matcher);
        r.append(mt.as_str());
        r.append(" ");
        let rt = return_text(&self.return_stmt);
        r.append(rt.as_str());
        r.append(" ");
        let pt = given_repeat_text(&self.repeat);
        r.append(pt.as_str());
        r
    }
}

impl ExpectStatement {
    /// The rendered trait reference of the statement.
    pub fn trait_name(&self) -> (r: String)
        ensures
            r@ == self.ufc_trait@,
    {
        self.ufc_trait.clone()
    }

    /// The method name of the statement.
    pub fn method_name(&self) -> (r: String)
        ensures
            r@ == self.method@,
    {
        self.method.clone()
    }

    /// Renders the statement for diagnostics.
    pub fn describe(&self) -> (r: String)
        ensures
            r@ == spec_describe_expect(self),
    {
        let mut r = self.ufc_trait.clone();
        r.append("::");
        r.append(self.method.as_str());
        let mt = matcher_text(&self.matcher);
        r.append(mt.as_str());
        r.append(" ");
        let pt = expect_repeat_text(&self.repeat);
        r.append(pt.as_str());
        r
    }
}

/// Rendering statements is stable: two statements with the same content
/// render to the same text, however often each is rendered.
pub proof fn lemma_rendering_stable(a: &GivenStatement, b: &GivenStatement)
    requires
        a.ufc_trait@ == b.ufc_trait@,
        a.method@ == b.method@,
        spec_matcher_text(&a.matcher) == spec_matcher_text(&b.matcher),
        spec_return_text(&a.return_stmt) == spec_return_text(&b.return_stmt),
        spec_given_repeat_text(&a.repeat) == spec_given_repeat_text(&b.repeat),
    ensures
        spec_describe_given(a) == spec_describe_given(b),
{
}

/// One field of a block-scoped binding: `bind NAME: TYPE = EXPR`.
#[derive(Clone)]
pub struct BindingField {
    pub name: String,
    pub ty: String,
    pub initializer: String,
}

/// A named, block-scoped set of captured values shared by the behaviours
/// created in one DSL block.
#[derive(Clone)]
pub struct Binding {
    pub block_id: usize,
    pub fields: Vec<BindingField>,
}

/// One argument of a mockable trait method.
#[derive(Clone)]
pub enum MethodArg {
    SelfValue,
    SelfRef,
    SelfMutRef,
    Typed(String),
}

/// The signature of one mockable trait method, with argument and return
/// types as (possibly generic) token text.
#[derive(Clone)]
pub struct MethodSig {
    pub name: String,
    pub args: Vec<MethodArg>,
    pub ret: Option<String>,
}

/// One item of a mockable trait.
#[derive(Clone)]
pub enum TraitItem {
    Method(MethodSig),
    AssocType(String),
}

/// The shape of a mockable trait: safety qualifier, generic parameter
/// names, generic bounds and ordered items. Immutable once registered.
#[derive(Clone)]
pub struct TraitInfo {
    pub is_unsafe: bool,
    pub generics: Vec<String>,
    pub generic_bounds: Vec<String>,
    pub items: Vec<TraitItem>,
}

impl TraitInfo {
    /// Bundles the shape of a mockable trait.
    pub fn new(
        is_unsafe: bool,
        generics: Vec<String>,
        generic_bounds: Vec<String>,
        items: Vec<TraitItem>,
    ) -> (r: TraitInfo)
        ensures
            r.is_unsafe == is_unsafe,
            r.generics == generics,
            r.generic_bounds == generic_bounds,
            r.items == items,
    {
        TraitInfo { is_unsafe, generics, generic_bounds, items }
    }

    /// Whether one of the trait's methods has the given name.
    pub fn has_method(&self, name: &str) -> (r: bool)
        ensures
            r == spec_has_method(self, name@),
    {
        let mut k: usize = 0;
        while k < self.items.len()
            invariant
                k <= self.items@.len(),
                forall|l: int|
                    0 <= l < k ==> !((#[trigger] self.items@[l]) matches TraitItem::Method(sig)
                        && sig.name@ == name@),
            decreases self.items@.len() - k,
        {
            match &self.items[k] {
                TraitItem::Method(sig) => {
                    if crate::strutil::str_eq(sig.name.as_str(), name) {
                        proof {
                            assert((self.items@[k as int]) matches TraitItem::Method(s2)
                                && s2.name@ == name@);
                        }
                        return true;
                    }
                },
                TraitItem::AssocType(_) => {},
            }
            k += 1;
        }
        false
    }
}

/// Whether one of a trait's methods has the given name.
pub open spec fn spec_has_method(info: &TraitInfo, name: Seq<char>) -> bool {
    exists|k: int|
        0 <= k < info.items@.len() && ((#[trigger] info.items@[k]) matches TraitItem::Method(sig)
            && sig.name@ == name)
}

/// Whether two method arguments carry the same content.
pub open spec fn spec_method_arg_like(a: &MethodArg, b: &MethodArg) -> bool {
    match a {
        MethodArg::SelfValue => b is SelfValue,
        MethodArg::SelfRef => b is SelfRef,
        MethodArg::SelfMutRef => b is SelfMutRef,
        MethodArg::Typed(x) => (b matches MethodArg::Typed(y) && x@ == y@),
    }
}

/// Whether two method signatures carry the same content.
pub open spec fn spec_method_sig_like(a: &MethodSig, b: &MethodSig) -> bool {
    &&& a.name@ == b.name@
    &&& a.args@.len() == b.args@.len()
    &&& forall|k: int|
        0 <= k < a.args@.len() ==> spec_method_arg_like(&(#[trigger] a.args@[k]), &b.args@[k])
    &&& (match a.ret {
        Some(x) => (b.ret matches Some(y) && x@ == y@),
        None => b.ret is None,
    })
}

/// Whether two trait items carry the same content.
pub open spec fn spec_trait_item_like(a: &TraitItem, b: &TraitItem) -> bool {
    match a {
        TraitItem::Method(x) => (b matches TraitItem::Method(y) && spec_method_sig_like(&x, &y)),
        TraitItem::AssocType(x) => (b matches TraitItem::AssocType(y) && x@ == y@),
    }
}

/// Whether two trait shapes carry the same content.
pub open spec fn spec_trait_info_like(a: &TraitInfo, b: &TraitInfo) -> bool {
    &&& a.is_unsafe == b.is_unsafe
    &&& a.generics@.map_values(|s: String| s@) == b.generics@.map_values(|s: String| s@)
    &&& a.generic_bounds@.map_values(|s: String| s@) == b.generic_bounds@.map_values(
        |s: String| s@,
    )
    &&& a.items@.len() == b.items@.len()
    &&& forall|k: int|
        0 <= k < a.items@.len() ==> spec_trait_item_like(&(#[trigger] a.items@[k]), &b.items@[k])
}

/// One `new_mock!` request: the trait references to implement, extra
/// attributes for the generated struct, and an optional explicit type name.
#[derive(Clone)]
pub struct RequestedMock {
    pub traits: Vec<String>,
    pub attributes: Vec<String>,
    pub maybe_type_name: Option<String>,
}

} // verus!

verus! {

/// The position of a key in a trait registry, or -1.
pub open spec fn trait_key_index(entries: Seq<(String, TraitInfo)>, key: Seq<char>) -> int
    decreases entries.len(),
{
    if entries.len() == 0 {
        -1
    } else if entries[0].0@ == key {
        0
    } else {
        let r = trait_key_index(entries.drop_first(), key);
        if r == -1 {
            -1
        } else {
            r + 1
        }
    }
}

/// The registry of mockable traits, keyed by fully qualified trait path
/// (so same-named traits in different modules stay apart). Insertion is
/// idempotent by key: re-registering a path replaces its shape.
pub struct MockableTraits {
    entries: Vec<(String, TraitInfo)>,
}

proof fn lemma_trait_key_index(entries: Seq<(String, TraitInfo)>, key: Seq<char>)
    ensures
        trait_key_index(entries, key) == -1 ==> forall|k: int|
            0 <= k < entries.len() ==> (#[trigger] entries[k]).0@ != key,
        trait_key_index(entries, key) != -1 ==> {
            let i = trait_key_index(entries, key);
            &&& 0 <= i < entries.len()
            &&& entries[i].0@ == key
            &&& forall|k: int| 0 <= k < i ==> (#[trigger] entries[k]).0@ != key
        },
    decreases entries.len(),
{
    if entries.len() > 0 {
        let rest = entries.drop_first();
        lemma_trait_key_index(rest, key);
        if trait_key_index(entries, key) == -1 {
            assert forall|k: int| 0 <= k < entries.len() implies (#[trigger] entries[k]).0@
                != key by {
                if k > 0 {
                    assert(rest[k - 1] == entries[k]);
                }
            }
        } else {
            let i = trait_key_index(entries, key);
            if i > 0 {
                assert(rest[i - 1] == entries[i]);
                assert forall|k: int| 0 <= k < i implies (#[trigger] entries[k]).0@ != key by {
                    if k > 0 {
                        assert(rest[k - 1] == entries[k]);
                    }
                }
            }
        }
    }
}

proof fn lemma_trait_key_index_at(entries: Seq<(String, TraitInfo)>, key: Seq<char>, k: int)
    requires
        0 <= k < entries.len(),
        entries[k].0@ == key,
        forall|l: int| 0 <= l < k ==> (#[trigger] entries[l]).0@ != key,
    ensures
        trait_key_index(entries, key) == k,
    decreases entries.len(),
{
    if k > 0 {
        lemma_trait_key_index_at(entries.drop_first(), key, k - 1);
    }
}

impl MockableTraits {
    /// The registered (path, shape) pairs, in registration order.
    pub closed spec fn entries_spec(&self) -> Seq<(String, TraitInfo)> {
        self.entries@
    }

    /// Whether a path is registered.
    pub open spec fn spec_contains(&self, key: Seq<char>) -> bool {
        trait_key_index(self.entries_spec(), key) != -1
    }

    /// The shape stored under a registered path.
    pub open spec fn spec_info_of(&self, key: Seq<char>) -> TraitInfo {
        self.entries_spec()[trait_key_index(self.entries_spec(), key)].1
    }

    /// The registered paths, in registration order.
    pub open spec fn spec_keys(&self) -> Seq<Seq<char>> {
        self.entries_spec().map_values(|e: (String, TraitInfo)| e.0@)
    }

    /// An empty registry.
    pub fn new() -> (r: Self)
        ensures
            r.entries_spec() == Seq::<(String, TraitInfo)>::empty(),
    {
        MockableTraits { entries: Vec::new() }
    }

    fn position_of(&self, key: &str) -> (r: Option<usize>)
        ensures
            (match r {
                Some(i) => i as int == trait_key_index(self.entries_spec(), key@),
                None => trait_key_index(self.entries_spec(), key@) == -1,
            }),
    {
        let ghost u = key@;
        let mut i: usize = 0;
        while i < self.entries.len()
            invariant
                u == key@,
                i <= self.entries@.len(),
                forall|k: int| 0 <= k < i ==> (#[trigger] self.entries@[k]).0@ != u,
            decreases self.entries@.len() - i,
        {
            if crate::strutil::str_eq(self.entries[i].0.as_str(), key) {
                proof {
                    lemma_trait_key_index_at(self.entries@, u, i as int);
                }
                return Some(i);
            }
            i += 1;
        }
        proof {
            lemma_trait_key_index(self.entries@, u);
        }
        None
    }

    /// Registers a trait's shape under its qualified path; a later
    /// registration of the same path replaces the shape.
    pub fn insert(&mut self, key: &str, info: TraitInfo)
        ensures
            final(self).spec_contains(key@),
            final(self).spec_info_of(key@) == info,
            forall|q: Seq<char>|
                old(self).spec_contains(q) ==> #[trigger] final(self).spec_contains(q),
    {
        let ghost stored = info;
        let ghost s1 = self.entries@;
        match self.position_of(key) {
            Some(i) => {
                proof {
                    lemma_trait_key_index(s1, key@);
                }
                let _ = self.entries.remove(i);
                self.entries.insert(i, (key.to_owned(), info));
                proof {
                    assert(self.entries@[i as int].0@ == key@);
                    assert forall|q: Seq<char>| trait_key_index(s1, q) != -1 implies #[trigger]
                        trait_key_index(self.entries@, q) != -1 by {
                        lemma_trait_key_index(s1, q);
                        let j = trait_key_index(s1, q);
                        if j < i {
                            assert(self.entries@[j] == s1[j]);
                            lemma_trait_key_index_at(self.entries@, q, j);
                        } else if j == i {
                            assert(q == key@);
                            lemma_trait_key_index(self.entries@, q);
                            if trait_key_index(self.entries@, q) == -1 {
                                assert(self.entries@[i as int].0@ != q);
                            }
                        } else {
                            lemma_trait_key_index(self.entries@, q);
                            if trait_key_index(self.entries@, q) == -1 {
                                assert(self.entries@[j] == s1[j]);
                            }
                        }
                    }
                    lemma_trait_key_index(self.entries@, key@);
                    if trait_key_index(self.entries@, key@) == -1 {
                        assert(self.entries@[i as int].0@ != key@);
                    }
                    lemma_trait_key_index_at(self.entries@, key@, i as int);
                    assert(self.entries@[i as int].1 == stored);
                }
            },
            None => {
                self.entries.push((key.to_owned(), info));
                proof {
                    assert(self.entries@[s1.len() as int].0@ == key@);
                    lemma_trait_key_index(self.entries@, key@);
                    if trait_key_index(self.entries@, key@) == -1 {
                        assert(self.entries@[s1.len() as int].0@ != key@);
                    }
                    assert forall|q: Seq<char>| trait_key_index(s1, q) != -1 implies #[trigger]
                        trait_key_index(self.entries@, q) != -1 by {
                        lemma_trait_key_index(s1, q);
                        let j = trait_key_index(s1, q);
                        assert(self.entries@[j] == s1[j]);
                        lemma_trait_key_index(self.entries@, q);
                        if trait_key_index(self.entries@, q) == -1 {
                            assert(self.entries@[j].0@ != q);
                        }
                    }
                    lemma_trait_key_index(s1, key@);
                    assert forall|k: int| 0 <= k < s1.len() implies (#[trigger] s1[k]).0@
                        != key@ by {}
                    lemma_trait_key_index_at(self.entries@, key@, s1.len() as int);
                    assert(self.entries@[s1.len() as int].1 == stored);
                }
            },
        }
    }

    /// Looks a registered trait up by its qualified path; a present answer
    /// is exactly the shape stored under that path.
    pub fn get(&self, key: &str) -> (r: Option<&TraitInfo>)
        ensures
            r is Some <==> self.spec_contains(key@),
            r matches Some(info) ==> *info == self.spec_info_of(key@),
    {
        match self.position_of(key) {
            Some(i) => {
                proof {
                    lemma_trait_key_index(self.entries_spec(), key@);
                }
                Some(&self.entries[i].1)
            },
            None => None,
        }
    }

    /// The registered paths joined with `", "`, for error messages that
    /// enumerate the known traits.
    pub fn keys_joined(&self) -> (r: String)
        ensures
            r@ == spec_comma_joined(self.spec_keys()),
    {
        let mut names: Vec<String> = Vec::new();
        let mut i: usize = 0;
        while i < self.entries.len()
            invariant
                i <= self.entries@.len(),
                names@.len() == i,
                forall|k: int| 0 <= k < i ==> #[trigger] names@[k]@ == self.spec_keys()[k],
            decreases self.entries@.len() - i,
        {
            names.push(self.entries[i].0.clone());
            i += 1;
        }
        let r = crate::data::comma_join(&names);
        proof {
            assert(names@.map_values(|s: String| s@) =~= self.spec_keys());
        }
        r
    }
}

} // verus!
