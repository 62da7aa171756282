//! Resolution of trait references against the registry: splitting a trait
//! usage into its base path, type arguments and associated-type bindings,
//! instantiating a registered generic trait for one concrete usage, and
//! resolving which requested trait a statement addresses.

use vstd::prelude::*;
use vstd::string::StrSliceExecFns;
use vstd::string::StringExecFns;
use crate::data::MethodArg;
use crate::data::MethodSig;
use crate::data::MockableTraits;
use crate::data::RequestedMock;
use crate::data::TraitInfo;
use crate::strutil::str_eq;
use crate::strutil::usize_to_string;
use crate::data::spec_has_method;
use crate::strutil::spec_decimal;
use crate::tokens::Token;
use crate::tokens::join_tokens;
use crate::tokens::spec_space_joined;
use crate::tokens::spec_token_texts;
use crate::tokens::token_texts;
use crate::tokens::tokenize;
use crate::type_param_mapper::spec_instantiated;
use crate::type_param_mapper::TypeParamMapper;
use crate::unifier::usage_index;

verus! {

/// A registered trait resolved for one concrete usage: the usage text, the
/// registered shape, and the parameter substitution the usage induces.
pub struct InstantiatedTrait {
    pub trait_ty: String,
    pub info: TraitInfo,
    pub mapper: TypeParamMapper,
}

/// The position of the first `<` among the token texts, or the token
/// count when there is no generic argument list.
pub open spec fn spec_first_lt(texts: Seq<Seq<char>>) -> int
    decreases texts.len(),
{
    if texts.len() == 0 {
        0
    } else if texts[0] == "<"@ {
        0
    } else {
        1 + spec_first_lt(texts.drop_first())
    }
}

/// The base path of a trait usage text: its tokens up to the generic
/// argument list, space-joined. The usage `Trait < i32 >` has the base
/// path `Trait`.
pub open spec fn spec_base_path(usage: Seq<char>) -> Seq<char> {
    spec_space_joined(spec_token_texts(usage).take(spec_first_lt(spec_token_texts(usage))))
}

proof fn lemma_first_lt(texts: Seq<Seq<char>>, i: int)
    requires
        0 <= i <= texts.len(),
        i < texts.len() ==> texts[i] == "<"@,
        i == texts.len() ==> forall|k: int| 0 <= k < texts.len() ==> texts[k] != "<"@,
        forall|k: int| 0 <= k < i ==> texts[k] != "<"@,
    ensures
        spec_first_lt(texts) == i,
    decreases texts.len(),
{
    if texts.len() > 0 && i > 0 {
        let rest = texts.drop_first();
        assert(forall|k: int| 0 <= k < rest.len() ==> rest[k] == texts[k + 1]);
        lemma_first_lt(rest, i - 1);
    }
}

fn first_lt_index(tokens: &Vec<Token>) -> (r: usize)
    ensures
        r as int == spec_first_lt(token_texts(tokens@)),
        r <= tokens@.len(),
{
    let mut i: usize = 0;
    while i < tokens.len()
        invariant
            i <= tokens@.len(),
            forall|k: int| 0 <= k < i ==> token_texts(tokens@)[k] != "<"@,
        decreases tokens@.len() - i,
    {
        proof {
            assert(token_texts(tokens@)[i as int] == tokens@[i as int].text@);
        }
        if str_eq(tokens[i].text.as_str(), "<") {
            proof {
                lemma_first_lt(token_texts(tokens@), i as int);
            }
            return i;
        }
        i += 1;
    }
    proof {
        lemma_first_lt(token_texts(tokens@), tokens@.len() as int);
    }
    i
}

/// The base path of a trait usage: its text up to the generic argument
/// list, e.g. the usage `Trait < i32 >` has the base path `Trait`.
pub fn strip_generics(trait_path: &str) -> (r: String)
    ensures
        r@ == spec_base_path(trait_path@),
{
    let tokens = tokenize(trait_path);
    let cut = first_lt_index(&tokens);
    let r = join_tokens(&tokens, 0, cut);
    proof {
        assert(token_texts(tokens@.subrange(0, cut as int)) =~= token_texts(tokens@).take(
            cut as int,
        ));
    }
    r
}

/// The pieces of a trait usage's angle-bracketed argument list: the type
/// arguments in order, and the associated-type bindings (`Assoc = Ty`) as
/// (name, type) pairs, split at the top-level commas of the argument list
/// (an item with a top-level `=` is a binding). A usage without an
/// argument list has neither.
pub fn extract_parameterized_types_from_trait_use(trait_path: &str) -> (r: (
    Vec<String>,
    Vec<(String, String)>,
))
    ensures
        spec_first_lt(spec_token_texts(trait_path@)) == spec_token_texts(trait_path@).len()
            ==> r.0@.len() == 0 && r.1@.len() == 0,
{
    let tokens = tokenize(trait_path);
    let mut type_args: Vec<String> = Vec::new();
    let mut bindings: Vec<(String, String)> = Vec::new();
    let open = first_lt_index(&tokens);
    if open >= tokens.len() {
        return (type_args, bindings);
    }
    proof {
        assert(spec_first_lt(spec_token_texts(trait_path@)) < spec_token_texts(
            trait_path@,
        ).len());
    }

    let mut i = open + 1;
    let mut item_start = i;
    let mut depth: usize = 0;
    let mut eq_at: Option<usize> = None;
    while i < tokens.len()
        invariant
            spec_first_lt(spec_token_texts(trait_path@)) < spec_token_texts(trait_path@).len(),
            open < item_start <= i <= tokens@.len(),
            (match eq_at {
                Some(e) => item_start <= e < i,
                None => true,
            }),
        decreases tokens@.len() - i,
    {
        let is_closer = str_eq(tokens[i].text.as_str(), ">") || str_eq(
            tokens[i].text.as_str(),
            ")",
        ) || str_eq(tokens[i].text.as_str(), "]") || str_eq(tokens[i].text.as_str(), "}");
        let is_opener = str_eq(tokens[i].text.as_str(), "<") || str_eq(
            tokens[i].text.as_str(),
            "(",
        ) || str_eq(tokens[i].text.as_str(), "[") || str_eq(tokens[i].text.as_str(), "{");
        let is_item_end = depth == 0 && (str_eq(tokens[i].text.as_str(), ",") || (is_closer
            && str_eq(tokens[i].text.as_str(), ">")));
        if is_item_end {
            match eq_at {
                Some(e) => {
                    let name = join_tokens(&tokens, item_start, e);
                    let ty = join_tokens(&tokens, e + 1, i);
                    bindings.push((name, ty));
                },
                None => {
                    if item_start < i {
                        type_args.push(join_tokens(&tokens, item_start, i));
                    }
                },
            }
            if str_eq(tokens[i].text.as_str(), ">") {
                return (type_args, bindings);
            }
            item_start = i + 1;
            eq_at = None;
        } else if is_opener {
            if depth < usize::MAX {
                depth = depth + 1;
            }
        } else if is_closer {
            if depth > 0 {
                depth = depth - 1;
            }
        } else if depth == 0 && str_eq(tokens[i].text.as_str(), "=") {
            if eq_at.is_none() {
                eq_at = Some(i);
            }
        }
        i += 1;
    }
    (type_args, bindings)
}

/// Resolves a trait usage against the registry: looks the base path up and
/// builds the substitution that maps the registered generic parameters, in
/// declaration order, to the usage's type arguments, in argument order.
/// A usage whose base path is not registered is an error naming all
/// registered traits.
pub fn create_instantiated_traits(trait_path: &str, mockable_traits: &MockableTraits) -> (r: Result<
    InstantiatedTrait,
    String,
>)
    ensures
        r is Ok <==> mockable_traits.spec_contains(spec_base_path(trait_path@)),
        r matches Ok(it) ==> it.trait_ty@ == trait_path@ && crate::data::spec_trait_info_like(
            &it.info,
            &mockable_traits.spec_info_of(spec_base_path(trait_path@)),
        ) && it.mapper@.len() <= it.info.generics@.len() && (forall|l: int|
            0 <= l < it.mapper@.len() ==> (#[trigger] it.mapper@[l]).0
                == it.info.generics@[l]@),
{
    let base = strip_generics(trait_path);
    match mockable_traits.get(base.as_str()) {
        None => {
            let mut msg = String::from_str(
                "All mocked traits must be defined using `mockable`: `",
            );
            msg.append(trait_path);
            msg.append("` not found in ");
            let keys = mockable_traits.keys_joined();
            msg.append(keys.as_str());
            Err(msg)
        },
        Some(info) => {
            let (type_args, _bindings) = extract_parameterized_types_from_trait_use(trait_path);
            let mut mapper = TypeParamMapper::new();
            let mut k: usize = 0;
            let n = if info.generics.len() < type_args.len() {
                info.generics.len()
            } else {
                type_args.len()
            };
            proof {
                assert(mapper@ =~= Seq::<(Seq<char>, Seq<char>)>::empty());
            }
            while k < n
                invariant
                    n <= info.generics@.len(),
                    n <= type_args@.len(),
                    k <= n,
                    mapper@.len() == k,
                    forall|l: int|
                        0 <= l < k ==> (#[trigger] mapper@[l]) == (
                            info.generics@[l]@,
                            type_args@[l]@,
                        ),
                decreases n - k,
            {
                mapper.add_mapping(info.generics[k].as_str(), type_args[k].as_str());
                k += 1;
            }
            let info2 = TraitInfo {
                is_unsafe: info.is_unsafe,
                generics: clone_strings(&info.generics),
                generic_bounds: clone_strings(&info.generic_bounds),
                items: clone_items(&info.items),
            };
            proof {
                assert(info2.generics@.map_values(|s: String| s@) =~= info.generics@.map_values(
                    |s: String| s@,
                ));
                assert(info2.generic_bounds@.map_values(|s: String| s@)
                    =~= info.generic_bounds@.map_values(|s: String| s@));
                assert(crate::data::spec_trait_info_like(&info2, info));
                assert(forall|l: int|
                    0 <= l < mapper@.len() ==> (#[trigger] mapper@[l]).0
                        == info2.generics@[l]@);
            }
            Ok(InstantiatedTrait { trait_ty: trait_path.to_owned(), info: info2, mapper })
        },
    }
}

fn clone_strings(v: &Vec<String>) -> (r: Vec<String>)
    ensures
        r@.len() == v@.len(),
        forall|k: int| 0 <= k < v@.len() ==> #[trigger] r@[k]@ == v@[k]@,
{
    let mut r: Vec<String> = Vec::new();
    let mut i: usize = 0;
    while i < v.len()
        invariant
            i <= v@.len(),
            r@.len() == i,
            forall|k: int| 0 <= k < i ==> #[trigger] r@[k]@ == v@[k]@,
        decreases v@.len() - i,
    {
        r.push(v[i].clone());
        i += 1;
    }
    r
}

fn clone_items(v: &Vec<crate::data::TraitItem>) -> (r: Vec<crate::data::TraitItem>)
    ensures
        r@.len() == v@.len(),
        forall|k: int|
            0 <= k < v@.len() ==> crate::data::spec_trait_item_like(
                &(#[trigger] r@[k]),
                &v@[k],
            ),
{
    let mut r: Vec<crate::data::TraitItem> = Vec::new();
    let mut i: usize = 0;
    while i < v.len()
        invariant
            i <= v@.len(),
            r@.len() == i,
            forall|k: int|
                0 <= k < i ==> crate::data::spec_trait_item_like(&(#[trigger] r@[k]), &v@[k]),
        decreases v@.len() - i,
    {
        match &v[i] {
            crate::data::TraitItem::Method(sig) => {
                let mut args: Vec<MethodArg> = Vec::new();
                let mut j: usize = 0;
                while j < sig.args.len()
                    invariant
                        j <= sig.args@.len(),
                        args@.len() == j,
                        forall|k: int|
                            0 <= k < j ==> crate::data::spec_method_arg_like(
                                &(#[trigger] args@[k]),
                                &sig.args@[k],
                            ),
                    decreases sig.args@.len() - j,
                {
                    match &sig.args[j] {
                        MethodArg::SelfValue => args.push(MethodArg::SelfValue),
                        MethodArg::SelfRef => args.push(MethodArg::SelfRef),
                        MethodArg::SelfMutRef => args.push(MethodArg::SelfMutRef),
                        MethodArg::Typed(t) => args.push(MethodArg::Typed(t.clone())),
                    }
                    j += 1;
                }
                let ret = match &sig.ret {
                    Some(t) => Some(t.clone()),
                    None => None,
                };
                r.push(
                    crate::data::TraitItem::Method(
                        MethodSig { name: sig.name.clone(), args, ret },
                    ),
                );
            },
            crate::data::TraitItem::AssocType(n) => {
                r.push(crate::data::TraitItem::AssocType(n.clone()));
            },
        }
        i += 1;
    }
    r
}

/// How many of the first `upto` arguments are value (non-self) arguments.
pub open spec fn spec_typed_count(args: Seq<MethodArg>, upto: int) -> int
    decreases upto,
{
    if upto <= 0 {
        0
    } else {
        spec_typed_count(args, upto - 1) + (if args[upto - 1] is Typed {
            1int
        } else {
            0int
        })
    }
}

/// The rendering of one argument of an instantiated method signature:
/// `self` arguments keep their form; value argument number `n` (counting
/// from one) becomes `argn : TYPE` with its type instantiated.
pub open spec fn spec_typed_argument(
    args: Seq<MethodArg>,
    k: int,
    pairs: Seq<(Seq<char>, Seq<char>)>,
) -> Seq<char> {
    match args[k] {
        MethodArg::SelfValue => "self"@,
        MethodArg::SelfRef => "& self"@,
        MethodArg::SelfMutRef => "& mut self"@,
        MethodArg::Typed(t) => "arg"@ + spec_decimal(1 + spec_typed_count(args, k)) + " : "@
            + spec_instantiated(pairs, t@),
    }
}

/// The typed argument list for an instantiated method signature.
pub fn typed_arguments_for_method_sig(signature: &MethodSig, mapper: &TypeParamMapper) -> (r: Vec<
    String,
>)
    requires
        signature.args@.len() < usize::MAX,
    ensures
        r@.len() == signature.args@.len(),
        forall|k: int|
            0 <= k < r@.len() ==> (#[trigger] r@[k])@ == spec_typed_argument(
                signature.args@,
                k,
                mapper@,
            ),
{
    let mut r: Vec<String> = Vec::new();
    let mut arg_idx: usize = 1;
    let mut i: usize = 0;
    while i < signature.args.len()
        invariant
            signature.args@.len() < usize::MAX,
            i <= signature.args@.len(),
            r@.len() == i,
            arg_idx as int == 1 + spec_typed_count(signature.args@, i as int),
            arg_idx <= i + 1,
            forall|k: int|
                0 <= k < i ==> (#[trigger] r@[k])@ == spec_typed_argument(
                    signature.args@,
                    k,
                    mapper@,
                ),
        decreases signature.args@.len() - i,
    {
        proof {
            assert(spec_typed_count(signature.args@, i + 1) == spec_typed_count(
                signature.args@,
                i as int,
            ) + (if signature.args@[i as int] is Typed {
                1int
            } else {
                0int
            }));
        }
        match &signature.args[i] {
            MethodArg::SelfValue => {
                r.push(String::from_str("self"));
            },
            MethodArg::SelfRef => {
                r.push(String::from_str("& self"));
            },
            MethodArg::SelfMutRef => {
                r.push(String::from_str("& mut self"));
            },
            MethodArg::Typed(ty) => {
                let mut piece = String::from_str("arg");
                let num = usize_to_string(arg_idx);
                piece.append(num.as_str());
                piece.append(" : ");
                let inst = mapper.instantiate_from_ty(ty.as_str());
                piece.append(inst.as_str());
                r.push(piece);
                arg_idx = arg_idx + 1;
            },
        }
        i += 1;
    }
    r
}

/// The last path-segment name of a type's token text, e.g. the usage
/// `:: a :: b :: Trait < i32 >` names `Trait`; a text whose base path does
/// not end in a name has none.
pub fn type_name_of(ty: &str) -> (r: Option<String>)
    ensures
        ({
            let texts = spec_token_texts(ty@);
            let cut = spec_first_lt(texts);
            match r {
                Some(n) => cut > 0 && n@ == texts[cut - 1] && n@ != "::"@,
                None => cut == 0 || texts[cut - 1] == "::"@,
            }
        }),
{
    let tokens = tokenize(ty);
    let cut = first_lt_index(&tokens);
    if cut == 0 {
        return None;
    }
    let last = &tokens[cut - 1];
    proof {
        assert(token_texts(tokens@)[cut - 1] == tokens@[cut - 1].text@);
    }
    if str_eq(last.text.as_str(), "::") {
        return None;
    }
    Some(last.text.clone())
}

/// The synthetic type name of a mock requested at a source position:
/// `Mock` followed by the position.
pub fn gen_new_mock_type_name(mock_initialization_pos: usize) -> (r: String)
    ensures
        r@ == "Mock"@ + crate::strutil::spec_decimal(mock_initialization_pos as int),
{
    let mut r = String::from_str("Mock");
    let num = usize_to_string(mock_initialization_pos);
    r.append(num.as_str());
    r
}

/// The trait usages of a requested mock, as their texts.
pub open spec fn spec_usages_of(m: &RequestedMock) -> Seq<Seq<char>> {
    m.traits@.map_values(|s: String| s@)
}

/// Resolves the requested trait a statement addresses by its method name
/// alone: the one requested trait of the mock with a method of that name.
/// No such trait, an unknown mock, an unregistered trait, and an ambiguous
/// method (two requested traits share the name) are each an error.
pub fn determine_requested_trait_idx_by_method(
    requested: &RequestedMock,
    mockable_traits: &MockableTraits,
    method_name: &str,
) -> (r: Result<usize, String>)
    ensures
        r is Ok <==> (forall|j: int|
            0 <= j < requested.traits@.len() ==> mockable_traits.spec_contains(
                spec_base_path(#[trigger] requested.traits@[j]@),
            )) && (exists|j: int|
            0 <= j < requested.traits@.len() && spec_has_method(
                &mockable_traits.spec_info_of(spec_base_path(#[trigger] requested.traits@[j]@)),
                method_name@,
            )) && (forall|j1: int, j2: int|
            0 <= j1 < j2 < requested.traits@.len() ==> !(spec_has_method(
                &mockable_traits.spec_info_of(spec_base_path(#[trigger] requested.traits@[j1]@)),
                method_name@,
            ) && spec_has_method(
                &mockable_traits.spec_info_of(spec_base_path(#[trigger] requested.traits@[j2]@)),
                method_name@,
            ))),
        r matches Ok(idx) ==> idx < requested.traits@.len() && spec_has_method(
            &mockable_traits.spec_info_of(spec_base_path(requested.traits@[idx as int]@)),
            method_name@,
        ),
{
    let ghost usages = requested.traits@;
    let mut maybe_trait_idx: Option<usize> = None;
    let mut idx: usize = 0;
    while idx < requested.traits.len()
        invariant
            usages == requested.traits@,
            idx <= usages.len(),
            forall|j: int|
                0 <= j < idx ==> mockable_traits.spec_contains(
                    spec_base_path(#[trigger] usages[j]@),
                ),
            (match maybe_trait_idx {
                Some(found) => found < idx && spec_has_method(
                    &mockable_traits.spec_info_of(spec_base_path(usages[found as int]@)),
                    method_name@,
                ) && forall|j: int|
                    0 <= j < idx && j != found ==> !spec_has_method(
                        &mockable_traits.spec_info_of(spec_base_path(#[trigger] usages[j]@)),
                        method_name@,
                    ),
                None => forall|j: int|
                    0 <= j < idx ==> !spec_has_method(
                        &mockable_traits.spec_info_of(spec_base_path(#[trigger] usages[j]@)),
                        method_name@,
                    ),
            }),
        decreases requested.traits@.len() - idx,
    {
        let trait_ty = &requested.traits[idx];
        let base = strip_generics(trait_ty.as_str());
        match mockable_traits.get(base.as_str()) {
            None => {
                let mut msg = String::from_str("`");
                msg.append(trait_ty.as_str());
                msg.append("` is not a mockable trait. Has it been defined with `mockable`?");
                return Err(msg);
            },
            Some(info) => {
                if info.has_method(method_name) {
                    if maybe_trait_idx.is_some() {
                        let mut msg = String::from_str(
                            "Multiple requested traits have a method `",
                        );
                        msg.append(method_name);
                        msg.append(
                            "`. Use Universal Function Call syntax to specify the correct trait.",
                        );
                        return Err(msg);
                    }
                    maybe_trait_idx = Some(idx);
                }
            },
        }
        idx += 1;
    }
    match maybe_trait_idx {
        Some(found) => Ok(found),
        None => {
            let mut msg = String::from_str("No requested trait with a method named `");
            msg.append(method_name);
            msg.append("` found.");
            Err(msg)
        },
    }
}

/// Resolves the requested trait a statement addresses by its universal
/// function call trait reference: the position of that exact usage among
/// the mock's requested traits. A usage not requested for the mock, an
/// unregistered trait, and a trait without the method are each an error.
pub fn determine_requested_trait_idx_by_ufc(
    requested: &RequestedMock,
    mockable_traits: &MockableTraits,
    ufc_trait: &str,
    method_name: &str,
) -> (r: Result<usize, String>)
    ensures
        r is Ok <==> usage_index(spec_usages_of(requested), ufc_trait@) != -1
            && mockable_traits.spec_contains(spec_base_path(ufc_trait@)) && spec_has_method(
            &mockable_traits.spec_info_of(spec_base_path(ufc_trait@)),
            method_name@,
        ),
        r matches Ok(idx) ==> idx as int == usage_index(spec_usages_of(requested), ufc_trait@)
            && idx < requested.traits@.len(),
{
    let mut idx: usize = 0;
    let found: usize;
    loop
        invariant
            idx <= requested.traits@.len(),
            forall|k: int| 0 <= k < idx ==> spec_usages_of(requested)[k] != ufc_trait@,
        ensures
            found as int == usage_index(spec_usages_of(requested), ufc_trait@),
            found < requested.traits@.len(),
        decreases requested.traits@.len() - idx,
    {
        if idx >= requested.traits.len() {
            let mut msg = String::from_str("No requested trait for mock type matches the given UFC trait `");
            msg.append(ufc_trait);
            msg.append("`.");
            proof {
                crate::unifier::lemma_usage_index(spec_usages_of(requested), ufc_trait@);
            }
            return Err(msg);
        }
        proof {
            assert(spec_usages_of(requested)[idx as int] == requested.traits@[idx as int]@);
        }
        if str_eq(requested.traits[idx].as_str(), ufc_trait) {
            found = idx;
            proof {
                crate::unifier::lemma_usage_index_at(
                    spec_usages_of(requested),
                    ufc_trait@,
                    idx as int,
                );
            }
            break ;
        }
        idx += 1;
    }

    let base = strip_generics(ufc_trait);
    match mockable_traits.get(base.as_str()) {
        None => {
            let mut msg = String::from_str("`");
            msg.append(ufc_trait);
            msg.append("` is not a mockable trait. Has it been defined with `mockable`?");
            Err(msg)
        },
        Some(info) => {
            if !info.has_method(method_name) {
                let mut msg = String::from_str(
                    "Unable to process `given!` statement. No method `",
                );
                msg.append(method_name);
                msg.append("` found for requested trait `");
                msg.append(ufc_trait);
                msg.append("`");
                Err(msg)
            } else {
                Ok(found)
            }
        },
    }
}

} // verus!
