//! Instantiation of generic types: maps type parameters occurring in a
//! generic trait definition to concrete types. Substitution works on the
//! token text of a type: every token equal to a known parameter name is
//! replaced by that parameter's concrete type, wherever it occurs, also
//! inside nested generic arguments and behind references.

use vstd::prelude::*;
use vstd::string::StrSliceExecFns;
use vstd::string::StringExecFns;
use crate::strutil::str_eq;
use crate::tokens::Token;
use crate::tokens::spec_space_joined;
use crate::tokens::token_texts;
use crate::tokens::spec_token_texts;
use crate::tokens::tokenize;

verus! {

/// What one token becomes under the mappings: the concrete type of the
/// first mapping whose parameter equals the token, or the token itself.
pub open spec fn spec_subst_one(pairs: Seq<(Seq<char>, Seq<char>)>, t: Seq<char>) -> Seq<char>
    decreases pairs.len(),
{
    if pairs.len() == 0 {
        t
    } else if pairs[0].0 == t {
        pairs[0].1
    } else {
        spec_subst_one(pairs.drop_first(), t)
    }
}

/// The token texts of a type after substitution.
pub open spec fn spec_substituted(
    pairs: Seq<(Seq<char>, Seq<char>)>,
    texts: Seq<Seq<char>>,
) -> Seq<Seq<char>> {
    texts.map_values(|t: Seq<char>| spec_subst_one(pairs, t))
}

/// The token texts with every lifetime annotation removed: a quote token
/// and the name after it are dropped.
pub open spec fn spec_strip_lifetimes(texts: Seq<Seq<char>>) -> Seq<Seq<char>>
    decreases texts.len(),
{
    if texts.len() == 0 {
        Seq::empty()
    } else if texts[0] == "'"@ {
        if texts.len() >= 2 {
            spec_strip_lifetimes(texts.skip(2))
        } else {
            Seq::empty()
        }
    } else {
        seq![texts[0]] + spec_strip_lifetimes(texts.drop_first())
    }
}

/// The instantiation of a type's text: its tokens, with lifetimes
/// stripped, each substituted and space-joined.
pub open spec fn spec_instantiated(pairs: Seq<(Seq<char>, Seq<char>)>, ty: Seq<char>) -> Seq<
    char,
> {
    spec_space_joined(spec_substituted(pairs, spec_strip_lifetimes(spec_token_texts(ty))))
}

/// Drops every lifetime annotation (a quote token and the following name)
/// from a token list.
fn strip_lifetime_tokens(tokens: &Vec<Token>) -> (r: Vec<Token>)
    ensures
        token_texts(r@) == spec_strip_lifetimes(token_texts(tokens@)),
{
    let ghost texts = token_texts(tokens@);
    let mut r: Vec<Token> = Vec::new();
    let mut i: usize = 0;
    proof {
        assert(texts.skip(0) =~= texts);
        assert(token_texts(r@) + spec_strip_lifetimes(texts) =~= spec_strip_lifetimes(texts));
    }
    while i < tokens.len()
        invariant
            texts == token_texts(tokens@),
            i <= tokens@.len(),
            token_texts(r@) + spec_strip_lifetimes(texts.skip(i as int)) == spec_strip_lifetimes(
                texts,
            ),
        decreases tokens@.len() - i,
    {
        let ghost rest = texts.skip(i as int);
        proof {
            assert(rest[0] == texts[i as int]);
        }
        if str_eq(tokens[i].text.as_str(), "'") {
            if i + 1 < tokens.len() {
                proof {
                    assert(rest.skip(2) =~= texts.skip(i + 2));
                }
                i += 2;
            } else {
                proof {
                    assert(spec_strip_lifetimes(rest) =~= Seq::<Seq<char>>::empty());
                }
                i += 1;
                proof {
                    assert(texts.skip(i as int) =~= Seq::<Seq<char>>::empty());
                }
            }
        } else {
            let ghost r0 = r@;
            r.push(
                Token {
                    text: tokens[i].text.clone(),
                    start: tokens[i].start,
                    end: tokens[i].end,
                },
            );
            proof {
                assert(token_texts(r@) =~= token_texts(r0) + seq![texts[i as int]]);
                assert(rest.drop_first() =~= texts.skip(i + 1));
                assert(token_texts(r@) + spec_strip_lifetimes(texts.skip(i + 1))
                    =~= spec_strip_lifetimes(texts));
            }
            i += 1;
        }
    }
    proof {
        assert(texts.skip(texts.len() as int) =~= Seq::<Seq<char>>::empty());
        assert(token_texts(r@) =~= spec_strip_lifetimes(texts));
    }
    r
}

/// Maps type parameters of a generic trait definition to concrete types.
pub struct TypeParamMapper {
    type_param_and_type: Vec<(String, String)>,
}

impl View for TypeParamMapper {
    type V = Seq<(Seq<char>, Seq<char>)>;

    closed spec fn view(&self) -> Seq<(Seq<char>, Seq<char>)> {
        self.type_param_and_type@.map_values(|p: (String, String)| (p.0@, p.1@))
    }
}

impl TypeParamMapper {
    /// A mapper with no mappings: substitution leaves every token alone.
    pub fn new() -> (r: TypeParamMapper)
        ensures
            r@ == Seq::<(Seq<char>, Seq<char>)>::empty(),
    {
        let r = TypeParamMapper { type_param_and_type: Vec::new() };
        proof {
            assert(r@ =~= Seq::<(Seq<char>, Seq<char>)>::empty());
        }
        r
    }

    /// Records that parameter `param` is instantiated with the type `ty`.
    pub fn add_mapping(&mut self, param: &str, ty: &str)
        ensures
            final(self)@ == old(self)@.push((param@, ty@)),
    {
        let ghost s1 = self@;
        self.type_param_and_type.push((param.to_owned(), ty.to_owned()));
        proof {
            assert(self@ =~= s1.push((param@, ty@)));
        }
    }

    fn subst_one(&self, t: &str) -> (r: String)
        ensures
            r@ == spec_subst_one(self@, t@),
    {
        let ghost pairs = self@;
        let mut k: usize = 0;
        while k < self.type_param_and_type.len()
            invariant
                pairs == self@,
                k <= self.type_param_and_type@.len(),
                pairs.len() == self.type_param_and_type@.len(),
                forall|l: int| 0 <= l < k ==> (#[trigger] pairs[l]).0 != t@,
            decreases self.type_param_and_type@.len() - k,
        {
            proof {
                assert(pairs[k as int] == (
                    self.type_param_and_type@[k as int].0@,
                    self.type_param_and_type@[k as int].1@,
                ));
            }
            let pair = &self.type_param_and_type[k];
            if str_eq(pair.0.as_str(), t) {
                proof {
                    lemma_subst_one_at(pairs, t@, k as int);
                }
                return pair.1.clone();
            }
            k += 1;
        }
        proof {
            lemma_subst_one_none(pairs, t@);
        }
        t.to_owned()
    }

    /// Creates an instantiated type from the token list of a generic type:
    /// every token naming a known parameter is replaced by the concrete
    /// type, the rest stays, and the result is the space-joined text.
    pub fn instantiate_from_ty_token(&self, generic_ty_tokens: &Vec<Token>) -> (r: String)
        ensures
            r@ == spec_space_joined(spec_substituted(self@, token_texts(generic_ty_tokens@))),
    {
        let ghost texts = token_texts(generic_ty_tokens@);
        let ghost subst = spec_substituted(self@, texts);
        let mut r = String::new();
        let mut i: usize = 0;
        while i < generic_ty_tokens.len()
            invariant
                texts == token_texts(generic_ty_tokens@),
                subst == spec_substituted(self@, texts),
                i <= generic_ty_tokens@.len(),
                subst.len() == generic_ty_tokens@.len(),
                r@ == spec_space_joined(subst.take(i as int)),
            decreases generic_ty_tokens@.len() - i,
        {
            if i > 0 {
                r.append(" ");
            }
            let piece = self.subst_one(generic_ty_tokens[i].text.as_str());
            r.append(piece.as_str());
            proof {
                let taken = subst.take(i + 1);
                assert(taken.drop_last() =~= subst.take(i as int));
                assert(taken.last() == subst[i as int]);
                assert(subst[i as int] == spec_subst_one(self@, texts[i as int]));
                assert(r@ == spec_space_joined(taken));
            }
            i += 1;
        }
        proof {
            assert(subst.take(subst.len() as int) =~= subst);
        }
        r
    }

    /// Creates an instantiated type from the token text of a generic type:
    /// its tokens, with lifetime annotations stripped, each substituted and
    /// space-joined.
    pub fn instantiate_from_ty(&self, generic_ty: &str) -> (r: String)
        ensures
            r@ == spec_instantiated(self@, generic_ty@),
    {
        let toks = tokenize(generic_ty);
        let stripped = strip_lifetime_tokens(&toks);
        self.instantiate_from_ty_token(&stripped)
    }
}

proof fn lemma_subst_one_at(pairs: Seq<(Seq<char>, Seq<char>)>, t: Seq<char>, k: int)
    requires
        0 <= k < pairs.len(),
        pairs[k].0 == t,
        forall|l: int| 0 <= l < k ==> (#[trigger] pairs[l]).0 != t,
    ensures
        spec_subst_one(pairs, t) == pairs[k].1,
    decreases pairs.len(),
{
    if k > 0 {
        lemma_subst_one_at(pairs.drop_first(), t, k - 1);
    }
}

proof fn lemma_subst_one_none(pairs: Seq<(Seq<char>, Seq<char>)>, t: Seq<char>)
    requires
        forall|l: int| 0 <= l < pairs.len() ==> (#[trigger] pairs[l]).0 != t,
    ensures
        spec_subst_one(pairs, t) == t,
    decreases pairs.len(),
{
    if pairs.len() > 0 {
        lemma_subst_one_none(pairs.drop_first(), t);
    }
}

} // verus!
