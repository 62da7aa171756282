//! Scanning of reassembled source text for embedded DSL blocks: quote
//! balancing, substring search, and locating the next `new_mock !`,
//! `given !` or `expect_interactions !` invocation. In reassembled token
//! text the macro name and its bang are separate tokens, hence the space.

use vstd::prelude::*;
use vstd::string::StrSliceExecFns;
use vstd::string::StringExecFns;
use crate::strutil::str_eq;

verus! {

/// The number of quote characters in `s`, where a character right after an
/// (unconsumed) backslash is skipped; `skipping` says whether the first
/// character is skipped.
pub open spec fn counted_quotes(s: Seq<char>, skipping: bool) -> nat
    decreases s.len(),
{
    if s.len() == 0 {
        0
    } else if skipping {
        counted_quotes(s.drop_first(), false)
    } else if s[0] == '\\' {
        counted_quotes(s.drop_first(), true)
    } else if s[0] == '"' {
        counted_quotes(s.drop_first(), false) + 1
    } else {
        counted_quotes(s.drop_first(), false)
    }
}

/// Whether the text holds an even number of unescaped quotes, i.e. ends
/// outside a string literal when it started outside one.
pub open spec fn spec_has_balanced_quotes(s: Seq<char>) -> bool {
    counted_quotes(s, false) % 2 == 0
}

/// Whether the source holds an even number of unescaped quote characters.
pub fn has_balanced_quotes(source: &str) -> (r: bool)
    ensures
        r == spec_has_balanced_quotes(source@),
{
    let len = source.unicode_len();
    let mut i: usize = 0;
    let mut even: bool = true;
    let mut skip: bool = false;
    proof {
        assert(source@.skip(0) =~= source@);
    }
    while i < len
        invariant
            len == source@.len(),
            i <= len,
            (counted_quotes(source@, false) % 2 == 0) == (even == (counted_quotes(
                source@.skip(i as int),
                skip,
            ) % 2 == 0)),
        decreases len - i,
    {
        let c = source.get_char(i);
        let ghost suffix = source@.skip(i as int);
        proof {
            assert(suffix[0] == c);
            assert(suffix.drop_first() =~= source@.skip(i + 1));
        }
        if skip {
            skip = false;
        } else if c == '\\' {
            skip = true;
        } else if c == '"' {
            even = !even;
        }
        i += 1;
    }
    proof {
        assert(source@.skip(len as int) =~= Seq::<char>::empty());
    }
    even
}

/// Whether `pat` occurs in `s` starting at position `i`.
pub open spec fn is_match_at(s: Seq<char>, pat: Seq<char>, i: int) -> bool {
    0 <= i && i + pat.len() <= s.len() && s.subrange(i, i + pat.len()) == pat
}

/// Finds the first occurrence of `pat` in `s`, by character position.
pub fn find_sub(s: &str, pat: &str) -> (r: Option<usize>)
    ensures
        (match r {
            Some(i) => is_match_at(s@, pat@, i as int) && forall|j: int|
                0 <= j < i ==> !is_match_at(s@, pat@, j),
            None => forall|j: int| !is_match_at(s@, pat@, j),
        }),
{
    let slen = s.unicode_len();
    let plen = pat.unicode_len();
    if plen > slen {
        return None;
    }
    if plen == 0 {
        proof {
            assert(s@.subrange(0, 0) =~= pat@);
        }
        return Some(0);
    }
    let mut i: usize = 0;
    while i <= slen - plen
        invariant
            slen == s@.len(),
            plen == pat@.len(),
            0 < plen <= slen,
            i <= slen - plen + 1,
            forall|j: int| 0 <= j < i ==> !is_match_at(s@, pat@, j),
        decreases slen - i,
    {
        let candidate = s.substring_char(i, i + plen);
        if str_eq(candidate, pat) {
            return Some(i);
        }
        i += 1;
    }
    None
}

/// The position of the next invocation of a DSL macro in reassembled
/// source text, with the variant naming the macro.
pub enum MacroInvocationPos {
    NewMock(usize),
    Given(usize),
    ExpectInteractions(usize),
}

/// Where a macro named by `pat` is taken to occur in `source`: at the first
/// occurrence of its name, and only when the text before that occurrence
/// has balanced quotes (so the name does not sit inside a string literal);
/// a first occurrence inside a literal hides later ones.
pub open spec fn spec_macro_candidate(s: Seq<char>, pat: Seq<char>, i: int) -> bool {
    is_match_at(s, pat, i) && (forall|j: int| 0 <= j < i ==> !is_match_at(s, pat, j))
        && spec_has_balanced_quotes(s.take(i))
}

fn macro_candidate(source: &str, pat: &str) -> (r: Option<usize>)
    ensures
        (match r {
            Some(i) => spec_macro_candidate(source@, pat@, i as int),
            None => forall|i: int| !spec_macro_candidate(source@, pat@, i),
        }),
{
    match find_sub(source, pat) {
        None => None,
        Some(i) => {
            proof {
                assert(i as int + pat@.len() <= source@.len());
            }
            let prefix = source.substring_char(0, i);
            proof {
                assert(prefix@ =~= source@.take(i as int));
            }
            if has_balanced_quotes(prefix) {
                Some(i)
            } else {
                proof {
                    assert forall|k: int| !spec_macro_candidate(source@, pat@, k) by {
                        if is_match_at(source@, pat@, k) && (forall|j: int|
                            0 <= j < k ==> !is_match_at(source@, pat@, j)) {
                            assert(!is_match_at(source@, pat@, i as int) || k == i);
                        }
                    }
                }
                None
            }
        },
    }
}

/// Finds the next DSL macro invocation in the source string: the one among
/// `new_mock !`, `given !` and `expect_interactions !` whose (first,
/// quote-balanced) occurrence comes earliest. The source is expected to
/// have been reassembled from a token tree and to start in code context.
pub fn find_next_mock_macro_invocation(source: &str) -> (r: Option<MacroInvocationPos>)
    ensures
        (match r {
            Some(MacroInvocationPos::NewMock(p)) => spec_macro_candidate(
                source@,
                "new_mock !"@,
                p as int,
            ) && (forall|q: int|
                spec_macro_candidate(source@, "given !"@, q) ==> p <= q) && (forall|q: int|
                spec_macro_candidate(source@, "expect_interactions !"@, q) ==> p <= q),
            Some(MacroInvocationPos::Given(p)) => spec_macro_candidate(
                source@,
                "given !"@,
                p as int,
            ) && (forall|q: int|
                spec_macro_candidate(source@, "new_mock !"@, q) ==> p <= q) && (forall|q: int|
                spec_macro_candidate(source@, "expect_interactions !"@, q) ==> p <= q),
            Some(MacroInvocationPos::ExpectInteractions(p)) => spec_macro_candidate(
                source@,
                "expect_interactions !"@,
                p as int,
            ) && (forall|q: int|
                spec_macro_candidate(source@, "new_mock !"@, q) ==> p <= q) && (forall|q: int|
                spec_macro_candidate(source@, "given !"@, q) ==> p <= q),
            None => (forall|q: int| !spec_macro_candidate(source@, "new_mock !"@, q)) && (forall|
                q: int,
            |
                !spec_macro_candidate(source@, "given !"@, q)) && (forall|q: int|
                !spec_macro_candidate(source@, "expect_interactions !"@, q)),
        }),
{
    let nm = macro_candidate(source, "new_mock !");
    let gv = macro_candidate(source, "given !");
    let ei = macro_candidate(source, "expect_interactions !");
    proof {
        assert forall|pat: Seq<char>, a: int, b: int|
            spec_macro_candidate(source@, pat, a) && spec_macro_candidate(source@, pat, b)
                implies a == b by {
            if a < b {
                assert(!is_match_at(source@, pat, a));
            } else if b < a {
                assert(!is_match_at(source@, pat, b));
            }
        }
    }
    let mut best: Option<MacroInvocationPos> = None;
    let mut best_pos: usize = 0;
    if let Some(p) = nm {
        best = Some(MacroInvocationPos::NewMock(p));
        best_pos = p;
    }
    if let Some(p) = gv {
        let better = match best {
            Some(_) => p < best_pos,
            None => true,
        };
        if better {
            best = Some(MacroInvocationPos::Given(p));
            best_pos = p;
        }
    }
    if let Some(p) = ei {
        let better = match best {
            Some(_) => p < best_pos,
            None => true,
        };
        if better {
            best = Some(MacroInvocationPos::ExpectInteractions(p));
            best_pos = p;
        }
    }
    best
}

/// Splits the source at a located macro invocation, lets the handler turn
/// the macro text into generated code and an unconsumed remainder, and
/// returns the text before the invocation, the invocation's absolute
/// position, and the handler's generated text followed by what it left
/// unconsumed.
pub fn handle_macro<F: Fn(&str, usize) -> (String, String)>(
    source: &str,
    mac_pos_relative_to_source: usize,
    absolute_pos_of_source: usize,
    handler: F,
) -> (r: (String, usize, String))
    requires
        mac_pos_relative_to_source <= source@.len(),
        absolute_pos_of_source + mac_pos_relative_to_source <= usize::MAX,
        forall|a: (&str, usize)| #[trigger] call_requires(handler, a),
    ensures
        r.0@ == source@.take(mac_pos_relative_to_source as int),
        r.1 == absolute_pos_of_source + mac_pos_relative_to_source,
        exists|a: (&str, usize), g: String, u: String|
            a.0@ == source@.skip(mac_pos_relative_to_source as int) && a.1 == r.1
                && #[trigger] call_ensures(handler, a, (g, u)) && r.2@ == g@ + u@,
{
    let absolute_pos_of_mac = absolute_pos_of_source + mac_pos_relative_to_source;
    let len = source.unicode_len();
    let left_of_mac = source.substring_char(0, mac_pos_relative_to_source);
    let right_with_mac = source.substring_char(mac_pos_relative_to_source, len);
    let (generated_source, unhandled_source) = handler(right_with_mac, absolute_pos_of_mac);
    let mut out = generated_source.clone();
    out.append(unhandled_source.as_str());
    proof {
        assert(left_of_mac@ =~= source@.take(mac_pos_relative_to_source as int));
        assert(right_with_mac@ =~= source@.skip(mac_pos_relative_to_source as int));
    }
    (left_of_mac.to_owned(), absolute_pos_of_mac, out)
}

} // verus!
