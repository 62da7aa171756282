//! The tokenizer for DSL text. A token is a maximal run of word characters
//! (letters, digits, `_` and `.`, so numbers like `2.2` stay whole), a
//! double colon, or a single other non-space character; whitespace
//! separates tokens and is dropped.

use vstd::prelude::*;
use vstd::string::StrSliceExecFns;
use vstd::string::StringExecFns;

verus! {

/// A character that extends a word token.
pub open spec fn is_word_char(c: char) -> bool {
    ('a' <= c && c <= 'z') || ('A' <= c && c <= 'Z') || ('0' <= c && c <= '9') || c == '_' || c
        == '.'
}

/// A character that separates tokens and is dropped.
pub open spec fn is_space_char(c: char) -> bool {
    c == ' ' || c == '\t' || c == '\n' || c == '\r'
}

fn word_char(c: char) -> (r: bool)
    ensures
        r == is_word_char(c),
{
    ('a' <= c && c <= 'z') || ('A' <= c && c <= 'Z') || ('0' <= c && c <= '9') || c == '_' || c
        == '.'
}

fn space_char(c: char) -> (r: bool)
    ensures
        r == is_space_char(c),
{
    c == ' ' || c == '\t' || c == '\n' || c == '\r'
}

/// One token: its text and the character range it covers in the source.
pub struct Token {
    pub text: String,
    pub start: usize,
    pub end: usize,
}

/// Whether a token sequence is a sound, complete tokenization of `src`:
/// each token covers a non-empty range whose text it carries, tokens come
/// in order without overlap, and every non-space character lies in a token.
pub open spec fn tokens_cover(tokens: Seq<Token>, src: Seq<char>) -> bool {
    &&& forall|k: int|
        0 <= k < tokens.len() ==> (#[trigger] tokens[k]).start < tokens[k].end <= src.len()
            && tokens[k].text@ == src.subrange(tokens[k].start as int, tokens[k].end as int)
    &&& forall|k: int| 0 < k < tokens.len() ==> (#[trigger] tokens[k]).start >= tokens[k - 1].end
    &&& forall|p: int|
        0 <= p < src.len() && !is_space_char(src[p]) ==> exists|k: int|
            0 <= k < tokens.len() && (#[trigger] tokens[k]).start <= p < tokens[k].end
}

/// The end of the word-character run beginning at `j` (at most the text's
/// length).
pub open spec fn word_end(src: Seq<char>, j: int) -> int
    decreases src.len() - j,
{
    if j >= src.len() {
        src.len() as int
    } else if !is_word_char(src[j]) {
        j
    } else {
        word_end(src, j + 1)
    }
}

/// The token texts of a source text, in order: maximal word runs, paired
/// colons, and single other non-space characters; whitespace separates and
/// is dropped. This is the one tokenization `tokenize` produces.
pub open spec fn spec_token_texts_from(src: Seq<char>, i: int) -> Seq<Seq<char>>
    decreases src.len() - i,
    via spec_token_texts_from_decreases
{
    if i < 0 || i >= src.len() {
        Seq::empty()
    } else if is_space_char(src[i]) {
        spec_token_texts_from(src, i + 1)
    } else if is_word_char(src[i]) {
        seq![src.subrange(i, word_end(src, i + 1))] + spec_token_texts_from(
            src,
            word_end(src, i + 1),
        )
    } else if src[i] == ':' && i + 1 < src.len() && src[i + 1] == ':' {
        seq![src.subrange(i, i + 2)] + spec_token_texts_from(src, i + 2)
    } else {
        seq![src.subrange(i, i + 1)] + spec_token_texts_from(src, i + 1)
    }
}

#[via_fn]
proof fn spec_token_texts_from_decreases(src: Seq<char>, i: int) {
    if 0 <= i && i < src.len() && !is_space_char(src[i]) && is_word_char(src[i]) {
        lemma_word_end_bounds(src, i + 1);
    }
}

/// The token texts of a source text.
pub open spec fn spec_token_texts(src: Seq<char>) -> Seq<Seq<char>> {
    spec_token_texts_from(src, 0)
}

proof fn lemma_word_end_bounds(src: Seq<char>, j: int)
    requires
        0 <= j <= src.len(),
    ensures
        j <= word_end(src, j) <= src.len(),
    decreases src.len() - j,
{
    if j < src.len() && is_word_char(src[j]) {
        lemma_word_end_bounds(src, j + 1);
    }
}

/// Splits DSL text into tokens.
pub fn tokenize(source: &str) -> (r: Vec<Token>)
    ensures
        tokens_cover(r@, source@),
        token_texts(r@) == spec_token_texts(source@),
{
    let len = source.unicode_len();
    let mut r: Vec<Token> = Vec::new();
    let mut i: usize = 0;
    while i < len
        invariant
            len == source@.len(),
            i <= len,
            forall|k: int|
                0 <= k < r@.len() ==> (#[trigger] r@[k]).start < r@[k].end <= i
                    && r@[k].text@ == source@.subrange(r@[k].start as int, r@[k].end as int),
            forall|k: int| 0 < k < r@.len() ==> (#[trigger] r@[k]).start >= r@[k - 1].end,
            forall|p: int|
                0 <= p < i && !is_space_char(source@[p]) ==> exists|k: int|
                    0 <= k < r@.len() && (#[trigger] r@[k]).start <= p < r@[k].end,
            token_texts(r@) + spec_token_texts_from(source@, i as int) == spec_token_texts(
                source@,
            ),
        decreases len - i,
    {
        let c = source.get_char(i);
        if space_char(c) {
            proof {
                assert(spec_token_texts_from(source@, i as int) == spec_token_texts_from(
                    source@,
                    i + 1,
                ));
            }
            i += 1;
        } else if word_char(c) {
            let start = i;
            let mut j = i + 1;
            while j < len && word_char(source.get_char(j))
                invariant
                    len == source@.len(),
                    start < j <= len,
                    word_end(source@, (start + 1) as int) == word_end(source@, j as int),
                decreases len - j,
            {
                j += 1;
            }
            proof {
                assert(word_end(source@, j as int) == j);
                lemma_word_end_bounds(source@, (start + 1) as int);
            }
            let text = source.substring_char(start, j).to_owned();
            let ghost r0 = r@;
            let tok = Token { text, start, end: j };
            r.push(tok);
            proof {
                assert(spec_token_texts_from(source@, start as int) == seq![
                    source@.subrange(start as int, j as int),
                ] + spec_token_texts_from(source@, j as int));
                assert(token_texts(r@) =~= token_texts(r0) + seq![source@.subrange(start as int, j as int)]);
                assert(token_texts(r@) + spec_token_texts_from(source@, j as int)
                    =~= spec_token_texts(source@));
                let last = r@.len() - 1;
                assert forall|p: int| 0 <= p < j && !is_space_char(source@[p]) implies exists|k: int|
                    0 <= k < r@.len() && (#[trigger] r@[k]).start <= p < r@[k].end by {
                    if p < start {
                        let k = choose|k: int|
                            0 <= k < r0.len() && (#[trigger] r0[k]).start <= p < r0[k].end;
                        assert(r@[k] == r0[k]);
                        assert(0 <= k < r@.len() && r@[k].start <= p < r@[k].end);
                    } else {
                        assert(r@[last].start <= p < r@[last].end);
                    }
                }
            }
            i = j;
        } else {
            let two_colons = c == ':' && i + 1 < len && source.get_char(i + 1) == ':';
            let end = if two_colons {
                i + 2
            } else {
                i + 1
            };
            let text = source.substring_char(i, end).to_owned();
            let ghost r0 = r@;
            let tok = Token { text, start: i, end };
            r.push(tok);
            proof {
                assert(spec_token_texts_from(source@, i as int) == seq![
                    source@.subrange(i as int, end as int),
                ] + spec_token_texts_from(source@, end as int));
                assert(token_texts(r@) =~= token_texts(r0) + seq![source@.subrange(i as int, end as int)]);
                assert(token_texts(r@) + spec_token_texts_from(source@, end as int)
                    =~= spec_token_texts(source@));
                let last = r@.len() - 1;
                assert forall|p: int| 0 <= p < end && !is_space_char(source@[p]) implies exists|
                    k: int,
                |
                    0 <= k < r@.len() && (#[trigger] r@[k]).start <= p < r@[k].end by {
                    if p < i {
                        let k = choose|k: int|
                            0 <= k < r0.len() && (#[trigger] r0[k]).start <= p < r0[k].end;
                        assert(r@[k] == r0[k]);
                        assert(0 <= k < r@.len() && r@[k].start <= p < r@[k].end);
                    } else {
                        assert(r@[last].start <= p < r@[last].end);
                    }
                }
            }
            i = end;
        }
    }
    proof {
        assert(token_texts(r@) =~= spec_token_texts(source@));
    }
    r
}

/// The texts of a token sequence.
pub open spec fn token_texts(tokens: Seq<Token>) -> Seq<Seq<char>> {
    tokens.map_values(|t: Token| t.text@)
}

/// The text of a space-separated token list, e.g. `a < b`.
pub open spec fn spec_space_joined(items: Seq<Seq<char>>) -> Seq<char>
    decreases items.len(),
{
    if items.len() == 0 {
        Seq::empty()
    } else if items.len() == 1 {
        items[0]
    } else {
        spec_space_joined(items.drop_last()) + " "@ + items.last()
    }
}

/// Joins the texts of `tokens[from..to]` with single spaces: the canonical
/// rendering of an embedded type or expression.
pub fn join_tokens(tokens: &Vec<Token>, from: usize, to: usize) -> (r: String)
    requires
        from <= to <= tokens@.len(),
    ensures
        r@ == spec_space_joined(token_texts(tokens@.subrange(from as int, to as int))),
{
    let ghost views = token_texts(tokens@.subrange(from as int, to as int));
    let mut r = String::new();
    let mut i: usize = from;
    while i < to
        invariant
            from <= i <= to <= tokens@.len(),
            views == token_texts(tokens@.subrange(from as int, to as int)),
            views.len() == to - from,
            forall|k: int| 0 <= k < views.len() ==> views[k] == tokens@[from + k].text@,
            r@ == spec_space_joined(views.take(i - from)),
        decreases to - i,
    {
        if i > from {
            r.append(" ");
        }
        r.append(tokens[i].text.as_str());
        proof {
            let taken = views.take(i - from + 1);
            assert(taken.drop_last() =~= views.take(i - from));
            assert(taken.last() == views[i - from]);
            assert(r@ == spec_space_joined(taken));
        }
        i += 1;
    }
    proof {
        assert(views.take(views.len() as int) =~= views);
    }
    r
}

} // verus!
