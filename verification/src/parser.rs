//! The DSL statement parser. It works on the token list of a source
//! fragment and recognizes the statement grammar
//! `< VAR as TRAIT_PATH > :: METHOD (ARG_MATCHERS)|EXPLICIT_MATCHER
//! THEN_CLAUSE REPEAT_CLAUSE`, the block shorthand grouping several method
//! statements under one trait reference, `bind NAME: TYPE = EXPR`
//! declarations, and `new_mock!` requests. Embedded types and expressions
//! are captured as their space-joined token text; delimiters inside them
//! are tracked by nesting depth. Malformed text is a hard error carried up
//! to the caller, never a partial parse.

use vstd::prelude::*;
use vstd::string::StrSliceExecFns;
use vstd::string::StringExecFns;
use crate::data::BehaviourMatcher;
use crate::data::BindingField;
use crate::data::ExpectRepeat;
use crate::data::ExpectStatement;
use crate::data::GivenRepeat;
use crate::data::GivenStatement;
use crate::data::RequestedMock;
use crate::data::Return;
use crate::strutil::str_eq;
use crate::tokens::Token;
use crate::tokens::join_tokens;

verus! {

/// Whether the token at `i` exists and reads exactly `s`.
pub open spec fn spec_tok_is(tokens: Seq<Token>, i: int, s: Seq<char>) -> bool {
    0 <= i < tokens.len() && tokens[i].text@ == s
}

fn tok_is(tokens: &Vec<Token>, i: usize, s: &str) -> (r: bool)
    ensures
        r == spec_tok_is(tokens@, i as int, s@),
        r ==> i < tokens@.len() && tokens@.len() <= usize::MAX,
{
    let n = tokens.len();
    i < n && str_eq(tokens[i].text.as_str(), s)
}

/// Consumes the expected token or reports it missing.
fn expect_tok(tokens: &Vec<Token>, i: usize, s: &str, grammar: &str) -> (r: Result<usize, String>)
    ensures
        (match r {
            Ok(j) => j == i + 1 && spec_tok_is(tokens@, i as int, s@) && j <= tokens@.len(),
            Err(_) => !spec_tok_is(tokens@, i as int, s@),
        }),
{
    if tok_is(tokens, i, s) {
        Ok(i + 1)
    } else {
        let mut msg = String::from_str("Expecting `");
        msg.append(s);
        msg.append("` in ");
        msg.append(grammar);
        Err(msg)
    }
}

fn is_stop(tok: &Token, stops: &Vec<String>) -> (r: bool)
    ensures
        r == stops@.map_values(|s: String| s@).contains(tok.text@),
{
    let ghost views = stops@.map_values(|s: String| s@);
    let mut k: usize = 0;
    while k < stops.len()
        invariant
            views == stops@.map_values(|s: String| s@),
            k <= stops@.len(),
            forall|l: int| 0 <= l < k ==> views[l] != tok.text@,
        decreases stops@.len() - k,
    {
        if str_eq(tok.text.as_str(), stops[k].as_str()) {
            proof {
                assert(views[k as int] == tok.text@);
            }
            return true;
        }
        k += 1;
    }
    proof {
        if views.contains(tok.text@) {
            let w = choose|l: int| 0 <= l < views.len() && views[l] == tok.text@;
        }
    }
    false
}

fn stops1(a: &str) -> (r: Vec<String>)
    ensures
        r@.map_values(|s: String| s@) == seq![a@],
{
    let mut v: Vec<String> = Vec::new();
    v.push(a.to_owned());
    proof {
        assert(v@.map_values(|s: String| s@) =~= seq![a@]);
    }
    v
}

fn stops2(a: &str, b: &str) -> (r: Vec<String>)
    ensures
        r@.map_values(|s: String| s@) == seq![a@, b@],
{
    let mut v: Vec<String> = Vec::new();
    v.push(a.to_owned());
    v.push(b.to_owned());
    proof {
        assert(v@.map_values(|s: String| s@) =~= seq![a@, b@]);
    }
    v
}

fn stops3(a: &str, b: &str, c: &str) -> (r: Vec<String>)
    ensures
        r@.map_values(|s: String| s@) == seq![a@, b@, c@],
{
    let mut v: Vec<String> = Vec::new();
    v.push(a.to_owned());
    v.push(b.to_owned());
    v.push(c.to_owned());
    proof {
        assert(v@.map_values(|s: String| s@) =~= seq![a@, b@, c@]);
    }
    v
}

/// The nesting depth after one token of an expression: parentheses,
/// brackets and braces open and close (closers never drop below zero).
pub open spec fn spec_expr_depth_step(depth: int, t: Seq<char>) -> int {
    if t == "("@ || t == "["@ || t == "{"@ {
        if depth < usize::MAX {
            depth + 1
        } else {
            depth
        }
    } else if t == ")"@ || t == "]"@ || t == "}"@ {
        if depth > 0 {
            depth - 1
        } else {
            depth
        }
    } else {
        depth
    }
}

/// The nesting depth after one token of a type: angle brackets nest too.
pub open spec fn spec_type_depth_step(depth: int, t: Seq<char>) -> int {
    if t == "("@ || t == "["@ || t == "{"@ || t == "<"@ {
        if depth < usize::MAX {
            depth + 1
        } else {
            depth
        }
    } else if t == ")"@ || t == "]"@ || t == "}"@ || t == ">"@ {
        if depth > 0 {
            depth - 1
        } else {
            depth
        }
    } else {
        depth
    }
}

/// Where a scan started at `j` with nesting `depth` stops: the first
/// position at depth zero holding a stop token, or the end of the tokens.
pub open spec fn spec_scan(
    tokens: Seq<Token>,
    j: int,
    depth: int,
    stops: Seq<Seq<char>>,
    for_type: bool,
) -> int
    decreases tokens.len() - j,
{
    if j < 0 || j >= tokens.len() {
        tokens.len() as int
    } else if depth == 0 && stops.contains(tokens[j].text@) {
        j
    } else {
        spec_scan(
            tokens,
            j + 1,
            if for_type {
                spec_type_depth_step(depth, tokens[j].text@)
            } else {
                spec_expr_depth_step(depth, tokens[j].text@)
            },
            stops,
            for_type,
        )
    }
}

proof fn lemma_spec_scan_ge(
    tokens: Seq<Token>,
    j: int,
    depth: int,
    stops: Seq<Seq<char>>,
    for_type: bool,
)
    requires
        0 <= j <= tokens.len(),
    ensures
        j <= spec_scan(tokens, j, depth, stops, for_type) <= tokens.len(),
    decreases tokens.len() - j,
{
    if j < tokens.len() && !(depth == 0 && stops.contains(tokens[j].text@)) {
        lemma_spec_scan_ge(
            tokens,
            j + 1,
            if for_type {
                spec_type_depth_step(depth, tokens[j].text@)
            } else {
                spec_expr_depth_step(depth, tokens[j].text@)
            },
            stops,
            for_type,
        );
    }
}

/// The argument-matcher list from position `j`: the comma-separated items
/// up to the closing parenthesis (or the end), each item the space-joined
/// text of its token range, and the position after the list.
pub open spec fn spec_parse_args(tokens: Seq<Token>, j: int) -> (Seq<Seq<char>>, int)
    decreases tokens.len() - j,
    via spec_parse_args_decreases
{
    let e = spec_scan(tokens, j, 0, seq![","@, ")"@], false);
    let item = crate::tokens::spec_space_joined(
        crate::tokens::token_texts(tokens.subrange(j, e)),
    );
    if 0 <= e < tokens.len() && tokens[e].text@ == ","@ {
        let rest = spec_parse_args(tokens, e + 1);
        (seq![item] + rest.0, rest.1)
    } else {
        (seq![item], e + 1)
    }
}

#[via_fn]
proof fn spec_parse_args_decreases(tokens: Seq<Token>, j: int) {
    if 0 <= j <= tokens.len() {
        lemma_spec_scan_ge(tokens, j, 0, seq![","@, ")"@], false);
    }
}

/// Scans an embedded expression: tokens from `from` up to the first stop
/// token that stands at parenthesis/bracket/brace depth zero (or the end),
/// and returns the scanned text with the stop position.
fn scan_expr(tokens: &Vec<Token>, from: usize, stops: &Vec<String>) -> (r: (String, usize))
    requires
        from <= tokens@.len(),
    ensures
        from <= r.1 <= tokens@.len(),
        r.1 as int == spec_scan(
            tokens@,
            from as int,
            0,
            stops@.map_values(|s: String| s@),
            false,
        ),
        r.0@ == crate::tokens::spec_space_joined(
            crate::tokens::token_texts(tokens@.subrange(from as int, r.1 as int)),
        ),
{
    let ghost stop_views = stops@.map_values(|s: String| s@);
    let mut depth: usize = 0;
    let mut j = from;
    while j < tokens.len() && !(depth == 0 && is_stop(&tokens[j], stops))
        invariant
            stop_views == stops@.map_values(|s: String| s@),
            from <= j <= tokens@.len(),
            spec_scan(tokens@, from as int, 0, stop_views, false) == spec_scan(
                tokens@,
                j as int,
                depth as int,
                stop_views,
                false,
            ),
        decreases tokens@.len() - j,
    {
        proof {
            assert(!(depth == 0 && stop_views.contains(tokens@[j as int].text@)));
        }
        if tok_is(tokens, j, "(") || tok_is(tokens, j, "[") || tok_is(tokens, j, "{") {
            if depth < usize::MAX {
                depth = depth + 1;
            }
        } else if tok_is(tokens, j, ")") || tok_is(tokens, j, "]") || tok_is(tokens, j, "}") {
            if depth > 0 {
                depth = depth - 1;
            }
        }
        j += 1;
    }
    proof {
        if j < tokens@.len() {
            assert(stop_views.contains(tokens@[j as int].text@));
        }
    }
    (join_tokens(tokens, from, j), j)
}

/// Scans an embedded type: like `scan_expr`, but angle brackets also nest,
/// so a generic argument list hides the stops inside it.
fn scan_type(tokens: &Vec<Token>, from: usize, stops: &Vec<String>) -> (r: (String, usize))
    requires
        from <= tokens@.len(),
    ensures
        from <= r.1 <= tokens@.len(),
        r.1 as int == spec_scan(
            tokens@,
            from as int,
            0,
            stops@.map_values(|s: String| s@),
            true,
        ),
        r.0@ == crate::tokens::spec_space_joined(
            crate::tokens::token_texts(tokens@.subrange(from as int, r.1 as int)),
        ),
{
    let ghost stop_views = stops@.map_values(|s: String| s@);
    let mut depth: usize = 0;
    let mut j = from;
    while j < tokens.len() && !(depth == 0 && is_stop(&tokens[j], stops))
        invariant
            stop_views == stops@.map_values(|s: String| s@),
            from <= j <= tokens@.len(),
            spec_scan(tokens@, from as int, 0, stop_views, true) == spec_scan(
                tokens@,
                j as int,
                depth as int,
                stop_views,
                true,
            ),
        decreases tokens@.len() - j,
    {
        proof {
            assert(!(depth == 0 && stop_views.contains(tokens@[j as int].text@)));
        }
        if tok_is(tokens, j, "(") || tok_is(tokens, j, "[") || tok_is(tokens, j, "{") || tok_is(
            tokens,
            j,
            "<",
        ) {
            if depth < usize::MAX {
                depth = depth + 1;
            }
        } else if tok_is(tokens, j, ")") || tok_is(tokens, j, "]") || tok_is(tokens, j, "}")
            || tok_is(tokens, j, ">") {
            if depth > 0 {
                depth = depth - 1;
            }
        }
        j += 1;
    }
    proof {
        if j < tokens@.len() {
            assert(stop_views.contains(tokens@[j as int].text@));
        }
    }
    (join_tokens(tokens, from, j), j)
}

/// Parses `bind NAME : TYPE = EXPR`, leaving the statement terminator to
/// the caller: it succeeds exactly on that shape, and every parsed field
/// is the corresponding token range's text.
pub fn parse_bind(tokens: &Vec<Token>, i: usize) -> (r: Result<(BindingField, usize), String>)
    requires
        i <= tokens@.len(),
    ensures
        ({
            let ty_end = spec_scan(tokens@, i + 3, 0, seq!["="@], true);
            let init_end = spec_scan(tokens@, ty_end + 1, 0, seq![";"@], false);
            &&& (r is Ok <==> spec_tok_is(tokens@, i as int, "bind"@) && i + 1 < tokens@.len()
                && spec_tok_is(tokens@, i + 2, ":"@) && spec_tok_is(tokens@, ty_end, "="@))
            &&& (r matches Ok(p) ==> {
                &&& p.0.name@ == tokens@[i + 1].text@
                &&& p.0.ty@ == crate::tokens::spec_space_joined(
                    crate::tokens::token_texts(tokens@.subrange(i + 3, ty_end)),
                )
                &&& p.0.initializer@ == crate::tokens::spec_space_joined(
                    crate::tokens::token_texts(tokens@.subrange(ty_end + 1, init_end)),
                )
                &&& p.1 as int == init_end
                &&& i < p.1 <= tokens@.len()
            })
        }),
{
    let j = expect_tok(tokens, i, "bind", "`bind NAME: TYPE = EXPR`")?;
    if j >= tokens.len() {
        return Err(String::from_str("Expecting a name after `bind`"));
    }
    let name = tokens[j].text.clone();
    let j2 = expect_tok(tokens, j + 1, ":", "`bind NAME: TYPE = EXPR`")?;
    let eq = stops1("=");
    let (ty, j3) = scan_type(tokens, j2, &eq);
    let j4 = expect_tok(tokens, j3, "=", "`bind NAME: TYPE = EXPR`")?;
    let semi = stops1(";");
    let (initializer, j5) = scan_expr(tokens, j4, &semi);
    Ok((BindingField { name, ty, initializer }, j5))
}

proof fn lemma_keywords_distinct()
    ensures
        "then_return"@ != "then_return_from"@,
        "then_return"@ != "then_return_ref"@,
        "then_return"@ != "then_return_ref_from"@,
        "then_return"@ != "then_spy_on_object"@,
        "then_return"@ != "then_panic"@,
        "then_return_from"@ != "then_return_ref"@,
        "then_return_from"@ != "then_return_ref_from"@,
        "then_return_from"@ != "then_spy_on_object"@,
        "then_return_from"@ != "then_panic"@,
        "then_return_ref"@ != "then_return_ref_from"@,
        "then_return_ref"@ != "then_spy_on_object"@,
        "then_return_ref"@ != "then_panic"@,
        "then_return_ref_from"@ != "then_spy_on_object"@,
        "then_return_ref_from"@ != "then_panic"@,
        "then_spy_on_object"@ != "then_panic"@,
        "times"@ != "always"@,
        "times"@ != "once"@,
        "always"@ != "once"@,
{
    reveal_strlit("then_return");
    reveal_strlit("then_return_from");
    reveal_strlit("then_return_ref");
    reveal_strlit("then_return_ref_from");
    reveal_strlit("then_spy_on_object");
    reveal_strlit("then_panic");
    reveal_strlit("times");
    reveal_strlit("always");
    reveal_strlit("once");
    assert("then_return"@.len() == 11);
    assert("then_return_from"@.len() == 16);
    assert("then_return_ref"@.len() == 15);
    assert("then_return_ref_from"@.len() == 20);
    assert("then_spy_on_object"@.len() == 18);
    assert("then_panic"@.len() == 10);
    assert("times"@.len() == 5);
    assert("always"@.len() == 6);
    assert("once"@.len() == 4);
}

/// The then-clause keywords of a given-statement, in recognition order.
pub open spec fn spec_then_keywords() -> Seq<Seq<char>> {
    seq![
        "then_return"@,
        "then_return_from"@,
        "then_return_ref"@,
        "then_return_ref_from"@,
        "then_spy_on_object"@,
        "then_panic"@,
    ]
}

/// Where a given-statement's matcher ends: after the parenthesized
/// argument-matcher list, or at the first then-clause keyword.
pub open spec fn spec_given_matcher_end(tokens: Seq<Token>, i: int) -> int {
    if spec_tok_is(tokens, i + 1, "("@) {
        if spec_tok_is(tokens, i + 2, ")"@) {
            i + 3
        } else {
            spec_parse_args(tokens, i + 2).1
        }
    } else {
        spec_scan(tokens, i + 1, 0, spec_then_keywords(), false)
    }
}

/// Where a given-statement's then-clause ends: after the bare keyword, or
/// after the return expression scanned up to a repeat keyword.
pub open spec fn spec_given_then_end(tokens: Seq<Token>, m_end: int) -> int {
    if spec_tok_is(tokens, m_end, "then_spy_on_object"@) || spec_tok_is(
        tokens,
        m_end,
        "then_panic"@,
    ) {
        m_end + 1
    } else {
        spec_scan(tokens, m_end + 1, 0, seq!["times"@, "always"@, "once"@], false)
    }
}

/// Parses `METHOD (ARG_MATCHERS)|EXPLICIT_MATCHER THEN_CLAUSE
/// REPEAT_CLAUSE` for a given-statement: on success the method is the
/// first token, the matcher is the argument list or the explicit
/// expression, and the then and repeat clauses map to the return and
/// repetition policies keyword by keyword (`once` is `times 1`).
fn parse_given_func(tokens: &Vec<Token>, i: usize) -> (r: Result<
    ((String, BehaviourMatcher, Return, GivenRepeat), usize),
    String,
>)
    requires
        i <= tokens@.len(),
    ensures
        (match r {
            Ok(p) => {
                let m_end = spec_given_matcher_end(tokens@, i as int);
                let t_end = spec_given_then_end(tokens@, m_end);
                &&& i < p.1 <= tokens@.len()
                &&& p.0.0@ == tokens@[i as int].text@
                &&& (if spec_tok_is(tokens@, i + 1, "("@) {
                    if spec_tok_is(tokens@, i + 2, ")"@) {
                        (p.0.1 matches BehaviourMatcher::PerArgument(es) && es@.len() == 0)
                    } else {
                        (p.0.1 matches BehaviourMatcher::PerArgument(es) && es@.map_values(
                            |a: String| a@,
                        ) == spec_parse_args(tokens@, i + 2).0)
                    }
                } else {
                    (p.0.1 matches BehaviourMatcher::Explicit(e) && e@
                        == crate::tokens::spec_space_joined(
                        crate::tokens::token_texts(tokens@.subrange(i + 1, m_end)),
                    ))
                })
                &&& m_end < tokens@.len()
                &&& (spec_tok_is(tokens@, m_end, "then_return"@) || spec_tok_is(
                    tokens@,
                    m_end,
                    "then_return_ref"@,
                ) ==> (p.0.2 matches Return::FromValue(e) && e@
                    == crate::tokens::spec_space_joined(
                    crate::tokens::token_texts(tokens@.subrange(m_end + 1, t_end)),
                )))
                &&& (spec_tok_is(tokens@, m_end, "then_return_from"@) || spec_tok_is(
                    tokens@,
                    m_end,
                    "then_return_ref_from"@,
                ) ==> (p.0.2 matches Return::FromCall(e) && e@
                    == crate::tokens::spec_space_joined(
                    crate::tokens::token_texts(tokens@.subrange(m_end + 1, t_end)),
                )))
                &&& (spec_tok_is(tokens@, m_end, "then_spy_on_object"@) ==> p.0.2 is FromSpy)
                &&& (spec_tok_is(tokens@, m_end, "then_panic"@) ==> p.0.2 is Panic)
                &&& t_end < tokens@.len()
                &&& (spec_tok_is(tokens@, t_end, "times"@) ==> (p.0.3 matches GivenRepeat::Times(
                    e,
                ) && e@ == crate::tokens::spec_space_joined(
                    crate::tokens::token_texts(
                        tokens@.subrange(
                            t_end + 1,
                            spec_scan(tokens@, t_end + 1, 0, seq![";"@], false),
                        ),
                    ),
                ) && p.1 as int == spec_scan(tokens@, t_end + 1, 0, seq![";"@], false)))
                &&& (spec_tok_is(tokens@, t_end, "always"@) ==> p.0.3 is Always && p.1 as int
                    == t_end + 1)
                &&& (spec_tok_is(tokens@, t_end, "once"@) ==> (p.0.3 matches GivenRepeat::Times(e)
                    && e@ == "1"@ && p.1 as int == t_end + 1))
            },
            Err(_) => true,
        }),
{
    if i >= tokens.len() {
        return Err(String::from_str("Expecting a method name in a given statement"));
    }
    let method = tokens[i].text.clone();
    let mut j = i + 1;

    let ghost m_end = spec_given_matcher_end(tokens@, i as int);
    let matcher: BehaviourMatcher;
    if tok_is(tokens, j, "(") {
        let mut args: Vec<String> = Vec::new();
        j = j + 1;
        if tok_is(tokens, j, ")") {
            j = j + 1;
            proof {
                assert(j as int == m_end);
            }
        } else {
            let seps = stops2(",", ")");
            let ghost arg_start = j as int;
            loop
                invariant_except_break
                    spec_parse_args(tokens@, arg_start).0 =~= args@.map_values(|a: String| a@)
                        + spec_parse_args(tokens@, j as int).0,
                    spec_parse_args(tokens@, arg_start).1 == spec_parse_args(tokens@, j as int).1,
                invariant
                    seps@.map_values(|a: String| a@) == seq![","@, ")"@],
                    arg_start == i + 2,
                    i + 1 < j <= tokens@.len(),
                ensures
                    i + 1 < j <= tokens@.len(),
                    args@.map_values(|a: String| a@) =~= spec_parse_args(tokens@, arg_start).0,
                    j as int == spec_parse_args(tokens@, arg_start).1,
                decreases tokens@.len() - j,
            {
                let ghost pre = args@;
                let (e, j2) = scan_expr(tokens, j, &seps);
                args.push(e);
                proof {
                    assert(args@.map_values(|a: String| a@) =~= pre.map_values(|a: String| a@)
                        + seq![e@]);
                }
                if tok_is(tokens, j2, ",") {
                    j = j2 + 1;
                } else {
                    let j3 = expect_tok(tokens, j2, ")", "the argument matcher list")?;
                    proof {
                        assert(spec_parse_args(tokens@, j as int) == (
                            seq![e@],
                            j2 as int + 1,
                        ));
                    }
                    j = j3;
                    break ;
                }
            }
            proof {
                assert(j as int == m_end);
            }
        }
        matcher = BehaviourMatcher::PerArgument(args);
    } else {
        let mut thens = stops3("then_return", "then_return_from", "then_return_ref");
        proof {
            assert(thens@.map_values(|s: String| s@) == seq![
                "then_return"@,
                "then_return_from"@,
                "then_return_ref"@,
            ]);
            assert(thens@.map_values(|s: String| s@).len() == 3);
            assert(thens@.len() == 3);
        }
        thens.push("then_return_ref_from".to_owned());
        thens.push("then_spy_on_object".to_owned());
        thens.push("then_panic".to_owned());
        proof {
            let tv = thens@.map_values(|a: String| a@);
            assert(thens@.len() == 6);
            assert(tv.len() == 6);
            assert(tv[0] == "then_return"@);
            assert(tv[1] == "then_return_from"@);
            assert(tv[2] == "then_return_ref"@);
            assert(tv[3] == "then_return_ref_from"@);
            assert(tv[4] == "then_spy_on_object"@);
            assert(tv[5] == "then_panic"@);
            assert(tv =~= spec_then_keywords());
        }
        let (e, j2) = scan_expr(tokens, j, &thens);
        if e.as_str().is_empty() {
            return Err(
                String::from_str(
                    "Expecting an argument matcher list or an explicit matcher expression",
                ),
            );
        }
        matcher = BehaviourMatcher::Explicit(e);
        j = j2;
        proof {
            assert(j as int == m_end);
        }
    }
    let ghost t_end = spec_given_then_end(tokens@, m_end);

    let repeats = stops3("times", "always", "once");
    proof {
        assert(repeats@.map_values(|s: String| s@) == seq!["times"@, "always"@, "once"@]);
    }
    let return_stmt: Return;
    if tok_is(tokens, j, "then_return") || tok_is(tokens, j, "then_return_ref") {
        let (e, j2) = scan_expr(tokens, j + 1, &repeats);
        return_stmt = Return::FromValue(e);
        j = j2;
        proof {
            lemma_keywords_distinct();
            assert(j as int == t_end);
        }
    } else if tok_is(tokens, j, "then_return_from") || tok_is(tokens, j, "then_return_ref_from") {
        let (e, j2) = scan_expr(tokens, j + 1, &repeats);
        return_stmt = Return::FromCall(e);
        j = j2;
        proof {
            lemma_keywords_distinct();
            assert(j as int == t_end);
        }
    } else if tok_is(tokens, j, "then_spy_on_object") {
        return_stmt = Return::FromSpy;
        j = j + 1;
        proof {
            assert(j as int == t_end);
        }
    } else if tok_is(tokens, j, "then_panic") {
        return_stmt = Return::Panic;
        j = j + 1;
        proof {
            assert(j as int == t_end);
        }
    } else {
        return Err(
            String::from_str(
                "Expecting `then_return`, `then_return_from`, `then_spy_on_object` or `then_panic` in a given statement",
            ),
        );
    }

    let repeat: GivenRepeat;
    if tok_is(tokens, j, "times") {
        let semi = stops1(";");
        proof {
            assert(semi@.map_values(|s: String| s@) == seq![";"@]);
        }
        let (e, j2) = scan_expr(tokens, j + 1, &semi);
        repeat = GivenRepeat::Times(e);
        j = j2;
    } else if tok_is(tokens, j, "always") {
        repeat = GivenRepeat::Always;
        j = j + 1;
    } else if tok_is(tokens, j, "once") {
        repeat = GivenRepeat::Times(String::from_str("1"));
        j = j + 1;
    } else {
        return Err(
            String::from_str("Expecting `times`, `always` or `once` to end a given statement"),
        );
    }

    if j <= i {
        return Err(String::from_str("Expecting a non-empty given statement"));
    }
    proof {
        lemma_keywords_distinct();
    }
    Ok(((method, matcher, return_stmt, repeat), j))
}

/// Parses the head `< VAR as TRAIT_PATH > ::` shared by single statements
/// and the block shorthand; returns the mock variable, the trait
/// reference, and the position after `::`.
fn parse_ufc_head(tokens: &Vec<Token>, i: usize) -> (r: Result<(String, String, usize), String>)
    requires
        i <= tokens@.len(),
    ensures
        ({
            let path_end = spec_scan(tokens@, i + 3, 0, seq![">"@], true);
            &&& (r matches Ok(p) ==> {
                &&& i < p.2 <= tokens@.len()
                &&& spec_tok_is(tokens@, i as int, "<"@)
                &&& p.0@ == tokens@[i + 1].text@
                &&& p.1@ == crate::tokens::spec_space_joined(
                    crate::tokens::token_texts(tokens@.subrange(i + 3, path_end)),
                )
                &&& spec_tok_is(tokens@, path_end, ">"@)
                &&& spec_tok_is(tokens@, path_end + 1, "::"@)
                &&& p.2 as int == path_end + 2
            })
        }),
{
    let grammar = "`<MOCK_VAR_NAME as MOCKED_TRAIT>::METHOD(MATCHER, ...)`";
    let j = expect_tok(tokens, i, "<", grammar)?;
    if j >= tokens.len() {
        return Err(String::from_str("Expecting a mock variable name"));
    }
    let mock_var = tokens[j].text.clone();
    let j2 = expect_tok(tokens, j + 1, "as", grammar)?;
    let gt = stops1(">");
    let (ufc_trait, j3) = scan_type(tokens, j2, &gt);
    let j4 = expect_tok(tokens, j3, ">", grammar)?;
    let j5 = expect_tok(tokens, j4, "::", grammar)?;
    Ok((mock_var, ufc_trait, j5))
}

/// Parses one given-statement or one block-shorthand group; the statements
/// come back with placeholder block and statement ids.
pub fn parse_given(tokens: &Vec<Token>, i: usize) -> (r: Result<(Vec<GivenStatement>, usize), String>)
    requires
        i <= tokens@.len(),
    ensures
        (match r {
            Ok(p) => {
                let path_end = spec_scan(tokens@, i + 3, 0, seq![">"@], true);
                &&& i < p.1 <= tokens@.len()
                &&& spec_tok_is(tokens@, i as int, "<"@)
                &&& forall|k: int|
                    0 <= k < p.0@.len() ==> (#[trigger] p.0@[k]).mock_var@ == tokens@[i
                        + 1].text@ && p.0@[k].ufc_trait@ == crate::tokens::spec_space_joined(
                        crate::tokens::token_texts(tokens@.subrange(i + 3, path_end)),
                    ) && p.0@[k].block_id == 0 && p.0@[k].stmt_id == 0
            },
            Err(_) => true,
        }),
{
    let (mock_var, ufc_trait, mut j) = parse_ufc_head(tokens, i)?;
    let mut statements: Vec<GivenStatement> = Vec::new();
    if tok_is(tokens, j, "{") {
        j = j + 1;
        loop
            invariant
                i < j <= tokens@.len(),
                forall|k: int|
                    0 <= k < statements@.len() ==> (#[trigger] statements@[k]).mock_var@
                        == mock_var@ && statements@[k].ufc_trait@ == ufc_trait@
                        && statements@[k].block_id == 0 && statements@[k].stmt_id == 0,
            ensures
                i < j <= tokens@.len(),
                forall|k: int|
                    0 <= k < statements@.len() ==> (#[trigger] statements@[k]).mock_var@
                        == mock_var@ && statements@[k].ufc_trait@ == ufc_trait@
                        && statements@[k].block_id == 0 && statements@[k].stmt_id == 0,
            decreases tokens@.len() - j,
        {
            if tok_is(tokens, j, "}") {
                j = j + 1;
                break ;
            }
            if j >= tokens.len() {
                return Err(String::from_str("Expecting `}` to close a given block"));
            }
            let (func, j2) = parse_given_func(tokens, j)?;
            let j3 = expect_tok(tokens, j2, ";", "a given block statement list")?;
            statements.push(
                GivenStatement {
                    block_id: 0,
                    stmt_id: 0,
                    mock_var: mock_var.clone(),
                    ufc_trait: ufc_trait.clone(),
                    method: func.0,
                    matcher: func.1,
                    return_stmt: func.2,
                    repeat: func.3,
                },
            );
            j = j3;
        }
    } else {
        let (func, j2) = parse_given_func(tokens, j)?;
        statements.push(
            GivenStatement {
                block_id: 0,
                stmt_id: 0,
                mock_var,
                ufc_trait,
                method: func.0,
                matcher: func.1,
                return_stmt: func.2,
                repeat: func.3,
            },
        );
        j = j2;
    }
    Ok((statements, j))
}

/// Parses a whole `given ! { BINDS; STATEMENTS; }` block from the start of
/// the token list; returns the bindings, the statements, and the position
/// after the closing brace.
pub fn parse_givens(tokens: &Vec<Token>) -> (r: Result<
    (Vec<BindingField>, Vec<GivenStatement>, usize),
    String,
>)
    ensures
        (match r {
            Ok(p) => 0 < p.2 <= tokens@.len() && spec_tok_is(tokens@, 0, "given"@),
            Err(_) => true,
        }),
{
    let grammar = "`given! { ... }`";
    let j = expect_tok(tokens, 0, "given", grammar)?;
    let j2 = expect_tok(tokens, j, "!", grammar)?;
    let mut i = expect_tok(tokens, j2, "{", grammar)?;
    let mut bindings: Vec<BindingField> = Vec::new();
    while tok_is(tokens, i, "bind")
        invariant
            0 < i <= tokens@.len(),
        decreases tokens@.len() - i,
    {
        let (field, k) = parse_bind(tokens, i)?;
        let k2 = expect_tok(tokens, k, ";", "`bind NAME: TYPE = EXPR;`")?;
        bindings.push(field);
        i = k2;
    }
    let mut statements: Vec<GivenStatement> = Vec::new();
    while tok_is(tokens, i, "<")
        invariant
            0 < i <= tokens@.len(),
        decreases tokens@.len() - i,
    {
        let (mut stmts, k) = parse_given(tokens, i)?;
        let k2 = expect_tok(tokens, k, ";", "a `given!` statement list")?;
        statements.append(&mut stmts);
        i = k2;
    }
    let end = expect_tok(tokens, i, "}", grammar)?;
    Ok((bindings, statements, end))
}

/// The repeat-clause keywords of an expect-statement, in recognition
/// order.
pub open spec fn spec_expect_repeat_keywords() -> Seq<Seq<char>> {
    seq!["times"@, "at_least"@, "at_most"@, "between"@, "never"@, "once"@]
}

/// Where an expect-statement's matcher ends: after the parenthesized
/// argument-matcher list, or at the first repeat keyword.
pub open spec fn spec_expect_matcher_end(tokens: Seq<Token>, j0: int) -> int {
    if spec_tok_is(tokens, j0 + 1, "("@) {
        if spec_tok_is(tokens, j0 + 2, ")"@) {
            j0 + 3
        } else {
            spec_parse_args(tokens, j0 + 2).1
        }
    } else {
        spec_scan(tokens, j0 + 1, 0, spec_expect_repeat_keywords(), false)
    }
}

proof fn lemma_expect_keywords_distinct()
    ensures
        "times"@ != "at_least"@,
        "times"@ != "at_most"@,
        "times"@ != "between"@,
        "times"@ != "never"@,
        "times"@ != "once"@,
        "at_least"@ != "at_most"@,
        "at_least"@ != "between"@,
        "at_least"@ != "never"@,
        "at_least"@ != "once"@,
        "at_most"@ != "between"@,
        "at_most"@ != "never"@,
        "at_most"@ != "once"@,
        "between"@ != "never"@,
        "between"@ != "once"@,
        "never"@ != "once"@,
{
    reveal_strlit("times");
    reveal_strlit("at_least");
    reveal_strlit("at_most");
    reveal_strlit("between");
    reveal_strlit("never");
    reveal_strlit("once");
    assert("times"@.len() == 5);
    assert("at_least"@.len() == 8);
    assert("at_most"@.len() == 7);
    assert("between"@.len() == 7);
    assert("never"@.len() == 5);
    assert("once"@.len() == 4);
    assert("at_most"@[0] == 'a');
    assert("between"@[0] == 'b');
    assert("times"@[0] == 't');
    assert("never"@[0] == 'n');
}

/// Parses one expect-statement: `< VAR as TRAIT > :: METHOD MATCHER
/// REPEAT`, with the matcher and the repeat bounds mapped keyword by
/// keyword (`never` is `times 0`, `once` is `times 1`).
pub fn parse_expect_interaction(tokens: &Vec<Token>, i: usize) -> (r: Result<
    (ExpectStatement, usize),
    String,
>)
    requires
        i <= tokens@.len(),
    ensures
        (match r {
            Ok(p) => {
                let path_end = spec_scan(tokens@, i + 3, 0, seq![">"@], true);
                &&& i < p.1 <= tokens@.len()
                &&& spec_tok_is(tokens@, i as int, "<"@)
                &&& p.0.mock_var@ == tokens@[i + 1].text@
                &&& p.0.ufc_trait@ == crate::tokens::spec_space_joined(
                    crate::tokens::token_texts(tokens@.subrange(i + 3, path_end)),
                )
                &&& p.0.method@ == tokens@[path_end + 2].text@
                &&& p.0.block_id == 0
                &&& p.0.stmt_id == 0
                &&& ({
                    let j0 = path_end + 2;
                    let m_end = spec_expect_matcher_end(tokens@, j0);
                    &&& (if spec_tok_is(tokens@, j0 + 1, "("@) {
                        if spec_tok_is(tokens@, j0 + 2, ")"@) {
                            (p.0.matcher matches BehaviourMatcher::PerArgument(es) && es@.len()
                                == 0)
                        } else {
                            (p.0.matcher matches BehaviourMatcher::PerArgument(es)
                                && es@.map_values(|a: String| a@) == spec_parse_args(
                                tokens@,
                                j0 + 2,
                            ).0)
                        }
                    } else {
                        (p.0.matcher matches BehaviourMatcher::Explicit(e) && e@
                            == crate::tokens::spec_space_joined(
                            crate::tokens::token_texts(tokens@.subrange(j0 + 1, m_end)),
                        ))
                    })
                    &&& m_end < tokens@.len()
                    &&& (spec_tok_is(tokens@, m_end, "times"@) ==> (p.0.repeat matches
                        ExpectRepeat::Times(e) && e@ == crate::tokens::spec_space_joined(
                        crate::tokens::token_texts(
                            tokens@.subrange(
                                m_end + 1,
                                spec_scan(tokens@, m_end + 1, 0, seq![";"@], false),
                            ),
                        ),
                    ) && p.1 as int == spec_scan(tokens@, m_end + 1, 0, seq![";"@], false)))
                    &&& (spec_tok_is(tokens@, m_end, "at_least"@) ==> (p.0.repeat matches
                        ExpectRepeat::AtLeast(e) && e@ == crate::tokens::spec_space_joined(
                        crate::tokens::token_texts(
                            tokens@.subrange(
                                m_end + 1,
                                spec_scan(tokens@, m_end + 1, 0, seq![";"@], false),
                            ),
                        ),
                    ) && p.1 as int == spec_scan(tokens@, m_end + 1, 0, seq![";"@], false)))
                    &&& (spec_tok_is(tokens@, m_end, "at_most"@) ==> (p.0.repeat matches
                        ExpectRepeat::AtMost(e) && e@ == crate::tokens::spec_space_joined(
                        crate::tokens::token_texts(
                            tokens@.subrange(
                                m_end + 1,
                                spec_scan(tokens@, m_end + 1, 0, seq![";"@], false),
                            ),
                        ),
                    ) && p.1 as int == spec_scan(tokens@, m_end + 1, 0, seq![";"@], false)))
                    &&& (spec_tok_is(tokens@, m_end, "between"@) ==> ({
                        let c_end = spec_scan(tokens@, m_end + 1, 0, seq![","@], false);
                        let h_end = spec_scan(tokens@, c_end + 1, 0, seq![";"@], false);
                        p.0.repeat matches ExpectRepeat::Between(lo, hi) && lo@
                            == crate::tokens::spec_space_joined(
                            crate::tokens::token_texts(tokens@.subrange(m_end + 1, c_end)),
                        ) && hi@ == crate::tokens::spec_space_joined(
                            crate::tokens::token_texts(tokens@.subrange(c_end + 1, h_end)),
                        ) && p.1 as int == h_end
                    }))
                    &&& (spec_tok_is(tokens@, m_end, "never"@) ==> (p.0.repeat matches
                        ExpectRepeat::Times(e) && e@ == "0"@ && p.1 as int == m_end + 1))
                    &&& (spec_tok_is(tokens@, m_end, "once"@) ==> (p.0.repeat matches
                        ExpectRepeat::Times(e) && e@ == "1"@ && p.1 as int == m_end + 1))
                })
            },
            Err(_) => true,
        }),
{
    let (mock_var, ufc_trait, j0) = parse_ufc_head(tokens, i)?;
    if j0 >= tokens.len() {
        return Err(String::from_str("Expecting a method name in an expect statement"));
    }
    let method = tokens[j0].text.clone();
    let mut j = j0 + 1;

    let ghost m_end = spec_expect_matcher_end(tokens@, j0 as int);
    let matcher: BehaviourMatcher;
    if tok_is(tokens, j, "(") {
        let mut args: Vec<String> = Vec::new();
        j = j + 1;
        if tok_is(tokens, j, ")") {
            j = j + 1;
            proof {
                assert(j as int == m_end);
            }
        } else {
            let seps = stops2(",", ")");
            let ghost arg_start = j as int;
            loop
                invariant_except_break
                    spec_parse_args(tokens@, arg_start).0 =~= args@.map_values(|a: String| a@)
                        + spec_parse_args(tokens@, j as int).0,
                    spec_parse_args(tokens@, arg_start).1 == spec_parse_args(tokens@, j as int).1,
                invariant
                    seps@.map_values(|a: String| a@) == seq![","@, ")"@],
                    arg_start == j0 + 2,
                    j0 < j <= tokens@.len(),
                ensures
                    j0 < j <= tokens@.len(),
                    args@.map_values(|a: String| a@) =~= spec_parse_args(tokens@, arg_start).0,
                    j as int == spec_parse_args(tokens@, arg_start).1,
                decreases tokens@.len() - j,
            {
                let ghost pre = args@;
                let (e, j2) = scan_expr(tokens, j, &seps);
                args.push(e);
                proof {
                    assert(args@.map_values(|a: String| a@) =~= pre.map_values(|a: String| a@)
                        + seq![e@]);
                }
                if tok_is(tokens, j2, ",") {
                    j = j2 + 1;
                } else {
                    let j3 = expect_tok(tokens, j2, ")", "the argument matcher list")?;
                    proof {
                        assert(spec_parse_args(tokens@, j as int) == (
                            seq![e@],
                            j2 as int + 1,
                        ));
                    }
                    j = j3;
                    break ;
                }
            }
            proof {
                assert(j as int == m_end);
            }
        }
        matcher = BehaviourMatcher::PerArgument(args);
    } else {
        let mut reps = stops3("times", "at_least", "at_most");
        reps.push("between".to_owned());
        reps.push("never".to_owned());
        reps.push("once".to_owned());
        proof {
            assert(reps@.map_values(|s: String| s@) == seq!["times"@, "at_least"@, "at_most"@]
                .push("between"@).push("never"@).push("once"@));
            assert(reps@.map_values(|s: String| s@) =~= spec_expect_repeat_keywords());
        }
        let (e, j2) = scan_expr(tokens, j, &reps);
        if e.as_str().is_empty() {
            return Err(
                String::from_str(
                    "Expecting an argument matcher list or an explicit matcher expression",
                ),
            );
        }
        matcher = BehaviourMatcher::Explicit(e);
        j = j2;
        proof {
            assert(j as int == m_end);
        }
    }

    let repeat: ExpectRepeat;
    let semi = stops1(";");
    proof {
        assert(semi@.map_values(|s: String| s@) == seq![";"@]);
    }
    if tok_is(tokens, j, "times") {
        let (e, j2) = scan_expr(tokens, j + 1, &semi);
        repeat = ExpectRepeat::Times(e);
        j = j2;
    } else if tok_is(tokens, j, "at_least") {
        let (e, j2) = scan_expr(tokens, j + 1, &semi);
        repeat = ExpectRepeat::AtLeast(e);
        j = j2;
    } else if tok_is(tokens, j, "at_most") {
        let (e, j2) = scan_expr(tokens, j + 1, &semi);
        repeat = ExpectRepeat::AtMost(e);
        j = j2;
    } else if tok_is(tokens, j, "between") {
        let comma = stops1(",");
        proof {
            assert(comma@.map_values(|s: String| s@) == seq![","@]);
        }
        let (lo, j2) = scan_expr(tokens, j + 1, &comma);
        let j3 = expect_tok(tokens, j2, ",", "`between LOWER, UPPER`")?;
        let (hi, j4) = scan_expr(tokens, j3, &semi);
        repeat = ExpectRepeat::Between(lo, hi);
        j = j4;
    } else if tok_is(tokens, j, "never") {
        repeat = ExpectRepeat::Times(String::from_str("0"));
        j = j + 1;
    } else if tok_is(tokens, j, "once") {
        repeat = ExpectRepeat::Times(String::from_str("1"));
        j = j + 1;
    } else {
        return Err(
            String::from_str(
                "Expecting `times`, `at_least`, `at_most`, `between`, `never` or `once` to end an expect statement",
            ),
        );
    }

    proof {
        lemma_expect_keywords_distinct();
    }
    Ok(
        (
            ExpectStatement {
                block_id: 0,
                stmt_id: 0,
                mock_var,
                ufc_trait,
                method,
                matcher,
                repeat,
            },
            j,
        ),
    )
}

/// Parses a whole `expect_interactions ! { BINDS; STATEMENTS; }` block
/// from the start of the token list.
pub fn parse_expect_interactions(tokens: &Vec<Token>) -> (r: Result<
    (Vec<BindingField>, Vec<ExpectStatement>, usize),
    String,
>)
    ensures
        (match r {
            Ok(p) => 0 < p.2 <= tokens@.len() && spec_tok_is(tokens@, 0, "expect_interactions"@),
            Err(_) => true,
        }),
{
    let grammar = "`expect_interactions! { ... }`";
    let j = expect_tok(tokens, 0, "expect_interactions", grammar)?;
    let j2 = expect_tok(tokens, j, "!", grammar)?;
    let mut i = expect_tok(tokens, j2, "{", grammar)?;
    let mut bindings: Vec<BindingField> = Vec::new();
    while tok_is(tokens, i, "bind")
        invariant
            0 < i <= tokens@.len(),
        decreases tokens@.len() - i,
    {
        let (field, k) = parse_bind(tokens, i)?;
        let k2 = expect_tok(tokens, k, ";", "`bind NAME: TYPE = EXPR;`")?;
        bindings.push(field);
        i = k2;
    }
    let mut statements: Vec<ExpectStatement> = Vec::new();
    while tok_is(tokens, i, "<")
        invariant
            0 < i <= tokens@.len(),
        decreases tokens@.len() - i,
    {
        let (stmt, k) = parse_expect_interaction(tokens, i)?;
        let k2 = expect_tok(tokens, k, ";", "an `expect_interactions!` statement list")?;
        statements.push(stmt);
        i = k2;
    }
    let end = expect_tok(tokens, i, "}", grammar)?;
    Ok((bindings, statements, end))
}

/// Parses `new_mock ! ( TRAITS... #[ATTR]... [for NAME] ) ;` from the
/// start of the token list.
pub fn parse_new_mock(tokens: &Vec<Token>) -> (r: Result<(RequestedMock, usize), String>)
    ensures
        (match r {
            Ok(p) => 0 < p.1 <= tokens@.len() && spec_tok_is(tokens@, 0, "new_mock"@)
                && p.0.traits@.len() >= 1,
            Err(_) => true,
        }),
{
    let grammar = "`new_mock!(paths::to::Traits, ... #[optional_attributes]... );`";
    let j = expect_tok(tokens, 0, "new_mock", grammar)?;
    let j2 = expect_tok(tokens, j, "!", grammar)?;
    let mut i = expect_tok(tokens, j2, "(", grammar)?;

    let mut traits: Vec<String> = Vec::new();
    let seps = {
        let mut v = stops3(",", ")", "#");
        v.push("for".to_owned());
        v
    };
    loop
        invariant
            0 < i <= tokens@.len(),
        ensures
            0 < i <= tokens@.len(),
        decreases tokens@.len() - i,
    {
        let (ty, k) = scan_type(tokens, i, &seps);
        if !ty.as_str().is_empty() {
            traits.push(ty);
        }
        if tok_is(tokens, k, ",") {
            i = k + 1;
        } else {
            if k <= i && traits.len() == 0 {
                return Err(String::from_str("Expecting at least one trait reference"));
            }
            i = if k > i {
                k
            } else {
                i
            };
            break ;
        }
    }
    if traits.len() == 0 {
        return Err(String::from_str("Expecting at least one trait reference"));
    }

    let mut attributes: Vec<String> = Vec::new();
    while tok_is(tokens, i, "#")
        invariant
            0 < i <= tokens@.len(),
        decreases tokens@.len() - i,
    {
        let k = expect_tok(tokens, i + 1, "[", "`#[ATTRIBUTE]`")?;
        let close = stops1("]");
        let (content, k2) = scan_expr(tokens, k, &close);
        let k3 = expect_tok(tokens, k2, "]", "`#[ATTRIBUTE]`")?;
        let mut attr = String::from_str("#[");
        attr.append(content.as_str());
        attr.append("]");
        attributes.push(attr);
        i = k3;
    }

    let mut maybe_type_name: Option<String> = None;
    if tok_is(tokens, i, "for") {
        if i + 1 >= tokens.len() {
            return Err(String::from_str("Expecting a type name after `for`"));
        }
        maybe_type_name = Some(tokens[i + 1].text.clone());
        i = i + 2;
    }

    let k = expect_tok(tokens, i, ")", grammar)?;
    let end = expect_tok(tokens, k, ";", grammar)?;
    Ok((RequestedMock { traits, attributes, maybe_type_name }, end))
}

} // verus!
