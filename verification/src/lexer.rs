use vstd::prelude::*;

use crate::is_special_char;
use crate::token::{Token, TokenModel};
use vstd::string::{StrSliceExecFns, StringExecFns};

verus! {

/// Number of leading characters of `s` that differ from `stop`; `s` scanned
/// left to right, stopping at the first `stop` or at the end.
pub open spec fn run_until(s: Seq<char>, stop: char) -> nat
    decreases s.len(),
{
    if s.len() == 0 || s[0] == stop {
        0
    } else {
        (1 + run_until(s.drop_first(), stop)) as nat
    }
}

/// Number of consecutive `#` characters at the start of `s`.
pub open spec fn hash_run(s: Seq<char>) -> nat
    decreases s.len(),
{
    if s.len() == 0 || s[0] != '#' {
        0
    } else {
        (1 + hash_run(s.drop_first())) as nat
    }
}

/// Length of the maximal prefix of `s` free of special characters.
pub open spec fn text_run(s: Seq<char>) -> nat
    decreases s.len(),
{
    if s.len() == 0 || is_special_char(s[0]) {
        0
    } else {
        (1 + text_run(s.drop_first())) as nat
    }
}

/// True if `s` starts with a closing triple-backtick fence.
pub open spec fn fence_at(s: Seq<char>) -> bool {
    s.len() >= 3 && s[0] == '`' && s[1] == '`' && s[2] == '`'
}

/// Length of the code-block body: characters consumed verbatim until a
/// closing fence or the end of the input.
pub open spec fn fence_run(s: Seq<char>) -> nat
    decreases s.len(),
{
    if fence_at(s) || s.len() == 0 {
        0
    } else {
        (1 + fence_run(s.drop_first())) as nat
    }
}

pub proof fn lemma_run_until_le(s: Seq<char>, stop: char)
    ensures
        run_until(s, stop) <= s.len(),
        run_until(s, stop) < s.len() ==> s[run_until(s, stop) as int] == stop,
    decreases s.len(),
{
    if s.len() == 0 || s[0] == stop {
    } else {
        lemma_run_until_le(s.drop_first(), stop);
    }
}

pub proof fn lemma_hash_run_le(s: Seq<char>)
    ensures
        hash_run(s) <= s.len(),
    decreases s.len(),
{
    if s.len() == 0 || s[0] != '#' {
    } else {
        lemma_hash_run_le(s.drop_first());
    }
}

pub proof fn lemma_text_run_le(s: Seq<char>)
    ensures
        text_run(s) <= s.len(),
    decreases s.len(),
{
    if s.len() == 0 || is_special_char(s[0]) {
    } else {
        lemma_text_run_le(s.drop_first());
    }
}

pub proof fn lemma_fence_run_le(s: Seq<char>)
    ensures
        fence_run(s) <= s.len(),
        fence_run(s) < s.len() ==> fence_run(s) + 3 <= s.len() && fence_at(s.skip(fence_run(s) as int)),
    decreases s.len(),
{
    if fence_at(s) || s.len() == 0 {
        if fence_at(s) && s.len() > 0 {
            assert(s.skip(0) =~= s);
        }
    } else {
        lemma_fence_run_le(s.drop_first());
        if fence_run(s) < s.len() {
            let r = fence_run(s.drop_first());
            assert(s.drop_first().skip(r as int) =~= s.skip(1 + r as int));
        }
    }
}

/// The token stream produced from the characters `s`, given the current
/// state of the two emphasis toggles. One recursive step mirrors one
/// dispatch on the first remaining character.
pub open spec fn lex_from(s: Seq<char>, bold: bool, italic: bool) -> Seq<TokenModel>
    decreases s.len(),
    via lex_from_decreases
{
    if s.len() == 0 {
        Seq::empty()
    } else {
        let c = s[0];
        if c == '#' {
            // Count the `#` run, then consume one following space if present.
            let level = hash_run(s);
            let skipped: int = if level < s.len() && s[level as int] == ' ' {
                level + 1int
            } else {
                level as int
            };
            seq![TokenModel::Heading(level)] + lex_from(s.skip(skipped), bold, italic)
        } else if c == '*' {
            if s.len() >= 2 && s[1] == '*' {
                let t = if bold {
                    TokenModel::BoldEnd
                } else {
                    TokenModel::BoldStart
                };
                seq![t] + lex_from(s.skip(2), !bold, italic)
            } else {
                let t = if italic {
                    TokenModel::ItalicEnd
                } else {
                    TokenModel::ItalicStart
                };
                seq![t] + lex_from(s.skip(1), bold, !italic)
            }
        } else if c == '\n' {
            seq![TokenModel::NewLine] + lex_from(s.skip(1), bold, italic)
        } else if c == '[' {
            // Bracket text runs up to `]`; a full `[text](url)` form becomes
            // one Link token, anything less degrades to literal text tokens.
            let rest1 = s.skip(1);
            let tlen = run_until(rest1, ']') as int;
            let text = rest1.take(tlen);
            if tlen == rest1.len() {
                // No closing bracket: the scan consumed the whole input.
                seq![TokenModel::Text("["@), TokenModel::Text(text)]
            } else {
                let rest2 = rest1.skip(tlen + 1);
                if rest2.len() > 0 && rest2[0] == '(' {
                    let rest3 = rest2.skip(1);
                    let ulen = run_until(rest3, ')') as int;
                    let url = rest3.take(ulen);
                    if ulen < rest3.len() {
                        seq![(TokenModel::Link { text: text, url: url })] + lex_from(
                            rest3.skip(ulen + 1),
                            bold,
                            italic,
                        )
                    } else {
                        // Unterminated `(url`: reproduce the pieces verbatim;
                        // the scan consumed the whole input.
                        seq![
                            TokenModel::Text("["@),
                            TokenModel::Text(text),
                            TokenModel::Text("]"@),
                            TokenModel::Text("("@),
                            TokenModel::Text(url),
                        ]
                    }
                } else {
                    seq![
                        TokenModel::Text("["@),
                        TokenModel::Text(text),
                        TokenModel::Text("]"@),
                    ] + lex_from(rest2, bold, italic)
                }
            }
        } else if c == '-' {
            if s.len() >= 2 && s[1] == ' ' {
                seq![TokenModel::ListItemStart] + lex_from(s.skip(2), bold, italic)
            } else {
                seq![TokenModel::Text("-"@)] + lex_from(s.skip(1), bold, italic)
            }
        } else if c == '`' {
            if s.len() >= 3 && s[1] == '`' && s[2] == '`' {
                // Opening fence: drop the language specifier line, then take
                // the body verbatim up to a closing fence or the end.
                let after = s.skip(3);
                let lang = run_until(after, '\n') as int;
                let body_start = if lang < after.len() {
                    lang + 1
                } else {
                    lang
                };
                let rest = after.skip(body_start);
                let blen = fence_run(rest) as int;
                let code = rest.take(blen);
                if blen < rest.len() {
                    seq![TokenModel::CodeBlock(code)] + lex_from(rest.skip(blen + 3), bold, italic)
                } else {
                    seq![TokenModel::CodeBlock(code)]
                }
            } else {
                seq![TokenModel::Text("`"@)] + lex_from(s.skip(1), bold, italic)
            }
        } else {
            let run = text_run(s) as int;
            seq![TokenModel::Text(s.take(run))] + lex_from(s.skip(run), bold, italic)
        }
    }
}

#[via_fn]
proof fn lex_from_decreases(s: Seq<char>, bold: bool, italic: bool) {
    if s.len() > 0 {
        let c = s[0];
        if c == '#' {
            lemma_hash_run_le(s);
        } else if c == '[' {
            let rest1 = s.skip(1);
            lemma_run_until_le(rest1, ']');
            let tlen = run_until(rest1, ']') as int;
            if tlen < rest1.len() {
                let rest2 = rest1.skip(tlen + 1);
                if rest2.len() > 0 && rest2[0] == '(' {
                    lemma_run_until_le(rest2.skip(1), ')');
                }
            }
        } else if c == '`' && s.len() >= 3 && s[1] == '`' && s[2] == '`' {
            let after = s.skip(3);
            lemma_run_until_le(after, '\n');
            let lang = run_until(after, '\n') as int;
            let body_start = if lang < after.len() {
                lang + 1
            } else {
                lang
            };
            lemma_fence_run_le(after.skip(body_start));
        } else {
            lemma_text_run_le(s);
        }
    }
}

/// The full lexer contract: both emphasis toggles start closed.
pub open spec fn lex_spec(s: Seq<char>) -> Seq<TokenModel> {
    lex_from(s, false, false)
}

/// Advances from `start` to the first occurrence of `stop`, or to the end.
fn scan_until(input: &str, n: usize, start: usize, stop: char) -> (end: usize)
    requires
        n == input@.len(),
        start <= n,
    ensures
        start <= end <= n,
        end - start == run_until(input@.skip(start as int), stop),
        end < n ==> input@[end as int] == stop,
{
    let mut i = start;
    while i < n && input.get_char(i) != stop
        invariant
            n == input@.len(),
            start <= i <= n,
            run_until(input@.skip(start as int), stop) == (i - start) + run_until(
                input@.skip(i as int),
                stop,
            ),
        decreases n - i,
    {
        proof {
            assert(input@.skip(i as int).drop_first() =~= input@.skip((i + 1) as int));
        }
        i = i + 1;
    }
    i
}

/// Advances from `start` past the run of consecutive `#` characters.
fn scan_hashes(input: &str, n: usize, start: usize) -> (end: usize)
    requires
        n == input@.len(),
        start <= n,
    ensures
        start <= end <= n,
        end - start == hash_run(input@.skip(start as int)),
{
    let mut i = start;
    while i < n && input.get_char(i) == '#'
        invariant
            n == input@.len(),
            start <= i <= n,
            hash_run(input@.skip(start as int)) == (i - start) + hash_run(input@.skip(i as int)),
        decreases n - i,
    {
        proof {
            assert(input@.skip(i as int).drop_first() =~= input@.skip((i + 1) as int));
        }
        i = i + 1;
    }
    i
}

/// Advances from `start` past the run of ordinary (non-special) characters.
fn scan_text(input: &str, n: usize, start: usize) -> (end: usize)
    requires
        n == input@.len(),
        start <= n,
    ensures
        start <= end <= n,
        end - start == text_run(input@.skip(start as int)),
{
    let mut i = start;
    while i < n && !crate::is_special(input.get_char(i))
        invariant
            n == input@.len(),
            start <= i <= n,
            text_run(input@.skip(start as int)) == (i - start) + text_run(input@.skip(i as int)),
        decreases n - i,
    {
        proof {
            assert(input@.skip(i as int).drop_first() =~= input@.skip((i + 1) as int));
        }
        i = i + 1;
    }
    i
}

/// Executable test for a closing fence at position `i`.
fn fence_check(input: &str, n: usize, i: usize) -> (b: bool)
    requires
        n == input@.len(),
        i <= n,
    ensures
        b == fence_at(input@.skip(i as int)),
{
    i < n && input.get_char(i) == '`' && i + 1 < n && input.get_char(i + 1) == '`' && i + 2 < n
        && input.get_char(i + 2) == '`'
}

/// Advances from `start` over the code-block body, up to a closing fence or
/// the end of the input.
fn scan_fence(input: &str, n: usize, start: usize) -> (end: usize)
    requires
        n == input@.len(),
        start <= n,
    ensures
        start <= end <= n,
        end - start == fence_run(input@.skip(start as int)),
        end < n ==> fence_at(input@.skip(end as int)),
{
    let mut i = start;
    while i < n && !fence_check(input, n, i)
        invariant
            n == input@.len(),
            start <= i <= n,
            fence_run(input@.skip(start as int)) == (i - start) + fence_run(input@.skip(i as int)),
        decreases n - i,
    {
        proof {
            assert(input@.skip(i as int).drop_first() =~= input@.skip((i + 1) as int));
        }
        i = i + 1;
    }
    i
}

/// One lexer step on a `#` dispatch: counts the run, consumes an optional
/// space, and emits the Heading token.
fn lex_hash_step(
    input: &str,
    n: usize,
    i: usize,
    tokens: &mut Vec<Token>,
    Ghost(b): Ghost<bool>,
    Ghost(t): Ghost<bool>,
) -> (j: usize)
    requires
        n == input@.len(),
        i < n,
        input@[i as int] == '#',
    ensures
        i < j <= n,
        old(tokens).deep_view() + lex_from(input@.skip(i as int), b, t) == final(tokens).deep_view() + lex_from(input@.skip(j as int), b, t),
{
    let ghost rem = input@.skip(i as int);
    let ghost pre = tokens.deep_view();
    let hend = scan_hashes(input, n, i);
    let level = hend - i;
    let mut j = hend;
    if j < n && input.get_char(j) == ' ' {
        j = j + 1;
    }
    crate::push_deep(tokens, Token::Heading(level));
    proof {
        assert(rem[0] == '#');
        assert(level as nat == hash_run(rem));
        assert(level as nat <= rem.len());
        assert(level < rem.len() ==> rem[level as int] == input@[hend as int]);
        assert(rem.skip(j - i) =~= input@.skip(j as int));
        assert(lex_from(rem, b, t) == seq![TokenModel::Heading(level as nat)] + lex_from(
            input@.skip(j as int),
            b,
            t,
        ));
        assert(tokens.deep_view() + lex_from(input@.skip(j as int), b, t) =~= pre + lex_from(
            rem,
            b,
            t,
        ));
    }
    j
}

/// One lexer step on a `[` dispatch: scans for the bracket text and the
/// parenthesized url, emitting a Link token or the literal fallback.
fn lex_bracket_step(
    input: &str,
    n: usize,
    i: usize,
    tokens: &mut Vec<Token>,
    Ghost(b): Ghost<bool>,
    Ghost(t): Ghost<bool>,
) -> (j: usize)
    requires
        n == input@.len(),
        i < n,
        input@[i as int] == '[',
    ensures
        i < j <= n,
        old(tokens).deep_view() + lex_from(input@.skip(i as int), b, t) == final(tokens).deep_view() + lex_from(input@.skip(j as int), b, t),
{
    let ghost rem = input@.skip(i as int);
    let ghost pre = tokens.deep_view();
    let tstart = i + 1;
    let tend = scan_until(input, n, tstart, ']');
    let text = crate::strings::copy_range(input, n, tstart, tend);
    proof {
        assert(rem[0] == '[');
        assert(rem.skip(1) =~= input@.skip(tstart as int));
        assert(rem.skip(1).take(tend - tstart) =~= input@.subrange(tstart as int, tend as int));
    }
    if tend < n {
        if tend + 1 < n && input.get_char(tend + 1) == '(' {
            let ustart = tend + 2;
            let uend = scan_until(input, n, ustart, ')');
            let url = crate::strings::copy_range(input, n, ustart, uend);
            proof {
                assert(rem.skip(1)[tend - tstart] == input@[tend as int]);
                assert(rem.skip(1).skip(tend - tstart + 1) =~= input@.skip((tend + 1) as int));
                assert(input@.skip((tend + 1) as int)[0] == input@[(tend + 1) as int]);
                assert(input@.skip((tend + 1) as int).skip(1) =~= input@.skip(ustart as int));
                assert(input@.skip(ustart as int).take(uend - ustart) =~= input@.subrange(
                    ustart as int,
                    uend as int,
                ));
            }
            if uend < n {
                crate::push_deep(tokens, Token::Link { text, url });
                proof {
                    assert(input@.skip(ustart as int).skip(uend - ustart + 1) =~= input@.skip(
                        (uend + 1) as int,
                    ));
                    assert(tokens.deep_view() + lex_from(input@.skip((uend + 1) as int), b, t) =~=
                        pre + lex_from(rem, b, t));
                }
                uend + 1
            } else {
                crate::push_deep(tokens, Token::Text(String::from_str("[")));
                crate::push_deep(tokens, Token::Text(text));
                crate::push_deep(tokens, Token::Text(String::from_str("]")));
                crate::push_deep(tokens, Token::Text(String::from_str("(")));
                crate::push_deep(tokens, Token::Text(url));
                proof {
                    assert(input@.skip(n as int) =~= Seq::<char>::empty());
                    assert(tokens.deep_view() + lex_from(input@.skip(n as int), b, t) =~= pre
                        + lex_from(rem, b, t));
                }
                n
            }
        } else {
            crate::push_deep(tokens, Token::Text(String::from_str("[")));
            crate::push_deep(tokens, Token::Text(text));
            crate::push_deep(tokens, Token::Text(String::from_str("]")));
            proof {
                assert(rem.skip(1)[tend - tstart] == input@[tend as int]);
                assert(rem.skip(1).skip(tend - tstart + 1) =~= input@.skip((tend + 1) as int));
                assert(input@.skip((tend + 1) as int).len() > 0 ==> input@.skip(
                    (tend + 1) as int,
                )[0] == input@[(tend + 1) as int]);
                assert(tokens.deep_view() + lex_from(input@.skip((tend + 1) as int), b, t) =~= pre
                    + lex_from(rem, b, t));
            }
            tend + 1
        }
    } else {
        crate::push_deep(tokens, Token::Text(String::from_str("[")));
        crate::push_deep(tokens, Token::Text(text));
        proof {
            assert(input@.skip(n as int) =~= Seq::<char>::empty());
            assert(tokens.deep_view() + lex_from(input@.skip(n as int), b, t) =~= pre + lex_from(
                rem,
                b,
                t,
            ));
        }
        n
    }
}

/// One lexer step on a backtick dispatch: either a fenced code block or a
/// literal backtick.
fn lex_tick_step(
    input: &str,
    n: usize,
    i: usize,
    tokens: &mut Vec<Token>,
    Ghost(b): Ghost<bool>,
    Ghost(t): Ghost<bool>,
) -> (j: usize)
    requires
        n == input@.len(),
        i < n,
        input@[i as int] == '`',
    ensures
        i < j <= n,
        old(tokens).deep_view() + lex_from(input@.skip(i as int), b, t) == final(tokens).deep_view() + lex_from(input@.skip(j as int), b, t),
{
    let ghost rem = input@.skip(i as int);
    let ghost pre = tokens.deep_view();
    if i + 1 < n && i + 2 < n && input.get_char(i + 1) == '`' && input.get_char(i + 2) == '`' {
        let lstart = i + 3;
        let lend = scan_until(input, n, lstart, '\n');
        let bstart = if lend < n {
            lend + 1
        } else {
            lend
        };
        let bend = scan_fence(input, n, bstart);
        let code = crate::strings::copy_range(input, n, bstart, bend);
        crate::push_deep(tokens, Token::CodeBlock(code));
        proof {
        assert(rem[0] == '`');
            assert(rem[1] == input@[(i + 1) as int]);
            assert(rem[2] == input@[(i + 2) as int]);
            let after = rem.skip(3);
            assert(after =~= input@.skip(lstart as int));
            let lang = run_until(after, '\n') as int;
            assert(lang == lend - lstart);
            assert(lang < after.len() <==> lend < n);
            let body_start: int = if lang < after.len() {
                lang + 1
            } else {
                lang
            };
            assert(after.skip(body_start) =~= input@.skip(bstart as int));
            assert(input@.skip(bstart as int).take(bend - bstart) =~= input@.subrange(
                bstart as int,
                bend as int,
            ));
        }
        if bend < n {
            proof {
                assert(input@.skip(bstart as int).skip(bend - bstart + 3) =~= input@.skip(
                    (bend + 3) as int,
                ));
                assert(tokens.deep_view() + lex_from(input@.skip((bend + 3) as int), b, t) =~= pre
                    + lex_from(rem, b, t));
            }
            bend + 3
        } else {
            proof {
                assert(input@.skip(n as int) =~= Seq::<char>::empty());
                assert(tokens.deep_view() + lex_from(input@.skip(n as int), b, t) =~= pre
                    + lex_from(rem, b, t));
            }
            n
        }
    } else {
        crate::push_deep(tokens, Token::Text(String::from_str("`")));
        proof {
            assert(rem[0] == '`');
            assert(rem.len() >= 2 ==> rem[1] == input@[(i + 1) as int]);
            assert(rem.len() >= 3 ==> rem[2] == input@[(i + 2) as int]);
            assert(rem.skip(1) =~= input@.skip((i + 1) as int));
            assert(tokens.deep_view() + lex_from(input@.skip((i + 1) as int), b, t) =~= pre
                + lex_from(rem, b, t));
        }
        i + 1
    }
}

/// One lexer step on an ordinary character: takes the whole run of
/// non-special characters as a single Text token.
fn lex_text_step(
    input: &str,
    n: usize,
    i: usize,
    tokens: &mut Vec<Token>,
    Ghost(b): Ghost<bool>,
    Ghost(t): Ghost<bool>,
) -> (j: usize)
    requires
        n == input@.len(),
        i < n,
        !is_special_char(input@[i as int]),
    ensures
        i < j <= n,
        old(tokens).deep_view() + lex_from(input@.skip(i as int), b, t) == final(tokens).deep_view() + lex_from(input@.skip(j as int), b, t),
{
    let ghost rem = input@.skip(i as int);
    let ghost pre = tokens.deep_view();
    let tend = scan_text(input, n, i);
    let buff = crate::strings::copy_range(input, n, i, tend);
    crate::push_deep(tokens, Token::Text(buff));
    proof {
        assert(!is_special_char(rem[0]));
        assert(text_run(rem) == tend - i);
        assert(text_run(rem) >= 1);
        assert(rem.take(tend - i) =~= input@.subrange(i as int, tend as int));
        assert(rem.skip(tend - i) =~= input@.skip(tend as int));
        assert(tokens.deep_view() + lex_from(input@.skip(tend as int), b, t) =~= pre + lex_from(
            rem,
            b,
            t,
        ));
    }
    tend
}

/// Tokenizes the full input in one left-to-right scan. Never fails: every
/// malformed construct degrades to literal text tokens.
pub fn lex(input: &str) -> (tokens: Vec<Token>)
    ensures
        tokens.deep_view() == lex_spec(input@),
{
    let n = input.unicode_len();
    let mut tokens: Vec<Token> = Vec::new();
    let mut bold = false;
    let mut italic = false;
    let mut i: usize = 0;
    proof {
        assert(input@.skip(0) =~= input@);
        assert(tokens.deep_view() =~= Seq::<TokenModel>::empty());
        assert(Seq::<TokenModel>::empty() + lex_from(input@, false, false) =~= lex_from(
            input@,
            false,
            false,
        ));
    }
    while i < n
        invariant
            n == input@.len(),
            i <= n,
            lex_spec(input@) == tokens.deep_view() + lex_from(input@.skip(i as int), bold, italic),
        decreases n - i,
    {
        let ghost rem = input@.skip(i as int);
        let ghost pre = tokens.deep_view();
        let ghost b0 = bold;
        let ghost t0 = italic;
        let c = input.get_char(i);
        proof {
            assert(rem.len() == n - i);
            assert(rem[0] == c);
        }
        if c == '#' {
            i = lex_hash_step(input, n, i, &mut tokens, Ghost(bold), Ghost(italic));
        } else if c == '*' {
            if i + 1 < n && input.get_char(i + 1) == '*' {
                let tok = if bold {
                    Token::BoldEnd
                } else {
                    Token::BoldStart
                };
                crate::push_deep(&mut tokens, tok);
                bold = !bold;
                proof {
                    assert(rem[1] == input@[(i + 1) as int]);
                    assert(rem.skip(2) =~= input@.skip((i + 2) as int));
                    assert(tokens.deep_view() + lex_from(input@.skip((i + 2) as int), bold, italic)
                        =~= pre + lex_from(rem, b0, t0));
                }
                i = i + 2;
            } else {
                let tok = if italic {
                    Token::ItalicEnd
                } else {
                    Token::ItalicStart
                };
                crate::push_deep(&mut tokens, tok);
                italic = !italic;
                proof {
                    assert(rem.len() >= 2 ==> rem[1] == input@[(i + 1) as int]);
                    assert(rem.skip(1) =~= input@.skip((i + 1) as int));
                    assert(tokens.deep_view() + lex_from(input@.skip((i + 1) as int), bold, italic)
                        =~= pre + lex_from(rem, b0, t0));
                }
                i = i + 1;
            }
        } else if c == '\n' {
            crate::push_deep(&mut tokens, Token::NewLine);
            proof {
                assert(rem.skip(1) =~= input@.skip((i + 1) as int));
                assert(tokens.deep_view() + lex_from(input@.skip((i + 1) as int), bold, italic) =~=
                    pre + lex_from(rem, b0, t0));
            }
            i = i + 1;
        } else if c == '[' {
            i = lex_bracket_step(input, n, i, &mut tokens, Ghost(bold), Ghost(italic));
        } else if c == '-' {
            if i + 1 < n && input.get_char(i + 1) == ' ' {
                crate::push_deep(&mut tokens, Token::ListItemStart);
                proof {
                    assert(rem[1] == input@[(i + 1) as int]);
                    assert(rem.skip(2) =~= input@.skip((i + 2) as int));
                    assert(tokens.deep_view() + lex_from(input@.skip((i + 2) as int), bold, italic)
                        =~= pre + lex_from(rem, b0, t0));
                }
                i = i + 2;
            } else {
                crate::push_deep(&mut tokens, Token::Text(String::from_str("-")));
                proof {
                    assert(rem.len() >= 2 ==> rem[1] == input@[(i + 1) as int]);
                    assert(rem.skip(1) =~= input@.skip((i + 1) as int));
                    assert(tokens.deep_view() + lex_from(input@.skip((i + 1) as int), bold, italic)
                        =~= pre + lex_from(rem, b0, t0));
                }
                i = i + 1;
            }
        } else if c == '`' {
            i = lex_tick_step(input, n, i, &mut tokens, Ghost(bold), Ghost(italic));
        } else {
            i = lex_text_step(input, n, i, &mut tokens, Ghost(bold), Ghost(italic));
        }
    }
    proof {
        assert(input@.skip(n as int) =~= Seq::<char>::empty());
        assert(tokens.deep_view() + Seq::<TokenModel>::empty() =~= tokens.deep_view());
    }
    tokens
}

} // verus!
