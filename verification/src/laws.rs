use vstd::prelude::*;

use crate::ast::NodeModel;
use crate::is_special_char;
use crate::lexer::{hash_run, lex_from, lex_spec, run_until, text_run};
use crate::parser::{line_len, parse_blocks, parse_inline_spec, parse_list_rest, parse_spec, until_bold_end};
use crate::render::{dec_rep, escape_char, escape_spec, render_cat_spec, render_joined_spec,
    render_node_spec};
use crate::to_html_spec;
use crate::token::TokenModel;

verus! {

/// A run of `n` heading marks.
pub open spec fn hash_marks(n: nat) -> Seq<char> {
    Seq::new(n, |i: int| '#')
}

/// A sequence is plain when it holds no markup-significant characters.
pub open spec fn plain(s: Seq<char>) -> bool {
    forall|i: int| 0 <= i < s.len() ==> !is_special_char(s[i])
}

/// A sequence needs no escaping when it holds none of `&`, `<`, `>`.
pub open spec fn unescaped(s: Seq<char>) -> bool {
    forall|i: int| 0 <= i < s.len() ==> s[i] != '&' && s[i] != '<' && s[i] != '>'
}

proof fn lemma_text_run_prefix(x: Seq<char>, y: Seq<char>)
    requires
        plain(x),
        y.len() == 0 || is_special_char(y[0]),
    ensures
        text_run(x + y) == x.len(),
    decreases x.len(),
{
    if x.len() == 0 {
        assert(x + y =~= y);
    } else {
        assert(plain(x.drop_first())) by {
            assert(forall|i: int|
                0 <= i < x.drop_first().len() ==> x.drop_first()[i] == x[i + 1]);
        }
        lemma_text_run_prefix(x.drop_first(), y);
        assert((x + y)[0] == x[0]);
        assert((x + y).drop_first() =~= x.drop_first() + y);
    }
}

/// A nonempty run of plain characters lexes as one Text token.
proof fn lemma_lex_plain(s: Seq<char>, b: bool, t: bool)
    requires
        s.len() > 0,
        plain(s),
    ensures
        lex_from(s, b, t) == seq![TokenModel::Text(s)],
{
    lemma_text_run_prefix(s, Seq::<char>::empty());
    assert(s + Seq::<char>::empty() =~= s);
    assert(text_run(s) == s.len());
    assert(s.take(s.len() as int) =~= s);
    assert(s.skip(s.len() as int) =~= Seq::<char>::empty());
    assert(lex_from(Seq::<char>::empty(), b, t) == Seq::<TokenModel>::empty());
    assert(seq![TokenModel::Text(s)] + Seq::<TokenModel>::empty() =~= seq![TokenModel::Text(s)]);
}

/// Escaping leaves a sequence without `&`, `<`, `>` unchanged.
pub proof fn lemma_escape_plain(s: Seq<char>)
    requires
        unescaped(s),
    ensures
        escape_spec(s) == s,
    decreases s.len(),
{
    if s.len() == 0 {
        assert(escape_spec(s) =~= s);
    } else {
        assert(unescaped(s.drop_first())) by {
            assert(forall|i: int|
                0 <= i < s.drop_first().len() ==> s.drop_first()[i] == s[i + 1]);
        }
        lemma_escape_plain(s.drop_first());
        assert(escape_char(s[0]) == seq![s[0]]);
        assert(seq![s[0]] + s.drop_first() =~= s);
    }
}

proof fn lemma_hash_marks_run(n: nat, rest: Seq<char>)
    requires
        rest.len() == 0 || rest[0] != '#',
    ensures
        hash_run(hash_marks(n) + rest) == n,
    decreases n,
{
    if n == 0 {
        assert(hash_marks(0) + rest =~= rest);
    } else {
        lemma_hash_marks_run((n - 1) as nat, rest);
        let s = hash_marks(n) + rest;
        assert(s[0] == '#');
        assert(s.drop_first() =~= hash_marks((n - 1) as nat) + rest);
    }
}

/// A single Text token parses as a one-line paragraph content of one node.
proof fn lemma_parse_inline_single_text(s: Seq<char>)
    ensures
        parse_inline_spec(seq![TokenModel::Text(s)]) == seq![NodeModel::Text(s)],
{
    let ts = seq![TokenModel::Text(s)];
    assert(ts.drop_first() =~= Seq::<TokenModel>::empty());
    assert(parse_inline_spec(Seq::<TokenModel>::empty()) == Seq::<NodeModel>::empty());
    assert(parse_inline_spec(ts) =~= seq![NodeModel::Text(s)]);
}

/// Heading round trip: `n` leading `#`, one space, and plain text `t` come
/// back as exactly `<hN>t</hN>`, for every level from one up.
#[verifier::rlimit(80)]
pub proof fn lemma_heading_round_trip(level: nat, text: Seq<char>)
    requires
        1 <= level,
        text.len() > 0,
        plain(text),
        unescaped(text),
    ensures
        to_html_spec(hash_marks(level) + seq![' '] + text) == "<h"@ + dec_rep(level) + ">"@ + text
            + "</h"@ + dec_rep(level) + ">"@,
{
    let input = hash_marks(level) + seq![' '] + text;
    let tail = seq![' '] + text;
    assert(input =~= hash_marks(level) + tail);
    assert(tail[0] == ' ');
    lemma_hash_marks_run(level, tail);
    assert(hash_run(input) == level);
    assert(input.len() == level + 1 + text.len());
    assert(input[0] == '#');
    assert(input[level as int] == tail[0]);
    assert(input.skip(level + 1int) =~= text);
    lemma_lex_plain(text, false, false);
    let toks = seq![TokenModel::Heading(level), TokenModel::Text(text)];
    assert(lex_from(input, false, false) == seq![TokenModel::Heading(level)] + lex_from(
        text,
        false,
        false,
    ));
    assert(seq![TokenModel::Heading(level)] + seq![TokenModel::Text(text)] =~= toks);
    assert(lex_spec(input) == toks);
    // block parsing: a single two-token line
    assert(toks.drop_first() =~= seq![TokenModel::Text(text)]);
    assert(seq![TokenModel::Text(text)].drop_first() =~= Seq::<TokenModel>::empty());
    assert(line_len(Seq::<TokenModel>::empty()) == 0);
    assert(seq![TokenModel::Text(text)][0] == TokenModel::Text(text));
    assert(line_len(seq![TokenModel::Text(text)]) == 1);
    assert(line_len(toks) == 2);
    assert(toks.take(2) =~= toks);
    assert(toks.take(2).skip(1) =~= seq![TokenModel::Text(text)]);
    assert(toks.skip(2) =~= Seq::<TokenModel>::empty());
    lemma_parse_inline_single_text(text);
    let hnode = NodeModel::Heading(level, seq![NodeModel::Text(text)]);
    assert(parse_blocks(Seq::<TokenModel>::empty()) == Seq::<NodeModel>::empty());
    assert(parse_blocks(toks) == seq![hnode] + Seq::<NodeModel>::empty());
    assert(seq![hnode] + Seq::<NodeModel>::empty() =~= seq![hnode]);
    assert(parse_spec(toks) == NodeModel::Document(seq![hnode]));
    // rendering
    lemma_escape_plain(text);
    assert(seq![NodeModel::Text(text)].drop_first() =~= Seq::<NodeModel>::empty());
    assert(render_cat_spec(Seq::<NodeModel>::empty()) == Seq::<char>::empty());
    assert(seq![NodeModel::Text(text)][0] == NodeModel::Text(text));
    assert(render_node_spec(NodeModel::Text(text)) == escape_spec(text));
    assert(render_cat_spec(seq![NodeModel::Text(text)]) == text + Seq::<char>::empty());
    assert(text + Seq::<char>::empty() =~= text);
    assert(render_joined_spec(seq![hnode]) == render_node_spec(hnode));
    assert(render_node_spec(NodeModel::Document(seq![hnode])) == render_node_spec(hnode));
    assert(to_html_spec(input) == "<h"@ + dec_rep(level) + ">"@ + text + "</h"@ + dec_rep(level)
        + ">"@);
}

/// Escaped text is safe to embed: whatever the input, the escaped output
/// holds no raw `<` and no raw `>`, so rendered text can never open or
/// close an element.
pub proof fn lemma_escape_free_of_angles(s: Seq<char>)
    ensures
        forall|i: int|
            0 <= i < escape_spec(s).len() ==> #[trigger] escape_spec(s)[i] != '<' && escape_spec(
                s,
            )[i] != '>',
    decreases s.len(),
{
    reveal_strlit("&amp;");
    reveal_strlit("&lt;");
    reveal_strlit("&gt;");
    if s.len() == 0 {
    } else {
        lemma_escape_free_of_angles(s.drop_first());
        let h = escape_char(s[0]);
        let t = escape_spec(s.drop_first());
        assert(forall|i: int| 0 <= i < h.len() ==> #[trigger] h[i] != '<' && h[i] != '>');
        assert(escape_spec(s) == h + t);
        assert(forall|i: int|
            0 <= i < (h + t).len() ==> #[trigger] (h + t)[i] == if i < h.len() {
                h[i]
            } else {
                t[i - h.len()]
            });
    }
}

proof fn lemma_run_until_prefix(x: Seq<char>, y: Seq<char>, c: char)
    requires
        forall|i: int| 0 <= i < x.len() ==> x[i] != c,
        y.len() == 0 || y[0] == c,
    ensures
        run_until(x + y, c) == x.len(),
    decreases x.len(),
{
    if x.len() == 0 {
        assert(x + y =~= y);
    } else {
        assert(forall|i: int|
            0 <= i < x.drop_first().len() ==> x.drop_first()[i] == x[i + 1]);
        lemma_run_until_prefix(x.drop_first(), y, c);
        assert((x + y)[0] == x[0]);
        assert((x + y).drop_first() =~= x.drop_first() + y);
    }
}

/// A Text token at the head of inline content becomes a Text node at the
/// head of the parsed nodes.
proof fn lemma_parse_inline_cons_text(a: Seq<char>, rest: Seq<TokenModel>)
    ensures
        parse_inline_spec(seq![TokenModel::Text(a)] + rest) == seq![NodeModel::Text(a)]
            + parse_inline_spec(rest),
{
    let ts = seq![TokenModel::Text(a)] + rest;
    assert(ts[0] == TokenModel::Text(a));
    assert(ts.drop_first() =~= rest);
}

/// A node at the head of inline content contributes its rendering first.
proof fn lemma_render_cat_cons(x: NodeModel, rest: Seq<NodeModel>)
    ensures
        render_cat_spec(seq![x] + rest) == render_node_spec(x) + render_cat_spec(rest),
{
    let ns = seq![x] + rest;
    assert(ns[0] == x);
    assert(ns.drop_first() =~= rest);
}

/// Emphasis balance: a bold span over plain text comes back as exactly one
/// strong element inside one paragraph.
#[verifier::rlimit(80)]
pub proof fn lemma_bold_round_trip(text: Seq<char>)
    requires
        text.len() > 0,
        plain(text),
        unescaped(text),
    ensures
        to_html_spec(seq!['*', '*'] + text + seq!['*', '*']) == "<p><strong>"@ + text
            + "</strong></p>"@,
{
    let input = seq!['*', '*'] + text + seq!['*', '*'];
    assert(input.len() == text.len() + 4);
    assert(input[0] == '*');
    assert(input[1] == '*');
    let mid = text + seq!['*', '*'];
    assert(input.skip(2) =~= mid);
    // Text run inside the markers
    lemma_text_run_prefix(text, seq!['*', '*']);
    assert(mid[0] == text[0]);
    assert(!is_special_char(mid[0]));
    assert(mid.take(text.len() as int) =~= text);
    assert(mid.skip(text.len() as int) =~= seq!['*', '*']);
    // Closing marker under an open bold toggle
    let close = seq!['*', '*'];
    assert(close[0] == '*' && close[1] == '*');
    assert(close.skip(2) =~= Seq::<char>::empty());
    assert(lex_from(Seq::<char>::empty(), false, false) == Seq::<TokenModel>::empty());
    assert(lex_from(close, true, false) == seq![TokenModel::BoldEnd] + Seq::<TokenModel>::empty());
    assert(lex_from(mid, true, false) == seq![TokenModel::Text(text)] + (seq![TokenModel::BoldEnd]
        + Seq::<TokenModel>::empty()));
    let toks = seq![TokenModel::BoldStart, TokenModel::Text(text), TokenModel::BoldEnd];
    assert(lex_spec(input) =~= toks);
    // one line of three tokens, headed by BoldStart: a paragraph
    assert(toks[0] == TokenModel::BoldStart);
    assert(toks.drop_first() =~= seq![TokenModel::Text(text), TokenModel::BoldEnd]);
    assert(seq![TokenModel::Text(text), TokenModel::BoldEnd].drop_first() =~= seq![
        TokenModel::BoldEnd,
    ]);
    assert(line_len(Seq::<TokenModel>::empty()) == 0);
    assert(seq![TokenModel::BoldEnd][0] == TokenModel::BoldEnd);
    assert(seq![TokenModel::BoldEnd].drop_first() =~= Seq::<TokenModel>::empty());
    assert(line_len(seq![TokenModel::BoldEnd]) == 1);
    assert(line_len(seq![TokenModel::Text(text), TokenModel::BoldEnd]) == 2);
    assert(line_len(toks) == 3);
    assert(toks.take(3) =~= toks);
    assert(toks.skip(3) =~= Seq::<TokenModel>::empty());
    // inline parsing: Bold wraps everything up to the BoldEnd
    let rest = toks.skip(1);
    assert(rest =~= seq![TokenModel::Text(text), TokenModel::BoldEnd]);
    assert(until_bold_end(seq![TokenModel::BoldEnd]) == 0);
    assert(until_bold_end(rest) == 1);
    assert(rest.take(1) =~= seq![TokenModel::Text(text)]);
    assert(rest.skip(2) =~= Seq::<TokenModel>::empty());
    lemma_parse_inline_single_text(text);
    assert(parse_inline_spec(Seq::<TokenModel>::empty()) == Seq::<NodeModel>::empty());
    let bnode = NodeModel::Bold(seq![NodeModel::Text(text)]);
    assert(parse_inline_spec(toks) == seq![bnode] + Seq::<NodeModel>::empty());
    assert(seq![bnode] + Seq::<NodeModel>::empty() =~= seq![bnode]);
    let pnode = NodeModel::Paragraph(seq![bnode]);
    assert(parse_blocks(Seq::<TokenModel>::empty()) == Seq::<NodeModel>::empty());
    assert(parse_blocks(toks) == seq![pnode] + Seq::<NodeModel>::empty());
    assert(seq![pnode] + Seq::<NodeModel>::empty() =~= seq![pnode]);
    // rendering
    lemma_escape_plain(text);
    assert(render_node_spec(NodeModel::Text(text)) == text);
    lemma_render_cat_cons(NodeModel::Text(text), Seq::<NodeModel>::empty());
    assert(seq![NodeModel::Text(text)] + Seq::<NodeModel>::empty() =~= seq![
        NodeModel::Text(text),
    ]);
    assert(render_cat_spec(Seq::<NodeModel>::empty()) == Seq::<char>::empty());
    assert(render_cat_spec(seq![NodeModel::Text(text)]) == text + Seq::<char>::empty());
    assert(text + Seq::<char>::empty() =~= text);
    lemma_render_cat_cons(bnode, Seq::<NodeModel>::empty());
    assert(seq![bnode] + Seq::<NodeModel>::empty() =~= seq![bnode]);
    assert(render_node_spec(bnode) == "<strong>"@ + text + "</strong>"@);
    assert(render_cat_spec(seq![bnode]) == render_node_spec(bnode) + Seq::<char>::empty());
    assert(render_node_spec(bnode) + Seq::<char>::empty() =~= render_node_spec(bnode));
    assert(render_joined_spec(seq![pnode]) == render_node_spec(pnode));
    assert(render_node_spec(pnode) == "<p>"@ + ("<strong>"@ + text + "</strong>"@) + "</p>"@);
    reveal_strlit("<p>");
    reveal_strlit("</p>");
    reveal_strlit("<strong>");
    reveal_strlit("</strong>");
    reveal_strlit("<p><strong>");
    reveal_strlit("</strong></p>");
    assert("<p>"@ + ("<strong>"@ + text + "</strong>"@) + "</p>"@ =~= "<p><strong>"@ + text
        + "</strong></p>"@);
}

/// An unmatched opening bold marker still renders: it extends to the end of
/// the line, and the content is produced all the same.
#[verifier::rlimit(80)]
pub proof fn lemma_bold_unmatched(text: Seq<char>)
    requires
        text.len() > 0,
        plain(text),
        unescaped(text),
    ensures
        to_html_spec(seq!['*', '*'] + text) == "<p><strong>"@ + text + "</strong></p>"@,
{
    let input = seq!['*', '*'] + text;
    assert(input.len() == text.len() + 2);
    assert(input[0] == '*');
    assert(input[1] == '*');
    assert(input.skip(2) =~= text);
    lemma_lex_plain(text, true, false);
    let toks = seq![TokenModel::BoldStart, TokenModel::Text(text)];
    assert(lex_spec(input) =~= toks);
    assert(toks[0] == TokenModel::BoldStart);
    assert(toks.drop_first() =~= seq![TokenModel::Text(text)]);
    assert(seq![TokenModel::Text(text)].drop_first() =~= Seq::<TokenModel>::empty());
    assert(line_len(Seq::<TokenModel>::empty()) == 0);
    assert(line_len(seq![TokenModel::Text(text)]) == 1);
    assert(line_len(toks) == 2);
    assert(toks.take(2) =~= toks);
    assert(toks.skip(2) =~= Seq::<TokenModel>::empty());
    // the missing BoldEnd makes the bold span run to the end of the line
    let rest = toks.skip(1);
    assert(rest =~= seq![TokenModel::Text(text)]);
    assert(until_bold_end(Seq::<TokenModel>::empty()) == 0);
    assert(until_bold_end(rest) == 1);
    assert(rest.take(1) =~= seq![TokenModel::Text(text)]);
    assert(rest.skip(1) =~= Seq::<TokenModel>::empty());
    lemma_parse_inline_single_text(text);
    assert(parse_inline_spec(Seq::<TokenModel>::empty()) == Seq::<NodeModel>::empty());
    let bnode = NodeModel::Bold(seq![NodeModel::Text(text)]);
    assert(parse_inline_spec(toks) == seq![bnode] + Seq::<NodeModel>::empty());
    assert(seq![bnode] + Seq::<NodeModel>::empty() =~= seq![bnode]);
    let pnode = NodeModel::Paragraph(seq![bnode]);
    assert(parse_blocks(Seq::<TokenModel>::empty()) == Seq::<NodeModel>::empty());
    assert(parse_blocks(toks) == seq![pnode] + Seq::<NodeModel>::empty());
    assert(seq![pnode] + Seq::<NodeModel>::empty() =~= seq![pnode]);
    lemma_escape_plain(text);
    assert(render_node_spec(NodeModel::Text(text)) == text);
    assert(seq![NodeModel::Text(text)].drop_first() =~= Seq::<NodeModel>::empty());
    assert(render_cat_spec(Seq::<NodeModel>::empty()) == Seq::<char>::empty());
    assert(render_cat_spec(seq![NodeModel::Text(text)]) == text + Seq::<char>::empty());
    assert(text + Seq::<char>::empty() =~= text);
    assert(seq![bnode].drop_first() =~= Seq::<NodeModel>::empty());
    assert(render_node_spec(bnode) == "<strong>"@ + text + "</strong>"@);
    assert(render_cat_spec(seq![bnode]) == render_node_spec(bnode) + Seq::<char>::empty());
    assert(render_node_spec(bnode) + Seq::<char>::empty() =~= render_node_spec(bnode));
    assert(render_joined_spec(seq![pnode]) == render_node_spec(pnode));
    assert(render_node_spec(pnode) == "<p>"@ + ("<strong>"@ + text + "</strong>"@) + "</p>"@);
    reveal_strlit("<p>");
    reveal_strlit("</p>");
    reveal_strlit("<strong>");
    reveal_strlit("</strong>");
    reveal_strlit("<p><strong>");
    reveal_strlit("</strong></p>");
    assert("<p>"@ + ("<strong>"@ + text + "</strong>"@) + "</p>"@ =~= "<p><strong>"@ + text
        + "</strong></p>"@);
}

/// A sequence without any occurrence of `c`.
pub open spec fn free_of(s: Seq<char>, c: char) -> bool {
    forall|i: int| 0 <= i < s.len() ==> s[i] != c
}

proof fn lemma_line_len_prefix(xs: Seq<TokenModel>, ys: Seq<TokenModel>)
    requires
        forall|i: int| 0 <= i < xs.len() ==> !(#[trigger] xs[i] is NewLine),
        ys.len() == 0 || ys[0] is NewLine,
    ensures
        line_len(xs + ys) == xs.len(),
    decreases xs.len(),
{
    if xs.len() == 0 {
        assert(xs + ys =~= ys);
    } else {
        assert(forall|i: int|
            0 <= i < xs.drop_first().len() ==> #[trigger] xs.drop_first()[i] == xs[i + 1]);
        lemma_line_len_prefix(xs.drop_first(), ys);
        assert((xs + ys)[0] == xs[0]);
        assert((xs + ys).drop_first() =~= xs.drop_first() + ys);
    }
}

/// Link well-formedness, the matched side: a complete `[text](url)` comes
/// back as one anchor inside one paragraph, the url inserted verbatim.
#[verifier::rlimit(80)]
pub proof fn lemma_link_round_trip(text: Seq<char>, url: Seq<char>)
    requires
        free_of(text, ']'),
        free_of(url, ')'),
        unescaped(text),
    ensures
        to_html_spec(seq!['['] + text + seq![']', '('] + url + seq![')']) == "<p><a href=\""@ + url
            + "\">"@ + text + "</a></p>"@,
{
    let input = seq!['['] + text + seq![']', '('] + url + seq![')'];
    assert(input[0] == '[');
    let rest1 = text + (seq![']', '('] + url + seq![')']);
    assert(input.skip(1) =~= rest1);
    lemma_run_until_prefix(text, seq![']', '('] + url + seq![')'], ']');
    assert((seq![']', '('] + url + seq![')'])[0] == ']');
    assert(run_until(rest1, ']') == text.len());
    assert(rest1.len() == text.len() + 3 + url.len());
    assert(rest1.take(text.len() as int) =~= text);
    let rest2 = seq!['('] + url + seq![')'];
    assert(rest1.skip(text.len() + 1int) =~= rest2);
    assert(rest2[0] == '(');
    let rest3 = url + seq![')'];
    assert(rest2.skip(1) =~= rest3);
    lemma_run_until_prefix(url, seq![')'], ')');
    assert(run_until(rest3, ')') == url.len());
    assert(rest3.take(url.len() as int) =~= url);
    assert(rest3.skip(url.len() + 1int) =~= Seq::<char>::empty());
    assert(lex_from(Seq::<char>::empty(), false, false) == Seq::<TokenModel>::empty());
    let ltok = TokenModel::Link { text: text, url: url };
    assert(lex_from(input, false, false) == seq![ltok] + Seq::<TokenModel>::empty());
    let toks = seq![ltok];
    assert(seq![ltok] + Seq::<TokenModel>::empty() =~= toks);
    assert(lex_spec(input) == toks);
    // a one-token line that is neither heading nor list: a paragraph
    assert(toks[0] == ltok);
    assert(toks.drop_first() =~= Seq::<TokenModel>::empty());
    assert(line_len(Seq::<TokenModel>::empty()) == 0);
    assert(line_len(toks) == 1);
    assert(toks.take(1) =~= toks);
    assert(toks.skip(1) =~= Seq::<TokenModel>::empty());
    let lnode = NodeModel::Link { text: text, url: url };
    assert(parse_inline_spec(Seq::<TokenModel>::empty()) == Seq::<NodeModel>::empty());
    assert(parse_inline_spec(toks) == seq![lnode] + Seq::<NodeModel>::empty());
    assert(seq![lnode] + Seq::<NodeModel>::empty() =~= seq![lnode]);
    let pnode = NodeModel::Paragraph(seq![lnode]);
    assert(parse_blocks(Seq::<TokenModel>::empty()) == Seq::<NodeModel>::empty());
    assert(parse_blocks(toks) == seq![pnode] + Seq::<NodeModel>::empty());
    assert(seq![pnode] + Seq::<NodeModel>::empty() =~= seq![pnode]);
    // rendering
    lemma_escape_plain(text);
    assert(seq![lnode][0] == lnode);
    assert(seq![lnode].drop_first() =~= Seq::<NodeModel>::empty());
    assert(render_cat_spec(Seq::<NodeModel>::empty()) == Seq::<char>::empty());
    assert(render_node_spec(lnode) == "<a href=\""@ + url + "\">"@ + text + "</a>"@);
    assert(render_cat_spec(seq![lnode]) == render_node_spec(lnode) + Seq::<char>::empty());
    assert(render_node_spec(lnode) + Seq::<char>::empty() =~= render_node_spec(lnode));
    assert(render_joined_spec(seq![pnode]) == render_node_spec(pnode));
    assert(render_node_spec(pnode) == "<p>"@ + ("<a href=\""@ + url + "\">"@ + text + "</a>"@)
        + "</p>"@);
    reveal_strlit("<p>");
    reveal_strlit("</p>");
    reveal_strlit("<a href=\"");
    reveal_strlit("\">");
    reveal_strlit("</a>");
    reveal_strlit("<p><a href=\"");
    reveal_strlit("</a></p>");
    assert("<p>"@ + ("<a href=\""@ + url + "\">"@ + text + "</a>"@) + "</p>"@ =~= "<p><a href=\""@
        + url + "\">"@ + text + "</a></p>"@);
}

/// Link well-formedness, the degraded side: an unterminated `[text](url`
/// reproduces the bracket, the text, the delimiters and the url as literal
/// text, with no anchor element.
#[verifier::rlimit(80)]
pub proof fn lemma_link_unterminated(text: Seq<char>, url: Seq<char>)
    requires
        free_of(text, ']'),
        free_of(url, ')'),
        unescaped(text),
        unescaped(url),
    ensures
        to_html_spec(seq!['['] + text + seq![']', '('] + url) == "<p>["@ + text + "]("@ + url
            + "</p>"@,
{
    let input = seq!['['] + text + seq![']', '('] + url;
    assert(input[0] == '[');
    let rest1 = text + (seq![']', '('] + url);
    assert(input.skip(1) =~= rest1);
    lemma_run_until_prefix(text, seq![']', '('] + url, ']');
    assert((seq![']', '('] + url)[0] == ']');
    assert(run_until(rest1, ']') == text.len());
    assert(rest1.len() == text.len() + 2 + url.len());
    assert(rest1.take(text.len() as int) =~= text);
    let rest2 = seq!['('] + url;
    assert(rest1.skip(text.len() + 1int) =~= rest2);
    assert(rest2[0] == '(');
    assert(rest2.skip(1) =~= url);
    lemma_run_until_prefix(url, Seq::<char>::empty(), ')');
    assert(url + Seq::<char>::empty() =~= url);
    assert(run_until(url, ')') == url.len());
    assert(url.take(url.len() as int) =~= url);
    let toks = seq![
        TokenModel::Text("["@),
        TokenModel::Text(text),
        TokenModel::Text("]"@),
        TokenModel::Text("("@),
        TokenModel::Text(url),
    ];
    assert(lex_spec(input) == toks);
    // a five-token line of literal text: a paragraph of five Text nodes
    lemma_line_len_prefix(toks, Seq::<TokenModel>::empty());
    assert(toks + Seq::<TokenModel>::empty() =~= toks);
    assert(line_len(toks) == 5);
    assert(toks.take(5) =~= toks);
    assert(toks.skip(5) =~= Seq::<TokenModel>::empty());
    let t2 = seq![
        TokenModel::Text(text),
        TokenModel::Text("]"@),
        TokenModel::Text("("@),
        TokenModel::Text(url),
    ];
    let t3 = seq![TokenModel::Text("]"@), TokenModel::Text("("@), TokenModel::Text(url)];
    let t4 = seq![TokenModel::Text("("@), TokenModel::Text(url)];
    let t5 = seq![TokenModel::Text(url)];
    assert(toks =~= seq![TokenModel::Text("["@)] + t2);
    assert(t2 =~= seq![TokenModel::Text(text)] + t3);
    assert(t3 =~= seq![TokenModel::Text("]"@)] + t4);
    assert(t4 =~= seq![TokenModel::Text("("@)] + t5);
    lemma_parse_inline_cons_text("["@, t2);
    lemma_parse_inline_cons_text(text, t3);
    lemma_parse_inline_cons_text("]"@, t4);
    lemma_parse_inline_cons_text("("@, t5);
    lemma_parse_inline_single_text(url);
    let nodes = seq![
        NodeModel::Text("["@),
        NodeModel::Text(text),
        NodeModel::Text("]"@),
        NodeModel::Text("("@),
        NodeModel::Text(url),
    ];
    assert(parse_inline_spec(toks) =~= nodes);
    let pnode = NodeModel::Paragraph(nodes);
    assert(parse_blocks(Seq::<TokenModel>::empty()) == Seq::<NodeModel>::empty());
    assert(parse_blocks(toks) == seq![pnode] + Seq::<NodeModel>::empty());
    assert(seq![pnode] + Seq::<NodeModel>::empty() =~= seq![pnode]);
    // rendering: each literal piece escapes to itself
    reveal_strlit("[");
    reveal_strlit("]");
    reveal_strlit("(");
    assert(unescaped("["@));
    assert(unescaped("]"@));
    assert(unescaped("("@));
    lemma_escape_plain("["@);
    lemma_escape_plain("]"@);
    lemma_escape_plain("("@);
    lemma_escape_plain(text);
    lemma_escape_plain(url);
    let n2 = seq![NodeModel::Text(text), NodeModel::Text("]"@), NodeModel::Text("("@),
        NodeModel::Text(url)];
    let n3 = seq![NodeModel::Text("]"@), NodeModel::Text("("@), NodeModel::Text(url)];
    let n4 = seq![NodeModel::Text("("@), NodeModel::Text(url)];
    let n5 = seq![NodeModel::Text(url)];
    assert(nodes =~= seq![NodeModel::Text("["@)] + n2);
    assert(n2 =~= seq![NodeModel::Text(text)] + n3);
    assert(n3 =~= seq![NodeModel::Text("]"@)] + n4);
    assert(n4 =~= seq![NodeModel::Text("("@)] + n5);
    assert(n5 =~= seq![NodeModel::Text(url)] + Seq::<NodeModel>::empty());
    lemma_render_cat_cons(NodeModel::Text("["@), n2);
    lemma_render_cat_cons(NodeModel::Text(text), n3);
    lemma_render_cat_cons(NodeModel::Text("]"@), n4);
    lemma_render_cat_cons(NodeModel::Text("("@), n5);
    lemma_render_cat_cons(NodeModel::Text(url), Seq::<NodeModel>::empty());
    assert(render_cat_spec(Seq::<NodeModel>::empty()) == Seq::<char>::empty());
    assert(render_cat_spec(nodes) == "["@ + (text + ("]"@ + ("("@ + (url
        + Seq::<char>::empty())))));
    assert(render_joined_spec(seq![pnode]) == render_node_spec(pnode));
    assert(render_node_spec(pnode) == "<p>"@ + render_cat_spec(nodes) + "</p>"@);
    reveal_strlit("<p>");
    reveal_strlit("</p>");
    reveal_strlit("<p>[");
    reveal_strlit("](");
    assert("<p>"@ + ("["@ + (text + ("]"@ + ("("@ + (url + Seq::<char>::empty()))))) + "</p>"@ =~=
        "<p>["@ + text + "]("@ + url + "</p>"@);
}

proof fn lemma_render_single_text(t: Seq<char>)
    requires
        unescaped(t),
    ensures
        render_cat_spec(seq![NodeModel::Text(t)]) == t,
{
    lemma_escape_plain(t);
    assert(seq![NodeModel::Text(t)][0] == NodeModel::Text(t));
    assert(seq![NodeModel::Text(t)].drop_first() =~= Seq::<NodeModel>::empty());
    assert(render_cat_spec(Seq::<NodeModel>::empty()) == Seq::<char>::empty());
    assert(render_node_spec(NodeModel::Text(t)) == t);
    assert(t + Seq::<char>::empty() =~= t);
}

proof fn lemma_render_list_item(t: Seq<char>)
    requires
        unescaped(t),
    ensures
        render_node_spec(NodeModel::ListItem(seq![NodeModel::Text(t)])) == "<li>"@ + t + "</li>"@,
{
    lemma_render_single_text(t);
}

/// The tokens of one `- text` line followed by anything.
proof fn lemma_lex_list_line(t: Seq<char>, tail: Seq<char>, b: bool, it: bool)
    requires
        t.len() > 0,
        plain(t),
        tail.len() == 0 || is_special_char(tail[0]),
    ensures
        lex_from(seq!['-', ' '] + t + tail, b, it) == seq![
            TokenModel::ListItemStart,
            TokenModel::Text(t),
        ] + lex_from(tail, b, it),
{
    let input = seq!['-', ' '] + t + tail;
    assert(input[0] == '-');
    assert(input[1] == ' ');
    let mid = t + tail;
    assert(input.skip(2) =~= mid);
    lemma_text_run_prefix(t, tail);
    assert(text_run(mid) == t.len());
    assert(mid[0] == t[0]);
    assert(!is_special_char(mid[0]));
    assert(mid.take(t.len() as int) =~= t);
    assert(mid.skip(t.len() as int) =~= tail);
    assert(lex_from(mid, b, it) == seq![TokenModel::Text(t)] + lex_from(tail, b, it));
    assert(lex_from(input, b, it) == seq![TokenModel::ListItemStart] + (seq![TokenModel::Text(t)]
        + lex_from(tail, b, it)));
    assert(seq![TokenModel::ListItemStart] + (seq![TokenModel::Text(t)] + lex_from(tail, b, it))
        =~= seq![TokenModel::ListItemStart, TokenModel::Text(t)] + lex_from(tail, b, it));
}

/// List grouping, the merging side: two consecutive `- ` lines become one
/// unordered list with two items.
#[verifier::rlimit(80)]
pub proof fn lemma_list_grouping(t1: Seq<char>, t2: Seq<char>)
    requires
        t1.len() > 0,
        t2.len() > 0,
        plain(t1),
        plain(t2),
        unescaped(t1),
        unescaped(t2),
    ensures
        to_html_spec(seq!['-', ' '] + t1 + seq!['\n'] + (seq!['-', ' '] + t2)) == "<ul>\n<li>"@
            + t1 + "</li>\n<li>"@ + t2 + "</li>\n</ul>"@,
{
    let input = seq!['-', ' '] + t1 + seq!['\n'] + (seq!['-', ' '] + t2);
    let tail = seq!['\n'] + (seq!['-', ' '] + t2);
    assert(input =~= seq!['-', ' '] + t1 + tail);
    assert(tail[0] == '\n');
    lemma_lex_list_line(t1, tail, false, false);
    let mid = seq!['-', ' '] + t2;
    assert(tail.skip(1) =~= mid);
    lemma_lex_list_line(t2, Seq::<char>::empty(), false, false);
    assert(mid =~= seq!['-', ' '] + t2 + Seq::<char>::empty());
    assert(lex_from(Seq::<char>::empty(), false, false) == Seq::<TokenModel>::empty());
    assert(lex_from(tail, false, false) == seq![TokenModel::NewLine] + (seq![
        TokenModel::ListItemStart,
        TokenModel::Text(t2),
    ] + Seq::<TokenModel>::empty()));
    let toks = seq![
        TokenModel::ListItemStart,
        TokenModel::Text(t1),
        TokenModel::NewLine,
        TokenModel::ListItemStart,
        TokenModel::Text(t2),
    ];
    assert(lex_spec(input) =~= toks);
    // first line and its NewLine
    let line1 = seq![TokenModel::ListItemStart, TokenModel::Text(t1)];
    let rest_after = seq![TokenModel::ListItemStart, TokenModel::Text(t2)];
    lemma_line_len_prefix(line1, seq![TokenModel::NewLine] + rest_after);
    assert(line1 + (seq![TokenModel::NewLine] + rest_after) =~= toks);
    assert((seq![TokenModel::NewLine] + rest_after)[0] is NewLine);
    assert(line_len(toks) == 2);
    assert(toks[0] is ListItemStart);
    assert(toks.take(2) =~= line1);
    assert(toks.skip(3) =~= rest_after);
    assert(line1.skip(1) =~= seq![TokenModel::Text(t1)]);
    lemma_parse_inline_single_text(t1);
    let li1 = NodeModel::ListItem(seq![NodeModel::Text(t1)]);
    // the second line is collected into the same list
    lemma_line_len_prefix(rest_after, Seq::<TokenModel>::empty());
    assert(rest_after + Seq::<TokenModel>::empty() =~= rest_after);
    assert(line_len(rest_after) == 2);
    assert(rest_after[0] is ListItemStart);
    assert(rest_after.take(2) =~= rest_after);
    assert(rest_after.take(2).skip(1) =~= seq![TokenModel::Text(t2)]);
    lemma_parse_inline_single_text(t2);
    let li2 = NodeModel::ListItem(seq![NodeModel::Text(t2)]);
    assert(rest_after.skip(2) =~= Seq::<TokenModel>::empty());
    assert(parse_list_rest(Seq::<TokenModel>::empty()).0 == Seq::<NodeModel>::empty());
    assert(parse_list_rest(Seq::<TokenModel>::empty()).1 =~= Seq::<TokenModel>::empty());
    assert(parse_list_rest(rest_after).0 == seq![li2] + Seq::<NodeModel>::empty());
    assert(parse_list_rest(rest_after).1 =~= Seq::<TokenModel>::empty());
    let items = seq![li1] + (seq![li2] + Seq::<NodeModel>::empty());
    let ul = NodeModel::UnorderedList(items);
    assert(parse_blocks(Seq::<TokenModel>::empty()) == Seq::<NodeModel>::empty());
    assert(parse_blocks(toks) == seq![ul] + Seq::<NodeModel>::empty());
    assert(seq![ul] + Seq::<NodeModel>::empty() =~= seq![ul]);
    // rendering
    let items2 = seq![li1, li2];
    assert(items =~= items2);
    assert(items2[0] == li1);
    assert(items2.drop_first() =~= seq![li2]);
    assert(seq![li2].len() == 1 && seq![li2][0] == li2);
    assert(render_joined_spec(seq![li2]) == render_node_spec(li2));
    assert(render_joined_spec(items2) == render_node_spec(li1) + "\n"@ + render_node_spec(li2));
    lemma_render_list_item(t1);
    lemma_render_list_item(t2);
    assert(render_node_spec(ul) == "<ul>\n"@ + (("<li>"@ + t1 + "</li>"@) + "\n"@ + ("<li>"@ + t2
        + "</li>"@)) + "\n</ul>"@);
    assert(render_joined_spec(seq![ul]) == render_node_spec(ul));
    reveal_strlit("<ul>\n");
    reveal_strlit("\n</ul>");
    reveal_strlit("<li>");
    reveal_strlit("</li>");
    reveal_strlit("\n");
    reveal_strlit("<ul>\n<li>");
    reveal_strlit("</li>\n<li>");
    reveal_strlit("</li>\n</ul>");
    assert("<ul>\n"@ + (("<li>"@ + t1 + "</li>"@) + "\n"@ + ("<li>"@ + t2 + "</li>"@)) + "\n</ul>"@
        =~= "<ul>\n<li>"@ + t1 + "</li>\n<li>"@ + t2 + "</li>\n</ul>"@);
}

/// List grouping, the terminating side: a blank line between two `- ` lines
/// closes the first list, and block parsing starts fresh with a second one.
#[verifier::rlimit(80)]
pub proof fn lemma_list_blank_line_splits(t1: Seq<char>, t2: Seq<char>)
    requires
        t1.len() > 0,
        t2.len() > 0,
        plain(t1),
        plain(t2),
        unescaped(t1),
        unescaped(t2),
    ensures
        to_html_spec(seq!['-', ' '] + t1 + seq!['\n', '\n'] + (seq!['-', ' '] + t2))
            == "<ul>\n<li>"@ + t1 + "</li>\n</ul>\n<ul>\n<li>"@ + t2 + "</li>\n</ul>"@,
{
    let input = seq!['-', ' '] + t1 + seq!['\n', '\n'] + (seq!['-', ' '] + t2);
    let tail = seq!['\n', '\n'] + (seq!['-', ' '] + t2);
    assert(input =~= seq!['-', ' '] + t1 + tail);
    assert(tail[0] == '\n');
    lemma_lex_list_line(t1, tail, false, false);
    let tail2 = seq!['\n'] + (seq!['-', ' '] + t2);
    assert(tail.skip(1) =~= tail2);
    assert(tail2[0] == '\n');
    let mid = seq!['-', ' '] + t2;
    assert(tail2.skip(1) =~= mid);
    lemma_lex_list_line(t2, Seq::<char>::empty(), false, false);
    assert(mid =~= seq!['-', ' '] + t2 + Seq::<char>::empty());
    assert(lex_from(Seq::<char>::empty(), false, false) == Seq::<TokenModel>::empty());
    assert(lex_from(tail2, false, false) == seq![TokenModel::NewLine] + lex_from(
        mid,
        false,
        false,
    ));
    assert(lex_from(tail, false, false) == seq![TokenModel::NewLine] + lex_from(
        tail2,
        false,
        false,
    ));
    let toks = seq![
        TokenModel::ListItemStart,
        TokenModel::Text(t1),
        TokenModel::NewLine,
        TokenModel::NewLine,
        TokenModel::ListItemStart,
        TokenModel::Text(t2),
    ];
    assert(lex_spec(input) =~= toks);
    // first line, then a blank line that ends the first list
    let line1 = seq![TokenModel::ListItemStart, TokenModel::Text(t1)];
    let rest_after = seq![TokenModel::NewLine, TokenModel::ListItemStart, TokenModel::Text(t2)];
    lemma_line_len_prefix(line1, seq![TokenModel::NewLine] + rest_after);
    assert(line1 + (seq![TokenModel::NewLine] + rest_after) =~= toks);
    assert((seq![TokenModel::NewLine] + rest_after)[0] is NewLine);
    assert(line_len(toks) == 2);
    assert(toks[0] is ListItemStart);
    assert(toks.take(2) =~= line1);
    assert(toks.skip(3) =~= rest_after);
    assert(line1.skip(1) =~= seq![TokenModel::Text(t1)]);
    lemma_parse_inline_single_text(t1);
    let li1 = NodeModel::ListItem(seq![NodeModel::Text(t1)]);
    assert(rest_after[0] is NewLine);
    assert(line_len(rest_after) == 0);
    let second = seq![TokenModel::ListItemStart, TokenModel::Text(t2)];
    assert(rest_after.skip(1) =~= second);
    assert(parse_list_rest(rest_after).0 == Seq::<NodeModel>::empty());
    assert(parse_list_rest(rest_after).1 =~= second);
    let items1 = seq![li1] + Seq::<NodeModel>::empty();
    let ul1 = NodeModel::UnorderedList(items1);
    // the second list starts over
    lemma_line_len_prefix(second, Seq::<TokenModel>::empty());
    assert(second + Seq::<TokenModel>::empty() =~= second);
    assert(line_len(second) == 2);
    assert(second[0] is ListItemStart);
    assert(second.take(2) =~= second);
    assert(second.take(2).skip(1) =~= seq![TokenModel::Text(t2)]);
    lemma_parse_inline_single_text(t2);
    let li2 = NodeModel::ListItem(seq![NodeModel::Text(t2)]);
    assert(second.skip(2) =~= Seq::<TokenModel>::empty());
    assert(parse_list_rest(Seq::<TokenModel>::empty()).0 == Seq::<NodeModel>::empty());
    assert(parse_list_rest(Seq::<TokenModel>::empty()).1 =~= Seq::<TokenModel>::empty());
    let items2 = seq![li2] + Seq::<NodeModel>::empty();
    let ul2 = NodeModel::UnorderedList(items2);
    assert(parse_blocks(Seq::<TokenModel>::empty()) == Seq::<NodeModel>::empty());
    assert(parse_blocks(second) == seq![ul2] + Seq::<NodeModel>::empty());
    assert(parse_blocks(toks) == seq![ul1] + (seq![ul2] + Seq::<NodeModel>::empty()));
    let blocks = seq![ul1, ul2];
    assert(seq![ul1] + (seq![ul2] + Seq::<NodeModel>::empty()) =~= blocks);
    // rendering: two lists joined by one newline
    assert(items1 =~= seq![li1]);
    assert(items2 =~= seq![li2]);
    lemma_render_list_item(t1);
    lemma_render_list_item(t2);
    assert(seq![li1].len() == 1 && seq![li1][0] == li1);
    assert(seq![li2].len() == 1 && seq![li2][0] == li2);
    assert(render_joined_spec(seq![li1]) == render_node_spec(li1));
    assert(render_joined_spec(seq![li2]) == render_node_spec(li2));
    assert(render_node_spec(ul1) == "<ul>\n"@ + ("<li>"@ + t1 + "</li>"@) + "\n</ul>"@);
    assert(render_node_spec(ul2) == "<ul>\n"@ + ("<li>"@ + t2 + "</li>"@) + "\n</ul>"@);
    assert(blocks[0] == ul1);
    assert(blocks.drop_first() =~= seq![ul2]);
    assert(seq![ul2].len() == 1 && seq![ul2][0] == ul2);
    assert(render_joined_spec(seq![ul2]) == render_node_spec(ul2));
    assert(render_joined_spec(blocks) == render_node_spec(ul1) + "\n"@ + render_node_spec(ul2));
    reveal_strlit("<ul>\n");
    reveal_strlit("\n</ul>");
    reveal_strlit("<li>");
    reveal_strlit("</li>");
    reveal_strlit("\n");
    reveal_strlit("<ul>\n<li>");
    reveal_strlit("</li>\n</ul>");
    reveal_strlit("</li>\n</ul>\n<ul>\n<li>");
    assert(("<ul>\n"@ + ("<li>"@ + t1 + "</li>"@) + "\n</ul>"@) + "\n"@ + ("<ul>\n"@ + ("<li>"@
        + t2 + "</li>"@) + "\n</ul>"@) =~= "<ul>\n<li>"@ + t1 + "</li>\n</ul>\n<ul>\n<li>"@ + t2
        + "</li>\n</ul>"@);
}

/// List grouping, the other terminating side: a following non-list line is
/// not consumed by the list; it becomes an ordinary paragraph after it.
#[verifier::rlimit(80)]
pub proof fn lemma_list_non_list_line_splits(t1: Seq<char>, t2: Seq<char>)
    requires
        t1.len() > 0,
        t2.len() > 0,
        plain(t1),
        plain(t2),
        unescaped(t1),
        unescaped(t2),
    ensures
        to_html_spec(seq!['-', ' '] + t1 + seq!['\n'] + t2) == "<ul>\n<li>"@ + t1
            + "</li>\n</ul>\n<p>"@ + t2 + "</p>"@,
{
    let input = seq!['-', ' '] + t1 + seq!['\n'] + t2;
    let tail = seq!['\n'] + t2;
    assert(input =~= seq!['-', ' '] + t1 + tail);
    assert(tail[0] == '\n');
    lemma_lex_list_line(t1, tail, false, false);
    assert(tail.skip(1) =~= t2);
    lemma_lex_plain(t2, false, false);
    assert(lex_from(tail, false, false) == seq![TokenModel::NewLine] + lex_from(t2, false, false));
    let toks = seq![
        TokenModel::ListItemStart,
        TokenModel::Text(t1),
        TokenModel::NewLine,
        TokenModel::Text(t2),
    ];
    assert(lex_spec(input) =~= toks);
    // first line, then a non-list line that the list leaves alone
    let line1 = seq![TokenModel::ListItemStart, TokenModel::Text(t1)];
    let rest_after = seq![TokenModel::Text(t2)];
    lemma_line_len_prefix(line1, seq![TokenModel::NewLine] + rest_after);
    assert(line1 + (seq![TokenModel::NewLine] + rest_after) =~= toks);
    assert((seq![TokenModel::NewLine] + rest_after)[0] is NewLine);
    assert(line_len(toks) == 2);
    assert(toks[0] is ListItemStart);
    assert(toks.take(2) =~= line1);
    assert(toks.skip(3) =~= rest_after);
    assert(line1.skip(1) =~= seq![TokenModel::Text(t1)]);
    lemma_parse_inline_single_text(t1);
    let li1 = NodeModel::ListItem(seq![NodeModel::Text(t1)]);
    assert(rest_after[0] == TokenModel::Text(t2));
    assert(rest_after.drop_first() =~= Seq::<TokenModel>::empty());
    assert(line_len(Seq::<TokenModel>::empty()) == 0);
    assert(line_len(rest_after) == 1);
    assert(parse_list_rest(rest_after).0 == Seq::<NodeModel>::empty());
    assert(parse_list_rest(rest_after).1 == rest_after);
    let items1 = seq![li1] + Seq::<NodeModel>::empty();
    let ul1 = NodeModel::UnorderedList(items1);
    // the paragraph after the list
    assert(rest_after.take(1) =~= rest_after);
    assert(rest_after.skip(1) =~= Seq::<TokenModel>::empty());
    lemma_parse_inline_single_text(t2);
    let pnode = NodeModel::Paragraph(seq![NodeModel::Text(t2)]);
    assert(parse_blocks(Seq::<TokenModel>::empty()) == Seq::<NodeModel>::empty());
    assert(parse_blocks(rest_after) == seq![pnode] + Seq::<NodeModel>::empty());
    assert(parse_blocks(toks) == seq![ul1] + (seq![pnode] + Seq::<NodeModel>::empty()));
    let blocks = seq![ul1, pnode];
    assert(seq![ul1] + (seq![pnode] + Seq::<NodeModel>::empty()) =~= blocks);
    // rendering
    assert(items1 =~= seq![li1]);
    lemma_render_list_item(t1);
    assert(seq![li1].len() == 1 && seq![li1][0] == li1);
    assert(render_joined_spec(seq![li1]) == render_node_spec(li1));
    assert(render_node_spec(ul1) == "<ul>\n"@ + ("<li>"@ + t1 + "</li>"@) + "\n</ul>"@);
    lemma_render_single_text(t2);
    assert(render_node_spec(pnode) == "<p>"@ + t2 + "</p>"@);
    assert(blocks[0] == ul1);
    assert(blocks.drop_first() =~= seq![pnode]);
    assert(seq![pnode].len() == 1 && seq![pnode][0] == pnode);
    assert(render_joined_spec(seq![pnode]) == render_node_spec(pnode));
    assert(render_joined_spec(blocks) == render_node_spec(ul1) + "\n"@ + render_node_spec(pnode));
    reveal_strlit("<ul>\n");
    reveal_strlit("\n</ul>");
    reveal_strlit("<li>");
    reveal_strlit("</li>");
    reveal_strlit("\n");
    reveal_strlit("<p>");
    reveal_strlit("</p>");
    reveal_strlit("<ul>\n<li>");
    reveal_strlit("</li>\n</ul>\n<p>");
    assert(("<ul>\n"@ + ("<li>"@ + t1 + "</li>"@) + "\n</ul>"@) + "\n"@ + ("<p>"@ + t2 + "</p>"@)
        =~= "<ul>\n<li>"@ + t1 + "</li>\n</ul>\n<p>"@ + t2 + "</p>"@);
}

} // verus!
