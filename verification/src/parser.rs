use vstd::prelude::*;

use crate::ast::{nodes_view, Node, NodeModel};
use crate::token::{Token, TokenModel};

verus! {

/// Number of tokens before the next NewLine (the current line's length).
pub open spec fn line_len(ts: Seq<TokenModel>) -> nat
    decreases ts.len(),
{
    if ts.len() == 0 || ts[0] is NewLine {
        0
    } else {
        (1 + line_len(ts.drop_first())) as nat
    }
}

/// Number of tokens before the first BoldEnd.
pub open spec fn until_bold_end(ts: Seq<TokenModel>) -> nat
    decreases ts.len(),
{
    if ts.len() == 0 || ts[0] is BoldEnd {
        0
    } else {
        (1 + until_bold_end(ts.drop_first())) as nat
    }
}

/// Number of tokens before the first ItalicEnd.
pub open spec fn until_italic_end(ts: Seq<TokenModel>) -> nat
    decreases ts.len(),
{
    if ts.len() == 0 || ts[0] is ItalicEnd {
        0
    } else {
        (1 + until_italic_end(ts.drop_first())) as nat
    }
}

pub proof fn lemma_line_len_le(ts: Seq<TokenModel>)
    ensures
        line_len(ts) <= ts.len(),
        line_len(ts) < ts.len() ==> ts[line_len(ts) as int] is NewLine,
    decreases ts.len(),
{
    if ts.len() == 0 || ts[0] is NewLine {
    } else {
        lemma_line_len_le(ts.drop_first());
    }
}

pub proof fn lemma_until_bold_end_le(ts: Seq<TokenModel>)
    ensures
        until_bold_end(ts) <= ts.len(),
        until_bold_end(ts) < ts.len() ==> ts[until_bold_end(ts) as int] is BoldEnd,
    decreases ts.len(),
{
    if ts.len() == 0 || ts[0] is BoldEnd {
    } else {
        lemma_until_bold_end_le(ts.drop_first());
    }
}

pub proof fn lemma_until_italic_end_le(ts: Seq<TokenModel>)
    ensures
        until_italic_end(ts) <= ts.len(),
        until_italic_end(ts) < ts.len() ==> ts[until_italic_end(ts) as int] is ItalicEnd,
    decreases ts.len(),
{
    if ts.len() == 0 || ts[0] is ItalicEnd {
    } else {
        lemma_until_italic_end_le(ts.drop_first());
    }
}

/// Inline parsing of a token slice: one recursive left-to-right scan. An
/// emphasis start marker wraps everything up to the first matching end
/// marker (or to the end of the slice when there is none); tokens that have
/// no business inside a line are skipped without emitting a node.
pub open spec fn parse_inline_spec(ts: Seq<TokenModel>) -> Seq<NodeModel>
    decreases ts.len(),
    via parse_inline_decreases
{
    if ts.len() == 0 {
        Seq::empty()
    } else {
        match ts[0] {
            TokenModel::Text(s) => seq![NodeModel::Text(s)] + parse_inline_spec(ts.drop_first()),
            TokenModel::Link { text, url } => seq![(NodeModel::Link { text: text, url: url })]
                + parse_inline_spec(ts.drop_first()),
            TokenModel::BoldStart => {
                let rest = ts.skip(1);
                let e = until_bold_end(rest) as int;
                let inner = parse_inline_spec(rest.take(e));
                let after = if e < rest.len() {
                    rest.skip(e + 1)
                } else {
                    rest.skip(e)
                };
                seq![NodeModel::Bold(inner)] + parse_inline_spec(after)
            },
            TokenModel::ItalicStart => {
                let rest = ts.skip(1);
                let e = until_italic_end(rest) as int;
                let inner = parse_inline_spec(rest.take(e));
                let after = if e < rest.len() {
                    rest.skip(e + 1)
                } else {
                    rest.skip(e)
                };
                seq![NodeModel::Italic(inner)] + parse_inline_spec(after)
            },
            _ => parse_inline_spec(ts.drop_first()),
        }
    }
}

#[via_fn]
proof fn parse_inline_decreases(ts: Seq<TokenModel>) {
    if ts.len() > 0 {
        lemma_until_bold_end_le(ts.skip(1));
        lemma_until_italic_end_le(ts.skip(1));
    }
}

/// Continuation of a list already begun: collects further `- ` lines into
/// items, and returns them together with the tokens left after the list.
/// A blank line ends the list and is consumed; any other non-list line ends
/// the list and is left for the caller.
pub open spec fn parse_list_rest(ts: Seq<TokenModel>) -> (Seq<NodeModel>, Seq<TokenModel>)
    decreases ts.len(),
    via parse_list_rest_decreases
{
    if ts.len() == 0 {
        (Seq::empty(), ts)
    } else {
        let ll = line_len(ts) as int;
        if ll == 0 {
            (Seq::empty(), ts.skip(1))
        } else if ts[0] is ListItemStart {
            let line = ts.take(ll);
            let item = NodeModel::ListItem(parse_inline_spec(line.skip(1)));
            let after = if ll < ts.len() {
                ts.skip(ll + 1)
            } else {
                ts.skip(ll)
            };
            let r = parse_list_rest(after);
            (seq![item] + r.0, r.1)
        } else {
            (Seq::empty(), ts)
        }
    }
}

#[via_fn]
proof fn parse_list_rest_decreases(ts: Seq<TokenModel>) {
    if ts.len() > 0 {
        lemma_line_len_le(ts);
    }
}

/// The remainder a list leaves behind is no longer than its input.
pub proof fn lemma_parse_list_rest_len(ts: Seq<TokenModel>)
    ensures
        parse_list_rest(ts).1.len() <= ts.len(),
    decreases ts.len(),
{
    if ts.len() == 0 {
    } else {
        let ll = line_len(ts) as int;
        lemma_line_len_le(ts);
        if ll == 0 {
        } else if ts[0] is ListItemStart {
            let after = if ll < ts.len() {
                ts.skip(ll + 1)
            } else {
                ts.skip(ll)
            };
            lemma_parse_list_rest_len(after);
        } else {
        }
    }
}

/// Block-level parsing: splits the token sequence at NewLine boundaries and
/// classifies each line by its first token. Code blocks stand alone;
/// consecutive list lines are grouped into one unordered list.
pub open spec fn parse_blocks(ts: Seq<TokenModel>) -> Seq<NodeModel>
    decreases ts.len(),
    via parse_blocks_decreases
{
    if ts.len() == 0 {
        Seq::empty()
    } else {
        match ts[0] {
            TokenModel::CodeBlock(c) => seq![NodeModel::CodeBlock(c)] + parse_blocks(
                ts.drop_first(),
            ),
            _ => {
                let ll = line_len(ts) as int;
                let line = ts.take(ll);
                let rest = if ll < ts.len() {
                    ts.skip(ll + 1)
                } else {
                    ts.skip(ll)
                };
                if ll == 0 {
                    parse_blocks(rest)
                } else {
                    match ts[0] {
                        TokenModel::Heading(level) => seq![
                            NodeModel::Heading(level, parse_inline_spec(line.skip(1))),
                        ] + parse_blocks(rest),
                        TokenModel::ListItemStart => {
                            let first = NodeModel::ListItem(parse_inline_spec(line.skip(1)));
                            let r = parse_list_rest(rest);
                            seq![NodeModel::UnorderedList(seq![first] + r.0)] + parse_blocks(r.1)
                        },
                        _ => seq![NodeModel::Paragraph(parse_inline_spec(line))] + parse_blocks(
                            rest,
                        ),
                    }
                }
            },
        }
    }
}

#[via_fn]
proof fn parse_blocks_decreases(ts: Seq<TokenModel>) {
    if ts.len() > 0 {
        lemma_line_len_le(ts);
        let ll = line_len(ts) as int;
        if !(ts[0] is CodeBlock) && ll > 0 && ts[0] is ListItemStart {
            let rest = if ll < ts.len() {
                ts.skip(ll + 1)
            } else {
                ts.skip(ll)
            };
            lemma_parse_list_rest_len(rest);
        }
    }
}

/// The parser's contract: the whole token sequence becomes one Document.
pub open spec fn parse_spec(ts: Seq<TokenModel>) -> NodeModel {
    NodeModel::Document(parse_blocks(ts))
}

/// Executable test for a NewLine token.
fn is_newline(t: &Token) -> (b: bool)
    ensures
        b == (t.deep_view() is NewLine),
{
    matches!(t, Token::NewLine)
}

/// Advances from `start` to the next NewLine token, or to the end.
fn find_newline(tokens: &Vec<Token>, start: usize) -> (end: usize)
    requires
        start <= tokens@.len(),
    ensures
        start <= end <= tokens@.len(),
        end - start == line_len(tokens.deep_view().skip(start as int)),
        end < tokens@.len() ==> tokens.deep_view()[end as int] is NewLine,
{
    let ghost tv = tokens.deep_view();
    let mut j = start;
    while j < tokens.len() && !is_newline(&tokens[j])
        invariant
            start <= j <= tokens@.len(),
            tv == tokens.deep_view(),
            line_len(tv.skip(start as int)) == (j - start) + line_len(tv.skip(j as int)),
        decreases tokens@.len() - j,
    {
        proof {
            assert(tv.skip(j as int)[0] == tv[j as int]);
            assert(tv.skip(j as int).drop_first() =~= tv.skip((j + 1) as int));
        }
        j = j + 1;
    }
    j
}

/// Advances from `start` to the first BoldEnd before `hi`, or to `hi`.
fn find_bold_end(tokens: &Vec<Token>, start: usize, hi: usize) -> (end: usize)
    requires
        start <= hi <= tokens@.len(),
    ensures
        start <= end <= hi,
        end - start == until_bold_end(tokens.deep_view().subrange(start as int, hi as int)),
        end < hi ==> tokens.deep_view()[end as int] is BoldEnd,
{
    let ghost tv = tokens.deep_view();
    let mut j = start;
    while j < hi && !matches!(&tokens[j], Token::BoldEnd)
        invariant
            start <= j <= hi <= tokens@.len(),
            tv == tokens.deep_view(),
            until_bold_end(tv.subrange(start as int, hi as int)) == (j - start) + until_bold_end(
                tv.subrange(j as int, hi as int),
            ),
        decreases hi - j,
    {
        proof {
            assert(tv.subrange(j as int, hi as int)[0] == tv[j as int]);
            assert(tv.subrange(j as int, hi as int).drop_first() =~= tv.subrange(
                (j + 1) as int,
                hi as int,
            ));
        }
        j = j + 1;
    }
    proof {
        assert(tv.subrange(hi as int, hi as int).len() == 0);
    }
    j
}

/// Advances from `start` to the first ItalicEnd before `hi`, or to `hi`.
fn find_italic_end(tokens: &Vec<Token>, start: usize, hi: usize) -> (end: usize)
    requires
        start <= hi <= tokens@.len(),
    ensures
        start <= end <= hi,
        end - start == until_italic_end(tokens.deep_view().subrange(start as int, hi as int)),
        end < hi ==> tokens.deep_view()[end as int] is ItalicEnd,
{
    let ghost tv = tokens.deep_view();
    let mut j = start;
    while j < hi && !matches!(&tokens[j], Token::ItalicEnd)
        invariant
            start <= j <= hi <= tokens@.len(),
            tv == tokens.deep_view(),
            until_italic_end(tv.subrange(start as int, hi as int)) == (j - start)
                + until_italic_end(tv.subrange(j as int, hi as int)),
        decreases hi - j,
    {
        proof {
            assert(tv.subrange(j as int, hi as int)[0] == tv[j as int]);
            assert(tv.subrange(j as int, hi as int).drop_first() =~= tv.subrange(
                (j + 1) as int,
                hi as int,
            ));
        }
        j = j + 1;
    }
    proof {
        assert(tv.subrange(hi as int, hi as int).len() == 0);
    }
    j
}

/// Inline parsing of the token range `lo..hi`.
#[verifier::rlimit(60)]
fn parse_inlines_range(tokens: &Vec<Token>, lo: usize, hi: usize) -> (out: Vec<Node>)
    requires
        lo <= hi <= tokens@.len(),
    ensures
        nodes_view(out@) == parse_inline_spec(
            tokens.deep_view().subrange(lo as int, hi as int),
        ),
    decreases hi - lo,
{
    let ghost tv = tokens.deep_view();
    let mut out: Vec<Node> = Vec::new();
    let mut k = lo;
    proof {
        assert(nodes_view(out@) =~= Seq::<NodeModel>::empty());
        assert(Seq::<NodeModel>::empty() + parse_inline_spec(
            tv.subrange(lo as int, hi as int),
        ) =~= parse_inline_spec(tv.subrange(lo as int, hi as int)));
    }
    while k < hi
        invariant
            lo <= k <= hi <= tokens@.len(),
            tv == tokens.deep_view(),
            parse_inline_spec(tv.subrange(lo as int, hi as int)) == nodes_view(out@)
                + parse_inline_spec(tv.subrange(k as int, hi as int)),
        decreases hi - k,
    {
        let ghost cur = tv.subrange(k as int, hi as int);
        let ghost pre = nodes_view(out@);
        proof {
            assert(cur[0] == tv[k as int]);
            assert(cur.len() == hi - k);
        }
        match &tokens[k] {
            Token::Text(s) => {
                crate::ast::push_node(&mut out, Node::Text(s.clone()));
                proof {
                    assert(cur.drop_first() =~= tv.subrange((k + 1) as int, hi as int));
                    assert(nodes_view(out@) + parse_inline_spec(
                        tv.subrange((k + 1) as int, hi as int),
                    ) =~= pre + parse_inline_spec(cur));
                }
                k = k + 1;
            },
            Token::Link { text, url } => {
                crate::ast::push_node(
                    &mut out,
                    Node::Link { text: text.clone(), url: url.clone() },
                );
                proof {
                    assert(cur.drop_first() =~= tv.subrange((k + 1) as int, hi as int));
                    assert(nodes_view(out@) + parse_inline_spec(
                        tv.subrange((k + 1) as int, hi as int),
                    ) =~= pre + parse_inline_spec(cur));
                }
                k = k + 1;
            },
            Token::BoldStart => {
                let e = find_bold_end(tokens, k + 1, hi);
                let inner = parse_inlines_range(tokens, k + 1, e);
                crate::ast::push_node(&mut out, Node::Bold(inner));
                let k2 = if e < hi {
                    e + 1
                } else {
                    e
                };
                proof {
                    let rest = cur.skip(1);
                    assert(rest =~= tv.subrange((k + 1) as int, hi as int));
                    assert(until_bold_end(rest) == e - (k + 1));
                    assert(rest.take(e - (k + 1)) =~= tv.subrange((k + 1) as int, e as int));
                    if e < hi {
                        assert(rest.skip(e - (k + 1) + 1) =~= tv.subrange(k2 as int, hi as int));
                    } else {
                        assert(rest.skip(e - (k + 1)) =~= tv.subrange(k2 as int, hi as int));
                    }
                    assert(nodes_view(out@) + parse_inline_spec(tv.subrange(k2 as int, hi as int))
                        =~= pre + parse_inline_spec(cur));
                }
                k = k2;
            },
            Token::ItalicStart => {
                let e = find_italic_end(tokens, k + 1, hi);
                let inner = parse_inlines_range(tokens, k + 1, e);
                crate::ast::push_node(&mut out, Node::Italic(inner));
                let k2 = if e < hi {
                    e + 1
                } else {
                    e
                };
                proof {
                    let rest = cur.skip(1);
                    assert(rest =~= tv.subrange((k + 1) as int, hi as int));
                    assert(until_italic_end(rest) == e - (k + 1));
                    assert(rest.take(e - (k + 1)) =~= tv.subrange((k + 1) as int, e as int));
                    if e < hi {
                        assert(rest.skip(e - (k + 1) + 1) =~= tv.subrange(k2 as int, hi as int));
                    } else {
                        assert(rest.skip(e - (k + 1)) =~= tv.subrange(k2 as int, hi as int));
                    }
                    assert(nodes_view(out@) + parse_inline_spec(tv.subrange(k2 as int, hi as int))
                        =~= pre + parse_inline_spec(cur));
                }
                k = k2;
            },
            _ => {
                proof {
                    assert(cur.drop_first() =~= tv.subrange((k + 1) as int, hi as int));
                    assert(nodes_view(out@) + parse_inline_spec(
                        tv.subrange((k + 1) as int, hi as int),
                    ) =~= pre + parse_inline_spec(cur));
                }
                k = k + 1;
            },
        }
    }
    proof {
        assert(tv.subrange(hi as int, hi as int) =~= Seq::<TokenModel>::empty());
        assert(nodes_view(out@) + Seq::<NodeModel>::empty() =~= nodes_view(out@));
    }
    out
}

/// Inline parsing of a whole token sequence (no NewLine, no CodeBlock
/// expected; stray structural tokens are skipped).
pub fn parse_inlines(tokens: &Vec<Token>) -> (out: Vec<Node>)
    ensures
        nodes_view(out@) == parse_inline_spec(tokens.deep_view()),
{
    let out = parse_inlines_range(tokens, 0, tokens.len());
    proof {
        assert(tokens.deep_view().subrange(0, tokens@.len() as int) =~= tokens.deep_view());
    }
    out
}

/// Parses the token sequence into a single Document node.
#[verifier::rlimit(100)]
pub fn parse(tokens: &Vec<Token>) -> (doc: Node)
    ensures
        doc.deep_view() == parse_spec(tokens.deep_view()),
{
    let ghost tv = tokens.deep_view();
    let mut nodes: Vec<Node> = Vec::new();
    let mut i: usize = 0;
    proof {
        assert(tv.skip(0) =~= tv);
        assert(nodes_view(nodes@) =~= Seq::<NodeModel>::empty());
        assert(Seq::<NodeModel>::empty() + parse_blocks(tv) =~= parse_blocks(tv));
    }
    while i < tokens.len()
        invariant
            i <= tokens@.len(),
            tv == tokens.deep_view(),
            parse_blocks(tv) == nodes_view(nodes@) + parse_blocks(tv.skip(i as int)),
        decreases tokens@.len() - i,
    {
        let ghost cur = tv.skip(i as int);
        let ghost pre = nodes_view(nodes@);
        proof {
            assert(cur[0] == tv[i as int]);
            assert(cur.len() == tokens@.len() - i);
        }
        if let Token::CodeBlock(content) = &tokens[i] {
            crate::ast::push_node(&mut nodes, Node::CodeBlock(content.clone()));
            proof {
                assert(cur.drop_first() =~= tv.skip((i + 1) as int));
                assert(nodes_view(nodes@) + parse_blocks(tv.skip((i + 1) as int)) =~= pre
                    + parse_blocks(cur));
            }
            i = i + 1;
        } else {
            let eol = find_newline(tokens, i);
            let rest_start = if eol < tokens.len() {
                eol + 1
            } else {
                eol
            };
            proof {
                assert(line_len(cur) == eol - i);
                if eol < tokens@.len() {
                    assert(cur.skip((eol - i) + 1) =~= tv.skip(rest_start as int));
                } else {
                    assert(cur.skip(eol - i) =~= tv.skip(rest_start as int));
                }
            }
            if eol == i {
                proof {
                    assert(nodes_view(nodes@) + parse_blocks(tv.skip(rest_start as int)) =~= pre
                        + parse_blocks(cur));
                }
                i = rest_start;
            } else if let Token::Heading(level) = &tokens[i] {
                let content = parse_inlines_range(tokens, i + 1, eol);
                crate::ast::push_node(&mut nodes, Node::Heading(*level, content));
                proof {
                    assert(cur.take(eol - i).skip(1) =~= tv.subrange((i + 1) as int, eol as int));
                    assert(nodes_view(nodes@) + parse_blocks(tv.skip(rest_start as int)) =~= pre
                        + parse_blocks(cur));
                }
                i = rest_start;
            } else if matches!(&tokens[i], Token::ListItemStart) {
                let first = parse_inlines_range(tokens, i + 1, eol);
                let ghost fmodel = NodeModel::ListItem(
                    parse_inline_spec(tv.subrange((i + 1) as int, eol as int)),
                );
                let mut items: Vec<Node> = Vec::new();
                crate::ast::push_node(&mut items, Node::ListItem(first));
                let ghost ts0 = tv.skip(rest_start as int);
                let mut j = rest_start;
                proof {
                    assert(nodes_view(items@) =~= seq![fmodel]);
                }
                while j < tokens.len()
                    invariant_except_break
                        rest_start <= j <= tokens@.len(),
                        tv == tokens.deep_view(),
                        seq![fmodel] + parse_list_rest(ts0).0 == nodes_view(items@)
                            + parse_list_rest(tv.skip(j as int)).0,
                        parse_list_rest(ts0).1 == parse_list_rest(tv.skip(j as int)).1,
                    ensures
                        rest_start <= j <= tokens@.len(),
                        tv == tokens.deep_view(),
                        nodes_view(items@) == seq![fmodel] + parse_list_rest(ts0).0,
                        parse_list_rest(ts0).1 == tv.skip(j as int),
                    decreases tokens@.len() - j,
                {
                    let ghost lcur = tv.skip(j as int);
                    let ghost lpre = nodes_view(items@);
                    proof {
                        assert(lcur[0] == tv[j as int]);
                        assert(lcur.len() == tokens@.len() - j);
                    }
                    let eol2 = find_newline(tokens, j);
                    if eol2 == j {
                        proof {
                            assert(line_len(lcur) == 0);
                            assert(lcur.skip(1) =~= tv.skip((j + 1) as int));
                        }
                        j = j + 1;
                        break ;
                    } else if matches!(&tokens[j], Token::ListItemStart) {
                        let content = parse_inlines_range(tokens, j + 1, eol2);
                        crate::ast::push_node(&mut items, Node::ListItem(content));
                        let j2 = if eol2 < tokens.len() {
                            eol2 + 1
                        } else {
                            eol2
                        };
                        proof {
                            let ll = (eol2 - j) as int;
                            assert(line_len(lcur) == ll);
                            assert(lcur.take(ll).skip(1) =~= tv.subrange(
                                (j + 1) as int,
                                eol2 as int,
                            ));
                            if eol2 < tokens@.len() {
                                assert(lcur.skip(ll + 1) =~= tv.skip(j2 as int));
                            } else {
                                assert(lcur.skip(ll) =~= tv.skip(j2 as int));
                            }
                            assert(nodes_view(items@) + parse_list_rest(tv.skip(j2 as int)).0 =~=
                                lpre + parse_list_rest(lcur).0);
                        }
                        j = j2;
                    } else {
                        proof {
                            assert(line_len(lcur) > 0);
                        }
                        break ;
                    }
                }
                crate::ast::push_node(&mut nodes, Node::UnorderedList(items));
                proof {
                    assert(cur.take(eol - i).skip(1) =~= tv.subrange((i + 1) as int, eol as int));
                    assert(nodes_view(nodes@) + parse_blocks(tv.skip(j as int)) =~= pre
                        + parse_blocks(cur));
                }
                i = j;
            } else {
                let content = parse_inlines_range(tokens, i, eol);
                crate::ast::push_node(&mut nodes, Node::Paragraph(content));
                proof {
                    assert(cur.take(eol - i) =~= tv.subrange(i as int, eol as int));
                    assert(nodes_view(nodes@) + parse_blocks(tv.skip(rest_start as int)) =~= pre
                        + parse_blocks(cur));
                }
                i = rest_start;
            }
        }
    }
    proof {
        assert(tv.skip(tokens@.len() as int) =~= Seq::<TokenModel>::empty());
        assert(nodes_view(nodes@) + Seq::<NodeModel>::empty() =~= nodes_view(nodes@));
    }
    Node::Document(nodes)
}

} // verus!
