use vstd::prelude::*;

use crate::ast::{node_view, nodes_view, Node, NodeModel};
use vstd::string::{StrSliceExecFns, StringExecFns};

verus! {

broadcast use vstd::std_specs::vec::group_vec_axioms;

/// HTML escaping of one character, in the fixed order `&`, `<`, `>`: the
/// ampersand is handled first, so the escapes themselves are not re-escaped.
pub open spec fn escape_char(c: char) -> Seq<char> {
    if c == '&' {
        "&amp;"@
    } else if c == '<' {
        "&lt;"@
    } else if c == '>' {
        "&gt;"@
    } else {
        seq![c]
    }
}

/// HTML escaping of a character sequence.
pub open spec fn escape_spec(s: Seq<char>) -> Seq<char>
    decreases s.len(),
{
    if s.len() == 0 {
        Seq::empty()
    } else {
        escape_char(s[0]) + escape_spec(s.drop_first())
    }
}

/// Escaping of a code-block body: inside `<pre><code>` only the ampersand
/// and the opening angle bracket are significant, so `>` is kept as it is.
pub open spec fn escape_code_char(c: char) -> Seq<char> {
    if c == '&' {
        "&amp;"@
    } else if c == '<' {
        "&lt;"@
    } else {
        seq![c]
    }
}

/// Escaping of a whole code-block body.
pub open spec fn escape_code_spec(s: Seq<char>) -> Seq<char>
    decreases s.len(),
{
    if s.len() == 0 {
        Seq::empty()
    } else {
        escape_code_char(s[0]) + escape_code_spec(s.drop_first())
    }
}

/// Code escaping distributes over concatenation.
pub proof fn lemma_escape_code_append(a: Seq<char>, b: Seq<char>)
    ensures
        escape_code_spec(a + b) == escape_code_spec(a) + escape_code_spec(b),
    decreases a.len(),
{
    if a.len() == 0 {
        assert(a + b =~= b);
        assert(escape_code_spec(a) + escape_code_spec(b) =~= escape_code_spec(b));
    } else {
        lemma_escape_code_append(a.drop_first(), b);
        assert((a + b)[0] == a[0]);
        assert((a + b).drop_first() =~= a.drop_first() + b);
        assert(escape_code_char(a[0]) + (escape_code_spec(a.drop_first()) + escape_code_spec(b))
            =~= (escape_code_char(a[0]) + escape_code_spec(a.drop_first())) + escape_code_spec(b));
    }
}

/// Escaping distributes over concatenation.
pub proof fn lemma_escape_append(a: Seq<char>, b: Seq<char>)
    ensures
        escape_spec(a + b) == escape_spec(a) + escape_spec(b),
    decreases a.len(),
{
    if a.len() == 0 {
        assert(a + b =~= b);
        assert(escape_spec(a) + escape_spec(b) =~= escape_spec(b));
    } else {
        lemma_escape_append(a.drop_first(), b);
        assert((a + b)[0] == a[0]);
        assert((a + b).drop_first() =~= a.drop_first() + b);
        assert(escape_char(a[0]) + (escape_spec(a.drop_first()) + escape_spec(b)) =~= (escape_char(
            a[0],
        ) + escape_spec(a.drop_first())) + escape_spec(b));
    }
}

/// The character of a decimal digit.
pub open spec fn dec_digit(d: nat) -> char {
    if d == 0 {
        '0'
    } else if d == 1 {
        '1'
    } else if d == 2 {
        '2'
    } else if d == 3 {
        '3'
    } else if d == 4 {
        '4'
    } else if d == 5 {
        '5'
    } else if d == 6 {
        '6'
    } else if d == 7 {
        '7'
    } else if d == 8 {
        '8'
    } else {
        '9'
    }
}

/// The decimal representation of a natural number, most significant digit
/// first, without leading zeros (a single `0` for zero).
pub open spec fn dec_rep(n: nat) -> Seq<char>
    decreases n,
{
    if n < 10 {
        seq![dec_digit(n)]
    } else {
        dec_rep(n / 10).push(dec_digit(n % 10))
    }
}

/// The HTML rendering of one node.
pub open spec fn render_node_spec(node: NodeModel) -> Seq<char>
    decreases node,
{
    match node {
        NodeModel::Document(ch) => render_joined_spec(ch),
        NodeModel::Heading(level, ch) => "<h"@ + dec_rep(level) + ">"@ + render_cat_spec(ch)
            + "</h"@ + dec_rep(level) + ">"@,
        NodeModel::Paragraph(ch) => "<p>"@ + render_cat_spec(ch) + "</p>"@,
        NodeModel::Bold(ch) => "<strong>"@ + render_cat_spec(ch) + "</strong>"@,
        NodeModel::Italic(ch) => "<em>"@ + render_cat_spec(ch) + "</em>"@,
        NodeModel::Text(s) => escape_spec(s),
        NodeModel::Link { text, url } => "<a href=\""@ + url + "\">"@ + escape_spec(text)
            + "</a>"@,
        NodeModel::UnorderedList(ch) => "<ul>\n"@ + render_joined_spec(ch) + "\n</ul>"@,
        NodeModel::ListItem(ch) => "<li>"@ + render_cat_spec(ch) + "</li>"@,
        NodeModel::CodeBlock(c) => "<pre><code>"@ + escape_code_spec(c) + "</code></pre>"@,
    }
}

/// The renderings of a sequence of nodes, concatenated with no separator.
pub open spec fn render_cat_spec(ns: Seq<NodeModel>) -> Seq<char>
    decreases ns,
{
    if ns.len() == 0 {
        Seq::empty()
    } else {
        render_node_spec(ns[0]) + render_cat_spec(ns.drop_first())
    }
}

/// The renderings of a sequence of nodes, joined with single newlines.
pub open spec fn render_joined_spec(ns: Seq<NodeModel>) -> Seq<char>
    decreases ns,
{
    if ns.len() == 0 {
        Seq::empty()
    } else if ns.len() == 1 {
        render_node_spec(ns[0])
    } else {
        render_node_spec(ns[0]) + "\n"@ + render_joined_spec(ns.drop_first())
    }
}

pub proof fn lemma_cat_push(ns: Seq<NodeModel>, x: NodeModel)
    ensures
        render_cat_spec(ns.push(x)) == render_cat_spec(ns) + render_node_spec(x),
    decreases ns.len(),
{
    if ns.len() == 0 {
        assert(ns.push(x)[0] == x);
        assert(ns.push(x).drop_first() =~= Seq::<NodeModel>::empty());
        assert(render_cat_spec(Seq::<NodeModel>::empty()) == Seq::<char>::empty());
        assert(ns.push(x).len() == 1);
        assert(render_cat_spec(ns.push(x)) == render_node_spec(x) + Seq::<char>::empty());
        assert(render_node_spec(x) + Seq::<char>::empty() =~= Seq::<char>::empty()
            + render_node_spec(x));
    } else {
        lemma_cat_push(ns.drop_first(), x);
        assert(ns.push(x)[0] == ns[0]);
        assert(ns.push(x).drop_first() =~= ns.drop_first().push(x));
        assert(render_node_spec(ns[0]) + (render_cat_spec(ns.drop_first()) + render_node_spec(x))
            =~= (render_node_spec(ns[0]) + render_cat_spec(ns.drop_first())) + render_node_spec(
            x,
        ));
    }
}

pub proof fn lemma_joined_push(ns: Seq<NodeModel>, x: NodeModel)
    ensures
        render_joined_spec(ns.push(x)) == if ns.len() == 0 {
            render_node_spec(x)
        } else {
            render_joined_spec(ns) + "\n"@ + render_node_spec(x)
        },
    decreases ns.len(),
{
    if ns.len() == 0 {
        assert(ns.push(x).len() == 1);
        assert(ns.push(x)[0] == x);
        assert(render_joined_spec(ns.push(x)) == render_node_spec(x));
    } else if ns.len() == 1 {
        assert(ns.push(x).len() == 2);
        assert(ns.push(x)[0] == ns[0]);
        assert(ns.push(x).drop_first() =~= seq![x]);
        assert(seq![x].len() == 1);
        assert(seq![x][0] == x);
        assert(render_joined_spec(seq![x]) == render_node_spec(x));
        assert(render_joined_spec(ns) == render_node_spec(ns[0]));
    } else {
        lemma_joined_push(ns.drop_first(), x);
        assert(ns.push(x)[0] == ns[0]);
        assert(ns.push(x).drop_first() =~= ns.drop_first().push(x));
        assert(render_node_spec(ns[0]) + "\n"@ + (render_joined_spec(ns.drop_first()) + "\n"@
            + render_node_spec(x)) =~= (render_node_spec(ns[0]) + "\n"@ + render_joined_spec(
            ns.drop_first(),
        )) + "\n"@ + render_node_spec(x));
    }
}

/// The character of a decimal digit, executable.
fn digit_char(d: usize) -> (c: char)
    requires
        d < 10,
    ensures
        c == dec_digit(d as nat),
{
    if d == 0 {
        '0'
    } else if d == 1 {
        '1'
    } else if d == 2 {
        '2'
    } else if d == 3 {
        '3'
    } else if d == 4 {
        '4'
    } else if d == 5 {
        '5'
    } else if d == 6 {
        '6'
    } else if d == 7 {
        '7'
    } else if d == 8 {
        '8'
    } else {
        '9'
    }
}

/// Formats a number in decimal.
fn usize_to_string(v: usize) -> (out: String)
    ensures
        out@ == dec_rep(v as nat),
    decreases v,
{
    if v < 10 {
        let mut out = String::new();
        crate::strings::push_char(&mut out, digit_char(v));
        proof {
            assert(Seq::<char>::empty().push(dec_digit(v as nat)) =~= seq![dec_digit(v as nat)]);
        }
        out
    } else {
        let mut out = usize_to_string(v / 10);
        crate::strings::push_char(&mut out, digit_char(v % 10));
        out
    }
}

/// HTML-escapes a string: `&`, `<` and `>` become entities, everything else
/// is copied through.
fn escape_str(s: &str) -> (out: String)
    ensures
        out@ == escape_spec(s@),
{
    let n = s.unicode_len();
    let mut out = String::new();
    let mut i: usize = 0;
    proof {
        assert(s@.take(0) =~= Seq::<char>::empty());
        assert(out@ =~= escape_spec(s@.take(0)));
    }
    while i < n
        invariant
            n == s@.len(),
            i <= n,
            out@ == escape_spec(s@.take(i as int)),
        decreases n - i,
    {
        let ghost pre = out@;
        let c = s.get_char(i);
        if c == '&' {
            out.append("&amp;");
        } else if c == '<' {
            out.append("&lt;");
        } else if c == '>' {
            out.append("&gt;");
        } else {
            crate::strings::push_char(&mut out, c);
        }
        proof {
            let one = seq![s@[i as int]];
            assert(s@.take((i + 1) as int) =~= s@.take(i as int) + one);
            lemma_escape_append(s@.take(i as int), one);
            assert(one.drop_first() =~= Seq::<char>::empty());
            assert(one[0] == c);
            assert(escape_spec(Seq::<char>::empty()) == Seq::<char>::empty());
            assert(escape_spec(one) == escape_char(c) + Seq::<char>::empty());
            assert(escape_char(c) + Seq::<char>::empty() =~= escape_char(c));
            if c != '&' && c != '<' && c != '>' {
                assert(pre.push(c) =~= pre + seq![c]);
            }
        }
        i = i + 1;
    }
    proof {
        assert(s@.take(n as int) =~= s@);
    }
    out
}

/// Escapes a code-block body: `&` and `<` become entities, everything else
/// (the closing angle bracket included) is copied through.
fn escape_code_str(s: &str) -> (out: String)
    ensures
        out@ == escape_code_spec(s@),
{
    let n = s.unicode_len();
    let mut out = String::new();
    let mut i: usize = 0;
    proof {
        assert(s@.take(0) =~= Seq::<char>::empty());
        assert(out@ =~= escape_code_spec(s@.take(0)));
    }
    while i < n
        invariant
            n == s@.len(),
            i <= n,
            out@ == escape_code_spec(s@.take(i as int)),
        decreases n - i,
    {
        let ghost pre = out@;
        let c = s.get_char(i);
        if c == '&' {
            out.append("&amp;");
        } else if c == '<' {
            out.append("&lt;");
        } else {
            crate::strings::push_char(&mut out, c);
        }
        proof {
            let one = seq![s@[i as int]];
            assert(s@.take((i + 1) as int) =~= s@.take(i as int) + one);
            lemma_escape_code_append(s@.take(i as int), one);
            assert(one.drop_first() =~= Seq::<char>::empty());
            assert(one[0] == c);
            assert(escape_code_spec(Seq::<char>::empty()) == Seq::<char>::empty());
            assert(escape_code_spec(one) == escape_code_char(c) + Seq::<char>::empty());
            assert(escape_code_char(c) + Seq::<char>::empty() =~= escape_code_char(c));
            if c != '&' && c != '<' {
                assert(pre.push(c) =~= pre + seq![c]);
            }
        }
        i = i + 1;
    }
    proof {
        assert(s@.take(n as int) =~= s@);
    }
    out
}

/// Renders each node and concatenates the results with no separator, as
/// inline content is rendered inside its enclosing block.
pub fn render_all(nodes: &Vec<Node>) -> (out: String)
    ensures
        out@ == render_cat_spec(nodes_view(nodes@)),
    decreases *nodes,
{
    let ghost nv = nodes_view(nodes@);
    proof {
        crate::ast::lemma_nodes_view_len(nodes@);
    }
    let mut out = String::new();
    let mut k: usize = 0;
    proof {
        assert(nv.take(0) =~= Seq::<NodeModel>::empty());
        assert(out@ =~= render_cat_spec(nv.take(0)));
    }
    while k < nodes.len()
        invariant
            k <= nodes@.len(),
            nv == nodes_view(nodes@),
            nv.len() == nodes@.len(),
            forall|i: int| 0 <= i < nodes@.len() ==> nv[i] == node_view(nodes@[i]),
            out@ == render_cat_spec(nv.take(k as int)),
        decreases nodes@.len() - k,
    {
        let piece = render(&nodes[k]);
        out.append(piece.as_str());
        proof {
            assert(nv.take((k + 1) as int) =~= nv.take(k as int).push(nv[k as int]));
            lemma_cat_push(nv.take(k as int), nv[k as int]);
        }
        k = k + 1;
    }
    proof {
        assert(nv.take(nodes@.len() as int) =~= nv);
    }
    out
}

/// Renders each node and joins the results with single newlines, as blocks
/// are rendered inside a document or list items inside a list.
fn render_joined(nodes: &Vec<Node>) -> (out: String)
    ensures
        out@ == render_joined_spec(nodes_view(nodes@)),
    decreases *nodes,
{
    let ghost nv = nodes_view(nodes@);
    proof {
        crate::ast::lemma_nodes_view_len(nodes@);
    }
    let mut out = String::new();
    let mut k: usize = 0;
    proof {
        assert(nv.take(0) =~= Seq::<NodeModel>::empty());
        assert(out@ =~= render_joined_spec(nv.take(0)));
    }
    while k < nodes.len()
        invariant
            k <= nodes@.len(),
            nv == nodes_view(nodes@),
            nv.len() == nodes@.len(),
            forall|i: int| 0 <= i < nodes@.len() ==> nv[i] == node_view(nodes@[i]),
            out@ == render_joined_spec(nv.take(k as int)),
        decreases nodes@.len() - k,
    {
        if k > 0 {
            out.append("\n");
        }
        let piece = render(&nodes[k]);
        out.append(piece.as_str());
        proof {
            assert(nv.take((k + 1) as int) =~= nv.take(k as int).push(nv[k as int]));
            lemma_joined_push(nv.take(k as int), nv[k as int]);
        }
        k = k + 1;
    }
    proof {
        assert(nv.take(nodes@.len() as int) =~= nv);
    }
    out
}

/// Renders one node to its HTML string: a total, deterministic recursion
/// over the tree, escaping text and code leaves and inserting link urls
/// verbatim.
pub fn render(node: &Node) -> (out: String)
    ensures
        out@ == render_node_spec(node.deep_view()),
    decreases *node,
{
    match node {
        Node::Document(children) => render_joined(children),
        Node::Heading(level, children) => {
            let mut out = String::from_str("<h");
            let digits = usize_to_string(*level);
            out.append(digits.as_str());
            out.append(">");
            let inner = render_all(children);
            out.append(inner.as_str());
            out.append("</h");
            let digits_close = usize_to_string(*level);
            out.append(digits_close.as_str());
            out.append(">");
            out
        },
        Node::Paragraph(children) => {
            let mut out = String::from_str("<p>");
            let inner = render_all(children);
            out.append(inner.as_str());
            out.append("</p>");
            out
        },
        Node::Bold(children) => {
            let mut out = String::from_str("<strong>");
            let inner = render_all(children);
            out.append(inner.as_str());
            out.append("</strong>");
            out
        },
        Node::Italic(children) => {
            let mut out = String::from_str("<em>");
            let inner = render_all(children);
            out.append(inner.as_str());
            out.append("</em>");
            out
        },
        Node::Text(s) => escape_str(s.as_str()),
        Node::Link { text, url } => {
            let mut out = String::from_str("<a href=\"");
            out.append(url.as_str());
            out.append("\">");
            let escaped = escape_str(text.as_str());
            out.append(escaped.as_str());
            out.append("</a>");
            out
        },
        Node::UnorderedList(children) => {
            let mut out = String::from_str("<ul>\n");
            let inner = render_joined(children);
            out.append(inner.as_str());
            out.append("\n</ul>");
            out
        },
        Node::ListItem(children) => {
            let mut out = String::from_str("<li>");
            let inner = render_all(children);
            out.append(inner.as_str());
            out.append("</li>");
            out
        },
        Node::CodeBlock(content) => {
            let mut out = String::from_str("<pre><code>");
            let escaped = escape_code_str(content.as_str());
            out.append(escaped.as_str());
            out.append("</code></pre>");
            out
        },
    }
}

} // verus!
