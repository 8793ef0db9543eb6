use vstd::prelude::*;

verus! {

/// Elements of the parsed syntax tree: blocks (document, heading, paragraph,
/// list, code block) and inline content (text, bold, italic, link).
///
/// `UnorderedList` children are exclusively `ListItem` nodes, and the inline
/// containers hold exclusively inline nodes; `CodeBlock` holds its verbatim
/// body and has no children.
#[derive(Debug, PartialEq)]
pub enum Node {
    Document(Vec<Node>),
    Heading(usize, Vec<Node>),
    Paragraph(Vec<Node>),
    Bold(Vec<Node>),
    Italic(Vec<Node>),
    Text(String),
    Link { text: String, url: String },
    UnorderedList(Vec<Node>),
    ListItem(Vec<Node>),
    CodeBlock(String),
}

/// The mathematical counterpart of [`Node`].
#[verifier::ext_equal]
pub enum NodeModel {
    Document(Seq<NodeModel>),
    Heading(nat, Seq<NodeModel>),
    Paragraph(Seq<NodeModel>),
    Bold(Seq<NodeModel>),
    Italic(Seq<NodeModel>),
    Text(Seq<char>),
    Link { text: Seq<char>, url: Seq<char> },
    UnorderedList(Seq<NodeModel>),
    ListItem(Seq<NodeModel>),
    CodeBlock(Seq<char>),
}

/// The model of a single node.
pub open spec fn node_view(n: Node) -> NodeModel
    decreases n,
{
    match n {
        Node::Document(ch) => NodeModel::Document(nodes_view(ch@)),
        Node::Heading(level, ch) => NodeModel::Heading(level as nat, nodes_view(ch@)),
        Node::Paragraph(ch) => NodeModel::Paragraph(nodes_view(ch@)),
        Node::Bold(ch) => NodeModel::Bold(nodes_view(ch@)),
        Node::Italic(ch) => NodeModel::Italic(nodes_view(ch@)),
        Node::Text(s) => NodeModel::Text(s@),
        Node::Link { text, url } => (NodeModel::Link { text: text@, url: url@ }),
        Node::UnorderedList(ch) => NodeModel::UnorderedList(nodes_view(ch@)),
        Node::ListItem(ch) => NodeModel::ListItem(nodes_view(ch@)),
        Node::CodeBlock(s) => NodeModel::CodeBlock(s@),
    }
}

/// The models of a sequence of nodes, in order.
pub open spec fn nodes_view(v: Seq<Node>) -> Seq<NodeModel>
    decreases v,
{
    if v.len() == 0 {
        Seq::empty()
    } else {
        seq![node_view(v[0])] + nodes_view(v.drop_first())
    }
}

impl DeepView for Node {
    type V = NodeModel;

    open spec fn deep_view(&self) -> NodeModel {
        node_view(*self)
    }
}

pub proof fn lemma_nodes_view_len(v: Seq<Node>)
    ensures
        nodes_view(v).len() == v.len(),
        forall|i: int| 0 <= i < v.len() ==> nodes_view(v)[i] == node_view(v[i]),
    decreases v.len(),
{
    if v.len() > 0 {
        lemma_nodes_view_len(v.drop_first());
    }
}

/// Appending a node appends its model.
pub proof fn lemma_nodes_view_push(v: Seq<Node>, x: Node)
    ensures
        nodes_view(v.push(x)) == nodes_view(v).push(node_view(x)),
    decreases v.len(),
{
    if v.len() == 0 {
        assert(v.push(x)[0] == x);
        assert(v.push(x).drop_first() =~= Seq::<Node>::empty());
        assert(nodes_view(Seq::<Node>::empty()) == Seq::<NodeModel>::empty());
        assert(nodes_view(v.push(x)) == seq![node_view(x)] + Seq::<NodeModel>::empty());
        assert(seq![node_view(x)] + Seq::<NodeModel>::empty() =~= nodes_view(v).push(
            node_view(x),
        ));
    } else {
        lemma_nodes_view_push(v.drop_first(), x);
        assert(v.push(x).drop_first() =~= v.drop_first().push(x));
        assert(v.push(x)[0] == v[0]);
        assert(nodes_view(v.push(x)) == seq![node_view(v[0])] + nodes_view(v.drop_first()).push(
            node_view(x),
        ));
        assert(seq![node_view(v[0])] + nodes_view(v.drop_first()).push(node_view(x)) =~= (
        seq![node_view(v[0])] + nodes_view(v.drop_first())).push(node_view(x)));
    }
}

/// Pushes a node, recording the effect on the sequence model.
pub(crate) fn push_node(v: &mut Vec<Node>, x: Node)
    ensures
        nodes_view(final(v)@) == nodes_view(old(v)@).push(node_view(x)),
        final(v)@.len() == old(v)@.len() + 1,
{
    let ghost pre = v@;
    let ghost xm = x.deep_view();
    v.push(x);
    proof {
        lemma_nodes_view_push(pre, v@[v@.len() - 1]);
    }
}

} // verus!
