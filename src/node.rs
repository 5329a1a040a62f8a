use vstd::prelude::*;

verus! {

/// One syntactic construct of a markdown document.
#[derive(Debug, PartialEq)]
pub enum Node {
    Heading(Vec<Node>, u8),
    Paragraph(Vec<Node>),
    /// Verbatim content and the optional language tag of a fenced block.
    CodeBlock(String, Option<String>),
    CodeInline(String),
    /// Label and url.
    Link(String, String),
    /// Alternative text and url.
    Image(String, String),
    Emphasis(String),
    Strong(String),
    Strikethrough(String),
    Blockquote(Vec<Node>),
    OrderedList(Vec<Vec<Node>>),
    UnorderedList(Vec<Vec<Node>>),
    Newline,
    String(String),
}

/// The top-level sequence of nodes of a parsed document.
#[derive(Debug, PartialEq)]
pub struct NodeVec {
    pub nodes: Vec<Node>,
}

/// Mathematical model of a `Node`: texts as character sequences.
pub enum NodeModel {
    Heading(Seq<NodeModel>, nat),
    Paragraph(Seq<NodeModel>),
    CodeBlock(Seq<char>, Option<Seq<char>>),
    CodeInline(Seq<char>),
    Link(Seq<char>, Seq<char>),
    Image(Seq<char>, Seq<char>),
    Emphasis(Seq<char>),
    Strong(Seq<char>),
    Strikethrough(Seq<char>),
    Blockquote(Seq<NodeModel>),
    OrderedList(Seq<Seq<NodeModel>>),
    UnorderedList(Seq<Seq<NodeModel>>),
    Newline,
    Str(Seq<char>),
}

pub open spec fn view_nodes(v: Seq<Node>) -> Seq<NodeModel>
    decreases v, 0nat,
{
    if v.len() == 0 {
        Seq::empty()
    } else {
        view_nodes(v.drop_last()).push(view_node(v.last()))
    }
}

pub open spec fn view_items(v: Seq<Vec<Node>>) -> Seq<Seq<NodeModel>>
    decreases v, 0nat,
{
    if v.len() == 0 {
        Seq::empty()
    } else {
        view_items(v.drop_last()).push(view_nodes(v.last()@))
    }
}

pub open spec fn view_node(n: Node) -> NodeModel
    decreases n, 1nat,
{
    match n {
        Node::Heading(ch, l) => NodeModel::Heading(view_nodes(ch@), l as nat),
        Node::Paragraph(ch) => NodeModel::Paragraph(view_nodes(ch@)),
        Node::CodeBlock(c, l) => NodeModel::CodeBlock(
            c@,
            match l {
                Some(s) => Some(s@),
                None => None,
            },
        ),
        Node::CodeInline(c) => NodeModel::CodeInline(c@),
        Node::Link(a, b) => NodeModel::Link(a@, b@),
        Node::Image(a, b) => NodeModel::Image(a@, b@),
        Node::Emphasis(t) => NodeModel::Emphasis(t@),
        Node::Strong(t) => NodeModel::Strong(t@),
        Node::Strikethrough(t) => NodeModel::Strikethrough(t@),
        Node::Blockquote(ch) => NodeModel::Blockquote(view_nodes(ch@)),
        Node::OrderedList(it) => NodeModel::OrderedList(view_items(it@)),
        Node::UnorderedList(it) => NodeModel::UnorderedList(view_items(it@)),
        Node::Newline => NodeModel::Newline,
        Node::String(t) => NodeModel::Str(t@),
    }
}

impl View for Node {
    type V = NodeModel;

    open spec fn view(&self) -> NodeModel {
        view_node(*self)
    }
}

} // verus!

verus! {

pub proof fn lemma_view_nodes_push(v: Seq<Node>, n: Node)
    ensures
        view_nodes(v.push(n)) == view_nodes(v).push(n@),
{
    assert(v.push(n).drop_last() =~= v);
}

pub proof fn lemma_view_items_push(v: Seq<Vec<Node>>, n: Vec<Node>)
    ensures
        view_items(v.push(n)) == view_items(v).push(view_nodes(n@)),
{
    assert(v.push(n).drop_last() =~= v);
}

} // verus!
