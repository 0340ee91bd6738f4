use crate::lexer::token::{Token, TokenView};
use vstd::prelude::*;

verus! {

/// The kinds of node.
#[allow(non_camel_case_types)]
#[derive(Debug, PartialEq, Eq, Clone, Copy, Structural)]
pub enum NodeType {
    /// The whole text.
    ROOT,
    /// An `exit` statement; its children are the tokens of its expression.
    EXIT,
    /// A `yield` statement.
    YIELD,
    /// An assignment; its value is the variable's name, its children are the
    /// tokens of its expression.
    ASSIGN,
    /// A target; its value is the target's name.
    TARGET,
    /// A shell script.
    SCR_SH,
    /// A python script.
    SCR_PY,
    /// A comment.
    COMMENT,
    /// One token of an expression.
    SYMBOL,
    /// A required argument of a target.
    ARG_REQ,
    /// An optional argument of a target.
    ARG_OPT,
}

/// A node of the syntax tree.
#[derive(Debug, PartialEq, Eq)]
pub struct Node {
    pub value: Token,
    pub help: Option<Token>,
    pub ntype: NodeType,
    pub children: Vec<Node>,
}

/// A `Node` as a mathematical value.
pub struct NodeView {
    pub value: TokenView,
    pub help: Option<TokenView>,
    pub ntype: NodeType,
    pub children: Seq<NodeView>,
}

/// The mathematical value of a node: its own fields and the values of its children.
pub open spec fn node_view(node: Node) -> NodeView
    decreases node,
{
    NodeView {
        value: node.value@,
        help: match node.help {
            Some(token) => Some(token@),
            None => None,
        },
        ntype: node.ntype,
        children: Seq::new(
            node.children@.len(),
            |i: int|
                if 0 <= i < node.children@.len() {
                    node_view(node.children@[i])
                } else {
                    arbitrary()
                },
        ),
    }
}

impl View for Node {
    type V = NodeView;

    open spec fn view(&self) -> NodeView {
        node_view(*self)
    }
}

/// The views of the nodes of `nodes`, in order.
pub open spec fn views(nodes: Seq<Node>) -> Seq<NodeView> {
    Seq::new(nodes.len(), |i: int| nodes[i]@)
}

/// The children of a node's view are the views of its children.
pub proof fn lemma_children_view(node: &Node)
    ensures
        node@.children == views(node.children@),
{
    assert(node@.children.len() == node.children@.len());
    assert forall|i: int| 0 <= i < node.children@.len() implies node@.children[i] == views(
        node.children@,
    )[i] by {}
    assert(node@.children =~= views(node.children@));
}

impl NodeView {
    /// The node with `child` added behind its children.
    pub open spec fn with_child(self, child: NodeView) -> NodeView {
        NodeView { children: self.children.push(child), ..self }
    }

    /// The node with `help` as its help.
    pub open spec fn with_help(self, help: TokenView) -> NodeView {
        NodeView { help: Some(help), ..self }
    }

    /// The node of the kind `ntype` with the given value and children, and no help.
    pub open spec fn plain(ntype: NodeType, value: TokenView, children: Seq<NodeView>) -> NodeView {
        NodeView { value, help: None, ntype, children }
    }
}

impl Node {
    /// A node without help.
    pub fn new(ntype: NodeType, value: Token, children: Vec<Node>) -> (r: Node)
        ensures
            r.ntype == ntype,
            r.value == value,
            r.children == children,
            r.help is None,
            r@ == NodeView::plain(ntype, value@, views(children@)),
    {
        let r = Node { ntype, value, children, help: None };
        proof {
            lemma_children_view(&r);
        }
        r
    }

    /// A node without help and without children.
    pub fn single(ntype: NodeType, value: Token) -> (r: Node)
        ensures
            r.ntype == ntype,
            r.value == value,
            r.children@.len() == 0,
            r.help is None,
            r@ == NodeView::plain(ntype, value@, Seq::empty()),
    {
        let r = Node::new(ntype, value, Vec::new());
        proof {
            assert(views(r.children@) =~= Seq::<NodeView>::empty());
        }
        r
    }
}

} // verus!
