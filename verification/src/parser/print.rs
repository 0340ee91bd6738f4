use crate::generator::generators::value_text;
use crate::parser::nodes::{lemma_children_view, Node, NodeType, NodeView};
use vstd::prelude::*;
use vstd::string::StringExecFns;

verus! {

/// The name of a kind of node.
pub open spec fn node_type_name(ntype: NodeType) -> Seq<char> {
    match ntype {
        NodeType::ROOT => "ROOT"@,
        NodeType::EXIT => "EXIT"@,
        NodeType::YIELD => "YIELD"@,
        NodeType::ASSIGN => "ASSIGN"@,
        NodeType::TARGET => "TARGET"@,
        NodeType::SCR_SH => "SCR_SH"@,
        NodeType::SCR_PY => "SCR_PY"@,
        NodeType::COMMENT => "COMMENT"@,
        NodeType::SYMBOL => "SYMBOL"@,
        NodeType::ARG_REQ => "ARG_REQ"@,
        NodeType::ARG_OPT => "ARG_OPT"@,
    }
}

impl NodeType {
    /// The name of the kind.
    pub fn name(&self) -> (r: &'static str)
        ensures
            r@ == node_type_name(*self),
    {
        match self {
            NodeType::ROOT => "ROOT",
            NodeType::EXIT => "EXIT",
            NodeType::YIELD => "YIELD",
            NodeType::ASSIGN => "ASSIGN",
            NodeType::TARGET => "TARGET",
            NodeType::SCR_SH => "SCR_SH",
            NodeType::SCR_PY => "SCR_PY",
            NodeType::COMMENT => "COMMENT",
            NodeType::SYMBOL => "SYMBOL",
            NodeType::ARG_REQ => "ARG_REQ",
            NodeType::ARG_OPT => "ARG_OPT",
        }
    }
}

/// The branch that is drawn in front of a node: none for the root, a corner
/// for the last child, a tee for any other.
pub open spec fn branch_text(last: bool, root: bool) -> Seq<char> {
    if root {
        Seq::empty()
    } else if last {
        "└─"@
    } else {
        "├─"@
    }
}

/// The indentation of the children of a node that is drawn at `indent`: the
/// same for the root; else two places more, with a bar in them unless the
/// node is the last child.
pub open spec fn child_indent(indent: Seq<char>, last: bool, root: bool) -> Seq<char> {
    if root {
        indent
    } else if last {
        indent + "  "@
    } else {
        indent + "│ "@
    }
}

/// The line that a node is drawn as: indentation, branch, the name of its
/// kind, a mark where it has help, and its text.
pub open spec fn node_line(node: NodeView, indent: Seq<char>, last: bool, root: bool) -> Seq<char> {
    indent + branch_text(last, root) + node_type_name(node.ntype) + (if node.help is Some {
        " [HAS_HELP]"@
    } else {
        Seq::empty()
    }) + ": "@ + value_text(node) + "\n"@
}

/// The drawing of a tree: the line of the node, then the drawings of its
/// children, the last of them marked as such.
pub open spec fn tree_text(node: NodeView, indent: Seq<char>, last: bool, root: bool) -> Seq<char>
    decreases node, 0nat,
{
    node_line(node, indent, last, root) + children_text(
        node.children,
        child_indent(indent, last, root),
        node.children.len() as int,
    )
}

/// The drawings of the first `n` of the children, one after the other.
pub open spec fn children_text(children: Seq<NodeView>, indent: Seq<char>, n: int) -> Seq<char>
    decreases children, n,
{
    if n <= 0 || n > children.len() {
        Seq::empty()
    } else {
        children_text(children, indent, n - 1) + tree_text(
            children[n - 1],
            indent,
            n >= children.len(),
            false,
        )
    }
}

impl Node {
    /// The drawing of the tree under this node, which is drawn at `indent`
    /// as the `last` child of its parent or as the `root`.
    pub fn print(&self, indent: &str, last: bool, root: bool) -> (r: String)
        ensures
            r@ == tree_text(self@, indent@, last, root),
        decreases self,
    {
        proof {
            lemma_children_view(self);
            reveal_strlit("");
            assert(""@ =~= Seq::<char>::empty());
        }
        let mut result = indent.to_owned();
        result.append(
            if root {
                ""
            } else if last {
                "└─"
            } else {
                "├─"
            },
        );
        result.append(self.ntype.name());
        result.append(
            if self.help.is_some() {
                " [HAS_HELP]"
            } else {
                ""
            },
        );
        result.append(": ");
        result.append(crate::generator::generators::node_value(self));
        result.append("\n");
        proof {
            assert(result@ =~= node_line(self@, indent@, last, root));
        }
        let mut new_indent = indent.to_owned();
        if !root {
            new_indent.append(
                if last {
                    "  "
                } else {
                    "│ "
                },
            );
        }
        let ghost line = result@;
        let mut index: usize = 0;
        proof {
            assert(line + Seq::<char>::empty() =~= line);
        }
        while index < self.children.len()
            invariant
                index <= self.children.len(),
                self@.children.len() == self.children@.len(),
                forall|j: int|
                    0 <= j < self.children@.len() ==> self@.children[j] == self.children@[j]@,
                new_indent@ == child_indent(indent@, last, root),
                result@ == line + children_text(self@.children, new_indent@, index as int),
            decreases self.children.len() - index,
        {
            let ghost sofar = children_text(self@.children, new_indent@, index as int);
            let child = &self.children[index];
            let text = child.print(new_indent.as_str(), index + 1 >= self.children.len(), false);
            result.append(text.as_str());
            proof {
                assert(result@ =~= line + (sofar + text@));
            }
            index += 1;
        }
        result
    }

    /// The drawing of the tree under this node as the root.
    pub fn to_string(&self) -> (r: String)
        ensures
            r@ == tree_text(self@, Seq::empty(), false, true),
    {
        proof {
            reveal_strlit("");
            assert(""@ =~= Seq::<char>::empty());
        }
        self.print("", false, true)
    }
}

} // verus!
