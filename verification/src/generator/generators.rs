use crate::error::{GenerateError, GenerateErrorKind, GenerateErrorView};
use crate::lexer::token::TokenType;
use crate::parser::nodes::{lemma_children_view, Node, NodeType, NodeView};
use vstd::prelude::*;
use vstd::string::StringExecFns;

verus! {

/// The text of a node's token; none counts as empty.
pub open spec fn value_text(node: NodeView) -> Seq<char> {
    match node.value.value {
        Some(text) => text,
        None => Seq::empty(),
    }
}

/// The text of the node's token; empty where it has none.
pub fn node_value(node: &Node) -> (r: &str)
    ensures
        r@ == value_text(node@),
{
    proof {
        reveal_strlit("");
        assert(""@ =~= Seq::<char>::empty());
    }
    match &node.value.value {
        Some(res) => res.as_str(),
        None => "",
    }
}

/// One token of an expression as an assignment writes it: behind a blank,
/// and a string literal between quotes. A token without text writes nothing.
pub open spec fn operand_text(child: NodeView) -> Seq<char> {
    match child.value.value {
        None => Seq::empty(),
        Some(text) => if child.value.ttype == TokenType::LIT_STR {
            seq![' ', '"'] + text + seq!['"']
        } else {
            seq![' '] + text
        },
    }
}

/// The tokens of an expression as an assignment writes them, in order.
pub open spec fn expression_text(children: Seq<NodeView>) -> Seq<char>
    decreases children.len(),
{
    if children.len() == 0 {
        Seq::empty()
    } else {
        expression_text(children.drop_last()) + operand_text(children.last())
    }
}

/// Whether each of the nodes is one token of an expression.
pub open spec fn all_symbols(children: Seq<NodeView>) -> bool {
    forall|i: int| 0 <= i < children.len() ==> (#[trigger] children[i]).ntype == NodeType::SYMBOL
}

/// The type that a declaration gives the variable: a number where the
/// expression begins with a numeric literal, else a string.
pub open spec fn declared_type(children: Seq<NodeView>) -> Seq<char>
    recommends
        children.len() > 0,
{
    if children[0].value.ttype == TokenType::LIT_NUM {
        "double "@
    } else {
        "::std::string "@
    }
}

/// The statement for an assignment: a declaration where the variable does
/// not exist yet, else a bare assignment. The node must name its variable,
/// and its children must be the tokens of an expression, at least one.
pub open spec fn variable_spec(node: NodeView, exists: bool) -> Result<Seq<char>, GenerateErrorKind> {
    if node.value.value is None {
        Err(GenerateErrorKind::MissingName)
    } else if !all_symbols(node.children) {
        Err(GenerateErrorKind::UnexpectedNode)
    } else if node.children.len() == 0 {
        Err(GenerateErrorKind::EmptyAssignment)
    } else {
        Ok(
            (if exists {
                Seq::empty()
            } else {
                declared_type(node.children)
            }) + value_text(node) + " ="@ + expression_text(node.children) + ";\n"@,
        )
    }
}

/// `r` is what `spec` says: the text, or the failure of the tree.
pub open spec fn gives(
    r: Result<String, GenerateError>,
    spec: Result<Seq<char>, GenerateErrorKind>,
) -> bool {
    match spec {
        Ok(text) => r is Ok && r->Ok_0@ == text,
        Err(kind) => r is Err && r->Err_0@ == GenerateErrorView::Tree(kind),
    }
}

/// Generates the statement for an assignment: a declaration where the
/// variable does not exist yet, else a bare assignment.
pub fn generate_variable(node: &Node, exists: bool) -> (r: Result<String, GenerateError>)
    ensures
        gives(r, variable_spec(node@, exists)),
{
    let name = match &node.value.value {
        Some(name) => name,
        None => {
            return Err(GenerateError::Tree(GenerateErrorKind::MissingName));
        },
    };
    proof {
        lemma_children_view(node);
    }
    let mut expression = String::new();
    let mut i: usize = 0;
    while i < node.children.len()
        invariant
            i <= node.children.len(),
            node.value.value is Some,
            node@.children.len() == node.children@.len(),
            forall|j: int| 0 <= j < node.children@.len() ==> node@.children[j] == node.children@[j]@,
            all_symbols(node@.children.take(i as int)),
            expression@ == expression_text(node@.children.take(i as int)),
        decreases node.children.len() - i,
    {
        let child = &node.children[i];
        if child.ntype != NodeType::SYMBOL {
            proof {
                assert(node@.children[i as int].ntype != NodeType::SYMBOL);
            }
            return Err(GenerateError::Tree(GenerateErrorKind::UnexpectedNode));
        }
        let ghost sofar = expression@;
        if let Some(value) = &child.value.value {
            expression.push(' ');
            if child.value.ttype == TokenType::LIT_STR {
                expression.push('"');
                expression.append(value.as_str());
                expression.push('"');
            } else {
                expression.append(value.as_str());
            }
        }
        proof {
            let next = node@.children.take(i + 1);
            assert(next.drop_last() =~= node@.children.take(i as int));
            assert(next.last() == child@);
            assert(expression@ =~= sofar + operand_text(child@));
            assert forall|j: int| 0 <= j < next.len() implies (#[trigger] next[j]).ntype
                == NodeType::SYMBOL by {
                if j < i {
                    assert(node@.children.take(i as int)[j] == next[j]);
                }
            }
        }
        i += 1;
    }
    proof {
        assert(node@.children.take(i as int) =~= node@.children);
    }
    if node.children.len() == 0 {
        return Err(GenerateError::Tree(GenerateErrorKind::EmptyAssignment));
    }
    let mut out = String::new();
    if !exists {
        if node.children[0].value.ttype == TokenType::LIT_NUM {
            out.append("double ");
        } else {
            out.append("::std::string ");
        }
    }
    out.append(name.as_str());
    out.append(" =");
    out.append(expression.as_str());
    out.append(";\n");
    proof {
        let kind = if exists {
            Seq::<char>::empty()
        } else {
            declared_type(node@.children)
        };
        assert(out@ =~= kind + value_text(node@) + " ="@ + expression_text(node@.children) + ";\n"@);
    }
    Ok(out)
}

/// The names as arguments of a script call: each inside `__VAR(..)`, with commas between.
pub open spec fn vars_text(vars: Seq<Seq<char>>) -> Seq<char>
    decreases vars.len(),
{
    if vars.len() == 0 {
        Seq::empty()
    } else {
        vars_text(vars.drop_last()) + (if vars.len() > 1 {
            ","@
        } else {
            Seq::empty()
        }) + "__VAR("@ + vars.last() + ")"@
    }
}

/// The texts of the strings of `vars`, in order.
pub open spec fn names(vars: Seq<&str>) -> Seq<Seq<char>> {
    Seq::new(vars.len(), |i: int| vars[i]@)
}

/// The call that runs a script: its text goes to the templating engine as
/// written, with the visible variables by name and value.
pub open spec fn script_spec(node: NodeView, vars: Seq<Seq<char>>) -> Seq<char> {
    (if node.ntype == NodeType::SCR_PY {
        "__SYSTEM_PY("@
    } else {
        "__SYSTEM("@
    }) + "R\"__DOIT__("@ + value_text(node) + ")__DOIT__\", ::doit::args_map({"@ + vars_text(vars)
        + "}));\n"@
}

/// Generates the call that runs a script with the variables in `vars`.
pub fn generate_script(node: &Node, vars: &[&str]) -> (r: Result<String, GenerateError>)
    ensures
        r is Ok,
        r->Ok_0@ == script_spec(node@, names(vars@)),
{
    let mut list = String::new();
    let mut i: usize = 0;
    while i < vars.len()
        invariant
            i <= vars.len(),
            list@ == vars_text(names(vars@).take(i as int)),
        decreases vars.len() - i,
    {
        let ghost sofar = list@;
        if i > 0 {
            list.append(",");
        }
        list.append("__VAR(");
        list.append(vars[i]);
        list.append(")");
        proof {
            let next = names(vars@).take(i + 1);
            assert(next.drop_last() =~= names(vars@).take(i as int));
            assert(next.last() == vars@[i as int]@);
            assert(list@ =~= sofar + (if next.len() > 1 {
                ","@
            } else {
                Seq::empty()
            }) + "__VAR("@ + next.last() + ")"@);
        }
        i += 1;
    }
    proof {
        assert(names(vars@).take(i as int) =~= names(vars@));
    }
    let mut out = String::new();
    if node.ntype == NodeType::SCR_PY {
        out.append("__SYSTEM_PY(");
    } else {
        out.append("__SYSTEM(");
    }
    out.append("R\"__DOIT__(");
    out.append(node_value(node));
    out.append(")__DOIT__\", ::doit::args_map({");
    out.append(list.as_str());
    out.append("}));\n");
    proof {
        assert(out@ =~= script_spec(node@, names(vars@)));
    }
    Ok(out)
}

/// A comment of the output, with the text of the node as it was captured.
pub open spec fn comment_spec(node: NodeView) -> Seq<char> {
    "//"@ + value_text(node) + "\n"@
}

/// Generates a comment with the text of the node.
pub fn generate_comment(node: &Node) -> (r: Result<String, GenerateError>)
    ensures
        r is Ok,
        r->Ok_0@ == comment_spec(node@),
{
    let mut out = String::new();
    out.append("//");
    out.append(node_value(node));
    out.append("\n");
    proof {
        assert(out@ =~= comment_spec(node@));
    }
    Ok(out)
}

/// The texts of the nodes with blanks between them.
pub open spec fn joined_values(children: Seq<NodeView>) -> Seq<char>
    decreases children.len(),
{
    if children.len() == 0 {
        Seq::empty()
    } else {
        joined_values(children.drop_last()) + (if children.len() > 1 {
            " "@
        } else {
            Seq::empty()
        }) + value_text(children.last())
    }
}

/// The call that ends the program, with the tokens of the expression as they were written.
pub open spec fn exit_spec(node: NodeView) -> Seq<char> {
    "exit("@ + joined_values(node.children) + ");\n"@
}

/// Generates the call that ends the program.
pub fn generate_exit(node: &Node) -> (r: Result<String, GenerateError>)
    ensures
        r is Ok,
        r->Ok_0@ == exit_spec(node@),
{
    proof {
        lemma_children_view(node);
    }
    let mut out = String::new();
    out.append("exit(");
    let mut i: usize = 0;
    while i < node.children.len()
        invariant
            i <= node.children.len(),
            node@.children.len() == node.children@.len(),
            forall|j: int| 0 <= j < node.children@.len() ==> node@.children[j] == node.children@[j]@,
            out@ == "exit("@ + joined_values(node@.children.take(i as int)),
        decreases node.children.len() - i,
    {
        let ghost sofar = joined_values(node@.children.take(i as int));
        if i > 0 {
            out.append(" ");
        }
        out.append(node_value(&node.children[i]));
        proof {
            let next = node@.children.take(i + 1);
            assert(next.drop_last() =~= node@.children.take(i as int));
            assert(next.last() == node.children@[i as int]@);
            assert(out@ =~= "exit("@ + (sofar + (if next.len() > 1 {
                " "@
            } else {
                Seq::empty()
            }) + value_text(next.last())));
        }
        i += 1;
    }
    proof {
        assert(node@.children.take(i as int) =~= node@.children);
    }
    out.append(");\n");
    Ok(out)
}

} // verus!
