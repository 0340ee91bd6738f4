pub mod generators;
pub mod laws;
pub mod sources;
pub mod usage;

use crate::error::{GenerateError, GenerateErrorKind, GenerateErrorView};
use crate::generator::generators::{
    comment_spec, exit_spec, generate_comment, generate_exit, generate_script, generate_variable,
    gives, names, node_value, script_spec, value_text, variable_spec,
};
use crate::generator::sources::{
    DOIT_HEADER, SOURCE_HEAD, SOURCE_HELP, SOURCE_MATCH, SOURCE_TABLE, SOURCE_TAIL,
};
use crate::generator::usage::{help_table, matches_text, table_text, target_matches};
use crate::lexer::token::{TokenView, Tokenizer};
use crate::parser::grammar::parse_spec;
use crate::parser::nodes::{lemma_children_view, views, Node, NodeType, NodeView};
use crate::parser::Parser;
use crate::text::same_text;
use vstd::prelude::*;
use vstd::string::StringExecFns;

verus! {

/// The text of a string that may be missing.
pub open spec fn text_view(text: Option<String>) -> Option<Seq<char>> {
    match text {
        Some(t) => Some(t@),
        None => None,
    }
}

/// An argument of a target, as the usage table lists it; its help is optional.
#[derive(Debug, PartialEq, Eq)]
pub struct TargetArg {
    pub required: bool,
    pub arg_name: String,
    pub arg_help: Option<String>,
}

/// A `TargetArg` as a mathematical value.
pub struct TargetArgView {
    pub required: bool,
    pub arg_name: Seq<char>,
    pub arg_help: Option<Seq<char>>,
}

impl View for TargetArg {
    type V = TargetArgView;

    open spec fn view(&self) -> TargetArgView {
        TargetArgView {
            required: self.required,
            arg_name: self.arg_name@,
            arg_help: text_view(self.arg_help),
        }
    }
}

/// A target, as the usage table and the dispatch chain list it; its help is optional.
#[derive(Debug, PartialEq, Eq)]
pub struct Target {
    pub target_name: String,
    pub target_help: Option<String>,
    pub target_args: Vec<TargetArg>,
}

/// A `Target` as a mathematical value.
pub struct TargetView {
    pub target_name: Seq<char>,
    pub target_help: Option<Seq<char>>,
    pub target_args: Seq<TargetArgView>,
}

impl View for Target {
    type V = TargetView;

    open spec fn view(&self) -> TargetView {
        TargetView {
            target_name: self.target_name@,
            target_help: text_view(self.target_help),
            target_args: arg_views(self.target_args@),
        }
    }
}

/// The views of the arguments, in order.
pub open spec fn arg_views(args: Seq<TargetArg>) -> Seq<TargetArgView> {
    Seq::new(args.len(), |i: int| args[i]@)
}

/// The views of the targets, in order.
pub open spec fn target_views(targets: Seq<Target>) -> Seq<TargetView> {
    Seq::new(targets.len(), |i: int| targets[i]@)
}

/// The text of a help block, if there is a help block and it has text.
pub open spec fn help_text_of(help: Option<TokenView>) -> Option<Seq<char>> {
    match help {
        Some(token) => token.value,
        None => None,
    }
}

/// Whether the node declares an argument.
pub open spec fn is_argument(node: NodeView) -> bool {
    node.ntype == NodeType::ARG_REQ || node.ntype == NodeType::ARG_OPT
}

/// The arguments that the children of a target declare, in order. Each must have a name.
pub open spec fn target_args_spec(children: Seq<NodeView>) -> Result<
    Seq<TargetArgView>,
    GenerateErrorKind,
>
    decreases children.len(),
{
    if children.len() == 0 {
        Ok(Seq::empty())
    } else {
        let child = children.last();
        match target_args_spec(children.drop_last()) {
            Err(kind) => Err(kind),
            Ok(before) => if !is_argument(child) {
                Ok(before)
            } else {
                match child.value.value {
                    None => Err(GenerateErrorKind::MissingArgumentName),
                    Some(name) => Ok(
                        before.push(
                            TargetArgView {
                                required: child.ntype == NodeType::ARG_REQ,
                                arg_name: name,
                                arg_help: help_text_of(child.help),
                            },
                        ),
                    ),
                }
            },
        }
    }
}

/// What a target node records for the usage table and the dispatch chain.
pub open spec fn target_spec(node: NodeView) -> Result<TargetView, GenerateErrorKind> {
    match target_args_spec(node.children) {
        Err(kind) => Err(kind),
        Ok(args) => Ok(
            TargetView {
                target_name: value_text(node),
                target_help: help_text_of(node.help),
                target_args: args,
            },
        ),
    }
}

/// The variables that are visible behind `node`, where `vars` are visible in
/// front of it: an assignment adds its variable unless it is there already.
pub open spec fn declare(vars: Seq<Seq<char>>, node: NodeView) -> Seq<Seq<char>> {
    if node.ntype == NodeType::ASSIGN && node.value.value is Some && !vars.contains(
        node.value.value->Some_0,
    ) {
        vars.push(node.value.value->Some_0)
    } else {
        vars
    }
}

/// The variables that are visible in front of the node at `i` of a scope
/// that `vars` are visible in from the start.
pub open spec fn visible_at(vars: Seq<Seq<char>>, nodes: Seq<NodeView>, i: int) -> Seq<Seq<char>>
    decreases i,
{
    if i <= 0 || i > nodes.len() {
        vars
    } else {
        declare(visible_at(vars, nodes, i - 1), nodes[i - 1])
    }
}

/// What a part of the tree generates: its text and the targets it declares
/// in the order of their declaration, both as far as they were generated
/// where generating failed, and the failure, if there is one.
pub struct Piece {
    pub text: Seq<char>,
    pub targets: Seq<TargetView>,
    pub failure: Option<GenerateErrorKind>,
}

impl Piece {
    /// The piece that generates nothing.
    pub open spec fn empty() -> Piece {
        Piece { text: Seq::empty(), targets: Seq::empty(), failure: None }
    }

    /// The piece that generates `text` and declares no target.
    pub open spec fn of(text: Seq<char>) -> Piece {
        Piece { text, targets: Seq::empty(), failure: None }
    }

    /// The piece that fails and generates nothing.
    pub open spec fn failed(kind: GenerateErrorKind) -> Piece {
        Piece { text: Seq::empty(), targets: Seq::empty(), failure: Some(kind) }
    }

    /// The piece that generates what `spec` says or fails as it says.
    pub open spec fn of_result(indent: Seq<char>, spec: Result<Seq<char>, GenerateErrorKind>) -> Piece {
        match spec {
            Ok(text) => Piece::of(indent + text),
            Err(kind) => Piece::failed(kind),
        }
    }

    /// This piece followed by `next`; it must not have failed.
    pub open spec fn followed_by(self, next: Piece) -> Piece {
        Piece {
            text: self.text + next.text,
            targets: self.targets + next.targets,
            failure: next.failure,
        }
    }

    /// The text of the piece, or its failure.
    pub open spec fn result(self) -> Result<Seq<char>, GenerateErrorKind> {
        match self.failure {
            None => Ok(self.text),
            Some(kind) => Err(kind),
        }
    }
}

/// What one node of a scope generates at the given indentation, with `vars`
/// visible: a statement on a line of its own; for a target, a function with
/// the scope of its children as its body, one step further in, which sees
/// all of `vars`. Tokens of expressions and arguments generate nothing.
/// A target is declared before its body is generated: where the body fails,
/// the target and what the body declared up to there are declared.
pub open spec fn node_piece(indent: Seq<char>, node: NodeView, vars: Seq<Seq<char>>) -> Piece
    decreases node, 0nat,
{
    match node.ntype {
        NodeType::ROOT => Piece::failed(GenerateErrorKind::UnexpectedNode),
        NodeType::EXIT => Piece::of(indent + exit_spec(node)),
        NodeType::YIELD => Piece::of(indent + "::doit::yield();\n"@),
        NodeType::ASSIGN => Piece::of_result(
            indent,
            variable_spec(node, vars.contains(value_text(node))),
        ),
        NodeType::TARGET => match target_spec(node) {
            Err(kind) => Piece::failed(kind),
            Ok(target) => {
                let body = pieces_upto(
                    indent + "\t"@,
                    node.children,
                    vars,
                    node.children.len() as int,
                );
                Piece {
                    text: indent + "void "@ + value_text(node)
                        + "(int argc, const char *argv[]) {\n"@ + body.text + indent + "}\n"@,
                    targets: seq![target] + body.targets,
                    failure: body.failure,
                }
            },
        },
        NodeType::SCR_SH | NodeType::SCR_PY => Piece::of(indent + script_spec(node, vars)),
        NodeType::COMMENT => Piece::of(indent + comment_spec(node)),
        NodeType::SYMBOL | NodeType::ARG_REQ | NodeType::ARG_OPT => Piece::empty(),
    }
}

/// What the first `n` nodes of a scope generate, one after the other, up to
/// the first of them that fails.
pub open spec fn pieces_upto(
    indent: Seq<char>,
    nodes: Seq<NodeView>,
    vars: Seq<Seq<char>>,
    n: int,
) -> Piece
    decreases nodes, n,
{
    if n <= 0 || n > nodes.len() {
        Piece::empty()
    } else {
        let before = pieces_upto(indent, nodes, vars, n - 1);
        if before.failure is Some {
            before
        } else {
            before.followed_by(node_piece(indent, nodes[n - 1], visible_at(vars, nodes, n - 1)))
        }
    }
}

/// What a scope generates: its nodes one after the other, up to the first
/// of them that fails.
pub open spec fn scope_piece(indent: Seq<char>, nodes: Seq<NodeView>, vars: Seq<Seq<char>>) -> Piece {
    pieces_upto(indent, nodes, vars, nodes.len() as int)
}

/// The text of a help block, if there is a help block and it has text.
fn help_text(help: &Option<crate::lexer::token::Token>) -> (r: Option<String>)
    ensures
        text_view(r) == help_text_of(
            match help {
                Some(token) => Some(token@),
                None => None,
            },
        ),
{
    match help {
        Some(token) => match &token.value {
            Some(text) => Some(text.clone()),
            None => None,
        },
        None => None,
    }
}

/// `r` is what `spec` says: the value, or the failure of the tree.
pub open spec fn yields<T: View>(
    r: Result<T, GenerateError>,
    spec: Result<T::V, GenerateErrorKind>,
) -> bool {
    match spec {
        Ok(value) => r is Ok && r->Ok_0@ == value,
        Err(kind) => r is Err && r->Err_0@ == GenerateErrorView::Tree(kind),
    }
}

/// What the target node records for the usage table and the dispatch chain.
fn target_of(node: &Node) -> (r: Result<Target, GenerateError>)
    ensures
        yields(r, target_spec(node@)),
{
    proof {
        lemma_children_view(node);
    }
    let mut args: Vec<TargetArg> = Vec::new();
    let mut i: usize = 0;
    while i < node.children.len()
        invariant
            i <= node.children.len(),
            node@.children.len() == node.children@.len(),
            forall|j: int| 0 <= j < node.children@.len() ==> node@.children[j] == node.children@[j]@,
            target_args_spec(node@.children.take(i as int)) is Ok,
            target_args_spec(node@.children.take(i as int))->Ok_0 =~= arg_views(args@),
        decreases node.children.len() - i,
    {
        let child = &node.children[i];
        let ghost sofar = arg_views(args@);
        proof {
            let next = node@.children.take(i + 1);
            assert(next.drop_last() =~= node@.children.take(i as int));
            assert(next.last() == child@);
        }
        if child.ntype == NodeType::ARG_REQ || child.ntype == NodeType::ARG_OPT {
            let name = match &child.value.value {
                Some(name) => name.clone(),
                None => {
                    proof {
                        lemma_args_failure(node@.children, i + 1);
                    }
                    return Err(GenerateError::Tree(GenerateErrorKind::MissingArgumentName));
                },
            };
            let arg = TargetArg {
                required: child.ntype == NodeType::ARG_REQ,
                arg_name: name,
                arg_help: help_text(&child.help),
            };
            args.push(arg);
            proof {
                assert(arg_views(args@) =~= sofar.push(arg@));
            }
        }
        i += 1;
    }
    proof {
        assert(node@.children.take(i as int) =~= node@.children);
    }
    Ok(
        Target {
            target_name: node_value(node).to_owned(),
            target_help: help_text(&node.help),
            target_args: args,
        },
    )
}

/// A failure among the first children is a failure among all of them.
pub proof fn lemma_args_failure(children: Seq<NodeView>, n: int)
    requires
        0 <= n <= children.len(),
        target_args_spec(children.take(n)) is Err,
    ensures
        target_args_spec(children) == target_args_spec(children.take(n)),
    decreases children.len() - n,
{
    if n < children.len() {
        assert(children.take(n + 1).drop_last() =~= children.take(n));
        lemma_args_failure(children, n + 1);
    } else {
        assert(children.take(n) =~= children);
    }
}

/// A failure among the first nodes of a scope is the failure of the scope.
pub proof fn lemma_pieces_failure(indent: Seq<char>, nodes: Seq<NodeView>, vars: Seq<Seq<char>>, n: int)
    requires
        0 <= n <= nodes.len(),
        pieces_upto(indent, nodes, vars, n).failure is Some,
    ensures
        scope_piece(indent, nodes, vars) == pieces_upto(indent, nodes, vars, n),
    decreases nodes.len() - n,
{
    if n < nodes.len() {
        lemma_pieces_failure(indent, nodes, vars, n + 1);
    }
}

/// Whether one of `vars` is `name`.
fn contains_name(vars: &[&str], name: &str) -> (r: bool)
    ensures
        r == names(vars@).contains(name@),
{
    let mut i: usize = 0;
    while i < vars.len()
        invariant
            i <= vars.len(),
            forall|j: int| 0 <= j < i ==> names(vars@)[j] != name@,
        decreases vars.len() - i,
    {
        if same_text(vars[i], name) {
            assert(names(vars@)[i as int] == name@);
            return true;
        }
        i += 1;
    }
    false
}

/// The targets were added as `spec` says, and the text went out as it says
/// or the failure is what it says.
pub open spec fn emitted(
    r: Result<String, GenerateError>,
    before: Seq<Target>,
    after: Seq<Target>,
    spec: Piece,
) -> bool {
    &&& target_views(after) == target_views(before) + spec.targets
    &&& gives(r, spec.result())
}

/// Generates the text of one node of a scope and adds the targets that
/// it declares to `tgts`.
fn generate_node(indent: &str, node: &Node, vars: &[&str], tgts: &mut Vec<Target>) -> (r: Result<
    String,
    GenerateError,
>)
    ensures
        emitted(r, old(tgts)@, final(tgts)@, node_piece(indent@, node@, names(vars@))),
    decreases node, 0nat,
{
    let mut result = String::new();
    proof {
        assert(target_views(tgts@) + Seq::<TargetView>::empty() =~= target_views(tgts@));
    }
    match node.ntype {
        NodeType::ROOT => {
            return Err(GenerateError::Tree(GenerateErrorKind::UnexpectedNode));
        },
        NodeType::EXIT => {
            result.append(indent);
            let text = match generate_exit(node) {
                Ok(text) => text,
                Err(e) => {
                    return Err(e);
                },
            };
            result.append(text.as_str());
        },
        NodeType::YIELD => {
            result.append(indent);
            result.append("::doit::yield();\n");
        },
        NodeType::ASSIGN => {
            let exists = contains_name(vars, node_value(node));
            let text = match generate_variable(node, exists) {
                Ok(text) => text,
                Err(e) => {
                    return Err(e);
                },
            };
            result.append(indent);
            result.append(text.as_str());
        },
        NodeType::TARGET => {
            let target = match target_of(node) {
                Ok(target) => target,
                Err(e) => {
                    return Err(e);
                },
            };
            result.append(indent);
            result.append("void ");
            result.append(node_value(node));
            result.append("(int argc, const char *argv[]) {\n");
            let ghost recorded = target@;
            tgts.push(target);
            let ghost pushed = tgts@;
            proof {
                assert(target_views(pushed) =~= target_views(old(tgts)@) + seq![recorded]);
                lemma_children_view(node);
            }
            let mut inner = indent.to_owned();
            inner.append("\t");
            let scope = generate_scope(inner.as_str(), &node.children, vars, tgts);
            proof {
                let piece = scope_piece(indent@ + "\t"@, node@.children, names(vars@));
                assert(target_views(tgts@) =~= target_views(old(tgts)@) + (seq![recorded]
                    + piece.targets));
            }
            let body = match scope {
                Ok(body) => body,
                Err(e) => {
                    return Err(e);
                },
            };
            result.append(body.as_str());
            result.append(indent);
            result.append("}\n");
        },
        NodeType::SCR_SH | NodeType::SCR_PY => {
            result.append(indent);
            let text = match generate_script(node, vars) {
                Ok(text) => text,
                Err(e) => {
                    return Err(e);
                },
            };
            result.append(text.as_str());
        },
        NodeType::COMMENT => {
            result.append(indent);
            let text = match generate_comment(node) {
                Ok(text) => text,
                Err(e) => {
                    return Err(e);
                },
            };
            result.append(text.as_str());
        },
        NodeType::SYMBOL | NodeType::ARG_OPT | NodeType::ARG_REQ => {},
    }
    Ok(result)
}

/// Generates the text of a scope and adds the targets that it declares
/// to `tgts`. The names in `vars` are the variables visible from outside;
/// what the scope declares is visible from there on inside it.
pub fn generate_scope(indent: &str, nodes: &Vec<Node>, vars: &[&str], tgts: &mut Vec<Target>) -> (r:
    Result<String, GenerateError>)
    ensures
        emitted(
            r,
            old(tgts)@,
            final(tgts)@,
            scope_piece(indent@, views(nodes@), names(vars@)),
        ),
    decreases nodes, 1nat,
{
    let mut result = String::new();
    let mut locals: Vec<&str> = Vec::new();
    let mut k: usize = 0;
    while k < vars.len()
        invariant
            k <= vars.len(),
            names(locals@) == names(vars@).take(k as int),
        decreases vars.len() - k,
    {
        let ghost known = names(locals@);
        locals.push(vars[k]);
        proof {
            assert(names(locals@) =~= known.push(vars@[k as int]@));
            assert(names(vars@).take(k + 1) =~= names(vars@).take(k as int).push(
                vars@[k as int]@,
            ));
        }
        k += 1;
    }
    proof {
        assert(names(vars@).take(k as int) =~= names(vars@));
        assert(target_views(tgts@) + Seq::<TargetView>::empty() =~= target_views(tgts@));
    }
    let ghost all = views(nodes@);
    let ghost outer = names(vars@);
    let mut i: usize = 0;
    while i < nodes.len()
        invariant
            i <= nodes.len(),
            all == views(nodes@),
            outer == names(vars@),
            names(locals@) == visible_at(outer, all, i as int),
            pieces_upto(indent@, all, outer, i as int).failure is None,
            pieces_upto(indent@, all, outer, i as int).text == result@,
            target_views(tgts@) == target_views(old(tgts)@) + pieces_upto(
                indent@,
                all,
                outer,
                i as int,
            ).targets,
        decreases nodes.len() - i,
    {
        let node = &nodes[i];
        let ghost before = tgts@;
        let ghost sofar = pieces_upto(indent@, all, outer, i as int);
        let generated = generate_node(indent, node, locals.as_slice(), tgts);
        proof {
            let piece = node_piece(indent@, all[i as int], names(locals@));
            assert(target_views(tgts@) =~= target_views(old(tgts)@) + (sofar.targets
                + piece.targets));
        }
        let text = match generated {
            Ok(text) => text,
            Err(e) => {
                proof {
                    lemma_pieces_failure(indent@, all, outer, i + 1);
                }
                return Err(e);
            },
        };
        result.append(text.as_str());
        if node.ntype == NodeType::ASSIGN {
            if let Some(name) = &node.value.value {
                if !contains_name(locals.as_slice(), name.as_str()) {
                    let ghost known = names(locals@);
                    locals.push(name.as_str());
                    proof {
                        assert(names(locals@) =~= known.push(name@));
                    }
                }
            }
        }
        i += 1;
    }
    Ok(result)
}

/// A generator of output text from the syntax tree that a parser builds.
pub struct Generator<T: Tokenizer> {
    pub parser: Parser<T>,
}

impl<T: Tokenizer> Generator<T> {
    /// A generator for the tree that the parser builds.
    pub fn new(parser: Parser<T>) -> (r: Generator<T>)
        ensures
            r.parser == parser,
    {
        Generator { parser }
    }

    /// Builds the syntax tree of the parser's tokens and generates the output text for it.
    pub fn generate(&mut self) -> (r: Result<String, GenerateError>)
        requires
            old(self).parser.wf(),
        ensures
            final(self).parser.wf(),
            match parse_spec(old(self).parser.upcoming(), old(self).parser.filename()) {
                Err(e) => r is Err && r->Err_0@ == GenerateErrorView::Parse(e),
                Ok(root) => gives(r, source_spec(root)),
            },
    {
        let root_node = match self.parser.parse() {
            Ok(root) => root,
            Err(e) => {
                return Err(GenerateError::Parse(e));
            },
        };
        generate_source(&root_node)
    }
}

/// The help text of the root; empty where it has none.
pub open spec fn root_help_text(root: NodeView) -> Seq<char> {
    match root.help {
        Some(token) => match token.value {
            Some(text) => text,
            None => Seq::empty(),
        },
        None => Seq::empty(),
    }
}

/// The output text for a tree: the run-time support, then the fixed text
/// with the scope of the root, the help text of the root, the usage table
/// sorted by name, and the dispatch chain in the order of declaration in
/// their places.
pub open spec fn source_spec(root: NodeView) -> Result<Seq<char>, GenerateErrorKind> {
    let piece = scope_piece("\t"@, root.children, Seq::empty());
    match piece.failure {
        Some(kind) => Err(kind),
        None => Ok(
            DOIT_HEADER@ + SOURCE_HEAD@ + piece.text + SOURCE_HELP@ + root_help_text(root)
                + SOURCE_TABLE@ + table_text(piece.targets) + SOURCE_MATCH@ + matches_text(
                piece.targets,
            ) + SOURCE_TAIL@,
        ),
    }
}

/// Generates the output text for the tree under `root`.
pub fn generate_source(root: &Node) -> (r: Result<String, GenerateError>)
    ensures
        gives(r, source_spec(root@)),
{
    let mut targets: Vec<Target> = Vec::new();
    let none: Vec<&str> = Vec::new();
    proof {
        lemma_children_view(root);
        assert(names(none@) =~= Seq::<Seq<char>>::empty());
        assert(target_views(targets@) =~= Seq::<TargetView>::empty());
    }
    let definitions = match generate_scope("\t", &root.children, none.as_slice(), &mut targets) {
        Ok(text) => text,
        Err(e) => {
            return Err(e);
        },
    };
    proof {
        let piece = scope_piece("\t"@, root@.children, Seq::empty());
        assert(target_views(targets@) =~= piece.targets);
    }
    let mut source = DOIT_HEADER.to_owned();
    source.append(SOURCE_HEAD);
    source.append(definitions.as_str());
    source.append(SOURCE_HELP);
    match &root.help {
        Some(token) => match &token.value {
            Some(text) => {
                source.append(text.as_str());
            },
            None => {},
        },
        None => {},
    }
    proof {
        assert(source@ =~= DOIT_HEADER@ + SOURCE_HEAD@ + definitions@ + SOURCE_HELP@
            + root_help_text(root@));
    }
    source.append(SOURCE_TABLE);
    source.append(help_table(&targets).as_str());
    source.append(SOURCE_MATCH);
    source.append(target_matches(&targets).as_str());
    source.append(SOURCE_TAIL);
    Ok(source)
}

} // verus!