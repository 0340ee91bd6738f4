use crate::error::ParseErrorKind;
use crate::lexer::token::{Lexeme, TokenType, TokenView};
use crate::parser::grammar::{
    advance, expression_spec, lemma_expression_rest, named_spec, node_type_of, opens_statement,
    parse_spec, scope_spec, syntax_failure,
};
use crate::parser::nodes::{NodeType, NodeView};
use vstd::prelude::*;

verus! {

/// `grown` is `scope` with children added behind those it had: its kind and
/// value are the same, the children it had stand in front in the same
/// order, and a help block it had is the same.
pub open spec fn extends(grown: NodeView, scope: NodeView) -> bool {
    &&& grown.ntype == scope.ntype
    &&& grown.value == scope.value
    &&& scope.children.len() <= grown.children.len()
    &&& grown.children.take(scope.children.len() as int) == scope.children
    &&& scope.help is Some ==> grown.help == scope.help
}

/// Extending twice is extending.
pub proof fn lemma_extends_twice(a: NodeView, b: NodeView, c: NodeView)
    requires
        extends(b, a),
        extends(c, b),
    ensures
        extends(c, a),
{
    assert(c.children.take(a.children.len() as int) =~= c.children.take(
        b.children.len() as int,
    ).take(a.children.len() as int));
}

/// A node extends itself, and a node with one more child or with a first
/// help block extends the node.
pub proof fn lemma_extends_step(scope: NodeView, child: NodeView, help: TokenView)
    ensures
        extends(scope, scope),
        extends(scope.with_child(child), scope),
        scope.help is None ==> extends(scope.with_help(help), scope),
{
    assert(scope.children.take(scope.children.len() as int) =~= scope.children);
    assert(scope.children.push(child).take(scope.children.len() as int) =~= scope.children);
}

/// Order is kept: parsing a scope only adds children behind those that the
/// scope has, whether it ends well or fails. What was read earlier stands in
/// front of what is read later; nothing is taken out, moved or replaced, and
/// a help block is set once. Parsing that ends well never leaves more tokens
/// than it was given.
pub proof fn lemma_scope_keeps_order(tokens: Seq<Lexeme>, scope: NodeView, name: Seq<char>)
    ensures
        extends(scope_spec(tokens, scope, name).scope, scope),
        scope_spec(tokens, scope, name).failure is None ==> scope_spec(
            tokens,
            scope,
            name,
        ).rest.len() <= tokens.len(),
    decreases tokens.len(), 0nat,
{
    let whole = scope_spec(tokens, scope, name);
    lemma_extends_step(scope, scope, arbitrary());
    if tokens.len() > 0 && tokens[0].result is Ok {
        let token = tokens[0].result->Ok_0;
        let ahead = advance(tokens);
        if token.ttype == TokenType::EOF || token.ttype == TokenType::TGT_END || tokens.len() == 1 {
        } else if token.ttype == TokenType::EOL {
            lemma_scope_keeps_order(ahead, scope, name);
        } else if opens_statement(token.ttype) {
            let expression = expression_spec(ahead, name);
            lemma_expression_rest(ahead, name);
            if expression.value is Ok {
                let child = NodeView::plain(
                    node_type_of(token.ttype),
                    token,
                    expression.value->Ok_0,
                );
                lemma_extends_step(scope, child, token);
                lemma_scope_keeps_order(expression.rest, scope.with_child(child), name);
                lemma_extends_twice(scope, scope.with_child(child), whole.scope);
            }
        } else if token.ttype == TokenType::YIELD {
            let child = NodeView::plain(NodeType::YIELD, token, Seq::empty());
            lemma_extends_step(scope, child, token);
            lemma_scope_keeps_order(ahead, scope.with_child(child), name);
            lemma_extends_twice(scope, scope.with_child(child), whole.scope);
        } else if token.ttype == TokenType::NOMEN {
            let named = named_spec(ahead, token, scope, name);
            lemma_named_keeps_order(ahead, token, scope, name);
            if named.failure is None {
                lemma_scope_keeps_order(named.rest, named.scope, name);
                lemma_extends_twice(scope, named.scope, whole.scope);
            }
        } else if token.ttype == TokenType::HELP {
            if scope.help is None {
                lemma_extends_step(scope, scope, token);
                lemma_scope_keeps_order(ahead, scope.with_help(token), name);
                lemma_extends_twice(scope, scope.with_help(token), whole.scope);
            }
        } else if token.ttype == TokenType::ARG_REQ || token.ttype == TokenType::ARG_OPT {
            let argument = NodeView::plain(node_type_of(token.ttype), token, Seq::empty());
            if ahead[0].result is Ok {
                let help = ahead[0].result->Ok_0;
                let child = if help.ttype == TokenType::HELP && ahead.len() > 1 {
                    argument.with_help(help)
                } else {
                    argument
                };
                let after = if help.ttype == TokenType::HELP && ahead.len() > 1 {
                    ahead.skip(1)
                } else {
                    ahead
                };
                lemma_extends_step(scope, child, token);
                lemma_scope_keeps_order(after, scope.with_child(child), name);
                lemma_extends_twice(scope, scope.with_child(child), whole.scope);
            }
        }
    }
}

/// Order is kept: what follows an identifier adds one child behind those
/// that the scope has, or fails and leaves the scope as it was. Where it
/// ends well it never leaves more tokens than it was given.
pub proof fn lemma_named_keeps_order(
    tokens: Seq<Lexeme>,
    named: TokenView,
    scope: NodeView,
    name: Seq<char>,
)
    ensures
        extends(named_spec(tokens, named, scope, name).scope, scope),
        named_spec(tokens, named, scope, name).failure is Some ==> named_spec(
            tokens,
            named,
            scope,
            name,
        ).scope == scope,
        named_spec(tokens, named, scope, name).failure is None ==> named_spec(
            tokens,
            named,
            scope,
            name,
        ).rest.len() <= tokens.len(),
    decreases tokens.len(), 1nat,
{
    lemma_extends_step(scope, scope, arbitrary());
    if tokens.len() > 0 && tokens[0].result is Ok {
        let token = tokens[0].result->Ok_0;
        let ahead = advance(tokens);
        if token.ttype == TokenType::EOF || tokens.len() == 1 {
        } else if token.ttype == TokenType::EOL {
            lemma_named_keeps_order(ahead, named, scope, name);
        } else if token.ttype == TokenType::ASSIGN {
            let expression = expression_spec(ahead, name);
            lemma_expression_rest(ahead, name);
            if expression.value is Ok {
                lemma_extends_step(
                    scope,
                    NodeView::plain(NodeType::ASSIGN, named, expression.value->Ok_0),
                    token,
                );
            }
        } else if token.ttype == TokenType::TGT_BEG {
            let start = NodeView::plain(NodeType::TARGET, named, Seq::empty());
            lemma_scope_keeps_order(ahead, start, name);
            lemma_extends_step(scope, scope_spec(ahead, start, name).scope, token);
        } else if token.ttype == TokenType::TGT_SLE {
            if ahead[0].result is Ok {
                let script = ahead[0].result->Ok_0;
                lemma_extends_step(
                    scope,
                    NodeView::plain(
                        NodeType::TARGET,
                        named,
                        seq![NodeView::plain(node_type_of(script.ttype), script, Seq::empty())],
                    ),
                    token,
                );
            }
        }
    }
}

/// The tree of a text is a root: its kind is the root's, its value is the
/// start marker, and its children are what the scope of the text holds.
pub proof fn lemma_parse_gives_root(tokens: Seq<Lexeme>, name: Seq<char>)
    requires
        tokens.len() > 0,
        parse_spec(tokens, name) is Ok,
    ensures
        parse_spec(tokens, name)->Ok_0.ntype == NodeType::ROOT,
        parse_spec(tokens, name)->Ok_0.value.ttype == TokenType::SOF,
{
    let token = tokens[0].result->Ok_0;
    lemma_scope_keeps_order(
        advance(tokens),
        NodeView::plain(NodeType::ROOT, token, Seq::empty()),
        name,
    );
}

/// A scope that has a help block fails at the next help block in it.
pub proof fn lemma_second_help_fails(tokens: Seq<Lexeme>, scope: NodeView, name: Seq<char>)
    requires
        tokens.len() > 1,
        tokens[0].result is Ok,
        tokens[0].result->Ok_0.ttype == TokenType::HELP,
        scope.help is Some,
    ensures
        scope_spec(tokens, scope, name).failure == Some(
            syntax_failure(name, tokens[0], ParseErrorKind::DuplicateHelp),
        ),
{
}

/// A help block in a scope without one becomes the help of the scope, and
/// the next help block in the scope, with line breaks alone between the
/// two, fails.
pub proof fn lemma_two_help_blocks_fail(tokens: Seq<Lexeme>, scope: NodeView, name: Seq<char>, n: int)
    requires
        1 <= n,
        n + 1 < tokens.len(),
        tokens[0].result is Ok,
        tokens[0].result->Ok_0.ttype == TokenType::HELP,
        forall|i: int|
            1 <= i < n ==> (#[trigger] tokens[i]).result is Ok && tokens[i].result->Ok_0.ttype
                == TokenType::EOL,
        tokens[n].result is Ok,
        tokens[n].result->Ok_0.ttype == TokenType::HELP,
        scope.help is None,
    ensures
        scope_spec(tokens, scope, name).failure == Some(
            syntax_failure(name, tokens[n], ParseErrorKind::DuplicateHelp),
        ),
{
    let helped = scope.with_help(tokens[0].result->Ok_0);
    lemma_blank_lines(tokens, helped, name, 1, n);
    assert(tokens.skip(n)[0] == tokens[n]);
}

/// Line breaks in a scope are passed over.
pub proof fn lemma_blank_lines(tokens: Seq<Lexeme>, scope: NodeView, name: Seq<char>, from: int, to: int)
    requires
        0 <= from <= to < tokens.len(),
        forall|i: int|
            from <= i < to ==> (#[trigger] tokens[i]).result is Ok && tokens[i].result->Ok_0.ttype
                == TokenType::EOL,
    ensures
        scope_spec(tokens.skip(from), scope, name) == scope_spec(tokens.skip(to), scope, name),
    decreases to - from,
{
    if from < to {
        assert(tokens.skip(from)[0] == tokens[from]);
        assert(tokens.skip(from).skip(1) =~= tokens.skip(from + 1));
        lemma_blank_lines(tokens, scope, name, from + 1, to);
    }
}

} // verus!
