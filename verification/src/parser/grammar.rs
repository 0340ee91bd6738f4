use crate::error::{LexErrorKind, LexErrorView, LocationView, ParseErrorKind, ParseErrorView};
use crate::lexer::token::{Lexeme, TokenType, TokenView};
use crate::parser::nodes::{NodeType, NodeView};
use vstd::prelude::*;

verus! {

/// What parsing an expression gives: the value or the failure, and the
/// tokens that are left.
pub struct Parsed<T> {
    pub value: Result<T, ParseErrorView>,
    pub rest: Seq<Lexeme>,
}

/// The tokens that are left when the first was taken; the last one stays.
pub open spec fn advance(tokens: Seq<Lexeme>) -> Seq<Lexeme> {
    if tokens.len() > 1 {
        tokens.skip(1)
    } else {
        tokens
    }
}

/// The place that the tokenizer of the text `name` stands on when it has given `lexeme`.
pub open spec fn place(name: Seq<char>, lexeme: Lexeme) -> LocationView {
    LocationView { filename: name, line: lexeme.line, column: lexeme.column }
}

/// The failure of the tokenizer that `lexeme` reports.
pub open spec fn lex_failure(name: Seq<char>, lexeme: Lexeme, kind: LexErrorKind) -> ParseErrorView {
    ParseErrorView::Lex(LexErrorView { kind, location: place(name, lexeme) })
}

/// The failure of the grammar at `lexeme`.
pub open spec fn syntax_failure(
    name: Seq<char>,
    lexeme: Lexeme,
    kind: ParseErrorKind,
) -> ParseErrorView {
    ParseErrorView::Syntax(kind, place(name, lexeme))
}

/// Whether an expression ends in front of a token of this kind.
pub open spec fn ends_expression(ttype: TokenType) -> bool {
    ttype == TokenType::EOL || ttype == TokenType::EOF
}

/// The tokens up to the end of the line, each as a node of its own.
pub open spec fn expression_spec(tokens: Seq<Lexeme>, name: Seq<char>) -> Parsed<Seq<NodeView>>
    decreases tokens.len(),
{
    if tokens.len() == 0 {
        Parsed { value: Ok(Seq::empty()), rest: tokens }
    } else {
        match tokens[0].result {
            Err(kind) => Parsed { value: Err(lex_failure(name, tokens[0], kind)), rest: tokens },
            Ok(token) => if ends_expression(token.ttype) || tokens.len() == 1 {
                Parsed { value: Ok(Seq::empty()), rest: tokens }
            } else {
                let more = expression_spec(tokens.skip(1), name);
                Parsed {
                    value: match more.value {
                        Ok(nodes) => Ok(
                            seq![NodeView::plain(NodeType::SYMBOL, token, Seq::empty())] + nodes,
                        ),
                        Err(e) => Err(e),
                    },
                    rest: more.rest,
                }
            },
        }
    }
}

/// An expression leaves no more tokens than it was given.
pub proof fn lemma_expression_rest(tokens: Seq<Lexeme>, name: Seq<char>)
    ensures
        expression_spec(tokens, name).rest.len() <= tokens.len(),
        tokens.len() > 0 ==> expression_spec(tokens, name).rest.len() > 0,
    decreases tokens.len(),
{
    if tokens.len() > 1 {
        lemma_expression_rest(tokens.skip(1), name);
    }
}

/// Whether a token of this kind opens a statement that takes the rest of its
/// line as its expression.
pub open spec fn opens_statement(ttype: TokenType) -> bool {
    ttype == TokenType::EXIT || ttype == TokenType::SCR_SH || ttype == TokenType::SCR_PY || ttype
        == TokenType::COMMENT
}

/// The kind of node that a statement or an argument gets from its first token.
pub open spec fn node_type_of(ttype: TokenType) -> NodeType {
    match ttype {
        TokenType::EXIT => NodeType::EXIT,
        TokenType::YIELD => NodeType::YIELD,
        TokenType::SCR_PY => NodeType::SCR_PY,
        TokenType::COMMENT => NodeType::COMMENT,
        TokenType::ARG_REQ => NodeType::ARG_REQ,
        TokenType::ARG_OPT => NodeType::ARG_OPT,
        _ => NodeType::SCR_SH,
    }
}

/// What parsing a run of tokens into a scope gives: the scope as it stands
/// when the parsing ends, the failure that ended it, if one did, and the
/// tokens that are left.
pub struct Grown {
    pub scope: NodeView,
    pub failure: Option<ParseErrorView>,
    pub rest: Seq<Lexeme>,
}

impl Grown {
    /// The parsing that ends well with `scope`.
    pub open spec fn done(scope: NodeView, rest: Seq<Lexeme>) -> Grown {
        Grown { scope, failure: None, rest }
    }

    /// The parsing that fails and leaves `scope`.
    pub open spec fn failed(scope: NodeView, failure: ParseErrorView, rest: Seq<Lexeme>) -> Grown {
        Grown { scope, failure: Some(failure), rest }
    }
}

/// The scope that parsing the tokens makes of `scope`: statements, targets
/// and arguments become its children in the order of the tokens, a help block
/// becomes its help. The scope ends with the end of the text or with `}`.
/// Where the parsing fails, the scope holds what was read in front of the
/// statement that failed.
///
/// The answers of a tokenizer end with a failure or with the end of the
/// text; a sequence that ends with another token is read as if the end of
/// the text followed it.
pub open spec fn scope_spec(tokens: Seq<Lexeme>, scope: NodeView, name: Seq<char>) -> Grown
    decreases tokens.len(), 0nat,
{
    if tokens.len() == 0 {
        Grown::done(scope, tokens)
    } else {
        let ahead = advance(tokens);
        match tokens[0].result {
            Err(kind) => Grown::failed(scope, lex_failure(name, tokens[0], kind), tokens),
            Ok(token) => if token.ttype == TokenType::EOF || token.ttype == TokenType::TGT_END
                || tokens.len() == 1 {
                Grown::done(scope, ahead)
            } else if token.ttype == TokenType::EOL {
                scope_spec(ahead, scope, name)
            } else if opens_statement(token.ttype) {
                let expression = expression_spec(ahead, name);
                match expression.value {
                    Err(e) => Grown::failed(scope, e, expression.rest),
                    Ok(children) => {
                        proof {
                            lemma_expression_rest(ahead, name);
                        }
                        scope_spec(
                            expression.rest,
                            scope.with_child(
                                NodeView::plain(node_type_of(token.ttype), token, children),
                            ),
                            name,
                        )
                    },
                }
            } else if token.ttype == TokenType::YIELD {
                scope_spec(
                    ahead,
                    scope.with_child(NodeView::plain(NodeType::YIELD, token, Seq::empty())),
                    name,
                )
            } else if token.ttype == TokenType::NOMEN {
                let named = named_spec(ahead, token, scope, name);
                // What follows an identifier never leaves more tokens than it was given.
                if named.failure is None && named.rest.len() < tokens.len() {
                    scope_spec(named.rest, named.scope, name)
                } else {
                    named
                }
            } else if token.ttype == TokenType::HELP {
                if scope.help is Some {
                    Grown::failed(
                        scope,
                        syntax_failure(name, tokens[0], ParseErrorKind::DuplicateHelp),
                        tokens,
                    )
                } else {
                    scope_spec(ahead, scope.with_help(token), name)
                }
            } else if token.ttype == TokenType::ARG_REQ || token.ttype == TokenType::ARG_OPT {
                let argument = NodeView::plain(node_type_of(token.ttype), token, Seq::empty());
                match ahead[0].result {
                    Err(kind) => Grown::failed(scope, lex_failure(name, ahead[0], kind), ahead),
                    Ok(help) => if help.ttype == TokenType::HELP && ahead.len() > 1 {
                        scope_spec(ahead.skip(1), scope.with_child(argument.with_help(help)), name)
                    } else {
                        scope_spec(ahead, scope.with_child(argument), name)
                    },
                }
            } else {
                Grown::failed(
                    scope,
                    syntax_failure(name, tokens[0], ParseErrorKind::UnexpectedToken),
                    tokens,
                )
            },
        }
    }
}

/// The scope that what follows the identifier `named` adds a child to: `=`
/// and an expression make an assignment, `{` and a scope make a target, `:`
/// and one token, which is its script, make a target of one line. Line breaks
/// behind the identifier are passed over. Where this fails, the scope stays
/// as it was.
pub open spec fn named_spec(
    tokens: Seq<Lexeme>,
    named: TokenView,
    scope: NodeView,
    name: Seq<char>,
) -> Grown
    decreases tokens.len(), 1nat,
{
    if tokens.len() == 0 {
        Grown::done(scope, tokens)
    } else {
        let ahead = advance(tokens);
        match tokens[0].result {
            Err(kind) => Grown::failed(scope, lex_failure(name, tokens[0], kind), tokens),
            Ok(token) => if token.ttype == TokenType::EOF {
                Grown::failed(
                    scope,
                    syntax_failure(name, tokens[0], ParseErrorKind::UnexpectedEof),
                    tokens,
                )
            } else if tokens.len() == 1 {
                Grown::done(scope, tokens)
            } else if token.ttype == TokenType::EOL {
                named_spec(ahead, named, scope, name)
            } else if token.ttype == TokenType::ASSIGN {
                let expression = expression_spec(ahead, name);
                match expression.value {
                    Ok(children) => Grown::done(
                        scope.with_child(NodeView::plain(NodeType::ASSIGN, named, children)),
                        expression.rest,
                    ),
                    Err(e) => Grown::failed(scope, e, expression.rest),
                }
            } else if token.ttype == TokenType::TGT_BEG {
                let block = scope_spec(
                    ahead,
                    NodeView::plain(NodeType::TARGET, named, Seq::empty()),
                    name,
                );
                match block.failure {
                    None => Grown::done(scope.with_child(block.scope), block.rest),
                    Some(e) => Grown::failed(scope, e, block.rest),
                }
            } else if token.ttype == TokenType::TGT_SLE {
                match ahead[0].result {
                    Err(kind) => Grown::failed(scope, lex_failure(name, ahead[0], kind), ahead),
                    Ok(script) => Grown::done(
                        scope.with_child(
                            NodeView::plain(
                                NodeType::TARGET,
                                named,
                                seq![
                                    NodeView::plain(
                                        node_type_of(script.ttype),
                                        script,
                                        Seq::empty(),
                                    ),
                                ],
                            ),
                        ),
                        advance(ahead),
                    ),
                }
            } else {
                Grown::failed(
                    scope,
                    syntax_failure(name, tokens[0], ParseErrorKind::UnexpectedToken),
                    tokens,
                )
            },
        }
    }
}

/// The scope of the root of the tokens, which begin with the start marker `token`.
pub open spec fn root_spec(tokens: Seq<Lexeme>, token: TokenView, name: Seq<char>) -> Grown {
    scope_spec(advance(tokens), NodeView::plain(NodeType::ROOT, token, Seq::empty()), name)
}

/// The tree that the tokens stand for: they begin with the start marker, and
/// what follows is the scope of the root.
pub open spec fn parse_spec(tokens: Seq<Lexeme>, name: Seq<char>) -> Result<NodeView, ParseErrorView>
    recommends
        tokens.len() > 0,
{
    match tokens[0].result {
        Err(kind) => Err(lex_failure(name, tokens[0], kind)),
        Ok(token) => if token.ttype != TokenType::SOF {
            Err(syntax_failure(name, tokens[0], ParseErrorKind::MissingStartOfFile))
        } else {
            match root_spec(tokens, token, name).failure {
                None => Ok(root_spec(tokens, token, name).scope),
                Some(e) => Err(e),
            }
        },
    }
}

/// The tokens that are left when the tree was built.
pub open spec fn parse_rest(tokens: Seq<Lexeme>, name: Seq<char>) -> Seq<Lexeme>
    recommends
        tokens.len() > 0,
{
    match tokens[0].result {
        Ok(token) => root_spec(tokens, token, name).rest,
        Err(_) => tokens,
    }
}

} // verus!
