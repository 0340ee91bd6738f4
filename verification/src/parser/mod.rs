pub mod grammar;
pub mod laws;
pub mod nodes;
pub mod print;

use crate::error::{Location, LocationView, ParseError, ParseErrorKind, ParseErrorView};
use crate::lexer::token::{Lexeme, Token, TokenType, Tokenizer};
use crate::parser::grammar::{
    advance, expression_spec, lemma_expression_rest, lex_failure, named_spec, node_type_of, parse_rest,
    parse_spec, place, scope_spec, Grown,
};
use crate::parser::nodes::{lemma_children_view, views, Node, NodeType, NodeView};
use vstd::prelude::*;

verus! {

/// A parser over the tokens of a tokenizer.
pub struct Parser<T: Tokenizer> {
    tokenizer: T,
}

/// The kind of node that a statement or an argument gets from its first token.
fn node_type_for(ttype: TokenType) -> (r: NodeType)
    ensures
        r == node_type_of(ttype),
{
    match ttype {
        TokenType::EXIT => NodeType::EXIT,
        TokenType::YIELD => NodeType::YIELD,
        TokenType::SCR_PY => NodeType::SCR_PY,
        TokenType::COMMENT => NodeType::COMMENT,
        TokenType::ARG_REQ => NodeType::ARG_REQ,
        TokenType::ARG_OPT => NodeType::ARG_OPT,
        _ => NodeType::SCR_SH,
    }
}

/// Adds `child` behind the children of `scope`.
fn push_child(scope: &mut Node, child: Node)
    ensures
        final(scope)@ == old(scope)@.with_child(child@),
{
    proof {
        lemma_children_view(scope);
    }
    scope.children.push(child);
    proof {
        lemma_children_view(scope);
        assert(views(scope.children@) =~= views(old(scope).children@).push(child@));
    }
}

impl<T: Tokenizer> Parser<T> {
    /// The parser's own invariant.
    pub closed spec fn wf(&self) -> bool {
        self.tokenizer.wf()
    }

    /// The answers of the tokenizer that are still to come.
    pub closed spec fn upcoming(&self) -> Seq<Lexeme> {
        self.tokenizer.upcoming()
    }

    /// The name of the source text.
    pub closed spec fn filename(&self) -> Seq<char> {
        self.tokenizer.filename()
    }

    /// The place that the tokenizer stands on.
    pub closed spec fn location(&self) -> LocationView {
        LocationView {
            filename: self.tokenizer.filename(),
            line: self.tokenizer.lineno(),
            column: self.tokenizer.charno(),
        }
    }

    /// A parser of the tokens that the tokenizer still has to give.
    pub fn new(tokenizer: T) -> (r: Parser<T>)
        requires
            tokenizer.wf(),
        ensures
            r.wf(),
            r.upcoming() == tokenizer.upcoming(),
            r.filename() == tokenizer.filename(),
    {
        Parser { tokenizer }
    }

    /// There is always a coming answer, and the last one is a failure or the end of the text.
    pub proof fn upcoming_ends(&self)
        requires
            self.wf(),
        ensures
            self.upcoming().len() >= 1,
            self.upcoming().last().is_last(),
    {
        self.tokenizer.upcoming_ends();
    }

    /// The failure of the grammar at the place that the tokenizer stands on.
    fn generate_error(&self, kind: ParseErrorKind) -> (r: ParseError)
        requires
            self.wf(),
        ensures
            r@ == ParseErrorView::Syntax(kind, self.location()),
    {
        ParseError::Syntax(
            kind,
            Location {
                filename: self.tokenizer.get_filename().to_owned(),
                line: self.tokenizer.get_lineno(),
                column: self.tokenizer.get_charno(),
            },
        )
    }

    /// The kind of the next token, which is left in place.
    fn peek_type(&mut self) -> (r: Result<TokenType, ParseError>)
        requires
            old(self).wf(),
        ensures
            final(self).wf(),
            final(self).filename() == old(self).filename(),
            final(self).location() == place(
                old(self).filename(),
                old(self).upcoming()[0],
            ),
            match old(self).upcoming()[0].result {
                Ok(token) => r == Ok::<TokenType, ParseError>(token.ttype) && final(self).upcoming()
                    == old(self).upcoming(),
                Err(kind) => r is Err && r->Err_0@ == lex_failure(
                    old(self).filename(),
                    old(self).upcoming()[0],
                    kind,
                ),
            },
    {
        match self.tokenizer.peek_token() {
            Ok(token) => Ok(token.ttype),
            Err(e) => Err(ParseError::Lex(e)),
        }
    }

    /// The next token, taken out.
    fn take(&mut self) -> (r: Result<Token, ParseError>)
        requires
            old(self).wf(),
        ensures
            final(self).wf(),
            final(self).filename() == old(self).filename(),
            final(self).location() == place(
                old(self).filename(),
                old(self).upcoming()[0],
            ),
            match old(self).upcoming()[0].result {
                Ok(token) => r is Ok && r->Ok_0@ == token && final(self).upcoming() == advance(
                    old(self).upcoming(),
                ),
                Err(kind) => r is Err && r->Err_0@ == lex_failure(
                    old(self).filename(),
                    old(self).upcoming()[0],
                    kind,
                ),
            },
    {
        proof {
            self.tokenizer.upcoming_ends();
        }
        match self.tokenizer.next_token() {
            Ok(token) => Ok(token),
            Err(e) => Err(ParseError::Lex(e)),
        }
    }

    /// Collects the tokens up to the end of the line, each as a node of its own.
    fn parse_expression(&mut self) -> (r: Result<Vec<Node>, ParseError>)
        requires
            old(self).wf(),
        ensures
            final(self).wf(),
            final(self).filename() == old(self).filename(),
            match expression_spec(old(self).upcoming(), old(self).filename()).value {
                Ok(nodes) => r is Ok && views(r->Ok_0@) == nodes && final(self).upcoming()
                    == expression_spec(old(self).upcoming(), old(self).filename()).rest,
                Err(e) => r is Err && r->Err_0@ == e,
            },
    {
        let mut nodes: Vec<Node> = Vec::new();
        let ghost name = self.filename();
        let ghost whole = expression_spec(self.upcoming(), name);
        proof {
            if whole.value is Ok {
                assert(views(nodes@) + whole.value->Ok_0 =~= whole.value->Ok_0);
            }
        }
        loop
            invariant
                self.wf(),
                self.filename() == name,
                name == old(self).filename(),
                whole == expression_spec(old(self).upcoming(), name),
                whole.rest == expression_spec(self.upcoming(), name).rest,
                match expression_spec(self.upcoming(), name).value {
                    Ok(more) => whole.value == Ok::<Seq<NodeView>, ParseErrorView>(
                        views(nodes@) + more,
                    ),
                    Err(e) => whole.value == Err::<Seq<NodeView>, ParseErrorView>(e),
                },
            decreases self.upcoming().len(),
        {
            proof {
                self.upcoming_ends();
            }
            let ghost before = self.upcoming();
            let ttype = match self.peek_type() {
                Ok(ttype) => ttype,
                Err(e) => {
                    return Err(e);
                },
            };
            if ttype == TokenType::EOL || ttype == TokenType::EOF {
                proof {
                    assert(views(nodes@) + Seq::<NodeView>::empty() =~= views(nodes@));
                }
                return Ok(nodes);
            }
            let token = match self.take() {
                Ok(token) => token,
                Err(e) => {
                    return Err(e);
                },
            };
            let ghost sofar = views(nodes@);
            let node = Node::single(NodeType::SYMBOL, token);
            nodes.push(node);
            proof {
                assert(views(nodes@) =~= sofar.push(node@));
                let more = expression_spec(self.upcoming(), name);
                if more.value is Ok {
                    assert(sofar + (seq![node@] + more.value->Ok_0) =~= views(nodes@)
                        + more.value->Ok_0);
                }
            }
        }
    }

    /// The scope stands as `parsed` says, and `r` tells whether the parsing
    /// failed; where it did not, the tokens that are left are those that
    /// `parsed` says.
    pub open spec fn grew(&self, after: &Node, parsed: Grown, r: Result<(), ParseError>) -> bool {
        &&& after@ == parsed.scope
        &&& match parsed.failure {
            None => r is Ok && self.upcoming() == parsed.rest,
            Some(e) => r is Err && r->Err_0@ == e,
        }
    }

    /// Reads what follows an identifier, which is the next token, and adds
    /// the assignment or the target that it makes to `scope`.
    fn parse_nomenclature(&mut self, scope: &mut Node) -> (r: Result<(), ParseError>)
        requires
            old(self).wf(),
            old(self).upcoming().len() > 1,
            old(self).upcoming()[0].result is Ok,
        ensures
            final(self).wf(),
            final(self).filename() == old(self).filename(),
            r is Ok ==> final(self).upcoming().len() < old(self).upcoming().len(),
            r is Err ==> final(scope)@ == old(scope)@,
            final(self).grew(
                final(scope),
                named_spec(
                    old(self).upcoming().skip(1),
                    old(self).upcoming()[0].result->Ok_0,
                    old(scope)@,
                    old(self).filename(),
                ),
                r,
            ),
        decreases old(self).upcoming().len(), 0nat,
    {
        let ghost name = self.filename();
        let ghost whole = named_spec(
            self.upcoming().skip(1),
            self.upcoming()[0].result->Ok_0,
            scope@,
            name,
        );
        let named = match self.take() {
            Ok(token) => token,
            Err(e) => {
                return Err(e);
            },
        };
        loop
            invariant
                self.wf(),
                self.filename() == name,
                name == old(self).filename(),
                *scope == *old(scope),
                named@ == old(self).upcoming()[0].result->Ok_0,
                self.upcoming().len() < old(self).upcoming().len(),
                whole == named_spec(
                    old(self).upcoming().skip(1),
                    old(self).upcoming()[0].result->Ok_0,
                    old(scope)@,
                    name,
                ),
                whole == named_spec(self.upcoming(), named@, scope@, name),
            decreases self.upcoming().len(),
        {
            proof {
                self.upcoming_ends();
            }
            let next = match self.take() {
                Ok(token) => token,
                Err(e) => {
                    return Err(e);
                },
            };
            match next.ttype {
                TokenType::EOL => {
                    continue ;
                },
                TokenType::EOF => {
                    return Err(self.generate_error(ParseErrorKind::UnexpectedEof));
                },
                TokenType::ASSIGN => {
                    proof {
                        lemma_expression_rest(self.upcoming(), name);
                    }
                    let children = match self.parse_expression() {
                        Ok(children) => children,
                        Err(e) => {
                            return Err(e);
                        },
                    };
                    push_child(scope, Node::new(NodeType::ASSIGN, named, children));
                    return Ok(());
                },
                TokenType::TGT_BEG => {
                    let mut block = Node::single(NodeType::TARGET, named);
                    if let Err(e) = self.parse_scope(&mut block) {
                        return Err(e);
                    }
                    push_child(scope, block);
                    return Ok(());
                },
                TokenType::TGT_SLE => {
                    proof {
                        self.upcoming_ends();
                    }
                    let script = match self.take() {
                        Ok(token) => token,
                        Err(e) => {
                            return Err(e);
                        },
                    };
                    let mut children: Vec<Node> = Vec::new();
                    let child = Node::single(node_type_for(script.ttype), script);
                    children.push(child);
                    proof {
                        assert(views(children@) =~= seq![child@]);
                    }
                    push_child(scope, Node::new(NodeType::TARGET, named, children));
                    return Ok(());
                },
                _ => {
                    return Err(self.generate_error(ParseErrorKind::UnexpectedToken));
                },
            }
        }
    }

    /// Reads statements, targets, arguments and a help block into `scope`, up
    /// to the end of the text or to `}`.
    fn parse_scope(&mut self, scope: &mut Node) -> (r: Result<(), ParseError>)
        requires
            old(self).wf(),
        ensures
            final(self).wf(),
            final(self).filename() == old(self).filename(),
            r is Ok ==> final(self).upcoming().len() <= old(self).upcoming().len(),
            final(self).grew(
                final(scope),
                scope_spec(old(self).upcoming(), old(scope)@, old(self).filename()),
                r,
            ),
        decreases old(self).upcoming().len(), 1nat,
    {
        let ghost name = self.filename();
        let ghost whole = scope_spec(self.upcoming(), scope@, name);
        loop
            invariant
                self.wf(),
                self.filename() == name,
                name == old(self).filename(),
                self.upcoming().len() <= old(self).upcoming().len(),
                whole == scope_spec(old(self).upcoming(), old(scope)@, name),
                whole == scope_spec(self.upcoming(), scope@, name),
            decreases self.upcoming().len(),
        {
            proof {
                self.upcoming_ends();
            }
            let ghost tokens = self.upcoming();
            let ttype = match self.peek_type() {
                Ok(ttype) => ttype,
                Err(e) => {
                    return Err(e);
                },
            };
            match ttype {
                TokenType::EOL => {
                    let _ = self.take();
                },
                TokenType::EOF | TokenType::TGT_END => {
                    let _ = self.take();
                    return Ok(());
                },
                TokenType::EXIT | TokenType::SCR_SH | TokenType::SCR_PY | TokenType::COMMENT => {
                    let token = match self.take() {
                        Ok(token) => token,
                        Err(e) => {
                            return Err(e);
                        },
                    };
                    proof {
                        lemma_expression_rest(self.upcoming(), name);
                    }
                    let children = match self.parse_expression() {
                        Ok(children) => children,
                        Err(e) => {
                            return Err(e);
                        },
                    };
                    push_child(scope, Node::new(node_type_for(ttype), token, children));
                },
                TokenType::YIELD => {
                    let token = match self.take() {
                        Ok(token) => token,
                        Err(e) => {
                            return Err(e);
                        },
                    };
                    push_child(scope, Node::single(NodeType::YIELD, token));
                },
                TokenType::NOMEN => {
                    if let Err(e) = self.parse_nomenclature(scope) {
                        return Err(e);
                    }
                },
                TokenType::HELP => {
                    if scope.help.is_some() {
                        return Err(self.generate_error(ParseErrorKind::DuplicateHelp));
                    }
                    let token = match self.take() {
                        Ok(token) => token,
                        Err(e) => {
                            return Err(e);
                        },
                    };
                    proof {
                        lemma_children_view(scope);
                    }
                    scope.help = Some(token);
                    proof {
                        lemma_children_view(scope);
                    }
                },
                TokenType::ARG_REQ | TokenType::ARG_OPT => {
                    let token = match self.take() {
                        Ok(token) => token,
                        Err(e) => {
                            return Err(e);
                        },
                    };
                    let mut argument = Node::single(node_type_for(ttype), token);
                    proof {
                        self.upcoming_ends();
                    }
                    let following = match self.peek_type() {
                        Ok(ttype) => ttype,
                        Err(e) => {
                            return Err(e);
                        },
                    };
                    if following == TokenType::HELP {
                        let help = match self.take() {
                            Ok(token) => token,
                            Err(e) => {
                                return Err(e);
                            },
                        };
                        proof {
                            lemma_children_view(&argument);
                        }
                        argument.help = Some(help);
                        proof {
                            lemma_children_view(&argument);
                        }
                    }
                    push_child(scope, argument);
                },
                _ => {
                    return Err(self.generate_error(ParseErrorKind::UnexpectedToken));
                },
            }
        }
    }

    /// Builds the syntax tree of the tokens, which must begin with the start marker.
    pub fn parse(&mut self) -> (r: Result<Node, ParseError>)
        requires
            old(self).wf(),
        ensures
            final(self).wf(),
            final(self).filename() == old(self).filename(),
            match parse_spec(old(self).upcoming(), old(self).filename()) {
                Ok(root) => r is Ok && r->Ok_0@ == root && final(self).upcoming() == parse_rest(
                    old(self).upcoming(),
                    old(self).filename(),
                ),
                Err(e) => r is Err && r->Err_0@ == e,
            },
    {
        proof {
            self.upcoming_ends();
        }
        let root_token = match self.take() {
            Ok(token) => token,
            Err(e) => {
                return Err(e);
            },
        };
        if root_token.ttype != TokenType::SOF {
            return Err(self.generate_error(ParseErrorKind::MissingStartOfFile));
        }
        let mut root_node = Node::single(NodeType::ROOT, root_token);
        match self.parse_scope(&mut root_node) {
            Ok(_) => Ok(root_node),
            Err(e) => Err(e),
        }
    }
}

} // verus!