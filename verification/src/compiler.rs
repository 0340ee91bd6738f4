use crate::error::{
    GenerateError, GenerateErrorView, LexError, LexErrorView, LocationView, ParseError,
    ParseErrorView,
};
use crate::generator::{source_spec, Generator};
use crate::lexer::token::{token_text, Lexeme, TokenType, Tokenizer};
use crate::lexer::{lemma_token_stream_ends, token_stream, Lexer};
use crate::parser::grammar::parse_spec;
use crate::parser::laws::lemma_parse_gives_root;
use crate::parser::nodes::{NodeType, NodeView};
use crate::parser::print::tree_text;
use crate::parser::Parser;
use vstd::prelude::*;

verus! {

/// The listing of the tokens: one line for each, up to the end of the text,
/// which has a line too, or up to the first failure.
pub open spec fn listing(tokens: Seq<Lexeme>) -> Seq<Seq<char>>
    decreases tokens.len(),
{
    if tokens.len() == 0 {
        Seq::empty()
    } else {
        match tokens[0].result {
            Err(_) => Seq::empty(),
            Ok(token) => if token.ttype == TokenType::EOF || tokens.len() == 1 {
                seq![token_text(token)]
            } else {
                seq![token_text(token)] + listing(tokens.skip(1))
            },
        }
    }
}

/// The failure that ends the listing of the tokens, if one does.
pub open spec fn listing_failure(tokens: Seq<Lexeme>, name: Seq<char>) -> Option<LexErrorView>
    decreases tokens.len(),
{
    if tokens.len() == 0 {
        None
    } else {
        match tokens[0].result {
            Err(kind) => Some(
                LexErrorView {
                    kind,
                    location: LocationView {
                        filename: name,
                        line: tokens[0].line,
                        column: tokens[0].column,
                    },
                },
            ),
            Ok(token) => if token.ttype == TokenType::EOF || tokens.len() == 1 {
                None
            } else {
                listing_failure(tokens.skip(1), name)
            },
        }
    }
}

/// The texts of the strings, in order.
pub open spec fn lines(list: Seq<String>) -> Seq<Seq<char>> {
    Seq::new(list.len(), |i: int| list[i]@)
}

/// Lists the tokens of `lexer`, one line for each, up to the end of the
/// text or to the first failure, which is handed back with the lines.
pub fn print_tokens<T: Tokenizer>(lexer: &mut T) -> (r: (Vec<String>, Option<LexError>))
    requires
        old(lexer).wf(),
    ensures
        final(lexer).wf(),
        lines(r.0@) == listing(old(lexer).upcoming()),
        match listing_failure(old(lexer).upcoming(), old(lexer).filename()) {
            Some(e) => r.1 is Some && r.1->Some_0@ == e,
            None => r.1 is None,
        },
{
    let mut out: Vec<String> = Vec::new();
    let ghost whole = lexer.upcoming();
    let ghost name = lexer.filename();
    proof {
        assert(lines(out@) + listing(whole) =~= listing(whole));
    }
    loop
        invariant
            lexer.wf(),
            lexer.filename() == name,
            name == old(lexer).filename(),
            whole == old(lexer).upcoming(),
            listing(whole) == lines(out@) + listing(lexer.upcoming()),
            listing_failure(whole, name) == listing_failure(lexer.upcoming(), name),
        decreases lexer.upcoming().len(),
    {
        proof {
            lexer.upcoming_ends();
        }
        let ghost sofar = lines(out@);
        match lexer.next_token() {
            Ok(token) => {
                out.push(token.to_string());
                proof {
                    assert(lines(out@) =~= sofar.push(token_text(token@)));
                    let rest = listing(lexer.upcoming());
                    assert(sofar + (seq![token_text(token@)] + rest) =~= lines(out@) + rest);
                    assert(sofar + seq![token_text(token@)] =~= lines(out@));
                }
                if token.ttype == TokenType::EOF {
                    return (out, None);
                }
            },
            Err(e) => {
                proof {
                    assert(sofar + Seq::<Seq<char>>::empty() =~= sofar);
                }
                return (out, Some(e));
            },
        }
    }
}

/// Builds the tree of the parser's tokens and draws it.
pub fn print_nodes<T: Tokenizer>(parser: &mut Parser<T>) -> (r: Result<String, ParseError>)
    requires
        old(parser).wf(),
    ensures
        final(parser).wf(),
        match parse_spec(old(parser).upcoming(), old(parser).filename()) {
            Ok(root) => r is Ok && r->Ok_0@ == tree_text(root, Seq::empty(), false, true),
            Err(e) => r is Err && r->Err_0@ == e,
        },
{
    match parser.parse() {
        Ok(root) => Ok(root.to_string()),
        Err(e) => Err(e),
    }
}

/// The tree of a source text: that of the tokens which a lexer reads from its start.
pub open spec fn tree_spec(name: Seq<char>, source: Seq<char>) -> Result<NodeView, ParseErrorView> {
    parse_spec(token_stream(Seq::empty(), source, true), name)
}

/// The output text for a source text: that of its tree.
pub open spec fn transpile_spec(name: Seq<char>, source: Seq<char>) -> Result<
    Seq<char>,
    GenerateErrorView,
> {
    match tree_spec(name, source) {
        Err(e) => Err(GenerateErrorView::Parse(e)),
        Ok(root) => match source_spec(root) {
            Ok(text) => Ok(text),
            Err(kind) => Err(GenerateErrorView::Tree(kind)),
        },
    }
}

/// The tree of any source text that has one is a root whose value is the start marker.
pub proof fn lemma_source_tree_is_root(name: Seq<char>, source: Seq<char>)
    requires
        tree_spec(name, source) is Ok,
    ensures
        tree_spec(name, source)->Ok_0.ntype == NodeType::ROOT,
        tree_spec(name, source)->Ok_0.value.ttype == TokenType::SOF,
{
    lemma_token_stream_ends(Seq::empty(), source, true);
    lemma_parse_gives_root(token_stream(Seq::empty(), source, true), name);
}

/// Reads the source text, builds its tree and generates the output text for
/// it. `filename` names the source in messages.
pub fn transpile(filename: &str, source: &str) -> (r: Result<String, GenerateError>)
    requires
        source@.len() < usize::MAX,
    ensures
        match transpile_spec(filename@, source@) {
            Ok(text) => r is Ok && r->Ok_0@ == text,
            Err(e) => r is Err && r->Err_0@ == e,
        },
{
    let lexer = Lexer::new(filename, source);
    let parser = Parser::new(lexer);
    let mut generator = Generator::new(parser);
    generator.generate()
}

} // verus!
