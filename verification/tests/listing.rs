use doit::compiler::{print_nodes, print_tokens};
use doit::error::{
    GenerateError, GenerateErrorKind, LexError, LexErrorKind, Location, ParseError, ParseErrorKind,
};
use doit::lexer::token::{Token, TokenType};
use doit::lexer::Lexer;
use doit::parser::Parser;
use doit::utils::find;

#[test]
fn token_as_a_line() {
    assert_eq!(Token::sym(TokenType::TGT_BEG).to_string(), "TGT_BEG");
    assert_eq!(
        Token::val(TokenType::LIT_NUM, Some("4.2".to_string())).to_string(),
        "LIT_NUM(4.2)"
    );
    assert_eq!(Token::val(TokenType::SCR_SH, Some(String::new())).to_string(), "SCR_SH()");
}

#[test]
fn tokens_are_listed_up_to_the_end() {
    let (lines, failure) = print_tokens(&mut Lexer::new("list.it", "x = 1\nt: ls\n"));
    assert_eq!(
        lines,
        vec![
            "SOF", "NOMEN(x)", "ASSIGN", "LIT_NUM(1)", "EOL", "NOMEN(t)", "TGT_SLE", "SCR_SH(ls)",
            "EOL", "EOF"
        ]
    );
    assert_eq!(failure, None);
}

#[test]
fn tokens_are_listed_up_to_the_first_failure() {
    let (lines, failure) = print_tokens(&mut Lexer::new("list.it", "x = \"open\n"));
    assert_eq!(lines, vec!["SOF", "NOMEN(x)", "ASSIGN"]);
    assert_eq!(
        failure,
        Some(LexError {
            kind: LexErrorKind::Unterminated,
            location: Location { filename: "list.it".to_string(), line: 2, column: 0 }
        })
    );
}

#[test]
fn tree_is_drawn_with_branches() {
    let mut parser = Parser::new(Lexer::new("tree.it", "@ top\nx = 1 + 2\nt {\n$ ls\nu: pwd\n}\n# end\n"));
    let tree = print_nodes(&mut parser).unwrap();
    assert_eq!(
        tree,
        "ROOT [HAS_HELP]: \n\
         ├─ASSIGN: x\n\
         │ ├─SYMBOL: 1\n\
         │ ├─SYMBOL: +\n\
         │ └─SYMBOL: 2\n\
         ├─TARGET: t\n\
         │ ├─SCR_SH: ls\n\
         │ └─TARGET: u\n\
         │   └─SCR_SH: pwd\n\
         └─COMMENT:  end\n"
    );
}

#[test]
fn tree_of_a_text_that_fails() {
    let mut parser = Parser::new(Lexer::new("tree.it", "x y\n"));
    assert_eq!(
        print_nodes(&mut parser),
        Err(ParseError::Syntax(
            ParseErrorKind::UnexpectedToken,
            Location { filename: "tree.it".to_string(), line: 1, column: 3 }
        ))
    );
}

#[test]
fn messages_carry_their_place() {
    let lex = LexError {
        kind: LexErrorKind::MalformedEscape,
        location: Location { filename: "a/b.it".to_string(), line: 12, column: 0 },
    };
    assert_eq!(lex.to_string(), "a/b.it:12:0 > Unexpected escape character");
    let parse = ParseError::Syntax(
        ParseErrorKind::DuplicateHelp,
        Location { filename: "f".to_string(), line: 3, column: 140 },
    );
    assert_eq!(
        parse.to_string(),
        "f:3:140 > Help block has already been defined for the current scope."
    );
    assert_eq!(
        GenerateError::Parse(ParseError::Lex(lex)).to_string(),
        "a/b.it:12:0 > Unexpected escape character"
    );
    assert_eq!(
        GenerateError::Tree(GenerateErrorKind::UnexpectedNode).to_string(),
        "Unexpected node type"
    );
    assert_eq!(LexErrorKind::UnexpectedEof.text(), "End of file");
    assert_eq!(ParseErrorKind::UnexpectedEof.text(), "Unexpected end of file");
}

#[test]
fn find_gives_the_first_index() {
    assert_eq!(find(&[3, 1, 4, 1, 5], &1), Some(1));
    assert_eq!(find(&[3, 1, 4, 1, 5], &9), None);
    assert_eq!(find(&["a".to_string(), "b".to_string()], &"b".to_string()), Some(1));
    assert_eq!(find::<u8>(&[], &0), None);
}
