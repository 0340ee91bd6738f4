use doit::error::{LexError, LexErrorKind};
use doit::lexer::token::{Token, TokenType, Tokenizer};
use doit::lexer::Lexer;

fn check(token: Token, expected_type: TokenType, expected_value: &str) {
    assert_eq!(token.ttype, expected_type);
    assert_eq!(token.value.unwrap_or("".to_string()).as_str(), expected_value);
}

#[test]
fn test_lexer() -> Result<(), LexError> {
    let mut lexer = Lexer::new(
        "test-source.it",
        r"@@@
help1
@@@
# comment1
test1 {
	@@@
	help2
	@@@
	$ script1
	# comment2
}
test2: script2
",
    );
    check(lexer.next_token()?, TokenType::SOF, "");
    check(lexer.next_token()?, TokenType::HELP, "help1");
    check(lexer.next_token()?, TokenType::EOL, "");
    check(lexer.next_token()?, TokenType::COMMENT, " comment1");
    check(lexer.next_token()?, TokenType::EOL, "");
    check(lexer.next_token()?, TokenType::NOMEN, "test1");
    check(lexer.next_token()?, TokenType::TGT_BEG, "");
    check(lexer.next_token()?, TokenType::EOL, "");
    check(lexer.next_token()?, TokenType::HELP, "\thelp2\t");
    check(lexer.next_token()?, TokenType::EOL, "");
    check(lexer.next_token()?, TokenType::SCR_SH, "script1");
    check(lexer.next_token()?, TokenType::EOL, "");
    check(lexer.next_token()?, TokenType::COMMENT, " comment2");
    check(lexer.next_token()?, TokenType::EOL, "");
    check(lexer.next_token()?, TokenType::TGT_END, "");
    check(lexer.next_token()?, TokenType::EOL, "");
    check(lexer.next_token()?, TokenType::NOMEN, "test2");
    check(lexer.next_token()?, TokenType::TGT_SLE, "");
    check(lexer.next_token()?, TokenType::SCR_SH, "script2");
    check(lexer.next_token()?, TokenType::EOL, "");
    check(lexer.next_token()?, TokenType::EOF, "");
    Ok(())
}

fn kinds(source: &str) -> Vec<(TokenType, Option<String>)> {
    let mut lexer = Lexer::new("kinds.it", source);
    let mut out = vec![];
    loop {
        let token = lexer.next_token().unwrap();
        let last = token.ttype == TokenType::EOF;
        out.push((token.ttype, token.value));
        if last {
            return out;
        }
    }
}

fn some(text: &str) -> Option<String> {
    Some(text.to_string())
}

#[test]
fn block_comment_is_one_token() {
    assert_eq!(
        kinds("###\nhello\n### trailing"),
        vec![(TokenType::SOF, None), (TokenType::COMMENT, some("hello")), (TokenType::EOF, None)]
    );
    assert_eq!(
        kinds("###\n hello\n### trailing"),
        vec![(TokenType::SOF, None), (TokenType::COMMENT, some(" hello")), (TokenType::EOF, None)]
    );
}

#[test]
fn line_comment_keeps_its_leading_blank() {
    assert_eq!(
        kinds("# hello\n"),
        vec![
            (TokenType::SOF, None),
            (TokenType::COMMENT, some(" hello")),
            (TokenType::EOL, None),
            (TokenType::EOF, None)
        ]
    );
}

#[test]
fn first_token_is_start_of_file_whatever_the_text() {
    assert_eq!(kinds(""), vec![(TokenType::SOF, None), (TokenType::EOF, None)]);
    let mut lexer = Lexer::new("bad.it", "\"open");
    assert_eq!(lexer.next_token().unwrap().ttype, TokenType::SOF);
    assert!(lexer.next_token().is_err());
}

#[test]
fn end_of_file_comes_again() {
    let mut lexer = Lexer::new("end.it", "  ");
    assert_eq!(lexer.next_token().unwrap().ttype, TokenType::SOF);
    assert_eq!(lexer.peek_token().unwrap().ttype, TokenType::EOF);
    assert_eq!(lexer.next_token().unwrap().ttype, TokenType::EOF);
    assert_eq!(lexer.next_token().unwrap().ttype, TokenType::EOF);
    assert_eq!(lexer.peek_token().unwrap().ttype, TokenType::EOF);
    assert_eq!((lexer.get_lineno(), lexer.get_charno()), (1, 2));
}

#[test]
fn peek_leaves_the_token_in_place() {
    let mut lexer = Lexer::new("peek.it", "abc = 1\n");
    assert_eq!(lexer.peek_token().unwrap().ttype, TokenType::SOF);
    assert_eq!(lexer.peek_token().unwrap().ttype, TokenType::SOF);
    assert_eq!(lexer.next_token().unwrap().ttype, TokenType::SOF);
    assert_eq!(lexer.peek_token().unwrap().value, some("abc"));
    assert_eq!(lexer.get_charno(), 3);
    assert_eq!(lexer.next_token().unwrap(), Token::val(TokenType::NOMEN, some("abc")));
    assert_eq!(lexer.next_token().unwrap(), Token::sym(TokenType::ASSIGN));
}

#[test]
fn every_kind_of_token() {
    assert_eq!(
        kinds("exit yield exits 4.2 \"s\" + { } = x-1_y\n"),
        vec![
            (TokenType::SOF, None),
            (TokenType::EXIT, None),
            (TokenType::YIELD, None),
            (TokenType::NOMEN, some("exits")),
            (TokenType::LIT_NUM, some("4.2")),
            (TokenType::LIT_STR, some("s")),
            (TokenType::SYMBOL, some("+")),
            (TokenType::TGT_BEG, None),
            (TokenType::TGT_END, None),
            (TokenType::ASSIGN, None),
            (TokenType::NOMEN, some("x-1_y")),
            (TokenType::EOL, None),
            (TokenType::EOF, None),
        ]
    );
}

#[test]
fn script_text_is_trimmed() {
    assert_eq!(
        kinds("$   ls -l  \t\n"),
        vec![
            (TokenType::SOF, None),
            (TokenType::SCR_SH, some("ls -l")),
            (TokenType::EOL, None),
            (TokenType::EOF, None)
        ]
    );
    assert_eq!(
        kinds("$$$\n  a\n  b\n$$$\n"),
        vec![
            (TokenType::SOF, None),
            (TokenType::SCR_SH, some("a\n  b")),
            (TokenType::EOL, None),
            (TokenType::EOF, None)
        ]
    );
}

#[test]
fn colon_turns_the_rest_of_the_line_into_a_script() {
    assert_eq!(
        kinds("t:echo hi\n"),
        vec![
            (TokenType::SOF, None),
            (TokenType::NOMEN, some("t")),
            (TokenType::TGT_SLE, None),
            (TokenType::SCR_SH, some("echo hi")),
            (TokenType::EOL, None),
            (TokenType::EOF, None)
        ]
    );
}

fn failure(source: &str) -> LexError {
    let mut lexer = Lexer::new("bad.it", source);
    loop {
        match lexer.next_token() {
            Ok(token) => assert!(token.ttype != TokenType::EOF, "no failure in {:?}", source),
            Err(e) => return e,
        }
    }
}

#[test]
fn unterminated_string_fails_with_its_place() {
    let e = failure("a = 1\nb = \"open\nmore\n");
    assert_eq!(e.kind, LexErrorKind::Unterminated);
    assert_eq!(e.location.filename, "bad.it");
    assert_eq!((e.location.line, e.location.column), (4, 0));
}

#[test]
fn unterminated_block_fails_with_its_place() {
    let e = failure("x {\n@@@\nhelp\n@@ @\n}");
    assert_eq!(e.kind, LexErrorKind::Unterminated);
    assert_eq!(e.location.filename, "bad.it");
    assert_eq!((e.location.line, e.location.column), (5, 1));
}

#[test]
fn malformed_escape_fails_with_its_place() {
    let e = failure("s = \"a\\tb\"\n");
    assert_eq!(e.kind, LexErrorKind::MalformedEscape);
    assert_eq!((e.location.line, e.location.column), (1, 7));
}

#[test]
fn missing_line_break_after_block_opening_fails() {
    let e = failure("### x\n###\n");
    assert_eq!(e.kind, LexErrorKind::MissingNewline);
    assert_eq!((e.location.line, e.location.column), (1, 4));
}
