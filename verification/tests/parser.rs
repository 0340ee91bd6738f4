use doit::error::{LexErrorKind, Location, ParseError, ParseErrorKind};
use doit::lexer::token::{Token, TokenType};
use doit::lexer::vec_tokenizer::VecTokenizer;
use doit::lexer::Lexer;
use doit::parser::nodes::{Node, NodeType};
use doit::parser::Parser;

fn tokenizer(tokens: Vec<(TokenType, Option<String>)>) -> VecTokenizer {
    VecTokenizer::new(
        "test-do.it",
        tokens.into_iter().map(|(ttype, value)| Token::val(ttype, value)).collect(),
    )
}

fn check_node(node: Option<&Node>, expected_ntype: NodeType, expected_value: &str) {
    assert_eq!(node.unwrap().ntype, expected_ntype);
    assert_eq!(node.unwrap().value.value.as_ref().unwrap(), expected_value);
}

fn check_help(node: Option<&Node>, expected_help: &str) {
    assert_eq!(node.unwrap().help.as_ref().unwrap().ttype, TokenType::HELP);
    assert_eq!(
        node.unwrap().help.as_ref().unwrap().value.as_ref().unwrap(),
        expected_help
    );
}

fn some(string: &str) -> Option<String> {
    Some(string.to_string())
}

#[test]
fn test_parser() -> Result<(), ParseError> {
    let mock_tockenizer = tokenizer(
        vec![
            (TokenType::SOF, None),
            (TokenType::HELP, some("help1")),
            (TokenType::EOL, None),
            (TokenType::COMMENT, some("comment1")),
            (TokenType::EOL, None),
            (TokenType::NOMEN, some("test1")),
            (TokenType::TGT_BEG, None),
            (TokenType::EOL, None),
            (TokenType::HELP, some("\thelp2\t")),
            (TokenType::EOL, None),
            (TokenType::SCR_SH, some("script1")),
            (TokenType::EOL, None),
            (TokenType::COMMENT, some("comment2")),
            (TokenType::EOL, None),
            (TokenType::TGT_END, None),
            (TokenType::EOL, None),
            (TokenType::NOMEN, some("test2")),
            (TokenType::TGT_SLE, None),
            (TokenType::SCR_SH, some("script2")),
            (TokenType::EOL, None),
            (TokenType::EOF, None),
        ],
    );
    let mut parser = Parser::new(mock_tockenizer);
    let root = parser.parse()?;
    assert_eq!(root.ntype, NodeType::ROOT);
    check_help(Some(&root), "help1");
    check_node(root.children.first(), NodeType::COMMENT, "comment1");
    check_node(root.children.get(1), NodeType::TARGET, "test1");
    check_help(root.children.get(1), "\thelp2\t");
    check_node(
        root.children.get(1).unwrap().children.first(),
        NodeType::SCR_SH,
        "script1",
    );
    check_node(
        root.children.get(1).unwrap().children.get(1),
        NodeType::COMMENT,
        "comment2",
    );
    check_node(root.children.get(2), NodeType::TARGET, "test2");
    assert!(root.children.get(2).unwrap().help.is_none());
    check_node(
        root.children.get(2).unwrap().children.first(),
        NodeType::SCR_SH,
        "script2",
    );
    Ok(())
}

fn parse_tokens(tokens: Vec<(TokenType, Option<String>)>) -> Result<Node, ParseError> {
    Parser::new(tokenizer(tokens)).parse()
}

fn parse_text(source: &str) -> Result<Node, ParseError> {
    Parser::new(Lexer::new("text.it", source)).parse()
}

fn at_start(kind: ParseErrorKind) -> ParseError {
    ParseError::Syntax(kind, Location { filename: "test-do.it".to_string(), line: 0, column: 0 })
}

#[test]
fn missing_start_of_file_fails() {
    assert_eq!(
        parse_tokens(vec![(TokenType::EOL, None), (TokenType::EOF, None)]),
        Err(at_start(ParseErrorKind::MissingStartOfFile))
    );
    assert_eq!(parse_tokens(vec![]), Err(at_start(ParseErrorKind::MissingStartOfFile)));
}

#[test]
fn second_help_block_in_a_scope_fails() {
    assert_eq!(
        parse_tokens(vec![
            (TokenType::SOF, None),
            (TokenType::HELP, some("one")),
            (TokenType::EOL, None),
            (TokenType::HELP, some("two")),
            (TokenType::EOF, None),
        ]),
        Err(at_start(ParseErrorKind::DuplicateHelp))
    );
    assert_eq!(
        parse_text("@ one\n@ two\n"),
        Err(ParseError::Syntax(
            ParseErrorKind::DuplicateHelp,
            Location { filename: "text.it".to_string(), line: 2, column: 5 }
        ))
    );
}

#[test]
fn help_blocks_of_different_scopes_do_not_clash() {
    let root = parse_text("@ one\nt {\n@ two\n}\nu {\n@ three\n}\n").unwrap();
    check_help(Some(&root), "one");
    check_help(root.children.first(), "two");
    check_help(root.children.get(1), "three");
}

#[test]
fn unexpected_token_in_a_scope_fails() {
    assert_eq!(
        parse_tokens(vec![(TokenType::SOF, None), (TokenType::ASSIGN, None), (TokenType::EOF, None)]),
        Err(at_start(ParseErrorKind::UnexpectedToken))
    );
    assert_eq!(
        parse_text("x = 1\n+\n"),
        Err(ParseError::Syntax(
            ParseErrorKind::UnexpectedToken,
            Location { filename: "text.it".to_string(), line: 2, column: 1 }
        ))
    );
}

#[test]
fn unexpected_token_behind_an_identifier_fails() {
    assert_eq!(
        parse_text("x y\n"),
        Err(ParseError::Syntax(
            ParseErrorKind::UnexpectedToken,
            Location { filename: "text.it".to_string(), line: 1, column: 3 }
        ))
    );
}

#[test]
fn end_of_file_behind_an_identifier_fails() {
    assert_eq!(
        parse_text("x\n\n"),
        Err(ParseError::Syntax(
            ParseErrorKind::UnexpectedEof,
            Location { filename: "text.it".to_string(), line: 3, column: 0 }
        ))
    );
}

#[test]
fn lexical_failure_comes_through_the_parser() {
    match parse_text("x = \"open\n") {
        Err(ParseError::Lex(e)) => {
            assert_eq!(e.kind, LexErrorKind::Unterminated);
            assert_eq!((e.location.line, e.location.column), (2, 0));
        }
        other => panic!("{:?}", other),
    }
    match parse_text("t {\n$$$\nnever closed\n}\n") {
        Err(ParseError::Lex(e)) => assert_eq!(e.kind, LexErrorKind::Unterminated),
        other => panic!("{:?}", other),
    }
}

#[test]
fn children_keep_the_order_of_the_source() {
    let root = parse_text("b = 1\n# c\na {\n}\n$ ls\nexit 1\nz = \"s\"\n").unwrap();
    let kinds: Vec<NodeType> = root.children.iter().map(|c| c.ntype).collect();
    assert_eq!(
        kinds,
        vec![
            NodeType::ASSIGN,
            NodeType::COMMENT,
            NodeType::TARGET,
            NodeType::SCR_SH,
            NodeType::EXIT,
            NodeType::ASSIGN
        ]
    );
    check_node(root.children.first(), NodeType::ASSIGN, "b");
    check_node(root.children.get(2), NodeType::TARGET, "a");
    check_node(root.children.get(5), NodeType::ASSIGN, "z");
}

#[test]
fn assignment_holds_the_tokens_of_its_expression() {
    let root = parse_text("x = 1 + \"two\" * y\n").unwrap();
    let assign = root.children.first().unwrap();
    let parts: Vec<(NodeType, TokenType, Option<String>)> = assign
        .children
        .iter()
        .map(|c| (c.ntype, c.value.ttype, c.value.value.clone()))
        .collect();
    assert_eq!(
        parts,
        vec![
            (NodeType::SYMBOL, TokenType::LIT_NUM, some("1")),
            (NodeType::SYMBOL, TokenType::SYMBOL, some("+")),
            (NodeType::SYMBOL, TokenType::LIT_STR, some("two")),
            (NodeType::SYMBOL, TokenType::SYMBOL, some("*")),
            (NodeType::SYMBOL, TokenType::NOMEN, some("y")),
        ]
    );
}

#[test]
fn line_breaks_between_identifier_and_brace_are_passed_over() {
    let root = parse_text("t\n\n{\n$ ls\n}\n").unwrap();
    check_node(root.children.first(), NodeType::TARGET, "t");
    assert_eq!(root.children[0].children.len(), 1);
}

#[test]
fn yield_and_exit_statements() {
    let root = parse_text("t {\n$ false\nyield\nexit 3\n}\n").unwrap();
    let target = &root.children[0];
    assert_eq!(target.children[1].ntype, NodeType::YIELD);
    assert!(target.children[1].children.is_empty());
    assert_eq!(target.children[2].ntype, NodeType::EXIT);
    assert_eq!(target.children[2].children.len(), 1);
}

#[test]
fn arguments_take_the_help_block_that_follows_at_once() {
    let root = parse_tokens(vec![
        (TokenType::SOF, None),
        (TokenType::NOMEN, some("t")),
        (TokenType::TGT_BEG, None),
        (TokenType::ARG_REQ, some("src")),
        (TokenType::HELP, some("where from")),
        (TokenType::ARG_OPT, some("dst")),
        (TokenType::EOL, None),
        (TokenType::HELP, some("of the target")),
        (TokenType::SCR_PY, some("print(1)")),
        (TokenType::TGT_END, None),
        (TokenType::EOF, None),
    ])
    .unwrap();
    let target = &root.children[0];
    check_help(Some(target), "of the target");
    check_node(target.children.first(), NodeType::ARG_REQ, "src");
    check_help(target.children.first(), "where from");
    check_node(target.children.get(1), NodeType::ARG_OPT, "dst");
    assert!(target.children[1].help.is_none());
    check_node(target.children.get(2), NodeType::SCR_PY, "print(1)");
}

#[test]
fn target_left_open_ends_with_the_text() {
    let root = parse_text("t {\nx = 1\n").unwrap();
    check_node(root.children.first(), NodeType::TARGET, "t");
    assert_eq!(root.children[0].children.len(), 1);
}

#[test]
fn failure_behind_an_identifier_comes_with_its_place_whatever_was_read() {
    assert_eq!(
        parse_tokens(vec![
            (TokenType::SOF, None),
            (TokenType::COMMENT, some("c")),
            (TokenType::EOL, None),
            (TokenType::NOMEN, some("x")),
            (TokenType::EOF, None),
        ]),
        Err(at_start(ParseErrorKind::UnexpectedEof))
    );
    assert_eq!(
        parse_text("t {\nx = 1\ny +\n}\n"),
        Err(ParseError::Syntax(
            ParseErrorKind::UnexpectedToken,
            Location { filename: "text.it".to_string(), line: 3, column: 3 }
        ))
    );
}
