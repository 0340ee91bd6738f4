use doit::error::{GenerateError, GenerateErrorKind};
use doit::generator::generators::{
    generate_comment, generate_exit, generate_script, generate_variable, node_value,
};
use doit::lexer::token::{Token, TokenType};
use doit::parser::nodes::{Node, NodeType};

fn some(string: &str) -> Option<String> {
    Some(string.to_string())
}

#[test]
fn test_generate_variable() -> Result<(), GenerateError> {
    let mut node = Node::single(NodeType::ASSIGN, Token::val(TokenType::ASSIGN, some("my_var")));
    node.children = vec![Node::single(
        NodeType::SYMBOL,
        Token::val(TokenType::LIT_NUM, some("42")),
    )];
    let result = generate_variable(&node, false)?;
    assert_eq!(result, "double my_var = 42;\n");
    let mut result = generate_variable(&node, true)?;
    assert_eq!(result, "my_var = 42;\n");
    node.children = vec![Node::single(
        NodeType::SYMBOL,
        Token::val(TokenType::LIT_STR, some("Hello, world!")),
    )];
    result = generate_variable(&node, false)?;
    assert_eq!(result, "::std::string my_var = \"Hello, world!\";\n");
    result = generate_variable(&node, true)?;
    assert_eq!(result, "my_var = \"Hello, world!\";\n");
    node.children = vec![
        Node::single(NodeType::SYMBOL, Token::val(TokenType::LIT_NUM, some("42"))),
        Node::single(NodeType::SYMBOL, Token::val(TokenType::SYMBOL, some("+"))),
        Node::single(NodeType::SYMBOL, Token::val(TokenType::SYMBOL, some("other_var"))),
    ];
    result = generate_variable(&node, false)?;
    assert_eq!(result, "double my_var = 42 + other_var;\n");
    result = generate_variable(&node, true)?;
    assert_eq!(result, "my_var = 42 + other_var;\n");
    node.children = vec![
        Node::single(NodeType::SYMBOL, Token::val(TokenType::LIT_STR, some("test"))),
        Node::single(NodeType::SYMBOL, Token::val(TokenType::SYMBOL, some("+"))),
        Node::single(NodeType::SYMBOL, Token::val(TokenType::SYMBOL, some("other_var"))),
    ];
    result = generate_variable(&node, false)?;
    assert_eq!(result, "::std::string my_var = \"test\" + other_var;\n");
    result = generate_variable(&node, true)?;
    assert_eq!(result, "my_var = \"test\" + other_var;\n");
    Ok(())
}

#[test]
fn test_generate_script() -> Result<(), GenerateError> {
    let node = Node::single(
        NodeType::SCR_SH,
        Token::val(TokenType::SCR_SH, some("echo hello world")),
    );
    let mut result = generate_script(&node, &["var1"])?;
    assert_eq!(
        result,
        "__SYSTEM(R\"__DOIT__(echo hello world)__DOIT__\", ::doit::args_map({__VAR(var1)}));\n"
    );
    result = generate_script(&node, &["var1", "var2", "var3"])?;
    assert_eq!(
        result,
        "__SYSTEM(R\"__DOIT__(echo hello world)__DOIT__\", ::doit::args_map({__VAR(var1),__VAR(var2),__VAR(var3)}));\n"
    );
    Ok(())
}

#[test]
fn test_generate_comment() -> Result<(), GenerateError> {
    let node = Node::single(NodeType::COMMENT, Token::val(TokenType::COMMENT, some(" comment")));
    let node = generate_comment(&node)?;
    assert_eq!(node, "// comment\n");
    Ok(())
}

#[test]
fn test_generate_exit() -> Result<(), GenerateError> {
    let mut node = Node::single(NodeType::EXIT, Token::sym(TokenType::EXIT));
    node.children = vec![Node::single(
        NodeType::SYMBOL,
        Token::val(TokenType::LIT_NUM, some("42")),
    )];
    let result = generate_exit(&node)?;
    assert_eq!(result, "exit(42);\n");
    node.children = vec![
        Node::single(NodeType::SYMBOL, Token::val(TokenType::SYMBOL, some("my_var"))),
        Node::single(NodeType::SYMBOL, Token::val(TokenType::SYMBOL, some("+"))),
        Node::single(NodeType::SYMBOL, Token::val(TokenType::LIT_NUM, some("21"))),
    ];
    let result = generate_exit(&node)?;
    assert_eq!(result, "exit(my_var + 21);\n");
    Ok(())
}

#[test]
fn node_value_is_the_text_or_empty() {
    assert_eq!(node_value(&Node::single(NodeType::EXIT, Token::sym(TokenType::EXIT))), "");
    assert_eq!(
        node_value(&Node::single(NodeType::SYMBOL, Token::val(TokenType::NOMEN, some("abc")))),
        "abc"
    );
}

#[test]
fn variable_without_name_fails() {
    let mut node = Node::single(NodeType::ASSIGN, Token::sym(TokenType::ASSIGN));
    node.children =
        vec![Node::single(NodeType::SYMBOL, Token::val(TokenType::LIT_NUM, some("1")))];
    assert_eq!(
        generate_variable(&node, false),
        Err(GenerateError::Tree(GenerateErrorKind::MissingName))
    );
}

#[test]
fn variable_without_expression_fails() {
    let node = Node::single(NodeType::ASSIGN, Token::val(TokenType::NOMEN, some("x")));
    assert_eq!(
        generate_variable(&node, false),
        Err(GenerateError::Tree(GenerateErrorKind::EmptyAssignment))
    );
    assert_eq!(
        generate_variable(&node, true),
        Err(GenerateError::Tree(GenerateErrorKind::EmptyAssignment))
    );
}

#[test]
fn variable_with_a_child_that_is_no_symbol_fails() {
    let mut node = Node::single(NodeType::ASSIGN, Token::val(TokenType::NOMEN, some("x")));
    node.children = vec![
        Node::single(NodeType::SYMBOL, Token::val(TokenType::LIT_NUM, some("1"))),
        Node::single(NodeType::COMMENT, Token::val(TokenType::COMMENT, some("c"))),
    ];
    assert_eq!(
        generate_variable(&node, true),
        Err(GenerateError::Tree(GenerateErrorKind::UnexpectedNode))
    );
}

#[test]
fn variable_skips_tokens_without_text() {
    let mut node = Node::single(NodeType::ASSIGN, Token::val(TokenType::NOMEN, some("x")));
    node.children = vec![
        Node::single(NodeType::SYMBOL, Token::val(TokenType::NOMEN, some("a"))),
        Node::single(NodeType::SYMBOL, Token::sym(TokenType::ASSIGN)),
        Node::single(NodeType::SYMBOL, Token::val(TokenType::NOMEN, some("b"))),
    ];
    assert_eq!(generate_variable(&node, false).unwrap(), "::std::string x = a b;\n");
}

#[test]
fn script_without_variables_and_python_script() {
    let node = Node::single(NodeType::SCR_PY, Token::val(TokenType::SCR_PY, some("print(1)")));
    assert_eq!(
        generate_script(&node, &[]).unwrap(),
        "__SYSTEM_PY(R\"__DOIT__(print(1))__DOIT__\", ::doit::args_map({}));\n"
    );
}

#[test]
fn exit_without_expression_and_comment_without_text() {
    assert_eq!(
        generate_exit(&Node::single(NodeType::EXIT, Token::sym(TokenType::EXIT))).unwrap(),
        "exit();\n"
    );
    assert_eq!(
        generate_comment(&Node::single(NodeType::COMMENT, Token::sym(TokenType::COMMENT))).unwrap(),
        "//\n"
    );
}
