use doit::error::{GenerateError, GenerateErrorKind, ParseError, ParseErrorKind};
use doit::generator::sources::{DOIT_HEADER, SOURCE_HEAD, SOURCE_TAIL};
use doit::generator::usage::{help_table, target_matches, usage_order};
use doit::generator::{generate_scope, generate_source, Generator, Target, TargetArg};
use doit::lexer::token::{Token, TokenType};
use doit::lexer::Lexer;
use doit::parser::nodes::{Node, NodeType};
use doit::parser::Parser;

fn some(string: &str) -> Option<String> {
    Some(string.to_string())
}

fn tree(source: &str) -> Node {
    Parser::new(Lexer::new("gen.it", source)).parse().unwrap()
}

fn scope(source: &str, vars: &[&str]) -> (String, Vec<Target>) {
    let root = tree(source);
    let mut targets = vec![];
    let text = generate_scope("\t", &root.children, vars, &mut targets).unwrap();
    (text, targets)
}

fn target(name: &str) -> Target {
    Target {
        target_name: name.to_string(),
        target_help: None,
        target_args: vec![],
    }
}

#[test]
fn first_assignment_declares_and_later_ones_reassign() {
    let (text, _) = scope("x = 1\nx = 2\ny = \"a\"\nx = 3\n", &[]);
    assert_eq!(
        text,
        "\tdouble x = 1;\n\tx = 2;\n\t::std::string y = \"a\";\n\tx = 3;\n"
    );
}

#[test]
fn variable_visible_from_outside_is_reassigned() {
    let (text, _) = scope("x = 1\n", &["x"]);
    assert_eq!(text, "\tx = 1;\n");
}

#[test]
fn nested_target_reassigns_what_an_ancestor_declared() {
    let (text, targets) = scope("x = 1\nt {\nx = 2\ny = 3\nu {\ny = 4\nx = 5\n}\n}\ny = 6\n", &[]);
    assert_eq!(
        text,
        concat_lines(&[
            "\tdouble x = 1;",
            "\tvoid t(int argc, const char *argv[]) {",
            "\t\tx = 2;",
            "\t\tdouble y = 3;",
            "\t\tvoid u(int argc, const char *argv[]) {",
            "\t\t\ty = 4;",
            "\t\t\tx = 5;",
            "\t\t}",
            "\t}",
            "\tdouble y = 6;",
        ])
    );
    assert_eq!(targets, vec![target("t"), target("u")]);
}

fn concat_lines(lines: &[&str]) -> String {
    let mut out = String::new();
    for line in lines {
        out.push_str(line);
        out.push('\n');
    }
    out
}

#[test]
fn sibling_targets_do_not_see_each_other() {
    let (text, _) = scope("a {\nv = 1\n}\nb {\nv = 2\n}\n", &[]);
    assert_eq!(
        text,
        concat_lines(&[
            "\tvoid a(int argc, const char *argv[]) {",
            "\t\tdouble v = 1;",
            "\t}",
            "\tvoid b(int argc, const char *argv[]) {",
            "\t\tdouble v = 2;",
            "\t}",
        ])
    );
}

#[test]
fn script_gets_the_variables_visible_in_front_of_it() {
    let (text, _) = scope("a = 1\n$ echo $a\nb = 2\nt: echo $b\n", &[]);
    assert_eq!(
        text,
        concat_lines(&[
            "\tdouble a = 1;",
            "\t__SYSTEM(R\"__DOIT__(echo $a)__DOIT__\", ::doit::args_map({__VAR(a)}));",
            "\tdouble b = 2;",
            "\tvoid t(int argc, const char *argv[]) {",
            "\t\t__SYSTEM(R\"__DOIT__(echo $b)__DOIT__\", ::doit::args_map({__VAR(a),__VAR(b)}));",
            "\t}",
        ])
    );
}

#[test]
fn statements_of_every_kind() {
    let (text, _) = scope("# note\nt {\n$ false\nyield\nexit 2 + 1\n}\n", &[]);
    assert_eq!(
        text,
        concat_lines(&[
            "\t// note",
            "\tvoid t(int argc, const char *argv[]) {",
            "\t\t__SYSTEM(R\"__DOIT__(false)__DOIT__\", ::doit::args_map({}));",
            "\t\t::doit::yield();",
            "\t\texit(2 + 1);",
            "\t}",
        ])
    );
}

#[test]
fn target_records_help_and_arguments() {
    let mut node = Node::single(NodeType::TARGET, Token::val(TokenType::NOMEN, some("build")));
    node.help = Some(Token::val(TokenType::HELP, some("Builds it")));
    let mut required = Node::single(NodeType::ARG_REQ, Token::val(TokenType::ARG_REQ, some("src")));
    required.help = Some(Token::val(TokenType::HELP, some("where from")));
    node.children = vec![
        required,
        Node::single(NodeType::SCR_SH, Token::val(TokenType::SCR_SH, some("make"))),
        Node::single(NodeType::ARG_OPT, Token::val(TokenType::ARG_OPT, some("dst"))),
    ];
    let mut targets = vec![];
    let text = generate_scope("", &vec![node], &[], &mut targets).unwrap();
    assert_eq!(
        text,
        concat_lines(&[
            "void build(int argc, const char *argv[]) {",
            "\t__SYSTEM(R\"__DOIT__(make)__DOIT__\", ::doit::args_map({}));",
            "}",
        ])
    );
    assert_eq!(
        targets,
        vec![Target {
            target_name: "build".to_string(),
            target_help: Some("Builds it".to_string()),
            target_args: vec![
                TargetArg {
                    required: true,
                    arg_name: "src".to_string(),
                    arg_help: Some("where from".to_string())
                },
                TargetArg {
                    required: false,
                    arg_name: "dst".to_string(),
                    arg_help: None
                },
            ],
        }]
    );
    assert_eq!(
        help_table(&targets),
        "\n\t\t__HELP(build, R\"__DOIT__(Builds it)__DOIT__\", __ARG(true, R\"__DOIT__(src)__DOIT__\", R\"__DOIT__(where from)__DOIT__\"), __ARG(false, R\"__DOIT__(dst)__DOIT__\", R\"__DOIT__(<No help defined>)__DOIT__\")),"
    );
}

#[test]
fn argument_without_name_fails() {
    let mut node = Node::single(NodeType::TARGET, Token::val(TokenType::NOMEN, some("t")));
    node.children = vec![Node::single(NodeType::ARG_REQ, Token::sym(TokenType::ARG_REQ))];
    let mut targets = vec![];
    assert_eq!(
        generate_scope("", &vec![node], &[], &mut targets),
        Err(GenerateError::Tree(GenerateErrorKind::MissingArgumentName))
    );
}

#[test]
fn root_inside_a_scope_fails() {
    let nodes = vec![Node::single(NodeType::ROOT, Token::sym(TokenType::SOF))];
    let mut targets = vec![];
    assert_eq!(
        generate_scope("", &nodes, &[], &mut targets),
        Err(GenerateError::Tree(GenerateErrorKind::UnexpectedNode))
    );
}

#[test]
fn usage_table_is_sorted_by_name_and_dispatch_keeps_declaration_order() {
    let (_, targets) = scope("build: make\nabc: ls\n", &[]);
    assert_eq!(targets, vec![target("build"), target("abc")]);
    assert_eq!(usage_order(&targets), vec![1, 0]);
    assert_eq!(
        help_table(&targets),
        "\n\t\t__HELP(abc, R\"__DOIT__(<No help defined>)__DOIT__\"),\n\t\t__HELP(build, R\"__DOIT__(<No help defined>)__DOIT__\"),"
    );
    assert_eq!(target_matches(&targets), "\n\t__MATCH(build);\n\t__MATCH(abc);");
}

#[test]
fn usage_order_is_that_of_a_dictionary_and_keeps_equal_names_in_place() {
    let targets: Vec<Target> =
        ["b", "ab", "a", "b", "", "B", "abc", "a"].iter().map(|n| target(n)).collect();
    assert_eq!(usage_order(&targets), vec![4, 5, 2, 7, 1, 6, 0, 3]);
    assert_eq!(usage_order(&vec![]), Vec::<usize>::new());
}

#[test]
fn generated_source_puts_the_parts_in_their_places() {
    let root = tree("@ Does things\nbuild: make\nabc {\n@ Lists\n$ ls\n}\n");
    let source = generate_source(&root).unwrap();
    assert!(source.starts_with(DOIT_HEADER));
    assert!(source[DOIT_HEADER.len()..].starts_with(SOURCE_HEAD));
    assert!(source.ends_with(SOURCE_TAIL));
    assert!(source.contains("namespace script {\n\tvoid build(int argc, const char *argv[]) {\n"));
    assert!(source.contains("::doit::trim(R\"__DOIT__(Does things)__DOIT__\");"));
    assert!(source.contains(
        "targets = {\n\t\t__HELP(abc, R\"__DOIT__(Lists)__DOIT__\"),\n\t\t__HELP(build, R\"__DOIT__(<No help defined>)__DOIT__\"),\n\t};"
    ));
    assert!(source.contains("print_help();\n\t__MATCH(build);\n\t__MATCH(abc);\n\telse {"));
    assert!(!source.contains("{{{"));
}

#[test]
fn generating_twice_gives_the_same_text() {
    let root = tree("x = 1\nt {\n$ echo $x\n}\n");
    assert_eq!(generate_source(&root), generate_source(&root));
    let again = tree("x = 1\nt {\n$ echo $x\n}\n");
    assert_eq!(generate_source(&root), generate_source(&again));
}

#[test]
fn generator_parses_and_generates() {
    let source = "x = 1\nt: echo $x\n";
    let mut generator = Generator::new(Parser::new(Lexer::new("gen.it", source)));
    assert_eq!(generator.generate(), generate_source(&tree(source)));
}

#[test]
fn generator_hands_on_the_failure_of_the_parser() {
    let mut generator = Generator::new(Parser::new(Lexer::new("gen.it", "@ a\n@ b\n")));
    match generator.generate() {
        Err(GenerateError::Parse(ParseError::Syntax(kind, location))) => {
            assert_eq!(kind, ParseErrorKind::DuplicateHelp);
            assert_eq!(location.filename, "gen.it");
        }
        other => panic!("{:?}", other),
    }
}

#[test]
fn help_that_is_the_text_of_the_note_is_told_from_no_help() {
    let mut with_note = Node::single(NodeType::TARGET, Token::val(TokenType::NOMEN, some("a")));
    with_note.help = Some(Token::val(TokenType::HELP, some("<No help defined>")));
    let without = Node::single(NodeType::TARGET, Token::val(TokenType::NOMEN, some("b")));
    let mut empty = Node::single(NodeType::TARGET, Token::val(TokenType::NOMEN, some("c")));
    empty.help = Some(Token::sym(TokenType::HELP));
    let mut targets = vec![];
    generate_scope("", &vec![with_note, without, empty], &[], &mut targets).unwrap();
    assert_eq!(targets[0].target_help, some("<No help defined>"));
    assert_eq!(targets[1].target_help, None);
    assert_eq!(targets[2].target_help, None);
    assert_eq!(
        help_table(&targets),
        "\n\t\t__HELP(a, R\"__DOIT__(<No help defined>)__DOIT__\"),\n\t\t__HELP(b, R\"__DOIT__(<No help defined>)__DOIT__\"),\n\t\t__HELP(c, R\"__DOIT__(<No help defined>)__DOIT__\"),"
    );
}

#[test]
fn engine_of_the_output_counts_arguments_behind_the_name_of_the_target() {
    assert!(DOIT_HEADER.contains("return argv[idx + 1];"));
    assert!(DOIT_HEADER.contains("oss << argv[c + 1];"));
    assert!(SOURCE_HEAD.contains("::doit::inject(statement, argc, argv, vars)"));
}

#[test]
fn targets_declared_in_front_of_a_failure_stay_declared() {
    let first = Node::single(NodeType::TARGET, Token::val(TokenType::NOMEN, some("first")));
    let mut second = Node::single(NodeType::TARGET, Token::val(TokenType::NOMEN, some("second")));
    second.children = vec![
        Node::single(NodeType::TARGET, Token::val(TokenType::NOMEN, some("inner"))),
        Node::single(NodeType::ASSIGN, Token::val(TokenType::NOMEN, some("x"))),
        Node::single(NodeType::TARGET, Token::val(TokenType::NOMEN, some("late"))),
    ];
    let mut third = Node::single(NodeType::TARGET, Token::val(TokenType::NOMEN, some("third")));
    third.children = vec![Node::single(NodeType::ARG_REQ, Token::sym(TokenType::ARG_REQ))];
    let mut targets = vec![target("before")];
    assert_eq!(
        generate_scope("", &vec![first, second, third], &[], &mut targets),
        Err(GenerateError::Tree(GenerateErrorKind::EmptyAssignment))
    );
    assert_eq!(
        targets,
        vec![target("before"), target("first"), target("second"), target("inner")]
    );
}
