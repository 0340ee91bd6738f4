use doit::error::LexErrorKind;
use doit::lexer::lexers::{
    conditional_reader, convert_help_block_escapes, read_comment, read_help_block,
    read_nomenclature, read_number, read_script, read_string, scan_whitespace, Consumer,
    VecCharConsumer,
};
use doit::lexer::source::SourceConsumer;

fn read_script_sh(consumer: &mut SourceConsumer) -> Result<Vec<char>, LexErrorKind> {
    read_script(consumer, '$')
}

fn read_script_py(consumer: &mut SourceConsumer) -> Result<Vec<char>, LexErrorKind> {
    read_script(consumer, '%')
}

fn consumer(source: &str) -> SourceConsumer {
    SourceConsumer::new(source.chars().collect())
}

fn res<T>(result: Result<T, LexErrorKind>) -> T {
    match result {
        Ok(v) => v,
        Err(err) => panic!("{:?}", err),
    }
}

fn run_test(
    target: fn(&mut SourceConsumer) -> Result<Vec<char>, LexErrorKind>,
    test_data: &str,
) -> String {
    let mut consumer = consumer(test_data);
    res(target(&mut consumer)).iter().collect()
}

fn run_failing(
    target: fn(&mut SourceConsumer) -> Result<Vec<char>, LexErrorKind>,
    test_data: &str,
) -> LexErrorKind {
    let mut consumer = consumer(test_data);
    target(&mut consumer).unwrap_err()
}

#[test]
fn test_scan_whitespace() {
    let mut consumer = consumer("   abc");
    res(scan_whitespace(&mut consumer));
    assert_eq!(consumer.position(), 3);
}

#[test]
fn test_read_number() {
    assert_eq!(run_test(read_number, "1234   "), "1234");
}

#[test]
fn test_read_nomenclature() {
    assert_eq!(run_test(read_nomenclature, "my_target {{"), "my_target");
}

#[test]
fn test_read_string() {
    assert_eq!(run_test(read_string, "\"Hello, world!\"\n"), "Hello, world!");
}

#[test]
fn test_convert_help_block_escapes() {
    fn test(input: &str, expect: &str) {
        let result = convert_help_block_escapes(Ok(input.chars().collect()));
        assert!(result.is_ok());
        assert_eq!(result.unwrap().iter().collect::<String>(), expect);
    }
    test("hello \\e world", "hello \x1b world");
    test("hello \\r world", "hello \x0d world");
    test("hello \\n world", "hello \x0a world");
    test("hello \\f world", "hello \\f world");
    test("hello \\e world \\e", "hello \x1b world \x1b");
    test("hello a world", "hello a world");
    test("Special escape character: \\e", "Special escape character: \x1b");
}

#[test]
fn test_read_comment() {
    assert_eq!(
        run_test(read_comment, "# everything to the end   \n"),
        " everything to the end   ",
    );
    assert_eq!(
        run_test(read_comment, "###\n Everything in here\n### nothing here   "),
        " Everything in here",
    );
}

#[test]
fn test_read_script_sh() {
    assert_eq!(run_test(read_script_sh, "$ echo 1234 | cat  \n"), "echo 1234 | cat  ");
    assert_eq!(
        run_test(
            read_script_sh,
            "$$$\necho 1234 | cat\necho hello world\n$$$\n nothing here   "
        ),
        "echo 1234 | cat\necho hello world",
    );
}

#[test]
fn read_script_with_another_delimiter() {
    assert_eq!(
        run_test(read_script_py, "% print(\"hello world\")  \n"),
        "print(\"hello world\")  "
    );
    assert_eq!(
        run_test(
            read_script_py,
            "%%%\noutput='1234'\nprint(output)\n%%%\n nothing here   "
        ),
        "output='1234'\nprint(output)",
    );
}

#[test]
fn test_read_help_block() {
    assert_eq!(
        run_test(read_help_block, "@ everything to the end   \n"),
        "everything to the end   "
    );
    assert_eq!(
        run_test(read_help_block, "@@@\n Everything in here\n@@@ nothing here   "),
        " Everything in here"
    );
    assert_eq!(
        run_test(read_help_block, "@ Special escape character: \\e\n"),
        "Special escape character: \x1b"
    );
}

#[test]
fn scan_whitespace_stops_at_line_break() {
    let mut c = consumer(" \t\n  x");
    res(scan_whitespace(&mut c));
    assert_eq!(c.position(), 2);
    assert_eq!(c.peek(), Some('\n'));
}

#[test]
fn consumer_passes_over_carriage_returns() {
    let mut c = consumer("a\r\r\nb\r");
    assert_eq!(c.consume(), Ok('a'));
    assert_eq!(c.peek(), Some('\r'));
    assert_eq!(c.consume(), Ok('\n'));
    assert_eq!((c.position(), c.line(), c.column()), (4, 2, 0));
    assert_eq!(c.look_ahead(2), Some('\r'));
    assert_eq!(c.look_ahead(3), None);
    assert_eq!(c.consume(), Ok('b'));
    assert_eq!(c.column(), 1);
    assert_eq!(c.consume(), Err(LexErrorKind::UnexpectedEof));
    assert_eq!((c.position(), c.line(), c.column()), (6, 2, 2));
    assert_eq!(c.consume_and_ignore(), Err(LexErrorKind::UnexpectedEof));
}

#[test]
fn vec_char_consumer_hands_out_every_character() {
    let data: Vec<char> = "a\rb".chars().collect();
    let mut c = VecCharConsumer::new(&data);
    assert_eq!(c.peek(), Some('a'));
    assert_eq!(c.look_ahead(3), Some('b'));
    assert_eq!(c.look_ahead(4), None);
    assert_eq!(c.consume(), Ok('a'));
    assert_eq!(c.consume(), Ok('\r'));
    assert_eq!(c.consume_and_ignore(), Ok(()));
    assert_eq!(c.consume(), Err(LexErrorKind::UnexpectedEof));
    assert_eq!(c.peek(), None);
}

#[test]
fn conditional_reader_reads_while_predicate_holds() {
    let mut c = consumer("aaab");
    let read = conditional_reader(&mut c, |x: &char| *x == 'a');
    assert_eq!(read, Ok(vec!['a', 'a', 'a']));
    assert_eq!(c.position(), 3);
}

#[test]
fn conditional_reader_asks_about_nul_at_the_end() {
    let mut c = consumer("aaa");
    assert_eq!(conditional_reader(&mut c, |x: &char| *x == 'a'), Ok(vec!['a', 'a', 'a']));
    let mut c = consumer("aaa");
    assert_eq!(
        conditional_reader(&mut c, |x: &char| *x != 'b'),
        Err(LexErrorKind::UnexpectedEof)
    );
}

#[test]
fn read_string_takes_escaped_quote_and_backslash() {
    assert_eq!(run_test(read_string, "\"a\\\"b\\\\c\" rest"), "a\"b\\c");
}

#[test]
fn read_string_rejects_other_escapes() {
    assert_eq!(run_failing(read_string, "\"a\\nb\""), LexErrorKind::MalformedEscape);
    assert_eq!(run_failing(read_string, "\"a\\"), LexErrorKind::MalformedEscape);
}

#[test]
fn read_string_without_closing_quote_fails() {
    assert_eq!(run_failing(read_string, "\"never closed\n"), LexErrorKind::Unterminated);
    assert_eq!(run_failing(read_string, "\""), LexErrorKind::Unterminated);
    assert_eq!(run_failing(read_string, ""), LexErrorKind::UnexpectedEof);
}

#[test]
fn block_without_closing_delimiter_fails() {
    assert_eq!(run_failing(read_comment, "###\nnever closed\n##"), LexErrorKind::Unterminated);
    assert_eq!(run_failing(read_script_sh, "$$$\n"), LexErrorKind::Unterminated);
    assert_eq!(run_failing(read_help_block, "@@@\nhelp\n@ @@"), LexErrorKind::Unterminated);
}

#[test]
fn block_opening_must_end_its_line() {
    assert_eq!(run_failing(read_comment, "### text\nbody\n###"), LexErrorKind::MissingNewline);
    assert_eq!(run_failing(read_comment, "###   "), LexErrorKind::UnexpectedEof);
    assert_eq!(run_test(read_comment, "###  \t\nbody\n###"), "body");
}

#[test]
fn block_loses_the_line_break_that_ends_it() {
    assert_eq!(run_test(read_comment, "###\na\n\nb\n###"), "a\n\nb");
    assert_eq!(run_test(read_comment, "###\na\n\n###"), "a\n");
    assert_eq!(run_test(read_comment, "###\n###"), "");
    assert_eq!(run_test(read_comment, "###\n\n###"), "");
}

#[test]
fn block_keeps_a_line_break_that_text_follows() {
    assert_eq!(run_test(read_comment, "###\na\nb###"), "a\nb");
    assert_eq!(run_test(read_comment, "###\na\n  b  ###"), "a\n  b  ");
    assert_eq!(run_test(read_script_sh, "$$$\nls\npwd $$$"), "ls\npwd ");
    assert_eq!(run_test(read_comment, "###\nab###"), "ab");
    assert_eq!(run_test(read_comment, "###\n \t###"), " \t");
}

#[test]
fn block_loses_the_line_break_in_front_of_the_indentation_of_its_closing_delimiter() {
    assert_eq!(run_test(read_comment, "###\n\ta\n\t###"), "\ta\t");
    assert_eq!(run_test(read_help_block, "@@@\n  a\n  b\n \t @@@"), "  a\n  b \t ");
    assert_eq!(run_test(read_comment, "###\na\n\n  ###"), "a\n  ");
}

#[test]
fn block_discards_the_rest_of_the_closing_line() {
    let mut c = consumer("###\nhello\n### trailing\nnext");
    assert_eq!(res(read_comment(&mut c)).iter().collect::<String>(), "hello");
    assert_eq!(c.peek(), Some('\n'));
    assert_eq!(c.line(), 3);
}

#[test]
fn two_delimiters_do_not_open_a_block() {
    assert_eq!(run_test(read_comment, "## text\n"), "# text");
    assert_eq!(run_test(read_script_sh, "$$ text\n"), "$ text");
}

#[test]
fn line_without_line_break_fails() {
    assert_eq!(run_failing(read_comment, "# no line break"), LexErrorKind::UnexpectedEof);
    assert_eq!(run_failing(read_script_sh, "$ ls"), LexErrorKind::UnexpectedEof);
}

#[test]
fn help_escape_at_the_end_fails() {
    assert_eq!(
        convert_help_block_escapes(Ok("text\\".chars().collect())),
        Err(LexErrorKind::UnexpectedEof)
    );
    assert_eq!(
        convert_help_block_escapes(Err(LexErrorKind::Unterminated)),
        Err(LexErrorKind::Unterminated)
    );
}
