use doit::template::{inject, stringify_number, InjectError};

fn fill(template: &str, args: &[&str], vars: &[(&str, &str)]) -> Result<String, InjectError> {
    let args: Vec<String> = args.iter().map(|a| a.to_string()).collect();
    let vars: Vec<(String, String)> =
        vars.iter().map(|(k, v)| (k.to_string(), v.to_string())).collect();
    inject(template, &args, &vars)
}

fn abc(template: &str) -> String {
    fill(template, &["a", "b", "c"], &[("x", "42")]).unwrap()
}

#[test]
fn template_resolution_example() {
    assert_eq!(abc("$x-$(x)-$0-$(1:2)-$@-$#"), "42-42-a-b c-a b c-3");
}

#[test]
fn colon_ends_a_placeholder_without_brackets() {
    assert_eq!(abc("$x-$(x)-$0-$1:2-$@-$#"), "42-42-a-b:2-a b c-3");
}

#[test]
fn text_without_placeholders_stays() {
    assert_eq!(abc("echo hello"), "echo hello");
    assert_eq!(abc(""), "");
}

#[test]
fn two_dollars_stand_for_one() {
    assert_eq!(abc("cost: $$5 $$$x"), "cost: $5 $42");
}

#[test]
fn single_dollar_at_the_end_fails() {
    assert_eq!(fill("echo $", &[], &[]), Err(InjectError::TrailingDollar));
    assert_eq!(fill("$", &[], &[]), Err(InjectError::TrailingDollar));
    assert_eq!(fill("$$$", &[], &[]), Err(InjectError::TrailingDollar));
}

#[test]
fn positional_arguments() {
    assert_eq!(abc("$0 $1 $2"), "a b c");
    assert_eq!(abc("[$3][$(17)]"), "[][]");
    assert_eq!(abc("$(0001)"), "b");
    assert_eq!(abc("[$99999999999999999999999999999999999999999999]"), "[]");
}

#[test]
fn all_arguments_and_their_number() {
    assert_eq!(abc("$@|$#"), "a b c|3");
    assert_eq!(fill("[$@][$#]", &[], &[]).unwrap(), "[][0]");
    assert_eq!(fill("$@", &["one"], &[]).unwrap(), "one");
    let many: Vec<&str> = vec!["z"; 12];
    assert_eq!(fill("$#", &many, &[]).unwrap(), "12");
}

#[test]
fn ranges_of_arguments() {
    assert_eq!(abc("$(0:1)"), "a b");
    assert_eq!(abc("$(0:2)"), "a b c");
    assert_eq!(abc("$(1:)"), "b c");
    assert_eq!(abc("$(0:)"), "a b c");
    assert_eq!(abc("$(1:7)"), "b c");
    assert_eq!(abc("[$(3:9)]"), "[]");
    assert_eq!(abc("[$(5:99999999999999999999999999999)]"), "[]");
}

#[test]
fn range_out_of_order_is_a_variable_name() {
    let vars = [("2:1", "v1"), ("2:", "v2"), ("1:1", "v3"), (":2", "v4"), ("a:2", "v5"), ("9:8", "v6")];
    let args = ["a", "b", "c"];
    assert_eq!(fill("$(2:1)", &args, &vars).unwrap(), "v1");
    assert_eq!(fill("$(2:)", &args, &vars).unwrap(), "v2");
    assert_eq!(fill("$(1:1)", &args, &vars).unwrap(), "v3");
    assert_eq!(fill("$(:2)", &args, &vars).unwrap(), "v4");
    assert_eq!(fill("$(a:2)", &args, &vars).unwrap(), "v5");
    assert_eq!(fill("$(9:8)", &args, &vars).unwrap(), "v6");
    assert_eq!(fill("[$(2:1)]", &args, &[]).unwrap(), "[]");
    assert_eq!(
        fill("$(100000000000000000000000000000:99999999999999999999999999999)", &args, &[
            ("100000000000000000000000000000:99999999999999999999999999999", "big")
        ])
        .unwrap(),
        "big"
    );
}

#[test]
fn variables_by_name() {
    let vars = [("name", "n"), ("other_1", "o"), ("name", "later"), ("a-b", "dash")];
    assert_eq!(fill("$name/$other_1/$(a-b)/$a-b", &[], &vars).unwrap(), "n/o/dash/-b");
    assert_eq!(fill("[$missing][$(also missing)]", &[], &vars).unwrap(), "[][]");
}

#[test]
fn placeholder_left_open_at_the_end() {
    assert_eq!(abc("say $x"), "say 42");
    assert_eq!(abc("say $(x"), "say 42");
    assert_eq!(abc("say $(1:2"), "say b c");
    assert_eq!(abc("say $("), "say ");
}

#[test]
fn character_that_ends_a_placeholder_stays() {
    assert_eq!(abc("$x$x"), "42$x");
    assert_eq!(abc("$x.$0,"), "42.a,");
    assert_eq!(abc("$(x)$(0)"), "42a");
}

#[test]
fn empty_placeholder_is_the_first_argument() {
    assert_eq!(abc("$ x"), "a x");
    assert_eq!(abc("[$()]"), "[a]");
    assert_eq!(fill("$ x", &[], &[]).unwrap(), " x");
}

#[test]
fn characters_outside_ascii_end_a_placeholder() {
    assert_eq!(fill("$né", &[], &[("n", "1"), ("né", "2")]).unwrap(), "1é");
    assert_eq!(fill("$(né)ü", &[], &[("n", "1"), ("né", "2")]).unwrap(), "2ü");
}

#[test]
fn numbers_lose_zeros_and_point_at_their_end() {
    assert_eq!(stringify_number("42.000000"), "42");
    assert_eq!(stringify_number("42.500000"), "42.5");
    assert_eq!(stringify_number("42.0"), "42");
    assert_eq!(stringify_number("42.5"), "42.5");
    assert_eq!(stringify_number("0.000000"), "0");
    assert_eq!(stringify_number("100.000000"), "100");
    assert_eq!(stringify_number("-1.250000"), "-1.25");
    assert_eq!(stringify_number("100"), "100");
    assert_eq!(stringify_number(".0"), "");
    assert_eq!(stringify_number(""), "");
}

#[test]
fn first_argument_is_number_zero() {
    assert_eq!(fill("$0|$(0)|$(0:)", &["first", "second"], &[]).unwrap(), "first|first|first second");
    assert_eq!(fill("[$0]", &[], &[]).unwrap(), "[]");
}
