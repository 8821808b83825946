use procargs::pretty::{format_arglist, prettify};
use procargs::separator::SEPARATOR;

#[test]
fn test_format_arglist_1() {
    let args = ["gcc", "-c", "hello.c"];

    let expected_pretty = "gcc \\\n    -c \\\n    hello.c";
    let prettified = format_arglist(&args);

    assert_eq!(expected_pretty, &prettified);
}

#[test]
fn test_prettify_1() {
    let text = "gcc -Wall -O2 -c hello.c -o hello.o\n";
    let expected_pretty =
        "gcc \\\n    -Wall \\\n    -O2 \\\n    -c \\\n    hello.c \\\n    -o \\\n    hello.o\n";

    let prettified = prettify(text);

    assert_eq!(expected_pretty, &prettified);
}

#[test]
fn separator_is_space_backslash_newline_four_spaces() {
    assert_eq!(SEPARATOR.chars().collect::<Vec<char>>(), vec![' ', '\\', '\n', ' ', ' ', ' ', ' ']);
}

#[test]
fn format_arglist_of_nothing_is_empty() {
    let args: [&str; 0] = [];
    assert_eq!(format_arglist(&args), "");
}

#[test]
fn format_arglist_of_one_argument_is_the_argument() {
    assert_eq!(format_arglist(&["ls"]), "ls");
}

#[test]
fn format_arglist_keeps_empty_arguments() {
    assert_eq!(format_arglist(&["a", "", "b"]), "a \\\n     \\\n    b");
}

#[test]
fn format_arglist_does_not_split_arguments_that_hold_spaces() {
    assert_eq!(format_arglist(&["echo", "hello world"]), "echo \\\n    hello world");
}

#[test]
fn prettify_of_empty_text_is_empty() {
    assert_eq!(prettify(""), "");
}

#[test]
fn prettify_of_a_single_token_is_the_token() {
    assert_eq!(prettify("ls"), "ls");
}

#[test]
fn prettify_copies_every_other_character() {
    assert_eq!(prettify("caf\u{e9}=\u{1f600}\t'x'"), "caf\u{e9}=\u{1f600}\t'x'");
}

#[test]
fn prettify_equals_tokens_joined_by_separator() {
    let tokens = ["cc", "-o", "out", "main.c"];
    let text = tokens.join(" ");
    assert_eq!(prettify(&text), tokens.join(" \\\n    "));
    assert_eq!(prettify(&text), format_arglist(&tokens));
}

#[test]
fn prettify_treats_each_space_as_a_boundary() {
    assert_eq!(prettify("a  b"), "a \\\n     \\\n    b");
    assert_eq!(prettify(" a"), " \\\n    a");
    assert_eq!(prettify("a "), "a \\\n    ");
    assert_eq!(prettify(" "), " \\\n    ");
}

#[test]
fn prettify_ignores_quotes() {
    assert_eq!(prettify("echo 'a b'"), "echo \\\n    'a \\\n    b'");
}

#[test]
fn prettify_is_idempotent_on_text_without_spaces() {
    let once = prettify("a\\\nb");
    assert_eq!(once, "a\\\nb");
    assert_eq!(prettify(&once), once);
}

#[test]
fn prettify_is_not_idempotent_on_text_with_a_space() {
    let once = prettify("a b");
    let twice = prettify(&once);
    assert_eq!(once, "a \\\n    b");
    assert_ne!(twice, once);
    assert_eq!(
        twice,
        "a \\\n    \\\n \\\n     \\\n     \\\n     \\\n    b"
    );
}
