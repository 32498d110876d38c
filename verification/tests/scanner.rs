use gullwing::combinators::{
    between_gullwings, parse_comment, parse_include, parse_include_args, parse_include_path,
    skip_to_comment_or_include,
};
use gullwing::tokens::{Include, Statement};
use gullwing::{parse_input, parse_procedure};

#[test]
fn test_parse_between_gullwings() {
    assert_eq!(between_gullwings("{ include.i }"), Some((" include.i ", "")));
    assert_eq!(between_gullwings("{include.i}"), Some(("include.i", "")));
    assert_eq!(
        between_gullwings("{ include.i &val1 &val2 &val3 }"),
        Some((" include.i &val1 &val2 &val3 ", ""))
    );
    assert_eq!(
        between_gullwings("{include.i &val1 &val2 &val3}"),
        Some(("include.i &val1 &val2 &val3", ""))
    );
}

#[test]
fn test_parse_include_path() {
    assert_eq!(parse_include_path("include.i a"), Some(("include.i", "a")));
    assert_eq!(parse_include_path(" include.i a"), Some(("include.i", "a")));
    assert_eq!(
        parse_include_path("include.i &val1 &val2 &val3"),
        Some(("include.i", "&val1 &val2 &val3"))
    );
    assert_eq!(
        parse_include_path(" include.i &val1 &val2 &val3 "),
        Some(("include.i", "&val1 &val2 &val3 "))
    );
}

#[test]
fn test_parse_include_args() {
    assert_eq!(
        parse_include_args("&val1 &val2 &val3").0,
        vec!["&val1", "&val2", "&val3"]
    );
    assert_eq!(
        parse_include_args("val1 val2 val3 ").0,
        vec!["val1", "val2", "val3", ""]
    );
    assert_eq!(parse_include_args("1 2 3").0, vec!["1", "2", "3"]);
}

#[test]
fn test_parse_include() {
    assert_eq!(
        parse_include("{ include.i }"),
        Some((
            Statement::Include(Include {
                path: "include.i",
                content: None,
                arguments: vec![""],
            }),
            ""
        ))
    );
    assert_eq!(
        parse_include("{ include.i &val1 &val2 &val3 }"),
        Some((
            Statement::Include(Include {
                path: "include.i",
                content: None,
                arguments: vec!["&val1", "&val2", "&val3", ""],
            }),
            ""
        ))
    );
}

#[test]
fn well_formed_directive_yields_path_and_args() {
    // A trailing space before the closing delimiter yields one trailing
    // empty argument; without it the argument list ends at the last token.
    assert_eq!(
        parse_include("{ path arg1 arg2 }"),
        Some((
            Statement::Include(Include {
                path: "path",
                content: None,
                arguments: vec!["arg1", "arg2", ""],
            }),
            ""
        ))
    );
    assert_eq!(
        parse_include("{path arg1 arg2}"),
        Some((
            Statement::Include(Include {
                path: "path",
                content: None,
                arguments: vec!["arg1", "arg2"],
            }),
            ""
        ))
    );
}

#[test]
fn single_digit_body_is_a_comment() {
    assert_eq!(parse_include("{1}"), Some((Statement::Comment("1"), "")));
    assert_eq!(parse_input("{1}"), Some((Statement::Comment("1"), "")));
    let scanned = parse_procedure("{1}");
    assert_eq!(scanned, vec![Statement::Comment("1")]);
}

#[test]
fn two_digit_body_is_a_directive() {
    assert_eq!(
        parse_include("{12}"),
        Some((
            Statement::Include(Include { path: "12", content: None, arguments: vec![""] }),
            ""
        ))
    );
}

#[test]
fn ampersand_arguments_have_no_trailing_empty_entry() {
    assert_eq!(
        parse_include("{include.i &val1 &val2 &val3}"),
        Some((
            Statement::Include(Include {
                path: "include.i",
                content: None,
                arguments: vec!["&val1", "&val2", "&val3"],
            }),
            ""
        ))
    );
}

#[test]
fn nested_comment_body_stops_at_first_closer() {
    // One nested opener: the scan consumes through the second closer, but the
    // returned body is the text up to the first closer only.
    assert_eq!(
        parse_comment("/* a /* b */ c */"),
        Some((Statement::Comment(" a /* b "), ""))
    );
    assert_eq!(
        parse_comment("/* a /* b */ c */ tail"),
        Some((Statement::Comment(" a /* b "), " tail"))
    );
}

#[test]
fn plain_comment() {
    assert_eq!(parse_comment("/* c1 */rest"), Some((Statement::Comment(" c1 "), "rest")));
    assert_eq!(parse_comment("/**/x"), Some((Statement::Comment(""), "x")));
}

#[test]
fn unterminated_spans_fail() {
    assert_eq!(parse_comment("/* abc"), None);
    assert_eq!(parse_comment("/* a /* b */"), None);
    assert_eq!(parse_include("{abc"), None);
    assert_eq!(parse_comment("no opener"), None);
    assert_eq!(parse_include("no opener"), None);
}

#[test]
fn empty_or_whitespace_directive_body_fails() {
    assert_eq!(parse_include("{}"), None);
    assert_eq!(parse_include("{   }"), None);
}

#[test]
fn skip_scanner_finds_the_next_statement() {
    assert_eq!(
        skip_to_comment_or_include("xx{1}tail"),
        Some((Statement::Comment("1"), "tail"))
    );
    assert_eq!(
        skip_to_comment_or_include("text /* c */ after"),
        Some((Statement::Comment(" c "), " after"))
    );
    assert_eq!(skip_to_comment_or_include("nothing here"), None);
    assert_eq!(skip_to_comment_or_include(""), None);
}

#[test]
fn skippable_only_input_yields_no_statements() {
    assert_eq!(parse_procedure("just some plain text, no markers"), vec![]);
    assert_eq!(parse_procedure(""), vec![]);
    assert_eq!(parse_procedure("   \t\r\n  "), vec![]);
}

#[test]
fn driver_collects_statements_in_order() {
    let scanned = parse_procedure("text /* c1 */ more {inc.i a} end");
    assert_eq!(
        scanned,
        vec![
            Statement::Comment(" c1 "),
            Statement::Include(Include {
                path: "inc.i",
                content: None,
                arguments: vec!["a"],
            }),
        ]
    );
}

#[test]
fn driver_never_produces_reserved_variants() {
    let scanned = parse_procedure("a {x.i p q} b /* c */ {2} d");
    assert!(scanned.len() > 0);
    for st in &scanned {
        assert!(matches!(st, Statement::Comment(_) | Statement::Include(_)));
    }
}

#[test]
fn rescanning_the_remainder_matches_the_full_scan() {
    // Recognizing one statement and scanning the remainder as a fresh input
    // gives the same stream as scanning the whole input.
    let src = " {first.i a b} middle /* c */ tail {2}";
    let full = parse_procedure(src);
    let (first, rest) = parse_input(src).expect("a statement");
    let rest_stmts = parse_procedure(rest);
    assert_eq!(full.len(), 1 + rest_stmts.len());
    assert_eq!(full[0], first);
    assert_eq!(&full[1..], &rest_stmts[..]);
}

#[test]
fn argument_splitting_boundary() {
    assert_eq!(
        parse_include_args("val1 val2 val3 ").0,
        vec!["val1", "val2", "val3", ""]
    );
    assert_eq!(parse_include_args("val1 val2 val3").0, vec!["val1", "val2", "val3"]);
}

#[test]
fn dispatcher_fails_on_slash_without_comment() {
    // The dispatcher routes on the first character alone: a `/` that opens no
    // comment fails outright instead of falling back to the skip-scanner.
    assert_eq!(parse_input("/x {inc.i}"), None);
    assert_eq!(parse_procedure("/x {inc.i}"), vec![]);
}

#[test]
fn dispatcher_trims_whitespace() {
    assert_eq!(parse_input("  {1}  after"), Some((Statement::Comment("1"), "after")));
    assert_eq!(parse_input("   "), None);
    assert_eq!(parse_input(""), None);
}

#[test]
fn tab_separates_arguments_too() {
    assert_eq!(
        parse_include("{inc.i\ta b}"),
        Some((
            Statement::Include(Include {
                path: "inc.i",
                content: None,
                arguments: vec!["a", "b"],
            }),
            ""
        ))
    );
}

#[test]
fn non_ascii_whitespace_ends_a_token_but_separates_nothing() {
    // U+00A0 is whitespace, so it ends the token, but it is not an ASCII
    // separator, so splitting stops there and leaves it unconsumed.
    assert_eq!(parse_include_args("a\u{A0}b"), (vec!["a"], "\u{A0}b"));
}

#[test]
fn nested_comment_through_the_driver() {
    let scanned = parse_procedure("/* a /* b */ c */");
    assert_eq!(scanned, vec![Statement::Comment(" a /* b ")]);
}

#[test]
fn default_include_is_empty() {
    let d = Include::default();
    assert_eq!(
        d,
        Include { path: "", content: None, arguments: vec![] }
    );
}
