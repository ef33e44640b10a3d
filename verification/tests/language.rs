use folder_organizer::condition::{
    error_message, evaluate, glob_match, glob_match_impl, parse, to_text, validate_condition,
    validate_text,
};
use folder_organizer::config::Condition;
use folder_organizer::lexer::{tokenize, Token};
use folder_organizer::parser::{parse_chars, ParseError};
use folder_organizer::text::{chars_of, is_whitespace, same_text, string_of};

fn glob(p: &str) -> Condition {
    Condition::Glob { pattern: p.to_string() }
}

fn regex(p: &str) -> Condition {
    Condition::Regex { pattern: p.to_string() }
}

fn and(cs: Vec<Condition>) -> Condition {
    Condition::And { conditions: cs }
}

fn or(cs: Vec<Condition>) -> Condition {
    Condition::Or { conditions: cs }
}

fn not(c: Condition) -> Condition {
    Condition::Not { condition: Box::new(c) }
}

fn chars(s: &str) -> Vec<char> {
    s.chars().collect()
}

#[test]
fn glob_properties_from_the_list() {
    assert!(glob_match("*.pdf", "report.PDF"));
    assert!(!glob_match("?est.txt", "arest.txt"));
    assert!(glob_match("*", "anything"));
}

#[test]
fn glob_star_matches_empty_run() {
    assert!(glob_match("a*b", "ab"));
    assert!(glob_match("*", ""));
    assert!(glob_match("**", ""));
    assert!(!glob_match("?", ""));
    assert!(glob_match("", ""));
    assert!(!glob_match("", "a"));
}

#[test]
fn glob_backtracks_over_the_last_star() {
    assert!(glob_match("*ab*cd", "xxabyyabzzcd"));
    assert!(glob_match("a*b*c", "aXbXbXc"));
    assert!(!glob_match("a*b*c", "aXbXbX"));
    assert!(glob_match("*a?c", "abcaxc"));
    assert!(!glob_match("*a?c", "abcaxcd"));
}

#[test]
fn glob_question_mark_is_one_character() {
    assert!(glob_match("?", "é"));
    assert!(glob_match("caf?", "café"));
    assert!(!glob_match("caf?", "caf"));
}

#[test]
fn glob_star_in_text_is_ordinary() {
    assert!(glob_match("*", "*a"));
    assert!(glob_match("a*", "a*b"));
}

#[test]
fn glob_impl_is_case_sensitive_on_its_own() {
    assert!(glob_match_impl(&chars("*.pdf"), &chars("a.pdf")));
    assert!(!glob_match_impl(&chars("*.pdf"), &chars("a.PDF")));
}

#[test]
fn glob_folds_case_beyond_ascii() {
    assert!(glob_match("ÄRGER*", "ärger.txt"));
}

#[test]
fn boolean_composition() {
    let c = parse("*.pdf AND *invoice*").unwrap();
    assert!(evaluate(&c, "invoice_2026.pdf"));
    assert!(!evaluate(&c, "report.pdf"));
    assert!(!evaluate(&c, "invoice.doc"));
}

#[test]
fn negation_and_grouping() {
    let c = parse("(*.pdf OR *.docx) AND *report*").unwrap();
    assert!(evaluate(&c, "annual_report.pdf"));
    assert!(evaluate(&c, "report_q1.docx"));
    assert!(!evaluate(&c, "invoice.pdf"));
}

#[test]
fn default_texts_parse_to_always() {
    for text in ["", "*", "   ", " * ", "\t\n"] {
        let c = parse(text).unwrap();
        assert!(matches!(c, Condition::Always));
        assert!(evaluate(&c, "anything"));
        assert!(evaluate(&c, ""));
    }
}

#[test]
fn keywords_need_a_word_boundary() {
    let c = parse("Android.apk").unwrap();
    assert!(matches!(&c, Condition::Glob { pattern } if pattern == "Android.apk"));
    let c = parse("NOTES* OR ORANGE*").unwrap();
    match c {
        Condition::Or { conditions } => {
            assert_eq!(conditions.len(), 2);
            assert!(matches!(&conditions[0], Condition::Glob { pattern } if pattern == "NOTES*"));
            assert!(matches!(&conditions[1], Condition::Glob { pattern } if pattern == "ORANGE*"));
        }
        other => panic!("expected Or, got {:?}", other),
    }
}

#[test]
fn keywords_ignore_case() {
    let c = parse("*.a and not *.b or *.c").unwrap();
    assert_eq!(to_text(&c), "*.a AND NOT *.b OR *.c");
}

#[test]
fn keyword_before_parenthesis() {
    let c = parse("NOT(*.tmp OR *.bak)").unwrap();
    assert_eq!(to_text(&c), "NOT (*.tmp OR *.bak)");
    assert!(evaluate(&c, "a.txt"));
    assert!(!evaluate(&c, "a.bak"));
}

#[test]
fn chains_are_flattened() {
    let c = parse("a AND b AND c").unwrap();
    match c {
        Condition::And { conditions } => assert_eq!(conditions.len(), 3),
        other => panic!("expected And, got {:?}", other),
    }
    let c = parse("a OR b OR c OR d").unwrap();
    match c {
        Condition::Or { conditions } => assert_eq!(conditions.len(), 4),
        other => panic!("expected Or, got {:?}", other),
    }
}

#[test]
fn and_binds_tighter_than_or() {
    let c = parse("a* AND *b OR c*").unwrap();
    assert!(evaluate(&c, "c"));
    assert!(evaluate(&c, "ab"));
    assert!(!evaluate(&c, "a"));
}

#[test]
fn tokens_of_a_text() {
    let tokens = tokenize(&chars("(a OR /x y/) AND NOT b")).unwrap();
    assert_eq!(tokens.len(), 8);
    assert!(matches!(tokens[0], Token::LParen));
    assert!(matches!(&tokens[1], Token::Glob(p) if p == "a"));
    assert!(matches!(tokens[2], Token::Or));
    assert!(matches!(&tokens[3], Token::Regex(p) if p == "x y"));
    assert!(matches!(tokens[4], Token::RParen));
    assert!(matches!(tokens[5], Token::And));
    assert!(matches!(tokens[6], Token::Not));
    assert!(matches!(&tokens[7], Token::Glob(p) if p == "b"));
}

#[test]
fn regex_literal_runs_to_the_next_unescaped_slash() {
    let tokens = tokenize(&chars(r"/a\/b/ c")).unwrap();
    assert_eq!(tokens.len(), 2);
    assert!(matches!(&tokens[0], Token::Regex(p) if p == r"a\/b"));
    let c = parse(r"/^a\/b$/").unwrap();
    assert!(evaluate(&c, "a/b"));
    assert!(!evaluate(&c, "ab"));
}

#[test]
fn unterminated_regex_is_an_error() {
    assert!(tokenize(&chars("/abc")).is_none());
    assert!(tokenize(&chars(r"/abc\/")).is_none());
    assert_eq!(parse("/abc").unwrap_err(), "Unterminated regex: missing closing /");
    assert!(matches!(parse_chars(&chars("a AND /b")), Err(ParseError::UnterminatedRegex)));
}

#[test]
fn missing_operand_is_an_error() {
    assert_eq!(parse("a AND").unwrap_err(), "Unexpected end of expression");
    assert_eq!(parse("NOT").unwrap_err(), "Unexpected end of expression");
    assert_eq!(parse("(").unwrap_err(), "Unexpected end of expression");
}

#[test]
fn unmatched_parenthesis_is_an_error() {
    assert_eq!(parse("(a OR b").unwrap_err(), "Missing closing parenthesis");
    assert_eq!(parse("a)").unwrap_err(), "Unexpected token: RParen");
    assert_eq!(parse("()").unwrap_err(), "Unexpected token: RParen");
}

#[test]
fn unexpected_token_is_named() {
    assert_eq!(parse("a b").unwrap_err(), "Unexpected token: Glob(\"b\")");
    assert_eq!(parse("AND a").unwrap_err(), "Unexpected token: And");
    assert_eq!(parse("a OR OR b").unwrap_err(), "Unexpected token: Or");
    assert_eq!(parse(r"a /\d/").unwrap_err(), "Unexpected token: Regex(\"\\\\d\")");
    assert_eq!(parse("a NOT b").unwrap_err(), "Unexpected token: Not");
    assert_eq!(parse("a (b)").unwrap_err(), "Unexpected token: LParen");
}

#[test]
fn error_messages_of_each_kind() {
    assert_eq!(error_message(&ParseError::UnterminatedRegex), "Unterminated regex: missing closing /");
    assert_eq!(error_message(&ParseError::UnexpectedEnd), "Unexpected end of expression");
    assert_eq!(error_message(&ParseError::MissingParen), "Missing closing parenthesis");
    assert_eq!(
        error_message(&ParseError::UnexpectedToken(Token::Glob("x\"y".to_string()))),
        "Unexpected token: Glob(\"x\\\"y\")"
    );
}

#[test]
fn validate_text_follows_parse() {
    assert!(validate_text("*.pdf AND NOT *.tmp").is_ok());
    assert!(validate_text("").is_ok());
    assert_eq!(validate_text("(a").unwrap_err(), "Missing closing parenthesis");
    // A regex that does not compile is still well-formed text.
    assert!(validate_text("/(/").is_ok());
}

#[test]
fn text_of_each_node() {
    assert_eq!(to_text(&Condition::Always), "*");
    assert_eq!(to_text(&glob("*.pdf")), "*.pdf");
    assert_eq!(to_text(&regex(r"^IMG_\d+")), r"/^IMG_\d+/");
    assert_eq!(to_text(&not(glob("*.tmp"))), "NOT *.tmp");
    assert_eq!(to_text(&not(and(vec![glob("a"), glob("b")]))), "NOT (a AND b)");
    assert_eq!(to_text(&not(or(vec![glob("a"), glob("b")]))), "NOT (a OR b)");
    assert_eq!(to_text(&not(not(glob("a")))), "NOT NOT a");
    assert_eq!(to_text(&and(vec![glob("a"), glob("b"), glob("c")])), "a AND b AND c");
    assert_eq!(to_text(&or(vec![glob("a"), glob("b")])), "a OR b");
    assert_eq!(
        to_text(&and(vec![or(vec![glob("*.pdf"), glob("*.docx")]), glob("*report*")])),
        "(*.pdf OR *.docx) AND *report*"
    );
    assert_eq!(to_text(&or(vec![and(vec![glob("a"), glob("b")]), glob("c")])), "a AND b OR c");
    assert_eq!(to_text(&and(vec![glob("a")])), "a");
    assert_eq!(to_text(&and(vec![])), "");
}

#[test]
fn round_trip_keeps_the_meaning() {
    let trees = vec![
        Condition::Always,
        glob("*.pdf"),
        regex(r"^IMG_\d+\.jpg$"),
        regex(r"a\/b"),
        not(glob("*.tmp")),
        not(not(glob("*.tmp"))),
        not(and(vec![glob("*.pdf"), glob("*invoice*")])),
        and(vec![or(vec![glob("*.pdf"), glob("*.jpg")]), glob("*invoice*")]),
        and(vec![and(vec![glob("*.pdf"), glob("test*")]), not(glob("*x*"))]),
        or(vec![or(vec![glob("*.png"), glob("*.jpg")]), and(vec![glob("IMG*"), glob("*.pdf")])]),
        and(vec![or(vec![glob("*.pdf")])]),
        or(vec![and(vec![or(vec![glob("a*"), glob("*.jpg")])]), glob("zzz")]),
        and(vec![not(or(vec![glob("*.jpg"), regex("invoice")])), Condition::Always]),
    ];
    let names = ["test_invoice.pdf", "IMG_1234.jpg", "a/b", "photo.png", "", "zzz", "cache.tmp"];
    for tree in &trees {
        let text = to_text(tree);
        let back = parse(&text).unwrap();
        for name in names {
            assert_eq!(evaluate(&back, name), evaluate(tree, name), "{} on {}", text, name);
        }
    }
}

#[test]
fn printing_again_gives_the_same_text() {
    let texts = [
        "*.pdf",
        "(a AND b) AND c",
        "a AND (b AND c)",
        "(a OR b) OR c",
        "NOT (a AND b)",
        "NOT (a)",
        "((a))",
        "(a OR b) AND NOT (c OR /x y/)",
        "*",
        "  a   and   b  ",
    ];
    for t in texts {
        let first = to_text(&parse(t).unwrap());
        let second = to_text(&parse(&first).unwrap());
        assert_eq!(first, second, "{}", t);
    }
    assert_eq!(to_text(&parse("(a AND b) AND c").unwrap()), "a AND b AND c");
    assert_eq!(to_text(&parse("NOT (a)").unwrap()), "NOT a");
    // A tree that the parser would not build need not be stable.
    let odd = and(vec![or(vec![glob("a")]), glob("b")]);
    assert_eq!(to_text(&odd), "(a) AND b");
    assert_eq!(to_text(&parse(&to_text(&odd)).unwrap()), "a AND b");
}

#[test]
fn empty_or_does_not_round_trip() {
    let tree = or(vec![]);
    assert!(!evaluate(&tree, "x"));
    let back = parse(&to_text(&tree)).unwrap();
    assert!(evaluate(&back, "x"));
}

#[test]
fn empty_and_is_true() {
    assert!(evaluate(&and(vec![]), "x"));
    assert!(!evaluate(&or(vec![]), "x"));
}

#[test]
fn regex_is_an_unanchored_search() {
    assert!(evaluate(&regex("port"), "report.pdf"));
    assert!(!evaluate(&regex("^port"), "report.pdf"));
    // Regexes keep their case.
    assert!(!evaluate(&regex("REPORT"), "report.pdf"));
}

#[test]
fn invalid_regex_matches_nothing_and_fails_validation() {
    let bad = regex("(unclosed");
    assert!(!evaluate(&bad, "(unclosed"));
    assert!(evaluate(&not(regex("(unclosed")), "x"));
    let err = validate_condition(&bad).unwrap_err();
    assert!(err.starts_with("Invalid regex: "));
    assert!(err.len() > "Invalid regex: ".len());
}

#[test]
fn validation_finds_the_first_invalid_regex() {
    let tree = and(vec![
        glob("a"),
        or(vec![regex("ok"), not(regex("[first"))]),
        regex("(second"),
    ]);
    let err = validate_condition(&tree).unwrap_err();
    assert!(err.starts_with("Invalid regex: "));
    assert!(err.contains("[first"));
    assert!(!err.contains("(second"));
}

#[test]
fn trees_without_regex_always_validate() {
    let tree = and(vec![glob("(("), or(vec![not(Condition::Always), glob("")])]);
    assert!(validate_condition(&tree).is_ok());
    assert!(validate_condition(&regex(r"^\d+$")).is_ok());
}

#[test]
fn clone_keeps_the_tree() {
    let tree = and(vec![or(vec![glob("*.pdf"), regex("x")]), not(Condition::Always)]);
    let copy = tree.clone();
    assert_eq!(to_text(&copy), to_text(&tree));
}

#[test]
fn whitespace_is_the_unicode_property() {
    let mut c = 0u32;
    while c <= 0x10FFFF {
        if let Some(ch) = char::from_u32(c) {
            assert_eq!(is_whitespace(ch), ch.is_whitespace(), "U+{:04X}", c);
        }
        c += 1;
    }
}

#[test]
fn text_helpers() {
    assert_eq!(chars_of("héllo"), vec!['h', 'é', 'l', 'l', 'o']);
    assert_eq!(string_of(&chars("héllo"), 1, 3), "él");
    assert_eq!(string_of(&chars("abc"), 2, 2), "");
    assert!(same_text("é", "é"));
    assert!(!same_text("a", "A"));
    assert!(!same_text("a", "ab"));
}
