use convbump::conventional::{CommitParser, ConfigError, ParseError, Type};

fn parser() -> CommitParser {
    CommitParser::builder().build().expect("no scope pattern, must build")
}

#[test]
fn parses_type_scope_and_description() {
    let pc = parser().parse("feat(parser): add support").expect("valid header");
    assert_eq!(pc.ty, Type::Feat);
    assert_eq!(pc.scope, Some("parser".to_string()));
    assert!(!pc.breaking);
    assert_eq!(pc.description, "add support");
}

#[test]
fn rejects_non_conventional_message() {
    let r = parser().parse("not a conventional message");
    assert_eq!(r.unwrap_err(), ParseError::MalformedHeader);
}

#[test]
fn parses_fix_without_scope() {
    let pc = parser().parse("fix: off-by-one in range walk").expect("valid header");
    assert_eq!(pc.ty, Type::Fix);
    assert_eq!(pc.scope, None);
    assert!(!pc.breaking);
    assert_eq!(pc.description, "off-by-one in range walk");
}

#[test]
fn bang_marks_breaking() {
    let pc = parser().parse("feat!: drop legacy API").expect("valid header");
    assert_eq!(pc.ty, Type::Feat);
    assert!(pc.breaking);
    assert_eq!(pc.description, "drop legacy API");
}

#[test]
fn bang_after_scope_marks_breaking() {
    let pc = parser().parse("fix(core)!: rename field").expect("valid header");
    assert_eq!(pc.ty, Type::Fix);
    assert_eq!(pc.scope, Some("core".to_string()));
    assert!(pc.breaking);
}

#[test]
fn breaking_change_footer_marks_breaking() {
    let msg = "fix: change serialization\n\nBREAKING CHANGE: the wire format changed";
    let pc = parser().parse(msg).expect("valid header");
    assert_eq!(pc.ty, Type::Fix);
    assert!(pc.breaking);
}

#[test]
fn breaking_dash_footer_marks_breaking() {
    let msg = "chore: tidy\n\nsome body text\nBREAKING-CHANGE: env var renamed";
    let pc = parser().parse(msg).expect("valid header");
    assert_eq!(pc.ty, Type::Other);
    assert!(pc.breaking);
}

#[test]
fn breaking_token_inside_a_line_is_no_footer() {
    let msg = "fix: x\n\nthis mentions BREAKING CHANGE: mid-line only";
    let pc = parser().parse(msg).expect("valid header");
    assert!(!pc.breaking);
}

#[test]
fn unknown_type_token_is_other_not_an_error() {
    let pc = parser().parse("docs: describe the bump rules").expect("valid header");
    assert_eq!(pc.ty, Type::Other);
    assert!(!pc.breaking);
}

#[test]
fn header_without_colon_fails() {
    assert_eq!(parser().parse("feat add support").unwrap_err(), ParseError::MalformedHeader);
}

#[test]
fn header_without_space_after_colon_fails() {
    assert_eq!(parser().parse("feat:no space").unwrap_err(), ParseError::MalformedHeader);
}

#[test]
fn empty_description_fails() {
    assert_eq!(parser().parse("feat: ").unwrap_err(), ParseError::MalformedHeader);
}

#[test]
fn empty_scope_fails() {
    assert_eq!(parser().parse("feat(): x").unwrap_err(), ParseError::MalformedHeader);
}

#[test]
fn unclosed_scope_fails() {
    assert_eq!(parser().parse("feat(parser: x").unwrap_err(), ParseError::MalformedHeader);
}

#[test]
fn empty_message_fails() {
    assert_eq!(parser().parse("").unwrap_err(), ParseError::MalformedHeader);
}

#[test]
fn scope_pattern_accepts_matching_scope() {
    let p = CommitParser::builder()
        .scope_regex("^[a-z]+$".to_string())
        .build()
        .expect("valid pattern");
    let pc = p.parse("feat(parser): add support").expect("scope matches");
    assert_eq!(pc.scope, Some("parser".to_string()));
}

#[test]
fn scope_pattern_rejects_mismatching_scope() {
    let p = CommitParser::builder()
        .scope_regex("^[a-z]+$".to_string())
        .build()
        .expect("valid pattern");
    assert_eq!(p.parse("feat(API2): add support").unwrap_err(), ParseError::ScopeMismatch);
}

#[test]
fn scope_pattern_ignores_messages_without_scope() {
    let p = CommitParser::builder()
        .scope_regex("^[a-z]+$".to_string())
        .build()
        .expect("valid pattern");
    assert!(p.parse("feat: no scope here").is_ok());
}

#[test]
fn invalid_scope_pattern_fails_at_build() {
    let r = CommitParser::builder().scope_regex("[".to_string()).build();
    assert_eq!(r.unwrap_err(), ConfigError::InvalidScopeRegex);
}
