use trivial_i18n::parse::{parse_declarations, parse_path, ParseError, Token};

fn ident(s: &str) -> Token {
    Token::Ident(s.to_string())
}

fn lit(s: &str) -> Token {
    Token::Literal(s.to_string())
}

fn punct(c: char) -> Token {
    Token::Punct(c)
}

fn declaration_stream() -> Vec<Token> {
    vec![
        lit("10"),
        punct(';'),
        ident("Language"),
        punct(';'),
        ident("English"),
        punct('='),
        lit("\"tests/english.properties\""),
        punct(';'),
        ident("German"),
        punct('='),
        lit("\"tests/german.properties\""),
        punct(';'),
        ident("SwissGerman"),
        punct('='),
        lit("\"tests/swiss_german.properties\""),
        punct(','),
        ident("German"),
        punct(';'),
    ]
}

#[test]
fn parses_the_declaration_stream() {
    let (lang, vars) = parse_declarations(&declaration_stream()).unwrap();
    assert_eq!("Language", lang);
    assert_eq!(3, vars.len());
    assert_eq!("English", vars[0].name);
    assert_eq!("\"tests/english.properties\"", vars[0].path);
    assert!(vars[0].fallbacks.is_empty());
    assert_eq!("German", vars[1].name);
    assert_eq!("SwissGerman", vars[2].name);
    assert_eq!(vec!["German".to_string()], vars[2].fallbacks);
    assert!(vars[2].properties.is_empty());
}

#[test]
fn qualified_language_path_is_joined() {
    let tokens = vec![
        ident("crate"),
        punct(':'),
        punct(':'),
        ident("i18n"),
        punct(':'),
        punct(':'),
        ident("Language"),
        punct(';'),
    ];
    let (path, next) = parse_path(&tokens, 0).unwrap();
    assert_eq!("crate::i18n::Language", path);
    assert_eq!(8, next);
}

#[test]
fn leading_number_with_sign_is_skipped() {
    let tokens = vec![
        punct('+'),
        lit("10"),
        punct(';'),
        ident("Language"),
        punct(';'),
        ident("EN"),
        punct('='),
        lit("\"en.properties\""),
        punct(';'),
    ];
    let (lang, vars) = parse_declarations(&tokens).unwrap();
    assert_eq!("Language", lang);
    assert_eq!(1, vars.len());
    assert_eq!("EN", vars[0].name);
}

#[test]
fn overflowing_number_is_the_language_name() {
    // too large for the numeric prefix, so it is taken as the language path
    let tokens = vec![
        lit("999999999999999999999999999999999999999999999"),
        punct(';'),
        ident("EN"),
        punct('='),
        lit("\"en.properties\""),
        punct(';'),
    ];
    let (lang, vars) = parse_declarations(&tokens).unwrap();
    assert_eq!("999999999999999999999999999999999999999999999", lang);
    assert_eq!(1, vars.len());
}

#[test]
fn duplicate_declaration_replaces_in_place() {
    let tokens = vec![
        ident("Language"),
        punct(';'),
        ident("EN"),
        punct('='),
        lit("\"en.properties\""),
        punct(';'),
        ident("DE"),
        punct('='),
        lit("\"de.properties\""),
        punct(';'),
        ident("EN"),
        punct('='),
        lit("\"en2.properties\""),
        punct(';'),
    ];
    let (_, vars) = parse_declarations(&tokens).unwrap();
    assert_eq!(2, vars.len());
    assert_eq!("EN", vars[0].name);
    assert_eq!("\"en2.properties\"", vars[0].path);
    assert_eq!("DE", vars[1].name);
}

#[test]
fn group_in_path_is_rejected() {
    let tokens = vec![Token::Group, punct(';')];
    assert_eq!(Err(ParseError::GroupInPath), parse_path(&tokens, 0));
}

#[test]
fn missing_equals_is_rejected() {
    let tokens = vec![
        ident("Language"),
        punct(';'),
        ident("EN"),
        punct(';'),
    ];
    let r = parse_declarations(&tokens);
    assert!(matches!(r, Err(ParseError::ExpectedEquals)));
}

#[test]
fn missing_fallback_name_is_rejected() {
    let tokens = vec![
        ident("Language"),
        punct(';'),
        ident("EN"),
        punct('='),
        lit("\"en.properties\""),
        punct(';'),
        ident("DE"),
        punct('='),
        lit("\"de.properties\""),
        punct(','),
        punct(';'),
    ];
    let r = parse_declarations(&tokens);
    assert!(matches!(r, Err(ParseError::ExpectedFallbackName)));
}

#[test]
fn empty_language_name_is_rejected() {
    let tokens = vec![punct(';'), ident("EN")];
    let r = parse_declarations(&tokens);
    assert!(matches!(r, Err(ParseError::EmptyLanguageName)));
}

#[test]
fn missing_default_name_is_rejected() {
    let tokens = vec![ident("Language"), punct(';'), lit("\"en.properties\"")];
    let r = parse_declarations(&tokens);
    assert!(matches!(r, Err(ParseError::ExpectedDefaultName)));
}

#[test]
fn empty_default_name_is_rejected() {
    let tokens = vec![ident("Language"), punct(';'), ident(""), punct('=')];
    let r = parse_declarations(&tokens);
    assert!(matches!(r, Err(ParseError::EmptyDefaultName)));
}

#[test]
fn missing_default_path_is_rejected() {
    let tokens = vec![ident("Language"), punct(';'), ident("EN"), punct('='), ident("nope")];
    let r = parse_declarations(&tokens);
    assert!(matches!(r, Err(ParseError::ExpectedPath)));
}

#[test]
fn missing_semicolon_after_default_is_rejected() {
    let tokens = vec![
        ident("Language"),
        punct(';'),
        ident("EN"),
        punct('='),
        lit("\"en.properties\""),
        punct(','),
    ];
    let r = parse_declarations(&tokens);
    assert!(matches!(r, Err(ParseError::ExpectedSemicolon)));
}

#[test]
fn non_ident_declaration_start_is_rejected() {
    let tokens = vec![
        ident("Language"),
        punct(';'),
        ident("EN"),
        punct('='),
        lit("\"en.properties\""),
        punct(';'),
        lit("\"de.properties\""),
    ];
    let r = parse_declarations(&tokens);
    assert!(matches!(r, Err(ParseError::ExpectedVariantName)));
}

#[test]
fn missing_separator_after_path_is_rejected() {
    let tokens = vec![
        ident("Language"),
        punct(';'),
        ident("EN"),
        punct('='),
        lit("\"en.properties\""),
        punct(';'),
        ident("DE"),
        punct('='),
        lit("\"de.properties\""),
        ident("German"),
    ];
    let r = parse_declarations(&tokens);
    assert!(matches!(r, Err(ParseError::ExpectedSeparator)));
}
