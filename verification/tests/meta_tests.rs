use muic::codegen::calculate_style;
use muic::meta_lexer::{Lexer, MetaLexError};
use muic::meta_scan::{check_file, path_segment};
use muic::meta_token::{Keyword, Literal, Operator, Token};

#[test]
fn lexes_a_declaration() {
    let mut lx = Lexer::new("pub struct Foo;".to_string());
    assert_eq!(lx.next().unwrap(), Some(Token::Keyword(Keyword::Pub)));
    assert_eq!(lx.next().unwrap(), Some(Token::Keyword(Keyword::Struct)));
    assert_eq!(lx.next().unwrap(), Some(Token::Ident("Foo".to_string())));
    assert_eq!(lx.next().unwrap(), Some(Token::Semicolon));
    assert_eq!(lx.next().unwrap(), Some(Token::EOF));
    assert_eq!(lx.next().unwrap(), None);
}

#[test]
fn revert_hands_a_token_back() {
    let mut lx = Lexer::new("a b".to_string());
    let t = lx.next().unwrap().unwrap();
    assert_eq!(t, Token::Ident("a".to_string()));
    lx.revert(t);
    assert_eq!(lx.next().unwrap(), Some(Token::Ident("a".to_string())));
    assert_eq!(lx.next().unwrap(), Some(Token::Ident("b".to_string())));
}

#[test]
fn comments_and_operators() {
    let mut lx = Lexer::new("// line\n/* block */ >>= << ->".to_string());
    assert_eq!(lx.next().unwrap(), Some(Token::OperatorAssign(Operator::Rsh)));
    assert_eq!(lx.next().unwrap(), Some(Token::Operator(Operator::Lsh)));
    assert_eq!(lx.next().unwrap(), Some(Token::Arrow));
    assert_eq!(lx.next().unwrap(), Some(Token::EOF));
}

#[test]
fn string_and_char_literals() {
    let mut lx = Lexer::new("\"he\\\"y\" 'c' 'a_lt".to_string());
    assert_eq!(
        lx.next().unwrap(),
        Some(Token::Literal(Literal::String("he\\\"y".to_string())))
    );
    assert_eq!(lx.next().unwrap(), Some(Token::Literal(Literal::Char('c'))));
    assert_eq!(lx.next().unwrap(), Some(Token::Lifetime("a_lt".to_string())));
}

#[test]
fn unterminated_comment_is_fatal() {
    let mut lx = Lexer::new("/* never closed".to_string());
    assert_eq!(lx.next().unwrap_err(), MetaLexError::UnterminatedComment);
}

#[test]
fn oversized_integer_is_fatal() {
    let mut lx = Lexer::new("99999999999999999999".to_string());
    assert_eq!(
        lx.next().unwrap_err(),
        MetaLexError::IntOutOfRange("99999999999999999999".to_string())
    );
}

#[test]
fn scanner_emits_record_with_path() {
    let src = "#[ui_element(label)] pub struct MyLabel;".to_string();
    let recs = check_file(src, "ui").unwrap();
    assert_eq!(recs, "label=ui::MyLabel;");
}

#[test]
fn scanner_emits_record_at_root_and_skips_noise() {
    let src = "fn f() {} #[ui_element(btn)] struct B; #[other(x)] struct C;".to_string();
    let recs = check_file(src, "").unwrap();
    assert_eq!(recs, "btn=B;");
}

#[test]
fn scanner_accepts_visibility_qualifier() {
    let src = "#[ui_element(card)] pub(crate) struct Card;".to_string();
    let recs = check_file(src, "w").unwrap();
    assert_eq!(recs, "card=w::Card;");
}

#[test]
fn path_segments_follow_the_root_rules() {
    assert_eq!(path_segment("lib.rs", true), None);
    assert_eq!(path_segment("main.rs", true), None);
    assert_eq!(path_segment("mod.rs", false), None);
    assert_eq!(path_segment("mod.rs", true), None);
    assert_eq!(path_segment("widgets.rs", false), Some("widgets".to_string()));
    assert_eq!(path_segment("subdir", false), Some("subdir".to_string()));
}

#[test]
fn style_computation_is_a_no_op() {
    let out = calculate_style("a".to_string(), "b".to_string(), vec!["c".to_string()]);
    assert_eq!(out, "");
}
