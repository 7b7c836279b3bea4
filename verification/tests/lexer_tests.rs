use redart::lexer::{lex, lex_error, is_legal_namechar, LexError};
use redart::token::{Token, TokKind};

fn kinds(src: &str) -> Vec<TokKind> {
    let reader = lex(src);
    reader.tokens().iter().map(|t| t.kind()).collect()
}

#[test]
fn lex_declaration_positions() {
    let reader = lex("int x = 5;");
    let toks = reader.tokens();
    assert_eq!(toks.len(), 6);
    assert!(matches!(&toks[0], Token::Name(s, 1, 1) if s == "int"));
    assert!(matches!(&toks[1], Token::Name(s, 1, 5) if s == "x"));
    assert!(matches!(&toks[2], Token::Assign(1, 7)));
    assert!(matches!(&toks[3], Token::Int(s, 1, 9) if s == "5"));
    assert!(matches!(&toks[4], Token::EndSt(1, 10)));
    assert!(matches!(&toks[5], Token::End));
    assert_eq!(reader.pos(), 0);
}

#[test]
fn lex_keywords_and_booleans() {
    assert_eq!(
        kinds("import if else while do return class true false foo"),
        vec![
            TokKind::Import, TokKind::If, TokKind::Else, TokKind::While, TokKind::Do,
            TokKind::Return, TokKind::Class, TokKind::Bool, TokKind::Bool, TokKind::Name, TokKind::End
        ]
    );
    let reader = lex("true false");
    assert!(matches!(&reader.tokens()[0], Token::Bool(true, 1, 1)));
    assert!(matches!(&reader.tokens()[1], Token::Bool(false, 1, 6)));
}

#[test]
fn lex_two_char_operators() {
    assert_eq!(
        kinds("== = ++ + -- - <= < >= > || | && & ^ ! * / x"),
        vec![
            TokKind::Equal, TokKind::Assign, TokKind::Increment, TokKind::Add, TokKind::Decrement,
            TokKind::Sub, TokKind::LessOrEq, TokKind::LessThan, TokKind::GreaterOrEq,
            TokKind::GreaterThan, TokKind::LogOr, TokKind::BitOr, TokKind::LogAnd, TokKind::BitAnd,
            TokKind::BitXor, TokKind::Not, TokKind::Mul, TokKind::Div, TokKind::Name, TokKind::End
        ]
    );
}

#[test]
fn lex_numbers() {
    let reader = lex("12 3.25");
    let toks = reader.tokens();
    assert!(matches!(&toks[0], Token::Int(s, 1, 1) if s == "12"));
    assert!(matches!(&toks[1], Token::Double(s, 1, 4) if s == "3.25"));
    assert_eq!(lex_error("1..2"), Some(LexError::DoubleDot));
}

#[test]
fn lex_strings_and_interpolation() {
    let reader = lex("'ab'");
    assert!(matches!(&reader.tokens()[0], Token::Str(s, subs, 1, 1) if s == "ab" && subs.is_empty()));
    let reader = lex("\"x${y}\"");
    match &reader.tokens()[0] {
        Token::Str(s, subs, _, _) => {
            assert_eq!(s, "x$");
            assert_eq!(subs.len(), 1);
            assert!(matches!(&subs[0][0], Token::Name(n, _, _) if n == "y"));
        }
        _ => panic!("expected a string token"),
    }
    assert_eq!(lex_error("'abc"), Some(LexError::UnclosedQuote));
}

#[test]
fn lex_comments_and_lines() {
    let reader = lex("a // note\nb");
    let toks = reader.tokens();
    assert_eq!(toks.len(), 3);
    assert!(matches!(&toks[0], Token::Name(s, 1, 1) if s == "a"));
    assert!(matches!(&toks[1], Token::Name(s, 2, 1) if s == "b"));
}

#[test]
fn lex_errors() {
    assert_eq!(lex_error("a /"), Some(LexError::SlashAtEnd));
    assert_eq!(lex_error("a ="), Some(LexError::MissingSuccessor));
    assert_eq!(lex_error("#"), Some(LexError::Unrecognized('#')));
}

#[test]
fn lex_empty_input_is_only_the_end() {
    assert_eq!(kinds(""), vec![TokKind::End]);
}

#[test]
fn namechars() {
    assert!(is_legal_namechar('a'));
    assert!(is_legal_namechar('Z'));
    assert!(is_legal_namechar('7'));
    assert!(is_legal_namechar('_'));
    assert!(is_legal_namechar('é'));
    assert!(!is_legal_namechar('-'));
    assert!(!is_legal_namechar(' '));
}

#[test]
fn token_texts() {
    let reader = lex("foo ( ) { } [ ] . , ;");
    let texts: Vec<String> = reader.tokens().iter().map(|t| t.to_text()).collect();
    assert_eq!(texts[0], "foo");
    assert_eq!(texts[1], "(");
    assert_eq!(texts[2], ")");
    assert_eq!(texts[3], "{");
    assert_eq!(texts[4], "}");
    assert_eq!(texts[5], "[");
    assert_eq!(texts[6], "]");
    assert_eq!(texts[7], ".");
    assert_eq!(texts[8], ",");
    // The end of a statement is written out as in diagnostics.
    assert_eq!(texts[9], "ENDST");
    assert_eq!(texts[10], "END");
}

#[test]
fn lex_comment_then_name_starts_at_column_one() {
    let reader = lex("// hi\nx");
    let toks = reader.tokens();
    assert_eq!(toks.len(), 2);
    assert!(matches!(&toks[0], Token::Name(s, 2, 1) if s == "x"));
    assert!(matches!(&toks[1], Token::End));
}

#[test]
fn lex_positions_are_first_characters() {
    let reader = lex("x = 1;");
    let toks = reader.tokens();
    assert_eq!(toks.len(), 5);
    assert!(matches!(&toks[0], Token::Name(s, 1, 1) if s == "x"));
    assert!(matches!(&toks[1], Token::Assign(1, 3)));
    assert!(matches!(&toks[2], Token::Int(s, 1, 5) if s == "1"));
    assert!(matches!(&toks[3], Token::EndSt(1, 6)));
    assert!(matches!(&toks[4], Token::End));
    let reader = lex("a / 'q' b");
    let toks = reader.tokens();
    assert!(matches!(&toks[1], Token::Div(1, 3)));
    assert!(matches!(&toks[2], Token::Str(s, _, 1, 5) if s == "q"));
    assert!(matches!(&toks[3], Token::Name(s, 1, 9) if s == "b"));
}

#[test]
fn only_the_last_token_is_the_end_marker() {
    let reader = lex("a = b + 1; // c\n'x${y}' ;");
    let toks = reader.tokens();
    assert!(matches!(toks[toks.len() - 1], Token::End));
    for t in &toks[..toks.len() - 1] {
        assert!(!matches!(t, Token::End));
    }
}
