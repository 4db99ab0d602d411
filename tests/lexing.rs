use compiler::{tokenize, Comment, Lexer, Span, Token, Tokens};

fn kinds(src: &str) -> Vec<Tokens> {
    tokenize(src).into_iter().map(|t| t.kind).collect()
}

#[test]
fn lex_parse() {
    let lex: Vec<Token> = tokenize(
        r#"
        local func = () => hello
        class WOW
        ----comment
            public method()
                print("wow")
            end
        end
    "#,
    );
    println!("{:?}", lex);
    assert!(lex.iter().any(|t| t.kind == Tokens::Class));
    assert!(lex
        .iter()
        .any(|t| t.kind == Tokens::Comment(Comment::SingleLine("--comment".to_string()))));
    assert!(lex.iter().any(|t| t.kind == Tokens::String("wow".to_string())));
}

#[test]
fn spans_of_equality() {
    let toks = tokenize("a==b");
    assert_eq!(
        toks,
        vec![
            Token { kind: Tokens::Ident("a".to_string()), span: Span { start: 0, end: 1 } },
            Token { kind: Tokens::EQ, span: Span { start: 1, end: 3 } },
            Token { kind: Tokens::Ident("b".to_string()), span: Span { start: 3, end: 4 } },
        ]
    );
}

#[test]
fn tokens_tile_the_source() {
    let src = "local x=1 -- n\u{f6}te\n  y..\"s \u{e9}\"[[a\nb]]--[[c]]--z \u{263a}";
    let toks = tokenize(src);
    let mut rebuilt = String::new();
    let mut prev = 0;
    for t in &toks {
        assert!(prev <= t.span.start && t.span.start < t.span.end);
        assert!(src[prev..t.span.start].chars().all(|c| c == ' '));
        rebuilt.push_str(&src[prev..t.span.end]);
        prev = t.span.end;
    }
    assert_eq!(prev, src.len());
    assert_eq!(rebuilt, src);
}

#[test]
fn spans_count_bytes() {
    let toks = tokenize("\u{e9}=1");
    assert_eq!(toks[0], Token { kind: Tokens::Unknown("\u{e9}".to_string()), span: Span { start: 0, end: 2 } });
    assert_eq!(toks[1], Token { kind: Tokens::Assign, span: Span { start: 2, end: 3 } });
    assert_eq!(toks[2], Token { kind: Tokens::Number("1".to_string()), span: Span { start: 3, end: 4 } });
}

#[test]
fn keywords_are_never_identifiers() {
    let table = [
        ("false", Tokens::False),
        ("true", Tokens::True),
        ("nil", Tokens::Nil),
        ("not", Tokens::Not),
        ("for", Tokens::For),
        ("do", Tokens::Do),
        ("in", Tokens::In),
        ("function", Tokens::Function),
        ("break", Tokens::Break),
        ("return", Tokens::Return),
        ("while", Tokens::While),
        ("repeat", Tokens::Repeat),
        ("until", Tokens::Until),
        ("or", Tokens::Or),
        ("and", Tokens::And),
        ("goto", Tokens::Goto),
        ("end", Tokens::End),
        ("if", Tokens::If),
        ("then", Tokens::Then),
        ("elseif", Tokens::ElseIf),
        ("else", Tokens::Else),
        ("local", Tokens::Local),
        ("const", Tokens::Const),
        ("class", Tokens::Class),
        ("public", Tokens::Public),
        ("private", Tokens::Private),
        ("type", Tokens::Type),
        ("interface", Tokens::Interface),
        ("extends", Tokens::Extends),
        ("implements", Tokens::Implements),
        ("switch", Tokens::Switch),
    ];
    for (word, kind) in table {
        assert_eq!(kinds(word), vec![kind]);
    }
    assert_eq!(kinds("classes _x9"), vec![
        Tokens::Ident("classes".to_string()),
        Tokens::Ident("_x9".to_string())
    ]);
}

#[test]
fn malformed_numbers_are_kept_as_unknown() {
    assert_eq!(kinds("1.2.3"), vec![Tokens::Unknown("1.2.3".to_string())]);
    assert_eq!(kinds("-4.5 .5 7"), vec![
        Tokens::Number("-4.5".to_string()),
        Tokens::Number(".5".to_string()),
        Tokens::Number("7".to_string())
    ]);
    assert_eq!(kinds("@"), vec![Tokens::Unknown("@".to_string())]);
    assert_eq!(kinds("a - b"), vec![
        Tokens::Ident("a".to_string()),
        Tokens::Minus,
        Tokens::Ident("b".to_string())
    ]);
}

#[test]
fn unterminated_string_ends_the_sequence() {
    assert_eq!(kinds("\"abc"), vec![]);
    assert_eq!(kinds("x 'ab\ncd'"), vec![Tokens::Ident("x".to_string())]);
    assert_eq!(kinds("y [[never"), vec![Tokens::Ident("y".to_string())]);
    assert_eq!(kinds("z --[[never"), vec![Tokens::Ident("z".to_string())]);
}

#[test]
fn operators_take_the_longest_form() {
    assert_eq!(
        kinds("== => = :: : << <= < >> >= > // / ~= ~ .. ... . ;"),
        vec![
            Tokens::EQ,
            Tokens::Arrow,
            Tokens::Assign,
            Tokens::DBColon,
            Tokens::Colon,
            Tokens::SHL,
            Tokens::LTE,
            Tokens::LT,
            Tokens::SHR,
            Tokens::GTE,
            Tokens::GT,
            Tokens::IntDiv,
            Tokens::Div,
            Tokens::NEQ,
            Tokens::BitXor,
            Tokens::Concat,
            Tokens::Dots,
            Tokens::Period,
            Tokens::SemiColon,
        ]
    );
    assert_eq!(
        kinds("+*%^&|#()[]{},\n"),
        vec![
            Tokens::Plus,
            Tokens::Mul,
            Tokens::Mod,
            Tokens::Pow,
            Tokens::BitAnd,
            Tokens::BitOr,
            Tokens::Hash,
            Tokens::LParen,
            Tokens::RParen,
            Tokens::LBracket,
            Tokens::RBracket,
            Tokens::LCurly,
            Tokens::RCurly,
            Tokens::Comma,
            Tokens::NewLine,
        ]
    );
}

#[test]
fn comments_and_long_strings_keep_their_delimiters_in_the_span() {
    let toks = tokenize("--[[a]]-- [[b\nc]] -- d\nx");
    assert_eq!(toks[0].kind, Tokens::Comment(Comment::MultiLine("a".to_string())));
    assert_eq!(toks[0].span, Span { start: 0, end: 9 });
    assert_eq!(toks[1].kind, Tokens::String("b\nc".to_string()));
    assert_eq!(toks[1].span, Span { start: 10, end: 17 });
    assert_eq!(toks[2].kind, Tokens::Comment(Comment::SingleLine(" d".to_string())));
    assert_eq!(toks[2].span, Span { start: 18, end: 22 });
    assert_eq!(toks[3].kind, Tokens::NewLine);
    assert_eq!(toks[4].kind, Tokens::Ident("x".to_string()));
}

#[test]
fn lexer_steps_one_token_at_a_time() {
    let mut lexer = Lexer::new("  `q` x");
    assert_eq!(
        lexer.next(),
        Some(Token { kind: Tokens::String("q".to_string()), span: Span { start: 2, end: 5 } })
    );
    assert_eq!(
        lexer.next(),
        Some(Token { kind: Tokens::Ident("x".to_string()), span: Span { start: 6, end: 7 } })
    );
    assert_eq!(lexer.next(), None);
    assert_eq!(lexer.next(), None);
}

#[test]
fn match_chars_looks_at_the_cursor() {
    let lexer = Lexer::new("]]-- tail");
    assert!(lexer.match_chars("]]--"));
    assert!(lexer.match_chars(""));
    assert!(!lexer.match_chars("]]-x"));
    assert!(!lexer.match_chars("]]-- tail and more"));
}
