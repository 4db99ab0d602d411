use compiler::ast::AstNodes;
use compiler::diagnostics::ErrorClient;
use compiler::errors::{a_or_an, debug_string, disp_enum, str_cap, ErrorKind, ParseErrors};
use compiler::{parse, tokenize, Comment, Compiler, Span, Tokens};

#[test]
fn lib_parse() {
    let inp = r#"
        local func = () => hello
        type myType<T> = T extends boolean ? "yes" : "no"
        class WOW
        ----comment
            public method()
                print("wow")
            end
        end
    "#;
    println!("Input length: {}", inp.len());
    let lex = tokenize(inp);
    let nodes = parse(inp.to_string(), lex).ok().expect("the input parses");
    assert_eq!(nodes.len(), 1);
    match &nodes[0].kind {
        AstNodes::Class(c) => assert_eq!(c.name, "WOW"),
    }
}

#[test]
fn class_followed_by_a_number_is_an_error() {
    let src = "class 123";
    let toks = tokenize(src);
    let kinds: Vec<Tokens> = toks.iter().map(|t| t.kind.clone()).collect();
    assert_eq!(kinds, vec![Tokens::Class, Tokens::Number("123".to_string())]);
    let d = match parse(src.to_string(), toks) {
        Err(d) => d,
        Ok(_) => panic!("expected a diagnostic"),
    };
    match &d.error {
        ErrorKind::Parse(ParseErrors::ExpectedAfterButReceived(e, a, r)) => {
            assert_eq!(*e, Tokens::Ident(String::new()));
            assert_eq!(*a, Tokens::Class);
            assert_eq!(*r, Tokens::Number("123".to_string()));
        }
        _ => panic!("wrong error"),
    }
    assert_eq!(
        d.message,
        "Identifier expected after a class declaration, but received a Number(123.0)."
    );
    assert!(d.fatal);
    assert_eq!((d.line, d.column), (1, 1));
    assert_eq!(d.excerpt, "class 123");
    assert_eq!(d.highlight, "      ^^^");
}

#[test]
fn class_followed_by_an_identifier_parses() {
    let src = "class Foo";
    let toks = tokenize(src);
    let kinds: Vec<Tokens> = toks.iter().map(|t| t.kind.clone()).collect();
    assert_eq!(kinds, vec![Tokens::Class, Tokens::Ident("Foo".to_string())]);
    let nodes = parse(src.to_string(), toks).ok().expect("no diagnostic");
    assert_eq!(nodes.len(), 1);
    assert_eq!(nodes[0].span, Span { start: 0, end: 9 });
    match &nodes[0].kind {
        AstNodes::Class(c) => {
            assert_eq!(c.name, "Foo");
            assert!(c.public_methods.is_empty() && c.private_fields.is_empty());
        }
    }
}

#[test]
fn class_at_end_of_input_is_an_error() {
    let d = match parse("x class".to_string(), tokenize("x class")) {
        Err(d) => d,
        Ok(_) => panic!("expected a diagnostic"),
    };
    assert_eq!(d.message, "Unexpected end of input after a class declaration.");
    assert_eq!(d.origin, Span { start: 2, end: 7 });
}

#[test]
fn input_without_classes_parses_to_nothing() {
    let nodes = parse("local x = 1".to_string(), tokenize("local x = 1")).ok().expect("parses");
    assert!(nodes.is_empty());
}

#[test]
fn diagnostic_position_counts_lines_and_bytes() {
    let src = "x\n\u{e9} class 1";
    let d = match parse(src.to_string(), tokenize(src)) {
        Err(d) => d,
        Ok(_) => panic!("expected a diagnostic"),
    };
    assert_eq!((d.line, d.column), (2, 4));
    assert_eq!(d.excerpt, "class 1");
}

#[test]
fn out_of_bounds_origin_has_no_position() {
    let client = ErrorClient::new(&"abc".to_string());
    let kind = ParseErrors::UnexpectedEndAfter(Tokens::Class);
    let d = client.render(kind, &Span { start: 5, end: 7 }, &Span { start: 5, end: 7 }, false);
    assert_eq!((d.line, d.column), (0, 0));
    assert_eq!(d.excerpt, "");
    assert!(!client.is_inside_bounds(&Span { start: 3, end: 3 }));
    assert!(client.is_inside_bounds(&Span { start: 0, end: 3 }));
}

#[test]
fn articles_follow_the_first_letter() {
    assert_eq!(disp_enum(&Tokens::Ident("q".to_string()), false, true), "an identifier");
    assert_eq!(disp_enum(&Tokens::Class, false, true), "a class declaration");
    assert_eq!(disp_enum(&Tokens::Ident("q".to_string()), true, true), "An identifier");
    assert_eq!(disp_enum(&Tokens::String("q".to_string()), false, false), "string literal");
    assert_eq!(disp_enum(&Tokens::Else, false, true), "an Else");
    assert_eq!(disp_enum(&Tokens::Unknown("@".to_string()), false, true), "an Unknown(\"@\")");
    assert_eq!(a_or_an("owl".to_string(), false), "an owl");
    assert_eq!(a_or_an("Umbrella".to_string(), true), "An Umbrella");
    assert_eq!(a_or_an("cat".to_string(), true), "A cat");
    assert_eq!(str_cap("identifier".to_string()), "Identifier");
    assert_eq!(str_cap("Number(1.0)".to_string()), "Number(1.0)");
}

#[test]
fn debug_text_of_kinds() {
    assert_eq!(debug_string(&Tokens::Number("007.50".to_string())), "Number(7.5)");
    assert_eq!(debug_string(&Tokens::Number("-.5".to_string())), "Number(-0.5)");
    assert_eq!(debug_string(&Tokens::Number("5.".to_string())), "Number(5.0)");
    assert_eq!(debug_string(&Tokens::Ident("a\"b".to_string())), "Ident(\"a\\\"b\")");
    assert_eq!(
        debug_string(&Tokens::Comment(Comment::SingleLine("x".to_string()))),
        "Comment(SingleLine(\"x\"))"
    );
    assert_eq!(debug_string(&Tokens::DBColon), "DBColon");
}

#[test]
fn error_messages() {
    let e = ParseErrors::ExpectedAfterButReceived(
        Tokens::Ident(String::new()),
        Tokens::Class,
        Tokens::String("s".to_string()),
    );
    assert_eq!(
        e.to_string(),
        "Identifier expected after a class declaration, but received a string literal."
    );
}

#[test]
fn compiler_keeps_its_options() {
    let c = Compiler::new(vec!["a.lua".to_string()], true, false, true);
    assert_eq!(c.files, vec!["a.lua".to_string()]);
    assert!(c.strict_mode && !c.mangle_names && c.bundle);
}
