use cssparser_rs::{Lexed, Span, Token, Tokenizer};

fn lex_all(src: &str) -> Vec<Lexed> {
    let mut tk = Tokenizer::new(src);
    let mut out = Vec::new();
    while let Some(l) = tk.next() {
        out.push(l);
    }
    out
}

fn assert_lex(src: &str, expected: &[(Result<Token, ()>, &str, (usize, usize))]) {
    let got = lex_all(src);
    assert_eq!(got.len(), expected.len());
    for (g, e) in got.iter().zip(expected.iter()) {
        assert_eq!(g.token, e.0);
        assert_eq!(g.slice, e.1);
        assert_eq!(g.span, Span { lo: e.2.0, hi: e.2.1 });
    }
}

fn ident(s: &str) -> Result<Token, ()> {
    Ok(Token::Ident(s.to_string()))
}

#[test]
fn test_ident() {
    let css = "container123 _main-container";
    let expected = &[
        (ident("container123"), "container123", (0, 12)),
        (ident("_main-container"), "_main-container", (13, 28)),
    ];
    assert_lex(css, expected);
}

#[test]
fn test_at_keyword() {
    let css = "@media @import";
    let expected = &[
        (Ok(Token::AtKeyword("media".to_string())), "@media", (0, 6)),
        (Ok(Token::AtKeyword("import".to_string())), "@import", (7, 14)),
    ];
    assert_lex(css, expected);
}

#[test]
fn test_hash() {
    let css = "#header #footer123";
    let expected = &[
        (Ok(Token::Hash("header".to_string())), "#header", (0, 7)),
        (Ok(Token::Hash("footer123".to_string())), "#footer123", (8, 18)),
    ];
    assert_lex(css, expected);
}

#[test]
fn test_quoted_string() {
    let css = r#""Helvetica Neue" 'Arial'"#;
    let expected = &[
        (
            Ok(Token::QuotedString("Helvetica Neue".to_string())),
            r#""Helvetica Neue""#,
            (0, 16),
        ),
        (Ok(Token::QuotedString("Arial".to_string())), "'Arial'", (17, 24)),
    ];
    assert_lex(css, expected);
}

#[test]
fn test_unquoted_url() {
    let css = r#"url(image.png) url("data:image/png;base64,iVBORw0KGgoAAAANSUhEUgAA)"#;
    let expected = &[
        (Ok(Token::UnquotedUrl("image.png".to_string())), "url(image.png)", (0, 14)),
        (
            Ok(Token::UnquotedUrl(
                "\"data:image/png;base64,iVBORw0KGgoAAAANSUhEUgAA".to_string(),
            )),
            r#"url("data:image/png;base64,iVBORw0KGgoAAAANSUhEUgAA)"#,
            (15, 67),
        ),
    ];
    assert_lex(css, expected);
}

#[test]
fn test_delim() {
    let css = "{ } ( ) [ ] : ; , > + ~ . ! @ # $ % ^ & * | \\ / _ ` {";
    let expected = &[
        (Ok(Token::CurlyBracketBlock("{ }".to_string())), "{ }", (0, 3)),
        (Ok(Token::ParenthesisBlock("( )".to_string())), "( )", (4, 7)),
        (Ok(Token::SquareBracketBlock("[ ]".to_string())), "[ ]", (8, 11)),
        (Ok(Token::Delim(':')), ":", (12, 13)),
        (Ok(Token::Delim(';')), ";", (14, 15)),
        (Ok(Token::Delim(',')), ",", (16, 17)),
        (Ok(Token::Delim('>')), ">", (18, 19)),
        (Ok(Token::Delim('+')), "+", (20, 21)),
        (Ok(Token::Delim('~')), "~", (22, 23)),
        (Ok(Token::Delim('.')), ".", (24, 25)),
        (Ok(Token::Delim('!')), "!", (26, 27)),
        (Ok(Token::Delim('@')), "@", (28, 29)),
        (Ok(Token::Delim('#')), "#", (30, 31)),
        (Ok(Token::Delim('$')), "$", (32, 33)),
        (Ok(Token::Delim('%')), "%", (34, 35)),
        (Ok(Token::Delim('^')), "^", (36, 37)),
        (Ok(Token::Delim('&')), "&", (38, 39)),
        (Ok(Token::Delim('*')), "*", (40, 41)),
        (Ok(Token::Delim('|')), "|", (42, 43)),
        (Ok(Token::Delim('\\')), "\\", (44, 45)),
        (Ok(Token::Delim('/')), "/", (46, 47)),
        (Ok(Token::Delim('_')), "_", (48, 49)),
        (Ok(Token::Delim('`')), "`", (50, 51)),
        (Ok(Token::Delim('{')), "{", (52, 53)),
    ];
    assert_lex(css, expected);
}

#[test]
fn test_number_percentage_dimension() {
    let css = "10 -5 +3.14 50% 1.5em";
    let expected = &[
        (Ok(Token::Number("10".to_string())), "10", (0, 2)),
        (Ok(Token::Number("-5".to_string())), "-5", (3, 5)),
        (Ok(Token::Number("+3.14".to_string())), "+3.14", (6, 11)),
        (Ok(Token::Percentage("50%".to_string())), "50%", (12, 15)),
        (Ok(Token::Dimension("1.5em".to_string())), "1.5em", (16, 21)),
    ];
    assert_lex(css, expected);
}

#[test]
fn test_comment_token() {
    let css = "/* note */ body";
    let expected = &[
        (Ok(Token::Comment("/* note */".to_string())), "/* note */", (0, 10)),
        (ident("body"), "body", (11, 15)),
    ];
    assert_lex(css, expected);
}

#[test]
fn test_lex_error_token() {
    // Spans are byte ranges: the two-byte character widens what follows.
    let got = lex_all("a \u{e9} b");
    assert_eq!(got.len(), 3);
    assert_eq!(got[0].token, Ok(Token::Ident("a".to_string())));
    assert_eq!(got[0].span, Span { lo: 0, hi: 1 });
    assert_eq!(got[1].token, Err(()));
    assert_eq!(got[1].slice, "\u{e9}");
    assert_eq!(got[1].span, Span { lo: 2, hi: 4 });
    assert_eq!(got[2].token, Ok(Token::Ident("b".to_string())));
    assert_eq!(got[2].span, Span { lo: 5, hi: 6 });
}

#[test]
fn test_function_and_bad_url() {
    let got = lex_all("rgb( url() '");
    assert_eq!(got[0].token, Ok(Token::Function("rgb".to_string())));
    assert_eq!(got[1].token, Ok(Token::BadUrl("url()".to_string())));
    assert_eq!(got[2].token, Ok(Token::Delim('\'')));
}

#[test]
fn test_bad_string() {
    let got = lex_all("\"no end");
    assert_eq!(got.len(), 1);
    assert_eq!(got[0].token, Ok(Token::BadString("\"no end".to_string())));
    assert_eq!(got[0].span, Span { lo: 0, hi: 7 });
}

#[test]
fn test_match_and_markup_tokens() {
    let got = lex_all("~= |= ^= $= *= <!-- --> !important --x :hover ::before .cls");
    let kinds: Vec<Token> = got.into_iter().map(|l| l.token.unwrap()).collect();
    assert_eq!(
        kinds,
        vec![
            Token::IncludeMatch,
            Token::DashMatch,
            Token::PrefixMatch,
            Token::SuffixMatch,
            Token::SubstringMatch,
            Token::CDO,
            Token::CDC,
            Token::Important,
            Token::CustomProperty("--x".to_string()),
            Token::PseudoClassSelector(":hover".to_string()),
            Token::PseudoClassSelector("::before".to_string()),
            Token::ClassSelector(".cls".to_string()),
        ]
    );
}
