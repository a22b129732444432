use cssparser_rs::{
    CalcExpression, CalcOperator, CalcTerm, ColorValue, Combinator, ErrorKind, FunctionValue,
    Num, Rule, SimpleSelector, Span, Value,
};

fn num(neg: bool, mantissa: u64, scale: usize) -> Num {
    Num { neg, mantissa, scale }
}

fn only_values(css: &str) -> Vec<Value> {
    let sheet = cssparser_rs::parse_css(css).unwrap();
    match sheet.rules.into_iter().next().unwrap() {
        Rule::RuleSet(rs) => rs.declarations.into_iter().next().unwrap().value,
        Rule::AtRule(_) => panic!("expected a rule set"),
    }
}

#[test]
fn missing_colon_is_unexpected_token() {
    // The error is positioned immediately after `color` in the original
    // source: the span of the `#fff` token that stands where `:` belongs.
    let e = cssparser_rs::parse_css("body { color #fff; }").unwrap_err();
    assert_eq!(e.kind, ErrorKind::UnexpectedToken);
    assert_eq!(e.span, Span { lo: 13, hi: 17 });
}

#[test]
fn error_span_counts_bytes_not_characters() {
    // The two-byte character in the string widens every later span.
    let css = "body { q: \"\u{e9}\"; color #fff; }";
    let bytes = css.as_bytes();
    assert_eq!(&bytes[22..26], b"#fff");
    let e = cssparser_rs::parse_css(css).unwrap_err();
    assert_eq!(e.kind, ErrorKind::UnexpectedToken);
    assert_eq!(e.span, Span { lo: 22, hi: 26 });
}

#[test]
fn nested_error_span_is_in_the_original_source() {
    // Two levels of re-lexing deep, the span still points at the `#fff`
    // token of the original buffer.
    let css = "@media x { body { color #fff; } }";
    assert_eq!(&css[24..28], "#fff");
    let e = cssparser_rs::parse_css(css).unwrap_err();
    assert_eq!(e.kind, ErrorKind::UnexpectedToken);
    assert_eq!(e.span, Span { lo: 24, hi: 28 });
}

#[test]
fn missing_semicolon_is_unexpected_token() {
    let e = cssparser_rs::parse_css("body { color: #fff }").unwrap_err();
    assert_eq!(e.kind, ErrorKind::UnexpectedToken);
}

#[test]
fn rgb_channels_are_exact() {
    let vals = only_values("body { color: rgb(12, 34, 56); }");
    assert_eq!(vals, vec![Value::Color(ColorValue::Rgb { r: 12, g: 34, b: 56 })]);
}

#[test]
fn rgba_alpha_is_exact() {
    let vals = only_values("body { color: rgba(1, 2, 3, 0.5); }");
    assert_eq!(
        vals,
        vec![Value::Color(ColorValue::Rgba { r: 1, g: 2, b: 3, a: num(false, 5, 1) })]
    );
}

#[test]
fn rgb_wrong_arity() {
    let e = cssparser_rs::parse_css("body { color: rgb(1, 2); }").unwrap_err();
    assert_eq!(e.kind, ErrorKind::InvalidArity);
    let e = cssparser_rs::parse_css("body { color: rgb(1, 2, 3, 4, 5); }").unwrap_err();
    assert_eq!(e.kind, ErrorKind::InvalidArity);
}

#[test]
fn rgb_channel_out_of_range_is_number_format() {
    let e = cssparser_rs::parse_css("body { color: rgb(300, 0, 0); }").unwrap_err();
    assert_eq!(e.kind, ErrorKind::NumberFormat);
}

#[test]
fn at_rule_without_block_is_unterminated() {
    let e = cssparser_rs::parse_css("@media screen").unwrap_err();
    assert_eq!(e.kind, ErrorKind::UnterminatedConstruct);
}

#[test]
fn unterminated_function_call() {
    let e = cssparser_rs::parse_css("body { width: calc(1 + ; }").unwrap_err();
    assert_eq!(e.kind, ErrorKind::UnexpectedToken);
}

#[test]
fn deep_nesting_hits_the_recursion_limit() {
    let mut css = String::new();
    for _ in 0..80 {
        css.push_str(".a { ");
    }
    for _ in 0..80 {
        css.push_str("} ");
    }
    let e = cssparser_rs::parse_css(&css).unwrap_err();
    assert_eq!(e.kind, ErrorKind::RecursionLimit);
}

#[test]
fn calc_terms() {
    let vals = only_values("body { width: calc(100 % - 20px); }");
    assert_eq!(
        vals,
        vec![Value::Calc(CalcExpression {
            terms: vec![
                CalcTerm::Number(num(false, 100, 0), None),
                CalcTerm::Number(num(false, 0, 0), Some("%".to_string())),
                CalcTerm::Operator(CalcOperator::Subtract),
                CalcTerm::Number(num(false, 20, 0), Some("px".to_string())),
            ],
        })]
    );
}

#[test]
fn url_value() {
    let vals = only_values("body { background: url(img.png); }");
    assert_eq!(vals, vec![Value::Uri("img.png".to_string())]);
}

#[test]
fn rect_function() {
    let vals = only_values("body { clip: rect(1, 2, 3, 4); }");
    assert_eq!(
        vals,
        vec![Value::Function(FunctionValue {
            name: "rect".to_string(),
            arguments: vec![
                Value::Number(num(false, 1, 0)),
                Value::Number(num(false, 2, 0)),
                Value::Number(num(false, 3, 0)),
                Value::Number(num(false, 4, 0)),
            ],
        })]
    );
}

#[test]
fn generic_function_with_var() {
    let vals = only_values(":root { color: var(--blue); }");
    assert_eq!(
        vals,
        vec![Value::Function(FunctionValue {
            name: "var".to_string(),
            arguments: vec![Value::Var("--blue".to_string())],
        })]
    );
}

#[test]
fn important_and_slash_are_identifiers() {
    let vals = only_values("body { font: 12px / 1.5 serif !important; }");
    assert_eq!(
        vals,
        vec![
            Value::Dimension { value: num(false, 12, 0), unit: "px".to_string() },
            Value::Identifier("/".to_string()),
            Value::Number(num(false, 15, 1)),
            Value::Identifier("serif".to_string()),
            Value::Identifier("!important".to_string()),
        ]
    );
}

#[test]
fn exact_decimal_dimension() {
    let vals = only_values("body { width: 3.14px; }");
    assert_eq!(
        vals,
        vec![Value::Dimension { value: num(false, 314, 2), unit: "px".to_string() }]
    );
}

#[test]
fn huge_number_is_number_format() {
    let e = cssparser_rs::parse_css("body { z-index: 99999999999999999999999999; }")
        .unwrap_err();
    assert_eq!(e.kind, ErrorKind::NumberFormat);
}

#[test]
fn top_level_junk_is_skipped() {
    let sheet = cssparser_rs::parse_css("; ) body { color: #fff; } <!--").unwrap();
    assert_eq!(sheet.rules.len(), 1);
}

#[test]
fn combinator_from_str_maps_all_four() {
    assert_eq!(Combinator::from_str(" "), Some(Combinator::Descendant));
    assert_eq!(Combinator::from_str(">"), Some(Combinator::Child));
    assert_eq!(Combinator::from_str("+"), Some(Combinator::AdjacentSibling));
    assert_eq!(Combinator::from_str("~"), Some(Combinator::GeneralSibling));
    assert_eq!(Combinator::from_str("x"), None);
}

#[test]
fn simple_selector_is_empty() {
    let s = SimpleSelector::default();
    assert!(s.is_empty());
    let t = SimpleSelector { tag: Some("a".to_string()), id: None, classes: vec![] };
    assert!(!t.is_empty());
}
