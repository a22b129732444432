//! A CSS stylesheet parser: a tokenizer that turns source text into a stream
//! of typed lexical tokens with character spans, and a recursive-descent
//! parser that builds a typed abstract syntax tree of rules, selectors,
//! declarations and values, including nested rule sets and at-rules.
//!
//! The lexical grammar is specified in `lexer`, the parse productions in
//! `parse_model`, and both the executable tokenizer and the executable
//! parser are proved to follow those models exactly, on every input.

pub mod ast;
pub mod laws;
pub mod lexer;
pub mod model;
pub mod numbers;
pub mod parse_model;
pub mod parser;
pub mod text;
pub mod token;

pub use ast::Angle;
pub use ast::AngleUnit;
pub use ast::AtRule;
pub use ast::AttributeOperator;
pub use ast::AttributeSelector;
pub use ast::CalcExpression;
pub use ast::CalcOperator;
pub use ast::CalcTerm;
pub use ast::ColorStop;
pub use ast::ColorValue;
pub use ast::Combinator;
pub use ast::CombinatorSelector;
pub use ast::CustomProperty;
pub use ast::Declaration;
pub use ast::ErrorKind;
pub use ast::FrequencyUnit;
pub use ast::FunctionValue;
pub use ast::GradientValue;
pub use ast::LinearGradient;
pub use ast::Num;
pub use ast::ParseError;
pub use ast::Position;
pub use ast::PseudoClassSelector;
pub use ast::PseudoElementSelector;
pub use ast::RadialGradient;
pub use ast::ResolutionUnit;
pub use ast::Rule;
pub use ast::RuleSet;
pub use ast::Selector;
pub use ast::SimpleSelector;
pub use ast::Span;
pub use ast::Stylesheet;
pub use ast::TimeUnit;
pub use ast::Value;
pub use lexer::Tokenizer;
pub use parser::parse_css;
pub use parser::Parser;
pub use token::Lexed;
pub use token::Token;
