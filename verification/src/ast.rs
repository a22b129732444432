//! The abstract syntax tree that the parser builds, together with the small
//! value types shared across the crate: byte spans, exact decimal numbers,
//! and the parse-error type.

use vstd::prelude::*;

verus! {

/// A half-open byte range into the original source buffer.
#[derive(Debug, PartialEq, Eq, Structural, Clone, Copy)]
pub struct Span {
    pub lo: usize,
    pub hi: usize,
}

/// What went wrong during lexing or parsing.
#[derive(Debug, PartialEq, Eq, Structural, Clone, Copy)]
pub enum ErrorKind {
    /// An unrecognized character sequence in the input.
    LexError,
    /// A grammar violation: a missing `:`, `;` or `{`, or a token invalid at
    /// the current position.
    UnexpectedToken,
    /// Input exhausted inside a function call or an at-rule before its
    /// closing marker.
    UnterminatedConstruct,
    /// Wrong argument count for `rgb`, `rgba` or `rect`.
    InvalidArity,
    /// Numeric token text that does not fit the exact decimal representation.
    NumberFormat,
    /// Block nesting deeper than the parser's fixed recursion budget.
    RecursionLimit,
}

/// A positioned parse error. The span always locates the failure in the
/// original source buffer: a `{ ... }` block's content is re-lexed as a
/// fresh buffer, but its token spans are shifted back to original-source
/// positions.
#[derive(Debug, PartialEq, Eq, Structural, Clone, Copy)]
pub struct ParseError {
    pub kind: ErrorKind,
    pub span: Span,
}

/// An exact decimal number: the value is `mantissa / 10^scale`, negated when
/// `neg` holds. `"+3.14"` is `{ neg: false, mantissa: 314, scale: 2 }` and
/// `"-5"` is `{ neg: true, mantissa: 5, scale: 0 }`.
#[derive(Debug, PartialEq, Eq, Structural, Clone, Copy)]
pub struct Num {
    pub neg: bool,
    pub mantissa: u64,
    pub scale: usize,
}

/// The entire stylesheet: an ordered sequence of rules.
#[derive(Debug, PartialEq)]
pub struct Stylesheet {
    pub rules: Vec<Rule>,
}

/// A single rule in a stylesheet.
#[derive(Debug, PartialEq)]
pub enum Rule {
    /// A standard rule: selectors plus a declaration block.
    RuleSet(RuleSet),
    /// An at-rule such as `@media`.
    AtRule(AtRule),
}

/// A standard rule set, with any rule sets nested inside its block.
#[derive(Debug, PartialEq)]
pub struct RuleSet {
    pub selectors: Vec<Selector>,
    pub declarations: Vec<Declaration>,
    pub nested_rules: Vec<Rule>,
}

/// An at-rule: name, opaque prelude tokens, and an optional block.
#[derive(Debug, PartialEq)]
pub struct AtRule {
    pub name: String,
    pub prelude: Vec<String>,
    pub block: Option<Stylesheet>,
}

/// A selector. The parser only ever constructs the `Simple` variant: the
/// text of attribute, pseudo-class and combinator forms is folded into
/// `SimpleSelector` fields. The remaining variants complete the data model
/// for callers that build selectors themselves.
#[derive(Debug, PartialEq)]
pub enum Selector {
    Simple(SimpleSelector),
    Attribute(AttributeSelector),
    PseudoClass(PseudoClassSelector),
    PseudoElement(PseudoElementSelector),
    Combinator(CombinatorSelector),
}

/// A simple selector: tag, id and/or classes.
#[derive(Debug, PartialEq)]
pub struct SimpleSelector {
    pub tag: Option<String>,
    pub id: Option<String>,
    pub classes: Vec<String>,
}

impl Default for SimpleSelector {
    /// A selector with no tag, no id and no classes.
    fn default() -> (r: Self)
        ensures
            r.tag is None,
            r.id is None,
            r.classes@ =~= Seq::<String>::empty(),
    {
        SimpleSelector { tag: None, id: None, classes: Vec::new() }
    }
}

impl SimpleSelector {
    /// Whether the selector constrains nothing at all.
    pub fn is_empty(&self) -> (r: bool)
        ensures
            r == (self.tag is None && self.id is None && self.classes@.len() == 0),
    {
        self.tag.is_none() && self.id.is_none() && self.classes.len() == 0
    }
}

/// An attribute selector such as `[type="text"]`.
#[derive(Debug, PartialEq)]
pub struct AttributeSelector {
    pub attribute: String,
    pub operator: Option<AttributeOperator>,
    pub value: Option<String>,
}

/// The operator in an attribute selector.
#[derive(Debug, PartialEq, Eq, Structural, Clone, Copy)]
pub enum AttributeOperator {
    Equals,
    Includes,
    DashMatch,
    PrefixMatch,
    SuffixMatch,
    SubstringMatch,
}

/// A pseudo-class selector such as `:hover` or `:nth-child(2)`.
#[derive(Debug, PartialEq)]
pub struct PseudoClassSelector {
    pub name: String,
    pub argument: Option<String>,
}

/// A pseudo-element selector such as `::before`.
#[derive(Debug, PartialEq)]
pub struct PseudoElementSelector {
    pub name: String,
}

/// A combinator selector.
#[derive(Debug, PartialEq)]
pub struct CombinatorSelector {
    pub combinator: Combinator,
    pub selector: Option<Box<Selector>>,
}

/// The four selector-joining operators.
#[derive(Debug, PartialEq, Eq, Structural, Clone, Copy)]
pub enum Combinator {
    Descendant,
    Child,
    AdjacentSibling,
    GeneralSibling,
}

/// Which combinator, if any, the given text denotes.
pub open spec fn spec_combinator_of(s: Seq<char>) -> Option<Combinator> {
    if s == " "@ {
        Some(Combinator::Descendant)
    } else if s == ">"@ {
        Some(Combinator::Child)
    } else if s == "+"@ {
        Some(Combinator::AdjacentSibling)
    } else if s == "~"@ {
        Some(Combinator::GeneralSibling)
    } else {
        None
    }
}

impl Combinator {
    /// Maps the textual form of a combinator to its value: `" "`, `">"`,
    /// `"+"` and `"~"`; anything else is `None`.
    pub fn from_str(s: &str) -> (r: Option<Combinator>)
        ensures
            r == spec_combinator_of(s@),
    {
        if crate::text::str_eq_str(s, " ") {
            Some(Combinator::Descendant)
        } else if crate::text::str_eq_str(s, ">") {
            Some(Combinator::Child)
        } else if crate::text::str_eq_str(s, "+") {
            Some(Combinator::AdjacentSibling)
        } else if crate::text::str_eq_str(s, "~") {
            Some(Combinator::GeneralSibling)
        } else {
            None
        }
    }
}

/// A declaration: one `property: values ;` pair inside a rule's block.
#[derive(Debug, PartialEq)]
pub struct Declaration {
    pub property: String,
    pub value: Vec<Value>,
}

/// The value of a declaration. A declaration carries a list of these;
/// multiple values with no explicit separator are space-joined shorthand.
#[derive(Debug, PartialEq)]
pub enum Value {
    Identifier(String),
    ClassSelector(String),
    String(String),
    Number(Num),
    Percentage(Num),
    Dimension { value: Num, unit: String },
    Url(String),
    Function(FunctionValue),
    Calc(CalcExpression),
    Var(String),
    Color(ColorValue),
    Gradient(GradientValue),
    Angle(Num, AngleUnit),
    Time(Num, TimeUnit),
    Frequency(Num, FrequencyUnit),
    Resolution(Num, ResolutionUnit),
    Uri(String),
}

/// A function value such as `rect(...)` or an unrecognized function.
#[derive(Debug, PartialEq)]
pub struct FunctionValue {
    pub name: String,
    pub arguments: Vec<Value>,
}

/// A `calc()` expression: an ordered list of terms.
#[derive(Debug, PartialEq)]
pub struct CalcExpression {
    pub terms: Vec<CalcTerm>,
}

/// One term of a `calc()` expression.
#[derive(Debug, PartialEq)]
pub enum CalcTerm {
    Number(Num, Option<String>),
    Operator(CalcOperator),
}

/// An arithmetic operator inside `calc()`.
#[derive(Debug, PartialEq, Eq, Structural, Clone, Copy)]
pub enum CalcOperator {
    Add,
    Subtract,
    Multiply,
    Divide,
}

/// A custom property (CSS variable) binding.
#[derive(Debug, PartialEq)]
pub struct CustomProperty {
    pub name: String,
    pub value: Value,
}

/// A color value.
#[derive(Debug, PartialEq)]
pub enum ColorValue {
    Hex(String),
    Rgb { r: u8, g: u8, b: u8 },
    Rgba { r: u8, g: u8, b: u8, a: Num },
    Hsl { h: Num, s: Num, l: Num },
    Hsla { h: Num, s: Num, l: Num, a: Num },
    Named(String),
}

/// A gradient function value.
#[derive(Debug, PartialEq)]
pub enum GradientValue {
    LinearGradient(LinearGradient),
    RadialGradient(RadialGradient),
    RepeatingLinearGradient(LinearGradient),
    RepeatingRadialGradient(RadialGradient),
}

/// A linear gradient.
#[derive(Debug, PartialEq)]
pub struct LinearGradient {
    pub direction: Option<Angle>,
    pub color_stops: Vec<ColorStop>,
}

/// A radial gradient.
#[derive(Debug, PartialEq)]
pub struct RadialGradient {
    pub shape: Option<String>,
    pub size: Option<String>,
    pub position: Option<Position>,
    pub color_stops: Vec<ColorStop>,
}

/// A color stop in a gradient.
#[derive(Debug, PartialEq)]
pub struct ColorStop {
    pub color: Box<Value>,
    pub position: Option<Box<Value>>,
}

/// Angle units.
#[derive(Debug, PartialEq, Eq, Structural, Clone, Copy)]
pub enum AngleUnit {
    Degree,
    Grad,
    Radian,
    Turn,
}

/// Time units.
#[derive(Debug, PartialEq, Eq, Structural, Clone, Copy)]
pub enum TimeUnit {
    Second,
    Millisecond,
}

/// Frequency units.
#[derive(Debug, PartialEq, Eq, Structural, Clone, Copy)]
pub enum FrequencyUnit {
    Hertz,
    Kilohertz,
}

/// Resolution units.
#[derive(Debug, PartialEq, Eq, Structural, Clone, Copy)]
pub enum ResolutionUnit {
    Dpi,
    Dpcm,
    Dppx,
}

/// An angle value with its unit.
#[derive(Debug, PartialEq)]
pub struct Angle {
    pub value: Num,
    pub unit: AngleUnit,
}

/// A two-axis position value.
#[derive(Debug, PartialEq)]
pub struct Position {
    pub x: Option<Box<Value>>,
    pub y: Option<Box<Value>>,
}

} // verus!
