//! Specification mirrors of the syntax tree over `Seq<char>`, and the view
//! functions mapping each executable node to its mirror. The parse model in
//! `parse_model` is stated over these mirrors; the executable parser is
//! proved to build exactly the tree the model describes.

use vstd::prelude::*;
use crate::ast::{
    AngleUnit, AtRule, AttributeOperator, AttributeSelector, CalcExpression, CalcOperator,
    CalcTerm, ColorStop, ColorValue, Combinator, CombinatorSelector, CustomProperty, Declaration,
    ErrorKind, FrequencyUnit, FunctionValue, GradientValue, LinearGradient, Num, ParseError,
    Position, PseudoClassSelector, PseudoElementSelector, RadialGradient, ResolutionUnit, Rule,
    RuleSet, Selector, SimpleSelector, Stylesheet, TimeUnit, Value,
};

verus! {

broadcast use vstd::seq::group_seq_axioms, vstd::std_specs::vec::group_vec_axioms;

pub ghost struct StylesheetModel {
    pub rules: Seq<RuleModel>,
}

pub ghost enum RuleModel {
    RuleSet(RuleSetModel),
    AtRule(AtRuleModel),
}

pub ghost struct RuleSetModel {
    pub selectors: Seq<SelectorModel>,
    pub declarations: Seq<DeclarationModel>,
    pub nested_rules: Seq<RuleModel>,
}

pub ghost struct AtRuleModel {
    pub name: Seq<char>,
    pub prelude: Seq<Seq<char>>,
    pub block: Option<StylesheetModel>,
}

pub ghost enum SelectorModel {
    Simple(SimpleSelectorModel),
    Attribute(AttributeSelectorModel),
    PseudoClass(PseudoClassSelectorModel),
    PseudoElement(PseudoElementSelectorModel),
    Combinator(CombinatorSelectorModel),
}

pub ghost struct SimpleSelectorModel {
    pub tag: Option<Seq<char>>,
    pub id: Option<Seq<char>>,
    pub classes: Seq<Seq<char>>,
}

pub ghost struct AttributeSelectorModel {
    pub attribute: Seq<char>,
    pub operator: Option<AttributeOperator>,
    pub value: Option<Seq<char>>,
}

pub ghost struct PseudoClassSelectorModel {
    pub name: Seq<char>,
    pub argument: Option<Seq<char>>,
}

pub ghost struct PseudoElementSelectorModel {
    pub name: Seq<char>,
}

pub ghost struct CombinatorSelectorModel {
    pub combinator: Combinator,
    pub selector: Option<Box<SelectorModel>>,
}

pub ghost struct DeclarationModel {
    pub property: Seq<char>,
    pub value: Seq<ValueModel>,
}

pub ghost enum ValueModel {
    Identifier(Seq<char>),
    ClassSelector(Seq<char>),
    String(Seq<char>),
    Number(Num),
    Percentage(Num),
    Dimension { value: Num, unit: Seq<char> },
    Url(Seq<char>),
    Function(FunctionValueModel),
    Calc(CalcExpressionModel),
    Var(Seq<char>),
    Color(ColorValueModel),
    Gradient(GradientValueModel),
    Angle(Num, AngleUnit),
    Time(Num, TimeUnit),
    Frequency(Num, FrequencyUnit),
    Resolution(Num, ResolutionUnit),
    Uri(Seq<char>),
}

pub ghost struct FunctionValueModel {
    pub name: Seq<char>,
    pub arguments: Seq<ValueModel>,
}

pub ghost struct CalcExpressionModel {
    pub terms: Seq<CalcTermModel>,
}

pub ghost enum CalcTermModel {
    Number(Num, Option<Seq<char>>),
    Operator(CalcOperator),
}

pub ghost enum ColorValueModel {
    Hex(Seq<char>),
    Rgb { r: u8, g: u8, b: u8 },
    Rgba { r: u8, g: u8, b: u8, a: Num },
    Hsl { h: Num, s: Num, l: Num },
    Hsla { h: Num, s: Num, l: Num, a: Num },
    Named(Seq<char>),
}

pub ghost enum GradientValueModel {
    LinearGradient(LinearGradientModel),
    RadialGradient(RadialGradientModel),
    RepeatingLinearGradient(LinearGradientModel),
    RepeatingRadialGradient(RadialGradientModel),
}

pub ghost struct LinearGradientModel {
    pub direction: Option<AngleModel>,
    pub color_stops: Seq<ColorStopModel>,
}

pub ghost struct RadialGradientModel {
    pub shape: Option<Seq<char>>,
    pub size: Option<Seq<char>>,
    pub position: Option<PositionModel>,
    pub color_stops: Seq<ColorStopModel>,
}

pub ghost struct ColorStopModel {
    pub color: Box<ValueModel>,
    pub position: Option<Box<ValueModel>>,
}

pub ghost struct AngleModel {
    pub value: Num,
    pub unit: AngleUnit,
}

pub ghost struct PositionModel {
    pub x: Option<Box<ValueModel>>,
    pub y: Option<Box<ValueModel>>,
}

pub ghost struct CustomPropertyModel {
    pub name: Seq<char>,
    pub value: ValueModel,
}

/// A parse error in the model: kind plus span endpoints.
pub ghost struct ErrModel {
    pub kind: ErrorKind,
    pub lo: int,
    pub hi: int,
}

pub open spec fn sv_err(e: ParseError) -> ErrModel {
    ErrModel { kind: e.kind, lo: e.span.lo as int, hi: e.span.hi as int }
}

pub open spec fn sv_opt_string(o: Option<String>) -> Option<Seq<char>> {
    match o {
        Some(s) => Some(s@),
        None => None,
    }
}

pub open spec fn sv_strings(v: Seq<String>) -> Seq<Seq<char>> {
    v.map_values(|s: String| s@)
}

pub open spec fn sv_rules(v: Seq<Rule>) -> Seq<RuleModel>
    decreases v,
{
    if v.len() == 0 {
        Seq::empty()
    } else {
        sv_rules(v.drop_last()).push(sv_rule(v.last()))
    }
}

pub open spec fn sv_stylesheet(s: Stylesheet) -> StylesheetModel
    decreases s,
{
    StylesheetModel { rules: sv_rules(s.rules@) }
}

pub open spec fn sv_rule(r: Rule) -> RuleModel
    decreases r,
{
    match r {
        Rule::RuleSet(rs) => RuleModel::RuleSet(sv_rule_set(rs)),
        Rule::AtRule(a) => RuleModel::AtRule(sv_at_rule(a)),
    }
}

pub open spec fn sv_rule_set(rs: RuleSet) -> RuleSetModel
    decreases rs,
{
    RuleSetModel {
        selectors: sv_selector_seq(rs.selectors@),
        declarations: sv_declaration_seq(rs.declarations@),
        nested_rules: sv_rules(rs.nested_rules@),
    }
}

pub open spec fn sv_selector_seq(v: Seq<Selector>) -> Seq<SelectorModel>
    decreases v,
{
    if v.len() == 0 {
        Seq::empty()
    } else {
        sv_selector_seq(v.drop_last()).push(sv_selector(v.last()))
    }
}

pub open spec fn sv_declaration_seq(v: Seq<Declaration>) -> Seq<DeclarationModel>
    decreases v,
{
    if v.len() == 0 {
        Seq::empty()
    } else {
        sv_declaration_seq(v.drop_last()).push(sv_declaration(v.last()))
    }
}

pub open spec fn sv_calc_term_seq(v: Seq<CalcTerm>) -> Seq<CalcTermModel>
    decreases v,
{
    if v.len() == 0 {
        Seq::empty()
    } else {
        sv_calc_term_seq(v.drop_last()).push(sv_calc_term(v.last()))
    }
}

pub open spec fn sv_at_rule(a: AtRule) -> AtRuleModel
    decreases a,
{
    AtRuleModel {
        name: a.name@,
        prelude: sv_strings(a.prelude@),
        block: match a.block {
            Some(s) => Some(sv_stylesheet(s)),
            None => None,
        },
    }
}

pub open spec fn sv_selector(s: Selector) -> SelectorModel
    decreases s,
{
    match s {
        Selector::Simple(x) => SelectorModel::Simple(
            SimpleSelectorModel {
                tag: sv_opt_string(x.tag),
                id: sv_opt_string(x.id),
                classes: sv_strings(x.classes@),
            },
        ),
        Selector::Attribute(x) => SelectorModel::Attribute(
            AttributeSelectorModel {
                attribute: x.attribute@,
                operator: x.operator,
                value: sv_opt_string(x.value),
            },
        ),
        Selector::PseudoClass(x) => SelectorModel::PseudoClass(
            PseudoClassSelectorModel { name: x.name@, argument: sv_opt_string(x.argument) },
        ),
        Selector::PseudoElement(x) => SelectorModel::PseudoElement(
            PseudoElementSelectorModel { name: x.name@ },
        ),
        Selector::Combinator(x) => SelectorModel::Combinator(
            CombinatorSelectorModel {
                combinator: x.combinator,
                selector: match x.selector {
                    Some(inner) => Some(Box::new(sv_selector(*inner))),
                    None => None,
                },
            },
        ),
    }
}

pub open spec fn sv_simple(x: SimpleSelector) -> SimpleSelectorModel {
    SimpleSelectorModel {
        tag: sv_opt_string(x.tag),
        id: sv_opt_string(x.id),
        classes: sv_strings(x.classes@),
    }
}

pub open spec fn sv_declaration(d: Declaration) -> DeclarationModel
    decreases d,
{
    DeclarationModel { property: d.property@, value: sv_values(d.value@) }
}

pub open spec fn sv_values(v: Seq<Value>) -> Seq<ValueModel>
    decreases v,
{
    if v.len() == 0 {
        Seq::empty()
    } else {
        sv_values(v.drop_last()).push(sv_value(v.last()))
    }
}

pub open spec fn sv_value(v: Value) -> ValueModel
    decreases v,
{
    match v {
        Value::Identifier(s) => ValueModel::Identifier(s@),
        Value::ClassSelector(s) => ValueModel::ClassSelector(s@),
        Value::String(s) => ValueModel::String(s@),
        Value::Number(n) => ValueModel::Number(n),
        Value::Percentage(n) => ValueModel::Percentage(n),
        Value::Dimension { value, unit } => ValueModel::Dimension { value, unit: unit@ },
        Value::Url(s) => ValueModel::Url(s@),
        Value::Function(f) => ValueModel::Function(
            FunctionValueModel { name: f.name@, arguments: sv_values(f.arguments@) },
        ),
        Value::Calc(c) => ValueModel::Calc(CalcExpressionModel { terms: sv_calc_term_seq(c.terms@) }),
        Value::Var(s) => ValueModel::Var(s@),
        Value::Color(c) => ValueModel::Color(sv_color(c)),
        Value::Gradient(g) => ValueModel::Gradient(sv_gradient(g)),
        Value::Angle(n, u) => ValueModel::Angle(n, u),
        Value::Time(n, u) => ValueModel::Time(n, u),
        Value::Frequency(n, u) => ValueModel::Frequency(n, u),
        Value::Resolution(n, u) => ValueModel::Resolution(n, u),
        Value::Uri(s) => ValueModel::Uri(s@),
    }
}

pub open spec fn sv_calc_term(t: CalcTerm) -> CalcTermModel {
    match t {
        CalcTerm::Number(n, u) => CalcTermModel::Number(n, sv_opt_string(u)),
        CalcTerm::Operator(o) => CalcTermModel::Operator(o),
    }
}

pub open spec fn sv_color(c: ColorValue) -> ColorValueModel {
    match c {
        ColorValue::Hex(s) => ColorValueModel::Hex(s@),
        ColorValue::Rgb { r, g, b } => ColorValueModel::Rgb { r, g, b },
        ColorValue::Rgba { r, g, b, a } => ColorValueModel::Rgba { r, g, b, a },
        ColorValue::Hsl { h, s, l } => ColorValueModel::Hsl { h, s, l },
        ColorValue::Hsla { h, s, l, a } => ColorValueModel::Hsla { h, s, l, a },
        ColorValue::Named(s) => ColorValueModel::Named(s@),
    }
}

pub open spec fn sv_gradient(g: GradientValue) -> GradientValueModel
    decreases g,
{
    match g {
        GradientValue::LinearGradient(x) => GradientValueModel::LinearGradient(sv_linear(x)),
        GradientValue::RadialGradient(x) => GradientValueModel::RadialGradient(sv_radial(x)),
        GradientValue::RepeatingLinearGradient(x) => GradientValueModel::RepeatingLinearGradient(
            sv_linear(x),
        ),
        GradientValue::RepeatingRadialGradient(x) => GradientValueModel::RepeatingRadialGradient(
            sv_radial(x),
        ),
    }
}

pub open spec fn sv_color_stops(v: Seq<ColorStop>) -> Seq<ColorStopModel>
    decreases v,
{
    if v.len() == 0 {
        Seq::empty()
    } else {
        sv_color_stops(v.drop_last()).push(sv_color_stop(v.last()))
    }
}

pub open spec fn sv_linear(x: LinearGradient) -> LinearGradientModel
    decreases x,
{
    LinearGradientModel {
        direction: match x.direction {
            Some(a) => Some(AngleModel { value: a.value, unit: a.unit }),
            None => None,
        },
        color_stops: sv_color_stops(x.color_stops@),
    }
}

pub open spec fn sv_radial(x: RadialGradient) -> RadialGradientModel
    decreases x,
{
    RadialGradientModel {
        shape: sv_opt_string(x.shape),
        size: sv_opt_string(x.size),
        position: match x.position {
            Some(p) => Some(sv_position(p)),
            None => None,
        },
        color_stops: sv_color_stops(x.color_stops@),
    }
}

pub open spec fn sv_color_stop(x: ColorStop) -> ColorStopModel
    decreases x,
{
    ColorStopModel {
        color: Box::new(sv_value(*x.color)),
        position: match x.position {
            Some(p) => Some(Box::new(sv_value(*p))),
            None => None,
        },
    }
}

pub open spec fn sv_position(x: Position) -> PositionModel
    decreases x,
{
    PositionModel {
        x: match x.x {
            Some(v) => Some(Box::new(sv_value(*v))),
            None => None,
        },
        y: match x.y {
            Some(v) => Some(Box::new(sv_value(*v))),
            None => None,
        },
    }
}

pub open spec fn sv_custom_property(x: CustomProperty) -> CustomPropertyModel
    decreases x,
{
    CustomPropertyModel { name: x.name@, value: sv_value(x.value) }
}

pub proof fn lemma_sv_values_push(v: Seq<Value>, x: Value)
    ensures
        sv_values(v.push(x)) == sv_values(v).push(sv_value(x)),
{
    assert(v.push(x).drop_last() =~= v);
}

pub proof fn lemma_sv_rules_push(v: Seq<Rule>, x: Rule)
    ensures
        sv_rules(v.push(x)) == sv_rules(v).push(sv_rule(x)),
{
    assert(v.push(x).drop_last() =~= v);
}

pub proof fn lemma_sv_selector_seq_push(v: Seq<Selector>, x: Selector)
    ensures
        sv_selector_seq(v.push(x)) == sv_selector_seq(v).push(sv_selector(x)),
{
    assert(v.push(x).drop_last() =~= v);
}

pub proof fn lemma_sv_declaration_seq_push(v: Seq<Declaration>, x: Declaration)
    ensures
        sv_declaration_seq(v.push(x)) == sv_declaration_seq(v).push(sv_declaration(x)),
{
    assert(v.push(x).drop_last() =~= v);
}

pub proof fn lemma_sv_calc_term_seq_push(v: Seq<CalcTerm>, x: CalcTerm)
    ensures
        sv_calc_term_seq(v.push(x)) == sv_calc_term_seq(v).push(sv_calc_term(x)),
{
    assert(v.push(x).drop_last() =~= v);
}

pub proof fn lemma_sv_strings_push(v: Seq<String>, x: String)
    ensures
        sv_strings(v.push(x)) == sv_strings(v).push(x@),
{
    assert(sv_strings(v.push(x)) =~= sv_strings(v).push(x@));
}

/// The length and elements of a selector-list view.
pub proof fn lemma_sv_selector_seq_len(v: Seq<Selector>)
    ensures
        sv_selector_seq(v).len() == v.len(),
    decreases v,
{
    if v.len() > 0 {
        lemma_sv_selector_seq_len(v.drop_last());
    }
}

pub proof fn lemma_sv_selector_seq_update(v: Seq<Selector>, i: int, x: Selector)
    requires
        0 <= i < v.len(),
    ensures
        sv_selector_seq(v.update(i, x)) == sv_selector_seq(v).update(i, sv_selector(x)),
    decreases v,
{
    lemma_sv_selector_seq_len(v);
    if i == v.len() - 1 {
        assert(v.update(i, x).drop_last() =~= v.drop_last());
        assert(v.update(i, x).last() == x);
        assert(sv_selector_seq(v).update(i, sv_selector(x)) =~= sv_selector_seq(
            v.drop_last(),
        ).push(sv_selector(x)));
    } else {
        lemma_sv_selector_seq_update(v.drop_last(), i, x);
        lemma_sv_selector_seq_len(v.drop_last());
        assert(v.update(i, x).drop_last() =~= v.drop_last().update(i, x));
        assert(v.update(i, x).last() == v.last());
        assert(sv_selector_seq(v).update(i, sv_selector(x)) =~= sv_selector_seq(
            v.drop_last(),
        ).update(i, sv_selector(x)).push(sv_selector(v.last())));
    }
}

/// The last element of a selector-list view.
pub proof fn lemma_sv_selector_seq_last(v: Seq<Selector>)
    requires
        v.len() > 0,
    ensures
        sv_selector_seq(v).last() == sv_selector(v.last()),
        sv_selector_seq(v).len() == v.len(),
{
    lemma_sv_selector_seq_len(v);
}

} // verus!
