//! The mathematical values of the types of the syntax.
use crate::static_expression::{
    Alias, Arm, BinaryOpKind, Expression, Literal, ModuleData, Pattern, PatternVariable,
    PersistenceId, Span, SpannedArgument, SpannedExpression, SpannedVariable,
    StaticFunctionDefinition, TextPart, Variable,
};
use vstd::prelude::*;

verus! {

/// The mathematical value of a [`SpannedExpression`].
#[verifier::ext_equal]
pub struct SpannedExpressionView {
    pub span: Span,
    pub persistence: Option<PersistenceId>,
    pub node: ExpressionView,
}

pub open spec fn spanned_expression_view(v: SpannedExpression) -> SpannedExpressionView
    decreases v,
{
    SpannedExpressionView {
        span: v.span,
        persistence: v.persistence,
        node: expression_view(v.node),
    }
}

/// The values of the elements of a sequence.
pub open spec fn spanned_expression_seq(s: Seq<SpannedExpression>) -> Seq<SpannedExpressionView>
    decreases s,
{
    Seq::new(
        s.len(),
        |i: int|
            if 0 <= i < s.len() {
                spanned_expression_view(s[i])
            } else {
                arbitrary()
            },
    )
}

/// The values of the elements of a sequence, one by one.
pub proof fn lemma_spanned_expression_seq(s: Seq<SpannedExpression>)
    ensures
        spanned_expression_seq(s) == s.map_values(|x: SpannedExpression| x@),
        spanned_expression_seq(s).len() == s.len(),
        forall|i: int| 0 <= i < s.len() ==> #[trigger] spanned_expression_seq(s)[i] == s[i]@,
{
    assert(spanned_expression_seq(s) =~= s.map_values(|x: SpannedExpression| x@));
}

impl View for SpannedExpression {
    type V = SpannedExpressionView;

    open spec fn view(&self) -> SpannedExpressionView {
        spanned_expression_view(*self)
    }
}

/// The mathematical value of a [`Expression`].
#[allow(inconsistent_fields)]
#[verifier::ext_equal]
pub enum ExpressionView {
    Variable(Box<VariableView>),
    Literal(LiteralView),
    List { items: Seq<SpannedExpressionView> },
    Object { variables: Seq<SpannedVariableView> },
    TaggedObject { tag: Seq<char>, variables: Seq<SpannedVariableView> },
    Function { name: Seq<char>, parameters: Seq<Seq<char>>, body: Box<SpannedExpressionView> },
    FunctionCall { path: Seq<Seq<char>>, arguments: Seq<SpannedArgumentView> },
    Alias(AliasView),
    LinkSetter { alias: AliasView },
    Link,
    Latest { inputs: Seq<SpannedExpressionView> },
    Hold { state_param: Seq<char>, body: Box<SpannedExpressionView> },
    Then { body: Box<SpannedExpressionView> },
    When { arms: Seq<ArmView> },
    While { arms: Seq<ArmView> },
    Pipe { from: Box<SpannedExpressionView>, to: Box<SpannedExpressionView> },
    Skip,
    Block { variables: Seq<SpannedVariableView>, output: Box<SpannedExpressionView> },
    Operator {
        op: BinaryOpKind,
        operand_a: Box<SpannedExpressionView>,
        operand_b: Box<SpannedExpressionView>,
    },
    Negate { operand: Box<SpannedExpressionView> },
    TextLiteral { parts: Seq<TextPartView> },
    FieldAccess { path: Seq<Seq<char>> },
    Unsupported,
}

pub open spec fn expression_view(v: Expression) -> ExpressionView
    decreases v,
{
    match v {
        Expression::Variable(a) => ExpressionView::Variable(Box::new(variable_view(*a))),
        Expression::Literal(a) => ExpressionView::Literal(a@),
        Expression::List { items } => ExpressionView::List {
            items: spanned_expression_seq(items@),
        },
        Expression::Object { variables } => ExpressionView::Object {
            variables: spanned_variable_seq(variables@),
        },
        Expression::TaggedObject { tag, variables } => ExpressionView::TaggedObject {
            tag: tag@,
            variables: spanned_variable_seq(variables@),
        },
        Expression::Function { name, parameters, body } => ExpressionView::Function {
            name: name@,
            parameters: parameters@.map_values(|x: String| x@),
            body: Box::new(spanned_expression_view(*body)),
        },
        Expression::FunctionCall { path, arguments } => ExpressionView::FunctionCall {
            path: path@.map_values(|x: String| x@),
            arguments: spanned_argument_seq(arguments@),
        },
        Expression::Alias(a) => ExpressionView::Alias(a@),
        Expression::LinkSetter { alias } => ExpressionView::LinkSetter {
            alias: alias@,
        },
        Expression::Link => ExpressionView::Link,
        Expression::Latest { inputs } => ExpressionView::Latest {
            inputs: spanned_expression_seq(inputs@),
        },
        Expression::Hold { state_param, body } => ExpressionView::Hold {
            state_param: state_param@,
            body: Box::new(spanned_expression_view(*body)),
        },
        Expression::Then { body } => ExpressionView::Then {
            body: Box::new(spanned_expression_view(*body)),
        },
        Expression::When { arms } => ExpressionView::When {
            arms: arm_seq(arms@),
        },
        Expression::While { arms } => ExpressionView::While {
            arms: arm_seq(arms@),
        },
        Expression::Pipe { from, to } => ExpressionView::Pipe {
            from: Box::new(spanned_expression_view(*from)),
            to: Box::new(spanned_expression_view(*to)),
        },
        Expression::Skip => ExpressionView::Skip,
        Expression::Block { variables, output } => ExpressionView::Block {
            variables: spanned_variable_seq(variables@),
            output: Box::new(spanned_expression_view(*output)),
        },
        Expression::Operator { op, operand_a, operand_b } => ExpressionView::Operator {
            op,
            operand_a: Box::new(spanned_expression_view(*operand_a)),
            operand_b: Box::new(spanned_expression_view(*operand_b)),
        },
        Expression::Negate { operand } => ExpressionView::Negate {
            operand: Box::new(spanned_expression_view(*operand)),
        },
        Expression::TextLiteral { parts } => ExpressionView::TextLiteral {
            parts: parts@.map_values(|x: TextPart| x@),
        },
        Expression::FieldAccess { path } => ExpressionView::FieldAccess {
            path: path@.map_values(|x: String| x@),
        },
        Expression::Unsupported => ExpressionView::Unsupported,
    }
}

impl View for Expression {
    type V = ExpressionView;

    open spec fn view(&self) -> ExpressionView {
        expression_view(*self)
    }
}

/// The mathematical value of a [`Literal`].
#[allow(inconsistent_fields)]
#[verifier::ext_equal]
pub enum LiteralView {
    Number(u64),
    Text(Seq<char>),
    Tag(Seq<char>),
}

impl View for Literal {
    type V = LiteralView;

    open spec fn view(&self) -> LiteralView {
        match self {
            Literal::Number(a) => LiteralView::Number(*a),
            Literal::Text(a) => LiteralView::Text(a@),
            Literal::Tag(a) => LiteralView::Tag(a@),
        }
    }
}

/// The mathematical value of a [`Variable`].
#[verifier::ext_equal]
pub struct VariableView {
    pub name: Seq<char>,
    pub value: SpannedExpressionView,
    pub is_referenced: bool,
}

pub open spec fn variable_view(v: Variable) -> VariableView
    decreases v,
{
    VariableView {
        name: v.name@,
        value: spanned_expression_view(v.value),
        is_referenced: v.is_referenced,
    }
}

impl View for Variable {
    type V = VariableView;

    open spec fn view(&self) -> VariableView {
        variable_view(*self)
    }
}

/// The mathematical value of a [`SpannedVariable`].
#[verifier::ext_equal]
pub struct SpannedVariableView {
    pub span: Span,
    pub persistence: Option<PersistenceId>,
    pub node: VariableView,
}

pub open spec fn spanned_variable_view(v: SpannedVariable) -> SpannedVariableView
    decreases v,
{
    SpannedVariableView {
        span: v.span,
        persistence: v.persistence,
        node: variable_view(v.node),
    }
}

/// The values of the elements of a sequence.
pub open spec fn spanned_variable_seq(s: Seq<SpannedVariable>) -> Seq<SpannedVariableView>
    decreases s,
{
    Seq::new(
        s.len(),
        |i: int|
            if 0 <= i < s.len() {
                spanned_variable_view(s[i])
            } else {
                arbitrary()
            },
    )
}

/// The values of the elements of a sequence, one by one.
pub proof fn lemma_spanned_variable_seq(s: Seq<SpannedVariable>)
    ensures
        spanned_variable_seq(s) == s.map_values(|x: SpannedVariable| x@),
        spanned_variable_seq(s).len() == s.len(),
        forall|i: int| 0 <= i < s.len() ==> #[trigger] spanned_variable_seq(s)[i] == s[i]@,
{
    assert(spanned_variable_seq(s) =~= s.map_values(|x: SpannedVariable| x@));
}

impl View for SpannedVariable {
    type V = SpannedVariableView;

    open spec fn view(&self) -> SpannedVariableView {
        spanned_variable_view(*self)
    }
}

/// The mathematical value of a [`SpannedArgument`].
#[verifier::ext_equal]
pub struct SpannedArgumentView {
    pub span: Span,
    pub name: Seq<char>,
    pub value: Option<SpannedExpressionView>,
    pub is_referenced: bool,
}

pub open spec fn spanned_argument_view(v: SpannedArgument) -> SpannedArgumentView
    decreases v,
{
    SpannedArgumentView {
        span: v.span,
        name: v.name@,
        value: match v.value { Some(x) => Some(spanned_expression_view(x)), None => None },
        is_referenced: v.is_referenced,
    }
}

/// The values of the elements of a sequence.
pub open spec fn spanned_argument_seq(s: Seq<SpannedArgument>) -> Seq<SpannedArgumentView>
    decreases s,
{
    Seq::new(
        s.len(),
        |i: int|
            if 0 <= i < s.len() {
                spanned_argument_view(s[i])
            } else {
                arbitrary()
            },
    )
}

/// The values of the elements of a sequence, one by one.
pub proof fn lemma_spanned_argument_seq(s: Seq<SpannedArgument>)
    ensures
        spanned_argument_seq(s) == s.map_values(|x: SpannedArgument| x@),
        spanned_argument_seq(s).len() == s.len(),
        forall|i: int| 0 <= i < s.len() ==> #[trigger] spanned_argument_seq(s)[i] == s[i]@,
{
    assert(spanned_argument_seq(s) =~= s.map_values(|x: SpannedArgument| x@));
}

impl View for SpannedArgument {
    type V = SpannedArgumentView;

    open spec fn view(&self) -> SpannedArgumentView {
        spanned_argument_view(*self)
    }
}

/// The mathematical value of a [`Alias`].
#[verifier::ext_equal]
pub enum AliasView {
    WithPassed { extra_parts: Seq<Seq<char>> },
    WithoutPassed { parts: Seq<Seq<char>>, referenced_span: Option<Span> },
}

impl View for Alias {
    type V = AliasView;

    open spec fn view(&self) -> AliasView {
        match self {
            Alias::WithPassed { extra_parts } => AliasView::WithPassed {
                extra_parts: extra_parts@.map_values(|x: String| x@),
            },
            Alias::WithoutPassed { parts, referenced_span } => AliasView::WithoutPassed {
                parts: parts@.map_values(|x: String| x@),
                referenced_span: *referenced_span,
            },
        }
    }
}

/// The mathematical value of a [`Arm`].
#[verifier::ext_equal]
pub struct ArmView {
    pub pattern: PatternView,
    pub body: SpannedExpressionView,
}

pub open spec fn arm_view(v: Arm) -> ArmView
    decreases v,
{
    ArmView {
        pattern: v.pattern@,
        body: spanned_expression_view(v.body),
    }
}

/// The values of the elements of a sequence.
pub open spec fn arm_seq(s: Seq<Arm>) -> Seq<ArmView>
    decreases s,
{
    Seq::new(
        s.len(),
        |i: int|
            if 0 <= i < s.len() {
                arm_view(s[i])
            } else {
                arbitrary()
            },
    )
}

/// The values of the elements of a sequence, one by one.
pub proof fn lemma_arm_seq(s: Seq<Arm>)
    ensures
        arm_seq(s) == s.map_values(|x: Arm| x@),
        arm_seq(s).len() == s.len(),
        forall|i: int| 0 <= i < s.len() ==> #[trigger] arm_seq(s)[i] == s[i]@,
{
    assert(arm_seq(s) =~= s.map_values(|x: Arm| x@));
}

impl View for Arm {
    type V = ArmView;

    open spec fn view(&self) -> ArmView {
        arm_view(*self)
    }
}

/// The mathematical value of a [`Pattern`].
#[verifier::ext_equal]
pub enum PatternView {
    Literal(LiteralView),
    List { items: Seq<PatternView> },
    Object { variables: Seq<PatternVariableView> },
    TaggedObject { tag: Seq<char>, variables: Seq<PatternVariableView> },
    MapEntries,
    Alias { name: Seq<char> },
    WildCard,
}

pub open spec fn pattern_view(v: Pattern) -> PatternView
    decreases v,
{
    match v {
        Pattern::Literal(a) => PatternView::Literal(a@),
        Pattern::List { items } => PatternView::List {
            items: pattern_seq(items@),
        },
        Pattern::Object { variables } => PatternView::Object {
            variables: pattern_variable_seq(variables@),
        },
        Pattern::TaggedObject { tag, variables } => PatternView::TaggedObject {
            tag: tag@,
            variables: pattern_variable_seq(variables@),
        },
        Pattern::MapEntries => PatternView::MapEntries,
        Pattern::Alias { name } => PatternView::Alias {
            name: name@,
        },
        Pattern::WildCard => PatternView::WildCard,
    }
}

/// The values of the elements of a sequence.
pub open spec fn pattern_seq(s: Seq<Pattern>) -> Seq<PatternView>
    decreases s,
{
    Seq::new(
        s.len(),
        |i: int|
            if 0 <= i < s.len() {
                pattern_view(s[i])
            } else {
                arbitrary()
            },
    )
}

/// The values of the elements of a sequence, one by one.
pub proof fn lemma_pattern_seq(s: Seq<Pattern>)
    ensures
        pattern_seq(s) == s.map_values(|x: Pattern| x@),
        pattern_seq(s).len() == s.len(),
        forall|i: int| 0 <= i < s.len() ==> #[trigger] pattern_seq(s)[i] == s[i]@,
{
    assert(pattern_seq(s) =~= s.map_values(|x: Pattern| x@));
}

impl View for Pattern {
    type V = PatternView;

    open spec fn view(&self) -> PatternView {
        pattern_view(*self)
    }
}

/// The mathematical value of a [`PatternVariable`].
#[verifier::ext_equal]
pub struct PatternVariableView {
    pub name: Seq<char>,
    pub value: Option<PatternView>,
}

pub open spec fn pattern_variable_view(v: PatternVariable) -> PatternVariableView
    decreases v,
{
    PatternVariableView {
        name: v.name@,
        value: match v.value { Some(x) => Some(pattern_view(x)), None => None },
    }
}

/// The values of the elements of a sequence.
pub open spec fn pattern_variable_seq(s: Seq<PatternVariable>) -> Seq<PatternVariableView>
    decreases s,
{
    Seq::new(
        s.len(),
        |i: int|
            if 0 <= i < s.len() {
                pattern_variable_view(s[i])
            } else {
                arbitrary()
            },
    )
}

/// The values of the elements of a sequence, one by one.
pub proof fn lemma_pattern_variable_seq(s: Seq<PatternVariable>)
    ensures
        pattern_variable_seq(s) == s.map_values(|x: PatternVariable| x@),
        pattern_variable_seq(s).len() == s.len(),
        forall|i: int| 0 <= i < s.len() ==> #[trigger] pattern_variable_seq(s)[i] == s[i]@,
{
    assert(pattern_variable_seq(s) =~= s.map_values(|x: PatternVariable| x@));
}

impl View for PatternVariable {
    type V = PatternVariableView;

    open spec fn view(&self) -> PatternVariableView {
        pattern_variable_view(*self)
    }
}

/// The mathematical value of a [`TextPart`].
#[verifier::ext_equal]
pub enum TextPartView {
    Text(Seq<char>),
    Interpolation { var: Seq<char>, referenced_span: Option<Span> },
}

impl View for TextPart {
    type V = TextPartView;

    open spec fn view(&self) -> TextPartView {
        match self {
            TextPart::Text(a) => TextPartView::Text(a@),
            TextPart::Interpolation { var, referenced_span } => TextPartView::Interpolation {
                var: var@,
                referenced_span: *referenced_span,
            },
        }
    }
}

/// The mathematical value of a [`StaticFunctionDefinition`].
#[verifier::ext_equal]
pub struct StaticFunctionDefinitionView {
    pub parameters: Seq<Seq<char>>,
    pub body: SpannedExpressionView,
}

impl View for StaticFunctionDefinition {
    type V = StaticFunctionDefinitionView;

    open spec fn view(&self) -> StaticFunctionDefinitionView {
        StaticFunctionDefinitionView {
            parameters: self.parameters@.map_values(|x: String| x@),
            body: self.body@,
        }
    }
}

/// The mathematical value of a [`ModuleData`].
#[verifier::ext_equal]
pub struct ModuleDataView {
    pub functions: Map<Seq<char>, StaticFunctionDefinitionView>,
    pub variables: Map<Seq<char>, SpannedExpressionView>,
}

impl View for ModuleData {
    type V = ModuleDataView;

    open spec fn view(&self) -> ModuleDataView {
        ModuleDataView {
            functions: self.functions@.map_values(|x: StaticFunctionDefinition| x@),
            variables: self.variables@.map_values(|x: SpannedExpression| x@),
        }
    }
}

} // verus!
