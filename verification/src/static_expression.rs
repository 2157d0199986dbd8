//! The syntax of programs after names have been resolved.
use crate::text_map::TextMap;
use vstd::prelude::*;

verus! {

/// A place in the source.
#[derive(Debug, Clone, Copy, PartialEq, Eq, Structural, Hash)]
pub struct Span {
    pub start: u64,
    pub end: u64,
}

/// The identity of a piece of a program that is kept across runs.
#[derive(Debug, Clone, Copy, PartialEq, Eq, Structural, Hash)]
pub struct PersistenceId(pub u128);

/// The operators on two values.
#[derive(Debug, Clone, Copy, PartialEq, Eq, Structural)]
pub enum BinaryOpKind {
    Add,
    Subtract,
    Multiply,
    Divide,
    Equal,
    NotEqual,
    Greater,
    GreaterOrEqual,
    Less,
    LessOrEqual,
}

/// An expression with its place in the source and its identity.
#[derive(Debug, PartialEq, Eq)]
pub struct SpannedExpression {
    pub span: Span,
    pub persistence: Option<PersistenceId>,
    pub node: Expression,
}

/// An expression of the language.
#[allow(inconsistent_fields)]
#[derive(Debug, PartialEq, Eq)]
pub enum Expression {
    Variable(Box<Variable>),
    Literal(Literal),
    List { items: Vec<SpannedExpression> },
    Object { variables: Vec<SpannedVariable> },
    TaggedObject { tag: String, variables: Vec<SpannedVariable> },
    Function { name: String, parameters: Vec<String>, body: Box<SpannedExpression> },
    FunctionCall { path: Vec<String>, arguments: Vec<SpannedArgument> },
    Alias(Alias),
    LinkSetter { alias: Alias },
    Link,
    Latest { inputs: Vec<SpannedExpression> },
    Hold { state_param: String, body: Box<SpannedExpression> },
    Then { body: Box<SpannedExpression> },
    When { arms: Vec<Arm> },
    While { arms: Vec<Arm> },
    Pipe { from: Box<SpannedExpression>, to: Box<SpannedExpression> },
    Skip,
    Block { variables: Vec<SpannedVariable>, output: Box<SpannedExpression> },
    Operator {
        op: BinaryOpKind,
        operand_a: Box<SpannedExpression>,
        operand_b: Box<SpannedExpression>,
    },
    Negate { operand: Box<SpannedExpression> },
    TextLiteral { parts: Vec<TextPart> },
    FieldAccess { path: Vec<String> },
    Unsupported,
}

/// A literal. A number is kept as the bits of its floating point form.
#[allow(inconsistent_fields)]
#[derive(Debug, PartialEq, Eq)]
pub enum Literal {
    Number(u64),
    Text(String),
    Tag(String),
}

/// A named value.
#[derive(Debug, PartialEq, Eq)]
pub struct Variable {
    pub name: String,
    pub value: SpannedExpression,
    pub is_referenced: bool,
}

/// A variable with its place in the source and its identity.
#[derive(Debug, PartialEq, Eq)]
pub struct SpannedVariable {
    pub span: Span,
    pub persistence: Option<PersistenceId>,
    pub node: Variable,
}

/// An argument of a call. Without a value it takes the piped one.
#[derive(Debug, PartialEq, Eq)]
pub struct SpannedArgument {
    pub span: Span,
    pub name: String,
    pub value: Option<SpannedExpression>,
    pub is_referenced: bool,
}

/// A reference by name.
#[derive(Debug, PartialEq, Eq)]
pub enum Alias {
    WithPassed { extra_parts: Vec<String> },
    WithoutPassed { parts: Vec<String>, referenced_span: Option<Span> },
}

/// A case of WHEN and WHILE.
#[derive(Debug, PartialEq, Eq)]
pub struct Arm {
    pub pattern: Pattern,
    pub body: SpannedExpression,
}

/// What a value is compared with.
#[derive(Debug, PartialEq, Eq)]
pub enum Pattern {
    Literal(Literal),
    List { items: Vec<Pattern> },
    Object { variables: Vec<PatternVariable> },
    TaggedObject { tag: String, variables: Vec<PatternVariable> },
    MapEntries,
    Alias { name: String },
    WildCard,
}

/// A field of a pattern.
#[derive(Debug, PartialEq, Eq)]
pub struct PatternVariable {
    pub name: String,
    pub value: Option<Pattern>,
}

/// A piece of a text literal.
#[derive(Debug, PartialEq, Eq)]
pub enum TextPart {
    Text(String),
    Interpolation { var: String, referenced_span: Option<Span> },
}

/// A function of the program.
#[derive(Debug, PartialEq, Eq)]
pub struct StaticFunctionDefinition {
    pub parameters: Vec<String>,
    pub body: SpannedExpression,
}

/// The functions and the variables of a module.
#[derive(Debug, PartialEq, Eq)]
pub struct ModuleData {
    pub functions: TextMap<StaticFunctionDefinition>,
    pub variables: TextMap<SpannedExpression>,
}

} // verus!
