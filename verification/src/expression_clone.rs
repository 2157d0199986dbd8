//! Copies of the types of the syntax.
use crate::expression_view::{
    arm_seq, pattern_seq, pattern_variable_seq, spanned_argument_seq, spanned_expression_seq,
    spanned_variable_seq,
};
use crate::semantic_clone::clone_vec_text;
use crate::static_expression::{
    Alias, Arm, Expression, Literal, ModuleData, Pattern, PatternVariable, SpannedArgument,
    SpannedExpression, SpannedVariable, StaticFunctionDefinition, TextPart, Variable,
};
use crate::text_map::{TextMap, lemma_pairs_map_values};
use vstd::prelude::*;
use vstd::string::*;

verus! {

pub(crate) fn clone_vec_spanned_expression(
    s: &Vec<SpannedExpression>,
) -> (r: Vec<SpannedExpression>)
    ensures
        r@.len() == s@.len(),
        forall|i: int| 0 <= i < s@.len() ==> (#[trigger] r@[i])@ == s@[i]@,
        spanned_expression_seq(r@) == spanned_expression_seq(s@),
        r@.map_values(|x: SpannedExpression| x@) == s@.map_values(|x: SpannedExpression| x@),
    decreases s,
{
    let mut out: Vec<SpannedExpression> = Vec::new();
    let mut i: usize = 0;
    while i < s.len()
        invariant
            i == out@.len(),
            i <= s@.len(),
            forall|j: int| 0 <= j < i ==> (#[trigger] out@[j])@ == s@[j]@,
        decreases s@.len() - i,
    {
        out.push(s[i].clone());
        i = i + 1;
    }
    proof {
        assert(spanned_expression_seq(out@) =~= spanned_expression_seq(s@));
    }
    out
}

pub(crate) fn clone_vec_spanned_variable(s: &Vec<SpannedVariable>) -> (r: Vec<SpannedVariable>)
    ensures
        r@.len() == s@.len(),
        forall|i: int| 0 <= i < s@.len() ==> (#[trigger] r@[i])@ == s@[i]@,
        spanned_variable_seq(r@) == spanned_variable_seq(s@),
        r@.map_values(|x: SpannedVariable| x@) == s@.map_values(|x: SpannedVariable| x@),
    decreases s,
{
    let mut out: Vec<SpannedVariable> = Vec::new();
    let mut i: usize = 0;
    while i < s.len()
        invariant
            i == out@.len(),
            i <= s@.len(),
            forall|j: int| 0 <= j < i ==> (#[trigger] out@[j])@ == s@[j]@,
        decreases s@.len() - i,
    {
        out.push(s[i].clone());
        i = i + 1;
    }
    proof {
        assert(spanned_variable_seq(out@) =~= spanned_variable_seq(s@));
    }
    out
}

pub(crate) fn clone_vec_spanned_argument(s: &Vec<SpannedArgument>) -> (r: Vec<SpannedArgument>)
    ensures
        r@.len() == s@.len(),
        forall|i: int| 0 <= i < s@.len() ==> (#[trigger] r@[i])@ == s@[i]@,
        spanned_argument_seq(r@) == spanned_argument_seq(s@),
        r@.map_values(|x: SpannedArgument| x@) == s@.map_values(|x: SpannedArgument| x@),
    decreases s,
{
    let mut out: Vec<SpannedArgument> = Vec::new();
    let mut i: usize = 0;
    while i < s.len()
        invariant
            i == out@.len(),
            i <= s@.len(),
            forall|j: int| 0 <= j < i ==> (#[trigger] out@[j])@ == s@[j]@,
        decreases s@.len() - i,
    {
        out.push(s[i].clone());
        i = i + 1;
    }
    proof {
        assert(spanned_argument_seq(out@) =~= spanned_argument_seq(s@));
    }
    out
}

pub(crate) fn clone_vec_arm(s: &Vec<Arm>) -> (r: Vec<Arm>)
    ensures
        r@.len() == s@.len(),
        forall|i: int| 0 <= i < s@.len() ==> (#[trigger] r@[i])@ == s@[i]@,
        arm_seq(r@) == arm_seq(s@),
        r@.map_values(|x: Arm| x@) == s@.map_values(|x: Arm| x@),
    decreases s,
{
    let mut out: Vec<Arm> = Vec::new();
    let mut i: usize = 0;
    while i < s.len()
        invariant
            i == out@.len(),
            i <= s@.len(),
            forall|j: int| 0 <= j < i ==> (#[trigger] out@[j])@ == s@[j]@,
        decreases s@.len() - i,
    {
        out.push(s[i].clone());
        i = i + 1;
    }
    proof {
        assert(arm_seq(out@) =~= arm_seq(s@));
    }
    out
}

pub(crate) fn clone_vec_text_part(s: &Vec<TextPart>) -> (r: Vec<TextPart>)
    ensures
        r@.len() == s@.len(),
        forall|i: int| 0 <= i < s@.len() ==> (#[trigger] r@[i])@ == s@[i]@,
        r@.map_values(|x: TextPart| x@) == s@.map_values(|x: TextPart| x@),
{
    let mut out: Vec<TextPart> = Vec::new();
    let mut i: usize = 0;
    while i < s.len()
        invariant
            i == out@.len(),
            i <= s@.len(),
            forall|j: int| 0 <= j < i ==> (#[trigger] out@[j])@ == s@[j]@,
        decreases s@.len() - i,
    {
        out.push(s[i].clone());
        i = i + 1;
    }
    out
}

pub(crate) fn clone_opt_spanned_expression(
    s: &Option<SpannedExpression>,
) -> (r: Option<SpannedExpression>)
    ensures
        match (*s, r) { (Some(x), Some(y)) => x@ == y@, (None, None) => true, _ => false },
    decreases s,
{
    match s {
        Some(x) => Some(x.clone()),
        None => None,
    }
}

pub(crate) fn clone_vec_pattern(s: &Vec<Pattern>) -> (r: Vec<Pattern>)
    ensures
        r@.len() == s@.len(),
        forall|i: int| 0 <= i < s@.len() ==> (#[trigger] r@[i])@ == s@[i]@,
        pattern_seq(r@) == pattern_seq(s@),
        r@.map_values(|x: Pattern| x@) == s@.map_values(|x: Pattern| x@),
    decreases s,
{
    let mut out: Vec<Pattern> = Vec::new();
    let mut i: usize = 0;
    while i < s.len()
        invariant
            i == out@.len(),
            i <= s@.len(),
            forall|j: int| 0 <= j < i ==> (#[trigger] out@[j])@ == s@[j]@,
        decreases s@.len() - i,
    {
        out.push(s[i].clone());
        i = i + 1;
    }
    proof {
        assert(pattern_seq(out@) =~= pattern_seq(s@));
    }
    out
}

pub(crate) fn clone_vec_pattern_variable(s: &Vec<PatternVariable>) -> (r: Vec<PatternVariable>)
    ensures
        r@.len() == s@.len(),
        forall|i: int| 0 <= i < s@.len() ==> (#[trigger] r@[i])@ == s@[i]@,
        pattern_variable_seq(r@) == pattern_variable_seq(s@),
        r@.map_values(|x: PatternVariable| x@) == s@.map_values(|x: PatternVariable| x@),
    decreases s,
{
    let mut out: Vec<PatternVariable> = Vec::new();
    let mut i: usize = 0;
    while i < s.len()
        invariant
            i == out@.len(),
            i <= s@.len(),
            forall|j: int| 0 <= j < i ==> (#[trigger] out@[j])@ == s@[j]@,
        decreases s@.len() - i,
    {
        out.push(s[i].clone());
        i = i + 1;
    }
    proof {
        assert(pattern_variable_seq(out@) =~= pattern_variable_seq(s@));
    }
    out
}

pub(crate) fn clone_opt_pattern(s: &Option<Pattern>) -> (r: Option<Pattern>)
    ensures
        match (*s, r) { (Some(x), Some(y)) => x@ == y@, (None, None) => true, _ => false },
    decreases s,
{
    match s {
        Some(x) => Some(x.clone()),
        None => None,
    }
}

pub(crate) fn clone_map_static_function_definition(
    s: &TextMap<StaticFunctionDefinition>,
) -> (r: TextMap<StaticFunctionDefinition>)
    ensures
        r.entries@.len() == s.entries@.len(),
        forall|j: int|
            0 <= j < s.entries@.len() ==> (#[trigger] r.entries@[j]).0@ == s.entries@[j].0@
                && (r.entries@[j].1)@ == s.entries@[j].1@,
        r@.map_values(|x: StaticFunctionDefinition| x@)
            == s@.map_values(|x: StaticFunctionDefinition| x@),
{
    proof {
        use_type_invariant(s);
    }
    let mut out: Vec<(String, StaticFunctionDefinition)> = Vec::new();
    let mut i: usize = 0;
    while i < s.entries.len()
        invariant
            i == out@.len(),
            i <= s.entries@.len(),
            forall|j: int|
                0 <= j < i ==> (#[trigger] out@[j]).0@ == s.entries@[j].0@
                    && (out@[j].1)@ == s.entries@[j].1@,
        decreases s.entries@.len() - i,
    {
        out.push((s.entries[i].0.clone(), s.entries[i].1.clone()));
        i = i + 1;
    }
    let r = TextMap::from_ordered(out);
    proof {
        use_type_invariant(&r);
        let f = |x: StaticFunctionDefinition| x@;
        let pairs = s.entries@.map_values(|e: (String, StaticFunctionDefinition)| (e.0@, f(e.1)));
        lemma_pairs_map_values(s.entries@, pairs, f);
        assert forall|i: int| 0 <= i < r.entries@.len() implies (#[trigger] pairs[i]).0
            == r.entries@[i].0@ && pairs[i].1 == f(r.entries@[i].1) by {
            assert(f(s.entries@[i].1) =~= f(r.entries@[i].1));
        }
        lemma_pairs_map_values(r.entries@, pairs, f);
    }
    r
}

pub(crate) fn clone_map_spanned_expression(
    s: &TextMap<SpannedExpression>,
) -> (r: TextMap<SpannedExpression>)
    ensures
        r.entries@.len() == s.entries@.len(),
        forall|j: int|
            0 <= j < s.entries@.len() ==> (#[trigger] r.entries@[j]).0@ == s.entries@[j].0@
                && (r.entries@[j].1)@ == s.entries@[j].1@,
        r@.map_values(|x: SpannedExpression| x@) == s@.map_values(|x: SpannedExpression| x@),
    decreases s,
{
    proof {
        use_type_invariant(s);
    }
    let mut out: Vec<(String, SpannedExpression)> = Vec::new();
    let mut i: usize = 0;
    while i < s.entries.len()
        invariant
            i == out@.len(),
            i <= s.entries@.len(),
            forall|j: int|
                0 <= j < i ==> (#[trigger] out@[j]).0@ == s.entries@[j].0@
                    && (out@[j].1)@ == s.entries@[j].1@,
        decreases s.entries@.len() - i,
    {
        out.push((s.entries[i].0.clone(), s.entries[i].1.clone()));
        i = i + 1;
    }
    let r = TextMap::from_ordered(out);
    proof {
        use_type_invariant(&r);
        let f = |x: SpannedExpression| x@;
        let pairs = s.entries@.map_values(|e: (String, SpannedExpression)| (e.0@, f(e.1)));
        lemma_pairs_map_values(s.entries@, pairs, f);
        assert forall|i: int| 0 <= i < r.entries@.len() implies (#[trigger] pairs[i]).0
            == r.entries@[i].0@ && pairs[i].1 == f(r.entries@[i].1) by {
            assert(f(s.entries@[i].1) =~= f(r.entries@[i].1));
        }
        lemma_pairs_map_values(r.entries@, pairs, f);
    }
    r
}

impl Clone for SpannedExpression {
    fn clone(&self) -> (r: Self)
        ensures
            r@ == self@,
        decreases self,
    {
        let r = SpannedExpression {
            span: self.span,
            persistence: self.persistence,
            node: self.node.clone(),
        };
        proof {
        }
        r
    }
}

impl Clone for Expression {
    fn clone(&self) -> (r: Self)
        ensures
            r@ == self@,
        decreases self,
    {
        match self {
            Expression::Variable(a) => Expression::Variable(Box::new((**a).clone())),
            Expression::Literal(a) => Expression::Literal(a.clone()),
            Expression::List { items } => Expression::List {
                items: clone_vec_spanned_expression(items),
            },
            Expression::Object { variables } => Expression::Object {
                variables: clone_vec_spanned_variable(variables),
            },
            Expression::TaggedObject { tag, variables } => Expression::TaggedObject {
                tag: tag.clone(),
                variables: clone_vec_spanned_variable(variables),
            },
            Expression::Function { name, parameters, body } => Expression::Function {
                name: name.clone(),
                parameters: clone_vec_text(parameters),
                body: Box::new((**body).clone()),
            },
            Expression::FunctionCall { path, arguments } => Expression::FunctionCall {
                path: clone_vec_text(path),
                arguments: clone_vec_spanned_argument(arguments),
            },
            Expression::Alias(a) => Expression::Alias(a.clone()),
            Expression::LinkSetter { alias } => Expression::LinkSetter { alias: alias.clone() },
            Expression::Link => Expression::Link,
            Expression::Latest { inputs } => Expression::Latest {
                inputs: clone_vec_spanned_expression(inputs),
            },
            Expression::Hold { state_param, body } => Expression::Hold {
                state_param: state_param.clone(),
                body: Box::new((**body).clone()),
            },
            Expression::Then { body } => Expression::Then { body: Box::new((**body).clone()) },
            Expression::When { arms } => Expression::When { arms: clone_vec_arm(arms) },
            Expression::While { arms } => Expression::While { arms: clone_vec_arm(arms) },
            Expression::Pipe { from, to } => Expression::Pipe {
                from: Box::new((**from).clone()),
                to: Box::new((**to).clone()),
            },
            Expression::Skip => Expression::Skip,
            Expression::Block { variables, output } => Expression::Block {
                variables: clone_vec_spanned_variable(variables),
                output: Box::new((**output).clone()),
            },
            Expression::Operator { op, operand_a, operand_b } => Expression::Operator {
                op: *op,
                operand_a: Box::new((**operand_a).clone()),
                operand_b: Box::new((**operand_b).clone()),
            },
            Expression::Negate { operand } => Expression::Negate {
                operand: Box::new((**operand).clone()),
            },
            Expression::TextLiteral { parts } => Expression::TextLiteral {
                parts: clone_vec_text_part(parts),
            },
            Expression::FieldAccess { path } => Expression::FieldAccess {
                path: clone_vec_text(path),
            },
            Expression::Unsupported => Expression::Unsupported,
        }
    }
}

impl Clone for Literal {
    fn clone(&self) -> (r: Self)
        ensures
            r@ == self@,
    {
        match self {
            Literal::Number(a) => Literal::Number(*a),
            Literal::Text(a) => Literal::Text(a.clone()),
            Literal::Tag(a) => Literal::Tag(a.clone()),
        }
    }
}

impl Clone for Variable {
    fn clone(&self) -> (r: Self)
        ensures
            r@ == self@,
        decreases self,
    {
        let r = Variable {
            name: self.name.clone(),
            value: self.value.clone(),
            is_referenced: self.is_referenced,
        };
        proof {
        }
        r
    }
}

impl Clone for SpannedVariable {
    fn clone(&self) -> (r: Self)
        ensures
            r@ == self@,
        decreases self,
    {
        let r = SpannedVariable {
            span: self.span,
            persistence: self.persistence,
            node: self.node.clone(),
        };
        proof {
        }
        r
    }
}

impl Clone for SpannedArgument {
    fn clone(&self) -> (r: Self)
        ensures
            r@ == self@,
        decreases self,
    {
        let r = SpannedArgument {
            span: self.span,
            name: self.name.clone(),
            value: clone_opt_spanned_expression(&self.value),
            is_referenced: self.is_referenced,
        };
        proof {
        }
        r
    }
}

impl Clone for Alias {
    fn clone(&self) -> (r: Self)
        ensures
            r@ == self@,
    {
        match self {
            Alias::WithPassed { extra_parts } => Alias::WithPassed {
                extra_parts: clone_vec_text(extra_parts),
            },
            Alias::WithoutPassed { parts, referenced_span } => Alias::WithoutPassed {
                parts: clone_vec_text(parts),
                referenced_span: *referenced_span,
            },
        }
    }
}

impl Clone for Arm {
    fn clone(&self) -> (r: Self)
        ensures
            r@ == self@,
        decreases self,
    {
        let r = Arm {
            pattern: self.pattern.clone(),
            body: self.body.clone(),
        };
        proof {
        }
        r
    }
}

impl Clone for Pattern {
    fn clone(&self) -> (r: Self)
        ensures
            r@ == self@,
        decreases self,
    {
        match self {
            Pattern::Literal(a) => Pattern::Literal(a.clone()),
            Pattern::List { items } => Pattern::List { items: clone_vec_pattern(items) },
            Pattern::Object { variables } => Pattern::Object {
                variables: clone_vec_pattern_variable(variables),
            },
            Pattern::TaggedObject { tag, variables } => Pattern::TaggedObject {
                tag: tag.clone(),
                variables: clone_vec_pattern_variable(variables),
            },
            Pattern::MapEntries => Pattern::MapEntries,
            Pattern::Alias { name } => Pattern::Alias { name: name.clone() },
            Pattern::WildCard => Pattern::WildCard,
        }
    }
}

impl Clone for PatternVariable {
    fn clone(&self) -> (r: Self)
        ensures
            r@ == self@,
        decreases self,
    {
        let r = PatternVariable {
            name: self.name.clone(),
            value: clone_opt_pattern(&self.value),
        };
        proof {
        }
        r
    }
}

impl Clone for TextPart {
    fn clone(&self) -> (r: Self)
        ensures
            r@ == self@,
    {
        match self {
            TextPart::Text(a) => TextPart::Text(a.clone()),
            TextPart::Interpolation { var, referenced_span } => TextPart::Interpolation {
                var: var.clone(),
                referenced_span: *referenced_span,
            },
        }
    }
}

impl Clone for StaticFunctionDefinition {
    fn clone(&self) -> (r: Self)
        ensures
            r@ == self@,
    {
        StaticFunctionDefinition {
            parameters: clone_vec_text(&self.parameters),
            body: self.body.clone(),
        }
    }
}

impl Clone for ModuleData {
    fn clone(&self) -> (r: Self)
        ensures
            r@ == self@,
    {
        ModuleData {
            functions: clone_map_static_function_definition(&self.functions),
            variables: clone_map_spanned_expression(&self.variables),
        }
    }
}

} // verus!
