//! Evaluating whole programs and single expressions.
use crate::contexts::{root_context, span_name, span_text};
use crate::evaluation::{MOST_NESTED_CALLS, evaluated};
use crate::evaluation_parts::variable_seq;
use crate::evaluation_state::empty_plan;
use crate::evaluator::evaluate_within;
use crate::expression_view::{
    ExpressionView, SpannedExpressionView, SpannedVariableView, StaticFunctionDefinitionView,
};
use crate::plan::{
    ActorContext, ActorNode, ActorSpec, EvaluationContext, FunctionRegistry, PersistenceKey, Plan,
    Registration, VariableSpec,
};
use crate::plan_view::{
    ActorContextView, ActorNodeView, ActorSpecView, EvaluationContextView, FunctionRegistryView,
    PlanView, RegistrationView, VariableSpecView,
};
use crate::semantic_clone::clone_vec_text;
use crate::static_expression::{
    Expression, Span, SpannedExpression, SpannedVariable, StaticFunctionDefinition, Variable,
};
use crate::text_map::lemma_pairs_map_has;
use vstd::prelude::*;
use vstd::string::*;

verus! {

/// The variables and the functions of a program.
pub struct TopLevel {
    pub variables: Seq<SpannedVariableView>,
    pub functions: Map<Seq<char>, StaticFunctionDefinitionView>,
}

/// The message about something else at the top of a program.
pub open spec fn not_top_level(span: Span) -> Seq<char> {
    "Only variables or functions expected at top level (span: "@ + span_name(span) + ")"@
}

/// The variables and the functions among the first `n` expressions of a program, on top of
/// functions that are known already.
pub open spec fn top_level(
    expressions: Seq<SpannedExpressionView>,
    functions: Map<Seq<char>, StaticFunctionDefinitionView>,
    n: nat,
) -> Result<TopLevel, Seq<char>>
    decreases n,
{
    if n == 0 {
        Ok(TopLevel { variables: Seq::empty(), functions })
    } else {
        match top_level(expressions, functions, (n - 1) as nat) {
            Err(e) => Err(e),
            Ok(before) => {
                let e = expressions[n - 1];
                match e.node {
                    ExpressionView::Variable(variable) => Ok(
                        TopLevel {
                            variables: before.variables.push(
                                SpannedVariableView {
                                    span: e.span,
                                    persistence: e.persistence,
                                    node: *variable,
                                },
                            ),
                            ..before
                        },
                    ),
                    ExpressionView::Function { name, parameters, body } => Ok(
                        TopLevel {
                            functions: before.functions.insert(
                                name,
                                StaticFunctionDefinitionView { parameters, body: *body },
                            ),
                            ..before
                        },
                    ),
                    _ => Err(not_top_level(e.span)),
                }
            },
        }
    }
}

/// The context of an expression at the top, given the functions that it sees.
pub open spec fn top_context(
    context: ActorContextView,
    functions: Map<Seq<char>, StaticFunctionDefinitionView>,
) -> EvaluationContextView {
    EvaluationContextView {
        actor_context: context,
        reference_connector: true,
        link_connector: true,
        pass_through_connector: true,
        function_registry_snapshot: if functions == Map::<
            Seq<char>,
            StaticFunctionDefinitionView,
        >::empty() {
            None
        } else {
            Some(FunctionRegistryView { functions })
        },
    }
}

/// The plan after an expression was evaluated at the top, and its actor.
#[verifier::opaque]
pub open spec fn top_expression(
    depth: nat,
    plan: PlanView,
    e: SpannedExpressionView,
    context: ActorContextView,
    functions: Map<Seq<char>, StaticFunctionDefinitionView>,
) -> Result<(PlanView, u64), Seq<char>> {
    match evaluated(depth, plan, e, top_context(context, functions)) {
        Err(message) => Err(message),
        Ok(done) => match done.1 {
            None => Err("Top-level expression cannot be SKIP"@),
            Some(actor) => Ok((done.0, actor)),
        },
    }
}

/// The plan with one more registration.
pub open spec fn with_registration(plan: PlanView, registration: RegistrationView) -> PlanView {
    PlanView { registrations: plan.registrations.push(registration), ..plan }
}

/// The plan after a variable of a program was evaluated, and the variable.
#[verifier::opaque]
pub open spec fn top_variable(
    depth: nat,
    plan: PlanView,
    var: SpannedVariableView,
    functions: Map<Seq<char>, StaticFunctionDefinitionView>,
) -> Result<(PlanView, VariableSpecView), Seq<char>> {
    let context = root_context();
    let is_link = var.node.value.node is Link;
    match var.persistence {
        None => Err("Failed to get Persistence"@),
        Some(id) => {
            let key = PersistenceKey::Stored(id);
            let value = if is_link {
                let node = ActorNodeView {
                    actor: ActorSpecView::LinkValue,
                    key,
                    span: var.span,
                    context,
                };
                Ok(
                    (
                        PlanView { actors: plan.actors.push(node), ..plan },
                        plan.actors.len() as u64,
                    ),
                )
            } else {
                top_expression(depth, plan, var.node.value, context, functions)
            };
            match value {
                Err(message) => Err(message),
                Ok(made) => {
                    let known = with_registration(
                        made.0,
                        RegistrationView::Referenceable { span: var.span, actor: made.1 },
                    );
                    let linked = if is_link {
                        with_registration(
                            known,
                            RegistrationView::Link {
                                span: var.span,
                                scope: context.scope,
                                actor: made.1,
                            },
                        )
                    } else {
                        known
                    };
                    Ok(
                        (
                            linked,
                            VariableSpecView {
                                name: var.node.name,
                                span: var.span,
                                key,
                                value: made.1,
                                is_link,
                                source: None,
                            },
                        ),
                    )
                },
            }
        },
    }
}

/// The plan after the first `n` variables of a program were evaluated, and these.
pub open spec fn top_variables(
    depth: nat,
    plan: PlanView,
    variables: Seq<SpannedVariableView>,
    n: nat,
    functions: Map<Seq<char>, StaticFunctionDefinitionView>,
) -> Result<(PlanView, Seq<VariableSpecView>), Seq<char>>
    decreases n,
{
    if n == 0 {
        Ok((plan, Seq::empty()))
    } else {
        match top_variables(depth, plan, variables, (n - 1) as nat, functions) {
            Err(message) => Err(message),
            Ok(before) => match top_variable(depth, before.0, variables[n - 1], functions) {
                Err(message) => Err(message),
                Ok(made) => Ok((made.0, before.1.push(made.1))),
            },
        }
    }
}

/// What a program leads to: a plan, the variables of its root object and its functions.
pub struct Evaluated {
    pub plan: PlanView,
    pub variables: Seq<VariableSpecView>,
    pub functions: Map<Seq<char>, StaticFunctionDefinitionView>,
}

/// What a program leads to. All functions are known before the first variable is evaluated.
pub open spec fn program(
    depth: nat,
    expressions: Seq<SpannedExpressionView>,
    functions: Map<Seq<char>, StaticFunctionDefinitionView>,
) -> Result<Evaluated, Seq<char>> {
    match top_level(expressions, functions, expressions.len()) {
        Err(message) => Err(message),
        Ok(top) => match top_variables(
            depth,
            empty_plan(),
            top.variables,
            top.variables.len(),
            top.functions,
        ) {
            Err(message) => Err(message),
            Ok(done) => Ok(
                Evaluated { plan: done.0, variables: done.1, functions: top.functions },
            ),
        },
    }
}

/// The outcome of the evaluation of a program.
#[derive(Debug)]
pub struct EvaluatedProgram {
    pub plan: Plan,
    pub variables: Vec<VariableSpec>,
    pub function_registry: FunctionRegistry,
}

/// The mathematical value of an [`EvaluatedProgram`].
pub open spec fn evaluated_program(p: EvaluatedProgram) -> Evaluated {
    Evaluated {
        plan: p.plan@,
        variables: variable_seq(p.variables@),
        functions: p.function_registry@.functions,
    }
}

/// The views of expressions.
pub open spec fn expression_seq(expressions: Seq<SpannedExpression>) -> Seq<SpannedExpressionView> {
    expressions.map_values(|x: SpannedExpression| x@)
}

fn registry_is_empty(registry: &FunctionRegistry) -> (r: bool)
    ensures
        r == (registry@.functions == Map::<Seq<char>, StaticFunctionDefinitionView>::empty()),
{
    proof {
        use_type_invariant(&registry.functions);
        let entries = registry.functions.entries@;
        if entries.len() == 0 {
            assert(registry@.functions =~= Map::<Seq<char>, StaticFunctionDefinitionView>::empty());
        } else {
            lemma_pairs_map_has(entries, 0);
            assert(registry@.functions.contains_key(entries[0].0@));
        }
    }
    registry.functions.entries.len() == 0
}

/// Evaluates an expression at the top.
fn static_spanned_expression_into_value_actor(
    plan: &mut Plan,
    expression: &SpannedExpression,
    actor_context: &ActorContext,
    function_registry: &FunctionRegistry,
) -> (r: Result<u64, String>)
    ensures
        match r {
            Ok(actor) => top_expression(
                MOST_NESTED_CALLS as nat,
                old(plan)@,
                expression@,
                actor_context@,
                function_registry@.functions,
            ) == Ok::<(PlanView, u64), Seq<char>>((final(plan)@, actor)),
            Err(e) => top_expression(
                MOST_NESTED_CALLS as nat,
                old(plan)@,
                expression@,
                actor_context@,
                function_registry@.functions,
            ) == Err::<(PlanView, u64), Seq<char>>(e@),
        },
{
    reveal(top_expression);
    let mut ctx = EvaluationContext::new(actor_context.clone());
    if !registry_is_empty(function_registry) {
        ctx.function_registry_snapshot = Some(function_registry.clone());
    }
    proof {
        assert(ctx@ =~= top_context(actor_context@, function_registry@.functions));
    }
    match evaluate_within(plan, expression, &ctx, MOST_NESTED_CALLS) {
        Err(e) => Err(e),
        Ok(None) => Err("Top-level expression cannot be SKIP".to_owned()),
        Ok(Some(actor)) => Ok(actor),
    }
}

/// Evaluates a single expression that sees no functions. One that cannot be evaluated leaves the
/// plan as it was.
pub fn evaluate_static_expression(
    plan: &mut Plan,
    static_expr: &SpannedExpression,
    actor_context: &ActorContext,
) -> (r: Result<u64, String>)
    ensures
        match r {
            Ok(actor) => top_expression(
                MOST_NESTED_CALLS as nat,
                old(plan)@,
                static_expr@,
                actor_context@,
                Map::empty(),
            ) == Ok::<(PlanView, u64), Seq<char>>((final(plan)@, actor)),
            Err(e) => final(plan)@ == old(plan)@ && top_expression(
                MOST_NESTED_CALLS as nat,
                old(plan)@,
                static_expr@,
                actor_context@,
                Map::empty(),
            ) == Err::<(PlanView, u64), Seq<char>>(e@),
        },
{
    evaluate_static_expression_with_registry(plan, static_expr, actor_context, None)
}

/// The functions of an optional snapshot.
pub open spec fn snapshot_functions(snapshot: Option<&FunctionRegistry>) -> Map<
    Seq<char>,
    StaticFunctionDefinitionView,
> {
    match snapshot {
        Some(registry) => registry@.functions,
        None => Map::empty(),
    }
}

/// Evaluates a single expression that sees the functions of a snapshot. One that cannot be
/// evaluated leaves the plan as it was.
pub fn evaluate_static_expression_with_registry(
    plan: &mut Plan,
    static_expr: &SpannedExpression,
    actor_context: &ActorContext,
    function_registry_snapshot: Option<&FunctionRegistry>,
) -> (r: Result<u64, String>)
    ensures
        match r {
            Ok(actor) => top_expression(
                MOST_NESTED_CALLS as nat,
                old(plan)@,
                static_expr@,
                actor_context@,
                snapshot_functions(function_registry_snapshot),
            ) == Ok::<(PlanView, u64), Seq<char>>((final(plan)@, actor)),
            Err(e) => final(plan)@ == old(plan)@ && top_expression(
                MOST_NESTED_CALLS as nat,
                old(plan)@,
                static_expr@,
                actor_context@,
                snapshot_functions(function_registry_snapshot),
            ) == Err::<(PlanView, u64), Seq<char>>(e@),
        },
{
    let before = plan.clone();
    let done = match function_registry_snapshot {
        Some(registry) => static_spanned_expression_into_value_actor(
            plan,
            static_expr,
            actor_context,
            registry,
        ),
        None => static_spanned_expression_into_value_actor(
            plan,
            static_expr,
            actor_context,
            &FunctionRegistry::new(),
        ),
    };
    if done.is_err() {
        *plan = before;
    }
    done
}

fn add_registration(plan: &mut Plan, registration: Registration)
    ensures
        final(plan)@ == with_registration(old(plan)@, registration@),
{
    let ghost before = plan@;
    plan.registrations.push(registration);
    proof {
        assert(plan@.registrations =~= before.registrations.push(registration@));
    }
}

/// Evaluates a variable of a program.
fn static_spanned_variable_into_variable(
    plan: &mut Plan,
    variable: &SpannedVariable,
    function_registry: &FunctionRegistry,
) -> (r: Result<VariableSpec, String>)
    ensures
        match r {
            Ok(v) => top_variable(
                MOST_NESTED_CALLS as nat,
                old(plan)@,
                variable@,
                function_registry@.functions,
            ) == Ok::<(PlanView, VariableSpecView), Seq<char>>((final(plan)@, v@)),
            Err(e) => top_variable(
                MOST_NESTED_CALLS as nat,
                old(plan)@,
                variable@,
                function_registry@.functions,
            ) == Err::<(PlanView, VariableSpecView), Seq<char>>(e@),
        },
{
    reveal(top_variable);
    proof {
        assert(variable@.node == variable.node@);
        assert(variable.node@.value == variable.node.value@);
        assert(variable.node.value@.node == variable.node.value.node@);
    }
    let ghost start = plan@;
    let id = match variable.persistence {
        None => {
            return Err("Failed to get Persistence".to_owned());
        },
        Some(id) => id,
    };
    let key = PersistenceKey::Stored(id);
    let context = ActorContext::default();
    let is_link = match &variable.node.value.node {
        Expression::Link => true,
        _ => false,
    };
    let value: u64 = if is_link {
        proof {
            assert(start.actors.len() == plan.actors@.len());
        }
        let actor: u64 = plan.actors.len() as u64;
        let node = ActorNode {
            actor: ActorSpec::LinkValue,
            key,
            span: variable.span,
            context: context.clone(),
        };
        plan.actors.push(node);
        proof {
            assert(plan@.actors =~= start.actors.push(node@));
        }
        actor
    } else {
        match static_spanned_expression_into_value_actor(
            plan,
            &variable.node.value,
            &context,
            function_registry,
        ) {
            Err(e) => {
                return Err(e);
            },
            Ok(actor) => actor,
        }
    };
    add_registration(plan, Registration::Referenceable { span: variable.span, actor: value });
    if is_link {
        add_registration(
            plan,
            Registration::Link { span: variable.span, scope: context.scope.clone(), actor: value },
        );
    }
    Ok(
        VariableSpec {
            name: variable.node.name.clone(),
            span: variable.span,
            key,
            value,
            is_link,
            source: None,
        },
    )
}

proof fn lemma_top_level_error(
    expressions: Seq<SpannedExpressionView>,
    functions: Map<Seq<char>, StaticFunctionDefinitionView>,
    i: nat,
    n: nat,
    e: Seq<char>,
)
    requires
        i <= n,
        top_level(expressions, functions, i) == Err::<TopLevel, Seq<char>>(e),
    ensures
        top_level(expressions, functions, n) == Err::<TopLevel, Seq<char>>(e),
    decreases n,
{
    if i < n {
        lemma_top_level_error(expressions, functions, i, (n - 1) as nat, e);
    }
}

proof fn lemma_top_variables_error(
    depth: nat,
    plan: PlanView,
    variables: Seq<SpannedVariableView>,
    i: nat,
    n: nat,
    functions: Map<Seq<char>, StaticFunctionDefinitionView>,
    e: Seq<char>,
)
    requires
        i <= n,
        top_variables(depth, plan, variables, i, functions) == Err::<
            (PlanView, Seq<VariableSpecView>),
            Seq<char>,
        >(e),
    ensures
        top_variables(depth, plan, variables, n, functions) == Err::<
            (PlanView, Seq<VariableSpecView>),
            Seq<char>,
        >(e),
    decreases n,
{
    if i < n {
        lemma_top_variables_error(depth, plan, variables, i, (n - 1) as nat, functions, e);
    }
}

/// Evaluates a program on top of functions that are known already.
pub fn evaluate_with_registry(
    expressions: &Vec<SpannedExpression>,
    function_registry: FunctionRegistry,
) -> (r: Result<EvaluatedProgram, String>)
    ensures
        match r {
            Ok(p) => program(
                MOST_NESTED_CALLS as nat,
                expression_seq(expressions@),
                function_registry@.functions,
            ) == Ok::<Evaluated, Seq<char>>(evaluated_program(p)),
            Err(e) => program(
                MOST_NESTED_CALLS as nat,
                expression_seq(expressions@),
                function_registry@.functions,
            ) == Err::<Evaluated, Seq<char>>(e@),
        },
{
    let ghost all = expression_seq(expressions@);
    let ghost known = function_registry@.functions;
    let mut registry = function_registry;
    let mut variables: Vec<SpannedVariable> = Vec::new();
    let ghost vf = |x: SpannedVariable| x@;
    proof {
        assert(variables@.map_values(vf) =~= Seq::<SpannedVariableView>::empty());
    }
    let mut i: usize = 0;
    while i < expressions.len()
        invariant
            i <= expressions@.len(),
            all == expression_seq(expressions@),
            known == function_registry@.functions,
            vf == (|x: SpannedVariable| x@),
            top_level(all, known, i as nat) == Ok::<TopLevel, Seq<char>>(
                TopLevel {
                    variables: variables@.map_values(vf),
                    functions: registry@.functions,
                },
            ),
        decreases expressions@.len() - i,
    {
        let expr = &expressions[i];
        proof {
            assert(all[i as int] == expr@);
            assert(expr@.node == expr.node@);
        }
        match &expr.node {
            Expression::Variable(variable) => {
                let ghost before = variables@.map_values(vf);
                let spanned = SpannedVariable {
                    span: expr.span,
                    persistence: expr.persistence,
                    node: (**variable).clone(),
                };
                proof {
                    assert(spanned@.node == spanned.node@);
                }
                variables.push(spanned);
                proof {
                    assert(variables@.map_values(vf) =~= before.push(spanned@));
                }
            },
            Expression::Function { name, parameters, body } => {
                let definition = StaticFunctionDefinition {
                    parameters: clone_vec_text(parameters),
                    body: (**body).clone(),
                };
                registry.insert(name.clone(), definition);
            },
            _ => {
                let mut text = "Only variables or functions expected at top level (span: ".to_owned();
                text.append(span_text(expr.span).as_str());
                text.append(")");
                proof {
                    assert(top_level(all, known, (i + 1) as nat) == Err::<TopLevel, Seq<char>>(
                        text@,
                    ));
                    lemma_top_level_error(all, known, (i + 1) as nat, all.len(), text@);
                }
                return Err(text);
            },
        }
        i = i + 1;
    }
    let ghost vars = variables@.map_values(vf);
    let ghost functions = registry@.functions;
    let mut plan = Plan { actors: Vec::new(), registrations: Vec::new(), fresh: 0 };
    let mut out: Vec<VariableSpec> = Vec::new();
    proof {
        assert(plan@ =~= empty_plan());
        assert(variable_seq(out@) =~= Seq::<VariableSpecView>::empty());
    }
    let mut k: usize = 0;
    while k < variables.len()
        invariant
            k <= variables@.len(),
            vf == (|x: SpannedVariable| x@),
            vars == variables@.map_values(vf),
            functions == registry@.functions,
            all == expression_seq(expressions@),
            known == function_registry@.functions,
            top_level(all, known, all.len()) == Ok::<TopLevel, Seq<char>>(
                TopLevel { variables: vars, functions },
            ),
            top_variables(
                MOST_NESTED_CALLS as nat,
                empty_plan(),
                vars,
                k as nat,
                functions,
            ) == Ok::<
                (PlanView, Seq<VariableSpecView>),
                Seq<char>,
            >((plan@, variable_seq(out@))),
        decreases variables@.len() - k,
    {
        proof {
            assert(vars[k as int] == variables@[k as int]@);
        }
        match static_spanned_variable_into_variable(&mut plan, &variables[k], &registry) {
            Err(e) => {
                proof {
                    assert(top_variables(
                        MOST_NESTED_CALLS as nat,
                        empty_plan(),
                        vars,
                        (k + 1) as nat,
                        functions,
                    ) == Err::<(PlanView, Seq<VariableSpecView>), Seq<char>>(e@));
                    lemma_top_variables_error(
                        MOST_NESTED_CALLS as nat,
                        empty_plan(),
                        vars,
                        (k + 1) as nat,
                        vars.len(),
                        functions,
                        e@,
                    );
                }
                return Err(e);
            },
            Ok(variable) => {
                let ghost before = variable_seq(out@);
                out.push(variable);
                proof {
                    assert(variable_seq(out@) =~= before.push(variable@));
                }
            },
        }
        k = k + 1;
    }
    Ok(EvaluatedProgram { plan, variables: out, function_registry: registry })
}

/// Evaluates a program.
pub fn evaluate(expressions: &Vec<SpannedExpression>) -> (r: Result<
    EvaluatedProgram,
    String,
>)
    ensures
        match r {
            Ok(p) => program(
                MOST_NESTED_CALLS as nat,
                expression_seq(expressions@),
                Map::empty(),
            ) == Ok::<
                Evaluated,
                Seq<char>,
            >(evaluated_program(p)),
            Err(e) => program(
                MOST_NESTED_CALLS as nat,
                expression_seq(expressions@),
                Map::empty(),
            ) == Err::<
                Evaluated,
                Seq<char>,
            >(e@),
        },
{
    evaluate_with_registry(expressions, FunctionRegistry::new())
}

proof fn lemma_top_level_functions(
    expressions: Seq<SpannedExpressionView>,
    functions: Map<Seq<char>, StaticFunctionDefinitionView>,
    n: nat,
)
    requires
        n <= expressions.len(),
    ensures
        match top_level(expressions, functions, n) {
            Ok(top) => {
                &&& forall|name: Seq<char>| #[trigger]
                    functions.contains_key(name) ==> top.functions.contains_key(name)
                &&& forall|name: Seq<char>| #[trigger]
                    top.functions.contains_key(name) ==> defines(expressions, n, name) || (
                    functions.contains_key(name) && top.functions[name] == functions[name])
                &&& forall|name: Seq<char>|
                    defines(expressions, n, name) ==> #[trigger] top.functions.contains_key(name)
            },
            Err(_) => exists|i: int|
                0 <= i < n && !((#[trigger] expressions[i]).node is Variable)
                    && !(expressions[i].node is Function),
        },
    decreases n,
{
    if n > 0 {
        lemma_top_level_functions(expressions, functions, (n - 1) as nat);
        let e = expressions[n - 1];
        assert forall|name: Seq<char>| defines(expressions, n, name) implies defines(
            expressions,
            (n - 1) as nat,
            name,
        ) || is_definition(e, name) by {
            let i = choose|i: int| 0 <= i < n && is_definition(#[trigger] expressions[i], name);
            if i < n - 1 {
                assert(is_definition(expressions[i], name));
            }
        }
        assert forall|name: Seq<char>| #[trigger] defines(
            expressions,
            (n - 1) as nat,
            name,
        ) implies defines(expressions, n, name) by {
            let i = choose|i: int| 0 <= i < n - 1 && is_definition(#[trigger] expressions[i], name);
            assert(is_definition(expressions[i], name));
        }
        match e.node {
            ExpressionView::Function { name, .. } => {
                assert(is_definition(expressions[n - 1], name));
                assert(defines(expressions, n, name));
            },
            _ => {},
        }
        if top_level(expressions, functions, (n - 1) as nat) is Err {
            let i = choose|i: int|
                0 <= i < n - 1 && !((#[trigger] expressions[i]).node is Variable)
                    && !(expressions[i].node is Function);
            assert(0 <= i < n && !(expressions[i].node is Variable));
        }
    }
}

/// Whether an expression defines the function of a name.
pub open spec fn is_definition(e: SpannedExpressionView, name: Seq<char>) -> bool {
    match e.node {
        ExpressionView::Function { name: defined, .. } => defined == name,
        _ => false,
    }
}

/// Whether one of the first `n` expressions defines the function of a name.
pub open spec fn defines(expressions: Seq<SpannedExpressionView>, n: nat, name: Seq<char>) -> bool {
    exists|i: int| 0 <= i < n && is_definition(#[trigger] expressions[i], name)
}

/// The functions that a program hands on are those that it was given and those that it defines;
/// one that it does not define is handed on as it was given.
pub proof fn lemma_functions_are_shared(
    depth: nat,
    expressions: Seq<SpannedExpressionView>,
    functions: Map<Seq<char>, StaticFunctionDefinitionView>,
    name: Seq<char>,
)
    ensures
        match program(depth, expressions, functions) {
            Ok(done) => {
                &&& done.functions.contains_key(name) <==> (functions.contains_key(name) || defines(
                    expressions,
                    expressions.len(),
                    name,
                ))
                &&& functions.contains_key(name) && !defines(expressions, expressions.len(), name)
                    ==> done.functions[name] == functions[name]
            },
            Err(_) => true,
        },
{
    lemma_top_level_functions(expressions, functions, expressions.len());
}

/// A program with anything but variables and functions at its top is refused.
pub proof fn lemma_only_variables_and_functions(
    depth: nat,
    expressions: Seq<SpannedExpressionView>,
    functions: Map<Seq<char>, StaticFunctionDefinitionView>,
    i: int,
)
    requires
        0 <= i < expressions.len(),
        !(expressions[i].node is Variable),
        !(expressions[i].node is Function),
    ensures
        program(depth, expressions, functions) is Err,
{
    lemma_refused_from(expressions, functions, i, expressions.len());
}

proof fn lemma_refused_from(
    expressions: Seq<SpannedExpressionView>,
    functions: Map<Seq<char>, StaticFunctionDefinitionView>,
    i: int,
    n: nat,
)
    requires
        0 <= i < n <= expressions.len(),
        !(expressions[i].node is Variable),
        !(expressions[i].node is Function),
    ensures
        top_level(expressions, functions, n) is Err,
    decreases n,
{
    if i < n - 1 {
        lemma_refused_from(expressions, functions, i, (n - 1) as nat);
    }
}

} // verus!
