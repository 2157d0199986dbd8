//! What programs are evaluated to.
use boon::evaluation_parts::{collect_pipe_steps, flatten_pipe_chain};
use boon::evaluation_state::EvaluationState;
use boon::evaluator::{evaluate_expression, evaluate_within};
use boon::plan::{
    ActorContext, ActorNode, ActorSpec, EvaluationContext, FunctionRegistry, PersistenceKey, Plan,
    RecordedCall, Registration, Scope, ScopeSegment, WorkItem,
};
use boon::program::{
    evaluate, evaluate_static_expression, evaluate_static_expression_with_registry,
    evaluate_with_registry,
};
use boon::reactions::{
    append_item, call_id, find_arm, invocation_id, react_to_piped_call, react_to_then,
    react_to_when, react_to_while, record_call, restore_calls, Reaction,
};
use boon::static_expression::{
    Alias, Arm, BinaryOpKind, Expression, Literal, Pattern, PersistenceId, Span, SpannedArgument,
    SpannedExpression, SpannedVariable, StaticFunctionDefinition, TextPart, Variable,
};
use boon::text_map::TextMap;
use boon::value::Value;

fn s(text: &str) -> String {
    text.to_string()
}

fn span(n: u64) -> Span {
    Span { start: n, end: n + 1 }
}

fn at(n: u64, node: Expression) -> SpannedExpression {
    SpannedExpression { span: span(n), persistence: Some(PersistenceId(n as u128)), node }
}

fn number(n: u64, value: f64) -> SpannedExpression {
    at(n, Expression::Literal(Literal::Number(value.to_bits())))
}

fn text(n: u64, value: &str) -> SpannedExpression {
    at(n, Expression::Literal(Literal::Text(s(value))))
}

fn name(n: u64, value: &str) -> SpannedExpression {
    at(n, Expression::Alias(Alias::WithoutPassed { parts: vec![s(value)], referenced_span: None }))
}

fn variable(n: u64, name: &str, value: SpannedExpression) -> SpannedVariable {
    SpannedVariable {
        span: span(n),
        persistence: Some(PersistenceId(n as u128)),
        node: Variable { name: s(name), value, is_referenced: false },
    }
}

fn top_variable(n: u64, name: &str, value: SpannedExpression) -> SpannedExpression {
    at(n, Expression::Variable(Box::new(Variable { name: s(name), value, is_referenced: false })))
}

fn pipe(n: u64, from: SpannedExpression, to: SpannedExpression) -> SpannedExpression {
    at(n, Expression::Pipe { from: Box::new(from), to: Box::new(to) })
}

fn call(n: u64, path: &[&str], arguments: Vec<(&str, Option<SpannedExpression>)>) -> SpannedExpression {
    at(n, Expression::FunctionCall {
        path: path.iter().map(|part| s(part)).collect(),
        arguments: arguments
            .into_iter()
            .map(|(name, value)| SpannedArgument { span: span(n), name: s(name), value, is_referenced: false })
            .collect(),
    })
}

fn plan() -> Plan {
    Plan { actors: Vec::new(), registrations: Vec::new(), fresh: 0 }
}

fn context() -> EvaluationContext {
    EvaluationContext::new(ActorContext::default())
}

fn run(expression: &SpannedExpression) -> Result<(Plan, Option<u64>), String> {
    let mut out = plan();
    let actor = evaluate_expression(&mut out, expression, &context())?;
    Ok((out, actor))
}

fn result(expression: &SpannedExpression) -> (Plan, ActorSpec) {
    let (plan, actor) = run(expression).expect("the expression should evaluate");
    let actor = actor.expect("the expression should have a value");
    let spec = plan.actors[actor as usize].actor.clone();
    (plan, spec)
}

fn spec(plan: &Plan, actor: u64) -> &ActorSpec {
    &plan.actors[actor as usize].actor
}

#[test]
fn a_literal_is_an_actor_with_its_identity() {
    let (plan, actor) = run(&text(3, "hi")).unwrap();
    assert_eq!(actor, Some(0));
    assert_eq!(plan.actors, vec![ActorNode {
        actor: ActorSpec::Literal(Literal::Text(s("hi"))),
        key: PersistenceKey::Stored(PersistenceId(3)),
        span: span(3),
        context: ActorContext::default(),
    }]);
}

#[test]
fn operators_see_their_operands() {
    let expression = at(1, Expression::Operator {
        op: BinaryOpKind::Add,
        operand_a: Box::new(number(2, 1.0)),
        operand_b: Box::new(number(3, 2.0)),
    });
    let (plan, found) = result(&expression);
    let ActorSpec::BinaryOp { op, a, b } = found else { panic!("{found:?}") };
    assert_eq!(op, BinaryOpKind::Add);
    assert_eq!(spec(&plan, a), &ActorSpec::Literal(Literal::Number(1.0f64.to_bits())));
    assert_eq!(spec(&plan, b), &ActorSpec::Literal(Literal::Number(2.0f64.to_bits())));
}

#[test]
fn items_of_lists_have_scopes_of_their_own() {
    let expression = at(1, Expression::List { items: vec![text(2, "a"), text(3, "b")] });
    let (plan, found) = result(&expression);
    let ActorSpec::List { items } = found else { panic!("{found:?}") };
    assert_eq!(items.len(), 2);
    for (index, item) in items.iter().enumerate() {
        let node = &plan.actors[*item as usize];
        assert_eq!(node.context.scope, Scope {
            segments: vec![ScopeSegment::ListItem {
                index: index as u64,
                key: PersistenceKey::Stored(PersistenceId(index as u128 + 2)),
            }],
        });
    }
    assert_eq!(spec(&plan, items[0]), &ActorSpec::Literal(Literal::Text(s("a"))));
}

#[test]
fn skipped_expressions_have_no_actor() {
    let (plan, actor) = run(&at(1, Expression::Skip)).unwrap();
    assert_eq!(actor, None);
    assert!(plan.actors.is_empty());
}

#[test]
fn skipped_items_are_left_out_of_lists() {
    let expression = at(1, Expression::List { items: vec![at(2, Expression::Skip), text(3, "b")] });
    let (_, found) = result(&expression);
    let ActorSpec::List { items } = found else { panic!("{found:?}") };
    assert_eq!(items.len(), 1);
}

#[test]
fn objects_hold_their_variables() {
    let expression = at(1, Expression::Object {
        variables: vec![variable(2, "x", text(3, "a")), variable(4, "y", text(5, "b"))],
    });
    let (plan, found) = result(&expression);
    let ActorSpec::Object { variables } = found else { panic!("{found:?}") };
    assert_eq!(variables.iter().map(|v| v.name.as_str()).collect::<Vec<_>>(), vec!["x", "y"]);
    assert!(plan.actors.len() >= 3);
}

#[test]
fn then_needs_a_piped_value() {
    let then = at(1, Expression::Then { body: Box::new(text(2, "x")) });
    let error = run(&then).unwrap_err();
    assert!(error.contains("THEN"), "{error}");
    let piped = pipe(3, text(4, "in"), at(1, Expression::Then { body: Box::new(text(2, "x")) }));
    let (plan, found) = result(&piped);
    let ActorSpec::Then { piped, body, ordered, lazy, .. } = found else { panic!("{found:?}") };
    assert_eq!(spec(&plan, piped), &ActorSpec::Literal(Literal::Text(s("in"))));
    assert_eq!(body.node, Expression::Literal(Literal::Text(s("x"))));
    assert!(!ordered && !lazy);
}

#[test]
fn pipes_are_taken_apart_from_left_to_right() {
    let chain = pipe(1, pipe(2, text(3, "a"), text(4, "b")), text(5, "c"));
    let mut steps = Vec::new();
    collect_pipe_steps(&chain, &mut steps);
    let spans: Vec<u64> = steps.iter().map(|step| step.span.start).collect();
    assert_eq!(spans, vec![3, 4, 5]);
    let chain = pipe(1, text(3, "a"), pipe(2, text(4, "b"), text(5, "c")));
    let spans: Vec<u64> = flatten_pipe_chain(&chain).iter().map(|step| step.span.start).collect();
    assert_eq!(spans, vec![3, 4, 5]);
}

#[test]
fn hold_runs_its_body_one_value_after_the_other() {
    let hold = pipe(1, number(2, 0.0), at(3, Expression::Hold {
        state_param: s("count"),
        body: Box::new(name(4, "count")),
    }));
    let (plan, found) = result(&hold);
    let ActorSpec::Hold { state, initial, .. } = found else { panic!("{found:?}") };
    assert_eq!(spec(&plan, state), &ActorSpec::HoldState { state_param: s("count"), initial });
    assert_eq!(spec(&plan, initial), &ActorSpec::Literal(Literal::Number(0.0f64.to_bits())));
}

#[test]
fn texts_without_interpolation_are_literals() {
    let empty = at(1, Expression::TextLiteral { parts: vec![] });
    let (_, found) = result(&empty);
    assert_eq!(found, ActorSpec::Literal(Literal::Text(String::new())));
    let unknown = at(1, Expression::TextLiteral {
        parts: vec![TextPart::Interpolation { var: s("missing"), referenced_span: None }],
    });
    let error = run(&unknown).unwrap_err();
    assert_eq!(error, "Variable 'missing' not found for text interpolation. Available: []");
    let mut ctx = context();
    ctx.actor_context.parameters.insert(s("todo"), 1);
    ctx.actor_context.parameters.insert(s("count"), 2);
    let error = evaluate_expression(&mut plan(), &unknown, &ctx).unwrap_err();
    assert_eq!(
        error,
        "Variable 'missing' not found for text interpolation. Available: [\"count\", \"todo\"]",
    );
}

#[test]
fn unknown_functions_are_refused() {
    let error = run(&call(1, &["Nothing", "here"], vec![])).unwrap_err();
    assert_eq!(error, "Function 'Nothing/here' not found");
}

#[test]
fn functions_of_the_platform_take_their_arguments() {
    let expression = pipe(1, at(2, Expression::List { items: vec![] }), call(3, &["List", "count"], vec![]));
    let (_, found) = result(&expression);
    let ActorSpec::Builtin { arguments, .. } = found else { panic!("{found:?}") };
    assert_eq!(arguments.len(), 1);
}

#[test]
fn functions_of_the_program_are_called() {
    let program = vec![
        at(1, Expression::Function {
            name: s("same"),
            parameters: vec![s("value")],
            body: Box::new(name(2, "value")),
        }),
        top_variable(3, "result", call(4, &["same"], vec![("value", Some(text(5, "a")))])),
    ];
    let done = evaluate(&program).expect("the program should evaluate");
    assert!(done.function_registry.get("same").is_some());
    assert_eq!(done.variables.len(), 1);
    assert_eq!(done.variables[0].name, "result");
    let ActorSpec::UserCall { result, parameters } = spec(&done.plan, done.variables[0].value) else {
        panic!("{:?}", done.plan.actors)
    };
    assert_eq!(parameters.get("value"), Some(result));
    assert_eq!(spec(&done.plan, *result), &ActorSpec::Literal(Literal::Text(s("a"))));
}

#[test]
fn functions_of_an_earlier_program_can_be_called() {
    let mut registry = FunctionRegistry::new();
    registry.insert(s("one"), StaticFunctionDefinition { parameters: vec![], body: number(9, 1.0) });
    let program = vec![top_variable(1, "result", call(2, &["one"], vec![]))];
    assert!(evaluate(&program).is_err());
    let done = evaluate_with_registry(&program, registry).expect("the program should evaluate");
    assert!(done.function_registry.get("one").is_some());
}

#[test]
fn calls_are_nested_as_deeply_as_the_bound_says() {
    let mut registry = FunctionRegistry::new();
    let again = StaticFunctionDefinition { parameters: vec![], body: call(2, &["again"], vec![]) };
    registry.insert(s("again"), again);
    let mut ctx = context();
    ctx.function_registry_snapshot = Some(registry);
    let error = evaluate_within(&mut plan(), &call(4, &["again"], vec![]), &ctx, 16).unwrap_err();
    assert_eq!(error, "Calls nested too deeply at 'again'");
}

#[test]
fn what_cannot_be_evaluated_leaves_the_plan() {
    let mut out = plan();
    evaluate_expression(&mut out, &text(1, "a"), &context()).unwrap();
    let before = out.clone();
    let failing = at(2, Expression::List { items: vec![text(3, "b"), call(4, &["f"], vec![])] });
    assert!(evaluate_expression(&mut out, &failing, &context()).is_err());
    assert_eq!(out, before);
    for lost in [failing, at(5, Expression::Skip)] {
        assert!(evaluate_static_expression(&mut out, &lost, &ActorContext::default()).is_err());
        assert_eq!(out, before);
    }
}

#[test]
fn only_variables_and_functions_stand_at_the_top() {
    let error = evaluate(&vec![text(1, "x")]).unwrap_err();
    assert_eq!(error, "Only variables or functions expected at top level (span: 1..2)");
}

#[test]
fn referenced_variables_can_be_found() {
    let program = vec![SpannedExpression {
        span: span(1),
        persistence: Some(PersistenceId(1)),
        node: Expression::Variable(Box::new(Variable {
            name: s("shared"),
            value: text(2, "a"),
            is_referenced: true,
        })),
    }];
    let done = evaluate(&program).expect("the program should evaluate");
    assert!(matches!(
        done.plan.registrations[..],
        [Registration::Referenceable { span: Span { start: 1, end: 2 }, .. }]
    ));
}

#[test]
fn an_expression_can_be_evaluated_alone() {
    let mut out = plan();
    let actor = evaluate_static_expression(&mut out, &text(1, "a"), &ActorContext::default());
    assert_eq!(actor, Ok(0));
    let skipped = evaluate_static_expression(&mut out, &at(2, Expression::Skip), &ActorContext::default());
    assert!(skipped.is_err());
}

#[test]
fn steps_have_names() {
    let item = WorkItem::BuildBlock { object_slot: 0, output_slot: 1, result_slot: 2 };
    assert_eq!(item.debug_name(), "BuildBlock");
}

#[test]
fn then_freezes_parameters_that_have_values() {
    let mut ctx = context();
    ctx.actor_context.parameters.insert(s("state"), 7);
    ctx.actor_context.parameters.insert(s("other"), 8);
    ctx.actor_context.hold_state_update_callback = Some(7);
    let mut current = TextMap::new();
    current.insert(s("state"), Value::Text(s("now")));
    let mut out = plan();
    let reaction = react_to_then(
        &mut out,
        &name(1, "state"),
        &FunctionRegistry::new(),
        span(0),
        &ctx,
        &Value::Tag(s("Go")),
        &current,
    );
    assert_eq!(reaction, Some(Reaction { actor: 1, single: true, updates: Some(7) }));
    assert_eq!(spec(&out, 0), &ActorSpec::Constant(Value::Tag(s("Go"))));
    assert_eq!(spec(&out, 1), &ActorSpec::Constant(Value::Text(s("now"))));
    let mut out = plan();
    let reaction = react_to_then(
        &mut out,
        &name(1, "other"),
        &FunctionRegistry::new(),
        span(0),
        &ctx,
        &Value::Tag(s("Go")),
        &current,
    );
    assert_eq!(reaction.map(|r| r.actor), Some(8));
}

#[test]
fn a_body_that_fails_adds_nothing() {
    let mut out = plan();
    let reaction = react_to_then(
        &mut out,
        &name(1, "missing"),
        &FunctionRegistry::new(),
        span(0),
        &context(),
        &Value::Tag(s("Go")),
        &TextMap::new(),
    );
    assert_eq!(reaction, None);
    assert_eq!(out.actors.len(), 1);
}

#[test]
fn arms_see_what_their_patterns_bind() {
    let arms = vec![
        Arm { pattern: Pattern::Literal(Literal::Tag(s("Off"))), body: text(1, "off") },
        Arm { pattern: Pattern::Alias { name: s("found") }, body: name(2, "found") },
        Arm { pattern: Pattern::WildCard, body: text(3, "never") },
    ];
    let value = Value::Text(s("hello"));
    let (arm, matched) = find_arm(&arms, &value, 0).expect("an arm should match");
    assert_eq!(arm, 1);
    let (next, _) = find_arm(&arms, &value, arm + 1).expect("the last arm matches too");
    assert_eq!(next, 2);
    assert!(find_arm(&arms, &value, 3).is_none());

    let mut out = plan();
    let reaction = react_to_when(
        &mut out,
        &arms[arm].body,
        &FunctionRegistry::new(),
        span(0),
        &context(),
        &value,
        &TextMap::new(),
        &matched.bindings,
    ).expect("the arm should have a value");
    assert!(reaction.single);
    assert_eq!(spec(&out, reaction.actor), &ActorSpec::Constant(value.clone()));

    let mut out = plan();
    let reaction = react_to_while(
        &mut out,
        &text(1, "shown"),
        &FunctionRegistry::new(),
        span(0),
        &context(),
        &value,
        &matched.bindings,
        arm as u64,
        5,
    ).expect("the arm should have a value");
    assert!(!reaction.single);
    let node = &out.actors[reaction.actor as usize];
    assert_eq!(node.context.scope, Scope { segments: vec![ScopeSegment::WhileArm { index: 1 }] });
    assert_eq!(node.context.subscription_scope, Some(5));
}

#[test]
fn each_piped_call_has_a_scope_of_its_own() {
    let mut ctx = context();
    ctx.actor_context = ctx.actor_context.for_recording(span(7));
    let invocation = invocation_id(&ctx.actor_context, 3);
    assert_eq!(invocation, "call_3");
    assert_eq!(call_id(3), "call_3");
    let drawn = invocation_id(&ActorContext::default(), 3);
    assert_eq!(drawn.len(), "call_".len() + 26);
    assert_ne!(drawn, invocation_id(&ActorContext::default(), 3));

    let mut out = plan();
    let reaction = react_to_piped_call(
        &mut out,
        &name(1, "title"),
        &s("title"),
        &TextMap::new(),
        span(0),
        &ctx,
        &Value::Text(s("Milk")),
        &invocation,
    ).expect("the call should have a value");
    assert_eq!(reaction.actor, 0);
    assert_eq!(spec(&out, 0), &ActorSpec::Constant(Value::Text(s("Milk"))));

    let path = vec![s("new_todo")];
    let (key, recorded) = record_call(&ctx.actor_context, &path, &invocation, &Value::Text(s("Milk")))
        .expect("the call should be recorded");
    assert_eq!(key, "list_calls:list_append_7..8");
    assert_eq!(recorded, RecordedCall { id: s("call_3"), path, input: Some(Value::Text(s("Milk"))) });
    assert!(record_call(&ActorContext::default(), &vec![], &invocation, &Value::Text(s(""))).is_none());
}

#[test]
fn recorded_calls_are_made_again() {
    let mut registry = FunctionRegistry::new();
    registry.insert(s("new_todo"), StaticFunctionDefinition {
        parameters: vec![s("title")],
        body: at(1, Expression::Object { variables: vec![variable(2, "title", name(3, "title"))] }),
    });
    let mut ctx = context();
    ctx.function_registry_snapshot = Some(registry);
    let recorded = |id: &str, path: &str, input: Option<Value>| RecordedCall { id: s(id), path: vec![s(path)], input };
    let calls = vec![
        recorded("call_0", "new_todo", Some(Value::Text(s("Milk")))),
        recorded("call_1", "gone", Some(Value::Text(s("Eggs")))),
        recorded("call_2", "new_todo", None),
        recorded("call_3", "new_todo", Some(Value::Text(s("Bread")))),
    ];
    let mut out = plan();
    let items = restore_calls(&mut out, &calls, span(7), &ctx);
    assert_eq!(items.len(), 2);
    let ActorSpec::RestoredItem { source, storage_key, call_id } = spec(&out, items[1]) else {
        panic!("{:?}", out.actors)
    };
    assert_eq!(storage_key, "list_calls:list_append_7..8");
    assert_eq!(call_id, "call_3");
    let node = &out.actors[*source as usize];
    assert!(node.context.is_restoring);
    assert_eq!(node.context.scope, Scope {
        segments: vec![
            ScopeSegment::ListAppend { span: span(7) },
            ScopeSegment::Restored { id: s("call_3") },
        ],
    });
    let appended = append_item(&mut out, &Value::Text(s("New")), span(7), &ActorContext::default(), 4);
    assert_eq!(spec(&out, appended), &ActorSpec::AppendedItem {
        value: Value::Text(s("New")),
        storage_key: s("list_calls:list_append_7..8"),
        call_id: s("call_4"),
    });
}

#[test]
fn then_is_when_with_an_arm_that_takes_any_value() {
    let body = name(1, "state");
    let mut ctx = context();
    ctx.actor_context.parameters.insert(s("state"), 7);
    let mut current = TextMap::new();
    current.insert(s("state"), Value::Text(s("now")));
    let value = Value::Tag(s("Go"));
    let arms = vec![Arm { pattern: Pattern::WildCard, body: body.clone() }];
    let (arm, matched) = find_arm(&arms, &value, 0).expect("the arm takes any value");
    let registry = FunctionRegistry::new();
    let mut then_plan = plan();
    let then = react_to_then(&mut then_plan, &body, &registry, span(0), &ctx, &value, &current);
    let mut when_plan = plan();
    let when = react_to_when(
        &mut when_plan,
        &arms[arm].body,
        &registry,
        span(0),
        &ctx,
        &value,
        &current,
        &matched.bindings,
    );
    assert_eq!(then, when);
    assert_eq!(then_plan, when_plan);
}

#[test]
fn evaluating_leaves_what_a_plan_holds() {
    let mut out = plan();
    evaluate_expression(&mut out, &text(1, "a"), &context()).unwrap();
    let before = out.actors.clone();
    let more = at(2, Expression::List { items: vec![text(3, "b"), text(4, "c")] });
    evaluate_expression(&mut out, &more, &context()).unwrap();
    assert!(out.actors.len() > before.len());
    assert_eq!(out.actors[..before.len()], before[..]);
}

#[test]
fn the_last_step_is_done_first_and_slots_are_not_taken_twice() {
    let mut state = EvaluationState::new();
    let a = state.alloc_slot();
    let b = state.alloc_slot();
    assert_ne!(a, b);
    assert_eq!(state.get(a), None);
    state.store(a, 7);
    assert_eq!(state.get(a), Some(7));
    assert_eq!(state.get(b), None);
    let block = |slot| WorkItem::BuildBlock { object_slot: slot, output_slot: slot, result_slot: slot };
    state.push(block(a));
    state.push(block(b));
    assert_eq!(state.pop(), Some(block(b)));
    assert_eq!(state.pop(), Some(block(a)));
    assert_eq!(state.pop(), None);
}

#[test]
fn links_are_handed_on_through_a_pass_through() {
    let setter = at(5, Expression::LinkSetter {
        alias: Alias::WithPassed { extra_parts: vec![s("elements"), s("button")] },
    });
    let (plan, found) = result(&pipe(1, text(2, "x"), setter));
    let ActorSpec::LinkRelay { pass_through, key } = found else { panic!("{found:?}") };
    assert_eq!(key, PersistenceKey::Stored(PersistenceId(5)));
    let ActorSpec::PassThrough { forwarder, key } = spec(&plan, pass_through) else { panic!("{plan:?}") };
    assert_eq!(*key, PersistenceKey::Stored(PersistenceId(5)));
    let ActorSpec::LinkForwarder { source, pass_through, .. } = spec(&plan, *forwarder) else { panic!("{plan:?}") };
    assert_eq!(*pass_through, PersistenceKey::Stored(PersistenceId(5)));
    assert_eq!(spec(&plan, *source), &ActorSpec::Literal(Literal::Text(s("x"))));
}

#[test]
fn a_wider_bound_gives_the_same() {
    let mut registry = FunctionRegistry::new();
    let outer = StaticFunctionDefinition { parameters: vec![], body: call(4, &["inner"], vec![]) };
    registry.insert(s("inner"), StaticFunctionDefinition { parameters: vec![], body: text(2, "x") });
    registry.insert(s("outer"), outer);
    let mut ctx = context();
    ctx.function_registry_snapshot = Some(registry);
    let within = |expression: &SpannedExpression, depth: u64| {
        let mut out = plan();
        evaluate_within(&mut out, expression, &ctx, depth).map(|actor| (out, actor))
    };
    let nested = call(6, &["outer"], vec![]);
    assert_eq!(within(&nested, 1), Err(s("Calls nested too deeply at 'inner'")));
    let narrow = within(&nested, 2).expect("two calls are nested");
    assert_eq!(within(&nested, 100).unwrap(), narrow);
    let mut out = plan();
    let actor = evaluate_expression(&mut out, &nested, &ctx).unwrap();
    assert_eq!((out, actor), narrow);
    let unknown = call(7, &["unknown"], vec![]);
    for depth in [0, 1, 100] {
        assert_eq!(within(&unknown, depth), Err(s("Function 'unknown' not found")));
    }
}

#[test]
fn calls_of_many_functions_are_nested() {
    let mut program: Vec<SpannedExpression> = (0..40)
        .map(|n: u64| {
            let body = if n == 0 { text(1, "end") } else { call(2 * n, &[&format!("f{}", n - 1)], vec![]) };
            at(1000 + n, Expression::Function {
                name: format!("f{n}"),
                parameters: vec![],
                body: Box::new(body),
            })
        })
        .collect();
    program.push(top_variable(2000, "result", call(2001, &["f39"], vec![])));
    let done = evaluate(&program).expect("forty calls are nested");
    assert!(done.plan.actors.iter().any(|node| node.actor == ActorSpec::Literal(Literal::Text(s("end")))));
}

fn sum(n: u64, a: SpannedExpression, b: SpannedExpression) -> SpannedExpression {
    at(n, Expression::Operator { op: BinaryOpKind::Add, operand_a: Box::new(a), operand_b: Box::new(b) })
}

fn nameless(node: Expression) -> SpannedExpression {
    SpannedExpression { span: span(0), persistence: None, node }
}

fn nameless_number(value: f64) -> SpannedExpression {
    nameless(Expression::Literal(Literal::Number(value.to_bits())))
}

fn bits(value: f64) -> ActorSpec {
    ActorSpec::Literal(Literal::Number(value.to_bits()))
}

#[test]
fn a_compound_operand_is_negated() {
    let negated = at(1, Expression::Negate { operand: Box::new(sum(2, number(3, 1.0), number(4, 2.0))) });
    let (plan, found) = result(&negated);
    let ActorSpec::BinaryOp { op, a, b } = found else { panic!("{found:?}") };
    assert_eq!(op, BinaryOpKind::Multiply);
    assert_eq!(spec(&plan, a), &bits(-1.0));
    let ActorSpec::BinaryOp { op, a, b } = spec(&plan, b) else { panic!("{plan:?}") };
    assert_eq!(*op, BinaryOpKind::Add);
    assert_eq!(spec(&plan, *a), &bits(1.0));
    assert_eq!(spec(&plan, *b), &bits(2.0));

    let twice = at(5, Expression::Negate { operand: Box::new(negated) });
    let (plan, found) = result(&twice);
    let ActorSpec::BinaryOp { op, b, .. } = found else { panic!("{found:?}") };
    assert_eq!(op, BinaryOpKind::Multiply);
    assert!(matches!(spec(&plan, b), ActorSpec::BinaryOp { op: BinaryOpKind::Multiply, .. }));
    let skipped = at(6, Expression::Negate { operand: Box::new(at(7, Expression::Skip)) });
    assert_eq!(run(&skipped).unwrap().1, None);
}

#[test]
fn identities_are_drawn_where_there_are_none() {
    let variable = SpannedVariable {
        span: span(0),
        persistence: None,
        node: Variable { name: s("x"), value: nameless_number(1.0), is_referenced: true },
    };
    let add = |a: f64, b: f64| nameless(Expression::Operator {
        op: BinaryOpKind::Add,
        operand_a: Box::new(nameless_number(a)),
        operand_b: Box::new(nameless_number(b)),
    });
    let expressions = vec![
        nameless(Expression::List { items: vec![nameless_number(1.0)] }),
        add(1.0, 2.0),
        nameless(Expression::Negate { operand: Box::new(add(1.0, 2.0)) }),
        nameless(Expression::Object { variables: vec![variable.clone()] }),
        nameless(Expression::TaggedObject { tag: s("Point"), variables: vec![variable.clone()] }),
        nameless(Expression::Block { variables: vec![variable], output: Box::new(nameless_number(1.0)) }),
        nameless(Expression::Latest { inputs: vec![nameless_number(1.0)] }),
        nameless(Expression::FunctionCall { path: vec![s("Text"), s("empty")], arguments: vec![] }),
        nameless(Expression::Pipe {
            from: Box::new(nameless_number(0.0)),
            to: Box::new(nameless(Expression::Hold {
                state_param: s("state"),
                body: Box::new(nameless(Expression::Alias(Alias::WithoutPassed {
                    parts: vec![s("state")],
                    referenced_span: None,
                }))),
            })),
        }),
        nameless(Expression::Pipe {
            from: Box::new(nameless(Expression::List { items: vec![] })),
            to: Box::new(nameless(Expression::FunctionCall { path: vec![s("List"), s("count")], arguments: vec![] })),
        }),
        nameless(Expression::Pipe {
            from: Box::new(nameless_number(0.0)),
            to: Box::new(nameless(Expression::LinkSetter {
                alias: Alias::WithPassed { extra_parts: vec![s("link")] },
            })),
        }),
    ];
    for expression in &expressions {
        let (plan, actor) = run(expression).expect("the expression should evaluate");
        let actor = actor.expect("the expression should have a value");
        assert!(matches!(plan.actors[actor as usize].key, PersistenceKey::Fresh(_)), "{plan:?}");
        assert!(plan.fresh > 0);
        for node in &plan.actors {
            if let PersistenceKey::Fresh(n) = node.key {
                assert!(n < plan.fresh);
            }
        }
    }
    let (plan, found) = result(&expressions[3]);
    let ActorSpec::Object { variables } = found else { panic!("{found:?}") };
    assert!(matches!(variables[0].key, PersistenceKey::Fresh(_)));
    assert!(matches!(plan.registrations[0], Registration::Referenceable { .. }));
}

#[test]
fn arms_without_identities_react_as_then_does() {
    let body = nameless(Expression::Operator {
        op: BinaryOpKind::Add,
        operand_a: Box::new(nameless_number(1.0)),
        operand_b: Box::new(nameless_number(2.0)),
    });
    let value = Value::Tag(s("Go"));
    let registry = FunctionRegistry::new();
    let mut then_plan = plan();
    let then = react_to_then(&mut then_plan, &body, &registry, span(0), &context(), &value, &TextMap::new());
    let mut when_plan = plan();
    let when = react_to_when(
        &mut when_plan,
        &body,
        &registry,
        span(0),
        &context(),
        &value,
        &TextMap::new(),
        &TextMap::new(),
    );
    assert!(then.is_some());
    assert_eq!(then, when);
    assert_eq!(then_plan, when_plan);
}

#[test]
fn a_pipe_with_a_skipped_step_gives_nothing() {
    let skip = || at(9, Expression::Skip);
    for chain in [
        pipe(1, skip(), text(2, "x")),
        pipe(1, pipe(2, text(3, "a"), skip()), text(4, "b")),
        pipe(1, pipe(2, pipe(3, text(4, "a"), skip()), text(5, "b")), sum(6, number(7, 1.0), number(8, 2.0))),
    ] {
        assert_eq!(run(&chain).unwrap().1, None);
    }
    assert!(run(&pipe(1, text(2, "x"), text(3, "y"))).unwrap().1.is_some());
}

#[test]
fn calls_find_the_functions_of_a_snapshot() {
    let f = call(1, &["f"], vec![]);
    let mut registry = FunctionRegistry::new();
    let missing = Err(s("Function 'f' not found"));
    let with = |registry: Option<&FunctionRegistry>| {
        let mut out = plan();
        evaluate_static_expression_with_registry(&mut out, &f, &ActorContext::default(), registry)
            .map(|actor| (out, actor))
    };
    assert_eq!(with(None), missing);
    assert_eq!(with(Some(&registry)), missing);
    registry.insert(s("f"), StaticFunctionDefinition { parameters: vec![], body: number(2, 5.0) });
    let (out, actor) = with(Some(&registry)).expect("the call should evaluate");
    assert_eq!(spec(&out, actor), &bits(5.0));
    assert_eq!(out.actors.len(), 1);
    let mut others = FunctionRegistry::new();
    others.insert(s("g"), StaticFunctionDefinition { parameters: vec![], body: number(2, 5.0) });
    assert_eq!(with(Some(&others)), missing);
}

#[test]
fn another_identity_changes_identities_alone() {
    let node = |id: Option<PersistenceId>| SpannedExpression {
        persistence: id,
        ..pipe(1, text(2, "a"), at(3, Expression::Then { body: Box::new(sum(4, number(5, 1.0), number(6, 2.0))) }))
    };
    let list = |id: Option<PersistenceId>| SpannedExpression {
        persistence: id,
        ..at(1, Expression::List { items: vec![number(2, 1.0), sum(3, number(4, 2.0), number(5, 3.0))] })
    };
    for make in [&node as &dyn Fn(Option<PersistenceId>) -> SpannedExpression, &list] {
        let (first, value) = run(&make(Some(PersistenceId(70)))).unwrap();
        for id in [None, Some(PersistenceId(71))] {
            let (second, other) = run(&make(id)).unwrap();
            assert_eq!(value, other);
            assert_eq!(first.registrations, second.registrations);
            assert_eq!(first.actors.len(), second.actors.len());
            for (a, b) in first.actors.iter().zip(&second.actors) {
                assert_eq!(a.actor, b.actor);
                assert_eq!(a.span, b.span);
            }
        }
    }
    let (plan, actor) = run(&list(Some(PersistenceId(70)))).unwrap();
    let (other, _) = run(&list(Some(PersistenceId(71)))).unwrap();
    assert_ne!(plan.actors[actor.unwrap() as usize].key, other.actors[actor.unwrap() as usize].key);
}
