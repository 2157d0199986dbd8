//! That the bound on how deeply calls are nested leaves the results alone.
use crate::builtins::joined;
use crate::contexts::{
    call_body_context, hold_body_context, in_child_scope, recording_context, root_context,
    with_context,
};
use crate::evaluation::{
    Job, MINUS_ONE_BITS, argue, binding_operation, builtin_of, call, called_function,
    calls_too_deep, declare, evaluated, expr_size, found_arguments, is_list_path, list_append,
    list_binding, list_binding_actor, part_evaluated, pipe_steps, piped_machine, process,
    process_call, process_hold, run_queue, schedule, schedule_block, schedule_call,
    schedule_items, schedule_jobs, schedule_object, total_weight, unbound_parameter, user_call,
    value_jobs, weight, with_arguments, with_locals, wraps,
};
use crate::evaluation_state::{
    MachineView, add_actor, allocated, drawn, emit, empty_plan, fresh_machine, key_of, keyed,
    next_actor, pushed, slot_at,
};
use crate::expression_view::{
    ExpressionView, LiteralView, SpannedArgumentView, SpannedExpressionView, SpannedVariableView,
    StaticFunctionDefinitionView,
};
use crate::plan::{ListBindingOperation, PersistenceKey};
use crate::plan_view::{
    ActorContextView, ActorSpecView, ArgumentSlotView, EvaluationContextView, PlanView,
    ScopeSegmentView, WorkItemView,
};
use crate::program::{program, top_context, top_expression, top_level, top_variable, top_variables};
use crate::static_expression::{BinaryOpKind, Span};
use vstd::prelude::*;

verus! {

/// Whether a message is one about calls that are nested too deeply.
#[verifier::opaque]
pub open spec fn is_too_deep(message: Seq<char>) -> bool {
    exists|name: Seq<char>| message == #[trigger] calls_too_deep(name)
}

/// Whether a result within one bound, if calls were not nested too deeply for it, is the same
/// within another.
pub open spec fn keeps<T>(a: Result<T, Seq<char>>, b: Result<T, Seq<char>>) -> bool {
    b == a || (a matches Err(message) && is_too_deep(message))
}

/// What an evaluation gives within a bound on how deeply calls are nested, a message among it, it
/// gives within every wider one, unless the bound was reached.
pub proof fn lemma_evaluation_settles(
    depth: nat,
    more: nat,
    plan: PlanView,
    e: SpannedExpressionView,
    ctx: EvaluationContextView,
)
    requires
        depth <= more,
    ensures
        keeps(evaluated(depth, plan, e, ctx), evaluated(more, plan, e, ctx)),
    decreases depth, expr_size(e), 4nat, 0nat,
{
    let start = allocated(fresh_machine(plan), 1);
    lemma_schedule_settles(depth, more, start, e, ctx, 0);
    match schedule(depth, start, e, ctx, 0) {
        Ok(m) => {
            if total_weight(m.queue) <= expr_size(e) {
                lemma_run_settles(depth, more, m);
            }
        },
        Err(_) => {},
    }
}

proof fn lemma_part_settles(
    depth: nat,
    more: nat,
    bound: nat,
    m: MachineView,
    e: SpannedExpressionView,
    ctx: EvaluationContextView,
)
    requires
        depth <= more,
    ensures
        keeps(part_evaluated(depth, bound, m, e, ctx), part_evaluated(more, bound, m, e, ctx)),
    decreases depth, bound, 0nat, 0nat,
{
    if expr_size(e) < bound {
        lemma_evaluation_settles(depth, more, m.plan, e, ctx);
    }
}

proof fn lemma_run_settles(depth: nat, more: nat, m: MachineView)
    requires
        depth <= more,
    ensures
        keeps(run_queue(depth, m), run_queue(more, m)),
    decreases depth, total_weight(m.queue), 3nat, 0nat,
{
    if m.queue.len() > 0 {
        let rest = MachineView { queue: m.queue.drop_last(), ..m };
        lemma_process_settles(depth, more, rest, m.queue.last());
        match process(depth, rest, m.queue.last()) {
            Ok(after) => {
                if total_weight(after.queue) < total_weight(m.queue) {
                    lemma_run_settles(depth, more, after);
                }
            },
            Err(_) => {},
        }
    }
}

proof fn lemma_jobs_settle(
    depth: nat,
    more: nat,
    bound: nat,
    m: MachineView,
    jobs: Seq<Job>,
    n: nat,
    ctx: EvaluationContextView,
)
    requires
        depth <= more,
    ensures
        keeps(
            schedule_jobs(depth, bound, m, jobs, n, ctx),
            schedule_jobs(more, bound, m, jobs, n, ctx),
        ),
    decreases depth, bound, 0nat, n,
{
    if n > 0 {
        lemma_jobs_settle(depth, more, bound, m, jobs, (n - 1) as nat, ctx);
        match schedule_jobs(depth, bound, m, jobs, (n - 1) as nat, ctx) {
            Ok(before) => {
                let job = jobs[n - 1];
                if expr_size(job.0) < bound {
                    lemma_schedule_settles(depth, more, before, job.0, ctx, job.1);
                }
            },
            Err(_) => {},
        }
    }
}

proof fn lemma_items_settle(
    depth: nat,
    more: nat,
    bound: nat,
    m: MachineView,
    items: Seq<SpannedExpressionView>,
    n: nat,
    base: u32,
    ctx: EvaluationContextView,
)
    requires
        depth <= more,
    ensures
        keeps(
            schedule_items(depth, bound, m, items, n, base, ctx),
            schedule_items(more, bound, m, items, n, base, ctx),
        ),
    decreases depth, bound, 0nat, n,
{
    if n > 0 {
        lemma_items_settle(depth, more, bound, m, items, (n - 1) as nat, base, ctx);
        match schedule_items(depth, bound, m, items, (n - 1) as nat, base, ctx) {
            Ok(before) => {
                let item = items[n - 1];
                let segment = ScopeSegmentView::ListItem {
                    index: (n - 1) as u64,
                    key: key_of(before, item.persistence),
                };
                let item_ctx = with_context(ctx, in_child_scope(ctx.actor_context, segment));
                let known = keyed(before, item.persistence);
                if expr_size(item) < bound {
                    let slot = slot_at(base, n - 1);
                    lemma_schedule_settles(depth, more, known, item, item_ctx, slot);
                }
            },
            Err(_) => {},
        }
    }
}

proof fn lemma_user_call_settles(
    depth: nat,
    more: nat,
    m: MachineView,
    name: Seq<char>,
    path: Seq<Seq<char>>,
    arguments: Seq<(Seq<char>, u64)>,
    definition: StaticFunctionDefinitionView,
    key: PersistenceKey,
    span: Span,
    ctx: EvaluationContextView,
)
    requires
        depth <= more,
    ensures
        keeps(
            user_call(depth, m, name, path, arguments, definition, key, span, ctx),
            user_call(more, m, name, path, arguments, definition, key, span, ctx),
        ),
    decreases depth, 0nat, 0nat, 0nat,
{
    let context = ctx.actor_context;
    let parameters = with_arguments(context.parameters, arguments, arguments.len());
    let param = unbound_parameter(definition.parameters, parameters);
    if context.piped is Some && param is Some {} else if depth == 0 {
        reveal(is_too_deep);
        assert(calls_too_deep(name) == calls_too_deep(name));
    } else {
        let body_ctx = with_context(
            ctx,
            call_body_context(
                context,
                context.piped,
                parameters,
                ScopeSegmentView::Call { key },
            ),
        );
        lemma_evaluation_settles(
            (depth - 1) as nat,
            (more - 1) as nat,
            m.plan,
            definition.body,
            body_ctx,
        );
        match evaluated((depth - 1) as nat, m.plan, definition.body, body_ctx) {
            Ok(done) => {},
            Err(_) => {},
        }
    }
}

proof fn lemma_call_settles(
    depth: nat,
    more: nat,
    m: MachineView,
    path: Seq<Seq<char>>,
    arguments: Seq<(Seq<char>, u64)>,
    key: PersistenceKey,
    span: Span,
    ctx: EvaluationContextView,
    use_piped: bool,
)
    requires
        depth <= more,
    ensures
        keeps(
            call(depth, m, path, arguments, key, span, ctx, use_piped),
            call(more, m, path, arguments, key, span, ctx, use_piped),
        ),
    decreases depth, 0nat, 1nat, 0nat,
{
    let name = joined(path, "/"@);
    match called_function(m, ctx, name) {
        Some(definition) => {
            lemma_user_call_settles(
                depth,
                more,
                m,
                name,
                path,
                arguments,
                definition,
                key,
                span,
                ctx,
            );
        },
        None => match builtin_of(path) {
            None => {},
            Some(function) => {},
        },
    }
}

proof fn lemma_list_binding_settles(
    depth: nat,
    more: nat,
    bound: nat,
    m: MachineView,
    name: Seq<char>,
    operation: ListBindingOperation,
    arguments: Seq<SpannedArgumentView>,
    key: PersistenceKey,
    span: Span,
    ctx: EvaluationContextView,
)
    requires
        depth <= more,
    ensures
        keeps(
            list_binding(depth, bound, m, name, operation, arguments, key, span, ctx),
            list_binding(more, bound, m, name, operation, arguments, key, span, ctx),
        ),
    decreases depth, bound, 1nat, 0nat,
{
    if arguments.len() >= 2 {
        let list = match arguments[0].value {
            Some(value) => part_evaluated(depth, bound, m, value, ctx),
            None => match ctx.actor_context.piped {
                Some(piped) => Ok((m, Some(piped))),
                None => Err("List/"@ + name + " requires a list argument"@),
            },
        };
        match arguments[0].value {
            Some(value) => {
                lemma_part_settles(depth, more, bound, m, value, ctx);
            },
            None => {},
        }
        assert(keeps(list, list));
        match list {
            Ok(done) => match done.1 {
                Some(actor) => match list_binding_actor(name, operation, arguments, actor, ctx) {
                    Ok(spec) => {},
                    Err(_) => {},
                },
                None => {},
            },
            Err(_) => {},
        }
    }
}

proof fn lemma_list_append_settles(
    depth: nat,
    more: nat,
    bound: nat,
    m: MachineView,
    arguments: Seq<SpannedArgumentView>,
    key: PersistenceKey,
    span: Span,
    ctx: EvaluationContextView,
)
    requires
        depth <= more,
    ensures
        keeps(
            list_append(depth, bound, m, arguments, key, span, ctx),
            list_append(more, bound, m, arguments, key, span, ctx),
        ),
    decreases depth, bound, 1nat, 0nat,
{
    if arguments.len() > 0 {
        match (ctx.actor_context.piped, arguments[0].value) {
            (Some(list), Some(value)) => {
                let item_ctx = with_context(ctx, recording_context(ctx.actor_context, span));
                lemma_part_settles(depth, more, bound, m, value, item_ctx);
                match part_evaluated(depth, bound, m, value, item_ctx) {
                    Ok(done) => match done.1 {
                        Some(item) => {},
                        None => {},
                    },
                    Err(_) => {},
                }
            },
            _ => {},
        }
    }
}

proof fn lemma_schedule_call_settles(
    depth: nat,
    more: nat,
    bound: nat,
    m: MachineView,
    path: Seq<Seq<char>>,
    arguments: Seq<SpannedArgumentView>,
    span: Span,
    key: PersistenceKey,
    ctx: EvaluationContextView,
    slot: u32,
    forward: bool,
)
    requires
        depth <= more,
    ensures
        keeps(
            schedule_call(depth, bound, m, path, arguments, span, key, ctx, slot, forward),
            schedule_call(more, bound, m, path, arguments, span, key, ctx, slot, forward),
        ),
    decreases depth, bound, 1nat, 0nat,
{
    match argue(m, arguments, arguments.len(), ctx, span, forward) {
        Ok(a) => {
            let job_ctx = if forward {
                with_locals(ctx, a.locals)
            } else {
                ctx
            };
            let called = pushed(
                a.m,
                WorkItemView::CallFunction {
                    path,
                    arg_slots: a.slots,
                    passed_slot: a.passed_slot,
                    passed_context: a.passed_context,
                    use_piped_for_builtin: !forward,
                    span,
                    key,
                    ctx,
                    result_slot: slot,
                },
            );
            let connected = if a.connections.len() > 0 {
                pushed(
                    called,
                    WorkItemView::ConnectForwardingActors { connections: a.connections },
                )
            } else {
                called
            };
            let wrapped = if forward {
                MachineView {
                    queue: connected.queue + wraps(a.jobs, a.jobs.len(), job_ctx),
                    ..connected
                }
            } else {
                connected
            };
            lemma_jobs_settle(depth, more, bound, wrapped, a.jobs, a.jobs.len(), job_ctx);
        },
        Err(_) => {},
    }
}

proof fn lemma_schedule_object_settles(
    depth: nat,
    more: nat,
    bound: nat,
    m: MachineView,
    tag: Option<Seq<char>>,
    variables: Seq<SpannedVariableView>,
    span: Span,
    key: PersistenceKey,
    ctx: EvaluationContextView,
    slot: u32,
)
    requires
        depth <= more,
    ensures
        keeps(
            schedule_object(depth, bound, m, tag, variables, span, key, ctx, slot),
            schedule_object(more, bound, m, tag, variables, span, key, ctx, slot),
        ),
    decreases depth, bound, 1nat, 0nat,
{
    let d = declare(m, variables, variables.len(), ctx);
    let inner = with_locals(ctx, d.locals);
    let item = match tag {
        None => WorkItemView::BuildObject {
            variable_data: d.data,
            span,
            key,
            ctx: inner,
            result_slot: slot,
        },
        Some(tag) => WorkItemView::BuildTaggedObject {
            tag,
            variable_data: d.data,
            span,
            key,
            ctx: inner,
            result_slot: slot,
        },
    };
    let first = value_jobs(variables, d.data, variables.len(), Some(false));
    let second = value_jobs(variables, d.data, variables.len(), Some(true));
    let jobs = first + second;
    lemma_jobs_settle(depth, more, bound, pushed(d.m, item), jobs, jobs.len(), inner);
}

proof fn lemma_schedule_block_settles(
    depth: nat,
    more: nat,
    bound: nat,
    m: MachineView,
    variables: Seq<SpannedVariableView>,
    output: SpannedExpressionView,
    span: Span,
    key: PersistenceKey,
    ctx: EvaluationContextView,
    slot: u32,
)
    requires
        depth <= more,
    ensures
        keeps(
            schedule_block(depth, bound, m, variables, output, span, key, ctx, slot),
            schedule_block(more, bound, m, variables, output, span, key, ctx, slot),
        ),
    decreases depth, bound, 1nat, 0nat,
{
    let object_slot = m.next_slot;
    let output_slot = slot_at(m.next_slot, 1);
    let d = declare(allocated(m, 2), variables, variables.len(), ctx);
    let inner = with_context(
        ctx,
        ActorContextView {
            object_locals: d.locals,
            is_snapshot_context: false,
            ..ctx.actor_context
        },
    );
    let framed = pushed(
        d.m,
        WorkItemView::BuildBlock { object_slot, output_slot, result_slot: slot },
    );
    let job = seq![(output, output_slot)];
    lemma_jobs_settle(depth, more, bound, framed, job, 1, inner);
    match schedule_jobs(depth, bound, framed, job, 1, inner) {
        Ok(after) => {
            let built = pushed(
                after,
                WorkItemView::BuildObject {
                    variable_data: d.data,
                    span,
                    key,
                    ctx: inner,
                    result_slot: object_slot,
                },
            );
            let jobs = value_jobs(variables, d.data, variables.len(), None);
            lemma_jobs_settle(depth, more, bound, built, jobs, jobs.len(), inner);
        },
        Err(_) => {},
    }
}

proof fn lemma_process_hold_settles(
    depth: nat,
    more: nat,
    bound: nat,
    m: MachineView,
    initial: u64,
    state_param: Seq<char>,
    body: SpannedExpressionView,
    key: PersistenceKey,
    span: Span,
    ctx: EvaluationContextView,
    slot: u32,
)
    requires
        depth <= more,
    ensures
        keeps(
            process_hold(depth, bound, m, initial, state_param, body, key, span, ctx, slot),
            process_hold(more, bound, m, initial, state_param, body, key, span, ctx, slot),
        ),
    decreases depth, bound, 1nat, 0nat,
{
    let context = ctx.actor_context;
    let state = next_actor(m);
    let spec = ActorSpecView::HoldState { state_param, initial };
    let fresh = PersistenceKey::Fresh(m.plan.fresh);
    let held = add_actor(drawn(m), spec, fresh, span, context);
    let body_ctx = with_context(ctx, hold_body_context(context, state_param, state));
    lemma_part_settles(depth, more, bound, held, body, body_ctx);
}

proof fn lemma_process_call_settles(
    depth: nat,
    more: nat,
    m: MachineView,
    path: Seq<Seq<char>>,
    arg_slots: Seq<ArgumentSlotView>,
    passed_context: Option<u32>,
    use_piped: bool,
    span: Span,
    key: PersistenceKey,
    ctx: EvaluationContextView,
    slot: u32,
)
    requires
        depth <= more,
    ensures
        keeps(
            process_call(
                depth,
                m,
                path,
                arg_slots,
                passed_context,
                use_piped,
                span,
                key,
                ctx,
                slot,
            ),
            process_call(
                more,
                m,
                path,
                arg_slots,
                passed_context,
                use_piped,
                span,
                key,
                ctx,
                slot,
            ),
        ),
    decreases depth, 0nat, 2nat, 0nat,
{
    let arguments = found_arguments(m, arg_slots, arg_slots.len());
    let call_ctx = if passed_context is Some && m.results.contains_key(passed_context->0) {
        with_context(
            ctx,
            ActorContextView { passed: Some(m.results[passed_context->0]), ..ctx.actor_context },
        )
    } else {
        ctx
    };
    lemma_call_settles(depth, more, m, path, arguments, key, span, call_ctx, use_piped);
    match call(depth, m, path, arguments, key, span, call_ctx, use_piped) {
        Ok(done) => {},
        Err(_) => {},
    }
}

proof fn lemma_schedule_settles(
    depth: nat,
    more: nat,
    start: MachineView,
    e: SpannedExpressionView,
    ctx: EvaluationContextView,
    slot: u32,
)
    requires
        depth <= more,
    ensures
        keeps(schedule(depth, start, e, ctx, slot), schedule(more, start, e, ctx, slot)),
    decreases depth, expr_size(e), 2nat, 0nat,
{
    let key = key_of(start, e.persistence);
    let m = keyed(start, e.persistence);
    let span = e.span;
    let context = ctx.actor_context;
    let bound = expr_size(e);
    match e.node {
        ExpressionView::List { items } => {
            let slots = Seq::new(items.len(), |i: int| slot_at(m.next_slot, i));
            let built = pushed(
                allocated(m, items.len()),
                WorkItemView::BuildList {
                    item_slots: slots,
                    span,
                    key,
                    ctx,
                    result_slot: slot,
                },
            );
            lemma_items_settle(depth, more, bound, built, items, items.len(), m.next_slot, ctx);
        },
        ExpressionView::Operator { op, operand_a, operand_b } => {
            let a_slot = m.next_slot;
            let b_slot = slot_at(m.next_slot, 1);
            let built = pushed(
                allocated(m, 2),
                WorkItemView::BinaryOp {
                    op,
                    operand_a_slot: a_slot,
                    operand_b_slot: b_slot,
                    span,
                    key,
                    ctx,
                    result_slot: slot,
                },
            );
            let jobs = seq![(*operand_a, a_slot), (*operand_b, b_slot)];
            lemma_jobs_settle(depth, more, bound, built, jobs, 2, ctx);
        },
        ExpressionView::Negate { operand } => {
            let minus_slot = m.next_slot;
            let operand_slot = slot_at(m.next_slot, 1);
            let spec = ActorSpecView::Literal(LiteralView::Number(MINUS_ONE_BITS));
            let minus = emit(allocated(m, 2), minus_slot, spec, key, span, context);
            let built = pushed(
                minus,
                WorkItemView::BinaryOp {
                    op: BinaryOpKind::Multiply,
                    operand_a_slot: minus_slot,
                    operand_b_slot: operand_slot,
                    span,
                    key,
                    ctx,
                    result_slot: slot,
                },
            );
            lemma_jobs_settle(depth, more, bound, built, seq![(*operand, operand_slot)], 1, ctx);
        },
        ExpressionView::Pipe { .. } => {
            let steps = pipe_steps(e);
            let set_up = piped_machine(m, steps.skip(1), ctx, slot);
            lemma_jobs_settle(depth, more, bound, set_up, seq![(steps[0], m.next_slot)], 1, ctx);
        },
        ExpressionView::Block { variables, output } => {
            lemma_schedule_block_settles(
                depth,
                more,
                bound,
                m,
                variables,
                *output,
                span,
                key,
                ctx,
                slot,
            );
        },
        ExpressionView::Object { variables } => {
            lemma_schedule_object_settles(
                depth,
                more,
                bound,
                m,
                None,
                variables,
                span,
                key,
                ctx,
                slot,
            );
        },
        ExpressionView::TaggedObject { tag, variables } => {
            lemma_schedule_object_settles(
                depth,
                more,
                bound,
                m,
                Some(tag),
                variables,
                span,
                key,
                ctx,
                slot,
            );
        },
        ExpressionView::Latest { inputs } => {
            let slots = Seq::new(inputs.len(), |i: int| slot_at(m.next_slot, i));
            let built = pushed(
                allocated(m, inputs.len()),
                WorkItemView::BuildLatest {
                    input_slots: slots,
                    span,
                    key,
                    ctx,
                    result_slot: slot,
                },
            );
            let jobs = Seq::new(inputs.len(), |i: int| (inputs[i], slot_at(m.next_slot, i)));
            lemma_jobs_settle(depth, more, bound, built, jobs, jobs.len(), ctx);
        },
        ExpressionView::FunctionCall { path, arguments } => match binding_operation(path) {
            Some(operation) => {
                lemma_list_binding_settles(
                    depth,
                    more,
                    bound,
                    m,
                    path[1],
                    operation,
                    arguments,
                    key,
                    span,
                    ctx,
                );
            },
            None => {
                if is_list_path(path, "append"@) {
                    lemma_list_append_settles(depth, more, bound, m, arguments, key, span, ctx);
                } else {
                    lemma_schedule_call_settles(
                        depth,
                        more,
                        bound,
                        m,
                        path,
                        arguments,
                        span,
                        key,
                        ctx,
                        slot,
                        true,
                    );
                }
            },
        },
        _ => {},
    }
}

proof fn lemma_process_settles(depth: nat, more: nat, m: MachineView, item: WorkItemView)
    requires
        depth <= more,
    ensures
        keeps(process(depth, m, item), process(more, m, item)),
    decreases depth, weight(item), 2nat, 0nat,
{
    let bound = weight(item);
    match item {
        WorkItemView::Evaluate { expr, ctx, result_slot } => {
            lemma_schedule_settles(depth, more, m, expr, ctx, result_slot);
        },
        WorkItemView::BuildHold {
            initial_slot,
            state_param,
            body,
            span,
            key,
            ctx,
            result_slot,
        } => {
            if m.results.contains_key(initial_slot) {
                lemma_process_hold_settles(
                    depth,
                    more,
                    bound,
                    m,
                    m.results[initial_slot],
                    state_param,
                    body,
                    key,
                    span,
                    ctx,
                    result_slot,
                );
            }
        },
        WorkItemView::EvaluateWithPiped { expr, prev_slot, ctx, result_slot } => {
            if m.results.contains_key(prev_slot) {
                let piped = m.results[prev_slot];
                let inner = with_context(
                    ctx,
                    ActorContextView { piped: Some(piped), ..ctx.actor_context },
                );
                match expr.node {
                    ExpressionView::FunctionCall { path, arguments } => {
                        if binding_operation(path) is Some || is_list_path(path, "append"@) {
                            lemma_schedule_settles(depth, more, m, expr, inner, result_slot);
                        } else {
                            lemma_schedule_call_settles(
                                depth,
                                more,
                                expr_size(expr),
                                keyed(m, expr.persistence),
                                path,
                                arguments,
                                expr.span,
                                key_of(m, expr.persistence),
                                inner,
                                result_slot,
                                false,
                            );
                        }
                    },
                    ExpressionView::LinkSetter { .. } => {},
                    _ => {
                        lemma_schedule_settles(depth, more, m, expr, inner, result_slot);
                    },
                }
            }
        },
        WorkItemView::CallFunction {
            path,
            arg_slots,
            passed_context,
            use_piped_for_builtin,
            span,
            key,
            ctx,
            result_slot,
            ..
        } => {
            lemma_process_call_settles(
                depth,
                more,
                m,
                path,
                arg_slots,
                passed_context,
                use_piped_for_builtin,
                span,
                key,
                ctx,
                result_slot,
            );
        },
        _ => {},
    }
}

proof fn lemma_top_expression_settles(
    depth: nat,
    more: nat,
    plan: PlanView,
    e: SpannedExpressionView,
    context: ActorContextView,
    functions: Map<Seq<char>, StaticFunctionDefinitionView>,
)
    requires
        depth <= more,
    ensures
        keeps(
            top_expression(depth, plan, e, context, functions),
            top_expression(more, plan, e, context, functions),
        ),
{
    reveal(top_expression);
    lemma_evaluation_settles(depth, more, plan, e, top_context(context, functions));
}

proof fn lemma_top_variables_settle(
    depth: nat,
    more: nat,
    plan: PlanView,
    variables: Seq<SpannedVariableView>,
    n: nat,
    functions: Map<Seq<char>, StaticFunctionDefinitionView>,
)
    requires
        depth <= more,
    ensures
        keeps(
            top_variables(depth, plan, variables, n, functions),
            top_variables(more, plan, variables, n, functions),
        ),
    decreases n,
{
    if n > 0 {
        lemma_top_variables_settle(depth, more, plan, variables, (n - 1) as nat, functions);
        match top_variables(depth, plan, variables, (n - 1) as nat, functions) {
            Ok(before) => {
                let var = variables[n - 1];
                lemma_top_expression_settles(
                    depth,
                    more,
                    before.0,
                    var.node.value,
                    root_context(),
                    functions,
                );
                reveal(top_variable);
            },
            Err(_) => {},
        }
    }
}

/// What a program leads to within a bound on how deeply calls are nested, a message among it, it
/// leads to within every wider one, unless the bound was reached.
pub proof fn lemma_program_settles(
    depth: nat,
    more: nat,
    expressions: Seq<SpannedExpressionView>,
    functions: Map<Seq<char>, StaticFunctionDefinitionView>,
)
    requires
        depth <= more,
    ensures
        keeps(
            program(depth, expressions, functions),
            program(more, expressions, functions),
        ),
{
    match top_level(expressions, functions, expressions.len()) {
        Ok(top) => {
            lemma_top_variables_settle(
                depth,
                more,
                empty_plan(),
                top.variables,
                top.variables.len(),
                top.functions,
            );
        },
        Err(_) => {},
    }
}

} // verus!
