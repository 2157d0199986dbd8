//! That evaluating an expression adds to a plan and leaves what it holds as it is.
use crate::builtins::joined;
use crate::contexts::{
    append_storage_key, builtin_context, call_body_context, hold_body_context, in_child_scope,
    recording_context, restoring_context, snapshot_context, while_arm_context, with_context,
};
use crate::evaluation::{
    AliasTarget, Built, Job, MINUS_ONE_BITS, Step, alias_step, alias_target, argue,
    binding_operation, build, build_one, builtin_of, call, called_function, declare, emit_result,
    evaluated, expr_size, found_arguments, is_list_path, kept_id, list_append, list_binding,
    list_binding_actor, part_evaluated, pipe_steps, piped_machine, process, process_call,
    process_hold, process_link_setter, process_object, run_queue, schedule, schedule_block,
    schedule_call, schedule_items, schedule_jobs, schedule_object, text_literal_step,
    text_part_step, text_parts_step, then_actor, total_weight, unbound_parameter, user_call,
    value_jobs, variable_known, weight, when_actor, while_actor, with_arguments, with_locals,
    wraps,
};
use crate::evaluation_state::{
    MachineView, add_actor, allocated, drawn, emit, fresh_machine, key_of, keyed, next_actor,
    pushed, registered, slot_at,
};
use crate::expression_view::{
    AliasView, ExpressionView, LiteralView, SpannedArgumentView, SpannedExpressionView,
    SpannedVariableView, StaticFunctionDefinitionView, TextPartView,
};
use crate::plan::{ListBindingOperation, PersistenceKey};
use crate::plan_view::{
    ActorContextView, ActorNodeView, ActorSpecView, ArgumentSlotView, EvaluationContextView,
    FunctionRegistryView, ObjectVariableDataView, PlanView, RecordedCallView, RegistrationView,
    ScopeSegmentView, WorkItemView,
};
use crate::reactions::{
    body_context, frozen, function_named, plan_next, restored_call, restored_calls, then_reaction,
    tried, when_reaction, while_reaction, with_bindings, with_constant, with_drawn,
};
use crate::static_expression::{BinaryOpKind, PersistenceId, Span};
use crate::text::split_parts;
use crate::text_map::ordered_pairs;
use crate::value::ValueView;
use vstd::prelude::*;

verus! {

/// Whether a sequence starts with another one.
pub open spec fn starts_as<T>(before: Seq<T>, after: Seq<T>) -> bool {
    &&& before.len() <= after.len()
    &&& forall|i: int| 0 <= i < before.len() ==> #[trigger] after[i] == before[i]
}

/// Whether a plan holds all that another one holds, at the same places.
#[verifier::opaque]
pub open spec fn grown(before: PlanView, after: PlanView) -> bool {
    &&& starts_as(before.actors, after.actors)
    &&& starts_as(before.registrations, after.registrations)
}

/// Whether a step that succeeds leaves what was in the plan.
pub open spec fn step_grown(before: PlanView, step: Step) -> bool {
    match step {
        Ok(m) => grown(before, m.plan),
        Err(_) => true,
    }
}

/// Whether a step that succeeds and may give an actor leaves what was in the plan.
pub open spec fn result_grown(
    before: PlanView,
    result: Result<(MachineView, Option<u64>), Seq<char>>,
) -> bool {
    match result {
        Ok(done) => grown(before, done.0.plan),
        Err(_) => true,
    }
}

proof fn lemma_grown_same(plan: PlanView)
    ensures
        grown(plan, plan),
{
    reveal(grown);
}

proof fn lemma_grown_fresh(before: PlanView, after: PlanView, fresh: u64)
    requires
        grown(before, after),
    ensures
        grown(before, PlanView { fresh, ..after }),
{
    reveal(grown);
}

proof fn lemma_grown_chain(a: PlanView, b: PlanView, c: PlanView)
    requires
        grown(a, b),
        grown(b, c),
    ensures
        grown(a, c),
{
    reveal(grown);
    assert forall|i: int| 0 <= i < a.actors.len() implies #[trigger] c.actors[i]
        == a.actors[i] by {
        assert(b.actors[i] == a.actors[i]);
    }
    assert forall|i: int| 0 <= i < a.registrations.len() implies #[trigger] c.registrations[i]
        == a.registrations[i] by {
        assert(b.registrations[i] == a.registrations[i]);
    }
}

proof fn lemma_grown_actor(before: PlanView, after: PlanView, node: ActorNodeView)
    requires
        grown(before, after),
    ensures
        grown(before, PlanView { actors: after.actors.push(node), ..after }),
{
    reveal(grown);
}

proof fn lemma_grown_registration(before: PlanView, after: PlanView, registration: RegistrationView)
    requires
        grown(before, after),
    ensures
        grown(
            before,
            PlanView { registrations: after.registrations.push(registration), ..after },
        ),
{
    reveal(grown);
}

proof fn lemma_add_actor_grows(
    before: PlanView,
    m: MachineView,
    actor: ActorSpecView,
    key: PersistenceKey,
    span: Span,
    context: ActorContextView,
)
    requires
        grown(before, m.plan),
    ensures
        grown(before, add_actor(m, actor, key, span, context).plan),
        grown(before, add_actor(drawn(m), actor, key, span, context).plan),
        grown(before, drawn(m).plan),
{
    lemma_grown_fresh(before, m.plan, m.plan.fresh.wrapping_add(1));
    lemma_grown_actor(before, m.plan, ActorNodeView { actor, key, span, context });
    lemma_grown_actor(before, drawn(m).plan, ActorNodeView { actor, key, span, context });
}

proof fn lemma_emit_grows(
    before: PlanView,
    m: MachineView,
    slot: u32,
    actor: ActorSpecView,
    key: PersistenceKey,
    span: Span,
    context: ActorContextView,
)
    requires
        grown(before, m.plan),
    ensures
        grown(before, emit(m, slot, actor, key, span, context).plan),
        grown(before, emit(drawn(m), slot, actor, key, span, context).plan),
{
    lemma_add_actor_grows(before, m, actor, key, span, context);
}

proof fn lemma_register_grows(
    before: PlanView,
    m: MachineView,
    alive: bool,
    registration: RegistrationView,
)
    requires
        grown(before, m.plan),
    ensures
        grown(before, registered(m, alive, registration).plan),
{
    lemma_grown_registration(before, m.plan, registration);
}

proof fn lemma_keyed_grows(before: PlanView, m: MachineView, persistence: Option<PersistenceId>)
    requires
        grown(before, m.plan),
    ensures
        grown(before, keyed(m, persistence).plan),
{
    lemma_grown_fresh(before, m.plan, m.plan.fresh.wrapping_add(1));
}

proof fn lemma_alias_grows(
    m: MachineView,
    alias: AliasView,
    key: PersistenceKey,
    span: Span,
    ctx: EvaluationContextView,
)
    ensures
        match alias_step(m, alias, key, span, ctx) {
            Ok(done) => grown(m.plan, done.0.plan),
            Err(_) => true,
        },
{
    lemma_grown_same(m.plan);
    match alias_target(alias, ctx) {
        Ok(AliasTarget::Root(root)) => {
            lemma_add_actor_grows(
                m.plan,
                m,
                ActorSpecView::Alias { root, alias },
                key,
                span,
                ctx.actor_context,
            );
        },
        _ => {},
    }
}

proof fn lemma_declare_grows(
    m: MachineView,
    variables: Seq<SpannedVariableView>,
    n: nat,
    ctx: EvaluationContextView,
)
    ensures
        grown(m.plan, declare(m, variables, n, ctx).m.plan),
    decreases n,
{
    lemma_grown_same(m.plan);
    if n > 0 {
        lemma_declare_grows(m, variables, (n - 1) as nat, ctx);
        let before = declare(m, variables, (n - 1) as nat, ctx);
        let var = variables[n - 1];
        let taken = allocated(before.m, 1);
        let key = key_of(taken, var.persistence);
        let known = keyed(taken, var.persistence);
        lemma_keyed_grows(m.plan, taken, var.persistence);
        let spec = ActorSpecView::Forwarding;
        let added = add_actor(known, spec, key, var.span, ctx.actor_context);
        lemma_add_actor_grows(m.plan, known, spec, key, var.span, ctx.actor_context);
        lemma_register_grows(
            m.plan,
            added,
            ctx.reference_connector,
            RegistrationView::Referenceable { span: var.span, actor: next_actor(known) },
        );
    }
}

proof fn lemma_argue_grows(
    m: MachineView,
    arguments: Seq<SpannedArgumentView>,
    n: nat,
    ctx: EvaluationContextView,
    span: Span,
    forward: bool,
)
    ensures
        match argue(m, arguments, n, ctx, span, forward) {
            Ok(a) => grown(m.plan, a.m.plan),
            Err(_) => true,
        },
    decreases n,
{
    lemma_grown_same(m.plan);
    if n > 0 {
        lemma_argue_grows(m, arguments, (n - 1) as nat, ctx, span, forward);
        match argue(m, arguments, (n - 1) as nat, ctx, span, forward) {
            Ok(before) => {
                let arg = arguments[n - 1];
                let taken = allocated(before.m, 1);
                let key = PersistenceKey::Fresh(taken.plan.fresh);
                let added = add_actor(
                    drawn(taken),
                    ActorSpecView::Forwarding,
                    key,
                    arg.span,
                    ctx.actor_context,
                );
                lemma_add_actor_grows(
                    m.plan,
                    taken,
                    ActorSpecView::Forwarding,
                    key,
                    arg.span,
                    ctx.actor_context,
                );
                lemma_register_grows(
                    m.plan,
                    added,
                    ctx.reference_connector,
                    RegistrationView::Referenceable { span: arg.span, actor: next_actor(taken) },
                );
            },
            Err(_) => {},
        }
    }
}

proof fn lemma_text_part_grows(
    start: PlanView,
    m: MachineView,
    part: TextPartView,
    key: PersistenceKey,
    span: Span,
    ctx: EvaluationContextView,
)
    requires
        grown(start, m.plan),
    ensures
        match text_part_step(m, part, key, span, ctx) {
            Ok(done) => grown(start, done.0.plan),
            Err(_) => true,
        },
{
    let context = ctx.actor_context;
    match part {
        TextPartView::Text(text) => {
            lemma_add_actor_grows(
                start,
                m,
                ActorSpecView::Literal(LiteralView::Text(text)),
                key,
                span,
                context,
            );
        },
        TextPartView::Interpolation { var, referenced_span } => {
            let path = split_parts(var, '.').skip(1);
            let name = split_parts(var, '.')[0];
            let fresh = PersistenceKey::Fresh(m.plan.fresh);
            if context.parameters.contains_key(name) {
                let base = context.parameters[name];
                lemma_add_actor_grows(
                    start,
                    m,
                    ActorSpecView::TextField { base, path },
                    fresh,
                    span,
                    context,
                );
            } else {
                match referenced_span {
                    Some(referenced) => {
                        let spec = ActorSpecView::Reference { referenced };
                        lemma_add_actor_grows(start, m, spec, fresh, span, context);
                        let found = add_actor(drawn(m), spec, fresh, span, context);
                        lemma_add_actor_grows(
                            start,
                            found,
                            ActorSpecView::TextField { base: next_actor(m), path },
                            PersistenceKey::Fresh(found.plan.fresh),
                            span,
                            context,
                        );
                    },
                    None => {},
                }
            }
        },
    }
}

proof fn lemma_text_parts_grow(
    m: MachineView,
    parts: Seq<TextPartView>,
    n: nat,
    key: PersistenceKey,
    span: Span,
    ctx: EvaluationContextView,
)
    ensures
        match text_parts_step(m, parts, n, key, span, ctx) {
            Ok(done) => grown(m.plan, done.0.plan),
            Err(_) => true,
        },
    decreases n,
{
    lemma_grown_same(m.plan);
    if n > 0 {
        lemma_text_parts_grow(m, parts, (n - 1) as nat, key, span, ctx);
        match text_parts_step(m, parts, (n - 1) as nat, key, span, ctx) {
            Ok(before) => {
                lemma_text_part_grows(m.plan, before.0, parts[n - 1], key, span, ctx);
            },
            Err(_) => {},
        }
    }
}

proof fn lemma_text_literal_grows(
    m: MachineView,
    parts: Seq<TextPartView>,
    key: PersistenceKey,
    span: Span,
    ctx: EvaluationContextView,
    slot: u32,
)
    ensures
        step_grown(m.plan, text_literal_step(m, parts, key, span, ctx, slot)),
{
    lemma_text_parts_grow(m, parts, parts.len(), key, span, ctx);
    match text_parts_step(m, parts, parts.len(), key, span, ctx) {
        Ok(done) => {
            lemma_emit_grows(
                m.plan,
                done.0,
                slot,
                ActorSpecView::Literal(LiteralView::Text(Seq::empty())),
                key,
                span,
                ctx.actor_context,
            );
            lemma_emit_grows(
                m.plan,
                done.0,
                slot,
                ActorSpecView::CombinedText { parts: done.2 },
                key,
                span,
                ctx.actor_context,
            );
        },
        Err(_) => {},
    }
}

proof fn lemma_known_grows(
    before: PlanView,
    m: MachineView,
    data: ObjectVariableDataView,
    value: u64,
    link: u64,
    ctx: EvaluationContextView,
)
    requires
        grown(before, m.plan),
    ensures
        grown(before, variable_known(m, data, value, link, ctx).plan),
{
    let alive = data.forwarding_actor is None && ctx.reference_connector;
    let registration = RegistrationView::Referenceable { span: data.span, actor: value };
    lemma_register_grows(before, m, alive, registration);
    lemma_register_grows(
        before,
        registered(m, alive, registration),
        data.is_link && ctx.link_connector,
        RegistrationView::Link { span: data.span, scope: ctx.actor_context.scope, actor: link },
    );
}

proof fn lemma_build_one_grows(
    start: PlanView,
    before: Built,
    data: ObjectVariableDataView,
    ctx: EvaluationContextView,
)
    requires
        grown(start, before.m.plan),
    ensures
        grown(start, build_one(before, data, ctx).m.plan),
{
    let m = before.m;
    let context = ctx.actor_context;
    let key = data.key;
    let made = next_actor(m);
    if data.is_link {
        let added = add_actor(m, ActorSpecView::LinkValue, key, data.span, context);
        lemma_add_actor_grows(start, m, ActorSpecView::LinkValue, key, data.span, context);
        let value = match data.forwarding_actor {
            Some(forwarding) => forwarding,
            None => made,
        };
        lemma_known_grows(start, added, data, value, made, ctx);
    } else if m.results.contains_key(data.value_slot) {
        let source = m.results[data.value_slot];
        match data.forwarding_actor {
            Some(forwarding) => {
                lemma_known_grows(start, m, data, forwarding, forwarding, ctx);
            },
            None => {
                let spec = ActorSpecView::Persisted { source };
                let added = add_actor(m, spec, key, data.span, context);
                lemma_add_actor_grows(start, m, spec, key, data.span, context);
                lemma_known_grows(start, added, data, made, made, ctx);
            },
        }
    }
}

proof fn lemma_build_grows(
    m: MachineView,
    data: Seq<ObjectVariableDataView>,
    n: nat,
    ctx: EvaluationContextView,
)
    ensures
        grown(m.plan, build(m, data, n, ctx).m.plan),
    decreases n,
{
    lemma_grown_same(m.plan);
    if n > 0 {
        lemma_build_grows(m, data, (n - 1) as nat, ctx);
        lemma_build_one_grows(m.plan, build(m, data, (n - 1) as nat, ctx), data[n - 1], ctx);
    }
}

proof fn lemma_emit_result_grows(
    m: MachineView,
    slot: u32,
    actor: Result<ActorSpecView, Seq<char>>,
    key: PersistenceKey,
    span: Span,
    context: ActorContextView,
)
    ensures
        step_grown(m.plan, emit_result(m, slot, actor, key, span, context)),
{
    lemma_grown_same(m.plan);
    match actor {
        Ok(spec) => {
            lemma_emit_grows(m.plan, m, slot, spec, key, span, context);
        },
        Err(_) => {},
    }
}

proof fn lemma_process_object_grows(
    m: MachineView,
    tag: Option<Seq<char>>,
    data: Seq<ObjectVariableDataView>,
    span: Span,
    key: PersistenceKey,
    ctx: EvaluationContextView,
    slot: u32,
)
    ensures
        grown(m.plan, process_object(m, tag, data, span, key, ctx, slot).plan),
{
    lemma_build_grows(m, data, data.len(), ctx);
    let b = build(m, data, data.len(), ctx);
    let actor = match tag {
        None => ActorSpecView::Object { variables: b.variables },
        Some(tag) => ActorSpecView::TaggedObject { tag, variables: b.variables },
    };
    lemma_emit_grows(m.plan, b.m, slot, actor, key, span, ctx.actor_context);
}

proof fn lemma_link_setter_grows(
    m: MachineView,
    source: u64,
    alias: AliasView,
    key: PersistenceKey,
    span: Span,
    ctx: EvaluationContextView,
    slot: u32,
)
    ensures
        grown(m.plan, process_link_setter(m, source, alias, key, span, ctx, slot).plan),
{
    let context = ctx.actor_context;
    lemma_grown_same(m.plan);
    let first = ActorSpecView::LinkForwarder { source, alias, pass_through: key };
    let fresh = PersistenceKey::Fresh(m.plan.fresh);
    lemma_add_actor_grows(m.plan, m, first, fresh, span, context);
    let m1 = add_actor(drawn(m), first, fresh, span, context);
    let second = ActorSpecView::PassThrough { forwarder: next_actor(m), key };
    let key1 = PersistenceKey::Fresh(m1.plan.fresh);
    lemma_add_actor_grows(m.plan, m1, second, key1, span, context);
    let m2 = add_actor(drawn(m1), second, key1, span, context);
    lemma_emit_grows(
        m.plan,
        m2,
        slot,
        ActorSpecView::LinkRelay { pass_through: next_actor(m1), key },
        PersistenceKey::Fresh(m2.plan.fresh),
        span,
        context,
    );
}

/// Evaluating an expression leaves the actors and the registrations that a plan holds as they
/// are, and adds its own behind them.
pub proof fn lemma_evaluation_adds(
    depth: nat,
    plan: PlanView,
    e: SpannedExpressionView,
    ctx: EvaluationContextView,
)
    ensures
        match evaluated(depth, plan, e, ctx) {
            Ok(done) => grown(plan, done.0),
            Err(_) => true,
        },
    decreases depth, expr_size(e), 4nat, 0nat,
{
    let start = allocated(fresh_machine(plan), 1);
    lemma_schedule_grows(depth, start, e, ctx, 0);
    match schedule(depth, start, e, ctx, 0) {
        Ok(m) => {
            if total_weight(m.queue) <= expr_size(e) {
                lemma_run_grows(depth, m);
                match run_queue(depth, m) {
                    Ok(done) => {
                        lemma_grown_chain(plan, m.plan, done.plan);
                    },
                    Err(_) => {},
                }
            }
        },
        Err(_) => {},
    }
}

proof fn lemma_part_grows(
    depth: nat,
    bound: nat,
    m: MachineView,
    e: SpannedExpressionView,
    ctx: EvaluationContextView,
)
    ensures
        result_grown(m.plan, part_evaluated(depth, bound, m, e, ctx)),
    decreases depth, bound, 0nat, 0nat,
{
    if expr_size(e) < bound {
        lemma_evaluation_adds(depth, m.plan, e, ctx);
    }
}

proof fn lemma_run_grows(depth: nat, m: MachineView)
    ensures
        step_grown(m.plan, run_queue(depth, m)),
    decreases depth, total_weight(m.queue), 3nat, 0nat,
{
    lemma_grown_same(m.plan);
    if m.queue.len() > 0 {
        let rest = MachineView { queue: m.queue.drop_last(), ..m };
        lemma_process_grows(depth, rest, m.queue.last());
        match process(depth, rest, m.queue.last()) {
            Ok(after) => {
                if total_weight(after.queue) < total_weight(m.queue) {
                    lemma_run_grows(depth, after);
                    match run_queue(depth, after) {
                        Ok(done) => {
                            lemma_grown_chain(m.plan, after.plan, done.plan);
                        },
                        Err(_) => {},
                    }
                }
            },
            Err(_) => {},
        }
    }
}

proof fn lemma_jobs_grow(
    depth: nat,
    bound: nat,
    start: PlanView,
    m: MachineView,
    jobs: Seq<Job>,
    n: nat,
    ctx: EvaluationContextView,
)
    requires
        grown(start, m.plan),
    ensures
        step_grown(start, schedule_jobs(depth, bound, m, jobs, n, ctx)),
    decreases depth, bound, 0nat, n,
{
    if n > 0 {
        lemma_jobs_grow(depth, bound, start, m, jobs, (n - 1) as nat, ctx);
        match schedule_jobs(depth, bound, m, jobs, (n - 1) as nat, ctx) {
            Ok(before) => {
                let job = jobs[n - 1];
                if expr_size(job.0) < bound {
                    lemma_schedule_grows(depth, before, job.0, ctx, job.1);
                    match schedule(depth, before, job.0, ctx, job.1) {
                        Ok(after) => {
                            lemma_grown_chain(start, before.plan, after.plan);
                        },
                        Err(_) => {},
                    }
                }
            },
            Err(_) => {},
        }
    }
}

proof fn lemma_items_grow(
    depth: nat,
    bound: nat,
    start: PlanView,
    m: MachineView,
    items: Seq<SpannedExpressionView>,
    n: nat,
    base: u32,
    ctx: EvaluationContextView,
)
    requires
        grown(start, m.plan),
    ensures
        step_grown(start, schedule_items(depth, bound, m, items, n, base, ctx)),
    decreases depth, bound, 0nat, n,
{
    if n > 0 {
        lemma_items_grow(depth, bound, start, m, items, (n - 1) as nat, base, ctx);
        match schedule_items(depth, bound, m, items, (n - 1) as nat, base, ctx) {
            Ok(before) => {
                let item = items[n - 1];
                let segment = ScopeSegmentView::ListItem {
                    index: (n - 1) as u64,
                    key: key_of(before, item.persistence),
                };
                let item_ctx = with_context(ctx, in_child_scope(ctx.actor_context, segment));
                let known = keyed(before, item.persistence);
                lemma_keyed_grows(start, before, item.persistence);
                if expr_size(item) < bound {
                    let slot = slot_at(base, n - 1);
                    lemma_schedule_grows(depth, known, item, item_ctx, slot);
                    match schedule(depth, known, item, item_ctx, slot) {
                        Ok(after) => {
                            lemma_grown_chain(start, known.plan, after.plan);
                        },
                        Err(_) => {},
                    }
                }
            },
            Err(_) => {},
        }
    }
}

proof fn lemma_user_call_grows(
    depth: nat,
    m: MachineView,
    name: Seq<char>,
    path: Seq<Seq<char>>,
    arguments: Seq<(Seq<char>, u64)>,
    definition: StaticFunctionDefinitionView,
    key: PersistenceKey,
    span: Span,
    ctx: EvaluationContextView,
)
    ensures
        result_grown(
            m.plan,
            user_call(depth, m, name, path, arguments, definition, key, span, ctx),
        ),
    decreases depth, 0nat, 0nat, 0nat,
{
    let context = ctx.actor_context;
    let parameters = with_arguments(context.parameters, arguments, arguments.len());
    let param = unbound_parameter(definition.parameters, parameters);
    lemma_grown_same(m.plan);
    if context.piped is Some && param is Some {
        let actor = ActorSpecView::PipedUserCall {
            piped: context.piped->0,
            param: param->0,
            path,
            definition,
            parameters,
        };
        lemma_add_actor_grows(m.plan, m, actor, key, span, context);
    } else if depth > 0 {
        let body_ctx = with_context(
            ctx,
            call_body_context(
                context,
                context.piped,
                parameters,
                ScopeSegmentView::Call { key },
            ),
        );
        lemma_evaluation_adds((depth - 1) as nat, m.plan, definition.body, body_ctx);
        match evaluated((depth - 1) as nat, m.plan, definition.body, body_ctx) {
            Ok(done) => {
                let after = MachineView { plan: done.0, ..m };
                match done.1 {
                    Some(result) => {
                        lemma_add_actor_grows(
                            m.plan,
                            after,
                            ActorSpecView::UserCall { result, parameters },
                            key,
                            span,
                            context,
                        );
                    },
                    None => {},
                }
            },
            Err(_) => {},
        }
    }
}

proof fn lemma_call_grows(
    depth: nat,
    m: MachineView,
    path: Seq<Seq<char>>,
    arguments: Seq<(Seq<char>, u64)>,
    key: PersistenceKey,
    span: Span,
    ctx: EvaluationContextView,
    use_piped: bool,
)
    ensures
        result_grown(m.plan, call(depth, m, path, arguments, key, span, ctx, use_piped)),
    decreases depth, 0nat, 1nat, 0nat,
{
    let name = joined(path, "/"@);
    match called_function(m, ctx, name) {
        Some(definition) => {
            lemma_user_call_grows(depth, m, name, path, arguments, definition, key, span, ctx);
        },
        None => match builtin_of(path) {
            None => {},
            Some(function) => {
                let piped = if use_piped && ctx.actor_context.piped is Some {
                    seq![ctx.actor_context.piped->0]
                } else {
                    Seq::empty()
                };
                let actor = ActorSpecView::Builtin {
                    function,
                    arguments: piped + arguments.map_values(|a: (Seq<char>, u64)| a.1),
                };
                lemma_grown_same(m.plan);
                lemma_add_actor_grows(
                    m.plan,
                    m,
                    actor,
                    key,
                    span,
                    builtin_context(ctx.actor_context),
                );
            },
        },
    }
}

proof fn lemma_list_binding_grows(
    depth: nat,
    bound: nat,
    m: MachineView,
    name: Seq<char>,
    operation: ListBindingOperation,
    arguments: Seq<SpannedArgumentView>,
    key: PersistenceKey,
    span: Span,
    ctx: EvaluationContextView,
)
    ensures
        result_grown(
            m.plan,
            list_binding(depth, bound, m, name, operation, arguments, key, span, ctx),
        ),
    decreases depth, bound, 1nat, 0nat,
{
    lemma_grown_same(m.plan);
    if arguments.len() >= 2 {
        let list = match arguments[0].value {
            Some(value) => part_evaluated(depth, bound, m, value, ctx),
            None => match ctx.actor_context.piped {
                Some(piped) => Ok((m, Some(piped))),
                None => Err("List/"@ + name + " requires a list argument"@),
            },
        };
        match arguments[0].value {
            Some(value) => {
                lemma_part_grows(depth, bound, m, value, ctx);
            },
            None => {},
        }
        assert(result_grown(m.plan, list));
        match list {
            Ok(done) => match done.1 {
                Some(actor) => match list_binding_actor(name, operation, arguments, actor, ctx) {
                    Ok(spec) => {
                        lemma_add_actor_grows(
                            m.plan,
                            done.0,
                            spec,
                            key,
                            span,
                            ctx.actor_context,
                        );
                    },
                    Err(_) => {},
                },
                None => {},
            },
            Err(_) => {},
        }
    }
}

proof fn lemma_list_append_grows(
    depth: nat,
    bound: nat,
    m: MachineView,
    arguments: Seq<SpannedArgumentView>,
    key: PersistenceKey,
    span: Span,
    ctx: EvaluationContextView,
)
    ensures
        result_grown(m.plan, list_append(depth, bound, m, arguments, key, span, ctx)),
    decreases depth, bound, 1nat, 0nat,
{
    if arguments.len() > 0 {
        match (ctx.actor_context.piped, arguments[0].value) {
            (Some(list), Some(value)) => {
                let item_ctx = with_context(ctx, recording_context(ctx.actor_context, span));
                lemma_part_grows(depth, bound, m, value, item_ctx);
                match part_evaluated(depth, bound, m, value, item_ctx) {
                    Ok(done) => match done.1 {
                        Some(item) => {
                            let actor = ActorSpecView::ListAppend {
                                list,
                                item,
                                storage_key: append_storage_key(span),
                            };
                            lemma_add_actor_grows(
                                m.plan,
                                done.0,
                                actor,
                                key,
                                span,
                                ctx.actor_context,
                            );
                        },
                        None => {},
                    },
                    Err(_) => {},
                }
            },
            _ => {},
        }
    }
}

proof fn lemma_schedule_call_grows(
    depth: nat,
    bound: nat,
    m: MachineView,
    path: Seq<Seq<char>>,
    arguments: Seq<SpannedArgumentView>,
    span: Span,
    key: PersistenceKey,
    ctx: EvaluationContextView,
    slot: u32,
    forward: bool,
)
    ensures
        step_grown(
            m.plan,
            schedule_call(
                depth,
                bound,
                m,
                path,
                arguments,
                span,
                key,
                ctx,
                slot,
                forward,
            ),
        ),
    decreases depth, bound, 1nat, 0nat,
{
    lemma_argue_grows(m, arguments, arguments.len(), ctx, span, forward);
    match argue(m, arguments, arguments.len(), ctx, span, forward) {
        Ok(a) => {
            let job_ctx = if forward {
                with_locals(ctx, a.locals)
            } else {
                ctx
            };
            let called = pushed(
                a.m,
                WorkItemView::CallFunction {
                    path,
                    arg_slots: a.slots,
                    passed_slot: a.passed_slot,
                    passed_context: a.passed_context,
                    use_piped_for_builtin: !forward,
                    span,
                    key,
                    ctx,
                    result_slot: slot,
                },
            );
            let connected = if a.connections.len() > 0 {
                pushed(
                    called,
                    WorkItemView::ConnectForwardingActors { connections: a.connections },
                )
            } else {
                called
            };
            let wrapped = if forward {
                MachineView {
                    queue: connected.queue + wraps(a.jobs, a.jobs.len(), job_ctx),
                    ..connected
                }
            } else {
                connected
            };
            lemma_jobs_grow(depth, bound, m.plan, wrapped, a.jobs, a.jobs.len(), job_ctx);
        },
        Err(_) => {},
    }
}

proof fn lemma_schedule_object_grows(
    depth: nat,
    bound: nat,
    m: MachineView,
    tag: Option<Seq<char>>,
    variables: Seq<SpannedVariableView>,
    span: Span,
    key: PersistenceKey,
    ctx: EvaluationContextView,
    slot: u32,
)
    ensures
        step_grown(
            m.plan,
            schedule_object(depth, bound, m, tag, variables, span, key, ctx, slot),
        ),
    decreases depth, bound, 1nat, 0nat,
{
    lemma_declare_grows(m, variables, variables.len(), ctx);
    let d = declare(m, variables, variables.len(), ctx);
    let inner = with_locals(ctx, d.locals);
    let item = match tag {
        None => WorkItemView::BuildObject {
            variable_data: d.data,
            span,
            key,
            ctx: inner,
            result_slot: slot,
        },
        Some(tag) => WorkItemView::BuildTaggedObject {
            tag,
            variable_data: d.data,
            span,
            key,
            ctx: inner,
            result_slot: slot,
        },
    };
    let first = value_jobs(variables, d.data, variables.len(), Some(false));
    let second = value_jobs(variables, d.data, variables.len(), Some(true));
    let jobs = first + second;
    lemma_jobs_grow(depth, bound, m.plan, pushed(d.m, item), jobs, jobs.len(), inner);
}

proof fn lemma_schedule_block_grows(
    depth: nat,
    bound: nat,
    m: MachineView,
    variables: Seq<SpannedVariableView>,
    output: SpannedExpressionView,
    span: Span,
    key: PersistenceKey,
    ctx: EvaluationContextView,
    slot: u32,
)
    ensures
        step_grown(
            m.plan,
            schedule_block(depth, bound, m, variables, output, span, key, ctx, slot),
        ),
    decreases depth, bound, 1nat, 0nat,
{
    let object_slot = m.next_slot;
    let output_slot = slot_at(m.next_slot, 1);
    lemma_declare_grows(allocated(m, 2), variables, variables.len(), ctx);
    let d = declare(allocated(m, 2), variables, variables.len(), ctx);
    let inner = with_context(
        ctx,
        ActorContextView {
            object_locals: d.locals,
            is_snapshot_context: false,
            ..ctx.actor_context
        },
    );
    let framed = pushed(
        d.m,
        WorkItemView::BuildBlock { object_slot, output_slot, result_slot: slot },
    );
    let job = seq![(output, output_slot)];
    lemma_jobs_grow(depth, bound, m.plan, framed, job, 1, inner);
    match schedule_jobs(depth, bound, framed, job, 1, inner) {
        Ok(after) => {
            let built = pushed(
                after,
                WorkItemView::BuildObject {
                    variable_data: d.data,
                    span,
                    key,
                    ctx: inner,
                    result_slot: object_slot,
                },
            );
            let jobs = value_jobs(variables, d.data, variables.len(), None);
            lemma_jobs_grow(depth, bound, m.plan, built, jobs, jobs.len(), inner);
        },
        Err(_) => {},
    }
}

proof fn lemma_process_hold_grows(
    depth: nat,
    bound: nat,
    m: MachineView,
    initial: u64,
    state_param: Seq<char>,
    body: SpannedExpressionView,
    key: PersistenceKey,
    span: Span,
    ctx: EvaluationContextView,
    slot: u32,
)
    ensures
        step_grown(
            m.plan,
            process_hold(depth, bound, m, initial, state_param, body, key, span, ctx, slot),
        ),
    decreases depth, bound, 1nat, 0nat,
{
    let context = ctx.actor_context;
    let state = next_actor(m);
    let spec = ActorSpecView::HoldState { state_param, initial };
    let fresh = PersistenceKey::Fresh(m.plan.fresh);
    let held = add_actor(drawn(m), spec, fresh, span, context);
    lemma_grown_same(m.plan);
    lemma_add_actor_grows(m.plan, m, spec, fresh, span, context);
    let body_ctx = with_context(ctx, hold_body_context(context, state_param, state));
    lemma_part_grows(depth, bound, held, body, body_ctx);
    match part_evaluated(depth, bound, held, body, body_ctx) {
        Ok(done) => {
            lemma_grown_chain(m.plan, held.plan, done.0.plan);
            match done.1 {
                Some(result) => {
                    lemma_emit_grows(
                        m.plan,
                        done.0,
                        slot,
                        ActorSpecView::Hold { state, body: result, initial },
                        key,
                        span,
                        context,
                    );
                },
                None => {},
            }
        },
        Err(_) => {},
    }
}

proof fn lemma_process_call_grows(
    depth: nat,
    m: MachineView,
    path: Seq<Seq<char>>,
    arg_slots: Seq<ArgumentSlotView>,
    passed_context: Option<u32>,
    use_piped: bool,
    span: Span,
    key: PersistenceKey,
    ctx: EvaluationContextView,
    slot: u32,
)
    ensures
        step_grown(
            m.plan,
            process_call(
                depth,
                m,
                path,
                arg_slots,
                passed_context,
                use_piped,
                span,
                key,
                ctx,
                slot,
            ),
        ),
    decreases depth, 0nat, 2nat, 0nat,
{
    let arguments = found_arguments(m, arg_slots, arg_slots.len());
    let call_ctx = if passed_context is Some && m.results.contains_key(passed_context->0) {
        with_context(
            ctx,
            ActorContextView { passed: Some(m.results[passed_context->0]), ..ctx.actor_context },
        )
    } else {
        ctx
    };
    lemma_call_grows(depth, m, path, arguments, key, span, call_ctx, use_piped);
    match call(depth, m, path, arguments, key, span, call_ctx, use_piped) {
        Ok(done) => {
            let after = MachineView { loops: Seq::empty(), ..done.0 };
            match done.1 {
                Some(actor) => {
                    lemma_emit_grows(
                        m.plan,
                        after,
                        slot,
                        ActorSpecView::WithLoops { source: actor, loops: done.0.loops },
                        key,
                        span,
                        call_ctx.actor_context,
                    );
                },
                None => {},
            }
        },
        Err(_) => {},
    }
}

proof fn lemma_schedule_grows(
    depth: nat,
    start: MachineView,
    e: SpannedExpressionView,
    ctx: EvaluationContextView,
    slot: u32,
)
    ensures
        step_grown(start.plan, schedule(depth, start, e, ctx, slot)),
    decreases depth, expr_size(e), 2nat, 0nat,
{
    let key = key_of(start, e.persistence);
    let m = keyed(start, e.persistence);
    let span = e.span;
    let context = ctx.actor_context;
    let bound = expr_size(e);
    lemma_grown_same(start.plan);
    lemma_keyed_grows(start.plan, start, e.persistence);
    lemma_grown_same(m.plan);
    match e.node {
        ExpressionView::Literal(literal) => {
            lemma_emit_grows(
                m.plan,
                m,
                slot,
                ActorSpecView::Literal(literal),
                key,
                span,
                context,
            );
        },
        ExpressionView::List { items } => {
            let slots = Seq::new(items.len(), |i: int| slot_at(m.next_slot, i));
            let built = pushed(
                allocated(m, items.len()),
                WorkItemView::BuildList {
                    item_slots: slots,
                    span,
                    key,
                    ctx,
                    result_slot: slot,
                },
            );
            lemma_items_grow(
                depth,
                bound,
                m.plan,
                built,
                items,
                items.len(),
                m.next_slot,
                ctx,
            );
        },
        ExpressionView::Operator { op, operand_a, operand_b } => {
            let a_slot = m.next_slot;
            let b_slot = slot_at(m.next_slot, 1);
            let built = pushed(
                allocated(m, 2),
                WorkItemView::BinaryOp {
                    op,
                    operand_a_slot: a_slot,
                    operand_b_slot: b_slot,
                    span,
                    key,
                    ctx,
                    result_slot: slot,
                },
            );
            let jobs = seq![(*operand_a, a_slot), (*operand_b, b_slot)];
            lemma_jobs_grow(depth, bound, m.plan, built, jobs, 2, ctx);
        },
        ExpressionView::Negate { operand } => {
            let minus_slot = m.next_slot;
            let operand_slot = slot_at(m.next_slot, 1);
            let spec = ActorSpecView::Literal(LiteralView::Number(MINUS_ONE_BITS));
            let minus = emit(allocated(m, 2), minus_slot, spec, key, span, context);
            lemma_emit_grows(m.plan, allocated(m, 2), minus_slot, spec, key, span, context);
            let built = pushed(
                minus,
                WorkItemView::BinaryOp {
                    op: BinaryOpKind::Multiply,
                    operand_a_slot: minus_slot,
                    operand_b_slot: operand_slot,
                    span,
                    key,
                    ctx,
                    result_slot: slot,
                },
            );
            lemma_jobs_grow(
                depth,
                bound,
                m.plan,
                built,
                seq![(*operand, operand_slot)],
                1,
                ctx,
            );
        },
        ExpressionView::Alias(alias) => {
            lemma_alias_grows(m, alias, key, span, ctx);
        },
        ExpressionView::Then { body } => {
            lemma_emit_result_grows(
                m,
                slot,
                then_actor(m, *body, kept_id(key), ctx),
                key,
                span,
                context,
            );
        },
        ExpressionView::When { arms } => {
            lemma_emit_result_grows(m, slot, when_actor(m, arms, ctx), key, span, context);
        },
        ExpressionView::While { arms } => {
            lemma_emit_result_grows(m, slot, while_actor(m, arms, ctx), key, span, context);
        },
        ExpressionView::Pipe { .. } => {
            let steps = pipe_steps(e);
            let set_up = piped_machine(m, steps.skip(1), ctx, slot);
            lemma_jobs_grow(
                depth,
                bound,
                m.plan,
                set_up,
                seq![(steps[0], m.next_slot)],
                1,
                ctx,
            );
        },
        ExpressionView::Block { variables, output } => {
            lemma_schedule_block_grows(
                depth,
                bound,
                m,
                variables,
                *output,
                span,
                key,
                ctx,
                slot,
            );
        },
        ExpressionView::Object { variables } => {
            lemma_schedule_object_grows(
                depth,
                bound,
                m,
                None,
                variables,
                span,
                key,
                ctx,
                slot,
            );
        },
        ExpressionView::TaggedObject { tag, variables } => {
            lemma_schedule_object_grows(
                depth,
                bound,
                m,
                Some(tag),
                variables,
                span,
                key,
                ctx,
                slot,
            );
        },
        ExpressionView::Latest { inputs } => {
            let slots = Seq::new(inputs.len(), |i: int| slot_at(m.next_slot, i));
            let built = pushed(
                allocated(m, inputs.len()),
                WorkItemView::BuildLatest {
                    input_slots: slots,
                    span,
                    key,
                    ctx,
                    result_slot: slot,
                },
            );
            let jobs = Seq::new(inputs.len(), |i: int| (inputs[i], slot_at(m.next_slot, i)));
            lemma_jobs_grow(depth, bound, m.plan, built, jobs, jobs.len(), ctx);
        },
        ExpressionView::FunctionCall { path, arguments } => match binding_operation(path) {
            Some(operation) => {
                lemma_list_binding_grows(
                    depth,
                    bound,
                    m,
                    path[1],
                    operation,
                    arguments,
                    key,
                    span,
                    ctx,
                );
            },
            None => {
                if is_list_path(path, "append"@) {
                    lemma_list_append_grows(depth, bound, m, arguments, key, span, ctx);
                } else {
                    lemma_schedule_call_grows(
                        depth,
                        bound,
                        m,
                        path,
                        arguments,
                        span,
                        key,
                        ctx,
                        slot,
                        true,
                    );
                }
            },
        },
        ExpressionView::TextLiteral { parts } => {
            lemma_text_literal_grows(m, parts, key, span, ctx, slot);
        },
        ExpressionView::Function { name, parameters, body } => {
            let definition = StaticFunctionDefinitionView { parameters, body: *body };
            let known = MachineView { registry: m.registry.insert(name, definition), ..m };
            lemma_emit_grows(
                m.plan,
                known,
                slot,
                ActorSpecView::Function { name },
                key,
                span,
                context,
            );
        },
        ExpressionView::LinkSetter { alias } => {
            lemma_alias_grows(m, alias, key, span, ctx);
            match alias_step(m, alias, key, span, ctx) {
                Ok(done) => {
                    lemma_emit_grows(
                        m.plan,
                        done.0,
                        slot,
                        ActorSpecView::Relay { source: done.1 },
                        key,
                        span,
                        context,
                    );
                },
                Err(_) => {},
            }
        },
        ExpressionView::FieldAccess { path } => match context.piped {
            Some(piped) => {
                lemma_emit_grows(
                    m.plan,
                    m,
                    slot,
                    ActorSpecView::FieldAccess { piped, path },
                    key,
                    span,
                    context,
                );
            },
            None => {},
        },
        _ => {},
    }
    match schedule(depth, start, e, ctx, slot) {
        Ok(after) => {
            assert(grown(m.plan, after.plan));
            lemma_grown_chain(start.plan, m.plan, after.plan);
        },
        Err(_) => {},
    }
}

proof fn lemma_process_grows(depth: nat, m: MachineView, item: WorkItemView)
    ensures
        step_grown(m.plan, process(depth, m, item)),
    decreases depth, weight(item), 2nat, 0nat,
{
    let bound = weight(item);
    lemma_grown_same(m.plan);
    match item {
        WorkItemView::Evaluate { expr, ctx, result_slot } => {
            lemma_schedule_grows(depth, m, expr, ctx, result_slot);
        },
        WorkItemView::BuildObject { variable_data, span, key, ctx, result_slot } => {
            lemma_process_object_grows(
                m,
                None,
                variable_data,
                span,
                key,
                ctx,
                result_slot,
            );
        },
        WorkItemView::BuildTaggedObject {
            tag,
            variable_data,
            span,
            key,
            ctx,
            result_slot,
        } => {
            lemma_process_object_grows(
                m,
                Some(tag),
                variable_data,
                span,
                key,
                ctx,
                result_slot,
            );
        },
        WorkItemView::BuildHold {
            initial_slot,
            state_param,
            body,
            span,
            key,
            ctx,
            result_slot,
        } => {
            if m.results.contains_key(initial_slot) {
                lemma_process_hold_grows(
                    depth,
                    bound,
                    m,
                    m.results[initial_slot],
                    state_param,
                    body,
                    key,
                    span,
                    ctx,
                    result_slot,
                );
            }
        },
        WorkItemView::EvaluateWithPiped { expr, prev_slot, ctx, result_slot } => {
            if m.results.contains_key(prev_slot) {
                let piped = m.results[prev_slot];
                let inner = with_context(
                    ctx,
                    ActorContextView { piped: Some(piped), ..ctx.actor_context },
                );
                match expr.node {
                    ExpressionView::FunctionCall { path, arguments } => {
                        if binding_operation(path) is Some || is_list_path(path, "append"@) {
                            lemma_schedule_grows(depth, m, expr, inner, result_slot);
                        } else {
                            let known = keyed(m, expr.persistence);
                            let key = key_of(m, expr.persistence);
                            lemma_keyed_grows(m.plan, m, expr.persistence);
                            lemma_schedule_call_grows(
                                depth,
                                expr_size(expr),
                                known,
                                path,
                                arguments,
                                expr.span,
                                key,
                                inner,
                                result_slot,
                                false,
                            );
                            match schedule_call(
                                depth,
                                expr_size(expr),
                                known,
                                path,
                                arguments,
                                expr.span,
                                key,
                                inner,
                                result_slot,
                                false,
                            ) {
                                Ok(after) => {
                                    lemma_grown_chain(m.plan, known.plan, after.plan);
                                },
                                Err(_) => {},
                            }
                        }
                    },
                    ExpressionView::LinkSetter { alias } => {
                        let known = keyed(m, expr.persistence);
                        let key = key_of(m, expr.persistence);
                        lemma_keyed_grows(m.plan, m, expr.persistence);
                        lemma_link_setter_grows(
                            known,
                            piped,
                            alias,
                            key,
                            expr.span,
                            inner,
                            result_slot,
                        );
                        lemma_grown_chain(
                            m.plan,
                            known.plan,
                            process_link_setter(
                                known,
                                piped,
                                alias,
                                key,
                                expr.span,
                                inner,
                                result_slot,
                            ).plan,
                        );
                    },
                    _ => {
                        lemma_schedule_grows(depth, m, expr, inner, result_slot);
                    },
                }
            }
        },
        WorkItemView::CallFunction {
            path,
            arg_slots,
            passed_context,
            use_piped_for_builtin,
            span,
            key,
            ctx,
            result_slot,
            ..
        } => {
            lemma_process_call_grows(
                depth,
                m,
                path,
                arg_slots,
                passed_context,
                use_piped_for_builtin,
                span,
                key,
                ctx,
                result_slot,
            );
        },
        _ => {
            lemma_process_simple_grows(depth, m, item);
        },
    }
}

proof fn lemma_process_simple_grows(depth: nat, m: MachineView, item: WorkItemView)
    requires
        item is BinaryOp || item is BuildList || item is BuildLatest || item is BuildThen
            || item is BuildWhen || item is BuildWhile || item is BuildBlock
            || item is ConnectForwardingActors || item is WrapWithPersistence,
    ensures
        step_grown(m.plan, process(depth, m, item)),
{
    lemma_grown_same(m.plan);
    match process(depth, m, item) {
        Ok(after) => {
            reveal(grown);
        },
        Err(_) => {},
    }
}

proof fn lemma_drawn_actor_grows(
    before: PlanView,
    plan: PlanView,
    actor: ActorSpecView,
    span: Span,
    context: ActorContextView,
)
    requires
        grown(before, plan),
    ensures
        grown(before, with_drawn(plan, actor, span, context)),
{
    reveal(grown);
}

proof fn lemma_frozen_grows(
    before: PlanView,
    plan: PlanView,
    parameters: Seq<(Seq<char>, u64)>,
    current: Map<Seq<char>, ValueView>,
    span: Span,
    context: ActorContextView,
)
    requires
        grown(before, plan),
    ensures
        grown(before, frozen(plan, parameters, current, span, context).0),
    decreases parameters.len(),
{
    if parameters.len() > 0 {
        let front = parameters.drop_last();
        let name = parameters.last().0;
        lemma_frozen_grows(before, plan, front, current, span, context);
        lemma_drawn_actor_grows(
            before,
            frozen(plan, front, current, span, context).0,
            ActorSpecView::Constant(current[name]),
            span,
            context,
        );
    }
}

proof fn lemma_bindings_grow(
    before: PlanView,
    plan: PlanView,
    parameters: Map<Seq<char>, u64>,
    bindings: Seq<(Seq<char>, ValueView)>,
    span: Span,
    context: ActorContextView,
)
    requires
        grown(before, plan),
    ensures
        grown(before, with_bindings(plan, parameters, bindings, span, context).0),
    decreases bindings.len(),
{
    if bindings.len() > 0 {
        let front = bindings.drop_last();
        lemma_bindings_grow(before, plan, parameters, front, span, context);
        lemma_drawn_actor_grows(
            before,
            with_bindings(plan, parameters, front, span, context).0,
            ActorSpecView::Constant(bindings.last().1),
            span,
            context,
        );
    }
}

proof fn lemma_tried_grows(
    before: PlanView,
    depth: nat,
    plan: PlanView,
    e: SpannedExpressionView,
    ctx: EvaluationContextView,
)
    requires
        grown(before, plan),
    ensures
        grown(before, tried(depth, plan, e, ctx).0),
{
    reveal(tried);
    lemma_evaluation_adds(depth, plan, e, ctx);
    match evaluated(depth, plan, e, ctx) {
        Ok(done) => {
            lemma_grown_chain(before, plan, done.0);
        },
        Err(_) => {},
    }
}

/// What follows from a value that reaches THEN, WHEN or WHILE leaves the actors and the
/// registrations that are there as they are.
pub proof fn lemma_reactions_add(
    depth: nat,
    plan: PlanView,
    body: SpannedExpressionView,
    registry: FunctionRegistryView,
    span: Span,
    ctx: EvaluationContextView,
    value: ValueView,
    current: Map<Seq<char>, ValueView>,
    bindings: Map<Seq<char>, ValueView>,
    arm: u64,
    subscription: u64,
)
    ensures
        grown(plan, then_reaction(depth, plan, body, registry, span, ctx, value, current).0),
        grown(
            plan,
            when_reaction(depth, plan, body, registry, span, ctx, value, current, bindings).0,
        ),
        grown(
            plan,
            while_reaction(
                depth,
                plan,
                body,
                registry,
                span,
                ctx,
                value,
                bindings,
                arm,
                subscription,
            ).0,
        ),
{
    let c = ctx.actor_context;
    let pairs = ordered_pairs(bindings);
    lemma_grown_same(plan);
    lemma_drawn_actor_grows(plan, plan, ActorSpecView::Constant(value), span, c);
    let p = with_constant(plan, value, span, c);
    lemma_frozen_grows(plan, p, ordered_pairs(c.parameters), current, span, c);
    let f = frozen(p, ordered_pairs(c.parameters), current, span, c);
    lemma_bindings_grow(plan, f.0, f.1, pairs, span, c);
    lemma_bindings_grow(plan, p, c.parameters, pairs, span, c);
    let b = with_bindings(f.0, f.1, pairs, span, c);
    let w = with_bindings(p, c.parameters, pairs, span, c);
    let input = plan_next(plan);
    lemma_tried_grows(
        plan,
        depth,
        f.0,
        body,
        body_context(ctx, snapshot_context(c, input, f.1), registry),
    );
    lemma_tried_grows(
        plan,
        depth,
        b.0,
        body,
        body_context(ctx, snapshot_context(c, input, b.1), registry),
    );
    lemma_tried_grows(
        plan,
        depth,
        w.0,
        body,
        body_context(ctx, while_arm_context(c, input, w.1, arm, subscription), registry),
    );
}

proof fn lemma_restored_call_grows(
    before: PlanView,
    depth: nat,
    plan: PlanView,
    call: RecordedCallView,
    span: Span,
    ctx: EvaluationContextView,
)
    requires
        grown(before, plan),
    ensures
        grown(before, restored_call(depth, plan, call, span, ctx).0),
{
    let c = ctx.actor_context;
    match call.input {
        Some(value) => {
            let p = with_constant(plan, value, span, c);
            lemma_drawn_actor_grows(before, plan, ActorSpecView::Constant(value), span, c);
            match function_named(ctx, joined(call.path, "/"@)) {
                Some(definition) => {
                    let parameters = if definition.parameters.len() == 0 {
                        c.parameters
                    } else {
                        c.parameters.insert(definition.parameters[0], plan_next(plan))
                    };
                    let inner = with_context(
                        ctx,
                        restoring_context(recording_context(c, span), parameters, call.id),
                    );
                    lemma_tried_grows(before, depth, p, definition.body, inner);
                    let done = tried(depth, p, definition.body, inner);
                    match done.1 {
                        Some(source) => {
                            lemma_drawn_actor_grows(
                                before,
                                done.0,
                                ActorSpecView::RestoredItem {
                                    source,
                                    storage_key: append_storage_key(span),
                                    call_id: call.id,
                                },
                                span,
                                c,
                            );
                        },
                        None => {},
                    }
                },
                None => {},
            }
        },
        None => {},
    }
}

/// Making recorded calls again leaves the actors and the registrations that are there as they
/// are, and gives at most one item for each call.
pub proof fn lemma_restoring_adds(
    depth: nat,
    plan: PlanView,
    calls: Seq<RecordedCallView>,
    span: Span,
    ctx: EvaluationContextView,
)
    ensures
        grown(plan, restored_calls(depth, plan, calls, span, ctx).0),
        restored_calls(depth, plan, calls, span, ctx).1.len() <= calls.len(),
    decreases calls.len(),
{
    lemma_grown_same(plan);
    if calls.len() > 0 {
        lemma_restoring_adds(depth, plan, calls.drop_last(), span, ctx);
        let before = restored_calls(depth, plan, calls.drop_last(), span, ctx);
        lemma_restored_call_grows(plan, depth, before.0, calls.last(), span, ctx);
    }
}

} // verus!
