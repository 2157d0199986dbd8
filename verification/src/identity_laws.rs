//! That another identity of an expression leads to other identities, and to nothing else.
use crate::builtins::joined;
use crate::contexts::{
    append_storage_key, builtin_context, call_body_context, child_scope, hold_body_context,
    in_child_scope, recording_context, root_context, snapshot_context, with_context,
};
use crate::evaluation::{
    AliasTarget, Arguments, Built, Job, MINUS_ONE_BITS, Step, alias_step, alias_target, argue,
    binding_operation, build, build_one, builtin_of, call, called_function, connected, declare,
    emit_result, evaluated, expr_size, found, found_arguments, is_list_path, kept_id, list_append,
    list_binding, list_binding_actor, part_evaluated, pipe_steps, piped_machine, process,
    process_call, process_hold, process_link_setter, process_object, run_queue, schedule,
    schedule_block, schedule_call, schedule_items, schedule_jobs, schedule_object, store_optional,
    text_literal_step, text_part_step, text_parts_step, then_actor, total_weight,
    unbound_parameter, user_call, value_jobs, variable_known, visible_functions, weight,
    when_actor, while_actor, with_arguments, with_locals, wraps,
};
use crate::evaluation_state::{
    MachineView, add_actor, allocated, drawn, emit, fresh_machine, key_of, keyed, next_actor,
    pushed, registered, slot_at, stored,
};
use crate::expression_view::{
    AliasView, ArmView, ExpressionView, LiteralView, PatternView, SpannedArgumentView,
    SpannedExpressionView, SpannedVariableView, StaticFunctionDefinitionView, TextPartView,
};
use crate::matching::plain_match;
use crate::plan::{ForwardingConnection, ListBindingOperation, PersistenceKey};
use crate::plan_view::{
    ActorContextView, ActorNodeView, ActorSpecView, ArgumentSlotView, EvaluationContextView,
    FunctionRegistryView, ObjectVariableDataView, PlanView, RegistrationView, ScopeSegmentView,
    ScopeView, VariableSpecView, WorkItemView,
};
use crate::reactions::{
    arm_matched, body_context, frozen, lemma_then_is_when_without_arms, plan_next, then_reaction,
    tried, when_reaction, with_constant,
};
use crate::static_expression::{BinaryOpKind, PersistenceId, Span};
use crate::text::split_parts;
use crate::text_map::ordered_pairs;
use crate::value::ValueView;
use vstd::prelude::*;

verus! {

/// A key that stands for all.
pub open spec fn any_key() -> PersistenceKey {
    PersistenceKey::Fresh(0)
}

/// A level of a scope without its identity.
pub open spec fn plain_segment(segment: ScopeSegmentView) -> ScopeSegmentView {
    match segment {
        ScopeSegmentView::ListItem { index, .. } => ScopeSegmentView::ListItem {
            index,
            key: any_key(),
        },
        ScopeSegmentView::Call { .. } => ScopeSegmentView::Call { key: any_key() },
        _ => segment,
    }
}

/// A scope without identities.
pub open spec fn plain_scope(scope: ScopeView) -> ScopeView {
    ScopeView { segments: scope.segments.map_values(|s: ScopeSegmentView| plain_segment(s)) }
}

/// A context without identities.
pub open spec fn plain_context(c: ActorContextView) -> ActorContextView {
    ActorContextView { scope: plain_scope(c.scope), ..c }
}

/// A context of an evaluation without identities.
pub open spec fn plain_ctx(ctx: EvaluationContextView) -> EvaluationContextView {
    EvaluationContextView { actor_context: plain_context(ctx.actor_context), ..ctx }
}

/// A variable without its identity.
pub open spec fn plain_variable(v: VariableSpecView) -> VariableSpecView {
    VariableSpecView { key: any_key(), ..v }
}

/// What is known of a variable without its identity.
pub open spec fn plain_data(d: ObjectVariableDataView) -> ObjectVariableDataView {
    ObjectVariableDataView { key: any_key(), ..d }
}

/// What an actor does, without identities.
pub open spec fn plain_spec(a: ActorSpecView) -> ActorSpecView {
    match a {
        ActorSpecView::Then { piped, body, registry, ordered, lazy } => ActorSpecView::Then {
            piped,
            body: SpannedExpressionView { persistence: None, ..body },
            registry,
            ordered,
            lazy,
        },
        ActorSpecView::Object { variables } => ActorSpecView::Object {
            variables: variables.map_values(|v: VariableSpecView| plain_variable(v)),
        },
        ActorSpecView::TaggedObject { tag, variables } => ActorSpecView::TaggedObject {
            tag,
            variables: variables.map_values(|v: VariableSpecView| plain_variable(v)),
        },
        ActorSpecView::LinkForwarder { source, alias, .. } => ActorSpecView::LinkForwarder {
            source,
            alias,
            pass_through: any_key(),
        },
        ActorSpecView::PassThrough { forwarder, .. } => ActorSpecView::PassThrough {
            forwarder,
            key: any_key(),
        },
        ActorSpecView::LinkRelay { pass_through, .. } => ActorSpecView::LinkRelay {
            pass_through,
            key: any_key(),
        },
        _ => a,
    }
}

/// An actor without identities.
pub open spec fn plain_node(n: ActorNodeView) -> ActorNodeView {
    ActorNodeView {
        actor: plain_spec(n.actor),
        key: any_key(),
        span: n.span,
        context: plain_context(n.context),
    }
}

/// A registration without identities.
pub open spec fn plain_registration(r: RegistrationView) -> RegistrationView {
    match r {
        RegistrationView::Link { span, scope, actor } => RegistrationView::Link {
            span,
            scope: plain_scope(scope),
            actor,
        },
        _ => r,
    }
}

/// A plan without identities: what its actors do, on what, and where they can be found.
#[verifier::opaque]
pub open spec fn plain_plan(p: PlanView) -> PlanView {
    PlanView {
        actors: p.actors.map_values(|n: ActorNodeView| plain_node(n)),
        registrations: p.registrations.map_values(|r: RegistrationView| plain_registration(r)),
        fresh: 0,
    }
}

/// A step without identities.
pub open spec fn plain_item(item: WorkItemView) -> WorkItemView {
    match item {
        WorkItemView::Evaluate { expr, ctx, result_slot } => WorkItemView::Evaluate {
            expr,
            ctx: plain_ctx(ctx),
            result_slot,
        },
        WorkItemView::BinaryOp {
            op,
            operand_a_slot,
            operand_b_slot,
            span,
            ctx,
            result_slot,
            ..
        } => WorkItemView::BinaryOp {
            op,
            operand_a_slot,
            operand_b_slot,
            span,
            key: any_key(),
            ctx: plain_ctx(ctx),
            result_slot,
        },
        WorkItemView::BuildList { item_slots, span, ctx, result_slot, .. } => {
            WorkItemView::BuildList {
                item_slots,
                span,
                key: any_key(),
                ctx: plain_ctx(ctx),
                result_slot,
            }
        },
        WorkItemView::BuildObject { variable_data, span, ctx, result_slot, .. } => {
            WorkItemView::BuildObject {
                variable_data: variable_data.map_values(
                    |d: ObjectVariableDataView| plain_data(d),
                ),
                span,
                key: any_key(),
                ctx: plain_ctx(ctx),
                result_slot,
            }
        },
        WorkItemView::BuildTaggedObject { tag, variable_data, span, ctx, result_slot, .. } => {
            WorkItemView::BuildTaggedObject {
                tag,
                variable_data: variable_data.map_values(
                    |d: ObjectVariableDataView| plain_data(d),
                ),
                span,
                key: any_key(),
                ctx: plain_ctx(ctx),
                result_slot,
            }
        },
        WorkItemView::BuildLatest { input_slots, span, ctx, result_slot, .. } => {
            WorkItemView::BuildLatest {
                input_slots,
                span,
                key: any_key(),
                ctx: plain_ctx(ctx),
                result_slot,
            }
        },
        WorkItemView::BuildThen { piped_slot, body, span, ctx, result_slot, .. } => {
            WorkItemView::BuildThen {
                piped_slot,
                body,
                span,
                key: any_key(),
                ctx: plain_ctx(ctx),
                result_slot,
            }
        },
        WorkItemView::BuildWhen { piped_slot, arms, span, ctx, result_slot, .. } => {
            WorkItemView::BuildWhen {
                piped_slot,
                arms,
                span,
                key: any_key(),
                ctx: plain_ctx(ctx),
                result_slot,
            }
        },
        WorkItemView::BuildWhile { piped_slot, arms, span, ctx, result_slot, .. } => {
            WorkItemView::BuildWhile {
                piped_slot,
                arms,
                span,
                key: any_key(),
                ctx: plain_ctx(ctx),
                result_slot,
            }
        },
        WorkItemView::BuildHold {
            initial_slot,
            state_param,
            body,
            span,
            ctx,
            result_slot,
            ..
        } => WorkItemView::BuildHold {
            initial_slot,
            state_param,
            body,
            span,
            key: any_key(),
            ctx: plain_ctx(ctx),
            result_slot,
        },
        WorkItemView::BuildBlock { .. } => item,
        WorkItemView::EvaluateWithPiped { expr, prev_slot, ctx, result_slot } => {
            WorkItemView::EvaluateWithPiped { expr, prev_slot, ctx: plain_ctx(ctx), result_slot }
        },
        WorkItemView::CallFunction {
            path,
            arg_slots,
            passed_slot,
            passed_context,
            use_piped_for_builtin,
            span,
            ctx,
            result_slot,
            ..
        } => WorkItemView::CallFunction {
            path,
            arg_slots,
            passed_slot,
            passed_context,
            use_piped_for_builtin,
            span,
            key: any_key(),
            ctx: plain_ctx(ctx),
            result_slot,
        },
        WorkItemView::ConnectForwardingActors { .. } => item,
        WorkItemView::WrapWithPersistence { source_slot, persistence_id, ctx, result_slot } => {
            WorkItemView::WrapWithPersistence {
                source_slot,
                persistence_id,
                ctx: plain_ctx(ctx),
                result_slot,
            }
        },
    }
}

/// Whether two machines differ in identities alone.
#[verifier::opaque]
pub open spec fn alike(a: MachineView, b: MachineView) -> bool {
    &&& a.queue.map_values(|i: WorkItemView| plain_item(i)) == b.queue.map_values(
        |i: WorkItemView| plain_item(i),
    )
    &&& a.results == b.results
    &&& a.next_slot == b.next_slot
    &&& a.registry == b.registry
    &&& a.loops == b.loops
    &&& plain_plan(a.plan) == plain_plan(b.plan)
    &&& a.plan.actors.len() == b.plan.actors.len()
}

/// Whether two steps come to the same but for identities.
pub open spec fn steps_alike(a: Step, b: Step) -> bool {
    match (a, b) {
        (Ok(x), Ok(y)) => alike(x, y),
        (Err(x), Err(y)) => x == y,
        _ => false,
    }
}

/// Whether two results with an actor come to the same but for identities.
pub open spec fn results_alike(
    a: Result<(MachineView, Option<u64>), Seq<char>>,
    b: Result<(MachineView, Option<u64>), Seq<char>>,
) -> bool {
    match (a, b) {
        (Ok(x), Ok(y)) => alike(x.0, y.0) && x.1 == y.1,
        (Err(x), Err(y)) => x == y,
        _ => false,
    }
}

/// Whether two evaluations come to the same but for identities.
pub open spec fn outcomes_alike(
    a: Result<(PlanView, Option<u64>), Seq<char>>,
    b: Result<(PlanView, Option<u64>), Seq<char>>,
) -> bool {
    match (a, b) {
        (Ok(x), Ok(y)) => plain_plan(x.0) == plain_plan(y.0) && x.0.actors.len()
            == y.0.actors.len() && x.1 == y.1,
        (Err(x), Err(y)) => x == y,
        _ => false,
    }
}

/// Whether two expressions differ in their own identity at most.
pub open spec fn same_expression(a: SpannedExpressionView, b: SpannedExpressionView) -> bool {
    a.span == b.span && a.node == b.node
}

proof fn lemma_alike_facts(a: MachineView, b: MachineView)
    requires
        alike(a, b),
    ensures
        a.results == b.results,
        a.next_slot == b.next_slot,
        a.registry == b.registry,
        a.loops == b.loops,
        next_actor(a) == next_actor(b),
        a.plan.actors.len() == b.plan.actors.len(),
        plain_plan(a.plan) == plain_plan(b.plan),
        a.queue.len() == b.queue.len(),
{
    reveal(alike);
    let f = |i: WorkItemView| plain_item(i);
    assert(a.queue.map_values(f).len() == a.queue.len());
    assert(b.queue.map_values(f).len() == b.queue.len());
}

/// Machines that are alike stay so where the same happens to what holds no identities.
proof fn lemma_alike_with(a: MachineView, b: MachineView, x: MachineView, y: MachineView)
    requires
        alike(a, b),
        x.queue == a.queue,
        y.queue == b.queue,
        x.results == y.results,
        x.next_slot == y.next_slot,
        x.registry == y.registry,
        x.loops == y.loops,
        x.plan.actors == a.plan.actors,
        x.plan.registrations == a.plan.registrations,
        y.plan.actors == b.plan.actors,
        y.plan.registrations == b.plan.registrations,
    ensures
        alike(x, y),
{
    reveal(alike);
    reveal(plain_plan);
}

proof fn lemma_alike_plan(a: MachineView, b: MachineView, p: PlanView, q: PlanView)
    requires
        alike(a, b),
        plain_plan(p) == plain_plan(q),
        p.actors.len() == q.actors.len(),
    ensures
        alike(MachineView { plan: p, ..a }, MachineView { plan: q, ..b }),
{
    reveal(alike);
}

proof fn lemma_alike_keyed(
    a: MachineView,
    b: MachineView,
    p: Option<PersistenceId>,
    q: Option<PersistenceId>,
)
    requires
        alike(a, b),
    ensures
        alike(keyed(a, p), keyed(b, q)),
        alike(drawn(a), drawn(b)),
{
    lemma_alike_facts(a, b);
    lemma_alike_with(a, b, keyed(a, p), keyed(b, q));
    lemma_alike_with(a, b, drawn(a), drawn(b));
}

proof fn lemma_alike_allocated(a: MachineView, b: MachineView, n: nat)
    requires
        alike(a, b),
    ensures
        alike(allocated(a, n), allocated(b, n)),
{
    lemma_alike_facts(a, b);
    lemma_alike_with(a, b, allocated(a, n), allocated(b, n));
}

proof fn lemma_alike_stored(a: MachineView, b: MachineView, slot: u32, actor: u64)
    requires
        alike(a, b),
    ensures
        alike(stored(a, slot, actor), stored(b, slot, actor)),
{
    lemma_alike_facts(a, b);
    lemma_alike_with(a, b, stored(a, slot, actor), stored(b, slot, actor));
}

proof fn lemma_alike_actor(
    a: MachineView,
    b: MachineView,
    s: ActorSpecView,
    t: ActorSpecView,
    k: PersistenceKey,
    l: PersistenceKey,
    span: Span,
    c: ActorContextView,
    d: ActorContextView,
)
    requires
        alike(a, b),
        plain_spec(s) == plain_spec(t),
        plain_context(c) == plain_context(d),
    ensures
        alike(add_actor(a, s, k, span, c), add_actor(b, t, l, span, d)),
        alike(add_actor(drawn(a), s, k, span, c), add_actor(drawn(b), t, l, span, d)),
        next_actor(a) == next_actor(b),
{
    lemma_alike_facts(a, b);
    lemma_alike_keyed(a, b, None, None);
    lemma_alike_one_actor(a, b, s, t, k, l, span, c, d);
    lemma_alike_one_actor(drawn(a), drawn(b), s, t, k, l, span, c, d);
}

proof fn lemma_alike_one_actor(
    a: MachineView,
    b: MachineView,
    s: ActorSpecView,
    t: ActorSpecView,
    k: PersistenceKey,
    l: PersistenceKey,
    span: Span,
    c: ActorContextView,
    d: ActorContextView,
)
    requires
        alike(a, b),
        plain_spec(s) == plain_spec(t),
        plain_context(c) == plain_context(d),
    ensures
        alike(add_actor(a, s, k, span, c), add_actor(b, t, l, span, d)),
{
    reveal(alike);
    reveal(plain_plan);
    let f = |n: ActorNodeView| plain_node(n);
    let x = ActorNodeView { actor: s, key: k, span, context: c };
    let y = ActorNodeView { actor: t, key: l, span, context: d };
    assert(a.plan.actors.push(x).map_values(f) =~= a.plan.actors.map_values(f).push(
        plain_node(x),
    ));
    assert(b.plan.actors.push(y).map_values(f) =~= b.plan.actors.map_values(f).push(
        plain_node(y),
    ));
    assert(plain_plan(a.plan).actors == a.plan.actors.map_values(f));
    assert(plain_plan(b.plan).actors == b.plan.actors.map_values(f));
    assert(plain_node(x) == plain_node(y));
    let p = add_actor(a, s, k, span, c).plan;
    let q = add_actor(b, t, l, span, d).plan;
    assert(plain_plan(p).registrations == plain_plan(a.plan).registrations);
    assert(plain_plan(q).registrations == plain_plan(b.plan).registrations);
    assert(plain_plan(p) == plain_plan(q));
}

proof fn lemma_alike_emit(
    a: MachineView,
    b: MachineView,
    slot: u32,
    s: ActorSpecView,
    t: ActorSpecView,
    k: PersistenceKey,
    l: PersistenceKey,
    span: Span,
    c: ActorContextView,
    d: ActorContextView,
)
    requires
        alike(a, b),
        plain_spec(s) == plain_spec(t),
        plain_context(c) == plain_context(d),
    ensures
        alike(emit(a, slot, s, k, span, c), emit(b, slot, t, l, span, d)),
        alike(emit(drawn(a), slot, s, k, span, c), emit(drawn(b), slot, t, l, span, d)),
{
    lemma_alike_actor(a, b, s, t, k, l, span, c, d);
    lemma_alike_stored(
        add_actor(a, s, k, span, c),
        add_actor(b, t, l, span, d),
        slot,
        next_actor(a),
    );
    lemma_alike_stored(
        add_actor(drawn(a), s, k, span, c),
        add_actor(drawn(b), t, l, span, d),
        slot,
        next_actor(a),
    );
}

proof fn lemma_alike_registered(
    a: MachineView,
    b: MachineView,
    alive: bool,
    r: RegistrationView,
    s: RegistrationView,
)
    requires
        alike(a, b),
        plain_registration(r) == plain_registration(s),
    ensures
        alike(registered(a, alive, r), registered(b, alive, s)),
{
    reveal(alike);
    reveal(plain_plan);
    let f = |n: RegistrationView| plain_registration(n);
    if alive {
        assert(a.plan.registrations.push(r).map_values(f) =~= a.plan.registrations.map_values(
            f,
        ).push(plain_registration(r)));
        assert(b.plan.registrations.push(s).map_values(f) =~= b.plan.registrations.map_values(
            f,
        ).push(plain_registration(s)));
        assert(plain_plan(a.plan).registrations == a.plan.registrations.map_values(f));
        assert(plain_plan(b.plan).registrations == b.plan.registrations.map_values(f));
        let p = registered(a, alive, r).plan;
        let q = registered(b, alive, s).plan;
        assert(plain_plan(p).actors == plain_plan(a.plan).actors);
        assert(plain_plan(q).actors == plain_plan(b.plan).actors);
        assert(plain_plan(p) == plain_plan(q));
    }
}

proof fn lemma_alike_pushed(a: MachineView, b: MachineView, i: WorkItemView, j: WorkItemView)
    requires
        alike(a, b),
        plain_item(i) == plain_item(j),
    ensures
        alike(pushed(a, i), pushed(b, j)),
{
    reveal(alike);
    let f = |x: WorkItemView| plain_item(x);
    assert(a.queue.push(i).map_values(f) =~= a.queue.map_values(f).push(plain_item(i)));
    assert(b.queue.push(j).map_values(f) =~= b.queue.map_values(f).push(plain_item(j)));
}

proof fn lemma_alike_appended(
    a: MachineView,
    b: MachineView,
    s: Seq<WorkItemView>,
    t: Seq<WorkItemView>,
)
    requires
        alike(a, b),
        s.len() == t.len(),
        forall|i: int| 0 <= i < s.len() ==> plain_item(#[trigger] s[i]) == plain_item(t[i]),
    ensures
        alike(
            MachineView { queue: a.queue + s, ..a },
            MachineView { queue: b.queue + t, ..b },
        ),
{
    reveal(alike);
    let f = |x: WorkItemView| plain_item(x);
    assert((a.queue + s).map_values(f) =~= a.queue.map_values(f) + s.map_values(f));
    assert((b.queue + t).map_values(f) =~= b.queue.map_values(f) + t.map_values(f));
    assert(s.map_values(f) =~= t.map_values(f));
}

proof fn lemma_alike_last(a: MachineView, b: MachineView)
    requires
        alike(a, b),
        a.queue.len() > 0,
    ensures
        b.queue.len() == a.queue.len(),
        plain_item(a.queue.last()) == plain_item(b.queue.last()),
        alike(
            MachineView { queue: a.queue.drop_last(), ..a },
            MachineView { queue: b.queue.drop_last(), ..b },
        ),
{
    lemma_alike_facts(a, b);
    reveal(alike);
    let f = |x: WorkItemView| plain_item(x);
    let n = a.queue.len();
    assert(a.queue.map_values(f)[n - 1] == plain_item(a.queue[n - 1]));
    assert(b.queue.map_values(f)[n - 1] == plain_item(b.queue[n - 1]));
    assert(a.queue.drop_last().map_values(f) =~= a.queue.map_values(f).drop_last());
    assert(b.queue.drop_last().map_values(f) =~= b.queue.map_values(f).drop_last());
}

proof fn lemma_alike_weight(a: MachineView, b: MachineView)
    requires
        alike(a, b),
    ensures
        total_weight(a.queue) == total_weight(b.queue),
    decreases a.queue.len(),
{
    lemma_alike_facts(a, b);
    if a.queue.len() > 0 {
        lemma_alike_last(a, b);
        lemma_alike_weight(
            MachineView { queue: a.queue.drop_last(), ..a },
            MachineView { queue: b.queue.drop_last(), ..b },
        );
    }
}

/// Levels that differ in identities alone make scopes that do.
proof fn lemma_plain_child(s: ScopeView, t: ScopeView, x: ScopeSegmentView, y: ScopeSegmentView)
    requires
        plain_scope(s) == plain_scope(t),
        plain_segment(x) == plain_segment(y),
    ensures
        plain_scope(child_scope(s, x)) == plain_scope(child_scope(t, y)),
{
    let f = |z: ScopeSegmentView| plain_segment(z);
    assert(s.segments.push(x).map_values(f) =~= s.segments.map_values(f).push(plain_segment(x)));
    assert(t.segments.push(y).map_values(f) =~= t.segments.map_values(f).push(plain_segment(y)));
}

proof fn lemma_alias_alike(
    a: MachineView,
    b: MachineView,
    alias: AliasView,
    k: PersistenceKey,
    l: PersistenceKey,
    span: Span,
    x: EvaluationContextView,
    y: EvaluationContextView,
)
    requires
        alike(a, b),
        plain_ctx(x) == plain_ctx(y),
    ensures
        match (alias_step(a, alias, k, span, x), alias_step(b, alias, l, span, y)) {
            (Ok(p), Ok(q)) => alike(p.0, q.0) && p.1 == q.1,
            (Err(p), Err(q)) => p == q,
            _ => false,
        },
{
    assert(alias_target(alias, x) == alias_target(alias, y));
    match alias_target(alias, x) {
        Ok(AliasTarget::Root(root)) => {
            let spec = ActorSpecView::Alias { root, alias };
            lemma_alike_actor(
                a,
                b,
                spec,
                spec,
                k,
                l,
                span,
                x.actor_context,
                y.actor_context,
            );
        },
        _ => {},
    }
}

proof fn lemma_declare_alike(
    a: MachineView,
    b: MachineView,
    variables: Seq<SpannedVariableView>,
    n: nat,
    x: EvaluationContextView,
    y: EvaluationContextView,
)
    requires
        alike(a, b),
        plain_ctx(x) == plain_ctx(y),
        n <= variables.len(),
    ensures
        ({
            let p = declare(a, variables, n, x);
            let q = declare(b, variables, n, y);
            &&& alike(p.m, q.m)
            &&& p.locals == q.locals
            &&& p.data.len() == n
            &&& q.data.len() == n
            &&& forall|i: int|
                0 <= i < n ==> plain_data(#[trigger] p.data[i]) == plain_data(q.data[i])
        }),
    decreases n,
{
    if n > 0 {
        lemma_declare_alike(a, b, variables, (n - 1) as nat, x, y);
        let p = declare(a, variables, (n - 1) as nat, x);
        let q = declare(b, variables, (n - 1) as nat, y);
        let var = variables[n - 1];
        let c = allocated(p.m, 1);
        let d = allocated(q.m, 1);
        lemma_alike_facts(p.m, q.m);
        lemma_alike_allocated(p.m, q.m, 1);
        lemma_alike_keyed(c, d, var.persistence, var.persistence);
        let e = keyed(c, var.persistence);
        let f = keyed(d, var.persistence);
        let k = key_of(c, var.persistence);
        let l = key_of(d, var.persistence);
        let spec = ActorSpecView::Forwarding;
        lemma_alike_actor(e, f, spec, spec, k, l, var.span, x.actor_context, y.actor_context);
        let known = RegistrationView::Referenceable { span: var.span, actor: next_actor(e) };
        lemma_alike_registered(
            add_actor(e, spec, k, var.span, x.actor_context),
            add_actor(f, spec, l, var.span, y.actor_context),
            x.reference_connector,
            known,
            known,
        );
    }
}

proof fn lemma_value_jobs_alike(
    variables: Seq<SpannedVariableView>,
    p: Seq<ObjectVariableDataView>,
    q: Seq<ObjectVariableDataView>,
    n: nat,
    referenced: Option<bool>,
)
    requires
        n <= p.len(),
        n <= q.len(),
        forall|i: int| 0 <= i < n ==> plain_data(#[trigger] p[i]) == plain_data(q[i]),
    ensures
        value_jobs(variables, p, n, referenced) == value_jobs(variables, q, n, referenced),
    decreases n,
{
    if n > 0 {
        lemma_value_jobs_alike(variables, p, q, (n - 1) as nat, referenced);
        assert(plain_data(p[n - 1]) == plain_data(q[n - 1]));
    }
}

proof fn lemma_argue_alike(
    a: MachineView,
    b: MachineView,
    arguments: Seq<SpannedArgumentView>,
    n: nat,
    x: EvaluationContextView,
    y: EvaluationContextView,
    span: Span,
    forward: bool,
)
    requires
        alike(a, b),
        plain_ctx(x) == plain_ctx(y),
        n <= arguments.len(),
    ensures
        match (argue(a, arguments, n, x, span, forward), argue(b, arguments, n, y, span, forward)) {
            (Ok(p), Ok(q)) => {
                &&& alike(p.m, q.m)
                &&& p == (Arguments { m: p.m, ..q })
            },
            (Err(p), Err(q)) => p == q,
            _ => false,
        },
    decreases n,
{
    if n > 0 {
        lemma_argue_alike(a, b, arguments, (n - 1) as nat, x, y, span, forward);
        match (
            argue(a, arguments, (n - 1) as nat, x, span, forward),
            argue(b, arguments, (n - 1) as nat, y, span, forward),
        ) {
            (Ok(p), Ok(q)) => {
                let arg = arguments[n - 1];
                let c = allocated(p.m, 1);
                let d = allocated(q.m, 1);
                lemma_alike_facts(p.m, q.m);
                lemma_alike_allocated(p.m, q.m, 1);
                lemma_alike_facts(c, d);
                let spec = ActorSpecView::Forwarding;
                let k = PersistenceKey::Fresh(c.plan.fresh);
                let l = PersistenceKey::Fresh(d.plan.fresh);
                lemma_alike_actor(
                    c,
                    d,
                    spec,
                    spec,
                    k,
                    l,
                    arg.span,
                    x.actor_context,
                    y.actor_context,
                );
                let known = RegistrationView::Referenceable {
                    span: arg.span,
                    actor: next_actor(c),
                };
                let e = registered(
                    add_actor(drawn(c), spec, k, arg.span, x.actor_context),
                    x.reference_connector,
                    known,
                );
                let f = registered(
                    add_actor(drawn(d), spec, l, arg.span, y.actor_context),
                    y.reference_connector,
                    known,
                );
                lemma_alike_registered(
                    add_actor(drawn(c), spec, k, arg.span, x.actor_context),
                    add_actor(drawn(d), spec, l, arg.span, y.actor_context),
                    x.reference_connector,
                    known,
                    known,
                );
                match x.actor_context.piped {
                    Some(piped) => {
                        lemma_alike_stored(c, d, p.m.next_slot, piped);
                        lemma_alike_stored(e, f, p.m.next_slot, piped);
                    },
                    None => {},
                }
            },
            _ => {},
        }
    }
}

proof fn lemma_wraps_alike(
    jobs: Seq<Job>,
    n: nat,
    x: EvaluationContextView,
    y: EvaluationContextView,
)
    requires
        plain_ctx(x) == plain_ctx(y),
    ensures
        wraps(jobs, n, x).len() == wraps(jobs, n, y).len(),
        forall|i: int|
            0 <= i < wraps(jobs, n, x).len() ==> plain_item(#[trigger] wraps(jobs, n, x)[i])
                == plain_item(wraps(jobs, n, y)[i]),
    decreases n,
{
    if n > 0 {
        lemma_wraps_alike(jobs, (n - 1) as nat, x, y);
        let p = wraps(jobs, (n - 1) as nat, x);
        let q = wraps(jobs, (n - 1) as nat, y);
        assert forall|i: int| 0 <= i < wraps(jobs, n, x).len() implies plain_item(
            #[trigger] wraps(jobs, n, x)[i],
        ) == plain_item(wraps(jobs, n, y)[i]) by {
            if i < p.len() {
                assert(wraps(jobs, n, x)[i] == p[i]);
                assert(wraps(jobs, n, y)[i] == q[i]);
            }
        }
    }
}

proof fn lemma_text_part_alike(
    a: MachineView,
    b: MachineView,
    part: TextPartView,
    k: PersistenceKey,
    l: PersistenceKey,
    span: Span,
    x: EvaluationContextView,
    y: EvaluationContextView,
)
    requires
        alike(a, b),
        plain_ctx(x) == plain_ctx(y),
    ensures
        match (text_part_step(a, part, k, span, x), text_part_step(b, part, l, span, y)) {
            (Ok(p), Ok(q)) => alike(p.0, q.0) && p.1 == q.1 && p.2 == q.2,
            (Err(p), Err(q)) => p == q,
            _ => false,
        },
{
    let c = x.actor_context;
    let d = y.actor_context;
    lemma_alike_facts(a, b);
    match part {
        TextPartView::Text(text) => {
            let spec = ActorSpecView::Literal(LiteralView::Text(text));
            lemma_alike_actor(a, b, spec, spec, k, l, span, c, d);
        },
        TextPartView::Interpolation { var, referenced_span } => {
            let path = split_parts(var, '.').skip(1);
            let name = split_parts(var, '.')[0];
            let fa = PersistenceKey::Fresh(a.plan.fresh);
            let fb = PersistenceKey::Fresh(b.plan.fresh);
            if c.parameters.contains_key(name) {
                let spec = ActorSpecView::TextField { base: c.parameters[name], path };
                lemma_alike_actor(a, b, spec, spec, fa, fb, span, c, d);
            } else {
                match referenced_span {
                    Some(referenced) => {
                        let spec = ActorSpecView::Reference { referenced };
                        lemma_alike_actor(a, b, spec, spec, fa, fb, span, c, d);
                        let e = add_actor(drawn(a), spec, fa, span, c);
                        let f = add_actor(drawn(b), spec, fb, span, d);
                        let field = ActorSpecView::TextField { base: next_actor(a), path };
                        lemma_alike_actor(
                            e,
                            f,
                            field,
                            field,
                            PersistenceKey::Fresh(e.plan.fresh),
                            PersistenceKey::Fresh(f.plan.fresh),
                            span,
                            c,
                            d,
                        );
                    },
                    None => {},
                }
            }
        },
    }
}

proof fn lemma_text_parts_alike(
    a: MachineView,
    b: MachineView,
    parts: Seq<TextPartView>,
    n: nat,
    k: PersistenceKey,
    l: PersistenceKey,
    span: Span,
    x: EvaluationContextView,
    y: EvaluationContextView,
)
    requires
        alike(a, b),
        plain_ctx(x) == plain_ctx(y),
    ensures
        match (
            text_parts_step(a, parts, n, k, span, x),
            text_parts_step(b, parts, n, l, span, y),
        ) {
            (Ok(p), Ok(q)) => alike(p.0, q.0) && p.1 == q.1 && p.2 == q.2,
            (Err(p), Err(q)) => p == q,
            _ => false,
        },
    decreases n,
{
    if n > 0 {
        lemma_text_parts_alike(a, b, parts, (n - 1) as nat, k, l, span, x, y);
        match (
            text_parts_step(a, parts, (n - 1) as nat, k, span, x),
            text_parts_step(b, parts, (n - 1) as nat, l, span, y),
        ) {
            (Ok(p), Ok(q)) => {
                lemma_text_part_alike(p.0, q.0, parts[n - 1], k, l, span, x, y);
            },
            _ => {},
        }
    }
}

proof fn lemma_text_literal_alike(
    a: MachineView,
    b: MachineView,
    parts: Seq<TextPartView>,
    k: PersistenceKey,
    l: PersistenceKey,
    span: Span,
    x: EvaluationContextView,
    y: EvaluationContextView,
    slot: u32,
)
    requires
        alike(a, b),
        plain_ctx(x) == plain_ctx(y),
    ensures
        steps_alike(
            text_literal_step(a, parts, k, span, x, slot),
            text_literal_step(b, parts, l, span, y, slot),
        ),
{
    let c = x.actor_context;
    let d = y.actor_context;
    lemma_text_parts_alike(a, b, parts, parts.len(), k, l, span, x, y);
    match (
        text_parts_step(a, parts, parts.len(), k, span, x),
        text_parts_step(b, parts, parts.len(), l, span, y),
    ) {
        (Ok(p), Ok(q)) => {
            let empty = ActorSpecView::Literal(LiteralView::Text(Seq::empty()));
            let all = ActorSpecView::CombinedText { parts: p.2 };
            lemma_alike_emit(p.0, q.0, slot, empty, empty, k, l, span, c, d);
            lemma_alike_emit(p.0, q.0, slot, all, all, k, l, span, c, d);
            if p.2.len() > 0 {
                lemma_alike_stored(p.0, q.0, slot, p.2[0]);
            }
        },
        _ => {},
    }
}

proof fn lemma_known_alike(
    a: MachineView,
    b: MachineView,
    p: ObjectVariableDataView,
    q: ObjectVariableDataView,
    value: u64,
    link: u64,
    x: EvaluationContextView,
    y: EvaluationContextView,
)
    requires
        alike(a, b),
        plain_data(p) == plain_data(q),
        plain_ctx(x) == plain_ctx(y),
    ensures
        alike(variable_known(a, p, value, link, x), variable_known(b, q, value, link, y)),
{
    let alive = p.forwarding_actor is None && x.reference_connector;
    let r = RegistrationView::Referenceable { span: p.span, actor: value };
    lemma_alike_registered(a, b, alive, r, r);
    lemma_alike_registered(
        registered(a, alive, r),
        registered(b, alive, r),
        p.is_link && x.link_connector,
        RegistrationView::Link { span: p.span, scope: x.actor_context.scope, actor: link },
        RegistrationView::Link { span: p.span, scope: y.actor_context.scope, actor: link },
    );
}

proof fn lemma_build_one_alike(
    before: Built,
    other: Built,
    p: ObjectVariableDataView,
    q: ObjectVariableDataView,
    x: EvaluationContextView,
    y: EvaluationContextView,
)
    requires
        alike(before.m, other.m),
        before.variables.map_values(|v: VariableSpecView| plain_variable(v))
            == other.variables.map_values(|v: VariableSpecView| plain_variable(v)),
        plain_data(p) == plain_data(q),
        plain_ctx(x) == plain_ctx(y),
    ensures
        ({
            let u = build_one(before, p, x);
            let v = build_one(other, q, y);
            &&& alike(u.m, v.m)
            &&& u.variables.map_values(|v: VariableSpecView| plain_variable(v))
                == v.variables.map_values(|v: VariableSpecView| plain_variable(v))
        }),
{
    let a = before.m;
    let b = other.m;
    let c = x.actor_context;
    let d = y.actor_context;
    let f = |v: VariableSpecView| plain_variable(v);
    lemma_alike_facts(a, b);
    let u = build_one(before, p, x);
    let v = build_one(other, q, y);
    let made = next_actor(a);
    if p.is_link {
        let spec = ActorSpecView::LinkValue;
        lemma_alike_actor(a, b, spec, spec, p.key, q.key, p.span, c, d);
        let value = match p.forwarding_actor {
            Some(forwarding) => forwarding,
            None => made,
        };
        lemma_known_alike(
            add_actor(a, spec, p.key, p.span, c),
            add_actor(b, spec, q.key, q.span, d),
            p,
            q,
            value,
            made,
            x,
            y,
        );
        lemma_plain_variables_push(
            before.variables,
            other.variables,
            u.variables.last(),
            v.variables.last(),
        );
        assert(u.variables =~= before.variables.push(u.variables.last()));
        assert(v.variables =~= other.variables.push(v.variables.last()));
    } else if a.results.contains_key(p.value_slot) {
        let source = a.results[p.value_slot];
        match p.forwarding_actor {
            Some(forwarding) => {
                lemma_known_alike(a, b, p, q, forwarding, forwarding, x, y);
            },
            None => {
                let spec = ActorSpecView::Persisted { source };
                lemma_alike_actor(a, b, spec, spec, p.key, q.key, p.span, c, d);
                lemma_known_alike(
                    add_actor(a, spec, p.key, p.span, c),
                    add_actor(b, spec, q.key, q.span, d),
                    p,
                    q,
                    made,
                    made,
                    x,
                    y,
                );
            },
        }
        lemma_plain_variables_push(
            before.variables,
            other.variables,
            u.variables.last(),
            v.variables.last(),
        );
        assert(u.variables =~= before.variables.push(u.variables.last()));
        assert(v.variables =~= other.variables.push(v.variables.last()));
    }
}

proof fn lemma_plain_variables_push(
    s: Seq<VariableSpecView>,
    t: Seq<VariableSpecView>,
    u: VariableSpecView,
    v: VariableSpecView,
)
    requires
        s.map_values(|v: VariableSpecView| plain_variable(v)) == t.map_values(
            |v: VariableSpecView| plain_variable(v),
        ),
        plain_variable(u) == plain_variable(v),
    ensures
        s.push(u).map_values(|v: VariableSpecView| plain_variable(v)) == t.push(v).map_values(
            |v: VariableSpecView| plain_variable(v),
        ),
{
    let f = |v: VariableSpecView| plain_variable(v);
    assert(s.push(u).map_values(f) =~= s.map_values(f).push(plain_variable(u)));
    assert(t.push(v).map_values(f) =~= t.map_values(f).push(plain_variable(v)));
}

proof fn lemma_build_alike(
    a: MachineView,
    b: MachineView,
    p: Seq<ObjectVariableDataView>,
    q: Seq<ObjectVariableDataView>,
    n: nat,
    x: EvaluationContextView,
    y: EvaluationContextView,
)
    requires
        alike(a, b),
        n <= p.len(),
        n <= q.len(),
        forall|i: int| 0 <= i < n ==> plain_data(#[trigger] p[i]) == plain_data(q[i]),
        plain_ctx(x) == plain_ctx(y),
    ensures
        ({
            let u = build(a, p, n, x);
            let v = build(b, q, n, y);
            &&& alike(u.m, v.m)
            &&& u.variables.map_values(|v: VariableSpecView| plain_variable(v))
                == v.variables.map_values(|v: VariableSpecView| plain_variable(v))
        }),
    decreases n,
{
    if n > 0 {
        lemma_build_alike(a, b, p, q, (n - 1) as nat, x, y);
        assert(plain_data(p[n - 1]) == plain_data(q[n - 1]));
        lemma_build_one_alike(
            build(a, p, (n - 1) as nat, x),
            build(b, q, (n - 1) as nat, y),
            p[n - 1],
            q[n - 1],
            x,
            y,
        );
    }
}

proof fn lemma_process_object_alike(
    a: MachineView,
    b: MachineView,
    tag: Option<Seq<char>>,
    p: Seq<ObjectVariableDataView>,
    q: Seq<ObjectVariableDataView>,
    span: Span,
    k: PersistenceKey,
    l: PersistenceKey,
    x: EvaluationContextView,
    y: EvaluationContextView,
    slot: u32,
)
    requires
        alike(a, b),
        p.map_values(|d: ObjectVariableDataView| plain_data(d)) == q.map_values(
            |d: ObjectVariableDataView| plain_data(d),
        ),
        plain_ctx(x) == plain_ctx(y),
    ensures
        alike(
            process_object(a, tag, p, span, k, x, slot),
            process_object(b, tag, q, span, l, y, slot),
        ),
{
    let f = |d: ObjectVariableDataView| plain_data(d);
    assert(p.map_values(f).len() == p.len());
    assert(q.map_values(f).len() == q.len());
    assert forall|i: int| 0 <= i < p.len() implies plain_data(#[trigger] p[i]) == plain_data(
        q[i],
    ) by {
        assert(p.map_values(f)[i] == plain_data(p[i]));
        assert(q.map_values(f)[i] == plain_data(q[i]));
    }
    lemma_build_alike(a, b, p, q, p.len(), x, y);
    let u = build(a, p, p.len(), x);
    let v = build(b, q, q.len(), y);
    let s = match tag {
        None => ActorSpecView::Object { variables: u.variables },
        Some(tag) => ActorSpecView::TaggedObject { tag, variables: u.variables },
    };
    let t = match tag {
        None => ActorSpecView::Object { variables: v.variables },
        Some(tag) => ActorSpecView::TaggedObject { tag, variables: v.variables },
    };
    lemma_alike_emit(u.m, v.m, slot, s, t, k, l, span, x.actor_context, y.actor_context);
}

proof fn lemma_link_setter_alike(
    a: MachineView,
    b: MachineView,
    source: u64,
    alias: AliasView,
    k: PersistenceKey,
    l: PersistenceKey,
    span: Span,
    x: EvaluationContextView,
    y: EvaluationContextView,
    slot: u32,
)
    requires
        alike(a, b),
        plain_ctx(x) == plain_ctx(y),
    ensures
        alike(
            process_link_setter(a, source, alias, k, span, x, slot),
            process_link_setter(b, source, alias, l, span, y, slot),
        ),
{
    let c = x.actor_context;
    let d = y.actor_context;
    let s1 = ActorSpecView::LinkForwarder { source, alias, pass_through: k };
    let t1 = ActorSpecView::LinkForwarder { source, alias, pass_through: l };
    let fa = PersistenceKey::Fresh(a.plan.fresh);
    let fb = PersistenceKey::Fresh(b.plan.fresh);
    lemma_alike_actor(a, b, s1, t1, fa, fb, span, c, d);
    let a1 = add_actor(drawn(a), s1, fa, span, c);
    let b1 = add_actor(drawn(b), t1, fb, span, d);
    let s2 = ActorSpecView::PassThrough { forwarder: next_actor(a), key: k };
    let t2 = ActorSpecView::PassThrough { forwarder: next_actor(b), key: l };
    let fa1 = PersistenceKey::Fresh(a1.plan.fresh);
    let fb1 = PersistenceKey::Fresh(b1.plan.fresh);
    lemma_alike_actor(a1, b1, s2, t2, fa1, fb1, span, c, d);
    let a2 = add_actor(drawn(a1), s2, fa1, span, c);
    let b2 = add_actor(drawn(b1), t2, fb1, span, d);
    lemma_alike_emit(
        a2,
        b2,
        slot,
        ActorSpecView::LinkRelay { pass_through: next_actor(a1), key: k },
        ActorSpecView::LinkRelay { pass_through: next_actor(b1), key: l },
        PersistenceKey::Fresh(a2.plan.fresh),
        PersistenceKey::Fresh(b2.plan.fresh),
        span,
        c,
        d,
    );
}


proof fn lemma_found_alike(a: MachineView, b: MachineView, slots: Seq<u32>, n: nat)
    requires
        a.results == b.results,
    ensures
        found(a, slots, n) == found(b, slots, n),
    decreases n,
{
    if n > 0 {
        lemma_found_alike(a, b, slots, (n - 1) as nat);
    }
}

proof fn lemma_found_arguments_alike(
    a: MachineView,
    b: MachineView,
    slots: Seq<ArgumentSlotView>,
    n: nat,
)
    requires
        a.results == b.results,
    ensures
        found_arguments(a, slots, n) == found_arguments(b, slots, n),
    decreases n,
{
    if n > 0 {
        lemma_found_arguments_alike(a, b, slots, (n - 1) as nat);
    }
}

proof fn lemma_connected_alike(
    a: MachineView,
    b: MachineView,
    connections: Seq<ForwardingConnection>,
    n: nat,
)
    requires
        a.results == b.results,
        a.loops == b.loops,
    ensures
        connected(a, connections, n) == connected(b, connections, n),
    decreases n,
{
    if n > 0 {
        lemma_connected_alike(a, b, connections, (n - 1) as nat);
    }
}

proof fn lemma_store_optional_alike(
    a: Result<(MachineView, Option<u64>), Seq<char>>,
    b: Result<(MachineView, Option<u64>), Seq<char>>,
    slot: u32,
)
    requires
        results_alike(a, b),
    ensures
        steps_alike(store_optional(a, slot), store_optional(b, slot)),
{
    match (a, b) {
        (Ok(x), Ok(y)) => match x.1 {
            Some(actor) => {
                lemma_alike_stored(x.0, y.0, slot, actor);
            },
            None => {},
        },
        _ => {},
    }
}

proof fn lemma_fresh_alike(p: PlanView, q: PlanView)
    requires
        plain_plan(p) == plain_plan(q),
        p.actors.len() == q.actors.len(),
    ensures
        alike(allocated(fresh_machine(p), 1), allocated(fresh_machine(q), 1)),
{
    reveal(alike);
}

proof fn lemma_piped_alike(
    a: MachineView,
    b: MachineView,
    rest: Seq<SpannedExpressionView>,
    x: EvaluationContextView,
    y: EvaluationContextView,
    slot: u32,
)
    requires
        alike(a, b),
        plain_ctx(x) == plain_ctx(y),
    ensures
        alike(piped_machine(a, rest, x, slot), piped_machine(b, rest, y, slot)),
{
    lemma_alike_facts(a, b);
    let n = rest.len();
    let s = piped_machine(a, rest, x, slot).queue.skip(a.queue.len() as int);
    let t = piped_machine(b, rest, y, slot).queue.skip(b.queue.len() as int);
    assert(s.len() == n);
    assert(t.len() == n);
    assert forall|i: int| 0 <= i < n implies plain_item(#[trigger] s[i]) == plain_item(t[i]) by {
        assert(s[i] == piped_machine(a, rest, x, slot).queue[a.queue.len() + i]);
        assert(t[i] == piped_machine(b, rest, y, slot).queue[b.queue.len() + i]);
    }
    lemma_alike_allocated(a, b, n);
    lemma_alike_appended(allocated(a, n), allocated(b, n), s, t);
    assert(a.queue + s =~= piped_machine(a, rest, x, slot).queue);
    assert(b.queue + t =~= piped_machine(b, rest, y, slot).queue);
}

/// The identity that an expression has itself changes identities of the actors at most: what
/// they do, on what and where they can be found is the same, and so is the actor of the value,
/// and each message.
pub proof fn lemma_identity_is_no_matter(
    depth: nat,
    p: PlanView,
    q: PlanView,
    e: SpannedExpressionView,
    f: SpannedExpressionView,
    x: EvaluationContextView,
    y: EvaluationContextView,
)
    requires
        plain_plan(p) == plain_plan(q),
        p.actors.len() == q.actors.len(),
        same_expression(e, f),
        plain_ctx(x) == plain_ctx(y),
    ensures
        outcomes_alike(evaluated(depth, p, e, x), evaluated(depth, q, f, y)),
    decreases depth, expr_size(e), 4nat, 0nat,
{
    lemma_fresh_alike(p, q);
    let a = allocated(fresh_machine(p), 1);
    let b = allocated(fresh_machine(q), 1);
    lemma_schedule_alike(depth, a, b, e, f, x, y, 0);
    assert(expr_size(e) == expr_size(f));
    match (schedule(depth, a, e, x, 0), schedule(depth, b, f, y, 0)) {
        (Ok(m), Ok(n)) => {
            lemma_alike_weight(m, n);
            if total_weight(m.queue) <= expr_size(e) {
                lemma_run_alike(depth, m, n);
                match (run_queue(depth, m), run_queue(depth, n)) {
                    (Ok(s), Ok(t)) => {
                        lemma_alike_facts(s, t);
                    },
                    _ => {},
                }
            }
        },
        _ => {},
    }
}

proof fn lemma_part_alike(
    depth: nat,
    bound: nat,
    a: MachineView,
    b: MachineView,
    e: SpannedExpressionView,
    x: EvaluationContextView,
    y: EvaluationContextView,
)
    requires
        alike(a, b),
        plain_ctx(x) == plain_ctx(y),
    ensures
        results_alike(
            part_evaluated(depth, bound, a, e, x),
            part_evaluated(depth, bound, b, e, y),
        ),
    decreases depth, bound, 0nat, 0nat,
{
    if expr_size(e) < bound {
        lemma_alike_facts(a, b);
        lemma_identity_is_no_matter(depth, a.plan, b.plan, e, e, x, y);
        match (evaluated(depth, a.plan, e, x), evaluated(depth, b.plan, e, y)) {
            (Ok(s), Ok(t)) => {
                lemma_alike_plan(a, b, s.0, t.0);
            },
            _ => {},
        }
    }
}

proof fn lemma_run_alike(depth: nat, a: MachineView, b: MachineView)
    requires
        alike(a, b),
    ensures
        steps_alike(run_queue(depth, a), run_queue(depth, b)),
    decreases depth, total_weight(a.queue), 3nat, 0nat,
{
    lemma_alike_facts(a, b);
    lemma_alike_weight(a, b);
    if a.queue.len() > 0 {
        lemma_alike_last(a, b);
        let s = MachineView { queue: a.queue.drop_last(), ..a };
        let t = MachineView { queue: b.queue.drop_last(), ..b };
        lemma_process_alike(depth, s, t, a.queue.last(), b.queue.last());
        match (process(depth, s, a.queue.last()), process(depth, t, b.queue.last())) {
            (Ok(c), Ok(d)) => {
                lemma_alike_weight(c, d);
                if total_weight(c.queue) < total_weight(a.queue) {
                    lemma_run_alike(depth, c, d);
                }
            },
            _ => {},
        }
    }
}

proof fn lemma_jobs_alike(
    depth: nat,
    bound: nat,
    a: MachineView,
    b: MachineView,
    jobs: Seq<Job>,
    n: nat,
    x: EvaluationContextView,
    y: EvaluationContextView,
)
    requires
        alike(a, b),
        plain_ctx(x) == plain_ctx(y),
    ensures
        steps_alike(
            schedule_jobs(depth, bound, a, jobs, n, x),
            schedule_jobs(depth, bound, b, jobs, n, y),
        ),
    decreases depth, bound, 0nat, n,
{
    if n > 0 {
        lemma_jobs_alike(depth, bound, a, b, jobs, (n - 1) as nat, x, y);
        match (
            schedule_jobs(depth, bound, a, jobs, (n - 1) as nat, x),
            schedule_jobs(depth, bound, b, jobs, (n - 1) as nat, y),
        ) {
            (Ok(s), Ok(t)) => {
                let job = jobs[n - 1];
                if expr_size(job.0) < bound {
                    lemma_schedule_alike(depth, s, t, job.0, job.0, x, y, job.1);
                }
            },
            _ => {},
        }
    }
}

proof fn lemma_items_alike(
    depth: nat,
    bound: nat,
    a: MachineView,
    b: MachineView,
    items: Seq<SpannedExpressionView>,
    n: nat,
    base: u32,
    x: EvaluationContextView,
    y: EvaluationContextView,
)
    requires
        alike(a, b),
        plain_ctx(x) == plain_ctx(y),
    ensures
        steps_alike(
            schedule_items(depth, bound, a, items, n, base, x),
            schedule_items(depth, bound, b, items, n, base, y),
        ),
    decreases depth, bound, 0nat, n,
{
    if n > 0 {
        lemma_items_alike(depth, bound, a, b, items, (n - 1) as nat, base, x, y);
        match (
            schedule_items(depth, bound, a, items, (n - 1) as nat, base, x),
            schedule_items(depth, bound, b, items, (n - 1) as nat, base, y),
        ) {
            (Ok(s), Ok(t)) => {
                let item = items[n - 1];
                let c = ScopeSegmentView::ListItem {
                    index: (n - 1) as u64,
                    key: key_of(s, item.persistence),
                };
                let d = ScopeSegmentView::ListItem {
                    index: (n - 1) as u64,
                    key: key_of(t, item.persistence),
                };
                lemma_plain_child(x.actor_context.scope, y.actor_context.scope, c, d);
                let u = with_context(x, in_child_scope(x.actor_context, c));
                let v = with_context(y, in_child_scope(y.actor_context, d));
                lemma_alike_keyed(s, t, item.persistence, item.persistence);
                if expr_size(item) < bound {
                    lemma_schedule_alike(
                        depth,
                        keyed(s, item.persistence),
                        keyed(t, item.persistence),
                        item,
                        item,
                        u,
                        v,
                        slot_at(base, n - 1),
                    );
                }
            },
            _ => {},
        }
    }
}

proof fn lemma_user_call_alike(
    depth: nat,
    a: MachineView,
    b: MachineView,
    name: Seq<char>,
    path: Seq<Seq<char>>,
    arguments: Seq<(Seq<char>, u64)>,
    definition: StaticFunctionDefinitionView,
    k: PersistenceKey,
    l: PersistenceKey,
    span: Span,
    x: EvaluationContextView,
    y: EvaluationContextView,
)
    requires
        alike(a, b),
        plain_ctx(x) == plain_ctx(y),
    ensures
        results_alike(
            user_call(depth, a, name, path, arguments, definition, k, span, x),
            user_call(depth, b, name, path, arguments, definition, l, span, y),
        ),
    decreases depth, 0nat, 0nat, 0nat,
{
    let c = x.actor_context;
    let d = y.actor_context;
    let parameters = with_arguments(c.parameters, arguments, arguments.len());
    let param = unbound_parameter(definition.parameters, parameters);
    lemma_alike_facts(a, b);
    if c.piped is Some && param is Some {
        let spec = ActorSpecView::PipedUserCall {
            piped: c.piped->0,
            param: param->0,
            path,
            definition,
            parameters,
        };
        lemma_alike_actor(a, b, spec, spec, k, l, span, c, d);
    } else if depth > 0 {
        let sa = ScopeSegmentView::Call { key: k };
        let sb = ScopeSegmentView::Call { key: l };
        lemma_plain_child(c.scope, d.scope, sa, sb);
        let u = with_context(x, call_body_context(c, c.piped, parameters, sa));
        let v = with_context(y, call_body_context(d, d.piped, parameters, sb));
        let body = definition.body;
        lemma_identity_is_no_matter((depth - 1) as nat, a.plan, b.plan, body, body, u, v);
        match (
            evaluated((depth - 1) as nat, a.plan, body, u),
            evaluated((depth - 1) as nat, b.plan, body, v),
        ) {
            (Ok(s), Ok(t)) => {
                lemma_alike_plan(a, b, s.0, t.0);
                match s.1 {
                    Some(result) => {
                        let spec = ActorSpecView::UserCall { result, parameters };
                        lemma_alike_actor(
                            MachineView { plan: s.0, ..a },
                            MachineView { plan: t.0, ..b },
                            spec,
                            spec,
                            k,
                            l,
                            span,
                            c,
                            d,
                        );
                    },
                    None => {},
                }
            },
            _ => {},
        }
    }
}

proof fn lemma_call_alike(
    depth: nat,
    a: MachineView,
    b: MachineView,
    path: Seq<Seq<char>>,
    arguments: Seq<(Seq<char>, u64)>,
    k: PersistenceKey,
    l: PersistenceKey,
    span: Span,
    x: EvaluationContextView,
    y: EvaluationContextView,
    use_piped: bool,
)
    requires
        alike(a, b),
        plain_ctx(x) == plain_ctx(y),
    ensures
        results_alike(
            call(depth, a, path, arguments, k, span, x, use_piped),
            call(depth, b, path, arguments, l, span, y, use_piped),
        ),
    decreases depth, 0nat, 1nat, 0nat,
{
    let name = joined(path, "/"@);
    lemma_alike_facts(a, b);
    assert(called_function(a, x, name) == called_function(b, y, name));
    match called_function(a, x, name) {
        Some(definition) => {
            lemma_user_call_alike(
                depth,
                a,
                b,
                name,
                path,
                arguments,
                definition,
                k,
                l,
                span,
                x,
                y,
            );
        },
        None => match builtin_of(path) {
            None => {},
            Some(function) => {
                let c = x.actor_context;
                let d = y.actor_context;
                let piped = if use_piped && c.piped is Some {
                    seq![c.piped->0]
                } else {
                    Seq::empty()
                };
                let spec = ActorSpecView::Builtin {
                    function,
                    arguments: piped + arguments.map_values(|v: (Seq<char>, u64)| v.1),
                };
                lemma_alike_actor(
                    a,
                    b,
                    spec,
                    spec,
                    k,
                    l,
                    span,
                    builtin_context(c),
                    builtin_context(d),
                );
            },
        },
    }
}

proof fn lemma_list_binding_alike(
    depth: nat,
    bound: nat,
    a: MachineView,
    b: MachineView,
    name: Seq<char>,
    operation: ListBindingOperation,
    arguments: Seq<SpannedArgumentView>,
    k: PersistenceKey,
    l: PersistenceKey,
    span: Span,
    x: EvaluationContextView,
    y: EvaluationContextView,
)
    requires
        alike(a, b),
        plain_ctx(x) == plain_ctx(y),
    ensures
        results_alike(
            list_binding(depth, bound, a, name, operation, arguments, k, span, x),
            list_binding(depth, bound, b, name, operation, arguments, l, span, y),
        ),
    decreases depth, bound, 1nat, 0nat,
{
    if arguments.len() >= 2 {
        let list_of = |m: MachineView, ctx: EvaluationContextView|
            match arguments[0].value {
                Some(value) => part_evaluated(depth, bound, m, value, ctx),
                None => match ctx.actor_context.piped {
                    Some(piped) => Ok((m, Some(piped))),
                    None => Err("List/"@ + name + " requires a list argument"@),
                },
            };
        match arguments[0].value {
            Some(value) => {
                lemma_part_alike(depth, bound, a, b, value, x, y);
            },
            None => {},
        }
        match (list_of(a, x), list_of(b, y)) {
            (Ok(s), Ok(t)) => match s.1 {
                Some(actor) => match list_binding_actor(name, operation, arguments, actor, x) {
                    Ok(spec) => {
                        lemma_alike_actor(
                            s.0,
                            t.0,
                            spec,
                            spec,
                            k,
                            l,
                            span,
                            x.actor_context,
                            y.actor_context,
                        );
                    },
                    Err(_) => {},
                },
                None => {},
            },
            _ => {},
        }
    }
}

proof fn lemma_list_append_alike(
    depth: nat,
    bound: nat,
    a: MachineView,
    b: MachineView,
    arguments: Seq<SpannedArgumentView>,
    k: PersistenceKey,
    l: PersistenceKey,
    span: Span,
    x: EvaluationContextView,
    y: EvaluationContextView,
)
    requires
        alike(a, b),
        plain_ctx(x) == plain_ctx(y),
    ensures
        results_alike(
            list_append(depth, bound, a, arguments, k, span, x),
            list_append(depth, bound, b, arguments, l, span, y),
        ),
    decreases depth, bound, 1nat, 0nat,
{
    if arguments.len() > 0 {
        let c = x.actor_context;
        let d = y.actor_context;
        match (c.piped, arguments[0].value) {
            (Some(list), Some(value)) => {
                let u = with_context(x, recording_context(c, span));
                let v = with_context(y, recording_context(d, span));
                lemma_recording_alike(c, d, span);
                lemma_part_alike(depth, bound, a, b, value, u, v);
                match (
                    part_evaluated(depth, bound, a, value, u),
                    part_evaluated(depth, bound, b, value, v),
                ) {
                    (Ok(s), Ok(t)) => match s.1 {
                        Some(item) => {
                            let spec = ActorSpecView::ListAppend {
                                list,
                                item,
                                storage_key: append_storage_key(span),
                            };
                            lemma_alike_actor(s.0, t.0, spec, spec, k, l, span, c, d);
                        },
                        None => {},
                    },
                    _ => {},
                }
            },
            _ => {},
        }
    }
}

proof fn lemma_schedule_call_alike(
    depth: nat,
    bound: nat,
    a: MachineView,
    b: MachineView,
    path: Seq<Seq<char>>,
    arguments: Seq<SpannedArgumentView>,
    span: Span,
    k: PersistenceKey,
    l: PersistenceKey,
    x: EvaluationContextView,
    y: EvaluationContextView,
    slot: u32,
    forward: bool,
)
    requires
        alike(a, b),
        plain_ctx(x) == plain_ctx(y),
    ensures
        steps_alike(
            schedule_call(depth, bound, a, path, arguments, span, k, x, slot, forward),
            schedule_call(depth, bound, b, path, arguments, span, l, y, slot, forward),
        ),
    decreases depth, bound, 1nat, 0nat,
{
    lemma_argue_alike(a, b, arguments, arguments.len(), x, y, span, forward);
    match (
        argue(a, arguments, arguments.len(), x, span, forward),
        argue(b, arguments, arguments.len(), y, span, forward),
    ) {
        (Ok(p), Ok(q)) => {
            let u = if forward {
                with_locals(x, p.locals)
            } else {
                x
            };
            let v = if forward {
                with_locals(y, q.locals)
            } else {
                y
            };
            let i = WorkItemView::CallFunction {
                path,
                arg_slots: p.slots,
                passed_slot: p.passed_slot,
                passed_context: p.passed_context,
                use_piped_for_builtin: !forward,
                span,
                key: k,
                ctx: x,
                result_slot: slot,
            };
            let j = WorkItemView::CallFunction {
                path,
                arg_slots: q.slots,
                passed_slot: q.passed_slot,
                passed_context: q.passed_context,
                use_piped_for_builtin: !forward,
                span,
                key: l,
                ctx: y,
                result_slot: slot,
            };
            lemma_alike_pushed(p.m, q.m, i, j);
            let link = WorkItemView::ConnectForwardingActors { connections: p.connections };
            lemma_alike_pushed(pushed(p.m, i), pushed(q.m, j), link, link);
            let c = if p.connections.len() > 0 {
                pushed(pushed(p.m, i), link)
            } else {
                pushed(p.m, i)
            };
            let d = if p.connections.len() > 0 {
                pushed(pushed(q.m, j), link)
            } else {
                pushed(q.m, j)
            };
            let s = wraps(p.jobs, p.jobs.len(), u);
            let t = wraps(p.jobs, p.jobs.len(), v);
            lemma_wraps_alike(p.jobs, p.jobs.len(), u, v);
            lemma_alike_appended(c, d, s, t);
            let e = if forward {
                MachineView { queue: c.queue + s, ..c }
            } else {
                c
            };
            let f = if forward {
                MachineView { queue: d.queue + t, ..d }
            } else {
                d
            };
            lemma_jobs_alike(depth, bound, e, f, p.jobs, p.jobs.len(), u, v);
        },
        _ => {},
    }
}

proof fn lemma_object_item_alike(
    p: Seq<ObjectVariableDataView>,
    q: Seq<ObjectVariableDataView>,
)
    requires
        p.len() == q.len(),
        forall|i: int| 0 <= i < p.len() ==> plain_data(#[trigger] p[i]) == plain_data(q[i]),
    ensures
        p.map_values(|d: ObjectVariableDataView| plain_data(d)) == q.map_values(
            |d: ObjectVariableDataView| plain_data(d),
        ),
{
    let f = |d: ObjectVariableDataView| plain_data(d);
    assert(p.map_values(f) =~= q.map_values(f));
}

proof fn lemma_schedule_object_alike(
    depth: nat,
    bound: nat,
    a: MachineView,
    b: MachineView,
    tag: Option<Seq<char>>,
    variables: Seq<SpannedVariableView>,
    span: Span,
    k: PersistenceKey,
    l: PersistenceKey,
    x: EvaluationContextView,
    y: EvaluationContextView,
    slot: u32,
)
    requires
        alike(a, b),
        plain_ctx(x) == plain_ctx(y),
    ensures
        steps_alike(
            schedule_object(depth, bound, a, tag, variables, span, k, x, slot),
            schedule_object(depth, bound, b, tag, variables, span, l, y, slot),
        ),
    decreases depth, bound, 1nat, 0nat,
{
    let n = variables.len();
    lemma_declare_alike(a, b, variables, n, x, y);
    let p = declare(a, variables, n, x);
    let q = declare(b, variables, n, y);
    let u = with_locals(x, p.locals);
    let v = with_locals(y, q.locals);
    lemma_object_item_alike(p.data, q.data);
    let i = match tag {
        None => WorkItemView::BuildObject {
            variable_data: p.data,
            span,
            key: k,
            ctx: u,
            result_slot: slot,
        },
        Some(tag) => WorkItemView::BuildTaggedObject {
            tag,
            variable_data: p.data,
            span,
            key: k,
            ctx: u,
            result_slot: slot,
        },
    };
    let j = match tag {
        None => WorkItemView::BuildObject {
            variable_data: q.data,
            span,
            key: l,
            ctx: v,
            result_slot: slot,
        },
        Some(tag) => WorkItemView::BuildTaggedObject {
            tag,
            variable_data: q.data,
            span,
            key: l,
            ctx: v,
            result_slot: slot,
        },
    };
    lemma_alike_pushed(p.m, q.m, i, j);
    lemma_value_jobs_alike(variables, p.data, q.data, n, Some(false));
    lemma_value_jobs_alike(variables, p.data, q.data, n, Some(true));
    let jobs = value_jobs(variables, p.data, n, Some(false)) + value_jobs(
        variables,
        p.data,
        n,
        Some(true),
    );
    lemma_jobs_alike(depth, bound, pushed(p.m, i), pushed(q.m, j), jobs, jobs.len(), u, v);
}

proof fn lemma_schedule_block_alike(
    depth: nat,
    bound: nat,
    a: MachineView,
    b: MachineView,
    variables: Seq<SpannedVariableView>,
    output: SpannedExpressionView,
    span: Span,
    k: PersistenceKey,
    l: PersistenceKey,
    x: EvaluationContextView,
    y: EvaluationContextView,
    slot: u32,
)
    requires
        alike(a, b),
        plain_ctx(x) == plain_ctx(y),
    ensures
        steps_alike(
            schedule_block(depth, bound, a, variables, output, span, k, x, slot),
            schedule_block(depth, bound, b, variables, output, span, l, y, slot),
        ),
    decreases depth, bound, 1nat, 0nat,
{
    let n = variables.len();
    lemma_alike_facts(a, b);
    let object_slot = a.next_slot;
    let output_slot = slot_at(a.next_slot, 1);
    lemma_alike_allocated(a, b, 2);
    lemma_declare_alike(allocated(a, 2), allocated(b, 2), variables, n, x, y);
    let p = declare(allocated(a, 2), variables, n, x);
    let q = declare(allocated(b, 2), variables, n, y);
    let u = with_context(
        x,
        ActorContextView {
            object_locals: p.locals,
            is_snapshot_context: false,
            ..x.actor_context
        },
    );
    let v = with_context(
        y,
        ActorContextView {
            object_locals: q.locals,
            is_snapshot_context: false,
            ..y.actor_context
        },
    );
    let frame = WorkItemView::BuildBlock { object_slot, output_slot, result_slot: slot };
    lemma_alike_pushed(p.m, q.m, frame, frame);
    let c = pushed(p.m, frame);
    let d = pushed(q.m, frame);
    let job = seq![(output, output_slot)];
    lemma_jobs_alike(depth, bound, c, d, job, 1, u, v);
    match (
        schedule_jobs(depth, bound, c, job, 1, u),
        schedule_jobs(depth, bound, d, job, 1, v),
    ) {
        (Ok(s), Ok(t)) => {
            lemma_object_item_alike(p.data, q.data);
            let i = WorkItemView::BuildObject {
                variable_data: p.data,
                span,
                key: k,
                ctx: u,
                result_slot: object_slot,
            };
            let j = WorkItemView::BuildObject {
                variable_data: q.data,
                span,
                key: l,
                ctx: v,
                result_slot: object_slot,
            };
            lemma_alike_pushed(s, t, i, j);
            lemma_value_jobs_alike(variables, p.data, q.data, n, None);
            let jobs = value_jobs(variables, p.data, n, None);
            lemma_jobs_alike(depth, bound, pushed(s, i), pushed(t, j), jobs, jobs.len(), u, v);
        },
        _ => {},
    }
}

proof fn lemma_process_hold_alike(
    depth: nat,
    bound: nat,
    a: MachineView,
    b: MachineView,
    initial: u64,
    state_param: Seq<char>,
    body: SpannedExpressionView,
    k: PersistenceKey,
    l: PersistenceKey,
    span: Span,
    x: EvaluationContextView,
    y: EvaluationContextView,
    slot: u32,
)
    requires
        alike(a, b),
        plain_ctx(x) == plain_ctx(y),
    ensures
        steps_alike(
            process_hold(depth, bound, a, initial, state_param, body, k, span, x, slot),
            process_hold(depth, bound, b, initial, state_param, body, l, span, y, slot),
        ),
    decreases depth, bound, 1nat, 0nat,
{
    let c = x.actor_context;
    let d = y.actor_context;
    let state = next_actor(a);
    let spec = ActorSpecView::HoldState { state_param, initial };
    let fa = PersistenceKey::Fresh(a.plan.fresh);
    let fb = PersistenceKey::Fresh(b.plan.fresh);
    lemma_alike_actor(a, b, spec, spec, fa, fb, span, c, d);
    let s = add_actor(drawn(a), spec, fa, span, c);
    let t = add_actor(drawn(b), spec, fb, span, d);
    let u = with_context(x, hold_body_context(c, state_param, state));
    let v = with_context(y, hold_body_context(d, state_param, state));
    lemma_part_alike(depth, bound, s, t, body, u, v);
    match (part_evaluated(depth, bound, s, body, u), part_evaluated(depth, bound, t, body, v)) {
        (Ok(p), Ok(q)) => match p.1 {
            Some(result) => {
                let hold = ActorSpecView::Hold { state, body: result, initial };
                lemma_alike_emit(p.0, q.0, slot, hold, hold, k, l, span, c, d);
            },
            None => {},
        },
        _ => {},
    }
}

proof fn lemma_process_call_alike(
    depth: nat,
    a: MachineView,
    b: MachineView,
    path: Seq<Seq<char>>,
    arg_slots: Seq<ArgumentSlotView>,
    passed_context: Option<u32>,
    use_piped: bool,
    span: Span,
    k: PersistenceKey,
    l: PersistenceKey,
    x: EvaluationContextView,
    y: EvaluationContextView,
    slot: u32,
)
    requires
        alike(a, b),
        plain_ctx(x) == plain_ctx(y),
    ensures
        steps_alike(
            process_call(
                depth,
                a,
                path,
                arg_slots,
                passed_context,
                use_piped,
                span,
                k,
                x,
                slot,
            ),
            process_call(
                depth,
                b,
                path,
                arg_slots,
                passed_context,
                use_piped,
                span,
                l,
                y,
                slot,
            ),
        ),
    decreases depth, 0nat, 2nat, 0nat,
{
    lemma_alike_facts(a, b);
    lemma_found_arguments_alike(a, b, arg_slots, arg_slots.len());
    let arguments = found_arguments(a, arg_slots, arg_slots.len());
    let passes = passed_context is Some && a.results.contains_key(passed_context->0);
    let u = if passes {
        with_context(
            x,
            ActorContextView { passed: Some(a.results[passed_context->0]), ..x.actor_context },
        )
    } else {
        x
    };
    let v = if passes {
        with_context(
            y,
            ActorContextView { passed: Some(b.results[passed_context->0]), ..y.actor_context },
        )
    } else {
        y
    };
    lemma_call_alike(depth, a, b, path, arguments, k, l, span, u, v, use_piped);
    match (
        call(depth, a, path, arguments, k, span, u, use_piped),
        call(depth, b, path, arguments, l, span, v, use_piped),
    ) {
        (Ok(s), Ok(t)) => {
            lemma_alike_facts(s.0, t.0);
            let c = MachineView { loops: Seq::empty(), ..s.0 };
            let d = MachineView { loops: Seq::empty(), ..t.0 };
            lemma_alike_with(s.0, t.0, c, d);
            match s.1 {
                Some(actor) => {
                    lemma_alike_stored(c, d, slot, actor);
                    let spec = ActorSpecView::WithLoops { source: actor, loops: s.0.loops };
                    lemma_alike_emit(
                        c,
                        d,
                        slot,
                        spec,
                        spec,
                        k,
                        l,
                        span,
                        u.actor_context,
                        v.actor_context,
                    );
                },
                None => {},
            }
        },
        _ => {},
    }
}

/// The actors of THEN, WHEN and WHILE in machines that differ in identities.
proof fn lemma_reacting_alike(
    a: MachineView,
    b: MachineView,
    r: Result<ActorSpecView, Seq<char>>,
    s: Result<ActorSpecView, Seq<char>>,
    k: PersistenceKey,
    l: PersistenceKey,
    span: Span,
    c: ActorContextView,
    d: ActorContextView,
    slot: u32,
)
    requires
        alike(a, b),
        plain_context(c) == plain_context(d),
        match (r, s) {
            (Ok(p), Ok(q)) => plain_spec(p) == plain_spec(q),
            (Err(p), Err(q)) => p == q,
            _ => false,
        },
    ensures
        steps_alike(emit_result(a, slot, r, k, span, c), emit_result(b, slot, s, l, span, d)),
{
    match (r, s) {
        (Ok(p), Ok(q)) => {
            lemma_alike_emit(a, b, slot, p, q, k, l, span, c, d);
        },
        _ => {},
    }
}

/// Expressions that lead to an actor at once, and those that hold no others.
proof fn lemma_schedule_simple_alike(
    depth: nat,
    start: MachineView,
    other: MachineView,
    e: SpannedExpressionView,
    f: SpannedExpressionView,
    x: EvaluationContextView,
    y: EvaluationContextView,
    slot: u32,
)
    requires
        alike(start, other),
        same_expression(e, f),
        plain_ctx(x) == plain_ctx(y),
        match e.node {
            ExpressionView::List { .. }
            | ExpressionView::Operator { .. }
            | ExpressionView::Negate { .. }
            | ExpressionView::Pipe { .. }
            | ExpressionView::Block { .. }
            | ExpressionView::Object { .. }
            | ExpressionView::TaggedObject { .. }
            | ExpressionView::Latest { .. }
            | ExpressionView::FunctionCall { .. } => false,
            _ => true,
        },
    ensures
        steps_alike(schedule(depth, start, e, x, slot), schedule(depth, other, f, y, slot)),
{
    let k = key_of(start, e.persistence);
    let l = key_of(other, f.persistence);
    let a = keyed(start, e.persistence);
    let b = keyed(other, f.persistence);
    lemma_alike_keyed(start, other, e.persistence, f.persistence);
    lemma_alike_facts(a, b);
    let span = e.span;
    let c = x.actor_context;
    let d = y.actor_context;
    match e.node {
        ExpressionView::Literal(literal) => {
            let spec = ActorSpecView::Literal(literal);
            lemma_alike_emit(a, b, slot, spec, spec, k, l, span, c, d);
        },
        ExpressionView::Alias(alias) => {
            lemma_alias_alike(a, b, alias, k, l, span, x, y);
            match (alias_step(a, alias, k, span, x), alias_step(b, alias, l, span, y)) {
                (Ok(s), Ok(t)) => {
                    lemma_alike_stored(s.0, t.0, slot, s.1);
                },
                _ => {},
            }
        },
        ExpressionView::Then { body } => {
            let r = then_actor(a, *body, kept_id(k), x);
            let s = then_actor(b, *body, kept_id(l), y);
            lemma_reacting_alike(a, b, r, s, k, l, span, c, d, slot);
        },
        ExpressionView::When { arms } => {
            let r = when_actor(a, arms, x);
            let s = when_actor(b, arms, y);
            lemma_reacting_alike(a, b, r, s, k, l, span, c, d, slot);
        },
        ExpressionView::While { arms } => {
            let r = while_actor(a, arms, x);
            let s = while_actor(b, arms, y);
            lemma_reacting_alike(a, b, r, s, k, l, span, c, d, slot);
        },
        ExpressionView::Hold { state_param, body } => match c.piped {
            Some(piped) => {
                let initial_slot = a.next_slot;
                lemma_alike_allocated(a, b, 1);
                let i = WorkItemView::BuildHold {
                    initial_slot,
                    state_param,
                    body: *body,
                    span,
                    key: k,
                    ctx: x,
                    result_slot: slot,
                };
                let j = WorkItemView::BuildHold {
                    initial_slot,
                    state_param,
                    body: *body,
                    span,
                    key: l,
                    ctx: y,
                    result_slot: slot,
                };
                lemma_alike_pushed(allocated(a, 1), allocated(b, 1), i, j);
                lemma_alike_stored(
                    pushed(allocated(a, 1), i),
                    pushed(allocated(b, 1), j),
                    initial_slot,
                    piped,
                );
            },
            None => {},
        },
        ExpressionView::TextLiteral { parts } => {
            lemma_text_literal_alike(a, b, parts, k, l, span, x, y, slot);
        },
        ExpressionView::Function { name, parameters, body } => {
            let definition = StaticFunctionDefinitionView { parameters, body: *body };
            let s = MachineView { registry: a.registry.insert(name, definition), ..a };
            let t = MachineView { registry: b.registry.insert(name, definition), ..b };
            lemma_alike_with(a, b, s, t);
            let spec = ActorSpecView::Function { name };
            lemma_alike_emit(s, t, slot, spec, spec, k, l, span, c, d);
        },
        ExpressionView::LinkSetter { alias } => {
            lemma_alias_alike(a, b, alias, k, l, span, x, y);
            match (alias_step(a, alias, k, span, x), alias_step(b, alias, l, span, y)) {
                (Ok(s), Ok(t)) => {
                    let spec = ActorSpecView::Relay { source: s.1 };
                    lemma_alike_emit(s.0, t.0, slot, spec, spec, k, l, span, c, d);
                },
                _ => {},
            }
        },
        ExpressionView::FieldAccess { path } => match c.piped {
            Some(piped) => {
                let spec = ActorSpecView::FieldAccess { piped, path };
                lemma_alike_emit(a, b, slot, spec, spec, k, l, span, c, d);
            },
            None => {},
        },
        _ => {},
    }
}

#[verifier::spinoff_prover]
#[verifier::rlimit(40)]
proof fn lemma_schedule_alike(
    depth: nat,
    start: MachineView,
    other: MachineView,
    e: SpannedExpressionView,
    f: SpannedExpressionView,
    x: EvaluationContextView,
    y: EvaluationContextView,
    slot: u32,
)
    requires
        alike(start, other),
        same_expression(e, f),
        plain_ctx(x) == plain_ctx(y),
    ensures
        steps_alike(schedule(depth, start, e, x, slot), schedule(depth, other, f, y, slot)),
    decreases depth, expr_size(e), 2nat, 0nat,
{
    let k = key_of(start, e.persistence);
    let l = key_of(other, f.persistence);
    let a = keyed(start, e.persistence);
    let b = keyed(other, f.persistence);
    lemma_alike_keyed(start, other, e.persistence, f.persistence);
    lemma_alike_facts(a, b);
    let span = e.span;
    let c = x.actor_context;
    let d = y.actor_context;
    let bound = expr_size(e);
    assert(expr_size(f) == bound);
    match e.node {
        ExpressionView::List { items } => {
            let n = items.len();
            let slots = Seq::new(n, |i: int| slot_at(a.next_slot, i));
            assert(slots =~= Seq::new(n, |i: int| slot_at(b.next_slot, i)));
            let i = WorkItemView::BuildList {
                item_slots: slots,
                span,
                key: k,
                ctx: x,
                result_slot: slot,
            };
            let j = WorkItemView::BuildList {
                item_slots: slots,
                span,
                key: l,
                ctx: y,
                result_slot: slot,
            };
            lemma_alike_allocated(a, b, n);
            lemma_alike_pushed(allocated(a, n), allocated(b, n), i, j);
            lemma_items_alike(
                depth,
                bound,
                pushed(allocated(a, n), i),
                pushed(allocated(b, n), j),
                items,
                n,
                a.next_slot,
                x,
                y,
            );
        },
        ExpressionView::Operator { op, operand_a, operand_b } => {
            let a_slot = a.next_slot;
            let b_slot = slot_at(a.next_slot, 1);
            let i = WorkItemView::BinaryOp {
                op,
                operand_a_slot: a_slot,
                operand_b_slot: b_slot,
                span,
                key: k,
                ctx: x,
                result_slot: slot,
            };
            let j = WorkItemView::BinaryOp {
                op,
                operand_a_slot: a_slot,
                operand_b_slot: b_slot,
                span,
                key: l,
                ctx: y,
                result_slot: slot,
            };
            lemma_alike_allocated(a, b, 2);
            lemma_alike_pushed(allocated(a, 2), allocated(b, 2), i, j);
            let jobs = seq![(*operand_a, a_slot), (*operand_b, b_slot)];
            lemma_jobs_alike(
                depth,
                bound,
                pushed(allocated(a, 2), i),
                pushed(allocated(b, 2), j),
                jobs,
                2,
                x,
                y,
            );
        },
        ExpressionView::Negate { operand } => {
            let minus_slot = a.next_slot;
            let operand_slot = slot_at(a.next_slot, 1);
            let spec = ActorSpecView::Literal(LiteralView::Number(MINUS_ONE_BITS));
            lemma_alike_allocated(a, b, 2);
            lemma_alike_emit(
                allocated(a, 2),
                allocated(b, 2),
                minus_slot,
                spec,
                spec,
                k,
                l,
                span,
                c,
                d,
            );
            let s = emit(allocated(a, 2), minus_slot, spec, k, span, c);
            let t = emit(allocated(b, 2), minus_slot, spec, l, span, d);
            let i = WorkItemView::BinaryOp {
                op: BinaryOpKind::Multiply,
                operand_a_slot: minus_slot,
                operand_b_slot: operand_slot,
                span,
                key: k,
                ctx: x,
                result_slot: slot,
            };
            let j = WorkItemView::BinaryOp {
                op: BinaryOpKind::Multiply,
                operand_a_slot: minus_slot,
                operand_b_slot: operand_slot,
                span,
                key: l,
                ctx: y,
                result_slot: slot,
            };
            lemma_alike_pushed(s, t, i, j);
            let jobs = seq![(*operand, operand_slot)];
            lemma_jobs_alike(depth, bound, pushed(s, i), pushed(t, j), jobs, 1, x, y);
        },
        ExpressionView::Pipe { .. } => {
            let steps = pipe_steps(e);
            assert(pipe_steps(f) == steps);
            lemma_piped_alike(a, b, steps.skip(1), x, y, slot);
            lemma_jobs_alike(
                depth,
                bound,
                piped_machine(a, steps.skip(1), x, slot),
                piped_machine(b, steps.skip(1), y, slot),
                seq![(steps[0], a.next_slot)],
                1,
                x,
                y,
            );
        },
        ExpressionView::Block { variables, output } => {
            lemma_schedule_block_alike(
                depth,
                bound,
                a,
                b,
                variables,
                *output,
                span,
                k,
                l,
                x,
                y,
                slot,
            );
        },
        ExpressionView::Object { variables } => {
            lemma_schedule_object_alike(
                depth,
                bound,
                a,
                b,
                None,
                variables,
                span,
                k,
                l,
                x,
                y,
                slot,
            );
        },
        ExpressionView::TaggedObject { tag, variables } => {
            lemma_schedule_object_alike(
                depth,
                bound,
                a,
                b,
                Some(tag),
                variables,
                span,
                k,
                l,
                x,
                y,
                slot,
            );
        },
        ExpressionView::Latest { inputs } => {
            let n = inputs.len();
            let slots = Seq::new(n, |i: int| slot_at(a.next_slot, i));
            assert(slots =~= Seq::new(n, |i: int| slot_at(b.next_slot, i)));
            let i = WorkItemView::BuildLatest {
                input_slots: slots,
                span,
                key: k,
                ctx: x,
                result_slot: slot,
            };
            let j = WorkItemView::BuildLatest {
                input_slots: slots,
                span,
                key: l,
                ctx: y,
                result_slot: slot,
            };
            lemma_alike_allocated(a, b, n);
            lemma_alike_pushed(allocated(a, n), allocated(b, n), i, j);
            let jobs = Seq::new(n, |i: int| (inputs[i], slot_at(a.next_slot, i)));
            assert(jobs =~= Seq::new(n, |i: int| (inputs[i], slot_at(b.next_slot, i))));
            lemma_jobs_alike(
                depth,
                bound,
                pushed(allocated(a, n), i),
                pushed(allocated(b, n), j),
                jobs,
                jobs.len(),
                x,
                y,
            );
        },
        ExpressionView::FunctionCall { path, arguments } => match binding_operation(path) {
            Some(op) => {
                let name = path[1];
                lemma_list_binding_alike(
                    depth,
                    bound,
                    a,
                    b,
                    name,
                    op,
                    arguments,
                    k,
                    l,
                    span,
                    x,
                    y,
                );
                lemma_store_optional_alike(
                    list_binding(depth, bound, a, name, op, arguments, k, span, x),
                    list_binding(depth, bound, b, name, op, arguments, l, span, y),
                    slot,
                );
            },
            None => {
                if is_list_path(path, "append"@) {
                    lemma_list_append_alike(depth, bound, a, b, arguments, k, l, span, x, y);
                    lemma_store_optional_alike(
                        list_append(depth, bound, a, arguments, k, span, x),
                        list_append(depth, bound, b, arguments, l, span, y),
                        slot,
                    );
                } else {
                    lemma_schedule_call_alike(
                        depth,
                        bound,
                        a,
                        b,
                        path,
                        arguments,
                        span,
                        k,
                        l,
                        x,
                        y,
                        slot,
                        true,
                    );
                }
            },
        },
        _ => {
            lemma_schedule_simple_alike(depth, start, other, e, f, x, y, slot);
        },
    }
}

proof fn lemma_process_piped_alike(
    depth: nat,
    a: MachineView,
    b: MachineView,
    e: SpannedExpressionView,
    prev_slot: u32,
    x: EvaluationContextView,
    y: EvaluationContextView,
    slot: u32,
)
    requires
        alike(a, b),
        plain_ctx(x) == plain_ctx(y),
    ensures
        steps_alike(
            process(
                depth,
                a,
                WorkItemView::EvaluateWithPiped { expr: e, prev_slot, ctx: x, result_slot: slot },
            ),
            process(
                depth,
                b,
                WorkItemView::EvaluateWithPiped { expr: e, prev_slot, ctx: y, result_slot: slot },
            ),
        ),
    decreases depth, expr_size(e), 3nat, 0nat,
{
    lemma_alike_facts(a, b);
    if a.results.contains_key(prev_slot) {
        let piped = a.results[prev_slot];
        let u = with_context(x, ActorContextView { piped: Some(piped), ..x.actor_context });
        let v = with_context(y, ActorContextView { piped: Some(piped), ..y.actor_context });
        let k = key_of(a, e.persistence);
        let l = key_of(b, e.persistence);
        let s = keyed(a, e.persistence);
        let t = keyed(b, e.persistence);
        lemma_alike_keyed(a, b, e.persistence, e.persistence);
        match e.node {
            ExpressionView::FunctionCall { path, arguments } => {
                if binding_operation(path) is Some || is_list_path(path, "append"@) {
                    lemma_schedule_alike(depth, a, b, e, e, u, v, slot);
                } else {
                    lemma_schedule_call_alike(
                        depth,
                        expr_size(e),
                        s,
                        t,
                        path,
                        arguments,
                        e.span,
                        k,
                        l,
                        u,
                        v,
                        slot,
                        false,
                    );
                }
            },
            ExpressionView::LinkSetter { alias } => {
                lemma_link_setter_alike(s, t, piped, alias, k, l, e.span, u, v, slot);
            },
            _ => {
                lemma_schedule_alike(depth, a, b, e, e, u, v, slot);
            },
        }
    }
}

#[verifier::spinoff_prover]
proof fn lemma_process_alike(
    depth: nat,
    a: MachineView,
    b: MachineView,
    i: WorkItemView,
    j: WorkItemView,
)
    requires
        alike(a, b),
        plain_item(i) == plain_item(j),
    ensures
        steps_alike(process(depth, a, i), process(depth, b, j)),
    decreases depth, weight(i), 2nat, 0nat,
{
    lemma_alike_facts(a, b);
    match (i, j) {
        (
            WorkItemView::Evaluate { expr, ctx: x, result_slot },
            WorkItemView::Evaluate { ctx: y, .. },
        ) => {
            lemma_schedule_alike(depth, a, b, expr, expr, x, y, result_slot);
        },
        (
            WorkItemView::BinaryOp {
                op,
                operand_a_slot,
                operand_b_slot,
                span,
                key: k,
                ctx: x,
                result_slot,
            },
            WorkItemView::BinaryOp { key: l, ctx: y, .. },
        ) => {
            let spec = ActorSpecView::BinaryOp {
                op,
                a: a.results[operand_a_slot],
                b: a.results[operand_b_slot],
            };
            let c = x.actor_context;
            let d = y.actor_context;
            lemma_alike_emit(a, b, result_slot, spec, spec, k, l, span, c, d);
        },
        (
            WorkItemView::BuildList { item_slots, span, key: k, ctx: x, result_slot },
            WorkItemView::BuildList { key: l, ctx: y, .. },
        ) => {
            lemma_found_alike(a, b, item_slots, item_slots.len());
            let spec = ActorSpecView::List { items: found(a, item_slots, item_slots.len()) };
            let c = x.actor_context;
            let d = y.actor_context;
            lemma_alike_emit(a, b, result_slot, spec, spec, k, l, span, c, d);
        },
        (
            WorkItemView::BuildLatest { input_slots, span, key: k, ctx: x, result_slot },
            WorkItemView::BuildLatest { key: l, ctx: y, .. },
        ) => {
            lemma_found_alike(a, b, input_slots, input_slots.len());
            let spec = ActorSpecView::Latest {
                inputs: found(a, input_slots, input_slots.len()),
            };
            let c = x.actor_context;
            let d = y.actor_context;
            lemma_alike_emit(a, b, result_slot, spec, spec, k, l, span, c, d);
        },
        (
            WorkItemView::BuildObject { variable_data: p, span, key: k, ctx: x, result_slot },
            WorkItemView::BuildObject { variable_data: q, key: l, ctx: y, .. },
        ) => {
            lemma_process_object_alike(a, b, None, p, q, span, k, l, x, y, result_slot);
        },
        (
            WorkItemView::BuildTaggedObject {
                tag,
                variable_data: p,
                span,
                key: k,
                ctx: x,
                result_slot,
            },
            WorkItemView::BuildTaggedObject { variable_data: q, key: l, ctx: y, .. },
        ) => {
            lemma_process_object_alike(a, b, Some(tag), p, q, span, k, l, x, y, result_slot);
        },
        (
            WorkItemView::BuildThen { body, span, key: k, ctx: x, result_slot, .. },
            WorkItemView::BuildThen { key: l, ctx: y, .. },
        ) => {
            let r = then_actor(a, body, kept_id(k), x);
            let s = then_actor(b, body, kept_id(l), y);
            let c = x.actor_context;
            let d = y.actor_context;
            lemma_reacting_alike(a, b, r, s, k, l, span, c, d, result_slot);
        },
        (
            WorkItemView::BuildWhen { arms, span, key: k, ctx: x, result_slot, .. },
            WorkItemView::BuildWhen { key: l, ctx: y, .. },
        ) => {
            let r = when_actor(a, arms, x);
            let s = when_actor(b, arms, y);
            let c = x.actor_context;
            let d = y.actor_context;
            lemma_reacting_alike(a, b, r, s, k, l, span, c, d, result_slot);
        },
        (
            WorkItemView::BuildWhile { arms, span, key: k, ctx: x, result_slot, .. },
            WorkItemView::BuildWhile { key: l, ctx: y, .. },
        ) => {
            let r = while_actor(a, arms, x);
            let s = while_actor(b, arms, y);
            let c = x.actor_context;
            let d = y.actor_context;
            lemma_reacting_alike(a, b, r, s, k, l, span, c, d, result_slot);
        },
        (
            WorkItemView::BuildHold {
                initial_slot,
                state_param,
                body,
                span,
                key: k,
                ctx: x,
                result_slot,
            },
            WorkItemView::BuildHold { key: l, ctx: y, .. },
        ) => {
            if a.results.contains_key(initial_slot) {
                lemma_process_hold_alike(
                    depth,
                    weight(i),
                    a,
                    b,
                    a.results[initial_slot],
                    state_param,
                    body,
                    k,
                    l,
                    span,
                    x,
                    y,
                    result_slot,
                );
            }
        },
        (WorkItemView::BuildBlock { object_slot, output_slot, result_slot }, _) => {
            let spec = ActorSpecView::Block {
                object: a.results[object_slot],
                output: a.results[output_slot],
            };
            lemma_alike_emit(
                a,
                b,
                result_slot,
                spec,
                spec,
                PersistenceKey::Fresh(a.plan.fresh),
                PersistenceKey::Fresh(b.plan.fresh),
                Span { start: 0, end: 0 },
                root_context(),
                root_context(),
            );
            lemma_alike_stored(a, b, result_slot, a.results[output_slot]);
        },
        (
            WorkItemView::EvaluateWithPiped { expr, prev_slot, ctx: x, result_slot },
            WorkItemView::EvaluateWithPiped { ctx: y, .. },
        ) => {
            lemma_process_piped_alike(depth, a, b, expr, prev_slot, x, y, result_slot);
        },
        (
            WorkItemView::CallFunction {
                path,
                arg_slots,
                passed_context,
                use_piped_for_builtin,
                span,
                key: k,
                ctx: x,
                result_slot,
                ..
            },
            WorkItemView::CallFunction { key: l, ctx: y, .. },
        ) => {
            lemma_process_call_alike(
                depth,
                a,
                b,
                path,
                arg_slots,
                passed_context,
                use_piped_for_builtin,
                span,
                k,
                l,
                x,
                y,
                result_slot,
            );
        },
        (WorkItemView::ConnectForwardingActors { connections }, _) => {
            lemma_connected_alike(a, b, connections, connections.len());
            let loops = connected(a, connections, connections.len());
            lemma_alike_with(a, b, MachineView { loops, ..a }, MachineView { loops, ..b });
        },
        (
            WorkItemView::WrapWithPersistence { source_slot, persistence_id, ctx: x, result_slot },
            WorkItemView::WrapWithPersistence { ctx: y, .. },
        ) => {
            let spec = ActorSpecView::Persisted { source: a.results[source_slot] };
            let key = PersistenceKey::Stored(persistence_id);
            lemma_alike_emit(
                a,
                b,
                result_slot,
                spec,
                spec,
                key,
                key,
                Span { start: 0, end: 0 },
                x.actor_context,
                y.actor_context,
            );
        },
        _ => {},
    }
}

proof fn lemma_recording_alike(c: ActorContextView, d: ActorContextView, span: Span)
    requires
        plain_context(c) == plain_context(d),
    ensures
        plain_context(recording_context(c, span)) == plain_context(recording_context(d, span)),
{
    let segment = ScopeSegmentView::ListAppend { span };
    lemma_plain_child(c.scope, d.scope, segment, segment);
}

proof fn lemma_tried_alike(
    depth: nat,
    plan: PlanView,
    e: SpannedExpressionView,
    f: SpannedExpressionView,
    ctx: EvaluationContextView,
)
    requires
        same_expression(e, f),
    ensures
        plain_plan(tried(depth, plan, e, ctx).0) == plain_plan(tried(depth, plan, f, ctx).0),
        tried(depth, plan, e, ctx).0.actors.len() == tried(depth, plan, f, ctx).0.actors.len(),
        tried(depth, plan, e, ctx).1 == tried(depth, plan, f, ctx).1,
{
    reveal(tried);
    lemma_identity_is_no_matter(depth, plan, plan, e, f, ctx, ctx);
}

proof fn lemma_lent_identity(
    depth: nat,
    plan: PlanView,
    body: SpannedExpressionView,
    id: Option<PersistenceId>,
    registry: FunctionRegistryView,
    span: Span,
    ctx: EvaluationContextView,
    value: ValueView,
    current: Map<Seq<char>, ValueView>,
)
    ensures
        ({
            let lent = SpannedExpressionView { persistence: id, ..body };
            let a = then_reaction(depth, plan, lent, registry, span, ctx, value, current);
            let b = then_reaction(depth, plan, body, registry, span, ctx, value, current);
            &&& plain_plan(a.0) == plain_plan(b.0)
            &&& a.0.actors.len() == b.0.actors.len()
            &&& a.1 == b.1
        }),
{
    let lent = SpannedExpressionView { persistence: id, ..body };
    let c = ctx.actor_context;
    let p = with_constant(plan, value, span, c);
    let f = frozen(p, ordered_pairs(c.parameters), current, span, c);
    let inner = body_context(ctx, snapshot_context(c, plan_next(plan), f.1), registry);
    lemma_tried_alike(depth, f.0, lent, body, inner);
}

/// `x |> THEN { body }` gives what `x |> WHEN { __ => body }` gives. Both take values from the
/// same actor, in the same order, and see the same functions; the arm is chosen for every value;
/// and a value leads to the same in both but for the identities of actors, as THEN lends its own
/// identity to its body. A HOLD around is told of it at once by THEN alone.
pub proof fn lemma_then_is_when_with_one_arm(
    depth: nat,
    m: MachineView,
    body: SpannedExpressionView,
    id: Option<PersistenceId>,
    ctx: EvaluationContextView,
    plan: PlanView,
    span: Span,
    value: ValueView,
    current: Map<Seq<char>, ValueView>,
)
    requires
        ctx.actor_context.piped is Some,
    ensures
        ({
            let arms = seq![ArmView { pattern: PatternView::WildCard, body }];
            match (then_actor(m, body, id, ctx), when_actor(m, arms, ctx)) {
                (
                    Ok(ActorSpecView::Then { piped, body: lent, registry, ordered, .. }),
                    Ok(ActorSpecView::When {
                        piped: when_piped,
                        arms: when_arms,
                        registry: when_registry,
                        ordered: when_ordered,
                    }),
                ) => {
                    let then = then_reaction(
                        depth,
                        plan,
                        lent,
                        registry,
                        span,
                        ctx,
                        value,
                        current,
                    );
                    let when = when_reaction(
                        depth,
                        plan,
                        body,
                        when_registry,
                        span,
                        ctx,
                        value,
                        current,
                        plain_match().bindings,
                    );
                    &&& piped == when_piped
                    &&& ordered == when_ordered
                    &&& registry == when_registry
                    &&& when_arms == arms
                    &&& arm_matched(arms, value, 0) == Some((0nat, plain_match()))
                    &&& plain_plan(then.0) == plain_plan(when.0)
                    &&& then.0.actors.len() == when.0.actors.len()
                    &&& then.1 is Some <==> when.1 is Some
                    &&& then.1 is Some ==> then.1->0.actor == when.1->0.actor && then.1->0.single
                        == when.1->0.single
                },
                _ => false,
            }
        }),
{
    let registry = visible_functions(m, ctx);
    lemma_then_is_when_without_arms(depth, plan, body, registry, span, ctx, value, current);
    lemma_lent_identity(depth, plan, body, id, registry, span, ctx, value, current);
}

} // verus!
