//! What longer chains, references in calls and the scopes of items lead to.
use crate::builtins::BuiltinFunction;
use crate::compound_laws::{lemma_last_step, lemma_literal_scheduled};
use crate::contexts::{in_child_scope, with_context};
use crate::evaluation::{
    Job, Step, argue, builtin_of, connected, evaluated, expr_size, found, pipe_steps,
    piped_machine, process, schedule, schedule_call, schedule_items, schedule_jobs, with_locals,
    wraps,
};
use crate::evaluation_laws::{lemma_argument_size, lemma_item_size};
use crate::evaluation_state::{
    MachineView, allocated, emit, fresh_machine, key_of, keyed, pushed, slot_at, step_name,
};
use crate::expression_view::{
    ExpressionView, LiteralView, SpannedArgumentView, SpannedExpressionView,
    StaticFunctionDefinitionView,
};
use crate::pipe_laws::{
    after_literal, call_item, is_ordinary, lemma_last_two_steps, lemma_one_job,
    lemma_single_argument, single_slot,
};
use crate::plan::{ForwardingConnection, ForwardingLoop, PersistenceKey};
use crate::plan_view::{
    ActorContextView, ActorNodeView, ActorSpecView, ArgumentSlotView, EvaluationContextView,
    PlanView, ScopeSegmentView, ScopeView, WorkItemView,
};
use crate::runtime::fresh_runtime;
use crate::static_expression::Span;
use vstd::prelude::*;

verus! {

/// The steps of a chain of pipes are those before the last pipe and then what is behind it.
pub proof fn lemma_steps_of_chains(
    e: SpannedExpressionView,
    from: SpannedExpressionView,
    to: SpannedExpressionView,
)
    requires
        e.node == (ExpressionView::Pipe { from: Box::new(from), to: Box::new(to) }),
    ensures
        pipe_steps(e).len() == pipe_steps(from).len() + 1,
        pipe_steps(e).drop_last() == pipe_steps(from),
        pipe_steps(e).last() == to,
        !(from.node is Pipe) ==> pipe_steps(from) == seq![from],
{
    assert(pipe_steps(e).drop_last() =~= pipe_steps(from));
}

/// A chain with two paths of fields takes those of the first of the literal, and those of the
/// second of what the first leads to.
pub proof fn lemma_chain_of_fields(
    depth: nat,
    plan: PlanView,
    e: SpannedExpressionView,
    inner: SpannedExpressionView,
    from: SpannedExpressionView,
    near: SpannedExpressionView,
    far: SpannedExpressionView,
    literal: LiteralView,
    first_path: Seq<Seq<char>>,
    second_path: Seq<Seq<char>>,
    ctx: EvaluationContextView,
)
    requires
        plan.actors.len() + 2 < u64::MAX,
        e.node == (ExpressionView::Pipe { from: Box::new(inner), to: Box::new(far) }),
        inner.node == (ExpressionView::Pipe { from: Box::new(from), to: Box::new(near) }),
        from.node == ExpressionView::Literal(literal),
        near.node == (ExpressionView::FieldAccess { path: first_path }),
        far.node == (ExpressionView::FieldAccess { path: second_path }),
    ensures
        ({
            let n = plan.actors.len();
            evaluated(depth, plan, e, ctx) matches Ok(done) && {
                &&& done.0.actors.len() == n + 3
                &&& done.0.actors[n as int].actor == ActorSpecView::Literal(literal)
                &&& done.0.actors[(n + 1) as int].actor == (ActorSpecView::FieldAccess {
                    piped: n as u64,
                    path: first_path,
                })
                &&& done.0.actors[(n + 2) as int].actor == (ActorSpecView::FieldAccess {
                    piped: (n + 1) as u64,
                    path: second_path,
                })
                &&& done.1 == Some((n + 2) as u64)
            }
        }),
{
    reveal(ended);
    lemma_chain_ended(
        depth,
        plan,
        e,
        inner,
        from,
        near,
        far,
        literal,
        first_path,
        second_path,
        ctx,
    );
}

/// The machine that an evaluation begins with.
#[verifier::opaque]
spec fn begun(
    depth: nat,
    plan: PlanView,
    e: SpannedExpressionView,
    ctx: EvaluationContextView,
) -> Step {
    schedule(depth, allocated(fresh_machine(plan), 1), e, ctx, 0)
}

/// The machine after a step.
#[verifier::opaque]
spec fn stepped(depth: nat, m: MachineView, item: WorkItemView) -> Step {
    process(depth, m, item)
}

/// [`evaluated`], to be looked at from outside only.
#[verifier::opaque]
spec fn ended(
    depth: nat,
    plan: PlanView,
    e: SpannedExpressionView,
    ctx: EvaluationContextView,
) -> Result<(PlanView, Option<u64>), Seq<char>> {
    evaluated(depth, plan, e, ctx)
}

proof fn lemma_ended_in_two_steps(
    depth: nat,
    plan: PlanView,
    e: SpannedExpressionView,
    ctx: EvaluationContextView,
    m: MachineView,
    first: WorkItemView,
    between: MachineView,
    second: WorkItemView,
    after: MachineView,
)
    requires
        begun(depth, plan, e, ctx) == Ok::<MachineView, Seq<char>>(m),
        m.queue.len() > 0,
        m.queue.last() == first,
        stepped(depth, MachineView { queue: m.queue.drop_last(), ..m }, first) == Ok::<
            MachineView,
            Seq<char>,
        >(between),
        between.queue == seq![second],
        stepped(depth, MachineView { queue: Seq::empty(), ..between }, second) == Ok::<
            MachineView,
            Seq<char>,
        >(after),
        after.queue.len() == 0,
        after.results.contains_key(0),
    ensures
        ended(depth, plan, e, ctx) == Ok::<(PlanView, Option<u64>), Seq<char>>(
            (after.plan, Some(after.results[0])),
        ),
{
    reveal(begun);
    reveal(stepped);
    reveal(ended);
    lemma_last_two_steps(depth, plan, e, ctx, m, first, between, second, after);
}

proof fn lemma_chain_ended(
    depth: nat,
    plan: PlanView,
    e: SpannedExpressionView,
    inner: SpannedExpressionView,
    from: SpannedExpressionView,
    near: SpannedExpressionView,
    far: SpannedExpressionView,
    literal: LiteralView,
    first_path: Seq<Seq<char>>,
    second_path: Seq<Seq<char>>,
    ctx: EvaluationContextView,
)
    requires
        plan.actors.len() + 2 < u64::MAX,
        e.node == (ExpressionView::Pipe { from: Box::new(inner), to: Box::new(far) }),
        inner.node == (ExpressionView::Pipe { from: Box::new(from), to: Box::new(near) }),
        from.node == ExpressionView::Literal(literal),
        near.node == (ExpressionView::FieldAccess { path: first_path }),
        far.node == (ExpressionView::FieldAccess { path: second_path }),
    ensures
        ({
            let n = plan.actors.len();
            ended(depth, plan, e, ctx) matches Ok(done) && {
                &&& done.0.actors.len() == n + 3
                &&& done.0.actors[n as int].actor == ActorSpecView::Literal(literal)
                &&& done.0.actors[(n + 1) as int].actor == (ActorSpecView::FieldAccess {
                    piped: n as u64,
                    path: first_path,
                })
                &&& done.0.actors[(n + 2) as int].actor == (ActorSpecView::FieldAccess {
                    piped: (n + 1) as u64,
                    path: second_path,
                })
                &&& done.1 == Some((n + 2) as u64)
            }
        }),
{
    let ready = lemma_chain_ready(depth, plan, e, inner, from, near, far, literal, ctx);
    let first = step_item(near, 1, 2, ctx);
    let second = step_item(far, 2, 0, ctx);
    let n = plan.actors.len() as u64;
    let (between, after) = lemma_both_fields(
        depth,
        ready,
        near,
        far,
        first_path,
        second_path,
        n,
        ctx,
    );
    assert(ready.queue.last() == first);
    lemma_ended_in_two_steps(depth, plan, e, ctx, ready, first, between, second, after);
}

proof fn lemma_both_fields(
    depth: nat,
    ready: MachineView,
    near: SpannedExpressionView,
    far: SpannedExpressionView,
    first_path: Seq<Seq<char>>,
    second_path: Seq<Seq<char>>,
    n: u64,
    ctx: EvaluationContextView,
) -> (done: (MachineView, MachineView))
    requires
        ready.queue == seq![step_item(far, 2, 0, ctx), step_item(near, 1, 2, ctx)],
        ready.results.contains_key(1),
        ready.results[1] == n,
        ready.plan.actors.len() == n + 1,
        n + 2 < u64::MAX,
        near.node == (ExpressionView::FieldAccess { path: first_path }),
        far.node == (ExpressionView::FieldAccess { path: second_path }),
    ensures
        stepped(
            depth,
            MachineView { queue: ready.queue.drop_last(), ..ready },
            step_item(near, 1, 2, ctx),
        ) == Ok::<MachineView, Seq<char>>(done.0),
        done.0.queue == seq![step_item(far, 2, 0, ctx)],
        stepped(depth, MachineView { queue: Seq::empty(), ..done.0 }, step_item(far, 2, 0, ctx))
            == Ok::<MachineView, Seq<char>>(done.1),
        done.1.queue.len() == 0,
        done.1.plan.actors.len() == n + 3,
        done.1.plan.actors[n as int] == ready.plan.actors[n as int],
        done.1.plan.actors[n + 1].actor == (ActorSpecView::FieldAccess {
            piped: n,
            path: first_path,
        }),
        done.1.plan.actors[n + 2].actor == (ActorSpecView::FieldAccess {
            piped: (n + 1) as u64,
            path: second_path,
        }),
        done.1.results.contains_key(0),
        done.1.results[0] == n + 2,
{
    let rest = MachineView { queue: ready.queue.drop_last(), ..ready };
    assert(rest.queue =~= seq![step_item(far, 2, 0, ctx)]);
    let between = lemma_fields_step(depth, rest, near, first_path, 1, 2, n, ctx);
    let alone = MachineView { queue: Seq::empty(), ..between };
    let after = lemma_fields_step(depth, alone, far, second_path, 2, 0, (n + 1) as u64, ctx);
    let middle = after.plan.actors.drop_last();
    assert(middle[n as int] == after.plan.actors[n as int]);
    assert(middle[n + 1] == after.plan.actors[n + 1]);
    assert(between.plan.actors.drop_last()[n as int] == between.plan.actors[n as int]);
    (between, after)
}

/// A step of a chain, from one slot to another.
spec fn step_item(
    to: SpannedExpressionView,
    prev: u32,
    slot: u32,
    ctx: EvaluationContextView,
) -> WorkItemView {
    WorkItemView::EvaluateWithPiped { expr: to, prev_slot: prev, ctx, result_slot: slot }
}

proof fn lemma_fields_step(
    depth: nat,
    m: MachineView,
    to: SpannedExpressionView,
    path: Seq<Seq<char>>,
    prev: u32,
    slot: u32,
    piped: u64,
    ctx: EvaluationContextView,
) -> (after: MachineView)
    requires
        m.results.contains_key(prev),
        m.results[prev] == piped,
        m.plan.actors.len() < u64::MAX,
        to.node == (ExpressionView::FieldAccess { path }),
    ensures
        stepped(depth, m, step_item(to, prev, slot, ctx)) == Ok::<MachineView, Seq<char>>(after),
        after.queue == m.queue,
        after.results == m.results.insert(slot, m.plan.actors.len() as u64),
        after.plan.actors.len() == m.plan.actors.len() + 1,
        after.plan.actors.drop_last() == m.plan.actors,
        after.plan.actors.last().actor == (ActorSpecView::FieldAccess { piped, path }),
{
    let inner = with_context(
        ctx,
        ActorContextView { piped: Some(piped), ..ctx.actor_context },
    );
    reveal(stepped);
    let after = schedule(depth, m, to, inner, slot)->Ok_0;
    assert(after.plan.actors.drop_last() =~= m.plan.actors);
    after
}

proof fn lemma_chain_ready(
    depth: nat,
    plan: PlanView,
    e: SpannedExpressionView,
    inner: SpannedExpressionView,
    from: SpannedExpressionView,
    near: SpannedExpressionView,
    far: SpannedExpressionView,
    literal: LiteralView,
    ctx: EvaluationContextView,
) -> (ready: MachineView)
    requires
        plan.actors.len() < u64::MAX,
        e.node == (ExpressionView::Pipe { from: Box::new(inner), to: Box::new(far) }),
        inner.node == (ExpressionView::Pipe { from: Box::new(from), to: Box::new(near) }),
        from.node == ExpressionView::Literal(literal),
    ensures
        begun(depth, plan, e, ctx) == Ok::<MachineView, Seq<char>>(ready),
        ready.queue == seq![step_item(far, 2, 0, ctx), step_item(near, 1, 2, ctx)],
        after_literal(plan, ready, literal),
{
    reveal(begun);
    let start = allocated(fresh_machine(plan), 1);
    let m = keyed(start, e.persistence);
    reveal_with_fuel(pipe_steps, 3);
    let steps = pipe_steps(e);
    assert(steps =~= seq![from, near, far]);
    assert(steps.skip(1) =~= seq![near, far]);
    let set_up = piped_machine(m, steps.skip(1), ctx, 0);
    assert(m.next_slot == 1);
    assert(slot_at(1, 0) == 1);
    assert(slot_at(1, 1) == 2);
    assert(set_up.queue =~= seq![step_item(far, 2, 0, ctx), step_item(near, 1, 2, ctx)]);
    let bound = expr_size(e);
    let jobs = seq![(steps[0], m.next_slot)];
    lemma_chain_is_larger(e, inner, from, near, far);
    assert(schedule(depth, start, e, ctx, 0) == schedule_jobs(depth, bound, set_up, jobs, 1, ctx));
    lemma_one_job(depth, bound, set_up, jobs, ctx);
    lemma_literal_scheduled(depth, set_up, from, ctx, 1);
    let ready = schedule(depth, set_up, from, ctx, 1)->Ok_0;
    assert(ready.plan.actors.drop_last() =~= plan.actors);
    ready
}

proof fn lemma_chain_is_larger(
    e: SpannedExpressionView,
    inner: SpannedExpressionView,
    from: SpannedExpressionView,
    near: SpannedExpressionView,
    far: SpannedExpressionView,
)
    requires
        e.node == (ExpressionView::Pipe { from: Box::new(inner), to: Box::new(far) }),
        inner.node == (ExpressionView::Pipe { from: Box::new(from), to: Box::new(near) }),
    ensures
        expr_size(from) < expr_size(e),
{
    assert(expr_size(e) == 1 + expr_size(inner) + expr_size(far));
    assert(expr_size(inner) == 1 + expr_size(from) + expr_size(near));
}

/// Where items of a list have identities, each is evaluated in a scope of its own, of its place in
/// the list and its identity.
pub proof fn lemma_scopes_of_items(
    depth: nat,
    plan: PlanView,
    e: SpannedExpressionView,
    items: Seq<SpannedExpressionView>,
    literals: Seq<LiteralView>,
    i: int,
    ctx: EvaluationContextView,
)
    requires
        plan.actors.len() + items.len() + 1 <= u64::MAX,
        items.len() < u32::MAX,
        items.len() == literals.len(),
        forall|j: int|
            0 <= j < items.len() ==> (#[trigger] items[j]).node == ExpressionView::Literal(
                literals[j],
            ),
        e.node == (ExpressionView::List { items }),
        0 <= i < items.len(),
        items[i].persistence is Some,
    ensures
        ({
            let key = PersistenceKey::Stored(items[i].persistence->0);
            let c = ctx.actor_context;
            evaluated(depth, plan, e, ctx) matches Ok(done) && {
                let made = done.0.actors[plan.actors.len() + i];
                &&& made.key == key
                &&& made.span == items[i].span
                &&& made.context == (ActorContextView {
                    scope: ScopeView {
                        segments: c.scope.segments.push(
                            ScopeSegmentView::ListItem { index: i as u64, key },
                        ),
                    },
                    ..c
                })
            }
        }),
{
    let start = allocated(fresh_machine(plan), 1);
    let m = keyed(start, e.persistence);
    let key = key_of(start, e.persistence);
    let k = items.len();
    let ready = lemma_list_ready(depth, plan, e, items, literals, ctx);
    let slots = Seq::new(k, |j: int| slot_at(1, j));
    let item = WorkItemView::BuildList {
        item_slots: slots,
        span: e.span,
        key,
        ctx,
        result_slot: 0,
    };
    let rest = MachineView { queue: Seq::empty(), ..ready };
    let spec = ActorSpecView::List { items: found(rest, slots, k) };
    let after = emit(rest, 0, spec, key, e.span, ctx.actor_context);
    assert(process(depth, rest, item) == Ok::<MachineView, Seq<char>>(after));
    lemma_last_step(depth, plan, e, ctx, ready, item, after);
    let at = plan.actors.len() + i;
    assert(after.plan.actors[at] == ready.plan.actors[at]);
}

/// The place of an item of a list.
spec fn item_context(
    ctx: EvaluationContextView,
    item: SpannedExpressionView,
    i: int,
) -> ActorContextView {
    in_child_scope(
        ctx.actor_context,
        ScopeSegmentView::ListItem {
            index: i as u64,
            key: PersistenceKey::Stored(item.persistence->0),
        },
    )
}

proof fn lemma_list_ready(
    depth: nat,
    plan: PlanView,
    e: SpannedExpressionView,
    items: Seq<SpannedExpressionView>,
    literals: Seq<LiteralView>,
    ctx: EvaluationContextView,
) -> (ready: MachineView)
    requires
        plan.actors.len() + items.len() + 1 <= u64::MAX,
        items.len() < u32::MAX,
        items.len() == literals.len(),
        forall|j: int|
            0 <= j < items.len() ==> (#[trigger] items[j]).node == ExpressionView::Literal(
                literals[j],
            ),
        e.node == (ExpressionView::List { items }),
    ensures
        schedule(depth, allocated(fresh_machine(plan), 1), e, ctx, 0) == Ok::<
            MachineView,
            Seq<char>,
        >(ready),
        ready.queue == seq![
            WorkItemView::BuildList {
                item_slots: Seq::new(items.len(), |j: int| slot_at(1, j)),
                span: e.span,
                key: key_of(allocated(fresh_machine(plan), 1), e.persistence),
                ctx,
                result_slot: 0,
            },
        ],
        items_placed(plan.actors.len(), ready.plan.actors, items, items.len(), ctx),
{
    let start = allocated(fresh_machine(plan), 1);
    let m = keyed(start, e.persistence);
    let key = key_of(start, e.persistence);
    let k = items.len();
    let slots = Seq::new(k, |j: int| slot_at(1, j));
    assert(m.next_slot == 1);
    let item = WorkItemView::BuildList {
        item_slots: slots,
        span: e.span,
        key,
        ctx,
        result_slot: 0,
    };
    let built = pushed(allocated(m, k), item);
    let bound = expr_size(e);
    assert(Seq::new(k, |j: int| slot_at(m.next_slot, j)) =~= slots);
    assert(schedule(depth, start, e, ctx, 0) == schedule_items(
        depth,
        bound,
        built,
        items,
        k,
        1,
        ctx,
    ));
    assert forall|j: int| 0 <= j < items.len() implies expr_size(#[trigger] items[j]) < bound by {
        lemma_item_size(items, k, j);
    }
    lemma_items_placed(depth, bound, built, items, literals, k, ctx);
    let ready = schedule_items(depth, bound, built, items, k, 1, ctx)->Ok_0;
    assert(ready.queue =~= seq![item]);
    ready
}

/// Whether the first items of a list have actors where they belong.
spec fn items_placed(
    first: nat,
    actors: Seq<ActorNodeView>,
    items: Seq<SpannedExpressionView>,
    n: nat,
    ctx: EvaluationContextView,
) -> bool {
    &&& actors.len() == first + n
    &&& forall|j: int|
        0 <= j < n && (#[trigger] items[j]).persistence is Some ==> {
            let made = actors[first + j];
            &&& made.key == PersistenceKey::Stored(items[j].persistence->0)
            &&& made.span == items[j].span
            &&& made.context == item_context(ctx, items[j], j)
        }
}

proof fn lemma_items_placed(
    depth: nat,
    bound: nat,
    m: MachineView,
    items: Seq<SpannedExpressionView>,
    literals: Seq<LiteralView>,
    n: nat,
    ctx: EvaluationContextView,
)
    requires
        n <= items.len(),
        items.len() == literals.len(),
        forall|j: int|
            0 <= j < items.len() ==> (#[trigger] items[j]).node == ExpressionView::Literal(
                literals[j],
            ),
        forall|j: int| 0 <= j < items.len() ==> expr_size(#[trigger] items[j]) < bound,
    ensures
        schedule_items(depth, bound, m, items, n, 1, ctx) matches Ok(after) && after.queue
            == m.queue && items_placed(m.plan.actors.len(), after.plan.actors, items, n, ctx),
    decreases n,
{
    if n > 0 {
        let k = (n - 1) as nat;
        lemma_items_placed(depth, bound, m, items, literals, k, ctx);
        let before = schedule_items(depth, bound, m, items, k, 1, ctx)->Ok_0;
        let item = items[k as int];
        let segment = ScopeSegmentView::ListItem {
            index: k as u64,
            key: key_of(before, item.persistence),
        };
        let inner = with_context(ctx, in_child_scope(ctx.actor_context, segment));
        let known = keyed(before, item.persistence);
        assert(item.node == ExpressionView::Literal(literals[k as int]));
        lemma_literal_scheduled(depth, known, item, inner, slot_at(1, k as int));
        let after = schedule_items(depth, bound, m, items, n, 1, ctx)->Ok_0;
        let first = m.plan.actors.len();
        assert(after.plan.actors.drop_last() =~= before.plan.actors);
        assert forall|j: int| 0 <= j < n && (#[trigger] items[j]).persistence is Some implies {
            let made = after.plan.actors[first + j];
            &&& made.key == PersistenceKey::Stored(items[j].persistence->0)
            &&& made.span == items[j].span
            &&& made.context == item_context(ctx, items[j], j)
        } by {
            if j < k {
                assert(after.plan.actors[first + j] == before.plan.actors[first + j]);
            }
        }
    }
}

/// The steps of an evaluation by their names.
pub proof fn lemma_names_of_steps(item: WorkItemView)
    ensures
        item is Evaluate ==> step_name(item) == "Evaluate"@,
        item is BinaryOp ==> step_name(item) == "BinaryOp"@,
        item is BuildList ==> step_name(item) == "BuildList"@,
        item is BuildObject ==> step_name(item) == "BuildObject"@,
        item is BuildTaggedObject ==> step_name(item) == "BuildTaggedObject"@,
        item is BuildLatest ==> step_name(item) == "BuildLatest"@,
        item is BuildThen ==> step_name(item) == "BuildThen"@,
        item is BuildWhen ==> step_name(item) == "BuildWhen"@,
        item is BuildWhile ==> step_name(item) == "BuildWhile"@,
        item is BuildHold ==> step_name(item) == "BuildHold"@,
        item is BuildBlock ==> step_name(item) == "BuildBlock"@,
        item is EvaluateWithPiped ==> step_name(item) == "EvaluateWithPiped"@,
        item is CallFunction ==> step_name(item) == "CallFunction"@,
        item is ConnectForwardingActors ==> step_name(item) == "ConnectForwardingActors"@,
        item is WrapWithPersistence ==> step_name(item) == "WrapWithPersistence"@,
{
}

/// A new runtime holds nothing but what it was told about its source.
pub proof fn lemma_new_runtime(source_len: nat, external_functions: nat, kept: bool)
    ensures
        ({
            let r = fresh_runtime(source_len, external_functions, kept);
            &&& r.source_len == source_len
            &&& r.external_functions == external_functions
            &&& r.persistence_enabled == kept
            &&& r.memory.len() == 0 && r.pending_commands is None
            &&& r.event_history.len() == 0 && r.fact_history.len() == 0
            &&& !r.focused && r.active_program is None
            &&& r.actions.dom().is_empty() && r.input_bindings.dom().is_empty()
            &&& r.input_nodes.dom().is_empty() && r.hovered_bindings.dom().is_empty()
            &&& r.focused_bindings.dom().is_empty()
            &&& r.store.draft_text.len() == 0 && r.store.next_object_item_id == 0
            &&& r.store.state.scalar_values.dom().is_empty()
            &&& r.store.state.text_values.dom().is_empty()
            &&& r.store.state.text_lists.dom().is_empty()
            &&& r.store.state.object_lists.dom().is_empty()
            &&& r.store.state.input_texts.dom().is_empty()
        }),
{
}


/// A function of the platform that is called with a literal to which something refers: the argument
/// has an actor from the start, which the connector knows, and the call takes care that this actor
/// gets the value of the literal.
pub proof fn lemma_builtin_called_with_reference(
    depth: nat,
    plan: PlanView,
    e: SpannedExpressionView,
    path: Seq<Seq<char>>,
    function: BuiltinFunction,
    arg: SpannedArgumentView,
    a: SpannedExpressionView,
    literal: LiteralView,
    ctx: EvaluationContextView,
)
    requires
        plan.actors.len() + 3 < u64::MAX,
        e.node == (ExpressionView::FunctionCall { path, arguments: seq![arg] }),
        is_ordinary(path),
        builtin_of(path) == Some(function),
        ctx.function_registry_snapshot is None,
        arg.value == Some(a),
        arg.name != "PASS"@,
        arg.is_referenced,
        a.node == ExpressionView::Literal(literal),
    ensures
        ({
            let n = plan.actors.len();
            evaluated(depth, plan, e, ctx) matches Ok(done) && {
                &&& done.0.actors.len() == n + 4
                &&& done.0.actors[n as int].actor == ActorSpecView::Forwarding
                &&& done.0.actors[(n + 1) as int].actor == ActorSpecView::Literal(literal)
                &&& done.0.actors[(n + 2) as int].actor == (ActorSpecView::Builtin {
                    function,
                    arguments: seq![(n + 1) as u64],
                })
                &&& done.0.actors[(n + 3) as int].actor == (ActorSpecView::WithLoops {
                    source: (n + 2) as u64,
                    loops: seq![ForwardingLoop { target: n as u64, source: (n + 1) as u64 }],
                })
                &&& done.1 == Some((n + 3) as u64)
            }
        }),
{
    reveal(ended);
    lemma_reference_ended(depth, plan, e, path, function, arg, a, literal, ctx);
}

/// The step that sees to it that an actor gets the value of another.
spec fn connect_item(target: u64) -> WorkItemView {
    WorkItemView::ConnectForwardingActors {
        connections: seq![ForwardingConnection { slot: 1, target }],
    }
}

proof fn lemma_reference_ended(
    depth: nat,
    plan: PlanView,
    e: SpannedExpressionView,
    path: Seq<Seq<char>>,
    function: BuiltinFunction,
    arg: SpannedArgumentView,
    a: SpannedExpressionView,
    literal: LiteralView,
    ctx: EvaluationContextView,
)
    requires
        plan.actors.len() + 3 < u64::MAX,
        e.node == (ExpressionView::FunctionCall { path, arguments: seq![arg] }),
        is_ordinary(path),
        builtin_of(path) == Some(function),
        ctx.function_registry_snapshot is None,
        arg.value == Some(a),
        arg.name != "PASS"@,
        arg.is_referenced,
        a.node == ExpressionView::Literal(literal),
    ensures
        ({
            let n = plan.actors.len();
            ended(depth, plan, e, ctx) matches Ok(done) && {
                &&& done.0.actors.len() == n + 4
                &&& done.0.actors[n as int].actor == ActorSpecView::Forwarding
                &&& done.0.actors[(n + 1) as int].actor == ActorSpecView::Literal(literal)
                &&& done.0.actors[(n + 2) as int].actor == (ActorSpecView::Builtin {
                    function,
                    arguments: seq![(n + 1) as u64],
                })
                &&& done.0.actors[(n + 3) as int].actor == (ActorSpecView::WithLoops {
                    source: (n + 2) as u64,
                    loops: seq![ForwardingLoop { target: n as u64, source: (n + 1) as u64 }],
                })
                &&& done.1 == Some((n + 3) as u64)
            }
        }),
{
    let n = plan.actors.len() as u64;
    let ready = lemma_reference_ready(depth, plan, e, path, arg, a, literal, ctx);
    let key = key_of(allocated(fresh_machine(plan), 1), e.persistence);
    let second = call_item(path, single_slot(arg.name), None, false, e.span, key, ctx);
    let rest = MachineView { queue: ready.queue.drop_last(), ..ready };
    assert(rest.queue =~= seq![second]);
    let between = lemma_connected(depth, rest, n);
    let alone = MachineView { queue: Seq::empty(), ..between };
    let after = lemma_looped_call(
        depth,
        alone,
        path,
        function,
        arg.name,
        (n + 1) as u64,
        e.span,
        key,
        ctx,
    );
    lemma_ended_in_two_steps(
        depth,
        plan,
        e,
        ctx,
        ready,
        connect_item(n),
        between,
        second,
        after,
    );
    let before = after.plan.actors;
    assert(before[n as int] == ready.plan.actors[n as int]);
    assert(before[n + 1] == ready.plan.actors[n + 1]);
}

proof fn lemma_connected(depth: nat, m: MachineView, target: u64) -> (after: MachineView)
    requires
        m.results.contains_key(1),
        m.loops.len() == 0,
    ensures
        stepped(depth, m, connect_item(target)) == Ok::<MachineView, Seq<char>>(after),
        after == (MachineView {
            loops: seq![ForwardingLoop { target, source: m.results[1] }],
            ..m
        }),
{
    reveal(stepped);
    reveal_with_fuel(connected, 2);
    let connections = seq![ForwardingConnection { slot: 1u32, target }];
    let loops = seq![ForwardingLoop { target, source: m.results[1] }];
    assert(connected(m, connections, 1) =~= loops);
    MachineView { loops, ..m }
}

proof fn lemma_looped_call(
    depth: nat,
    m: MachineView,
    path: Seq<Seq<char>>,
    function: BuiltinFunction,
    name: Seq<char>,
    actor: u64,
    span: Span,
    key: PersistenceKey,
    ctx: EvaluationContextView,
) -> (after: MachineView)
    requires
        m.queue.len() == 0,
        m.loops.len() == 1,
        m.results.contains_key(1),
        m.results[1] == actor,
        m.plan.actors.len() + 1 < u64::MAX,
        m.registry == Map::<Seq<char>, StaticFunctionDefinitionView>::empty(),
        ctx.function_registry_snapshot is None,
        builtin_of(path) == Some(function),
    ensures
        stepped(depth, m, call_item(path, single_slot(name), None, false, span, key, ctx)) == Ok::<
            MachineView,
            Seq<char>,
        >(after),
        after.queue.len() == 0,
        after.results.contains_key(0),
        ({
            let n = m.plan.actors.len() as int;
            let actors = after.plan.actors;
            &&& after.results[0] == n + 1
            &&& actors.len() == n + 2
            &&& forall|i: int| 0 <= i < n ==> #[trigger] actors[i] == m.plan.actors[i]
            &&& actors[n].actor == (ActorSpecView::Builtin { function, arguments: seq![actor] })
            &&& actors[n + 1].actor == (ActorSpecView::WithLoops {
                source: n as u64,
                loops: m.loops,
            })
        }),
{
    reveal(stepped);
    let item = call_item(path, single_slot(name), None, false, span, key, ctx);
    let arguments = seq![(name, actor)];
    lemma_single_argument(m, name, actor);
    assert(arguments.map_values(|a: (Seq<char>, u64)| a.1) =~= seq![actor]);
    assert(Seq::<u64>::empty() + seq![actor] =~= seq![actor]);
    process(depth, m, item)->Ok_0
}

proof fn lemma_reference_ready(
    depth: nat,
    plan: PlanView,
    e: SpannedExpressionView,
    path: Seq<Seq<char>>,
    arg: SpannedArgumentView,
    a: SpannedExpressionView,
    literal: LiteralView,
    ctx: EvaluationContextView,
) -> (ready: MachineView)
    requires
        plan.actors.len() + 1 < u64::MAX,
        e.node == (ExpressionView::FunctionCall { path, arguments: seq![arg] }),
        is_ordinary(path),
        arg.value == Some(a),
        arg.name != "PASS"@,
        arg.is_referenced,
        a.node == ExpressionView::Literal(literal),
    ensures
        begun(depth, plan, e, ctx) == Ok::<MachineView, Seq<char>>(ready),
        ({
            let n = plan.actors.len() as int;
            let key = key_of(allocated(fresh_machine(plan), 1), e.persistence);
            &&& ready.queue == seq![
                call_item(path, single_slot(arg.name), None, false, e.span, key, ctx),
                connect_item(n as u64),
            ]
            &&& ready.plan.actors.len() == n + 2
            &&& ready.plan.actors[n].actor == ActorSpecView::Forwarding
            &&& ready.plan.actors[n + 1].actor == ActorSpecView::Literal(literal)
            &&& ready.results == Map::<u32, u64>::empty().insert(1, (n + 1) as u64)
            &&& ready.registry == Map::<Seq<char>, StaticFunctionDefinitionView>::empty()
            &&& ready.loops.len() == 0
        }),
{
    reveal(begun);
    let start = allocated(fresh_machine(plan), 1);
    let m = keyed(start, e.persistence);
    let key = key_of(start, e.persistence);
    let arguments = seq![arg];
    let bound = expr_size(e);
    let n = plan.actors.len() as u64;
    let item = call_item(path, single_slot(arg.name), None, false, e.span, key, ctx);
    assert(m.next_slot == 1);
    assert(schedule(depth, start, e, ctx, 0) == schedule_call(
        depth,
        bound,
        m,
        path,
        arguments,
        e.span,
        key,
        ctx,
        0,
        true,
    ));
    lemma_reference_set_up(m, arg, a, e.span, ctx);
    let set_up = argue(m, arguments, 1, ctx, e.span, true)->Ok_0;
    let inner = with_locals(ctx, set_up.locals);
    let called = pushed(pushed(set_up.m, item), connect_item(n));
    let jobs = seq![(a, 1u32)];
    reveal_with_fuel(wraps, 2);
    assert(wraps(jobs, 1, inner) =~= Seq::<WorkItemView>::empty());
    assert(called.queue + wraps(jobs, 1, inner) =~= called.queue);
    lemma_argument_size(arguments, 1, 0);
    assert(schedule_call(depth, bound, m, path, arguments, e.span, key, ctx, 0, true)
        == schedule_jobs(depth, bound, called, jobs, 1, inner));
    lemma_one_job(depth, bound, called, jobs, inner);
    lemma_literal_scheduled(depth, called, a, inner, 1);
    let ready = schedule(depth, called, a, inner, 1)->Ok_0;
    assert(ready.queue =~= seq![item, connect_item(n)]);
    ready
}

proof fn lemma_reference_set_up(
    m: MachineView,
    arg: SpannedArgumentView,
    a: SpannedExpressionView,
    span: Span,
    ctx: EvaluationContextView,
)
    requires
        m.next_slot == 1,
        arg.value == Some(a),
        arg.name != "PASS"@,
        arg.is_referenced,
    ensures
        argue(m, seq![arg], 1, ctx, span, true) matches Ok(done) && {
            let n = m.plan.actors.len();
            &&& done.slots == single_slot(arg.name)
            &&& done.jobs == seq![(a, 1u32)]
            &&& done.passed_slot is None
            &&& done.passed_context is None
            &&& done.connections == seq![ForwardingConnection { slot: 1u32, target: n as u64 }]
            &&& done.m.queue == m.queue
            &&& done.m.results == m.results
            &&& done.m.registry == m.registry
            &&& done.m.loops == m.loops
            &&& done.m.plan.actors.len() == n + 1
            &&& done.m.plan.actors[n as int].actor == ActorSpecView::Forwarding
        },
{
    reveal_with_fuel(argue, 2);
    let none = Seq::<ArgumentSlotView>::empty();
    assert(none.push(ArgumentSlotView { name: arg.name, slot: 1 }) =~= single_slot(arg.name));
    assert(Seq::<Job>::empty().push((a, 1u32)) =~= seq![(a, 1u32)]);
    let target = m.plan.actors.len() as u64;
    let made = ForwardingConnection { slot: 1u32, target };
    assert(Seq::<ForwardingConnection>::empty().push(made) =~= seq![made]);
}

} // verus!
