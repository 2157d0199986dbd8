//! What chains of pipes, HOLD, texts and calls lead to.
use crate::builtins::{BuiltinFunction, joined};
use crate::cell_laws::lemma_split_there;
use crate::compound_laws::{lemma_last_step, lemma_literal_scheduled};
use crate::contexts::{call_body_context, child_scope, hold_body_context, with_context};
use crate::evaluation::{
    Arguments, Job, argue, builtin_of, call, evaluated, expr_size, found_arguments, pipe_steps,
    piped_machine, process, process_hold, run_queue, schedule, schedule_call, schedule_jobs,
    text_parts_step, total_weight, unbound_parameter, user_call, weight, with_arguments,
    with_locals, wraps,
};
use crate::evaluation_laws::{lemma_argument_size, lemma_process_weight, lemma_weight_push};
use crate::evaluation_state::{
    MachineView, add_actor, allocated, drawn, fresh_machine, key_of, keyed, next_actor, pushed,
    slot_at, stored,
};
use crate::expression_view::{
    ExpressionView, LiteralView, SpannedArgumentView, SpannedExpressionView,
    StaticFunctionDefinitionView, TextPartView,
};
use crate::flow_laws::{actor_of, lemma_at_once, lemma_part_evaluated};
use crate::plan::PersistenceKey;
use crate::plan_view::{
    ActorContextView, ActorNodeView, ActorSpecView, ArgumentSlotView, EvaluationContextView,
    PlanView, ScopeSegmentView, WorkItemView,
};
use crate::slot_laws::lemma_evaluated_by_running;
use crate::static_expression::{Literal, PersistenceId, Span};
use crate::text::{split_at_first, split_parts};
use vstd::prelude::*;

verus! {

/// A text without pieces is empty, and a single fixed piece is the text.
pub proof fn lemma_simple_texts(
    depth: nat,
    plan: PlanView,
    span: Span,
    id: Option<PersistenceId>,
    text: Seq<char>,
    ctx: EvaluationContextView,
)
    requires
        plan.actors.len() < u64::MAX,
    ensures
        ({
            let of = |parts: Seq<TextPartView>|
                SpannedExpressionView {
                    span,
                    persistence: id,
                    node: ExpressionView::TextLiteral { parts },
                };
            &&& actor_of(depth, plan, of(Seq::empty()), ctx) == Some(
                ActorSpecView::Literal(LiteralView::Text(Seq::empty())),
            )
            &&& actor_of(depth, plan, of(seq![TextPartView::Text(text)]), ctx) == Some(
                ActorSpecView::Literal(LiteralView::Text(text)),
            )
        }),
{
    let start = allocated(fresh_machine(plan), 1);
    let of = |parts: Seq<TextPartView>|
        SpannedExpressionView {
            span,
            persistence: id,
            node: ExpressionView::TextLiteral { parts },
        };
    reveal_with_fuel(text_parts_step, 2);
    let none = of(Seq::empty());
    let one = of(seq![TextPartView::Text(text)]);
    lemma_at_once(depth, plan, none, ctx, schedule(depth, start, none, ctx, 0)->Ok_0);
    lemma_at_once(depth, plan, one, ctx, schedule(depth, start, one, ctx, 0)->Ok_0);
}

proof fn lemma_fixed_pieces(
    m: MachineView,
    parts: Seq<TextPartView>,
    texts: Seq<Seq<char>>,
    n: nat,
    key: PersistenceKey,
    span: Span,
    ctx: EvaluationContextView,
)
    requires
        n <= parts.len(),
        parts.len() == texts.len(),
        m.plan.actors.len() + parts.len() <= u64::MAX,
        forall|i: int| 0 <= i < parts.len() ==> #[trigger] parts[i] == TextPartView::Text(texts[i]),
    ensures
        text_parts_step(m, parts, n, key, span, ctx) matches Ok(done) && {
            let first = m.plan.actors.len();
            &&& done.0.queue == m.queue
            &&& done.0.results == m.results
            &&& done.0.plan.actors.len() == first + n
            &&& done.1.len() == n
            &&& done.2.len() == n
            &&& forall|i: int| 0 <= i < n ==> #[trigger] done.2[i] == first + i
            &&& forall|i: int|
                0 <= i < n ==> #[trigger] done.0.plan.actors[first + i].actor
                    == ActorSpecView::Literal(LiteralView::Text(texts[i]))
        },
    decreases n,
{
    if n > 0 {
        lemma_fixed_pieces(m, parts, texts, (n - 1) as nat, key, span, ctx);
        assert(parts[n - 1] == TextPartView::Text(texts[n - 1]));
    }
}

/// A text of several fixed pieces is combined of them, in their order and without leaving any out.
pub proof fn lemma_text_of_pieces(
    depth: nat,
    plan: PlanView,
    e: SpannedExpressionView,
    parts: Seq<TextPartView>,
    texts: Seq<Seq<char>>,
    ctx: EvaluationContextView,
)
    requires
        plan.actors.len() + parts.len() < u64::MAX,
        parts.len() == texts.len(),
        parts.len() >= 2,
        forall|i: int| 0 <= i < parts.len() ==> #[trigger] parts[i] == TextPartView::Text(texts[i]),
        e.node == (ExpressionView::TextLiteral { parts }),
    ensures
        ({
            let n = plan.actors.len();
            let k = parts.len();
            evaluated(depth, plan, e, ctx) matches Ok(done) && {
                &&& done.1 == Some((n + k) as u64)
                &&& done.0.actors[(n + k) as int].actor matches ActorSpecView::CombinedText {
                    parts: made,
                } && made.len() == k && forall|i: int| 0 <= i < k ==> #[trigger] made[i] == n + i
                &&& forall|i: int|
                    0 <= i < k ==> #[trigger] done.0.actors[n + i].actor == ActorSpecView::Literal(
                        LiteralView::Text(texts[i]),
                    )
            }
        }),
{
    let start = allocated(fresh_machine(plan), 1);
    let key = key_of(start, e.persistence);
    let m = keyed(start, e.persistence);
    lemma_fixed_pieces(m, parts, texts, parts.len(), key, e.span, ctx);
    let after = schedule(depth, start, e, ctx, 0)->Ok_0;
    let pieces = text_parts_step(m, parts, parts.len(), key, e.span, ctx)->Ok_0;
    lemma_at_once(depth, plan, e, ctx, after);
    let n = plan.actors.len();
    assert forall|i: int| 0 <= i < parts.len() implies #[trigger] after.plan.actors[n + i].actor
        == ActorSpecView::Literal(LiteralView::Text(texts[i])) by {
        assert(after.plan.actors[n + i] == pieces.0.plan.actors[n + i]);
    }
}

/// A text that names a parameter is combined of its actor; one that names a field of a parameter
/// is combined of this field; and without such a parameter, or anything else of this name, there is
/// no text.
pub proof fn lemma_text_of_parameter(
    depth: nat,
    plan: PlanView,
    span: Span,
    id: Option<PersistenceId>,
    name: Seq<char>,
    field: Seq<char>,
    ctx: EvaluationContextView,
)
    requires
        plan.actors.len() + 1 < u64::MAX,
        !name.contains('.'),
        !field.contains('.'),
    ensures
        ({
            let of = |var: Seq<char>|
                SpannedExpressionView {
                    span,
                    persistence: id,
                    node: ExpressionView::TextLiteral {
                        parts: seq![TextPartView::Interpolation { var, referenced_span: None }],
                    },
                };
            let n = plan.actors.len();
            let known = ctx.actor_context.parameters;
            let whole = evaluated(depth, plan, of(name), ctx);
            let part = evaluated(depth, plan, of(name + "."@ + field), ctx);
            if known.contains_key(name) {
                &&& whole matches Ok(done) && done.1 == Some(n as u64)
                    && done.0.actors[n as int].actor == (ActorSpecView::CombinedText {
                    parts: seq![known[name]],
                })
                &&& part matches Ok(done) && done.1 == Some((n + 1) as u64) && done.0.actors[(n
                    + 1) as int].actor == (ActorSpecView::CombinedText { parts: seq![n as u64] })
                    && done.0.actors[n as int].actor == (ActorSpecView::TextField {
                    base: known[name],
                    path: seq![field],
                })
            } else {
                whole is Err && part is Err
            }
        }),
{
    let start = allocated(fresh_machine(plan), 1);
    let of = |var: Seq<char>|
        SpannedExpressionView {
            span,
            persistence: id,
            node: ExpressionView::TextLiteral {
                parts: seq![TextPartView::Interpolation { var, referenced_span: None }],
            },
        };
    reveal_with_fuel(text_parts_step, 2);
    reveal_with_fuel(split_parts, 3);
    reveal_strlit(".");
    let dotted = name + "."@ + field;
    assert(dotted =~= name + seq!['.'] + field);
    lemma_split_there(name, '.', field);
    lemma_split_nowhere(name, '.');
    lemma_split_nowhere(field, '.');
    assert(split_parts(name, '.') =~= seq![name]);
    assert(split_parts(dotted, '.') =~= seq![name, field]);
    assert(seq![name].skip(1) =~= Seq::<Seq<char>>::empty());
    assert(seq![name, field].skip(1) =~= seq![field]);
    let whole = of(name);
    let part = of(dotted);
    lemma_evaluated_by_running(depth, plan, whole, ctx);
    lemma_evaluated_by_running(depth, plan, part, ctx);
    if ctx.actor_context.parameters.contains_key(name) {
        let a = schedule(depth, start, whole, ctx, 0)->Ok_0;
        lemma_at_once(depth, plan, whole, ctx, a);
        assert(a.plan.actors.last().actor->CombinedText_parts =~= seq![
            ctx.actor_context.parameters[name],
        ]);
        let b = schedule(depth, start, part, ctx, 0)->Ok_0;
        lemma_at_once(depth, plan, part, ctx, b);
        assert(b.plan.actors.last().actor->CombinedText_parts =~= seq![plan.actors.len() as u64]);
    }
}

proof fn lemma_split_nowhere(s: Seq<char>, c: char)
    requires
        !s.contains(c),
    ensures
        split_at_first(s, c) is None,
    decreases s.len(),
{
    if s.len() > 0 {
        let rest = s.skip(1);
        assert(!rest.contains(c)) by {
            if rest.contains(c) {
                let i = choose|i: int| 0 <= i < rest.len() && rest[i] == c;
                assert(s[i + 1] == c);
            }
        }
        assert(s.contains(s[0]));
        lemma_split_nowhere(rest, c);
    }
}

/// HOLD needs a piped value, which its state begins with. Its body is evaluated with the state as
/// parameter, without a piped value, one value at a time and on demand.
pub proof fn lemma_hold(
    depth: nat,
    plan: PlanView,
    span: Span,
    id: PersistenceId,
    state_param: Seq<char>,
    body: SpannedExpressionView,
    ctx: EvaluationContextView,
)
    requires
        plan.actors.len() < u64::MAX,
    ensures
        ({
            let e = SpannedExpressionView {
                span,
                persistence: Some(id),
                node: ExpressionView::Hold { state_param, body: Box::new(body) },
            };
            let c = ctx.actor_context;
            let n = plan.actors.len() as u64;
            let state = |initial: u64|
                ActorNodeView {
                    actor: ActorSpecView::HoldState { state_param, initial },
                    key: PersistenceKey::Fresh(plan.fresh),
                    span,
                    context: c,
                };
            let held = |initial: u64|
                PlanView {
                    actors: plan.actors.push(state(initial)),
                    fresh: plan.fresh.wrapping_add(1),
                    ..plan
                };
            let inside = EvaluationContextView {
                actor_context: ActorContextView {
                    piped: None,
                    parameters: c.parameters.insert(state_param, n),
                    sequential_processing: true,
                    backpressure_permit: Some(n),
                    hold_state_update_callback: Some(n),
                    use_lazy_actors: true,
                    is_snapshot_context: false,
                    ..c
                },
                ..ctx
            };
            let done = evaluated(depth, plan, e, ctx);
            match c.piped {
                None => done is Err,
                Some(initial) => match evaluated(depth, held(initial), body, inside) {
                    Err(message) => done == Err::<(PlanView, Option<u64>), Seq<char>>(message),
                    Ok(inner) => match inner.1 {
                        None => done == Ok::<(PlanView, Option<u64>), Seq<char>>((inner.0, None)),
                        Some(result) => {
                            &&& done is Ok
                            &&& done->Ok_0.0.actors == inner.0.actors.push(
                                ActorNodeView {
                                    actor: ActorSpecView::Hold { state: n, body: result, initial },
                                    key: PersistenceKey::Stored(id),
                                    span,
                                    context: c,
                                },
                            )
                            &&& done->Ok_0.1 == Some(inner.0.actors.len() as u64)
                        },
                    },
                },
            }
        }),
{
    let e = SpannedExpressionView {
        span,
        persistence: Some(id),
        node: ExpressionView::Hold { state_param, body: Box::new(body) },
    };
    lemma_evaluated_by_running(depth, plan, e, ctx);
    if ctx.actor_context.piped is Some {
        lemma_hold_scheduled(depth, plan, e, state_param, body, ctx);
        lemma_hold_processed(depth, plan, e, id, state_param, body, ctx);
        let m = hold_begun(plan, e, state_param, body, ctx);
        let item = m.queue.last();
        assert(m.queue =~= seq![item]);
        assert(m.queue.drop_last() =~= Seq::<WorkItemView>::empty());
        lemma_only_step(depth, plan, e, ctx, m, item);
    }
}

pub(crate) proof fn lemma_only_step(
    depth: nat,
    plan: PlanView,
    e: SpannedExpressionView,
    ctx: EvaluationContextView,
    m: MachineView,
    item: WorkItemView,
)
    requires
        schedule(depth, allocated(fresh_machine(plan), 1), e, ctx, 0) == Ok::<
            MachineView,
            Seq<char>,
        >(m),
        m.queue == seq![item],
        match process(depth, MachineView { queue: Seq::empty(), ..m }, item) {
            Ok(after) => after.queue.len() == 0,
            Err(_) => true,
        },
    ensures
        evaluated(depth, plan, e, ctx) == match process(
            depth,
            MachineView { queue: Seq::empty(), ..m },
            item,
        ) {
            Err(message) => Err(message),
            Ok(after) => Ok(
                (
                    after.plan,
                    if after.results.contains_key(0) {
                        Some(after.results[0])
                    } else {
                        None
                    },
                ),
            ),
        },
{
    lemma_evaluated_by_running(depth, plan, e, ctx);
    let rest = MachineView { queue: Seq::empty(), ..m };
    assert(m.queue.drop_last() =~= Seq::<WorkItemView>::empty());
    assert(m.queue.last() == item);
    assert(total_weight(Seq::<WorkItemView>::empty()) == 0);
    assert(total_weight(m.queue) >= 1);
    let done = process(depth, rest, item);
    if done is Ok {
        assert(total_weight(done->Ok_0.queue) == 0);
        assert(run_queue(depth, done->Ok_0) == done);
    }
    assert(run_queue(depth, m) == done);
}

/// The machine that HOLD begins with.
spec fn hold_begun(
    plan: PlanView,
    e: SpannedExpressionView,
    state_param: Seq<char>,
    body: SpannedExpressionView,
    ctx: EvaluationContextView,
) -> MachineView {
    let start = allocated(fresh_machine(plan), 1);
    let item = WorkItemView::BuildHold {
        initial_slot: 1,
        state_param,
        body,
        span: e.span,
        key: key_of(start, e.persistence),
        ctx,
        result_slot: 0,
    };
    stored(
        pushed(allocated(keyed(start, e.persistence), 1), item),
        1,
        ctx.actor_context.piped->0,
    )
}

proof fn lemma_hold_scheduled(
    depth: nat,
    plan: PlanView,
    e: SpannedExpressionView,
    state_param: Seq<char>,
    body: SpannedExpressionView,
    ctx: EvaluationContextView,
)
    requires
        e.node == (ExpressionView::Hold { state_param, body: Box::new(body) }),
        ctx.actor_context.piped is Some,
    ensures
        schedule(depth, allocated(fresh_machine(plan), 1), e, ctx, 0) == Ok::<
            MachineView,
            Seq<char>,
        >(hold_begun(plan, e, state_param, body, ctx)),
{
}

proof fn lemma_hold_processed(
    depth: nat,
    plan: PlanView,
    e: SpannedExpressionView,
    id: PersistenceId,
    state_param: Seq<char>,
    body: SpannedExpressionView,
    ctx: EvaluationContextView,
)
    requires
        e.node == (ExpressionView::Hold { state_param, body: Box::new(body) }),
        e.persistence == Some(id),
        ctx.actor_context.piped is Some,
        plan.actors.len() < u64::MAX,
    ensures
        ({
            let m = hold_begun(plan, e, state_param, body, ctx);
            let rest = MachineView { queue: m.queue.drop_last(), ..m };
            let c = ctx.actor_context;
            let n = plan.actors.len() as u64;
            let initial = c.piped->0;
            let held = PlanView {
                actors: plan.actors.push(
                    ActorNodeView {
                        actor: ActorSpecView::HoldState { state_param, initial },
                        key: PersistenceKey::Fresh(plan.fresh),
                        span: e.span,
                        context: c,
                    },
                ),
                fresh: plan.fresh.wrapping_add(1),
                ..plan
            };
            let inside = with_context(ctx, hold_body_context(c, state_param, n));
            let done = process(depth, rest, m.queue.last());
            match evaluated(depth, held, body, inside) {
                Err(message) => done == Err::<MachineView, Seq<char>>(message),
                Ok(inner) => {
                    &&& done is Ok
                    &&& done->Ok_0.queue.len() == 0
                    &&& match inner.1 {
                        None => done->Ok_0.plan == inner.0 && !done->Ok_0.results.contains_key(0),
                        Some(result) => {
                            &&& done->Ok_0.plan.actors == inner.0.actors.push(
                                ActorNodeView {
                                    actor: ActorSpecView::Hold { state: n, body: result, initial },
                                    key: PersistenceKey::Stored(id),
                                    span: e.span,
                                    context: c,
                                },
                            )
                            &&& done->Ok_0.results.contains_key(0)
                            &&& done->Ok_0.results[0] == inner.0.actors.len() as u64
                        },
                    }
                },
            }
        }),
{
    let m = hold_begun(plan, e, state_param, body, ctx);
    let item = m.queue.last();
    let rest = MachineView { queue: m.queue.drop_last(), ..m };
    let bound = weight(item);
    assert(rest.results.contains_key(1));
    assert(process(depth, rest, item) == process_hold(
        depth,
        bound,
        rest,
        ctx.actor_context.piped->0,
        state_param,
        body,
        PersistenceKey::Stored(id),
        e.span,
        ctx,
        0,
    ));
    let state = next_actor(rest);
    let held = add_actor(
        drawn(rest),
        ActorSpecView::HoldState { state_param, initial: ctx.actor_context.piped->0 },
        PersistenceKey::Fresh(rest.plan.fresh),
        e.span,
        ctx.actor_context,
    );
    let inside = with_context(ctx, hold_body_context(ctx.actor_context, state_param, state));
    lemma_part_evaluated(depth, bound, held, body, inside);
}

pub(crate) proof fn lemma_pipe_ready(
    depth: nat,
    plan: PlanView,
    e: SpannedExpressionView,
    from: SpannedExpressionView,
    to: SpannedExpressionView,
    literal: LiteralView,
    ctx: EvaluationContextView,
) -> (ready: MachineView)
    requires
        plan.actors.len() < u64::MAX,
        e.node == (ExpressionView::Pipe { from: Box::new(from), to: Box::new(to) }),
        from.node == ExpressionView::Literal(literal),
    ensures
        schedule(depth, allocated(fresh_machine(plan), 1), e, ctx, 0) == Ok::<
            MachineView,
            Seq<char>,
        >(ready),
        ready.queue == seq![piped_item(to, ctx)],
        after_literal(plan, ready, literal),
{
    let start = allocated(fresh_machine(plan), 1);
    let m = keyed(start, e.persistence);
    reveal_with_fuel(pipe_steps, 2);
    let steps = pipe_steps(e);
    assert(steps =~= seq![from, to]);
    assert(steps.skip(1) =~= seq![to]);
    let set_up = piped_machine(m, steps.skip(1), ctx, 0);
    assert(m.next_slot == 1);
    assert(slot_at(1, 0) == 1);
    assert(set_up.queue =~= seq![piped_item(to, ctx)]);
    let bound = expr_size(e);
    let jobs = seq![(steps[0], m.next_slot)];
    assert(schedule(depth, start, e, ctx, 0) == schedule_jobs(depth, bound, set_up, jobs, 1, ctx));
    lemma_one_job(depth, bound, set_up, jobs, ctx);
    lemma_literal_scheduled(depth, set_up, from, ctx, 1);
    let ready = schedule(depth, set_up, from, ctx, 1)->Ok_0;
    assert(ready.plan.actors.drop_last() =~= plan.actors);
    ready
}

pub(crate) proof fn lemma_one_job(
    depth: nat,
    bound: nat,
    m: MachineView,
    jobs: Seq<Job>,
    ctx: EvaluationContextView,
)
    requires
        jobs.len() == 1,
        expr_size(jobs[0].0) < bound,
    ensures
        schedule_jobs(depth, bound, m, jobs, 1, ctx) == schedule(
            depth,
            m,
            jobs[0].0,
            ctx,
            jobs[0].1,
        ),
{
    assert(schedule_jobs(depth, bound, m, jobs, 0, ctx) == Ok::<MachineView, Seq<char>>(m));
}

/// The step that takes what the first slot has.
pub open spec fn piped_item(to: SpannedExpressionView, ctx: EvaluationContextView) -> WorkItemView {
    WorkItemView::EvaluateWithPiped { expr: to, prev_slot: 1, ctx, result_slot: 0 }
}

/// Whether a machine that began with a plan has made the actor of a literal, in the first slot.
pub open spec fn after_literal(plan: PlanView, m: MachineView, literal: LiteralView) -> bool {
    &&& m.plan.actors.len() == plan.actors.len() + 1
    &&& m.plan.actors.drop_last() == plan.actors
    &&& m.plan.actors.last().actor == ActorSpecView::Literal(literal)
    &&& m.results == Map::<u32, u64>::empty().insert(1, plan.actors.len() as u64)
    &&& m.registry == Map::<Seq<char>, StaticFunctionDefinitionView>::empty()
    &&& m.loops.len() == 0
}

proof fn lemma_piped_reaction(
    depth: nat,
    m: MachineView,
    to: SpannedExpressionView,
    ctx: EvaluationContextView,
    piped: u64,
) -> (after: MachineView)
    requires
        m.queue.len() == 0,
        m.results.contains_key(1),
        m.results[1] == piped,
        m.plan.actors.len() < u64::MAX,
        to.node is Then || to.node is When || to.node is While || to.node is FieldAccess
            || to.node is Literal,
    ensures
        process(depth, m, piped_item(to, ctx)) == Ok::<MachineView, Seq<char>>(after),
        after.queue.len() == 0,
        after.results.contains_key(0),
        after.results[0] == m.plan.actors.len(),
        after.plan.actors.len() == m.plan.actors.len() + 1,
        after.plan.actors.drop_last() == m.plan.actors,
        reacts(after.plan.actors.last().actor, to.node, piped),
{
    let inner = with_context(
        ctx,
        ActorContextView { piped: Some(piped), ..ctx.actor_context },
    );
    let after = schedule(depth, m, to, inner, 0)->Ok_0;
    assert(after.plan.actors.drop_last() =~= m.plan.actors);
    after
}

/// Whether an actor does what an expression says, with what is piped into it.
pub open spec fn reacts(actor: ActorSpecView, node: ExpressionView, from: u64) -> bool {
    match node {
        ExpressionView::Then { body } => actor matches ActorSpecView::Then {
            piped,
            body: kept,
            ..
        } && piped == from && kept.node == body.node && kept.span == body.span,
        ExpressionView::When { arms } => actor matches ActorSpecView::When {
            piped,
            arms: kept,
            ..
        } && piped == from && kept == arms,
        ExpressionView::While { arms } => actor matches ActorSpecView::While {
            piped,
            arms: kept,
            ..
        } && piped == from && kept == arms,
        ExpressionView::FieldAccess { path } => actor == (ActorSpecView::FieldAccess {
            piped: from,
            path,
        }),
        ExpressionView::Literal(literal) => actor == ActorSpecView::Literal(literal),
        _ => false,
    }
}

/// A literal that is piped into THEN, WHEN, WHILE or a path of fields leads to the actor of that on
/// the actor of the literal. A literal after a pipe ignores what is piped into it.
pub proof fn lemma_piped_literal(
    depth: nat,
    plan: PlanView,
    e: SpannedExpressionView,
    from: SpannedExpressionView,
    to: SpannedExpressionView,
    literal: LiteralView,
    ctx: EvaluationContextView,
)
    requires
        plan.actors.len() + 1 < u64::MAX,
        e.node == (ExpressionView::Pipe { from: Box::new(from), to: Box::new(to) }),
        from.node == ExpressionView::Literal(literal),
        to.node is Then || to.node is When || to.node is While || to.node is FieldAccess
            || to.node is Literal,
    ensures
        ({
            let n = plan.actors.len();
            evaluated(depth, plan, e, ctx) matches Ok(done) && {
                &&& done.0.actors.len() == n + 2
                &&& done.0.actors[n as int].actor == ActorSpecView::Literal(literal)
                &&& done.1 == Some((n + 1) as u64)
                &&& reacts(done.0.actors[(n + 1) as int].actor, to.node, n as u64)
            }
        }),
{
    let ready = lemma_pipe_ready(depth, plan, e, from, to, literal, ctx);
    let rest = MachineView { queue: Seq::empty(), ..ready };
    let n = plan.actors.len() as u64;
    let after = lemma_piped_reaction(depth, rest, to, ctx, n);
    lemma_last_step(depth, plan, e, ctx, ready, piped_item(to, ctx), after);
    let before = after.plan.actors.drop_last();
    assert(before[n as int] == after.plan.actors[n as int]);
}

pub(crate) proof fn lemma_last_two_steps(
    depth: nat,
    plan: PlanView,
    e: SpannedExpressionView,
    ctx: EvaluationContextView,
    m: MachineView,
    first: WorkItemView,
    between: MachineView,
    second: WorkItemView,
    after: MachineView,
)
    requires
        schedule(depth, allocated(fresh_machine(plan), 1), e, ctx, 0) == Ok::<
            MachineView,
            Seq<char>,
        >(m),
        m.queue.len() > 0,
        m.queue.last() == first,
        process(depth, MachineView { queue: m.queue.drop_last(), ..m }, first) == Ok::<
            MachineView,
            Seq<char>,
        >(between),
        between.queue == seq![second],
        process(depth, MachineView { queue: Seq::empty(), ..between }, second) == Ok::<
            MachineView,
            Seq<char>,
        >(after),
        after.queue.len() == 0,
    ensures
        evaluated(depth, plan, e, ctx) == Ok::<(PlanView, Option<u64>), Seq<char>>(
            (
                after.plan,
                if after.results.contains_key(0) {
                    Some(after.results[0])
                } else {
                    None
                },
            ),
        ),
{
    lemma_evaluated_by_running(depth, plan, e, ctx);
    let rest = MachineView { queue: m.queue.drop_last(), ..m };
    lemma_process_weight(depth, rest, first);
    assert(rest.queue.push(first) =~= m.queue);
    lemma_weight_push(rest.queue, first);
    assert(total_weight(between.queue) < total_weight(m.queue));
    assert(between.queue.drop_last() =~= Seq::<WorkItemView>::empty());
    assert(between.queue.last() == second);
    assert(total_weight(after.queue) == 0);
    assert(total_weight(Seq::<WorkItemView>::empty()) == 0);
    assert(total_weight(between.queue) >= 1);
    assert(run_queue(depth, after) == Ok::<MachineView, Seq<char>>(after));
    assert(run_queue(depth, between) == Ok::<MachineView, Seq<char>>(after));
    assert(run_queue(depth, m) == Ok::<MachineView, Seq<char>>(after));
}

/// The step that makes a call.
pub open spec fn call_item(
    path: Seq<Seq<char>>,
    arg_slots: Seq<ArgumentSlotView>,
    passed_context: Option<u32>,
    use_piped: bool,
    span: Span,
    key: PersistenceKey,
    ctx: EvaluationContextView,
) -> WorkItemView {
    WorkItemView::CallFunction {
        path,
        arg_slots,
        passed_slot: None,
        passed_context,
        use_piped_for_builtin: use_piped,
        span,
        key,
        ctx,
        result_slot: 0,
    }
}

proof fn lemma_builtin_processed(
    depth: nat,
    m: MachineView,
    path: Seq<Seq<char>>,
    function: BuiltinFunction,
    arg_slots: Seq<ArgumentSlotView>,
    use_piped: bool,
    span: Span,
    key: PersistenceKey,
    ctx: EvaluationContextView,
) -> (after: MachineView)
    requires
        m.queue.len() == 0,
        m.loops.len() == 0,
        m.plan.actors.len() < u64::MAX,
        m.registry == Map::<Seq<char>, StaticFunctionDefinitionView>::empty(),
        ctx.function_registry_snapshot is None,
        builtin_of(path) == Some(function),
    ensures
        process(depth, m, call_item(path, arg_slots, None, use_piped, span, key, ctx)) == Ok::<
            MachineView,
            Seq<char>,
        >(after),
        after.queue.len() == 0,
        after.results.contains_key(0),
        after.results[0] == m.plan.actors.len(),
        after.plan.actors.len() == m.plan.actors.len() + 1,
        after.plan.actors.drop_last() == m.plan.actors,
        after.plan.actors.last().actor == (ActorSpecView::Builtin {
            function,
            arguments: (if use_piped && ctx.actor_context.piped is Some {
                seq![ctx.actor_context.piped->0]
            } else {
                Seq::empty()
            }) + found_arguments(m, arg_slots, arg_slots.len()).map_values(
                |a: (Seq<char>, u64)| a.1,
            ),
        }),
{
    let item = call_item(path, arg_slots, None, use_piped, span, key, ctx);
    let after = process(depth, m, item)->Ok_0;
    assert(m.loops =~= Seq::empty());
    assert(after.plan.actors.drop_last() =~= m.plan.actors);
    after
}

/// Whether a path names none of the functions on lists that take an expression.
pub open spec fn is_ordinary(path: Seq<Seq<char>>) -> bool {
    path.len() != 2 || path[0] != "List"@
}

/// A literal that is piped into a function of the platform becomes its only argument.
pub proof fn lemma_literal_piped_into_builtin(
    depth: nat,
    plan: PlanView,
    e: SpannedExpressionView,
    from: SpannedExpressionView,
    to: SpannedExpressionView,
    literal: LiteralView,
    path: Seq<Seq<char>>,
    function: BuiltinFunction,
    ctx: EvaluationContextView,
)
    requires
        plan.actors.len() + 1 < u64::MAX,
        e.node == (ExpressionView::Pipe { from: Box::new(from), to: Box::new(to) }),
        from.node == ExpressionView::Literal(literal),
        to.node == (ExpressionView::FunctionCall { path, arguments: Seq::empty() }),
        builtin_of(path) == Some(function),
        is_ordinary(path),
        ctx.function_registry_snapshot is None,
    ensures
        ({
            let n = plan.actors.len();
            evaluated(depth, plan, e, ctx) matches Ok(done) && {
                &&& done.0.actors.len() == n + 2
                &&& done.0.actors[n as int].actor == ActorSpecView::Literal(literal)
                &&& done.1 == Some((n + 1) as u64)
                &&& done.0.actors[(n + 1) as int].actor == (ActorSpecView::Builtin {
                    function,
                    arguments: seq![n as u64],
                })
            }
        }),
{
    let ready = lemma_pipe_ready(depth, plan, e, from, to, literal, ctx);
    let rest = MachineView { queue: Seq::empty(), ..ready };
    assert(ready.queue.drop_last() =~= Seq::<WorkItemView>::empty());
    let n = plan.actors.len() as u64;
    let inner = with_context(ctx, ActorContextView { piped: Some(n), ..ctx.actor_context });
    let key = key_of(rest, to.persistence);
    let between = lemma_piped_call(depth, rest, to, path, ctx, n);
    let second = call_item(path, Seq::empty(), None, true, to.span, key, inner);
    let alone = MachineView { queue: Seq::empty(), ..between };
    let after = lemma_builtin_processed(
        depth,
        alone,
        path,
        function,
        Seq::empty(),
        true,
        to.span,
        key,
        inner,
    );
    assert(found_arguments(alone, Seq::empty(), 0).map_values(|a: (Seq<char>, u64)| a.1)
        =~= Seq::<u64>::empty());
    assert(seq![n] + Seq::<u64>::empty() =~= seq![n]);
    lemma_last_two_steps(
        depth,
        plan,
        e,
        ctx,
        ready,
        piped_item(to, ctx),
        between,
        second,
        after,
    );
    let before = after.plan.actors.drop_last();
    assert(before[n as int] == after.plan.actors[n as int]);
}

proof fn lemma_piped_call(
    depth: nat,
    m: MachineView,
    to: SpannedExpressionView,
    path: Seq<Seq<char>>,
    ctx: EvaluationContextView,
    piped: u64,
) -> (between: MachineView)
    requires
        m.queue.len() == 0,
        m.results.contains_key(1),
        m.results[1] == piped,
        to.node == (ExpressionView::FunctionCall { path, arguments: Seq::empty() }),
        is_ordinary(path),
    ensures
        process(depth, m, piped_item(to, ctx)) == Ok::<MachineView, Seq<char>>(between),
        ({
            let inner = with_context(
                ctx,
                ActorContextView { piped: Some(piped), ..ctx.actor_context },
            );
            let key = key_of(m, to.persistence);
            &&& between.queue == seq![
                call_item(path, Seq::empty(), None, true, to.span, key, inner),
            ]
            &&& MachineView { queue: m.queue, ..between } == keyed(m, to.persistence)
        }),
{
    let inner = with_context(ctx, ActorContextView { piped: Some(piped), ..ctx.actor_context });
    let key = key_of(m, to.persistence);
    let none = Seq::<SpannedArgumentView>::empty();
    let known = keyed(m, to.persistence);
    let bound = expr_size(to);
    let called = pushed(
        known,
        call_item(path, Seq::empty(), None, true, to.span, key, inner),
    );
    assert(argue(known, none, 0, inner, to.span, false) is Ok);
    assert(schedule_jobs(depth, bound, called, Seq::empty(), 0, inner) == Ok::<
        MachineView,
        Seq<char>,
    >(called));
    assert(schedule_call(
        depth,
        bound,
        known,
        path,
        none,
        to.span,
        key,
        inner,
        0,
        false,
    ) == Ok::<MachineView, Seq<char>>(called));
    assert(called.queue =~= seq![call_item(path, Seq::empty(), None, true, to.span, key, inner)]);
    called
}

/// The named slot of a single argument.
pub open spec fn single_slot(name: Seq<char>) -> Seq<ArgumentSlotView> {
    seq![ArgumentSlotView { name, slot: 1 }]
}

pub(crate) proof fn lemma_call_ready(
    depth: nat,
    plan: PlanView,
    e: SpannedExpressionView,
    path: Seq<Seq<char>>,
    arg: SpannedArgumentView,
    a: SpannedExpressionView,
    literal: LiteralView,
    ctx: EvaluationContextView,
) -> (ready: MachineView)
    requires
        plan.actors.len() < u64::MAX,
        e.node == (ExpressionView::FunctionCall { path, arguments: seq![arg] }),
        is_ordinary(path),
        arg.value == Some(a),
        !arg.is_referenced,
        a.node == ExpressionView::Literal(literal),
    ensures
        schedule(depth, allocated(fresh_machine(plan), 1), e, ctx, 0) == Ok::<
            MachineView,
            Seq<char>,
        >(ready),
        after_literal(plan, ready, literal),
        e.persistence is Some && a.persistence is Some ==> ready.plan == (PlanView {
            actors: plan.actors.push(
                ActorNodeView {
                    actor: ActorSpecView::Literal(literal),
                    key: PersistenceKey::Stored(a.persistence->0),
                    span: a.span,
                    context: ctx.actor_context,
                },
            ),
            ..plan
        }),
        ({
            let key = key_of(allocated(fresh_machine(plan), 1), e.persistence);
            ready.queue == seq![
                if arg.name == "PASS"@ {
                    call_item(path, Seq::empty(), Some(1), false, e.span, key, ctx)
                } else {
                    call_item(path, single_slot(arg.name), None, false, e.span, key, ctx)
                },
            ]
        }),
{
    let start = allocated(fresh_machine(plan), 1);
    let m = keyed(start, e.persistence);
    let key = key_of(start, e.persistence);
    let arguments = seq![arg];
    let bound = expr_size(e);
    let item = if arg.name == "PASS"@ {
        call_item(path, Seq::empty(), Some(1), false, e.span, key, ctx)
    } else {
        call_item(path, single_slot(arg.name), None, false, e.span, key, ctx)
    };
    assert(m.next_slot == 1);
    assert(schedule(depth, start, e, ctx, 0) == schedule_call(
        depth,
        bound,
        m,
        path,
        arguments,
        e.span,
        key,
        ctx,
        0,
        true,
    ));
    lemma_argument_set_up(m, arg, a, e.span, ctx);
    let set_up = argue(m, arguments, 1, ctx, e.span, true)->Ok_0;
    let inner = with_locals(ctx, set_up.locals);
    let called = pushed(set_up.m, item);
    let jobs = seq![(a, 1u32)];
    reveal_with_fuel(wraps, 2);
    assert(wraps(jobs, 1, inner) =~= Seq::<WorkItemView>::empty());
    assert(called.queue + wraps(jobs, 1, inner) =~= called.queue);
    lemma_argument_size(arguments, 1, 0);
    assert(schedule_call(depth, bound, m, path, arguments, e.span, key, ctx, 0, true)
        == schedule_jobs(depth, bound, called, jobs, 1, inner));
    lemma_one_job(depth, bound, called, jobs, inner);
    lemma_literal_scheduled(depth, called, a, inner, 1);
    let ready = schedule(depth, called, a, inner, 1)->Ok_0;
    assert(ready.queue =~= seq![item]);
    assert(ready.plan.actors.drop_last() =~= plan.actors);
    ready
}

proof fn lemma_argument_set_up(
    m: MachineView,
    arg: SpannedArgumentView,
    a: SpannedExpressionView,
    span: Span,
    ctx: EvaluationContextView,
)
    requires
        m.next_slot == 1,
        arg.value == Some(a),
        !arg.is_referenced,
    ensures
        argue(m, seq![arg], 1, ctx, span, true) == Ok::<Arguments, Seq<char>>(
            (Arguments {
                m: allocated(m, 1),
                slots: if arg.name == "PASS"@ {
                    Seq::empty()
                } else {
                    single_slot(arg.name)
                },
                jobs: seq![(a, 1u32)],
                passed_slot: None,
                passed_context: if arg.name == "PASS"@ {
                    Some(1)
                } else {
                    None
                },
                connections: Seq::empty(),
                locals: ctx.actor_context.object_locals,
            }),
        ),
{
    reveal_with_fuel(argue, 2);
    let none = Seq::<ArgumentSlotView>::empty();
    assert(none.push(ArgumentSlotView { name: arg.name, slot: 1 }) =~= single_slot(arg.name));
    assert(Seq::<Job>::empty().push((a, 1u32)) =~= seq![(a, 1u32)]);
}

/// A function of the platform that is called with a literal takes its actor as only argument, even
/// where a value is piped in.
pub proof fn lemma_builtin_called_with_literal(
    depth: nat,
    plan: PlanView,
    e: SpannedExpressionView,
    path: Seq<Seq<char>>,
    function: BuiltinFunction,
    arg: SpannedArgumentView,
    a: SpannedExpressionView,
    literal: LiteralView,
    ctx: EvaluationContextView,
)
    requires
        plan.actors.len() + 1 < u64::MAX,
        e.node == (ExpressionView::FunctionCall { path, arguments: seq![arg] }),
        is_ordinary(path),
        builtin_of(path) == Some(function),
        ctx.function_registry_snapshot is None,
        arg.value == Some(a),
        arg.name != "PASS"@,
        !arg.is_referenced,
        a.node == ExpressionView::Literal(literal),
    ensures
        ({
            let n = plan.actors.len();
            evaluated(depth, plan, e, ctx) matches Ok(done) && {
                &&& done.0.actors.len() == n + 2
                &&& done.0.actors[n as int].actor == ActorSpecView::Literal(literal)
                &&& done.1 == Some((n + 1) as u64)
                &&& done.0.actors[(n + 1) as int].actor == (ActorSpecView::Builtin {
                    function,
                    arguments: seq![n as u64],
                })
            }
        }),
{
    let ready = lemma_call_ready(depth, plan, e, path, arg, a, literal, ctx);
    let rest = MachineView { queue: Seq::empty(), ..ready };
    let n = plan.actors.len() as u64;
    let key = key_of(allocated(fresh_machine(plan), 1), e.persistence);
    let slots = single_slot(arg.name);
    let item = call_item(path, slots, None, false, e.span, key, ctx);
    let after = lemma_builtin_processed(
        depth,
        rest,
        path,
        function,
        slots,
        false,
        e.span,
        key,
        ctx,
    );
    lemma_single_argument(rest, arg.name, n);
    assert(seq![(arg.name, n)].map_values(|a: (Seq<char>, u64)| a.1) =~= seq![n]);
    assert(Seq::<u64>::empty() + seq![n] =~= seq![n]);
    lemma_last_step(depth, plan, e, ctx, ready, item, after);
    let before = after.plan.actors.drop_last();
    assert(before[n as int] == after.plan.actors[n as int]);
}

pub(crate) proof fn lemma_single_argument(m: MachineView, name: Seq<char>, actor: u64)
    requires
        m.results.contains_key(1),
        m.results[1] == actor,
    ensures
        found_arguments(m, single_slot(name), 1) == seq![(name, actor)],
{
    reveal_with_fuel(found_arguments, 2);
    assert(found_arguments(m, single_slot(name), 1) =~= seq![(name, actor)]);
}

/// What the call of a function of the program leads to, from what its body leads to.
pub open spec fn called(
    done: Result<(PlanView, Option<u64>), Seq<char>>,
    inner: Result<(PlanView, Option<u64>), Seq<char>>,
    parameters: Map<Seq<char>, u64>,
) -> bool {
    match inner {
        Err(message) => done == Err::<(PlanView, Option<u64>), Seq<char>>(message),
        Ok(inner) => match inner.1 {
            None => done == Ok::<(PlanView, Option<u64>), Seq<char>>((inner.0, None)),
            Some(result) => {
                &&& done is Ok
                &&& done->Ok_0.0.actors.len() == inner.0.actors.len() + 1
                &&& done->Ok_0.0.actors.drop_last() == inner.0.actors
                &&& done->Ok_0.0.actors.last().actor == (ActorSpecView::UserCall {
                    result,
                    parameters,
                })
                &&& done->Ok_0.1 == Some(inner.0.actors.len() as u64)
            },
        },
    }
}

/// A function of the program that is called with a literal evaluates its body on top of the actor
/// of the literal, with this actor as the parameter of the name of the argument.
pub proof fn lemma_function_called_with_literal(
    depth: nat,
    plan: PlanView,
    e: SpannedExpressionView,
    path: Seq<Seq<char>>,
    definition: StaticFunctionDefinitionView,
    arg: SpannedArgumentView,
    a: SpannedExpressionView,
    literal: LiteralView,
    id: PersistenceId,
    ctx: EvaluationContextView,
)
    requires
        depth > 0,
        plan.actors.len() + 1 < u64::MAX,
        e.node == (ExpressionView::FunctionCall { path, arguments: seq![arg] }),
        e.persistence == Some(id),
        is_ordinary(path),
        ctx.function_registry_snapshot matches Some(known) && known.functions.contains_key(
            joined(path, "/"@),
        ) && known.functions[joined(path, "/"@)] == definition,
        definition.parameters == seq![arg.name],
        arg.value == Some(a),
        arg.name != "PASS"@,
        !arg.is_referenced,
        a.persistence is Some,
        a.node == ExpressionView::Literal(literal),
    ensures
        ({
            let n = plan.actors.len() as u64;
            let c = ctx.actor_context;
            let parameters = c.parameters.insert(arg.name, n);
            let inside = EvaluationContextView {
                actor_context: ActorContextView {
                    parameters,
                    hold_state_update_callback: None,
                    is_snapshot_context: false,
                    object_locals: Map::empty(),
                    scope: child_scope(
                        c.scope,
                        ScopeSegmentView::Call { key: PersistenceKey::Stored(id) },
                    ),
                    ..c
                },
                ..ctx
            };
            let node = ActorNodeView {
                actor: ActorSpecView::Literal(literal),
                key: PersistenceKey::Stored(a.persistence->0),
                span: a.span,
                context: c,
            };
            let before = PlanView { actors: plan.actors.push(node), ..plan };
            called(
                evaluated(depth, plan, e, ctx),
                evaluated((depth - 1) as nat, before, definition.body, inside),
                parameters,
            )
        }),
{
    let n = plan.actors.len() as u64;
    let c = ctx.actor_context;
    let parameters = c.parameters.insert(arg.name, n);
    let ready = lemma_call_ready(depth, plan, e, path, arg, a, literal, ctx);
    let rest = MachineView { queue: Seq::empty(), ..ready };
    let key = PersistenceKey::Stored(id);
    let item = call_item(path, single_slot(arg.name), None, false, e.span, key, ctx);
    let node = ActorNodeView {
        actor: ActorSpecView::Literal(literal),
        key: PersistenceKey::Stored(a.persistence->0),
        span: a.span,
        context: c,
    };
    let before = PlanView { actors: plan.actors.push(node), ..plan };
    assert(rest.plan == before);
    lemma_function_processed(depth, rest, path, definition, arg.name, n, e.span, key, ctx);
    lemma_only_step(depth, plan, e, ctx, ready, item);
}

proof fn lemma_function_processed(
    depth: nat,
    m: MachineView,
    path: Seq<Seq<char>>,
    definition: StaticFunctionDefinitionView,
    name: Seq<char>,
    actor: u64,
    span: Span,
    key: PersistenceKey,
    ctx: EvaluationContextView,
)
    requires
        depth > 0,
        m.queue.len() == 0,
        m.loops.len() == 0,
        m.results == Map::<u32, u64>::empty().insert(1, actor),
        ctx.function_registry_snapshot matches Some(known) && known.functions.contains_key(
            joined(path, "/"@),
        ) && known.functions[joined(path, "/"@)] == definition,
        definition.parameters == seq![name],
    ensures
        ({
            let parameters = ctx.actor_context.parameters.insert(name, actor);
            let inside = with_context(
                ctx,
                call_body_context(
                    ctx.actor_context,
                    ctx.actor_context.piped,
                    parameters,
                    ScopeSegmentView::Call { key },
                ),
            );
            let done = process(
                depth,
                m,
                call_item(path, single_slot(name), None, false, span, key, ctx),
            );
            match evaluated((depth - 1) as nat, m.plan, definition.body, inside) {
                Err(message) => done == Err::<MachineView, Seq<char>>(message),
                Ok(inner) => {
                    &&& done is Ok
                    &&& done->Ok_0.queue.len() == 0
                    &&& match inner.1 {
                        None => done->Ok_0.plan == inner.0 && !done->Ok_0.results.contains_key(0),
                        Some(result) => {
                            let actors = done->Ok_0.plan.actors;
                            &&& actors.len() == inner.0.actors.len() + 1
                            &&& actors.drop_last() == inner.0.actors
                            &&& actors.last().actor == (ActorSpecView::UserCall {
                                result,
                                parameters,
                            })
                            &&& done->Ok_0.results.contains_key(0)
                            &&& done->Ok_0.results[0] == inner.0.actors.len() as u64
                        },
                    }
                },
            }
        }),
{
    let item = call_item(path, single_slot(name), None, false, span, key, ctx);
    let context = ctx.actor_context;
    let parameters = context.parameters.insert(name, actor);
    let arguments = seq![(name, actor)];
    lemma_single_argument(m, name, actor);
    reveal_with_fuel(with_arguments, 2);
    reveal_with_fuel(unbound_parameter, 2);
    assert(with_arguments(context.parameters, arguments, 1) == parameters);
    assert(seq![name].skip(1) =~= Seq::<Seq<char>>::empty());
    assert(unbound_parameter(definition.parameters, parameters) is None);
    assert(parameters.contains_key(name));
    assert(parameters != Map::<Seq<char>, u64>::empty());
    let calling = user_call(
        depth,
        m,
        joined(path, "/"@),
        path,
        arguments,
        definition,
        key,
        span,
        ctx,
    );
    assert(call(depth, m, path, arguments, key, span, ctx, false) == calling);
    assert(m.loops =~= Seq::empty());
    let inside = with_context(
        ctx,
        call_body_context(context, context.piped, parameters, ScopeSegmentView::Call { key }),
    );
    match evaluated((depth - 1) as nat, m.plan, definition.body, inside) {
        Ok(inner) => {
            if inner.1 is Some {
                let actors = process(depth, m, item)->Ok_0.plan.actors;
                assert(actors.drop_last() =~= inner.0.actors);
            }
        },
        Err(_) => {},
    }
}

} // verus!
