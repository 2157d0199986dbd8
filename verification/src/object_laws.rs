//! What objects and blocks lead to.
use crate::compound_laws::{
    lemma_last_step, lemma_literal_jobs, lemma_literal_scheduled, literals_made,
};
use crate::contexts::with_context;
use crate::evaluation::{
    Built, Job, build, declare, evaluated, expr_size, process, schedule, schedule_block,
    schedule_jobs, schedule_object, value_jobs, variables_size, with_locals,
};
use crate::evaluation_laws::lemma_variable_size;
use crate::evaluation_state::{
    MachineView, allocated, emit, fresh_machine, key_of, keyed, pushed, slot_at,
};
use crate::expression_view::{
    ExpressionView, LiteralView, SpannedExpressionView, SpannedVariableView,
};
use crate::pipe_laws::{lemma_last_two_steps, lemma_one_job};
use crate::plan::PersistenceKey;
use crate::plan_view::{
    ActorContextView, ActorSpecView, EvaluationContextView, ObjectVariableDataView, PlanView,
    RegistrationView, WorkItemView,
};
use crate::static_expression::Span;
use crate::text::nat_text;
use vstd::prelude::*;

verus! {

/// Whether variables have the values of these literals, and nothing refers to them.
pub open spec fn plain_variables(
    variables: Seq<SpannedVariableView>,
    literals: Seq<LiteralView>,
) -> bool {
    &&& variables.len() == literals.len()
    &&& forall|i: int|
        0 <= i < variables.len() ==> (#[trigger] variables[i]).node.value.node
            == ExpressionView::Literal(literals[i]) && !variables[i].node.is_referenced
}

/// What is known of such variables once they are set up.
spec fn plain_data(
    variables: Seq<SpannedVariableView>,
    data: Seq<ObjectVariableDataView>,
    n: nat,
    base: int,
) -> bool {
    &&& data.len() == n
    &&& forall|i: int|
        0 <= i < n ==> {
            &&& (#[trigger] data[i]).name == variables[i].node.name
            &&& data[i].value_slot == base + i
            &&& !data[i].is_link
            &&& !data[i].is_referenced
            &&& data[i].span == variables[i].span
            &&& data[i].forwarding_actor is None
            &&& variables[i].persistence is Some ==> data[i].key == PersistenceKey::Stored(
                variables[i].persistence->0,
            )
        }
}

proof fn lemma_plain_declared(
    m: MachineView,
    variables: Seq<SpannedVariableView>,
    literals: Seq<LiteralView>,
    n: nat,
    ctx: EvaluationContextView,
)
    requires
        n <= variables.len(),
        plain_variables(variables, literals),
        m.next_slot + variables.len() <= u32::MAX,
    ensures
        ({
            let d = declare(m, variables, n, ctx);
            &&& d.m.next_slot == m.next_slot + n
            &&& d.m.queue == m.queue
            &&& d.m.results == m.results
            &&& d.m.plan.actors == m.plan.actors
            &&& d.locals == ctx.actor_context.object_locals
            &&& plain_data(variables, d.data, n, m.next_slot as int)
        }),
    decreases n,
{
    if n > 0 {
        lemma_plain_declared(m, variables, literals, (n - 1) as nat, ctx);
        let before = declare(m, variables, (n - 1) as nat, ctx);
        let d = declare(m, variables, n, ctx);
        let var = variables[n - 1];
        assert(var.node.value.node == ExpressionView::Literal(literals[n - 1]));
        let next = before.m.next_slot as int;
        assert((next + 1) % 0x1_0000_0000 == next + 1) by (nonlinear_arith)
            requires
                0 <= next + 1 < 0x1_0000_0000,
        ;
        assert forall|i: int| 0 <= i < n implies {
            &&& (#[trigger] d.data[i]).name == variables[i].node.name
            &&& d.data[i].value_slot == m.next_slot + i
            &&& !d.data[i].is_link
            &&& !d.data[i].is_referenced
            &&& d.data[i].span == variables[i].span
            &&& d.data[i].forwarding_actor is None
            &&& variables[i].persistence is Some ==> d.data[i].key == PersistenceKey::Stored(
                variables[i].persistence->0,
            )
        } by {
            if i < n - 1 {
                assert(d.data[i] == before.data[i]);
            }
        }
    }
}

proof fn lemma_plain_jobs(
    variables: Seq<SpannedVariableView>,
    data: Seq<ObjectVariableDataView>,
    n: nat,
    base: int,
)
    requires
        n <= variables.len(),
        plain_data(variables, data, variables.len(), base),
    ensures
        ({
            let all = Seq::new(n, |i: int| (variables[i].node.value, data[i].value_slot));
            &&& value_jobs(variables, data, n, Some(false)) == all
            &&& value_jobs(variables, data, n, None) == all
            &&& value_jobs(variables, data, n, Some(true)) == Seq::<Job>::empty()
        }),
    decreases n,
{
    let all = Seq::new(n, |i: int| (variables[i].node.value, data[i].value_slot));
    if n > 0 {
        lemma_plain_jobs(variables, data, (n - 1) as nat, base);
        assert(!data[n - 1].is_link);
    }
    assert(value_jobs(variables, data, n, Some(false)) =~= all);
    assert(value_jobs(variables, data, n, None) =~= all);
}

/// Whether variables were built of what is known of them, on actors from `first` on and from
/// values from `source` on.
spec fn plain_built(
    m: MachineView,
    b: Built,
    data: Seq<ObjectVariableDataView>,
    n: nat,
    source: int,
) -> bool {
    let first = m.plan.actors.len();
    &&& b.m.queue == m.queue
    &&& b.m.results == m.results
    &&& b.m.plan.actors.len() == first + n
    &&& b.variables.len() == n
    &&& forall|i: int| 0 <= i < first ==> #[trigger] b.m.plan.actors[i] == m.plan.actors[i]
    &&& forall|i: int|
        0 <= i < n ==> #[trigger] b.m.plan.actors[first + i].actor == (ActorSpecView::Persisted {
            source: (source + i) as u64,
        })
    &&& forall|i: int|
        0 <= i < n ==> {
            &&& (#[trigger] b.variables[i]).name == data[i].name
            &&& b.variables[i].span == data[i].span
            &&& b.variables[i].key == data[i].key
            &&& b.variables[i].value == first + i
            &&& !b.variables[i].is_link
            &&& b.variables[i].source is None
        }
}

proof fn lemma_plain_built(
    m: MachineView,
    variables: Seq<SpannedVariableView>,
    data: Seq<ObjectVariableDataView>,
    n: nat,
    base: int,
    source: int,
    ctx: EvaluationContextView,
)
    requires
        n <= data.len(),
        plain_data(variables, data, data.len(), base),
        m.plan.actors.len() + data.len() <= u64::MAX,
        forall|i: int|
            0 <= i < data.len() ==> m.results.contains_key((#[trigger] data[i]).value_slot)
                && m.results[data[i].value_slot] == source + i,
    ensures
        plain_built(m, build(m, data, n, ctx), data, n, source),
    decreases n,
{
    if n > 0 {
        let k = (n - 1) as nat;
        lemma_plain_built(m, variables, data, k, base, source, ctx);
        let before = build(m, data, k, ctx);
        let b = build(m, data, n, ctx);
        let first = m.plan.actors.len();
        let d = data[k as int];
        assert(m.results.contains_key(d.value_slot));
        assert(!d.is_link);
        assert(b.m.plan.actors.drop_last() =~= before.m.plan.actors);
        assert forall|i: int| 0 <= i < first implies #[trigger] b.m.plan.actors[i]
            == m.plan.actors[i] by {
            assert(b.m.plan.actors[i] == before.m.plan.actors[i]);
        }
        assert forall|i: int| 0 <= i < n implies #[trigger] b.m.plan.actors[first + i].actor == (
        ActorSpecView::Persisted { source: (source + i) as u64 }) by {
            if i < k {
                assert(b.m.plan.actors[first + i] == before.m.plan.actors[first + i]);
            }
        }
        assert forall|i: int| 0 <= i < n implies {
            &&& (#[trigger] b.variables[i]).name == data[i].name
            &&& b.variables[i].span == data[i].span
            &&& b.variables[i].key == data[i].key
            &&& b.variables[i].value == first + i
            &&& !b.variables[i].is_link
            &&& b.variables[i].source is None
        } by {
            if i < k {
                assert(b.variables[i] == before.variables[i]);
            }
        }
    }
}

/// The step that builds an object.
spec fn object_item(
    tag: Option<Seq<char>>,
    data: Seq<ObjectVariableDataView>,
    span: Span,
    key: PersistenceKey,
    ctx: EvaluationContextView,
) -> WorkItemView {
    match tag {
        None => WorkItemView::BuildObject { variable_data: data, span, key, ctx, result_slot: 0 },
        Some(tag) => WorkItemView::BuildTaggedObject {
            tag,
            variable_data: data,
            span,
            key,
            ctx,
            result_slot: 0,
        },
    }
}

/// Whether an expression is an object of these variables, with a tag or without one.
pub open spec fn is_object(
    e: SpannedExpressionView,
    tag: Option<Seq<char>>,
    variables: Seq<SpannedVariableView>,
) -> bool {
    match tag {
        None => e.node == (ExpressionView::Object { variables }),
        Some(tag) => e.node == (ExpressionView::TaggedObject { tag, variables }),
    }
}

/// Whether a machine that began with a plan has made the actors of literals, in the slots that the
/// variables are to be found in.
spec fn values_made(
    m: MachineView,
    ready: MachineView,
    data: Seq<ObjectVariableDataView>,
    literals: Seq<LiteralView>,
) -> bool {
    let n = m.plan.actors.len();
    &&& ready.plan.actors.len() == n + literals.len()
    &&& ready.queue == m.queue
    &&& forall|i: int|
        0 <= i < literals.len() ==> #[trigger] ready.plan.actors[n + i].actor
            == ActorSpecView::Literal(literals[i])
    &&& forall|i: int| 0 <= i < n ==> #[trigger] ready.plan.actors[i] == m.plan.actors[i]
    &&& forall|i: int|
        0 <= i < data.len() ==> ready.results.contains_key((#[trigger] data[i]).value_slot)
            && ready.results[data[i].value_slot] == n + i
    &&& forall|s: u32|
        (forall|i: int| 0 <= i < data.len() ==> (#[trigger] data[i]).value_slot != s) ==> (
        #[trigger] ready.results.contains_key(s) <==> m.results.contains_key(s))
            && ready.results[s] == m.results[s]
}

proof fn lemma_values_made(
    depth: nat,
    bound: nat,
    m: MachineView,
    variables: Seq<SpannedVariableView>,
    data: Seq<ObjectVariableDataView>,
    literals: Seq<LiteralView>,
    base: int,
    ctx: EvaluationContextView,
)
    requires
        plain_variables(variables, literals),
        plain_data(variables, data, variables.len(), base),
        m.plan.actors.len() + literals.len() <= u64::MAX,
        variables_size(variables, variables.len()) < bound,
    ensures
        ({
            let jobs = Seq::new(
                variables.len(),
                |i: int| (variables[i].node.value, data[i].value_slot),
            );
            let done = schedule_jobs(depth, bound, m, jobs, jobs.len(), ctx);
            done is Ok && values_made(m, done->Ok_0, data, literals)
        }),
{
    let k = variables.len();
    let jobs = Seq::new(k, |i: int| (variables[i].node.value, data[i].value_slot));
    let slots = Seq::new(k, |i: int| data[i].value_slot);
    assert forall|i: int, j: int| 0 <= i < j < slots.len() implies slots[i] != slots[j] by {
        assert(data[i].value_slot == base + i && data[j].value_slot == base + j);
    }
    assert forall|i: int| 0 <= i < jobs.len() implies (#[trigger] jobs[i]).0.node
        == ExpressionView::Literal(literals[i]) && jobs[i].1 == slots[i] && expr_size(jobs[i].0)
        < bound by {
        lemma_variable_size(variables, k, i);
        assert(variables[i].node.value.node == ExpressionView::Literal(literals[i]));
    }
    lemma_literal_jobs(depth, bound, m, jobs, literals, slots, k, ctx);
    let ready = schedule_jobs(depth, bound, m, jobs, k, ctx)->Ok_0;
    assert forall|i: int| 0 <= i < data.len() implies ready.results.contains_key(
        (#[trigger] data[i]).value_slot,
    ) && ready.results[data[i].value_slot] == m.plan.actors.len() + i by {
        assert(ready.results.contains_key(slots[i]));
    }
    assert forall|s: u32|
        (forall|i: int| 0 <= i < data.len() ==> (#[trigger] data[i]).value_slot != s) implies (
    #[trigger] ready.results.contains_key(s) <==> m.results.contains_key(s)) && ready.results[s]
        == m.results[s] by {
        assert forall|i: int| 0 <= i < k implies #[trigger] slots[i] != s by {
            assert(data[i].value_slot != s);
        }
    }
}

/// An object of literals leads to an actor with the variables of these names, in their order and
/// without leaving any out, each of which keeps the value of its literal. A tagged one has its tag.
pub proof fn lemma_object_of_literals(
    depth: nat,
    plan: PlanView,
    e: SpannedExpressionView,
    tag: Option<Seq<char>>,
    variables: Seq<SpannedVariableView>,
    literals: Seq<LiteralView>,
    ctx: EvaluationContextView,
)
    requires
        is_object(e, tag, variables),
        plain_variables(variables, literals),
        plan.actors.len() + 2 * variables.len() < u64::MAX,
        variables.len() < u32::MAX,
    ensures
        ({
            let n = plan.actors.len();
            let k = variables.len();
            evaluated(depth, plan, e, ctx) matches Ok(done) && {
                let last = done.0.actors[(n + 2 * k) as int].actor;
                let made = match tag {
                    None => last->Object_variables,
                    Some(_) => last->TaggedObject_variables,
                };
                &&& done.0.actors.len() == n + 2 * k + 1
                &&& done.1 == Some((n + 2 * k) as u64)
                &&& forall|i: int|
                    0 <= i < k ==> #[trigger] done.0.actors[n + i].actor == ActorSpecView::Literal(
                        literals[i],
                    )
                &&& forall|i: int|
                    0 <= i < k ==> #[trigger] done.0.actors[n + k + i].actor == (
                    ActorSpecView::Persisted { source: (n + i) as u64 })
                &&& last == match tag {
                    None => ActorSpecView::Object { variables: made },
                    Some(tag) => ActorSpecView::TaggedObject { tag, variables: made },
                }
                &&& made.len() == k
                &&& forall|i: int|
                    0 <= i < k ==> {
                        &&& (#[trigger] made[i]).name == variables[i].node.name
                        &&& made[i].value == n + k + i
                        &&& made[i].span == variables[i].span
                        &&& !made[i].is_link
                        &&& made[i].source is None
                    }
            }
        }),
{
    let start = allocated(fresh_machine(plan), 1);
    let m = keyed(start, e.persistence);
    let key = key_of(start, e.persistence);
    let k = variables.len();
    let d = declare(m, variables, k, ctx);
    lemma_plain_declared(m, variables, literals, k, ctx);
    let inner = with_locals(ctx, d.locals);
    let item = object_item(tag, d.data, e.span, key, inner);
    let begun = pushed(d.m, item);
    let ready = lemma_object_ready(depth, plan, e, tag, variables, literals, ctx);
    assert(begun.queue =~= seq![item]);
    let rest = MachineView { queue: Seq::empty(), ..ready };
    let n = plan.actors.len();
    lemma_plain_built(rest, variables, d.data, k, 1, n as int, inner);
    let b = build(rest, d.data, k, inner);
    let actor = match tag {
        None => ActorSpecView::Object { variables: b.variables },
        Some(tag) => ActorSpecView::TaggedObject { tag, variables: b.variables },
    };
    let after = emit(b.m, 0, actor, key, e.span, inner.actor_context);
    assert(process(depth, rest, item) == Ok::<MachineView, Seq<char>>(after));
    lemma_last_step(depth, plan, e, ctx, ready, item, after);
    assert(after.plan.actors.drop_last() =~= b.m.plan.actors);
    assert forall|i: int| 0 <= i < k implies #[trigger] after.plan.actors[n + i].actor
        == ActorSpecView::Literal(literals[i]) by {
        assert(after.plan.actors[n + i] == b.m.plan.actors[n + i]);
        assert(b.m.plan.actors[n + i] == ready.plan.actors[n + i]);
    }
    assert forall|i: int| 0 <= i < k implies #[trigger] after.plan.actors[n + k + i].actor == (
    ActorSpecView::Persisted { source: (n + i) as u64 }) by {
        assert(after.plan.actors[n + k + i] == b.m.plan.actors[n + k + i]);
        assert(b.m.plan.actors[rest.plan.actors.len() + i].actor == (ActorSpecView::Persisted {
            source: (n + i) as u64,
        }));
    }
}

proof fn lemma_object_ready(
    depth: nat,
    plan: PlanView,
    e: SpannedExpressionView,
    tag: Option<Seq<char>>,
    variables: Seq<SpannedVariableView>,
    literals: Seq<LiteralView>,
    ctx: EvaluationContextView,
) -> (ready: MachineView)
    requires
        is_object(e, tag, variables),
        plain_variables(variables, literals),
        plan.actors.len() + 2 * variables.len() < u64::MAX,
        variables.len() < u32::MAX,
    ensures
        schedule(depth, allocated(fresh_machine(plan), 1), e, ctx, 0) == Ok::<
            MachineView,
            Seq<char>,
        >(ready),
        ({
            let start = allocated(fresh_machine(plan), 1);
            let m = keyed(start, e.persistence);
            let d = declare(m, variables, variables.len(), ctx);
            let item = object_item(
                tag,
                d.data,
                e.span,
                key_of(start, e.persistence),
                with_locals(ctx, d.locals),
            );
            values_made(pushed(d.m, item), ready, d.data, literals)
        }),
{
    let start = allocated(fresh_machine(plan), 1);
    let m = keyed(start, e.persistence);
    let key = key_of(start, e.persistence);
    let k = variables.len();
    let d = declare(m, variables, k, ctx);
    let bound = expr_size(e);
    assert(m.next_slot == 1);
    lemma_plain_declared(m, variables, literals, k, ctx);
    lemma_plain_jobs(variables, d.data, k, 1);
    let inner = with_locals(ctx, d.locals);
    let item = object_item(tag, d.data, e.span, key, inner);
    let begun = pushed(d.m, item);
    let jobs = Seq::new(k, |i: int| (variables[i].node.value, d.data[i].value_slot));
    assert(jobs + Seq::<Job>::empty() =~= jobs);
    assert(schedule(depth, start, e, ctx, 0) == schedule_object(
        depth,
        bound,
        m,
        tag,
        variables,
        e.span,
        key,
        ctx,
        0,
    ));
    assert(schedule_object(depth, bound, m, tag, variables, e.span, key, ctx, 0) == schedule_jobs(
        depth,
        bound,
        begun,
        jobs,
        k,
        inner,
    ));
    lemma_values_made(depth, bound, begun, variables, d.data, literals, 1, inner);
    schedule_jobs(depth, bound, begun, jobs, k, inner)->Ok_0
}

/// A link in an object is a variable with an actor of its own, which the connector knows.
pub proof fn lemma_object_with_link(
    depth: nat,
    plan: PlanView,
    e: SpannedExpressionView,
    var: SpannedVariableView,
    ctx: EvaluationContextView,
)
    requires
        e.node == (ExpressionView::Object { variables: seq![var] }),
        var.node.value.node is Link,
        !var.node.is_referenced,
        plan.actors.len() + 1 < u64::MAX,
    ensures
        ({
            let n = plan.actors.len();
            evaluated(depth, plan, e, ctx) matches Ok(done) && {
                &&& done.0.actors.len() == n + 2
                &&& done.0.actors[n as int].actor == ActorSpecView::LinkValue
                &&& done.1 == Some((n + 1) as u64)
                &&& done.0.actors[(n + 1) as int].actor matches ActorSpecView::Object { variables }
                    && {
                    &&& variables.len() == 1
                    &&& variables[0].name == var.node.name
                    &&& variables[0].value == n
                    &&& variables[0].is_link
                    &&& variables[0].source is None
                }
                &&& ctx.link_connector ==> done.0.registrations.contains(
                    RegistrationView::Link {
                        span: var.span,
                        scope: ctx.actor_context.scope,
                        actor: n as u64,
                    },
                )
                &&& ctx.reference_connector ==> done.0.registrations.contains(
                    RegistrationView::Referenceable { span: var.span, actor: n as u64 },
                )
            }
        }),
{
    let start = allocated(fresh_machine(plan), 1);
    let m = keyed(start, e.persistence);
    let key = key_of(start, e.persistence);
    let variables = seq![var];
    let bound = expr_size(e);
    reveal_with_fuel(declare, 2);
    reveal_with_fuel(build, 2);
    reveal_with_fuel(value_jobs, 2);
    let d = declare(m, variables, 1, ctx);
    let inner = with_locals(ctx, d.locals);
    let item = object_item(None, d.data, e.span, key, inner);
    let ready = pushed(d.m, item);
    assert(ready.queue =~= seq![item]);
    assert(value_jobs(variables, d.data, 1, Some(false)) + value_jobs(
        variables,
        d.data,
        1,
        Some(true),
    ) =~= Seq::<Job>::empty());
    assert(schedule_jobs(depth, bound, ready, Seq::empty(), 0, inner) == Ok::<
        MachineView,
        Seq<char>,
    >(ready));
    assert(schedule_object(depth, bound, m, None, variables, e.span, key, ctx, 0) == Ok::<
        MachineView,
        Seq<char>,
    >(ready));
    assert(schedule(depth, start, e, ctx, 0) == Ok::<MachineView, Seq<char>>(ready));
    let rest = MachineView { queue: Seq::empty(), ..ready };
    let b = build(rest, d.data, 1, inner);
    let actor = ActorSpecView::Object { variables: b.variables };
    let after = emit(b.m, 0, actor, key, e.span, inner.actor_context);
    assert(process(depth, rest, item) == Ok::<MachineView, Seq<char>>(after));
    lemma_last_step(depth, plan, e, ctx, ready, item, after);
    let made = after.plan.registrations;
    if ctx.link_connector {
        assert(made.last() == RegistrationView::Link {
            span: var.span,
            scope: ctx.actor_context.scope,
            actor: plan.actors.len() as u64,
        });
    }
    if ctx.reference_connector {
        let at = plan.registrations.len() as int;
        assert(made[at] == RegistrationView::Referenceable {
            span: var.span,
            actor: plan.actors.len() as u64,
        });
    }
}

/// A variable that is referred to has an actor from the start, which the connector knows and which
/// later takes the value of its literal.
#[verifier::spinoff_prover]
pub proof fn lemma_object_with_reference(
    depth: nat,
    plan: PlanView,
    e: SpannedExpressionView,
    var: SpannedVariableView,
    literal: LiteralView,
    ctx: EvaluationContextView,
)
    requires
        e.node == (ExpressionView::Object { variables: seq![var] }),
        var.node.value.node == ExpressionView::Literal(literal),
        var.node.is_referenced,
        plan.actors.len() + 2 < u64::MAX,
    ensures
        ({
            let n = plan.actors.len();
            evaluated(depth, plan, e, ctx) matches Ok(done) && {
                &&& done.0.actors.len() == n + 3
                &&& done.0.actors[n as int].actor == ActorSpecView::Forwarding
                &&& done.0.actors[(n + 1) as int].actor == ActorSpecView::Literal(literal)
                &&& done.0.actors[(n + 1) as int].context.object_locals
                    == ctx.actor_context.object_locals.insert(
                    nat_text(var.span.start as nat) + ".."@ + nat_text(var.span.end as nat),
                    n as u64,
                )
                &&& done.1 == Some((n + 2) as u64)
                &&& done.0.actors[(n + 2) as int].actor matches ActorSpecView::Object { variables }
                    && {
                    &&& variables.len() == 1
                    &&& variables[0].name == var.node.name
                    &&& variables[0].value == n
                    &&& !variables[0].is_link
                    &&& variables[0].source == Some((n + 1) as u64)
                }
                &&& ctx.reference_connector ==> done.0.registrations.contains(
                    RegistrationView::Referenceable { span: var.span, actor: n as u64 },
                )
            }
        }),
{
    let start = allocated(fresh_machine(plan), 1);
    let m = keyed(start, e.persistence);
    let key = key_of(start, e.persistence);
    let variables = seq![var];
    let bound = expr_size(e);
    reveal_with_fuel(declare, 2);
    reveal_with_fuel(build, 2);
    reveal_with_fuel(value_jobs, 2);
    assert(m.next_slot == 1);
    let d = declare(m, variables, 1, ctx);
    let inner = with_locals(ctx, d.locals);
    let item = object_item(None, d.data, e.span, key, inner);
    let begun = pushed(d.m, item);
    let value = var.node.value;
    let jobs = seq![(value, 1u32)];
    assert(value_jobs(variables, d.data, 1, Some(false)) + value_jobs(
        variables,
        d.data,
        1,
        Some(true),
    ) =~= jobs);
    lemma_variable_size(variables, 1, 0);
    assert(schedule_object(depth, bound, m, None, variables, e.span, key, ctx, 0)
        == schedule_jobs(depth, bound, begun, jobs, 1, inner));
    assert(schedule(depth, start, e, ctx, 0) == schedule_jobs(depth, bound, begun, jobs, 1, inner));
    lemma_one_job(depth, bound, begun, jobs, inner);
    lemma_literal_scheduled(depth, begun, value, inner, 1);
    let ready = schedule(depth, begun, value, inner, 1)->Ok_0;
    assert(ready.queue =~= seq![item]);
    let rest = MachineView { queue: Seq::empty(), ..ready };
    let b = build(rest, d.data, 1, inner);
    let actor = ActorSpecView::Object { variables: b.variables };
    let after = emit(b.m, 0, actor, key, e.span, inner.actor_context);
    assert(process(depth, rest, item) == Ok::<MachineView, Seq<char>>(after));
    lemma_last_step(depth, plan, e, ctx, ready, item, after);
    let made = after.plan.registrations;
    if ctx.reference_connector {
        let at = plan.registrations.len() as int;
        assert(made[at] == RegistrationView::Referenceable {
            span: var.span,
            actor: plan.actors.len() as u64,
        });
    }
}

/// A block without variables leads to its output, beside an object without variables.
#[verifier::spinoff_prover]
pub proof fn lemma_block_of_literal(
    depth: nat,
    plan: PlanView,
    e: SpannedExpressionView,
    output: SpannedExpressionView,
    literal: LiteralView,
    ctx: EvaluationContextView,
)
    requires
        e.node == (ExpressionView::Block { variables: Seq::empty(), output: Box::new(output) }),
        output.node == ExpressionView::Literal(literal),
        plan.actors.len() + 2 < u64::MAX,
    ensures
        ({
            let n = plan.actors.len();
            evaluated(depth, plan, e, ctx) matches Ok(done) && {
                &&& done.0.actors.len() == n + 3
                &&& done.0.actors[n as int].actor == ActorSpecView::Literal(literal)
                &&& done.0.actors[(n + 1) as int].actor == (ActorSpecView::Object {
                    variables: Seq::empty(),
                })
                &&& done.1 == Some((n + 2) as u64)
                &&& done.0.actors[(n + 2) as int].actor == (ActorSpecView::Block {
                    object: (n + 1) as u64,
                    output: n as u64,
                })
            }
        }),
{
    let ready = lemma_block_ready(depth, plan, e, output, literal, ctx);
    let key = key_of(allocated(fresh_machine(plan), 1), e.persistence);
    let inner = with_context(
        ctx,
        ActorContextView { is_snapshot_context: false, ..ctx.actor_context },
    );
    let n = plan.actors.len() as u64;
    let (between, after) = lemma_block_built(depth, ready, e.span, key, inner, n);
    lemma_last_two_steps(
        depth,
        plan,
        e,
        ctx,
        ready,
        empty_object_item(e.span, key, inner),
        between,
        block_item(),
        after,
    );
}

/// The step that builds a block of what two slots have.
spec fn block_item() -> WorkItemView {
    WorkItemView::BuildBlock { object_slot: 1, output_slot: 2, result_slot: 0 }
}

/// The step that builds an object without variables.
spec fn empty_object_item(
    span: Span,
    key: PersistenceKey,
    ctx: EvaluationContextView,
) -> WorkItemView {
    WorkItemView::BuildObject { variable_data: Seq::empty(), span, key, ctx, result_slot: 1 }
}

#[verifier::spinoff_prover]
proof fn lemma_block_built(
    depth: nat,
    ready: MachineView,
    span: Span,
    key: PersistenceKey,
    inner: EvaluationContextView,
    n: u64,
) -> (done: (MachineView, MachineView))
    requires
        ready.queue == seq![block_item(), empty_object_item(span, key, inner)],
        ready.results.contains_key(2),
        ready.results[2] == n,
        ready.plan.actors.len() == n + 1,
        n + 2 < u64::MAX,
    ensures
        ready.queue.last() == empty_object_item(span, key, inner),
        process(
            depth,
            MachineView { queue: ready.queue.drop_last(), ..ready },
            empty_object_item(span, key, inner),
        ) == Ok::<MachineView, Seq<char>>(done.0),
        done.0.queue == seq![block_item()],
        process(depth, MachineView { queue: Seq::empty(), ..done.0 }, block_item()) == Ok::<
            MachineView,
            Seq<char>,
        >(done.1),
        done.1.queue.len() == 0,
        done.1.results.contains_key(0),
        done.1.results[0] == n + 2,
        done.1.plan.actors.len() == n + 3,
        done.1.plan.actors[n as int] == ready.plan.actors[n as int],
        done.1.plan.actors[n + 1].actor == (ActorSpecView::Object { variables: Seq::empty() }),
        done.1.plan.actors[n + 2].actor == (ActorSpecView::Block {
            object: (n + 1) as u64,
            output: n,
        }),
{
    let item = empty_object_item(span, key, inner);
    let rest = MachineView { queue: ready.queue.drop_last(), ..ready };
    assert(rest.queue =~= seq![block_item()]);
    let object = ActorSpecView::Object { variables: Seq::empty() };
    let between = emit(rest, 1, object, key, span, inner.actor_context);
    assert(build(rest, Seq::empty(), 0, inner).variables =~= Seq::empty());
    assert(process(depth, rest, item) == Ok::<MachineView, Seq<char>>(between));
    let alone = MachineView { queue: Seq::empty(), ..between };
    let after = process(depth, alone, block_item())->Ok_0;
    (between, after)
}

#[verifier::spinoff_prover]
proof fn lemma_block_ready(
    depth: nat,
    plan: PlanView,
    e: SpannedExpressionView,
    output: SpannedExpressionView,
    literal: LiteralView,
    ctx: EvaluationContextView,
) -> (ready: MachineView)
    requires
        e.node == (ExpressionView::Block { variables: Seq::empty(), output: Box::new(output) }),
        output.node == ExpressionView::Literal(literal),
        plan.actors.len() + 2 < u64::MAX,
    ensures
        schedule(depth, allocated(fresh_machine(plan), 1), e, ctx, 0) == Ok::<
            MachineView,
            Seq<char>,
        >(ready),
        ({
            let n = plan.actors.len() as int;
            let key = key_of(allocated(fresh_machine(plan), 1), e.persistence);
            let inner = with_context(
                ctx,
                ActorContextView { is_snapshot_context: false, ..ctx.actor_context },
            );
            &&& ready.queue == seq![block_item(), empty_object_item(e.span, key, inner)]
            &&& ready.results.contains_key(2)
            &&& ready.results[2] == n
            &&& ready.plan.actors.len() == n + 1
            &&& ready.plan.actors[n].actor == ActorSpecView::Literal(literal)
        }),
{
    let start = allocated(fresh_machine(plan), 1);
    let m = keyed(start, e.persistence);
    let key = key_of(start, e.persistence);
    let none = Seq::<SpannedVariableView>::empty();
    let bound = expr_size(e);
    assert(m.next_slot == 1);
    assert(slot_at(1, 1) == 2);
    let inner = with_context(
        ctx,
        ActorContextView { is_snapshot_context: false, ..ctx.actor_context },
    );
    let framed = pushed(allocated(m, 2), block_item());
    let jobs = seq![(output, 2u32)];
    lemma_one_job(depth, bound, framed, jobs, inner);
    lemma_literal_scheduled(depth, framed, output, inner, 2);
    let known = schedule(depth, framed, output, inner, 2)->Ok_0;
    let item = empty_object_item(e.span, key, inner);
    let ready = pushed(known, item);
    assert(schedule_jobs(depth, bound, ready, Seq::empty(), 0, inner) == Ok::<
        MachineView,
        Seq<char>,
    >(ready));
    assert(declare(m, none, 0, ctx).data =~= Seq::empty());
    assert(value_jobs(none, Seq::empty(), 0, None) =~= Seq::<Job>::empty());
    assert(schedule_block(depth, bound, m, none, output, e.span, key, ctx, 0) == Ok::<
        MachineView,
        Seq<char>,
    >(ready));
    assert(schedule(depth, start, e, ctx, 0) == Ok::<MachineView, Seq<char>>(ready));
    assert(ready.queue =~= seq![block_item(), item]);
    ready
}

/// The values of the variables that nothing refers to are evaluated before those of the others;
/// the variables themselves keep their order.
#[verifier::spinoff_prover]
pub proof fn lemma_values_in_order(
    depth: nat,
    plan: PlanView,
    e: SpannedExpressionView,
    first: SpannedVariableView,
    second: SpannedVariableView,
    a: LiteralView,
    b: LiteralView,
    ctx: EvaluationContextView,
)
    requires
        e.node == (ExpressionView::Object { variables: seq![first, second] }),
        first.node.value.node == ExpressionView::Literal(a),
        second.node.value.node == ExpressionView::Literal(b),
        first.node.is_referenced,
        !second.node.is_referenced,
        plan.actors.len() + 5 < u64::MAX,
    ensures
        ({
            let n = plan.actors.len();
            evaluated(depth, plan, e, ctx) matches Ok(done) && {
                let actors = done.0.actors;
                &&& actors.len() == n + 5
                &&& actors[n as int].actor == ActorSpecView::Forwarding
                &&& actors[(n + 1) as int].actor == ActorSpecView::Literal(b)
                &&& actors[(n + 2) as int].actor == ActorSpecView::Literal(a)
                &&& actors[(n + 3) as int].actor == (ActorSpecView::Persisted {
                    source: (n + 1) as u64,
                })
                &&& actors[(n + 4) as int].actor matches ActorSpecView::Object { variables } && {
                    &&& variables.len() == 2
                    &&& variables[0].name == first.node.name
                    &&& variables[0].value == n
                    &&& variables[0].source == Some((n + 2) as u64)
                    &&& variables[1].name == second.node.name
                    &&& variables[1].value == n + 3
                    &&& variables[1].source is None
                }
                &&& done.1 == Some((n + 4) as u64)
            }
        }),
{
    let ready = lemma_two_values_ready(depth, plan, e, first, second, a, b, ctx);
    let item = ready.queue[0];
    let after = lemma_two_values_built(depth, plan, ready, first, second, a, b);
    assert(ready.queue =~= seq![item]);
    lemma_last_step(depth, plan, e, ctx, ready, item, after);
}

/// What is known of two variables, of which the first is referred to, once they are set up.
spec fn two_values(
    plan: PlanView,
    ready: MachineView,
    first: SpannedVariableView,
    second: SpannedVariableView,
    a: LiteralView,
    b: LiteralView,
) -> bool {
    let n = plan.actors.len() as int;
    &&& ready.plan.actors.len() == n + 3
    &&& ready.plan.actors[n].actor == ActorSpecView::Forwarding
    &&& ready.plan.actors[n + 1].actor == ActorSpecView::Literal(b)
    &&& ready.plan.actors[n + 2].actor == ActorSpecView::Literal(a)
    &&& ready.results.contains_key(1) && ready.results[1] == n + 2
    &&& ready.results.contains_key(2) && ready.results[2] == n + 1
    &&& ready.queue.len() == 1
    &&& ready.queue[0] matches WorkItemView::BuildObject { variable_data: data, result_slot, .. }
        && {
        &&& result_slot == 0
        &&& data.len() == 2
        &&& data[0].name == first.node.name && data[0].value_slot == 1
        &&& !data[0].is_link && data[0].forwarding_actor == Some(n as u64)
        &&& data[1].name == second.node.name && data[1].value_slot == 2
        &&& !data[1].is_link && data[1].forwarding_actor is None
    }
}

proof fn lemma_two_values_built(
    depth: nat,
    plan: PlanView,
    ready: MachineView,
    first: SpannedVariableView,
    second: SpannedVariableView,
    a: LiteralView,
    b: LiteralView,
) -> (after: MachineView)
    requires
        two_values(plan, ready, first, second, a, b),
        plan.actors.len() + 5 < u64::MAX,
    ensures
        process(depth, MachineView { queue: Seq::empty(), ..ready }, ready.queue[0]) == Ok::<
            MachineView,
            Seq<char>,
        >(after),
        ({
            let n = plan.actors.len() as int;
            let actors = after.plan.actors;
            &&& after.queue.len() == 0
            &&& after.results.contains_key(0) && after.results[0] == n + 4
            &&& actors.len() == n + 5
            &&& actors[n].actor == ActorSpecView::Forwarding
            &&& actors[n + 1].actor == ActorSpecView::Literal(b)
            &&& actors[n + 2].actor == ActorSpecView::Literal(a)
            &&& actors[n + 3].actor == (ActorSpecView::Persisted { source: (n + 1) as u64 })
            &&& actors[n + 4].actor matches ActorSpecView::Object { variables } && {
                &&& variables.len() == 2
                &&& variables[0].name == first.node.name
                &&& variables[0].value == n
                &&& variables[0].source == Some((n + 2) as u64)
                &&& variables[1].name == second.node.name
                &&& variables[1].value == n + 3
                &&& variables[1].source is None
            }
        }),
{
    reveal_with_fuel(build, 3);
    process(depth, MachineView { queue: Seq::empty(), ..ready }, ready.queue[0])->Ok_0
}

proof fn lemma_two_values_ready(
    depth: nat,
    plan: PlanView,
    e: SpannedExpressionView,
    first: SpannedVariableView,
    second: SpannedVariableView,
    a: LiteralView,
    b: LiteralView,
    ctx: EvaluationContextView,
) -> (ready: MachineView)
    requires
        e.node == (ExpressionView::Object { variables: seq![first, second] }),
        first.node.value.node == ExpressionView::Literal(a),
        second.node.value.node == ExpressionView::Literal(b),
        first.node.is_referenced,
        !second.node.is_referenced,
        plan.actors.len() + 5 < u64::MAX,
    ensures
        schedule(depth, allocated(fresh_machine(plan), 1), e, ctx, 0) == Ok::<
            MachineView,
            Seq<char>,
        >(ready),
        two_values(plan, ready, first, second, a, b),
{
    let start = allocated(fresh_machine(plan), 1);
    let m = keyed(start, e.persistence);
    let key = key_of(start, e.persistence);
    let variables = seq![first, second];
    let bound = expr_size(e);
    reveal_with_fuel(declare, 3);
    reveal_with_fuel(value_jobs, 3);
    assert(m.next_slot == 1);
    assert(slot_at(1, 1) == 2);
    let d = declare(m, variables, 2, ctx);
    let inner = with_locals(ctx, d.locals);
    let item = object_item(None, d.data, e.span, key, inner);
    let begun = pushed(d.m, item);
    let jobs = seq![(second.node.value, 2u32), (first.node.value, 1u32)];
    assert(value_jobs(variables, d.data, 2, Some(false)) + value_jobs(
        variables,
        d.data,
        2,
        Some(true),
    ) =~= jobs);
    lemma_variable_size(variables, 2, 0);
    lemma_variable_size(variables, 2, 1);
    assert(schedule_object(depth, bound, m, None, variables, e.span, key, ctx, 0)
        == schedule_jobs(depth, bound, begun, jobs, 2, inner));
    assert(schedule(depth, start, e, ctx, 0) == schedule_jobs(depth, bound, begun, jobs, 2, inner));
    let literals = seq![b, a];
    let slots = seq![2u32, 1u32];
    assert forall|i: int| 0 <= i < jobs.len() implies (#[trigger] jobs[i]).0.node
        == ExpressionView::Literal(literals[i]) && jobs[i].1 == slots[i] && expr_size(jobs[i].0)
        < bound by {
        assert(i == 0 || i == 1);
    }
    lemma_literal_jobs(depth, bound, begun, jobs, literals, slots, 2, inner);
    let ready = schedule_jobs(depth, bound, begun, jobs, 2, inner)->Ok_0;
    lemma_two_literals_made(begun, ready, a, b);
    let n = plan.actors.len() as int;
    assert(ready.plan.actors[n] == begun.plan.actors[n]);
    ready
}

proof fn lemma_two_literals_made(
    m: MachineView,
    after: MachineView,
    a: LiteralView,
    b: LiteralView,
)
    requires
        literals_made(m, after, seq![b, a], seq![2u32, 1u32], 2),
    ensures
        ({
            let k = m.plan.actors.len() as int;
            &&& after.queue == m.queue
            &&& after.plan.actors.len() == k + 2
            &&& after.plan.actors[k].actor == ActorSpecView::Literal(b)
            &&& after.plan.actors[k + 1].actor == ActorSpecView::Literal(a)
            &&& after.results.contains_key(2) && after.results[2] == k
            &&& after.results.contains_key(1) && after.results[1] == k + 1
            &&& forall|i: int| 0 <= i < k ==> #[trigger] after.plan.actors[i] == m.plan.actors[i]
        }),
{
    let slots = seq![2u32, 1u32];
    let literals = seq![b, a];
    let k = m.plan.actors.len() as int;
    assert(slots[0] == 2 && slots[1] == 1);
    assert(after.plan.actors[k + 0].actor == ActorSpecView::Literal(literals[0]));
    assert(after.plan.actors[k + 1].actor == ActorSpecView::Literal(literals[1]));
}

} // verus!
