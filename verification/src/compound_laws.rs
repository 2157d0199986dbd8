//! What expressions made of others lead to.
use crate::contexts::{in_child_scope, with_context};
use crate::evaluation::{
    Job, MINUS_ONE_BITS, evaluated, expr_size, found, process, run_queue, schedule,
    schedule_items, schedule_jobs, total_weight,
};
use crate::evaluation_laws::lemma_item_size;
use crate::evaluation_state::{
    MachineView, allocated, emit, fresh_machine, key_of, keyed, pushed, slot_at,
};
use crate::expression_view::{ExpressionView, LiteralView, SpannedExpressionView};
use crate::plan::PersistenceKey;
use crate::plan_view::{
    ActorContextView, ActorSpecView, EvaluationContextView, PlanView, ScopeSegmentView,
    WorkItemView,
};
use crate::slot_laws::lemma_evaluated_by_running;
use crate::static_expression::{BinaryOpKind, Literal, PersistenceId, Span};
use vstd::prelude::*;

verus! {

pub(crate) proof fn lemma_literal_scheduled(
    depth: nat,
    m: MachineView,
    e: SpannedExpressionView,
    ctx: EvaluationContextView,
    slot: u32,
)
    requires
        e.node is Literal,
    ensures
        schedule(depth, m, e, ctx, slot) == Ok::<MachineView, Seq<char>>(
            emit(
                keyed(m, e.persistence),
                slot,
                ActorSpecView::Literal(e.node->Literal_0),
                key_of(m, e.persistence),
                e.span,
                ctx.actor_context,
            ),
        ),
{
}

/// Whether a machine has become another one by making the actors of `n` literals, for these slots.
pub open spec fn literals_made(
    m: MachineView,
    after: MachineView,
    literals: Seq<LiteralView>,
    slots: Seq<u32>,
    n: nat,
) -> bool {
    let len = m.plan.actors.len();
    &&& after.queue == m.queue
    &&& after.next_slot == m.next_slot
    &&& after.registry == m.registry
    &&& after.loops == m.loops
    &&& after.plan.registrations == m.plan.registrations
    &&& after.plan.actors.len() == len + n
    &&& forall|i: int| 0 <= i < len ==> #[trigger] after.plan.actors[i] == m.plan.actors[i]
    &&& forall|i: int|
        0 <= i < n ==> #[trigger] after.plan.actors[len + i].actor == ActorSpecView::Literal(
            literals[i],
        )
    &&& forall|i: int|
        0 <= i < n ==> after.results.contains_key(#[trigger] slots[i]) && after.results[slots[i]]
            == len + i
    &&& forall|s: u32|
        (forall|i: int| 0 <= i < n ==> #[trigger] slots[i] != s) ==> (
        #[trigger] after.results.contains_key(s) <==> m.results.contains_key(s))
            && after.results[s] == m.results[s]
}

proof fn lemma_one_more_literal(
    m: MachineView,
    before: MachineView,
    after: MachineView,
    literals: Seq<LiteralView>,
    slots: Seq<u32>,
    n: nat,
    p: Option<PersistenceId>,
    drawn_first: bool,
    key: PersistenceKey,
    span: Span,
    context: ActorContextView,
)
    requires
        n < literals.len(),
        slots.len() == literals.len(),
        m.plan.actors.len() + literals.len() <= u64::MAX,
        forall|i: int, j: int| 0 <= i < j < slots.len() ==> slots[i] != slots[j],
        literals_made(m, before, literals, slots, n),
        after == emit(
            if drawn_first {
                keyed(keyed(before, p), p)
            } else {
                keyed(before, p)
            },
            slots[n as int],
            ActorSpecView::Literal(literals[n as int]),
            key,
            span,
            context,
        ),
    ensures
        literals_made(m, after, literals, slots, n + 1),
{
    let len = m.plan.actors.len();
    assert(after.plan.actors.len() == len + n + 1);
    assert forall|i: int| 0 <= i < len implies #[trigger] after.plan.actors[i]
        == m.plan.actors[i] by {
        assert(after.plan.actors[i] == before.plan.actors[i]);
    }
    assert forall|i: int| 0 <= i < n + 1 implies #[trigger] after.plan.actors[len + i].actor
        == ActorSpecView::Literal(literals[i]) by {
        if i < n {
            assert(after.plan.actors[len + i] == before.plan.actors[len + i]);
        }
    }
    assert forall|i: int| 0 <= i < n + 1 implies after.results.contains_key(#[trigger] slots[i])
        && after.results[slots[i]] == len + i by {
        if i < n {
            assert(slots[i] != slots[n as int]);
        }
    }
    assert forall|s: u32|
        (forall|i: int| 0 <= i < n + 1 ==> #[trigger] slots[i] != s) implies (
    #[trigger] after.results.contains_key(s) <==> m.results.contains_key(s)) && after.results[s]
        == m.results[s] by {
        assert(slots[n as int] != s);
        assert(before.results.contains_key(s) <==> m.results.contains_key(s));
    }
}

pub(crate) proof fn lemma_literal_jobs(
    depth: nat,
    bound: nat,
    m: MachineView,
    jobs: Seq<Job>,
    literals: Seq<LiteralView>,
    slots: Seq<u32>,
    n: nat,
    ctx: EvaluationContextView,
)
    requires
        n <= jobs.len(),
        jobs.len() == literals.len(),
        jobs.len() == slots.len(),
        m.plan.actors.len() + literals.len() <= u64::MAX,
        forall|i: int, j: int| 0 <= i < j < slots.len() ==> slots[i] != slots[j],
        forall|i: int|
            0 <= i < jobs.len() ==> (#[trigger] jobs[i]).0.node == ExpressionView::Literal(
                literals[i],
            ) && jobs[i].1 == slots[i] && expr_size(jobs[i].0) < bound,
    ensures
        schedule_jobs(depth, bound, m, jobs, n, ctx) is Ok,
        literals_made(
            m,
            schedule_jobs(depth, bound, m, jobs, n, ctx)->Ok_0,
            literals,
            slots,
            n,
        ),
    decreases n,
{
    if n > 0 {
        let k = (n - 1) as nat;
        lemma_literal_jobs(depth, bound, m, jobs, literals, slots, k, ctx);
        let before = schedule_jobs(depth, bound, m, jobs, k, ctx)->Ok_0;
        let job = jobs[k as int];
        lemma_literal_scheduled(depth, before, job.0, ctx, job.1);
        let after = schedule_jobs(depth, bound, m, jobs, n, ctx)->Ok_0;
        lemma_one_more_literal(
            m,
            before,
            after,
            literals,
            slots,
            k,
            job.0.persistence,
            false,
            key_of(before, job.0.persistence),
            job.0.span,
            ctx.actor_context,
        );
    }
}

proof fn lemma_literal_items(
    depth: nat,
    bound: nat,
    m: MachineView,
    items: Seq<SpannedExpressionView>,
    literals: Seq<LiteralView>,
    slots: Seq<u32>,
    n: nat,
    base: u32,
    ctx: EvaluationContextView,
)
    requires
        n <= items.len(),
        items.len() == literals.len(),
        items.len() == slots.len(),
        m.plan.actors.len() + literals.len() <= u64::MAX,
        forall|i: int, j: int| 0 <= i < j < slots.len() ==> slots[i] != slots[j],
        forall|i: int|
            0 <= i < items.len() ==> (#[trigger] items[i]).node == ExpressionView::Literal(
                literals[i],
            ) && slots[i] == slot_at(base, i) && expr_size(items[i]) < bound,
    ensures
        schedule_items(depth, bound, m, items, n, base, ctx) is Ok,
        literals_made(
            m,
            schedule_items(depth, bound, m, items, n, base, ctx)->Ok_0,
            literals,
            slots,
            n,
        ),
    decreases n,
{
    if n > 0 {
        let k = (n - 1) as nat;
        lemma_literal_items(depth, bound, m, items, literals, slots, k, base, ctx);
        let before = schedule_items(depth, bound, m, items, k, base, ctx)->Ok_0;
        let item = items[k as int];
        let segment = ScopeSegmentView::ListItem {
            index: k as u64,
            key: key_of(before, item.persistence),
        };
        let item_ctx = with_context(ctx, in_child_scope(ctx.actor_context, segment));
        let known = keyed(before, item.persistence);
        lemma_literal_scheduled(depth, known, item, item_ctx, slots[k as int]);
        let after = schedule_items(depth, bound, m, items, n, base, ctx)->Ok_0;
        lemma_one_more_literal(
            m,
            before,
            after,
            literals,
            slots,
            k,
            item.persistence,
            true,
            key_of(known, item.persistence),
            item.span,
            item_ctx.actor_context,
        );
    }
}

pub(crate) proof fn lemma_last_step(
    depth: nat,
    plan: PlanView,
    e: SpannedExpressionView,
    ctx: EvaluationContextView,
    m: MachineView,
    item: WorkItemView,
    after: MachineView,
)
    requires
        schedule(depth, allocated(fresh_machine(plan), 1), e, ctx, 0) == Ok::<
            MachineView,
            Seq<char>,
        >(m),
        m.queue == seq![item],
        process(depth, MachineView { queue: Seq::empty(), ..m }, item) == Ok::<
            MachineView,
            Seq<char>,
        >(after),
        after.queue.len() == 0,
    ensures
        evaluated(depth, plan, e, ctx) == Ok::<(PlanView, Option<u64>), Seq<char>>(
            (
                after.plan,
                if after.results.contains_key(0) {
                    Some(after.results[0])
                } else {
                    None
                },
            ),
        ),
{
    lemma_evaluated_by_running(depth, plan, e, ctx);
    assert(m.queue.drop_last() =~= Seq::<WorkItemView>::empty());
    assert(m.queue.last() == item);
    assert(total_weight(after.queue) == 0);
    assert(total_weight(Seq::<WorkItemView>::empty()) == 0);
    assert(total_weight(m.queue) >= 1);
    assert(run_queue(depth, after) == Ok::<MachineView, Seq<char>>(after));
    assert(run_queue(depth, m) == Ok::<MachineView, Seq<char>>(after));
}

/// The slots behind the first one.
spec fn slots_from_one(n: nat) -> Seq<u32> {
    Seq::new(n, |i: int| slot_at(1, i))
}

proof fn lemma_slots_from_one(n: nat)
    requires
        n < u32::MAX,
    ensures
        slots_from_one(n).len() == n,
        forall|i: int| 0 <= i < n ==> #[trigger] slots_from_one(n)[i] == 1 + i,
{
    assert forall|i: int| 0 <= i < n implies #[trigger] slots_from_one(n)[i] == 1 + i by {
        assert(slots_from_one(n)[i] == slot_at(1, i));
        assert((1 + i) % 0x1_0000_0000 == 1 + i) by (nonlinear_arith)
            requires
                0 <= 1 + i < 0x1_0000_0000,
        ;
    }
}

proof fn lemma_operator_scheduled(
    depth: nat,
    plan: PlanView,
    e: SpannedExpressionView,
    op: BinaryOpKind,
    a: SpannedExpressionView,
    b: SpannedExpressionView,
    ctx: EvaluationContextView,
)
    requires
        e.node == (ExpressionView::Operator {
            op,
            operand_a: Box::new(a),
            operand_b: Box::new(b),
        }),
    ensures
        ({
            let start = allocated(fresh_machine(plan), 1);
            let item = WorkItemView::BinaryOp {
                op,
                operand_a_slot: 1,
                operand_b_slot: 2,
                span: e.span,
                key: key_of(start, e.persistence),
                ctx,
                result_slot: 0,
            };
            schedule(depth, start, e, ctx, 0) == schedule_jobs(
                depth,
                expr_size(e),
                pushed(allocated(keyed(start, e.persistence), 2), item),
                seq![(a, 1u32), (b, 2u32)],
                2,
                ctx,
            )
        }),
        expr_size(a) < expr_size(e),
        expr_size(b) < expr_size(e),
{
    let start = allocated(fresh_machine(plan), 1);
    let m = keyed(start, e.persistence);
    assert(m.next_slot == 1);
    assert(slot_at(1, 1) == 2);
}

/// Whether a machine has become another one by making the actors of two literals.
spec fn pair_made(
    m: MachineView,
    after: MachineView,
    left: LiteralView,
    right: LiteralView,
) -> bool {
    let n = m.plan.actors.len();
    &&& after.queue == m.queue
    &&& after.plan.actors.len() == n + 2
    &&& after.plan.actors[n as int].actor == ActorSpecView::Literal(left)
    &&& after.plan.actors[(n + 1) as int].actor == ActorSpecView::Literal(right)
    &&& after.results.contains_key(1)
    &&& after.results[1] == n
    &&& after.results.contains_key(2)
    &&& after.results[2] == n + 1
}

proof fn lemma_pair_made(
    m: MachineView,
    after: MachineView,
    left: LiteralView,
    right: LiteralView,
)
    requires
        literals_made(m, after, seq![left, right], seq![1u32, 2u32], 2),
    ensures
        pair_made(m, after, left, right),
{
    let slots = seq![1u32, 2u32];
    let literals = seq![left, right];
    let n = m.plan.actors.len() as int;
    assert(slots[0] == 1 && slots[1] == 2);
    assert(after.plan.actors[n + 0].actor == ActorSpecView::Literal(literals[0]));
    assert(after.plan.actors[n + 1].actor == ActorSpecView::Literal(literals[1]));
}

proof fn lemma_operator_ready(
    depth: nat,
    plan: PlanView,
    e: SpannedExpressionView,
    op: BinaryOpKind,
    a: SpannedExpressionView,
    b: SpannedExpressionView,
    left: LiteralView,
    right: LiteralView,
    ctx: EvaluationContextView,
) -> (ready: MachineView)
    requires
        plan.actors.len() + 3 <= u64::MAX,
        e.node == (ExpressionView::Operator {
            op,
            operand_a: Box::new(a),
            operand_b: Box::new(b),
        }),
        a.node == ExpressionView::Literal(left),
        b.node == ExpressionView::Literal(right),
    ensures
        schedule(depth, allocated(fresh_machine(plan), 1), e, ctx, 0) == Ok::<
            MachineView,
            Seq<char>,
        >(ready),
        ({
            let start = allocated(fresh_machine(plan), 1);
            let item = operator_item(op, 1, 2, e.span, key_of(start, e.persistence), ctx);
            let built = pushed(allocated(keyed(start, e.persistence), 2), item);
            pair_made(built, ready, left, right)
        }),
{
    let start = allocated(fresh_machine(plan), 1);
    let item = operator_item(op, 1, 2, e.span, key_of(start, e.persistence), ctx);
    let built = pushed(allocated(keyed(start, e.persistence), 2), item);
    let slots = seq![1u32, 2u32];
    let jobs = seq![(a, 1u32), (b, 2u32)];
    let literals = seq![left, right];
    let bound = expr_size(e);
    lemma_operator_scheduled(depth, plan, e, op, a, b, ctx);
    assert forall|i: int| 0 <= i < jobs.len() implies (#[trigger] jobs[i]).0.node
        == ExpressionView::Literal(literals[i]) && jobs[i].1 == slots[i] && expr_size(jobs[i].0)
        < bound by {
        assert(i == 0 || i == 1);
    }
    lemma_literal_jobs(depth, bound, built, jobs, literals, slots, 2, ctx);
    let ready = schedule_jobs(depth, bound, built, jobs, 2, ctx)->Ok_0;
    lemma_pair_made(built, ready, left, right);
    ready
}

/// What waits for the two operands of an operator.
spec fn operator_item(
    op: BinaryOpKind,
    a: u32,
    b: u32,
    span: Span,
    key: PersistenceKey,
    ctx: EvaluationContextView,
) -> WorkItemView {
    WorkItemView::BinaryOp {
        op,
        operand_a_slot: a,
        operand_b_slot: b,
        span,
        key,
        ctx,
        result_slot: 0,
    }
}

proof fn lemma_operator_processed(
    depth: nat,
    m: MachineView,
    op: BinaryOpKind,
    a: u32,
    b: u32,
    span: Span,
    key: PersistenceKey,
    ctx: EvaluationContextView,
) -> (after: MachineView)
    requires
        m.queue.len() == 0,
        m.results.contains_key(a),
        m.results.contains_key(b),
        m.plan.actors.len() < u64::MAX,
    ensures
        process(depth, m, operator_item(op, a, b, span, key, ctx)) == Ok::<MachineView, Seq<char>>(
            after,
        ),
        after.queue.len() == 0,
        after.results.contains_key(0),
        after.results[0] == m.plan.actors.len(),
        after.plan.actors.len() == m.plan.actors.len() + 1,
        after.plan.actors.last().actor == (ActorSpecView::BinaryOp {
            op,
            a: m.results[a],
            b: m.results[b],
        }),
        after.plan.actors.last().span == span,
        after.plan.actors.drop_last() == m.plan.actors,
{
    let spec = ActorSpecView::BinaryOp { op, a: m.results[a], b: m.results[b] };
    let after = emit(m, 0, spec, key, span, ctx.actor_context);
    assert(after.plan.actors.drop_last() =~= m.plan.actors);
    after
}

/// An operator on two literals leads to the actor of that operator on the actors of these, in
/// their order.
pub proof fn lemma_operator_on_literals(
    depth: nat,
    plan: PlanView,
    e: SpannedExpressionView,
    op: BinaryOpKind,
    a: SpannedExpressionView,
    b: SpannedExpressionView,
    left: LiteralView,
    right: LiteralView,
    ctx: EvaluationContextView,
)
    requires
        plan.actors.len() + 3 <= u64::MAX,
        e.node == (ExpressionView::Operator {
            op,
            operand_a: Box::new(a),
            operand_b: Box::new(b),
        }),
        a.node == ExpressionView::Literal(left),
        b.node == ExpressionView::Literal(right),
    ensures
        ({
            let n = plan.actors.len();
            evaluated(depth, plan, e, ctx) matches Ok(done) && {
                &&& done.0.actors.len() == n + 3
                &&& done.0.actors[n as int].actor == ActorSpecView::Literal(left)
                &&& done.0.actors[(n + 1) as int].actor == ActorSpecView::Literal(right)
                &&& done.1 == Some((n + 2) as u64)
                &&& done.0.actors[(n + 2) as int].actor == (ActorSpecView::BinaryOp {
                    op,
                    a: n as u64,
                    b: (n + 1) as u64,
                })
                &&& done.0.actors[(n + 2) as int].span == e.span
            }
        }),
{
    let start = allocated(fresh_machine(plan), 1);
    let key = key_of(start, e.persistence);
    let item = operator_item(op, 1, 2, e.span, key, ctx);
    let ready = lemma_operator_ready(depth, plan, e, op, a, b, left, right, ctx);
    assert(ready.queue =~= seq![item]);
    let rest = MachineView { queue: Seq::empty(), ..ready };
    let n = plan.actors.len() as int;
    let after = lemma_operator_processed(depth, rest, op, 1, 2, e.span, key, ctx);
    lemma_last_step(depth, plan, e, ctx, ready, item, after);
    let before = after.plan.actors.drop_last();
    assert(before[n as int] == after.plan.actors[n as int]);
    assert(before[n + 1] == after.plan.actors[n + 1]);
}

/// A literal that is negated leads to the product of minus one and its actor.
pub proof fn lemma_negated_literal(
    depth: nat,
    plan: PlanView,
    e: SpannedExpressionView,
    a: SpannedExpressionView,
    literal: LiteralView,
    ctx: EvaluationContextView,
)
    requires
        plan.actors.len() + 3 <= u64::MAX,
        e.node == (ExpressionView::Negate { operand: Box::new(a) }),
        a.node == ExpressionView::Literal(literal),
    ensures
        ({
            let n = plan.actors.len();
            evaluated(depth, plan, e, ctx) matches Ok(done) && {
                &&& done.0.actors.len() == n + 3
                &&& done.0.actors[n as int].actor == ActorSpecView::Literal(
                    LiteralView::Number(0xBFF0_0000_0000_0000),
                )
                &&& done.0.actors[(n + 1) as int].actor == ActorSpecView::Literal(literal)
                &&& done.1 == Some((n + 2) as u64)
                &&& done.0.actors[(n + 2) as int].actor == (ActorSpecView::BinaryOp {
                    op: BinaryOpKind::Multiply,
                    a: n as u64,
                    b: (n + 1) as u64,
                })
            }
        }),
{
    let start = allocated(fresh_machine(plan), 1);
    let m = keyed(start, e.persistence);
    let key = key_of(start, e.persistence);
    let span = e.span;
    let minus = LiteralView::Number(MINUS_ONE_BITS);
    assert(m.next_slot == 1);
    assert(slot_at(1, 1) == 2);
    let item = WorkItemView::BinaryOp {
        op: BinaryOpKind::Multiply,
        operand_a_slot: 1,
        operand_b_slot: 2,
        span,
        key,
        ctx,
        result_slot: 0,
    };
    let first = emit(
        allocated(m, 2),
        1,
        ActorSpecView::Literal(minus),
        key,
        span,
        ctx.actor_context,
    );
    let built = pushed(first, item);
    let jobs = seq![(a, 2u32)];
    let slots = seq![2u32];
    let literals = seq![literal];
    let bound = expr_size(e);
    assert(schedule(depth, start, e, ctx, 0) == schedule_jobs(depth, bound, built, jobs, 1, ctx));
    lemma_literal_jobs(depth, bound, built, jobs, literals, slots, 1, ctx);
    let ready = schedule_jobs(depth, bound, built, jobs, 1, ctx)->Ok_0;
    assert(ready.queue =~= seq![item]);
    let rest = MachineView { queue: Seq::empty(), ..ready };
    let n = plan.actors.len();
    assert(ready.results.contains_key(slots[0]));
    assert(built.results.contains_key(1u32) && built.results[1u32] == n);
    assert(ready.results.contains_key(1u32) && ready.results[1u32] == n);
    assert(ready.plan.actors[n as int] == built.plan.actors[n as int]);
    assert(ready.plan.actors[(n + 1 + 0) as int].actor == ActorSpecView::Literal(literals[0]));
    let spec = ActorSpecView::BinaryOp {
        op: BinaryOpKind::Multiply,
        a: n as u64,
        b: (n + 1) as u64,
    };
    let after = emit(rest, 0, spec, key, span, ctx.actor_context);
    assert(process(depth, rest, item) == Ok::<MachineView, Seq<char>>(after));
    lemma_last_step(depth, plan, e, ctx, ready, item, after);
}

proof fn lemma_all_found(m: MachineView, slots: Seq<u32>, n: nat, first: int)
    requires
        n <= slots.len(),
        forall|i: int|
            0 <= i < slots.len() ==> m.results.contains_key(#[trigger] slots[i])
                && m.results[slots[i]] == first + i,
    ensures
        found(m, slots, n) == Seq::new(n, |i: int| (first + i) as u64),
    decreases n,
{
    if n > 0 {
        lemma_all_found(m, slots, (n - 1) as nat, first);
        assert(m.results.contains_key(slots[n - 1]));
        assert(found(m, slots, n) =~= Seq::new(n, |i: int| (first + i) as u64));
    } else {
        assert(found(m, slots, n) =~= Seq::new(n, |i: int| (first + i) as u64));
    }
}

/// A list of literals leads to the actor of a list of the actors of these, in their order and
/// without leaving any out.
pub proof fn lemma_list_of_literals(
    depth: nat,
    plan: PlanView,
    e: SpannedExpressionView,
    items: Seq<SpannedExpressionView>,
    literals: Seq<LiteralView>,
    ctx: EvaluationContextView,
)
    requires
        plan.actors.len() + items.len() + 1 <= u64::MAX,
        items.len() < u32::MAX,
        items.len() == literals.len(),
        forall|i: int|
            0 <= i < items.len() ==> (#[trigger] items[i]).node == ExpressionView::Literal(
                literals[i],
            ),
        e.node == (ExpressionView::List { items }),
    ensures
        ({
            let n = plan.actors.len();
            let k = items.len();
            evaluated(depth, plan, e, ctx) matches Ok(done) && {
                &&& done.0.actors.len() == n + k + 1
                &&& forall|i: int|
                    0 <= i < k ==> #[trigger] done.0.actors[n + i].actor == ActorSpecView::Literal(
                        literals[i],
                    )
                &&& done.1 == Some((n + k) as u64)
                &&& done.0.actors[(n + k) as int].actor matches ActorSpecView::List { items: made }
                    && made.len() == k && forall|i: int| 0 <= i < k ==> #[trigger] made[i] == n + i
            }
        }),
{
    let start = allocated(fresh_machine(plan), 1);
    let m = keyed(start, e.persistence);
    let key = key_of(start, e.persistence);
    let k = items.len();
    let slots = slots_from_one(k);
    lemma_slots_from_one(k);
    assert(m.next_slot == 1);
    let item = WorkItemView::BuildList {
        item_slots: slots,
        span: e.span,
        key,
        ctx,
        result_slot: 0,
    };
    let built = pushed(allocated(m, k), item);
    let bound = expr_size(e);
    assert(Seq::new(k, |i: int| slot_at(m.next_slot, i)) =~= slots);
    assert(schedule(depth, start, e, ctx, 0) == schedule_items(
        depth,
        bound,
        built,
        items,
        k,
        1,
        ctx,
    ));
    assert forall|i: int| 0 <= i < items.len() implies (#[trigger] items[i]).node
        == ExpressionView::Literal(literals[i]) && slots[i] == slot_at(1, i) && expr_size(items[i])
        < bound by {
        lemma_item_size(items, k, i);
    }
    lemma_literal_items(depth, bound, built, items, literals, slots, k, 1, ctx);
    let ready = schedule_items(depth, bound, built, items, k, 1, ctx)->Ok_0;
    assert(ready.queue =~= seq![item]);
    let rest = MachineView { queue: Seq::empty(), ..ready };
    let n = plan.actors.len();
    lemma_all_found(rest, slots, k, n as int);
    let spec = ActorSpecView::List { items: Seq::new(k, |i: int| (n + i) as u64) };
    let after = emit(rest, 0, spec, key, e.span, ctx.actor_context);
    assert(process(depth, rest, item) == Ok::<MachineView, Seq<char>>(after));
    lemma_last_step(depth, plan, e, ctx, ready, item, after);
    assert forall|i: int| 0 <= i < k implies #[trigger] after.plan.actors[n + i].actor
        == ActorSpecView::Literal(literals[i]) by {
        assert(after.plan.actors[n + i] == ready.plan.actors[n + i]);
    }
}

/// LATEST of literals leads to LATEST of the actors of these, in their order and without leaving
/// any out.
pub proof fn lemma_latest_of_literals(
    depth: nat,
    plan: PlanView,
    e: SpannedExpressionView,
    inputs: Seq<SpannedExpressionView>,
    literals: Seq<LiteralView>,
    ctx: EvaluationContextView,
)
    requires
        plan.actors.len() + inputs.len() + 1 <= u64::MAX,
        inputs.len() < u32::MAX,
        inputs.len() == literals.len(),
        forall|i: int|
            0 <= i < inputs.len() ==> (#[trigger] inputs[i]).node == ExpressionView::Literal(
                literals[i],
            ),
        e.node == (ExpressionView::Latest { inputs }),
    ensures
        ({
            let n = plan.actors.len();
            let k = inputs.len();
            evaluated(depth, plan, e, ctx) matches Ok(done) && {
                &&& done.0.actors.len() == n + k + 1
                &&& forall|i: int|
                    0 <= i < k ==> #[trigger] done.0.actors[n + i].actor == ActorSpecView::Literal(
                        literals[i],
                    )
                &&& done.1 == Some((n + k) as u64)
                &&& done.0.actors[(n + k) as int].actor matches ActorSpecView::Latest {
                    inputs: made,
                } && made.len() == k && forall|i: int|
                    0 <= i < k ==> #[trigger] made[i] == n + i
            }
        }),
{
    let start = allocated(fresh_machine(plan), 1);
    let m = keyed(start, e.persistence);
    let key = key_of(start, e.persistence);
    let k = inputs.len();
    let slots = slots_from_one(k);
    lemma_slots_from_one(k);
    assert(m.next_slot == 1);
    let item = WorkItemView::BuildLatest {
        input_slots: slots,
        span: e.span,
        key,
        ctx,
        result_slot: 0,
    };
    let built = pushed(allocated(m, k), item);
    let bound = expr_size(e);
    let jobs = Seq::new(k, |i: int| (inputs[i], slot_at(m.next_slot, i)));
    assert(Seq::new(k, |i: int| slot_at(m.next_slot, i)) =~= slots);
    assert(schedule(depth, start, e, ctx, 0) == schedule_jobs(
        depth,
        bound,
        built,
        jobs,
        k,
        ctx,
    ));
    assert forall|i: int| 0 <= i < jobs.len() implies (#[trigger] jobs[i]).0.node
        == ExpressionView::Literal(literals[i]) && jobs[i].1 == slots[i] && expr_size(jobs[i].0)
        < bound by {
        lemma_item_size(inputs, k, i);
        assert(inputs[i].node == ExpressionView::Literal(literals[i]));
    }
    lemma_literal_jobs(depth, bound, built, jobs, literals, slots, k, ctx);
    let ready = schedule_jobs(depth, bound, built, jobs, k, ctx)->Ok_0;
    assert(ready.queue =~= seq![item]);
    let rest = MachineView { queue: Seq::empty(), ..ready };
    let n = plan.actors.len();
    lemma_all_found(rest, slots, k, n as int);
    let spec = ActorSpecView::Latest { inputs: Seq::new(k, |i: int| (n + i) as u64) };
    let after = emit(rest, 0, spec, key, e.span, ctx.actor_context);
    assert(process(depth, rest, item) == Ok::<MachineView, Seq<char>>(after));
    lemma_last_step(depth, plan, e, ctx, ready, item, after);
    assert forall|i: int| 0 <= i < k implies #[trigger] after.plan.actors[n + i].actor
        == ActorSpecView::Literal(literals[i]) by {
        assert(after.plan.actors[n + i] == ready.plan.actors[n + i]);
    }
}

} // verus!
