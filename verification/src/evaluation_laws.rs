//! Why evaluation comes to an end.
use crate::contexts::{in_child_scope, recording_context, with_context};
use crate::evaluation::{
    Job, MINUS_ONE_BITS, argue, arguments_size, binding_operation, build, declare, expr_size,
    finished, is_list_path, items_size, list_append, list_binding, next_step, part_evaluated,
    pipe_steps, piped_machine, process, schedule, schedule_block, schedule_call, schedule_items,
    schedule_jobs, schedule_object, text_parts_step, total_weight, value_jobs, variables_size,
    weight, with_locals, wraps,
};
use crate::evaluation_state::{MachineView, allocated, emit, key_of, keyed, pushed, slot_at};
use crate::expression_view::{
    ExpressionView, LiteralView, SpannedArgumentView, SpannedExpressionView, SpannedVariableView,
    TextPartView,
};
use crate::plan::{ListBindingOperation, PersistenceKey};
use crate::plan_view::{
    ActorContextView, ActorSpecView, EvaluationContextView, ObjectVariableDataView,
    ScopeSegmentView, WorkItemView,
};
use crate::static_expression::{BinaryOpKind, Span};
use vstd::prelude::*;

verus! {

/// Adding a step adds its weight.
pub proof fn lemma_weight_push(queue: Seq<WorkItemView>, item: WorkItemView)
    ensures
        total_weight(queue.push(item)) == total_weight(queue) + weight(item),
{
    assert(queue.push(item).drop_last() =~= queue);
}

/// Adding steps adds their weights.
pub proof fn lemma_weight_append(a: Seq<WorkItemView>, b: Seq<WorkItemView>)
    ensures
        total_weight(a + b) == total_weight(a) + total_weight(b),
    decreases b.len(),
{
    if b.len() == 0 {
        assert(a + b =~= a);
    } else {
        lemma_weight_append(a, b.drop_last());
        assert((a + b).drop_last() =~= a + b.drop_last());
        assert((a + b).last() == b.last());
    }
}

/// A list of expressions is no smaller than one of them.
pub proof fn lemma_item_size(items: Seq<SpannedExpressionView>, n: nat, i: int)
    requires
        0 <= i < n <= items.len(),
    ensures
        expr_size(items[i]) <= items_size(items, n),
    decreases n,
{
    if i < n - 1 {
        lemma_item_size(items, (n - 1) as nat, i);
    }
}

/// Variables are no smaller than the value of one of them.
pub proof fn lemma_variable_size(variables: Seq<SpannedVariableView>, n: nat, i: int)
    requires
        0 <= i < n <= variables.len(),
    ensures
        expr_size(variables[i].node.value) <= variables_size(variables, n),
    decreases n,
{
    if i < n - 1 {
        lemma_variable_size(variables, (n - 1) as nat, i);
    }
}

/// Arguments are larger than the value of one of them.
pub proof fn lemma_argument_size(arguments: Seq<SpannedArgumentView>, n: nat, i: int)
    requires
        0 <= i < n <= arguments.len(),
    ensures
        arguments[i].value is Some ==> expr_size(arguments[i].value->0) < arguments_size(
            arguments,
            n,
        ),
    decreases n,
{
    if i < n - 1 {
        lemma_argument_size(arguments, (n - 1) as nat, i);
    }
}

/// The sizes of the first `n` jobs.
pub open spec fn jobs_size(jobs: Seq<Job>, n: nat) -> nat
    decreases n,
{
    if n == 0 || n > jobs.len() {
        0
    } else {
        jobs_size(jobs, (n - 1) as nat) + expr_size(jobs[n - 1].0)
    }
}

proof fn lemma_jobs_size_prefix(a: Seq<Job>, b: Seq<Job>, n: nat)
    requires
        n <= a.len(),
        n <= b.len(),
        forall|i: int| 0 <= i < n ==> a[i] == b[i],
    ensures
        jobs_size(a, n) == jobs_size(b, n),
    decreases n,
{
    if n > 0 {
        lemma_jobs_size_prefix(a, b, (n - 1) as nat);
    }
}

/// One more job adds its size.
pub proof fn lemma_jobs_size_push(jobs: Seq<Job>, job: Job)
    ensures
        jobs_size(jobs.push(job), jobs.len() + 1) == jobs_size(jobs, jobs.len()) + expr_size(job.0),
{
    lemma_jobs_size_prefix(jobs, jobs.push(job), jobs.len());
}

/// Jobs behind others add their sizes.
pub proof fn lemma_jobs_size_append(a: Seq<Job>, b: Seq<Job>, n: nat)
    requires
        n <= b.len(),
    ensures
        jobs_size(a + b, a.len() + n) == jobs_size(a, a.len()) + jobs_size(b, n),
    decreases n,
{
    if n == 0 {
        lemma_jobs_size_prefix(a, a + b, a.len());
    } else {
        lemma_jobs_size_append(a, b, (n - 1) as nat);
        assert((a + b)[a.len() + n - 1] == b[n - 1]);
    }
}

/// Each of some jobs is no larger than all of them.
pub proof fn lemma_job_size(jobs: Seq<Job>, n: nat, i: int)
    requires
        0 <= i < n <= jobs.len(),
    ensures
        expr_size(jobs[i].0) <= jobs_size(jobs, n),
    decreases n,
{
    if i < n - 1 {
        lemma_job_size(jobs, (n - 1) as nat, i);
    }
}

/// Setting up variables adds no steps, and what is known of them has their order.
pub proof fn lemma_declare_keeps_queue(
    m: MachineView,
    variables: Seq<SpannedVariableView>,
    n: nat,
    ctx: EvaluationContextView,
)
    requires
        n <= variables.len(),
    ensures
        declare(m, variables, n, ctx).m.queue == m.queue,
        declare(m, variables, n, ctx).data.len() == n,
    decreases n,
{
    if n > 0 {
        lemma_declare_keeps_queue(m, variables, (n - 1) as nat, ctx);
    }
}

/// The values of variables that are to be evaluated are no larger than the variables.
pub proof fn lemma_value_jobs_size(
    variables: Seq<SpannedVariableView>,
    data: Seq<ObjectVariableDataView>,
    n: nat,
)
    requires
        n <= variables.len(),
    ensures
        ({
            let first = value_jobs(variables, data, n, Some(false));
            let second = value_jobs(variables, data, n, Some(true));
            let all = value_jobs(variables, data, n, None);
            &&& jobs_size(first, first.len()) + jobs_size(second, second.len()) <= variables_size(
                variables,
                n,
            )
            &&& jobs_size(all, all.len()) <= variables_size(variables, n)
        }),
    decreases n,
{
    if n > 0 {
        lemma_value_jobs_size(variables, data, (n - 1) as nat);
        let d = data[n - 1];
        let job = (variables[n - 1].node.value, d.value_slot);
        lemma_jobs_size_push(value_jobs(variables, data, (n - 1) as nat, Some(false)), job);
        lemma_jobs_size_push(value_jobs(variables, data, (n - 1) as nat, Some(true)), job);
        lemma_jobs_size_push(value_jobs(variables, data, (n - 1) as nat, None), job);
    }
}

/// Setting up arguments adds no steps, and their values and the steps that keep them are no
/// larger than the arguments.
pub proof fn lemma_argue_size(
    m: MachineView,
    arguments: Seq<SpannedArgumentView>,
    n: nat,
    ctx: EvaluationContextView,
    span: Span,
    forward: bool,
)
    requires
        n <= arguments.len(),
    ensures
        match argue(m, arguments, n, ctx, span, forward) {
            Ok(a) => {
                &&& a.m.queue == m.queue
                &&& jobs_size(a.jobs, a.jobs.len()) + a.jobs.len() <= arguments_size(arguments, n)
            },
            Err(_) => true,
        },
    decreases n,
{
    if n > 0 {
        lemma_argue_size(m, arguments, (n - 1) as nat, ctx, span, forward);
        if let Ok(before) = argue(m, arguments, (n - 1) as nat, ctx, span, forward) {
            let arg = arguments[n - 1];
            if let Some(value) = arg.value {
                lemma_jobs_size_push(before.jobs, (value, before.m.next_slot));
            }
        }
    }
}

/// The steps that keep values weigh no more than there are jobs.
pub proof fn lemma_wraps_weight(jobs: Seq<Job>, n: nat, ctx: EvaluationContextView)
    ensures
        total_weight(wraps(jobs, n, ctx)) <= n,
    decreases n,
{
    if n > 0 {
        lemma_wraps_weight(jobs, (n - 1) as nat, ctx);
        let job = jobs[n - 1];
        if job.0.node is Latest && job.0.persistence is Some {
            lemma_weight_push(
                wraps(jobs, (n - 1) as nat, ctx),
                WorkItemView::WrapWithPersistence {
                    source_slot: job.1,
                    persistence_id: job.0.persistence->0,
                    ctx,
                    result_slot: job.1,
                },
            );
        }
    }
}

/// The sizes of the first `n` steps of a chain, with one more for each.
pub open spec fn steps_size(steps: Seq<SpannedExpressionView>, n: nat) -> nat
    decreases n,
{
    if n == 0 || n > steps.len() {
        0
    } else {
        steps_size(steps, (n - 1) as nat) + 1 + expr_size(steps[n - 1])
    }
}

proof fn lemma_steps_size_prefix(
    a: Seq<SpannedExpressionView>,
    b: Seq<SpannedExpressionView>,
    n: nat,
)
    requires
        n <= a.len(),
        n <= b.len(),
        forall|i: int| 0 <= i < n ==> a[i] == b[i],
    ensures
        steps_size(a, n) == steps_size(b, n),
    decreases n,
{
    if n > 0 {
        lemma_steps_size_prefix(a, b, (n - 1) as nat);
    }
}

/// The steps of a chain of pipes are no larger than the chain.
pub proof fn lemma_pipe_steps_size(e: SpannedExpressionView)
    ensures
        pipe_steps(e).len() >= 1,
        e.node is Pipe ==> pipe_steps(e).len() >= 2,
        steps_size(pipe_steps(e), pipe_steps(e).len()) <= 1 + expr_size(e),
    decreases e,
{
    match e.node {
        ExpressionView::Pipe { from, to } => {
            lemma_pipe_steps_size(*from);
            let a = pipe_steps(*from);
            let b = a.push(*to);
            assert(pipe_steps(e) == b);
            lemma_steps_size_prefix(a, b, a.len());
            assert(b[a.len() as int] == *to);
        },
        _ => {
            let one = seq![e];
            assert(pipe_steps(e) == one);
            reveal_with_fuel(steps_size, 2);
        },
    }
}

/// Steps of a chain have a size.
pub proof fn lemma_steps_size_positive(steps: Seq<SpannedExpressionView>)
    ensures
        steps_size(steps, steps.len()) >= steps.len(),
{
    lemma_steps_size_at_least(steps, steps.len());
}

proof fn lemma_steps_size_at_least(steps: Seq<SpannedExpressionView>, n: nat)
    requires
        n <= steps.len(),
    ensures
        steps_size(steps, n) >= n,
    decreases n,
{
    if n > 0 {
        lemma_steps_size_at_least(steps, (n - 1) as nat);
    }
}

/// The first step of a chain and the others.
pub proof fn lemma_steps_size_split(steps: Seq<SpannedExpressionView>, n: nat)
    requires
        1 <= n <= steps.len(),
    ensures
        steps_size(steps, n) == 1 + expr_size(steps[0]) + steps_size(
            steps.skip(1),
            (n - 1) as nat,
        ),
    decreases n,
{
    reveal_with_fuel(steps_size, 2);
    if n > 1 {
        lemma_steps_size_split(steps, (n - 1) as nat);
        assert(steps.skip(1)[n - 2] == steps[n - 1]);
    }
}

/// The steps of a chain weigh as much as their sizes, with one more for each.
pub proof fn lemma_piped_weight(
    m: MachineView,
    rest: Seq<SpannedExpressionView>,
    ctx: EvaluationContextView,
    slot: u32,
)
    ensures
        total_weight(piped_machine(m, rest, ctx, slot).queue) == total_weight(m.queue)
            + steps_size(rest, rest.len()),
{
    let n = rest.len();
    let base = m.next_slot;
    let items = Seq::new(
        n,
        |j: int|
            WorkItemView::EvaluateWithPiped {
                expr: rest[n - 1 - j],
                prev_slot: slot_at(base, n - 1 - j),
                ctx,
                result_slot: if j == 0 {
                    slot
                } else {
                    slot_at(base, n - j)
                },
            },
    );
    assert(piped_machine(m, rest, ctx, slot).queue =~= m.queue + items);
    lemma_weight_append(m.queue, items);
    lemma_reversed_weight(rest, items, n);
    assert(items.take(n as int) =~= items);
    assert(steps_size(rest, 0) == 0);
}

proof fn lemma_reversed_weight(
    rest: Seq<SpannedExpressionView>,
    items: Seq<WorkItemView>,
    k: nat,
)
    requires
        items.len() == rest.len(),
        k <= rest.len(),
        forall|j: int|
            0 <= j < items.len() ==> weight(#[trigger] items[j]) == 1 + expr_size(
                rest[rest.len() - 1 - j],
            ),
    ensures
        total_weight(items.take(k as int)) + steps_size(rest, (rest.len() - k) as nat)
            == steps_size(rest, rest.len()),
    decreases k,
{
    if k == 0 {
        assert(items.take(0).len() == 0);
    } else {
        lemma_reversed_weight(rest, items, (k - 1) as nat);
        assert(items.take(k as int).drop_last() =~= items.take(k - 1));
        assert(items.take(k as int).last() == items[k - 1]);
    }
}

/// Every job of the arguments is smaller than the call.
pub proof fn lemma_argue_jobs_bounded(
    m: MachineView,
    arguments: Seq<SpannedArgumentView>,
    ctx: EvaluationContextView,
    span: Span,
    forward: bool,
    i: int,
)
    ensures
        match argue(m, arguments, arguments.len(), ctx, span, forward) {
            Ok(a) => 0 <= i < a.jobs.len() ==> expr_size(a.jobs[i].0) < 2 + arguments_size(
                arguments,
                arguments.len(),
            ),
            Err(_) => true,
        },
{
    lemma_argue_size(m, arguments, arguments.len(), ctx, span, forward);
    if let Ok(a) = argue(m, arguments, arguments.len(), ctx, span, forward) {
        if 0 <= i < a.jobs.len() {
            lemma_job_size(a.jobs, a.jobs.len(), i);
        }
    }
}

proof fn lemma_text_parts_keep_queue(
    m: MachineView,
    parts: Seq<TextPartView>,
    n: nat,
    key: PersistenceKey,
    span: Span,
    ctx: EvaluationContextView,
)
    ensures
        match text_parts_step(m, parts, n, key, span, ctx) {
            Ok(done) => done.0.queue == m.queue,
            Err(_) => true,
        },
    decreases n,
{
    if n > 0 {
        lemma_text_parts_keep_queue(m, parts, (n - 1) as nat, key, span, ctx);
    }
}

proof fn lemma_build_keeps_queue(
    m: MachineView,
    data: Seq<ObjectVariableDataView>,
    n: nat,
    ctx: EvaluationContextView,
)
    ensures
        build(m, data, n, ctx).m.queue == m.queue,
    decreases n,
{
    if n > 0 {
        lemma_build_keeps_queue(m, data, (n - 1) as nat, ctx);
    }
}

proof fn lemma_jobs_weight(
    depth: nat,
    bound: nat,
    m: MachineView,
    jobs: Seq<Job>,
    n: nat,
    ctx: EvaluationContextView,
)
    requires
        n <= jobs.len(),
    ensures
        match schedule_jobs(depth, bound, m, jobs, n, ctx) {
            Ok(after) => total_weight(after.queue) <= total_weight(m.queue) + jobs_size(jobs, n),
            Err(_) => true,
        },
    decreases depth, bound, 0nat, n,
{
    if n > 0 {
        lemma_jobs_weight(depth, bound, m, jobs, (n - 1) as nat, ctx);
        if let Ok(before) = schedule_jobs(depth, bound, m, jobs, (n - 1) as nat, ctx) {
            if expr_size(jobs[n - 1].0) < bound {
                lemma_schedule_weight(depth, before, jobs[n - 1].0, ctx, jobs[n - 1].1);
            }
        }
    }
}

proof fn lemma_items_weight(
    depth: nat,
    bound: nat,
    m: MachineView,
    items: Seq<SpannedExpressionView>,
    n: nat,
    base: u32,
    ctx: EvaluationContextView,
)
    requires
        n <= items.len(),
    ensures
        match schedule_items(depth, bound, m, items, n, base, ctx) {
            Ok(after) => total_weight(after.queue) <= total_weight(m.queue) + items_size(items, n),
            Err(_) => true,
        },
    decreases depth, bound, 0nat, n,
{
    if n > 0 {
        lemma_items_weight(depth, bound, m, items, (n - 1) as nat, base, ctx);
        if let Ok(before) = schedule_items(
            depth,
            bound,
            m,
            items,
            (n - 1) as nat,
            base,
            ctx,
        ) {
            let item = items[n - 1];
            let segment = ScopeSegmentView::ListItem {
                index: (n - 1) as u64,
                key: key_of(before, item.persistence),
            };
            let item_ctx = with_context(ctx, in_child_scope(ctx.actor_context, segment));
            if expr_size(item) < bound {
                lemma_schedule_weight(
                    depth,
                    keyed(before, item.persistence),
                    item,
                    item_ctx,
                    slot_at(base, n - 1),
                );
            }
        }
    }
}

proof fn lemma_call_weight(
    depth: nat,
    bound: nat,
    m: MachineView,
    path: Seq<Seq<char>>,
    arguments: Seq<SpannedArgumentView>,
    span: Span,
    key: PersistenceKey,
    ctx: EvaluationContextView,
    slot: u32,
    forward: bool,
)
    ensures
        match schedule_call(
            depth,
            bound,
            m,
            path,
            arguments,
            span,
            key,
            ctx,
            slot,
            forward,
        ) {
            Ok(after) => total_weight(after.queue) <= total_weight(m.queue) + 2 + arguments_size(
                arguments,
                arguments.len(),
            ),
            Err(_) => true,
        },
    decreases depth, bound, 1nat, 0nat,
{
    lemma_argue_size(m, arguments, arguments.len(), ctx, span, forward);
    if let Ok(a) = argue(m, arguments, arguments.len(), ctx, span, forward) {
        let job_ctx = if forward {
            with_locals(ctx, a.locals)
        } else {
            ctx
        };
        let item = WorkItemView::CallFunction {
            path,
            arg_slots: a.slots,
            passed_slot: a.passed_slot,
            passed_context: a.passed_context,
            use_piped_for_builtin: !forward,
            span,
            key,
            ctx,
            result_slot: slot,
        };
        let called = pushed(a.m, item);
        lemma_weight_push(a.m.queue, item);
        let connect = WorkItemView::ConnectForwardingActors { connections: a.connections };
        let connected = if a.connections.len() > 0 {
            pushed(called, connect)
        } else {
            called
        };
        lemma_weight_push(called.queue, connect);
        let more = wraps(a.jobs, a.jobs.len(), job_ctx);
        lemma_wraps_weight(a.jobs, a.jobs.len(), job_ctx);
        lemma_weight_append(connected.queue, more);
        let wrapped = if forward {
            MachineView { queue: connected.queue + more, ..connected }
        } else {
            connected
        };
        lemma_jobs_weight(depth, bound, wrapped, a.jobs, a.jobs.len(), job_ctx);
    }
}

proof fn lemma_object_weight(
    depth: nat,
    bound: nat,
    m: MachineView,
    tag: Option<Seq<char>>,
    variables: Seq<SpannedVariableView>,
    span: Span,
    key: PersistenceKey,
    ctx: EvaluationContextView,
    slot: u32,
)
    ensures
        match schedule_object(depth, bound, m, tag, variables, span, key, ctx, slot) {
            Ok(after) => total_weight(after.queue) <= total_weight(m.queue) + 1 + variables_size(
                variables,
                variables.len(),
            ),
            Err(_) => true,
        },
    decreases depth, bound, 1nat, 0nat,
{
    lemma_declare_keeps_queue(m, variables, variables.len(), ctx);
    let d = declare(m, variables, variables.len(), ctx);
    let inner = with_locals(ctx, d.locals);
    let item = match tag {
        None => WorkItemView::BuildObject {
            variable_data: d.data,
            span,
            key,
            ctx: inner,
            result_slot: slot,
        },
        Some(tag) => WorkItemView::BuildTaggedObject {
            tag,
            variable_data: d.data,
            span,
            key,
            ctx: inner,
            result_slot: slot,
        },
    };
    let first = value_jobs(variables, d.data, variables.len(), Some(false));
    let second = value_jobs(variables, d.data, variables.len(), Some(true));
    let jobs = first + second;
    lemma_weight_push(d.m.queue, item);
    lemma_value_jobs_size(variables, d.data, variables.len());
    lemma_jobs_size_append(first, second, second.len());
    lemma_jobs_weight(depth, bound, pushed(d.m, item), jobs, jobs.len(), inner);
}

proof fn lemma_block_weight(
    depth: nat,
    bound: nat,
    m: MachineView,
    variables: Seq<SpannedVariableView>,
    output: SpannedExpressionView,
    span: Span,
    key: PersistenceKey,
    ctx: EvaluationContextView,
    slot: u32,
)
    ensures
        match schedule_block(depth, bound, m, variables, output, span, key, ctx, slot) {
            Ok(after) => total_weight(after.queue) <= total_weight(m.queue) + 2 + variables_size(
                variables,
                variables.len(),
            ) + expr_size(output),
            Err(_) => true,
        },
    decreases depth, bound, 1nat, 0nat,
{
    let object_slot = m.next_slot;
    let output_slot = slot_at(m.next_slot, 1);
    lemma_declare_keeps_queue(allocated(m, 2), variables, variables.len(), ctx);
    let d = declare(allocated(m, 2), variables, variables.len(), ctx);
    let inner = with_context(
        ctx,
        ActorContextView {
            object_locals: d.locals,
            is_snapshot_context: false,
            ..ctx.actor_context
        },
    );
    let frame = WorkItemView::BuildBlock { object_slot, output_slot, result_slot: slot };
    let framed = pushed(d.m, frame);
    lemma_weight_push(d.m.queue, frame);
    let out_jobs = seq![(output, output_slot)];
    lemma_jobs_weight(depth, bound, framed, out_jobs, 1, inner);
    reveal_with_fuel(jobs_size, 2);
    if let Ok(after) = schedule_jobs(depth, bound, framed, out_jobs, 1, inner) {
        let item = WorkItemView::BuildObject {
            variable_data: d.data,
            span,
            key,
            ctx: inner,
            result_slot: object_slot,
        };
        let built = pushed(after, item);
        lemma_weight_push(after.queue, item);
        let jobs = value_jobs(variables, d.data, variables.len(), None);
        lemma_value_jobs_size(variables, d.data, variables.len());
        lemma_jobs_weight(depth, bound, built, jobs, jobs.len(), inner);
    }
}

proof fn lemma_latest_jobs_size(inputs: Seq<SpannedExpressionView>, base: u32, n: nat)
    requires
        n <= inputs.len(),
    ensures
        jobs_size(Seq::new(inputs.len(), |i: int| (inputs[i], slot_at(base, i))), n) == items_size(
            inputs,
            n,
        ),
    decreases n,
{
    if n > 0 {
        lemma_latest_jobs_size(inputs, base, (n - 1) as nat);
    }
}

proof fn lemma_part_keeps_queue(
    depth: nat,
    bound: nat,
    m: MachineView,
    e: SpannedExpressionView,
    ctx: EvaluationContextView,
)
    ensures
        match part_evaluated(depth, bound, m, e, ctx) {
            Ok(done) => done.0.queue == m.queue,
            Err(_) => true,
        },
{
}

proof fn lemma_list_calls_keep_queue(
    depth: nat,
    bound: nat,
    m: MachineView,
    name: Seq<char>,
    operation: ListBindingOperation,
    arguments: Seq<SpannedArgumentView>,
    key: PersistenceKey,
    span: Span,
    ctx: EvaluationContextView,
)
    ensures
        match list_binding(depth, bound, m, name, operation, arguments, key, span, ctx) {
            Ok(done) => done.0.queue == m.queue,
            Err(_) => true,
        },
        match list_append(depth, bound, m, arguments, key, span, ctx) {
            Ok(done) => done.0.queue == m.queue,
            Err(_) => true,
        },
{
    if arguments.len() > 0 {
        if let Some(value) = arguments[0].value {
            let item_ctx = with_context(ctx, recording_context(ctx.actor_context, span));
            lemma_part_keeps_queue(depth, bound, m, value, ctx);
            lemma_part_keeps_queue(depth, bound, m, value, item_ctx);
        }
    }
}

proof fn lemma_schedule_list_weight(
    depth: nat,
    start: MachineView,
    e: SpannedExpressionView,
    ctx: EvaluationContextView,
    slot: u32,
)
    requires
        e.node is List,
    ensures
        match schedule(depth, start, e, ctx, slot) {
            Ok(after) => total_weight(after.queue) <= total_weight(start.queue) + expr_size(e),
            Err(_) => true,
        },
    decreases depth, expr_size(e), 2nat, 0nat,
{
    let key = key_of(start, e.persistence);
    let m = keyed(start, e.persistence);
    let span = e.span;
    let context = ctx.actor_context;
    let bound = expr_size(e);
    assert(m.queue == start.queue);
    if let ExpressionView::List { items } = e.node {
        let slots = Seq::new(items.len(), |i: int| slot_at(m.next_slot, i));
        let item = WorkItemView::BuildList {
            item_slots: slots,
            span,
            key,
            ctx,
            result_slot: slot,
        };
        lemma_weight_push(m.queue, item);
        lemma_items_weight(
            depth,
            bound,
            pushed(allocated(m, items.len()), item),
            items,
            items.len(),
            m.next_slot,
            ctx,
        );
    }
}

proof fn lemma_schedule_operator_weight(
    depth: nat,
    start: MachineView,
    e: SpannedExpressionView,
    ctx: EvaluationContextView,
    slot: u32,
)
    requires
        e.node is Operator,
    ensures
        match schedule(depth, start, e, ctx, slot) {
            Ok(after) => total_weight(after.queue) <= total_weight(start.queue) + expr_size(e),
            Err(_) => true,
        },
    decreases depth, expr_size(e), 2nat, 0nat,
{
    let key = key_of(start, e.persistence);
    let m = keyed(start, e.persistence);
    let span = e.span;
    let context = ctx.actor_context;
    let bound = expr_size(e);
    assert(m.queue == start.queue);
    if let ExpressionView::Operator { op, operand_a, operand_b } = e.node {
        let a_slot = m.next_slot;
        let b_slot = slot_at(m.next_slot, 1);
        let item = WorkItemView::BinaryOp {
            op,
            operand_a_slot: a_slot,
            operand_b_slot: b_slot,
            span,
            key,
            ctx,
            result_slot: slot,
        };
        lemma_weight_push(m.queue, item);
        let jobs = seq![(*operand_a, a_slot), (*operand_b, b_slot)];
        reveal_with_fuel(jobs_size, 3);
        lemma_jobs_weight(depth, bound, pushed(allocated(m, 2), item), jobs, 2, ctx);
    }
}

proof fn lemma_schedule_negate_weight(
    depth: nat,
    start: MachineView,
    e: SpannedExpressionView,
    ctx: EvaluationContextView,
    slot: u32,
)
    requires
        e.node is Negate,
    ensures
        match schedule(depth, start, e, ctx, slot) {
            Ok(after) => total_weight(after.queue) <= total_weight(start.queue) + expr_size(e),
            Err(_) => true,
        },
    decreases depth, expr_size(e), 2nat, 0nat,
{
    let key = key_of(start, e.persistence);
    let m = keyed(start, e.persistence);
    let span = e.span;
    let context = ctx.actor_context;
    let bound = expr_size(e);
    assert(m.queue == start.queue);
    if let ExpressionView::Negate { operand } = e.node {
        let minus_slot = m.next_slot;
        let operand_slot = slot_at(m.next_slot, 1);
        let minus = emit(
            allocated(m, 2),
            minus_slot,
            ActorSpecView::Literal(LiteralView::Number(MINUS_ONE_BITS)),
            key,
            span,
            context,
        );
        let item = WorkItemView::BinaryOp {
            op: BinaryOpKind::Multiply,
            operand_a_slot: minus_slot,
            operand_b_slot: operand_slot,
            span,
            key,
            ctx,
            result_slot: slot,
        };
        let jobs = seq![(*operand, operand_slot)];
        reveal_with_fuel(jobs_size, 2);
        lemma_weight_push(minus.queue, item);
        lemma_jobs_weight(depth, bound, pushed(minus, item), jobs, 1, ctx);
    }
}

proof fn lemma_schedule_hold_weight(
    depth: nat,
    start: MachineView,
    e: SpannedExpressionView,
    ctx: EvaluationContextView,
    slot: u32,
)
    requires
        e.node is Hold,
    ensures
        match schedule(depth, start, e, ctx, slot) {
            Ok(after) => total_weight(after.queue) <= total_weight(start.queue) + expr_size(e),
            Err(_) => true,
        },
    decreases depth, expr_size(e), 2nat, 0nat,
{
    let key = key_of(start, e.persistence);
    let m = keyed(start, e.persistence);
    let span = e.span;
    let context = ctx.actor_context;
    let bound = expr_size(e);
    assert(m.queue == start.queue);
    if let ExpressionView::Hold { state_param, body } = e.node {
        lemma_weight_push(
            m.queue,
            WorkItemView::BuildHold {
                initial_slot: m.next_slot,
                state_param,
                body: *body,
                span,
                key,
                ctx,
                result_slot: slot,
            },
        );
    }
}

proof fn lemma_schedule_pipe_weight(
    depth: nat,
    start: MachineView,
    e: SpannedExpressionView,
    ctx: EvaluationContextView,
    slot: u32,
)
    requires
        e.node is Pipe,
    ensures
        match schedule(depth, start, e, ctx, slot) {
            Ok(after) => total_weight(after.queue) <= total_weight(start.queue) + expr_size(e),
            Err(_) => true,
        },
    decreases depth, expr_size(e), 2nat, 0nat,
{
    let key = key_of(start, e.persistence);
    let m = keyed(start, e.persistence);
    let span = e.span;
    let context = ctx.actor_context;
    let bound = expr_size(e);
    assert(m.queue == start.queue);
    if let ExpressionView::Pipe { .. } = e.node {
        let steps = pipe_steps(e);
        lemma_pipe_steps_size(e);
        lemma_steps_size_split(steps, steps.len());
        lemma_piped_weight(m, steps.skip(1), ctx, slot);
        let jobs = seq![(steps[0], m.next_slot)];
        reveal_with_fuel(jobs_size, 2);
        lemma_jobs_weight(
            depth,
            bound,
            piped_machine(m, steps.skip(1), ctx, slot),
            jobs,
            1,
            ctx,
        );
    }
}

proof fn lemma_schedule_block_weight(
    depth: nat,
    start: MachineView,
    e: SpannedExpressionView,
    ctx: EvaluationContextView,
    slot: u32,
)
    requires
        e.node is Block,
    ensures
        match schedule(depth, start, e, ctx, slot) {
            Ok(after) => total_weight(after.queue) <= total_weight(start.queue) + expr_size(e),
            Err(_) => true,
        },
    decreases depth, expr_size(e), 2nat, 0nat,
{
    let key = key_of(start, e.persistence);
    let m = keyed(start, e.persistence);
    let span = e.span;
    let context = ctx.actor_context;
    let bound = expr_size(e);
    assert(m.queue == start.queue);
    if let ExpressionView::Block { variables, output } = e.node {
        lemma_block_weight(
            depth,
            bound,
            m,
            variables,
            *output,
            span,
            key,
            ctx,
            slot,
        );
    }
}

proof fn lemma_schedule_object_weight(
    depth: nat,
    start: MachineView,
    e: SpannedExpressionView,
    ctx: EvaluationContextView,
    slot: u32,
)
    requires
        e.node is Object,
    ensures
        match schedule(depth, start, e, ctx, slot) {
            Ok(after) => total_weight(after.queue) <= total_weight(start.queue) + expr_size(e),
            Err(_) => true,
        },
    decreases depth, expr_size(e), 2nat, 0nat,
{
    let key = key_of(start, e.persistence);
    let m = keyed(start, e.persistence);
    let span = e.span;
    let context = ctx.actor_context;
    let bound = expr_size(e);
    assert(m.queue == start.queue);
    if let ExpressionView::Object { variables } = e.node {
        lemma_object_weight(depth, bound, m, None, variables, span, key, ctx, slot);
    }
}

proof fn lemma_schedule_tagged_object_weight(
    depth: nat,
    start: MachineView,
    e: SpannedExpressionView,
    ctx: EvaluationContextView,
    slot: u32,
)
    requires
        e.node is TaggedObject,
    ensures
        match schedule(depth, start, e, ctx, slot) {
            Ok(after) => total_weight(after.queue) <= total_weight(start.queue) + expr_size(e),
            Err(_) => true,
        },
    decreases depth, expr_size(e), 2nat, 0nat,
{
    let key = key_of(start, e.persistence);
    let m = keyed(start, e.persistence);
    let span = e.span;
    let context = ctx.actor_context;
    let bound = expr_size(e);
    assert(m.queue == start.queue);
    if let ExpressionView::TaggedObject { tag, variables } = e.node {
        lemma_object_weight(
            depth,
            bound,
            m,
            Some(tag),
            variables,
            span,
            key,
            ctx,
            slot,
        );
    }
}

proof fn lemma_schedule_latest_weight(
    depth: nat,
    start: MachineView,
    e: SpannedExpressionView,
    ctx: EvaluationContextView,
    slot: u32,
)
    requires
        e.node is Latest,
    ensures
        match schedule(depth, start, e, ctx, slot) {
            Ok(after) => total_weight(after.queue) <= total_weight(start.queue) + expr_size(e),
            Err(_) => true,
        },
    decreases depth, expr_size(e), 2nat, 0nat,
{
    let key = key_of(start, e.persistence);
    let m = keyed(start, e.persistence);
    let span = e.span;
    let context = ctx.actor_context;
    let bound = expr_size(e);
    assert(m.queue == start.queue);
    if let ExpressionView::Latest { inputs } = e.node {
        let slots = Seq::new(inputs.len(), |i: int| slot_at(m.next_slot, i));
        let item = WorkItemView::BuildLatest {
            input_slots: slots,
            span,
            key,
            ctx,
            result_slot: slot,
        };
        lemma_weight_push(m.queue, item);
        let jobs = Seq::new(inputs.len(), |i: int| (inputs[i], slot_at(m.next_slot, i)));
        lemma_latest_jobs_size(inputs, m.next_slot, inputs.len());
        lemma_jobs_weight(
            depth,
            bound,
            pushed(allocated(m, inputs.len()), item),
            jobs,
            jobs.len(),
            ctx,
        );
    }
}

proof fn lemma_schedule_function_call_weight(
    depth: nat,
    start: MachineView,
    e: SpannedExpressionView,
    ctx: EvaluationContextView,
    slot: u32,
)
    requires
        e.node is FunctionCall,
    ensures
        match schedule(depth, start, e, ctx, slot) {
            Ok(after) => total_weight(after.queue) <= total_weight(start.queue) + expr_size(e),
            Err(_) => true,
        },
    decreases depth, expr_size(e), 2nat, 0nat,
{
    let key = key_of(start, e.persistence);
    let m = keyed(start, e.persistence);
    let span = e.span;
    let context = ctx.actor_context;
    let bound = expr_size(e);
    assert(m.queue == start.queue);
    if let ExpressionView::FunctionCall { path, arguments } = e.node {
        let operation = match binding_operation(path) {
            Some(operation) => operation,
            None => ListBindingOperation::Transform,
        };
        lemma_list_calls_keep_queue(
            depth,
            bound,
            m,
            path[1],
            operation,
            arguments,
            key,
            span,
            ctx,
        );
        if binding_operation(path) is None && !is_list_path(path, "append"@) {
            lemma_call_weight(
                depth,
                bound,
                m,
                path,
                arguments,
                span,
                key,
                ctx,
                slot,
                true,
            );
        }
    }
}

proof fn lemma_schedule_text_literal_weight(
    depth: nat,
    start: MachineView,
    e: SpannedExpressionView,
    ctx: EvaluationContextView,
    slot: u32,
)
    requires
        e.node is TextLiteral,
    ensures
        match schedule(depth, start, e, ctx, slot) {
            Ok(after) => total_weight(after.queue) <= total_weight(start.queue) + expr_size(e),
            Err(_) => true,
        },
    decreases depth, expr_size(e), 2nat, 0nat,
{
    let key = key_of(start, e.persistence);
    let m = keyed(start, e.persistence);
    let span = e.span;
    let context = ctx.actor_context;
    let bound = expr_size(e);
    assert(m.queue == start.queue);
    if let ExpressionView::TextLiteral { parts } = e.node {
        lemma_text_parts_keep_queue(m, parts, parts.len(), key, span, ctx);
    }
}

proof fn lemma_schedule_simple_weight(
    depth: nat,
    start: MachineView,
    e: SpannedExpressionView,
    ctx: EvaluationContextView,
    slot: u32,
)
    requires
        !(e.node is List),
        !(e.node is Operator),
        !(e.node is Negate),
        !(e.node is Hold),
        !(e.node is Pipe),
        !(e.node is Block),
        !(e.node is Object),
        !(e.node is TaggedObject),
        !(e.node is Latest),
        !(e.node is FunctionCall),
        !(e.node is TextLiteral),
    ensures
        match schedule(depth, start, e, ctx, slot) {
            Ok(after) => total_weight(after.queue) <= total_weight(start.queue) + expr_size(e),
            Err(_) => true,
        },
{
    assert(keyed(start, e.persistence).queue == start.queue);
}

/// Scheduling an expression adds steps that weigh no more than its size.
pub proof fn lemma_schedule_weight(
    depth: nat,
    start: MachineView,
    e: SpannedExpressionView,
    ctx: EvaluationContextView,
    slot: u32,
)
    ensures
        match schedule(depth, start, e, ctx, slot) {
            Ok(after) => total_weight(after.queue) <= total_weight(start.queue) + expr_size(e),
            Err(_) => true,
        },
    decreases depth, expr_size(e), 3nat, 0nat,
{
    match e.node {
        ExpressionView::List { .. } => {
            lemma_schedule_list_weight(depth, start, e, ctx, slot);
        },
        ExpressionView::Operator { .. } => {
            lemma_schedule_operator_weight(depth, start, e, ctx, slot);
        },
        ExpressionView::Negate { .. } => {
            lemma_schedule_negate_weight(depth, start, e, ctx, slot);
        },
        ExpressionView::Hold { .. } => {
            lemma_schedule_hold_weight(depth, start, e, ctx, slot);
        },
        ExpressionView::Pipe { .. } => {
            lemma_schedule_pipe_weight(depth, start, e, ctx, slot);
        },
        ExpressionView::Block { .. } => {
            lemma_schedule_block_weight(depth, start, e, ctx, slot);
        },
        ExpressionView::Object { .. } => {
            lemma_schedule_object_weight(depth, start, e, ctx, slot);
        },
        ExpressionView::TaggedObject { .. } => {
            lemma_schedule_tagged_object_weight(depth, start, e, ctx, slot);
        },
        ExpressionView::Latest { .. } => {
            lemma_schedule_latest_weight(depth, start, e, ctx, slot);
        },
        ExpressionView::FunctionCall { .. } => {
            lemma_schedule_function_call_weight(depth, start, e, ctx, slot);
        },
        ExpressionView::TextLiteral { .. } => {
            lemma_schedule_text_literal_weight(depth, start, e, ctx, slot);
        },
        _ => {
            lemma_schedule_simple_weight(depth, start, e, ctx, slot);
        },
    }
}

/// A step leaves less work behind than it was.
pub proof fn lemma_process_weight(depth: nat, m: MachineView, item: WorkItemView)
    ensures
        match process(depth, m, item) {
            Ok(after) => total_weight(after.queue) < total_weight(m.queue) + weight(item),
            Err(_) => true,
        },
{
    match item {
        WorkItemView::Evaluate { expr, ctx, result_slot } => {
            lemma_schedule_weight(depth, m, expr, ctx, result_slot);
        },
        WorkItemView::BuildObject { variable_data, ctx, .. } => {
            lemma_build_keeps_queue(m, variable_data, variable_data.len(), ctx);
        },
        WorkItemView::BuildTaggedObject { variable_data, ctx, .. } => {
            lemma_build_keeps_queue(m, variable_data, variable_data.len(), ctx);
        },
        WorkItemView::EvaluateWithPiped { expr, prev_slot, ctx, result_slot } => {
            if m.results.contains_key(prev_slot) {
                let piped = m.results[prev_slot];
                let inner = with_context(
                    ctx,
                    ActorContextView { piped: Some(piped), ..ctx.actor_context },
                );
                lemma_schedule_weight(depth, m, expr, inner, result_slot);
                if let ExpressionView::FunctionCall { path, arguments } = expr.node {
                    lemma_call_weight(
                        depth,
                        expr_size(expr),
                        keyed(m, expr.persistence),
                        path,
                        arguments,
                        expr.span,
                        key_of(m, expr.persistence),
                        inner,
                        result_slot,
                        false,
                    );
                }
            }
        },
        _ => {},
    }
}

/// A machine without steps is done.
pub proof fn lemma_nothing_to_do(depth: nat, m: MachineView)
    requires
        m.queue.len() == 0,
    ensures
        finished(depth, m) == Ok::<MachineView, Seq<char>>(m),
{
    reveal(finished);
}

/// Doing all steps is doing the last one and then the others, which weigh less.
pub proof fn lemma_step_by_step(depth: nat, m: MachineView)
    requires
        m.queue.len() > 0,
    ensures
        match next_step(depth, m) {
            Err(message) => finished(depth, m) == Err::<MachineView, Seq<char>>(message),
            Ok(after) => total_weight(after.queue) < total_weight(m.queue) && finished(depth, m)
                == finished(depth, after),
        },
{
    reveal(finished);
    reveal(next_step);
    let rest = MachineView { queue: m.queue.drop_last(), ..m };
    lemma_process_weight(depth, rest, m.queue.last());
}

pub(crate) proof fn lemma_jobs_error(
    depth: nat,
    bound: nat,
    m: MachineView,
    jobs: Seq<Job>,
    i: nat,
    n: nat,
    ctx: EvaluationContextView,
    e: Seq<char>,
)
    requires
        i <= n,
        schedule_jobs(depth, bound, m, jobs, i, ctx) == Err::<MachineView, Seq<char>>(e),
    ensures
        schedule_jobs(depth, bound, m, jobs, n, ctx) == Err::<MachineView, Seq<char>>(e),
    decreases n,
{
    if i < n {
        lemma_jobs_error(depth, bound, m, jobs, i, (n - 1) as nat, ctx, e);
    }
}

pub(crate) proof fn lemma_items_error(
    depth: nat,
    bound: nat,
    m: MachineView,
    items: Seq<SpannedExpressionView>,
    i: nat,
    n: nat,
    base: u32,
    ctx: EvaluationContextView,
    e: Seq<char>,
)
    requires
        i <= n,
        schedule_items(depth, bound, m, items, i, base, ctx) == Err::<MachineView, Seq<char>>(e),
    ensures
        schedule_items(depth, bound, m, items, n, base, ctx) == Err::<MachineView, Seq<char>>(e),
    decreases n,
{
    if i < n {
        lemma_items_error(depth, bound, m, items, i, (n - 1) as nat, base, ctx, e);
    }
}

} // verus!
