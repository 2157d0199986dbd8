//! That each step of an evaluation fills slots of its own, and that what a step reads is there
//! for good when the step is done.
use crate::contexts::{in_child_scope, with_context};
use crate::evaluation::{
    Job, MINUS_ONE_BITS, Step, argue, arguments_size, binding_operation, build, call, declare,
    evaluated, expr_size, found_arguments, is_list_path, items_size, list_append, list_binding,
    next_step, pipe_steps, piped_machine, process, run_queue, schedule, schedule_block,
    schedule_call, schedule_items, schedule_jobs, schedule_object, text_parts_step, total_weight,
    value_jobs, variables_size, with_locals, wraps,
};
use crate::evaluation_laws::{
    jobs_size, lemma_argue_size, lemma_jobs_size_append, lemma_jobs_size_push,
    lemma_pipe_steps_size, lemma_schedule_weight, steps_size,
};
use crate::evaluation_state::{
    MachineView, allocated, emit, fresh_machine, key_of, keyed, pushed, slot_at, stored,
};
use crate::expression_view::{
    ExpressionView, LiteralView, SpannedArgumentView, SpannedExpressionView, SpannedVariableView,
    TextPartView,
};
use crate::plan::{ListBindingOperation, PersistenceKey};
use crate::plan_growth::starts_as;
use crate::plan_view::{
    ActorContextView, ActorSpecView, EvaluationContextView, ObjectVariableDataView, PlanView,
    ScopeSegmentView, WorkItemView,
};
use crate::static_expression::{BinaryOpKind, Literal, Span, Variable};
use vstd::prelude::*;

verus! {

/// The slot that a step fills.
pub open spec fn slot_written(item: WorkItemView) -> Option<u32> {
    match item {
        WorkItemView::Evaluate { result_slot, .. } => Some(result_slot),
        WorkItemView::BinaryOp { result_slot, .. } => Some(result_slot),
        WorkItemView::BuildList { result_slot, .. } => Some(result_slot),
        WorkItemView::BuildObject { result_slot, .. } => Some(result_slot),
        WorkItemView::BuildTaggedObject { result_slot, .. } => Some(result_slot),
        WorkItemView::BuildLatest { result_slot, .. } => Some(result_slot),
        WorkItemView::BuildThen { result_slot, .. } => Some(result_slot),
        WorkItemView::BuildWhen { result_slot, .. } => Some(result_slot),
        WorkItemView::BuildWhile { result_slot, .. } => Some(result_slot),
        WorkItemView::BuildHold { result_slot, .. } => Some(result_slot),
        WorkItemView::BuildBlock { result_slot, .. } => Some(result_slot),
        WorkItemView::EvaluateWithPiped { result_slot, .. } => Some(result_slot),
        WorkItemView::CallFunction { result_slot, .. } => Some(result_slot),
        WorkItemView::ConnectForwardingActors { .. } => None,
        WorkItemView::WrapWithPersistence { result_slot, .. } => Some(result_slot),
    }
}

/// Whether a step reads a slot: those of its operands, items, inputs, variables and arguments.
pub open spec fn slot_read(item: WorkItemView, s: u32) -> bool {
    match item {
        WorkItemView::BinaryOp { operand_a_slot, operand_b_slot, .. } => s == operand_a_slot || s
            == operand_b_slot,
        WorkItemView::BuildList { item_slots, .. } => item_slots.contains(s),
        WorkItemView::BuildLatest { input_slots, .. } => input_slots.contains(s),
        WorkItemView::BuildObject { variable_data, .. } => data_slot(variable_data, s),
        WorkItemView::BuildTaggedObject { variable_data, .. } => data_slot(variable_data, s),
        WorkItemView::BuildHold { initial_slot, .. } => s == initial_slot,
        WorkItemView::BuildBlock { object_slot, output_slot, .. } => s == object_slot || s
            == output_slot,
        WorkItemView::EvaluateWithPiped { prev_slot, .. } => s == prev_slot,
        WorkItemView::CallFunction { arg_slots, passed_context, .. } => passed_context == Some(s)
            || exists|i: int| 0 <= i < arg_slots.len() && (#[trigger] arg_slots[i]).slot == s,
        WorkItemView::ConnectForwardingActors { connections } => exists|i: int|
            0 <= i < connections.len() && (#[trigger] connections[i]).slot == s,
        WorkItemView::WrapWithPersistence { source_slot, .. } => s == source_slot,
        _ => false,
    }
}

/// Whether a slot is that of the value of a variable.
pub open spec fn data_slot(data: Seq<ObjectVariableDataView>, s: u32) -> bool {
    exists|i: int| 0 <= i < data.len() && (#[trigger] data[i]).value_slot == s
}

/// How many slots a step can still lead to.
pub open spec fn slot_cost(item: WorkItemView) -> nat {
    match item {
        WorkItemView::Evaluate { expr, .. } => 2 * expr_size(expr),
        WorkItemView::EvaluateWithPiped { expr, .. } => 2 * expr_size(expr),
        _ => 0,
    }
}

/// How many slots the steps to be done can still lead to.
pub open spec fn slots_cost(queue: Seq<WorkItemView>) -> nat
    decreases queue.len(),
{
    if queue.len() == 0 {
        0
    } else {
        slots_cost(queue.drop_last()) + slot_cost(queue.last())
    }
}

/// Whether a slot holds the same in two machines.
pub open spec fn same_slot(a: MachineView, b: MachineView, s: u32) -> bool {
    a.results.contains_key(s) == b.results.contains_key(s) && (a.results.contains_key(s)
        ==> a.results[s] == b.results[s])
}

/// Whether a slot is the given one or was taken between two machines.
pub open spec fn own_slot(a: MachineView, b: MachineView, slot: u32, s: u32) -> bool {
    s == slot || a.next_slot <= s < b.next_slot
}

/// Whether one step follows from another machine in good order: it takes at most `budget` slots,
/// leaves the steps to be done below new ones, fills `slot` and slots that it took alone, and adds
/// steps that fill such slots alone, that read slots that were taken alone, and that do not read
/// what a step below them fills.
#[verifier::opaque]
pub open spec fn tidy(a: MachineView, b: MachineView, slot: u32, budget: int) -> bool {
    &&& a.next_slot <= b.next_slot
    &&& slots_cost(a.queue) <= slots_cost(b.queue)
    &&& b.next_slot + slots_cost(b.queue) - slots_cost(a.queue) <= a.next_slot + budget
    &&& starts_as(a.queue, b.queue)
    &&& forall|s: u32| !own_slot(a, b, slot, s) ==> #[trigger] same_slot(a, b, s)
    &&& forall|i: int|
        #![trigger b.queue[i]]
        a.queue.len() <= i < b.queue.len() && slot_written(b.queue[i]) is Some ==> own_slot(
            a,
            b,
            slot,
            slot_written(b.queue[i])->0,
        )
    &&& forall|i: int, s: u32|
        a.queue.len() <= i < b.queue.len() && #[trigger] slot_read(b.queue[i], s) ==> a.next_slot
            <= s < b.next_slot
    &&& forall|i: int, j: int, s: u32|
        #![trigger b.queue[i], slot_read(b.queue[j], s)]
        a.queue.len() <= i < j < b.queue.len() && slot_read(b.queue[j], s) ==> slot_written(
            b.queue[i],
        ) != Some(s)
}

/// Whether two machines differ in one slot and in what is no concern of slots.
pub open spec fn filled(a: MachineView, b: MachineView, slot: u32) -> bool {
    &&& a.queue == b.queue
    &&& a.next_slot == b.next_slot
    &&& forall|s: u32| s != slot ==> #[trigger] same_slot(a, b, s)
}

/// Whether two machines differ in what is no concern of slots alone.
pub open spec fn calm(a: MachineView, b: MachineView) -> bool {
    a.queue == b.queue && a.next_slot == b.next_slot && a.results == b.results
}

proof fn lemma_tidy_filled(a: MachineView, b: MachineView, slot: u32, budget: int)
    requires
        filled(a, b, slot),
        budget >= 0,
    ensures
        tidy(a, b, slot, budget),
{
    reveal(tidy);
}

proof fn lemma_tidy_calm(
    first: MachineView,
    a: MachineView,
    b: MachineView,
    last: MachineView,
    slot: u32,
    budget: int,
)
    requires
        tidy(a, b, slot, budget),
        calm(first, a),
        calm(b, last),
    ensures
        tidy(first, last, slot, budget),
{
    reveal(tidy);
    assert forall|s: u32| !own_slot(first, last, slot, s) implies #[trigger] same_slot(
        first,
        last,
        s,
    ) by {
        assert(same_slot(a, b, s));
    }
}

proof fn lemma_tidy_widen(a: MachineView, b: MachineView, slot: u32, small: int, budget: int)
    requires
        tidy(a, b, slot, small),
        small <= budget,
    ensures
        tidy(a, b, slot, budget),
{
    reveal(tidy);
}

proof fn lemma_tidy_next(a: MachineView, b: MachineView, slot: u32, budget: int)
    requires
        tidy(a, b, slot, budget),
    ensures
        a.next_slot <= b.next_slot <= a.next_slot + budget,
        a.queue.len() <= b.queue.len(),
{
    reveal(tidy);
}

proof fn lemma_tidy_written(a: MachineView, b: MachineView, slot: u32, budget: int, i: int)
    requires
        tidy(a, b, slot, budget),
        a.queue.len() <= i < b.queue.len(),
    ensures
        slot_written(b.queue[i]) is Some ==> own_slot(a, b, slot, slot_written(b.queue[i])->0),
{
    reveal(tidy);
}

proof fn lemma_tidy_kept(a: MachineView, b: MachineView, slot: u32, budget: int, i: int)
    requires
        tidy(a, b, slot, budget),
        0 <= i < a.queue.len(),
    ensures
        b.queue[i] == a.queue[i],
{
    reveal(tidy);
}

proof fn lemma_tidy_store(
    m: MachineView,
    a: MachineView,
    slot: u32,
    budget: int,
    s: u32,
    b: MachineView,
)
    requires
        tidy(m, a, slot, budget),
        own_slot(m, a, slot, s),
        filled(a, b, s),
    ensures
        tidy(m, b, slot, budget),
{
    reveal(tidy);
    assert forall|t: u32| !own_slot(m, b, slot, t) implies #[trigger] same_slot(m, b, t) by {
        assert(same_slot(m, a, t));
        assert(same_slot(a, b, t));
    }
}

proof fn lemma_tidy_allocate(m: MachineView, a: MachineView, slot: u32, budget: int, n: nat)
    requires
        tidy(m, a, slot, budget),
        a.next_slot + n <= u32::MAX,
    ensures
        allocated(a, n).next_slot == a.next_slot + n,
        tidy(m, allocated(a, n), slot, budget + n),
{
    reveal(tidy);
    let b = allocated(a, n);
    assert(b.next_slot == a.next_slot + n);
    assert forall|t: u32| !own_slot(m, b, slot, t) implies #[trigger] same_slot(m, b, t) by {
        assert(same_slot(m, a, t));
    }
}

/// Whether a step may stand above the steps that were added to a machine.
pub open spec fn fits(m: MachineView, a: MachineView, slot: u32, item: WorkItemView) -> bool {
    &&& slot_written(item) is Some ==> own_slot(m, a, slot, slot_written(item)->0)
    &&& forall|s: u32| #[trigger] slot_read(item, s) ==> m.next_slot <= s < a.next_slot
    &&& forall|i: int, s: u32|
        #![trigger a.queue[i], slot_read(item, s)]
        m.queue.len() <= i < a.queue.len() && slot_read(item, s) ==> slot_written(a.queue[i])
            != Some(s)
}

proof fn lemma_tidy_push(
    m: MachineView,
    a: MachineView,
    slot: u32,
    budget: int,
    item: WorkItemView,
)
    requires
        tidy(m, a, slot, budget),
        fits(m, a, slot, item),
    ensures
        tidy(m, pushed(a, item), slot, budget + slot_cost(item)),
{
    reveal(tidy);
    let b = pushed(a, item);
    assert(b.queue.drop_last() =~= a.queue);
    assert forall|t: u32| !own_slot(m, b, slot, t) implies #[trigger] same_slot(m, b, t) by {
        assert(same_slot(m, a, t));
    }
    assert forall|i: int|
        #![trigger b.queue[i]]
        m.queue.len() <= i < b.queue.len() && slot_written(b.queue[i]) is Some implies own_slot(
        m,
        b,
        slot,
        slot_written(b.queue[i])->0,
    ) by {
        if i < a.queue.len() {
            assert(b.queue[i] == a.queue[i]);
        }
    }
    assert forall|i: int, s: u32|
        m.queue.len() <= i < b.queue.len() && #[trigger] slot_read(b.queue[i], s) implies
        m.next_slot <= s < b.next_slot by {
        if i < a.queue.len() {
            assert(b.queue[i] == a.queue[i]);
            assert(slot_read(a.queue[i], s));
        }
    }
    assert forall|i: int, j: int, s: u32|
        #![trigger b.queue[i], slot_read(b.queue[j], s)]
        m.queue.len() <= i < j < b.queue.len() && slot_read(b.queue[j], s) implies slot_written(
        b.queue[i],
    ) != Some(s) by {
        assert(b.queue[i] == a.queue[i]);
        if j < a.queue.len() {
            assert(slot_read(a.queue[j], s));
        } else {
            assert(slot_read(item, s));
        }
    }
}

proof fn lemma_tidy_chain(
    m: MachineView,
    a: MachineView,
    b: MachineView,
    slot: u32,
    inner: u32,
    first: int,
    second: int,
)
    requires
        tidy(m, a, slot, first),
        tidy(a, b, inner, second),
        slot < m.next_slot,
        own_slot(m, a, slot, inner),
    ensures
        tidy(m, b, slot, first + second),
{
    reveal(tidy);
    assert forall|t: u32| !own_slot(m, b, slot, t) implies #[trigger] same_slot(m, b, t) by {
        assert(same_slot(m, a, t));
        assert(same_slot(a, b, t));
    }
    assert forall|i: int| 0 <= i < m.queue.len() implies #[trigger] b.queue[i] == m.queue[i] by {
        assert(a.queue[i] == m.queue[i]);
    }
    assert forall|i: int|
        #![trigger b.queue[i]]
        m.queue.len() <= i < b.queue.len() && slot_written(b.queue[i]) is Some implies own_slot(
        m,
        b,
        slot,
        slot_written(b.queue[i])->0,
    ) by {
        if i < a.queue.len() {
            assert(b.queue[i] == a.queue[i]);
        }
    }
    assert forall|i: int, s: u32|
        m.queue.len() <= i < b.queue.len() && #[trigger] slot_read(b.queue[i], s) implies
        m.next_slot <= s < b.next_slot by {
        if i < a.queue.len() {
            assert(b.queue[i] == a.queue[i]);
            assert(slot_read(a.queue[i], s));
        }
    }
    assert forall|i: int, j: int, s: u32|
        #![trigger b.queue[i], slot_read(b.queue[j], s)]
        m.queue.len() <= i < j < b.queue.len() && slot_read(b.queue[j], s) implies slot_written(
        b.queue[i],
    ) != Some(s) by {
        if j < a.queue.len() {
            assert(b.queue[i] == a.queue[i]);
            assert(b.queue[j] == a.queue[j]);
            assert(slot_read(a.queue[j], s));
        } else if i < a.queue.len() {
            assert(b.queue[i] == a.queue[i]);
            assert(a.next_slot <= s);
        }
    }
}

/// Variables take one slot each.
proof fn lemma_declare_tidy(
    m: MachineView,
    variables: Seq<SpannedVariableView>,
    n: nat,
    ctx: EvaluationContextView,
    slot: u32,
)
    requires
        n <= variables.len(),
        m.next_slot + n <= u32::MAX,
    ensures
        ({
            let d = declare(m, variables, n, ctx);
            &&& tidy(m, d.m, slot, n as int)
            &&& d.m.queue == m.queue
            &&& d.m.next_slot == m.next_slot + n
            &&& d.data.len() == n
            &&& forall|i: int|
                0 <= i < n ==> (#[trigger] d.data[i]).value_slot == m.next_slot + i
        }),
    decreases n,
{
    if n == 0 {
        lemma_tidy_filled(m, m, slot, 0);
    } else {
        lemma_declare_tidy(m, variables, (n - 1) as nat, ctx, slot);
        let before = declare(m, variables, (n - 1) as nat, ctx);
        let taken = allocated(before.m, 1);
        lemma_tidy_allocate(m, before.m, slot, n - 1, 1);
        let d = declare(m, variables, n, ctx);
        lemma_tidy_calm(m, m, taken, d.m, slot, n as int);
    }
}

/// Arguments take one slot each.
proof fn lemma_argue_tidy(
    m: MachineView,
    arguments: Seq<SpannedArgumentView>,
    n: nat,
    ctx: EvaluationContextView,
    span: Span,
    forward: bool,
    slot: u32,
)
    requires
        n <= arguments.len(),
        m.next_slot + n <= u32::MAX,
    ensures
        match argue(m, arguments, n, ctx, span, forward) {
            Ok(a) => {
                &&& tidy(m, a.m, slot, n as int)
                &&& a.m.queue == m.queue
                &&& a.m.next_slot == m.next_slot + n
                &&& forall|i: int|
                    0 <= i < a.slots.len() ==> m.next_slot <= (#[trigger] a.slots[i]).slot
                        < m.next_slot + n
                &&& forall|i: int|
                    0 <= i < a.jobs.len() ==> m.next_slot <= (#[trigger] a.jobs[i]).1
                        < m.next_slot + n
                &&& forall|i: int, j: int|
                    0 <= i < j < a.jobs.len() ==> (#[trigger] a.jobs[i]).1 < (
                    #[trigger] a.jobs[j]).1
                &&& forall|i: int|
                    0 <= i < a.connections.len() ==> m.next_slot <= (
                    #[trigger] a.connections[i]).slot < m.next_slot + n
                &&& a.passed_context is Some ==> m.next_slot <= a.passed_context->0 < m.next_slot
                    + n
            },
            Err(_) => true,
        },
    decreases n,
{
    if n == 0 {
        lemma_tidy_filled(m, m, slot, 0);
    } else {
        lemma_argue_tidy(m, arguments, (n - 1) as nat, ctx, span, forward, slot);
        match argue(m, arguments, (n - 1) as nat, ctx, span, forward) {
            Ok(before) => {
                let arg = arguments[n - 1];
                let s = before.m.next_slot;
                let taken = allocated(before.m, 1);
                lemma_tidy_allocate(m, before.m, slot, n - 1, 1);
                match argue(m, arguments, n, ctx, span, forward) {
                    Ok(a) => {
                        assert(filled(taken, a.m, s));
                        lemma_tidy_store(m, taken, slot, n as int, s, a.m);
                    },
                    Err(_) => {},
                }
            },
            Err(_) => {},
        }
    }
}

/// Building variables fills no slots.
proof fn lemma_build_calm(
    m: MachineView,
    data: Seq<ObjectVariableDataView>,
    n: nat,
    ctx: EvaluationContextView,
)
    ensures
        calm(m, build(m, data, n, ctx).m),
    decreases n,
{
    if n > 0 {
        lemma_build_calm(m, data, (n - 1) as nat, ctx);
    }
}

proof fn lemma_text_parts_calm(
    m: MachineView,
    parts: Seq<TextPartView>,
    n: nat,
    key: PersistenceKey,
    span: Span,
    ctx: EvaluationContextView,
)
    ensures
        match text_parts_step(m, parts, n, key, span, ctx) {
            Ok(done) => calm(m, done.0),
            Err(_) => true,
        },
    decreases n,
{
    if n > 0 {
        lemma_text_parts_calm(m, parts, (n - 1) as nat, key, span, ctx);
    }
}

/// The values of variables need no more slots than the variables have sizes.
proof fn lemma_value_jobs_slots(
    variables: Seq<SpannedVariableView>,
    data: Seq<ObjectVariableDataView>,
    n: nat,
)
    requires
        n <= variables.len(),
        n <= data.len(),
    ensures
        ({
            let first = value_jobs(variables, data, n, Some(false));
            let second = value_jobs(variables, data, n, Some(true));
            let all = value_jobs(variables, data, n, None);
            &&& n + 2 * jobs_size(first, first.len()) - first.len() + 2 * jobs_size(
                second,
                second.len(),
            ) - second.len() <= 2 * variables_size(variables, n)
            &&& n + 2 * jobs_size(all, all.len()) - all.len() <= 2 * variables_size(variables, n)
        }),
    decreases n,
{
    if n > 0 {
        lemma_value_jobs_slots(variables, data, (n - 1) as nat);
        let d = data[n - 1];
        let job = (variables[n - 1].node.value, d.value_slot);
        assert(expr_size(job.0) >= 1);
        lemma_jobs_size_push(value_jobs(variables, data, (n - 1) as nat, Some(false)), job);
        lemma_jobs_size_push(value_jobs(variables, data, (n - 1) as nat, Some(true)), job);
        lemma_jobs_size_push(value_jobs(variables, data, (n - 1) as nat, None), job);
    }
}

/// The values of variables are put into the slots of these.
proof fn lemma_value_jobs_in_range(
    variables: Seq<SpannedVariableView>,
    data: Seq<ObjectVariableDataView>,
    n: nat,
    referenced: Option<bool>,
    low: int,
    high: int,
)
    requires
        n <= data.len(),
        forall|i: int| 0 <= i < data.len() ==> low <= (#[trigger] data[i]).value_slot < high,
    ensures
        forall|i: int|
            0 <= i < value_jobs(variables, data, n, referenced).len() ==> low <= (
            #[trigger] value_jobs(variables, data, n, referenced)[i]).1 < high,
    decreases n,
{
    if n > 0 {
        lemma_value_jobs_in_range(variables, data, (n - 1) as nat, referenced, low, high);
        assert(low <= data[n - 1].value_slot < high);
        let before = value_jobs(variables, data, (n - 1) as nat, referenced);
        let jobs = value_jobs(variables, data, n, referenced);
        assert forall|i: int| 0 <= i < jobs.len() implies low <= (#[trigger] jobs[i]).1 < high by {
            if i < before.len() {
                assert(jobs[i] == before[i]);
            }
        }
    }
}

proof fn lemma_variables_have_sizes(variables: Seq<SpannedVariableView>, n: nat)
    requires
        n <= variables.len(),
    ensures
        variables_size(variables, n) >= n,
    decreases n,
{
    if n > 0 {
        lemma_variables_have_sizes(variables, (n - 1) as nat);
        assert(expr_size(variables[n - 1].node.value) >= 1);
    }
}

proof fn lemma_items_have_sizes(items: Seq<SpannedExpressionView>, n: nat)
    requires
        n <= items.len(),
    ensures
        items_size(items, n) >= n,
    decreases n,
{
    if n > 0 {
        lemma_items_have_sizes(items, (n - 1) as nat);
        assert(expr_size(items[n - 1]) >= 1);
    }
}

proof fn lemma_arguments_have_sizes(arguments: Seq<SpannedArgumentView>, n: nat)
    requires
        n <= arguments.len(),
    ensures
        arguments_size(arguments, n) >= n,
    decreases n,
{
    if n > 0 {
        lemma_arguments_have_sizes(arguments, (n - 1) as nat);
    }
}

proof fn lemma_jobs_have_sizes(jobs: Seq<Job>, n: nat)
    requires
        n <= jobs.len(),
    ensures
        jobs_size(jobs, n) >= n,
    decreases n,
{
    if n > 0 {
        lemma_jobs_have_sizes(jobs, (n - 1) as nat);
        assert(expr_size(jobs[n - 1].0) >= 1);
    }
}

/// The steps of a chain stand in good order.
proof fn lemma_piped_tidy(
    m: MachineView,
    rest: Seq<SpannedExpressionView>,
    ctx: EvaluationContextView,
    slot: u32,
    k: nat,
)
    requires
        k <= rest.len(),
        slot < m.next_slot,
        m.next_slot + rest.len() <= u32::MAX,
    ensures
        ({
            let set_up = piped_machine(m, rest, ctx, slot);
            let part = MachineView {
                queue: set_up.queue.take((m.queue.len() + k) as int),
                ..set_up
            };
            &&& set_up.next_slot == m.next_slot + rest.len()
            &&& tidy(
                m,
                part,
                slot,
                rest.len() + 2 * (steps_size(rest, rest.len()) - steps_size(
                    rest,
                    (rest.len() - k) as nat,
                )) - 2 * k,
            )
        }),
    decreases k,
{
    let n = rest.len();
    let base = m.next_slot;
    let set_up = piped_machine(m, rest, ctx, slot);
    let part = MachineView { queue: set_up.queue.take((m.queue.len() + k) as int), ..set_up };
    lemma_tidy_filled(m, m, slot, 0);
    lemma_tidy_allocate(m, m, slot, 0, n);
    if k == 0 {
        assert(part.queue =~= m.queue);
        lemma_tidy_calm(m, m, allocated(m, n), part, slot, n as int);
    } else {
        lemma_piped_tidy(m, rest, ctx, slot, (k - 1) as nat);
        let before = MachineView {
            queue: set_up.queue.take(m.queue.len() + k - 1),
            ..set_up
        };
        let item = set_up.queue[m.queue.len() + k - 1];
        assert(part.queue =~= before.queue.push(item));
        assert(item == WorkItemView::EvaluateWithPiped {
            expr: rest[n - k],
            prev_slot: slot_at(base, n - k),
            ctx,
            result_slot: if k == 1 {
                slot
            } else {
                slot_at(base, n - k + 1)
            },
        });
        assert(slot_at(base, n - k) == base + n - k);
        assert(k > 1 ==> slot_at(base, n - k + 1) == base + n - k + 1);
        assert forall|i: int, s: u32|
            #![trigger before.queue[i], slot_read(item, s)]
            m.queue.len() <= i < before.queue.len() && slot_read(item, s) implies slot_written(
            before.queue[i],
        ) != Some(s) by {
            let j = i - m.queue.len();
            assert(before.queue[i] == set_up.queue[i]);
            assert(j > 0 ==> slot_at(base, n - j) == base + n - j);
        }
        let spent = n + 2 * (steps_size(rest, n) - steps_size(rest, (n - (k - 1)) as nat)) - 2 * (k
            - 1);
        lemma_tidy_push(m, before, slot, spent, item);
        assert(steps_size(rest, (n - (k - 1)) as nat) == steps_size(rest, (n - k) as nat) + 1
            + expr_size(rest[n - k]));
        assert(pushed(before, item) == part);
    }
}

proof fn lemma_wraps_tidy(
    m: MachineView,
    a: MachineView,
    slot: u32,
    budget: int,
    jobs: Seq<Job>,
    n: nat,
    ctx: EvaluationContextView,
)
    requires
        tidy(m, a, slot, budget),
        slot < m.next_slot,
        n <= jobs.len(),
        forall|i: int| 0 <= i < jobs.len() ==> m.next_slot <= (#[trigger] jobs[i]).1 < a.next_slot,
        forall|i: int, j: int|
            0 <= i < j < jobs.len() ==> (#[trigger] jobs[i]).1 < (#[trigger] jobs[j]).1,
        forall|i: int|
            m.queue.len() <= i < a.queue.len() ==> slot_written(#[trigger] a.queue[i]) is None
                || slot_written(a.queue[i]) == Some(slot),
    ensures
        ({
            let b = MachineView { queue: a.queue + wraps(jobs, n, ctx), ..a };
            &&& tidy(m, b, slot, budget)
            &&& forall|i: int|
                m.queue.len() <= i < b.queue.len() ==> slot_written(#[trigger] b.queue[i]) is None
                    || slot_written(b.queue[i]) == Some(slot) || (n > 0 && slot_written(
                    b.queue[i],
                )->0 <= jobs[n - 1].1)
        }),
    decreases n,
{
    let b = MachineView { queue: a.queue + wraps(jobs, n, ctx), ..a };
    if n == 0 {
        assert(b.queue =~= a.queue);
    } else {
        lemma_wraps_tidy(m, a, slot, budget, jobs, (n - 1) as nat, ctx);
        let before = MachineView { queue: a.queue + wraps(jobs, (n - 1) as nat, ctx), ..a };
        let job = jobs[n - 1];
        if job.0.node is Latest && job.0.persistence is Some {
            let item = WorkItemView::WrapWithPersistence {
                source_slot: job.1,
                persistence_id: job.0.persistence->0,
                ctx,
                result_slot: job.1,
            };
            assert(b.queue =~= before.queue.push(item));
            assert forall|i: int, s: u32|
                #![trigger before.queue[i], slot_read(item, s)]
                m.queue.len() <= i < before.queue.len() && slot_read(item, s) implies slot_written(
                before.queue[i],
            ) != Some(s) by {
                if n > 1 {
                    assert(jobs[n - 2].1 < jobs[n - 1].1);
                }
            }
            lemma_tidy_push(m, before, slot, budget, item);
            assert(pushed(before, item) == b);
            assert forall|i: int| m.queue.len() <= i < b.queue.len() implies slot_written(
                #[trigger] b.queue[i],
            ) is None || slot_written(b.queue[i]) == Some(slot) || (n > 0 && slot_written(
                b.queue[i],
            )->0 <= jobs[n - 1].1) by {
                if i < before.queue.len() {
                    assert(b.queue[i] == before.queue[i]);
                    if n > 1 {
                        assert(jobs[n - 2].1 < jobs[n - 1].1);
                    }
                }
            }
        } else {
            assert(b.queue =~= before.queue);
            if n > 1 {
                assert(jobs[n - 2].1 < jobs[n - 1].1);
            }
        }
    }
}

proof fn lemma_jobs_tidy(
    depth: nat,
    bound: nat,
    m: MachineView,
    a: MachineView,
    slot: u32,
    budget: int,
    jobs: Seq<Job>,
    n: nat,
    ctx: EvaluationContextView,
)
    requires
        tidy(m, a, slot, budget),
        slot < m.next_slot,
        n <= jobs.len(),
        forall|i: int| 0 <= i < n ==> m.next_slot <= (#[trigger] jobs[i]).1 < a.next_slot,
        m.next_slot + budget + 2 * jobs_size(jobs, n) - n <= u32::MAX,
    ensures
        match schedule_jobs(depth, bound, a, jobs, n, ctx) {
            Ok(after) => tidy(m, after, slot, budget + 2 * jobs_size(jobs, n) - n)
                && a.next_slot <= after.next_slot,
            Err(_) => true,
        },
    decreases depth, bound, 0nat, n,
{
    if n > 0 {
        let job = jobs[n - 1];
        assert(expr_size(job.0) >= 1);
        lemma_jobs_tidy(depth, bound, m, a, slot, budget, jobs, (n - 1) as nat, ctx);
        match schedule_jobs(depth, bound, a, jobs, (n - 1) as nat, ctx) {
            Ok(before) => {
                let spent = budget + 2 * jobs_size(jobs, (n - 1) as nat) - (n - 1);
                lemma_tidy_next(m, before, slot, spent);
                if expr_size(job.0) < bound {
                    lemma_schedule_tidy(depth, before, job.0, ctx, job.1);
                    match schedule(depth, before, job.0, ctx, job.1) {
                        Ok(after) => {
                            let more = 2 * expr_size(job.0) - 1;
                            lemma_tidy_chain(m, before, after, slot, job.1, spent, more);
                            lemma_tidy_next(before, after, job.1, more);
                        },
                        Err(_) => {},
                    }
                }
            },
            Err(_) => {},
        }
    }
}

proof fn lemma_items_tidy(
    depth: nat,
    bound: nat,
    m: MachineView,
    a: MachineView,
    slot: u32,
    budget: int,
    items: Seq<SpannedExpressionView>,
    n: nat,
    base: u32,
    ctx: EvaluationContextView,
)
    requires
        tidy(m, a, slot, budget),
        slot < m.next_slot,
        n <= items.len(),
        base == m.next_slot,
        m.next_slot + items.len() <= a.next_slot,
        m.next_slot + budget + 2 * items_size(items, n) - n <= u32::MAX,
    ensures
        match schedule_items(depth, bound, a, items, n, base, ctx) {
            Ok(after) => tidy(m, after, slot, budget + 2 * items_size(items, n) - n)
                && a.next_slot <= after.next_slot,
            Err(_) => true,
        },
    decreases depth, bound, 0nat, n,
{
    if n > 0 {
        let item = items[n - 1];
        assert(expr_size(item) >= 1);
        lemma_items_tidy(depth, bound, m, a, slot, budget, items, (n - 1) as nat, base, ctx);
        match schedule_items(depth, bound, a, items, (n - 1) as nat, base, ctx) {
            Ok(before) => {
                let spent = budget + 2 * items_size(items, (n - 1) as nat) - (n - 1);
                lemma_tidy_next(m, before, slot, spent);
                let known = keyed(before, item.persistence);
                lemma_tidy_calm(m, m, before, known, slot, spent);
                let segment = ScopeSegmentView::ListItem {
                    index: (n - 1) as u64,
                    key: key_of(before, item.persistence),
                };
                let item_ctx = with_context(ctx, in_child_scope(ctx.actor_context, segment));
                let s = slot_at(base, n - 1);
                assert(s == base + n - 1);
                if expr_size(item) < bound {
                    lemma_schedule_tidy(depth, known, item, item_ctx, s);
                    match schedule(depth, known, item, item_ctx, s) {
                        Ok(after) => {
                            let more = 2 * expr_size(item) - 1;
                            lemma_tidy_chain(m, known, after, slot, s, spent, more);
                            lemma_tidy_next(known, after, s, more);
                        },
                        Err(_) => {},
                    }
                }
            },
            Err(_) => {},
        }
    }
}

proof fn lemma_schedule_call_tidy(
    depth: nat,
    bound: nat,
    m: MachineView,
    path: Seq<Seq<char>>,
    arguments: Seq<SpannedArgumentView>,
    span: Span,
    key: PersistenceKey,
    ctx: EvaluationContextView,
    slot: u32,
    forward: bool,
)
    requires
        slot < m.next_slot,
        m.next_slot + 2 * arguments_size(arguments, arguments.len()) <= u32::MAX,
    ensures
        match schedule_call(depth, bound, m, path, arguments, span, key, ctx, slot, forward) {
            Ok(after) => tidy(
                m,
                after,
                slot,
                2 * arguments_size(arguments, arguments.len()) as int,
            ),
            Err(_) => true,
        },
    decreases depth, bound, 1nat, 0nat,
{
    let n = arguments.len();
    lemma_arguments_have_sizes(arguments, n);
    lemma_argue_tidy(m, arguments, n, ctx, span, forward, slot);
    lemma_argue_size(m, arguments, n, ctx, span, forward);
    match argue(m, arguments, n, ctx, span, forward) {
        Ok(a) => {
            let job_ctx = if forward {
                with_locals(ctx, a.locals)
            } else {
                ctx
            };
            let item = WorkItemView::CallFunction {
                path,
                arg_slots: a.slots,
                passed_slot: a.passed_slot,
                passed_context: a.passed_context,
                use_piped_for_builtin: !forward,
                span,
                key,
                ctx,
                result_slot: slot,
            };
            let called = pushed(a.m, item);
            lemma_tidy_push(m, a.m, slot, n as int, item);
            let connect = WorkItemView::ConnectForwardingActors { connections: a.connections };
            let connected = if a.connections.len() > 0 {
                pushed(called, connect)
            } else {
                called
            };
            assert forall|i: int, s: u32|
                #![trigger called.queue[i], slot_read(connect, s)]
                m.queue.len() <= i < called.queue.len() && slot_read(connect, s) implies
                slot_written(called.queue[i]) != Some(s) by {
                assert(called.queue[i] == item);
            }
            lemma_tidy_push(m, called, slot, n as int, connect);
            assert forall|i: int| m.queue.len() <= i < connected.queue.len() implies slot_written(
                #[trigger] connected.queue[i],
            ) is None || slot_written(connected.queue[i]) == Some(slot) by {
                if i == m.queue.len() {
                    assert(connected.queue[i] == item);
                } else {
                    assert(connected.queue[i] == connect);
                }
            }
            lemma_wraps_tidy(
                m,
                connected,
                slot,
                n as int,
                a.jobs,
                a.jobs.len(),
                job_ctx,
            );
            let wrapped = if forward {
                MachineView {
                    queue: connected.queue + wraps(a.jobs, a.jobs.len(), job_ctx),
                    ..connected
                }
            } else {
                connected
            };
            lemma_argument_slots(m, arguments, n, ctx, span, forward);
            lemma_jobs_tidy(
                depth,
                bound,
                m,
                wrapped,
                slot,
                n as int,
                a.jobs,
                a.jobs.len(),
                job_ctx,
            );
            match schedule_jobs(depth, bound, wrapped, a.jobs, a.jobs.len(), job_ctx) {
                Ok(after) => {
                    lemma_tidy_widen(
                        m,
                        after,
                        slot,
                        n + 2 * jobs_size(a.jobs, a.jobs.len()) - a.jobs.len(),
                        2 * arguments_size(arguments, n) as int,
                    );
                },
                Err(_) => {},
            }
        },
        Err(_) => {},
    }
}

/// Arguments need no more slots than they have sizes.
proof fn lemma_argument_slots(
    m: MachineView,
    arguments: Seq<SpannedArgumentView>,
    n: nat,
    ctx: EvaluationContextView,
    span: Span,
    forward: bool,
)
    requires
        n <= arguments.len(),
    ensures
        match argue(m, arguments, n, ctx, span, forward) {
            Ok(a) => n + 2 * jobs_size(a.jobs, a.jobs.len()) - a.jobs.len() <= 2 * arguments_size(
                arguments,
                n,
            ),
            Err(_) => true,
        },
    decreases n,
{
    if n > 0 {
        lemma_argument_slots(m, arguments, (n - 1) as nat, ctx, span, forward);
        match argue(m, arguments, (n - 1) as nat, ctx, span, forward) {
            Ok(before) => {
                match arguments[n - 1].value {
                    Some(value) => {
                        lemma_jobs_size_push(before.jobs, (value, before.m.next_slot));
                    },
                    None => {},
                }
            },
            Err(_) => {},
        }
    }
}

proof fn lemma_schedule_object_tidy(
    depth: nat,
    bound: nat,
    m: MachineView,
    tag: Option<Seq<char>>,
    variables: Seq<SpannedVariableView>,
    span: Span,
    key: PersistenceKey,
    ctx: EvaluationContextView,
    slot: u32,
)
    requires
        slot < m.next_slot,
        m.next_slot + 2 * variables_size(variables, variables.len()) <= u32::MAX,
    ensures
        match schedule_object(depth, bound, m, tag, variables, span, key, ctx, slot) {
            Ok(after) => tidy(
                m,
                after,
                slot,
                2 * variables_size(variables, variables.len()) as int,
            ),
            Err(_) => true,
        },
    decreases depth, bound, 1nat, 0nat,
{
    let n = variables.len();
    lemma_variables_have_sizes(variables, n);
    lemma_declare_tidy(m, variables, n, ctx, slot);
    let d = declare(m, variables, n, ctx);
    let inner = with_locals(ctx, d.locals);
    let item = match tag {
        None => WorkItemView::BuildObject {
            variable_data: d.data,
            span,
            key,
            ctx: inner,
            result_slot: slot,
        },
        Some(tag) => WorkItemView::BuildTaggedObject {
            tag,
            variable_data: d.data,
            span,
            key,
            ctx: inner,
            result_slot: slot,
        },
    };
    lemma_tidy_push(m, d.m, slot, n as int, item);
    let first = value_jobs(variables, d.data, n, Some(false));
    let second = value_jobs(variables, d.data, n, Some(true));
    let jobs = first + second;
    let low = m.next_slot as int;
    lemma_value_jobs_in_range(variables, d.data, n, Some(false), low, low + n);
    lemma_value_jobs_in_range(variables, d.data, n, Some(true), low, low + n);
    lemma_value_jobs_slots(variables, d.data, n);
    lemma_jobs_size_append(first, second, second.len());
    assert forall|i: int| 0 <= i < jobs.len() implies m.next_slot <= (#[trigger] jobs[i]).1
        < pushed(d.m, item).next_slot by {
        if i < first.len() {
            assert(jobs[i] == first[i]);
        } else {
            assert(jobs[i] == second[i - first.len()]);
        }
    }
    lemma_jobs_tidy(
        depth,
        bound,
        m,
        pushed(d.m, item),
        slot,
        n as int,
        jobs,
        jobs.len(),
        inner,
    );
    match schedule_jobs(depth, bound, pushed(d.m, item), jobs, jobs.len(), inner) {
        Ok(after) => {
            lemma_tidy_widen(
                m,
                after,
                slot,
                n + 2 * jobs_size(jobs, jobs.len()) - jobs.len(),
                2 * variables_size(variables, n) as int,
            );
        },
        Err(_) => {},
    }
}

#[verifier::spinoff_prover]
#[verifier::rlimit(40)]
proof fn lemma_schedule_block_tidy(
    depth: nat,
    bound: nat,
    m: MachineView,
    variables: Seq<SpannedVariableView>,
    output: SpannedExpressionView,
    span: Span,
    key: PersistenceKey,
    ctx: EvaluationContextView,
    slot: u32,
)
    requires
        slot < m.next_slot,
        m.next_slot + 1 + 2 * variables_size(variables, variables.len()) + 2 * expr_size(output)
            <= u32::MAX,
    ensures
        match schedule_block(depth, bound, m, variables, output, span, key, ctx, slot) {
            Ok(after) => tidy(
                m,
                after,
                slot,
                (1 + 2 * variables_size(variables, variables.len()) + 2 * expr_size(
                    output,
                )) as int,
            ),
            Err(_) => true,
        },
    decreases depth, bound, 1nat, 0nat,
{
    let n = variables.len();
    let object_slot = m.next_slot;
    let output_slot = slot_at(m.next_slot, 1);
    assert(expr_size(output) >= 1);
    lemma_variables_have_sizes(variables, n);
    lemma_tidy_filled(m, m, slot, 0);
    lemma_tidy_allocate(m, m, slot, 0, 2);
    let taken = allocated(m, 2);
    lemma_declare_tidy(taken, variables, n, ctx, slot);
    let d = declare(taken, variables, n, ctx);
    lemma_tidy_chain(m, taken, d.m, slot, slot, 2, n as int);
    let inner = with_context(
        ctx,
        ActorContextView {
            object_locals: d.locals,
            is_snapshot_context: false,
            ..ctx.actor_context
        },
    );
    let frame = WorkItemView::BuildBlock { object_slot, output_slot, result_slot: slot };
    let framed = pushed(d.m, frame);
    lemma_tidy_push(m, d.m, slot, (2 + n) as int, frame);
    let out = seq![(output, output_slot)];
    assert(schedule_jobs(depth, bound, framed, out, 0, inner) == Ok::<MachineView, Seq<char>>(
        framed,
    ));
    if expr_size(output) < bound {
        lemma_schedule_tidy(depth, framed, output, inner, output_slot);
        match schedule_jobs(depth, bound, framed, out, 1, inner) {
            Ok(after) => {
                assert(schedule(depth, framed, output, inner, output_slot) == Ok::<
                    MachineView,
                    Seq<char>,
                >(after));
                let more = 2 * expr_size(output) - 1;
                let spent = 2 + n + more;
                lemma_tidy_chain(m, framed, after, slot, output_slot, (2 + n) as int, more);
                lemma_tidy_next(framed, after, output_slot, more);
                let item = WorkItemView::BuildObject {
                    variable_data: d.data,
                    span,
                    key,
                    ctx: inner,
                    result_slot: object_slot,
                };
                assert forall|i: int, s: u32|
                    #![trigger after.queue[i], slot_read(item, s)]
                    m.queue.len() <= i < after.queue.len() && slot_read(item, s) implies
                    slot_written(after.queue[i]) != Some(s) by {
                    if i < framed.queue.len() {
                        lemma_tidy_kept(framed, after, output_slot, more, i);
                        assert(after.queue[i] == frame);
                    } else {
                        lemma_tidy_written(framed, after, output_slot, more, i);
                    }
                }
                let built = pushed(after, item);
                lemma_tidy_push(m, after, slot, spent, item);
                let jobs = value_jobs(variables, d.data, n, None);
                let low = m.next_slot + 2;
                lemma_value_jobs_in_range(variables, d.data, n, None, low, low + n);
                lemma_value_jobs_slots(variables, d.data, n);
                lemma_jobs_tidy(
                    depth,
                    bound,
                    m,
                    built,
                    slot,
                    spent,
                    jobs,
                    jobs.len(),
                    inner,
                );
                match schedule_jobs(depth, bound, built, jobs, jobs.len(), inner) {
                    Ok(done) => {
                        lemma_tidy_widen(
                            m,
                            done,
                            slot,
                            spent + 2 * jobs_size(jobs, jobs.len()) - jobs.len(),
                            (1 + 2 * variables_size(variables, n) + 2 * expr_size(
                                output,
                            )) as int,
                        );
                    },
                    Err(_) => {},
                }
            },
            Err(_) => {},
        }
    }
}

proof fn lemma_call_calm(
    depth: nat,
    m: MachineView,
    path: Seq<Seq<char>>,
    arguments: Seq<(Seq<char>, u64)>,
    key: PersistenceKey,
    span: Span,
    ctx: EvaluationContextView,
    use_piped: bool,
)
    ensures
        match call(depth, m, path, arguments, key, span, ctx, use_piped) {
            Ok(done) => calm(m, done.0),
            Err(_) => true,
        },
{
}

proof fn lemma_list_calls_calm(
    depth: nat,
    bound: nat,
    m: MachineView,
    name: Seq<char>,
    operation: ListBindingOperation,
    arguments: Seq<SpannedArgumentView>,
    key: PersistenceKey,
    span: Span,
    ctx: EvaluationContextView,
)
    ensures
        match list_binding(depth, bound, m, name, operation, arguments, key, span, ctx) {
            Ok(done) => calm(m, done.0),
            Err(_) => true,
        },
        match list_append(depth, bound, m, arguments, key, span, ctx) {
            Ok(done) => calm(m, done.0),
            Err(_) => true,
        },
{
}

/// Scheduling an expression leaves a machine in good order.
pub proof fn lemma_schedule_tidy(
    depth: nat,
    start: MachineView,
    e: SpannedExpressionView,
    ctx: EvaluationContextView,
    slot: u32,
)
    requires
        slot < start.next_slot,
        start.next_slot + 2 * expr_size(e) - 1 <= u32::MAX,
    ensures
        match schedule(depth, start, e, ctx, slot) {
            Ok(after) => tidy(start, after, slot, 2 * expr_size(e) - 1),
            Err(_) => true,
        },
    decreases depth, expr_size(e), 2nat, 0nat,
{
    let m = keyed(start, e.persistence);
    assert(calm(start, m));
    assert(expr_size(e) >= 1);
    let budget = 2 * expr_size(e) - 1;
    match e.node {
        ExpressionView::List { .. } | ExpressionView::Latest { .. } => {
            lemma_schedule_list_tidy(depth, start, e, ctx, slot);
        },
        ExpressionView::Operator { .. } | ExpressionView::Negate { .. } => {
            lemma_schedule_operator_tidy(depth, start, e, ctx, slot);
        },
        ExpressionView::Pipe { .. } => {
            lemma_schedule_pipe_tidy(depth, start, e, ctx, slot);
        },
        ExpressionView::Block { .. }
        | ExpressionView::Object { .. }
        | ExpressionView::TaggedObject { .. } => {
            lemma_schedule_structure_tidy(depth, start, e, ctx, slot);
        },
        ExpressionView::FunctionCall { .. } => {
            lemma_schedule_any_call_tidy(depth, start, e, ctx, slot);
        },
        ExpressionView::Hold { state_param, body } => {
            lemma_tidy_filled(m, m, slot, 0);
            lemma_tidy_allocate(m, m, slot, 0, 1);
            match ctx.actor_context.piped {
                Some(piped) => {
                    let item = WorkItemView::BuildHold {
                        initial_slot: m.next_slot,
                        state_param,
                        body: *body,
                        span: e.span,
                        key: key_of(start, e.persistence),
                        ctx,
                        result_slot: slot,
                    };
                    let taken = allocated(m, 1);
                    lemma_tidy_push(m, taken, slot, 1, item);
                    let built = pushed(taken, item);
                    let after = stored(built, m.next_slot, piped);
                    assert(filled(built, after, m.next_slot));
                    lemma_tidy_store(m, built, slot, 1, m.next_slot, after);
                    lemma_tidy_widen(m, after, slot, 1, budget);
                    lemma_tidy_calm(start, m, after, after, slot, budget);
                },
                None => {},
            }
        },
        ExpressionView::TextLiteral { parts } => {
            lemma_text_parts_calm(
                m,
                parts,
                parts.len(),
                key_of(start, e.persistence),
                e.span,
                ctx,
            );
            match schedule(depth, start, e, ctx, slot) {
                Ok(after) => {
                    assert(filled(start, after, slot));
                    lemma_tidy_filled(start, after, slot, budget);
                },
                Err(_) => {},
            }
        },
        _ => {
            match schedule(depth, start, e, ctx, slot) {
                Ok(after) => {
                    assert(filled(start, after, slot));
                    lemma_tidy_filled(start, after, slot, budget);
                },
                Err(_) => {},
            }
        },
    }
}

proof fn lemma_schedule_list_tidy(
    depth: nat,
    start: MachineView,
    e: SpannedExpressionView,
    ctx: EvaluationContextView,
    slot: u32,
)
    requires
        e.node is List || e.node is Latest,
        slot < start.next_slot,
        start.next_slot + 2 * expr_size(e) - 1 <= u32::MAX,
    ensures
        match schedule(depth, start, e, ctx, slot) {
            Ok(after) => tidy(start, after, slot, 2 * expr_size(e) - 1),
            Err(_) => true,
        },
    decreases depth, expr_size(e), 1nat, 0nat,
{
    let m = keyed(start, e.persistence);
    let key = key_of(start, e.persistence);
    let span = e.span;
    let bound = expr_size(e);
    let budget = 2 * expr_size(e) - 1;
    lemma_tidy_filled(m, m, slot, 0);
    match e.node {
        ExpressionView::List { items } => {
            let n = items.len();
            lemma_items_have_sizes(items, n);
            lemma_tidy_allocate(m, m, slot, 0, n);
            let taken = allocated(m, n);
            let slots = Seq::new(n, |i: int| slot_at(m.next_slot, i));
            let item = WorkItemView::BuildList {
                item_slots: slots,
                span,
                key,
                ctx,
                result_slot: slot,
            };
            lemma_slots_in_range(m.next_slot, n, slots);
            lemma_tidy_push(m, taken, slot, n as int, item);
            let built = pushed(taken, item);
            lemma_items_tidy(
                depth,
                bound,
                m,
                built,
                slot,
                n as int,
                items,
                n,
                m.next_slot,
                ctx,
            );
            match schedule_items(depth, bound, built, items, n, m.next_slot, ctx) {
                Ok(after) => {
                    lemma_tidy_widen(m, after, slot, n + 2 * items_size(items, n) - n, budget);
                    lemma_tidy_calm(start, m, after, after, slot, budget);
                },
                Err(_) => {},
            }
        },
        ExpressionView::Latest { inputs } => {
            let n = inputs.len();
            lemma_items_have_sizes(inputs, n);
            lemma_tidy_allocate(m, m, slot, 0, n);
            let taken = allocated(m, n);
            let slots = Seq::new(n, |i: int| slot_at(m.next_slot, i));
            let item = WorkItemView::BuildLatest {
                input_slots: slots,
                span,
                key,
                ctx,
                result_slot: slot,
            };
            lemma_slots_in_range(m.next_slot, n, slots);
            lemma_tidy_push(m, taken, slot, n as int, item);
            let built = pushed(taken, item);
            let jobs = Seq::new(n, |i: int| (inputs[i], slot_at(m.next_slot, i)));
            lemma_input_jobs_size(inputs, m.next_slot, n);
            assert forall|i: int| 0 <= i < n implies m.next_slot <= (#[trigger] jobs[i]).1
                < built.next_slot by {
                assert(slot_at(m.next_slot, i) == m.next_slot + i);
            }
            lemma_jobs_tidy(depth, bound, m, built, slot, n as int, jobs, n, ctx);
            match schedule_jobs(depth, bound, built, jobs, n, ctx) {
                Ok(after) => {
                    lemma_tidy_widen(m, after, slot, n + 2 * jobs_size(jobs, n) - n, budget);
                    lemma_tidy_calm(start, m, after, after, slot, budget);
                },
                Err(_) => {},
            }
        },
        _ => {},
    }
}

proof fn lemma_slots_in_range(base: u32, n: nat, slots: Seq<u32>)
    requires
        base + n <= u32::MAX,
        slots == Seq::new(n, |i: int| slot_at(base, i)),
    ensures
        forall|s: u32| #[trigger] slots.contains(s) ==> base <= s < base + n,
{
    assert forall|s: u32| #[trigger] slots.contains(s) implies base <= s < base + n by {
        let i = choose|i: int| 0 <= i < slots.len() && slots[i] == s;
        assert(slot_at(base, i) == base + i);
    }
}

proof fn lemma_input_jobs_size(inputs: Seq<SpannedExpressionView>, base: u32, n: nat)
    requires
        n <= inputs.len(),
    ensures
        jobs_size(Seq::new(inputs.len(), |i: int| (inputs[i], slot_at(base, i))), n) == items_size(
            inputs,
            n,
        ),
    decreases n,
{
    if n > 0 {
        lemma_input_jobs_size(inputs, base, (n - 1) as nat);
    }
}

proof fn lemma_schedule_operator_tidy(
    depth: nat,
    start: MachineView,
    e: SpannedExpressionView,
    ctx: EvaluationContextView,
    slot: u32,
)
    requires
        e.node is Operator || e.node is Negate,
        slot < start.next_slot,
        start.next_slot + 2 * expr_size(e) - 1 <= u32::MAX,
    ensures
        match schedule(depth, start, e, ctx, slot) {
            Ok(after) => tidy(start, after, slot, 2 * expr_size(e) - 1),
            Err(_) => true,
        },
    decreases depth, expr_size(e), 1nat, 0nat,
{
    let m = keyed(start, e.persistence);
    let key = key_of(start, e.persistence);
    let span = e.span;
    let bound = expr_size(e);
    let budget = 2 * expr_size(e) - 1;
    lemma_tidy_filled(m, m, slot, 0);
    let a_slot = m.next_slot;
    let b_slot = slot_at(m.next_slot, 1);
    let taken = allocated(m, 2);
    reveal_with_fuel(jobs_size, 3);
    match e.node {
        ExpressionView::Operator { op, operand_a, operand_b } => {
            assert(expr_size(*operand_a) >= 1);
            assert(expr_size(*operand_b) >= 1);
            lemma_tidy_allocate(m, m, slot, 0, 2);
            let item = WorkItemView::BinaryOp {
                op,
                operand_a_slot: a_slot,
                operand_b_slot: b_slot,
                span,
                key,
                ctx,
                result_slot: slot,
            };
            lemma_tidy_push(m, taken, slot, 2, item);
            let built = pushed(taken, item);
            let jobs = seq![(*operand_a, a_slot), (*operand_b, b_slot)];
            lemma_jobs_tidy(depth, bound, m, built, slot, 2, jobs, 2, ctx);
            match schedule_jobs(depth, bound, built, jobs, 2, ctx) {
                Ok(after) => {
                    lemma_tidy_widen(m, after, slot, 2 * jobs_size(jobs, 2) as int, budget);
                    lemma_tidy_calm(start, m, after, after, slot, budget);
                },
                Err(_) => {},
            }
        },
        ExpressionView::Negate { operand } => {
            assert(expr_size(*operand) >= 1);
            lemma_tidy_allocate(m, m, slot, 0, 2);
            let spec = ActorSpecView::Literal(LiteralView::Number(MINUS_ONE_BITS));
            let minus = emit(taken, a_slot, spec, key, span, ctx.actor_context);
            assert(filled(taken, minus, a_slot));
            lemma_tidy_store(m, taken, slot, 2, a_slot, minus);
            let item = WorkItemView::BinaryOp {
                op: BinaryOpKind::Multiply,
                operand_a_slot: a_slot,
                operand_b_slot: b_slot,
                span,
                key,
                ctx,
                result_slot: slot,
            };
            lemma_tidy_push(m, minus, slot, 2, item);
            let built = pushed(minus, item);
            let jobs = seq![(*operand, b_slot)];
            lemma_jobs_tidy(depth, bound, m, built, slot, 2, jobs, 1, ctx);
            match schedule_jobs(depth, bound, built, jobs, 1, ctx) {
                Ok(after) => {
                    lemma_tidy_widen(m, after, slot, (1 + 2 * jobs_size(jobs, 1)) as int, budget);
                    lemma_tidy_calm(start, m, after, after, slot, budget);
                },
                Err(_) => {},
            }
        },
        _ => {},
    }
}

proof fn lemma_schedule_pipe_tidy(
    depth: nat,
    start: MachineView,
    e: SpannedExpressionView,
    ctx: EvaluationContextView,
    slot: u32,
)
    requires
        e.node is Pipe,
        slot < start.next_slot,
        start.next_slot + 2 * expr_size(e) - 1 <= u32::MAX,
    ensures
        match schedule(depth, start, e, ctx, slot) {
            Ok(after) => tidy(start, after, slot, 2 * expr_size(e) - 1),
            Err(_) => true,
        },
    decreases depth, expr_size(e), 1nat, 0nat,
{
    let m = keyed(start, e.persistence);
    let bound = expr_size(e);
    let budget = 2 * expr_size(e) - 1;
    let steps = pipe_steps(e);
    let rest = steps.skip(1);
    let n = rest.len();
    lemma_pipe_slots(e);
    let set_up = piped_machine(m, rest, ctx, slot);
    lemma_piped_tidy(m, rest, ctx, slot, n);
    assert(set_up.queue.take((m.queue.len() + n) as int) =~= set_up.queue);
    let spent = 2 * steps_size(rest, n) - n;
    let jobs = seq![(steps[0], m.next_slot)];
    assert(expr_size(steps[0]) >= 1);
    reveal_with_fuel(jobs_size, 2);
    lemma_jobs_tidy(depth, bound, m, set_up, slot, spent, jobs, 1, ctx);
    match schedule_jobs(depth, bound, set_up, jobs, 1, ctx) {
        Ok(after) => {
            lemma_tidy_widen(m, after, slot, spent + 2 * expr_size(steps[0]) - 1, budget);
            lemma_tidy_calm(start, m, after, after, slot, budget);
        },
        Err(_) => {},
    }
}

/// The steps of a chain need no more slots than the chain has size.
proof fn lemma_pipe_slots(e: SpannedExpressionView)
    requires
        e.node is Pipe,
    ensures
        pipe_steps(e).len() >= 2,
        expr_size(pipe_steps(e)[0]) + steps_size(pipe_steps(e).skip(1), (pipe_steps(e).len()
            - 1) as nat) <= expr_size(e),
        steps_size(pipe_steps(e).skip(1), (pipe_steps(e).len() - 1) as nat) >= 2 * (pipe_steps(
            e,
        ).len() - 1),
{
    let steps = pipe_steps(e);
    lemma_pipe_steps_size(e);
    lemma_steps_size_tail(steps, steps.len());
    lemma_steps_have_sizes(steps.skip(1), (steps.len() - 1) as nat);
}

proof fn lemma_steps_size_tail(steps: Seq<SpannedExpressionView>, n: nat)
    requires
        0 < n <= steps.len(),
    ensures
        steps_size(steps, n) == 1 + expr_size(steps[0]) + steps_size(
            steps.skip(1),
            (n - 1) as nat,
        ),
    decreases n,
{
    if n > 1 {
        lemma_steps_size_tail(steps, (n - 1) as nat);
        assert(steps.skip(1)[n - 2] == steps[n - 1]);
    } else {
        reveal_with_fuel(steps_size, 2);
    }
}

proof fn lemma_steps_have_sizes(steps: Seq<SpannedExpressionView>, n: nat)
    requires
        n <= steps.len(),
    ensures
        steps_size(steps, n) >= 2 * n,
    decreases n,
{
    if n > 0 {
        lemma_steps_have_sizes(steps, (n - 1) as nat);
        assert(expr_size(steps[n - 1]) >= 1);
    }
}

proof fn lemma_schedule_structure_tidy(
    depth: nat,
    start: MachineView,
    e: SpannedExpressionView,
    ctx: EvaluationContextView,
    slot: u32,
)
    requires
        e.node is Block || e.node is Object || e.node is TaggedObject,
        slot < start.next_slot,
        start.next_slot + 2 * expr_size(e) - 1 <= u32::MAX,
    ensures
        match schedule(depth, start, e, ctx, slot) {
            Ok(after) => tidy(start, after, slot, 2 * expr_size(e) - 1),
            Err(_) => true,
        },
    decreases depth, expr_size(e), 1nat, 1nat,
{
    let m = keyed(start, e.persistence);
    let key = key_of(start, e.persistence);
    let bound = expr_size(e);
    let budget = 2 * expr_size(e) - 1;
    match e.node {
        ExpressionView::Block { variables, output } => {
            lemma_schedule_block_tidy(
                depth,
                bound,
                m,
                variables,
                *output,
                e.span,
                key,
                ctx,
                slot,
            );
            match schedule_block(depth, bound, m, variables, *output, e.span, key, ctx, slot) {
                Ok(after) => {
                    lemma_tidy_widen(
                        m,
                        after,
                        slot,
                        (1 + 2 * variables_size(variables, variables.len()) + 2 * expr_size(
                            *output,
                        )) as int,
                        budget,
                    );
                    lemma_tidy_calm(start, m, after, after, slot, budget);
                },
                Err(_) => {},
            }
        },
        ExpressionView::Object { variables } => {
            let small = 2 * variables_size(variables, variables.len()) as int;
            lemma_schedule_object_tidy(
                depth,
                bound,
                m,
                None,
                variables,
                e.span,
                key,
                ctx,
                slot,
            );
            match schedule_object(depth, bound, m, None, variables, e.span, key, ctx, slot) {
                Ok(after) => {
                    lemma_tidy_widen(m, after, slot, small, budget);
                    lemma_tidy_calm(start, m, after, after, slot, budget);
                },
                Err(_) => {},
            }
        },
        ExpressionView::TaggedObject { tag, variables } => {
            let small = 2 * variables_size(variables, variables.len()) as int;
            lemma_schedule_object_tidy(
                depth,
                bound,
                m,
                Some(tag),
                variables,
                e.span,
                key,
                ctx,
                slot,
            );
            match schedule_object(depth, bound, m, Some(tag), variables, e.span, key, ctx, slot) {
                Ok(after) => {
                    lemma_tidy_widen(m, after, slot, small, budget);
                    lemma_tidy_calm(start, m, after, after, slot, budget);
                },
                Err(_) => {},
            }
        },
        _ => {},
    }
}

proof fn lemma_schedule_any_call_tidy(
    depth: nat,
    start: MachineView,
    e: SpannedExpressionView,
    ctx: EvaluationContextView,
    slot: u32,
)
    requires
        e.node is FunctionCall,
        slot < start.next_slot,
        start.next_slot + 2 * expr_size(e) - 1 <= u32::MAX,
    ensures
        match schedule(depth, start, e, ctx, slot) {
            Ok(after) => tidy(start, after, slot, 2 * expr_size(e) - 1),
            Err(_) => true,
        },
    decreases depth, expr_size(e), 1nat, 1nat,
{
    let m = keyed(start, e.persistence);
    let key = key_of(start, e.persistence);
    let bound = expr_size(e);
    let budget = 2 * expr_size(e) - 1;
    match e.node {
        ExpressionView::FunctionCall { path, arguments } => match binding_operation(path) {
            Some(operation) => {
                lemma_list_calls_calm(
                    depth,
                    bound,
                    m,
                    path[1],
                    operation,
                    arguments,
                    key,
                    e.span,
                    ctx,
                );
                match schedule(depth, start, e, ctx, slot) {
                    Ok(after) => {
                        assert(filled(start, after, slot));
                        lemma_tidy_filled(start, after, slot, budget);
                    },
                    Err(_) => {},
                }
            },
            None => {
                if is_list_path(path, "append"@) {
                    lemma_list_calls_calm(
                        depth,
                        bound,
                        m,
                        path[1],
                        ListBindingOperation::Any,
                        arguments,
                        key,
                        e.span,
                        ctx,
                    );
                    match schedule(depth, start, e, ctx, slot) {
                        Ok(after) => {
                            assert(filled(start, after, slot));
                            lemma_tidy_filled(start, after, slot, budget);
                        },
                        Err(_) => {},
                    }
                } else {
                    lemma_schedule_call_tidy(
                        depth,
                        bound,
                        m,
                        path,
                        arguments,
                        e.span,
                        key,
                        ctx,
                        slot,
                        true,
                    );
                    match schedule_call(
                        depth,
                        bound,
                        m,
                        path,
                        arguments,
                        e.span,
                        key,
                        ctx,
                        slot,
                        true,
                    ) {
                        Ok(after) => {
                            lemma_tidy_widen(
                                m,
                                after,
                                slot,
                                2 * arguments_size(arguments, arguments.len()) as int,
                                budget,
                            );
                            lemma_tidy_calm(start, m, after, after, slot, budget);
                        },
                        Err(_) => {},
                    }
                }
            },
        },
        _ => {},
    }
}

/// Doing a step leaves a machine in good order.
pub proof fn lemma_process_tidy(depth: nat, m: MachineView, item: WorkItemView)
    requires
        slot_written(item) is Some ==> slot_written(item)->0 < m.next_slot,
        m.next_slot + slot_cost(item) <= u32::MAX,
    ensures
        match process(depth, m, item) {
            Ok(after) => match slot_written(item) {
                Some(slot) => tidy(m, after, slot, slot_cost(item) as int),
                None => calm(m, after),
            },
            Err(_) => true,
        },
{
    match item {
        WorkItemView::Evaluate { expr, ctx, result_slot } => {
            lemma_schedule_tidy(depth, m, expr, ctx, result_slot);
            match schedule(depth, m, expr, ctx, result_slot) {
                Ok(after) => {
                    lemma_tidy_widen(
                        m,
                        after,
                        result_slot,
                        2 * expr_size(expr) - 1,
                        slot_cost(item) as int,
                    );
                },
                Err(_) => {},
            }
        },
        WorkItemView::EvaluateWithPiped { expr, prev_slot, ctx, result_slot } => {
            lemma_piped_step_tidy(depth, m, expr, prev_slot, ctx, result_slot);
        },
        WorkItemView::ConnectForwardingActors { .. } => {},
        WorkItemView::BuildObject { variable_data, result_slot, ctx, .. } => {
            lemma_build_calm(m, variable_data, variable_data.len(), ctx);
            match process(depth, m, item) {
                Ok(after) => {
                    assert(filled(m, after, result_slot));
                    lemma_tidy_filled(m, after, result_slot, 0);
                },
                Err(_) => {},
            }
        },
        WorkItemView::BuildTaggedObject { variable_data, result_slot, ctx, .. } => {
            lemma_build_calm(m, variable_data, variable_data.len(), ctx);
            match process(depth, m, item) {
                Ok(after) => {
                    assert(filled(m, after, result_slot));
                    lemma_tidy_filled(m, after, result_slot, 0);
                },
                Err(_) => {},
            }
        },
        WorkItemView::CallFunction {
            path,
            arg_slots,
            passed_context,
            use_piped_for_builtin,
            span,
            key,
            ctx,
            result_slot,
            ..
        } => {
            let arguments = found_arguments(m, arg_slots, arg_slots.len());
            let call_ctx = if passed_context is Some && m.results.contains_key(passed_context->0) {
                with_context(
                    ctx,
                    ActorContextView {
                        passed: Some(m.results[passed_context->0]),
                        ..ctx.actor_context
                    },
                )
            } else {
                ctx
            };
            lemma_call_calm(
                depth,
                m,
                path,
                arguments,
                key,
                span,
                call_ctx,
                use_piped_for_builtin,
            );
            match process(depth, m, item) {
                Ok(after) => {
                    assert(filled(m, after, result_slot));
                    lemma_tidy_filled(m, after, result_slot, 0);
                },
                Err(_) => {},
            }
        },
        _ => {
            let slot = slot_written(item)->0;
            match process(depth, m, item) {
                Ok(after) => {
                    assert(filled(m, after, slot));
                    lemma_tidy_filled(m, after, slot, 0);
                },
                Err(_) => {},
            }
        },
    }
}

proof fn lemma_piped_step_tidy(
    depth: nat,
    m: MachineView,
    expr: SpannedExpressionView,
    prev_slot: u32,
    ctx: EvaluationContextView,
    slot: u32,
)
    requires
        slot < m.next_slot,
        m.next_slot + 2 * expr_size(expr) <= u32::MAX,
    ensures
        match process(
            depth,
            m,
            WorkItemView::EvaluateWithPiped { expr, prev_slot, ctx, result_slot: slot },
        ) {
            Ok(after) => tidy(m, after, slot, 2 * expr_size(expr) as int),
            Err(_) => true,
        },
{
    let item = WorkItemView::EvaluateWithPiped { expr, prev_slot, ctx, result_slot: slot };
    let budget = 2 * expr_size(expr) as int;
    if !m.results.contains_key(prev_slot) {
        lemma_tidy_filled(m, m, slot, budget);
    } else {
        let inner = with_context(
            ctx,
            ActorContextView { piped: Some(m.results[prev_slot]), ..ctx.actor_context },
        );
        lemma_schedule_tidy(depth, m, expr, inner, slot);
        match schedule(depth, m, expr, inner, slot) {
            Ok(after) => {
                lemma_tidy_widen(m, after, slot, budget - 1, budget);
            },
            Err(_) => {},
        }
        match expr.node {
            ExpressionView::FunctionCall { path, arguments } => {
                if !(binding_operation(path) is Some || is_list_path(path, "append"@)) {
                    let known = keyed(m, expr.persistence);
                    let key = key_of(m, expr.persistence);
                    assert(calm(m, known));
                    lemma_schedule_call_tidy(
                        depth,
                        expr_size(expr),
                        known,
                        path,
                        arguments,
                        expr.span,
                        key,
                        inner,
                        slot,
                        false,
                    );
                    match schedule_call(
                        depth,
                        expr_size(expr),
                        known,
                        path,
                        arguments,
                        expr.span,
                        key,
                        inner,
                        slot,
                        false,
                    ) {
                        Ok(after) => {
                            lemma_tidy_widen(
                                known,
                                after,
                                slot,
                                2 * arguments_size(arguments, arguments.len()) as int,
                                budget,
                            );
                            lemma_tidy_calm(m, known, after, after, slot, budget);
                        },
                        Err(_) => {},
                    }
                }
            },
            ExpressionView::LinkSetter { .. } => {
                match process(depth, m, item) {
                    Ok(after) => {
                        assert(filled(m, after, slot));
                        lemma_tidy_filled(m, after, slot, budget);
                    },
                    Err(_) => {},
                }
            },
            _ => {},
        }
    }
}

/// Whether a machine is in good order: its slots last, its steps fill and read slots that were
/// taken, and no step reads what one below it, which is done later, fills.
#[verifier::opaque]
pub open spec fn proper(m: MachineView) -> bool {
    &&& m.next_slot + slots_cost(m.queue) <= u32::MAX
    &&& forall|i: int|
        #![trigger m.queue[i]]
        0 <= i < m.queue.len() && slot_written(m.queue[i]) is Some ==> slot_written(m.queue[i])->0
            < m.next_slot
    &&& forall|i: int, s: u32|
        0 <= i < m.queue.len() && #[trigger] slot_read(m.queue[i], s) ==> s < m.next_slot
    &&& forall|i: int, j: int, s: u32|
        #![trigger m.queue[i], slot_read(m.queue[j], s)]
        0 <= i < j < m.queue.len() && slot_read(m.queue[j], s) ==> slot_written(m.queue[i])
            != Some(s)
}

proof fn lemma_proper_after(m: MachineView, after: MachineView, slot: u32, budget: int)
    requires
        proper(m),
        tidy(m, after, slot, budget),
        slot < m.next_slot,
        m.next_slot + slots_cost(m.queue) + budget <= u32::MAX,
    ensures
        proper(after),
{
    reveal(proper);
    reveal(tidy);
    assert forall|i: int|
        #![trigger after.queue[i]]
        0 <= i < after.queue.len() && slot_written(after.queue[i]) is Some implies slot_written(
        after.queue[i],
    )->0 < after.next_slot by {
        if i < m.queue.len() {
            assert(after.queue[i] == m.queue[i]);
        }
    }
    assert forall|i: int, s: u32|
        0 <= i < after.queue.len() && #[trigger] slot_read(after.queue[i], s) implies s
        < after.next_slot by {
        if i < m.queue.len() {
            assert(after.queue[i] == m.queue[i]);
            assert(slot_read(m.queue[i], s));
        }
    }
    assert forall|i: int, j: int, s: u32|
        #![trigger after.queue[i], slot_read(after.queue[j], s)]
        0 <= i < j < after.queue.len() && slot_read(after.queue[j], s) implies slot_written(
        after.queue[i],
    ) != Some(s) by {
        if j < m.queue.len() {
            assert(after.queue[i] == m.queue[i]);
            assert(after.queue[j] == m.queue[j]);
            assert(slot_read(m.queue[j], s));
        } else if i < m.queue.len() {
            assert(after.queue[i] == m.queue[i]);
            assert(m.next_slot <= s);
        }
    }
}

/// A machine without its last step.
pub open spec fn without_last_step(m: MachineView) -> MachineView {
    MachineView { queue: m.queue.drop_last(), ..m }
}

proof fn lemma_rest_is_proper(m: MachineView)
    requires
        proper(m),
        m.queue.len() > 0,
    ensures
        proper(without_last_step(m)),
        m.next_slot + slots_cost(without_last_step(m).queue) + slot_cost(m.queue.last())
            <= u32::MAX,
        slot_written(m.queue.last()) is Some ==> slot_written(m.queue.last())->0 < m.next_slot,
        forall|i: int, s: u32|
            #![trigger without_last_step(m).queue[i], slot_read(m.queue.last(), s)]
            0 <= i < m.queue.len() - 1 && slot_read(m.queue.last(), s) ==> slot_written(
                without_last_step(m).queue[i],
            ) != Some(s),
        forall|s: u32| #[trigger] slot_read(m.queue.last(), s) ==> s < m.next_slot,
{
    reveal(proper);
    let rest = without_last_step(m);
    let last = m.queue.len() - 1;
    assert(m.queue[last] == m.queue.last());
    assert forall|i: int|
        #![trigger rest.queue[i]]
        0 <= i < rest.queue.len() && slot_written(rest.queue[i]) is Some implies slot_written(
        rest.queue[i],
    )->0 < rest.next_slot by {
        assert(rest.queue[i] == m.queue[i]);
    }
    assert forall|i: int, s: u32|
        0 <= i < rest.queue.len() && #[trigger] slot_read(rest.queue[i], s) implies s
        < rest.next_slot by {
        assert(slot_read(m.queue[i], s));
    }
    assert forall|i: int, j: int, s: u32|
        #![trigger rest.queue[i], slot_read(rest.queue[j], s)]
        0 <= i < j < rest.queue.len() && slot_read(rest.queue[j], s) implies slot_written(
        rest.queue[i],
    ) != Some(s) by {
        assert(rest.queue[i] == m.queue[i]);
        assert(slot_read(m.queue[j], s));
    }
    assert forall|i: int, s: u32|
        #![trigger rest.queue[i], slot_read(m.queue.last(), s)]
        0 <= i < m.queue.len() - 1 && slot_read(m.queue.last(), s) implies slot_written(
        rest.queue[i],
    ) != Some(s) by {
        assert(rest.queue[i] == m.queue[i]);
        assert(slot_read(m.queue[last], s));
    }
    assert forall|s: u32| #[trigger] slot_read(m.queue.last(), s) implies s < m.next_slot by {
        assert(slot_read(m.queue[last], s));
    }
}

/// Whether the slots of an evaluation last: as many as its expression can take, and one for it.
pub open spec fn slots_last(e: SpannedExpressionView) -> bool {
    2 * expr_size(e) <= u32::MAX
}

/// A machine in which an expression has just been scheduled is in good order.
pub proof fn lemma_evaluation_starts_proper(
    depth: nat,
    plan: PlanView,
    e: SpannedExpressionView,
    ctx: EvaluationContextView,
)
    requires
        slots_last(e),
    ensures
        match schedule(depth, allocated(fresh_machine(plan), 1), e, ctx, 0) {
            Ok(m) => proper(m),
            Err(_) => true,
        },
{
    let start = allocated(fresh_machine(plan), 1);
    assert(expr_size(e) >= 1);
    assert(start.next_slot == 1);
    assert(proper(start)) by {
        reveal(proper);
    }
    lemma_schedule_tidy(depth, start, e, ctx, 0);
    match schedule(depth, start, e, ctx, 0) {
        Ok(m) => {
            lemma_proper_after(start, m, 0, 2 * expr_size(e) - 1);
        },
        Err(_) => {},
    }
}

/// A machine in good order is in good order after each step.
pub proof fn lemma_step_keeps_proper(depth: nat, m: MachineView)
    requires
        proper(m),
        m.queue.len() > 0,
    ensures
        match next_step(depth, m) {
            Ok(after) => proper(after),
            Err(_) => true,
        },
{
    reveal(next_step);
    let rest = without_last_step(m);
    let item = m.queue.last();
    lemma_rest_is_proper(m);
    lemma_process_tidy(depth, rest, item);
    match process(depth, rest, item) {
        Ok(after) => {
            match slot_written(item) {
                Some(slot) => {
                    lemma_proper_after(rest, after, slot, slot_cost(item) as int);
                },
                None => {
                    lemma_tidy_filled(rest, after, 0, 0);
                    assert(proper(after)) by {
                        reveal(proper);
                    }
                },
            }
        },
        Err(_) => {},
    }
}

/// Whether no step to be done fills a slot that was taken.
pub open spec fn untouched(m: MachineView, s: u32) -> bool {
    &&& s < m.next_slot
    &&& forall|i: int| 0 <= i < m.queue.len() ==> slot_written(#[trigger] m.queue[i]) != Some(s)
}

proof fn lemma_untouched_after_step(depth: nat, m: MachineView, s: u32)
    requires
        proper(m),
        m.queue.len() > 0,
        untouched(without_last_step(m), s),
        slot_written(m.queue.last()) != Some(s),
    ensures
        match process(depth, without_last_step(m), m.queue.last()) {
            Ok(after) => proper(after) && untouched(after, s) && same_slot(m, after, s),
            Err(_) => true,
        },
{
    let rest = without_last_step(m);
    let item = m.queue.last();
    lemma_rest_is_proper(m);
    lemma_process_tidy(depth, rest, item);
    lemma_step_keeps_proper(depth, m);
    reveal(next_step);
    match process(depth, rest, item) {
        Ok(after) => {
            match slot_written(item) {
                Some(slot) => {
                    reveal(tidy);
                    assert(!own_slot(rest, after, slot, s));
                    assert(same_slot(rest, after, s));
                    assert forall|i: int| 0 <= i < after.queue.len() implies slot_written(
                        #[trigger] after.queue[i],
                    ) != Some(s) by {
                        if i < rest.queue.len() {
                            assert(after.queue[i] == rest.queue[i]);
                        }
                    }
                },
                None => {},
            }
        },
        Err(_) => {},
    }
}

proof fn lemma_untouched_stays(depth: nat, m: MachineView, s: u32)
    requires
        proper(m),
        untouched(m, s),
    ensures
        match run_queue(depth, m) {
            Ok(done) => same_slot(m, done, s),
            Err(_) => true,
        },
    decreases total_weight(m.queue),
{
    if m.queue.len() > 0 {
        let rest = without_last_step(m);
        assert forall|i: int| 0 <= i < rest.queue.len() implies slot_written(
            #[trigger] rest.queue[i],
        ) != Some(s) by {
            assert(rest.queue[i] == m.queue[i]);
        }
        assert(slot_written(m.queue[m.queue.len() - 1]) != Some(s));
        lemma_untouched_after_step(depth, m, s);
        match process(depth, rest, m.queue.last()) {
            Ok(after) => {
                if total_weight(after.queue) < total_weight(m.queue) {
                    lemma_untouched_stays(depth, after, s);
                }
            },
            Err(_) => {},
        }
    }
}

/// When a step is done, what it reads is there for good: what its operands, items, inputs,
/// variables and arguments lead to has been put into their slots, and nothing that is done later
/// fills these. A slot that is empty then belongs to something that was skipped.
pub proof fn lemma_operands_are_final(depth: nat, m: MachineView, s: u32)
    requires
        proper(m),
        m.queue.len() > 0,
        slot_read(m.queue.last(), s),
        slot_written(m.queue.last()) != Some(s),
    ensures
        match run_queue(depth, m) {
            Ok(done) => same_slot(m, done, s),
            Err(_) => true,
        },
{
    let rest = without_last_step(m);
    lemma_rest_is_proper(m);
    assert forall|i: int| 0 <= i < rest.queue.len() implies slot_written(#[trigger] rest.queue[i])
        != Some(s) by {
        assert(slot_read(m.queue.last(), s));
    }
    lemma_untouched_after_step(depth, m, s);
    match process(depth, rest, m.queue.last()) {
        Ok(after) => {
            if total_weight(after.queue) < total_weight(m.queue) {
                lemma_untouched_stays(depth, after, s);
            }
        },
        Err(_) => {},
    }
}

/// The machine after steps were done until at most `len` of them are left.
pub open spec fn run_down(depth: nat, m: MachineView, len: nat) -> Step
    decreases total_weight(m.queue),
{
    if m.queue.len() <= len {
        Ok(m)
    } else {
        match process(depth, without_last_step(m), m.queue.last()) {
            Err(message) => Err(message),
            Ok(after) => if total_weight(after.queue) < total_weight(m.queue) {
                run_down(depth, after, len)
            } else {
                Err(Seq::empty())
            },
        }
    }
}

proof fn lemma_run_down_then(depth: nat, m: MachineView, len: nat)
    ensures
        run_queue(depth, m) == match run_down(depth, m, len) {
            Ok(mid) => run_queue(depth, mid),
            Err(message) => Err(message),
        },
    decreases total_weight(m.queue),
{
    if m.queue.len() > len {
        match process(depth, without_last_step(m), m.queue.last()) {
            Ok(after) => {
                if total_weight(after.queue) < total_weight(m.queue) {
                    lemma_run_down_then(depth, after, len);
                }
            },
            Err(_) => {},
        }
    }
}

/// Whether a slot is that of a chain whose step `k` is skipped, or of that step or a later one.
spec fn dead(base: int, k: int, n: int, s: u32) -> bool {
    s == 0 || base + k <= s < base + n
}

/// Whether a step fills no slot of the skipped part of a chain.
spec fn spares(base: int, k: int, n: int, item: WorkItemView) -> bool {
    ||| slot_written(item) is None
    ||| !dead(base, k, n, slot_written(item)->0)
    ||| item is EvaluateWithPiped && item->EvaluateWithPiped_expr.node is Skip
}

/// A chain whose step `k` is skipped, before the steps behind that one.
spec fn chain_waits(m: MachineView, later: Seq<WorkItemView>, base: int, k: int, n: int) -> bool {
    &&& proper(m)
    &&& base + n <= m.next_slot
    &&& starts_as(later, m.queue)
    &&& forall|s: u32| dead(base, k, n, s) ==> !#[trigger] m.results.contains_key(s)
    &&& forall|i: int|
        later.len() <= i < m.queue.len() ==> spares(base, k, n, #[trigger] m.queue[i])
}

proof fn lemma_chain_waits(
    depth: nat,
    m: MachineView,
    later: Seq<WorkItemView>,
    base: int,
    k: int,
    n: int,
)
    requires
        chain_waits(m, later, base, k, n),
        base >= 1,
        0 <= k < n,
    ensures
        match run_down(depth, m, later.len()) {
            Ok(mid) => chain_waits(mid, later, base, k, n) && mid.queue == later,
            Err(_) => true,
        },
    decreases total_weight(m.queue),
{
    if m.queue.len() <= later.len() {
        assert(m.queue =~= later);
    } else {
        let rest = without_last_step(m);
        let item = m.queue.last();
        assert(spares(base, k, n, m.queue[m.queue.len() - 1]));
        lemma_rest_is_proper(m);
        lemma_process_tidy(depth, rest, item);
        lemma_step_keeps_proper(depth, m);
        reveal(next_step);
        match process(depth, rest, item) {
            Ok(after) => {
                assert forall|i: int| 0 <= i < rest.queue.len() implies #[trigger] rest.queue[i]
                    == m.queue[i] by {}
                if item is EvaluateWithPiped && item->EvaluateWithPiped_expr.node is Skip {
                    assert(calm(rest, after));
                } else {
                    match slot_written(item) {
                        Some(slot) => {
                            reveal(tidy);
                            assert forall|s: u32| dead(base, k, n, s) implies !(
                            #[trigger] after.results.contains_key(s)) by {
                                assert(!m.results.contains_key(s));
                                assert(!own_slot(rest, after, slot, s));
                                assert(same_slot(rest, after, s));
                            }
                        },
                        None => {},
                    }
                }
                assert(starts_as(rest.queue, after.queue)) by {
                    reveal(tidy);
                }
                assert forall|i: int| 0 <= i < later.len() implies #[trigger] after.queue[i]
                    == later[i] by {
                    assert(rest.queue[i] == m.queue[i]);
                    assert(m.queue[i] == later[i]);
                    assert(after.queue[i] == rest.queue[i]);
                }
                assert forall|i: int| later.len() <= i < after.queue.len() implies spares(
                    base,
                    k,
                    n,
                    #[trigger] after.queue[i],
                ) by {
                    if i < rest.queue.len() {
                        assert(after.queue[i] == rest.queue[i]);
                        assert(spares(base, k, n, m.queue[i]));
                    } else {
                        reveal(tidy);
                    }
                }
                assert(base + n <= after.next_slot) by {
                    reveal(tidy);
                }
                assert(chain_waits(after, later, base, k, n));
                if total_weight(after.queue) < total_weight(m.queue) {
                    lemma_chain_waits(depth, after, later, base, k, n);
                }
            },
            Err(_) => {},
        }
    }
}

/// The steps behind a skipped one do nothing.
proof fn lemma_chain_ends(
    depth: nat,
    m: MachineView,
    rest: Seq<SpannedExpressionView>,
    ctx: EvaluationContextView,
    base: u32,
    slot: u32,
    k: int,
    count: nat,
)
    requires
        0 <= k < rest.len(),
        count <= rest.len() - k,
        base + rest.len() <= u32::MAX,
        forall|s: u32| dead(base as int, k, rest.len() as int, s) ==> !(
        #[trigger] m.results.contains_key(s)),
        m.queue == chain_items(rest, ctx, base, slot).take(count as int),
    ensures
        run_queue(depth, m) == Ok::<MachineView, Seq<char>>(
            MachineView { queue: Seq::empty(), ..m },
        ),
    decreases count,
{
    if count == 0 {
        assert(m.queue =~= Seq::empty());
    } else {
        let n = rest.len();
        let item = m.queue.last();
        let left = without_last_step(m);
        assert(item == chain_items(rest, ctx, base, slot)[count - 1]);
        let prev = slot_at(base, n - count);
        assert(prev == base + n - count);
        assert(dead(base as int, k, n as int, prev));
        assert(!m.results.contains_key(prev));
        assert(process(depth, left, item) == Ok::<MachineView, Seq<char>>(left));
        assert(left.queue =~= chain_items(rest, ctx, base, slot).take(count - 1));
        assert(total_weight(left.queue) < total_weight(m.queue));
        lemma_chain_ends(depth, left, rest, ctx, base, slot, k, (count - 1) as nat);
    }
}

/// The steps that are set up for a chain behind its first.
spec fn chain_items(
    rest: Seq<SpannedExpressionView>,
    ctx: EvaluationContextView,
    base: u32,
    slot: u32,
) -> Seq<WorkItemView> {
    let n = rest.len();
    Seq::new(
        n,
        |j: int|
            WorkItemView::EvaluateWithPiped {
                expr: rest[n - 1 - j],
                prev_slot: slot_at(base, n - 1 - j),
                ctx,
                result_slot: if j == 0 {
                    slot
                } else {
                    slot_at(base, n - j)
                },
            },
    )
}

/// A chain with a skipped step before its last evaluates to nothing, unless a step before the
/// skipped one fails; what comes behind that one is not evaluated.
pub proof fn lemma_skipped_step_skips_chain(
    depth: nat,
    plan: PlanView,
    e: SpannedExpressionView,
    ctx: EvaluationContextView,
    k: int,
)
    requires
        slots_last(e),
        e.node is Pipe,
        0 <= k < pipe_steps(e).len() - 1,
        pipe_steps(e)[k].node is Skip,
    ensures
        ({
            let later = (pipe_steps(e).len() - 1 - k) as nat;
            let done = evaluated(depth, plan, e, ctx);
            match schedule(depth, allocated(fresh_machine(plan), 1), e, ctx, 0) {
                Ok(m) => match run_down(depth, m, later) {
                    Ok(mid) => done == Ok::<(PlanView, Option<u64>), Seq<char>>((mid.plan, None)),
                    Err(message) => done == Err::<(PlanView, Option<u64>), Seq<char>>(message),
                },
                Err(message) => done == Err::<(PlanView, Option<u64>), Seq<char>>(message),
            }
        }),
        k == 0 ==> evaluated(depth, plan, e, ctx) is Ok,
        evaluated(depth, plan, e, ctx) is Ok ==> (evaluated(depth, plan, e, ctx)->Ok_0).1 is None,
{
    let start = allocated(fresh_machine(plan), 1);
    let m = keyed(start, e.persistence);
    let steps = pipe_steps(e);
    let rest = steps.skip(1);
    let n = rest.len();
    let base = m.next_slot;
    let later = chain_items(rest, ctx, base, 0).take(n - k);
    assert(base == 1);
    lemma_pipe_slots(e);
    let set_up = piped_machine(m, rest, ctx, 0);
    assert(set_up.queue =~= chain_items(rest, ctx, base, 0));
    lemma_piped_tidy(m, rest, ctx, 0, n);
    lemma_evaluation_starts_proper(depth, plan, e, ctx);
    lemma_evaluated_by_running(depth, plan, e, ctx);
    lemma_pipe_schedule(depth, start, e, ctx, 0);
    lemma_schedule_tidy(depth, set_up, steps[0], ctx, base);
    match schedule(depth, start, e, ctx, 0) {
        Ok(begun) => {
            lemma_skipped_chain_runs(depth, set_up, steps, ctx, base, k, begun);
        },
        Err(_) => {
            if k == 0 {
                lemma_skip_is_scheduled(depth, set_up, steps[0], ctx, base);
            }
        },
    }
}

proof fn lemma_skip_is_scheduled(
    depth: nat,
    m: MachineView,
    e: SpannedExpressionView,
    ctx: EvaluationContextView,
    slot: u32,
)
    requires
        e.node is Skip,
    ensures
        schedule(depth, m, e, ctx, slot) == Ok::<MachineView, Seq<char>>(keyed(m, e.persistence)),
{
}

proof fn lemma_pipe_schedule(
    depth: nat,
    start: MachineView,
    e: SpannedExpressionView,
    ctx: EvaluationContextView,
    slot: u32,
)
    requires
        e.node is Pipe,
    ensures
        ({
            let m = keyed(start, e.persistence);
            schedule(depth, start, e, ctx, slot) == schedule(
                depth,
                piped_machine(m, pipe_steps(e).skip(1), ctx, slot),
                pipe_steps(e)[0],
                ctx,
                m.next_slot,
            )
        }),
{
    let m = keyed(start, e.persistence);
    let steps = pipe_steps(e);
    let bound = expr_size(e);
    let set_up = piped_machine(m, steps.skip(1), ctx, slot);
    let jobs = seq![(steps[0], m.next_slot)];
    lemma_pipe_slots(e);
    assert(schedule(depth, start, e, ctx, slot) == schedule_jobs(
        depth,
        bound,
        set_up,
        jobs,
        1,
        ctx,
    ));
    assert(schedule_jobs(depth, bound, set_up, jobs, 0, ctx) == Ok::<MachineView, Seq<char>>(
        set_up,
    ));
}

/// Evaluating an expression is scheduling it and doing all steps.
pub proof fn lemma_evaluated_by_running(
    depth: nat,
    plan: PlanView,
    e: SpannedExpressionView,
    ctx: EvaluationContextView,
)
    ensures
        evaluated(depth, plan, e, ctx) == match schedule(
            depth,
            allocated(fresh_machine(plan), 1),
            e,
            ctx,
            0,
        ) {
            Err(message) => Err(message),
            Ok(m) => match run_queue(depth, m) {
                Err(message) => Err(message),
                Ok(done) => Ok(
                    (
                        done.plan,
                        if done.results.contains_key(0) {
                            Some(done.results[0])
                        } else {
                            None
                        },
                    ),
                ),
            },
        },
{
    let start = allocated(fresh_machine(plan), 1);
    assert(total_weight(start.queue) == 0);
    lemma_schedule_weight(depth, start, e, ctx, 0);
}

/// The steps behind a skipped one do nothing once it is their turn.
#[verifier::spinoff_prover]
#[verifier::rlimit(40)]
proof fn lemma_waiting_chain_runs(
    depth: nat,
    begun: MachineView,
    rest: Seq<SpannedExpressionView>,
    ctx: EvaluationContextView,
    base: u32,
    k: int,
)
    requires
        0 <= k < rest.len(),
        base >= 1,
        base + rest.len() <= u32::MAX,
        chain_waits(
            begun,
            chain_items(rest, ctx, base, 0).take(rest.len() - k),
            base as int,
            k,
            rest.len() as int,
        ),
    ensures
        match run_down(depth, begun, (rest.len() - k) as nat) {
            Ok(mid) => {
                &&& run_queue(depth, begun) == Ok::<MachineView, Seq<char>>(
                    MachineView { queue: Seq::empty(), ..mid },
                )
                &&& !mid.results.contains_key(0)
            },
            Err(message) => run_queue(depth, begun) == Err::<MachineView, Seq<char>>(message),
        },
{
    let n = rest.len();
    let later = chain_items(rest, ctx, base, 0).take(n - k);
    assert(later.len() == n - k);
    lemma_chain_waits(depth, begun, later, base as int, k, n as int);
    lemma_run_down_then(depth, begun, later.len());
    match run_down(depth, begun, later.len()) {
        Ok(mid) => {
            lemma_chain_ends(depth, mid, rest, ctx, base, 0, k, (n - k) as nat);
            assert(dead(base as int, k, n as int, 0u32));
        },
        Err(_) => {},
    }
}

proof fn lemma_nothing_above(depth: nat, m: MachineView, len: nat)
    requires
        m.queue.len() <= len,
    ensures
        run_down(depth, m, len) == Ok::<MachineView, Seq<char>>(m),
{
}

#[verifier::spinoff_prover]
#[verifier::rlimit(40)]
proof fn lemma_skipped_chain_runs(
    depth: nat,
    set_up: MachineView,
    steps: Seq<SpannedExpressionView>,
    ctx: EvaluationContextView,
    base: u32,
    k: int,
    begun: MachineView,
)
    requires
        steps.len() >= 2,
        0 <= k < steps.len() - 1,
        steps[k].node is Skip,
        base >= 1,
        set_up.results == Map::<u32, u64>::empty(),
        set_up.queue == chain_items(steps.skip(1), ctx, base, 0),
        set_up.next_slot == base + steps.len() - 1,
        schedule(depth, set_up, steps[0], ctx, base) == Ok::<MachineView, Seq<char>>(begun),
        tidy(set_up, begun, base, 2 * expr_size(steps[0]) - 1),
        proper(begun),
    ensures
        match run_down(depth, begun, (steps.len() - 1 - k) as nat) {
            Ok(mid) => {
                &&& run_queue(depth, begun) == Ok::<MachineView, Seq<char>>(
                    MachineView { queue: Seq::empty(), ..mid },
                )
                &&& !mid.results.contains_key(0)
            },
            Err(message) => run_queue(depth, begun) == Err::<MachineView, Seq<char>>(message),
        },
        k == 0 ==> run_down(depth, begun, (steps.len() - 1 - k) as nat) is Ok,
{
    let rest = steps.skip(1);
    lemma_chain_begins(depth, set_up, steps, ctx, base, k, begun);
    lemma_waiting_chain_runs(depth, begun, rest, ctx, base, k);
    if k == 0 {
        assert(begun.queue.len() == rest.len());
        lemma_nothing_above(depth, begun, rest.len());
    }
}

proof fn lemma_chain_begins(
    depth: nat,
    set_up: MachineView,
    steps: Seq<SpannedExpressionView>,
    ctx: EvaluationContextView,
    base: u32,
    k: int,
    begun: MachineView,
)
    requires
        steps.len() >= 2,
        0 <= k < steps.len() - 1,
        steps[k].node is Skip,
        base >= 1,
        set_up.results == Map::<u32, u64>::empty(),
        set_up.queue == chain_items(steps.skip(1), ctx, base, 0),
        set_up.next_slot == base + steps.len() - 1,
        schedule(depth, set_up, steps[0], ctx, base) == Ok::<MachineView, Seq<char>>(begun),
        tidy(set_up, begun, base, 2 * expr_size(steps[0]) - 1),
        proper(begun),
    ensures
        chain_waits(
            begun,
            set_up.queue.take(steps.len() - 1 - k),
            base as int,
            k,
            steps.len() - 1,
        ),
        k == 0 ==> begun.queue == set_up.queue,
{
    let rest = steps.skip(1);
    let n = rest.len();
    let items = set_up.queue;
    let later = items.take(n - k);
    reveal(tidy);
    if k == 0 {
        assert(calm(set_up, begun));
    }
    assert forall|s: u32| dead(base as int, k, n as int, s) implies !(
    #[trigger] begun.results.contains_key(s)) by {
        if k > 0 {
            assert(!own_slot(set_up, begun, base, s));
            assert(same_slot(set_up, begun, s));
        }
    }
    assert forall|i: int| 0 <= i < later.len() implies #[trigger] begun.queue[i] == later[i] by {
        assert(begun.queue[i] == items[i]);
    }
    assert forall|i: int| later.len() <= i < begun.queue.len() implies spares(
        base as int,
        k,
        n as int,
        #[trigger] begun.queue[i],
    ) by {
        if i < n {
            assert(begun.queue[i] == items[i]);
            assert(slot_at(base, n - i) == base + n - i);
            if i == n - k {
                assert(rest[n - 1 - i] == steps[k]);
            }
        }
    }
}

/// A skipped expression evaluates to nothing, a literal to an actor with its value, and a link or
/// a variable by itself is refused.
pub proof fn lemma_simple_expressions(
    depth: nat,
    plan: PlanView,
    e: SpannedExpressionView,
    ctx: EvaluationContextView,
)
    ensures
        ({
            let done = evaluated(depth, plan, e, ctx);
            &&& e.node is Skip ==> done is Ok && (done->Ok_0).1 is None && (done->Ok_0).0.actors
                == plan.actors
            &&& e.node is Literal ==> {
                &&& done is Ok
                &&& (done->Ok_0).1 == Some(plan.actors.len() as u64)
                &&& (done->Ok_0).0.actors.len() == plan.actors.len() + 1
                &&& (done->Ok_0).0.actors.last().actor == ActorSpecView::Literal(
                    e.node->Literal_0,
                )
            }
            &&& e.node is Link || e.node is Variable ==> done is Err
        }),
{
    lemma_evaluated_by_running(depth, plan, e, ctx);
    let start = allocated(fresh_machine(plan), 1);
    match schedule(depth, start, e, ctx, 0) {
        Ok(m) => {
            if e.node is Skip || e.node is Literal {
                assert(m.queue.len() == 0);
                assert(run_queue(depth, m) == Ok::<MachineView, Seq<char>>(m));
            }
        },
        Err(_) => {},
    }
}

} // verus!
