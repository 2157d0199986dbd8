//! Evaluating expressions without recursion over their results: a queue of steps makes the
//! actors one after the other.
use crate::builtins::{join_texts, static_function_call_path_to_definition};
use crate::contexts::{list_append_key, span_text};
use crate::evaluation::{
    MINUS_ONE_BITS, MOST_NESTED_CALLS, arguments_size, call, evaluated, expr_size, finished,
    list_append, list_binding, next_step, part_evaluated, pipe_steps, piped_machine, process,
    process_call, process_hold, schedule, schedule_block, schedule_call, schedule_items,
    schedule_jobs, schedule_object, total_weight, user_call, value_jobs, variables_size, weight,
};
use crate::evaluation_laws::{
    lemma_argue_jobs_bounded, lemma_argument_size, lemma_item_size, lemma_items_error,
    lemma_jobs_error, lemma_nothing_to_do, lemma_pipe_steps_size, lemma_schedule_weight,
    lemma_step_by_step, lemma_steps_size_positive, lemma_steps_size_split,
};
use crate::evaluation_parts::{
    actors_in_slots, argument_seq, arguments_in_slots, build_link_relay, build_object,
    build_text_literal_actor, build_then_actor, build_when_actor, build_while_actor,
    collect_pipe_steps, collect_value_jobs, connect_forwarding, create_binary_op_actor, data_seq,
    declare_variables, evaluate_alias_immediate, find_function, first_unbound, is_append,
    is_optional, is_step, job_seq, kept_identity, lemma_builtin_of, lemma_value_jobs_bounded,
    list_operation, locals_context, message, one_job, parameters_with_arguments,
    positional_arguments, push_wraps, quoted, set_up_arguments, slot_seq, store_if_any, two_jobs,
};
use crate::evaluation_state::{
    EvaluationState, MachineView, allocated, empty_plan, fresh_machine, slot_at,
};
use crate::expression_view::{
    lemma_arm_seq, lemma_spanned_argument_seq, lemma_spanned_expression_seq,
    lemma_spanned_variable_seq, spanned_argument_seq, spanned_expression_seq,
    spanned_variable_seq,
};
use crate::plan::{
    ActorContext, ActorSpec, ArgumentSlot, EvaluationContext, ListBindingOperation,
    PersistenceKey, Plan, ScopeSegment, WorkItem,
};
use crate::plan_clone::{clone_map_u64, clone_vec_u32};
use crate::plan_view::{PlanView, WorkItemView};
use crate::semantic_clone::clone_vec_text;
use crate::static_expression::{
    Alias, BinaryOpKind, Expression, Literal, Span, SpannedArgument, SpannedExpression,
    SpannedVariable, StaticFunctionDefinition, Variable,
};
use crate::text_map::lemma_pairs_map_has;
use crate::values::text_seq;
use vstd::prelude::*;
use vstd::string::*;

verus! {

/// Evaluates an expression on top of a plan. The result is the actor of its value, which a
/// skipped expression lacks. An expression that cannot be evaluated leaves the plan as it was.
pub fn evaluate_expression(
    plan: &mut Plan,
    expression: &SpannedExpression,
    ctx: &EvaluationContext,
) -> (r: Result<Option<u64>, String>)
    ensures
        match r {
            Ok(actor) => evaluated(
                MOST_NESTED_CALLS as nat,
                old(plan)@,
                expression@,
                ctx@,
            ) == Ok::<(PlanView, Option<u64>), Seq<char>>((final(plan)@, actor)),
            Err(e) => final(plan)@ == old(plan)@ && evaluated(
                MOST_NESTED_CALLS as nat,
                old(plan)@,
                expression@,
                ctx@,
            ) == Err::<(PlanView, Option<u64>), Seq<char>>(e@),
        },
{
    let before = plan.clone();
    match evaluate_within(plan, expression, ctx, MOST_NESTED_CALLS) {
        Ok(actor) => Ok(actor),
        Err(e) => {
            *plan = before;
            Err(e)
        },
    }
}

/// Evaluates an expression on top of a plan, with calls nested `depth` deep at most. Where it
/// cannot be evaluated, nothing is left of the plan.
#[verifier::spinoff_prover]
#[verifier::rlimit(40)]
pub fn evaluate_within(
    plan: &mut Plan,
    expression: &SpannedExpression,
    ctx: &EvaluationContext,
    depth: u64,
) -> (r: Result<Option<u64>, String>)
    ensures
        match r {
            Ok(actor) => evaluated(depth as nat, old(plan)@, expression@, ctx@) == Ok::<
                (PlanView, Option<u64>),
                Seq<char>,
            >((final(plan)@, actor)),
            Err(e) => final(plan)@ == empty_plan() && evaluated(
                depth as nat,
                old(plan)@,
                expression@,
                ctx@,
            ) == Err::<(PlanView, Option<u64>), Seq<char>>(e@),
        },
    decreases depth as nat, expr_size(expression@), 7nat, 0nat,
{
    let ghost start = plan@;
    let mut taken = Plan { actors: Vec::new(), registrations: Vec::new(), fresh: 0 };
    proof {
        assert(taken@ =~= empty_plan());
    }
    core::mem::swap(plan, &mut taken);
    let mut state = EvaluationState::with_plan(taken);
    let final_slot: u32 = state.alloc_slot();
    let ghost begun = state@;
    proof {
        assert(begun =~= allocated(fresh_machine(start), 1));
        assert(total_weight(begun.queue) == 0);
        lemma_schedule_weight(depth as nat, begun, expression@, ctx@, 0);
    }
    match schedule_expression(&mut state, expression, ctx, final_slot, depth) {
        Err(e) => {
            return Err(e);
        },
        Ok(_) => {},
    }
    proof {
        reveal(finished);
    }
    match run_steps(&mut state, depth) {
        Err(e) => {
            return Err(e);
        },
        Ok(_) => {},
    }
    let result = state.get(final_slot);
    *plan = state.take_plan();
    Ok(result)
}

#[verifier::spinoff_prover]
fn do_step(state: &mut EvaluationState, depth: u64) -> (r: Result<bool, String>)
    ensures
        match r {
            Ok(false) => old(state)@.queue.len() == 0 && final(state)@ == old(state)@,
            Ok(true) => old(state)@.queue.len() > 0 && next_step(depth as nat, old(state)@) == Ok::<
                MachineView,
                Seq<char>,
            >(final(state)@),
            Err(e) => old(state)@.queue.len() > 0 && next_step(depth as nat, old(state)@) == Err::<
                MachineView,
                Seq<char>,
            >(e@),
        },
    decreases depth as nat, total_weight(old(state)@.queue), 5nat, 0nat,
{
    let ghost before = state@;
    match state.pop() {
        None => Ok(false),
        Some(item) => {
            proof {
                reveal(next_step);
                assert(state@ == (MachineView { queue: before.queue.drop_last(), ..before }));
            }
            match process_work_item(state, &item, depth) {
                Err(e) => Err(e),
                Ok(_) => Ok(true),
            }
        },
    }
}

#[verifier::spinoff_prover]
fn run_steps(state: &mut EvaluationState, depth: u64) -> (r: Result<(), String>)
    ensures
        match r {
            Ok(_) => finished(depth as nat, old(state)@) == Ok::<MachineView, Seq<char>>(
                final(state)@,
            ),
            Err(e) => finished(depth as nat, old(state)@) == Err::<MachineView, Seq<char>>(e@),
        },
    decreases depth as nat, total_weight(old(state)@.queue), 6nat, 0nat,
{
    let ghost start = state@;
    loop
        invariant_except_break
            finished(depth as nat, start) == finished(depth as nat, state@),
            total_weight(state@.queue) <= total_weight(start.queue),
        invariant
            start == old(state)@,
        ensures
            finished(depth as nat, start) == Ok::<MachineView, Seq<char>>(state@),
        decreases total_weight(state@.queue),
    {
        let ghost before = state@;
        proof {
            if before.queue.len() > 0 {
                lemma_step_by_step(depth as nat, before);
            } else {
                lemma_nothing_to_do(depth as nat, before);
            }
        }
        match do_step(state, depth) {
            Err(e) => {
                return Err(e);
            },
            Ok(false) => {
                break;
            },
            Ok(true) => {},
        }
    }
    Ok(())
}

#[verifier::spinoff_prover]
fn evaluate_part(
    state: &mut EvaluationState,
    expr: &SpannedExpression,
    ctx: &EvaluationContext,
    depth: u64,
    Ghost(bound): Ghost<nat>,
) -> (r: Result<Option<u64>, String>)
    requires
        expr_size(expr@) < bound,
    ensures
        is_optional(
            r,
            final(state)@,
            part_evaluated(depth as nat, bound, old(state)@, expr@, ctx@),
        ),
    decreases depth as nat, bound, 0nat, 0nat,
{
    let mut plan = state.take_plan();
    let ghost before = plan@;
    match evaluate_within(&mut plan, expr, ctx, depth) {
        Err(e) => Err(e),
        Ok(actor) => {
            state.put_plan(plan);
            Ok(actor)
        },
    }
}

#[verifier::spinoff_prover]
fn schedule_all(
    state: &mut EvaluationState,
    jobs: &Vec<(SpannedExpression, u32)>,
    ctx: &EvaluationContext,
    depth: u64,
    Ghost(bound): Ghost<nat>,
) -> (r: Result<(), String>)
    requires
        forall|i: int| 0 <= i < jobs@.len() ==> expr_size((#[trigger] jobs@[i]).0@) < bound,
    ensures
        is_step(
            r,
            final(state)@,
            schedule_jobs(depth as nat, bound, old(state)@, job_seq(jobs@), jobs@.len(), ctx@),
        ),
    decreases depth as nat, bound, 0nat, 0nat,
{
    let ghost start = state@;
    let ghost all = job_seq(jobs@);
    let mut i: usize = 0;
    while i < jobs.len()
        invariant
            i <= jobs@.len(),
            start == old(state)@,
            all == job_seq(jobs@),
            forall|j: int| 0 <= j < jobs@.len() ==> expr_size((#[trigger] jobs@[j]).0@) < bound,
            schedule_jobs(depth as nat, bound, start, all, i as nat, ctx@) == Ok::<
                MachineView,
                Seq<char>,
            >(state@),
        decreases jobs@.len() - i,
    {
        proof {
            assert(all[i as int] == (jobs@[i as int].0@, jobs@[i as int].1));
            assert(expr_size(jobs@[i as int].0@) < bound);
        }
        match schedule_expression(state, &jobs[i].0, ctx, jobs[i].1, depth) {
            Err(e) => {
                proof {
                    assert(schedule_jobs(depth as nat, bound, start, all, (i + 1) as nat, ctx@)
                        == Err::<MachineView, Seq<char>>(e@));
                    lemma_jobs_error(
                        depth as nat,
                        bound,
                        start,
                        all,
                        (i + 1) as nat,
                        all.len(),
                        ctx@,
                        e@,
                    );
                }
                return Err(e);
            },
            Ok(_) => {},
        }
        i = i + 1;
    }
    Ok(())
}

#[verifier::spinoff_prover]
fn schedule_list_items(
    state: &mut EvaluationState,
    items: &Vec<SpannedExpression>,
    slots: &Vec<u32>,
    base: u32,
    ctx: &EvaluationContext,
    depth: u64,
    Ghost(bound): Ghost<nat>,
) -> (r: Result<(), String>)
    requires
        slots@ == Seq::new(items@.len(), |i: int| slot_at(base, i)),
        forall|i: int| 0 <= i < items@.len() ==> expr_size((#[trigger] items@[i])@) < bound,
    ensures
        is_step(
            r,
            final(state)@,
            schedule_items(
                depth as nat,
                bound,
                old(state)@,
                spanned_expression_seq(items@),
                items@.len(),
                base,
                ctx@,
            ),
        ),
    decreases depth as nat, bound, 0nat, 0nat,
{
    let ghost start = state@;
    let ghost all = spanned_expression_seq(items@);
    proof {
        lemma_spanned_expression_seq(items@);
    }
    let mut i: usize = 0;
    while i < items.len()
        invariant
            i <= items@.len(),
            start == old(state)@,
            all == spanned_expression_seq(items@),
            all.len() == items@.len(),
            slots@ == Seq::new(items@.len(), |i: int| slot_at(base, i)),
            forall|j: int| 0 <= j < items@.len() ==> #[trigger] all[j] == items@[j]@,
            forall|j: int| 0 <= j < items@.len() ==> expr_size((#[trigger] items@[j])@) < bound,
            schedule_items(depth as nat, bound, start, all, i as nat, base, ctx@) == Ok::<
                MachineView,
                Seq<char>,
            >(state@),
        decreases items@.len() - i,
    {
        let item = &items[i];
        proof {
            assert(all[i as int] == item@);
            assert(expr_size(items@[i as int]@) < bound);
        }
        let key = state.key_for(item.persistence);
        let segment = ScopeSegment::ListItem { index: i as u64, key };
        let item_ctx = ctx.with_actor_context(ctx.actor_context.with_child_scope(segment));
        match schedule_expression(state, item, &item_ctx, slots[i], depth) {
            Err(e) => {
                proof {
                    assert(schedule_items(
                        depth as nat,
                        bound,
                        start,
                        all,
                        (i + 1) as nat,
                        base,
                        ctx@,
                    ) == Err::<MachineView, Seq<char>>(e@));
                    lemma_items_error(
                        depth as nat,
                        bound,
                        start,
                        all,
                        (i + 1) as nat,
                        all.len(),
                        base,
                        ctx@,
                        e@,
                    );
                }
                return Err(e);
            },
            Ok(_) => {},
        }
        i = i + 1;
    }
    Ok(())
}

#[verifier::spinoff_prover]
fn call_user_function(
    state: &mut EvaluationState,
    name: &str,
    path: &Vec<String>,
    args: &Vec<(String, u64)>,
    definition: &StaticFunctionDefinition,
    key: PersistenceKey,
    span: Span,
    ctx: &EvaluationContext,
    depth: u64,
) -> (r: Result<Option<u64>, String>)
    ensures
        is_optional(
            r,
            final(state)@,
            user_call(
                depth as nat,
                old(state)@,
                name@,
                text_seq(path@),
                argument_seq(args@),
                definition@,
                key,
                span,
                ctx@,
            ),
        ),
    decreases depth as nat, 0nat, 0nat, 0nat,
{
    let context = &ctx.actor_context;
    let parameters = parameters_with_arguments(&context.parameters, args);
    let param = first_unbound(&definition.parameters, &parameters);
    proof {
        assert(argument_seq(args@).len() == args@.len());
    }
    if let Some(piped) = context.piped {
        if let Some(param) = param {
            let actor = ActorSpec::PipedUserCall {
                piped,
                param,
                path: clone_vec_text(path),
                definition: definition.clone(),
                parameters,
            };
            let id: u64 = state.add_actor(actor, key, span, context);
            return Ok(Some(id));
        }
    }
    if depth == 0 {
        return Err(quoted("Calls nested too deeply at '", name, "'"));
    }
    let body_context = context.for_call(
        context.piped,
        clone_map_u64(&parameters),
        ScopeSegment::Call { key },
    );
    let body_ctx = ctx.with_actor_context(body_context);
    let mut plan = state.take_plan();
    let result = match evaluate_within(&mut plan, &definition.body, &body_ctx, depth - 1) {
        Err(e) => {
            return Err(e);
        },
        Ok(result) => result,
    };
    state.put_plan(plan);
    match result {
        None => Ok(None),
        Some(actor) => {
            proof {
                use_type_invariant(&parameters);
                if parameters.entries@.len() == 0 {
                    assert(parameters@ =~= Map::<Seq<char>, u64>::empty());
                } else {
                    lemma_pairs_map_has(parameters.entries@, 0);
                }
            }
            if parameters.entries.len() == 0 {
                Ok(Some(actor))
            } else {
                let wrapper = ActorSpec::UserCall { result: actor, parameters };
                let id: u64 = state.add_actor(wrapper, key, span, context);
                Ok(Some(id))
            }
        },
    }
}

/// Calls a function: one of the program if the path names one, else one of the platform.
#[verifier::spinoff_prover]
pub fn call_function(
    state: &mut EvaluationState,
    path: &Vec<String>,
    args: &Vec<(String, u64)>,
    span: Span,
    key: PersistenceKey,
    ctx: &EvaluationContext,
    use_piped_for_builtin: bool,
    depth: u64,
) -> (r: Result<Option<u64>, String>)
    ensures
        is_optional(
            r,
            final(state)@,
            call(
                depth as nat,
                old(state)@,
                text_seq(path@),
                argument_seq(args@),
                key,
                span,
                ctx@,
                use_piped_for_builtin,
            ),
        ),
    decreases depth as nat, 0nat, 1nat, 0nat,
{
    let full_path = join_texts(path, "/");
    if let Some(definition) = find_function(state, ctx, full_path.as_str()) {
        return call_user_function(
            state,
            full_path.as_str(),
            path,
            args,
            &definition,
            key,
            span,
            ctx,
            depth,
        );
    }
    match static_function_call_path_to_definition(path) {
        Err(_) => Err(quoted("Function '", full_path.as_str(), "' not found")),
        Ok(function) => {
            proof {
                lemma_builtin_of(text_seq(path@), function);
            }
            let piped = if use_piped_for_builtin {
                ctx.actor_context.piped
            } else {
                None
            };
            let arguments = positional_arguments(piped, args);
            let id: u64 = state.add_actor(
                ActorSpec::Builtin { function, arguments },
                key,
                span,
                &ctx.actor_context.for_builtin(),
            );
            Ok(Some(id))
        },
    }
}

/// Calls a function with a transform.
#[verifier::spinoff_prover]
fn build_list_binding_function(
    state: &mut EvaluationState,
    name: &str,
    operation: ListBindingOperation,
    arguments: &Vec<SpannedArgument>,
    key: PersistenceKey,
    span: Span,
    ctx: &EvaluationContext,
    depth: u64,
    Ghost(bound): Ghost<nat>,
) -> (r: Result<Option<u64>, String>)
    requires
        bound == 2 + arguments_size(spanned_argument_seq(arguments@), arguments@.len()),
    ensures
        is_optional(
            r,
            final(state)@,
            list_binding(
                depth as nat,
                bound,
                old(state)@,
                name@,
                operation,
                spanned_argument_seq(arguments@),
                key,
                span,
                ctx@,
            ),
        ),
    decreases depth as nat, bound, 1nat, 0nat,
{
    let ghost all = spanned_argument_seq(arguments@);
    proof {
        lemma_spanned_argument_seq(arguments@);
    }
    if arguments.len() < 2 {
        return Err(quoted("List/", name, " requires 2 arguments"));
    }
    proof {
        assert(all[0] == arguments@[0]@);
        assert(all[1] == arguments@[1]@);
        lemma_argument_size(all, all.len(), 0);
    }
    let list: u64 = match &arguments[0].value {
        Some(value) => match evaluate_part(state, value, ctx, depth, Ghost(bound)) {
            Err(e) => {
                return Err(e);
            },
            Ok(None) => {
                return Ok(None);
            },
            Ok(Some(actor)) => actor,
        },
        None => match ctx.actor_context.piped {
            Some(piped) => piped,
            None => {
                return Err(quoted("List/", name, " requires a list argument"));
            },
        },
    };
    match &arguments[1].value {
        None => Err(quoted("List/", name, " requires a transform expression")),
        Some(transform) => {
            if !ctx.try_reference_connector() {
                Err(message("ReferenceConnector dropped - program shutting down"))
            } else if !ctx.try_link_connector() {
                Err(message("LinkConnector dropped - program shutting down"))
            } else if !ctx.try_pass_through_connector() {
                Err(message("PassThroughConnector dropped - program shutting down"))
            } else {
                let actor = ActorSpec::ListBinding {
                    operation,
                    binding: arguments[0].name.clone(),
                    list,
                    transform: transform.clone(),
                };
                let id: u64 = state.add_actor(actor, key, span, &ctx.actor_context);
                Ok(Some(id))
            }
        },
    }
}

/// Calls the function that appends to a list. The calls that make its items are recorded.
#[verifier::spinoff_prover]
fn build_list_append_with_recording(
    state: &mut EvaluationState,
    arguments: &Vec<SpannedArgument>,
    key: PersistenceKey,
    span: Span,
    ctx: &EvaluationContext,
    depth: u64,
    Ghost(bound): Ghost<nat>,
) -> (r: Result<Option<u64>, String>)
    requires
        bound == 2 + arguments_size(spanned_argument_seq(arguments@), arguments@.len()),
    ensures
        is_optional(
            r,
            final(state)@,
            list_append(
                depth as nat,
                bound,
                old(state)@,
                spanned_argument_seq(arguments@),
                key,
                span,
                ctx@,
            ),
        ),
    decreases depth as nat, bound, 1nat, 0nat,
{
    let ghost all = spanned_argument_seq(arguments@);
    proof {
        lemma_spanned_argument_seq(arguments@);
    }
    if arguments.len() == 0 {
        return Err(message("List/append requires an item argument"));
    }
    proof {
        assert(all[0] == arguments@[0]@);
        lemma_argument_size(all, all.len(), 0);
    }
    let list: u64 = match ctx.actor_context.piped {
        None => {
            return Err(message("List/append requires a list (piped)"));
        },
        Some(list) => list,
    };
    match &arguments[0].value {
        None => Err(message("List/append requires an item expression")),
        Some(value) => {
            let item_ctx = ctx.with_actor_context(ctx.actor_context.for_recording(span));
            match evaluate_part(state, value, &item_ctx, depth, Ghost(bound)) {
                Err(e) => Err(e),
                Ok(None) => Ok(Some(list)),
                Ok(Some(item)) => {
                    let actor = ActorSpec::ListAppend {
                        list,
                        item,
                        storage_key: list_append_key(span),
                    };
                    let id: u64 = state.add_actor(actor, key, span, &ctx.actor_context);
                    Ok(Some(id))
                },
            }
        },
    }
}

#[verifier::spinoff_prover]
fn schedule_function_call(
    state: &mut EvaluationState,
    path: &Vec<String>,
    arguments: &Vec<SpannedArgument>,
    span: Span,
    key: PersistenceKey,
    ctx: &EvaluationContext,
    slot: u32,
    forward: bool,
    depth: u64,
    Ghost(bound): Ghost<nat>,
) -> (r: Result<(), String>)
    requires
        bound == 2 + arguments_size(spanned_argument_seq(arguments@), arguments@.len()),
    ensures
        is_step(
            r,
            final(state)@,
            schedule_call(
                depth as nat,
                bound,
                old(state)@,
                text_seq(path@),
                spanned_argument_seq(arguments@),
                span,
                key,
                ctx@,
                slot,
                forward,
            ),
        ),
    decreases depth as nat, bound, 1nat, 0nat,
{
    let ghost start = state@;
    let ghost all = spanned_argument_seq(arguments@);
    proof {
        lemma_spanned_argument_seq(arguments@);
    }
    let a = match set_up_arguments(state, arguments, ctx, span, forward) {
        Err(e) => {
            return Err(e);
        },
        Ok(a) => a,
    };
    proof {
        assert forall|i: int| 0 <= i < a.jobs@.len() implies expr_size((#[trigger] a.jobs@[i]).0@)
            < bound by {
            lemma_argue_jobs_bounded(start, all, ctx@, span, forward, i);
            assert(job_seq(a.jobs@)[i].0 == a.jobs@[i].0@);
        }
        assert(job_seq(a.jobs@).len() == a.jobs@.len());
    }
    let job_ctx = if forward {
        locals_context(ctx, a.locals)
    } else {
        ctx.clone()
    };
    state.push(
        WorkItem::CallFunction {
            path: clone_vec_text(path),
            arg_slots: a.slots,
            passed_slot: a.passed_slot,
            passed_context: a.passed_context,
            use_piped_for_builtin: !forward,
            span,
            key,
            ctx: ctx.clone(),
            result_slot: slot,
        },
    );
    if a.connections.len() > 0 {
        state.push(WorkItem::ConnectForwardingActors { connections: a.connections });
    }
    if forward {
        push_wraps(state, &a.jobs, &job_ctx);
    }
    schedule_all(state, &a.jobs, &job_ctx, depth, Ghost(bound))
}

#[verifier::spinoff_prover]
fn schedule_object_literal(
    state: &mut EvaluationState,
    tag: Option<&String>,
    variables: &Vec<SpannedVariable>,
    span: Span,
    key: PersistenceKey,
    ctx: &EvaluationContext,
    slot: u32,
    depth: u64,
    Ghost(bound): Ghost<nat>,
) -> (r: Result<(), String>)
    requires
        bound == 1 + variables_size(spanned_variable_seq(variables@), variables@.len()),
    ensures
        is_step(
            r,
            final(state)@,
            schedule_object(
                depth as nat,
                bound,
                old(state)@,
                match tag {
                    Some(t) => Some(t@),
                    None => None,
                },
                spanned_variable_seq(variables@),
                span,
                key,
                ctx@,
                slot,
            ),
        ),
    decreases depth as nat, bound, 1nat, 0nat,
{
    let ghost all = spanned_variable_seq(variables@);
    proof {
        lemma_spanned_variable_seq(variables@);
    }
    let d = declare_variables(state, variables, ctx);
    let inner = locals_context(ctx, d.locals);
    let mut jobs: Vec<(SpannedExpression, u32)> = Vec::new();
    collect_value_jobs(variables, &d.data, Some(false), &mut jobs);
    collect_value_jobs(variables, &d.data, Some(true), &mut jobs);
    proof {
        let known = data_seq(d.data@);
        let first = value_jobs(all, known, all.len(), Some(false));
        let second = value_jobs(all, known, all.len(), Some(true));
        assert(job_seq(jobs@) =~= first + second);
        assert(job_seq(jobs@).len() == jobs@.len());
        assert forall|i: int| 0 <= i < jobs@.len() implies expr_size((#[trigger] jobs@[i]).0@)
            < bound by {
            assert(job_seq(jobs@)[i].0 == jobs@[i].0@);
            if i < first.len() {
                lemma_value_jobs_bounded(all, known, Some(false), all.len(), i);
            } else {
                lemma_value_jobs_bounded(all, known, Some(true), all.len(), i - first.len());
            }
        }
    }
    let item = match tag {
        None => WorkItem::BuildObject {
            variable_data: d.data,
            span,
            key,
            ctx: inner.clone(),
            result_slot: slot,
        },
        Some(tag) => WorkItem::BuildTaggedObject {
            tag: tag.clone(),
            variable_data: d.data,
            span,
            key,
            ctx: inner.clone(),
            result_slot: slot,
        },
    };
    state.push(item);
    schedule_all(state, &jobs, &inner, depth, Ghost(bound))
}

#[verifier::spinoff_prover]
#[verifier::rlimit(60)]
fn schedule_block_literal(
    state: &mut EvaluationState,
    variables: &Vec<SpannedVariable>,
    output: &SpannedExpression,
    span: Span,
    key: PersistenceKey,
    ctx: &EvaluationContext,
    slot: u32,
    depth: u64,
    Ghost(bound): Ghost<nat>,
) -> (r: Result<(), String>)
    requires
        bound == 2 + variables_size(spanned_variable_seq(variables@), variables@.len())
            + expr_size(output@),
    ensures
        is_step(
            r,
            final(state)@,
            schedule_block(
                depth as nat,
                bound,
                old(state)@,
                spanned_variable_seq(variables@),
                output@,
                span,
                key,
                ctx@,
                slot,
            ),
        ),
    decreases depth as nat, bound, 1nat, 0nat,
{
    let ghost start = state@;
    let ghost all = spanned_variable_seq(variables@);
    proof {
        lemma_spanned_variable_seq(variables@);
    }
    let object_slot: u32 = state.alloc_slot();
    let output_slot: u32 = state.alloc_slot();
    proof {
        assert(state@ =~= allocated(start, 2));
    }
    let d = declare_variables(state, variables, ctx);
    let mut inner = locals_context(ctx, d.locals);
    inner.actor_context.is_snapshot_context = false;
    state.push(WorkItem::BuildBlock { object_slot, output_slot, result_slot: slot });
    let mut out_jobs: Vec<(SpannedExpression, u32)> = Vec::new();
    out_jobs.push((output.clone(), output_slot));
    proof {
        assert(job_seq(out_jobs@) =~= seq![(output@, output_slot)]);
    }
    match schedule_all(state, &out_jobs, &inner, depth, Ghost(bound)) {
        Err(e) => {
            return Err(e);
        },
        Ok(_) => {},
    }
    let mut jobs: Vec<(SpannedExpression, u32)> = Vec::new();
    collect_value_jobs(variables, &d.data, None, &mut jobs);
    proof {
        let known = data_seq(d.data@);
        assert(job_seq(jobs@) =~= value_jobs(all, known, all.len(), None));
        assert(job_seq(jobs@).len() == jobs@.len());
        assert forall|i: int| 0 <= i < jobs@.len() implies expr_size((#[trigger] jobs@[i]).0@)
            < bound by {
            assert(job_seq(jobs@)[i].0 == jobs@[i].0@);
            lemma_value_jobs_bounded(all, known, None, all.len(), i);
        }
    }
    state.push(
        WorkItem::BuildObject {
            variable_data: d.data,
            span,
            key,
            ctx: inner.clone(),
            result_slot: object_slot,
        },
    );
    schedule_all(state, &jobs, &inner, depth, Ghost(bound))
}

#[verifier::spinoff_prover]
fn schedule_plain(
    state: &mut EvaluationState,
    expr: &SpannedExpression,
    ctx: &EvaluationContext,
    slot: u32,
    depth: u64,
) -> (r: Result<(), String>)
    requires
        expr@.node is Variable || expr@.node is Link || expr@.node is Literal || expr@.node is Skip
            || expr@.node is Hold || expr@.node is Function || expr@.node is FieldAccess
            || expr@.node is Unsupported,
    ensures
        is_step(r, final(state)@, schedule(depth as nat, old(state)@, expr@, ctx@, slot)),
{
    proof {
        assert(expr@.node == expr.node@);
    }
    let context = &ctx.actor_context;
    let key = state.key_for(expr.persistence);
    match &expr.node {
        Expression::Variable(_) => Err(
            message("Failed to evaluate the variable in this context."),
        ),
        Expression::Link => Err(
            message(
                "LINK expression should only appear as a variable value in objects/blocks, not evaluated directly.",
            ),
        ),
        Expression::Literal(literal) => {
            state.emit(slot, ActorSpec::Literal(literal.clone()), key, expr.span, context);
            Ok(())
        },
        Expression::Hold { state_param, body } => match context.piped {
            None => Err(message("HOLD requires a piped value for initial state")),
            Some(piped) => {
                let initial_slot: u32 = state.alloc_slot();
                state.push(
                    WorkItem::BuildHold {
                        initial_slot,
                        state_param: state_param.clone(),
                        body: (**body).clone(),
                        span: expr.span,
                        key,
                        ctx: ctx.clone(),
                        result_slot: slot,
                    },
                );
                state.store(initial_slot, piped);
                Ok(())
            },
        },
        Expression::Function { name, parameters, body } => {
            let definition = StaticFunctionDefinition {
                parameters: clone_vec_text(parameters),
                body: (**body).clone(),
            };
            state.register_function(name.clone(), definition);
            state.emit(slot, ActorSpec::Function { name: name.clone() }, key, expr.span, context);
            Ok(())
        },
        Expression::FieldAccess { path } => match context.piped {
            None => Err(message("FieldAccess requires a piped value")),
            Some(piped) => {
                let actor = ActorSpec::FieldAccess { piped, path: clone_vec_text(path) };
                state.emit(slot, actor, key, expr.span, context);
                Ok(())
            },
        },
        Expression::Unsupported => {
            let mut text =
                "Expression type not yet supported in stack-safe evaluator: ".to_owned();
            text.append(span_text(expr.span).as_str());
            Err(text)
        },
        _ => Ok(()),
    }
}

#[verifier::spinoff_prover]
fn schedule_reference(
    state: &mut EvaluationState,
    expr: &SpannedExpression,
    ctx: &EvaluationContext,
    slot: u32,
    depth: u64,
) -> (r: Result<(), String>)
    requires
        expr@.node is Alias || expr@.node is LinkSetter || expr@.node is TextLiteral,
    ensures
        is_step(r, final(state)@, schedule(depth as nat, old(state)@, expr@, ctx@, slot)),
{
    proof {
        assert(expr@.node == expr.node@);
    }
    let key = state.key_for(expr.persistence);
    match &expr.node {
        Expression::Alias(alias) => {
            match evaluate_alias_immediate(state, alias, key, expr.span, ctx) {
                Err(e) => Err(e),
                Ok(actor) => {
                    state.store(slot, actor);
                    Ok(())
                },
            }
        },
        Expression::LinkSetter { alias } => {
            match evaluate_alias_immediate(state, alias, key, expr.span, ctx) {
                Err(e) => Err(e),
                Ok(actor) => {
                    state.emit(
                        slot,
                        ActorSpec::Relay { source: actor },
                        key,
                        expr.span,
                        &ctx.actor_context,
                    );
                    Ok(())
                },
            }
        },
        Expression::TextLiteral { parts } => {
            build_text_literal_actor(state, parts, key, expr.span, ctx, slot)
        },
        _ => Ok(()),
    }
}

#[verifier::spinoff_prover]
fn schedule_flow(
    state: &mut EvaluationState,
    expr: &SpannedExpression,
    ctx: &EvaluationContext,
    slot: u32,
    depth: u64,
) -> (r: Result<(), String>)
    requires
        expr@.node is Then || expr@.node is When || expr@.node is While,
    ensures
        is_step(r, final(state)@, schedule(depth as nat, old(state)@, expr@, ctx@, slot)),
{
    proof {
        assert(expr@.node == expr.node@);
    }
    let key = state.key_for(expr.persistence);
    let built = match &expr.node {
        Expression::Then { body } => build_then_actor(state, body, expr.persistence, ctx),
        Expression::When { arms } => build_when_actor(state, arms, ctx),
        Expression::While { arms } => build_while_actor(state, arms, ctx),
        _ => Err(String::new()),
    };
    match built {
        Err(e) => Err(e),
        Ok(actor) => {
            state.emit(slot, actor, key, expr.span, &ctx.actor_context);
            Ok(())
        },
    }
}

#[verifier::spinoff_prover]
fn schedule_list(
    state: &mut EvaluationState,
    expr: &SpannedExpression,
    ctx: &EvaluationContext,
    slot: u32,
    depth: u64,
) -> (r: Result<(), String>)
    requires
        expr@.node is List || expr@.node is Latest,
    ensures
        is_step(r, final(state)@, schedule(depth as nat, old(state)@, expr@, ctx@, slot)),
    decreases depth as nat, expr_size(expr@), 1nat, 0nat,
{
    proof {
        assert(expr@.node == expr.node@);
    }
    let ghost bound = expr_size(expr@);
    let key = state.key_for(expr.persistence);
    let ghost m = state@;
    match &expr.node {
        Expression::List { items } => {
            let ghost all = spanned_expression_seq(items@);
            proof {
                lemma_spanned_expression_seq(items@);
                assert forall|i: int| 0 <= i < items@.len() implies expr_size(
                    (#[trigger] items@[i])@,
                ) < bound by {
                    assert(all[i] == items@[i]@);
                    lemma_item_size(all, all.len(), i);
                }
            }
            let slots = state.alloc_slots(items.len());
            state.push(
                WorkItem::BuildList {
                    item_slots: clone_vec_u32(&slots),
                    span: expr.span,
                    key,
                    ctx: ctx.clone(),
                    result_slot: slot,
                },
            );
            let base: u32 = if items.len() > 0 {
                slots[0]
            } else {
                0
            };
            proof {
                if items@.len() > 0 {
                    assert(base == slot_at(m.next_slot, 0));
                    assert(base == m.next_slot);
                } else {
                    assert(schedule_items(
                        depth as nat,
                        bound,
                        state@,
                        all,
                        0,
                        m.next_slot,
                        ctx@,
                    ) == Ok::<MachineView, Seq<char>>(state@));
                    assert(schedule_items(depth as nat, bound, state@, all, 0, base, ctx@) == Ok::<
                        MachineView,
                        Seq<char>,
                    >(state@));
                }
                assert(slots@ =~= Seq::new(items@.len(), |i: int| slot_at(base, i)));
            }
            schedule_list_items(state, items, &slots, base, ctx, depth, Ghost(bound))
        },
        Expression::Latest { inputs } => {
            let ghost all = spanned_expression_seq(inputs@);
            proof {
                lemma_spanned_expression_seq(inputs@);
            }
            let slots = state.alloc_slots(inputs.len());
            state.push(
                WorkItem::BuildLatest {
                    input_slots: clone_vec_u32(&slots),
                    span: expr.span,
                    key,
                    ctx: ctx.clone(),
                    result_slot: slot,
                },
            );
            let mut jobs: Vec<(SpannedExpression, u32)> = Vec::new();
            let mut i: usize = 0;
            while i < inputs.len()
                invariant
                    i <= inputs@.len(),
                    i == jobs@.len(),
                    slots@.len() == inputs@.len(),
                    forall|j: int|
                        0 <= j < i ==> (#[trigger] jobs@[j]).0@ == inputs@[j]@ && jobs@[j].1
                            == slots@[j],
                decreases inputs@.len() - i,
            {
                jobs.push((inputs[i].clone(), slots[i]));
                i = i + 1;
            }
            proof {
                assert(job_seq(jobs@) =~= Seq::new(
                    all.len(),
                    |i: int| (all[i], slot_at(m.next_slot, i)),
                ));
                assert forall|i: int| 0 <= i < jobs@.len() implies expr_size(
                    (#[trigger] jobs@[i]).0@,
                ) < bound by {
                    assert(all[i] == inputs@[i]@);
                    lemma_item_size(all, all.len(), i);
                }
            }
            schedule_all(state, &jobs, ctx, depth, Ghost(bound))
        },
        _ => Ok(()),
    }
}

/// Schedules an operator.
#[verifier::spinoff_prover]
#[verifier::rlimit(40)]
fn schedule_arithmetic_op(
    state: &mut EvaluationState,
    expr: &SpannedExpression,
    ctx: &EvaluationContext,
    slot: u32,
    depth: u64,
) -> (r: Result<(), String>)
    requires
        expr@.node is Operator || expr@.node is Negate,
    ensures
        is_step(r, final(state)@, schedule(depth as nat, old(state)@, expr@, ctx@, slot)),
    decreases depth as nat, expr_size(expr@), 1nat, 0nat,
{
    proof {
        assert(expr@.node == expr.node@);
    }
    let ghost bound = expr_size(expr@);
    let key = state.key_for(expr.persistence);
    let ghost m = state@;
    match &expr.node {
        Expression::Operator { op, operand_a, operand_b } => {
            let a_slot: u32 = state.alloc_slot();
            let b_slot: u32 = state.alloc_slot();
            proof {
                assert(state@ =~= allocated(m, 2));
            }
            state.push(
                WorkItem::BinaryOp {
                    op: *op,
                    operand_a_slot: a_slot,
                    operand_b_slot: b_slot,
                    span: expr.span,
                    key,
                    ctx: ctx.clone(),
                    result_slot: slot,
                },
            );
            let jobs = two_jobs(operand_a, a_slot, operand_b, b_slot);
            schedule_all(state, &jobs, ctx, depth, Ghost(bound))
        },
        Expression::Negate { operand } => {
            let minus_slot: u32 = state.alloc_slot();
            let operand_slot: u32 = state.alloc_slot();
            proof {
                assert(state@ =~= allocated(m, 2));
            }
            state.emit(
                minus_slot,
                ActorSpec::Literal(Literal::Number(MINUS_ONE_BITS)),
                key,
                expr.span,
                &ctx.actor_context,
            );
            state.push(
                WorkItem::BinaryOp {
                    op: BinaryOpKind::Multiply,
                    operand_a_slot: minus_slot,
                    operand_b_slot: operand_slot,
                    span: expr.span,
                    key,
                    ctx: ctx.clone(),
                    result_slot: slot,
                },
            );
            let jobs = one_job(operand, operand_slot);
            schedule_all(state, &jobs, ctx, depth, Ghost(bound))
        },
        _ => Ok(()),
    }
}

#[verifier::spinoff_prover]
fn schedule_pipe(
    state: &mut EvaluationState,
    expr: &SpannedExpression,
    ctx: &EvaluationContext,
    slot: u32,
    depth: u64,
) -> (r: Result<(), String>)
    requires
        expr@.node is Pipe,
    ensures
        is_step(r, final(state)@, schedule(depth as nat, old(state)@, expr@, ctx@, slot)),
    decreases depth as nat, expr_size(expr@), 1nat, 0nat,
{
    let ghost bound = expr_size(expr@);
    let _ = state.key_for(expr.persistence);
    let ghost m = state@;
    let mut steps: Vec<SpannedExpression> = Vec::new();
    collect_pipe_steps(expr, &mut steps);
    let ghost all = pipe_steps(expr@);
    proof {
        assert(steps@.map_values(|x: SpannedExpression| x@) =~= all);
        lemma_pipe_steps_size(expr@);
        lemma_steps_size_split(all, all.len());
        lemma_steps_size_positive(all.skip(1));
        assert(all.len() == steps@.len());
    }
    let n: usize = steps.len() - 1;
    let slots = state.alloc_slots(n);
    let ghost rest = all.skip(1);
    let ghost base = m.next_slot;
    let ghost items = Seq::new(
        n as nat,
        |j: int|
            WorkItemView::EvaluateWithPiped {
                expr: rest[n - 1 - j],
                prev_slot: slot_at(base, n - 1 - j),
                ctx: ctx@,
                result_slot: if j == 0 {
                    slot
                } else {
                    slot_at(base, n - j)
                },
            },
    );
    let ghost queue = state@.queue;
    let ghost ready = state@;
    let mut k: usize = 0;
    proof {
        assert(queue + items.take(0) =~= queue);
    }
    while k < n
        invariant
            k <= n,
            n == rest.len(),
            n + 1 == steps@.len(),
            rest == all.skip(1),
            steps@.map_values(|x: SpannedExpression| x@) == all,
            slots@ == Seq::new(n as nat, |i: int| slot_at(base, i)),
            items == Seq::new(
                n as nat,
                |j: int|
                    WorkItemView::EvaluateWithPiped {
                        expr: rest[n - 1 - j],
                        prev_slot: slot_at(base, n - 1 - j),
                        ctx: ctx@,
                        result_slot: if j == 0 {
                            slot
                        } else {
                            slot_at(base, n - j)
                        },
                    },
            ),
            state@ == (MachineView { queue: queue + items.take(k as int), ..ready }),
        decreases n - k,
    {
        let i: usize = n - 1 - k;
        let result_slot: u32 = if k == 0 {
            slot
        } else {
            slots[i + 1]
        };
        proof {
            assert(steps@.map_values(|x: SpannedExpression| x@)[i + 1] == steps@[i + 1]@);
            assert(rest[i as int] == all[i + 1]);
        }
        let ghost before = state@.queue;
        let item = WorkItem::EvaluateWithPiped {
            expr: steps[i + 1].clone(),
            prev_slot: slots[i],
            ctx: ctx.clone(),
            result_slot,
        };
        state.push(item);
        proof {
            assert(item@ == items[k as int]);
            assert(items.take(k + 1) =~= items.take(k as int).push(items[k as int]));
            assert(before.push(item@) =~= queue + items.take(k + 1));
        }
        k = k + 1;
    }
    proof {
        assert(items.take(n as int) =~= items);
        assert(state@ =~= piped_machine(m, rest, ctx@, slot));
        assert(steps@.map_values(|x: SpannedExpression| x@)[0] == steps@[0]@);
        assert(slots@[0] == slot_at(base, 0));
    }
    let jobs = one_job(&steps[0], slots[0]);
    schedule_all(state, &jobs, ctx, depth, Ghost(bound))
}

#[verifier::spinoff_prover]
fn schedule_structure(
    state: &mut EvaluationState,
    expr: &SpannedExpression,
    ctx: &EvaluationContext,
    slot: u32,
    depth: u64,
) -> (r: Result<(), String>)
    requires
        expr@.node is Block || expr@.node is Object || expr@.node is TaggedObject,
    ensures
        is_step(r, final(state)@, schedule(depth as nat, old(state)@, expr@, ctx@, slot)),
    decreases depth as nat, expr_size(expr@), 2nat, 0nat,
{
    proof {
        assert(expr@.node == expr.node@);
    }
    let ghost bound = expr_size(expr@);
    let key = state.key_for(expr.persistence);
    match &expr.node {
        Expression::Block { variables, output } => {
            proof {
                lemma_spanned_variable_seq(variables@);
            }
            schedule_block_literal(
                state,
                variables,
                output,
                expr.span,
                key,
                ctx,
                slot,
                depth,
                Ghost(bound),
            )
        },
        Expression::Object { variables } => {
            proof {
                lemma_spanned_variable_seq(variables@);
            }
            schedule_object_literal(
                state,
                None,
                variables,
                expr.span,
                key,
                ctx,
                slot,
                depth,
                Ghost(bound),
            )
        },
        Expression::TaggedObject { tag, variables } => {
            proof {
                lemma_spanned_variable_seq(variables@);
            }
            schedule_object_literal(
                state,
                Some(tag),
                variables,
                expr.span,
                key,
                ctx,
                slot,
                depth,
                Ghost(bound),
            )
        },
        _ => Ok(()),
    }
}

#[verifier::spinoff_prover]
fn schedule_any_call(
    state: &mut EvaluationState,
    expr: &SpannedExpression,
    ctx: &EvaluationContext,
    slot: u32,
    depth: u64,
) -> (r: Result<(), String>)
    requires
        expr@.node is FunctionCall,
    ensures
        is_step(r, final(state)@, schedule(depth as nat, old(state)@, expr@, ctx@, slot)),
    decreases depth as nat, expr_size(expr@), 2nat, 0nat,
{
    proof {
        assert(expr@.node == expr.node@);
    }
    let ghost bound = expr_size(expr@);
    let key = state.key_for(expr.persistence);
    match &expr.node {
        Expression::FunctionCall { path, arguments } => {
            proof {
                lemma_spanned_argument_seq(arguments@);
            }
            match list_operation(path) {
                Some(operation) => {
                    proof {
                        assert(text_seq(path@)[1] == path@[1]@);
                    }
                    let result = build_list_binding_function(
                        state,
                        path[1].as_str(),
                        operation,
                        arguments,
                        key,
                        expr.span,
                        ctx,
                        depth,
                        Ghost(bound),
                    );
                    store_if_any(state, result, slot)
                },
                None => {
                    if is_append(path) {
                        let result = build_list_append_with_recording(
                            state,
                            arguments,
                            key,
                            expr.span,
                            ctx,
                            depth,
                            Ghost(bound),
                        );
                        store_if_any(state, result, slot)
                    } else {
                        schedule_function_call(
                            state,
                            path,
                            arguments,
                            expr.span,
                            key,
                            ctx,
                            slot,
                            true,
                            depth,
                            Ghost(bound),
                        )
                    }
                },
            }
        },
        _ => Ok(()),
    }
}

/// Schedules an expression: simple actors are made at once, and for the others the steps that
/// make them are added.
#[verifier::spinoff_prover]
pub fn schedule_expression(
    state: &mut EvaluationState,
    expression: &SpannedExpression,
    ctx: &EvaluationContext,
    result_slot: u32,
    depth: u64,
) -> (r: Result<(), String>)
    ensures
        is_step(
            r,
            final(state)@,
            schedule(depth as nat, old(state)@, expression@, ctx@, result_slot),
        ),
    decreases depth as nat, expr_size(expression@), 3nat, 0nat,
{
    proof {
        assert(expression@.node == expression.node@);
    }
    match &expression.node {
        Expression::List { .. } | Expression::Latest { .. } => {
            schedule_list(state, expression, ctx, result_slot, depth)
        },
        Expression::Operator { .. } | Expression::Negate { .. } => {
            schedule_arithmetic_op(state, expression, ctx, result_slot, depth)
        },
        Expression::Alias(_) | Expression::LinkSetter { .. } | Expression::TextLiteral { .. } => {
            schedule_reference(state, expression, ctx, result_slot, depth)
        },
        Expression::Then { .. } | Expression::When { .. } | Expression::While { .. } => {
            schedule_flow(state, expression, ctx, result_slot, depth)
        },
        Expression::Pipe { .. } => schedule_pipe(state, expression, ctx, result_slot, depth),
        Expression::Block { .. } | Expression::Object { .. } | Expression::TaggedObject { .. } => {
            schedule_structure(state, expression, ctx, result_slot, depth)
        },
        Expression::FunctionCall { .. } => {
            schedule_any_call(state, expression, ctx, result_slot, depth)
        },
        Expression::Variable(_)
        | Expression::Link
        | Expression::Literal(_)
        | Expression::Skip
        | Expression::Hold { .. }
        | Expression::Function { .. }
        | Expression::FieldAccess { .. }
        | Expression::Unsupported => {
            schedule_plain(state, expression, ctx, result_slot, depth)
        },
    }
}

/// Builds HOLD: its state is an actor, and its body is evaluated with the state as parameter.
#[verifier::spinoff_prover]
fn build_hold_actor(
    state: &mut EvaluationState,
    initial: u64,
    state_param: &String,
    body: &SpannedExpression,
    key: PersistenceKey,
    span: Span,
    ctx: &EvaluationContext,
    slot: u32,
    depth: u64,
    Ghost(bound): Ghost<nat>,
) -> (r: Result<(), String>)
    requires
        expr_size(body@) < bound,
    ensures
        is_step(
            r,
            final(state)@,
            process_hold(
                depth as nat,
                bound,
                old(state)@,
                initial,
                state_param@,
                body@,
                key,
                span,
                ctx@,
                slot,
            ),
        ),
    decreases depth as nat, bound, 1nat, 0nat,
{
    let context = &ctx.actor_context;
    let fresh = state.draw();
    let held: u64 = state.add_actor(
        ActorSpec::HoldState { state_param: state_param.clone(), initial },
        fresh,
        span,
        context,
    );
    let body_ctx = ctx.with_actor_context(context.for_hold_body(state_param, held));
    match evaluate_part(state, body, &body_ctx, depth, Ghost(bound)) {
        Err(e) => Err(e),
        Ok(None) => Ok(()),
        Ok(Some(result)) => {
            state.emit(
                slot,
                ActorSpec::Hold { state: held, body: result, initial },
                key,
                span,
                context,
            );
            Ok(())
        },
    }
}

#[verifier::spinoff_prover]
fn finish_call(
    state: &mut EvaluationState,
    path: &Vec<String>,
    arg_slots: &Vec<ArgumentSlot>,
    passed_context: Option<u32>,
    use_piped: bool,
    span: Span,
    key: PersistenceKey,
    ctx: &EvaluationContext,
    slot: u32,
    depth: u64,
) -> (r: Result<(), String>)
    ensures
        is_step(
            r,
            final(state)@,
            process_call(
                depth as nat,
                old(state)@,
                text_seq(path@),
                slot_seq(arg_slots@),
                passed_context,
                use_piped,
                span,
                key,
                ctx@,
                slot,
            ),
        ),
    decreases depth as nat, 0nat, 2nat, 0nat,
{
    proof {
        assert(slot_seq(arg_slots@).len() == arg_slots@.len());
    }
    let args = arguments_in_slots(state, arg_slots);
    let mut call_ctx = ctx.clone();
    if let Some(passed_slot) = passed_context {
        if let Some(passed) = state.get(passed_slot) {
            call_ctx = ctx.with_passed(passed);
        }
    }
    let result = match call_function(
        state,
        path,
        &args,
        span,
        key,
        &call_ctx,
        use_piped,
        depth,
    ) {
        Err(e) => {
            return Err(e);
        },
        Ok(result) => result,
    };
    let loops = state.take_forwarding_loops();
    if let Some(actor) = result {
        if loops.len() == 0 {
            state.store(slot, actor);
        } else {
            state.emit(
                slot,
                ActorSpec::WithLoops { source: actor, loops },
                key,
                span,
                &call_ctx.actor_context,
            );
        }
    }
    Ok(())
}

#[verifier::spinoff_prover]
fn process_flow(state: &mut EvaluationState, item: &WorkItem, depth: u64) -> (r: Result<
    (),
    String,
>)
    requires
        item@ is BuildThen || item@ is BuildWhen || item@ is BuildWhile,
    ensures
        is_step(r, final(state)@, process(depth as nat, old(state)@, item@)),
{
    match item {
        WorkItem::BuildThen { body, span, key, ctx, result_slot, .. } => {
            match build_then_actor(state, body, kept_identity(*key), ctx) {
                Err(e) => Err(e),
                Ok(actor) => {
                    state.emit(
                        *result_slot,
                        actor,
                        *key,
                        *span,
                        &ctx.actor_context,
                    );
                    Ok(())
                },
            }
        },
        WorkItem::BuildWhen { arms, span, key, ctx, result_slot, .. } => {
            proof {
                lemma_arm_seq(arms@);
            }
            match build_when_actor(state, arms, ctx) {
                Err(e) => Err(e),
                Ok(actor) => {
                    state.emit(
                        *result_slot,
                        actor,
                        *key,
                        *span,
                        &ctx.actor_context,
                    );
                    Ok(())
                },
            }
        },
        WorkItem::BuildWhile { arms, span, key, ctx, result_slot, .. } => {
            proof {
                lemma_arm_seq(arms@);
            }
            match build_while_actor(state, arms, ctx) {
                Err(e) => Err(e),
                Ok(actor) => {
                    state.emit(
                        *result_slot,
                        actor,
                        *key,
                        *span,
                        &ctx.actor_context,
                    );
                    Ok(())
                },
            }
        },
        _ => Ok(()),
    }
}

#[verifier::spinoff_prover]
fn process_collection(state: &mut EvaluationState, item: &WorkItem, depth: u64) -> (r: Result<
    (),
    String,
>)
    requires
        item@ is BinaryOp || item@ is BuildList || item@ is BuildLatest || item@ is BuildBlock
            || item@ is ConnectForwardingActors || item@ is WrapWithPersistence
            || item@ is BuildObject || item@ is BuildTaggedObject,
    ensures
        is_step(r, final(state)@, process(depth as nat, old(state)@, item@)),
{
    match item {
        WorkItem::BinaryOp {
            op,
            operand_a_slot,
            operand_b_slot,
            span,
            key,
            ctx,
            result_slot,
        } => {
            let a: u64 = match state.get(*operand_a_slot) {
                None => {
                    return Ok(());
                },
                Some(a) => a,
            };
            let b: u64 = match state.get(*operand_b_slot) {
                None => {
                    return Ok(());
                },
                Some(b) => b,
            };
            state.emit(
                *result_slot,
                create_binary_op_actor(*op, a, b),
                *key,
                *span,
                &ctx.actor_context,
            );
            Ok(())
        },
        WorkItem::BuildList { item_slots, span, key, ctx, result_slot } => {
            let items = actors_in_slots(state, item_slots);
            state.emit(
                *result_slot,
                ActorSpec::List { items },
                *key,
                *span,
                &ctx.actor_context,
            );
            Ok(())
        },
        WorkItem::BuildLatest { input_slots, span, key, ctx, result_slot } => {
            let inputs = actors_in_slots(state, input_slots);
            state.emit(
                *result_slot,
                ActorSpec::Latest { inputs },
                *key,
                *span,
                &ctx.actor_context,
            );
            Ok(())
        },
        WorkItem::BuildObject { variable_data, span, key, ctx, result_slot } => {
            build_object(state, None, variable_data, *span, *key, ctx, *result_slot);
            Ok(())
        },
        WorkItem::BuildTaggedObject {
            tag,
            variable_data,
            span,
            key,
            ctx,
            result_slot,
        } => {
            build_object(state, Some(tag), variable_data, *span, *key, ctx, *result_slot);
            Ok(())
        },
        WorkItem::BuildBlock { object_slot, output_slot, result_slot } => {
            let output: u64 = match state.get(*output_slot) {
                None => {
                    return Ok(());
                },
                Some(output) => output,
            };
            match state.get(*object_slot) {
                None => {
                    state.store(*result_slot, output);
                },
                Some(object) => {
                    let fresh = state.draw();
                    let root = ActorContext::default();
                    state.emit(
                        *result_slot,
                        ActorSpec::Block { object, output },
                        fresh,
                        Span { start: 0, end: 0 },
                        &root,
                    );
                },
            }
            Ok(())
        },
        WorkItem::ConnectForwardingActors { connections } => {
            connect_forwarding(state, connections);
            Ok(())
        },
        WorkItem::WrapWithPersistence { source_slot, persistence_id, ctx, result_slot } => {
            if let Some(source) = state.get(*source_slot) {
                state.emit(
                    *result_slot,
                    ActorSpec::Persisted { source },
                    PersistenceKey::Stored(*persistence_id),
                    Span { start: 0, end: 0 },
                    &ctx.actor_context,
                );
            }
            Ok(())
        },
        _ => Ok(()),
    }
}

#[verifier::spinoff_prover]
fn process_piped(
    state: &mut EvaluationState,
    expr: &SpannedExpression,
    prev_slot: u32,
    ctx: &EvaluationContext,
    result_slot: u32,
    depth: u64,
) -> (r: Result<(), String>)
    ensures
        is_step(
            r,
            final(state)@,
            process(
                depth as nat,
                old(state)@,
                WorkItemView::EvaluateWithPiped { expr: expr@, prev_slot, ctx: ctx@, result_slot },
            ),
        ),
    decreases depth as nat, 1 + expr_size(expr@), 1nat, 0nat,
{
    proof {
        assert(expr@.node == expr.node@);
    }
    let piped: u64 = match state.get(prev_slot) {
        None => {
            return Ok(());
        },
        Some(piped) => piped,
    };
    let inner = ctx.with_piped(piped);
    match &expr.node {
        Expression::FunctionCall { path, arguments } => {
            proof {
                lemma_spanned_argument_seq(arguments@);
            }
            if list_operation(path).is_some() || is_append(path) {
                schedule_expression(state, expr, &inner, result_slot, depth)
            } else {
                let ghost bound = expr_size(expr@);
                let key = state.key_for(expr.persistence);
                schedule_function_call(
                    state,
                    path,
                    arguments,
                    expr.span,
                    key,
                    &inner,
                    result_slot,
                    false,
                    depth,
                    Ghost(bound),
                )
            }
        },
        Expression::LinkSetter { alias } => {
            let key = state.key_for(expr.persistence);
            build_link_relay(state, piped, alias, key, expr.span, &inner, result_slot);
            Ok(())
        },
        _ => schedule_expression(state, expr, &inner, result_slot, depth),
    }
}

/// Does one step.
#[verifier::spinoff_prover]
pub fn process_work_item(state: &mut EvaluationState, item: &WorkItem, depth: u64) -> (r: Result<
    (),
    String,
>)
    ensures
        is_step(r, final(state)@, process(depth as nat, old(state)@, item@)),
    decreases depth as nat, weight(item@), 4nat, 0nat,
{
    let ghost bound = weight(item@);
    match item {
        WorkItem::Evaluate { expr, ctx, result_slot } => {
            schedule_expression(state, expr, ctx, *result_slot, depth)
        },
        WorkItem::EvaluateWithPiped { expr, prev_slot, ctx, result_slot } => {
            process_piped(state, expr, *prev_slot, ctx, *result_slot, depth)
        },
        WorkItem::BuildHold {
            initial_slot,
            state_param,
            body,
            span,
            key,
            ctx,
            result_slot,
        } => {
            let initial: u64 = match state.get(*initial_slot) {
                None => {
                    return Ok(());
                },
                Some(initial) => initial,
            };
            build_hold_actor(
                state,
                initial,
                state_param,
                body,
                *key,
                *span,
                ctx,
                *result_slot,
                depth,
                Ghost(bound),
            )
        },
        WorkItem::CallFunction {
            path,
            arg_slots,
            passed_context,
            use_piped_for_builtin,
            span,
            key,
            ctx,
            result_slot,
            ..
        } => finish_call(
            state,
            path,
            arg_slots,
            *passed_context,
            *use_piped_for_builtin,
            *span,
            *key,
            ctx,
            *result_slot,
            depth,
        ),
        WorkItem::BuildThen { .. } | WorkItem::BuildWhen { .. } | WorkItem::BuildWhile { .. } => {
            process_flow(state, item, depth)
        },
        WorkItem::BinaryOp { .. }
        | WorkItem::BuildList { .. }
        | WorkItem::BuildObject { .. }
        | WorkItem::BuildTaggedObject { .. }
        | WorkItem::BuildLatest { .. }
        | WorkItem::BuildBlock { .. }
        | WorkItem::ConnectForwardingActors { .. }
        | WorkItem::WrapWithPersistence { .. } => process_collection(state, item, depth),
    }
}

} // verus!
