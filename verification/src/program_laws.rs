//! What calls without arguments lead to.
use crate::builtins::joined;
use crate::contexts::{call_body_context, with_context};
use crate::evaluation::{
    MOST_NESTED_CALLS, argue, binding_operation, builtin_of, call, called_function, evaluated,
    expr_size, is_list_path, process, run_queue, schedule, schedule_call, schedule_jobs,
    total_weight, unbound_parameter, user_call, with_locals, wraps,
};
use crate::evaluation_state::{MachineView, allocated, fresh_machine, key_of, keyed, pushed};
use crate::expression_view::{
    ExpressionView, LiteralView, SpannedArgumentView, SpannedExpressionView,
    StaticFunctionDefinitionView,
};
use crate::plan::{ForwardingLoop, FunctionRegistry, PersistenceKey};
use crate::plan_view::{
    ActorContextView, ActorSpecView, EvaluationContextView, PlanView, ScopeSegmentView,
    WorkItemView,
};
use crate::program::{snapshot_functions, top_context, top_expression};
use crate::slot_laws::{lemma_evaluated_by_running, lemma_simple_expressions};
use crate::static_expression::Span;
use vstd::prelude::*;

verus! {

/// A call without arguments of what is no function of the platform.
pub open spec fn plain_call(e: SpannedExpressionView, path: Seq<Seq<char>>) -> bool {
    &&& e.node == (ExpressionView::FunctionCall {
        path,
        arguments: Seq::<SpannedArgumentView>::empty(),
    })
    &&& binding_operation(path) is None
    &&& !is_list_path(path, "append"@)
    &&& builtin_of(path) is None
}

/// The step that a call without arguments leads to.
spec fn call_step(
    path: Seq<Seq<char>>,
    span: Span,
    key: PersistenceKey,
    ctx: EvaluationContextView,
) -> WorkItemView {
    WorkItemView::CallFunction {
        path,
        arg_slots: Seq::empty(),
        passed_slot: None,
        passed_context: None,
        use_piped_for_builtin: false,
        span,
        key,
        ctx,
        result_slot: 0,
    }
}

proof fn lemma_plain_call_scheduled(
    depth: nat,
    plan: PlanView,
    e: SpannedExpressionView,
    path: Seq<Seq<char>>,
    ctx: EvaluationContextView,
)
    requires
        plain_call(e, path),
    ensures
        ({
            let start = allocated(fresh_machine(plan), 1);
            let m = keyed(start, e.persistence);
            let key = key_of(start, e.persistence);
            schedule(depth, start, e, ctx, 0) == Ok::<MachineView, Seq<char>>(
                pushed(m, call_step(path, e.span, key, ctx)),
            )
        }),
{
    let start = allocated(fresh_machine(plan), 1);
    let m = keyed(start, e.persistence);
    let key = key_of(start, e.persistence);
    let none = Seq::<SpannedArgumentView>::empty();
    let bound = expr_size(e);
    assert(schedule(depth, start, e, ctx, 0) == schedule_call(
        depth,
        bound,
        m,
        path,
        none,
        e.span,
        key,
        ctx,
        0,
        true,
    ));
    let called = pushed(m, call_step(path, e.span, key, ctx));
    let inner = with_locals(ctx, ctx.actor_context.object_locals);
    assert(called.queue + wraps(Seq::empty(), 0, inner) =~= called.queue);
    assert(argue(m, none, 0, ctx, e.span, true) is Ok);
    assert(schedule_jobs(depth, bound, called, Seq::empty(), 0, inner) == Ok::<
        MachineView,
        Seq<char>,
    >(called));
}

pub(crate) proof fn lemma_plain_call_evaluated(
    depth: nat,
    plan: PlanView,
    e: SpannedExpressionView,
    path: Seq<Seq<char>>,
    ctx: EvaluationContextView,
)
    requires
        plain_call(e, path),
    ensures
        ({
            let start = allocated(fresh_machine(plan), 1);
            let m = keyed(start, e.persistence);
            let key = key_of(start, e.persistence);
            evaluated(depth, plan, e, ctx) == match call(
                depth,
                m,
                path,
                Seq::empty(),
                key,
                e.span,
                ctx,
                false,
            ) {
                Err(message) => Err(message),
                Ok(done) => Ok((done.0.plan, done.1)),
            }
        }),
{
    let start = allocated(fresh_machine(plan), 1);
    let m = keyed(start, e.persistence);
    let key = key_of(start, e.persistence);
    let item = call_step(path, e.span, key, ctx);
    let begun = pushed(m, item);
    lemma_plain_call_scheduled(depth, plan, e, path, ctx);
    lemma_evaluated_by_running(depth, plan, e, ctx);
    assert(begun.queue.drop_last() =~= m.queue);
    assert(MachineView { queue: begun.queue.drop_last(), ..begun } == m);
    assert(m.loops == Seq::<ForwardingLoop>::empty());
    lemma_called_machine(depth, m, path, key, e.span, ctx);
    let done = process(depth, m, item);
    assert(total_weight(m.queue) == 0);
    assert(total_weight(begun.queue) == 1);
    match done {
        Ok(after) => {
            assert(after.queue == m.queue);
            assert(run_queue(depth, after) == Ok::<MachineView, Seq<char>>(after));
        },
        Err(_) => {},
    }
}

proof fn lemma_called_machine(
    depth: nat,
    m: MachineView,
    path: Seq<Seq<char>>,
    key: PersistenceKey,
    span: Span,
    ctx: EvaluationContextView,
)
    ensures
        match call(depth, m, path, Seq::empty(), key, span, ctx, false) {
            Ok(done) => done.0 == (MachineView { plan: done.0.plan, ..m }),
            Err(_) => true,
        },
{
}

/// Whether a function of a name can be called in a context.
pub open spec fn is_known(ctx: EvaluationContextView, name: Seq<char>) -> bool {
    ctx.function_registry_snapshot is Some
        && ctx.function_registry_snapshot->0.functions.contains_key(name)
}

/// Whether an actor was made behind those of a plan that emits a literal, and is the outcome,
/// itself or, where there are parameters around, through the call that keeps them.
pub open spec fn gives_literal(
    plan: PlanView,
    literal: LiteralView,
    parameters: Map<Seq<char>, u64>,
    after: PlanView,
    actor: u64,
) -> bool {
    let made = plan.actors.len() as int;
    &&& after.actors[made].actor == ActorSpecView::Literal(literal)
    &&& if parameters == Map::<Seq<char>, u64>::empty() {
        &&& actor == made
        &&& after.actors.len() == made + 1
    } else {
        &&& actor == made + 1
        &&& after.actors.len() == made + 2
        &&& after.actors[made + 1].actor == (ActorSpecView::UserCall {
            result: made as u64,
            parameters,
        })
    }
}

proof fn lemma_constant_called(
    depth: nat,
    plan: PlanView,
    e: SpannedExpressionView,
    path: Seq<Seq<char>>,
    ctx: EvaluationContextView,
    definition: StaticFunctionDefinitionView,
    literal: LiteralView,
)
    requires
        plain_call(e, path),
        is_known(ctx, joined(path, "/"@)),
        definition == ctx.function_registry_snapshot->0.functions[joined(path, "/"@)],
        definition.parameters.len() == 0,
        definition.body.node == ExpressionView::Literal(literal),
        depth > 0,
        plan.actors.len() + 1 < u64::MAX,
    ensures
        match evaluated(depth, plan, e, ctx) {
            Ok(done) => done.1 is Some && gives_literal(
                plan,
                literal,
                ctx.actor_context.parameters,
                done.0,
                done.1->0,
            ),
            Err(_) => false,
        },
{
    let context = ctx.actor_context;
    let name = joined(path, "/"@);
    lemma_plain_call_evaluated(depth, plan, e, path, ctx);
    let start = allocated(fresh_machine(plan), 1);
    let m = keyed(start, e.persistence);
    let key = key_of(start, e.persistence);
    let body_ctx = with_context(
        ctx,
        call_body_context(
            context,
            context.piped,
            context.parameters,
            ScopeSegmentView::Call { key },
        ),
    );
    assert(called_function(m, ctx, name) == Some(definition));
    assert(unbound_parameter(definition.parameters, context.parameters) is None);
    lemma_simple_expressions((depth - 1) as nat, m.plan, definition.body, body_ctx);
    assert(call(depth, m, path, Seq::empty(), key, e.span, ctx, false) == user_call(
        depth,
        m,
        name,
        path,
        Seq::empty(),
        definition,
        key,
        e.span,
        ctx,
    ));
}

/// A call without arguments, in a context with a snapshot of functions or without one: an unknown
/// name is refused; a snapshot that lacks the name leads to what no snapshot leads to; and a
/// function without parameters whose body is a literal gives that literal, where calls may be
/// nested at all.
pub proof fn lemma_call_without_arguments(
    depth: nat,
    plan: PlanView,
    e: SpannedExpressionView,
    path: Seq<Seq<char>>,
    ctx: EvaluationContextView,
)
    requires
        plain_call(e, path),
    ensures
        ({
            let name = joined(path, "/"@);
            let definition = ctx.function_registry_snapshot->0.functions[name];
            let without = EvaluationContextView { function_registry_snapshot: None, ..ctx };
            &&& !is_known(ctx, name) ==> {
                &&& evaluated(depth, plan, e, ctx) == Err::<(PlanView, Option<u64>), Seq<char>>(
                    "Function '"@ + name + "' not found"@,
                )
                &&& evaluated(depth, plan, e, ctx) == evaluated(depth, plan, e, without)
            }
            &&& is_known(ctx, name) && definition.parameters.len() == 0 && depth > 0
                && plan.actors.len() + 1 < u64::MAX ==> match definition.body.node {
                ExpressionView::Literal(literal) => match evaluated(depth, plan, e, ctx) {
                    Ok(done) => done.1 is Some && gives_literal(
                        plan,
                        literal,
                        ctx.actor_context.parameters,
                        done.0,
                        done.1->0,
                    ),
                    Err(_) => false,
                },
                _ => true,
            }
        }),
{
    let name = joined(path, "/"@);
    let without = EvaluationContextView { function_registry_snapshot: None, ..ctx };
    let definition = ctx.function_registry_snapshot->0.functions[name];
    if !is_known(ctx, name) {
        lemma_plain_call_evaluated(depth, plan, e, path, ctx);
        lemma_plain_call_evaluated(depth, plan, e, path, without);
    } else if definition.parameters.len() == 0 && depth > 0 && plan.actors.len() + 1 < u64::MAX {
        match definition.body.node {
            ExpressionView::Literal(literal) => {
                lemma_constant_called(depth, plan, e, path, ctx, definition, literal);
            },
            _ => {},
        }
    }
}

/// A single call without arguments that is evaluated with a snapshot of functions or without one:
/// without a snapshot, or with one that lacks the name, the call is refused; with a function
/// without parameters whose body is a literal, it gives that literal.
pub proof fn lemma_single_call(
    plan: PlanView,
    e: SpannedExpressionView,
    path: Seq<Seq<char>>,
    context: ActorContextView,
    snapshot: Option<&FunctionRegistry>,
)
    requires
        plain_call(e, path),
    ensures
        ({
            let depth = MOST_NESTED_CALLS as nat;
            let name = joined(path, "/"@);
            let functions = snapshot_functions(snapshot);
            let done = top_expression(depth, plan, e, context, functions);
            &&& !functions.contains_key(name) ==> done == Err::<(PlanView, u64), Seq<char>>(
                "Function '"@ + name + "' not found"@,
            )
            &&& functions.contains_key(name) && functions[name].parameters.len() == 0
                && plan.actors.len() + 1 < u64::MAX ==> match functions[name].body.node {
                ExpressionView::Literal(literal) => done is Ok && gives_literal(
                    plan,
                    literal,
                    context.parameters,
                    done->Ok_0.0,
                    done->Ok_0.1,
                ),
                _ => true,
            }
        }),
{
    let depth = MOST_NESTED_CALLS as nat;
    let functions = snapshot_functions(snapshot);
    reveal(top_expression);
    lemma_call_without_arguments(depth, plan, e, path, top_context(context, functions));
}

/// Without a snapshot of functions and with one that holds none, every expression leads to the
/// same.
pub proof fn lemma_empty_registry_is_none(
    depth: nat,
    plan: PlanView,
    e: SpannedExpressionView,
    context: ActorContextView,
    registry: &FunctionRegistry,
)
    requires
        registry@.functions == Map::<Seq<char>, StaticFunctionDefinitionView>::empty(),
    ensures
        top_expression(depth, plan, e, context, snapshot_functions(None)) == top_expression(
            depth,
            plan,
            e,
            context,
            snapshot_functions(Some(registry)),
        ),
{
}

} // verus!
