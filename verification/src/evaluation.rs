//! What the evaluation of an expression leads to.
use crate::builtins::{BuiltinFunction, is_builtin, joined};
use crate::contexts::{
    append_storage_key, builtin_context, call_body_context, hold_body_context, in_child_scope,
    recording_context, root_context, span_name, with_context,
};
use crate::evaluation_state::{
    MachineView, add_actor, allocated, drawn, emit, fresh_machine, key_of, keyed, next_actor,
    pushed, registered, slot_at, stored,
};
use crate::expression_view::{
    AliasView, ArmView, ExpressionView, LiteralView, SpannedArgumentView, SpannedExpressionView,
    SpannedVariableView, StaticFunctionDefinitionView, TextPartView,
};
use crate::plan::{
    AliasRoot, ForwardingConnection, ForwardingLoop, ListBindingOperation, PersistenceKey,
};
use crate::plan_view::{
    ActorContextView, ActorSpecView, ArgumentSlotView, EvaluationContextView,
    FunctionRegistryView, ObjectVariableDataView, PlanView, RegistrationView, ScopeSegmentView,
    VariableSpecView, WorkItemView,
};
use crate::static_expression::{BinaryOpKind, PersistenceId, Span};
use crate::text::split_parts;
use crate::text_map::ordered_pairs;
use vstd::prelude::*;

verus! {

/// What an evaluation step gives: the machine after it, or a message.
pub type Step = Result<MachineView, Seq<char>>;

/// What is to be evaluated into which slot.
pub type Job = (SpannedExpressionView, u32);

/// A measure of an expression: no less than the steps that its evaluation takes.
pub open spec fn expr_size(e: SpannedExpressionView) -> nat
    decreases e, 0nat,
{
    match e.node {
        ExpressionView::List { items } => 1 + items_size(items, items.len()),
        ExpressionView::Object { variables } => 1 + variables_size(variables, variables.len()),
        ExpressionView::TaggedObject { variables, .. } => 1 + variables_size(
            variables,
            variables.len(),
        ),
        ExpressionView::FunctionCall { arguments, .. } => 2 + arguments_size(
            arguments,
            arguments.len(),
        ),
        ExpressionView::Latest { inputs } => 1 + items_size(inputs, inputs.len()),
        ExpressionView::Hold { body, .. } => 1 + expr_size(*body),
        ExpressionView::Pipe { from, to } => 1 + expr_size(*from) + expr_size(*to),
        ExpressionView::Block { variables, output } => 2 + variables_size(
            variables,
            variables.len(),
        ) + expr_size(*output),
        ExpressionView::Operator { operand_a, operand_b, .. } => 1 + expr_size(*operand_a)
            + expr_size(*operand_b),
        ExpressionView::Negate { operand } => 1 + expr_size(*operand),
        _ => 1,
    }
}

/// The sizes of the first `n` expressions.
pub open spec fn items_size(items: Seq<SpannedExpressionView>, n: nat) -> nat
    decreases items, n,
{
    if n == 0 || n > items.len() {
        0
    } else {
        items_size(items, (n - 1) as nat) + expr_size(items[n - 1])
    }
}

/// The sizes of the values of the first `n` variables.
pub open spec fn variables_size(variables: Seq<SpannedVariableView>, n: nat) -> nat
    decreases variables, n,
{
    if n == 0 || n > variables.len() {
        0
    } else {
        variables_size(variables, (n - 1) as nat) + expr_size(variables[n - 1].node.value)
    }
}

/// The sizes of the values of the first `n` arguments, with one more for each.
pub open spec fn arguments_size(arguments: Seq<SpannedArgumentView>, n: nat) -> nat
    decreases arguments, n,
{
    if n == 0 || n > arguments.len() {
        0
    } else {
        arguments_size(arguments, (n - 1) as nat) + 1 + match arguments[n - 1].value {
            Some(value) => expr_size(value),
            None => 0,
        }
    }
}

/// How much work a step can still lead to.
pub open spec fn weight(item: WorkItemView) -> nat {
    match item {
        WorkItemView::Evaluate { expr, .. } => 1 + expr_size(expr),
        WorkItemView::EvaluateWithPiped { expr, .. } => 1 + expr_size(expr),
        WorkItemView::BuildHold { body, .. } => 1 + expr_size(body),
        _ => 1,
    }
}

/// How much work the steps to be done can still lead to.
pub open spec fn total_weight(queue: Seq<WorkItemView>) -> nat
    decreases queue.len(),
{
    if queue.len() == 0 {
        0
    } else {
        total_weight(queue.drop_last()) + weight(queue.last())
    }
}

/// The kept identity behind a key, if it is one.
pub open spec fn kept_id(key: PersistenceKey) -> Option<PersistenceId> {
    match key {
        PersistenceKey::Stored(id) => Some(id),
        PersistenceKey::Fresh(_) => None,
    }
}

/// The message about a connector that is gone.
pub open spec fn connector_dropped() -> Seq<char> {
    "ReferenceConnector dropped - program shutting down"@
}

/// The functions that a body sees: those of the snapshot and, over them, those of the machine.
pub open spec fn visible_functions(m: MachineView, ctx: EvaluationContextView) -> FunctionRegistryView {
    FunctionRegistryView {
        functions: match ctx.function_registry_snapshot {
            Some(snapshot) => snapshot.functions.union_prefer_right(m.registry),
            None => Map::<Seq<char>, StaticFunctionDefinitionView>::empty().union_prefer_right(
                m.registry,
            ),
        },
    }
}

/// Where a reference starts, or the actor itself when it is a parameter that is taken whole.
pub enum AliasTarget {
    Whole(u64),
    Root(AliasRoot),
}

/// What a reference refers to.
pub open spec fn alias_target(alias: AliasView, ctx: EvaluationContextView) -> Result<
    AliasTarget,
    Seq<char>,
> {
    let context = ctx.actor_context;
    match alias {
        AliasView::WithPassed { .. } => match context.passed {
            Some(passed) => Ok(AliasTarget::Root(AliasRoot::Actor(passed))),
            None => Err("PASSED is not available in this context"@),
        },
        AliasView::WithoutPassed { parts, referenced_span } => {
            let first = if parts.len() > 0 {
                parts[0]
            } else {
                Seq::empty()
            };
            if context.parameters.contains_key(first) {
                if parts.len() == 1 {
                    Ok(AliasTarget::Whole(context.parameters[first]))
                } else {
                    Ok(AliasTarget::Root(AliasRoot::Actor(context.parameters[first])))
                }
            } else {
                match referenced_span {
                    Some(span) => if context.object_locals.contains_key(span_name(span)) {
                        Ok(
                            AliasTarget::Root(
                                AliasRoot::Actor(context.object_locals[span_name(span)]),
                            ),
                        )
                    } else if ctx.reference_connector {
                        Ok(AliasTarget::Root(AliasRoot::Reference(span)))
                    } else {
                        Err(connector_dropped())
                    },
                    None => if parts.len() >= 2 {
                        Err(
                            "Module variable access '"@ + first
                                + "' not yet supported in stack-safe evaluator"@,
                        )
                    } else {
                        Err("Failed to get aliased variable '"@ + first + "'"@)
                    },
                }
            }
        },
    }
}

/// The machine after a reference was evaluated, and the actor that it refers to.
pub open spec fn alias_step(
    m: MachineView,
    alias: AliasView,
    key: PersistenceKey,
    span: Span,
    ctx: EvaluationContextView,
) -> Result<(MachineView, u64), Seq<char>> {
    match alias_target(alias, ctx) {
        Err(e) => Err(e),
        Ok(AliasTarget::Whole(actor)) => Ok((m, actor)),
        Ok(AliasTarget::Root(root)) => Ok(
            (
                add_actor(m, ActorSpecView::Alias { root, alias }, key, span, ctx.actor_context),
                next_actor(m),
            ),
        ),
    }
}

/// Whether values are taken one by one.
pub open spec fn one_by_one(context: ActorContextView) -> bool {
    context.backpressure_permit is Some || context.sequential_processing
}

/// The actor of THEN. Its body has the identity of THEN itself.
pub open spec fn then_actor(
    m: MachineView,
    body: SpannedExpressionView,
    persistence: Option<PersistenceId>,
    ctx: EvaluationContextView,
) -> Result<ActorSpecView, Seq<char>> {
    match ctx.actor_context.piped {
        None => Err("THEN requires a piped value"@),
        Some(piped) => Ok(
            ActorSpecView::Then {
                piped,
                body: SpannedExpressionView { persistence, ..body },
                registry: visible_functions(m, ctx),
                ordered: one_by_one(ctx.actor_context),
                lazy: ctx.actor_context.use_lazy_actors,
            },
        ),
    }
}

/// The actor of WHEN.
pub open spec fn when_actor(
    m: MachineView,
    arms: Seq<ArmView>,
    ctx: EvaluationContextView,
) -> Result<ActorSpecView, Seq<char>> {
    match ctx.actor_context.piped {
        None => Err("WHEN requires a piped value"@),
        Some(piped) => Ok(
            ActorSpecView::When {
                piped,
                arms,
                registry: visible_functions(m, ctx),
                ordered: one_by_one(ctx.actor_context),
            },
        ),
    }
}

/// The actor of WHILE.
pub open spec fn while_actor(
    m: MachineView,
    arms: Seq<ArmView>,
    ctx: EvaluationContextView,
) -> Result<ActorSpecView, Seq<char>> {
    match ctx.actor_context.piped {
        None => Err("WHILE requires a piped value"@),
        Some(piped) => Ok(
            ActorSpecView::While { piped, arms, registry: visible_functions(m, ctx) },
        ),
    }
}

/// The machine after an actor was made for a slot, unless there is a message instead.
pub open spec fn emit_result(
    m: MachineView,
    slot: u32,
    actor: Result<ActorSpecView, Seq<char>>,
    key: PersistenceKey,
    span: Span,
    context: ActorContextView,
) -> Step {
    match actor {
        Ok(actor) => Ok(emit(m, slot, actor, key, span, context)),
        Err(e) => Err(e),
    }
}

/// The steps of a chain of pipes, from the first to the last.
pub open spec fn pipe_steps(e: SpannedExpressionView) -> Seq<SpannedExpressionView>
    decreases e,
{
    match e.node {
        ExpressionView::Pipe { from, to } => pipe_steps(*from).push(*to),
        _ => seq![e],
    }
}

/// The machine after the steps of a chain were set up: each takes what the one before it gives,
/// and the last gives the result.
pub open spec fn piped_machine(
    m: MachineView,
    rest: Seq<SpannedExpressionView>,
    ctx: EvaluationContextView,
    slot: u32,
) -> MachineView {
    let n = rest.len();
    let base = m.next_slot;
    let after = allocated(m, n);
    MachineView {
        queue: m.queue + Seq::new(
            n,
            |j: int|
                WorkItemView::EvaluateWithPiped {
                    expr: rest[n - 1 - j],
                    prev_slot: slot_at(base, n - 1 - j),
                    ctx,
                    result_slot: if j == 0 {
                        slot
                    } else {
                        slot_at(base, n - j)
                    },
                },
        ),
        ..after
    }
}

/// The variables of an object while it is set up: the machine, what is known of them, and the
/// actors of those that are referred to.
pub struct Declared {
    pub m: MachineView,
    pub data: Seq<ObjectVariableDataView>,
    pub locals: Map<Seq<char>, u64>,
}

/// Setting up the first `n` variables of an object. A variable that is referred to gets an
/// actor at once, which later hands on its value.
pub open spec fn declare(
    m: MachineView,
    variables: Seq<SpannedVariableView>,
    n: nat,
    ctx: EvaluationContextView,
) -> Declared
    decreases n,
{
    if n == 0 {
        Declared { m, data: Seq::empty(), locals: ctx.actor_context.object_locals }
    } else {
        declare_one(declare(m, variables, (n - 1) as nat, ctx), variables[n - 1], ctx)
    }
}

/// Setting up one more variable of an object. One without an identity gets one that is drawn.
pub open spec fn declare_one(
    before: Declared,
    var: SpannedVariableView,
    ctx: EvaluationContextView,
) -> Declared {
    let taken = allocated(before.m, 1);
    let key = key_of(taken, var.persistence);
    let m = keyed(taken, var.persistence);
    let data = ObjectVariableDataView {
        name: var.node.name,
        value_slot: before.m.next_slot,
        is_link: var.node.value.node is Link,
        is_referenced: var.node.is_referenced,
        span: var.span,
        key,
        forwarding_actor: None,
    };
    if !var.node.is_referenced {
        Declared { m, data: before.data.push(data), locals: before.locals }
    } else {
        let actor = next_actor(m);
        let added = add_actor(m, ActorSpecView::Forwarding, key, var.span, ctx.actor_context);
        let known = registered(
            added,
            ctx.reference_connector,
            RegistrationView::Referenceable { span: var.span, actor },
        );
        Declared {
            m: known,
            data: before.data.push(
                ObjectVariableDataView { forwarding_actor: Some(actor), ..data },
            ),
            locals: before.locals.insert(span_name(var.span), actor),
        }
    }
}

/// The values of the first `n` variables that are to be evaluated: not those of links, and, if
/// asked for, only those that are referred to or only those that are not.
pub open spec fn value_jobs(
    variables: Seq<SpannedVariableView>,
    data: Seq<ObjectVariableDataView>,
    n: nat,
    referenced: Option<bool>,
) -> Seq<Job>
    decreases n,
{
    if n == 0 {
        Seq::empty()
    } else {
        let before = value_jobs(variables, data, (n - 1) as nat, referenced);
        let d = data[n - 1];
        if d.is_link || (referenced is Some && referenced != Some(d.is_referenced)) {
            before
        } else {
            before.push((variables[n - 1].node.value, d.value_slot))
        }
    }
}

/// The context with the actors of the variables of an object.
pub open spec fn with_locals(
    ctx: EvaluationContextView,
    locals: Map<Seq<char>, u64>,
) -> EvaluationContextView {
    with_context(ctx, ActorContextView { object_locals: locals, ..ctx.actor_context })
}

/// The arguments of a call while it is set up.
pub struct Arguments {
    pub m: MachineView,
    pub slots: Seq<ArgumentSlotView>,
    pub jobs: Seq<Job>,
    pub passed_slot: Option<u32>,
    pub passed_context: Option<u32>,
    pub connections: Seq<ForwardingConnection>,
    pub locals: Map<Seq<char>, u64>,
}

/// The message about an argument without a value and without a piped one.
pub open spec fn no_piped_value(span: Span) -> Seq<char> {
    "PASS argument requires piped value at "@ + span_name(span)
}

/// Setting up the first `n` arguments of a call. `forward` says whether an argument that is
/// referred to gets an actor at once.
pub open spec fn argue(
    m: MachineView,
    arguments: Seq<SpannedArgumentView>,
    n: nat,
    ctx: EvaluationContextView,
    span: Span,
    forward: bool,
) -> Result<Arguments, Seq<char>>
    decreases n,
{
    if n == 0 {
        Ok(
            Arguments {
                m,
                slots: Seq::empty(),
                jobs: Seq::empty(),
                passed_slot: None,
                passed_context: None,
                connections: Seq::empty(),
                locals: ctx.actor_context.object_locals,
            },
        )
    } else {
        match argue(m, arguments, (n - 1) as nat, ctx, span, forward) {
            Err(e) => Err(e),
            Ok(before) => argue_one(before, arguments[n - 1], ctx, span, forward),
        }
    }
}

/// An argument that is referred to gets an actor at once.
pub open spec fn forward_argument(
    before: Arguments,
    arg: SpannedArgumentView,
    ctx: EvaluationContextView,
    slot: u32,
    forward: bool,
) -> Arguments {
    if forward && arg.is_referenced {
        let target = next_actor(before.m);
        let added = add_actor(
            drawn(before.m),
            ActorSpecView::Forwarding,
            PersistenceKey::Fresh(before.m.plan.fresh),
            arg.span,
            ctx.actor_context,
        );
        let known = registered(
            added,
            ctx.reference_connector,
            RegistrationView::Referenceable { span: arg.span, actor: target },
        );
        Arguments {
            m: known,
            connections: before.connections.push(ForwardingConnection { slot, target }),
            locals: before.locals.insert(span_name(arg.span), target),
            ..before
        }
    } else {
        before
    }
}

/// Setting up one more argument of a call.
pub open spec fn argue_one(
    before: Arguments,
    arg: SpannedArgumentView,
    ctx: EvaluationContextView,
    span: Span,
    forward: bool,
) -> Result<Arguments, Seq<char>> {
    let slot = before.m.next_slot;
    let taken = Arguments { m: allocated(before.m, 1), ..before };
    if arg.name == "PASS"@ {
        match arg.value {
            Some(value) => Ok(
                Arguments {
                    jobs: taken.jobs.push((value, slot)),
                    passed_context: Some(slot),
                    ..taken
                },
            ),
            None => Ok(taken),
        }
    } else {
        let known = forward_argument(taken, arg, ctx, slot, forward);
        let named = known.slots.push(ArgumentSlotView { name: arg.name, slot });
        match arg.value {
            Some(value) => Ok(
                Arguments { slots: named, jobs: known.jobs.push((value, slot)), ..known },
            ),
            None => match ctx.actor_context.piped {
                Some(piped) => Ok(
                    Arguments {
                        m: stored(known.m, slot, piped),
                        slots: named,
                        passed_slot: Some(slot),
                        ..known
                    },
                ),
                None => Err(no_piped_value(span)),
            },
        }
    }
}

/// The steps that keep the values of LATEST arguments across runs.
pub open spec fn wraps(jobs: Seq<Job>, n: nat, ctx: EvaluationContextView) -> Seq<WorkItemView>
    decreases n,
{
    if n == 0 {
        Seq::empty()
    } else {
        let before = wraps(jobs, (n - 1) as nat, ctx);
        let job = jobs[n - 1];
        if job.0.node is Latest && job.0.persistence is Some {
            before.push(
                WorkItemView::WrapWithPersistence {
                    source_slot: job.1,
                    persistence_id: job.0.persistence->0,
                    ctx,
                    result_slot: job.1,
                },
            )
        } else {
            before
        }
    }
}

/// Names in quotes, with commas between them.
pub open spec fn quoted_names(names: Seq<Seq<char>>) -> Seq<char>
    decreases names.len(),
{
    if names.len() == 0 {
        Seq::empty()
    } else {
        let last = "\""@ + names.last() + "\""@;
        if names.len() == 1 {
            last
        } else {
            quoted_names(names.drop_last()) + ", "@ + last
        }
    }
}

/// The names of parameters, in their order.
pub open spec fn parameter_names(parameters: Map<Seq<char>, u64>) -> Seq<Seq<char>> {
    ordered_pairs(parameters).map_values(|p: (Seq<char>, u64)| p.0)
}

/// The message about a name in a text that nothing has, with the names that there are.
pub open spec fn no_such_variable(var: Seq<char>, parameters: Map<Seq<char>, u64>) -> Seq<char> {
    "Variable '"@ + var + "' not found for text interpolation. Available: ["@ + quoted_names(
        parameter_names(parameters),
    ) + "]"@
}

/// Setting up a piece of a text literal: whether it is fixed, and its actor.
pub open spec fn text_part_step(
    m: MachineView,
    part: TextPartView,
    key: PersistenceKey,
    span: Span,
    ctx: EvaluationContextView,
) -> Result<(MachineView, bool, u64), Seq<char>> {
    let context = ctx.actor_context;
    match part {
        TextPartView::Text(text) => Ok(
            (
                add_actor(
                    m,
                    ActorSpecView::Literal(LiteralView::Text(text)),
                    key,
                    span,
                    context,
                ),
                true,
                next_actor(m),
            ),
        ),
        TextPartView::Interpolation { var, referenced_span } => {
            let names = split_parts(var, '.');
            let path = names.skip(1);
            let base = if context.parameters.contains_key(names[0]) {
                Ok((m, context.parameters[names[0]]))
            } else {
                match referenced_span {
                    None => Err(no_such_variable(var, context.parameters)),
                    Some(referenced) => if ctx.reference_connector {
                        Ok(
                            (
                                add_actor(
                                    drawn(m),
                                    ActorSpecView::Reference { referenced },
                                    PersistenceKey::Fresh(m.plan.fresh),
                                    span,
                                    context,
                                ),
                                next_actor(m),
                            ),
                        )
                    } else {
                        Err(connector_dropped())
                    },
                }
            };
            match base {
                Err(e) => Err(e),
                Ok(found) => if path.len() == 0 {
                    Ok((found.0, false, found.1))
                } else {
                    Ok(
                        (
                            add_actor(
                                drawn(found.0),
                                ActorSpecView::TextField { base: found.1, path },
                                PersistenceKey::Fresh(found.0.plan.fresh),
                                span,
                                context,
                            ),
                            false,
                            next_actor(found.0),
                        ),
                    )
                },
            }
        },
    }
}

/// Setting up the first `n` pieces of a text literal.
pub open spec fn text_parts_step(
    m: MachineView,
    parts: Seq<TextPartView>,
    n: nat,
    key: PersistenceKey,
    span: Span,
    ctx: EvaluationContextView,
) -> Result<(MachineView, Seq<bool>, Seq<u64>), Seq<char>>
    decreases n,
{
    if n == 0 {
        Ok((m, Seq::empty(), Seq::empty()))
    } else {
        match text_parts_step(m, parts, (n - 1) as nat, key, span, ctx) {
            Err(e) => Err(e),
            Ok(before) => match text_part_step(before.0, parts[n - 1], key, span, ctx) {
                Err(e) => Err(e),
                Ok(part) => Ok((part.0, before.1.push(part.1), before.2.push(part.2))),
            },
        }
    }
}

/// A text literal: without pieces it is empty, a single fixed piece is the text itself, and
/// otherwise the pieces are combined.
pub open spec fn text_literal_step(
    m: MachineView,
    parts: Seq<TextPartView>,
    key: PersistenceKey,
    span: Span,
    ctx: EvaluationContextView,
    slot: u32,
) -> Step {
    match text_parts_step(m, parts, parts.len(), key, span, ctx) {
        Err(e) => Err(e),
        Ok(done) => if done.2.len() == 0 {
            Ok(
                emit(
                    done.0,
                    slot,
                    ActorSpecView::Literal(LiteralView::Text(Seq::empty())),
                    key,
                    span,
                    ctx.actor_context,
                ),
            )
        } else if done.2.len() == 1 && done.1[0] {
            Ok(stored(done.0, slot, done.2[0]))
        } else {
            Ok(
                emit(
                    done.0,
                    slot,
                    ActorSpecView::CombinedText { parts: done.2 },
                    key,
                    span,
                    ctx.actor_context,
                ),
            )
        },
    }
}

/// Whether a path is that of the given function on lists.
pub open spec fn is_list_path(path: Seq<Seq<char>>, name: Seq<char>) -> bool {
    path.len() == 2 && path[0] == "List"@ && path[1] == name
}

/// What a function with a transform does to a list, if the path names one.
pub open spec fn binding_operation(path: Seq<Seq<char>>) -> Option<ListBindingOperation> {
    if is_list_path(path, "map"@) {
        Some(ListBindingOperation::Transform)
    } else if is_list_path(path, "retain"@) {
        Some(ListBindingOperation::Retain)
    } else if is_list_path(path, "remove"@) {
        Some(ListBindingOperation::Remove)
    } else if is_list_path(path, "every"@) {
        Some(ListBindingOperation::Every)
    } else if is_list_path(path, "any"@) {
        Some(ListBindingOperation::Any)
    } else if is_list_path(path, "sort_by"@) {
        Some(ListBindingOperation::SortBy)
    } else {
        None
    }
}

/// The actor of a function with a transform, once its list is known.
pub open spec fn list_binding_actor(
    name: Seq<char>,
    operation: ListBindingOperation,
    arguments: Seq<SpannedArgumentView>,
    list: u64,
    ctx: EvaluationContextView,
) -> Result<ActorSpecView, Seq<char>> {
    match arguments[1].value {
        None => Err("List/"@ + name + " requires a transform expression"@),
        Some(transform) => if !ctx.reference_connector {
            Err(connector_dropped())
        } else if !ctx.link_connector {
            Err("LinkConnector dropped - program shutting down"@)
        } else if !ctx.pass_through_connector {
            Err("PassThroughConnector dropped - program shutting down"@)
        } else {
            Ok(
                ActorSpecView::ListBinding {
                    operation,
                    binding: arguments[0].name,
                    list,
                    transform,
                },
            )
        },
    }
}

/// The actors in the slots that have one, in the order of the slots.
pub open spec fn found(m: MachineView, slots: Seq<u32>, n: nat) -> Seq<u64>
    decreases n,
{
    if n == 0 {
        Seq::empty()
    } else {
        let before = found(m, slots, (n - 1) as nat);
        if m.results.contains_key(slots[n - 1]) {
            before.push(m.results[slots[n - 1]])
        } else {
            before
        }
    }
}

/// The variables of an object while it is built.
pub struct Built {
    pub m: MachineView,
    pub variables: Seq<VariableSpecView>,
}

/// The machine after a variable became known to the connectors.
pub open spec fn variable_known(
    m: MachineView,
    data: ObjectVariableDataView,
    value: u64,
    link: u64,
    ctx: EvaluationContextView,
) -> MachineView {
    let referenced = registered(
        m,
        data.forwarding_actor is None && ctx.reference_connector,
        RegistrationView::Referenceable { span: data.span, actor: value },
    );
    registered(
        referenced,
        data.is_link && ctx.link_connector,
        RegistrationView::Link { span: data.span, scope: ctx.actor_context.scope, actor: link },
    )
}

/// Building one more variable of an object. One whose value was skipped is left out.
pub open spec fn build_one(
    before: Built,
    data: ObjectVariableDataView,
    ctx: EvaluationContextView,
) -> Built {
    let m = before.m;
    let key = data.key;
    let made = next_actor(m);
    let variable = VariableSpecView {
        name: data.name,
        span: data.span,
        key,
        value: made,
        is_link: data.is_link,
        source: None,
    };
    if data.is_link {
        let added = add_actor(m, ActorSpecView::LinkValue, key, data.span, ctx.actor_context);
        let variable = match data.forwarding_actor {
            Some(forwarding) => VariableSpecView {
                value: forwarding,
                source: Some(made),
                ..variable
            },
            None => variable,
        };
        Built {
            m: variable_known(added, data, variable.value, made, ctx),
            variables: before.variables.push(variable),
        }
    } else if !m.results.contains_key(data.value_slot) {
        before
    } else {
        let source = m.results[data.value_slot];
        match data.forwarding_actor {
            Some(forwarding) => Built {
                m: variable_known(m, data, forwarding, forwarding, ctx),
                variables: before.variables.push(
                    VariableSpecView { value: forwarding, source: Some(source), ..variable },
                ),
            },
            None => {
                let added = add_actor(
                    m,
                    ActorSpecView::Persisted { source },
                    key,
                    data.span,
                    ctx.actor_context,
                );
                Built {
                    m: variable_known(added, data, made, made, ctx),
                    variables: before.variables.push(variable),
                }
            },
        }
    }
}

/// Building the first `n` variables of an object.
pub open spec fn build(
    m: MachineView,
    data: Seq<ObjectVariableDataView>,
    n: nat,
    ctx: EvaluationContextView,
) -> Built
    decreases n,
{
    if n == 0 {
        Built { m, variables: Seq::empty() }
    } else {
        build_one(build(m, data, (n - 1) as nat, ctx), data[n - 1], ctx)
    }
}

/// The forwarding loops after the first `n` connections were made: those whose slot has an actor.
pub open spec fn connected(
    m: MachineView,
    connections: Seq<ForwardingConnection>,
    n: nat,
) -> Seq<ForwardingLoop>
    decreases n,
{
    if n == 0 {
        m.loops
    } else {
        let before = connected(m, connections, (n - 1) as nat);
        let c = connections[n - 1];
        if m.results.contains_key(c.slot) {
            before.push(ForwardingLoop { target: c.target, source: m.results[c.slot] })
        } else {
            before
        }
    }
}

/// The arguments whose slot has an actor.
pub open spec fn found_arguments(
    m: MachineView,
    slots: Seq<ArgumentSlotView>,
    n: nat,
) -> Seq<(Seq<char>, u64)>
    decreases n,
{
    if n == 0 {
        Seq::empty()
    } else {
        let before = found_arguments(m, slots, (n - 1) as nat);
        if m.results.contains_key(slots[n - 1].slot) {
            before.push((slots[n - 1].name, m.results[slots[n - 1].slot]))
        } else {
            before
        }
    }
}

/// Parameters with the first `n` arguments over them.
pub open spec fn with_arguments(
    parameters: Map<Seq<char>, u64>,
    arguments: Seq<(Seq<char>, u64)>,
    n: nat,
) -> Map<Seq<char>, u64>
    decreases n,
{
    if n == 0 {
        parameters
    } else {
        with_arguments(parameters, arguments, (n - 1) as nat).insert(
            arguments[n - 1].0,
            arguments[n - 1].1,
        )
    }
}

/// The first parameter of a function that has no argument.
pub open spec fn unbound_parameter(
    names: Seq<Seq<char>>,
    parameters: Map<Seq<char>, u64>,
) -> Option<Seq<char>>
    decreases names.len(),
{
    if names.len() == 0 {
        None
    } else if !parameters.contains_key(names[0]) {
        Some(names[0])
    } else {
        unbound_parameter(names.skip(1), parameters)
    }
}

/// The function of the program that a path names: one of the snapshot, else one of the machine.
pub open spec fn called_function(
    m: MachineView,
    ctx: EvaluationContextView,
    name: Seq<char>,
) -> Option<StaticFunctionDefinitionView> {
    if ctx.function_registry_snapshot is Some
        && ctx.function_registry_snapshot->0.functions.contains_key(name) {
        Some(ctx.function_registry_snapshot->0.functions[name])
    } else if m.registry.contains_key(name) {
        Some(m.registry[name])
    } else {
        None
    }
}

/// The function of the platform that a path names.
pub open spec fn builtin_of(path: Seq<Seq<char>>) -> Option<BuiltinFunction> {
    if exists|f: BuiltinFunction| is_builtin(path, f) {
        Some(choose|f: BuiltinFunction| is_builtin(path, f))
    } else {
        None
    }
}

/// The bits of the number minus one.
pub const MINUS_ONE_BITS: u64 = 0xBFF0_0000_0000_0000;

/// More calls than can ever be nested: each of them takes some of the stack, and no address space
/// has more bytes than this.
pub const MOST_NESTED_CALLS: u64 = 0xFFFF_FFFF_FFFF_FFFF;

/// The message about calls that are nested more deeply than they may be.
pub open spec fn calls_too_deep(name: Seq<char>) -> Seq<char> {
    "Calls nested too deeply at '"@ + name + "'"@
}

/// What the evaluation of an expression gives: the plan after it and the actor of its value,
/// which a skipped expression lacks; or a message. `depth` bounds how deeply calls are nested.
pub open spec fn evaluated(
    depth: nat,
    plan: PlanView,
    e: SpannedExpressionView,
    ctx: EvaluationContextView,
) -> Result<(PlanView, Option<u64>), Seq<char>>
    decreases depth, expr_size(e), 4nat, 0nat,
{
    let start = allocated(fresh_machine(plan), 1);
    match schedule(depth, start, e, ctx, 0) {
        Err(message) => Err(message),
        Ok(m) => if total_weight(m.queue) > expr_size(e) {
            Err(Seq::empty())
        } else {
            match run_queue(depth, m) {
                Err(message) => Err(message),
                Ok(done) => Ok(
                    (
                        done.plan,
                        if done.results.contains_key(0) {
                            Some(done.results[0])
                        } else {
                            None
                        },
                    ),
                ),
            }
        },
    }
}

/// The evaluation of a part of an expression, in a machine of its own on top of the plan.
pub open spec fn part_evaluated(
    depth: nat,
    bound: nat,
    m: MachineView,
    e: SpannedExpressionView,
    ctx: EvaluationContextView,
) -> Result<(MachineView, Option<u64>), Seq<char>>
    decreases depth, bound, 0nat, 0nat,
{
    if expr_size(e) >= bound {
        Err(Seq::empty())
    } else {
        match evaluated(depth, m.plan, e, ctx) {
            Err(message) => Err(message),
            Ok(done) => Ok((MachineView { plan: done.0, ..m }, done.1)),
        }
    }
}

/// The machine after all steps were done.
pub open spec fn run_queue(depth: nat, m: MachineView) -> Step
    decreases depth, total_weight(m.queue), 3nat, 0nat,
{
    if m.queue.len() == 0 {
        Ok(m)
    } else {
        let rest = MachineView { queue: m.queue.drop_last(), ..m };
        match process(depth, rest, m.queue.last()) {
            Err(message) => Err(message),
            Ok(after) => if total_weight(after.queue) < total_weight(m.queue) {
                run_queue(depth, after)
            } else {
                Err(Seq::empty())
            },
        }
    }
}

/// Scheduling the first `n` jobs, one after the other.
pub open spec fn schedule_jobs(
    depth: nat,
    bound: nat,
    m: MachineView,
    jobs: Seq<Job>,
    n: nat,
    ctx: EvaluationContextView,
) -> Step
    decreases depth, bound, 0nat, n,
{
    if n == 0 {
        Ok(m)
    } else {
        match schedule_jobs(depth, bound, m, jobs, (n - 1) as nat, ctx) {
            Err(message) => Err(message),
            Ok(before) => if expr_size(jobs[n - 1].0) < bound {
                schedule(depth, before, jobs[n - 1].0, ctx, jobs[n - 1].1)
            } else {
                Err(Seq::empty())
            },
        }
    }
}

/// Scheduling the first `n` items of a list, each in a scope of its own.
pub open spec fn schedule_items(
    depth: nat,
    bound: nat,
    m: MachineView,
    items: Seq<SpannedExpressionView>,
    n: nat,
    base: u32,
    ctx: EvaluationContextView,
) -> Step
    decreases depth, bound, 0nat, n,
{
    if n == 0 {
        Ok(m)
    } else {
        match schedule_items(depth, bound, m, items, (n - 1) as nat, base, ctx) {
            Err(message) => Err(message),
            Ok(before) => {
                let item = items[n - 1];
                let segment = ScopeSegmentView::ListItem {
                    index: (n - 1) as u64,
                    key: key_of(before, item.persistence),
                };
                let item_ctx = with_context(ctx, in_child_scope(ctx.actor_context, segment));
                if expr_size(item) < bound {
                    schedule(
                        depth,
                        keyed(before, item.persistence),
                        item,
                        item_ctx,
                        slot_at(base, n - 1),
                    )
                } else {
                    Err(Seq::empty())
                }
            },
        }
    }
}

/// A call of a function of the program: with a piped value and a parameter for it, the body is
/// evaluated for each value; otherwise it is evaluated at once, one call deeper. An evaluation
/// begins with [`MOST_NESTED_CALLS`], so that the bound is not reached before the stack ends.
pub open spec fn user_call(
    depth: nat,
    m: MachineView,
    name: Seq<char>,
    path: Seq<Seq<char>>,
    arguments: Seq<(Seq<char>, u64)>,
    definition: StaticFunctionDefinitionView,
    key: PersistenceKey,
    span: Span,
    ctx: EvaluationContextView,
) -> Result<(MachineView, Option<u64>), Seq<char>>
    decreases depth, 0nat, 0nat, 0nat,
{
    let context = ctx.actor_context;
    let parameters = with_arguments(context.parameters, arguments, arguments.len());
    let param = unbound_parameter(definition.parameters, parameters);
    if context.piped is Some && param is Some {
        let actor = ActorSpecView::PipedUserCall {
            piped: context.piped->0,
            param: param->0,
            path,
            definition,
            parameters,
        };
        Ok((add_actor(m, actor, key, span, context), Some(next_actor(m))))
    } else if depth == 0 {
        Err(calls_too_deep(name))
    } else {
        let body_ctx = with_context(
            ctx,
            call_body_context(
                context,
                context.piped,
                parameters,
                ScopeSegmentView::Call { key },
            ),
        );
        match evaluated((depth - 1) as nat, m.plan, definition.body, body_ctx) {
            Err(message) => Err(message),
            Ok(done) => {
                let after = MachineView { plan: done.0, ..m };
                match done.1 {
                    None => Ok((after, None)),
                    Some(result) => if parameters == Map::<Seq<char>, u64>::empty() {
                        Ok((after, Some(result)))
                    } else {
                        Ok(
                            (
                                add_actor(
                                    after,
                                    ActorSpecView::UserCall { result, parameters },
                                    key,
                                    span,
                                    context,
                                ),
                                Some(next_actor(after)),
                            ),
                        )
                    },
                }
            },
        }
    }
}

/// A call: of a function of the program if the path names one, else of one of the platform.
pub open spec fn call(
    depth: nat,
    m: MachineView,
    path: Seq<Seq<char>>,
    arguments: Seq<(Seq<char>, u64)>,
    key: PersistenceKey,
    span: Span,
    ctx: EvaluationContextView,
    use_piped: bool,
) -> Result<(MachineView, Option<u64>), Seq<char>>
    decreases depth, 0nat, 1nat, 0nat,
{
    let name = joined(path, "/"@);
    match called_function(m, ctx, name) {
        Some(definition) => user_call(
            depth,
            m,
            name,
            path,
            arguments,
            definition,
            key,
            span,
            ctx,
        ),
        None => match builtin_of(path) {
            None => Err("Function '"@ + name + "' not found"@),
            Some(function) => {
                let piped = if use_piped && ctx.actor_context.piped is Some {
                    seq![ctx.actor_context.piped->0]
                } else {
                    Seq::empty()
                };
                let actor = ActorSpecView::Builtin {
                    function,
                    arguments: piped + arguments.map_values(|a: (Seq<char>, u64)| a.1),
                };
                Ok(
                    (
                        add_actor(m, actor, key, span, builtin_context(ctx.actor_context)),
                        Some(next_actor(m)),
                    ),
                )
            },
        },
    }
}

/// The machine after a call that may have no result.
pub open spec fn store_optional(
    result: Result<(MachineView, Option<u64>), Seq<char>>,
    slot: u32,
) -> Step {
    match result {
        Err(message) => Err(message),
        Ok(done) => match done.1 {
            Some(actor) => Ok(stored(done.0, slot, actor)),
            None => Ok(done.0),
        },
    }
}

/// A call of a function with a transform.
pub open spec fn list_binding(
    depth: nat,
    bound: nat,
    m: MachineView,
    name: Seq<char>,
    operation: ListBindingOperation,
    arguments: Seq<SpannedArgumentView>,
    key: PersistenceKey,
    span: Span,
    ctx: EvaluationContextView,
) -> Result<(MachineView, Option<u64>), Seq<char>>
    decreases depth, bound, 1nat, 0nat,
{
    if arguments.len() < 2 {
        Err("List/"@ + name + " requires 2 arguments"@)
    } else {
        let list = match arguments[0].value {
            Some(value) => part_evaluated(depth, bound, m, value, ctx),
            None => match ctx.actor_context.piped {
                Some(piped) => Ok((m, Some(piped))),
                None => Err("List/"@ + name + " requires a list argument"@),
            },
        };
        match list {
            Err(message) => Err(message),
            Ok(done) => match done.1 {
                None => Ok((done.0, None)),
                Some(actor) => match list_binding_actor(name, operation, arguments, actor, ctx) {
                    Err(message) => Err(message),
                    Ok(spec) => Ok(
                        (
                            add_actor(done.0, spec, key, span, ctx.actor_context),
                            Some(next_actor(done.0)),
                        ),
                    ),
                },
            },
        }
    }
}

/// A call of the function that appends to a list.
pub open spec fn list_append(
    depth: nat,
    bound: nat,
    m: MachineView,
    arguments: Seq<SpannedArgumentView>,
    key: PersistenceKey,
    span: Span,
    ctx: EvaluationContextView,
) -> Result<(MachineView, Option<u64>), Seq<char>>
    decreases depth, bound, 1nat, 0nat,
{
    if arguments.len() == 0 {
        Err("List/append requires an item argument"@)
    } else {
        match (ctx.actor_context.piped, arguments[0].value) {
            (None, _) => Err("List/append requires a list (piped)"@),
            (Some(_), None) => Err("List/append requires an item expression"@),
            (Some(list), Some(value)) => {
                let item_ctx = with_context(ctx, recording_context(ctx.actor_context, span));
                match part_evaluated(depth, bound, m, value, item_ctx) {
                    Err(message) => Err(message),
                    Ok(done) => match done.1 {
                        None => Ok((done.0, Some(list))),
                        Some(item) => {
                            let actor = ActorSpecView::ListAppend {
                                list,
                                item,
                                storage_key: append_storage_key(span),
                            };
                            Ok(
                                (
                                    add_actor(done.0, actor, key, span, ctx.actor_context),
                                    Some(next_actor(done.0)),
                                ),
                            )
                        },
                    },
                }
            },
        }
    }
}

/// Scheduling a call: its arguments are evaluated first.
pub open spec fn schedule_call(
    depth: nat,
    bound: nat,
    m: MachineView,
    path: Seq<Seq<char>>,
    arguments: Seq<SpannedArgumentView>,
    span: Span,
    key: PersistenceKey,
    ctx: EvaluationContextView,
    slot: u32,
    forward: bool,
) -> Step
    decreases depth, bound, 1nat, 0nat,
{
    match argue(m, arguments, arguments.len(), ctx, span, forward) {
        Err(message) => Err(message),
        Ok(a) => {
            let job_ctx = if forward {
                with_locals(ctx, a.locals)
            } else {
                ctx
            };
            let called = pushed(
                a.m,
                WorkItemView::CallFunction {
                    path,
                    arg_slots: a.slots,
                    passed_slot: a.passed_slot,
                    passed_context: a.passed_context,
                    use_piped_for_builtin: !forward,
                    span,
                    key,
                    ctx,
                    result_slot: slot,
                },
            );
            let connected = if a.connections.len() > 0 {
                pushed(
                    called,
                    WorkItemView::ConnectForwardingActors { connections: a.connections },
                )
            } else {
                called
            };
            let wrapped = if forward {
                MachineView {
                    queue: connected.queue + wraps(a.jobs, a.jobs.len(), job_ctx),
                    ..connected
                }
            } else {
                connected
            };
            schedule_jobs(depth, bound, wrapped, a.jobs, a.jobs.len(), job_ctx)
        },
    }
}

/// Scheduling an object: first the variables that nothing refers to, then the others.
pub open spec fn schedule_object(
    depth: nat,
    bound: nat,
    m: MachineView,
    tag: Option<Seq<char>>,
    variables: Seq<SpannedVariableView>,
    span: Span,
    key: PersistenceKey,
    ctx: EvaluationContextView,
    slot: u32,
) -> Step
    decreases depth, bound, 1nat, 0nat,
{
    let d = declare(m, variables, variables.len(), ctx);
    let inner = with_locals(ctx, d.locals);
    let item = match tag {
        None => WorkItemView::BuildObject {
            variable_data: d.data,
            span,
            key,
            ctx: inner,
            result_slot: slot,
        },
        Some(tag) => WorkItemView::BuildTaggedObject {
            tag,
            variable_data: d.data,
            span,
            key,
            ctx: inner,
            result_slot: slot,
        },
    };
    let first = value_jobs(variables, d.data, variables.len(), Some(false));
    let second = value_jobs(variables, d.data, variables.len(), Some(true));
    let jobs = first + second;
    schedule_jobs(depth, bound, pushed(d.m, item), jobs, jobs.len(), inner)
}

/// Scheduling a block: an object of its variables and an output that sees them.
pub open spec fn schedule_block(
    depth: nat,
    bound: nat,
    m: MachineView,
    variables: Seq<SpannedVariableView>,
    output: SpannedExpressionView,
    span: Span,
    key: PersistenceKey,
    ctx: EvaluationContextView,
    slot: u32,
) -> Step
    decreases depth, bound, 1nat, 0nat,
{
    let object_slot = m.next_slot;
    let output_slot = slot_at(m.next_slot, 1);
    let d = declare(allocated(m, 2), variables, variables.len(), ctx);
    let inner = with_context(
        ctx,
        ActorContextView {
            object_locals: d.locals,
            is_snapshot_context: false,
            ..ctx.actor_context
        },
    );
    let framed = pushed(
        d.m,
        WorkItemView::BuildBlock { object_slot, output_slot, result_slot: slot },
    );
    match schedule_jobs(depth, bound, framed, seq![(output, output_slot)], 1, inner) {
        Err(message) => Err(message),
        Ok(after) => {
            let built = pushed(
                after,
                WorkItemView::BuildObject {
                    variable_data: d.data,
                    span,
                    key,
                    ctx: inner,
                    result_slot: object_slot,
                },
            );
            let jobs = value_jobs(variables, d.data, variables.len(), None);
            schedule_jobs(depth, bound, built, jobs, jobs.len(), inner)
        },
    }
}

/// Scheduling an expression: simple actors are made at once, and for the others the steps that
/// make them are added.
pub open spec fn schedule(
    depth: nat,
    start: MachineView,
    e: SpannedExpressionView,
    ctx: EvaluationContextView,
    slot: u32,
) -> Step
    decreases depth, expr_size(e), 2nat, 0nat,
{
    let key = key_of(start, e.persistence);
    let m = keyed(start, e.persistence);
    let span = e.span;
    let context = ctx.actor_context;
    let bound = expr_size(e);
    match e.node {
        ExpressionView::Variable(_) => Err("Failed to evaluate the variable in this context."@),
        ExpressionView::Link => Err(
            "LINK expression should only appear as a variable value in objects/blocks, not evaluated directly."@,
        ),
        ExpressionView::Literal(literal) => Ok(
            emit(m, slot, ActorSpecView::Literal(literal), key, span, context),
        ),
        ExpressionView::Skip => Ok(m),
        ExpressionView::List { items } => {
            let slots = Seq::new(items.len(), |i: int| slot_at(m.next_slot, i));
            let built = pushed(
                allocated(m, items.len()),
                WorkItemView::BuildList {
                    item_slots: slots,
                    span,
                    key,
                    ctx,
                    result_slot: slot,
                },
            );
            schedule_items(depth, bound, built, items, items.len(), m.next_slot, ctx)
        },
        ExpressionView::Operator { op, operand_a, operand_b } => {
            let a_slot = m.next_slot;
            let b_slot = slot_at(m.next_slot, 1);
            let built = pushed(
                allocated(m, 2),
                WorkItemView::BinaryOp {
                    op,
                    operand_a_slot: a_slot,
                    operand_b_slot: b_slot,
                    span,
                    key,
                    ctx,
                    result_slot: slot,
                },
            );
            let jobs = seq![(*operand_a, a_slot), (*operand_b, b_slot)];
            schedule_jobs(depth, bound, built, jobs, 2, ctx)
        },
        ExpressionView::Negate { operand } => {
            let minus_slot = m.next_slot;
            let operand_slot = slot_at(m.next_slot, 1);
            let minus = emit(
                allocated(m, 2),
                minus_slot,
                ActorSpecView::Literal(LiteralView::Number(MINUS_ONE_BITS)),
                key,
                span,
                context,
            );
            let built = pushed(
                minus,
                WorkItemView::BinaryOp {
                    op: BinaryOpKind::Multiply,
                    operand_a_slot: minus_slot,
                    operand_b_slot: operand_slot,
                    span,
                    key,
                    ctx,
                    result_slot: slot,
                },
            );
            schedule_jobs(depth, bound, built, seq![(*operand, operand_slot)], 1, ctx)
        },
        ExpressionView::Alias(alias) => match alias_step(m, alias, key, span, ctx) {
            Err(message) => Err(message),
            Ok(done) => Ok(stored(done.0, slot, done.1)),
        },
        ExpressionView::Then { body } => emit_result(
            m,
            slot,
            then_actor(m, *body, kept_id(key), ctx),
            key,
            span,
            context,
        ),
        ExpressionView::When { arms } => emit_result(
            m,
            slot,
            when_actor(m, arms, ctx),
            key,
            span,
            context,
        ),
        ExpressionView::While { arms } => emit_result(
            m,
            slot,
            while_actor(m, arms, ctx),
            key,
            span,
            context,
        ),
        ExpressionView::Hold { state_param, body } => match context.piped {
            None => Err("HOLD requires a piped value for initial state"@),
            Some(piped) => {
                let initial_slot = m.next_slot;
                Ok(
                    stored(
                        pushed(
                            allocated(m, 1),
                            WorkItemView::BuildHold {
                                initial_slot,
                                state_param,
                                body: *body,
                                span,
                                key,
                                ctx,
                                result_slot: slot,
                            },
                        ),
                        initial_slot,
                        piped,
                    ),
                )
            },
        },
        ExpressionView::Pipe { .. } => {
            let steps = pipe_steps(e);
            let set_up = piped_machine(m, steps.skip(1), ctx, slot);
            schedule_jobs(depth, bound, set_up, seq![(steps[0], m.next_slot)], 1, ctx)
        },
        ExpressionView::Block { variables, output } => schedule_block(
            depth,
            bound,
            m,
            variables,
            *output,
            span,
            key,
            ctx,
            slot,
        ),
        ExpressionView::Object { variables } => schedule_object(
            depth,
            bound,
            m,
            None,
            variables,
            span,
            key,
            ctx,
            slot,
        ),
        ExpressionView::TaggedObject { tag, variables } => schedule_object(
            depth,
            bound,
            m,
            Some(tag),
            variables,
            span,
            key,
            ctx,
            slot,
        ),
        ExpressionView::Latest { inputs } => {
            let slots = Seq::new(inputs.len(), |i: int| slot_at(m.next_slot, i));
            let built = pushed(
                allocated(m, inputs.len()),
                WorkItemView::BuildLatest {
                    input_slots: slots,
                    span,
                    key,
                    ctx,
                    result_slot: slot,
                },
            );
            let jobs = Seq::new(inputs.len(), |i: int| (inputs[i], slot_at(m.next_slot, i)));
            schedule_jobs(depth, bound, built, jobs, jobs.len(), ctx)
        },
        ExpressionView::FunctionCall { path, arguments } => match binding_operation(path) {
            Some(operation) => store_optional(
                list_binding(depth, bound, m, path[1], operation, arguments, key, span, ctx),
                slot,
            ),
            None => if is_list_path(path, "append"@) {
                store_optional(list_append(depth, bound, m, arguments, key, span, ctx), slot)
            } else {
                schedule_call(
                    depth,
                    bound,
                    m,
                    path,
                    arguments,
                    span,
                    key,
                    ctx,
                    slot,
                    true,
                )
            },
        },
        ExpressionView::TextLiteral { parts } => text_literal_step(m, parts, key, span, ctx, slot),
        ExpressionView::Function { name, parameters, body } => {
            let definition = StaticFunctionDefinitionView { parameters, body: *body };
            let known = MachineView { registry: m.registry.insert(name, definition), ..m };
            Ok(emit(known, slot, ActorSpecView::Function { name }, key, span, context))
        },
        ExpressionView::LinkSetter { alias } => match alias_step(m, alias, key, span, ctx) {
            Err(message) => Err(message),
            Ok(done) => Ok(
                emit(
                    done.0,
                    slot,
                    ActorSpecView::Relay { source: done.1 },
                    key,
                    span,
                    context,
                ),
            ),
        },
        ExpressionView::FieldAccess { path } => match context.piped {
            None => Err("FieldAccess requires a piped value"@),
            Some(piped) => Ok(
                emit(m, slot, ActorSpecView::FieldAccess { piped, path }, key, span, context),
            ),
        },
        ExpressionView::Unsupported => Err(
            "Expression type not yet supported in stack-safe evaluator: "@ + span_name(span),
        ),
    }
}

/// Building an object from its variables.
pub open spec fn process_object(
    m: MachineView,
    tag: Option<Seq<char>>,
    data: Seq<ObjectVariableDataView>,
    span: Span,
    key: PersistenceKey,
    ctx: EvaluationContextView,
    slot: u32,
) -> MachineView {
    let b = build(m, data, data.len(), ctx);
    let actor = match tag {
        None => ActorSpecView::Object { variables: b.variables },
        Some(tag) => ActorSpecView::TaggedObject { tag, variables: b.variables },
    };
    emit(b.m, slot, actor, key, span, ctx.actor_context)
}

/// Building HOLD: its state is an actor, and its body is evaluated with the state as parameter.
pub open spec fn process_hold(
    depth: nat,
    bound: nat,
    m: MachineView,
    initial: u64,
    state_param: Seq<char>,
    body: SpannedExpressionView,
    key: PersistenceKey,
    span: Span,
    ctx: EvaluationContextView,
    slot: u32,
) -> Step
    decreases depth, bound, 1nat, 0nat,
{
    let context = ctx.actor_context;
    let state = next_actor(m);
    let held = add_actor(
        drawn(m),
        ActorSpecView::HoldState { state_param, initial },
        PersistenceKey::Fresh(m.plan.fresh),
        span,
        context,
    );
    let body_ctx = with_context(ctx, hold_body_context(context, state_param, state));
    match part_evaluated(depth, bound, held, body, body_ctx) {
        Err(message) => Err(message),
        Ok(done) => match done.1 {
            None => Ok(done.0),
            Some(result) => Ok(
                emit(
                    done.0,
                    slot,
                    ActorSpecView::Hold { state, body: result, initial },
                    key,
                    span,
                    context,
                ),
            ),
        },
    }
}

/// A piped value that is handed to a link: a forwarder, a pass-through and a relay. The
/// pass-through is found again by the identity of the link setter and its scope.
pub open spec fn process_link_setter(
    m: MachineView,
    source: u64,
    alias: AliasView,
    key: PersistenceKey,
    span: Span,
    ctx: EvaluationContextView,
    slot: u32,
) -> MachineView {
    let context = ctx.actor_context;
    let forwarder = next_actor(m);
    let m1 = add_actor(
        drawn(m),
        ActorSpecView::LinkForwarder { source, alias, pass_through: key },
        PersistenceKey::Fresh(m.plan.fresh),
        span,
        context,
    );
    let pass_through = next_actor(m1);
    let m2 = add_actor(
        drawn(m1),
        ActorSpecView::PassThrough { forwarder, key },
        PersistenceKey::Fresh(m1.plan.fresh),
        span,
        context,
    );
    emit(
        drawn(m2),
        slot,
        ActorSpecView::LinkRelay { pass_through, key },
        PersistenceKey::Fresh(m2.plan.fresh),
        span,
        context,
    )
}

/// A call whose arguments have been evaluated.
pub open spec fn process_call(
    depth: nat,
    m: MachineView,
    path: Seq<Seq<char>>,
    arg_slots: Seq<ArgumentSlotView>,
    passed_context: Option<u32>,
    use_piped: bool,
    span: Span,
    key: PersistenceKey,
    ctx: EvaluationContextView,
    slot: u32,
) -> Step
    decreases depth, 0nat, 2nat, 0nat,
{
    let arguments = found_arguments(m, arg_slots, arg_slots.len());
    let call_ctx = if passed_context is Some && m.results.contains_key(passed_context->0) {
        with_context(
            ctx,
            ActorContextView { passed: Some(m.results[passed_context->0]), ..ctx.actor_context },
        )
    } else {
        ctx
    };
    match call(depth, m, path, arguments, key, span, call_ctx, use_piped) {
        Err(message) => Err(message),
        Ok(done) => {
            let after = MachineView { loops: Seq::empty(), ..done.0 };
            match done.1 {
                None => Ok(after),
                Some(actor) => if done.0.loops.len() == 0 {
                    Ok(stored(after, slot, actor))
                } else {
                    Ok(
                        emit(
                            after,
                            slot,
                            ActorSpecView::WithLoops { source: actor, loops: done.0.loops },
                            key,
                            span,
                            call_ctx.actor_context,
                        ),
                    )
                },
            }
        },
    }
}

/// Doing one step.
pub open spec fn process(depth: nat, m: MachineView, item: WorkItemView) -> Step
    decreases depth, weight(item), 2nat, 0nat,
{
    let bound = weight(item);
    match item {
        WorkItemView::Evaluate { expr, ctx, result_slot } => schedule(
            depth,
            m,
            expr,
            ctx,
            result_slot,
        ),
        WorkItemView::BinaryOp {
            op,
            operand_a_slot,
            operand_b_slot,
            span,
            key,
            ctx,
            result_slot,
        } => if !m.results.contains_key(operand_a_slot) || !m.results.contains_key(operand_b_slot) {
            Ok(m)
        } else {
            Ok(
                emit(
                    m,
                    result_slot,
                    ActorSpecView::BinaryOp {
                        op,
                        a: m.results[operand_a_slot],
                        b: m.results[operand_b_slot],
                    },
                    key,
                    span,
                    ctx.actor_context,
                ),
            )
        },
        WorkItemView::BuildList { item_slots, span, key, ctx, result_slot } => {
            Ok(
                emit(
                    m,
                    result_slot,
                    ActorSpecView::List { items: found(m, item_slots, item_slots.len()) },
                    key,
                    span,
                    ctx.actor_context,
                ),
            )
        },
        WorkItemView::BuildObject { variable_data, span, key, ctx, result_slot } => {
            Ok(process_object(m, None, variable_data, span, key, ctx, result_slot))
        },
        WorkItemView::BuildTaggedObject {
            tag,
            variable_data,
            span,
            key,
            ctx,
            result_slot,
        } => Ok(process_object(m, Some(tag), variable_data, span, key, ctx, result_slot)),
        WorkItemView::BuildLatest { input_slots, span, key, ctx, result_slot } => {
            Ok(
                emit(
                    m,
                    result_slot,
                    ActorSpecView::Latest { inputs: found(m, input_slots, input_slots.len()) },
                    key,
                    span,
                    ctx.actor_context,
                ),
            )
        },
        WorkItemView::BuildThen { body, span, key, ctx, result_slot, .. } => {
            emit_result(
                m,
                result_slot,
                then_actor(m, body, kept_id(key), ctx),
                key,
                span,
                ctx.actor_context,
            )
        },
        WorkItemView::BuildWhen { arms, span, key, ctx, result_slot, .. } => {
            emit_result(
                m,
                result_slot,
                when_actor(m, arms, ctx),
                key,
                span,
                ctx.actor_context,
            )
        },
        WorkItemView::BuildWhile { arms, span, key, ctx, result_slot, .. } => {
            emit_result(
                m,
                result_slot,
                while_actor(m, arms, ctx),
                key,
                span,
                ctx.actor_context,
            )
        },
        WorkItemView::BuildHold {
            initial_slot,
            state_param,
            body,
            span,
            key,
            ctx,
            result_slot,
        } => if !m.results.contains_key(initial_slot) {
            Ok(m)
        } else {
            process_hold(
                depth,
                bound,
                m,
                m.results[initial_slot],
                state_param,
                body,
                key,
                span,
                ctx,
                result_slot,
            )
        },
        WorkItemView::BuildBlock { object_slot, output_slot, result_slot } => {
            if !m.results.contains_key(output_slot) {
                Ok(m)
            } else if m.results.contains_key(object_slot) {
                Ok(
                    emit(
                        drawn(m),
                        result_slot,
                        ActorSpecView::Block {
                            object: m.results[object_slot],
                            output: m.results[output_slot],
                        },
                        PersistenceKey::Fresh(m.plan.fresh),
                        Span { start: 0, end: 0 },
                        root_context(),
                    ),
                )
            } else {
                Ok(stored(m, result_slot, m.results[output_slot]))
            }
        },
        WorkItemView::EvaluateWithPiped { expr, prev_slot, ctx, result_slot } => {
            if !m.results.contains_key(prev_slot) {
                Ok(m)
            } else {
                let piped = m.results[prev_slot];
                let inner = with_context(
                    ctx,
                    ActorContextView { piped: Some(piped), ..ctx.actor_context },
                );
                match expr.node {
                    ExpressionView::FunctionCall { path, arguments } => {
                        if binding_operation(path) is Some || is_list_path(path, "append"@) {
                            schedule(depth, m, expr, inner, result_slot)
                        } else {
                            schedule_call(
                                depth,
                                expr_size(expr),
                                keyed(m, expr.persistence),
                                path,
                                arguments,
                                expr.span,
                                key_of(m, expr.persistence),
                                inner,
                                result_slot,
                                false,
                            )
                        }
                    },
                    ExpressionView::LinkSetter { alias } => Ok(
                        process_link_setter(
                            keyed(m, expr.persistence),
                            piped,
                            alias,
                            key_of(m, expr.persistence),
                            expr.span,
                            inner,
                            result_slot,
                        ),
                    ),
                    _ => schedule(depth, m, expr, inner, result_slot),
                }
            }
        },
        WorkItemView::CallFunction {
            path,
            arg_slots,
            passed_context,
            use_piped_for_builtin,
            span,
            key,
            ctx,
            result_slot,
            ..
        } => process_call(
            depth,
            m,
            path,
            arg_slots,
            passed_context,
            use_piped_for_builtin,
            span,
            key,
            ctx,
            result_slot,
        ),
        WorkItemView::ConnectForwardingActors { connections } => Ok(
            MachineView { loops: connected(m, connections, connections.len()), ..m },
        ),
        WorkItemView::WrapWithPersistence { source_slot, persistence_id, ctx, result_slot } => {
            if m.results.contains_key(source_slot) {
                Ok(
                    emit(
                        m,
                        result_slot,
                        ActorSpecView::Persisted { source: m.results[source_slot] },
                        PersistenceKey::Stored(persistence_id),
                        Span { start: 0, end: 0 },
                        ctx.actor_context,
                    ),
                )
            } else {
                Ok(m)
            }
        },
    }
}

/// The machine after its last step was done.
#[verifier::opaque]
pub open spec fn next_step(depth: nat, m: MachineView) -> Step {
    process(depth, MachineView { queue: m.queue.drop_last(), ..m }, m.queue.last())
}

/// The machine after all its steps were done.
#[verifier::opaque]
pub open spec fn finished(depth: nat, m: MachineView) -> Step {
    run_queue(depth, m)
}

} // verus!
