//! The parts of an evaluation that look at one level of an expression alone.
use crate::builtins::{BuiltinFunction, is_builtin, lemma_path_names_one_function};
use crate::contexts::span_text;
use crate::evaluation::{
    AliasTarget, Arguments, Built, Declared, Job, Step, alias_step, alias_target, argue,
    argue_one, binding_operation, build, build_one, builtin_of, called_function, connected,
    declare, expr_size, found, found_arguments, is_list_path, kept_id, no_such_variable,
    one_by_one, parameter_names, pipe_steps, process_link_setter, process_object, quoted_names,
    text_literal_step, text_part_step, text_parts_step, then_actor, unbound_parameter, value_jobs,
    variable_known, variables_size, visible_functions, when_actor, while_actor, with_arguments,
    with_locals, wraps,
};
use crate::evaluation_state::{EvaluationState, MachineView, stored};
use crate::expression_clone::clone_vec_arm;
use crate::expression_view::{
    ExpressionView, SpannedArgumentView, SpannedExpressionView, SpannedVariableView, TextPartView,
    arm_seq, lemma_arm_seq, lemma_spanned_argument_seq, lemma_spanned_variable_seq,
    spanned_argument_seq, spanned_variable_seq,
};
use crate::plan::{
    ActorContext, ActorSpec, AliasRoot, ArgumentSlot, EvaluationContext, ForwardingConnection,
    ForwardingLoop, FunctionRegistry, ListBindingOperation, ObjectVariableData, PersistenceKey,
    Registration, VariableSpec, WorkItem,
};
use crate::plan_clone::clone_map_u64;
use crate::plan_view::{
    ActorSpecView, ArgumentSlotView, EvaluationContextView, ObjectVariableDataView,
    VariableSpecView,
};
use crate::static_expression::{
    Alias, Arm, BinaryOpKind, Expression, Literal, PersistenceId, Span, SpannedArgument,
    SpannedExpression, SpannedVariable, StaticFunctionDefinition, TextPart,
};
use crate::text::{opt_text, split_parts, split_text, text_eq};
use crate::text_map::{TextMap, ordered_pairs};
use crate::values::text_seq;
use vstd::prelude::*;
use vstd::string::*;

verus! {

/// Adds the steps of a chain of pipes, from the first to the last.
pub fn collect_pipe_steps(expr: &SpannedExpression, steps: &mut Vec<SpannedExpression>)
    ensures
        final(steps)@.map_values(|x: SpannedExpression| x@) == old(steps)@.map_values(
            |x: SpannedExpression| x@,
        ) + pipe_steps(expr@),
    decreases expr,
{
    let ghost f = |x: SpannedExpression| x@;
    let ghost before = steps@.map_values(f);
    proof {
        assert(expr@.node == expr.node@);
    }
    match &expr.node {
        Expression::Pipe { from, to } => {
            collect_pipe_steps(from, steps);
            let ghost middle = steps@.map_values(f);
            steps.push((**to).clone());
            proof {
                assert(steps@.map_values(f) =~= middle.push((**to)@));
                assert(middle.push((**to)@) =~= before + pipe_steps((**from)@).push((**to)@));
            }
        },
        _ => {
            steps.push(expr.clone());
            proof {
                assert(steps@.map_values(f) =~= before + seq![expr@]);
            }
        },
    }
}

/// The links of a chain of pipes that leans to the right.
pub open spec fn chain_links(e: SpannedExpressionView) -> Seq<SpannedExpressionView>
    decreases e,
{
    match e.node {
        ExpressionView::Pipe { from, to } => seq![*from] + chain_links(*to),
        _ => seq![e],
    }
}

/// The links of a chain of pipes that leans to the right.
pub fn flatten_pipe_chain(expr: &SpannedExpression) -> (r: Vec<SpannedExpression>)
    ensures
        r@.map_values(|x: SpannedExpression| x@) == chain_links(expr@),
    decreases expr,
{
    let ghost f = |x: SpannedExpression| x@;
    proof {
        assert(expr@.node == expr.node@);
    }
    match &expr.node {
        Expression::Pipe { from, to } => {
            let mut rest = flatten_pipe_chain(to);
            let ghost tail = rest@.map_values(f);
            rest.insert(0, (**from).clone());
            proof {
                assert(rest@.map_values(f) =~= seq![(**from)@] + tail);
            }
            rest
        },
        _ => {
            let mut chain: Vec<SpannedExpression> = Vec::new();
            chain.push(expr.clone());
            proof {
                assert(chain@.map_values(f) =~= seq![expr@]);
            }
            chain
        },
    }
}

pub(crate) fn message(text: &str) -> (r: String)
    ensures
        r@ == text@,
{
    text.to_owned()
}

pub(crate) fn quoted(before: &str, name: &str, after: &str) -> (r: String)
    ensures
        r@ == before@ + name@ + after@,
{
    let mut out = before.to_owned();
    out.append(name);
    out.append(after);
    out
}

/// What is exactly known of a result.
pub open spec fn is_step(r: Result<(), String>, after: MachineView, step: Step) -> bool {
    match r {
        Ok(_) => step == Ok::<MachineView, Seq<char>>(after),
        Err(e) => step == Err::<MachineView, Seq<char>>(e@),
    }
}

pub(crate) fn functions_seen(
    state: &EvaluationState,
    ctx: &EvaluationContext,
) -> (r: FunctionRegistry)
    ensures
        r@ == visible_functions(state@, ctx@),
{
    let r = match &ctx.function_registry_snapshot {
        Some(snapshot) => snapshot.merged(state.functions()),
        None => FunctionRegistry::new().merged(state.functions()),
    };
    proof {
        assert(r@ =~= visible_functions(state@, ctx@));
    }
    r
}

/// Where a reference starts, or the actor itself when it is a parameter that is taken whole.
pub(crate) enum FoundAlias {
    Whole(u64),
    Root(AliasRoot),
}

pub(crate) fn find_alias(alias: &Alias, ctx: &EvaluationContext) -> (r: Result<FoundAlias, String>)
    ensures
        match r {
            Ok(FoundAlias::Whole(actor)) => alias_target(alias@, ctx@) == Ok::<
                AliasTarget,
                Seq<char>,
            >(AliasTarget::Whole(actor)),
            Ok(FoundAlias::Root(root)) => alias_target(alias@, ctx@) == Ok::<
                AliasTarget,
                Seq<char>,
            >(AliasTarget::Root(root)),
            Err(e) => alias_target(alias@, ctx@) == Err::<AliasTarget, Seq<char>>(e@),
        },
{
    let context = &ctx.actor_context;
    match alias {
        Alias::WithPassed { .. } => match context.passed {
            Some(passed) => Ok(FoundAlias::Root(AliasRoot::Actor(passed))),
            None => Err(message("PASSED is not available in this context")),
        },
        Alias::WithoutPassed { parts, referenced_span } => {
            let first = if parts.len() > 0 {
                parts[0].clone()
            } else {
                String::new()
            };
            proof {
                assert(alias@->parts.len() == parts@.len());
                if parts@.len() > 0 {
                    assert(alias@->parts[0] == parts@[0]@);
                }
            }
            if let Some(actor) = context.parameters.get(first.as_str()) {
                if parts.len() == 1 {
                    return Ok(FoundAlias::Whole(*actor));
                }
                return Ok(FoundAlias::Root(AliasRoot::Actor(*actor)));
            }
            match referenced_span {
                Some(span) => {
                    if let Some(actor) = context.object_locals.get(span_text(*span).as_str()) {
                        return Ok(FoundAlias::Root(AliasRoot::Actor(*actor)));
                    }
                    if ctx.try_reference_connector() {
                        Ok(FoundAlias::Root(AliasRoot::Reference(*span)))
                    } else {
                        Err(message("ReferenceConnector dropped - program shutting down"))
                    }
                },
                None => {
                    if parts.len() >= 2 {
                        Err(
                            quoted(
                                "Module variable access '",
                                first.as_str(),
                                "' not yet supported in stack-safe evaluator",
                            ),
                        )
                    } else {
                        Err(quoted("Failed to get aliased variable '", first.as_str(), "'"))
                    }
                },
            }
        },
    }
}

/// Evaluates a reference.
pub fn evaluate_alias_immediate(
    state: &mut EvaluationState,
    alias: &Alias,
    key: PersistenceKey,
    span: Span,
    ctx: &EvaluationContext,
) -> (r: Result<u64, String>)
    ensures
        match r {
            Ok(actor) => alias_step(old(state)@, alias@, key, span, ctx@) == Ok::<
                (MachineView, u64),
                Seq<char>,
            >((final(state)@, actor)),
            Err(e) => alias_step(old(state)@, alias@, key, span, ctx@) == Err::<
                (MachineView, u64),
                Seq<char>,
            >(e@),
        },
{
    match find_alias(alias, ctx) {
        Err(e) => Err(e),
        Ok(FoundAlias::Whole(actor)) => Ok(actor),
        Ok(FoundAlias::Root(root)) => Ok(
            state.add_actor(
                ActorSpec::Alias { root, alias: alias.clone() },
                key,
                span,
                &ctx.actor_context,
            ),
        ),
    }
}

pub(crate) fn takes_one_by_one(context: &ActorContext) -> (r: bool)
    ensures
        r == one_by_one(context@),
{
    context.backpressure_permit.is_some() || context.sequential_processing
}

/// The actor of an operator.
pub fn create_binary_op_actor(op: BinaryOpKind, a: u64, b: u64) -> (r: ActorSpec)
    ensures
        r@ == (ActorSpecView::BinaryOp { op, a, b }),
{
    ActorSpec::BinaryOp { op, a, b }
}

/// The actor of THEN.
pub fn build_then_actor(
    state: &EvaluationState,
    body: &SpannedExpression,
    persistence: Option<PersistenceId>,
    ctx: &EvaluationContext,
) -> (r: Result<ActorSpec, String>)
    ensures
        match r {
            Ok(a) => then_actor(state@, body@, persistence, ctx@) == Ok::<
                ActorSpecView,
                Seq<char>,
            >(a@),
            Err(e) => then_actor(state@, body@, persistence, ctx@) == Err::<
                ActorSpecView,
                Seq<char>,
            >(e@),
        },
{
    match ctx.actor_context.piped {
        None => Err(message("THEN requires a piped value")),
        Some(piped) => {
            let mut own = body.clone();
            proof {
                assert(own@.node == own.node@);
            }
            own.persistence = persistence;
            proof {
                assert(own@ == (SpannedExpressionView { persistence, ..body@ }));
            }
            Ok(
                ActorSpec::Then {
                    piped,
                    body: own,
                    registry: functions_seen(state, ctx),
                    ordered: takes_one_by_one(&ctx.actor_context),
                    lazy: ctx.actor_context.use_lazy_actors,
                },
            )
        },
    }
}

/// The actor of WHEN.
pub fn build_when_actor(
    state: &EvaluationState,
    arms: &Vec<Arm>,
    ctx: &EvaluationContext,
) -> (r: Result<ActorSpec, String>)
    ensures
        match r {
            Ok(a) => when_actor(state@, arm_seq(arms@), ctx@) == Ok::<ActorSpecView, Seq<char>>(a@),
            Err(e) => when_actor(state@, arm_seq(arms@), ctx@) == Err::<ActorSpecView, Seq<char>>(
                e@,
            ),
        },
{
    match ctx.actor_context.piped {
        None => Err(message("WHEN requires a piped value")),
        Some(piped) => {
            proof {
                lemma_arm_seq(arms@);
            }
            Ok(
                ActorSpec::When {
                    piped,
                    arms: clone_vec_arm(arms),
                    registry: functions_seen(state, ctx),
                    ordered: takes_one_by_one(&ctx.actor_context),
                },
            )
        },
    }
}

/// The actor of WHILE.
pub fn build_while_actor(
    state: &EvaluationState,
    arms: &Vec<Arm>,
    ctx: &EvaluationContext,
) -> (r: Result<ActorSpec, String>)
    ensures
        match r {
            Ok(a) => while_actor(state@, arm_seq(arms@), ctx@) == Ok::<ActorSpecView, Seq<char>>(
                a@,
            ),
            Err(e) => while_actor(state@, arm_seq(arms@), ctx@) == Err::<ActorSpecView, Seq<char>>(
                e@,
            ),
        },
{
    match ctx.actor_context.piped {
        None => Err(message("WHILE requires a piped value")),
        Some(piped) => {
            proof {
                lemma_arm_seq(arms@);
            }
            Ok(
                ActorSpec::While {
                    piped,
                    arms: clone_vec_arm(arms),
                    registry: functions_seen(state, ctx),
                },
            )
        },
    }
}

fn unknown_variable(var: &str, parameters: &TextMap<u64>) -> (r: String)
    ensures
        r@ == no_such_variable(var@, parameters@),
{
    let mut out = quoted("Variable '", var, "' not found for text interpolation. Available: [");
    let ghost head = out@;
    let ghost names = parameter_names(parameters@);
    let count: usize = parameters.len();
    let mut i: usize = 0;
    proof {
        assert(names.take(0) =~= Seq::empty());
        assert(head + Seq::<char>::empty() =~= head);
    }
    while i < count
        invariant
            i <= count,
            count == names.len(),
            count == ordered_pairs(parameters@).len(),
            names == parameter_names(parameters@),
            out@ == head + quoted_names(names.take(i as int)),
        decreases count - i,
    {
        let ghost before = out@;
        let ghost known = quoted_names(names.take(i as int));
        let (name, _) = parameters.entry(i);
        if i > 0 {
            out.append(", ");
        }
        out.append("\"");
        out.append(name.as_str());
        out.append("\"");
        proof {
            let last = "\""@ + name@ + "\""@;
            assert(names[i as int] == name@);
            assert(names.take(i + 1).last() == name@);
            assert(names.take(i + 1).drop_last() =~= names.take(i as int));
            if i == 0 {
                assert(before + "\""@ + name@ + "\""@ =~= head + last);
            } else {
                assert(before + ", "@ + "\""@ + name@ + "\""@ =~= head + (known + ", "@ + last));
            }
        }
        i += 1;
    }
    out.append("]");
    assert(names.take(i as int) =~= names);
    out
}

pub(crate) fn text_part(
    state: &mut EvaluationState,
    part: &TextPart,
    key: PersistenceKey,
    span: Span,
    ctx: &EvaluationContext,
) -> (r: Result<(bool, u64), String>)
    ensures
        match r {
            Ok(p) => text_part_step(old(state)@, part@, key, span, ctx@) == Ok::<
                (MachineView, bool, u64),
                Seq<char>,
            >((final(state)@, p.0, p.1)),
            Err(e) => text_part_step(old(state)@, part@, key, span, ctx@) == Err::<
                (MachineView, bool, u64),
                Seq<char>,
            >(e@),
        },
{
    let context = &ctx.actor_context;
    match part {
        TextPart::Text(text) => {
            let actor: u64 = state.add_actor(
                ActorSpec::Literal(Literal::Text(text.clone())),
                key,
                span,
                context,
            );
            Ok((true, actor))
        },
        TextPart::Interpolation { var, referenced_span } => {
            let mut names = split_text(var.as_str(), '.');
            let ghost all = split_parts(var@, '.');
            let first = names.remove(0);
            proof {
                assert(all[0] == first@);
                assert(text_seq(names@) =~= all.skip(1));
            }
            let base: u64 = match context.parameters.get(first.as_str()) {
                Some(actor) => *actor,
                None => match referenced_span {
                    None => {
                        return Err(unknown_variable(var.as_str(), &context.parameters));
                    },
                    Some(referenced) => {
                        if !ctx.try_reference_connector() {
                            return Err(
                                message("ReferenceConnector dropped - program shutting down"),
                            );
                        }
                        let fresh = state.draw();
                        state.add_actor(
                            ActorSpec::Reference { referenced: *referenced },
                            fresh,
                            span,
                            context,
                        )
                    },
                },
            };
            if names.len() == 0 {
                Ok((false, base))
            } else {
                let fresh = state.draw();
                let actor: u64 = state.add_actor(
                    ActorSpec::TextField { base, path: names },
                    fresh,
                    span,
                    context,
                );
                Ok((false, actor))
            }
        },
    }
}

/// Sets up a text literal.
pub fn build_text_literal_actor(
    state: &mut EvaluationState,
    parts: &Vec<TextPart>,
    key: PersistenceKey,
    span: Span,
    ctx: &EvaluationContext,
    slot: u32,
) -> (r: Result<(), String>)
    ensures
        is_step(
            r,
            final(state)@,
            text_literal_step(
                old(state)@,
                parts@.map_values(|x: TextPart| x@),
                key,
                span,
                ctx@,
                slot,
            ),
        ),
{
    let ghost start = state@;
    let ghost all = parts@.map_values(|x: TextPart| x@);
    let mut fixed: Vec<bool> = Vec::new();
    let mut actors: Vec<u64> = Vec::new();
    let mut i: usize = 0;
    while i < parts.len()
        invariant
            i <= parts@.len(),
            i == actors@.len(),
            i == fixed@.len(),
            start == old(state)@,
            all == parts@.map_values(|x: TextPart| x@),
            text_parts_step(start, all, i as nat, key, span, ctx@) == Ok::<
                (MachineView, Seq<bool>, Seq<u64>),
                Seq<char>,
            >((state@, fixed@, actors@)),
        decreases parts@.len() - i,
    {
        proof {
            assert(all[i as int] == parts@[i as int]@);
        }
        let ghost before = state@;
        match text_part(state, &parts[i], key, span, ctx) {
            Err(e) => {
                proof {
                    assert(text_parts_step(start, all, (i + 1) as nat, key, span, ctx@) == Err::<
                        (MachineView, Seq<bool>, Seq<u64>),
                        Seq<char>,
                    >(e@));
                    lemma_text_parts_error(
                        start,
                        all,
                        (i + 1) as nat,
                        all.len(),
                        key,
                        span,
                        ctx@,
                        e@,
                    );
                }
                return Err(e);
            },
            Ok(part) => {
                fixed.push(part.0);
                actors.push(part.1);
            },
        }
        i = i + 1;
    }
    if actors.len() == 0 {
        state.emit(
            slot,
            ActorSpec::Literal(Literal::Text(String::new())),
            key,
            span,
            &ctx.actor_context,
        );
    } else if actors.len() == 1 && fixed[0] {
        state.store(slot, actors[0]);
    } else {
        state.emit(
            slot,
            ActorSpec::CombinedText { parts: actors },
            key,
            span,
            &ctx.actor_context,
        );
    }
    Ok(())
}

pub(crate) proof fn lemma_text_parts_error(
    m: MachineView,
    parts: Seq<TextPartView>,
    i: nat,
    n: nat,
    key: PersistenceKey,
    span: Span,
    ctx: EvaluationContextView,
    e: Seq<char>,
)
    requires
        i <= n,
        text_parts_step(m, parts, i, key, span, ctx) == Err::<
            (MachineView, Seq<bool>, Seq<u64>),
            Seq<char>,
        >(e),
    ensures
        text_parts_step(m, parts, n, key, span, ctx) == Err::<
            (MachineView, Seq<bool>, Seq<u64>),
            Seq<char>,
        >(e),
    decreases n,
{
    if i < n {
        lemma_text_parts_error(m, parts, i, (n - 1) as nat, key, span, ctx, e);
    }
}

/// What is known of the variables of an object while it is set up.
pub(crate) struct DeclaredVariables {
    pub(crate) data: Vec<ObjectVariableData>,
    pub(crate) locals: TextMap<u64>,
}

/// The views of variable data.
pub open spec fn data_seq(data: Seq<ObjectVariableData>) -> Seq<ObjectVariableDataView> {
    data.map_values(|x: ObjectVariableData| x@)
}

pub(crate) fn declare_variables(
    state: &mut EvaluationState,
    variables: &Vec<SpannedVariable>,
    ctx: &EvaluationContext,
) -> (d: DeclaredVariables)
    ensures
        declare(old(state)@, spanned_variable_seq(variables@), variables@.len(), ctx@) == (
        Declared { m: final(state)@, data: data_seq(d.data@), locals: d.locals@ }),
        d.data@.len() == variables@.len(),
{
    let ghost start = state@;
    let ghost all = spanned_variable_seq(variables@);
    proof {
        lemma_spanned_variable_seq(variables@);
    }
    let mut data: Vec<ObjectVariableData> = Vec::new();
    let mut locals = clone_map_u64(&ctx.actor_context.object_locals);
    let mut i: usize = 0;
    proof {
        assert(data_seq(data@) =~= Seq::<ObjectVariableDataView>::empty());
    }
    while i < variables.len()
        invariant
            i <= variables@.len(),
            i == data@.len(),
            start == old(state)@,
            all == spanned_variable_seq(variables@),
            all.len() == variables@.len(),
            forall|j: int| 0 <= j < variables@.len() ==> #[trigger] all[j] == variables@[j]@,
            declare(start, all, i as nat, ctx@) == (Declared {
                m: state@,
                data: data_seq(data@),
                locals: locals@,
            }),
        decreases variables@.len() - i,
    {
        let var = &variables[i];
        proof {
            assert(all[i as int] == var@);
            assert(var@.node == var.node@);
            assert(var.node@.value == var.node.value@);
            assert(var.node.value@.node == var.node.value.node@);
        }
        let ghost data_before = data_seq(data@);
        let slot: u32 = state.alloc_slot();
        let is_link = match &var.node.value.node {
            Expression::Link => true,
            _ => false,
        };
        let mut forwarding: Option<u64> = None;
        let key = state.key_for(var.persistence);
        if var.node.is_referenced {
            let actor: u64 = state.add_actor(
                ActorSpec::Forwarding,
                key,
                var.span,
                &ctx.actor_context,
            );
            state.register(
                ctx.try_reference_connector(),
                Registration::Referenceable { span: var.span, actor },
            );
            locals.insert(span_text(var.span), actor);
            forwarding = Some(actor);
        }
        let datum = ObjectVariableData {
            name: var.node.name.clone(),
            value_slot: slot,
            is_link,
            is_referenced: var.node.is_referenced,
            span: var.span,
            key,
            forwarding_actor: forwarding,
        };
        data.push(datum);
        proof {
            assert(data_seq(data@) =~= data_before.push(datum@));
        }
        i = i + 1;
    }
    DeclaredVariables { data, locals }
}

/// The views of jobs.
pub open spec fn job_seq(jobs: Seq<(SpannedExpression, u32)>) -> Seq<Job> {
    jobs.map_values(|x: (SpannedExpression, u32)| (x.0@, x.1))
}

pub(crate) fn collect_value_jobs(
    variables: &Vec<SpannedVariable>,
    data: &Vec<ObjectVariableData>,
    referenced: Option<bool>,
    out: &mut Vec<(SpannedExpression, u32)>,
)
    requires
        variables@.len() == data@.len(),
    ensures
        job_seq(final(out)@) == job_seq(old(out)@) + value_jobs(
            spanned_variable_seq(variables@),
            data_seq(data@),
            variables@.len(),
            referenced,
        ),
{
    let ghost before = job_seq(out@);
    let ghost all = spanned_variable_seq(variables@);
    let ghost known = data_seq(data@);
    proof {
        lemma_spanned_variable_seq(variables@);
    }
    let mut i: usize = 0;
    proof {
        assert(before + value_jobs(all, known, 0, referenced) =~= before);
    }
    while i < variables.len()
        invariant
            i <= variables@.len(),
            variables@.len() == data@.len(),
            all.len() == variables@.len(),
            known == data_seq(data@),
            forall|j: int| 0 <= j < variables@.len() ==> #[trigger] all[j] == variables@[j]@,
            job_seq(out@) == before + value_jobs(all, known, i as nat, referenced),
        decreases variables@.len() - i,
    {
        let var = &variables[i];
        proof {
            assert(all[i as int] == var@);
            assert(var@.node == var.node@);
            assert(var.node@.value == var.node.value@);
            assert(known[i as int] == data@[i as int]@);
        }
        let other = match referenced {
            Some(wanted) => wanted != data[i].is_referenced,
            None => false,
        };
        if !(data[i].is_link || other) {
            let ghost jobs = job_seq(out@);
            let job = (var.node.value.clone(), data[i].value_slot);
            out.push(job);
            proof {
                assert(job_seq(out@) =~= jobs.push((job.0@, job.1)));
                assert(jobs.push((job.0@, job.1)) =~= before + value_jobs(
                    all,
                    known,
                    (i + 1) as nat,
                    referenced,
                ));
            }
        }
        i = i + 1;
    }
}

/// The arguments of a call while it is set up.
pub(crate) struct CallArguments {
    pub(crate) slots: Vec<ArgumentSlot>,
    pub(crate) jobs: Vec<(SpannedExpression, u32)>,
    pub(crate) passed_slot: Option<u32>,
    pub(crate) passed_context: Option<u32>,
    pub(crate) connections: Vec<ForwardingConnection>,
    pub(crate) locals: TextMap<u64>,
}

/// The views of argument slots.
pub open spec fn slot_seq(slots: Seq<ArgumentSlot>) -> Seq<ArgumentSlotView> {
    slots.map_values(|x: ArgumentSlot| x@)
}

pub(crate) open spec fn arguments_of(m: MachineView, a: CallArguments) -> Arguments {
    Arguments {
        m,
        slots: slot_seq(a.slots@),
        jobs: job_seq(a.jobs@),
        passed_slot: a.passed_slot,
        passed_context: a.passed_context,
        connections: a.connections@,
        locals: a.locals@,
    }
}

pub(crate) proof fn lemma_argue_error(
    m: MachineView,
    arguments: Seq<SpannedArgumentView>,
    i: nat,
    n: nat,
    ctx: EvaluationContextView,
    span: Span,
    forward: bool,
    e: Seq<char>,
)
    requires
        i <= n,
        argue(m, arguments, i, ctx, span, forward) == Err::<Arguments, Seq<char>>(e),
    ensures
        argue(m, arguments, n, ctx, span, forward) == Err::<Arguments, Seq<char>>(e),
    decreases n,
{
    if i < n {
        lemma_argue_error(m, arguments, i, (n - 1) as nat, ctx, span, forward, e);
    }
}

pub(crate) fn set_up_argument(
    state: &mut EvaluationState,
    acc: &mut CallArguments,
    arg: &SpannedArgument,
    ctx: &EvaluationContext,
    span: Span,
    forward: bool,
) -> (r: Result<(), String>)
    ensures
        match r {
            Ok(_) => argue_one(
                arguments_of(old(state)@, *old(acc)),
                arg@,
                ctx@,
                span,
                forward,
            ) == Ok::<Arguments, Seq<char>>(arguments_of(final(state)@, *final(acc))),
            Err(e) => argue_one(
                arguments_of(old(state)@, *old(acc)),
                arg@,
                ctx@,
                span,
                forward,
            ) == Err::<Arguments, Seq<char>>(e@),
        },
{
    let ghost before = arguments_of(state@, *acc);
    let ghost slots_before = slot_seq(acc.slots@);
    let ghost jobs_before = job_seq(acc.jobs@);
    let slot: u32 = state.alloc_slot();
    if text_eq(arg.name.as_str(), "PASS") {
        if let Some(value) = &arg.value {
            let job = (value.clone(), slot);
            acc.jobs.push(job);
            acc.passed_context = Some(slot);
            proof {
                assert(job_seq(acc.jobs@) =~= jobs_before.push((job.0@, slot)));
            }
        }
        return Ok(());
    }
    if forward && arg.is_referenced {
        let fresh = state.draw();
        let target: u64 = state.add_actor(
            ActorSpec::Forwarding,
            fresh,
            arg.span,
            &ctx.actor_context,
        );
        state.register(
            ctx.try_reference_connector(),
            Registration::Referenceable { span: arg.span, actor: target },
        );
        acc.connections.push(ForwardingConnection { slot, target });
        acc.locals.insert(span_text(arg.span), target);
    }
    let named = ArgumentSlot { name: arg.name.clone(), slot };
    match &arg.value {
        Some(value) => {
            let job = (value.clone(), slot);
            acc.slots.push(named);
            acc.jobs.push(job);
            proof {
                assert(slot_seq(acc.slots@) =~= slots_before.push(named@));
                assert(job_seq(acc.jobs@) =~= jobs_before.push((job.0@, slot)));
            }
            Ok(())
        },
        None => match ctx.actor_context.piped {
            Some(piped) => {
                state.store(slot, piped);
                acc.slots.push(named);
                acc.passed_slot = Some(slot);
                proof {
                    assert(slot_seq(acc.slots@) =~= slots_before.push(named@));
                }
                Ok(())
            },
            None => {
                let mut text = "PASS argument requires piped value at ".to_owned();
                text.append(span_text(span).as_str());
                Err(text)
            },
        },
    }
}

pub(crate) fn set_up_arguments(
    state: &mut EvaluationState,
    arguments: &Vec<SpannedArgument>,
    ctx: &EvaluationContext,
    span: Span,
    forward: bool,
) -> (r: Result<CallArguments, String>)
    ensures
        match r {
            Ok(a) => argue(
                old(state)@,
                spanned_argument_seq(arguments@),
                arguments@.len(),
                ctx@,
                span,
                forward,
            ) == Ok::<Arguments, Seq<char>>(arguments_of(final(state)@, a)),
            Err(e) => argue(
                old(state)@,
                spanned_argument_seq(arguments@),
                arguments@.len(),
                ctx@,
                span,
                forward,
            ) == Err::<Arguments, Seq<char>>(e@),
        },
{
    let ghost start = state@;
    let ghost all = spanned_argument_seq(arguments@);
    proof {
        lemma_spanned_argument_seq(arguments@);
    }
    let mut acc = CallArguments {
        slots: Vec::new(),
        jobs: Vec::new(),
        passed_slot: None,
        passed_context: None,
        connections: Vec::new(),
        locals: clone_map_u64(&ctx.actor_context.object_locals),
    };
    proof {
        assert(slot_seq(acc.slots@) =~= Seq::<ArgumentSlotView>::empty());
        assert(job_seq(acc.jobs@) =~= Seq::<Job>::empty());
        assert(acc.connections@ =~= Seq::<ForwardingConnection>::empty());
    }
    let mut i: usize = 0;
    while i < arguments.len()
        invariant
            i <= arguments@.len(),
            start == old(state)@,
            all == spanned_argument_seq(arguments@),
            all.len() == arguments@.len(),
            forall|j: int| 0 <= j < arguments@.len() ==> #[trigger] all[j] == arguments@[j]@,
            argue(start, all, i as nat, ctx@, span, forward) == Ok::<Arguments, Seq<char>>(
                arguments_of(state@, acc),
            ),
        decreases arguments@.len() - i,
    {
        proof {
            assert(all[i as int] == arguments@[i as int]@);
        }
        match set_up_argument(state, &mut acc, &arguments[i], ctx, span, forward) {
            Ok(_) => {},
            Err(e) => {
                proof {
                    lemma_argue_error(
                        start,
                        all,
                        (i + 1) as nat,
                        all.len(),
                        ctx@,
                        span,
                        forward,
                        e@,
                    );
                }
                return Err(e);
            },
        }
        i = i + 1;
    }
    Ok(acc)
}

pub(crate) fn push_wraps(
    state: &mut EvaluationState,
    jobs: &Vec<(SpannedExpression, u32)>,
    ctx: &EvaluationContext,
)
    ensures
        final(state)@ == (MachineView {
            queue: old(state)@.queue + wraps(job_seq(jobs@), jobs@.len(), ctx@),
            ..old(state)@
        }),
{
    let ghost start = state@;
    let ghost all = job_seq(jobs@);
    let mut i: usize = 0;
    proof {
        assert(start.queue + wraps(all, 0, ctx@) =~= start.queue);
    }
    while i < jobs.len()
        invariant
            i <= jobs@.len(),
            all == job_seq(jobs@),
            state@ == (MachineView {
                queue: start.queue + wraps(all, i as nat, ctx@),
                ..start
            }),
        decreases jobs@.len() - i,
    {
        proof {
            assert(all[i as int] == (jobs@[i as int].0@, jobs@[i as int].1));
            assert(jobs@[i as int].0@.node == jobs@[i as int].0.node@);
        }
        let is_latest = match &jobs[i].0.node {
            Expression::Latest { .. } => true,
            _ => false,
        };
        if is_latest {
            if let Some(id) = jobs[i].0.persistence {
                let ghost queue = state@.queue;
                let item = WorkItem::WrapWithPersistence {
                    source_slot: jobs[i].1,
                    persistence_id: id,
                    ctx: ctx.clone(),
                    result_slot: jobs[i].1,
                };
                state.push(item);
                proof {
                    assert(queue.push(item@) =~= start.queue + wraps(all, (i + 1) as nat, ctx@));
                }
            }
        }
        i = i + 1;
    }
}

pub(crate) fn actors_in_slots(state: &EvaluationState, slots: &Vec<u32>) -> (r: Vec<u64>)
    ensures
        r@ == found(state@, slots@, slots@.len()),
{
    let mut out: Vec<u64> = Vec::new();
    let mut i: usize = 0;
    while i < slots.len()
        invariant
            i <= slots@.len(),
            out@ == found(state@, slots@, i as nat),
        decreases slots@.len() - i,
    {
        if let Some(actor) = state.get(slots[i]) {
            out.push(actor);
        }
        i = i + 1;
    }
    out
}

/// The views of variables of objects.
pub open spec fn variable_seq(variables: Seq<VariableSpec>) -> Seq<VariableSpecView> {
    variables.map_values(|x: VariableSpec| x@)
}

pub(crate) fn note_variable(
    state: &mut EvaluationState,
    data: &ObjectVariableData,
    value: u64,
    link: u64,
    ctx: &EvaluationContext,
)
    ensures
        final(state)@ == variable_known(old(state)@, data@, value, link, ctx@),
{
    state.register(
        data.forwarding_actor.is_none() && ctx.try_reference_connector(),
        Registration::Referenceable { span: data.span, actor: value },
    );
    state.register(
        data.is_link && ctx.try_link_connector(),
        Registration::Link {
            span: data.span,
            scope: ctx.actor_context.scope.clone(),
            actor: link,
        },
    );
}

pub(crate) fn build_variable(
    state: &mut EvaluationState,
    variables: &mut Vec<VariableSpec>,
    data: &ObjectVariableData,
    ctx: &EvaluationContext,
)
    ensures
        build_one(
            Built { m: old(state)@, variables: variable_seq(old(variables)@) },
            data@,
            ctx@,
        ) == (Built { m: final(state)@, variables: variable_seq(final(variables)@) }),
{
    let ghost before = variable_seq(variables@);
    let key = data.key;
    let mut variable = VariableSpec {
        name: data.name.clone(),
        span: data.span,
        key,
        value: 0,
        is_link: data.is_link,
        source: None,
    };
    if data.is_link {
        let made: u64 = state.add_actor(
            ActorSpec::LinkValue,
            key,
            data.span,
            &ctx.actor_context,
        );
        match data.forwarding_actor {
            Some(forwarding) => {
                variable.value = forwarding;
                variable.source = Some(made);
            },
            None => {
                variable.value = made;
            },
        }
        note_variable(state, data, variable.value, made, ctx);
    } else {
        let source: u64 = match state.get(data.value_slot) {
            None => {
                return;
            },
            Some(source) => source,
        };
        match data.forwarding_actor {
            Some(forwarding) => {
                variable.value = forwarding;
                variable.source = Some(source);
                note_variable(state, data, forwarding, forwarding, ctx);
            },
            None => {
                let made: u64 = state.add_actor(
                    ActorSpec::Persisted { source },
                    key,
                    data.span,
                    &ctx.actor_context,
                );
                variable.value = made;
                note_variable(state, data, made, made, ctx);
            },
        }
    }
    variables.push(variable);
    proof {
        assert(variable_seq(variables@) =~= before.push(variable@));
    }
}

pub(crate) fn build_variables(
    state: &mut EvaluationState,
    data: &Vec<ObjectVariableData>,
    ctx: &EvaluationContext,
) -> (v: Vec<VariableSpec>)
    ensures
        build(old(state)@, data_seq(data@), data@.len(), ctx@) == (Built {
            m: final(state)@,
            variables: variable_seq(v@),
        }),
{
    let ghost start = state@;
    let ghost all = data_seq(data@);
    let mut variables: Vec<VariableSpec> = Vec::new();
    let mut i: usize = 0;
    proof {
        assert(variable_seq(variables@) =~= Seq::<VariableSpecView>::empty());
    }
    while i < data.len()
        invariant
            i <= data@.len(),
            start == old(state)@,
            all == data_seq(data@),
            build(start, all, i as nat, ctx@) == (Built {
                m: state@,
                variables: variable_seq(variables@),
            }),
        decreases data@.len() - i,
    {
        proof {
            assert(all[i as int] == data@[i as int]@);
        }
        build_variable(state, &mut variables, &data[i], ctx);
        i = i + 1;
    }
    variables
}

/// What is exactly known of a result that may lack an actor.
pub open spec fn is_optional(
    r: Result<Option<u64>, String>,
    after: MachineView,
    spec: Result<(MachineView, Option<u64>), Seq<char>>,
) -> bool {
    match r {
        Ok(actor) => spec == Ok::<(MachineView, Option<u64>), Seq<char>>((after, actor)),
        Err(e) => spec == Err::<(MachineView, Option<u64>), Seq<char>>(e@),
    }
}

pub(crate) fn arguments_in_slots(state: &EvaluationState, slots: &Vec<ArgumentSlot>) -> (r: Vec<
    (String, u64),
>)
    ensures
        r@.map_values(|x: (String, u64)| (x.0@, x.1)) == found_arguments(
            state@,
            slot_seq(slots@),
            slots@.len(),
        ),
{
    let ghost f = |x: (String, u64)| (x.0@, x.1);
    let ghost all = slot_seq(slots@);
    let mut out: Vec<(String, u64)> = Vec::new();
    let mut i: usize = 0;
    proof {
        assert(out@.map_values(f) =~= Seq::<(Seq<char>, u64)>::empty());
    }
    while i < slots.len()
        invariant
            i <= slots@.len(),
            all == slot_seq(slots@),
            f == (|x: (String, u64)| (x.0@, x.1)),
            out@.map_values(f) == found_arguments(state@, all, i as nat),
        decreases slots@.len() - i,
    {
        proof {
            assert(all[i as int] == slots@[i as int]@);
        }
        if let Some(actor) = state.get(slots[i].slot) {
            let ghost before = out@.map_values(f);
            let argument = (slots[i].name.clone(), actor);
            out.push(argument);
            proof {
                assert(out@.map_values(f) =~= before.push((argument.0@, actor)));
            }
        }
        i = i + 1;
    }
    out
}

/// The views of arguments.
pub open spec fn argument_seq(arguments: Seq<(String, u64)>) -> Seq<(Seq<char>, u64)> {
    arguments.map_values(|x: (String, u64)| (x.0@, x.1))
}

pub(crate) fn parameters_with_arguments(
    parameters: &TextMap<u64>,
    arguments: &Vec<(String, u64)>,
) -> (r: TextMap<u64>)
    ensures
        r@ == with_arguments(parameters@, argument_seq(arguments@), arguments@.len()),
{
    let ghost all = argument_seq(arguments@);
    let mut out = clone_map_u64(parameters);
    let mut i: usize = 0;
    while i < arguments.len()
        invariant
            i <= arguments@.len(),
            all == argument_seq(arguments@),
            out@ == with_arguments(parameters@, all, i as nat),
        decreases arguments@.len() - i,
    {
        proof {
            assert(all[i as int] == (arguments@[i as int].0@, arguments@[i as int].1));
        }
        out.insert(arguments[i].0.clone(), arguments[i].1);
        i = i + 1;
    }
    out
}

pub(crate) proof fn lemma_unbound(names: Seq<Seq<char>>, parameters: Map<Seq<char>, u64>, i: int)
    requires
        0 <= i <= names.len(),
        forall|j: int| 0 <= j < i ==> parameters.contains_key(#[trigger] names[j]),
    ensures
        unbound_parameter(names, parameters) == unbound_parameter(names.skip(i), parameters),
    decreases i,
{
    if i == 0 {
        assert(names.skip(0) =~= names);
    } else {
        assert(parameters.contains_key(names[0]));
        let rest = names.skip(1);
        assert forall|j: int| 0 <= j < i - 1 implies parameters.contains_key(
            #[trigger] rest[j],
        ) by {
            assert(rest[j] == names[j + 1]);
        }
        lemma_unbound(rest, parameters, i - 1);
        assert(rest.skip(i - 1) =~= names.skip(i));
    }
}

pub(crate) fn first_unbound(names: &Vec<String>, parameters: &TextMap<u64>) -> (r: Option<String>)
    ensures
        opt_text(r) == unbound_parameter(text_seq(names@), parameters@),
{
    let ghost all = text_seq(names@);
    let mut i: usize = 0;
    while i < names.len()
        invariant
            i <= names@.len(),
            all == text_seq(names@),
            forall|j: int| 0 <= j < i ==> parameters@.contains_key(#[trigger] all[j]),
        decreases names@.len() - i,
    {
        proof {
            lemma_unbound(all, parameters@, i as int);
            assert(all.skip(i as int)[0] == all[i as int]);
            assert(all[i as int] == names@[i as int]@);
        }
        if !parameters.contains_key(names[i].as_str()) {
            return Some(names[i].clone());
        }
        i = i + 1;
    }
    proof {
        lemma_unbound(all, parameters@, i as int);
    }
    None
}

pub(crate) fn find_function(state: &EvaluationState, ctx: &EvaluationContext, name: &str) -> (r: Option<
    StaticFunctionDefinition,
>)
    ensures
        match r {
            Some(d) => called_function(state@, ctx@, name@) == Some(d@),
            None => called_function(state@, ctx@, name@) is None,
        },
{
    if let Some(snapshot) = &ctx.function_registry_snapshot {
        if let Some(definition) = snapshot.get(name) {
            return Some(definition.clone());
        }
    }
    match state.get_function(name) {
        Some(definition) => Some(definition.clone()),
        None => None,
    }
}

pub(crate) proof fn lemma_builtin_of(path: Seq<Seq<char>>, f: BuiltinFunction)
    requires
        is_builtin(path, f),
    ensures
        builtin_of(path) == Some(f),
{
    let g = choose|g: BuiltinFunction| is_builtin(path, g);
    lemma_path_names_one_function(path, f, g);
}

pub(crate) fn list_operation(path: &Vec<String>) -> (r: Option<ListBindingOperation>)
    ensures
        r == binding_operation(text_seq(path@)),
{
    if path.len() != 2 || !text_eq(path[0].as_str(), "List") {
        proof {
            if path@.len() == 2 {
                assert(text_seq(path@)[0] == path@[0]@);
            }
        }
        return None;
    }
    proof {
        assert(text_seq(path@)[0] == path@[0]@);
        assert(text_seq(path@)[1] == path@[1]@);
    }
    let name = path[1].as_str();
    if text_eq(name, "map") {
        Some(ListBindingOperation::Transform)
    } else if text_eq(name, "retain") {
        Some(ListBindingOperation::Retain)
    } else if text_eq(name, "remove") {
        Some(ListBindingOperation::Remove)
    } else if text_eq(name, "every") {
        Some(ListBindingOperation::Every)
    } else if text_eq(name, "any") {
        Some(ListBindingOperation::Any)
    } else if text_eq(name, "sort_by") {
        Some(ListBindingOperation::SortBy)
    } else {
        None
    }
}

pub(crate) fn is_append(path: &Vec<String>) -> (r: bool)
    ensures
        r == is_list_path(text_seq(path@), "append"@),
{
    proof {
        if path@.len() == 2 {
            assert(text_seq(path@)[0] == path@[0]@);
            assert(text_seq(path@)[1] == path@[1]@);
        }
    }
    path.len() == 2 && text_eq(path[0].as_str(), "List") && text_eq(path[1].as_str(), "append")
}

pub(crate) fn locals_context(
    ctx: &EvaluationContext,
    locals: TextMap<u64>,
) -> (r: EvaluationContext)
    ensures
        r@ == with_locals(ctx@, locals@),
{
    let mut out = ctx.clone();
    out.actor_context.object_locals = locals;
    out
}

pub(crate) proof fn lemma_value_jobs_bounded(
    variables: Seq<SpannedVariableView>,
    data: Seq<ObjectVariableDataView>,
    referenced: Option<bool>,
    n: nat,
    i: int,
)
    requires
        n <= variables.len(),
        0 <= i < value_jobs(variables, data, n, referenced).len(),
    ensures
        expr_size(value_jobs(variables, data, n, referenced)[i].0) <= variables_size(variables, n),
    decreases n,
{
    if n > 0 {
        let before = value_jobs(variables, data, (n - 1) as nat, referenced);
        if i < before.len() {
            lemma_value_jobs_bounded(variables, data, referenced, (n - 1) as nat, i);
        }
    }
}

pub(crate) fn two_jobs(
    a: &SpannedExpression,
    a_slot: u32,
    b: &SpannedExpression,
    b_slot: u32,
) -> (r: Vec<(SpannedExpression, u32)>)
    ensures
        job_seq(r@) == seq![(a@, a_slot), (b@, b_slot)],
        r@.len() == 2,
        r@[0].0@ == a@,
        r@[1].0@ == b@,
{
    let mut jobs: Vec<(SpannedExpression, u32)> = Vec::new();
    jobs.push((a.clone(), a_slot));
    jobs.push((b.clone(), b_slot));
    proof {
        assert(job_seq(jobs@) =~= seq![(a@, a_slot), (b@, b_slot)]);
    }
    jobs
}

pub(crate) fn one_job(a: &SpannedExpression, slot: u32) -> (r: Vec<(SpannedExpression, u32)>)
    ensures
        job_seq(r@) == seq![(a@, slot)],
        r@.len() == 1,
        r@[0].0@ == a@,
{
    let mut jobs: Vec<(SpannedExpression, u32)> = Vec::new();
    jobs.push((a.clone(), slot));
    proof {
        assert(job_seq(jobs@) =~= seq![(a@, slot)]);
    }
    jobs
}

pub(crate) fn store_if_any(
    state: &mut EvaluationState,
    result: Result<Option<u64>, String>,
    slot: u32,
) -> (r: Result<(), String>)
    ensures
        match result {
            Ok(Some(actor)) => r is Ok && final(state)@ == stored(old(state)@, slot, actor),
            Ok(None) => r is Ok && final(state)@ == old(state)@,
            Err(e) => r is Err && r->Err_0@ == e@,
        },
{
    match result {
        Err(e) => Err(e),
        Ok(None) => Ok(()),
        Ok(Some(actor)) => {
            state.store(slot, actor);
            Ok(())
        },
    }
}

/// Builds an object from its variables.
pub(crate) fn build_object(
    state: &mut EvaluationState,
    tag: Option<&String>,
    data: &Vec<ObjectVariableData>,
    span: Span,
    key: PersistenceKey,
    ctx: &EvaluationContext,
    slot: u32,
)
    ensures
        final(state)@ == process_object(
            old(state)@,
            match tag {
                Some(t) => Some(t@),
                None => None,
            },
            data_seq(data@),
            span,
            key,
            ctx@,
            slot,
        ),
{
    proof {
        assert(data_seq(data@).len() == data@.len());
    }
    let variables = build_variables(state, data, ctx);
    let actor = match tag {
        None => ActorSpec::Object { variables },
        Some(tag) => ActorSpec::TaggedObject { tag: tag.clone(), variables },
    };
    state.emit(slot, actor, key, span, &ctx.actor_context);
}

pub(crate) fn build_link_relay(
    state: &mut EvaluationState,
    source: u64,
    alias: &Alias,
    key: PersistenceKey,
    span: Span,
    ctx: &EvaluationContext,
    slot: u32,
)
    ensures
        final(state)@ == process_link_setter(old(state)@, source, alias@, key, span, ctx@, slot),
{
    let context = &ctx.actor_context;
    let first = state.draw();
    let forwarder: u64 = state.add_actor(
        ActorSpec::LinkForwarder { source, alias: alias.clone(), pass_through: key },
        first,
        span,
        context,
    );
    let second = state.draw();
    let pass_through: u64 = state.add_actor(
        ActorSpec::PassThrough { forwarder, key },
        second,
        span,
        context,
    );
    let third = state.draw();
    state.emit(slot, ActorSpec::LinkRelay { pass_through, key }, third, span, context);
}

pub(crate) fn connect_forwarding(
    state: &mut EvaluationState,
    connections: &Vec<ForwardingConnection>,
)
    ensures
        final(state)@ == (MachineView {
            loops: connected(old(state)@, connections@, connections@.len()),
            ..old(state)@
        }),
{
    let ghost start = state@;
    let mut i: usize = 0;
    while i < connections.len()
        invariant
            i <= connections@.len(),
            state@ == (MachineView { loops: connected(start, connections@, i as nat), ..start }),
        decreases connections@.len() - i,
    {
        if let Some(source) = state.get(connections[i].slot) {
            state.add_forwarding_loop(
                ForwardingLoop { target: connections[i].target, source },
            );
        }
        i = i + 1;
    }
}

/// The actors of arguments in their order, behind a piped one if there is one.
pub(crate) fn positional_arguments(piped: Option<u64>, args: &Vec<(String, u64)>) -> (r: Vec<u64>)
    ensures
        r@ == (match piped {
            Some(actor) => seq![actor],
            None => Seq::empty(),
        }) + argument_seq(args@).map_values(|a: (Seq<char>, u64)| a.1),
{
    let ghost positional = argument_seq(args@).map_values(|a: (Seq<char>, u64)| a.1);
    let ghost first: Seq<u64> = match piped {
        Some(actor) => seq![actor],
        None => Seq::empty(),
    };
    let mut arguments: Vec<u64> = Vec::new();
    if let Some(actor) = piped {
        arguments.push(actor);
    }
    let mut i: usize = 0;
    assert(arguments@ =~= first + positional.take(0));
    while i < args.len()
        invariant
            i <= args@.len(),
            positional == argument_seq(args@).map_values(|a: (Seq<char>, u64)| a.1),
            arguments@ == first + positional.take(i as int),
        decreases args@.len() - i,
    {
        arguments.push(args[i].1);
        proof {
            assert(positional[i as int] == args@[i as int].1);
            assert(positional.take(i + 1) =~= positional.take(i as int).push(args@[i as int].1));
            assert(arguments@ =~= first + positional.take(i + 1));
        }
        i += 1;
    }
    assert(positional.take(i as int) =~= positional);
    arguments
}

/// The kept identity behind a key, if it is one.
pub fn kept_identity(key: PersistenceKey) -> (r: Option<PersistenceId>)
    ensures
        r == kept_id(key),
{
    match key {
        PersistenceKey::Stored(id) => Some(id),
        PersistenceKey::Fresh(_) => None,
    }
}

} // verus!
