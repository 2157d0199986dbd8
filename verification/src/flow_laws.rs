//! What the expressions of a program lead to.
use crate::builtins::{BuiltinFunction, builtin_path, is_builtin, lemma_path_names_one_function};
use crate::contexts::{append_storage_key, recording_context, with_context};
use crate::evaluation::{
    arguments_size, binding_operation, builtin_of, evaluated, expr_size, is_list_path,
    list_append, list_binding, part_evaluated, run_queue, schedule, store_optional,
};
use crate::evaluation_state::{
    MachineView, add_actor, allocated, fresh_machine, key_of, keyed, next_actor,
};
use crate::expression_view::{
    AliasView, ArmView, ExpressionView, LiteralView, SpannedArgumentView, SpannedExpressionView,
};
use crate::plan::{AliasRoot, ListBindingOperation, PersistenceKey};
use crate::plan_view::{
    ActorContextView, ActorSpecView, EvaluationContextView, PlanView, ScopeSegmentView, ScopeView,
};
use crate::slot_laws::lemma_evaluated_by_running;
use crate::static_expression::{PersistenceId, Span};
use crate::text::nat_text;
use vstd::prelude::*;

verus! {

proof fn lemma_path_of(module: Seq<char>, name: Seq<char>, function: BuiltinFunction)
    requires
        builtin_path(function) == (module, name),
    ensures
        builtin_of(seq![module, name]) == Some(function),
{
    let path = seq![module, name];
    assert(is_builtin(path, function));
    let other = choose|f: BuiltinFunction| is_builtin(path, f);
    lemma_path_names_one_function(path, function, other);
}

/// The functions of the platform on values, by their names.
#[verifier::spinoff_prover]
pub proof fn lemma_value_functions_by_name()
    ensures
        builtin_of(seq!["Math"@, "sum"@]) == Some(BuiltinFunction::MathSum),
        builtin_of(seq!["Text"@, "empty"@]) == Some(BuiltinFunction::TextEmpty),
        builtin_of(seq!["Text"@, "space"@]) == Some(BuiltinFunction::TextSpace),
        builtin_of(seq!["Text"@, "trim"@]) == Some(BuiltinFunction::TextTrim),
        builtin_of(seq!["Text"@, "is_empty"@]) == Some(BuiltinFunction::TextIsEmpty),
        builtin_of(seq!["Text"@, "is_not_empty"@]) == Some(BuiltinFunction::TextIsNotEmpty),
        builtin_of(seq!["Bool"@, "not"@]) == Some(BuiltinFunction::BoolNot),
        builtin_of(seq!["Bool"@, "toggle"@]) == Some(BuiltinFunction::BoolToggle),
        builtin_of(seq!["Bool"@, "or"@]) == Some(BuiltinFunction::BoolOr),
        builtin_of(seq!["List"@, "count"@]) == Some(BuiltinFunction::ListCount),
        builtin_of(seq!["List"@, "append"@]) == Some(BuiltinFunction::ListAppend),
        builtin_of(seq!["List"@, "clear"@]) == Some(BuiltinFunction::ListClear),
        builtin_of(seq!["List"@, "latest"@]) == Some(BuiltinFunction::ListLatest),
        builtin_of(seq!["List"@, "is_empty"@]) == Some(BuiltinFunction::ListIsEmpty),
        builtin_of(seq!["List"@, "is_not_empty"@]) == Some(BuiltinFunction::ListIsNotEmpty),
{
    lemma_path_of("Math"@, "sum"@, BuiltinFunction::MathSum);
    lemma_path_of("Text"@, "empty"@, BuiltinFunction::TextEmpty);
    lemma_path_of("Text"@, "space"@, BuiltinFunction::TextSpace);
    lemma_path_of("Text"@, "trim"@, BuiltinFunction::TextTrim);
    lemma_path_of("Text"@, "is_empty"@, BuiltinFunction::TextIsEmpty);
    lemma_path_of("Text"@, "is_not_empty"@, BuiltinFunction::TextIsNotEmpty);
    lemma_path_of("Bool"@, "not"@, BuiltinFunction::BoolNot);
    lemma_path_of("Bool"@, "toggle"@, BuiltinFunction::BoolToggle);
    lemma_path_of("Bool"@, "or"@, BuiltinFunction::BoolOr);
    lemma_path_of("List"@, "count"@, BuiltinFunction::ListCount);
    lemma_path_of("List"@, "append"@, BuiltinFunction::ListAppend);
    lemma_path_of("List"@, "clear"@, BuiltinFunction::ListClear);
    lemma_path_of("List"@, "latest"@, BuiltinFunction::ListLatest);
    lemma_path_of("List"@, "is_empty"@, BuiltinFunction::ListIsEmpty);
    lemma_path_of("List"@, "is_not_empty"@, BuiltinFunction::ListIsNotEmpty);
}

/// The functions of the platform that make elements and reach around, by their names.
#[verifier::spinoff_prover]
pub proof fn lemma_element_functions_by_name()
    ensures
        builtin_of(seq!["Router"@, "route"@]) == Some(BuiltinFunction::RouterRoute),
        builtin_of(seq!["Router"@, "go_to"@]) == Some(BuiltinFunction::RouterGoTo),
        builtin_of(seq!["Ulid"@, "generate"@]) == Some(BuiltinFunction::UlidGenerate),
        builtin_of(seq!["Document"@, "new"@]) == Some(BuiltinFunction::DocumentNew),
        builtin_of(seq!["Element"@, "stripe"@]) == Some(BuiltinFunction::ElementStripe),
        builtin_of(seq!["Element"@, "container"@]) == Some(BuiltinFunction::ElementContainer),
        builtin_of(seq!["Element"@, "stack"@]) == Some(BuiltinFunction::ElementStack),
        builtin_of(seq!["Element"@, "button"@]) == Some(BuiltinFunction::ElementButton),
        builtin_of(seq!["Element"@, "text_input"@]) == Some(BuiltinFunction::ElementTextInput),
        builtin_of(seq!["Element"@, "checkbox"@]) == Some(BuiltinFunction::ElementCheckbox),
        builtin_of(seq!["Element"@, "label"@]) == Some(BuiltinFunction::ElementLabel),
        builtin_of(seq!["Element"@, "paragraph"@]) == Some(BuiltinFunction::ElementParagraph),
        builtin_of(seq!["Element"@, "link"@]) == Some(BuiltinFunction::ElementLink),
        builtin_of(seq!["Timer"@, "interval"@]) == Some(BuiltinFunction::TimerInterval),
        builtin_of(seq!["Log"@, "info"@]) == Some(BuiltinFunction::LogInfo),
{
    lemma_path_of("Router"@, "route"@, BuiltinFunction::RouterRoute);
    lemma_path_of("Router"@, "go_to"@, BuiltinFunction::RouterGoTo);
    lemma_path_of("Ulid"@, "generate"@, BuiltinFunction::UlidGenerate);
    lemma_path_of("Document"@, "new"@, BuiltinFunction::DocumentNew);
    lemma_path_of("Element"@, "stripe"@, BuiltinFunction::ElementStripe);
    lemma_path_of("Element"@, "container"@, BuiltinFunction::ElementContainer);
    lemma_path_of("Element"@, "stack"@, BuiltinFunction::ElementStack);
    lemma_path_of("Element"@, "button"@, BuiltinFunction::ElementButton);
    lemma_path_of("Element"@, "text_input"@, BuiltinFunction::ElementTextInput);
    lemma_path_of("Element"@, "checkbox"@, BuiltinFunction::ElementCheckbox);
    lemma_path_of("Element"@, "label"@, BuiltinFunction::ElementLabel);
    lemma_path_of("Element"@, "paragraph"@, BuiltinFunction::ElementParagraph);
    lemma_path_of("Element"@, "link"@, BuiltinFunction::ElementLink);
    lemma_path_of("Timer"@, "interval"@, BuiltinFunction::TimerInterval);
    lemma_path_of("Log"@, "info"@, BuiltinFunction::LogInfo);
}

/// The other functions of the platform, by their names.
#[verifier::spinoff_prover]
pub proof fn lemma_other_functions_by_name()
    ensures
        builtin_of(seq!["Log"@, "error"@]) == Some(BuiltinFunction::LogError),
        builtin_of(seq!["Build"@, "succeed"@]) == Some(BuiltinFunction::BuildSucceed),
        builtin_of(seq!["Build"@, "fail"@]) == Some(BuiltinFunction::BuildFail),
        builtin_of(seq!["Scene"@, "new"@]) == Some(BuiltinFunction::SceneNew),
        builtin_of(seq!["Theme"@, "background_color"@]) == Some(
            BuiltinFunction::ThemeBackgroundColor,
        ),
        builtin_of(seq!["Theme"@, "text_color"@]) == Some(BuiltinFunction::ThemeTextColor),
        builtin_of(seq!["Theme"@, "accent_color"@]) == Some(BuiltinFunction::ThemeAccentColor),
        builtin_of(seq!["File"@, "read_text"@]) == Some(BuiltinFunction::FileReadText),
        builtin_of(seq!["File"@, "write_text"@]) == Some(BuiltinFunction::FileWriteText),
        builtin_of(seq!["Directory"@, "entries"@]) == Some(BuiltinFunction::DirectoryEntries),
        builtin_of(seq!["Stream"@, "skip"@]) == Some(BuiltinFunction::StreamSkip),
        builtin_of(seq!["Stream"@, "take"@]) == Some(BuiltinFunction::StreamTake),
        builtin_of(seq!["Stream"@, "distinct"@]) == Some(BuiltinFunction::StreamDistinct),
        builtin_of(seq!["Stream"@, "pulses"@]) == Some(BuiltinFunction::StreamPulses),
        builtin_of(seq!["Stream"@, "debounce"@]) == Some(BuiltinFunction::StreamDebounce),
{
    lemma_path_of("Log"@, "error"@, BuiltinFunction::LogError);
    lemma_path_of("Build"@, "succeed"@, BuiltinFunction::BuildSucceed);
    lemma_path_of("Build"@, "fail"@, BuiltinFunction::BuildFail);
    lemma_path_of("Scene"@, "new"@, BuiltinFunction::SceneNew);
    lemma_path_of("Theme"@, "background_color"@, BuiltinFunction::ThemeBackgroundColor);
    lemma_path_of("Theme"@, "text_color"@, BuiltinFunction::ThemeTextColor);
    lemma_path_of("Theme"@, "accent_color"@, BuiltinFunction::ThemeAccentColor);
    lemma_path_of("File"@, "read_text"@, BuiltinFunction::FileReadText);
    lemma_path_of("File"@, "write_text"@, BuiltinFunction::FileWriteText);
    lemma_path_of("Directory"@, "entries"@, BuiltinFunction::DirectoryEntries);
    lemma_path_of("Stream"@, "skip"@, BuiltinFunction::StreamSkip);
    lemma_path_of("Stream"@, "take"@, BuiltinFunction::StreamTake);
    lemma_path_of("Stream"@, "distinct"@, BuiltinFunction::StreamDistinct);
    lemma_path_of("Stream"@, "pulses"@, BuiltinFunction::StreamPulses);
    lemma_path_of("Stream"@, "debounce"@, BuiltinFunction::StreamDebounce);
}

/// The actor of the value of an expression, where it can be evaluated and is not skipped.
pub open spec fn actor_of(
    depth: nat,
    plan: PlanView,
    e: SpannedExpressionView,
    ctx: EvaluationContextView,
) -> Option<ActorSpecView> {
    match evaluated(depth, plan, e, ctx) {
        Ok(done) => match done.1 {
            Some(actor) => Some(done.0.actors[actor as int].actor),
            None => None,
        },
        Err(_) => None,
    }
}

pub(crate) proof fn lemma_at_once(
    depth: nat,
    plan: PlanView,
    e: SpannedExpressionView,
    ctx: EvaluationContextView,
    m: MachineView,
)
    requires
        schedule(depth, allocated(fresh_machine(plan), 1), e, ctx, 0) == Ok::<
            MachineView,
            Seq<char>,
        >(m),
        m.queue.len() == 0,
    ensures
        evaluated(depth, plan, e, ctx) == Ok::<(PlanView, Option<u64>), Seq<char>>(
            (
                m.plan,
                if m.results.contains_key(0) {
                    Some(m.results[0])
                } else {
                    None
                },
            ),
        ),
{
    lemma_evaluated_by_running(depth, plan, e, ctx);
}

/// THEN, WHEN and WHILE need a piped value. With one, the actor of the result is THEN with this
/// body, WHEN with these arms, or WHILE with these arms, on the actor that is piped in, and made at
/// the place of the expression. THEN and WHEN take values one by one where the context asks for it.
pub proof fn lemma_reacting_expressions(
    depth: nat,
    plan: PlanView,
    span: Span,
    id: Option<PersistenceId>,
    body: SpannedExpressionView,
    arms: Seq<ArmView>,
    ctx: EvaluationContextView,
)
    requires
        plan.actors.len() < u64::MAX,
    ensures
        ({
            let of = |node: ExpressionView| SpannedExpressionView { span, persistence: id, node };
            let then = of(ExpressionView::Then { body: Box::new(body) });
            let when = of(ExpressionView::When { arms });
            let until = of(ExpressionView::While { arms });
            let c = ctx.actor_context;
            let one_by_one = c.backpressure_permit is Some || c.sequential_processing;
            &&& c.piped is None ==> {
                &&& evaluated(depth, plan, then, ctx) is Err
                &&& evaluated(depth, plan, when, ctx) is Err
                &&& evaluated(depth, plan, until, ctx) is Err
            }
            &&& c.piped matches Some(p) ==> {
                &&& actor_of(depth, plan, then, ctx) matches Some(
                    ActorSpecView::Then { piped, body: kept, ordered, lazy, .. },
                ) && {
                    &&& piped == p
                    &&& kept.node == body.node
                    &&& kept.span == body.span
                    &&& id is Some ==> kept.persistence == id
                    &&& ordered == one_by_one
                    &&& lazy == c.use_lazy_actors
                }
                &&& actor_of(depth, plan, when, ctx) matches Some(
                    ActorSpecView::When { piped, arms: kept, ordered, .. },
                ) && piped == p && kept == arms && ordered == one_by_one
                &&& actor_of(depth, plan, until, ctx) matches Some(
                    ActorSpecView::While { piped, arms: kept, .. },
                ) && piped == p && kept == arms
            }
        }),
{
    let start = allocated(fresh_machine(plan), 1);
    let of = |node: ExpressionView| SpannedExpressionView { span, persistence: id, node };
    let then = of(ExpressionView::Then { body: Box::new(body) });
    let when = of(ExpressionView::When { arms });
    let until = of(ExpressionView::While { arms });
    if ctx.actor_context.piped is Some {
        lemma_at_once(depth, plan, then, ctx, schedule(depth, start, then, ctx, 0)->Ok_0);
        lemma_at_once(depth, plan, when, ctx, schedule(depth, start, when, ctx, 0)->Ok_0);
        lemma_at_once(depth, plan, until, ctx, schedule(depth, start, until, ctx, 0)->Ok_0);
    } else {
        lemma_evaluated_by_running(depth, plan, then, ctx);
        lemma_evaluated_by_running(depth, plan, when, ctx);
        lemma_evaluated_by_running(depth, plan, until, ctx);
    }
}

/// The functions that the body of THEN and the arms of WHEN and WHILE can call are those that the
/// expression itself can.
pub proof fn lemma_reacting_expressions_see_functions(
    depth: nat,
    plan: PlanView,
    span: Span,
    id: Option<PersistenceId>,
    body: SpannedExpressionView,
    arms: Seq<ArmView>,
    ctx: EvaluationContextView,
)
    requires
        plan.actors.len() < u64::MAX,
        ctx.actor_context.piped is Some,
    ensures
        ({
            let of = |node: ExpressionView| SpannedExpressionView { span, persistence: id, node };
            let then = actor_of(
                depth,
                plan,
                of(ExpressionView::Then { body: Box::new(body) }),
                ctx,
            );
            let when = actor_of(depth, plan, of(ExpressionView::When { arms }), ctx);
            let until = actor_of(depth, plan, of(ExpressionView::While { arms }), ctx);
            let known = match ctx.function_registry_snapshot {
                Some(snapshot) => snapshot.functions,
                None => Map::empty(),
            };
            &&& then matches Some(ActorSpecView::Then { registry, .. }) && registry.functions
                == known
            &&& when matches Some(ActorSpecView::When { registry, .. }) && registry.functions
                == known
            &&& until matches Some(ActorSpecView::While { registry, .. }) && registry.functions
                == known
        }),
{
    let of = |node: ExpressionView| SpannedExpressionView { span, persistence: id, node };
    let start = allocated(fresh_machine(plan), 1);
    let then = of(ExpressionView::Then { body: Box::new(body) });
    let when = of(ExpressionView::When { arms });
    let until = of(ExpressionView::While { arms });
    lemma_at_once(depth, plan, then, ctx, schedule(depth, start, then, ctx, 0)->Ok_0);
    lemma_at_once(depth, plan, when, ctx, schedule(depth, start, when, ctx, 0)->Ok_0);
    lemma_at_once(depth, plan, until, ctx, schedule(depth, start, until, ctx, 0)->Ok_0);
    let known = match ctx.function_registry_snapshot {
        Some(snapshot) => snapshot.functions,
        None => Map::empty(),
    };
    assert(known.union_prefer_right(Map::empty()) =~= known);
}

/// Other expressions that lead to an actor at once: a literal is itself, the fields of a path are
/// taken of what is piped in, and a definition is one of its name.
pub proof fn lemma_immediate_expressions(
    depth: nat,
    plan: PlanView,
    span: Span,
    id: Option<PersistenceId>,
    literal: LiteralView,
    path: Seq<Seq<char>>,
    name: Seq<char>,
    body: SpannedExpressionView,
    ctx: EvaluationContextView,
)
    requires
        plan.actors.len() < u64::MAX,
    ensures
        ({
            let of = |node: ExpressionView| SpannedExpressionView { span, persistence: id, node };
            let fields = of(ExpressionView::FieldAccess { path });
            let function = of(
                ExpressionView::Function { name, parameters: path, body: Box::new(body) },
            );
            let done = evaluated(depth, plan, of(ExpressionView::Literal(literal)), ctx);
            &&& actor_of(depth, plan, of(ExpressionView::Literal(literal)), ctx) == Some(
                ActorSpecView::Literal(literal),
            )
            &&& done is Ok && done->Ok_0.0.actors.last().span == span
            &&& done->Ok_0.0.actors.last().context == ctx.actor_context
            &&& id is Some ==> done->Ok_0.0.actors.last().key == PersistenceKey::Stored(id->0)
            &&& id is None ==> done->Ok_0.0.actors.last().key == PersistenceKey::Fresh(plan.fresh)
            &&& done->Ok_0.0.actors.drop_last() == plan.actors
            &&& ctx.actor_context.piped matches Some(piped) ==> actor_of(depth, plan, fields, ctx)
                == Some(ActorSpecView::FieldAccess { piped, path })
            &&& ctx.actor_context.piped is None ==> evaluated(depth, plan, fields, ctx) is Err
            &&& actor_of(depth, plan, function, ctx) == Some(ActorSpecView::Function { name })
        }),
{
    let start = allocated(fresh_machine(plan), 1);
    let of = |node: ExpressionView| SpannedExpressionView { span, persistence: id, node };
    let fixed = of(ExpressionView::Literal(literal));
    let fields = of(ExpressionView::FieldAccess { path });
    let function = of(ExpressionView::Function { name, parameters: path, body: Box::new(body) });
    lemma_at_once(depth, plan, fixed, ctx, schedule(depth, start, fixed, ctx, 0)->Ok_0);
    lemma_at_once(depth, plan, function, ctx, schedule(depth, start, function, ctx, 0)->Ok_0);
    assert(evaluated(depth, plan, fixed, ctx)->Ok_0.0.actors.drop_last() =~= plan.actors);
    if ctx.actor_context.piped is Some {
        lemma_at_once(depth, plan, fields, ctx, schedule(depth, start, fields, ctx, 0)->Ok_0);
    } else {
        lemma_evaluated_by_running(depth, plan, fields, ctx);
    }
}

/// What a name refers to: a parameter comes first, then a variable of the object around, then what
/// is declared at the place that the name was resolved to; PASSED is what was passed. A parameter
/// that is taken whole is its own actor.
pub proof fn lemma_names(
    depth: nat,
    plan: PlanView,
    span: Span,
    id: Option<PersistenceId>,
    parts: Seq<Seq<char>>,
    place: Span,
    ctx: EvaluationContextView,
)
    requires
        plan.actors.len() < u64::MAX,
        parts.len() > 0,
    ensures
        ({
            let named = AliasView::WithoutPassed { parts, referenced_span: Some(place) };
            let loose = AliasView::WithoutPassed { parts, referenced_span: None };
            let passed = AliasView::WithPassed { extra_parts: parts };
            let of = |alias: AliasView|
                SpannedExpressionView {
                    span,
                    persistence: id,
                    node: ExpressionView::Alias(alias),
                };
            let c = ctx.actor_context;
            let local = nat_text(place.start as nat) + ".."@ + nat_text(place.end as nat);
            let start_at = |alias: AliasView, root: AliasRoot|
                actor_of(depth, plan, of(alias), ctx) == Some(ActorSpecView::Alias { root, alias });
            &&& c.parameters.contains_key(parts[0]) && parts.len() == 1 ==> {
                &&& evaluated(depth, plan, of(named), ctx) is Ok
                &&& evaluated(depth, plan, of(named), ctx)->Ok_0.1 == Some(c.parameters[parts[0]])
                &&& evaluated(depth, plan, of(named), ctx)->Ok_0.0.actors == plan.actors
            }
            &&& c.parameters.contains_key(parts[0]) && parts.len() > 1 ==> start_at(
                named,
                AliasRoot::Actor(c.parameters[parts[0]]),
            )
            &&& !c.parameters.contains_key(parts[0]) ==> {
                &&& c.object_locals.contains_key(local) ==> start_at(
                    named,
                    AliasRoot::Actor(c.object_locals[local]),
                )
                &&& !c.object_locals.contains_key(local) && ctx.reference_connector ==> start_at(
                    named,
                    AliasRoot::Reference(place),
                )
                &&& !c.object_locals.contains_key(local) && !ctx.reference_connector ==> evaluated(
                    depth,
                    plan,
                    of(named),
                    ctx,
                ) is Err
                &&& evaluated(depth, plan, of(loose), ctx) is Err
            }
            &&& c.passed matches Some(p) ==> start_at(passed, AliasRoot::Actor(p))
            &&& c.passed is None ==> evaluated(depth, plan, of(passed), ctx) is Err
        }),
{
    let start = allocated(fresh_machine(plan), 1);
    let named = AliasView::WithoutPassed { parts, referenced_span: Some(place) };
    let loose = AliasView::WithoutPassed { parts, referenced_span: None };
    let passed = AliasView::WithPassed { extra_parts: parts };
    let of = |alias: AliasView|
        SpannedExpressionView { span, persistence: id, node: ExpressionView::Alias(alias) };
    lemma_evaluated_by_running(depth, plan, of(named), ctx);
    lemma_evaluated_by_running(depth, plan, of(loose), ctx);
    lemma_evaluated_by_running(depth, plan, of(passed), ctx);
    if schedule(depth, start, of(named), ctx, 0) is Ok {
        lemma_at_once(depth, plan, of(named), ctx, schedule(depth, start, of(named), ctx, 0)->Ok_0);
    }
    if schedule(depth, start, of(passed), ctx, 0) is Ok {
        lemma_at_once(
            depth,
            plan,
            of(passed),
            ctx,
            schedule(depth, start, of(passed), ctx, 0)->Ok_0,
        );
    }
}

/// The call of each function with a transform leads to the actor of its own operation, on the list
/// that is piped in, with the name that it binds and its transform.
pub proof fn lemma_list_functions(
    depth: nat,
    plan: PlanView,
    span: Span,
    id: Option<PersistenceId>,
    binder: SpannedArgumentView,
    change: SpannedArgumentView,
    list: u64,
    transform: SpannedExpressionView,
    ctx: EvaluationContextView,
)
    requires
        plan.actors.len() < u64::MAX,
        ctx.actor_context.piped == Some(list),
        binder.value is None,
        change.value == Some(transform),
        ctx.reference_connector,
        ctx.link_connector,
        ctx.pass_through_connector,
    ensures
        ({
            let of = |name: Seq<char>|
                actor_of(
                    depth,
                    plan,
                    SpannedExpressionView {
                        span,
                        persistence: id,
                        node: ExpressionView::FunctionCall {
                            path: seq!["List"@, name],
                            arguments: seq![binder, change],
                        },
                    },
                    ctx,
                );
            let with = |operation: ListBindingOperation|
                Some(
                    ActorSpecView::ListBinding { operation, binding: binder.name, list, transform },
                );
            &&& of("map"@) == with(ListBindingOperation::Transform)
            &&& of("retain"@) == with(ListBindingOperation::Retain)
            &&& of("remove"@) == with(ListBindingOperation::Remove)
            &&& of("every"@) == with(ListBindingOperation::Every)
            &&& of("any"@) == with(ListBindingOperation::Any)
            &&& of("sort_by"@) == with(ListBindingOperation::SortBy)
        }),
{
    lemma_list_names();
    lemma_list_function(depth, plan, span, id, "map"@, binder, change, list, transform, ctx);
    lemma_list_function(depth, plan, span, id, "retain"@, binder, change, list, transform, ctx);
    lemma_list_function(depth, plan, span, id, "remove"@, binder, change, list, transform, ctx);
    lemma_list_function(depth, plan, span, id, "every"@, binder, change, list, transform, ctx);
    lemma_list_function(depth, plan, span, id, "any"@, binder, change, list, transform, ctx);
    lemma_list_function(depth, plan, span, id, "sort_by"@, binder, change, list, transform, ctx);
}

proof fn lemma_list_names()
    ensures
        binding_operation(seq!["List"@, "map"@]) == Some(ListBindingOperation::Transform),
        binding_operation(seq!["List"@, "retain"@]) == Some(ListBindingOperation::Retain),
        binding_operation(seq!["List"@, "remove"@]) == Some(ListBindingOperation::Remove),
        binding_operation(seq!["List"@, "every"@]) == Some(ListBindingOperation::Every),
        binding_operation(seq!["List"@, "any"@]) == Some(ListBindingOperation::Any),
        binding_operation(seq!["List"@, "sort_by"@]) == Some(ListBindingOperation::SortBy),
{
    reveal_strlit("map");
    reveal_strlit("retain");
    reveal_strlit("remove");
    reveal_strlit("every");
    reveal_strlit("any");
    reveal_strlit("sort_by");
    assert("map"@[0] == 'm');
    assert("any"@[0] == 'a');
    assert("retain"@[2] == 't');
    assert("remove"@[2] == 'm');
    assert("every"@.len() == 5);
    assert("sort_by"@.len() == 7);
}

proof fn lemma_list_function(
    depth: nat,
    plan: PlanView,
    span: Span,
    id: Option<PersistenceId>,
    name: Seq<char>,
    binder: SpannedArgumentView,
    change: SpannedArgumentView,
    list: u64,
    transform: SpannedExpressionView,
    ctx: EvaluationContextView,
)
    requires
        plan.actors.len() < u64::MAX,
        binding_operation(seq!["List"@, name]) is Some,
        ctx.actor_context.piped == Some(list),
        binder.value is None,
        change.value == Some(transform),
        ctx.reference_connector,
        ctx.link_connector,
        ctx.pass_through_connector,
    ensures
        actor_of(
            depth,
            plan,
            SpannedExpressionView {
                span,
                persistence: id,
                node: ExpressionView::FunctionCall {
                    path: seq!["List"@, name],
                    arguments: seq![binder, change],
                },
            },
            ctx,
        ) == Some(
            ActorSpecView::ListBinding {
                operation: binding_operation(seq!["List"@, name])->0,
                binding: binder.name,
                list,
                transform,
            },
        ),
{
    let start = allocated(fresh_machine(plan), 1);
    let path = seq!["List"@, name];
    let arguments = seq![binder, change];
    let e = SpannedExpressionView {
        span,
        persistence: id,
        node: ExpressionView::FunctionCall { path, arguments },
    };
    let m = keyed(start, id);
    let key = key_of(start, id);
    let operation = binding_operation(path)->0;
    assert(arguments[0] == binder && arguments[1] == change);
    assert(schedule(depth, start, e, ctx, 0) == store_optional(
        list_binding(
            depth,
            expr_size(e),
            m,
            path[1],
            operation,
            arguments,
            key,
            span,
            ctx,
        ),
        0,
    ));
    lemma_at_once(depth, plan, e, ctx, schedule(depth, start, e, ctx, 0)->Ok_0);
}

/// The list of a function with a transform can be given as its first argument: it is then what
/// that argument is evaluated to, and a list that is skipped is skipped by the call.
pub proof fn lemma_list_functions_on_argument(
    depth: nat,
    plan: PlanView,
    e: SpannedExpressionView,
    id: PersistenceId,
    path: Seq<Seq<char>>,
    arguments: Seq<SpannedArgumentView>,
    list: SpannedExpressionView,
    transform: SpannedExpressionView,
    ctx: EvaluationContextView,
)
    requires
        e.node == (ExpressionView::FunctionCall { path, arguments }),
        e.persistence == Some(id),
        binding_operation(path) is Some,
        arguments.len() == 2,
        arguments[0].value == Some(list),
        arguments[1].value == Some(transform),
        ctx.reference_connector,
        ctx.link_connector,
        ctx.pass_through_connector,
    ensures
        follows(
            evaluated(depth, plan, e, ctx),
            evaluated(depth, plan, list, ctx),
            None,
            |list: u64|
                ActorSpecView::ListBinding {
                    operation: binding_operation(path)->0,
                    binding: arguments[0].name,
                    list,
                    transform,
                },
        ),
{
    reveal(outcome);
    lemma_binding_outcome(depth, plan, e, id, path, arguments, list, transform, ctx);
}

/// [`evaluated`], to be looked at from outside only.
#[verifier::opaque]
spec fn outcome(
    depth: nat,
    plan: PlanView,
    e: SpannedExpressionView,
    ctx: EvaluationContextView,
) -> Result<(PlanView, Option<u64>), Seq<char>> {
    evaluated(depth, plan, e, ctx)
}

/// What follows from a part with its actor: the message about it, the same plan, or the plan with
/// one more actor.
pub open spec fn follows(
    done: Result<(PlanView, Option<u64>), Seq<char>>,
    part: Result<(PlanView, Option<u64>), Seq<char>>,
    skipped: Option<u64>,
    actor: spec_fn(u64) -> ActorSpecView,
) -> bool {
    match part {
        Err(message) => done == Err::<(PlanView, Option<u64>), Seq<char>>(message),
        Ok(part) => match part.1 {
            None => done == Ok::<(PlanView, Option<u64>), Seq<char>>((part.0, skipped)),
            Some(found) => {
                &&& done is Ok
                &&& done->Ok_0.0.actors.len() == part.0.actors.len() + 1
                &&& done->Ok_0.0.actors.last().actor == actor(found)
                &&& done->Ok_0.1 == Some(part.0.actors.len() as u64)
            },
        },
    }
}

proof fn lemma_binding_outcome(
    depth: nat,
    plan: PlanView,
    e: SpannedExpressionView,
    id: PersistenceId,
    path: Seq<Seq<char>>,
    arguments: Seq<SpannedArgumentView>,
    list: SpannedExpressionView,
    transform: SpannedExpressionView,
    ctx: EvaluationContextView,
)
    requires
        e.node == (ExpressionView::FunctionCall { path, arguments }),
        e.persistence == Some(id),
        binding_operation(path) is Some,
        arguments.len() == 2,
        arguments[0].value == Some(list),
        arguments[1].value == Some(transform),
        ctx.reference_connector,
        ctx.link_connector,
        ctx.pass_through_connector,
    ensures
        follows(
            outcome(depth, plan, e, ctx),
            outcome(depth, plan, list, ctx),
            None,
            |list: u64|
                ActorSpecView::ListBinding {
                    operation: binding_operation(path)->0,
                    binding: arguments[0].name,
                    list,
                    transform,
                },
        ),
{
    let start = allocated(fresh_machine(plan), 1);
    let key = PersistenceKey::Stored(id);
    let operation = binding_operation(path)->0;
    lemma_first_argument_is_smaller(e, path, arguments, list);
    let result = lemma_binding_result(
        depth,
        expr_size(e),
        start,
        path[1],
        operation,
        arguments,
        key,
        e.span,
        ctx,
    );
    lemma_binding_finished(depth, plan, e, id, path, arguments, operation, ctx, result);
}

proof fn lemma_binding_result(
    depth: nat,
    bound: nat,
    m: MachineView,
    name: Seq<char>,
    operation: ListBindingOperation,
    arguments: Seq<SpannedArgumentView>,
    key: PersistenceKey,
    span: Span,
    ctx: EvaluationContextView,
) -> (result: Result<(MachineView, Option<u64>), Seq<char>>)
    requires
        arguments.len() == 2,
        arguments[0].value is Some,
        arguments[1].value is Some,
        expr_size(arguments[0].value->0) < bound,
        ctx.reference_connector,
        ctx.link_connector,
        ctx.pass_through_connector,
    ensures
        result == list_binding(depth, bound, m, name, operation, arguments, key, span, ctx),
        result == match outcome(depth, m.plan, arguments[0].value->0, ctx) {
            Err(message) => Err(message),
            Ok(done) => match done.1 {
                None => Ok((MachineView { plan: done.0, ..m }, None)),
                Some(list) => Ok(
                    (
                        add_actor(
                            MachineView { plan: done.0, ..m },
                            ActorSpecView::ListBinding {
                                operation,
                                binding: arguments[0].name,
                                list,
                                transform: arguments[1].value->0,
                            },
                            key,
                            span,
                            ctx.actor_context,
                        ),
                        Some(done.0.actors.len() as u64),
                    ),
                ),
            },
        },
{
    reveal(outcome);
    lemma_binding_on(depth, bound, m, name, operation, arguments, key, span, ctx);
    lemma_part_evaluated(depth, bound, m, arguments[0].value->0, ctx);
    list_binding(depth, bound, m, name, operation, arguments, key, span, ctx)
}

proof fn lemma_binding_finished(
    depth: nat,
    plan: PlanView,
    e: SpannedExpressionView,
    id: PersistenceId,
    path: Seq<Seq<char>>,
    arguments: Seq<SpannedArgumentView>,
    operation: ListBindingOperation,
    ctx: EvaluationContextView,
    result: Result<(MachineView, Option<u64>), Seq<char>>,
)
    requires
        e.node == (ExpressionView::FunctionCall { path, arguments }),
        e.persistence == Some(id),
        binding_operation(path) == Some(operation),
        result == list_binding(
            depth,
            expr_size(e),
            allocated(fresh_machine(plan), 1),
            path[1],
            operation,
            arguments,
            PersistenceKey::Stored(id),
            e.span,
            ctx,
        ),
        result is Ok ==> result->Ok_0.0.queue.len() == 0 && !result->Ok_0.0.results.contains_key(0),
    ensures
        outcome(depth, plan, e, ctx) == match result {
            Ok(done) => Ok((done.0.plan, done.1)),
            Err(message) => Err(message),
        },
{
    reveal(outcome);
    let start = allocated(fresh_machine(plan), 1);
    lemma_binding_scheduled(depth, start, e, id, path, arguments, operation, ctx);
    lemma_stored_outcome(depth, plan, e, ctx, result);
}

proof fn lemma_first_argument_is_smaller(
    e: SpannedExpressionView,
    path: Seq<Seq<char>>,
    arguments: Seq<SpannedArgumentView>,
    value: SpannedExpressionView,
)
    requires
        e.node == (ExpressionView::FunctionCall { path, arguments }),
        arguments.len() > 0,
        arguments[0].value == Some(value),
    ensures
        expr_size(value) < expr_size(e),
{
    lemma_argument_within(arguments, arguments.len(), value);
}

proof fn lemma_argument_within(
    arguments: Seq<SpannedArgumentView>,
    n: nat,
    value: SpannedExpressionView,
)
    requires
        0 < n <= arguments.len(),
        arguments[0].value == Some(value),
    ensures
        expr_size(value) <= arguments_size(arguments, n),
    decreases n,
{
    if n > 1 {
        lemma_argument_within(arguments, (n - 1) as nat, value);
    } else {
        assert(arguments_size(arguments, 0) == 0);
    }
}

proof fn lemma_binding_scheduled(
    depth: nat,
    start: MachineView,
    e: SpannedExpressionView,
    id: PersistenceId,
    path: Seq<Seq<char>>,
    arguments: Seq<SpannedArgumentView>,
    operation: ListBindingOperation,
    ctx: EvaluationContextView,
)
    requires
        e.node == (ExpressionView::FunctionCall { path, arguments }),
        e.persistence == Some(id),
        binding_operation(path) == Some(operation),
    ensures
        schedule(depth, start, e, ctx, 0) == store_optional(
            list_binding(
                depth,
                expr_size(e),
                start,
                path[1],
                operation,
                arguments,
                PersistenceKey::Stored(id),
                e.span,
                ctx,
            ),
            0,
        ),
{
}

proof fn lemma_append_scheduled(
    depth: nat,
    start: MachineView,
    e: SpannedExpressionView,
    id: PersistenceId,
    path: Seq<Seq<char>>,
    arguments: Seq<SpannedArgumentView>,
    ctx: EvaluationContextView,
)
    requires
        e.node == (ExpressionView::FunctionCall { path, arguments }),
        e.persistence == Some(id),
        binding_operation(path) is None,
        is_list_path(path, "append"@),
    ensures
        schedule(depth, start, e, ctx, 0) == store_optional(
            list_append(
                depth,
                expr_size(e),
                start,
                arguments,
                PersistenceKey::Stored(id),
                e.span,
                ctx,
            ),
            0,
        ),
{
}

proof fn lemma_binding_on(
    depth: nat,
    bound: nat,
    m: MachineView,
    name: Seq<char>,
    operation: ListBindingOperation,
    arguments: Seq<SpannedArgumentView>,
    key: PersistenceKey,
    span: Span,
    ctx: EvaluationContextView,
)
    requires
        arguments.len() == 2,
        arguments[0].value is Some,
        arguments[1].value is Some,
        ctx.reference_connector,
        ctx.link_connector,
        ctx.pass_through_connector,
    ensures
        list_binding(depth, bound, m, name, operation, arguments, key, span, ctx)
            == match part_evaluated(depth, bound, m, arguments[0].value->0, ctx) {
            Err(message) => Err(message),
            Ok(done) => match done.1 {
                None => Ok((done.0, None)),
                Some(list) => Ok(
                    (
                        add_actor(
                            done.0,
                            ActorSpecView::ListBinding {
                                operation,
                                binding: arguments[0].name,
                                list,
                                transform: arguments[1].value->0,
                            },
                            key,
                            span,
                            ctx.actor_context,
                        ),
                        Some(next_actor(done.0)),
                    ),
                ),
            },
        },
{
}

pub(crate) proof fn lemma_part_evaluated(
    depth: nat,
    bound: nat,
    m: MachineView,
    e: SpannedExpressionView,
    ctx: EvaluationContextView,
)
    requires
        expr_size(e) < bound,
    ensures
        part_evaluated(depth, bound, m, e, ctx) == match evaluated(depth, m.plan, e, ctx) {
            Err(message) => Err(message),
            Ok(done) => Ok((MachineView { plan: done.0, ..m }, done.1)),
        },
{
}

proof fn lemma_stored_outcome(
    depth: nat,
    plan: PlanView,
    e: SpannedExpressionView,
    ctx: EvaluationContextView,
    result: Result<(MachineView, Option<u64>), Seq<char>>,
)
    requires
        schedule(depth, allocated(fresh_machine(plan), 1), e, ctx, 0) == store_optional(result, 0),
        result is Ok ==> result->Ok_0.0.queue.len() == 0 && (result->Ok_0.1 is None
            ==> !result->Ok_0.0.results.contains_key(0)),
    ensures
        evaluated(depth, plan, e, ctx) == match result {
            Ok(done) => Ok((done.0.plan, done.1)),
            Err(message) => Err(message),
        },
{
    lemma_evaluated_by_running(depth, plan, e, ctx);
    match store_optional(result, 0) {
        Ok(m) => {
            assert(run_queue(depth, m) == Ok::<MachineView, Seq<char>>(m));
        },
        Err(_) => {},
    }
}

/// Appending to a list: the actor of the result is that of the list that is piped in and of what
/// the first argument is evaluated to, in a scope of its own in which calls are recorded. An item
/// that is skipped leaves the list as it is.
pub proof fn lemma_list_append(
    depth: nat,
    plan: PlanView,
    span: Span,
    id: PersistenceId,
    argument: SpannedArgumentView,
    list: u64,
    item: SpannedExpressionView,
    ctx: EvaluationContextView,
)
    requires
        argument.value == Some(item),
        ctx.actor_context.piped == Some(list),
    ensures
        ({
            let e = SpannedExpressionView {
                span,
                persistence: Some(id),
                node: ExpressionView::FunctionCall {
                    path: seq!["List"@, "append"@],
                    arguments: seq![argument],
                },
            };
            let c = ctx.actor_context;
            let key = "list_calls:list_append_"@ + (nat_text(span.start as nat) + ".."@ + nat_text(
                span.end as nat,
            ));
            let item_ctx = EvaluationContextView {
                actor_context: ActorContextView {
                    scope: ScopeView {
                        segments: c.scope.segments.push(ScopeSegmentView::ListAppend { span }),
                    },
                    call_recorder: Some(key),
                    list_append_storage_key: Some(key),
                    recording_counter: Some(key),
                    ..c
                },
                ..ctx
            };
            match evaluated(depth, plan, item, item_ctx) {
                Ok(done) => match done.1 {
                    Some(actor) => done.0.actors.len() < u64::MAX ==> actor_of(depth, plan, e, ctx)
                        == Some(
                        ActorSpecView::ListAppend { list, item: actor, storage_key: key },
                    ),
                    None => evaluated(depth, plan, e, ctx) == Ok::<
                        (PlanView, Option<u64>),
                        Seq<char>,
                    >((done.0, Some(list))),
                },
                Err(message) => evaluated(depth, plan, e, ctx) == Err::<
                    (PlanView, Option<u64>),
                    Seq<char>,
                >(message),
            }
        }),
{
    let start = allocated(fresh_machine(plan), 1);
    let path = seq!["List"@, "append"@];
    let arguments = seq![argument];
    let e = SpannedExpressionView {
        span,
        persistence: Some(id),
        node: ExpressionView::FunctionCall { path, arguments },
    };
    lemma_append_is_no_transform();
    assert(arguments[0] == argument);
    reveal(outcome);
    lemma_append_outcome(depth, plan, e, id, path, arguments, list, item, ctx);
}

proof fn lemma_append_outcome(
    depth: nat,
    plan: PlanView,
    e: SpannedExpressionView,
    id: PersistenceId,
    path: Seq<Seq<char>>,
    arguments: Seq<SpannedArgumentView>,
    list: u64,
    item: SpannedExpressionView,
    ctx: EvaluationContextView,
)
    requires
        e.node == (ExpressionView::FunctionCall { path, arguments }),
        e.persistence == Some(id),
        binding_operation(path) is None,
        is_list_path(path, "append"@),
        arguments.len() == 1,
        arguments[0].value == Some(item),
        ctx.actor_context.piped == Some(list),
    ensures
        follows(
            outcome(depth, plan, e, ctx),
            outcome(
                depth,
                plan,
                item,
                with_context(ctx, recording_context(ctx.actor_context, e.span)),
            ),
            Some(list),
            |item: u64|
                ActorSpecView::ListAppend { list, item, storage_key: append_storage_key(e.span) },
        ),
{
    let start = allocated(fresh_machine(plan), 1);
    let key = PersistenceKey::Stored(id);
    lemma_first_argument_is_smaller(e, path, arguments, item);
    let result = lemma_append_result(
        depth,
        expr_size(e),
        start,
        arguments,
        list,
        item,
        key,
        e.span,
        ctx,
    );
    lemma_append_finished(depth, plan, e, id, path, arguments, ctx, result);
}

proof fn lemma_append_result(
    depth: nat,
    bound: nat,
    m: MachineView,
    arguments: Seq<SpannedArgumentView>,
    list: u64,
    value: SpannedExpressionView,
    key: PersistenceKey,
    span: Span,
    ctx: EvaluationContextView,
) -> (result: Result<(MachineView, Option<u64>), Seq<char>>)
    requires
        arguments.len() == 1,
        arguments[0].value == Some(value),
        expr_size(value) < bound,
        ctx.actor_context.piped == Some(list),
    ensures
        result == list_append(depth, bound, m, arguments, key, span, ctx),
        result == match outcome(
            depth,
            m.plan,
            value,
            with_context(ctx, recording_context(ctx.actor_context, span)),
        ) {
            Err(message) => Err(message),
            Ok(done) => match done.1 {
                None => Ok((MachineView { plan: done.0, ..m }, Some(list))),
                Some(item) => Ok(
                    (
                        add_actor(
                            MachineView { plan: done.0, ..m },
                            ActorSpecView::ListAppend {
                                list,
                                item,
                                storage_key: append_storage_key(span),
                            },
                            key,
                            span,
                            ctx.actor_context,
                        ),
                        Some(done.0.actors.len() as u64),
                    ),
                ),
            },
        },
{
    reveal(outcome);
    let item_ctx = with_context(ctx, recording_context(ctx.actor_context, span));
    lemma_append_on(depth, bound, m, arguments, list, value, key, span, ctx);
    lemma_part_evaluated(depth, bound, m, value, item_ctx);
    list_append(depth, bound, m, arguments, key, span, ctx)
}

proof fn lemma_append_finished(
    depth: nat,
    plan: PlanView,
    e: SpannedExpressionView,
    id: PersistenceId,
    path: Seq<Seq<char>>,
    arguments: Seq<SpannedArgumentView>,
    ctx: EvaluationContextView,
    result: Result<(MachineView, Option<u64>), Seq<char>>,
)
    requires
        e.node == (ExpressionView::FunctionCall { path, arguments }),
        e.persistence == Some(id),
        binding_operation(path) is None,
        is_list_path(path, "append"@),
        result == list_append(
            depth,
            expr_size(e),
            allocated(fresh_machine(plan), 1),
            arguments,
            PersistenceKey::Stored(id),
            e.span,
            ctx,
        ),
        result is Ok ==> result->Ok_0.0.queue.len() == 0 && (result->Ok_0.1 is None
            ==> !result->Ok_0.0.results.contains_key(0)),
    ensures
        outcome(depth, plan, e, ctx) == match result {
            Ok(done) => Ok((done.0.plan, done.1)),
            Err(message) => Err(message),
        },
{
    reveal(outcome);
    let start = allocated(fresh_machine(plan), 1);
    lemma_append_scheduled(depth, start, e, id, path, arguments, ctx);
    lemma_stored_outcome(depth, plan, e, ctx, result);
}

proof fn lemma_append_on(
    depth: nat,
    bound: nat,
    m: MachineView,
    arguments: Seq<SpannedArgumentView>,
    list: u64,
    value: SpannedExpressionView,
    key: PersistenceKey,
    span: Span,
    ctx: EvaluationContextView,
)
    requires
        arguments.len() == 1,
        arguments[0].value == Some(value),
        ctx.actor_context.piped == Some(list),
    ensures
        list_append(depth, bound, m, arguments, key, span, ctx) == match part_evaluated(
            depth,
            bound,
            m,
            value,
            with_context(ctx, recording_context(ctx.actor_context, span)),
        ) {
            Err(message) => Err(message),
            Ok(done) => match done.1 {
                None => Ok((done.0, Some(list))),
                Some(item) => Ok(
                    (
                        add_actor(
                            done.0,
                            ActorSpecView::ListAppend {
                                list,
                                item,
                                storage_key: append_storage_key(span),
                            },
                            key,
                            span,
                            ctx.actor_context,
                        ),
                        Some(next_actor(done.0)),
                    ),
                ),
            },
        },
{
}

proof fn lemma_append_is_no_transform()
    ensures
        binding_operation(seq!["List"@, "append"@]) is None,
        is_list_path(seq!["List"@, "append"@], "append"@),
{
    reveal_strlit("append");
    reveal_strlit("map");
    reveal_strlit("retain");
    reveal_strlit("remove");
    reveal_strlit("every");
    reveal_strlit("any");
    reveal_strlit("sort_by");
    assert("append"@.len() == 6);
    assert("append"@[0] == 'a');
    assert("retain"@[0] == 'r');
    assert("remove"@[0] == 'r');
    assert("append"@ != "map"@ && "append"@ != "any"@ && "append"@ != "every"@);
    assert("append"@ != "retain"@ && "append"@ != "remove"@ && "append"@ != "sort_by"@);
}

} // verus!
