//! What whole programs, links and other calls lead to.
use crate::builtins::joined;
use crate::compound_laws::{lemma_last_step, lemma_literal_scheduled};
use crate::contexts::{call_body_context, child_scope, root_context, with_context};
use crate::evaluation::{
    call, evaluated, found_arguments, process, process_link_setter, schedule, unbound_parameter,
    user_call, with_arguments,
};
use crate::evaluation_state::{MachineView, allocated, empty_plan, fresh_machine, key_of, keyed};
use crate::expression_view::{
    AliasView, ExpressionView, LiteralView, SpannedArgumentView, SpannedExpressionView,
    SpannedVariableView, StaticFunctionDefinitionView, VariableView,
};
use crate::flow_laws::{actor_of, lemma_at_once};
use crate::pipe_laws::{
    call_item, is_ordinary, lemma_call_ready, lemma_only_step, lemma_pipe_ready, piped_item,
};
use crate::plan::{AliasRoot, PersistenceKey};
use crate::plan_view::{
    ActorContextView, ActorNodeView, ActorSpecView, EvaluationContextView, PlanView,
    RegistrationView, ScopeSegmentView, ScopeView, VariableSpecView,
};
use crate::program::{program, top_context, top_expression, top_level, top_variable, top_variables};
use crate::program_laws::{lemma_plain_call_evaluated, plain_call};
use crate::slot_laws::lemma_evaluated_by_running;
use crate::static_expression::{PersistenceId, Span};
use vstd::prelude::*;

verus! {

/// A literal that is piped into a link goes to a forwarder, which goes to a pass-through, which a
/// relay shows. They share the identity of the link setter.
pub proof fn lemma_literal_piped_into_link(
    depth: nat,
    plan: PlanView,
    e: SpannedExpressionView,
    from: SpannedExpressionView,
    to: SpannedExpressionView,
    literal: LiteralView,
    alias: AliasView,
    id: PersistenceId,
    ctx: EvaluationContextView,
)
    requires
        plan.actors.len() + 3 < u64::MAX,
        e.node == (ExpressionView::Pipe { from: Box::new(from), to: Box::new(to) }),
        from.node == ExpressionView::Literal(literal),
        to.node == (ExpressionView::LinkSetter { alias }),
        to.persistence == Some(id),
    ensures
        ({
            let n = plan.actors.len();
            let key = PersistenceKey::Stored(id);
            evaluated(depth, plan, e, ctx) matches Ok(done) && {
                &&& done.0.actors.len() == n + 4
                &&& done.0.actors[n as int].actor == ActorSpecView::Literal(literal)
                &&& done.0.actors[(n + 1) as int].actor == (ActorSpecView::LinkForwarder {
                    source: n as u64,
                    alias,
                    pass_through: key,
                })
                &&& done.0.actors[(n + 2) as int].actor == (ActorSpecView::PassThrough {
                    forwarder: (n + 1) as u64,
                    key,
                })
                &&& done.0.actors[(n + 3) as int].actor == (ActorSpecView::LinkRelay {
                    pass_through: (n + 2) as u64,
                    key,
                })
                &&& done.1 == Some((n + 3) as u64)
            }
        }),
{
    let ready = lemma_pipe_ready(depth, plan, e, from, to, literal, ctx);
    let rest = MachineView { queue: Seq::empty(), ..ready };
    let n = plan.actors.len() as u64;
    let after = lemma_link_set(depth, rest, to, alias, id, ctx, n);
    lemma_last_step(depth, plan, e, ctx, ready, piped_item(to, ctx), after);
    assert(after.plan.actors[n as int] == rest.plan.actors[n as int]);
}

proof fn lemma_link_set(
    depth: nat,
    m: MachineView,
    to: SpannedExpressionView,
    alias: AliasView,
    id: PersistenceId,
    ctx: EvaluationContextView,
    piped: u64,
) -> (after: MachineView)
    requires
        m.queue.len() == 0,
        m.results.contains_key(1),
        m.results[1] == piped,
        m.plan.actors.len() + 2 < u64::MAX,
        to.node == (ExpressionView::LinkSetter { alias }),
        to.persistence == Some(id),
    ensures
        process(depth, m, piped_item(to, ctx)) == Ok::<MachineView, Seq<char>>(after),
        ({
            let n = m.plan.actors.len() as int;
            let key = PersistenceKey::Stored(id);
            let actors = after.plan.actors;
            &&& after.queue.len() == 0
            &&& actors.len() == n + 3
            &&& forall|i: int| 0 <= i < n ==> #[trigger] actors[i] == m.plan.actors[i]
            &&& actors[n].actor == (ActorSpecView::LinkForwarder {
                source: piped,
                alias,
                pass_through: key,
            })
            &&& actors[n + 1].actor == (ActorSpecView::PassThrough { forwarder: n as u64, key })
            &&& actors[n + 2].actor == (ActorSpecView::LinkRelay {
                pass_through: (n + 1) as u64,
                key,
            })
            &&& after.results.contains_key(0)
            &&& after.results[0] == n + 2
        }),
{
    let inner = with_context(
        ctx,
        ActorContextView { piped: Some(piped), ..ctx.actor_context },
    );
    let key = PersistenceKey::Stored(id);
    process_link_setter(m, piped, alias, key, to.span, inner, 0)
}

/// A function of the program that is called without arguments where a value is piped in takes this
/// value as its first parameter, unless one of that name is there already: its body is then
/// evaluated for each value.
pub proof fn lemma_function_on_piped_value(
    depth: nat,
    plan: PlanView,
    e: SpannedExpressionView,
    path: Seq<Seq<char>>,
    definition: StaticFunctionDefinitionView,
    piped: u64,
    ctx: EvaluationContextView,
)
    requires
        plan.actors.len() < u64::MAX,
        plain_call(e, path),
        ctx.function_registry_snapshot matches Some(known) && known.functions.contains_key(
            joined(path, "/"@),
        ) && known.functions[joined(path, "/"@)] == definition,
        ctx.actor_context.piped == Some(piped),
        definition.parameters.len() > 0,
        !ctx.actor_context.parameters.contains_key(definition.parameters[0]),
    ensures
        actor_of(depth, plan, e, ctx) == Some(
            ActorSpecView::PipedUserCall {
                piped,
                param: definition.parameters[0],
                path,
                definition,
                parameters: ctx.actor_context.parameters,
            },
        ),
{
    lemma_plain_call_evaluated(depth, plan, e, path, ctx);
    let start = allocated(fresh_machine(plan), 1);
    let m = keyed(start, e.persistence);
    let key = key_of(start, e.persistence);
    let context = ctx.actor_context;
    let none = Seq::<(Seq<char>, u64)>::empty();
    assert(with_arguments(context.parameters, none, 0) == context.parameters);
    assert(unbound_parameter(definition.parameters, context.parameters) == Some(
        definition.parameters[0],
    ));
    let calling = user_call(
        depth,
        m,
        joined(path, "/"@),
        path,
        none,
        definition,
        key,
        e.span,
        ctx,
    );
    assert(call(depth, m, path, none, key, e.span, ctx, false) == calling);
}

/// What is called with PASS sees the literal as what is passed, and no further parameter.
pub proof fn lemma_function_called_with_pass(
    depth: nat,
    plan: PlanView,
    e: SpannedExpressionView,
    path: Seq<Seq<char>>,
    definition: StaticFunctionDefinitionView,
    arg: SpannedArgumentView,
    a: SpannedExpressionView,
    literal: LiteralView,
    id: PersistenceId,
    ctx: EvaluationContextView,
)
    requires
        depth > 0,
        plan.actors.len() + 1 < u64::MAX,
        e.node == (ExpressionView::FunctionCall { path, arguments: seq![arg] }),
        e.persistence == Some(id),
        is_ordinary(path),
        ctx.function_registry_snapshot matches Some(known) && known.functions.contains_key(
            joined(path, "/"@),
        ) && known.functions[joined(path, "/"@)] == definition,
        definition.parameters.len() == 0,
        ctx.actor_context.parameters == Map::<Seq<char>, u64>::empty(),
        arg.value == Some(a),
        arg.name == "PASS"@,
        !arg.is_referenced,
        a.persistence is Some,
        a.node == ExpressionView::Literal(literal),
    ensures
        ({
            let c = ctx.actor_context;
            let inside = EvaluationContextView {
                actor_context: ActorContextView {
                    passed: Some(plan.actors.len() as u64),
                    hold_state_update_callback: None,
                    is_snapshot_context: false,
                    object_locals: Map::empty(),
                    scope: child_scope(
                        c.scope,
                        ScopeSegmentView::Call { key: PersistenceKey::Stored(id) },
                    ),
                    ..c
                },
                ..ctx
            };
            let node = ActorNodeView {
                actor: ActorSpecView::Literal(literal),
                key: PersistenceKey::Stored(a.persistence->0),
                span: a.span,
                context: c,
            };
            let before = PlanView { actors: plan.actors.push(node), ..plan };
            evaluated(depth, plan, e, ctx) == evaluated(
                (depth - 1) as nat,
                before,
                definition.body,
                inside,
            )
        }),
{
    let n = plan.actors.len() as u64;
    let ready = lemma_call_ready(depth, plan, e, path, arg, a, literal, ctx);
    let rest = MachineView { queue: Seq::empty(), ..ready };
    let key = PersistenceKey::Stored(id);
    let item = call_item(path, Seq::empty(), Some(1), false, e.span, key, ctx);
    lemma_pass_processed(depth, rest, path, definition, n, e.span, key, ctx);
    lemma_only_step(depth, plan, e, ctx, ready, item);
}

proof fn lemma_pass_processed(
    depth: nat,
    m: MachineView,
    path: Seq<Seq<char>>,
    definition: StaticFunctionDefinitionView,
    actor: u64,
    span: Span,
    key: PersistenceKey,
    ctx: EvaluationContextView,
)
    requires
        depth > 0,
        m.queue.len() == 0,
        m.loops.len() == 0,
        m.results == Map::<u32, u64>::empty().insert(1, actor),
        ctx.function_registry_snapshot matches Some(known) && known.functions.contains_key(
            joined(path, "/"@),
        ) && known.functions[joined(path, "/"@)] == definition,
        definition.parameters.len() == 0,
        ctx.actor_context.parameters == Map::<Seq<char>, u64>::empty(),
    ensures
        ({
            let c = ActorContextView { passed: Some(actor), ..ctx.actor_context };
            let inside = with_context(
                ctx,
                call_body_context(c, c.piped, c.parameters, ScopeSegmentView::Call { key }),
            );
            let done = process(
                depth,
                m,
                call_item(path, Seq::empty(), Some(1), false, span, key, ctx),
            );
            match evaluated((depth - 1) as nat, m.plan, definition.body, inside) {
                Err(message) => done == Err::<MachineView, Seq<char>>(message),
                Ok(inner) => {
                    &&& done is Ok
                    &&& done->Ok_0.queue.len() == 0
                    &&& done->Ok_0.plan == inner.0
                    &&& match inner.1 {
                        None => !done->Ok_0.results.contains_key(0),
                        Some(result) => done->Ok_0.results.contains_key(0)
                            && done->Ok_0.results[0] == result,
                    }
                },
            }
        }),
{
    let c = ActorContextView { passed: Some(actor), ..ctx.actor_context };
    let call_ctx = with_context(ctx, c);
    let none = Seq::<(Seq<char>, u64)>::empty();
    assert(found_arguments(m, Seq::empty(), 0) =~= none);
    assert(with_arguments(c.parameters, none, 0) == c.parameters);
    assert(unbound_parameter(definition.parameters, c.parameters) is None);
    let calling = user_call(
        depth,
        m,
        joined(path, "/"@),
        path,
        none,
        definition,
        key,
        span,
        call_ctx,
    );
    assert(call(depth, m, path, none, key, span, call_ctx, false) == calling);
    assert(m.loops =~= Seq::empty());
}

/// Whether the expressions of a program define variables with the values of these literals.
pub open spec fn plain_program(
    expressions: Seq<SpannedExpressionView>,
    variables: Seq<VariableView>,
    literals: Seq<LiteralView>,
) -> bool {
    &&& expressions.len() == variables.len()
    &&& expressions.len() == literals.len()
    &&& forall|i: int|
        0 <= i < expressions.len() ==> {
            &&& (#[trigger] expressions[i]).node == ExpressionView::Variable(
                Box::new(variables[i]),
            )
            &&& expressions[i].persistence is Some
            &&& variables[i].value.node == ExpressionView::Literal(literals[i])
        }
}

/// Whether the first variables of such a program were made.
pub open spec fn plain_variables_made(
    expressions: Seq<SpannedExpressionView>,
    variables: Seq<VariableView>,
    literals: Seq<LiteralView>,
    n: nat,
    plan: PlanView,
    made: Seq<VariableSpecView>,
) -> bool {
    &&& plan.actors.len() == n
    &&& plan.registrations.len() == n
    &&& made.len() == n
    &&& forall|i: int|
        0 <= i < n ==> #[trigger] plan.actors[i].actor == ActorSpecView::Literal(literals[i])
    &&& forall|i: int|
        0 <= i < n ==> #[trigger] plan.registrations[i] == (RegistrationView::Referenceable {
            span: expressions[i].span,
            actor: i as u64,
        })
    &&& forall|i: int|
        0 <= i < n ==> {
            &&& (#[trigger] made[i]).name == variables[i].name
            &&& made[i].span == expressions[i].span
            &&& made[i].key == PersistenceKey::Stored(expressions[i].persistence->0)
            &&& made[i].value == i
            &&& !made[i].is_link
            &&& made[i].source is None
        }
}

proof fn lemma_plain_top_level(
    expressions: Seq<SpannedExpressionView>,
    variables: Seq<VariableView>,
    literals: Seq<LiteralView>,
    functions: Map<Seq<char>, StaticFunctionDefinitionView>,
    n: nat,
)
    requires
        plain_program(expressions, variables, literals),
        n <= expressions.len(),
    ensures
        top_level(expressions, functions, n) matches Ok(top) && {
            &&& top.functions == functions
            &&& top.variables == Seq::new(
                n,
                |i: int|
                    SpannedVariableView {
                        span: expressions[i].span,
                        persistence: expressions[i].persistence,
                        node: variables[i],
                    },
            )
        },
    decreases n,
{
    let all = Seq::new(
        n,
        |i: int|
            SpannedVariableView {
                span: expressions[i].span,
                persistence: expressions[i].persistence,
                node: variables[i],
            },
    );
    if n > 0 {
        lemma_plain_top_level(expressions, variables, literals, functions, (n - 1) as nat);
        assert(expressions[n - 1].node == ExpressionView::Variable(Box::new(variables[n - 1])));
    }
    assert(top_level(expressions, functions, n)->Ok_0.variables =~= all);
}

proof fn lemma_literal_at_top(
    depth: nat,
    plan: PlanView,
    e: SpannedExpressionView,
    literal: LiteralView,
    context: ActorContextView,
    functions: Map<Seq<char>, StaticFunctionDefinitionView>,
)
    requires
        e.node == ExpressionView::Literal(literal),
        plan.actors.len() < u64::MAX,
    ensures
        top_expression(depth, plan, e, context, functions) matches Ok(done) && {
            &&& done.1 == plan.actors.len()
            &&& done.0.registrations == plan.registrations
            &&& done.0.actors.len() == plan.actors.len() + 1
            &&& done.0.actors.drop_last() == plan.actors
            &&& done.0.actors.last().actor == ActorSpecView::Literal(literal)
        },
{
    reveal(top_expression);
    let ctx = top_context(context, functions);
    let start = allocated(fresh_machine(plan), 1);
    lemma_literal_scheduled(depth, start, e, ctx, 0);
    let m = schedule(depth, start, e, ctx, 0)->Ok_0;
    lemma_at_once(depth, plan, e, ctx, m);
    assert(m.plan.actors.drop_last() =~= plan.actors);
}

proof fn lemma_plain_top_variables(
    depth: nat,
    expressions: Seq<SpannedExpressionView>,
    variables: Seq<VariableView>,
    literals: Seq<LiteralView>,
    spanned: Seq<SpannedVariableView>,
    functions: Map<Seq<char>, StaticFunctionDefinitionView>,
    n: nat,
)
    requires
        plain_program(expressions, variables, literals),
        n <= expressions.len(),
        expressions.len() < u64::MAX,
        spanned.len() == expressions.len(),
        forall|i: int|
            0 <= i < spanned.len() ==> #[trigger] spanned[i] == (SpannedVariableView {
                span: expressions[i].span,
                persistence: expressions[i].persistence,
                node: variables[i],
            }),
    ensures
        top_variables(depth, empty_plan(), spanned, n, functions) matches Ok(done)
            && plain_variables_made(expressions, variables, literals, n, done.0, done.1),
    decreases n,
{
    reveal(top_variable);
    if n > 0 {
        let k = (n - 1) as nat;
        lemma_plain_top_variables(
            depth,
            expressions,
            variables,
            literals,
            spanned,
            functions,
            k,
        );
        let before = top_variables(depth, empty_plan(), spanned, k, functions)->Ok_0;
        let i = k as int;
        assert(expressions[i].persistence is Some);
        assert(spanned[i].node == variables[i]);
        let value = variables[i].value;
        lemma_literal_at_top(depth, before.0, value, literals[i], root_context(), functions);
        let done = top_variables(depth, empty_plan(), spanned, n, functions)->Ok_0;
        let made = top_expression(depth, before.0, value, root_context(), functions)->Ok_0;
        assert(done.0.actors == made.0.actors);
        assert forall|j: int| 0 <= j < n implies #[trigger] done.0.actors[j].actor
            == ActorSpecView::Literal(literals[j]) by {
            if j < k {
                assert(made.0.actors.drop_last()[j] == before.0.actors[j]);
                assert(before.0.actors[j].actor == ActorSpecView::Literal(literals[j]));
            }
        }
        assert forall|j: int| 0 <= j < n implies #[trigger] done.0.registrations[j] == (
        RegistrationView::Referenceable { span: expressions[j].span, actor: j as u64 }) by {
            if j < k {
                assert(done.0.registrations[j] == before.0.registrations[j]);
            }
        }
        assert forall|j: int| 0 <= j < n implies {
            &&& (#[trigger] done.1[j]).name == variables[j].name
            &&& done.1[j].span == expressions[j].span
            &&& done.1[j].key == PersistenceKey::Stored(expressions[j].persistence->0)
            &&& done.1[j].value == j
            &&& !done.1[j].is_link
            &&& done.1[j].source is None
        } by {
            if j < k {
                assert(done.1[j] == before.1[j]);
            }
        }
    }
}

/// A program of variables with literals has these variables, in their order and without leaving any
/// out, each with the actor of its literal, its identity, and a place by which others refer to it.
pub proof fn lemma_program_of_literals(
    depth: nat,
    expressions: Seq<SpannedExpressionView>,
    variables: Seq<VariableView>,
    literals: Seq<LiteralView>,
    functions: Map<Seq<char>, StaticFunctionDefinitionView>,
)
    requires
        plain_program(expressions, variables, literals),
        expressions.len() < u64::MAX,
    ensures
        program(depth, expressions, functions) matches Ok(done) && done.functions == functions
            && plain_variables_made(
            expressions,
            variables,
            literals,
            expressions.len(),
            done.plan,
            done.variables,
        ),
{
    let n = expressions.len();
    lemma_plain_top_level(expressions, variables, literals, functions, n);
    let spanned = top_level(expressions, functions, n)->Ok_0.variables;
    lemma_plain_top_variables(depth, expressions, variables, literals, spanned, functions, n);
}

/// At the top level a variable without an identity and a skipped value are refused. A link is a
/// variable with an actor of its own, which both connectors know.
pub proof fn lemma_variables_at_top(
    depth: nat,
    plan: PlanView,
    var: SpannedVariableView,
    functions: Map<Seq<char>, StaticFunctionDefinitionView>,
)
    requires
        plan.actors.len() < u64::MAX,
    ensures
        var.persistence is None ==> top_variable(depth, plan, var, functions) is Err,
        var.node.value.node is Skip ==> top_variable(depth, plan, var, functions) is Err,
        var.persistence is Some && var.node.value.node is Link ==> (top_variable(
            depth,
            plan,
            var,
            functions,
        ) matches Ok(done) && {
            let n = plan.actors.len();
            &&& done.0.actors.len() == n + 1
            &&& done.0.actors.last().actor == ActorSpecView::LinkValue
            &&& done.0.actors.last().key == PersistenceKey::Stored(var.persistence->0)
            &&& done.0.registrations == plan.registrations.push(
                RegistrationView::Referenceable { span: var.span, actor: n as u64 },
            ).push(
                RegistrationView::Link {
                    span: var.span,
                    scope: ScopeView { segments: Seq::empty() },
                    actor: n as u64,
                },
            )
            &&& done.1.name == var.node.name
            &&& done.1.value == n
            &&& done.1.is_link
        }),
{
    reveal(top_variable);
    if var.node.value.node is Skip {
        reveal(top_expression);
        let e = var.node.value;
        let ctx = top_context(root_context(), functions);
        let start = allocated(fresh_machine(plan), 1);
        lemma_at_once(depth, plan, e, ctx, schedule(depth, start, e, ctx, 0)->Ok_0);
    }
}


/// A link setter without a piped value shows what it refers to: of a parameter its actor, and of
/// what is passed the path below it.
pub proof fn lemma_link_without_pipe(
    depth: nat,
    plan: PlanView,
    span: Span,
    id: Option<PersistenceId>,
    name: Seq<char>,
    path: Seq<Seq<char>>,
    ctx: EvaluationContextView,
)
    requires
        plan.actors.len() + 1 < u64::MAX,
    ensures
        ({
            let of = |alias: AliasView|
                SpannedExpressionView {
                    span,
                    persistence: id,
                    node: ExpressionView::LinkSetter { alias },
                };
            let named = AliasView::WithoutPassed { parts: seq![name], referenced_span: None };
            let passed = AliasView::WithPassed { extra_parts: path };
            let c = ctx.actor_context;
            let n = plan.actors.len();
            &&& c.parameters.contains_key(name) ==> actor_of(depth, plan, of(named), ctx) == Some(
                ActorSpecView::Relay { source: c.parameters[name] },
            )
            &&& !c.parameters.contains_key(name) ==> evaluated(depth, plan, of(named), ctx) is Err
            &&& c.passed matches Some(actor) ==> {
                let done = evaluated(depth, plan, of(passed), ctx);
                &&& actor_of(depth, plan, of(passed), ctx) == Some(
                    ActorSpecView::Relay { source: n as u64 },
                )
                &&& done->Ok_0.0.actors[n as int].actor == (ActorSpecView::Alias {
                    root: AliasRoot::Actor(actor),
                    alias: passed,
                })
            }
            &&& c.passed is None ==> evaluated(depth, plan, of(passed), ctx) is Err
        }),
{
    let start = allocated(fresh_machine(plan), 1);
    let of = |alias: AliasView|
        SpannedExpressionView {
            span,
            persistence: id,
            node: ExpressionView::LinkSetter { alias },
        };
    let named = of(AliasView::WithoutPassed { parts: seq![name], referenced_span: None });
    let passed = of(AliasView::WithPassed { extra_parts: path });
    if ctx.actor_context.parameters.contains_key(name) {
        lemma_at_once(depth, plan, named, ctx, schedule(depth, start, named, ctx, 0)->Ok_0);
    } else {
        lemma_evaluated_by_running(depth, plan, named, ctx);
    }
    if ctx.actor_context.passed is Some {
        lemma_at_once(depth, plan, passed, ctx, schedule(depth, start, passed, ctx, 0)->Ok_0);
    } else {
        lemma_evaluated_by_running(depth, plan, passed, ctx);
    }
}

} // verus!
