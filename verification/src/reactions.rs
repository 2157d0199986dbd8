//! What an actor does with a value that reaches it.
use crate::builtins::{join_texts, joined};
use crate::contexts::{
    append_storage_key, call_body_context, child_scope, list_append_key, recording_context,
    restoring_context, snapshot_context, while_arm_context, with_context,
};
use crate::evaluation::{MOST_NESTED_CALLS, evaluated};
use crate::evaluator::evaluate_expression;
use crate::expression_view::{
    ArmView, PatternView, SpannedExpressionView, StaticFunctionDefinitionView,
};
use crate::ids::{
    draw_ids, identity_text, lemma_child_name, lemma_child_names_differ, scope_name, ulid_name,
};
use crate::matching::{PatternMatch, PatternMatchView, match_pattern, matched, plain_match};
use crate::plan::{
    ActorContext, ActorNode, ActorSpec, EvaluationContext, FunctionRegistry, PersistenceKey, Plan,
    RecordedCall, ScopeSegment,
};
use crate::plan_clone::clone_map_u64;
use crate::plan_view::{
    ActorContextView, ActorNodeView, ActorSpecView, EvaluationContextView, FunctionRegistryView,
    PlanView, RecordedCallView, ScopeSegmentView, ScopeView,
};
use crate::semantic_clone::clone_vec_text;
use crate::static_expression::{
    Arm, PersistenceId, Span, SpannedExpression, StaticFunctionDefinition,
};
use crate::text::{
    lemma_nat_text_injective, lemma_text_before_total, nat_text, text_before, u64_text,
};
use crate::text_map::{
    TextMap, lemma_ordered_pairs, lemma_ordered_pairs_values, ordered_pairs, pairs_increase,
    pairs_map,
};
use crate::value::{Value, ValueView};
use vstd::prelude::*;
use vstd::string::*;

verus! {

/// What follows from a value: the actor whose values are emitted, only its first one where it is
/// single, and the state that each of them updates at once.
#[derive(Debug, Clone, Copy, PartialEq, Eq, Structural)]
pub struct Reaction {
    pub actor: u64,
    pub single: bool,
    pub updates: Option<u64>,
}

/// The plan with one more actor, under an identity that is drawn.
pub open spec fn with_drawn(
    plan: PlanView,
    actor: ActorSpecView,
    span: Span,
    context: ActorContextView,
) -> PlanView {
    let node = ActorNodeView { actor, key: PersistenceKey::Fresh(plan.fresh), span, context };
    PlanView {
        actors: plan.actors.push(node),
        fresh: plan.fresh.wrapping_add(1),
        ..plan
    }
}

/// The number of the next actor of a plan.
pub open spec fn plan_next(plan: PlanView) -> u64 {
    plan.actors.len() as u64
}

/// The plan with one more actor, which has one value for ever.
pub open spec fn with_constant(
    plan: PlanView,
    value: ValueView,
    span: Span,
    context: ActorContextView,
) -> PlanView {
    with_drawn(plan, ActorSpecView::Constant(value), span, context)
}

impl Plan {
    /// Adds an actor under an identity that is drawn.
    pub fn add_drawn(&mut self, actor: ActorSpec, span: Span, context: &ActorContext) -> (r: u64)
        ensures
            r == plan_next(old(self)@),
            final(self)@ == with_drawn(old(self)@, actor@, span, context@),
    {
        let ghost start = self@;
        let id: u64 = self.actors.len() as u64;
        let fresh: u64 = self.fresh;
        let node = ActorNode {
            actor,
            key: PersistenceKey::Fresh(fresh),
            span,
            context: context.clone(),
        };
        self.actors.push(node);
        self.fresh = fresh.wrapping_add(1);
        proof {
            assert(self@.actors =~= start.actors.push(node@));
        }
        id
    }
}

/// Parameters that keep the values they have at the moment: each one that has a value becomes an
/// actor with that value alone, each other one stays as it is.
pub open spec fn frozen(
    plan: PlanView,
    parameters: Seq<(Seq<char>, u64)>,
    current: Map<Seq<char>, ValueView>,
    span: Span,
    context: ActorContextView,
) -> (PlanView, Map<Seq<char>, u64>)
    decreases parameters.len(),
{
    if parameters.len() == 0 {
        (plan, Map::empty())
    } else {
        let before = frozen(plan, parameters.drop_last(), current, span, context);
        let name = parameters.last().0;
        if current.contains_key(name) {
            (
                with_constant(before.0, current[name], span, context),
                before.1.insert(name, plan_next(before.0)),
            )
        } else {
            (before.0, before.1.insert(name, parameters.last().1))
        }
    }
}

/// Parameters to which the bindings of a pattern are added, each as an actor with one value.
pub open spec fn with_bindings(
    plan: PlanView,
    parameters: Map<Seq<char>, u64>,
    bindings: Seq<(Seq<char>, ValueView)>,
    span: Span,
    context: ActorContextView,
) -> (PlanView, Map<Seq<char>, u64>)
    decreases bindings.len(),
{
    if bindings.len() == 0 {
        (plan, parameters)
    } else {
        let before = with_bindings(plan, parameters, bindings.drop_last(), span, context);
        (
            with_constant(before.0, bindings.last().1, span, context),
            before.1.insert(bindings.last().0, plan_next(before.0)),
        )
    }
}

/// The evaluation of a body: the plan after it and the actor of its value. A body that fails or
/// is skipped has none, and one that fails leaves the plan as it was.
#[verifier::opaque]
pub open spec fn tried(
    depth: nat,
    plan: PlanView,
    e: SpannedExpressionView,
    ctx: EvaluationContextView,
) -> (PlanView, Option<u64>) {
    match evaluated(depth, plan, e, ctx) {
        Ok(done) => done,
        Err(_) => (plan, None),
    }
}

fn try_evaluate(
    plan: &mut Plan,
    expression: &SpannedExpression,
    ctx: &EvaluationContext,
) -> (r: Option<u64>)
    ensures
        tried(MOST_NESTED_CALLS as nat, old(plan)@, expression@, ctx@) == (final(plan)@, r),
{
    proof {
        reveal(tried);
    }
    match evaluate_expression(plan, expression, ctx) {
        Ok(actor) => actor,
        Err(_) => None,
    }
}

/// The reaction to a body, if the body has an actor.
pub open spec fn reacted(done: (PlanView, Option<u64>), single: bool, updates: Option<u64>) -> (
    PlanView,
    Option<Reaction>,
) {
    (
        done.0,
        match done.1 {
            Some(actor) => Some(Reaction { actor, single, updates }),
            None => None,
        },
    )
}

fn react(done: Option<u64>, single: bool, updates: Option<u64>) -> (r: Option<Reaction>)
    ensures
        forall|p: PlanView| #[trigger] reacted((p, done), single, updates) == (p, r),
{
    match done {
        Some(actor) => Some(Reaction { actor, single, updates }),
        None => None,
    }
}

/// An evaluation context for a body, with the functions it can call.
pub open spec fn body_context(
    ctx: EvaluationContextView,
    actor_context: ActorContextView,
    registry: FunctionRegistryView,
) -> EvaluationContextView {
    EvaluationContextView { actor_context, function_registry_snapshot: Some(registry), ..ctx }
}

/// What THEN does with a value: its body is evaluated with the value piped in and with frozen
/// parameters; the first value of the body is emitted, after it has updated the state of the
/// HOLD around.
pub open spec fn then_reaction(
    depth: nat,
    plan: PlanView,
    body: SpannedExpressionView,
    registry: FunctionRegistryView,
    span: Span,
    ctx: EvaluationContextView,
    value: ValueView,
    current: Map<Seq<char>, ValueView>,
) -> (PlanView, Option<Reaction>) {
    let c = ctx.actor_context;
    let p = with_constant(plan, value, span, c);
    let f = frozen(p, ordered_pairs(c.parameters), current, span, c);
    reacted(
        tried(
            depth,
            f.0,
            body,
            body_context(ctx, snapshot_context(c, plan_next(plan), f.1), registry),
        ),
        true,
        c.hold_state_update_callback,
    )
}

/// What WHEN does with a value that an arm matches: as THEN with the body of the arm, with the
/// bindings of its pattern as further parameters, and without updating a state at once.
pub open spec fn when_reaction(
    depth: nat,
    plan: PlanView,
    body: SpannedExpressionView,
    registry: FunctionRegistryView,
    span: Span,
    ctx: EvaluationContextView,
    value: ValueView,
    current: Map<Seq<char>, ValueView>,
    bindings: Map<Seq<char>, ValueView>,
) -> (PlanView, Option<Reaction>) {
    let c = ctx.actor_context;
    let p = with_constant(plan, value, span, c);
    let f = frozen(p, ordered_pairs(c.parameters), current, span, c);
    let b = with_bindings(f.0, f.1, ordered_pairs(bindings), span, c);
    reacted(
        tried(
            depth,
            b.0,
            body,
            body_context(ctx, snapshot_context(c, plan_next(plan), b.1), registry),
        ),
        true,
        None,
    )
}

/// What WHILE does with a value that the arm of a number matches: all values of the arm's body
/// are emitted, until the next value comes in; parameters stay as they are.
pub open spec fn while_reaction(
    depth: nat,
    plan: PlanView,
    body: SpannedExpressionView,
    registry: FunctionRegistryView,
    span: Span,
    ctx: EvaluationContextView,
    value: ValueView,
    bindings: Map<Seq<char>, ValueView>,
    arm: u64,
    subscription: u64,
) -> (PlanView, Option<Reaction>) {
    let c = ctx.actor_context;
    let p = with_constant(plan, value, span, c);
    let b = with_bindings(p, c.parameters, ordered_pairs(bindings), span, c);
    reacted(
        tried(
            depth,
            b.0,
            body,
            body_context(
                ctx,
                while_arm_context(c, plan_next(plan), b.1, arm, subscription),
                registry,
            ),
        ),
        false,
        None,
    )
}

/// What a call with a piped value does with it: the body is evaluated anew, with the value as
/// the parameter and in a scope that the invocation names.
pub open spec fn piped_call_reaction(
    depth: nat,
    plan: PlanView,
    body: SpannedExpressionView,
    param: Seq<char>,
    parameters: Map<Seq<char>, u64>,
    span: Span,
    ctx: EvaluationContextView,
    value: ValueView,
    invocation: Seq<char>,
) -> (PlanView, Option<Reaction>) {
    let c = ctx.actor_context;
    let p = with_constant(plan, value, span, c);
    reacted(
        tried(
            depth,
            p,
            body,
            with_context(
                ctx,
                call_body_context(
                    c,
                    None,
                    parameters.insert(param, plan_next(plan)),
                    ScopeSegmentView::Invocation { id: invocation },
                ),
            ),
        ),
        true,
        None,
    )
}

fn freeze(
    plan: &mut Plan,
    parameters: &TextMap<u64>,
    current: &TextMap<Value>,
    span: Span,
    context: &ActorContext,
) -> (r: TextMap<u64>)
    ensures
        frozen(
            old(plan)@,
            ordered_pairs(parameters@),
            current@.map_values(|x: Value| x@),
            span,
            context@,
        ) == (final(plan)@, r@),
{
    let ghost pairs = ordered_pairs(parameters@);
    let ghost values = current@.map_values(|x: Value| x@);
    let ghost start = plan@;
    let mut out: TextMap<u64> = TextMap::new();
    let mut i: usize = 0;
    assert(pairs.take(0) =~= Seq::empty());
    let count: usize = parameters.len();
    while i < count
        invariant
            i <= count,
            start == old(plan)@,
            count == pairs.len(),
            pairs == ordered_pairs(parameters@),
            values == current@.map_values(|x: Value| x@),
            frozen(start, pairs.take(i as int), values, span, context@) == (plan@, out@),
        decreases count - i,
    {
        let (name, actor) = parameters.entry(i);
        proof {
            assert(pairs.take(i + 1).drop_last() =~= pairs.take(i as int));
            assert(pairs.take(i + 1).last() == pairs[i as int]);
        }
        match current.get(name.as_str()) {
            Some(value) => {
                let constant = plan.add_drawn(ActorSpec::Constant(value.clone()), span, context);
                out.insert(name.clone(), constant);
            },
            None => {
                out.insert(name.clone(), *actor);
            },
        }
        i += 1;
    }
    assert(pairs.take(i as int) =~= pairs);
    out
}

fn bind_values(
    plan: &mut Plan,
    parameters: TextMap<u64>,
    bindings: &TextMap<Value>,
    span: Span,
    context: &ActorContext,
) -> (r: TextMap<u64>)
    ensures
        with_bindings(
            old(plan)@,
            parameters@,
            ordered_pairs(bindings@.map_values(|x: Value| x@)),
            span,
            context@,
        ) == (final(plan)@, r@),
{
    let ghost f = |x: Value| x@;
    let ghost pairs = ordered_pairs(bindings@.map_values(f));
    let ghost start = plan@;
    let ghost given = parameters@;
    let mut out = parameters;
    let mut i: usize = 0;
    assert(pairs.take(0) =~= Seq::empty());
    let count: usize = bindings.len();
    proof {
        use_type_invariant(bindings);
        lemma_ordered_pairs_values(*bindings, f);
    }
    while i < count
        invariant
            i <= count,
            start == old(plan)@,
            given == parameters@,
            count == pairs.len(),
            count == ordered_pairs(bindings@).len(),
            f == (|x: Value| x@),
            pairs == ordered_pairs(bindings@.map_values(f)),
            pairs == ordered_pairs(bindings@).map_values(|p: (Seq<char>, Value)| (p.0, f(p.1))),
            with_bindings(start, given, pairs.take(i as int), span, context@) == (plan@, out@),
        decreases count - i,
    {
        let (name, value) = bindings.entry(i);
        proof {
            assert(pairs.take(i + 1).drop_last() =~= pairs.take(i as int));
            assert(pairs.take(i + 1).last() == pairs[i as int]);
            assert(pairs[i as int] == (name@, value@));
        }
        let constant = plan.add_drawn(ActorSpec::Constant(value.clone()), span, context);
        out.insert(name.clone(), constant);
        i += 1;
    }
    assert(pairs.take(i as int) =~= pairs);
    out
}

fn enter_body(
    ctx: &EvaluationContext,
    actor_context: ActorContext,
    registry: &FunctionRegistry,
) -> (r: EvaluationContext)
    ensures
        r@ == body_context(ctx@, actor_context@, registry@),
{
    let mut out = ctx.with_actor_context(actor_context);
    out.function_registry_snapshot = Some(registry.clone());
    out
}

/// What THEN does with a value; `current` holds the values that the parameters have.
pub fn react_to_then(
    plan: &mut Plan,
    body: &SpannedExpression,
    registry: &FunctionRegistry,
    span: Span,
    ctx: &EvaluationContext,
    value: &Value,
    current: &TextMap<Value>,
) -> (r: Option<Reaction>)
    ensures
        then_reaction(
            MOST_NESTED_CALLS as nat,
            old(plan)@,
            body@,
            registry@,
            span,
            ctx@,
            value@,
            current@.map_values(|x: Value| x@),
        ) == (final(plan)@, r),
{
    let c = &ctx.actor_context;
    let input = plan.add_drawn(ActorSpec::Constant(value.clone()), span, c);
    let parameters = freeze(plan, &c.parameters, current, span, c);
    let inner = enter_body(ctx, c.for_snapshot(input, parameters), registry);
    let done = try_evaluate(plan, body, &inner);
    react(done, true, c.hold_state_update_callback)
}

/// What WHEN does with a value that an arm with this body matches.
pub fn react_to_when(
    plan: &mut Plan,
    body: &SpannedExpression,
    registry: &FunctionRegistry,
    span: Span,
    ctx: &EvaluationContext,
    value: &Value,
    current: &TextMap<Value>,
    bindings: &TextMap<Value>,
) -> (r: Option<Reaction>)
    ensures
        when_reaction(
            MOST_NESTED_CALLS as nat,
            old(plan)@,
            body@,
            registry@,
            span,
            ctx@,
            value@,
            current@.map_values(|x: Value| x@),
            bindings@.map_values(|x: Value| x@),
        ) == (final(plan)@, r),
{
    let c = &ctx.actor_context;
    let input = plan.add_drawn(ActorSpec::Constant(value.clone()), span, c);
    let kept = freeze(plan, &c.parameters, current, span, c);
    let parameters = bind_values(plan, kept, bindings, span, c);
    let inner = enter_body(ctx, c.for_snapshot(input, parameters), registry);
    let done = try_evaluate(plan, body, &inner);
    react(done, true, None)
}

/// What WHILE does with a value that the arm of number `arm`, with this body, matches.
pub fn react_to_while(
    plan: &mut Plan,
    body: &SpannedExpression,
    registry: &FunctionRegistry,
    span: Span,
    ctx: &EvaluationContext,
    value: &Value,
    bindings: &TextMap<Value>,
    arm: u64,
    subscription: u64,
) -> (r: Option<Reaction>)
    ensures
        while_reaction(
            MOST_NESTED_CALLS as nat,
            old(plan)@,
            body@,
            registry@,
            span,
            ctx@,
            value@,
            bindings@.map_values(|x: Value| x@),
            arm,
            subscription,
        ) == (final(plan)@, r),
{
    let c = &ctx.actor_context;
    let input = plan.add_drawn(ActorSpec::Constant(value.clone()), span, c);
    let parameters = bind_values(plan, clone_map_u64(&c.parameters), bindings, span, c);
    let inner = enter_body(
        ctx,
        c.for_while_arm(input, parameters, arm, subscription),
        registry,
    );
    let done = try_evaluate(plan, body, &inner);
    react(done, false, None)
}

/// What a call of a function does with a value that is piped in.
pub fn react_to_piped_call(
    plan: &mut Plan,
    body: &SpannedExpression,
    param: &String,
    parameters: &TextMap<u64>,
    span: Span,
    ctx: &EvaluationContext,
    value: &Value,
    invocation: &String,
) -> (r: Option<Reaction>)
    ensures
        piped_call_reaction(
            MOST_NESTED_CALLS as nat,
            old(plan)@,
            body@,
            param@,
            parameters@,
            span,
            ctx@,
            value@,
            invocation@,
        ) == (final(plan)@, r),
{
    let c = &ctx.actor_context;
    let input = plan.add_drawn(ActorSpec::Constant(value.clone()), span, c);
    let mut given = clone_map_u64(parameters);
    given.insert(param.clone(), input);
    let segment = ScopeSegment::Invocation { id: invocation.clone() };
    let inner = ctx.with_actor_context(c.for_call(None, given, segment));
    let done = try_evaluate(plan, body, &inner);
    react(done, true, None)
}

/// The first arm, from one on, whose pattern a value matches up to its numbers.
pub open spec fn arm_matched(arms: Seq<ArmView>, value: ValueView, from: nat) -> Option<
    (nat, PatternMatchView),
>
    decreases arms.len() - from,
{
    if from >= arms.len() {
        None
    } else {
        match matched(arms[from as int].pattern, value) {
            Some(m) => Some((from, m)),
            None => arm_matched(arms, value, from + 1),
        }
    }
}

/// The value of an arm that was found.
pub open spec fn found_arm(r: Option<(usize, PatternMatch)>) -> Option<(nat, PatternMatchView)> {
    match r {
        Some(x) => Some((x.0 as nat, x.1@)),
        None => None,
    }
}

/// The first arm, from `from` on, that a value matches up to its numbers. Where the numbers turn
/// out to differ, the search goes on behind that arm.
pub fn find_arm(arms: &Vec<Arm>, value: &Value, from: usize) -> (r: Option<(usize, PatternMatch)>)
    ensures
        found_arm(r) == arm_matched(arms@.map_values(|x: Arm| x@), value@, from as nat),
{
    let ghost all = arms@.map_values(|x: Arm| x@);
    let mut i: usize = from;
    while i < arms.len()
        invariant
            from <= i,
            i <= arms@.len() || i == from,
            all == arms@.map_values(|x: Arm| x@),
            arm_matched(all, value@, from as nat) == arm_matched(all, value@, i as nat),
        decreases arms@.len() - i,
    {
        assert(all[i as int].pattern == arms@[i as int].pattern@);
        match match_pattern(&arms[i].pattern, value) {
            Some(m) => {
                return Some((i, m));
            },
            None => {},
        }
        i += 1;
    }
    None
}

/// The name of the call of a number.
pub open spec fn call_name(n: nat) -> Seq<char> {
    "call_"@ + nat_text(n)
}

/// The name of the call of a number.
pub fn call_id(n: u64) -> (r: String)
    ensures
        r@ == call_name(n as nat),
{
    let mut out = "call_".to_owned();
    out.append(u64_text(n).as_str());
    out
}

/// The name of an invocation: where calls are recorded it has the number `count`, else it is
/// named by an identity that is drawn.
pub fn invocation_id(context: &ActorContext, count: u64) -> (r: String)
    ensures
        context@.recording_counter is Some ==> r@ == call_name(count as nat),
        context@.recording_counter is None ==> exists|id: u128|
            r@ == "call_"@ + #[trigger] ulid_name(id),
{
    if context.recording_counter.is_some() {
        call_id(count)
    } else {
        let ids = draw_ids(1);
        let id = ids[0];
        let mut out = "call_".to_owned();
        out.append(identity_text(id).as_str());
        assert(out@ == "call_"@ + ulid_name(id.0));
        out
    }
}

/// The calls that are made one after the other have different names.
pub proof fn lemma_call_names_differ(a: nat, b: nat)
    requires
        a != b,
    ensures
        call_name(a) != call_name(b),
{
    let n = "call_"@.len() as int;
    assert(call_name(a).skip(n) =~= nat_text(a));
    assert(call_name(b).skip(n) =~= nat_text(b));
    if call_name(a) == call_name(b) {
        lemma_nat_text_injective(a, b);
    }
}

/// The invocations of a function have scopes of their own: calls of different numbers in one
/// scope have scopes with different names.
pub proof fn lemma_invocation_scopes_differ(
    scope: ScopeView,
    a: nat,
    b: nat,
    drawn: Seq<PersistenceId>,
)
    requires
        a != b,
    ensures
        scope_name(child_scope(scope, ScopeSegmentView::Invocation { id: call_name(a) }), drawn)
            != scope_name(
                child_scope(scope, ScopeSegmentView::Invocation { id: call_name(b) }),
                drawn,
            ),
{
    lemma_call_names_differ(a, b);
    lemma_child_names_differ(
        scope,
        ScopeSegmentView::Invocation { id: call_name(a) },
        ScopeSegmentView::Invocation { id: call_name(b) },
        drawn,
    );
}

/// A restored call has the scope that the call had when it was recorded.
pub proof fn lemma_restored_scope_is_recorded_scope(
    c: ActorContextView,
    span: Span,
    parameters: Map<Seq<char>, u64>,
    restored_parameters: Map<Seq<char>, u64>,
    id: Seq<char>,
    drawn: Seq<PersistenceId>,
)
    ensures
        scope_name(
            restoring_context(recording_context(c, span), restored_parameters, id).scope,
            drawn,
        )
            == scope_name(
            call_body_context(
                recording_context(c, span),
                None,
                parameters,
                ScopeSegmentView::Invocation { id },
            ).scope,
            drawn,
        ),
{
    let s = recording_context(c, span).scope;
    lemma_child_name(s, ScopeSegmentView::Restored { id }, drawn);
    lemma_child_name(s, ScopeSegmentView::Invocation { id }, drawn);
}

/// The function of a name that a context knows.
pub open spec fn function_named(ctx: EvaluationContextView, name: Seq<char>) -> Option<
    StaticFunctionDefinitionView,
> {
    match ctx.function_registry_snapshot {
        Some(registry) => if registry.functions.contains_key(name) {
            Some(registry.functions[name])
        } else {
            None
        },
        None => None,
    }
}

/// Making a recorded call again: with the value that went in as the first parameter of the
/// function. The item that comes of it knows which call it came from. A call is left out where
/// its value cannot be had, where there is no such function, and where its body has no value.
pub open spec fn restored_call(
    depth: nat,
    plan: PlanView,
    call: RecordedCallView,
    span: Span,
    ctx: EvaluationContextView,
) -> (PlanView, Option<u64>) {
    let c = ctx.actor_context;
    match call.input {
        None => (plan, None),
        Some(value) => {
            let p = with_constant(plan, value, span, c);
            match function_named(ctx, joined(call.path, "/"@)) {
                None => (p, None),
                Some(definition) => {
                    let parameters = if definition.parameters.len() == 0 {
                        c.parameters
                    } else {
                        c.parameters.insert(definition.parameters[0], plan_next(plan))
                    };
                    let inner = with_context(
                        ctx,
                        restoring_context(recording_context(c, span), parameters, call.id),
                    );
                    let done = tried(depth, p, definition.body, inner);
                    match done.1 {
                        None => done,
                        Some(source) => (
                            with_drawn(
                                done.0,
                                ActorSpecView::RestoredItem {
                                    source,
                                    storage_key: append_storage_key(span),
                                    call_id: call.id,
                                },
                                span,
                                c,
                            ),
                            Some(plan_next(done.0)),
                        ),
                    }
                },
            }
        },
    }
}

/// Making recorded calls again, in their order: the plan after that, and the items.
pub open spec fn restored_calls(
    depth: nat,
    plan: PlanView,
    calls: Seq<RecordedCallView>,
    span: Span,
    ctx: EvaluationContextView,
) -> (PlanView, Seq<u64>)
    decreases calls.len(),
{
    if calls.len() == 0 {
        (plan, Seq::empty())
    } else {
        let before = restored_calls(depth, plan, calls.drop_last(), span, ctx);
        let done = restored_call(depth, before.0, calls.last(), span, ctx);
        (
            done.0,
            match done.1 {
                Some(item) => before.1.push(item),
                None => before.1,
            },
        )
    }
}

fn find_function<'a>(ctx: &'a EvaluationContext, name: &str) -> (r: Option<
    &'a StaticFunctionDefinition,
>)
    ensures
        match r {
            Some(d) => function_named(ctx@, name@) == Some(d@),
            None => function_named(ctx@, name@) is None,
        },
{
    match &ctx.function_registry_snapshot {
        Some(registry) => registry.functions.get(name),
        None => None,
    }
}

fn restore_call(
    plan: &mut Plan,
    call: &RecordedCall,
    span: Span,
    ctx: &EvaluationContext,
) -> (r: Option<u64>)
    ensures
        restored_call(MOST_NESTED_CALLS as nat, old(plan)@, call@, span, ctx@) == (final(plan)@, r),
{
    let c = &ctx.actor_context;
    let value = match &call.input {
        Some(value) => value,
        None => {
            return None;
        },
    };
    let input = plan.add_drawn(ActorSpec::Constant(value.clone()), span, c);
    let name = join_texts(&call.path, "/");
    let definition = match find_function(ctx, name.as_str()) {
        Some(definition) => definition,
        None => {
            return None;
        },
    };
    let mut parameters = clone_map_u64(&c.parameters);
    if definition.parameters.len() > 0 {
        proof {
            assert(definition@.parameters[0] == definition.parameters@[0]@);
        }
        parameters.insert(definition.parameters[0].clone(), input);
    }
    let recording = c.for_recording(span);
    let inner = ctx.with_actor_context(recording.for_restoring(parameters, call.id.as_str()));
    match try_evaluate(plan, &definition.body, &inner) {
        None => None,
        Some(source) => {
            let item = ActorSpec::RestoredItem {
                source,
                storage_key: list_append_key(span),
                call_id: call.id.clone(),
            };
            Some(plan.add_drawn(item, span, c))
        },
    }
}

/// Makes recorded calls again, in their order. The result is the items that come of them.
pub fn restore_calls(
    plan: &mut Plan,
    calls: &Vec<RecordedCall>,
    span: Span,
    ctx: &EvaluationContext,
) -> (r: Vec<u64>)
    ensures
        restored_calls(
            MOST_NESTED_CALLS as nat,
            old(plan)@,
            calls@.map_values(|x: RecordedCall| x@),
            span,
            ctx@,
        ) == (final(plan)@, r@),
{
    let ghost all = calls@.map_values(|x: RecordedCall| x@);
    let ghost start = plan@;
    let mut items: Vec<u64> = Vec::new();
    let mut i: usize = 0;
    assert(all.take(0) =~= Seq::empty());
    while i < calls.len()
        invariant
            i <= calls@.len(),
            start == old(plan)@,
            all == calls@.map_values(|x: RecordedCall| x@),
            restored_calls(MOST_NESTED_CALLS as nat, start, all.take(i as int), span, ctx@) == (
                plan@,
                items@,
            ),
        decreases calls@.len() - i,
    {
        proof {
            assert(all.take(i + 1).drop_last() =~= all.take(i as int));
            assert(all.take(i + 1).last() == calls@[i as int]@);
        }
        match restore_call(plan, &calls[i], span, ctx) {
            Some(item) => items.push(item),
            None => {},
        }
        i += 1;
    }
    assert(all.take(i as int) =~= all);
    items
}

/// The plan with an item that was appended by the call of a number.
pub open spec fn with_appended(
    plan: PlanView,
    value: ValueView,
    span: Span,
    context: ActorContextView,
    count: nat,
) -> PlanView {
    with_drawn(
        plan,
        ActorSpecView::AppendedItem {
            value,
            storage_key: append_storage_key(span),
            call_id: call_name(count),
        },
        span,
        context,
    )
}

/// Makes an item of a value that is appended; `count` is the number of items before it, those
/// of the recorded calls among them.
pub fn append_item(
    plan: &mut Plan,
    value: &Value,
    span: Span,
    context: &ActorContext,
    count: u64,
) -> (r: u64)
    ensures
        r == plan_next(old(plan)@),
        final(plan)@ == with_appended(old(plan)@, value@, span, context@, count as nat),
{
    let item = ActorSpec::AppendedItem {
        value: value.clone(),
        storage_key: list_append_key(span),
        call_id: call_id(count),
    };
    plan.add_drawn(item, span, context)
}

/// The record of a call, where the context records calls.
pub fn record_call(
    context: &ActorContext,
    path: &Vec<String>,
    invocation: &String,
    value: &Value,
) -> (r: Option<(String, RecordedCall)>)
    ensures
        match r {
            Some(x) => context@.call_recorder == Some(x.0@) && x.1@ == (RecordedCallView {
                id: invocation@,
                path: path@.map_values(|s: String| s@),
                input: Some(value@),
            }),
            None => context@.call_recorder is None,
        },
{
    match &context.call_recorder {
        Some(recorder) => {
            let call = RecordedCall {
                id: invocation.clone(),
                path: clone_vec_text(path),
                input: Some(value.clone()),
            };
            assert(call@.path =~= path@.map_values(|s: String| s@));
            Some((recorder.clone(), call))
        },
        None => None,
    }
}

/// The arm that is found is the first one that matches.
pub proof fn lemma_first_arm(arms: Seq<ArmView>, value: ValueView, from: nat)
    ensures
        match arm_matched(arms, value, from) {
            Some(found) => from <= found.0 < arms.len() && matched(
                arms[found.0 as int].pattern,
                value,
            ) == Some(found.1) && forall|i: int|
                from <= i < found.0 ==> matched((#[trigger] arms[i]).pattern, value) is None,
            None => forall|i: int|
                from <= i < arms.len() ==> matched((#[trigger] arms[i]).pattern, value) is None,
        },
    decreases arms.len() - from,
{
    if from < arms.len() && matched(arms[from as int].pattern, value) is None {
        lemma_first_arm(arms, value, from + 1);
    }
}

/// A frozen parameter that had a value is an actor with that value alone; one that had none
/// stays the actor it was. The actors that were there before stay.
pub proof fn lemma_frozen(
    plan: PlanView,
    parameters: Seq<(Seq<char>, u64)>,
    current: Map<Seq<char>, ValueView>,
    span: Span,
    context: ActorContextView,
)
    requires
        pairs_increase(parameters),
        plan.actors.len() + parameters.len() <= u64::MAX,
    ensures
        ({
            let done = frozen(plan, parameters, current, span, context);
            &&& done.1.dom() == pairs_map(parameters).dom()
            &&& done.0.actors.len() <= plan.actors.len() + parameters.len()
            &&& plan.actors.is_prefix_of(done.0.actors)
            &&& forall|i: int|
                0 <= i < parameters.len() ==> {
                    let name = (#[trigger] parameters[i]).0;
                    if current.contains_key(name) {
                        done.1[name] < done.0.actors.len()
                            && done.0.actors[done.1[name] as int].actor
                            == ActorSpecView::Constant(current[name])
                    } else {
                        done.1[name] == parameters[i].1
                    }
                }
        }),
    decreases parameters.len(),
{
    let done = frozen(plan, parameters, current, span, context);
    if parameters.len() == 0 {
        assert(done.1.dom() =~= pairs_map(parameters).dom());
        assert(plan.actors.is_prefix_of(plan.actors));
    } else {
        let front = parameters.drop_last();
        let last = parameters.len() - 1;
        assert(pairs_increase(front)) by {
            assert forall|i: int, j: int| 0 <= i < j < front.len() implies text_before(
                (#[trigger] front[i]).0,
                (#[trigger] front[j]).0,
            ) by {
                assert(text_before(parameters[i].0, parameters[j].0));
            }
        }
        lemma_frozen(plan, front, current, span, context);
        let before = frozen(plan, front, current, span, context);
        assert forall|k: Seq<char>| done.1.dom().contains(k) == pairs_map(
            parameters,
        ).dom().contains(k) by {
            if pairs_map(parameters).dom().contains(k) {
                let i = choose|i: int| 0 <= i < parameters.len() && (#[trigger] parameters[i]).0 == k;
                if i < last {
                    assert(front[i].0 == k);
                }
            }
            if pairs_map(front).dom().contains(k) {
                let i = choose|i: int| 0 <= i < front.len() && (#[trigger] front[i]).0 == k;
                assert(parameters[i].0 == k);
            }
            assert(parameters[last].0 == parameters.last().0);
        }
        assert(done.1.dom() =~= pairs_map(parameters).dom());
        assert forall|i: int| 0 <= i < parameters.len() implies {
            let name = (#[trigger] parameters[i]).0;
            if current.contains_key(name) {
                done.1[name] < done.0.actors.len() && done.0.actors[done.1[name] as int].actor
                    == ActorSpecView::Constant(current[name])
            } else {
                done.1[name] == parameters[i].1
            }
        } by {
            if i < last {
                assert(front[i] == parameters[i]);
                assert(text_before(parameters[i].0, parameters[last].0));
                lemma_text_before_total(parameters[i].0, parameters[i].0);
            }
        }
    }
}

/// THEN is WHEN with one arm that takes any value: the arm is chosen for every value, and the
/// same follows. A HOLD around is told of it at once by THEN alone.
pub proof fn lemma_then_is_when_without_arms(
    depth: nat,
    plan: PlanView,
    body: SpannedExpressionView,
    registry: FunctionRegistryView,
    span: Span,
    ctx: EvaluationContextView,
    value: ValueView,
    current: Map<Seq<char>, ValueView>,
)
    ensures
        arm_matched(seq![ArmView { pattern: PatternView::WildCard, body }], value, 0) == Some(
            (0nat, plain_match()),
        ),
        ({
            let then = then_reaction(depth, plan, body, registry, span, ctx, value, current);
            let when = when_reaction(
                depth,
                plan,
                body,
                registry,
                span,
                ctx,
                value,
                current,
                plain_match().bindings,
            );
            &&& then.0 == when.0
            &&& then.1 is Some <==> when.1 is Some
            &&& then.1 is Some ==> then.1->0.actor == when.1->0.actor && then.1->0.single
                == when.1->0.single
        }),
{
    let arms = seq![ArmView { pattern: PatternView::WildCard, body }];
    assert(arms[0].pattern == PatternView::WildCard);
    let none = Seq::<(Seq<char>, ValueView)>::empty();
    assert(pairs_map(none) =~= Map::<Seq<char>, ValueView>::empty());
    lemma_ordered_pairs(none);
}

/// What a pattern binds is seen as an actor with that value alone; a parameter of another name
/// stays the actor it was, whose values go on to flow.
pub proof fn lemma_bindings_seen(
    plan: PlanView,
    parameters: Map<Seq<char>, u64>,
    bindings: Seq<(Seq<char>, ValueView)>,
    span: Span,
    context: ActorContextView,
)
    requires
        pairs_increase(bindings),
        plan.actors.len() + bindings.len() <= u64::MAX,
    ensures
        ({
            let done = with_bindings(plan, parameters, bindings, span, context);
            &&& done.0.actors.len() == plan.actors.len() + bindings.len()
            &&& plan.actors.is_prefix_of(done.0.actors)
            &&& forall|name: Seq<char>|
                !pairs_map(bindings).contains_key(name) ==> (#[trigger] done.1.contains_key(name)
                    <==> parameters.contains_key(name)) && done.1[name] == parameters[name]
            &&& forall|i: int|
                0 <= i < bindings.len() ==> {
                    let name = (#[trigger] bindings[i]).0;
                    &&& done.1.contains_key(name)
                    &&& done.1[name] < done.0.actors.len()
                    &&& done.0.actors[done.1[name] as int].actor == ActorSpecView::Constant(
                        bindings[i].1,
                    )
                }
        }),
    decreases bindings.len(),
{
    let done = with_bindings(plan, parameters, bindings, span, context);
    if bindings.len() == 0 {
        assert(plan.actors.is_prefix_of(plan.actors));
    } else {
        let front = bindings.drop_last();
        let last = bindings.len() - 1;
        assert(pairs_increase(front)) by {
            assert forall|i: int, j: int| 0 <= i < j < front.len() implies text_before(
                (#[trigger] front[i]).0,
                (#[trigger] front[j]).0,
            ) by {
                assert(text_before(bindings[i].0, bindings[j].0));
            }
        }
        lemma_bindings_seen(plan, parameters, front, span, context);
        let before = with_bindings(plan, parameters, front, span, context);
        assert forall|name: Seq<char>| !pairs_map(bindings).contains_key(name) implies (
        #[trigger] done.1.contains_key(name) <==> parameters.contains_key(name)) && done.1[name]
            == parameters[name] by {
            assert(bindings[last].0 != name);
            if pairs_map(front).contains_key(name) {
                let i = choose|i: int| 0 <= i < front.len() && (#[trigger] front[i]).0 == name;
                assert(bindings[i].0 == name);
            }
            assert(before.1.contains_key(name) <==> parameters.contains_key(name));
        }
        assert forall|i: int| 0 <= i < bindings.len() implies {
            let name = (#[trigger] bindings[i]).0;
            &&& done.1.contains_key(name)
            &&& done.1[name] < done.0.actors.len()
            &&& done.0.actors[done.1[name] as int].actor == ActorSpecView::Constant(bindings[i].1)
        } by {
            if i < last {
                assert(front[i] == bindings[i]);
                assert(text_before(bindings[i].0, bindings[last].0));
                lemma_text_before_total(bindings[i].0, bindings[i].0);
            }
        }
    }
}

} // verus!
