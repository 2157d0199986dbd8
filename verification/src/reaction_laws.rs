//! What follows from the values that come in.
use crate::builtins::joined;
use crate::evaluation::evaluated;
use crate::expression_view::{
    ArmView, LiteralView, PatternVariableView, PatternView, SpannedExpressionView,
    StaticFunctionDefinitionView,
};
use crate::fields::{field_at, link_at};
use crate::matching::{
    both_matches, entries_matched, fields_matched, matched, named_field, variable_matched,
};
use crate::plan::PersistenceKey;
use crate::plan_view::{
    ActorContextView, ActorNodeView, ActorSpecView, EvaluationContextView, FunctionRegistryView,
    PlanView, RecordedCallView, ScopeSegmentView, ScopeView,
};
use crate::reactions::{
    Reaction, arm_matched, frozen, piped_call_reaction, restored_call, restored_calls,
    then_reaction, tried, when_reaction, while_reaction, with_bindings,
};
use crate::static_expression::Span;
use crate::text::nat_text;
use crate::text_map::ordered_pairs;
use crate::value::{FieldView, ListEntryView, ValueView};
use vstd::prelude::*;

verus! {

/// A body is evaluated as any expression; one that cannot be evaluated gives nothing and leaves
/// the plan as it was.
pub proof fn lemma_tried_bodies(
    depth: nat,
    plan: PlanView,
    e: SpannedExpressionView,
    ctx: EvaluationContextView,
)
    ensures
        match evaluated(depth, plan, e, ctx) {
            Ok(done) => tried(depth, plan, e, ctx) == done,
            Err(_) => tried(depth, plan, e, ctx) == (plan, None::<u64>),
        },
{
    reveal(tried);
}

/// Whether a reaction is to the body that was evaluated: to its actor, where it has one.
pub open spec fn reacts_to(
    reaction: (PlanView, Option<Reaction>),
    body: (PlanView, Option<u64>),
    single: bool,
    updates: Option<u64>,
) -> bool {
    &&& reaction.0 == body.0
    &&& reaction.1 is Some <==> body.1 is Some
    &&& reaction.1 matches Some(r) ==> r.actor == body.1->0 && r.single == single && r.updates
        == updates
}

/// THEN and WHEN react to a value with the first value of a body that sees the value piped in and
/// parameters that keep the values they have; WHEN adds what the pattern of its arm binds. THEN
/// alone tells a HOLD around of it.
pub proof fn lemma_single_reactions(
    depth: nat,
    plan: PlanView,
    body: SpannedExpressionView,
    registry: FunctionRegistryView,
    span: Span,
    ctx: EvaluationContextView,
    value: ValueView,
    current: Map<Seq<char>, ValueView>,
    bindings: Map<Seq<char>, ValueView>,
)
    ensures
        ({
            let c = ctx.actor_context;
            let given = PlanView {
                actors: plan.actors.push(
                    ActorNodeView {
                        actor: ActorSpecView::Constant(value),
                        key: PersistenceKey::Fresh(plan.fresh),
                        span,
                        context: c,
                    },
                ),
                registrations: plan.registrations,
                fresh: plan.fresh.wrapping_add(1),
            };
            let kept = frozen(given, ordered_pairs(c.parameters), current, span, c);
            let more = with_bindings(kept.0, kept.1, ordered_pairs(bindings), span, c);
            let inner = |parameters: Map<Seq<char>, u64>|
                EvaluationContextView {
                    actor_context: ActorContextView {
                        piped: Some(plan.actors.len() as u64),
                        parameters,
                        hold_state_update_callback: None,
                        is_snapshot_context: true,
                        subscription_time: None,
                        ..c
                    },
                    function_registry_snapshot: Some(registry),
                    ..ctx
                };
            &&& reacts_to(
                then_reaction(depth, plan, body, registry, span, ctx, value, current),
                tried(depth, kept.0, body, inner(kept.1)),
                true,
                c.hold_state_update_callback,
            )
            &&& reacts_to(
                when_reaction(depth, plan, body, registry, span, ctx, value, current, bindings),
                tried(depth, more.0, body, inner(more.1)),
                true,
                None,
            )
        }),
{
}

/// WHILE reacts to a value with all values of the body of its arm, which sees the value piped in
/// and the parameters as they are, so that they go on to change, with what the pattern binds. The
/// body has a scope of its own for its arm.
pub proof fn lemma_continuous_reaction(
    depth: nat,
    plan: PlanView,
    body: SpannedExpressionView,
    registry: FunctionRegistryView,
    span: Span,
    ctx: EvaluationContextView,
    value: ValueView,
    bindings: Map<Seq<char>, ValueView>,
    arm: u64,
    subscription: u64,
)
    ensures
        ({
            let c = ctx.actor_context;
            let given = PlanView {
                actors: plan.actors.push(
                    ActorNodeView {
                        actor: ActorSpecView::Constant(value),
                        key: PersistenceKey::Fresh(plan.fresh),
                        span,
                        context: c,
                    },
                ),
                registrations: plan.registrations,
                fresh: plan.fresh.wrapping_add(1),
            };
            let more = with_bindings(given, c.parameters, ordered_pairs(bindings), span, c);
            let inner = EvaluationContextView {
                actor_context: ActorContextView {
                    piped: Some(plan.actors.len() as u64),
                    parameters: more.1,
                    is_snapshot_context: false,
                    scope: ScopeView {
                        segments: c.scope.segments.push(ScopeSegmentView::WhileArm { index: arm }),
                    },
                    subscription_scope: Some(subscription),
                    subscription_time: None,
                    ..c
                },
                function_registry_snapshot: Some(registry),
                ..ctx
            };
            reacts_to(
                while_reaction(
                    depth,
                    plan,
                    body,
                    registry,
                    span,
                    ctx,
                    value,
                    bindings,
                    arm,
                    subscription,
                ),
                tried(depth, more.0, body, inner),
                false,
                None,
            )
        }),
{
}

/// While nothing is bound, the parameters that the body of an arm of WHILE sees are the actors of
/// the parameters around, whatever values these have; what is piped in is the value.
pub proof fn lemma_parameters_stay_live(
    plan: PlanView,
    parameters: Map<Seq<char>, u64>,
    span: Span,
    context: ActorContextView,
)
    ensures
        with_bindings(plan, parameters, Seq::empty(), span, context) == (plan, parameters),
        frozen(plan, Seq::empty(), Map::empty(), span, context) == (
            plan,
            Map::<Seq<char>, u64>::empty(),
        ),
{
}

/// A call of a function with a parameter for what is piped in evaluates its body anew for each
/// value, with the value as that parameter, the other parameters as they are given, nothing piped
/// in, and a scope of the invocation.
pub proof fn lemma_call_reaction(
    depth: nat,
    plan: PlanView,
    body: SpannedExpressionView,
    param: Seq<char>,
    parameters: Map<Seq<char>, u64>,
    span: Span,
    ctx: EvaluationContextView,
    value: ValueView,
    invocation: Seq<char>,
)
    ensures
        ({
            let c = ctx.actor_context;
            let given = PlanView {
                actors: plan.actors.push(
                    ActorNodeView {
                        actor: ActorSpecView::Constant(value),
                        key: PersistenceKey::Fresh(plan.fresh),
                        span,
                        context: c,
                    },
                ),
                registrations: plan.registrations,
                fresh: plan.fresh.wrapping_add(1),
            };
            let inner = EvaluationContextView {
                actor_context: ActorContextView {
                    piped: None,
                    parameters: parameters.insert(param, plan.actors.len() as u64),
                    hold_state_update_callback: None,
                    is_snapshot_context: false,
                    object_locals: Map::empty(),
                    scope: ScopeView {
                        segments: c.scope.segments.push(
                            ScopeSegmentView::Invocation { id: invocation },
                        ),
                    },
                    ..c
                },
                ..ctx
            };
            reacts_to(
                piped_call_reaction(
                    depth,
                    plan,
                    body,
                    param,
                    parameters,
                    span,
                    ctx,
                    value,
                    invocation,
                ),
                tried(depth, given, body, inner),
                true,
                None,
            )
        }),
{
}

/// The first arm whose pattern a value matches is the one that is chosen; further arms do not
/// matter, and an arm before it that matches comes first.
pub proof fn lemma_arms_in_order(
    arms: Seq<ArmView>,
    last: ArmView,
    first: ArmView,
    value: ValueView,
)
    ensures
        arm_matched(Seq::empty(), value, 0) is None,
        matched(first.pattern, value) is Some ==> arm_matched(seq![first] + arms, value, 0) == Some(
            (0nat, matched(first.pattern, value)->0),
        ),
        arm_matched(arms, value, 0) is Some ==> arm_matched(arms.push(last), value, 0)
            == arm_matched(arms, value, 0),
        arm_matched(arms, value, 0) is None && matched(last.pattern, value) is Some
            ==> arm_matched(arms.push(last), value, 0) == Some(
            (arms.len(), matched(last.pattern, value)->0),
        ),
        arm_matched(arms, value, 0) is None && matched(last.pattern, value) is None
            ==> arm_matched(arms.push(last), value, 0) is None,
{
    assert((seq![first] + arms)[0] == first);
    lemma_more_arms(arms, last, value, 0);
}

proof fn lemma_more_arms(arms: Seq<ArmView>, last: ArmView, value: ValueView, from: nat)
    requires
        from <= arms.len(),
    ensures
        arm_matched(arms, value, from) is Some ==> arm_matched(arms.push(last), value, from)
            == arm_matched(arms, value, from),
        arm_matched(arms, value, from) is None && matched(last.pattern, value) is Some
            ==> arm_matched(arms.push(last), value, from) == Some(
            (arms.len(), matched(last.pattern, value)->0),
        ),
        arm_matched(arms, value, from) is None && matched(last.pattern, value) is None
            ==> arm_matched(arms.push(last), value, from) is None,
    decreases arms.len() - from,
{
    let more = arms.push(last);
    if from < arms.len() {
        assert(more[from as int] == arms[from as int]);
        lemma_more_arms(arms, last, value, from + 1);
    } else {
        assert(more[from as int] == last);
        assert(arm_matched(more, value, from + 1) is None);
    }
}

/// What patterns match: a wild card everything, a name everything, which it binds, and a literal
/// the value that it is; of numbers it is left open whether they are equal.
pub proof fn lemma_simple_patterns(
    value: ValueView,
    name: Seq<char>,
    text: Seq<char>,
    n: u64,
    k: u64,
)
    ensures
        ({
            let tag = PatternView::Literal(LiteralView::Tag(text));
            let word = PatternView::Literal(LiteralView::Text(text));
            let number = PatternView::Literal(LiteralView::Number(n));
            &&& matched(PatternView::WildCard, value) matches Some(m) && m.bindings == Map::<
                Seq<char>,
                ValueView,
            >::empty() && m.numbers.len() == 0
            &&& matched(PatternView::Alias { name }, value) matches Some(m) && m.bindings
                == Map::<Seq<char>, ValueView>::empty().insert(name, value) && m.numbers.len() == 0
            &&& matched(tag, value) is Some <==> value == ValueView::Tag(text)
            &&& matched(word, value) is Some <==> value == ValueView::Text(text)
            &&& matched(number, value) is Some <==> value is Number
            &&& matched(number, ValueView::Number(k)) matches Some(m) && m.numbers == seq![(n, k)]
                && m.bindings == Map::<Seq<char>, ValueView>::empty()
            &&& matched(tag, ValueView::Tag(text)) matches Some(m) && m.numbers.len() == 0
                && m.bindings == Map::<Seq<char>, ValueView>::empty()
        }),
{
}

/// An object matches a pattern if each field that the pattern names is there with a value that its
/// own pattern matches; a field without a pattern is bound by its name. A tagged object has to have
/// the tag, and a list as many items as the pattern.
pub proof fn lemma_patterns_of_objects(
    variables: Seq<PatternVariableView>,
    last: PatternVariableView,
    fields: Seq<FieldView>,
    tag: Seq<char>,
    other: Seq<char>,
    patterns: Seq<PatternView>,
    entries: Seq<ListEntryView>,
    i: int,
)
    requires
        0 <= i < fields.len(),
        fields[i].name == last.name,
        forall|j: int| 0 <= j < i ==> (#[trigger] fields[j]).name != last.name,
    ensures
        ({
            let object = ValueView::Object { fields };
            let tagged = ValueView::TaggedObject { tag, fields };
            let of = |v: Seq<PatternVariableView>| matched(
                PatternView::Object { variables: v },
                object,
            );
            let with_tag = |t: Seq<char>|
                matched(PatternView::TaggedObject { tag: t, variables }, tagged);
            let own = match fields[i].value {
                Some(value) => match last.value {
                    Some(pattern) => matched(pattern, value),
                    None => matched(PatternView::Alias { name: last.name }, value),
                },
                None => None,
            };
            &&& of(Seq::empty()) is Some
            &&& of(variables.push(last)) is Some <==> of(variables) is Some && own is Some
            &&& of(variables.push(last)) is Some ==> of(variables.push(last))->0.bindings == of(
                variables,
            )->0.bindings.union_prefer_right(own->0.bindings)
            &&& with_tag(tag) == of(variables)
            &&& other != tag ==> with_tag(other) is None
            &&& matched(PatternView::TaggedObject { tag, variables }, object) is None
            &&& matched(PatternView::Object { variables }, tagged) == of(variables)
            &&& entries.len() != patterns.len() ==> matched(
                PatternView::List { items: patterns },
                ValueView::List { items: entries },
            ) is None
            &&& matched(PatternView::List { items: patterns }, object) is None
        }),
{
    lemma_field_found(fields, last.name, i);
    let more = variables.push(last);
    let named = PatternView::Alias { name: last.name };
    assert(more.drop_last() =~= variables);
    assert(more[variables.len() as int] == last);
    reveal_with_fuel(fields_matched, 2);
    reveal_with_fuel(variable_matched, 2);
    reveal_with_fuel(matched, 3);
    assert(variable_matched(last, fields) == match fields[i].value {
        Some(value) => match last.value {
            Some(pattern) => matched(pattern, value),
            None => matched(named, value),
        },
        None => None,
    });
    assert(fields_matched(more, fields) == match (
        fields_matched(variables, fields),
        variable_matched(last, fields),
    ) {
        (Some(a), Some(b)) => Some(both_matches(a, b)),
        _ => None,
    });
}

proof fn lemma_field_found(fields: Seq<FieldView>, name: Seq<char>, i: int)
    requires
        0 <= i < fields.len(),
        fields[i].name == name,
        forall|j: int| 0 <= j < i ==> (#[trigger] fields[j]).name != name,
    ensures
        named_field(fields, name) == Some(fields[i]),
    decreases i,
{
    if i > 0 {
        assert(fields[0].name != name);
        let rest = fields.skip(1);
        assert forall|j: int| 0 <= j < i - 1 implies (#[trigger] rest[j]).name != name by {
            assert(fields[j + 1].name != name);
        }
        lemma_field_found(rest, name, i - 1);
    }
}

/// The items of a list are matched one by one.
pub proof fn lemma_patterns_of_lists(
    patterns: Seq<PatternView>,
    last: PatternView,
    entries: Seq<ListEntryView>,
    value: ValueView,
)
    requires
        entries.len() == patterns.len(),
    ensures
        ({
            let of = |p: Seq<PatternView>, e: Seq<ListEntryView>|
                matched(PatternView::List { items: p }, ValueView::List { items: e });
            let longer = of(
                patterns.push(last),
                entries.push(ListEntryView { value: Some(value) }),
            );
            &&& longer is Some <==> of(patterns, entries) is Some && matched(last, value) is Some
            &&& longer is Some ==> longer->0.bindings == of(
                patterns,
                entries,
            )->0.bindings.union_prefer_right(matched(last, value)->0.bindings)
            &&& of(patterns.push(last), entries.push(ListEntryView { value: None })) is None
            &&& of(Seq::empty(), Seq::empty()) is Some
        }),
{
    let full = entries.push(ListEntryView { value: Some(value) });
    let hollow = entries.push(ListEntryView { value: None });
    assert(patterns.push(last).drop_last() =~= patterns);
    assert(patterns.push(last)[patterns.len() as int] == last);
    lemma_entries_before(patterns, entries, full);
    lemma_entries_before(patterns, entries, hollow);
}

proof fn lemma_entries_before(
    patterns: Seq<PatternView>,
    a: Seq<ListEntryView>,
    b: Seq<ListEntryView>,
)
    requires
        patterns.len() <= a.len(),
        patterns.len() <= b.len(),
        forall|i: int| 0 <= i < patterns.len() ==> #[trigger] a[i] == b[i],
    ensures
        entries_matched(patterns, a) == entries_matched(patterns, b),
    decreases patterns.len(),
{
    if patterns.len() > 0 {
        lemma_entries_before(patterns.drop_last(), a, b);
        assert(a[patterns.len() - 1] == b[patterns.len() - 1]);
    }
}

/// A path of fields leads to the value of the first field of that name, and on from there; a link
/// is that of its field. What is no object has no fields.
pub proof fn lemma_field_paths(
    fields: Seq<FieldView>,
    i: int,
    rest: Seq<Seq<char>>,
    value: ValueView,
    text: Seq<char>,
)
    requires
        0 <= i < fields.len(),
        forall|j: int| 0 <= j < i ==> (#[trigger] fields[j]).name != fields[i].name,
    ensures
        ({
            let object = ValueView::Object { fields };
            let name = fields[i].name;
            &&& field_at(value, Seq::empty()) == Some(value)
            &&& field_at(object, seq![name]) == fields[i].value
            &&& fields[i].value matches Some(inner) ==> field_at(object, seq![name] + rest)
                == field_at(inner, rest)
            &&& fields[i].value is None ==> field_at(object, seq![name] + rest) is None
            &&& link_at(object, seq![name]) == fields[i].link
            &&& link_at(object, Seq::empty()) is None
            &&& field_at(ValueView::Text(text), seq![name] + rest) is None
        }),
{
    let object = ValueView::Object { fields };
    let name = fields[i].name;
    lemma_field_found(fields, name, i);
    reveal_with_fuel(field_at, 3);
    assert((seq![name] + rest).skip(1) =~= rest);
    assert((seq![name] + rest)[0] == name);
    assert(seq![name].skip(1) =~= Seq::<Seq<char>>::empty());
    assert(seq![name].drop_last() =~= Seq::<Seq<char>>::empty());
}

/// A recorded call is made again with the value that went in as the first parameter, in the scope
/// of its name; the item that comes of it knows which call it was. Calls without a value, and calls
/// of what is no longer there, make no item.
pub proof fn lemma_restored_calls(
    depth: nat,
    plan: PlanView,
    calls: Seq<RecordedCallView>,
    call: RecordedCallView,
    value: ValueView,
    definition: StaticFunctionDefinitionView,
    span: Span,
    ctx: EvaluationContextView,
)
    ensures
        ({
            let before = restored_calls(depth, plan, calls, span, ctx);
            let after = restored_calls(depth, plan, calls.push(call), span, ctx);
            let one = restored_call(depth, before.0, call, span, ctx);
            &&& after.0 == one.0
            &&& one.1 is Some ==> after.1 == before.1.push(one.1->0)
            &&& one.1 is None ==> after.1 == before.1
            &&& call.input is None ==> restored_call(depth, plan, call, span, ctx) == (
                plan,
                None::<u64>,
            )
        }),
        ({
            let name = joined(call.path, "/"@);
            let known = ctx.function_registry_snapshot is Some
                && ctx.function_registry_snapshot->0.functions.contains_key(name);
            let c = ctx.actor_context;
            let key = "list_calls:list_append_"@ + (nat_text(span.start as nat) + ".."@ + nat_text(
                span.end as nat,
            ));
            let given = PlanView {
                actors: plan.actors.push(
                    ActorNodeView {
                        actor: ActorSpecView::Constant(value),
                        key: PersistenceKey::Fresh(plan.fresh),
                        span,
                        context: c,
                    },
                ),
                registrations: plan.registrations,
                fresh: plan.fresh.wrapping_add(1),
            };
            let inner = EvaluationContextView {
                actor_context: ActorContextView {
                    parameters: c.parameters.insert(
                        definition.parameters[0],
                        plan.actors.len() as u64,
                    ),
                    scope: ScopeView {
                        segments: c.scope.segments.push(
                            ScopeSegmentView::ListAppend { span },
                        ).push(ScopeSegmentView::Restored { id: call.id }),
                    },
                    call_recorder: Some(key),
                    list_append_storage_key: Some(key),
                    recording_counter: Some(key),
                    is_restoring: true,
                    ..c
                },
                ..ctx
            };
            let body = tried(depth, given, definition.body, inner);
            let done = restored_call(depth, plan, call, span, ctx);
            call.input == Some(value) ==> {
                &&& !known ==> done.1 is None
                &&& known && ctx.function_registry_snapshot->0.functions[name] == definition
                    && definition.parameters.len() > 0 ==> {
                    &&& body.1 is None ==> done.1 is None
                    &&& body.1 is Some ==> {
                        &&& done.1 == Some(body.0.actors.len() as u64)
                        &&& done.0.actors.len() == body.0.actors.len() + 1
                        &&& done.0.actors.last().actor == (ActorSpecView::RestoredItem {
                            source: body.1->0,
                            storage_key: key,
                            call_id: call.id,
                        })
                    }
                }
            }
        }),
{
    assert(calls.push(call).drop_last() =~= calls);
}

} // verus!
