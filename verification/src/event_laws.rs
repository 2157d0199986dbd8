//! What events and facts do, and what is rendered after them.
use crate::actions::{StoreView, action_step, text_steps};
use crate::derived::{
    derive_pass, derive_passes, derived_value, lemma_refreshed_changes_derived_scalars_alone,
    reads, refreshed, target,
};
use crate::render::tree;
use crate::runtime::{
    AttachedPort, ExecEventBindingView, ExecFactBindingView, RenderRequestView, RuntimeView,
    dispatched, event_effects, events_step, fact_scalars, fact_step, facts_step, initial_state,
    node_sources, port_actions, port_nodes, port_sources, request_after,
};
use crate::scene::{
    EventPortId, NodeId, UiEventKind, UiEventView, UiFactKindView, UiFactView, keydown_text,
    primary_payload,
};
use crate::semantic_ir::{DerivedArithmeticOp, IntCompareOp, SemanticFactKind};
use crate::semantic_view::{
    DerivedScalarOperandView, DerivedScalarSpecView, ObjectListFilterView, ObjectListItemView,
    RuntimeModelView, SemanticActionView, SemanticProgramView, TextListFilterView, TextUpdateView,
};
use crate::values::{
    StateView, compares, list_at, operand_value, passing_items, passing_texts, scalar_at, text_at,
};
use vstd::prelude::*;

verus! {

/// The events of a batch are handled one after the other: one at a port with an action does that
/// action on what the ones before it have left, one at another port does nothing.
pub proof fn lemma_events_in_order(
    s: StoreView,
    actions: Map<u128, SemanticActionView>,
    events: Seq<UiEventView>,
    last: UiEventView,
)
    ensures
        ({
            let before = events_step(s, actions, events, events.len());
            let after = events_step(s, actions, events.push(last), events.len() + 1);
            let done = action_step(before.0, actions[last.target.0], last);
            &&& events_step(s, actions, Seq::empty(), 0) == (s, false)
            &&& actions.contains_key(last.target.0) ==> after == (done.0, before.1 || done.1)
            &&& !actions.contains_key(last.target.0) ==> after == before
        }),
{
    lemma_first_events(s, actions, events, last, events.len());
    assert(events.push(last)[events.len() as int] == last);
}

proof fn lemma_first_events(
    s: StoreView,
    actions: Map<u128, SemanticActionView>,
    events: Seq<UiEventView>,
    last: UiEventView,
    n: nat,
)
    requires
        n <= events.len(),
    ensures
        events_step(s, actions, events.push(last), n) == events_step(s, actions, events, n),
    decreases n,
{
    if n > 0 {
        lemma_first_events(s, actions, events, last, (n - 1) as nat);
        assert(events.push(last)[n - 1] == events[n - 1]);
    }
}

/// A single event in a running program: its action is done, what is derived follows where anything
/// has changed, and the program is rendered again just then.
pub proof fn lemma_single_event(r: RuntimeView, event: UiEventView)
    requires
        r.active_program is Some,
    ensures
        ({
            let after = dispatched(r, seq![event]);
            let bound = r.actions.contains_key(event.target.0);
            let done = action_step(r.store, r.actions[event.target.0], event);
            let state = after.0.store.state;
            &&& after.0.event_history == r.event_history.push(seq![event])
            &&& after.0.fact_history == r.fact_history
            &&& after.0.active_program == r.active_program
            &&& !bound ==> {
                &&& !after.1
                &&& state.scalar_values == r.store.state.scalar_values
                &&& state.text_values == r.store.state.text_values
                &&& state.text_lists == r.store.state.text_lists
                &&& state.object_lists == r.store.state.object_lists
            }
            &&& bound ==> {
                &&& after.1 == done.1
                &&& state.text_values == done.0.state.text_values
                &&& state.text_lists == done.0.state.text_lists
                &&& state.object_lists == done.0.state.object_lists
                &&& done.1 ==> state.scalar_values == refreshed(done.0.state).scalar_values
                &&& !done.1 ==> state.scalar_values == done.0.state.scalar_values
            }
            &&& after.1 ==> request_after(after.0, after.1) == RenderRequestView::Program(
                SemanticProgramView {
                    root: tree(
                        after.0.store.state,
                        None,
                        r.active_program->0.root,
                        Seq::empty(),
                        None,
                    ),
                    runtime: r.active_program->0.runtime,
                },
            )
            &&& !after.1 ==> request_after(after.0, after.1) == RenderRequestView::Nothing
        }),
{
    reveal_with_fuel(events_step, 2);
    let done = action_step(r.store, r.actions[event.target.0], event);
    if r.actions.contains_key(event.target.0) && done.1 {
        lemma_refreshed_changes_derived_scalars_alone(done.0.state, Seq::empty());
    }
    assert(seq![event][0] == event);
    assert(seq![event].last() == event);
}

/// What the last event of a batch says about its element: what is typed is the draft, and the text
/// of the element that the port belongs to; a key may bring the text along; getting and losing the
/// focus is noted. Other elements keep their texts.
pub proof fn lemma_last_event_is_noted(
    r: RuntimeView,
    events: Seq<UiEventView>,
    last: UiEventView,
    other: Seq<char>,
)
    ensures
        ({
            let after = event_effects(r, events.push(last));
            let bound = r.input_bindings.contains_key(last.target.0);
            let binding = r.input_bindings[last.target.0];
            let typed = match last.kind {
                UiEventKind::Input | UiEventKind::Change => Some(
                    match primary_payload(last) {
                        Some(payload) => payload,
                        None => Seq::empty(),
                    },
                ),
                UiEventKind::KeyDown => keydown_text(last),
                _ => None,
            };
            let texts = after.store.state.input_texts;
            &&& typed is Some ==> after.store.draft_text == typed->0
            &&& typed is Some && bound ==> texts.contains_key(binding) && texts[binding] == typed->0
            &&& typed is None || !bound ==> texts == r.store.state.input_texts
            &&& bound && other != binding ==> text_at(texts, other) == text_at(
                r.store.state.input_texts,
                other,
            )
            &&& typed is None ==> after.store.draft_text == r.store.draft_text
            &&& last.kind == UiEventKind::Focus ==> after.focused
            &&& last.kind == UiEventKind::Blur ==> !after.focused
            &&& last.kind != UiEventKind::Focus && last.kind != UiEventKind::Blur ==> after.focused
                == r.focused
            &&& after.store.state.scalar_values == r.store.state.scalar_values
            &&& after.store.state.text_values == r.store.state.text_values
            &&& after.store.state.text_lists == r.store.state.text_lists
            &&& after.store.state.object_lists == r.store.state.object_lists
            &&& event_effects(r, Seq::empty()) == r
        }),
{
    assert(events.push(last).last() == last);
}

/// What is typed is there for the next action: after an event that brings a text into an element,
/// an action that takes the text of that element over finds it.
pub proof fn lemma_typed_text_is_found(
    r: RuntimeView,
    text: Seq<char>,
    target: EventPortId,
    source: Seq<char>,
    binding: Seq<char>,
    next: UiEventView,
)
    requires
        r.input_bindings.contains_key(target.0),
        r.input_bindings[target.0] == source,
    ensures
        ({
            let event = UiEventView { target, kind: UiEventKind::Input, payload: Some(text) };
            let store = event_effects(r, seq![event]).store;
            let update = TextUpdateView::SetFromInput {
                binding,
                source_binding: source,
                payload_filter: None,
            };
            let after = action_step(
                store,
                SemanticActionView::UpdateTexts { updates: seq![update] },
                next,
            );
            text_at(after.0.state.text_values, binding) == text
        }),
{
    let event = UiEventView { target, kind: UiEventKind::Input, payload: Some(text) };
    assert(seq![event].last() == event);
    let update = TextUpdateView::SetFromInput {
        binding,
        source_binding: source,
        payload_filter: None,
    };
    reveal_with_fuel(text_steps, 2);
    assert(seq![update].drop_last() =~= Seq::<TextUpdateView>::empty());
    assert(seq![update].last() == update);
}

/// What facts say is noted: a draft is the draft, and the text of its element; the focus is noted
/// and, as hovering is, kept in the scalar of the element, as one or zero. Other facts change
/// nothing.
pub proof fn lemma_facts_are_noted(
    r: RuntimeView,
    id: NodeId,
    text: Seq<char>,
    flag: bool,
    other: Seq<char>,
    name: Seq<char>,
    value: Seq<char>,
)
    ensures
        ({
            let drafted = fact_step(r, UiFactView { id, kind: UiFactKindView::DraftText(text) });
            let focused = fact_step(r, UiFactView { id, kind: UiFactKindView::Focused(flag) });
            let hovered = fact_step(r, UiFactView { id, kind: UiFactKindView::Hovered(flag) });
            let custom = fact_step(
                r,
                UiFactView { id, kind: UiFactKindView::Custom { name, value } },
            );
            let sized = fact_step(
                r,
                UiFactView { id, kind: UiFactKindView::LayoutSize { width: name, height: value } },
            );
            let texts = drafted.0.store.state.input_texts;
            let was = r.store.state;
            let one = if flag {
                1i64
            } else {
                0
            };
            &&& drafted.0.store.draft_text == text
            &&& r.input_nodes.contains_key(id.0) ==> {
                let binding = r.input_nodes[id.0];
                &&& texts.contains_key(binding) && texts[binding] == text
                &&& other != binding ==> text_at(texts, other) == text_at(was.input_texts, other)
                &&& drafted.1 == (r.store.draft_text != text || text_at(was.input_texts, binding)
                    != text)
            }
            &&& !r.input_nodes.contains_key(id.0) ==> texts == was.input_texts && drafted.1 == (
            r.store.draft_text != text)
            &&& drafted.0.store.state.scalar_values == was.scalar_values
            &&& drafted.0.focused == r.focused
            &&& focused.0.focused == flag
            &&& focused.0.store.draft_text == r.store.draft_text
            &&& r.focused_bindings.contains_key(id.0) ==> {
                let binding = r.focused_bindings[id.0];
                let scalars = focused.0.store.state.scalar_values;
                &&& scalar_at(scalars, binding) == one
                &&& other != binding ==> scalar_at(scalars, other) == scalar_at(
                    was.scalar_values,
                    other,
                )
                &&& focused.1 == (r.focused != flag || scalar_at(was.scalar_values, binding) != one)
            }
            &&& !r.focused_bindings.contains_key(id.0) ==> focused.0.store == r.store && focused.1
                == (r.focused != flag)
            &&& hovered.0.focused == r.focused
            &&& r.hovered_bindings.contains_key(id.0) ==> {
                let binding = r.hovered_bindings[id.0];
                let scalars = hovered.0.store.state.scalar_values;
                &&& scalar_at(scalars, binding) == one
                &&& other != binding ==> scalar_at(scalars, other) == scalar_at(
                    was.scalar_values,
                    other,
                )
                &&& hovered.1 == (scalar_at(was.scalar_values, binding) != one)
            }
            &&& !r.hovered_bindings.contains_key(id.0) ==> hovered == (r, false)
            &&& custom == (r, false)
            &&& sized == (r, false)
        }),
{
}

/// Facts are noted one after the other.
pub proof fn lemma_facts_in_order(r: RuntimeView, facts: Seq<UiFactView>, last: UiFactView)
    ensures
        ({
            let before = facts_step(r, facts, facts.len());
            let after = fact_step(before.0, last);
            &&& facts_step(r, facts.push(last), facts.len() + 1) == (after.0, before.1 || after.1)
            &&& facts_step(r, Seq::empty(), 0) == (r, false)
        }),
{
    lemma_first_facts(r, facts, last, facts.len());
    assert(facts.push(last)[facts.len() as int] == last);
}

proof fn lemma_first_facts(r: RuntimeView, facts: Seq<UiFactView>, last: UiFactView, n: nat)
    requires
        n <= facts.len(),
    ensures
        facts_step(r, facts.push(last), n) == facts_step(r, facts, n),
    decreases n,
{
    if n > 0 {
        lemma_first_facts(r, facts, last, (n - 1) as nat);
        assert(facts.push(last)[n - 1] == facts[n - 1]);
    }
}

/// What is rendered: without a program the status; with one, the program where anything has
/// changed, and nothing otherwise.
pub proof fn lemma_what_is_rendered(r: RuntimeView, changed: bool)
    ensures
        r.active_program is None ==> request_after(r, changed) is Status,
        r.active_program is Some && !changed ==> request_after(r, changed) is Nothing,
        r.active_program is Some && changed ==> request_after(r, changed) is Program,
{
}

/// What the ports and the elements of a program are bound to: the last binding of a port counts;
/// one without an action, or without a source, leaves what was there.
pub proof fn lemma_ports_are_bound(
    events: Seq<ExecEventBindingView>,
    last: ExecEventBindingView,
    nodes: Map<u128, u128>,
    facts: Seq<ExecFactBindingView>,
    fact: ExecFactBindingView,
    ports: Seq<AttachedPort>,
    port: AttachedPort,
    kind: SemanticFactKind,
)
    ensures
        last.action is Some ==> port_actions(events.push(last)) == port_actions(events).insert(
            last.port.0,
            last.action->0,
        ),
        last.action is None ==> port_actions(events.push(last)) == port_actions(events),
        last.source_binding is Some ==> port_sources(events.push(last)) == port_sources(
            events,
        ).insert(last.port.0, last.source_binding->0),
        last.source_binding is None ==> port_sources(events.push(last)) == port_sources(events),
        last.source_binding is Some && nodes.contains_key(last.port.0) ==> node_sources(
            events.push(last),
            nodes,
        ) == node_sources(events, nodes).insert(nodes[last.port.0], last.source_binding->0),
        last.source_binding is None || !nodes.contains_key(last.port.0) ==> node_sources(
            events.push(last),
            nodes,
        ) == node_sources(events, nodes),
        port_nodes(ports.push(port)) == port_nodes(ports).insert(port.port.0, port.id.0),
        fact.kind == kind ==> fact_scalars(facts.push(fact), kind) == fact_scalars(
            facts,
            kind,
        ).insert(fact.id.0, fact.binding),
        fact.kind != kind ==> fact_scalars(facts.push(fact), kind) == fact_scalars(facts, kind),
        port_actions(Seq::empty()) == Map::<u128, SemanticActionView>::empty(),
        port_sources(Seq::empty()) == Map::<u128, Seq<char>>::empty(),
        node_sources(Seq::empty(), nodes) == Map::<u128, Seq<char>>::empty(),
        fact_scalars(Seq::empty(), kind) == Map::<u128, Seq<char>>::empty(),
{
    assert(events.push(last).drop_last() =~= events);
    assert(facts.push(fact).drop_last() =~= facts);
    assert(ports.push(port).drop_last() =~= ports);
}

/// A program starts with the state that its model gives: none, its scalars, or all of it.
pub proof fn lemma_first_state(model: RuntimeModelView, key: Seq<char>)
    ensures
        ({
            let state = initial_state(model);
            &&& model is Static ==> {
                &&& state.scalar_values == Map::<Seq<char>, i64>::empty()
                &&& state.text_values == Map::<Seq<char>, Seq<char>>::empty()
            }
            &&& model is Scalars ==> {
                &&& state.scalar_values == model->Scalars_0.values
                &&& state.text_values == Map::<Seq<char>, Seq<char>>::empty()
                &&& state.object_lists == Map::<Seq<char>, Seq<ObjectListItemView>>::empty()
            }
            &&& model is State ==> state == model->State_0
        }),
{
}

/// What is derived from the state: how many elements of a list pass, the sum and the difference of
/// two numbers, and whether a comparison holds, as one or zero.
pub proof fn lemma_derived_values(
    state: StateView,
    name: Seq<char>,
    binding: Seq<char>,
    text_filter: Option<TextListFilterView>,
    item_filter: Option<ObjectListFilterView>,
    left: DerivedScalarOperandView,
    right: DerivedScalarOperandView,
    op: IntCompareOp,
)
    ensures
        ({
            let of = |spec: DerivedScalarSpecView| derived_value(state, spec);
            let a = operand_value(state.scalar_values, left);
            let b = operand_value(state.scalar_values, right);
            let texts = passing_texts(list_at(state.text_lists, binding), text_filter).len();
            let items = passing_items(
                list_at(state.object_lists, binding),
                item_filter,
                state.scalar_values,
            ).len();
            let count = DerivedScalarSpecView::TextListCount {
                target: name,
                binding,
                filter: text_filter,
            };
            let item_count = DerivedScalarSpecView::ObjectListCount {
                target: name,
                binding,
                filter: item_filter,
            };
            let sum = DerivedScalarSpecView::Arithmetic {
                target: name,
                op: DerivedArithmeticOp::Add,
                left,
                right,
            };
            let difference = DerivedScalarSpecView::Arithmetic {
                target: name,
                op: DerivedArithmeticOp::Subtract,
                left,
                right,
            };
            let holds = DerivedScalarSpecView::Comparison { target: name, op, left, right };
            &&& texts <= i64::MAX ==> of(count) == texts
            &&& items <= i64::MAX ==> of(item_count) == items
            &&& i64::MIN <= a + b <= i64::MAX ==> of(sum) == a + b
            &&& of(sum) == a.wrapping_add(b)
            &&& i64::MIN <= a - b <= i64::MAX ==> of(difference) == a - b
            &&& of(difference) == a.wrapping_sub(b)
            &&& compares(op, a as int, b as int) ==> of(holds) == 1
            &&& !compares(op, a as int, b as int) ==> of(holds) == 0
            &&& target(count) == name && target(item_count) == name
            &&& target(sum) == name && target(difference) == name && target(holds) == name
        }),
{
}

/// A derived scalar alone has the value derived for it after a refresh.
pub proof fn lemma_one_derived_scalar(state: StateView, spec: DerivedScalarSpecView)
    requires
        state.derived_scalars == seq![spec],
        !reads(spec, target(spec)),
    ensures
        scalar_at(refreshed(state).scalar_values, target(spec)) == derived_value(state, spec),
{
    reveal_with_fuel(derive_pass, 2);
    reveal_with_fuel(derive_passes, 2);
    assert(state.derived_scalars[0] == spec);
}

} // verus!
