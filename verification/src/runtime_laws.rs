//! What holds of the runtime as a whole.
use crate::abi::{BufferRange, bytes_at, lemma_unpack_reads_back, packed, unpacked};
use crate::action_laws::{
    action_new_items, identities_ok, ids_ok, lemma_action_keeps_identities,
    lemma_same_content_refl, lemma_same_content_trans, lemma_unchanged_action_keeps_content,
    same_content,
};
use crate::actions::{StoreView, action_step};
use crate::runtime::{
    RenderRequestView, RuntimeView, dispatched, events_step, fact_step, facts_step, is_max_id,
    is_next_id, next_range, queued, request_after, status, taken,
};
use crate::scene::{NodeId, UiEventView, UiFactKindView, UiFactView};
use crate::semantic_view::SemanticActionView;
use crate::values::{bool_int, list_at, scalar_at};
use vstd::prelude::*;

verus! {

/// Commands are read back as they were queued, as long as the memory can be addressed.
pub proof fn lemma_commands_read_back(r: RuntimeView, bytes: Seq<u8>)
    requires
        r.memory.len() + bytes.len() <= u32::MAX,
    ensures
        bytes_at(
            queued(r, bytes).memory,
            unpacked(packed(next_range(r.memory, bytes.len()))),
        ) == Some(bytes),
{
    let range = next_range(r.memory, bytes.len());
    lemma_unpack_reads_back(range);
    assert((r.memory + bytes).subrange(
        r.memory.len() as int,
        (r.memory.len() + bytes.len()) as int,
    ) =~= bytes);
}

/// Queueing commands leaves the earlier ones in their place.
pub proof fn lemma_earlier_commands_stay(
    r: RuntimeView,
    bytes: Seq<u8>,
    range: BufferRange,
    earlier: Seq<u8>,
)
    requires
        bytes_at(r.memory, range) == Some(earlier),
    ensures
        bytes_at(queued(r, bytes).memory, range) == Some(earlier),
{
    assert((r.memory + bytes).subrange(range.start as int, range.start + range.len)
        =~= r.memory.subrange(range.start as int, range.start + range.len));
}

/// Queued commands are taken once: the first taking gives their range, the next one zero.
pub proof fn lemma_commands_are_taken_once(r: RuntimeView, bytes: Seq<u8>)
    ensures
        taken(queued(r, bytes)).1 == packed(next_range(r.memory, bytes.len())),
        taken(taken(queued(r, bytes)).0).1 == 0,
{
}

/// The range of commands that are not empty is never zero.
pub proof fn lemma_range_of_commands_is_not_zero(r: RuntimeView, bytes: Seq<u8>)
    requires
        0 < bytes.len() <= u32::MAX,
    ensures
        packed(next_range(r.memory, bytes.len())) != 0,
{
    let range = next_range(r.memory, bytes.len());
    assert(range.len == bytes.len());
    assert(0 <= range.start * 0x1_0000_0000 <= 0xffff_ffff * 0x1_0000_0000) by (nonlinear_arith)
        requires
            0 <= range.start <= 0xffff_ffff,
    ;
}

/// Events at ports without an action do nothing to the store.
pub proof fn lemma_unbound_events_do_nothing(
    s: StoreView,
    actions: Map<u128, SemanticActionView>,
    events: Seq<UiEventView>,
    n: nat,
)
    requires
        n <= events.len(),
        forall|i: int| 0 <= i < n ==> !actions.contains_key((#[trigger] events[i]).target.0),
    ensures
        events_step(s, actions, events, n) == (s, false),
    decreases n,
{
    if n > 0 {
        lemma_unbound_events_do_nothing(s, actions, events, (n - 1) as nat);
        assert(!actions.contains_key(events[n - 1].target.0));
    }
}

/// Events that report no change leave every scalar, text and list as it was.
pub proof fn lemma_unchanged_events_keep_content(
    s: StoreView,
    actions: Map<u128, SemanticActionView>,
    events: Seq<UiEventView>,
    n: nat,
)
    requires
        !events_step(s, actions, events, n).1,
    ensures
        same_content(s, events_step(s, actions, events, n).0),
    decreases n,
{
    lemma_same_content_refl(s);
    if n > 0 {
        let before = events_step(s, actions, events, (n - 1) as nat);
        let event = events[n - 1];
        lemma_unchanged_events_keep_content(s, actions, events, (n - 1) as nat);
        if actions.contains_key(event.target.0) {
            let action = actions[event.target.0];
            lemma_unchanged_action_keeps_content(before.0, action, event);
            lemma_same_content_trans(s, before.0, action_step(before.0, action, event).0);
        }
    }
}

/// How many new items the actions of the first `n` events can make.
pub open spec fn events_new_items(
    actions: Map<u128, SemanticActionView>,
    events: Seq<UiEventView>,
    n: nat,
) -> nat
    decreases n,
{
    if n == 0 {
        0
    } else {
        events_new_items(actions, events, (n - 1) as nat) + if actions.contains_key(
            events[n - 1].target.0,
        ) {
            action_new_items(actions[events[n - 1].target.0])
        } else {
            0
        }
    }
}

/// Events keep the identities of the items of each list different, as long as they last.
pub proof fn lemma_events_keep_identities(
    s: StoreView,
    actions: Map<u128, SemanticActionView>,
    events: Seq<UiEventView>,
    n: nat,
)
    requires
        identities_ok(s),
        s.next_object_item_id + events_new_items(actions, events, n) <= u64::MAX,
    ensures
        identities_ok(events_step(s, actions, events, n).0),
        s.next_object_item_id <= events_step(s, actions, events, n).0.next_object_item_id
            <= s.next_object_item_id + events_new_items(actions, events, n),
    decreases n,
{
    if n > 0 {
        lemma_events_keep_identities(s, actions, events, (n - 1) as nat);
        let before = events_step(s, actions, events, (n - 1) as nat);
        let event = events[n - 1];
        if actions.contains_key(event.target.0) {
            lemma_action_keeps_identities(before.0, actions[event.target.0], event);
        }
    }
}

/// A program whose items have different identities starts with identities in order, and so
/// new items get identities of their own.
pub proof fn lemma_start_has_identities_in_order(s: StoreView)
    requires
        is_next_id(s.state.object_lists, s.next_object_item_id),
        s.next_object_item_id != 0,
        forall|k: Seq<char>, i: int, j: int|
            #![trigger s.state.object_lists[k][i], s.state.object_lists[k][j]]
            s.state.object_lists.contains_key(k) && 0 <= i < j < s.state.object_lists[k].len()
                ==> s.state.object_lists[k][i].id != s.state.object_lists[k][j].id,
    ensures
        identities_ok(s),
{
    let lists = s.state.object_lists;
    let m = choose|m: u64| #[trigger]
        is_max_id(lists, m) && s.next_object_item_id == m.wrapping_add(1);
    assert(s.next_object_item_id == m + 1);
    assert forall|k: Seq<char>| ids_ok(#[trigger] list_at(lists, k), s.next_object_item_id) by {
        let items = list_at(lists, k);
        if lists.contains_key(k) {
            assert forall|i: int| 0 <= i < items.len() implies (#[trigger] items[i]).id
                < s.next_object_item_id by {
                assert(lists[k][i].id <= m);
            }
            assert forall|i: int, j: int| 0 <= i < j < items.len() implies (
            #[trigger] items[i]).id != (#[trigger] items[j]).id by {
                assert(lists[k][i].id != lists[k][j].id);
            }
        }
    }
}

/// A fact that is reported again changes nothing, and no report of it touches texts, lists and
/// items.
pub proof fn lemma_repeated_fact_changes_nothing(r: RuntimeView, fact: UiFactView)
    ensures
        ({
            let once = facts_step(r, seq![fact], 1).0;
            let twice = facts_step(once, seq![fact], 1);
            &&& twice == (once, false)
            &&& once.store.state.text_values == r.store.state.text_values
            &&& once.store.state.text_lists == r.store.state.text_lists
            &&& once.store.state.object_lists == r.store.state.object_lists
        }),
{
    let facts = seq![fact];
    reveal_with_fuel(facts_step, 2);
    let once = fact_step(r, fact).0;
    assert(facts[0] == fact);
    assert(facts_step(r, facts, 1).0 == once);
    let twice = fact_step(once, fact).0;
    assert(twice.store.state.input_texts =~= once.store.state.input_texts);
    assert(twice.store.state.scalar_values =~= once.store.state.scalar_values);
    assert(twice == once);
}

/// A fact of an element with a scalar for it sets that scalar.
pub proof fn lemma_fact_sets_its_scalar(r: RuntimeView, id: NodeId, value: bool)
    ensures
        r.hovered_bindings.contains_key(id.0) ==> scalar_at(
            fact_step(
                r,
                UiFactView { id, kind: UiFactKindView::Hovered(value) },
            ).0.store.state.scalar_values,
            r.hovered_bindings[id.0],
        ) == bool_int(value),
        r.focused_bindings.contains_key(id.0) ==> scalar_at(
            fact_step(
                r,
                UiFactView { id, kind: UiFactKindView::Focused(value) },
            ).0.store.state.scalar_values,
            r.focused_bindings[id.0],
        ) == bool_int(value),
{
}

/// While no program is active, events and facts change neither scalars, texts nor lists, and
/// each batch is answered with the status view.
pub proof fn lemma_without_program(r: RuntimeView, events: Seq<UiEventView>)
    requires
        r.active_program is None,
        r.input_bindings == Map::<u128, Seq<char>>::empty(),
    ensures
        dispatched(r, events).0.store.state == r.store.state,
        request_after(dispatched(r, events).0, dispatched(r, events).1)
            == RenderRequestView::Status(status(dispatched(r, events).0)),
{
}

} // verus!
