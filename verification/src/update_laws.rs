//! What each change of the state leaves behind.
use crate::action_laws::lemma_item_index_bounds;
use crate::actions::{
    StoreView, action_step, action_steps, item_index, nested_step, nested_steps, object_list_step,
    passes, payload_text, scalar_step, text_list_step, text_step,
};
use crate::scene::{UiEventView, primary_payload};
use crate::semantic_view::{
    NestedObjectListUpdateView, ObjectListFilterView, ObjectListItemView, ObjectListUpdateView,
    ScalarUpdateView, SemanticActionView, TextListUpdateView, TextUpdateView,
};
use crate::text::trimmed;
use crate::values::{StateView, item_bool, item_passes, list_at, scalar_at, text_at};
use vstd::prelude::*;

verus! {

/// A filter lets an event pass that brings just the wanted payload; no filter lets all pass.
pub proof fn lemma_event_filter(filter: Seq<char>, event: UiEventView)
    ensures
        passes(None, event),
        primary_payload(event) == Some(filter) ==> passes(Some(filter), event),
        primary_payload(event) is None ==> !passes(Some(filter), event),
        primary_payload(event) is Some && primary_payload(event)->0 != filter ==> !passes(
            Some(filter),
            event,
        ),
        primary_payload(event) is Some ==> payload_text(event) == primary_payload(event)->0,
        primary_payload(event) is None ==> payload_text(event).len() == 0,
{
}

/// Whether nothing but scalars differs between two stores.
pub open spec fn only_scalars(a: StoreView, b: StoreView) -> bool {
    &&& a.draft_text == b.draft_text
    &&& a.next_object_item_id == b.next_object_item_id
    &&& a.state.text_values == b.state.text_values
    &&& a.state.text_lists == b.state.text_lists
    &&& a.state.object_lists == b.state.object_lists
    &&& a.state.input_texts == b.state.input_texts
    &&& a.state.derived_scalars == b.state.derived_scalars
}

/// Whether nothing but texts differs between two stores.
pub open spec fn only_texts(a: StoreView, b: StoreView) -> bool {
    &&& a.draft_text == b.draft_text
    &&& a.next_object_item_id == b.next_object_item_id
    &&& a.state.scalar_values == b.state.scalar_values
    &&& a.state.text_lists == b.state.text_lists
    &&& a.state.object_lists == b.state.object_lists
    &&& a.state.input_texts == b.state.input_texts
    &&& a.state.derived_scalars == b.state.derived_scalars
}

/// Whether nothing but the list of items of one name, and the identity of the next new item,
/// differs between two stores.
pub open spec fn only_items_of(a: StoreView, b: StoreView, binding: Seq<char>) -> bool {
    &&& a.draft_text == b.draft_text
    &&& a.state.scalar_values == b.state.scalar_values
    &&& a.state.text_values == b.state.text_values
    &&& a.state.text_lists == b.state.text_lists
    &&& a.state.input_texts == b.state.input_texts
    &&& a.state.derived_scalars == b.state.derived_scalars
    &&& forall|k: Seq<char>|
        k != binding ==> #[trigger] list_at(a.state.object_lists, k) == list_at(
            b.state.object_lists,
            k,
        )
}

/// A scalar that is set has the value that it is set to; one that is added to has grown by the
/// delta; a flag is one where it was zero and zero where it was not. Other scalars stay, and a
/// change is told of just where there is one.
pub proof fn lemma_scalar_updates(
    s: StoreView,
    binding: Seq<char>,
    value: i64,
    filter: Seq<char>,
    event: UiEventView,
    other: Seq<char>,
)
    requires
        other != binding,
    ensures
        ({
            let was = scalar_at(s.state.scalar_values, binding);
            let set = scalar_step(s, ScalarUpdateView::SetTo { binding, value }, event);
            let filtered = scalar_step(
                s,
                ScalarUpdateView::SetFiltered { binding, value, payload_filter: filter },
                event,
            );
            let added = scalar_step(s, ScalarUpdateView::Add { binding, delta: value }, event);
            let toggled = scalar_step(s, ScalarUpdateView::ToggleBool { binding }, event);
            &&& scalar_at(set.0.state.scalar_values, binding) == value
            &&& set.1 == (was != value)
            &&& primary_payload(event) == Some(filter) ==> filtered == set
            &&& primary_payload(event) != Some(filter) ==> filtered == (s, false)
            &&& i64::MIN <= was + value <= i64::MAX ==> scalar_at(
                added.0.state.scalar_values,
                binding,
            ) == was + value
            &&& scalar_at(added.0.state.scalar_values, binding) == was.wrapping_add(value)
            &&& added.1 == (value != 0)
            &&& was == 0 ==> scalar_at(toggled.0.state.scalar_values, binding) == 1 && toggled.1
            &&& was != 0 ==> scalar_at(toggled.0.state.scalar_values, binding) == 0 && toggled.1
            &&& only_scalars(s, set.0) && only_scalars(s, added.0) && only_scalars(s, toggled.0)
            &&& scalar_at(set.0.state.scalar_values, other) == scalar_at(
                s.state.scalar_values,
                other,
            )
            &&& scalar_at(added.0.state.scalar_values, other) == scalar_at(
                s.state.scalar_values,
                other,
            )
            &&& scalar_at(toggled.0.state.scalar_values, other) == scalar_at(
                s.state.scalar_values,
                other,
            )
        }),
{
}

/// A text that is set is the given one; one that is set from an element is what was typed there
/// last, whatever the event says; one that is set from the event is what the event says. Other
/// texts stay, a filter that the event does not pass leaves all, and a change is told of just
/// where there is one.
pub proof fn lemma_text_updates(
    s: StoreView,
    binding: Seq<char>,
    value: Seq<char>,
    source_binding: Seq<char>,
    filter: Option<Seq<char>>,
    event: UiEventView,
    other: Seq<char>,
)
    requires
        other != binding,
    ensures
        ({
            let was = text_at(s.state.text_values, binding);
            let fixed = text_step(
                s,
                TextUpdateView::SetStatic { binding, value, payload_filter: filter },
                event,
            );
            let typed = text_step(
                s,
                TextUpdateView::SetFromInput { binding, source_binding, payload_filter: filter },
                event,
            );
            let said = text_step(s, TextUpdateView::SetFromPayload { binding }, event);
            let there = s.state.input_texts.contains_key(source_binding);
            let input = s.state.input_texts[source_binding];
            &&& filter is None || primary_payload(event) == filter ==> {
                &&& text_at(fixed.0.state.text_values, binding) == value
                &&& fixed.1 == (was != value)
                &&& there ==> text_at(typed.0.state.text_values, binding) == input
                &&& there ==> typed.1 == (was != input)
                &&& !there ==> text_at(typed.0.state.text_values, binding).len() == 0
                &&& !there ==> typed.1 == (was.len() != 0)
            }
            &&& filter is Some && primary_payload(event) != filter ==> fixed == (s, false) && typed
                == (s, false)
            &&& primary_payload(event) is Some ==> text_at(said.0.state.text_values, binding)
                == primary_payload(event)->0 && said.1 == (was != primary_payload(event)->0)
            &&& primary_payload(event) is None ==> text_at(
                said.0.state.text_values,
                binding,
            ).len() == 0
            &&& only_texts(s, fixed.0) && only_texts(s, typed.0) && only_texts(s, said.0)
            &&& text_at(fixed.0.state.text_values, other) == text_at(s.state.text_values, other)
            &&& text_at(typed.0.state.text_values, other) == text_at(s.state.text_values, other)
            &&& text_at(said.0.state.text_values, other) == text_at(s.state.text_values, other)
        }),
{
    if text_at(s.state.text_values, binding).len() == 0 {
        assert(text_at(s.state.text_values, binding) =~= Seq::empty());
    }
}

/// What is typed into an element and then taken over by a text is that text.
pub proof fn lemma_typed_text_is_taken_over(
    s: StoreView,
    typed: StoreView,
    text: Seq<char>,
    binding: Seq<char>,
    source_binding: Seq<char>,
    event: UiEventView,
)
    requires
        typed.state.input_texts == s.state.input_texts.insert(source_binding, text),
    ensures
        text_at(
            text_step(
                typed,
                TextUpdateView::SetFromInput { binding, source_binding, payload_filter: None },
                event,
            ).0.state.text_values,
            binding,
        ) == text,
{
}

/// What is typed into an element is added at the end of a list, trimmed if asked for. Where the
/// event is another one, or the text is empty and rejected, nothing happens. The element is
/// emptied if asked for, and only then.
pub proof fn lemma_text_list_append(
    s: StoreView,
    binding: Seq<char>,
    source_binding: Seq<char>,
    key: Option<Seq<char>>,
    trim: bool,
    reject_empty: bool,
    clear_draft: bool,
    event: UiEventView,
    other: Seq<char>,
)
    requires
        other != binding,
    ensures
        ({
            let after = text_list_step(
                s,
                TextListUpdateView::AppendDraftText {
                    binding,
                    source_binding,
                    key,
                    trim,
                    reject_empty,
                    clear_draft,
                },
                event,
            );
            let typed = text_at(s.state.input_texts, source_binding);
            let text = if trim {
                trimmed(typed)
            } else {
                typed
            };
            let wanted = key is None || primary_payload(event) == key;
            let lists = after.0.state.text_lists;
            &&& !wanted || (reject_empty && text.len() == 0) ==> after == (s, false)
            &&& wanted && !(reject_empty && text.len() == 0) ==> {
                &&& after.1
                &&& list_at(lists, binding) == list_at(s.state.text_lists, binding).push(text)
                &&& list_at(lists, other) == list_at(s.state.text_lists, other)
                &&& clear_draft ==> text_at(after.0.state.input_texts, source_binding).len() == 0
                    && after.0.draft_text.len() == 0
                &&& !clear_draft ==> after.0.state.input_texts == s.state.input_texts
                    && after.0.draft_text == s.draft_text
                &&& source_binding != other ==> text_at(after.0.state.input_texts, other)
                    == text_at(s.state.input_texts, other)
                &&& after.0.state.scalar_values == s.state.scalar_values
                &&& after.0.state.text_values == s.state.text_values
                &&& after.0.state.object_lists == s.state.object_lists
                &&& after.0.next_object_item_id == s.next_object_item_id
            }
        }),
{
}

/// A list of texts that is cleared is empty, others stay, and a change is told of where the list
/// was not empty.
pub proof fn lemma_text_list_clear(
    s: StoreView,
    binding: Seq<char>,
    event: UiEventView,
    other: Seq<char>,
)
    requires
        other != binding,
    ensures
        ({
            let after = text_list_step(s, TextListUpdateView::Clear { binding }, event);
            &&& list_at(after.0.state.text_lists, binding).len() == 0
            &&& list_at(after.0.state.text_lists, other) == list_at(s.state.text_lists, other)
            &&& after.1 == (list_at(s.state.text_lists, binding).len() > 0)
            &&& after.0.state.input_texts == s.state.input_texts
            &&& after.0.draft_text == s.draft_text
            &&& after.0.state.scalar_values == s.state.scalar_values
            &&& after.0.state.text_values == s.state.text_values
            &&& after.0.state.object_lists == s.state.object_lists
        }),
{
}

/// An item that is appended stands at the end of its list, as it is given but for its identity,
/// which is the next new one.
pub proof fn lemma_item_appended(
    s: StoreView,
    binding: Seq<char>,
    item: ObjectListItemView,
    event: UiEventView,
)
    ensures
        ({
            let after = object_list_step(
                s,
                ObjectListUpdateView::AppendObject { binding, item },
                event,
            );
            let items = list_at(s.state.object_lists, binding);
            let now = list_at(after.0.state.object_lists, binding);
            &&& after.1
            &&& now.len() == items.len() + 1
            &&& now.take(items.len() as int) == items
            &&& now.last().id == s.next_object_item_id
            &&& now.last().title == item.title
            &&& now.last().completed == item.completed
            &&& now.last().text_fields == item.text_fields
            &&& now.last().bool_fields == item.bool_fields
            &&& now.last().scalar_fields == item.scalar_fields
            &&& now.last().object_lists == item.object_lists
            &&& now.last().nested_item_actions == item.nested_item_actions
            &&& s.next_object_item_id < u64::MAX ==> after.0.next_object_item_id
                == s.next_object_item_id + 1
            &&& only_items_of(s, after.0, binding)
        }),
{
    let items = list_at(s.state.object_lists, binding);
    let after = object_list_step(s, ObjectListUpdateView::AppendObject { binding, item }, event);
    assert(list_at(after.0.state.object_lists, binding).take(items.len() as int) =~= items);
}

/// What is typed into an element is the title of a new item at the end of a list, with the given
/// truth values and nothing else; where the event is another one, or the title is empty and
/// rejected, nothing happens.
pub proof fn lemma_draft_item_appended(
    s: StoreView,
    binding: Seq<char>,
    source_binding: Seq<char>,
    key: Option<Seq<char>>,
    trim: bool,
    reject_empty: bool,
    clear_draft: bool,
    bool_fields: Map<Seq<char>, bool>,
    event: UiEventView,
)
    ensures
        ({
            let after = object_list_step(
                s,
                ObjectListUpdateView::AppendDraftObject {
                    binding,
                    source_binding,
                    key,
                    trim,
                    reject_empty,
                    clear_draft,
                    bool_fields,
                },
                event,
            );
            let typed = text_at(s.state.input_texts, source_binding);
            let title = if trim {
                trimmed(typed)
            } else {
                typed
            };
            let wanted = key is None || primary_payload(event) == key;
            let items = list_at(s.state.object_lists, binding);
            let now = list_at(after.0.state.object_lists, binding);
            &&& !wanted || (reject_empty && title.len() == 0) ==> after == (s, false)
            &&& wanted && !(reject_empty && title.len() == 0) ==> {
                &&& after.1
                &&& now.len() == items.len() + 1
                &&& now.take(items.len() as int) == items
                &&& now.last().id == s.next_object_item_id
                &&& now.last().title == title
                &&& !now.last().completed
                &&& now.last().bool_fields == bool_fields
                &&& now.last().text_fields == Map::<Seq<char>, Seq<char>>::empty()
                &&& now.last().scalar_fields == Map::<Seq<char>, i64>::empty()
                &&& now.last().object_lists == Map::<Seq<char>, Seq<ObjectListItemView>>::empty()
                &&& s.next_object_item_id < u64::MAX ==> after.0.next_object_item_id
                    == s.next_object_item_id + 1
                &&& clear_draft ==> text_at(after.0.state.input_texts, source_binding).len() == 0
                    && after.0.draft_text.len() == 0
                &&& !clear_draft ==> after.0.state.input_texts == s.state.input_texts
                    && after.0.draft_text == s.draft_text
            }
        }),
{
    let items = list_at(s.state.object_lists, binding);
    let typed = text_at(s.state.input_texts, source_binding);
    let title = if trim {
        trimmed(typed)
    } else {
        typed
    };
    let now = list_at(
        object_list_step(
            s,
            ObjectListUpdateView::AppendDraftObject {
                binding,
                source_binding,
                key,
                trim,
                reject_empty,
                clear_draft,
                bool_fields,
            },
            event,
        ).0.state.object_lists,
        binding,
    );
    if (key is None || primary_payload(event) == key) && !(reject_empty && title.len() == 0) {
        assert(now.take(items.len() as int) =~= items);
    }
}

/// Whether the item of an identity stands at a place, before any other of that identity.
pub open spec fn stands_at(items: Seq<ObjectListItemView>, id: u64, i: int) -> bool {
    &&& 0 <= i < items.len()
    &&& items[i].id == id
    &&& forall|j: int| 0 <= j < i ==> (#[trigger] items[j]).id != id
}

proof fn lemma_stands_at(items: Seq<ObjectListItemView>, id: u64, i: int)
    requires
        stands_at(items, id, i),
    ensures
        item_index(items, id) == i,
{
    lemma_item_index_bounds(items, id);
    let k = item_index(items, id);
    if k < i {
        assert(items[k].id != id);
    }
}

/// Whether an item differs from another one in one truth value at most, which is the given one.
pub open spec fn has_flag(
    now: ObjectListItemView,
    was: ObjectListItemView,
    field: Seq<char>,
    value: bool,
) -> bool {
    &&& item_bool(now, field) == value
    &&& forall|f: Seq<char>| f != field ==> #[trigger] item_bool(now, f) == item_bool(was, f)
    &&& now.id == was.id
    &&& now.title == was.title
    &&& now.text_fields == was.text_fields
    &&& now.scalar_fields == was.scalar_fields
    &&& now.object_lists == was.object_lists
    &&& now.nested_item_actions == was.nested_item_actions
}

/// A truth value of the item of an identity is turned round, or set, and of no other item; where
/// there is no such item, all stay as they were.
pub proof fn lemma_item_flags(
    s: StoreView,
    binding: Seq<char>,
    item_id: u64,
    field: Seq<char>,
    value: bool,
    filter: Option<Seq<char>>,
    event: UiEventView,
    i: int,
)
    ensures
        ({
            let items = list_at(s.state.object_lists, binding);
            let toggled = object_list_step(
                s,
                ObjectListUpdateView::ToggleBoolField { binding, item_id, field },
                event,
            );
            let set = object_list_step(
                s,
                ObjectListUpdateView::SetBoolField {
                    binding,
                    item_id,
                    field,
                    value,
                    payload_filter: filter,
                },
                event,
            );
            let after = list_at(toggled.0.state.object_lists, binding);
            let then = list_at(set.0.state.object_lists, binding);
            let wanted = filter is None || primary_payload(event) == filter;
            &&& only_items_of(s, toggled.0, binding)
            &&& only_items_of(s, set.0, binding)
            &&& stands_at(items, item_id, i) ==> {
                &&& toggled.1
                &&& after.len() == items.len()
                &&& has_flag(after[i], items[i], field, !item_bool(items[i], field))
                &&& forall|j: int| 0 <= j < items.len() && j != i ==> #[trigger] after[j] == items[j]
            }
            &&& stands_at(items, item_id, i) && wanted ==> {
                &&& set.1 == (item_bool(items[i], field) != value)
                &&& then.len() == items.len()
                &&& has_flag(then[i], items[i], field, value)
                &&& forall|j: int| 0 <= j < items.len() && j != i ==> #[trigger] then[j] == items[j]
            }
            &&& !wanted ==> set == (s, false)
            &&& (forall|j: int| 0 <= j < items.len() ==> (#[trigger] items[j]).id != item_id) ==> {
                &&& !toggled.1 && after == items
                &&& !set.1 && then == items
            }
        }),
{
    let items = list_at(s.state.object_lists, binding);
    lemma_item_index_bounds(items, item_id);
    if stands_at(items, item_id, i) {
        lemma_stands_at(items, item_id, i);
    }
}

/// The title of the item of an identity becomes what the event says, trimmed if asked for, and no
/// other item changes; an empty title that is rejected, and another event, change nothing.
pub proof fn lemma_item_titled(
    s: StoreView,
    binding: Seq<char>,
    item_id: u64,
    trim: bool,
    reject_empty: bool,
    filter: Option<Seq<char>>,
    event: UiEventView,
    i: int,
)
    ensures
        ({
            let items = list_at(s.state.object_lists, binding);
            let after = object_list_step(
                s,
                ObjectListUpdateView::SetTitle {
                    binding,
                    item_id,
                    trim,
                    reject_empty,
                    payload_filter: filter,
                },
                event,
            );
            let now = list_at(after.0.state.object_lists, binding);
            let said = match primary_payload(event) {
                Some(payload) => payload,
                None => Seq::empty(),
            };
            let title = if trim {
                trimmed(said)
            } else {
                said
            };
            let wanted = filter is None || primary_payload(event) == filter;
            &&& only_items_of(s, after.0, binding)
            &&& wanted && stands_at(items, item_id, i) && !(reject_empty && title.len() == 0) ==> {
                &&& after.1 == (items[i].title != title)
                &&& now.len() == items.len()
                &&& now[i] == (ObjectListItemView { title, ..items[i] })
                &&& forall|j: int| 0 <= j < items.len() && j != i ==> #[trigger] now[j] == items[j]
            }
            &&& !wanted ==> after == (s, false)
            &&& wanted && reject_empty && title.len() == 0 ==> !after.1 && now == items
            &&& (forall|j: int| 0 <= j < items.len() ==> (#[trigger] items[j]).id != item_id)
                ==> !after.1 && now == items
        }),
{
    let items = list_at(s.state.object_lists, binding);
    lemma_item_index_bounds(items, item_id);
    if stands_at(items, item_id, i) {
        lemma_stands_at(items, item_id, i);
    }
}

/// All items of a list are completed, unless all of them were: then none is. Nothing else of them
/// changes, and for other truth values nothing happens.
pub proof fn lemma_all_items_toggled(
    s: StoreView,
    binding: Seq<char>,
    field: Seq<char>,
    event: UiEventView,
    i: int,
)
    ensures
        ({
            let items = list_at(s.state.object_lists, binding);
            let all = forall|j: int| 0 <= j < items.len() ==> (#[trigger] items[j]).completed;
            let after = object_list_step(
                s,
                ObjectListUpdateView::ToggleAllBoolField { binding, field: "completed"@ },
                event,
            );
            let other = object_list_step(
                s,
                ObjectListUpdateView::ToggleAllBoolField { binding, field },
                event,
            );
            let now = list_at(after.0.state.object_lists, binding);
            &&& only_items_of(s, after.0, binding)
            &&& after.1 == (items.len() > 0)
            &&& now.len() == items.len()
            &&& 0 <= i < items.len() ==> now[i] == (ObjectListItemView {
                completed: !all,
                ..items[i]
            })
            &&& field != "completed"@ ==> !other.1 && list_at(
                other.0.state.object_lists,
                binding,
            ) == items
        }),
{
}

/// What is removed is just what is to be removed: an item is kept, in its place among the others,
/// if its identity is another one, or if it does not pass the filter.
pub proof fn lemma_items_removed(
    s: StoreView,
    binding: Seq<char>,
    items: Seq<ObjectListItemView>,
    last: ObjectListItemView,
    item_id: u64,
    filter: ObjectListFilterView,
    event: UiEventView,
)
    requires
        s.state.object_lists.contains_key(binding),
        s.state.object_lists[binding] == items.push(last),
    ensures
        ({
            let shorter = StoreView {
                state: StateView {
                    object_lists: s.state.object_lists.insert(binding, items),
                    ..s.state
                },
                ..s
            };
            let remove = ObjectListUpdateView::RemoveItem { binding, item_id };
            let sweep = ObjectListUpdateView::RemoveMatching { binding, filter };
            let removed = object_list_step(s, remove, event);
            let before = object_list_step(shorter, remove, event);
            let swept = object_list_step(s, sweep, event);
            let cleaner = object_list_step(shorter, sweep, event);
            let was = list_at(before.0.state.object_lists, binding);
            let clean = list_at(cleaner.0.state.object_lists, binding);
            let passing = item_passes(last, filter, s.state.scalar_values);
            &&& last.id == item_id ==> removed.1 && list_at(
                removed.0.state.object_lists,
                binding,
            ) == was
            &&& last.id != item_id ==> removed.1 == before.1 && list_at(
                removed.0.state.object_lists,
                binding,
            ) == was.push(last)
            &&& passing ==> swept.1 && list_at(swept.0.state.object_lists, binding) == clean
            &&& !passing ==> swept.1 == cleaner.1 && list_at(
                swept.0.state.object_lists,
                binding,
            ) == clean.push(last)
            &&& only_items_of(s, removed.0, binding)
            &&& only_items_of(s, swept.0, binding)
        }),
{
    let p = |item: ObjectListItemView| item.id != item_id;
    let scalars = s.state.scalar_values;
    let q = |item: ObjectListItemView| !item_passes(item, filter, scalars);
    reveal(Seq::filter);
    assert(items.push(last).drop_last() =~= items);
    items.lemma_filter_len(p);
    items.lemma_filter_len(q);
}

/// An item that is appended to a list inside an item stands at its end, under the next new
/// identity; one that is removed there is gone, and the others stay in their order.
pub proof fn lemma_nested_items(
    item: ObjectListItemView,
    next_id: u64,
    field: Seq<char>,
    added: ObjectListItemView,
    other: Seq<char>,
    id: u64,
    inner: Seq<ObjectListItemView>,
    last: ObjectListItemView,
)
    requires
        other != field,
    ensures
        ({
            let after = nested_step(
                item,
                next_id,
                NestedObjectListUpdateView::AppendObject { field, item: added },
            );
            let was = list_at(item.object_lists, field);
            let now = list_at(after.0.object_lists, field);
            let with = ObjectListItemView {
                object_lists: item.object_lists.insert(field, inner.push(last)),
                ..item
            };
            let without = ObjectListItemView {
                object_lists: item.object_lists.insert(field, inner),
                ..item
            };
            let remove = NestedObjectListUpdateView::RemoveItem { field, item_id: id };
            let rest = list_at(nested_step(with, next_id, remove).0.object_lists, field);
            let kept = list_at(nested_step(without, next_id, remove).0.object_lists, field);
            &&& after.2
            &&& now == was.push(ObjectListItemView { id: next_id, ..added })
            &&& list_at(after.0.object_lists, other) == list_at(item.object_lists, other)
            &&& after.0.id == item.id && after.0.title == item.title
            &&& after.0.completed == item.completed && after.0.bool_fields == item.bool_fields
            &&& after.0.text_fields == item.text_fields
            &&& after.0.scalar_fields == item.scalar_fields
            &&& next_id < u64::MAX ==> after.1 == next_id + 1
            &&& last.id == id ==> rest == kept && nested_step(with, next_id, remove).2
            &&& last.id != id ==> rest == kept.push(last)
            &&& nested_step(with, next_id, remove).1 == next_id
        }),
{
    let p = |x: ObjectListItemView| x.id != id;
    reveal(Seq::filter);
    assert(inner.push(last).drop_last() =~= inner);
    inner.lemma_filter_len(p);
    assert(inner.push(last).filter(p) == if p(last) {
        inner.filter(p).push(last)
    } else {
        inner.filter(p)
    });
    if inner.filter(p).len() == inner.len() {
        lemma_all_kept(inner, p);
    }
}

proof fn lemma_all_kept<T>(s: Seq<T>, p: spec_fn(T) -> bool)
    requires
        s.filter(p).len() == s.len(),
    ensures
        s.filter(p) == s,
    decreases s.len(),
{
    reveal(Seq::filter);
    if s.len() > 0 {
        s.drop_last().lemma_filter_len(p);
        if p(s.last()) {
            lemma_all_kept(s.drop_last(), p);
            assert(s.drop_last().push(s.last()) =~= s);
        }
    } else {
        assert(s.filter(p) =~= s);
    }
}

/// Changes are made one after the other, each on what the ones before it have left, and it is told
/// whether any of them has changed anything.
pub proof fn lemma_updates_in_order(
    s: StoreView,
    scalars: Seq<ScalarUpdateView>,
    scalar: ScalarUpdateView,
    texts: Seq<TextUpdateView>,
    text: TextUpdateView,
    text_lists: Seq<TextListUpdateView>,
    text_list: TextListUpdateView,
    object_lists: Seq<ObjectListUpdateView>,
    object_list: ObjectListUpdateView,
    event: UiEventView,
)
    ensures
        ({
            let before = action_step(
                s,
                SemanticActionView::UpdateScalars { updates: scalars },
                event,
            );
            let last = scalar_step(before.0, scalar, event);
            let all = SemanticActionView::UpdateScalars { updates: scalars.push(scalar) };
            action_step(s, all, event) == (last.0, before.1 || last.1)
        }),
        ({
            let before = action_step(s, SemanticActionView::UpdateTexts { updates: texts }, event);
            let last = text_step(before.0, text, event);
            let all = SemanticActionView::UpdateTexts { updates: texts.push(text) };
            action_step(s, all, event) == (last.0, before.1 || last.1)
        }),
        ({
            let before = action_step(
                s,
                SemanticActionView::UpdateTextLists { updates: text_lists },
                event,
            );
            let last = text_list_step(before.0, text_list, event);
            let all = SemanticActionView::UpdateTextLists { updates: text_lists.push(text_list) };
            action_step(s, all, event) == (last.0, before.1 || last.1)
        }),
        ({
            let before = action_step(
                s,
                SemanticActionView::UpdateObjectLists { updates: object_lists },
                event,
            );
            let last = object_list_step(before.0, object_list, event);
            let all = SemanticActionView::UpdateObjectLists {
                updates: object_lists.push(object_list),
            };
            action_step(s, all, event) == (last.0, before.1 || last.1)
        }),
{
    assert(scalars.push(scalar).drop_last() =~= scalars);
    assert(texts.push(text).drop_last() =~= texts);
    assert(text_lists.push(text_list).drop_last() =~= text_lists);
    assert(object_lists.push(object_list).drop_last() =~= object_lists);
}

proof fn lemma_first_actions(
    s: StoreView,
    actions: Seq<SemanticActionView>,
    last: SemanticActionView,
    n: nat,
    event: UiEventView,
)
    requires
        n <= actions.len(),
    ensures
        action_steps(s, actions.push(last), n, event) == action_steps(s, actions, n, event),
    decreases n,
{
    if n > 0 {
        lemma_first_actions(s, actions, last, (n - 1) as nat, event);
        assert(actions.push(last)[n - 1] == actions[n - 1]);
    }
}

/// The actions of a batch are done one after the other, each on what the ones before it have
/// left. Without updates and without actions nothing happens.
pub proof fn lemma_batch_in_order(
    s: StoreView,
    actions: Seq<SemanticActionView>,
    last: SemanticActionView,
    event: UiEventView,
)
    ensures
        ({
            let before = action_step(s, SemanticActionView::Batch { actions }, event);
            let after = action_step(before.0, last, event);
            action_step(s, SemanticActionView::Batch { actions: actions.push(last) }, event) == (
                after.0,
                before.1 || after.1,
            )
        }),
        action_step(s, SemanticActionView::Batch { actions: Seq::empty() }, event) == (s, false),
        action_step(s, SemanticActionView::UpdateScalars { updates: Seq::empty() }, event) == (
            s,
            false,
        ),
        action_step(s, SemanticActionView::UpdateTexts { updates: Seq::empty() }, event) == (
            s,
            false,
        ),
        action_step(s, SemanticActionView::UpdateTextLists { updates: Seq::empty() }, event) == (
            s,
            false,
        ),
        action_step(s, SemanticActionView::UpdateObjectLists { updates: Seq::empty() }, event) == (
            s,
            false,
        ),
{
    lemma_first_actions(s, actions, last, actions.len(), event);
    assert(actions.push(last)[actions.len() as int] == last);
    assert(actions.push(last).len() == actions.len() + 1);
}

/// Changes inside an item are made to the item of the given identity, in the list of the given
/// name, one after the other, and to no other item.
pub proof fn lemma_nested_updates(
    s: StoreView,
    binding: Seq<char>,
    id: u64,
    update: NestedObjectListUpdateView,
    event: UiEventView,
    i: int,
)
    requires
        stands_at(list_at(s.state.object_lists, binding), id, i),
    ensures
        ({
            let items = list_at(s.state.object_lists, binding);
            let after = action_step(
                s,
                SemanticActionView::UpdateNestedObjectLists {
                    parent_binding: binding,
                    parent_item_id: id,
                    updates: seq![update],
                },
                event,
            );
            let done = nested_step(items[i], s.next_object_item_id, update);
            let now = list_at(after.0.state.object_lists, binding);
            &&& now.len() == items.len()
            &&& now[i] == done.0
            &&& after.0.next_object_item_id == done.1
            &&& after.1 == done.2
            &&& forall|j: int| 0 <= j < items.len() && j != i ==> #[trigger] now[j] == items[j]
            &&& only_items_of(s, after.0, binding)
        }),
{
    let items = list_at(s.state.object_lists, binding);
    lemma_stands_at(items, id, i);
    reveal_with_fuel(nested_steps, 2);
    assert(seq![update].drop_last() =~= Seq::<NestedObjectListUpdateView>::empty());
    assert(seq![update].last() == update);
}

/// Several changes inside an item are made one after the other.
pub proof fn lemma_nested_updates_in_order(
    item: ObjectListItemView,
    next_id: u64,
    updates: Seq<NestedObjectListUpdateView>,
    last: NestedObjectListUpdateView,
)
    ensures
        ({
            let before = nested_steps(item, next_id, updates);
            let after = nested_step(before.0, before.1, last);
            nested_steps(item, next_id, updates.push(last)) == (
                after.0,
                after.1,
                before.2 || after.2,
            )
        }),
        nested_steps(item, next_id, Seq::empty()) == (item, next_id, false),
{
    assert(updates.push(last).drop_last() =~= updates);
}

} // verus!
