//! What actions do to the state.
use crate::scene::{
    UiEvent, UiEventView, event_payload_matches, event_primary_payload, primary_payload,
};
use crate::semantic_clone::clone_map_bool;
use crate::semantic_ir::{
    NestedObjectListUpdate, ObjectListFilter, ObjectListItem, ObjectListUpdate, ScalarUpdate,
    SemanticAction, StateRuntimeModel, TextListUpdate, TextUpdate,
};
use crate::semantic_view::{
    NestedObjectListUpdateView, ObjectItemActionSpecView, ObjectListItemView,
    ObjectListUpdateView, ScalarUpdateView, SemanticActionView, TextListUpdateView,
    TextUpdateView, lemma_object_item_action_spec_lists, lemma_object_list_item_lists,
    lemma_semantic_action_seq, semantic_action_seq,
};
use crate::text::{opt_text, text_eq, trim_text, trimmed};
use crate::text_map::{TextMap, lemma_insert_values, lemma_remove_values};
use crate::values::{
    StateView, bool_int, bool_number, item_bool, item_passes, item_seq, lemma_filter_step,
    list_at, object_item_bool_field, object_list_item_matches_filter, scalar_at, scalar_or_zero,
    text_at, text_or_empty, text_seq,
};
use vstd::prelude::*;
use vstd::string::*;

verus! {

/// The state of a program with the text being typed and the identity of the next new item.
#[derive(Debug, PartialEq, Eq)]
pub struct Store {
    pub state: StateRuntimeModel,
    pub draft_text: String,
    pub next_object_item_id: u64,
}

/// The mathematical value of a [`Store`].
#[verifier::ext_equal]
pub struct StoreView {
    pub state: StateView,
    pub draft_text: Seq<char>,
    pub next_object_item_id: u64,
}

impl View for Store {
    type V = StoreView;

    open spec fn view(&self) -> StoreView {
        StoreView {
            state: self.state@,
            draft_text: self.draft_text@,
            next_object_item_id: self.next_object_item_id,
        }
    }
}

/// The store with other scalars.
pub open spec fn with_scalars(s: StoreView, scalar_values: Map<Seq<char>, i64>) -> StoreView {
    StoreView { state: StateView { scalar_values, ..s.state }, ..s }
}

/// The store with other texts.
pub open spec fn with_texts(s: StoreView, text_values: Map<Seq<char>, Seq<char>>) -> StoreView {
    StoreView { state: StateView { text_values, ..s.state }, ..s }
}

/// The store with another list of texts at `binding`.
pub open spec fn with_text_list(
    s: StoreView,
    binding: Seq<char>,
    values: Seq<Seq<char>>,
) -> StoreView {
    let text_lists = s.state.text_lists.insert(binding, values);
    StoreView { state: StateView { text_lists, ..s.state }, ..s }
}

/// The store with another list of items at `binding`.
pub open spec fn with_items(
    s: StoreView,
    binding: Seq<char>,
    items: Seq<ObjectListItemView>,
) -> StoreView {
    let object_lists = s.state.object_lists.insert(binding, items);
    StoreView { state: StateView { object_lists, ..s.state }, ..s }
}

/// Whether an event passes a filter on its payload.
pub open spec fn passes(filter: Option<Seq<char>>, event: UiEventView) -> bool {
    filter is None || primary_payload(event) == filter
}

/// Setting a scalar, and whether that changes it.
pub open spec fn scalar_set(s: StoreView, binding: Seq<char>, value: i64) -> (StoreView, bool) {
    (
        with_scalars(s, s.state.scalar_values.insert(binding, value)),
        scalar_at(s.state.scalar_values, binding) != value,
    )
}

/// What a change of a scalar does, and whether it changes anything.
pub open spec fn scalar_step(
    s: StoreView,
    update: ScalarUpdateView,
    event: UiEventView,
) -> (StoreView, bool) {
    match update {
        ScalarUpdateView::SetTo { binding, value } => scalar_set(s, binding, value),
        ScalarUpdateView::SetFiltered { binding, value, payload_filter } => {
            if passes(Some(payload_filter), event) {
                scalar_set(s, binding, value)
            } else {
                (s, false)
            }
        },
        ScalarUpdateView::Add { binding, delta } => scalar_set(
            s,
            binding,
            scalar_at(s.state.scalar_values, binding).wrapping_add(delta),
        ),
        ScalarUpdateView::ToggleBool { binding } => scalar_set(
            s,
            binding,
            bool_int(scalar_at(s.state.scalar_values, binding) == 0),
        ),
    }
}

/// Setting a text, and whether that changes it.
pub open spec fn text_set(s: StoreView, binding: Seq<char>, value: Seq<char>) -> (StoreView, bool) {
    (
        with_texts(s, s.state.text_values.insert(binding, value)),
        text_at(s.state.text_values, binding) != value,
    )
}

/// The payload that actions look at, or the empty text.
pub open spec fn payload_text(event: UiEventView) -> Seq<char> {
    match primary_payload(event) {
        Some(payload) => payload,
        None => Seq::empty(),
    }
}

/// What a change of a text does, and whether it changes anything.
pub open spec fn text_step(
    s: StoreView,
    update: TextUpdateView,
    event: UiEventView,
) -> (StoreView, bool) {
    match update {
        TextUpdateView::SetStatic { binding, value, payload_filter } => {
            if passes(payload_filter, event) {
                text_set(s, binding, value)
            } else {
                (s, false)
            }
        },
        TextUpdateView::SetFromInput { binding, source_binding, payload_filter } => {
            if passes(payload_filter, event) {
                text_set(s, binding, text_at(s.state.input_texts, source_binding))
            } else {
                (s, false)
            }
        },
        TextUpdateView::SetFromPayload { binding } => text_set(s, binding, payload_text(event)),
    }
}

/// `text`, trimmed if asked for.
pub open spec fn maybe_trimmed(text: Seq<char>, trim: bool) -> Seq<char> {
    if trim {
        trimmed(text)
    } else {
        text
    }
}

/// The text typed into an input element that is to be appended: none when the event is
/// another one or the text is rejected.
pub open spec fn accepted_draft(
    s: StoreView,
    source_binding: Seq<char>,
    key: Option<Seq<char>>,
    trim: bool,
    reject_empty: bool,
    event: UiEventView,
) -> Option<Seq<char>> {
    let text = maybe_trimmed(text_at(s.state.input_texts, source_binding), trim);
    if !passes(key, event) || (reject_empty && text.len() == 0) {
        None
    } else {
        Some(text)
    }
}

/// Forgetting the text typed into an input element, if asked for.
pub open spec fn draft_cleared(s: StoreView, source_binding: Seq<char>, clear: bool) -> StoreView {
    if clear {
        let input_texts = s.state.input_texts.insert(source_binding, Seq::empty());
        StoreView {
            state: StateView { input_texts, ..s.state },
            draft_text: Seq::empty(),
            next_object_item_id: s.next_object_item_id,
        }
    } else {
        s
    }
}

/// What a change of a text list does, and whether it changes anything.
pub open spec fn text_list_step(
    s: StoreView,
    update: TextListUpdateView,
    event: UiEventView,
) -> (StoreView, bool) {
    match update {
        TextListUpdateView::AppendDraftText {
            binding,
            source_binding,
            key,
            trim,
            reject_empty,
            clear_draft,
        } => match accepted_draft(s, source_binding, key, trim, reject_empty, event) {
            None => (s, false),
            Some(text) => (
                draft_cleared(
                    with_text_list(s, binding, list_at(s.state.text_lists, binding).push(text)),
                    source_binding,
                    clear_draft,
                ),
                true,
            ),
        },
        TextListUpdateView::Clear { binding } => (
            with_text_list(s, binding, Seq::empty()),
            list_at(s.state.text_lists, binding).len() > 0,
        ),
    }
}

/// Where the first item with the given identity stands, or the number of items.
pub open spec fn item_index(items: Seq<ObjectListItemView>, id: u64) -> int
    decreases items.len(),
{
    if items.len() == 0 || items[0].id == id {
        0
    } else {
        1 + item_index(items.skip(1), id)
    }
}

/// An item with a truth value set.
pub open spec fn with_bool(
    item: ObjectListItemView,
    field: Seq<char>,
    value: bool,
) -> ObjectListItemView {
    if field == "completed"@ {
        ObjectListItemView { completed: value, ..item }
    } else {
        ObjectListItemView { bool_fields: item.bool_fields.insert(field, value), ..item }
    }
}

/// An item as it is appended: under the identity of the next new item.
pub open spec fn with_id(item: ObjectListItemView, id: u64) -> ObjectListItemView {
    ObjectListItemView { id, ..item }
}

/// A new item with a title and truth values.
pub open spec fn new_item(
    id: u64,
    title: Seq<char>,
    bool_fields: Map<Seq<char>, bool>,
) -> ObjectListItemView {
    ObjectListItemView {
        id,
        title,
        completed: false,
        text_fields: Map::empty(),
        bool_fields,
        scalar_fields: Map::empty(),
        object_lists: Map::empty(),
        nested_item_actions: Map::empty(),
    }
}

/// The store after the identity of the next new item was used.
pub open spec fn id_used(s: StoreView) -> StoreView {
    StoreView { next_object_item_id: s.next_object_item_id.wrapping_add(1), ..s }
}

/// The items with all of them completed, or none when all of them were.
pub open spec fn all_toggled(items: Seq<ObjectListItemView>) -> Seq<ObjectListItemView> {
    let completed = exists|i: int| 0 <= i < items.len() && !(#[trigger] items[i]).completed;
    items.map_values(|item: ObjectListItemView| ObjectListItemView { completed, ..item })
}

/// What a change of an object list does, and whether it changes anything.
pub open spec fn object_list_step(
    s: StoreView,
    update: ObjectListUpdateView,
    event: UiEventView,
) -> (StoreView, bool) {
    match update {
        ObjectListUpdateView::AppendObject { binding, item } => {
            let items = list_at(s.state.object_lists, binding);
            (
                id_used(with_items(s, binding, items.push(with_id(item, s.next_object_item_id)))),
                true,
            )
        },
        ObjectListUpdateView::AppendDraftObject {
            binding,
            source_binding,
            key,
            trim,
            reject_empty,
            clear_draft,
            bool_fields,
        } => match accepted_draft(s, source_binding, key, trim, reject_empty, event) {
            None => (s, false),
            Some(title) => {
                let items = list_at(s.state.object_lists, binding);
                let item = new_item(s.next_object_item_id, title, bool_fields);
                (
                    draft_cleared(
                        id_used(with_items(s, binding, items.push(item))),
                        source_binding,
                        clear_draft,
                    ),
                    true,
                )
            },
        },
        ObjectListUpdateView::ToggleBoolField { binding, item_id, field } => {
            let items = list_at(s.state.object_lists, binding);
            let i = item_index(items, item_id);
            if i < items.len() {
                let item = with_bool(items[i], field, !item_bool(items[i], field));
                (with_items(s, binding, items.update(i, item)), true)
            } else {
                (with_items(s, binding, items), false)
            }
        },
        ObjectListUpdateView::SetBoolField { binding, item_id, field, value, payload_filter } => {
            let items = list_at(s.state.object_lists, binding);
            let i = item_index(items, item_id);
            if !passes(payload_filter, event) {
                (s, false)
            } else if i < items.len() {
                let item = with_bool(items[i], field, value);
                (with_items(s, binding, items.update(i, item)), item_bool(items[i], field) != value)
            } else {
                (with_items(s, binding, items), false)
            }
        },
        ObjectListUpdateView::SetTitle { binding, item_id, trim, reject_empty, payload_filter } => {
            let items = list_at(s.state.object_lists, binding);
            let i = item_index(items, item_id);
            let title = maybe_trimmed(payload_text(event), trim);
            if !passes(payload_filter, event) {
                (s, false)
            } else if i < items.len() && !(reject_empty && title.len() == 0) {
                let item = ObjectListItemView { title, ..items[i] };
                (with_items(s, binding, items.update(i, item)), items[i].title != title)
            } else {
                (with_items(s, binding, items), false)
            }
        },
        ObjectListUpdateView::ToggleAllBoolField { binding, field } => {
            let items = list_at(s.state.object_lists, binding);
            if field == "completed"@ {
                (with_items(s, binding, all_toggled(items)), items.len() > 0)
            } else {
                (with_items(s, binding, items), false)
            }
        },
        ObjectListUpdateView::RemoveItem { binding, item_id } => {
            let items = list_at(s.state.object_lists, binding);
            let kept = items.filter(|item: ObjectListItemView| item.id != item_id);
            (with_items(s, binding, kept), kept.len() != items.len())
        },
        ObjectListUpdateView::RemoveMatching { binding, filter } => {
            let items = list_at(s.state.object_lists, binding);
            let scalars = s.state.scalar_values;
            let kept = items.filter(
                |item: ObjectListItemView| !item_passes(item, filter, scalars),
            );
            (with_items(s, binding, kept), kept.len() != items.len())
        },
    }
}

/// What a change of a list inside an item does to the item and to the identity of the next
/// new item, and whether it changes anything.
pub open spec fn nested_step(
    item: ObjectListItemView,
    next_id: u64,
    update: NestedObjectListUpdateView,
) -> (ObjectListItemView, u64, bool) {
    match update {
        NestedObjectListUpdateView::AppendObject { field, item: added } => {
            let items = list_at(item.object_lists, field).push(with_id(added, next_id));
            (
                ObjectListItemView { object_lists: item.object_lists.insert(field, items), ..item },
                next_id.wrapping_add(1),
                true,
            )
        },
        NestedObjectListUpdateView::RemoveItem { field, item_id } => {
            let items = list_at(item.object_lists, field);
            let kept = items.filter(|x: ObjectListItemView| x.id != item_id);
            if kept.len() == items.len() {
                (item, next_id, false)
            } else {
                (
                    ObjectListItemView {
                        object_lists: item.object_lists.insert(field, kept),
                        ..item
                    },
                    next_id,
                    true,
                )
            }
        },
    }
}

/// What changes of lists inside an item do, one after the other.
pub open spec fn nested_steps(
    item: ObjectListItemView,
    next_id: u64,
    updates: Seq<NestedObjectListUpdateView>,
) -> (ObjectListItemView, u64, bool)
    decreases updates.len(),
{
    if updates.len() == 0 {
        (item, next_id, false)
    } else {
        let before = nested_steps(item, next_id, updates.drop_last());
        let after = nested_step(before.0, before.1, updates.last());
        (after.0, after.1, before.2 || after.2)
    }
}

/// What changes of lists inside the item with the given identity do.
pub open spec fn nested_lists_step(
    s: StoreView,
    parent_binding: Seq<char>,
    parent_item_id: u64,
    updates: Seq<NestedObjectListUpdateView>,
) -> (StoreView, bool) {
    let items = list_at(s.state.object_lists, parent_binding);
    let i = item_index(items, parent_item_id);
    if i < items.len() {
        let after = nested_steps(items[i], s.next_object_item_id, updates);
        let stored = with_items(s, parent_binding, items.update(i, after.0));
        (StoreView { next_object_item_id: after.1, ..stored }, after.2)
    } else {
        (with_items(s, parent_binding, items), false)
    }
}

/// What changes of scalars do, one after the other.
pub open spec fn scalar_steps(
    s: StoreView,
    updates: Seq<ScalarUpdateView>,
    event: UiEventView,
) -> (StoreView, bool)
    decreases updates.len(),
{
    if updates.len() == 0 {
        (s, false)
    } else {
        let before = scalar_steps(s, updates.drop_last(), event);
        let after = scalar_step(before.0, updates.last(), event);
        (after.0, before.1 || after.1)
    }
}

/// What changes of texts do, one after the other.
pub open spec fn text_steps(
    s: StoreView,
    updates: Seq<TextUpdateView>,
    event: UiEventView,
) -> (StoreView, bool)
    decreases updates.len(),
{
    if updates.len() == 0 {
        (s, false)
    } else {
        let before = text_steps(s, updates.drop_last(), event);
        let after = text_step(before.0, updates.last(), event);
        (after.0, before.1 || after.1)
    }
}

/// What changes of text lists do, one after the other.
pub open spec fn text_list_steps(
    s: StoreView,
    updates: Seq<TextListUpdateView>,
    event: UiEventView,
) -> (StoreView, bool)
    decreases updates.len(),
{
    if updates.len() == 0 {
        (s, false)
    } else {
        let before = text_list_steps(s, updates.drop_last(), event);
        let after = text_list_step(before.0, updates.last(), event);
        (after.0, before.1 || after.1)
    }
}

/// What changes of object lists do, one after the other.
pub open spec fn object_list_steps(
    s: StoreView,
    updates: Seq<ObjectListUpdateView>,
    event: UiEventView,
) -> (StoreView, bool)
    decreases updates.len(),
{
    if updates.len() == 0 {
        (s, false)
    } else {
        let before = object_list_steps(s, updates.drop_last(), event);
        let after = object_list_step(before.0, updates.last(), event);
        (after.0, before.1 || after.1)
    }
}

/// What an action does, and whether it changes anything.
pub open spec fn action_step(
    s: StoreView,
    action: SemanticActionView,
    event: UiEventView,
) -> (StoreView, bool)
    decreases action, 0nat,
{
    match action {
        SemanticActionView::UpdateScalars { updates } => scalar_steps(s, updates, event),
        SemanticActionView::UpdateTexts { updates } => text_steps(s, updates, event),
        SemanticActionView::UpdateTextLists { updates } => text_list_steps(s, updates, event),
        SemanticActionView::UpdateObjectLists { updates } => object_list_steps(s, updates, event),
        SemanticActionView::UpdateNestedObjectLists { parent_binding, parent_item_id, updates } => {
            nested_lists_step(s, parent_binding, parent_item_id, updates)
        },
        SemanticActionView::Batch { actions } => action_steps(s, actions, actions.len(), event),
    }
}

/// What the first `n` of the actions do, one after the other.
pub open spec fn action_steps(
    s: StoreView,
    actions: Seq<SemanticActionView>,
    n: nat,
    event: UiEventView,
) -> (StoreView, bool)
    decreases actions, n,
{
    if n == 0 || n > actions.len() {
        (s, false)
    } else {
        let before = action_steps(s, actions, (n - 1) as nat, event);
        let after = action_step(before.0, actions[n - 1], event);
        (after.0, before.1 || after.1)
    }
}

/// Whether an event passes a filter on its payload.
pub fn event_passes(filter: &Option<String>, event: &UiEvent) -> (r: bool)
    ensures
        r == passes(opt_text(*filter), event@),
{
    match filter {
        Some(expected) => event_payload_matches(event, expected.as_str()),
        None => true,
    }
}

fn event_payload_text(event: &UiEvent) -> (r: String)
    ensures
        r@ == payload_text(event@),
{
    match event_primary_payload(event) {
        Some(payload) => payload,
        None => String::new(),
    }
}

/// Sets a scalar and tells whether that changes it.
pub fn set_scalar(store: &mut Store, binding: &String, value: i64) -> (r: bool)
    ensures
        (final(store)@, r) == scalar_set(old(store)@, binding@, value),
{
    let changed = scalar_or_zero(&store.state.scalar_values, binding.as_str()) != value;
    store.state.scalar_values.insert(binding.clone(), value);
    changed
}

/// Sets a text and tells whether that changes it.
pub fn set_text(store: &mut Store, binding: &String, value: String) -> (r: bool)
    ensures
        (final(store)@, r) == text_set(old(store)@, binding@, value@),
{
    let before = text_or_empty(&store.state.text_values, binding.as_str());
    let changed = !text_eq(before.as_str(), value.as_str());
    proof {
        lemma_insert_values(store.state.text_values@, binding@, value, |x: String| x@);
    }
    store.state.text_values.insert(binding.clone(), value);
    changed
}

/// Sets the text typed into an input element.
pub fn set_input_text(store: &mut Store, binding: String, value: String)
    ensures
        final(store)@ == (StoreView {
            state: StateView {
                input_texts: old(store)@.state.input_texts.insert(binding@, value@),
                ..old(store)@.state
            },
            ..old(store)@
        }),
{
    proof {
        lemma_insert_values(store.state.input_texts@, binding@, value, |x: String| x@);
    }
    store.state.input_texts.insert(binding, value);
}

fn clear_draft_text(store: &mut Store, source_binding: &String, clear: bool)
    ensures
        final(store)@ == draft_cleared(old(store)@, source_binding@, clear),
{
    if clear {
        set_input_text(store, source_binding.clone(), String::new());
        store.draft_text = String::new();
    }
}

fn apply_scalar_update(store: &mut Store, update: &ScalarUpdate, event: &UiEvent) -> (r: bool)
    ensures
        (final(store)@, r) == scalar_step(old(store)@, update@, event@),
{
    match update {
        ScalarUpdate::SetTo { binding, value } => set_scalar(store, binding, *value),
        ScalarUpdate::SetFiltered { binding, value, payload_filter } => {
            if event_payload_matches(event, payload_filter.as_str()) {
                set_scalar(store, binding, *value)
            } else {
                false
            }
        },
        ScalarUpdate::Add { binding, delta } => {
            let current: i64 = scalar_or_zero(&store.state.scalar_values, binding.as_str());
            set_scalar(store, binding, current.wrapping_add(*delta))
        },
        ScalarUpdate::ToggleBool { binding } => {
            let current: i64 = scalar_or_zero(&store.state.scalar_values, binding.as_str());
            set_scalar(store, binding, bool_number(current == 0))
        },
    }
}

fn apply_text_update(store: &mut Store, update: &TextUpdate, event: &UiEvent) -> (r: bool)
    ensures
        (final(store)@, r) == text_step(old(store)@, update@, event@),
{
    match update {
        TextUpdate::SetStatic { binding, value, payload_filter } => {
            if event_passes(payload_filter, event) {
                set_text(store, binding, value.clone())
            } else {
                false
            }
        },
        TextUpdate::SetFromInput { binding, source_binding, payload_filter } => {
            if event_passes(payload_filter, event) {
                let value = text_or_empty(&store.state.input_texts, source_binding.as_str());
                set_text(store, binding, value)
            } else {
                false
            }
        },
        TextUpdate::SetFromPayload { binding } => {
            let value = event_payload_text(event);
            set_text(store, binding, value)
        },
    }
}

fn trimmed_if(text: String, trim: bool) -> (r: String)
    ensures
        r@ == maybe_trimmed(text@, trim),
{
    if trim {
        trim_text(text.as_str())
    } else {
        text
    }
}

fn draft_to_append(
    store: &Store,
    source_binding: &String,
    key: &Option<String>,
    trim: bool,
    reject_empty: bool,
    event: &UiEvent,
) -> (r: Option<String>)
    ensures
        opt_text(r) == accepted_draft(
            store@,
            source_binding@,
            opt_text(*key),
            trim,
            reject_empty,
            event@,
        ),
{
    if !event_passes(key, event) {
        return None;
    }
    let typed = text_or_empty(&store.state.input_texts, source_binding.as_str());
    let text = trimmed_if(typed, trim);
    if reject_empty && text.as_str().is_empty() {
        None
    } else {
        Some(text)
    }
}

fn take_texts(store: &mut Store, binding: &String) -> (r: Vec<String>)
    ensures
        text_seq(r@) == list_at(old(store)@.state.text_lists, binding@),
        final(store)@ == (StoreView {
            state: StateView {
                text_lists: old(store)@.state.text_lists.remove(binding@),
                ..old(store)@.state
            },
            ..old(store)@
        }),
{
    proof {
        lemma_remove_values(
            store.state.text_lists@,
            binding@,
            |x: Vec<String>| x@.map_values(|x: String| x@),
        );
    }
    match store.state.text_lists.take(binding.as_str()) {
        Some(values) => values,
        None => {
            let none: Vec<String> = Vec::new();
            proof {
                assert(text_seq(none@) =~= Seq::<Seq<char>>::empty());
            }
            none
        },
    }
}

fn put_texts(store: &mut Store, binding: &String, values: Vec<String>)
    ensures
        final(store)@ == with_text_list(old(store)@, binding@, text_seq(values@)),
{
    proof {
        lemma_insert_values(
            store.state.text_lists@,
            binding@,
            values,
            |x: Vec<String>| x@.map_values(|x: String| x@),
        );
    }
    store.state.text_lists.insert(binding.clone(), values);
}

fn apply_text_list_update(store: &mut Store, update: &TextListUpdate, event: &UiEvent) -> (r: bool)
    ensures
        (final(store)@, r) == text_list_step(old(store)@, update@, event@),
{
    match update {
        TextListUpdate::AppendDraftText {
            binding,
            source_binding,
            key,
            trim,
            reject_empty,
            clear_draft,
        } => {
            match draft_to_append(store, source_binding, key, *trim, *reject_empty, event) {
                None => false,
                Some(text) => {
                    let ghost before = store@;
                    let mut values = take_texts(store, binding);
                    let ghost listed = text_seq(values@);
                    values.push(text);
                    proof {
                        assert(text_seq(values@) =~= listed.push(text@));
                    }
                    put_texts(store, binding, values);
                    proof {
                        assert(store@ =~= with_text_list(before, binding@, listed.push(text@)));
                    }
                    clear_draft_text(store, source_binding, *clear_draft);
                    true
                },
            }
        },
        TextListUpdate::Clear { binding } => {
            let ghost before = store@;
            let values = take_texts(store, binding);
            let changed = values.len() > 0;
            let none: Vec<String> = Vec::new();
            proof {
                assert(text_seq(values@).len() == values@.len());
                assert(text_seq(none@) =~= Seq::<Seq<char>>::empty());
            }
            put_texts(store, binding, none);
            proof {
                assert(store@ =~= with_text_list(before, binding@, Seq::empty()));
            }
            changed
        },
    }
}

fn take_items(store: &mut Store, binding: &String) -> (r: Vec<ObjectListItem>)
    ensures
        item_seq(r@) == list_at(old(store)@.state.object_lists, binding@),
        final(store)@ == (StoreView {
            state: StateView {
                object_lists: old(store)@.state.object_lists.remove(binding@),
                ..old(store)@.state
            },
            ..old(store)@
        }),
{
    proof {
        lemma_remove_values(
            store.state.object_lists@,
            binding@,
            |x: Vec<ObjectListItem>| x@.map_values(|x: ObjectListItem| x@),
        );
    }
    match store.state.object_lists.take(binding.as_str()) {
        Some(items) => items,
        None => {
            let none: Vec<ObjectListItem> = Vec::new();
            proof {
                assert(item_seq(none@) =~= Seq::<ObjectListItemView>::empty());
            }
            none
        },
    }
}

fn put_items(store: &mut Store, binding: &String, items: Vec<ObjectListItem>)
    ensures
        final(store)@ == with_items(old(store)@, binding@, item_seq(items@)),
{
    proof {
        lemma_insert_values(
            store.state.object_lists@,
            binding@,
            items,
            |x: Vec<ObjectListItem>| x@.map_values(|x: ObjectListItem| x@),
        );
    }
    store.state.object_lists.insert(binding.clone(), items);
}

proof fn lemma_item_index(items: Seq<ObjectListItemView>, id: u64, i: int)
    requires
        0 <= i <= items.len(),
        forall|j: int| 0 <= j < i ==> (#[trigger] items[j]).id != id,
        i < items.len() ==> items[i].id == id,
    ensures
        item_index(items, id) == i,
    decreases i,
{
    if i > 0 {
        assert(items[0].id != id);
        let rest = items.skip(1);
        assert forall|j: int| 0 <= j < i - 1 implies (#[trigger] rest[j]).id != id by {
            assert(rest[j] == items[j + 1]);
        }
        lemma_item_index(rest, id, i - 1);
    }
}

fn find_item(items: &Vec<ObjectListItem>, id: u64) -> (r: usize)
    ensures
        r <= items@.len(),
        r == item_index(item_seq(items@), id),
{
    let ghost all = item_seq(items@);
    let mut i: usize = 0;
    while i < items.len()
        invariant
            i <= items@.len(),
            all == item_seq(items@),
            forall|j: int| 0 <= j < i ==> (#[trigger] all[j]).id != id,
        decreases items@.len() - i,
    {
        proof {
            assert(all[i as int] == items@[i as int]@);
        }
        if items[i].id == id {
            proof {
                lemma_item_index(all, id, i as int);
            }
            return i;
        }
        i = i + 1;
    }
    proof {
        lemma_item_index(all, id, i as int);
    }
    i
}

fn set_item_bool(item: &mut ObjectListItem, field: &String, value: bool)
    ensures
        final(item)@ == with_bool(old(item)@, field@, value),
{
    if text_eq(field.as_str(), "completed") {
        item.completed = value;
    } else {
        item.bool_fields.insert(field.clone(), value);
    }
}

fn set_list_bool(items: &mut Vec<ObjectListItem>, i: usize, field: &String, value: bool)
    requires
        i < old(items)@.len(),
    ensures
        item_seq(final(items)@) == item_seq(old(items)@).update(
            i as int,
            with_bool(item_seq(old(items)@)[i as int], field@, value),
        ),
{
    let ghost before = item_seq(items@);
    let mut item = items[i].clone();
    set_item_bool(&mut item, field, value);
    items.set(i, item);
    proof {
        assert(item_seq(items@) =~= before.update(
            i as int,
            with_bool(before[i as int], field@, value),
        ));
    }
}

fn toggle_all_completed(items: &Vec<ObjectListItem>) -> (r: Vec<ObjectListItem>)
    ensures
        item_seq(r@) == all_toggled(item_seq(items@)),
{
    let ghost all = item_seq(items@);
    let mut completed: bool = false;
    let mut i: usize = 0;
    while i < items.len()
        invariant
            i <= items@.len(),
            all == item_seq(items@),
            completed == exists|j: int| 0 <= j < i && !(#[trigger] all[j]).completed,
        decreases items@.len() - i,
    {
        proof {
            assert(all[i as int] == items@[i as int]@);
        }
        if !items[i].completed {
            completed = true;
        }
        i = i + 1;
    }
    let mut out: Vec<ObjectListItem> = Vec::new();
    let mut k: usize = 0;
    while k < items.len()
        invariant
            k == out@.len(),
            k <= items@.len(),
            forall|j: int|
                0 <= j < k ==> (#[trigger] out@[j])@ == (ObjectListItemView {
                    completed,
                    ..items@[j]@
                }),
        decreases items@.len() - k,
    {
        let mut item = items[k].clone();
        item.completed = completed;
        out.push(item);
        k = k + 1;
    }
    proof {
        assert(item_seq(out@) =~= all_toggled(all));
    }
    out
}

fn without_item(items: &Vec<ObjectListItem>, item_id: u64) -> (r: Vec<ObjectListItem>)
    ensures
        item_seq(r@) == item_seq(items@).filter(|item: ObjectListItemView| item.id != item_id),
{
    let ghost all = item_seq(items@);
    let ghost pred = |item: ObjectListItemView| item.id != item_id;
    let mut out: Vec<ObjectListItem> = Vec::new();
    let mut i: usize = 0;
    proof {
        reveal(Seq::filter);
        assert(item_seq(out@) =~= all.take(0).filter(pred));
    }
    while i < items.len()
        invariant
            i <= items@.len(),
            all == item_seq(items@),
            pred == (|item: ObjectListItemView| item.id != item_id),
            item_seq(out@) == all.take(i as int).filter(pred),
        decreases items@.len() - i,
    {
        proof {
            lemma_filter_step(all, i as int, pred);
            assert(all[i as int] == items@[i as int]@);
        }
        if items[i].id != item_id {
            let ghost before = out@;
            out.push(items[i].clone());
            proof {
                assert(item_seq(out@) =~= item_seq(before).push(all[i as int]));
            }
        }
        i = i + 1;
    }
    proof {
        assert(all.take(i as int) =~= all);
    }
    out
}

fn without_matching(
    items: &Vec<ObjectListItem>,
    filter: &ObjectListFilter,
    scalar_values: &TextMap<i64>,
) -> (r: Vec<ObjectListItem>)
    ensures
        item_seq(r@) == item_seq(items@).filter(
            |item: ObjectListItemView| !item_passes(item, filter@, scalar_values@),
        ),
{
    let ghost all = item_seq(items@);
    let ghost pred = |item: ObjectListItemView| !item_passes(item, filter@, scalar_values@);
    let mut out: Vec<ObjectListItem> = Vec::new();
    let mut i: usize = 0;
    proof {
        reveal(Seq::filter);
        assert(item_seq(out@) =~= all.take(0).filter(pred));
    }
    while i < items.len()
        invariant
            i <= items@.len(),
            all == item_seq(items@),
            pred == (|item: ObjectListItemView| !item_passes(item, filter@, scalar_values@)),
            item_seq(out@) == all.take(i as int).filter(pred),
        decreases items@.len() - i,
    {
        proof {
            lemma_filter_step(all, i as int, pred);
        }
        if !object_list_item_matches_filter(&items[i], filter, scalar_values) {
            let ghost before = out@;
            out.push(items[i].clone());
            proof {
                assert(item_seq(out@) =~= item_seq(before).push(all[i as int]));
            }
        }
        i = i + 1;
    }
    proof {
        assert(all.take(i as int) =~= all);
    }
    out
}

fn append_item(store: &mut Store, binding: &String, item: ObjectListItem)
    ensures
        final(store)@ == id_used(
            with_items(
                old(store)@,
                binding@,
                list_at(old(store)@.state.object_lists, binding@).push(item@),
            ),
        ),
{
    let ghost before = store@;
    let mut items = take_items(store, binding);
    let ghost listed = item_seq(items@);
    items.push(item);
    proof {
        assert(item_seq(items@) =~= listed.push(item@));
    }
    put_items(store, binding, items);
    store.next_object_item_id = store.next_object_item_id.wrapping_add(1);
    proof {
        assert(store@ =~= id_used(with_items(before, binding@, listed.push(item@))));
    }
}

fn created_item(id: u64, title: String, bool_fields: &TextMap<bool>) -> (r: ObjectListItem)
    ensures
        r@ == new_item(id, title@, bool_fields@),
{
    let r = ObjectListItem {
        id,
        title,
        completed: false,
        text_fields: TextMap::new(),
        bool_fields: clone_map_bool(bool_fields),
        scalar_fields: TextMap::new(),
        object_lists: TextMap::new(),
        nested_item_actions: TextMap::new(),
    };
    proof {
        use_type_invariant(&r.object_lists);
        use_type_invariant(&r.nested_item_actions);
        lemma_object_list_item_lists(r.object_lists);
        lemma_object_item_action_spec_lists(r.nested_item_actions);
        assert(r@.text_fields =~= Map::<Seq<char>, Seq<char>>::empty());
        assert(r@.object_lists =~= Map::<Seq<char>, Seq<ObjectListItemView>>::empty());
        assert(r@.nested_item_actions =~= Map::<
            Seq<char>,
            Seq<ObjectItemActionSpecView>,
        >::empty());
    }
    r
}

fn apply_object_list_update(
    store: &mut Store,
    update: &ObjectListUpdate,
    event: &UiEvent,
) -> (r: bool)
    ensures
        (final(store)@, r) == object_list_step(old(store)@, update@, event@),
{
    let ghost before = store@;
    match update {
        ObjectListUpdate::AppendObject { binding, item } => {
            let mut added = item.clone();
            added.id = store.next_object_item_id;
            proof {
                assert(added@ =~= with_id(item@, before.next_object_item_id));
            }
            append_item(store, binding, added);
            true
        },
        ObjectListUpdate::AppendDraftObject {
            binding,
            source_binding,
            key,
            trim,
            reject_empty,
            clear_draft,
            bool_fields,
        } => {
            match draft_to_append(store, source_binding, key, *trim, *reject_empty, event) {
                None => false,
                Some(title) => {
                    let item = created_item(store.next_object_item_id, title, bool_fields);
                    append_item(store, binding, item);
                    clear_draft_text(store, source_binding, *clear_draft);
                    true
                },
            }
        },
        ObjectListUpdate::ToggleBoolField { binding, item_id, field } => {
            let mut items = take_items(store, binding);
            let ghost listed = item_seq(items@);
            let i: usize = find_item(&items, *item_id);
            let found = i < items.len();
            if found {
                let value = !object_item_bool_field(&items[i], field.as_str());
                set_list_bool(&mut items, i, field, value);
            }
            put_items(store, binding, items);
            proof {
                assert(store@ =~= object_list_step(before, update@, event@).0);
            }
            found
        },
        ObjectListUpdate::SetBoolField { binding, item_id, field, value, payload_filter } => {
            if !event_passes(payload_filter, event) {
                return false;
            }
            let mut items = take_items(store, binding);
            let i: usize = find_item(&items, *item_id);
            let mut changed = false;
            if i < items.len() {
                changed = object_item_bool_field(&items[i], field.as_str()) != *value;
                set_list_bool(&mut items, i, field, *value);
            }
            put_items(store, binding, items);
            proof {
                assert(store@ =~= object_list_step(before, update@, event@).0);
            }
            changed
        },
        ObjectListUpdate::SetTitle { binding, item_id, trim, reject_empty, payload_filter } => {
            if !event_passes(payload_filter, event) {
                return false;
            }
            let mut items = take_items(store, binding);
            let ghost listed = item_seq(items@);
            let i: usize = find_item(&items, *item_id);
            let title = trimmed_if(event_payload_text(event), *trim);
            let mut changed = false;
            if i < items.len() && !(*reject_empty && title.as_str().is_empty()) {
                changed = !text_eq(items[i].title.as_str(), title.as_str());
                let mut item = items[i].clone();
                item.title = title;
                items.set(i, item);
                proof {
                    assert(item_seq(items@) =~= listed.update(i as int, item@));
                }
            }
            put_items(store, binding, items);
            proof {
                assert(store@ =~= object_list_step(before, update@, event@).0);
            }
            changed
        },
        ObjectListUpdate::ToggleAllBoolField { binding, field } => {
            let items = take_items(store, binding);
            proof {
                assert(item_seq(items@).len() == items@.len());
            }
            if text_eq(field.as_str(), "completed") {
                let changed = items.len() > 0;
                let toggled = toggle_all_completed(&items);
                put_items(store, binding, toggled);
                proof {
                    assert(store@ =~= object_list_step(before, update@, event@).0);
                }
                changed
            } else {
                put_items(store, binding, items);
                proof {
                    assert(store@ =~= object_list_step(before, update@, event@).0);
                }
                false
            }
        },
        ObjectListUpdate::RemoveItem { binding, item_id } => {
            let items = take_items(store, binding);
            let kept = without_item(&items, *item_id);
            let changed = kept.len() != items.len();
            proof {
                assert(item_seq(items@).len() == items@.len());
                assert(item_seq(kept@).len() == kept@.len());
            }
            put_items(store, binding, kept);
            proof {
                assert(store@ =~= object_list_step(before, update@, event@).0);
            }
            changed
        },
        ObjectListUpdate::RemoveMatching { binding, filter } => {
            let items = take_items(store, binding);
            let kept = without_matching(&items, filter, &store.state.scalar_values);
            let changed = kept.len() != items.len();
            proof {
                assert(item_seq(items@).len() == items@.len());
                assert(item_seq(kept@).len() == kept@.len());
            }
            put_items(store, binding, kept);
            proof {
                assert(store@ =~= object_list_step(before, update@, event@).0);
            }
            changed
        },
    }
}

fn take_nested(item: &mut ObjectListItem, field: &String) -> (r: Vec<ObjectListItem>)
    ensures
        item_seq(r@) == list_at(old(item)@.object_lists, field@),
        final(item)@ == (ObjectListItemView {
            object_lists: old(item)@.object_lists.remove(field@),
            ..old(item)@
        }),
{
    let ghost f = |s: Vec<ObjectListItem>| s@.map_values(|x: ObjectListItem| x@);
    proof {
        use_type_invariant(&item.object_lists);
        lemma_object_list_item_lists(item.object_lists);
        lemma_remove_values(item.object_lists@, field@, f);
    }
    let taken = item.object_lists.take(field.as_str());
    proof {
        use_type_invariant(&item.object_lists);
        lemma_object_list_item_lists(item.object_lists);
    }
    match taken {
        Some(items) => items,
        None => {
            let none: Vec<ObjectListItem> = Vec::new();
            proof {
                assert(item_seq(none@) =~= Seq::<ObjectListItemView>::empty());
            }
            none
        },
    }
}

fn nested_items<'a>(item: &'a ObjectListItem, field: &str) -> (r: Option<&'a Vec<ObjectListItem>>)
    ensures
        match r {
            Some(items) => item@.object_lists.contains_key(field@) && item@.object_lists[field@]
                == item_seq(items@),
            None => !item@.object_lists.contains_key(field@),
        },
{
    proof {
        use_type_invariant(&item.object_lists);
        lemma_object_list_item_lists(item.object_lists);
    }
    item.object_lists.get(field)
}

fn put_nested(item: &mut ObjectListItem, field: &String, items: Vec<ObjectListItem>)
    ensures
        final(item)@ == (ObjectListItemView {
            object_lists: old(item)@.object_lists.insert(field@, item_seq(items@)),
            ..old(item)@
        }),
{
    let ghost f = |s: Vec<ObjectListItem>| s@.map_values(|x: ObjectListItem| x@);
    proof {
        use_type_invariant(&item.object_lists);
        lemma_object_list_item_lists(item.object_lists);
        lemma_insert_values(item.object_lists@, field@, items, f);
    }
    item.object_lists.insert(field.clone(), items);
    proof {
        use_type_invariant(&item.object_lists);
        lemma_object_list_item_lists(item.object_lists);
    }
}

fn apply_nested_update(
    item: &mut ObjectListItem,
    next_id: u64,
    update: &NestedObjectListUpdate,
) -> (r: (u64, bool))
    ensures
        (final(item)@, r.0, r.1) == nested_step(old(item)@, next_id, update@),
{
    let ghost before = item@;
    match update {
        NestedObjectListUpdate::AppendObject { field, item: added } => {
            let mut items = take_nested(item, field);
            let ghost listed = item_seq(items@);
            let mut copy = added.clone();
            copy.id = next_id;
            proof {
                assert(copy@ =~= with_id(added@, next_id));
            }
            items.push(copy);
            proof {
                assert(item_seq(items@) =~= listed.push(copy@));
            }
            put_nested(item, field, items);
            proof {
                let after = listed.push(copy@);
                assert(before.object_lists.remove(field@).insert(field@, after)
                    =~= before.object_lists.insert(field@, after));
            }
            (next_id.wrapping_add(1), true)
        },
        NestedObjectListUpdate::RemoveItem { field, item_id } => {
            let kept = match nested_items(item, field.as_str()) {
                None => {
                    return (next_id, false);
                },
                Some(items) => {
                    let kept = without_item(items, *item_id);
                    proof {
                        assert(item_seq(items@).len() == items@.len());
                        assert(item_seq(kept@).len() == kept@.len());
                    }
                    if kept.len() == items.len() {
                        return (next_id, false);
                    }
                    kept
                },
            };
            put_nested(item, field, kept);
            (next_id, true)
        },
    }
}

/// The views of changes of lists inside an item.
pub open spec fn nested_update_seq(
    updates: Seq<NestedObjectListUpdate>,
) -> Seq<NestedObjectListUpdateView> {
    updates.map_values(|x: NestedObjectListUpdate| x@)
}

fn apply_nested_updates(
    item: &mut ObjectListItem,
    next_id: u64,
    updates: &Vec<NestedObjectListUpdate>,
) -> (r: (u64, bool))
    ensures
        (final(item)@, r.0, r.1) == nested_steps(
            old(item)@,
            next_id,
            nested_update_seq(updates@),
        ),
{
    let ghost start = item@;
    let ghost all = nested_update_seq(updates@);
    let mut id: u64 = next_id;
    let mut changed: bool = false;
    let mut i: usize = 0;
    while i < updates.len()
        invariant
            i <= updates@.len(),
            all == nested_update_seq(updates@),
            (item@, id, changed) == nested_steps(start, next_id, all.take(i as int)),
        decreases updates@.len() - i,
    {
        proof {
            assert(all.take(i + 1).drop_last() =~= all.take(i as int));
            assert(all.take(i + 1).last() == updates@[i as int]@);
        }
        let step = apply_nested_update(item, id, &updates[i]);
        id = step.0;
        changed = changed || step.1;
        i = i + 1;
    }
    proof {
        assert(all.take(i as int) =~= all);
    }
    (id, changed)
}

fn apply_nested_list_updates(
    store: &mut Store,
    parent_binding: &String,
    parent_item_id: u64,
    updates: &Vec<NestedObjectListUpdate>,
) -> (r: bool)
    ensures
        (final(store)@, r) == nested_lists_step(
            old(store)@,
            parent_binding@,
            parent_item_id,
            nested_update_seq(updates@),
        ),
{
    let ghost before = store@;
    let mut items = take_items(store, parent_binding);
    let ghost listed = item_seq(items@);
    let i: usize = find_item(&items, parent_item_id);
    let mut changed: bool = false;
    let mut next_id: u64 = store.next_object_item_id;
    if i < items.len() {
        let mut item = items[i].clone();
        let step = apply_nested_updates(&mut item, next_id, updates);
        next_id = step.0;
        changed = step.1;
        items.set(i, item);
        proof {
            assert(item_seq(items@) =~= listed.update(i as int, item@));
        }
    }
    put_items(store, parent_binding, items);
    store.next_object_item_id = next_id;
    proof {
        assert(store@ =~= nested_lists_step(
            before,
            parent_binding@,
            parent_item_id,
            nested_update_seq(updates@),
        ).0);
    }
    changed
}

fn apply_scalar_updates(store: &mut Store, updates: &Vec<ScalarUpdate>, event: &UiEvent) -> (r:
    bool)
    ensures
        (final(store)@, r) == scalar_steps(
            old(store)@,
            updates@.map_values(|x: ScalarUpdate| x@),
            event@,
        ),
{
    let ghost start = store@;
    let ghost all = updates@.map_values(|x: ScalarUpdate| x@);
    let mut changed: bool = false;
    let mut i: usize = 0;
    while i < updates.len()
        invariant
            i <= updates@.len(),
            all == updates@.map_values(|x: ScalarUpdate| x@),
            (store@, changed) == scalar_steps(start, all.take(i as int), event@),
        decreases updates@.len() - i,
    {
        proof {
            assert(all.take(i + 1).drop_last() =~= all.take(i as int));
            assert(all.take(i + 1).last() == updates@[i as int]@);
        }
        let step = apply_scalar_update(store, &updates[i], event);
        changed = changed || step;
        i = i + 1;
    }
    proof {
        assert(all.take(i as int) =~= all);
    }
    changed
}

fn apply_text_updates(store: &mut Store, updates: &Vec<TextUpdate>, event: &UiEvent) -> (r: bool)
    ensures
        (final(store)@, r) == text_steps(
            old(store)@,
            updates@.map_values(|x: TextUpdate| x@),
            event@,
        ),
{
    let ghost start = store@;
    let ghost all = updates@.map_values(|x: TextUpdate| x@);
    let mut changed: bool = false;
    let mut i: usize = 0;
    while i < updates.len()
        invariant
            i <= updates@.len(),
            all == updates@.map_values(|x: TextUpdate| x@),
            (store@, changed) == text_steps(start, all.take(i as int), event@),
        decreases updates@.len() - i,
    {
        proof {
            assert(all.take(i + 1).drop_last() =~= all.take(i as int));
            assert(all.take(i + 1).last() == updates@[i as int]@);
        }
        let step = apply_text_update(store, &updates[i], event);
        changed = changed || step;
        i = i + 1;
    }
    proof {
        assert(all.take(i as int) =~= all);
    }
    changed
}

fn apply_text_list_updates(
    store: &mut Store,
    updates: &Vec<TextListUpdate>,
    event: &UiEvent,
) -> (r: bool)
    ensures
        (final(store)@, r) == text_list_steps(
            old(store)@,
            updates@.map_values(|x: TextListUpdate| x@),
            event@,
        ),
{
    let ghost start = store@;
    let ghost all = updates@.map_values(|x: TextListUpdate| x@);
    let mut changed: bool = false;
    let mut i: usize = 0;
    while i < updates.len()
        invariant
            i <= updates@.len(),
            all == updates@.map_values(|x: TextListUpdate| x@),
            (store@, changed) == text_list_steps(start, all.take(i as int), event@),
        decreases updates@.len() - i,
    {
        proof {
            assert(all.take(i + 1).drop_last() =~= all.take(i as int));
            assert(all.take(i + 1).last() == updates@[i as int]@);
        }
        let step = apply_text_list_update(store, &updates[i], event);
        changed = changed || step;
        i = i + 1;
    }
    proof {
        assert(all.take(i as int) =~= all);
    }
    changed
}

fn apply_object_list_updates(
    store: &mut Store,
    updates: &Vec<ObjectListUpdate>,
    event: &UiEvent,
) -> (r: bool)
    ensures
        (final(store)@, r) == object_list_steps(
            old(store)@,
            updates@.map_values(|x: ObjectListUpdate| x@),
            event@,
        ),
{
    let ghost start = store@;
    let ghost all = updates@.map_values(|x: ObjectListUpdate| x@);
    let mut changed: bool = false;
    let mut i: usize = 0;
    while i < updates.len()
        invariant
            i <= updates@.len(),
            all == updates@.map_values(|x: ObjectListUpdate| x@),
            (store@, changed) == object_list_steps(start, all.take(i as int), event@),
        decreases updates@.len() - i,
    {
        proof {
            assert(all.take(i + 1).drop_last() =~= all.take(i as int));
            assert(all.take(i + 1).last() == updates@[i as int]@);
        }
        let step = apply_object_list_update(store, &updates[i], event);
        changed = changed || step;
        i = i + 1;
    }
    proof {
        assert(all.take(i as int) =~= all);
    }
    changed
}

/// Does what an action does at an event, and tells whether that changes anything.
pub fn apply_action(store: &mut Store, action: &SemanticAction, event: &UiEvent) -> (r: bool)
    ensures
        (final(store)@, r) == action_step(old(store)@, action@, event@),
    decreases action, 0nat,
{
    match action {
        SemanticAction::UpdateScalars { updates } => apply_scalar_updates(store, updates, event),
        SemanticAction::UpdateTexts { updates } => apply_text_updates(store, updates, event),
        SemanticAction::UpdateTextLists { updates } => {
            apply_text_list_updates(store, updates, event)
        },
        SemanticAction::UpdateObjectLists { updates } => {
            apply_object_list_updates(store, updates, event)
        },
        SemanticAction::UpdateNestedObjectLists { parent_binding, parent_item_id, updates } => {
            apply_nested_list_updates(store, parent_binding, *parent_item_id, updates)
        },
        SemanticAction::Batch { actions } => apply_actions(store, actions, event),
    }
}

fn apply_actions(store: &mut Store, actions: &Vec<SemanticAction>, event: &UiEvent) -> (r: bool)
    ensures
        (final(store)@, r) == action_steps(
            old(store)@,
            semantic_action_seq(actions@),
            actions@.len(),
            event@,
        ),
    decreases actions, 0nat,
{
    let ghost start = store@;
    let ghost all = semantic_action_seq(actions@);
    let mut changed: bool = false;
    let mut i: usize = 0;
    proof {
        lemma_semantic_action_seq(actions@);
    }
    while i < actions.len()
        invariant
            i <= actions@.len(),
            all.len() == actions@.len(),
            forall|j: int| 0 <= j < actions@.len() ==> #[trigger] all[j] == actions@[j]@,
            (store@, changed) == action_steps(start, all, i as nat, event@),
        decreases actions@.len() - i,
    {
        proof {
            assert(all[i as int] == actions@[i as int]@);
        }
        let step = apply_action(store, &actions[i], event);
        changed = changed || step;
        i = i + 1;
    }
    changed
}

} // verus!
