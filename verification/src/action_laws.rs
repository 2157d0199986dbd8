//! What holds of every action.
use crate::actions::{
    StoreView, accepted_draft, action_step, action_steps, all_toggled, id_used, item_index,
    maybe_trimmed, nested_steps, new_item, object_list_step, object_list_steps, payload_text,
    scalar_step, scalar_steps, text_list_step, text_list_steps, text_step, text_steps, with_bool,
    with_id, with_items, with_scalars, with_texts,
};
use crate::scene::UiEventView;
use crate::semantic_view::{
    NestedObjectListUpdateView, ObjectListItemView, ObjectListUpdateView, ScalarUpdateView,
    SemanticActionView, TextListUpdateView, TextUpdateView,
};
use crate::values::{item_bool, item_passes, list_at, scalar_at, text_at};
use vstd::prelude::*;

verus! {

/// Whether two items differ at most in truth values that one of them lacks.
pub open spec fn same_item(a: ObjectListItemView, b: ObjectListItemView) -> bool {
    &&& a.id == b.id
    &&& a.title == b.title
    &&& a.completed == b.completed
    &&& a.text_fields == b.text_fields
    &&& a.scalar_fields == b.scalar_fields
    &&& a.object_lists == b.object_lists
    &&& a.nested_item_actions == b.nested_item_actions
    &&& forall|field: Seq<char>| #[trigger] item_bool(a, field) == item_bool(b, field)
}

/// Whether two lists hold the same items.
pub open spec fn same_items(a: Seq<ObjectListItemView>, b: Seq<ObjectListItemView>) -> bool {
    &&& a.len() == b.len()
    &&& forall|i: int| 0 <= i < a.len() ==> same_item(#[trigger] a[i], b[i])
}

/// Whether every scalar, text and list reads the same in two stores. An entry that is missing
/// reads as zero, as the empty text or as the empty list.
pub open spec fn same_content(a: StoreView, b: StoreView) -> bool {
    &&& a.draft_text == b.draft_text
    &&& a.next_object_item_id == b.next_object_item_id
    &&& a.state.input_texts == b.state.input_texts
    &&& a.state.derived_scalars == b.state.derived_scalars
    &&& forall|k: Seq<char>| #[trigger]
        scalar_at(a.state.scalar_values, k) == scalar_at(b.state.scalar_values, k)
    &&& forall|k: Seq<char>| #[trigger]
        text_at(a.state.text_values, k) == text_at(b.state.text_values, k)
    &&& forall|k: Seq<char>| #[trigger]
        list_at(a.state.text_lists, k) == list_at(b.state.text_lists, k)
    &&& forall|k: Seq<char>|
        same_items(#[trigger] list_at(a.state.object_lists, k), list_at(b.state.object_lists, k))
}

/// A store has the same content as itself.
pub proof fn lemma_same_content_refl(s: StoreView)
    ensures
        same_content(s, s),
{
}

/// Having the same content is transitive.
pub proof fn lemma_same_content_trans(a: StoreView, b: StoreView, c: StoreView)
    requires
        same_content(a, b),
        same_content(b, c),
    ensures
        same_content(a, c),
{
    assert forall|k: Seq<char>| same_items(
        #[trigger] list_at(a.state.object_lists, k),
        list_at(c.state.object_lists, k),
    ) by {
        let x = list_at(a.state.object_lists, k);
        let y = list_at(b.state.object_lists, k);
        let z = list_at(c.state.object_lists, k);
        assert(same_items(x, y));
        assert(same_items(y, z));
        assert forall|i: int| 0 <= i < x.len() implies same_item(#[trigger] x[i], z[i]) by {
            assert(same_item(x[i], y[i]));
            assert(same_item(y[i], z[i]));
            assert forall|field: Seq<char>| #[trigger] item_bool(x[i], field) == item_bool(
                z[i],
                field,
            ) by {
                assert(item_bool(y[i], field) == item_bool(z[i], field));
            }
        }
    }
    assert forall|k: Seq<char>| #[trigger] scalar_at(a.state.scalar_values, k) == scalar_at(
        c.state.scalar_values,
        k,
    ) by {
        assert(scalar_at(b.state.scalar_values, k) == scalar_at(c.state.scalar_values, k));
    }
    assert forall|k: Seq<char>| #[trigger] text_at(a.state.text_values, k) == text_at(
        c.state.text_values,
        k,
    ) by {
        assert(text_at(b.state.text_values, k) == text_at(c.state.text_values, k));
    }
    assert forall|k: Seq<char>| #[trigger] list_at(a.state.text_lists, k) == list_at(
        c.state.text_lists,
        k,
    ) by {
        assert(list_at(b.state.text_lists, k) == list_at(c.state.text_lists, k));
    }
}

proof fn lemma_full_filter<A>(s: Seq<A>, pred: spec_fn(A) -> bool)
    requires
        s.filter(pred).len() == s.len(),
    ensures
        s.filter(pred) == s,
    decreases s.len(),
{
    reveal(Seq::filter);
    if s.len() > 0 {
        s.drop_last().lemma_filter_len(pred);
        lemma_full_filter(s.drop_last(), pred);
        assert(s =~= s.drop_last().push(s.last()));
    }
}

proof fn lemma_same_items_refl(items: Seq<ObjectListItemView>)
    ensures
        same_items(items, items),
{
}

/// Storing a list that holds the same items changes no content.
proof fn lemma_put_same_items(s: StoreView, binding: Seq<char>, items: Seq<ObjectListItemView>)
    requires
        same_items(list_at(s.state.object_lists, binding), items),
    ensures
        same_content(s, with_items(s, binding, items)),
{
    let t = with_items(s, binding, items);
    assert forall|k: Seq<char>| same_items(
        #[trigger] list_at(s.state.object_lists, k),
        list_at(t.state.object_lists, k),
    ) by {
        if k != binding {
            lemma_same_items_refl(list_at(s.state.object_lists, k));
        }
    }
}

proof fn lemma_unchanged_object_list(
    s: StoreView,
    update: ObjectListUpdateView,
    event: UiEventView,
)
    requires
        !object_list_step(s, update, event).1,
    ensures
        same_content(s, object_list_step(s, update, event).0),
{
    lemma_same_content_refl(s);
    match update {
        ObjectListUpdateView::AppendObject { .. } => {},
        ObjectListUpdateView::AppendDraftObject { .. } => {},
        ObjectListUpdateView::ToggleBoolField { binding, .. } => {
            let items = list_at(s.state.object_lists, binding);
            lemma_same_items_refl(items);
            lemma_put_same_items(s, binding, items);
        },
        ObjectListUpdateView::SetBoolField { binding, item_id, field, value, .. } => {
            let items = list_at(s.state.object_lists, binding);
            lemma_same_items_refl(items);
            lemma_put_same_items(s, binding, items);
            let i = item_index(items, item_id);
            if i < items.len() && item_bool(items[i], field) == value {
                lemma_item_index_bounds(items, item_id);
                let after = items.update(i, with_bool(items[i], field, value));
                assert(same_item(items[i], after[i]));
                assert(same_items(items, after));
                lemma_put_same_items(s, binding, after);
            }
        },
        ObjectListUpdateView::SetTitle { binding, item_id, trim, .. } => {
            let items = list_at(s.state.object_lists, binding);
            lemma_same_items_refl(items);
            lemma_put_same_items(s, binding, items);
            let i = item_index(items, item_id);
            let title = maybe_trimmed(payload_text(event), trim);
            if i < items.len() && items[i].title == title {
                lemma_item_index_bounds(items, item_id);
                let after = items.update(i, ObjectListItemView { title, ..items[i] });
                assert(after =~= items);
            }
        },
        ObjectListUpdateView::ToggleAllBoolField { binding, .. } => {
            let items = list_at(s.state.object_lists, binding);
            lemma_same_items_refl(items);
            lemma_put_same_items(s, binding, items);
            if items.len() == 0 {
                assert(all_toggled(items) =~= items);
            }
        },
        ObjectListUpdateView::RemoveItem { binding, item_id } => {
            let items = list_at(s.state.object_lists, binding);
            lemma_full_filter(items, |item: ObjectListItemView| item.id != item_id);
            lemma_same_items_refl(items);
            lemma_put_same_items(s, binding, items);
        },
        ObjectListUpdateView::RemoveMatching { binding, filter } => {
            let items = list_at(s.state.object_lists, binding);
            let scalars = s.state.scalar_values;
            lemma_full_filter(
                items,
                |item: ObjectListItemView| !item_passes(item, filter, scalars),
            );
            lemma_same_items_refl(items);
            lemma_put_same_items(s, binding, items);
        },
    }
}

/// The first item with an identity, if any, has that identity.
pub proof fn lemma_item_index_bounds(items: Seq<ObjectListItemView>, id: u64)
    ensures
        0 <= item_index(items, id) <= items.len(),
        item_index(items, id) < items.len() ==> items[item_index(items, id)].id == id,
        forall|j: int| 0 <= j < item_index(items, id) ==> (#[trigger] items[j]).id != id,
    decreases items.len(),
{
    if items.len() > 0 && items[0].id != id {
        lemma_item_index_bounds(items.skip(1), id);
        let i = item_index(items.skip(1), id);
        assert forall|j: int| 0 <= j < 1 + i implies (#[trigger] items[j]).id != id by {
            if j > 0 {
                assert(items.skip(1)[j - 1].id != id);
            }
        }
    }
}

proof fn lemma_unchanged_nested(
    item: ObjectListItemView,
    next_id: u64,
    updates: Seq<NestedObjectListUpdateView>,
)
    requires
        !nested_steps(item, next_id, updates).2,
    ensures
        nested_steps(item, next_id, updates).0 == item,
        nested_steps(item, next_id, updates).1 == next_id,
    decreases updates.len(),
{
    if updates.len() > 0 {
        lemma_unchanged_nested(item, next_id, updates.drop_last());
    }
}

proof fn lemma_unchanged_scalars(
    s: StoreView,
    updates: Seq<ScalarUpdateView>,
    event: UiEventView,
)
    requires
        !scalar_steps(s, updates, event).1,
    ensures
        same_content(s, scalar_steps(s, updates, event).0),
    decreases updates.len(),
{
    lemma_same_content_refl(s);
    if updates.len() > 0 {
        let before = scalar_steps(s, updates.drop_last(), event);
        let after = scalar_step(before.0, updates.last(), event);
        lemma_unchanged_scalars(s, updates.drop_last(), event);
        assert forall|k: Seq<char>| same_items(
            #[trigger] list_at(before.0.state.object_lists, k),
            list_at(after.0.state.object_lists, k),
        ) by {
            lemma_same_items_refl(list_at(before.0.state.object_lists, k));
        }
        assert(same_content(before.0, after.0));
        lemma_same_content_trans(s, before.0, after.0);
    }
}

proof fn lemma_unchanged_texts(s: StoreView, updates: Seq<TextUpdateView>, event: UiEventView)
    requires
        !text_steps(s, updates, event).1,
    ensures
        same_content(s, text_steps(s, updates, event).0),
    decreases updates.len(),
{
    lemma_same_content_refl(s);
    if updates.len() > 0 {
        let before = text_steps(s, updates.drop_last(), event);
        let after = text_step(before.0, updates.last(), event);
        lemma_unchanged_texts(s, updates.drop_last(), event);
        assert forall|k: Seq<char>| same_items(
            #[trigger] list_at(before.0.state.object_lists, k),
            list_at(after.0.state.object_lists, k),
        ) by {
            lemma_same_items_refl(list_at(before.0.state.object_lists, k));
        }
        assert(same_content(before.0, after.0));
        lemma_same_content_trans(s, before.0, after.0);
    }
}

proof fn lemma_unchanged_text_lists(
    s: StoreView,
    updates: Seq<TextListUpdateView>,
    event: UiEventView,
)
    requires
        !text_list_steps(s, updates, event).1,
    ensures
        same_content(s, text_list_steps(s, updates, event).0),
    decreases updates.len(),
{
    lemma_same_content_refl(s);
    if updates.len() > 0 {
        let before = text_list_steps(s, updates.drop_last(), event);
        let after = text_list_step(before.0, updates.last(), event);
        lemma_unchanged_text_lists(s, updates.drop_last(), event);
        lemma_same_content_refl(before.0);
        if let TextListUpdateView::Clear { binding } = updates.last() {
            assert(list_at(before.0.state.text_lists, binding) =~= Seq::<Seq<char>>::empty());
            assert forall|k: Seq<char>| #[trigger] list_at(before.0.state.text_lists, k) == list_at(
                after.0.state.text_lists,
                k,
            ) by {}
            assert forall|k: Seq<char>| same_items(
                #[trigger] list_at(before.0.state.object_lists, k),
                list_at(after.0.state.object_lists, k),
            ) by {
                lemma_same_items_refl(list_at(before.0.state.object_lists, k));
            }
        }
        assert(same_content(before.0, after.0));
        lemma_same_content_trans(s, before.0, after.0);
    }
}

proof fn lemma_unchanged_object_lists(
    s: StoreView,
    updates: Seq<ObjectListUpdateView>,
    event: UiEventView,
)
    requires
        !object_list_steps(s, updates, event).1,
    ensures
        same_content(s, object_list_steps(s, updates, event).0),
    decreases updates.len(),
{
    lemma_same_content_refl(s);
    if updates.len() > 0 {
        let before = object_list_steps(s, updates.drop_last(), event);
        lemma_unchanged_object_lists(s, updates.drop_last(), event);
        lemma_unchanged_object_list(before.0, updates.last(), event);
        lemma_same_content_trans(
            s,
            before.0,
            object_list_step(before.0, updates.last(), event).0,
        );
    }
}

/// An action that reports no change leaves every scalar, text and list as it was.
pub proof fn lemma_unchanged_action_keeps_content(
    s: StoreView,
    action: SemanticActionView,
    event: UiEventView,
)
    requires
        !action_step(s, action, event).1,
    ensures
        same_content(s, action_step(s, action, event).0),
    decreases action, 0nat,
{
    match action {
        SemanticActionView::UpdateScalars { updates } => {
            lemma_unchanged_scalars(s, updates, event);
        },
        SemanticActionView::UpdateTexts { updates } => {
            lemma_unchanged_texts(s, updates, event);
        },
        SemanticActionView::UpdateTextLists { updates } => {
            lemma_unchanged_text_lists(s, updates, event);
        },
        SemanticActionView::UpdateObjectLists { updates } => {
            lemma_unchanged_object_lists(s, updates, event);
        },
        SemanticActionView::UpdateNestedObjectLists { parent_binding, parent_item_id, updates } => {
            let items = list_at(s.state.object_lists, parent_binding);
            let i = item_index(items, parent_item_id);
            lemma_item_index_bounds(items, parent_item_id);
            lemma_same_items_refl(items);
            lemma_put_same_items(s, parent_binding, items);
            if i < items.len() {
                lemma_unchanged_nested(items[i], s.next_object_item_id, updates);
                assert(items.update(i, items[i]) =~= items);
            }
        },
        SemanticActionView::Batch { actions } => {
            lemma_unchanged_actions(s, actions, actions.len(), event);
        },
    }
}

proof fn lemma_unchanged_actions(
    s: StoreView,
    actions: Seq<SemanticActionView>,
    n: nat,
    event: UiEventView,
)
    requires
        !action_steps(s, actions, n, event).1,
    ensures
        same_content(s, action_steps(s, actions, n, event).0),
    decreases actions, n,
{
    lemma_same_content_refl(s);
    if n > 0 && n <= actions.len() {
        let before = action_steps(s, actions, (n - 1) as nat, event);
        lemma_unchanged_actions(s, actions, (n - 1) as nat, event);
        lemma_unchanged_action_keeps_content(before.0, actions[n - 1], event);
        lemma_same_content_trans(s, before.0, action_step(before.0, actions[n - 1], event).0);
    }
}

/// Whether the items of every list have different identities, all of them below that of the
/// next new item.
pub open spec fn identities_ok(s: StoreView) -> bool {
    forall|k: Seq<char>| ids_ok(#[trigger] list_at(s.state.object_lists, k), s.next_object_item_id)
}

/// Whether the items of a list have different identities, all of them below `next_id`.
pub open spec fn ids_ok(items: Seq<ObjectListItemView>, next_id: u64) -> bool {
    &&& forall|i: int| 0 <= i < items.len() ==> (#[trigger] items[i]).id < next_id
    &&& forall|i: int, j: int|
        0 <= i < j < items.len() ==> (#[trigger] items[i]).id != (#[trigger] items[j]).id
}

/// How many new items a change of an object list can make.
pub open spec fn new_items(update: ObjectListUpdateView) -> nat {
    match update {
        ObjectListUpdateView::AppendObject { .. } => 1,
        ObjectListUpdateView::AppendDraftObject { .. } => 1,
        _ => 0,
    }
}

/// How many new items changes of object lists can make.
pub open spec fn all_new_items(updates: Seq<ObjectListUpdateView>) -> nat
    decreases updates.len(),
{
    if updates.len() == 0 {
        0
    } else {
        all_new_items(updates.drop_last()) + new_items(updates.last())
    }
}

/// How many new items an action can make.
pub open spec fn action_new_items(action: SemanticActionView) -> nat
    decreases action, 0nat,
{
    match action {
        SemanticActionView::UpdateObjectLists { updates } => all_new_items(updates),
        SemanticActionView::UpdateNestedObjectLists { updates, .. } => updates.len(),
        SemanticActionView::Batch { actions } => actions_new_items(actions, actions.len()),
        _ => 0,
    }
}

/// How many new items the first `n` of the actions can make.
pub open spec fn actions_new_items(actions: Seq<SemanticActionView>, n: nat) -> nat
    decreases actions, n,
{
    if n == 0 || n > actions.len() {
        0
    } else {
        actions_new_items(actions, (n - 1) as nat) + action_new_items(actions[n - 1])
    }
}

proof fn lemma_ids_filtered(
    items: Seq<ObjectListItemView>,
    next_id: u64,
    pred: spec_fn(ObjectListItemView) -> bool,
)
    requires
        ids_ok(items, next_id),
    ensures
        ids_ok(items.filter(pred), next_id),
        forall|i: int|
            0 <= i < items.filter(pred).len() ==> items.contains(#[trigger] items.filter(pred)[i]),
    decreases items.len(),
{
    reveal(Seq::filter);
    if items.len() > 0 {
        let front = items.drop_last();
        assert(ids_ok(front, next_id)) by {
            assert forall|i: int| 0 <= i < front.len() implies (#[trigger] front[i]).id
                < next_id by {
                assert(items[i].id < next_id);
            }
            assert forall|i: int, j: int| 0 <= i < j < front.len() implies (
            #[trigger] front[i]).id != (#[trigger] front[j]).id by {
                assert(items[i].id != items[j].id);
            }
        }
        lemma_ids_filtered(front, next_id, pred);
        let kept = front.filter(pred);
        assert forall|i: int| 0 <= i < kept.len() implies items.contains(#[trigger] kept[i])
            && kept[i].id != items.last().id by {
            assert(front.contains(kept[i]));
            let j = choose|j: int| 0 <= j < front.len() && front[j] == kept[i];
            assert(items[j] == kept[i]);
            assert(items[j].id != items[items.len() - 1].id);
        }
        let all = items.filter(pred);
        if pred(items.last()) {
            assert(all =~= kept.push(items.last()));
            assert(items[items.len() - 1].id < next_id);
            assert forall|i: int| 0 <= i < all.len() implies items.contains(#[trigger] all[i]) by {
                if i < kept.len() {
                    assert(all[i] == kept[i]);
                } else {
                    assert(items[items.len() - 1] == all[i]);
                }
            }
        }
    }
}

proof fn lemma_put_ids(
    s: StoreView,
    binding: Seq<char>,
    items: Seq<ObjectListItemView>,
    next_id: u64,
)
    requires
        identities_ok(s),
        s.next_object_item_id <= next_id,
        ids_ok(items, next_id),
    ensures
        identities_ok(StoreView { next_object_item_id: next_id, ..with_items(s, binding, items) }),
{
    let t = StoreView { next_object_item_id: next_id, ..with_items(s, binding, items) };
    assert forall|k: Seq<char>| ids_ok(
        #[trigger] list_at(t.state.object_lists, k),
        t.next_object_item_id,
    ) by {
        let old_items = list_at(s.state.object_lists, k);
        assert(ids_ok(old_items, s.next_object_item_id));
        if k != binding {
            assert(list_at(t.state.object_lists, k) == old_items);
            assert forall|i: int| 0 <= i < old_items.len() implies (#[trigger] old_items[i]).id
                < next_id by {
                assert(old_items[i].id < s.next_object_item_id);
            }
        }
    }
}

proof fn lemma_ids_updated(
    items: Seq<ObjectListItemView>,
    i: int,
    item: ObjectListItemView,
    next_id: u64,
)
    requires
        ids_ok(items, next_id),
        0 <= i < items.len(),
        item.id == items[i].id,
    ensures
        ids_ok(items.update(i, item), next_id),
{
    let after = items.update(i, item);
    assert forall|j: int| 0 <= j < after.len() implies (#[trigger] after[j]).id < next_id by {
        assert(items[j].id < next_id);
    }
    assert forall|j: int, k: int| 0 <= j < k < after.len() implies (#[trigger] after[j]).id != (
    #[trigger] after[k]).id by {
        assert(items[j].id != items[k].id);
    }
}

proof fn lemma_ids_pushed(
    items: Seq<ObjectListItemView>,
    item: ObjectListItemView,
    next_id: u64,
)
    requires
        ids_ok(items, next_id),
        item.id == next_id,
        next_id < u64::MAX,
    ensures
        ids_ok(items.push(item), (next_id + 1) as u64),
{
    let after = items.push(item);
    assert forall|j: int| 0 <= j < after.len() implies (#[trigger] after[j]).id < next_id + 1 by {
        if j < items.len() {
            assert(items[j].id < next_id);
        }
    }
    assert forall|j: int, k: int| 0 <= j < k < after.len() implies (#[trigger] after[j]).id != (
    #[trigger] after[k]).id by {
        assert(items[j].id < next_id);
        if k < items.len() {
            assert(items[j].id != items[k].id);
        }
    }
}

proof fn lemma_object_list_ids(s: StoreView, update: ObjectListUpdateView, event: UiEventView)
    requires
        identities_ok(s),
        s.next_object_item_id + new_items(update) <= u64::MAX,
    ensures
        identities_ok(object_list_step(s, update, event).0),
        s.next_object_item_id <= object_list_step(s, update, event).0.next_object_item_id
            <= s.next_object_item_id + new_items(update),
{
    let next_id = s.next_object_item_id;
    match update {
        ObjectListUpdateView::AppendObject { binding, item } => {
            let items = list_at(s.state.object_lists, binding);
            assert(ids_ok(items, next_id));
            lemma_ids_pushed(items, with_id(item, next_id), next_id);
            lemma_put_ids(s, binding, items.push(with_id(item, next_id)), (next_id + 1) as u64);
        },
        ObjectListUpdateView::AppendDraftObject {
            binding,
            source_binding,
            key,
            trim,
            reject_empty,
            bool_fields,
            ..
        } => {
            let draft = accepted_draft(s, source_binding, key, trim, reject_empty, event);
            if let Some(title) = draft {
                let items = list_at(s.state.object_lists, binding);
                let item = new_item(next_id, title, bool_fields);
                assert(ids_ok(items, next_id));
                lemma_ids_pushed(items, item, next_id);
                lemma_put_ids(s, binding, items.push(item), (next_id + 1) as u64);
                let after = object_list_step(s, update, event).0;
                let stored = id_used(with_items(s, binding, items.push(item)));
                assert(after.state.object_lists == stored.state.object_lists);
                assert forall|k: Seq<char>| ids_ok(
                    #[trigger] list_at(after.state.object_lists, k),
                    after.next_object_item_id,
                ) by {
                    assert(ids_ok(
                        list_at(stored.state.object_lists, k),
                        stored.next_object_item_id,
                    ));
                }
            }
        },
        ObjectListUpdateView::ToggleBoolField { binding, item_id, field } => {
            let items = list_at(s.state.object_lists, binding);
            let i = item_index(items, item_id);
            lemma_item_index_bounds(items, item_id);
            assert(ids_ok(items, next_id));
            lemma_put_ids(s, binding, items, next_id);
            if i < items.len() {
                let item = with_bool(items[i], field, !item_bool(items[i], field));
                lemma_ids_updated(items, i, item, next_id);
                lemma_put_ids(s, binding, items.update(i, item), next_id);
            }
        },
        ObjectListUpdateView::SetBoolField { binding, item_id, field, value, .. } => {
            let items = list_at(s.state.object_lists, binding);
            let i = item_index(items, item_id);
            lemma_item_index_bounds(items, item_id);
            assert(ids_ok(items, next_id));
            lemma_put_ids(s, binding, items, next_id);
            if i < items.len() {
                let item = with_bool(items[i], field, value);
                lemma_ids_updated(items, i, item, next_id);
                lemma_put_ids(s, binding, items.update(i, item), next_id);
            }
        },
        ObjectListUpdateView::SetTitle { binding, item_id, trim, .. } => {
            let items = list_at(s.state.object_lists, binding);
            let i = item_index(items, item_id);
            lemma_item_index_bounds(items, item_id);
            assert(ids_ok(items, next_id));
            lemma_put_ids(s, binding, items, next_id);
            if i < items.len() {
                let title = maybe_trimmed(payload_text(event), trim);
                let item = ObjectListItemView { title, ..items[i] };
                lemma_ids_updated(items, i, item, next_id);
                lemma_put_ids(s, binding, items.update(i, item), next_id);
            }
        },
        ObjectListUpdateView::ToggleAllBoolField { binding, .. } => {
            let items = list_at(s.state.object_lists, binding);
            assert(ids_ok(items, next_id));
            lemma_put_ids(s, binding, items, next_id);
            let after = all_toggled(items);
            assert forall|i: int| 0 <= i < after.len() implies (#[trigger] after[i]).id
                < next_id by {
                assert(items[i].id < next_id);
            }
            assert forall|i: int, j: int| 0 <= i < j < after.len() implies (
            #[trigger] after[i]).id != (#[trigger] after[j]).id by {
                assert(items[i].id != items[j].id);
            }
            lemma_put_ids(s, binding, after, next_id);
        },
        ObjectListUpdateView::RemoveItem { binding, item_id } => {
            let items = list_at(s.state.object_lists, binding);
            let pred = |item: ObjectListItemView| item.id != item_id;
            assert(ids_ok(items, next_id));
            lemma_ids_filtered(items, next_id, pred);
            lemma_put_ids(s, binding, items.filter(pred), next_id);
        },
        ObjectListUpdateView::RemoveMatching { binding, filter } => {
            let items = list_at(s.state.object_lists, binding);
            let scalars = s.state.scalar_values;
            let pred = |item: ObjectListItemView| !item_passes(item, filter, scalars);
            assert(ids_ok(items, next_id));
            lemma_ids_filtered(items, next_id, pred);
            lemma_put_ids(s, binding, items.filter(pred), next_id);
        },
    }
}

proof fn lemma_object_lists_ids(
    s: StoreView,
    updates: Seq<ObjectListUpdateView>,
    event: UiEventView,
)
    requires
        identities_ok(s),
        s.next_object_item_id + all_new_items(updates) <= u64::MAX,
    ensures
        identities_ok(object_list_steps(s, updates, event).0),
        s.next_object_item_id <= object_list_steps(s, updates, event).0.next_object_item_id
            <= s.next_object_item_id + all_new_items(updates),
    decreases updates.len(),
{
    if updates.len() > 0 {
        lemma_object_lists_ids(s, updates.drop_last(), event);
        let before = object_list_steps(s, updates.drop_last(), event);
        lemma_object_list_ids(before.0, updates.last(), event);
    }
}

proof fn lemma_nested_ids(
    item: ObjectListItemView,
    next_id: u64,
    updates: Seq<NestedObjectListUpdateView>,
)
    requires
        next_id + updates.len() <= u64::MAX,
    ensures
        nested_steps(item, next_id, updates).0.id == item.id,
        next_id <= nested_steps(item, next_id, updates).1 <= next_id + updates.len(),
    decreases updates.len(),
{
    if updates.len() > 0 {
        lemma_nested_ids(item, next_id, updates.drop_last());
    }
}

proof fn lemma_same_lists_ids(s: StoreView, t: StoreView)
    requires
        identities_ok(s),
        t.state.object_lists == s.state.object_lists,
        t.next_object_item_id == s.next_object_item_id,
    ensures
        identities_ok(t),
{
    assert forall|k: Seq<char>| ids_ok(
        #[trigger] list_at(t.state.object_lists, k),
        t.next_object_item_id,
    ) by {
        assert(ids_ok(list_at(s.state.object_lists, k), s.next_object_item_id));
    }
}

/// Changes of scalars touch scalars alone.
pub proof fn lemma_scalars_alone(s: StoreView, updates: Seq<ScalarUpdateView>, event: UiEventView)
    ensures
        scalar_steps(s, updates, event).0 == with_scalars(
            s,
            scalar_steps(s, updates, event).0.state.scalar_values,
        ),
    decreases updates.len(),
{
    if updates.len() > 0 {
        lemma_scalars_alone(s, updates.drop_last(), event);
    }
}

/// Changes of texts touch texts alone.
pub proof fn lemma_texts_alone(s: StoreView, updates: Seq<TextUpdateView>, event: UiEventView)
    ensures
        text_steps(s, updates, event).0 == with_texts(
            s,
            text_steps(s, updates, event).0.state.text_values,
        ),
    decreases updates.len(),
{
    if updates.len() > 0 {
        lemma_texts_alone(s, updates.drop_last(), event);
    }
}

/// Changes of text lists touch neither scalars, texts nor object lists.
pub proof fn lemma_text_lists_alone(
    s: StoreView,
    updates: Seq<TextListUpdateView>,
    event: UiEventView,
)
    ensures
        text_list_steps(s, updates, event).0.state.scalar_values == s.state.scalar_values,
        text_list_steps(s, updates, event).0.state.text_values == s.state.text_values,
        text_list_steps(s, updates, event).0.state.object_lists == s.state.object_lists,
        text_list_steps(s, updates, event).0.next_object_item_id == s.next_object_item_id,
    decreases updates.len(),
{
    if updates.len() > 0 {
        lemma_text_lists_alone(s, updates.drop_last(), event);
    }
}

/// Changes of object lists touch neither scalars, texts nor text lists.
pub proof fn lemma_object_lists_alone(
    s: StoreView,
    updates: Seq<ObjectListUpdateView>,
    event: UiEventView,
)
    ensures
        object_list_steps(s, updates, event).0.state.scalar_values == s.state.scalar_values,
        object_list_steps(s, updates, event).0.state.text_values == s.state.text_values,
        object_list_steps(s, updates, event).0.state.text_lists == s.state.text_lists,
    decreases updates.len(),
{
    if updates.len() > 0 {
        lemma_object_lists_alone(s, updates.drop_last(), event);
    }
}

/// Every action keeps the identities of the items of each list different, and a new item
/// never gets the identity of another one, as long as the identities last.
pub proof fn lemma_action_keeps_identities(
    s: StoreView,
    action: SemanticActionView,
    event: UiEventView,
)
    requires
        identities_ok(s),
        s.next_object_item_id + action_new_items(action) <= u64::MAX,
    ensures
        identities_ok(action_step(s, action, event).0),
        s.next_object_item_id <= action_step(s, action, event).0.next_object_item_id
            <= s.next_object_item_id + action_new_items(action),
    decreases action, 0nat,
{
    let after = action_step(s, action, event).0;
    match action {
        SemanticActionView::UpdateScalars { updates } => {
            lemma_scalars_alone(s, updates, event);
            lemma_same_lists_ids(s, after);
        },
        SemanticActionView::UpdateTexts { updates } => {
            lemma_texts_alone(s, updates, event);
            lemma_same_lists_ids(s, after);
        },
        SemanticActionView::UpdateTextLists { updates } => {
            lemma_text_lists_alone(s, updates, event);
            lemma_same_lists_ids(s, after);
        },
        SemanticActionView::UpdateObjectLists { updates } => {
            lemma_object_lists_ids(s, updates, event);
        },
        SemanticActionView::UpdateNestedObjectLists { parent_binding, parent_item_id, updates } => {
            let items = list_at(s.state.object_lists, parent_binding);
            let i = item_index(items, parent_item_id);
            lemma_item_index_bounds(items, parent_item_id);
            assert(ids_ok(items, s.next_object_item_id));
            lemma_put_ids(s, parent_binding, items, s.next_object_item_id);
            if i < items.len() {
                lemma_nested_ids(items[i], s.next_object_item_id, updates);
                let done = nested_steps(items[i], s.next_object_item_id, updates);
                lemma_ids_updated(items, i, done.0, s.next_object_item_id);
                let stored = items.update(i, done.0);
                assert(ids_ok(stored, done.1)) by {
                    assert forall|j: int| 0 <= j < stored.len() implies (#[trigger] stored[j]).id
                        < done.1 by {
                        assert(stored[j].id < s.next_object_item_id);
                    }
                }
                lemma_put_ids(s, parent_binding, stored, done.1);
            }
        },
        SemanticActionView::Batch { actions } => {
            lemma_actions_keep_identities(s, actions, actions.len(), event);
        },
    }
}

proof fn lemma_actions_keep_identities(
    s: StoreView,
    actions: Seq<SemanticActionView>,
    n: nat,
    event: UiEventView,
)
    requires
        identities_ok(s),
        s.next_object_item_id + actions_new_items(actions, n) <= u64::MAX,
    ensures
        identities_ok(action_steps(s, actions, n, event).0),
        s.next_object_item_id <= action_steps(s, actions, n, event).0.next_object_item_id
            <= s.next_object_item_id + actions_new_items(actions, n),
    decreases actions, n,
{
    if n > 0 && n <= actions.len() {
        lemma_actions_keep_identities(s, actions, (n - 1) as nat, event);
        let before = action_steps(s, actions, (n - 1) as nat, event);
        lemma_action_keeps_identities(before.0, actions[n - 1], event);
    }
}

/// Toggling a scalar that is zero or one twice restores it, and no other scalar changes.
pub proof fn lemma_scalar_toggled_twice(
    s: StoreView,
    binding: Seq<char>,
    event: UiEventView,
    other: Seq<char>,
)
    requires
        scalar_at(s.state.scalar_values, binding) == 0 || scalar_at(s.state.scalar_values, binding)
            == 1,
    ensures
        ({
            let toggle = ScalarUpdateView::ToggleBool { binding };
            let once = scalar_step(s, toggle, event);
            let twice = scalar_step(once.0, toggle, event);
            &&& once.1 && twice.1
            &&& scalar_at(twice.0.state.scalar_values, other) == scalar_at(
                s.state.scalar_values,
                other,
            )
        }),
{
}

/// Toggling a truth value of an item twice restores it and changes nothing else.
pub proof fn lemma_item_toggled_twice(
    s: StoreView,
    binding: Seq<char>,
    item_id: u64,
    field: Seq<char>,
    event: UiEventView,
)
    ensures
        ({
            let toggle = ObjectListUpdateView::ToggleBoolField { binding, item_id, field };
            let once = object_list_step(s, toggle, event);
            let twice = object_list_step(once.0, toggle, event);
            same_content(s, twice.0)
        }),
{
    let toggle = ObjectListUpdateView::ToggleBoolField { binding, item_id, field };
    let items = list_at(s.state.object_lists, binding);
    let i = item_index(items, item_id);
    lemma_item_index_bounds(items, item_id);
    lemma_same_items_refl(items);
    let once = object_list_step(s, toggle, event).0;
    if i < items.len() {
        let item = with_bool(items[i], field, !item_bool(items[i], field));
        let after = items.update(i, item);
        lemma_item_index_bounds(after, item_id);
        let j = item_index(after, item_id);
        if j < i {
            assert(after[j] == items[j]);
        }
        if j > i {
            assert(after[i].id == item_id);
        }
        let again = with_bool(item, field, !item_bool(item, field));
        let restored = after.update(i, again);
        assert(same_item(items[i], again));
        assert forall|k: int| 0 <= k < items.len() implies same_item(
            #[trigger] items[k],
            restored[k],
        ) by {}
        lemma_put_same_items(s, binding, restored);
        let twice = object_list_step(once, toggle, event).0;
        assert(twice.state.object_lists =~= with_items(s, binding, restored).state.object_lists);
    } else {
        lemma_put_same_items(s, binding, items);
        let twice = object_list_step(once, toggle, event).0;
        assert(twice.state.object_lists =~= with_items(s, binding, items).state.object_lists);
    }
}

/// After an item is removed none with its identity is left, and the others stay.
pub proof fn lemma_item_removed(
    s: StoreView,
    binding: Seq<char>,
    item_id: u64,
    event: UiEventView,
    item: ObjectListItemView,
)
    ensures
        ({
            let remove = ObjectListUpdateView::RemoveItem { binding, item_id };
            let before = list_at(s.state.object_lists, binding);
            let after = list_at(
                object_list_step(s, remove, event).0.state.object_lists,
                binding,
            );
            &&& forall|i: int| 0 <= i < after.len() ==> (#[trigger] after[i]).id != item_id
            &&& before.contains(item) && item.id != item_id ==> after.contains(item)
        }),
{
    let before = list_at(s.state.object_lists, binding);
    let pred = |x: ObjectListItemView| x.id != item_id;
    let kept = before.filter(pred);
    assert forall|i: int| 0 <= i < kept.len() implies (#[trigger] kept[i]).id != item_id by {
        before.lemma_filter_pred(pred, i);
        assert(pred(kept[i]));
    }
    if before.contains(item) && item.id != item_id {
        let i = choose|i: int| 0 <= i < before.len() && before[i] == item;
        assert(pred(before[i]));
        before.lemma_filter_contains(pred, i);
    }
}

} // verus!
