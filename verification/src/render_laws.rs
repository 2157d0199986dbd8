//! What the nodes of a user interface are rendered as.
use crate::cells::{field_scalar, field_text};
use crate::parts::{
    input_text, lemma_set_property, part_text, parts_text, property_value, style_text,
    with_property, with_styles,
};
use crate::render::{
    ItemContextView, all_other_effects, context_item, context_scope, filled_scalar, filled_text,
    first_source, item_event_binding, item_trees, matching_specs, other_effects, own_list_update,
    own_list_updates, rendered_facts, tree, trees,
};
use crate::scene::UiEventKind;
use crate::scope::{
    element_binding, item_scope, item_source, lemma_shared_binding_keeps_its_name, opened_scope,
    path_name,
};
use crate::semantic_ir::IntCompareOp;
use crate::semantic_view::{
    DerivedScalarOperandView, ItemScalarUpdateView, ItemTextUpdateView,
    NestedObjectListActionView, NestedObjectListUpdateView, ObjectDerivedScalarOperandView,
    ObjectItemActionKindView, ObjectItemActionSpecView, ObjectListFilterView, ObjectListItemView,
    ObjectListUpdateView, ScalarUpdateView, SemanticActionView, SemanticEventBindingView,
    SemanticFactBindingView, SemanticInputValueView, SemanticNodeView, SemanticStyleFragmentView,
    SemanticTextPartView, TextListFilterView, TextListTemplateView, TextUpdateView,
};
use crate::text::{has_prefix, int_text, nat_text};
use crate::values::{
    StateView, compares, item_bool, list_at, passing_items, passing_texts, scalar_at, text_at,
};
use vstd::prelude::*;

verus! {

/// A branch on whether a list is empty shows its first side just where the list has no elements,
/// or where it has some if it is inverted, for lists of texts as for lists of items.
pub proof fn lemma_branch_on_empty_list(
    state: StateView,
    context: Option<ItemContextView>,
    binding: Seq<char>,
    truthy: SemanticNodeView,
    falsy: SemanticNodeView,
    path: Seq<usize>,
    scope: Option<Seq<char>>,
)
    ensures
        ({
            let branch = |object_items: bool, invert: bool|
                tree(
                    state,
                    context,
                    SemanticNodeView::ListEmptyBranch {
                        binding,
                        object_items,
                        invert,
                        truthy: Box::new(truthy),
                        falsy: Box::new(falsy),
                    },
                    path,
                    scope,
                );
            let first = tree(state, context, truthy, path, scope);
            let second = tree(state, context, falsy, path, scope);
            let texts = if state.text_lists.contains_key(binding) {
                state.text_lists[binding].len()
            } else {
                0
            };
            let items = if state.object_lists.contains_key(binding) {
                state.object_lists[binding].len()
            } else {
                0
            };
            &&& texts == 0 ==> branch(false, false) == first && branch(false, true) == second
            &&& texts > 0 ==> branch(false, false) == second && branch(false, true) == first
            &&& items == 0 ==> branch(true, false) == first && branch(true, true) == second
            &&& items > 0 ==> branch(true, false) == second && branch(true, true) == first
        }),
{
}

/// A branch on a text shows its first side where the text is empty, or where it is not if it is
/// inverted.
pub proof fn lemma_branch_on_text(
    state: StateView,
    context: Option<ItemContextView>,
    binding: Seq<char>,
    truthy: SemanticNodeView,
    falsy: SemanticNodeView,
    path: Seq<usize>,
    scope: Option<Seq<char>>,
)
    ensures
        ({
            let branch = |invert: bool|
                tree(
                    state,
                    context,
                    SemanticNodeView::TextBindingBranch {
                        binding,
                        invert,
                        truthy: Box::new(truthy),
                        falsy: Box::new(falsy),
                    },
                    path,
                    scope,
                );
            let first = tree(state, context, truthy, path, scope);
            let second = tree(state, context, falsy, path, scope);
            let filled = state.text_values.contains_key(binding)
                && state.text_values[binding].len() > 0;
            &&& !filled ==> branch(false) == first && branch(true) == second
            &&& filled ==> branch(false) == second && branch(true) == first
        }),
{
}

/// A branch on a flag shows its first side where the scalar is not zero. A flag of an element is
/// that of the element around.
pub proof fn lemma_branch_on_flag(
    state: StateView,
    context: Option<ItemContextView>,
    binding: Seq<char>,
    suffix: Seq<char>,
    element: Seq<char>,
    truthy: SemanticNodeView,
    falsy: SemanticNodeView,
    path: Seq<usize>,
    scope: Option<Seq<char>>,
)
    ensures
        ({
            let branch = |name: Seq<char>, around: Option<Seq<char>>|
                tree(
                    state,
                    context,
                    SemanticNodeView::BoolBranch {
                        binding: name,
                        truthy: Box::new(truthy),
                        falsy: Box::new(falsy),
                    },
                    path,
                    around,
                );
            let shared = state.scalar_values.contains_key(binding) && state.scalar_values[binding]
                != 0;
            let own = element + "."@ + suffix;
            let set = state.scalar_values.contains_key(own) && state.scalar_values[own] != 0;
            &&& !has_prefix(binding, "__element__."@) ==> {
                &&& shared ==> branch(binding, scope) == tree(state, context, truthy, path, scope)
                &&& !shared ==> branch(binding, scope) == tree(state, context, falsy, path, scope)
            }
            &&& set ==> branch("__element__."@ + suffix, Some(element)) == tree(
                state,
                context,
                truthy,
                path,
                Some(element),
            )
            &&& !set ==> branch("__element__."@ + suffix, Some(element)) == tree(
                state,
                context,
                falsy,
                path,
                Some(element),
            )
        }),
{
    lemma_scoped_names(suffix, element, Seq::empty(), 0);
}

/// Names inside an element and inside an item: the part behind the prefix is put behind the scope;
/// the scope of an item is its list and its identity. Names without a prefix stay.
pub proof fn lemma_scoped_names(
    suffix: Seq<char>,
    element: Seq<char>,
    list_binding: Seq<char>,
    id: u64,
)
    ensures
        element_binding("__element__."@ + suffix, Some(element)) == element + "."@ + suffix,
        element_binding("__element__."@ + suffix, None) == "__element__."@ + suffix,
        item_source("__item__."@ + suffix, list_binding, id) == list_binding + ".__item__."@
            + nat_text(id as nat) + "."@ + suffix,
        !has_prefix(suffix, "__item__."@) ==> item_source(suffix, list_binding, id) == suffix,
        !has_prefix(suffix, "__element__."@) ==> element_binding(suffix, Some(element)) == suffix,
        item_scope(list_binding, id) == list_binding + ".__item__."@ + nat_text(id as nat),
{
    let a = "__element__."@;
    let b = "__item__."@;
    assert((a + suffix).take(a.len() as int) =~= a);
    assert((a + suffix).skip(a.len() as int) =~= suffix);
    assert((b + suffix).take(b.len() as int) =~= b);
    assert((b + suffix).skip(b.len() as int) =~= suffix);
}

/// A branch on a comparison shows its first side where the comparison holds.
pub proof fn lemma_branch_on_comparison(
    state: StateView,
    context: Option<ItemContextView>,
    left: Seq<char>,
    right: i64,
    truthy: SemanticNodeView,
    falsy: SemanticNodeView,
    path: Seq<usize>,
    scope: Option<Seq<char>>,
)
    ensures
        ({
            let branch = |op: IntCompareOp|
                tree(
                    state,
                    context,
                    SemanticNodeView::ScalarCompareBranch {
                        left: DerivedScalarOperandView::Binding(left),
                        op,
                        right: DerivedScalarOperandView::Literal(right),
                        truthy: Box::new(truthy),
                        falsy: Box::new(falsy),
                    },
                    path,
                    scope,
                );
            let value = if state.scalar_values.contains_key(left) {
                state.scalar_values[left]
            } else {
                0
            };
            let shown = |holds: bool|
                if holds {
                    tree(state, context, truthy, path, scope)
                } else {
                    tree(state, context, falsy, path, scope)
                };
            &&& branch(IntCompareOp::Equal) == shown(value == right)
            &&& branch(IntCompareOp::NotEqual) == shown(value != right)
            &&& branch(IntCompareOp::Greater) == shown(value > right)
            &&& branch(IntCompareOp::GreaterOrEqual) == shown(value >= right)
            &&& branch(IntCompareOp::Less) == shown(value < right)
            &&& branch(IntCompareOp::LessOrEqual) == shown(value <= right)
        }),
{
}

/// Branches on an item: on a truth value, on whether a text is empty, and on a comparison of
/// numbers. Where there is no item they show their second side.
pub proof fn lemma_branches_on_item(
    state: StateView,
    context: Option<ItemContextView>,
    field: Seq<char>,
    other: Seq<char>,
    op: IntCompareOp,
    n: i64,
    truthy: SemanticNodeView,
    falsy: SemanticNodeView,
    path: Seq<usize>,
    scope: Option<Seq<char>>,
)
    ensures
        ({
            let first = tree(state, context, truthy, path, scope);
            let second = tree(state, context, falsy, path, scope);
            let flag = tree(
                state,
                context,
                SemanticNodeView::ObjectBoolFieldBranch {
                    field,
                    truthy: Box::new(truthy),
                    falsy: Box::new(falsy),
                },
                path,
                scope,
            );
            let text = |invert: bool|
                tree(
                    state,
                    context,
                    SemanticNodeView::ObjectTextFieldBranch {
                        field,
                        invert,
                        truthy: Box::new(truthy),
                        falsy: Box::new(falsy),
                    },
                    path,
                    scope,
                );
            let number = |left: ObjectDerivedScalarOperandView, right: ObjectDerivedScalarOperandView|
                tree(
                    state,
                    context,
                    SemanticNodeView::ObjectScalarCompareBranch {
                        left,
                        op,
                        right,
                        truthy: Box::new(truthy),
                        falsy: Box::new(falsy),
                    },
                    path,
                    scope,
                );
            let of_field = ObjectDerivedScalarOperandView::Field(field);
            let of_state = ObjectDerivedScalarOperandView::Binding(other);
            let fixed = ObjectDerivedScalarOperandView::Literal(n);
            &&& context is None ==> {
                &&& flag == second
                &&& text(false) == second
                &&& text(true) == second
                &&& number(of_field, fixed) == second
            }
            &&& context is Some ==> {
                let item = context->0.item;
                let empty = field_text(state, item, field).len() == 0;
                let a = field_scalar(state, item, field) as int;
                let b = scalar_at(state.scalar_values, other) as int;
                &&& item_bool(item, field) ==> flag == first
                &&& !item_bool(item, field) ==> flag == second
                &&& empty ==> text(false) == first && text(true) == second
                &&& !empty ==> text(false) == second && text(true) == first
                &&& compares(op, a, n as int) ==> number(of_field, fixed) == first
                &&& !compares(op, a, n as int) ==> number(of_field, fixed) == second
                &&& compares(op, a, b) ==> number(of_field, of_state) == first
                &&& !compares(op, a, b) ==> number(of_field, of_state) == second
                &&& compares(op, b, a) ==> number(of_state, of_field) == first
                &&& !compares(op, b, a) ==> number(of_state, of_field) == second
            }
        }),
{
}

/// Texts are shown as they are, scalars by their digits, fields of an item by their texts, and the
/// parts of a template one behind the other.
pub proof fn lemma_shown_texts(
    state: StateView,
    context: Option<ItemContextView>,
    text: Seq<char>,
    binding: Seq<char>,
    value: i64,
    field: Seq<char>,
    a: Seq<SemanticTextPartView>,
    b: Seq<SemanticTextPartView>,
    part: SemanticTextPartView,
    path: Seq<usize>,
    scope: Option<Seq<char>>,
)
    ensures
        ({
            let shown = |node: SemanticNodeView| tree(state, context, node, path, scope);
            let parts = |p: Seq<SemanticTextPartView>|
                shown(SemanticNodeView::TextTemplate { parts: p, value: text });
            let scalar = shown(SemanticNodeView::ScalarValue { binding, value });
            &&& shown(SemanticNodeView::Text(text)) == SemanticNodeView::Text(text)
            &&& state.scalar_values.contains_key(binding) ==> scalar == SemanticNodeView::Text(
                int_text(state.scalar_values[binding] as int),
            )
            &&& !state.scalar_values.contains_key(binding) ==> scalar == SemanticNodeView::Text(
                int_text(0),
            )
            &&& context is Some ==> shown(SemanticNodeView::ObjectFieldValue { field })
                == SemanticNodeView::Text(field_text(state, context->0.item, field))
            &&& context is None ==> shown(SemanticNodeView::ObjectFieldValue { field })
                == SemanticNodeView::Text(Seq::empty())
            &&& parts(a) is Text && parts(b) is Text
            &&& parts(a + b) == SemanticNodeView::Text(parts(a)->Text_0 + parts(b)->Text_0)
            &&& parts(seq![part]) == SemanticNodeView::Text(
                part_text(
                    state,
                    if context is Some {
                        Some(context->0.item)
                    } else {
                        None
                    },
                    part,
                ),
            )
        }),
{
    let item = context_item(context);
    lemma_parts_joined(state, item, a, b);
    reveal_with_fuel(parts_text, 2);
    assert(seq![part].drop_last() =~= Seq::<SemanticTextPartView>::empty());
    assert(Seq::<char>::empty() + part_text(state, item, part) =~= part_text(state, item, part));
}

proof fn lemma_parts_joined(
    state: StateView,
    item: Option<ObjectListItemView>,
    a: Seq<SemanticTextPartView>,
    b: Seq<SemanticTextPartView>,
)
    ensures
        parts_text(state, item, a + b) == parts_text(state, item, a) + parts_text(state, item, b),
    decreases b.len(),
{
    if b.len() == 0 {
        assert(a + b =~= a);
        assert(parts_text(state, item, a) + Seq::<char>::empty() =~= parts_text(state, item, a));
    } else {
        lemma_parts_joined(state, item, a, b.drop_last());
        assert((a + b).drop_last() =~= a + b.drop_last());
        assert((a + b).last() == b.last());
        let last = part_text(state, item, b.last());
        assert(parts_text(state, item, a) + (parts_text(state, item, b.drop_last()) + last)
            =~= parts_text(state, item, a) + parts_text(state, item, b.drop_last()) + last);
    }
}

/// What the parts of a text stand for.
pub proof fn lemma_text_parts(
    state: StateView,
    item: Option<ObjectListItemView>,
    binding: Seq<char>,
    text: Seq<char>,
    other: Seq<char>,
    text_filter: TextListFilterView,
    item_filter: ObjectListFilterView,
)
    ensures
        ({
            let of = |part: SemanticTextPartView| part_text(state, item, part);
            let set = state.scalar_values.contains_key(binding) && state.scalar_values[binding]
                != 0;
            let flag = SemanticTextPartView::BoolBindingText {
                binding,
                true_text: text,
                false_text: other,
            };
            let own = SemanticTextPartView::ObjectBoolFieldText {
                field: binding,
                true_text: text,
                false_text: other,
            };
            &&& of(SemanticTextPartView::Static(text)) == text
            &&& of(SemanticTextPartView::TextBinding(binding)) == text_at(
                state.text_values,
                binding,
            )
            &&& of(SemanticTextPartView::ScalarBinding(binding)) == int_text(
                scalar_at(state.scalar_values, binding) as int,
            )
            &&& item is Some ==> of(SemanticTextPartView::ObjectFieldBinding(binding))
                == field_text(state, item->0, binding)
            &&& of(SemanticTextPartView::ListCountBinding(binding)) == nat_text(
                list_at(state.text_lists, binding).len(),
            )
            &&& of(SemanticTextPartView::ObjectListCountBinding(binding)) == nat_text(
                list_at(state.object_lists, binding).len(),
            )
            &&& of(
                SemanticTextPartView::FilteredListCountBinding { binding, filter: text_filter },
            ) == nat_text(
                passing_texts(list_at(state.text_lists, binding), Some(text_filter)).len(),
            )
            &&& of(
                SemanticTextPartView::FilteredObjectListCountBinding {
                    binding,
                    filter: item_filter,
                },
            ) == nat_text(
                passing_items(
                    list_at(state.object_lists, binding),
                    Some(item_filter),
                    state.scalar_values,
                ).len(),
            )
            &&& set ==> of(flag) == text
            &&& !set ==> of(flag) == other
            &&& item is Some && item_bool(item->0, binding) ==> of(own) == text
            &&& item is Some && !item_bool(item->0, binding) ==> of(own) == other
            &&& item is None ==> of(own).len() == 0
            &&& item is None ==> of(
                SemanticTextPartView::ObjectFieldBinding(binding),
            ).len() == 0
        }),
{
}

/// A list of texts is shown with the texts that pass its filter; a list of items as one tree for
/// each item that passes, in their order, each rendered for its item at a place of its own.
pub proof fn lemma_shown_lists(
    state: StateView,
    binding: Seq<char>,
    values: Seq<Seq<char>>,
    text_filter: Option<TextListFilterView>,
    text_template: TextListTemplateView,
    item_filter: Option<ObjectListFilterView>,
    item_actions: Seq<ObjectItemActionSpecView>,
    template: SemanticNodeView,
    path: Seq<usize>,
    scope: Option<Seq<char>>,
    i: int,
)
    ensures
        tree(
            state,
            None,
            SemanticNodeView::TextList {
                binding,
                values,
                filter: text_filter,
                template: text_template,
            },
            path,
            scope,
        ) == (SemanticNodeView::TextList {
            binding,
            values: passing_texts(list_at(state.text_lists, binding), text_filter),
            filter: text_filter,
            template: text_template,
        }),
        ({
            let shown = tree(
                state,
                None,
                SemanticNodeView::ObjectList {
                    binding,
                    filter: item_filter,
                    item_actions,
                    template: Box::new(template),
                },
                path,
                scope,
            );
            let items = passing_items(
                list_at(state.object_lists, binding),
                item_filter,
                state.scalar_values,
            );
            &&& shown is Fragment
            &&& shown->Fragment_0.len() == items.len()
            &&& 0 <= i < items.len() ==> shown->Fragment_0[i] == tree(
                state,
                Some(ItemContextView { list_binding: binding, item: items[i], item_actions }),
                template,
                path.push(i as usize),
                None,
            )
        }),
{
    reveal_with_fuel(tree, 2);
    reveal_with_fuel(trees, 2);
    reveal_with_fuel(item_trees, 2);
}

/// A list inside an item is shown with the items that the item around holds in it, each under the
/// name of that list; another list is not shown there.
pub proof fn lemma_shown_inner_list(
    state: StateView,
    c: ItemContextView,
    field: Seq<char>,
    other: Seq<char>,
    filter: Option<ObjectListFilterView>,
    item_actions: Seq<ObjectItemActionSpecView>,
    template: SemanticNodeView,
    path: Seq<usize>,
    scope: Option<Seq<char>>,
    i: int,
)
    requires
        !has_prefix(other, "__item__."@),
    ensures
        ({
            let shown = |binding: Seq<char>|
                tree(
                    state,
                    Some(c),
                    SemanticNodeView::ObjectList {
                        binding,
                        filter,
                        item_actions,
                        template: Box::new(template),
                    },
                    path,
                    scope,
                );
            let inner = shown("__item__."@ + field);
            let items = passing_items(
                list_at(c.item.object_lists, field),
                filter,
                state.scalar_values,
            );
            let list = c.list_binding + ".__item__."@ + nat_text(c.item.id as nat) + "."@ + field;
            &&& shown(other) == SemanticNodeView::Fragment(Seq::empty())
            &&& inner is Fragment
            &&& inner->Fragment_0.len() == items.len()
            &&& 0 <= i < items.len() ==> inner->Fragment_0[i] == tree(
                state,
                Some(ItemContextView { list_binding: list, item: items[i], item_actions }),
                template,
                path.push(i as usize),
                scope,
            )
        }),
{
    reveal_with_fuel(tree, 2);
    reveal_with_fuel(trees, 2);
    reveal_with_fuel(item_trees, 2);
    let b = "__item__."@;
    assert((b + field).take(b.len() as int) =~= b);
    assert((b + field).skip(b.len() as int) =~= field);
}

/// Nodes that hold others: each of these is rendered in its place and at its path, under the same
/// key or with the same tag and text. Without facts of its own, an element leaves the scope around
/// it to what is inside.
pub proof fn lemma_shown_children(
    state: StateView,
    context: Option<ItemContextView>,
    key: u64,
    inner: SemanticNodeView,
    tag: Seq<char>,
    text: Option<Seq<char>>,
    properties: Seq<(Seq<char>, Seq<char>)>,
    events: Seq<SemanticEventBindingView>,
    children: Seq<SemanticNodeView>,
    path: Seq<usize>,
    scope: Option<Seq<char>>,
    i: int,
)
    ensures
        ({
            let fragment = tree(
                state,
                context,
                SemanticNodeView::Fragment(children),
                path,
                scope,
            );
            let keyed = tree(
                state,
                context,
                SemanticNodeView::Keyed { key, node: Box::new(inner) },
                path,
                scope,
            );
            let element = tree(
                state,
                context,
                SemanticNodeView::Element {
                    tag,
                    text,
                    properties,
                    input_value: None,
                    style_fragments: Seq::empty(),
                    event_bindings: events,
                    fact_bindings: Seq::empty(),
                    children,
                },
                path,
                scope,
            );
            &&& fragment is Fragment && fragment->Fragment_0.len() == children.len()
            &&& 0 <= i < children.len() ==> fragment->Fragment_0[i] == tree(
                state,
                context,
                children[i],
                path.push(i as usize),
                scope,
            )
            &&& keyed == (SemanticNodeView::Keyed {
                key,
                node: Box::new(tree(state, context, inner, path, scope)),
            })
            &&& element matches SemanticNodeView::Element {
                tag: shown_tag,
                text: shown_text,
                properties: shown_properties,
                event_bindings,
                fact_bindings,
                children: shown,
                ..
            } && {
                &&& shown_tag == tag
                &&& shown_text == text
                &&& tag != "input"@ ==> shown_properties == properties
                &&& context is None ==> event_bindings == events
                &&& event_bindings.len() == events.len()
                &&& fact_bindings.len() == 0
                &&& shown.len() == children.len()
                &&& 0 <= i < children.len() ==> shown[i] == tree(
                    state,
                    context,
                    children[i],
                    path.push(i as usize),
                    scope,
                )
            }
        }),
{
    reveal_with_fuel(tree, 2);
    reveal_with_fuel(trees, 2);
    reveal_with_fuel(item_trees, 2);
    assert(opened_scope(path, context_scope(context), Seq::empty()) is None);
    assert(rendered_facts(Seq::empty(), scope) =~= Seq::<SemanticFactBindingView>::empty());
    assert(with_styles(properties, Seq::empty(), state.scalar_values, scope, context_item(context))
        == properties);
}

/// What an input element shows: what was typed into it last; else the value it is given; else the
/// value it has already.
pub proof fn lemma_shown_input(
    state: StateView,
    properties: Seq<(Seq<char>, Seq<char>)>,
    value: Option<SemanticInputValueView>,
    event: SemanticEventBindingView,
    source: Seq<char>,
    path: Seq<usize>,
    scope: Option<Seq<char>>,
)
    requires
        event.source_binding == Some(source),
    ensures
        ({
            let element = tree(
                state,
                None,
                SemanticNodeView::Element {
                    tag: "input"@,
                    text: None,
                    properties,
                    input_value: value,
                    style_fragments: Seq::empty(),
                    event_bindings: seq![event],
                    fact_bindings: Seq::empty(),
                    children: Seq::empty(),
                },
                path,
                scope,
            );
            let shown = property_value(element->Element_properties, "value"@);
            let typed = state.input_texts.contains_key(source);
            &&& typed ==> shown == Some(state.input_texts[source])
            &&& !typed && value is Some ==> shown == Some(input_text(state, None, value->0))
            &&& !typed && value is None && property_value(properties, "value"@) is Some ==> shown
                == property_value(properties, "value"@)
            &&& !typed && value is None && property_value(properties, "value"@) is None ==> shown
                == Some(Seq::<char>::empty())
        }),
{
    let name = "value"@;
    let sourced = match value {
        Some(v) => with_property(properties, name, input_text(state, None, v)),
        None => properties,
    };
    if value is Some {
        lemma_set_property(properties, name, input_text(state, None, value->0), name);
    }
    let text = if state.input_texts.contains_key(source) {
        state.input_texts[source]
    } else {
        match property_value(sourced, name) {
            Some(v) => v,
            None => Seq::empty(),
        }
    };
    lemma_set_property(sourced, name, text, name);
    assert(first_source(seq![event]) == Some(source));
}

/// The value that an input element is given: a text, parts of a text, or by a branch on a text of
/// the state or of the item.
pub proof fn lemma_input_values(
    state: StateView,
    item: Option<ObjectListItemView>,
    text: Seq<char>,
    parts: Seq<SemanticTextPartView>,
    binding: Seq<char>,
    truthy: SemanticInputValueView,
    falsy: SemanticInputValueView,
)
    ensures
        ({
            let of = |value: SemanticInputValueView| input_text(state, item, value);
            let on_text = |invert: bool|
                of(
                    SemanticInputValueView::TextBindingBranch {
                        binding,
                        invert,
                        truthy: Box::new(truthy),
                        falsy: Box::new(falsy),
                    },
                );
            let on_field = |invert: bool|
                of(
                    SemanticInputValueView::ObjectTextFieldBranch {
                        field: binding,
                        invert,
                        truthy: Box::new(truthy),
                        falsy: Box::new(falsy),
                    },
                );
            let filled = state.text_values.contains_key(binding)
                && state.text_values[binding].len() > 0;
            &&& of(SemanticInputValueView::Static(text)) == text
            &&& of(SemanticInputValueView::TextParts { parts, value: text }) == parts_text(
                state,
                item,
                parts,
            )
            &&& !filled ==> on_text(false) == of(truthy) && on_text(true) == of(falsy)
            &&& filled ==> on_text(false) == of(falsy) && on_text(true) == of(truthy)
            &&& item is None ==> on_field(false) == of(falsy) && on_field(true) == of(falsy)
            &&& item is Some && field_text(state, item->0, binding).len() == 0 ==> on_field(false)
                == of(truthy) && on_field(true) == of(falsy)
            &&& item is Some && field_text(state, item->0, binding).len() > 0 ==> on_field(false)
                == of(falsy) && on_field(true) == of(truthy)
        }),
{
}

/// What the parts of a style stand for: a fixed one, or one that follows a flag, a comparison or a
/// truth value of the item.
pub proof fn lemma_style_parts(
    scalars: Map<Seq<char>, i64>,
    scope: Option<Seq<char>>,
    item: Option<ObjectListItemView>,
    style: Option<Seq<char>>,
    binding: Seq<char>,
    n: i64,
    op: IntCompareOp,
    truthy: SemanticStyleFragmentView,
    falsy: SemanticStyleFragmentView,
)
    requires
        !has_prefix(binding, "__element__."@),
    ensures
        ({
            let of = |f: SemanticStyleFragmentView| style_text(f, scalars, scope, item);
            let value = scalar_at(scalars, binding);
            let flag = of(
                SemanticStyleFragmentView::BoolBinding {
                    binding,
                    truthy: Box::new(truthy),
                    falsy: Box::new(falsy),
                },
            );
            let number = of(
                SemanticStyleFragmentView::ScalarCompare {
                    left: DerivedScalarOperandView::Binding(binding),
                    op,
                    right: DerivedScalarOperandView::Literal(n),
                    truthy: Box::new(truthy),
                    falsy: Box::new(falsy),
                },
            );
            let turned = of(
                SemanticStyleFragmentView::ScalarCompare {
                    left: DerivedScalarOperandView::Literal(n),
                    op,
                    right: DerivedScalarOperandView::Binding(binding),
                    truthy: Box::new(truthy),
                    falsy: Box::new(falsy),
                },
            );
            let own = of(
                SemanticStyleFragmentView::ObjectBoolField {
                    field: binding,
                    truthy: Box::new(truthy),
                    falsy: Box::new(falsy),
                },
            );
            &&& of(SemanticStyleFragmentView::Static(style)) == style
            &&& value != 0 ==> flag == of(truthy)
            &&& value == 0 ==> flag == of(falsy)
            &&& compares(op, value as int, n as int) ==> number == of(truthy)
            &&& !compares(op, value as int, n as int) ==> number == of(falsy)
            &&& compares(op, n as int, value as int) ==> turned == of(truthy)
            &&& !compares(op, n as int, value as int) ==> turned == of(falsy)
            &&& item is Some && item_bool(item->0, binding) ==> own == of(truthy)
            &&& item is Some && !item_bool(item->0, binding) ==> own == of(falsy)
            &&& item is None ==> own == of(falsy)
        }),
{
    lemma_shared_binding_keeps_its_name(binding, scope);
}

/// The flag of an element in a style is that of the element around.
pub proof fn lemma_style_of_element(
    scalars: Map<Seq<char>, i64>,
    element: Seq<char>,
    suffix: Seq<char>,
    item: Option<ObjectListItemView>,
    truthy: SemanticStyleFragmentView,
    falsy: SemanticStyleFragmentView,
)
    ensures
        ({
            let of = |f: SemanticStyleFragmentView| style_text(f, scalars, Some(element), item);
            let flag = of(
                SemanticStyleFragmentView::BoolBinding {
                    binding: "__element__."@ + suffix,
                    truthy: Box::new(truthy),
                    falsy: Box::new(falsy),
                },
            );
            let value = scalar_at(scalars, element + "."@ + suffix);
            &&& value != 0 ==> flag == of(truthy)
            &&& value == 0 ==> flag == of(falsy)
        }),
{
    lemma_scoped_names(suffix, element, Seq::empty(), 0);
}

/// The styles of an element are joined by semicolons, in their order, behind the style that it has
/// already; a part without a style adds nothing, and other properties stay.
pub proof fn lemma_styles_joined(
    properties: Seq<(Seq<char>, Seq<char>)>,
    fragments: Seq<SemanticStyleFragmentView>,
    last: SemanticStyleFragmentView,
    scalars: Map<Seq<char>, i64>,
    scope: Option<Seq<char>>,
    item: Option<ObjectListItemView>,
    other: Seq<char>,
)
    requires
        other != "style"@,
    ensures
        ({
            let before = with_styles(properties, fragments, scalars, scope, item);
            let after = with_styles(properties, fragments.push(last), scalars, scope, item);
            let was = property_value(before, "style"@);
            let now = property_value(after, "style"@);
            let added = style_text(last, scalars, scope, item);
            &&& with_styles(properties, Seq::empty(), scalars, scope, item) == properties
            &&& added is None ==> after == before
            &&& added is Some && (was is None || was->0.len() == 0) ==> now == added
            &&& added is Some && was is Some && was->0.len() > 0 ==> now == Some(
                was->0 + ";"@ + added->0,
            )
            &&& property_value(after, other) == property_value(before, other)
        }),
{
    let before = with_styles(properties, fragments, scalars, scope, item);
    assert(fragments.push(last).drop_last() =~= fragments);
    match style_text(last, scalars, scope, item) {
        Some(style) => {
            let joined = match property_value(before, "style"@) {
                Some(was) => if was.len() == 0 {
                    style
                } else {
                    was + ";"@ + style
                },
                None => style,
            };
            lemma_set_property(before, "style"@, joined, "style"@);
            lemma_set_property(before, "style"@, joined, other);
        },
        None => {},
    }
}

/// The facts of an element: each is kept under the name that it has in the scope which the element
/// opens, and what is inside of the element sees that scope.
pub proof fn lemma_element_opens_scope(
    state: StateView,
    context: Option<ItemContextView>,
    tag: Seq<char>,
    fact: SemanticFactBindingView,
    suffix: Seq<char>,
    child: SemanticNodeView,
    path: Seq<usize>,
    scope: Option<Seq<char>>,
)
    requires
        fact.binding == "__element__."@ + suffix,
        tag != "input"@,
    ensures
        ({
            let element = tree(
                state,
                context,
                SemanticNodeView::Element {
                    tag,
                    text: None,
                    properties: Seq::empty(),
                    input_value: None,
                    style_fragments: Seq::empty(),
                    event_bindings: Seq::empty(),
                    fact_bindings: seq![fact],
                    children: seq![child],
                },
                path,
                scope,
            );
            let place = "__element__."@ + path_name(path);
            let opened = match context {
                Some(c) => c.list_binding + ".__item__."@ + nat_text(c.item.id as nat) + "."@
                    + place,
                None => place,
            };
            element matches SemanticNodeView::Element { fact_bindings, children, .. } && {
                &&& fact_bindings.len() == 1
                &&& fact_bindings[0].kind == fact.kind
                &&& fact_bindings[0].binding == opened + "."@ + suffix
                &&& children.len() == 1
                &&& children[0] == tree(state, context, child, path.push(0), Some(opened))
            }
        }),
{
    reveal_with_fuel(tree, 2);
    reveal_with_fuel(trees, 2);
    reveal_with_fuel(item_trees, 2);
    let a = "__element__."@;
    assert((a + suffix).take(a.len() as int) =~= a);
    assert((a + suffix).skip(a.len() as int) =~= suffix);
    assert(has_prefix(seq![fact][0].binding, a));
    let place = a + path_name(path);
    match context {
        Some(c) => {
            reveal_strlit("__element__.");
            reveal_strlit(".__element__.");
            reveal_strlit(".");
            let list = item_scope(c.list_binding, c.item.id);
            assert(".__element__."@ =~= "."@ + a);
            assert(list + ".__element__."@ + path_name(path) =~= list + "."@ + place);
        },
        None => {},
    }
}

/// Whether an item action is for the element of an item and for a kind of event.
pub open spec fn is_for(
    spec: ObjectItemActionSpecView,
    suffix: Seq<char>,
    kind: UiEventKind,
) -> bool {
    spec.source_binding_suffix == suffix && spec.kind == kind
}

/// What an event on an element of an item does, for an item with one action: the action is done
/// where it is for that element and that kind of event, on that item and its list, and not
/// otherwise. An action that the element has itself comes first.
pub proof fn lemma_item_actions(
    state: StateView,
    c: ItemContextView,
    spec: ObjectItemActionSpecView,
    kind: UiEventKind,
    suffix: Seq<char>,
    own: SemanticActionView,
)
    requires
        c.item_actions == seq![spec],
    ensures
        ({
            let element = |action: Option<SemanticActionView>|
                SemanticEventBindingView {
                    kind,
                    source_binding: Some("__item__."@ + suffix),
                    action,
                };
            let binding = c.list_binding;
            let item_id = c.item.id;
            let source = Some(binding + ".__item__."@ + nat_text(item_id as nat) + "."@ + suffix);
            let done = item_event_binding(state, c, element(None)).action;
            let update = |u: ObjectListUpdateView|
                Some(SemanticActionView::UpdateObjectLists { updates: seq![u] });
            &&& item_event_binding(state, c, element(None)).kind == kind
            &&& item_event_binding(state, c, element(None)).source_binding == source
            &&& item_event_binding(state, c, element(Some(own))).action == Some(own)
            &&& item_event_binding(state, c, element(Some(own))).source_binding == source
            &&& !is_for(spec, suffix, kind) ==> done is None
            &&& is_for(spec, suffix, kind) ==> match spec.action {
                ObjectItemActionKindView::ToggleBoolField { field } => done == update(
                    ObjectListUpdateView::ToggleBoolField { binding, item_id, field },
                ),
                ObjectItemActionKindView::SetBoolField { field, value, payload_filter } => done
                    == update(
                    ObjectListUpdateView::SetBoolField {
                        binding,
                        item_id,
                        field,
                        value,
                        payload_filter,
                    },
                ),
                ObjectItemActionKindView::SetTitle { trim, reject_empty, payload_filter } => done
                    == update(
                    ObjectListUpdateView::SetTitle {
                        binding,
                        item_id,
                        trim,
                        reject_empty,
                        payload_filter,
                    },
                ),
                ObjectItemActionKindView::RemoveSelf => done == update(
                    ObjectListUpdateView::RemoveItem { binding, item_id },
                ),
                _ => true,
            }
        }),
{
    lemma_scoped_names(suffix, Seq::empty(), c.list_binding, c.item.id);
    let b = "__item__."@;
    assert((b + suffix).take(b.len() as int) =~= b);
    assert((b + suffix).skip(b.len() as int) =~= suffix);
    let wanted = Some(suffix);
    let p = |x: ObjectItemActionSpecView|
        wanted == Some(x.source_binding_suffix) && x.kind == kind;
    let element = SemanticEventBindingView {
        kind,
        source_binding: Some(b + suffix),
        action: None,
    };
    lemma_one_spec(spec, p);
    let specs = matching_specs(c.item_actions, element);
    assert(specs == seq![spec].filter(p));
    assert(is_for(spec, suffix, kind) == p(spec));
    reveal_with_fuel(own_list_updates, 2);
    reveal_with_fuel(all_other_effects, 2);
    if p(spec) {
        assert(specs == seq![spec]);
        assert(specs.drop_last() =~= Seq::<ObjectItemActionSpecView>::empty());
        assert(specs.last() == spec);
        let none = Seq::<ObjectListUpdateView>::empty();
        match own_list_update(c, spec.action) {
            Some(u) => {
                assert(own_list_updates(c, specs) =~= seq![u]);
                assert(all_other_effects(state, c, specs) =~= Seq::<SemanticActionView>::empty());
                let first = seq![SemanticActionView::UpdateObjectLists { updates: seq![u] }];
                assert(first + all_other_effects(state, c, specs) =~= first);
            },
            None => {},
        }
    } else {
        assert(specs =~= Seq::<ObjectItemActionSpecView>::empty());
        assert(own_list_updates(c, specs) =~= Seq::<ObjectListUpdateView>::empty());
        assert(all_other_effects(state, c, specs) =~= Seq::<SemanticActionView>::empty());
    }
}

proof fn lemma_one_spec(
    spec: ObjectItemActionSpecView,
    p: spec_fn(ObjectItemActionSpecView) -> bool,
)
    ensures
        p(spec) ==> seq![spec].filter(p) == seq![spec],
        !p(spec) ==> seq![spec].filter(p) == Seq::<ObjectItemActionSpecView>::empty(),
{
    reveal(Seq::filter);
    assert(seq![spec].drop_last() =~= Seq::<ObjectItemActionSpecView>::empty());
    assert(seq![spec].drop_last().filter(p) =~= Seq::<ObjectItemActionSpecView>::empty());
    assert(seq![spec].last() == spec);
    assert(Seq::<ObjectItemActionSpecView>::empty().push(spec) =~= seq![spec]);
}

/// An item action that changes scalars and texts sets each to the given value, to the field of the
/// item, to what the event says, or to what was typed into an element of the item.
pub proof fn lemma_filled_updates(
    state: StateView,
    c: ItemContextView,
    binding: Seq<char>,
    n: i64,
    text: Seq<char>,
    field: Seq<char>,
    filter: Option<Seq<char>>,
)
    ensures
        filled_scalar(state, c.item, ItemScalarUpdateView::SetStatic { binding, value: n }) == (
        ScalarUpdateView::SetTo { binding, value: n }),
        filled_scalar(state, c.item, ItemScalarUpdateView::SetFromField { binding, field }) == (
        ScalarUpdateView::SetTo { binding, value: field_scalar(state, c.item, field) }),
        filled_text(
            state,
            c,
            filter,
            ItemTextUpdateView::SetStatic { binding, value: text },
        ) == (TextUpdateView::SetStatic { binding, value: text, payload_filter: filter }),
        filled_text(state, c, filter, ItemTextUpdateView::SetFromField { binding, field }) == (
        TextUpdateView::SetStatic {
            binding,
            value: field_text(state, c.item, field),
            payload_filter: filter,
        }),
        filled_text(state, c, filter, ItemTextUpdateView::SetFromPayload { binding }) == (
        TextUpdateView::SetFromPayload { binding }),
        filled_text(
            state,
            c,
            filter,
            ItemTextUpdateView::SetFromInputSource { binding, source_suffix: field },
        ) == (TextUpdateView::SetFromInput {
            binding,
            source_binding: c.list_binding + ".__item__."@ + nat_text(c.item.id as nat) + "."@
                + field,
            payload_filter: filter,
        }),
{
}

/// What an item action does besides changing its list: all its changes of scalars come first, then
/// those of texts; and its changes inside the item are made to that item.
pub proof fn lemma_other_item_actions(
    state: StateView,
    c: ItemContextView,
    scalar_updates: Seq<ItemScalarUpdateView>,
    text_updates: Seq<ItemTextUpdateView>,
    payload_filter: Option<Seq<char>>,
    updates: Seq<NestedObjectListActionView>,
    i: int,
)
    requires
        scalar_updates.len() > 0,
        text_updates.len() > 0,
        updates.len() > 0,
    ensures
        ({
            let bound = other_effects(
                state,
                c,
                ObjectItemActionKindView::UpdateBindings {
                    scalar_updates,
                    text_updates,
                    payload_filter,
                },
            );
            let nested = other_effects(
                state,
                c,
                ObjectItemActionKindView::UpdateNestedObjectLists { updates },
            );
            &&& bound.len() == 2
            &&& bound[0] matches SemanticActionView::UpdateScalars { updates: scalars } && {
                &&& scalars.len() == scalar_updates.len()
                &&& 0 <= i < scalars.len() ==> scalars[i] == filled_scalar(
                    state,
                    c.item,
                    scalar_updates[i],
                )
            }
            &&& bound[1] matches SemanticActionView::UpdateTexts { updates: texts } && {
                &&& texts.len() == text_updates.len()
                &&& 0 <= i < texts.len() ==> texts[i] == filled_text(
                    state,
                    c,
                    payload_filter,
                    text_updates[i],
                )
            }
            &&& nested.len() == 1
            &&& nested[0] matches SemanticActionView::UpdateNestedObjectLists {
                parent_binding,
                parent_item_id,
                updates: inner,
            } && {
                &&& parent_binding == c.list_binding
                &&& parent_item_id == c.item.id
                &&& inner.len() == updates.len()
                &&& 0 <= i < inner.len() ==> match updates[i] {
                    NestedObjectListActionView::AppendObject { field, item } => inner[i] == (
                    NestedObjectListUpdateView::AppendObject { field, item }),
                }
            }
        }),
{
}


proof fn lemma_both_specs(
    first: ObjectItemActionSpecView,
    second: ObjectItemActionSpecView,
    p: spec_fn(ObjectItemActionSpecView) -> bool,
)
    requires
        p(first),
        p(second),
    ensures
        seq![first, second].filter(p) == seq![first, second],
{
    let both = seq![first, second];
    reveal(Seq::filter);
    lemma_one_spec(first, p);
    assert(both.drop_last() =~= seq![first]);
    assert(both.last() == second);
    assert(both.filter(p) =~= both);
}

/// What an event does for an item with two actions for it: the changes of its list come first, in
/// the order of the actions, and then whatever else they do, in the order of the actions.
pub proof fn lemma_item_actions_in_order(
    state: StateView,
    c: ItemContextView,
    first: ObjectItemActionSpecView,
    second: ObjectItemActionSpecView,
    kind: UiEventKind,
    suffix: Seq<char>,
)
    requires
        c.item_actions == seq![first, second],
        is_for(first, suffix, kind),
        is_for(second, suffix, kind),
    ensures
        ({
            let element = SemanticEventBindingView {
                kind,
                source_binding: Some("__item__."@ + suffix),
                action: None,
            };
            let done = item_event_binding(state, c, element).action;
            let a = own_list_update(c, first.action);
            let b = own_list_update(c, second.action);
            let more = other_effects(state, c, first.action);
            let rest = other_effects(state, c, second.action);
            let lists = |u: ObjectListUpdateView|
                SemanticActionView::UpdateObjectLists { updates: seq![u] };
            &&& a is Some && b is Some ==> done == Some(
                SemanticActionView::UpdateObjectLists { updates: seq![a->0, b->0] },
            )
            &&& a is None && b is Some && more.len() == 1 ==> done == Some(
                SemanticActionView::Batch { actions: seq![lists(b->0), more[0]] },
            )
            &&& a is Some && b is None && rest.len() == 1 ==> done == Some(
                SemanticActionView::Batch { actions: seq![lists(a->0), rest[0]] },
            )
            &&& more.len() == 1 && rest.len() == 1 ==> done == Some(
                SemanticActionView::Batch { actions: seq![more[0], rest[0]] },
            )
        }),
{
    let b = "__item__."@;
    assert((b + suffix).take(b.len() as int) =~= b);
    assert((b + suffix).skip(b.len() as int) =~= suffix);
    let wanted = Some(suffix);
    let p = |x: ObjectItemActionSpecView|
        wanted == Some(x.source_binding_suffix) && x.kind == kind;
    let element = SemanticEventBindingView {
        kind,
        source_binding: Some(b + suffix),
        action: None,
    };
    lemma_both_specs(first, second, p);
    let specs = seq![first, second];
    assert(matching_specs(c.item_actions, element) == specs.filter(p));
    assert(specs.drop_last() =~= seq![first]);
    assert(seq![first].drop_last() =~= Seq::<ObjectItemActionSpecView>::empty());
    reveal_with_fuel(own_list_updates, 3);
    reveal_with_fuel(all_other_effects, 3);
    let own = own_list_updates(c, specs);
    let more = other_effects(state, c, first.action);
    let rest = other_effects(state, c, second.action);
    let others = all_other_effects(state, c, specs);
    assert(others =~= more + rest);
    let a1 = own_list_update(c, first.action);
    let b1 = own_list_update(c, second.action);
    if a1 is Some && b1 is Some {
        assert(own =~= seq![a1->0, b1->0]);
        assert(others =~= Seq::<SemanticActionView>::empty());
    } else if a1 is None && b1 is Some {
        assert(own =~= seq![b1->0]);
        let updates = SemanticActionView::UpdateObjectLists { updates: own };
        if more.len() == 1 {
            assert(seq![updates] + others =~= seq![updates, more[0]]);
        }
    } else if a1 is Some && b1 is None {
        assert(own =~= seq![a1->0]);
        let updates = SemanticActionView::UpdateObjectLists { updates: own };
        if rest.len() == 1 {
            assert(seq![updates] + others =~= seq![updates, rest[0]]);
        }
    } else {
        assert(own =~= Seq::<ObjectListUpdateView>::empty());
        if more.len() == 1 && rest.len() == 1 {
            assert(Seq::<SemanticActionView>::empty() + others =~= seq![more[0], rest[0]]);
        }
    }
}

} // verus!
