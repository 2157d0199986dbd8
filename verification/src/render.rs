//! Resolving the dynamic parts of a user interface against the state.
use crate::cells::{field_scalar, field_text, item_field_scalar_value, object_item_field_text_value};
use crate::parts::{
    get_property, input_text, merge_style_fragments, parts_text, property_seq, property_value,
    render_input_value, render_object_input_value, render_object_text_parts, render_text_parts,
    set_property, style_seq, with_property, with_styles,
};
use crate::scope::{
    child_path, element_binding, item_scope, item_source, join_scope, local_element_scope,
    object_item_scope, opened_scope, scope_element_binding, scope_object_source_binding, within,
};
use crate::semantic_clone::{
    clone_opt_text, clone_opt_text_list_filter, clone_vec_pair, clone_vec_semantic_event_binding,
};
use crate::semantic_ir::{
    IntCompareOp, ItemScalarUpdate, ItemTextUpdate, NestedObjectListAction,
    NestedObjectListUpdate, ObjectDerivedScalarOperand, ObjectItemActionKind,
    ObjectItemActionSpec, ObjectListFilter, ObjectListItem, ObjectListUpdate, ScalarUpdate,
    SemanticAction, SemanticEventBinding, SemanticFactBinding, SemanticInputValue, SemanticNode,
    SemanticStyleFragment, StateRuntimeModel, TextUpdate,
};
use crate::semantic_view::{
    ItemScalarUpdateView, ItemTextUpdateView, NestedObjectListActionView,
    NestedObjectListUpdateView, ObjectDerivedScalarOperandView, ObjectItemActionKindView,
    ObjectItemActionSpecView, ObjectListItemView, ObjectListUpdateView, ScalarUpdateView,
    SemanticActionView, SemanticEventBindingView, SemanticFactBindingView, SemanticInputValueView,
    SemanticNodeView, SemanticStyleFragmentView, TextUpdateView,
    lemma_nested_object_list_action_seq, lemma_object_list_item_lists, lemma_semantic_action_seq,
    lemma_semantic_node_seq, semantic_node_seq,
};
use crate::text::{i64_text, int_text, opt_str, opt_text, strip_prefix, text_eq, without_prefix};
use crate::values::{
    StateView, compares, filtered_items, filtered_object_list_items, filtered_text_list_values,
    filtered_texts, int_compare_matches, item_bool, item_seq, lemma_filter_step, list_at,
    object_item_bool_field, operands_compare, opt_item_filter, passing_items, passing_list_items,
    scalar_at, scalar_compare_matches, scalar_or_zero, text_at, text_or_empty,
};
use vstd::prelude::*;
use vstd::string::*;

verus! {

/// The item that a template is rendered for, with its list and the actions of its items.
pub struct ItemContext<'a> {
    pub list_binding: &'a str,
    pub item: &'a ObjectListItem,
    pub item_actions: &'a Vec<ObjectItemActionSpec>,
}

/// The mathematical value of an [`ItemContext`].
pub struct ItemContextView {
    pub list_binding: Seq<char>,
    pub item: ObjectListItemView,
    pub item_actions: Seq<ObjectItemActionSpecView>,
}

/// The views of item actions.
pub open spec fn action_spec_seq(
    specs: Seq<ObjectItemActionSpec>,
) -> Seq<ObjectItemActionSpecView> {
    specs.map_values(|x: ObjectItemActionSpec| x@)
}

impl<'a> View for ItemContext<'a> {
    type V = ItemContextView;

    open spec fn view(&self) -> ItemContextView {
        ItemContextView {
            list_binding: self.list_binding@,
            item: self.item@,
            item_actions: action_spec_seq(self.item_actions@),
        }
    }
}

/// The view of an optional context.
pub open spec fn opt_context(context: Option<&ItemContext>) -> Option<ItemContextView> {
    match context {
        Some(c) => Some(c@),
        None => None,
    }
}

/// The item of an optional context.
pub open spec fn context_item(context: Option<ItemContextView>) -> Option<ObjectListItemView> {
    match context {
        Some(c) => Some(c.item),
        None => None,
    }
}

/// The scope of the item of an optional context.
pub open spec fn context_scope(context: Option<ItemContextView>) -> Option<Seq<char>> {
    match context {
        Some(c) => Some(item_scope(c.list_binding, c.item.id)),
        None => None,
    }
}

/// The number that an operand denotes for an item.
pub open spec fn object_operand(
    state: StateView,
    item: ObjectListItemView,
    operand: ObjectDerivedScalarOperandView,
) -> i64 {
    match operand {
        ObjectDerivedScalarOperandView::Binding(binding) => scalar_at(
            state.scalar_values,
            binding,
        ),
        ObjectDerivedScalarOperandView::Field(field) => field_scalar(state, item, field),
        ObjectDerivedScalarOperandView::Literal(value) => value,
    }
}

/// The number that an operand denotes for an item.
pub fn object_scalar_operand_value(
    state: &StateRuntimeModel,
    item: &ObjectListItem,
    operand: &ObjectDerivedScalarOperand,
) -> (r: i64)
    ensures
        r == object_operand(state@, item@, operand@),
{
    match operand {
        ObjectDerivedScalarOperand::Binding(binding) => scalar_or_zero(
            &state.scalar_values,
            binding.as_str(),
        ),
        ObjectDerivedScalarOperand::Field(field) => item_field_scalar_value(
            state,
            item,
            field.as_str(),
        ),
        ObjectDerivedScalarOperand::Literal(value) => *value,
    }
}

/// Whether two operands stand in the given relation for an item.
pub fn object_scalar_compare_matches(
    state: &StateRuntimeModel,
    item: &ObjectListItem,
    left: &ObjectDerivedScalarOperand,
    op: IntCompareOp,
    right: &ObjectDerivedScalarOperand,
) -> (r: bool)
    ensures
        r == compares(
            op,
            object_operand(state@, item@, left@) as int,
            object_operand(state@, item@, right@) as int,
        ),
{
    let left_value: i64 = object_scalar_operand_value(state, item, left);
    let right_value: i64 = object_scalar_operand_value(state, item, right);
    int_compare_matches(op, left_value, right_value)
}

/// The item actions that an event on an element triggers: those for its name and kind.
pub open spec fn matching_specs(
    specs: Seq<ObjectItemActionSpecView>,
    binding: SemanticEventBindingView,
) -> Seq<ObjectItemActionSpecView> {
    let suffix = match binding.source_binding {
        Some(source) => without_prefix(source, "__item__."@),
        None => None,
    };
    specs.filter(
        |spec: ObjectItemActionSpecView|
            suffix == Some(spec.source_binding_suffix) && spec.kind == binding.kind,
    )
}

/// The change of its list that an item action makes, if it makes one.
pub open spec fn own_list_update(
    context: ItemContextView,
    action: ObjectItemActionKindView,
) -> Option<ObjectListUpdateView> {
    let binding = context.list_binding;
    let item_id = context.item.id;
    match action {
        ObjectItemActionKindView::ToggleBoolField { field } => Some(
            ObjectListUpdateView::ToggleBoolField { binding, item_id, field },
        ),
        ObjectItemActionKindView::SetBoolField { field, value, payload_filter } => Some(
            ObjectListUpdateView::SetBoolField { binding, item_id, field, value, payload_filter },
        ),
        ObjectItemActionKindView::SetTitle { trim, reject_empty, payload_filter } => Some(
            ObjectListUpdateView::SetTitle { binding, item_id, trim, reject_empty, payload_filter },
        ),
        ObjectItemActionKindView::RemoveSelf => Some(
            ObjectListUpdateView::RemoveItem { binding, item_id },
        ),
        ObjectItemActionKindView::UpdateBindings { .. } => None,
        ObjectItemActionKindView::UpdateNestedObjectLists { .. } => None,
    }
}

/// The changes of its list that item actions make.
pub open spec fn own_list_updates(
    context: ItemContextView,
    specs: Seq<ObjectItemActionSpecView>,
) -> Seq<ObjectListUpdateView>
    decreases specs.len(),
{
    if specs.len() == 0 {
        Seq::empty()
    } else {
        let before = own_list_updates(context, specs.drop_last());
        match own_list_update(context, specs.last().action) {
            Some(update) => before.push(update),
            None => before,
        }
    }
}

/// A change of a scalar, with the value of the field filled in.
pub open spec fn filled_scalar(
    state: StateView,
    item: ObjectListItemView,
    update: ItemScalarUpdateView,
) -> ScalarUpdateView {
    match update {
        ItemScalarUpdateView::SetStatic { binding, value } => ScalarUpdateView::SetTo {
            binding,
            value,
        },
        ItemScalarUpdateView::SetFromField { binding, field } => ScalarUpdateView::SetTo {
            binding,
            value: field_scalar(state, item, field),
        },
    }
}

/// A change of a text, with the text of the field filled in.
pub open spec fn filled_text(
    state: StateView,
    context: ItemContextView,
    payload_filter: Option<Seq<char>>,
    update: ItemTextUpdateView,
) -> TextUpdateView {
    match update {
        ItemTextUpdateView::SetStatic { binding, value } => TextUpdateView::SetStatic {
            binding,
            value,
            payload_filter,
        },
        ItemTextUpdateView::SetFromField { binding, field } => TextUpdateView::SetStatic {
            binding,
            value: field_text(state, context.item, field),
            payload_filter,
        },
        ItemTextUpdateView::SetFromPayload { binding } => TextUpdateView::SetFromPayload {
            binding,
        },
        ItemTextUpdateView::SetFromInputSource { binding, source_suffix } => {
            TextUpdateView::SetFromInput {
                binding,
                source_binding: within(
                    item_scope(context.list_binding, context.item.id),
                    source_suffix,
                ),
                payload_filter,
            }
        },
    }
}

/// A change of a list inside the item.
pub open spec fn filled_nested(update: NestedObjectListActionView) -> NestedObjectListUpdateView {
    match update {
        NestedObjectListActionView::AppendObject { field, item } => {
            NestedObjectListUpdateView::AppendObject { field, item }
        },
    }
}

/// What an item action does besides changing its list.
pub open spec fn other_effects(
    state: StateView,
    context: ItemContextView,
    action: ObjectItemActionKindView,
) -> Seq<SemanticActionView> {
    match action {
        ObjectItemActionKindView::UpdateBindings {
            scalar_updates,
            text_updates,
            payload_filter,
        } => {
            let scalars = if scalar_updates.len() == 0 {
                Seq::empty()
            } else {
                seq![
                    SemanticActionView::UpdateScalars {
                        updates: scalar_updates.map_values(
                            |u: ItemScalarUpdateView| filled_scalar(state, context.item, u),
                        ),
                    },
                ]
            };
            let texts = if text_updates.len() == 0 {
                Seq::empty()
            } else {
                seq![
                    SemanticActionView::UpdateTexts {
                        updates: text_updates.map_values(
                            |u: ItemTextUpdateView| filled_text(state, context, payload_filter, u),
                        ),
                    },
                ]
            };
            scalars + texts
        },
        ObjectItemActionKindView::UpdateNestedObjectLists { updates } => {
            if updates.len() == 0 {
                Seq::empty()
            } else {
                seq![
                    SemanticActionView::UpdateNestedObjectLists {
                        parent_binding: context.list_binding,
                        parent_item_id: context.item.id,
                        updates: updates.map_values(|u: NestedObjectListActionView| filled_nested(u)),
                    },
                ]
            }
        },
        _ => Seq::empty(),
    }
}

/// What item actions do besides changing their list.
pub open spec fn all_other_effects(
    state: StateView,
    context: ItemContextView,
    specs: Seq<ObjectItemActionSpecView>,
) -> Seq<SemanticActionView>
    decreases specs.len(),
{
    if specs.len() == 0 {
        Seq::empty()
    } else {
        all_other_effects(state, context, specs.drop_last()) + other_effects(
            state,
            context,
            specs.last().action,
        )
    }
}

/// The one action that does what the given ones do in turn, if there are any.
pub open spec fn joined_action(actions: Seq<SemanticActionView>) -> Option<SemanticActionView> {
    if actions.len() == 0 {
        None
    } else if actions.len() == 1 {
        Some(actions[0])
    } else {
        Some(SemanticActionView::Batch { actions })
    }
}

/// What an event on an element of an item does: the changes of the list come first.
pub open spec fn item_action(
    state: StateView,
    context: ItemContextView,
    binding: SemanticEventBindingView,
) -> Option<SemanticActionView> {
    let specs = matching_specs(context.item_actions, binding);
    let updates = own_list_updates(context, specs);
    let first = if updates.len() == 0 {
        Seq::empty()
    } else {
        seq![SemanticActionView::UpdateObjectLists { updates }]
    };
    joined_action(first + all_other_effects(state, context, specs))
}

/// An event binding of a template as it stands for an item.
pub open spec fn item_event_binding(
    state: StateView,
    context: ItemContextView,
    binding: SemanticEventBindingView,
) -> SemanticEventBindingView {
    SemanticEventBindingView {
        kind: binding.kind,
        source_binding: match binding.source_binding {
            Some(source) => Some(item_source(source, context.list_binding, context.item.id)),
            None => None,
        },
        action: match binding.action {
            Some(action) => Some(action),
            None => item_action(state, context, binding),
        },
    }
}

/// The event bindings of an element as they are rendered.
pub open spec fn rendered_events(
    state: StateView,
    context: Option<ItemContextView>,
    bindings: Seq<SemanticEventBindingView>,
) -> Seq<SemanticEventBindingView> {
    match context {
        None => bindings,
        Some(c) => bindings.map_values(
            |b: SemanticEventBindingView| item_event_binding(state, c, b),
        ),
    }
}

/// The fact bindings of an element as they are rendered.
pub open spec fn rendered_facts(
    bindings: Seq<SemanticFactBindingView>,
    scope: Option<Seq<char>>,
) -> Seq<SemanticFactBindingView> {
    bindings.map_values(
        |b: SemanticFactBindingView|
            SemanticFactBindingView { kind: b.kind, binding: element_binding(b.binding, scope) },
    )
}

/// The first source binding among event bindings.
pub open spec fn first_source(bindings: Seq<SemanticEventBindingView>) -> Option<Seq<char>>
    decreases bindings.len(),
{
    if bindings.len() == 0 {
        None
    } else if bindings[0].source_binding is Some {
        bindings[0].source_binding
    } else {
        first_source(bindings.skip(1))
    }
}

/// The properties of an element before its styles: an input element gets its value from its
/// value source and, over that, the text last typed into it.
pub open spec fn element_properties(
    state: StateView,
    context: Option<ItemContextView>,
    tag: Seq<char>,
    properties: Seq<(Seq<char>, Seq<char>)>,
    input_value: Option<SemanticInputValueView>,
    event_bindings: Seq<SemanticEventBindingView>,
) -> Seq<(Seq<char>, Seq<char>)> {
    if tag != "input"@ {
        properties
    } else {
        let sourced = match input_value {
            Some(value) => with_property(
                properties,
                "value"@,
                input_text(state, context_item(context), value),
            ),
            None => properties,
        };
        match first_source(event_bindings) {
            None => sourced,
            Some(source) => {
                let binding = match context {
                    Some(c) => item_source(source, c.list_binding, c.item.id),
                    None => source,
                };
                let value = if state.input_texts.contains_key(binding) {
                    state.input_texts[binding]
                } else {
                    match property_value(sourced, "value"@) {
                        Some(value) => value,
                        None => Seq::empty(),
                    }
                };
                with_property(sourced, "value"@, value)
            },
        }
    }
}

/// The scope inside an element: the one that it opens, else the one around it.
pub open spec fn inner_scope(
    context: Option<ItemContextView>,
    path: Seq<usize>,
    fact_bindings: Seq<SemanticFactBindingView>,
    scope: Option<Seq<char>>,
) -> Option<Seq<char>> {
    match opened_scope(path, context_scope(context), fact_bindings) {
        Some(opened) => Some(opened),
        None => scope,
    }
}

/// The tree that a node stands for: branches are taken, values filled in, lists written out.
/// `context` holds the item that the node is rendered for, `path` its place in the tree and
/// `scope` the scope of the element around it.
pub open spec fn tree(
    state: StateView,
    context: Option<ItemContextView>,
    node: SemanticNodeView,
    path: Seq<usize>,
    scope: Option<Seq<char>>,
) -> SemanticNodeView
    decreases node, 0nat,
{
    let item = context_item(context);
    match node {
        SemanticNodeView::Fragment(children) => SemanticNodeView::Fragment(
            trees(state, context, children, path, scope),
        ),
        SemanticNodeView::Keyed { key, node } => SemanticNodeView::Keyed {
            key,
            node: Box::new(tree(state, context, *node, path, scope)),
        },
        SemanticNodeView::Element {
            tag,
            text,
            properties,
            input_value,
            style_fragments,
            event_bindings,
            fact_bindings,
            children,
        } => {
            let inner = inner_scope(context, path, fact_bindings, scope);
            SemanticNodeView::Element {
                tag,
                text,
                properties: with_styles(
                    element_properties(
                        state,
                        context,
                        tag,
                        properties,
                        input_value,
                        event_bindings,
                    ),
                    style_fragments,
                    state.scalar_values,
                    inner,
                    item,
                ),
                input_value: None,
                style_fragments: Seq::empty(),
                event_bindings: rendered_events(state, context, event_bindings),
                fact_bindings: rendered_facts(fact_bindings, inner),
                children: trees(state, context, children, path, inner),
            }
        },
        SemanticNodeView::Text(text) => SemanticNodeView::Text(text),
        SemanticNodeView::TextTemplate { parts, .. } => SemanticNodeView::Text(
            parts_text(state, item, parts),
        ),
        SemanticNodeView::TextBindingBranch { binding, invert, truthy, falsy } => {
            if (text_at(state.text_values, binding).len() == 0) != invert {
                tree(state, context, *truthy, path, scope)
            } else {
                tree(state, context, *falsy, path, scope)
            }
        },
        SemanticNodeView::BoolBranch { binding, truthy, falsy } => {
            if scalar_at(state.scalar_values, element_binding(binding, scope)) != 0 {
                tree(state, context, *truthy, path, scope)
            } else {
                tree(state, context, *falsy, path, scope)
            }
        },
        SemanticNodeView::ScalarCompareBranch { left, op, right, truthy, falsy } => {
            if operands_compare(state.scalar_values, left, op, right) {
                tree(state, context, *truthy, path, scope)
            } else {
                tree(state, context, *falsy, path, scope)
            }
        },
        SemanticNodeView::ObjectScalarCompareBranch { left, op, right, truthy, falsy } => {
            if item is Some && compares(
                op,
                object_operand(state, item->0, left) as int,
                object_operand(state, item->0, right) as int,
            ) {
                tree(state, context, *truthy, path, scope)
            } else {
                tree(state, context, *falsy, path, scope)
            }
        },
        SemanticNodeView::ObjectBoolFieldBranch { field, truthy, falsy } => {
            if item is Some && item_bool(item->0, field) {
                tree(state, context, *truthy, path, scope)
            } else {
                tree(state, context, *falsy, path, scope)
            }
        },
        SemanticNodeView::ObjectTextFieldBranch { field, invert, truthy, falsy } => {
            if item is Some && (field_text(state, item->0, field).len() == 0) != invert {
                tree(state, context, *truthy, path, scope)
            } else {
                tree(state, context, *falsy, path, scope)
            }
        },
        SemanticNodeView::ListEmptyBranch { binding, object_items, invert, truthy, falsy } => {
            let is_empty = if object_items {
                list_at(state.object_lists, binding).len() == 0
            } else {
                list_at(state.text_lists, binding).len() == 0
            };
            if is_empty != invert {
                tree(state, context, *truthy, path, scope)
            } else {
                tree(state, context, *falsy, path, scope)
            }
        },
        SemanticNodeView::ScalarValue { binding, .. } => SemanticNodeView::Text(
            int_text(scalar_at(state.scalar_values, binding) as int),
        ),
        SemanticNodeView::ObjectFieldValue { field } => SemanticNodeView::Text(
            match item {
                Some(item) => field_text(state, item, field),
                None => Seq::empty(),
            },
        ),
        SemanticNodeView::TextList { binding, filter, template, .. } => {
            SemanticNodeView::TextList {
                binding,
                values: filtered_texts(state, binding, filter),
                filter,
                template,
            }
        },
        SemanticNodeView::ObjectList { binding, filter, item_actions, template } => match context {
            None => SemanticNodeView::Fragment(
                item_trees(
                    state,
                    binding,
                    filtered_items(state, binding, filter),
                    item_actions,
                    *template,
                    path,
                    None,
                ),
            ),
            Some(c) => match without_prefix(binding, "__item__."@) {
                None => SemanticNodeView::Fragment(Seq::empty()),
                Some(field) => SemanticNodeView::Fragment(
                    item_trees(
                        state,
                        within(item_scope(c.list_binding, c.item.id), field),
                        passing_items(
                            list_at(c.item.object_lists, field),
                            filter,
                            state.scalar_values,
                        ),
                        item_actions,
                        *template,
                        path,
                        scope,
                    ),
                ),
            },
        },
    }
}

/// The trees of the children of a node.
pub open spec fn trees(
    state: StateView,
    context: Option<ItemContextView>,
    children: Seq<SemanticNodeView>,
    path: Seq<usize>,
    scope: Option<Seq<char>>,
) -> Seq<SemanticNodeView>
    decreases children, 0nat,
{
    Seq::new(
        children.len(),
        |i: int|
            if 0 <= i < children.len() {
                tree(state, context, children[i], path.push(i as usize), scope)
            } else {
                arbitrary()
            },
    )
}

/// The trees of the items of a list, each rendered from the template.
pub open spec fn item_trees(
    state: StateView,
    list_binding: Seq<char>,
    items: Seq<ObjectListItemView>,
    item_actions: Seq<ObjectItemActionSpecView>,
    template: SemanticNodeView,
    path: Seq<usize>,
    scope: Option<Seq<char>>,
) -> Seq<SemanticNodeView>
    decreases template, 1nat,
{
    Seq::new(
        items.len(),
        |i: int|
            tree(
                state,
                Some(ItemContextView { list_binding, item: items[i], item_actions }),
                template,
                path.push(i as usize),
                scope,
            ),
    )
}

/// The item actions that an event on an element triggers.
fn matching_action_specs(
    specs: &Vec<ObjectItemActionSpec>,
    binding: &SemanticEventBinding,
) -> (r: Vec<ObjectItemActionSpec>)
    ensures
        action_spec_seq(r@) == matching_specs(action_spec_seq(specs@), binding@),
{
    let ghost all = action_spec_seq(specs@);
    let suffix = match &binding.source_binding {
        Some(source) => strip_prefix(source.as_str(), "__item__."),
        None => None,
    };
    let ghost wanted = opt_text(suffix);
    let ghost pred = |spec: ObjectItemActionSpecView|
        wanted == Some(spec.source_binding_suffix) && spec.kind == binding@.kind;
    let mut out: Vec<ObjectItemActionSpec> = Vec::new();
    let mut i: usize = 0;
    proof {
        reveal(Seq::filter);
        assert(action_spec_seq(out@) =~= all.take(0).filter(pred));
    }
    while i < specs.len()
        invariant
            i <= specs@.len(),
            all == action_spec_seq(specs@),
            wanted == opt_text(suffix),
            pred == (|spec: ObjectItemActionSpecView|
                wanted == Some(spec.source_binding_suffix) && spec.kind == binding@.kind),
            action_spec_seq(out@) == all.take(i as int).filter(pred),
        decreases specs@.len() - i,
    {
        proof {
            lemma_filter_step(all, i as int, pred);
        }
        let matched = match &suffix {
            Some(text) => text_eq(text.as_str(), specs[i].source_binding_suffix.as_str())
                && specs[i].kind == binding.kind,
            None => false,
        };
        if matched {
            let ghost before = out@;
            out.push(specs[i].clone());
            proof {
                assert(action_spec_seq(out@) =~= action_spec_seq(before).push(all[i as int]));
            }
        }
        i = i + 1;
    }
    proof {
        assert(all.take(i as int) =~= all);
        assert(matching_specs(all, binding@) =~= all.filter(pred));
    }
    out
}

fn own_list_change(context: &ItemContext, action: &ObjectItemActionKind) -> (r: Option<
    ObjectListUpdate,
>)
    ensures
        match r {
            Some(u) => own_list_update(context@, action@) == Some(u@),
            None => own_list_update(context@, action@) is None,
        },
{
    let item_id: u64 = context.item.id;
    match action {
        ObjectItemActionKind::ToggleBoolField { field } => Some(
            ObjectListUpdate::ToggleBoolField {
                binding: context.list_binding.to_owned(),
                item_id,
                field: field.clone(),
            },
        ),
        ObjectItemActionKind::SetBoolField { field, value, payload_filter } => Some(
            ObjectListUpdate::SetBoolField {
                binding: context.list_binding.to_owned(),
                item_id,
                field: field.clone(),
                value: *value,
                payload_filter: clone_opt_text(payload_filter),
            },
        ),
        ObjectItemActionKind::SetTitle { trim, reject_empty, payload_filter } => Some(
            ObjectListUpdate::SetTitle {
                binding: context.list_binding.to_owned(),
                item_id,
                trim: *trim,
                reject_empty: *reject_empty,
                payload_filter: clone_opt_text(payload_filter),
            },
        ),
        ObjectItemActionKind::RemoveSelf => Some(
            ObjectListUpdate::RemoveItem { binding: context.list_binding.to_owned(), item_id },
        ),
        ObjectItemActionKind::UpdateBindings { .. } => None,
        ObjectItemActionKind::UpdateNestedObjectLists { .. } => None,
    }
}

fn own_list_changes(context: &ItemContext, specs: &Vec<ObjectItemActionSpec>) -> (r: Vec<
    ObjectListUpdate,
>)
    ensures
        r@.map_values(|x: ObjectListUpdate| x@) == own_list_updates(
            context@,
            action_spec_seq(specs@),
        ),
{
    let ghost all = action_spec_seq(specs@);
    let mut out: Vec<ObjectListUpdate> = Vec::new();
    let mut i: usize = 0;
    proof {
        assert(all.take(0) =~= Seq::<ObjectItemActionSpecView>::empty());
        assert(out@.map_values(|x: ObjectListUpdate| x@) =~= Seq::<ObjectListUpdateView>::empty());
    }
    while i < specs.len()
        invariant
            i <= specs@.len(),
            all == action_spec_seq(specs@),
            out@.map_values(|x: ObjectListUpdate| x@) == own_list_updates(
                context@,
                all.take(i as int),
            ),
        decreases specs@.len() - i,
    {
        proof {
            assert(all.take(i + 1).drop_last() =~= all.take(i as int));
            assert(all.take(i + 1).last() == all[i as int]);
            assert(all[i as int].action == specs@[i as int].action@);
        }
        if let Some(update) = own_list_change(context, &specs[i].action) {
            let ghost before = out@.map_values(|x: ObjectListUpdate| x@);
            out.push(update);
            proof {
                assert(out@.map_values(|x: ObjectListUpdate| x@) =~= before.push(update@));
            }
        }
        i = i + 1;
    }
    proof {
        assert(all.take(i as int) =~= all);
    }
    out
}

fn filled_scalar_updates(
    state: &StateRuntimeModel,
    item: &ObjectListItem,
    updates: &Vec<ItemScalarUpdate>,
) -> (r: Vec<ScalarUpdate>)
    ensures
        r@.len() == updates@.len(),
        r@.map_values(|x: ScalarUpdate| x@) == updates@.map_values(
            |x: ItemScalarUpdate| x@,
        ).map_values(|u: ItemScalarUpdateView| filled_scalar(state@, item@, u)),
{
    let mut out: Vec<ScalarUpdate> = Vec::new();
    let mut i: usize = 0;
    while i < updates.len()
        invariant
            i == out@.len(),
            i <= updates@.len(),
            forall|j: int|
                0 <= j < i ==> (#[trigger] out@[j])@ == filled_scalar(
                    state@,
                    item@,
                    updates@[j]@,
                ),
        decreases updates@.len() - i,
    {
        let update = match &updates[i] {
            ItemScalarUpdate::SetStatic { binding, value } => ScalarUpdate::SetTo {
                binding: binding.clone(),
                value: *value,
            },
            ItemScalarUpdate::SetFromField { binding, field } => ScalarUpdate::SetTo {
                binding: binding.clone(),
                value: item_field_scalar_value(state, item, field.as_str()),
            },
        };
        out.push(update);
        i = i + 1;
    }
    out
}

fn filled_text_updates(
    state: &StateRuntimeModel,
    context: &ItemContext,
    payload_filter: &Option<String>,
    updates: &Vec<ItemTextUpdate>,
) -> (r: Vec<TextUpdate>)
    ensures
        r@.len() == updates@.len(),
        r@.map_values(|x: TextUpdate| x@) == updates@.map_values(
            |x: ItemTextUpdate| x@,
        ).map_values(
            |u: ItemTextUpdateView| filled_text(state@, context@, opt_text(*payload_filter), u),
        ),
{
    let mut out: Vec<TextUpdate> = Vec::new();
    let mut i: usize = 0;
    while i < updates.len()
        invariant
            i == out@.len(),
            i <= updates@.len(),
            forall|j: int|
                0 <= j < i ==> (#[trigger] out@[j])@ == filled_text(
                    state@,
                    context@,
                    opt_text(*payload_filter),
                    updates@[j]@,
                ),
        decreases updates@.len() - i,
    {
        let update = match &updates[i] {
            ItemTextUpdate::SetStatic { binding, value } => TextUpdate::SetStatic {
                binding: binding.clone(),
                value: value.clone(),
                payload_filter: clone_opt_text(payload_filter),
            },
            ItemTextUpdate::SetFromField { binding, field } => TextUpdate::SetStatic {
                binding: binding.clone(),
                value: object_item_field_text_value(state, context.item, field.as_str()),
                payload_filter: clone_opt_text(payload_filter),
            },
            ItemTextUpdate::SetFromPayload { binding } => TextUpdate::SetFromPayload {
                binding: binding.clone(),
            },
            ItemTextUpdate::SetFromInputSource { binding, source_suffix } => {
                let scope = object_item_scope(context.list_binding, context.item.id);
                TextUpdate::SetFromInput {
                    binding: binding.clone(),
                    source_binding: join_scope(scope.as_str(), source_suffix.as_str()),
                    payload_filter: clone_opt_text(payload_filter),
                }
            },
        };
        out.push(update);
        i = i + 1;
    }
    out
}

fn filled_nested_updates(updates: &Vec<NestedObjectListAction>) -> (r: Vec<NestedObjectListUpdate>)
    ensures
        r@.len() == updates@.len(),
        r@.map_values(|x: NestedObjectListUpdate| x@) == updates@.map_values(
            |x: NestedObjectListAction| x@,
        ).map_values(|u: NestedObjectListActionView| filled_nested(u)),
{
    let mut out: Vec<NestedObjectListUpdate> = Vec::new();
    let mut i: usize = 0;
    while i < updates.len()
        invariant
            i == out@.len(),
            i <= updates@.len(),
            forall|j: int| 0 <= j < i ==> (#[trigger] out@[j])@ == filled_nested(updates@[j]@),
        decreases updates@.len() - i,
    {
        let update = match &updates[i] {
            NestedObjectListAction::AppendObject { field, item } => {
                NestedObjectListUpdate::AppendObject { field: field.clone(), item: item.clone() }
            },
        };
        out.push(update);
        i = i + 1;
    }
    out
}

/// The views of actions.
pub open spec fn action_seq(actions: Seq<SemanticAction>) -> Seq<SemanticActionView> {
    actions.map_values(|x: SemanticAction| x@)
}

fn push_other_effects(
    state: &StateRuntimeModel,
    context: &ItemContext,
    action: &ObjectItemActionKind,
    out: &mut Vec<SemanticAction>,
)
    ensures
        action_seq(final(out)@) == action_seq(old(out)@) + other_effects(
            state@,
            context@,
            action@,
        ),
{
    let ghost before = action_seq(out@);
    match action {
        ObjectItemActionKind::UpdateBindings { scalar_updates, text_updates, payload_filter } => {
            if scalar_updates.len() > 0 {
                let effect = SemanticAction::UpdateScalars {
                    updates: filled_scalar_updates(state, context.item, scalar_updates),
                };
                out.push(effect);
                proof {
                    assert(action_seq(out@) =~= before.push(effect@));
                }
            }
            let ghost middle = action_seq(out@);
            if text_updates.len() > 0 {
                let effect = SemanticAction::UpdateTexts {
                    updates: filled_text_updates(state, context, payload_filter, text_updates),
                };
                out.push(effect);
                proof {
                    assert(action_seq(out@) =~= middle.push(effect@));
                }
            }
            proof {
                assert(action_seq(out@) =~= before + other_effects(state@, context@, action@));
            }
        },
        ObjectItemActionKind::UpdateNestedObjectLists { updates } => {
            proof {
                lemma_nested_object_list_action_seq(updates@);
            }
            if updates.len() > 0 {
                let effect = SemanticAction::UpdateNestedObjectLists {
                    parent_binding: context.list_binding.to_owned(),
                    parent_item_id: context.item.id,
                    updates: filled_nested_updates(updates),
                };
                out.push(effect);
                proof {
                    assert(action_seq(out@) =~= before.push(effect@));
                }
            }
            proof {
                assert(action_seq(out@) =~= before + other_effects(state@, context@, action@));
            }
        },
        _ => {
            proof {
                assert(before =~= before + other_effects(state@, context@, action@));
            }
        },
    }
}

/// What an event on an element of an item does.
pub fn object_item_action(
    state: &StateRuntimeModel,
    context: &ItemContext,
    binding: &SemanticEventBinding,
) -> (r: Option<SemanticAction>)
    ensures
        match r {
            Some(a) => item_action(state@, context@, binding@) == Some(a@),
            None => item_action(state@, context@, binding@) is None,
        },
{
    let specs = matching_action_specs(context.item_actions, binding);
    let ghost all = action_spec_seq(specs@);
    let object_updates = own_list_changes(context, &specs);
    let ghost updates = object_updates@.map_values(|x: ObjectListUpdate| x@);
    let ghost first = if updates.len() == 0 {
        Seq::empty()
    } else {
        seq![SemanticActionView::UpdateObjectLists { updates }]
    };
    let mut actions: Vec<SemanticAction> = Vec::new();
    if object_updates.len() > 0 {
        actions.push(SemanticAction::UpdateObjectLists { updates: object_updates });
    }
    proof {
        assert(action_seq(actions@) =~= first);
        assert(all.take(0) =~= Seq::<ObjectItemActionSpecView>::empty());
        assert(first + all_other_effects(state@, context@, all.take(0)) =~= first);
    }
    let mut i: usize = 0;
    while i < specs.len()
        invariant
            i <= specs@.len(),
            all == action_spec_seq(specs@),
            action_seq(actions@) == first + all_other_effects(
                state@,
                context@,
                all.take(i as int),
            ),
        decreases specs@.len() - i,
    {
        push_other_effects(state, context, &specs[i].action, &mut actions);
        proof {
            assert(all.take(i + 1).drop_last() =~= all.take(i as int));
            assert(all.take(i + 1).last() == all[i as int]);
            assert(all[i as int].action == specs@[i as int].action@);
            assert(action_seq(actions@) =~= first + all_other_effects(
                state@,
                context@,
                all.take(i + 1),
            ));
        }
        i = i + 1;
    }
    proof {
        assert(all.take(i as int) =~= all);
        assert(action_seq(actions@).len() == actions@.len());
    }
    if actions.len() == 0 {
        None
    } else if actions.len() == 1 {
        let ghost only = actions@[0]@;
        proof {
            assert(action_seq(actions@)[0] == only);
        }
        actions.pop()
    } else {
        proof {
            lemma_semantic_action_seq(actions@);
        }
        Some(SemanticAction::Batch { actions })
    }
}

/// The views of event bindings.
pub open spec fn event_seq(bindings: Seq<SemanticEventBinding>) -> Seq<SemanticEventBindingView> {
    bindings.map_values(|x: SemanticEventBinding| x@)
}

/// The views of fact bindings.
pub open spec fn fact_seq(bindings: Seq<SemanticFactBinding>) -> Seq<SemanticFactBindingView> {
    bindings.map_values(|x: SemanticFactBinding| x@)
}

fn item_event(
    state: &StateRuntimeModel,
    context: &ItemContext,
    binding: &SemanticEventBinding,
) -> (r: SemanticEventBinding)
    ensures
        r@ == item_event_binding(state@, context@, binding@),
{
    let action = match &binding.action {
        Some(action) => Some(action.clone()),
        None => object_item_action(state, context, binding),
    };
    let source_binding = match &binding.source_binding {
        Some(source) => scope_object_source_binding(
            Some(source.as_str()),
            context.list_binding,
            context.item.id,
        ),
        None => None,
    };
    SemanticEventBinding { kind: binding.kind, source_binding, action }
}

fn render_events(
    state: &StateRuntimeModel,
    context: Option<&ItemContext>,
    bindings: &Vec<SemanticEventBinding>,
) -> (r: Vec<SemanticEventBinding>)
    ensures
        event_seq(r@) == rendered_events(state@, opt_context(context), event_seq(bindings@)),
{
    match context {
        None => {
            let out = clone_vec_semantic_event_binding(bindings);
            proof {
                assert(event_seq(out@) =~= event_seq(bindings@));
            }
            out
        },
        Some(found) => {
            let mut out: Vec<SemanticEventBinding> = Vec::new();
            let mut i: usize = 0;
            while i < bindings.len()
                invariant
                    i == out@.len(),
                    i <= bindings@.len(),
                    forall|j: int|
                        0 <= j < i ==> (#[trigger] out@[j])@ == item_event_binding(
                            state@,
                            found@,
                            bindings@[j]@,
                        ),
                decreases bindings@.len() - i,
            {
                out.push(item_event(state, found, &bindings[i]));
                i = i + 1;
            }
            proof {
                assert(event_seq(out@) =~= rendered_events(
                    state@,
                    opt_context(context),
                    event_seq(bindings@),
                ));
            }
            out
        },
    }
}

fn render_facts(bindings: &Vec<SemanticFactBinding>, scope: Option<&str>) -> (r: Vec<
    SemanticFactBinding,
>)
    ensures
        fact_seq(r@) == rendered_facts(fact_seq(bindings@), opt_str(scope)),
{
    let mut out: Vec<SemanticFactBinding> = Vec::new();
    let mut i: usize = 0;
    while i < bindings.len()
        invariant
            i == out@.len(),
            i <= bindings@.len(),
            forall|j: int|
                0 <= j < i ==> (#[trigger] out@[j])@.kind == bindings@[j]@.kind && out@[j]@.binding
                    == element_binding(bindings@[j]@.binding, opt_str(scope)),
        decreases bindings@.len() - i,
    {
        out.push(
            SemanticFactBinding {
                kind: bindings[i].kind,
                binding: scope_element_binding(bindings[i].binding.as_str(), scope),
            },
        );
        i = i + 1;
    }
    proof {
        assert(fact_seq(out@) =~= rendered_facts(fact_seq(bindings@), opt_str(scope)));
    }
    out
}

proof fn lemma_first_source(bindings: Seq<SemanticEventBindingView>, i: int)
    requires
        0 <= i <= bindings.len(),
        forall|j: int| 0 <= j < i ==> (#[trigger] bindings[j]).source_binding is None,
    ensures
        first_source(bindings) == first_source(bindings.skip(i)),
    decreases i,
{
    if i == 0 {
        assert(bindings.skip(0) =~= bindings);
    } else {
        assert(bindings[0].source_binding is None);
        let rest = bindings.skip(1);
        assert forall|j: int| 0 <= j < i - 1 implies (#[trigger] rest[j]).source_binding is None by {
            assert(rest[j] == bindings[j + 1]);
        }
        lemma_first_source(rest, i - 1);
        assert(rest.skip(i - 1) =~= bindings.skip(i));
    }
}

fn first_source_binding(bindings: &Vec<SemanticEventBinding>) -> (r: Option<String>)
    ensures
        opt_text(r) == first_source(event_seq(bindings@)),
{
    let ghost all = event_seq(bindings@);
    let mut i: usize = 0;
    while i < bindings.len()
        invariant
            i <= bindings@.len(),
            all == event_seq(bindings@),
            forall|j: int| 0 <= j < i ==> (#[trigger] all[j]).source_binding is None,
        decreases bindings@.len() - i,
    {
        proof {
            lemma_first_source(all, i as int);
            assert(all.skip(i as int)[0] == all[i as int]);
            assert(all[i as int] == bindings@[i as int]@);
        }
        if let Some(source) = &bindings[i].source_binding {
            return Some(source.clone());
        }
        i = i + 1;
    }
    proof {
        lemma_first_source(all, i as int);
    }
    None
}

fn render_properties(
    state: &StateRuntimeModel,
    context: Option<&ItemContext>,
    tag: &str,
    properties: &Vec<(String, String)>,
    input_value: &Option<SemanticInputValue>,
    event_bindings: &Vec<SemanticEventBinding>,
) -> (r: Vec<(String, String)>)
    ensures
        property_seq(r@) == element_properties(
            state@,
            opt_context(context),
            tag@,
            property_seq(properties@),
            match *input_value {
                Some(v) => Some(v@),
                None => None,
            },
            event_seq(event_bindings@),
        ),
{
    let mut out = clone_vec_pair(properties);
    proof {
        assert(property_seq(out@) =~= property_seq(properties@));
    }
    if !text_eq(tag, "input") {
        return out;
    }
    if let Some(source) = input_value {
        let value = match context {
            Some(found) => render_object_input_value(state, found.item, source),
            None => render_input_value(state, source),
        };
        set_property(&mut out, "value", value);
    }
    if let Some(source) = first_source_binding(event_bindings) {
        let binding = match context {
            Some(found) => scope_object_source_binding(
                Some(source.as_str()),
                found.list_binding,
                found.item.id,
            ).unwrap(),
            None => source,
        };
        let value = match state.input_texts.get(binding.as_str()) {
            Some(text) => text.clone(),
            None => match get_property(&out, "value") {
                Some(text) => text,
                None => String::new(),
            },
        };
        set_property(&mut out, "value", value);
    }
    out
}

fn scope_str(scope: &Option<String>) -> (r: Option<&str>)
    ensures
        opt_str(r) == opt_text(*scope),
{
    match scope {
        Some(text) => Some(text.as_str()),
        None => None,
    }
}

fn element_scope(
    context: Option<&ItemContext>,
    path: &Vec<usize>,
    fact_bindings: &Vec<SemanticFactBinding>,
    scope: Option<&str>,
) -> (r: Option<String>)
    ensures
        opt_text(r) == inner_scope(
            opt_context(context),
            path@,
            fact_seq(fact_bindings@),
            opt_str(scope),
        ),
{
    let opened = match context {
        Some(found) => {
            let item_scope_text = object_item_scope(found.list_binding, found.item.id);
            local_element_scope(path, Some(item_scope_text.as_str()), fact_bindings)
        },
        None => local_element_scope(path, None, fact_bindings),
    };
    match opened {
        Some(text) => Some(text),
        None => match scope {
            Some(text) => Some(text.to_owned()),
            None => None,
        },
    }
}

fn list_is_empty(state: &StateRuntimeModel, binding: &str, object_items: bool) -> (r: bool)
    ensures
        r == if object_items {
            list_at(state@.object_lists, binding@).len() == 0
        } else {
            list_at(state@.text_lists, binding@).len() == 0
        },
{
    if object_items {
        match state.object_lists.get(binding) {
            Some(items) => items.len() == 0,
            None => true,
        }
    } else {
        match state.text_lists.get(binding) {
            Some(values) => values.len() == 0,
            None => true,
        }
    }
}

/// The items of a list inside an item that pass an optional filter.
fn nested_list_items(
    state: &StateRuntimeModel,
    item: &ObjectListItem,
    field: &str,
    filter: &Option<ObjectListFilter>,
) -> (r: Vec<ObjectListItem>)
    ensures
        item_seq(r@) == passing_items(
            list_at(item@.object_lists, field@),
            opt_item_filter(*filter),
            state@.scalar_values,
        ),
{
    proof {
        use_type_invariant(&item.object_lists);
        lemma_object_list_item_lists(item.object_lists);
    }
    match item.object_lists.get(field) {
        Some(items) => passing_list_items(items, filter, &state.scalar_values),
        None => {
            let none: Vec<ObjectListItem> = Vec::new();
            proof {
                assert(item_seq(none@) =~= Seq::<ObjectListItemView>::empty());
            }
            passing_list_items(&none, filter, &state.scalar_values)
        },
    }
}

fn materialize_children(
    state: &StateRuntimeModel,
    context: Option<&ItemContext>,
    children: &Vec<SemanticNode>,
    path: &Vec<usize>,
    scope: Option<&str>,
) -> (r: Vec<SemanticNode>)
    ensures
        semantic_node_seq(r@) == trees(
            state@,
            opt_context(context),
            semantic_node_seq(children@),
            path@,
            opt_str(scope),
        ),
    decreases children, 2nat,
{
    let mut out: Vec<SemanticNode> = Vec::new();
    let mut i: usize = 0;
    while i < children.len()
        invariant
            i == out@.len(),
            i <= children@.len(),
            forall|j: int|
                0 <= j < i ==> (#[trigger] out@[j])@ == tree(
                    state@,
                    opt_context(context),
                    children@[j]@,
                    path@.push(j as usize),
                    opt_str(scope),
                ),
        decreases children@.len() - i,
    {
        let next = child_path(path, i);
        out.push(materialize(state, context, &children[i], &next, scope));
        i = i + 1;
    }
    proof {
        lemma_semantic_node_seq(children@);
        lemma_semantic_node_seq(out@);
        assert(semantic_node_seq(out@) =~= trees(
            state@,
            opt_context(context),
            semantic_node_seq(children@),
            path@,
            opt_str(scope),
        ));
    }
    out
}

fn materialize_items(
    state: &StateRuntimeModel,
    list_binding: &str,
    items: &Vec<ObjectListItem>,
    item_actions: &Vec<ObjectItemActionSpec>,
    template: &SemanticNode,
    path: &Vec<usize>,
    scope: Option<&str>,
) -> (r: Vec<SemanticNode>)
    ensures
        semantic_node_seq(r@) == item_trees(
            state@,
            list_binding@,
            item_seq(items@),
            action_spec_seq(item_actions@),
            template@,
            path@,
            opt_str(scope),
        ),
    decreases template, 2nat,
{
    let mut out: Vec<SemanticNode> = Vec::new();
    let mut i: usize = 0;
    while i < items.len()
        invariant
            i == out@.len(),
            i <= items@.len(),
            forall|j: int|
                0 <= j < i ==> (#[trigger] out@[j])@ == tree(
                    state@,
                    Some(
                        ItemContextView {
                            list_binding: list_binding@,
                            item: items@[j]@,
                            item_actions: action_spec_seq(item_actions@),
                        },
                    ),
                    template@,
                    path@.push(j as usize),
                    opt_str(scope),
                ),
        decreases items@.len() - i,
    {
        let next = child_path(path, i);
        let context = ItemContext { list_binding, item: &items[i], item_actions };
        out.push(materialize(state, Some(&context), template, &next, scope));
        i = i + 1;
    }
    proof {
        lemma_semantic_node_seq(out@);
        assert(semantic_node_seq(out@) =~= item_trees(
            state@,
            list_binding@,
            item_seq(items@),
            action_spec_seq(item_actions@),
            template@,
            path@,
            opt_str(scope),
        ));
    }
    out
}

fn materialize_element(
    state: &StateRuntimeModel,
    context: Option<&ItemContext>,
    node: &SemanticNode,
    path: &Vec<usize>,
    scope: Option<&str>,
) -> (r: SemanticNode)
    requires
        node is Element,
    ensures
        r@ == tree(state@, opt_context(context), node@, path@, opt_str(scope)),
    decreases node, 0nat,
{
    match node {
        SemanticNode::Element {
            tag,
            text,
            properties,
            input_value,
            style_fragments,
            event_bindings,
            fact_bindings,
            children,
        } => {
            let mut rendered = render_properties(
                state,
                context,
                tag.as_str(),
                properties,
                input_value,
                event_bindings,
            );
            let inner = element_scope(context, path, fact_bindings, scope);
            let item = match context {
                Some(found) => Some(found.item),
                None => None,
            };
            merge_style_fragments(
                &mut rendered,
                style_fragments,
                &state.scalar_values,
                scope_str(&inner),
                item,
            );
            let events = render_events(state, context, event_bindings);
            let facts = render_facts(fact_bindings, scope_str(&inner));
            let nodes = materialize_children(state, context, children, path, scope_str(&inner));
            let styles: Vec<SemanticStyleFragment> = Vec::new();
            let r = SemanticNode::Element {
                tag: tag.clone(),
                text: clone_opt_text(text),
                properties: rendered,
                input_value: None,
                style_fragments: styles,
                event_bindings: events,
                fact_bindings: facts,
                children: nodes,
            };
            proof {
                assert(style_seq(styles@) =~= Seq::<SemanticStyleFragmentView>::empty());
                assert(semantic_node_seq(children@) == node@->children);
            }
            r
        },
        _ => SemanticNode::Fragment(Vec::new()),
    }
}

/// The tree that a node stands for, rendered for an item if there is one.
fn materialize(
    state: &StateRuntimeModel,
    context: Option<&ItemContext>,
    node: &SemanticNode,
    path: &Vec<usize>,
    scope: Option<&str>,
) -> (r: SemanticNode)
    ensures
        r@ == tree(state@, opt_context(context), node@, path@, opt_str(scope)),
    decreases node, 1nat,
{
    match node {
        SemanticNode::Fragment(children) => SemanticNode::Fragment(
            materialize_children(state, context, children, path, scope),
        ),
        SemanticNode::Keyed { key, node } => SemanticNode::Keyed {
            key: *key,
            node: Box::new(materialize(state, context, node, path, scope)),
        },
        SemanticNode::Element { .. } => materialize_element(state, context, node, path, scope),
        SemanticNode::Text(text) => SemanticNode::Text(text.clone()),
        SemanticNode::TextTemplate { parts, .. } => SemanticNode::Text(
            match context {
                Some(found) => render_object_text_parts(state, found.item, parts),
                None => render_text_parts(state, parts),
            },
        ),
        SemanticNode::TextBindingBranch { binding, invert, truthy, falsy } => {
            let text = text_or_empty(&state.text_values, binding.as_str());
            if text.as_str().is_empty() != *invert {
                materialize(state, context, truthy, path, scope)
            } else {
                materialize(state, context, falsy, path, scope)
            }
        },
        SemanticNode::BoolBranch { binding, truthy, falsy } => {
            let scoped = scope_element_binding(binding.as_str(), scope);
            if scalar_or_zero(&state.scalar_values, scoped.as_str()) != 0 {
                materialize(state, context, truthy, path, scope)
            } else {
                materialize(state, context, falsy, path, scope)
            }
        },
        SemanticNode::ScalarCompareBranch { left, op, right, truthy, falsy } => {
            if scalar_compare_matches(&state.scalar_values, left, *op, right) {
                materialize(state, context, truthy, path, scope)
            } else {
                materialize(state, context, falsy, path, scope)
            }
        },
        SemanticNode::ObjectScalarCompareBranch { left, op, right, truthy, falsy } => {
            let holds = match context {
                Some(found) => object_scalar_compare_matches(state, found.item, left, *op, right),
                None => false,
            };
            if holds {
                materialize(state, context, truthy, path, scope)
            } else {
                materialize(state, context, falsy, path, scope)
            }
        },
        SemanticNode::ObjectBoolFieldBranch { field, truthy, falsy } => {
            let holds = match context {
                Some(found) => object_item_bool_field(found.item, field.as_str()),
                None => false,
            };
            if holds {
                materialize(state, context, truthy, path, scope)
            } else {
                materialize(state, context, falsy, path, scope)
            }
        },
        SemanticNode::ObjectTextFieldBranch { field, invert, truthy, falsy } => {
            let holds = match context {
                Some(found) => {
                    let text = object_item_field_text_value(state, found.item, field.as_str());
                    text.as_str().is_empty() != *invert
                },
                None => false,
            };
            if holds {
                materialize(state, context, truthy, path, scope)
            } else {
                materialize(state, context, falsy, path, scope)
            }
        },
        SemanticNode::ListEmptyBranch { binding, object_items, invert, truthy, falsy } => {
            if list_is_empty(state, binding.as_str(), *object_items) != *invert {
                materialize(state, context, truthy, path, scope)
            } else {
                materialize(state, context, falsy, path, scope)
            }
        },
        SemanticNode::ScalarValue { binding, .. } => SemanticNode::Text(
            i64_text(scalar_or_zero(&state.scalar_values, binding.as_str())),
        ),
        SemanticNode::ObjectFieldValue { field } => SemanticNode::Text(
            match context {
                Some(found) => object_item_field_text_value(state, found.item, field.as_str()),
                None => String::new(),
            },
        ),
        SemanticNode::TextList { binding, filter, template, .. } => SemanticNode::TextList {
            binding: binding.clone(),
            values: filtered_text_list_values(state, binding.as_str(), filter),
            filter: clone_opt_text_list_filter(filter),
            template: template.clone(),
        },
        SemanticNode::ObjectList { binding, filter, item_actions, template } => match context {
            None => {
                let items = filtered_object_list_items(state, binding.as_str(), filter);
                SemanticNode::Fragment(
                    materialize_items(
                        state,
                        binding.as_str(),
                        &items,
                        item_actions,
                        template,
                        path,
                        None,
                    ),
                )
            },
            Some(found) => match strip_prefix(binding.as_str(), "__item__.") {
                None => {
                    let none: Vec<SemanticNode> = Vec::new();
                    proof {
                        assert(semantic_node_seq(none@) =~= Seq::<SemanticNodeView>::empty());
                    }
                    SemanticNode::Fragment(none)
                },
                Some(field) => {
                    let outer = object_item_scope(found.list_binding, found.item.id);
                    let nested_binding = join_scope(outer.as_str(), field.as_str());
                    let items = nested_list_items(state, found.item, field.as_str(), filter);
                    SemanticNode::Fragment(
                        materialize_items(
                            state,
                            nested_binding.as_str(),
                            &items,
                            item_actions,
                            template,
                            path,
                            scope,
                        ),
                    )
                },
            },
        },
    }
}

/// The tree that a node at the given place stands for, inside the given element scope.
pub fn materialize_node_with_scope(
    state: &StateRuntimeModel,
    node: &SemanticNode,
    path: &Vec<usize>,
    current_element_scope: Option<&str>,
) -> (r: SemanticNode)
    ensures
        r@ == tree(state@, None, node@, path@, opt_str(current_element_scope)),
{
    materialize(state, None, node, path, current_element_scope)
}

/// The tree that a node at the given place stands for.
pub fn materialize_node(state: &StateRuntimeModel, node: &SemanticNode, path: &Vec<usize>) -> (r:
    SemanticNode)
    ensures
        r@ == tree(state@, None, node@, path@, None),
{
    materialize_node_with_scope(state, node, path, None)
}

/// The tree that a template at the given place stands for, rendered for an item.
pub fn materialize_object_template(
    state: &StateRuntimeModel,
    list_binding: &str,
    item: &ObjectListItem,
    item_actions: &Vec<ObjectItemActionSpec>,
    node: &SemanticNode,
    path: &Vec<usize>,
    current_element_scope: Option<&str>,
) -> (r: SemanticNode)
    ensures
        r@ == tree(
            state@,
            Some(
                (ItemContextView {
                    list_binding: list_binding@,
                    item: item@,
                    item_actions: action_spec_seq(item_actions@),
                }),
            ),
            node@,
            path@,
            opt_str(current_element_scope),
        ),
{
    let context = ItemContext { list_binding, item, item_actions };
    materialize(state, Some(&context), node, path, current_element_scope)
}

/// Whether a tree holds nothing that still depends on the state: no branch, no template, no
/// list of objects, no value source and no style fragment.
pub open spec fn is_resolved(node: SemanticNodeView) -> bool
    decreases node,
{
    match node {
        SemanticNodeView::Fragment(children) => forall|i: int|
            0 <= i < children.len() ==> is_resolved(#[trigger] children[i]),
        SemanticNodeView::Keyed { node, .. } => is_resolved(*node),
        SemanticNodeView::Element { input_value, style_fragments, children, .. } => {
            &&& input_value is None
            &&& style_fragments.len() == 0
            &&& forall|i: int| 0 <= i < children.len() ==> is_resolved(#[trigger] children[i])
        },
        SemanticNodeView::Text(_) => true,
        SemanticNodeView::TextList { .. } => true,
        _ => false,
    }
}

/// A rendered tree holds nothing that still depends on the state.
pub proof fn lemma_tree_is_resolved(
    state: StateView,
    context: Option<ItemContextView>,
    node: SemanticNodeView,
    path: Seq<usize>,
    scope: Option<Seq<char>>,
)
    ensures
        is_resolved(tree(state, context, node, path, scope)),
    decreases node, 0nat,
{
    match node {
        SemanticNodeView::Fragment(children) => {
            lemma_trees_are_resolved(state, context, children, path, scope);
            assert(
                is_resolved(
                    SemanticNodeView::Fragment(trees(state, context, children, path, scope)),
                )
            );
        },
        SemanticNodeView::Keyed { node, .. } => {
            lemma_tree_is_resolved(state, context, *node, path, scope);
        },
        SemanticNodeView::Element { fact_bindings, children, .. } => {
            let inner = inner_scope(context, path, fact_bindings, scope);
            lemma_trees_are_resolved(state, context, children, path, inner);
            assert(is_resolved(tree(state, context, node, path, scope)));
        },
        SemanticNodeView::TextBindingBranch { truthy, falsy, .. } => {
            lemma_tree_is_resolved(state, context, *truthy, path, scope);
            lemma_tree_is_resolved(state, context, *falsy, path, scope);
        },
        SemanticNodeView::BoolBranch { truthy, falsy, .. } => {
            lemma_tree_is_resolved(state, context, *truthy, path, scope);
            lemma_tree_is_resolved(state, context, *falsy, path, scope);
        },
        SemanticNodeView::ScalarCompareBranch { truthy, falsy, .. } => {
            lemma_tree_is_resolved(state, context, *truthy, path, scope);
            lemma_tree_is_resolved(state, context, *falsy, path, scope);
        },
        SemanticNodeView::ObjectScalarCompareBranch { truthy, falsy, .. } => {
            lemma_tree_is_resolved(state, context, *truthy, path, scope);
            lemma_tree_is_resolved(state, context, *falsy, path, scope);
        },
        SemanticNodeView::ObjectBoolFieldBranch { truthy, falsy, .. } => {
            lemma_tree_is_resolved(state, context, *truthy, path, scope);
            lemma_tree_is_resolved(state, context, *falsy, path, scope);
        },
        SemanticNodeView::ObjectTextFieldBranch { truthy, falsy, .. } => {
            lemma_tree_is_resolved(state, context, *truthy, path, scope);
            lemma_tree_is_resolved(state, context, *falsy, path, scope);
        },
        SemanticNodeView::ListEmptyBranch { truthy, falsy, .. } => {
            lemma_tree_is_resolved(state, context, *truthy, path, scope);
            lemma_tree_is_resolved(state, context, *falsy, path, scope);
        },
        SemanticNodeView::ObjectList { binding, filter, item_actions, template } => match context {
            None => {
                let items = filtered_items(state, binding, filter);
                lemma_item_trees_are_resolved(
                    state,
                    binding,
                    items,
                    item_actions,
                    *template,
                    path,
                    None,
                );
            },
            Some(c) => {
                if let Some(field) = without_prefix(binding, "__item__."@) {
                    let items = passing_items(
                        list_at(c.item.object_lists, field),
                        filter,
                        state.scalar_values,
                    );
                    lemma_item_trees_are_resolved(
                        state,
                        within(item_scope(c.list_binding, c.item.id), field),
                        items,
                        item_actions,
                        *template,
                        path,
                        scope,
                    );
                }
            },
        },
        _ => {},
    }
}

proof fn lemma_item_trees_are_resolved(
    state: StateView,
    list_binding: Seq<char>,
    items: Seq<ObjectListItemView>,
    item_actions: Seq<ObjectItemActionSpecView>,
    template: SemanticNodeView,
    path: Seq<usize>,
    scope: Option<Seq<char>>,
)
    ensures
        is_resolved(
            SemanticNodeView::Fragment(
                item_trees(state, list_binding, items, item_actions, template, path, scope),
            ),
        ),
    decreases template, 1nat,
{
    let all = item_trees(state, list_binding, items, item_actions, template, path, scope);
    assert forall|i: int| 0 <= i < all.len() implies is_resolved(#[trigger] all[i]) by {
        lemma_tree_is_resolved(
            state,
            Some(ItemContextView { list_binding, item: items[i], item_actions }),
            template,
            path.push(i as usize),
            scope,
        );
    }
}

proof fn lemma_trees_are_resolved(
    state: StateView,
    context: Option<ItemContextView>,
    children: Seq<SemanticNodeView>,
    path: Seq<usize>,
    scope: Option<Seq<char>>,
)
    ensures
        trees(state, context, children, path, scope).len() == children.len(),
        forall|i: int|
            0 <= i < children.len() ==> is_resolved(
                #[trigger] trees(state, context, children, path, scope)[i],
            ),
    decreases children, 0nat,
{
    assert forall|i: int| 0 <= i < children.len() implies is_resolved(
        #[trigger] trees(state, context, children, path, scope)[i],
    ) by {
        lemma_tree_is_resolved(state, context, children[i], path.push(i as usize), scope);
    }
}

} // verus!
