//! Texts, input values and styles that are put together from the state.
use crate::cells::{field_text, object_item_field_text_value};
use crate::scope::{element_binding, scope_element_binding};
use crate::semantic_ir::{
    DerivedScalarOperand, IntCompareOp, ObjectListItem, SemanticInputValue, SemanticStyleFragment,
    SemanticTextPart, StateRuntimeModel,
};
use crate::semantic_view::{
    DerivedScalarOperandView, ObjectListItemView, SemanticInputValueView,
    SemanticStyleFragmentView, SemanticTextPartView,
};
use crate::text::{i64_text, int_text, nat_text, opt_str, opt_text, text_eq, usize_text};
use crate::text_map::TextMap;
use crate::values::{
    StateView, compares, filtered_items, filtered_object_list_items, filtered_text_list_values,
    filtered_texts, int_compare_matches, item_bool, item_seq, list_at, object_item_bool_field,
    scalar_at, scalar_or_zero, text_at, text_or_empty, text_seq,
};
use vstd::prelude::*;
use vstd::string::*;

verus! {

/// The view of an optional item.
pub open spec fn opt_item(item: Option<&ObjectListItem>) -> Option<ObjectListItemView> {
    match item {
        Some(item) => Some(item@),
        None => None,
    }
}

/// The text of a piece of a template, for the given item if there is one.
pub open spec fn part_text(
    state: StateView,
    item: Option<ObjectListItemView>,
    part: SemanticTextPartView,
) -> Seq<char> {
    match part {
        SemanticTextPartView::Static(text) => text,
        SemanticTextPartView::TextBinding(binding) => text_at(state.text_values, binding),
        SemanticTextPartView::ScalarBinding(binding) => int_text(
            scalar_at(state.scalar_values, binding) as int,
        ),
        SemanticTextPartView::ObjectFieldBinding(field) => match item {
            Some(item) => field_text(state, item, field),
            None => Seq::empty(),
        },
        SemanticTextPartView::ListCountBinding(binding) => nat_text(
            list_at(state.text_lists, binding).len(),
        ),
        SemanticTextPartView::ObjectListCountBinding(binding) => nat_text(
            list_at(state.object_lists, binding).len(),
        ),
        SemanticTextPartView::FilteredListCountBinding { binding, filter } => nat_text(
            filtered_texts(state, binding, Some(filter)).len(),
        ),
        SemanticTextPartView::FilteredObjectListCountBinding { binding, filter } => nat_text(
            filtered_items(state, binding, Some(filter)).len(),
        ),
        SemanticTextPartView::BoolBindingText { binding, true_text, false_text } => {
            if scalar_at(state.scalar_values, binding) != 0 {
                true_text
            } else {
                false_text
            }
        },
        SemanticTextPartView::ObjectBoolFieldText { field, true_text, false_text } => match item {
            Some(item) => if item_bool(item, field) {
                true_text
            } else {
                false_text
            },
            None => Seq::empty(),
        },
    }
}

/// The texts of the pieces of a template, one after the other.
pub open spec fn parts_text(
    state: StateView,
    item: Option<ObjectListItemView>,
    parts: Seq<SemanticTextPartView>,
) -> Seq<char>
    decreases parts.len(),
{
    if parts.len() == 0 {
        Seq::empty()
    } else {
        parts_text(state, item, parts.drop_last()) + part_text(state, item, parts.last())
    }
}

/// The text of a piece of a template, for the given item if there is one.
pub fn text_part_value(
    state: &StateRuntimeModel,
    item: Option<&ObjectListItem>,
    part: &SemanticTextPart,
) -> (r: String)
    ensures
        r@ == part_text(state@, opt_item(item), part@),
{
    match part {
        SemanticTextPart::Static(text) => text.clone(),
        SemanticTextPart::TextBinding(binding) => text_or_empty(
            &state.text_values,
            binding.as_str(),
        ),
        SemanticTextPart::ScalarBinding(binding) => i64_text(
            scalar_or_zero(&state.scalar_values, binding.as_str()),
        ),
        SemanticTextPart::ObjectFieldBinding(field) => match item {
            Some(item) => object_item_field_text_value(state, item, field.as_str()),
            None => String::new(),
        },
        SemanticTextPart::ListCountBinding(binding) => {
            let values = filtered_text_list_values(state, binding.as_str(), &None);
            proof {
                assert(text_seq(values@).len() == values@.len());
            }
            usize_text(values.len())
        },
        SemanticTextPart::ObjectListCountBinding(binding) => {
            match state.object_lists.get(binding.as_str()) {
                Some(items) => {
                    proof {
                        assert(item_seq(items@).len() == items@.len());
                    }
                    usize_text(items.len())
                },
                None => usize_text(0),
            }
        },
        SemanticTextPart::FilteredListCountBinding { binding, filter } => {
            let values = filtered_text_list_values(
                state,
                binding.as_str(),
                &Some(filter.clone()),
            );
            proof {
                assert(text_seq(values@).len() == values@.len());
            }
            usize_text(values.len())
        },
        SemanticTextPart::FilteredObjectListCountBinding { binding, filter } => {
            let items = filtered_object_list_items(
                state,
                binding.as_str(),
                &Some(filter.clone()),
            );
            proof {
                assert(item_seq(items@).len() == items@.len());
            }
            usize_text(items.len())
        },
        SemanticTextPart::BoolBindingText { binding, true_text, false_text } => {
            if scalar_or_zero(&state.scalar_values, binding.as_str()) != 0 {
                true_text.clone()
            } else {
                false_text.clone()
            }
        },
        SemanticTextPart::ObjectBoolFieldText { field, true_text, false_text } => match item {
            Some(item) => if object_item_bool_field(item, field.as_str()) {
                true_text.clone()
            } else {
                false_text.clone()
            },
            None => String::new(),
        },
    }
}

/// The views of the pieces of a template.
pub open spec fn part_seq(parts: Seq<SemanticTextPart>) -> Seq<SemanticTextPartView> {
    parts.map_values(|x: SemanticTextPart| x@)
}

fn render_parts(
    state: &StateRuntimeModel,
    item: Option<&ObjectListItem>,
    parts: &Vec<SemanticTextPart>,
) -> (r: String)
    ensures
        r@ == parts_text(state@, opt_item(item), part_seq(parts@)),
{
    let ghost all = part_seq(parts@);
    let mut output = String::new();
    let mut i: usize = 0;
    proof {
        assert(all.take(0) =~= Seq::<SemanticTextPartView>::empty());
    }
    while i < parts.len()
        invariant
            i <= parts@.len(),
            all == part_seq(parts@),
            output@ == parts_text(state@, opt_item(item), all.take(i as int)),
        decreases parts@.len() - i,
    {
        let text = text_part_value(state, item, &parts[i]);
        output.append(text.as_str());
        proof {
            assert(all.take(i + 1).drop_last() =~= all.take(i as int));
            assert(all.take(i + 1).last() == all[i as int]);
        }
        i = i + 1;
    }
    proof {
        assert(all.take(i as int) =~= all);
    }
    output
}

/// The text of a template outside of any item.
pub fn render_text_parts(state: &StateRuntimeModel, parts: &Vec<SemanticTextPart>) -> (r: String)
    ensures
        r@ == parts_text(state@, None, part_seq(parts@)),
{
    render_parts(state, None, parts)
}

/// The text of a template for an item.
pub fn render_object_text_parts(
    state: &StateRuntimeModel,
    item: &ObjectListItem,
    parts: &Vec<SemanticTextPart>,
) -> (r: String)
    ensures
        r@ == parts_text(state@, Some(item@), part_seq(parts@)),
{
    render_parts(state, Some(item), parts)
}

/// The value of an input element, for the given item if there is one.
pub open spec fn input_text(
    state: StateView,
    item: Option<ObjectListItemView>,
    value: SemanticInputValueView,
) -> Seq<char>
    decreases value,
{
    match value {
        SemanticInputValueView::Static(text) => text,
        SemanticInputValueView::TextParts { parts, .. } => parts_text(state, item, parts),
        SemanticInputValueView::TextBindingBranch { binding, invert, truthy, falsy } => {
            if (text_at(state.text_values, binding).len() == 0) != invert {
                input_text(state, item, *truthy)
            } else {
                input_text(state, item, *falsy)
            }
        },
        SemanticInputValueView::ObjectTextFieldBranch { field, invert, truthy, falsy } => {
            if item is Some && (field_text(state, item->0, field).len() == 0) != invert {
                input_text(state, item, *truthy)
            } else {
                input_text(state, item, *falsy)
            }
        },
    }
}

fn input_value_text(
    state: &StateRuntimeModel,
    item: Option<&ObjectListItem>,
    value: &SemanticInputValue,
) -> (r: String)
    ensures
        r@ == input_text(state@, opt_item(item), value@),
    decreases value,
{
    match value {
        SemanticInputValue::Static(text) => text.clone(),
        SemanticInputValue::TextParts { parts, .. } => render_parts(state, item, parts),
        SemanticInputValue::TextBindingBranch { binding, invert, truthy, falsy } => {
            let text = text_or_empty(&state.text_values, binding.as_str());
            if text.as_str().is_empty() != *invert {
                input_value_text(state, item, truthy)
            } else {
                input_value_text(state, item, falsy)
            }
        },
        SemanticInputValue::ObjectTextFieldBranch { field, invert, truthy, falsy } => match item {
            Some(found) => {
                let text = object_item_field_text_value(state, found, field.as_str());
                if text.as_str().is_empty() != *invert {
                    input_value_text(state, item, truthy)
                } else {
                    input_value_text(state, item, falsy)
                }
            },
            None => input_value_text(state, item, falsy),
        },
    }
}

/// The value of an input element outside of any item.
pub fn render_input_value(state: &StateRuntimeModel, value: &SemanticInputValue) -> (r: String)
    ensures
        r@ == input_text(state@, None, value@),
{
    input_value_text(state, None, value)
}

/// The value of an input element for an item.
pub fn render_object_input_value(
    state: &StateRuntimeModel,
    item: &ObjectListItem,
    value: &SemanticInputValue,
) -> (r: String)
    ensures
        r@ == input_text(state@, Some(item@), value@),
{
    input_value_text(state, Some(item), value)
}

/// The number that an operand of a style denotes inside an element.
pub open spec fn style_operand(
    operand: DerivedScalarOperandView,
    scalars: Map<Seq<char>, i64>,
    scope: Option<Seq<char>>,
) -> i64 {
    match operand {
        DerivedScalarOperandView::Literal(value) => value,
        DerivedScalarOperandView::Binding(binding) => scalar_at(
            scalars,
            element_binding(binding, scope),
        ),
    }
}

/// The number that an operand of a style denotes inside an element.
pub fn style_scalar_operand_value(
    operand: &DerivedScalarOperand,
    scalar_values: &TextMap<i64>,
    current_element_scope: Option<&str>,
) -> (r: i64)
    ensures
        r == style_operand(operand@, scalar_values@, opt_str(current_element_scope)),
{
    match operand {
        DerivedScalarOperand::Literal(value) => *value,
        DerivedScalarOperand::Binding(binding) => {
            let scoped = scope_element_binding(binding.as_str(), current_element_scope);
            scalar_or_zero(scalar_values, scoped.as_str())
        },
    }
}

/// Whether two operands of a style stand in the given relation inside an element.
pub fn style_scalar_compare_matches(
    left: &DerivedScalarOperand,
    op: IntCompareOp,
    right: &DerivedScalarOperand,
    scalar_values: &TextMap<i64>,
    current_element_scope: Option<&str>,
) -> (r: bool)
    ensures
        r == compares(
            op,
            style_operand(left@, scalar_values@, opt_str(current_element_scope)) as int,
            style_operand(right@, scalar_values@, opt_str(current_element_scope)) as int,
        ),
{
    let left_value: i64 = style_scalar_operand_value(left, scalar_values, current_element_scope);
    let right_value: i64 = style_scalar_operand_value(right, scalar_values, current_element_scope);
    int_compare_matches(op, left_value, right_value)
}

/// The style that a fragment stands for inside an element, if any.
pub open spec fn style_text(
    fragment: SemanticStyleFragmentView,
    scalars: Map<Seq<char>, i64>,
    scope: Option<Seq<char>>,
    item: Option<ObjectListItemView>,
) -> Option<Seq<char>>
    decreases fragment,
{
    match fragment {
        SemanticStyleFragmentView::Static(style) => style,
        SemanticStyleFragmentView::BoolBinding { binding, truthy, falsy } => {
            if scalar_at(scalars, element_binding(binding, scope)) != 0 {
                style_text(*truthy, scalars, scope, item)
            } else {
                style_text(*falsy, scalars, scope, item)
            }
        },
        SemanticStyleFragmentView::ScalarCompare { left, op, right, truthy, falsy } => {
            if compares(
                op,
                style_operand(left, scalars, scope) as int,
                style_operand(right, scalars, scope) as int,
            ) {
                style_text(*truthy, scalars, scope, item)
            } else {
                style_text(*falsy, scalars, scope, item)
            }
        },
        SemanticStyleFragmentView::ObjectBoolField { field, truthy, falsy } => {
            if item is Some && item_bool(item->0, field) {
                style_text(*truthy, scalars, scope, item)
            } else {
                style_text(*falsy, scalars, scope, item)
            }
        },
    }
}

/// The style that a fragment stands for inside an element, if any.
pub fn evaluate_style_fragment(
    fragment: &SemanticStyleFragment,
    scalar_values: &TextMap<i64>,
    current_element_scope: Option<&str>,
    item: Option<&ObjectListItem>,
) -> (r: Option<String>)
    ensures
        opt_text(r) == style_text(
            fragment@,
            scalar_values@,
            opt_str(current_element_scope),
            opt_item(item),
        ),
    decreases fragment,
{
    match fragment {
        SemanticStyleFragment::Static(style) => match style {
            Some(text) => Some(text.clone()),
            None => None,
        },
        SemanticStyleFragment::BoolBinding { binding, truthy, falsy } => {
            let scoped = scope_element_binding(binding.as_str(), current_element_scope);
            if scalar_or_zero(scalar_values, scoped.as_str()) != 0 {
                evaluate_style_fragment(truthy, scalar_values, current_element_scope, item)
            } else {
                evaluate_style_fragment(falsy, scalar_values, current_element_scope, item)
            }
        },
        SemanticStyleFragment::ScalarCompare { left, op, right, truthy, falsy } => {
            if style_scalar_compare_matches(
                left,
                *op,
                right,
                scalar_values,
                current_element_scope,
            ) {
                evaluate_style_fragment(truthy, scalar_values, current_element_scope, item)
            } else {
                evaluate_style_fragment(falsy, scalar_values, current_element_scope, item)
            }
        },
        SemanticStyleFragment::ObjectBoolField { field, truthy, falsy } => {
            let holds = match item {
                Some(found) => object_item_bool_field(found, field.as_str()),
                None => false,
            };
            if holds {
                evaluate_style_fragment(truthy, scalar_values, current_element_scope, item)
            } else {
                evaluate_style_fragment(falsy, scalar_values, current_element_scope, item)
            }
        },
    }
}

/// The views of properties.
pub open spec fn property_seq(properties: Seq<(String, String)>) -> Seq<(Seq<char>, Seq<char>)> {
    properties.map_values(|x: (String, String)| (x.0@, x.1@))
}

/// Where the first property with the given name stands, or the number of properties.
pub open spec fn property_index(properties: Seq<(Seq<char>, Seq<char>)>, name: Seq<char>) -> int
    decreases properties.len(),
{
    if properties.len() == 0 || properties[0].0 == name {
        0
    } else {
        1 + property_index(properties.skip(1), name)
    }
}

/// The value of the first property with the given name.
pub open spec fn property_value(
    properties: Seq<(Seq<char>, Seq<char>)>,
    name: Seq<char>,
) -> Option<Seq<char>> {
    let i = property_index(properties, name);
    if i < properties.len() {
        Some(properties[i].1)
    } else {
        None
    }
}

/// The properties after setting the first one with the given name, or adding it at the end.
pub open spec fn with_property(
    properties: Seq<(Seq<char>, Seq<char>)>,
    name: Seq<char>,
    value: Seq<char>,
) -> Seq<(Seq<char>, Seq<char>)> {
    let i = property_index(properties, name);
    if i < properties.len() {
        properties.update(i, (name, value))
    } else {
        properties.push((name, value))
    }
}

proof fn lemma_property_index(
    properties: Seq<(Seq<char>, Seq<char>)>,
    name: Seq<char>,
    i: int,
)
    requires
        0 <= i <= properties.len(),
        forall|j: int| 0 <= j < i ==> (#[trigger] properties[j]).0 != name,
        i < properties.len() ==> properties[i].0 == name,
    ensures
        property_index(properties, name) == i,
    decreases i,
{
    if i > 0 {
        assert(properties[0].0 != name);
        let rest = properties.skip(1);
        assert forall|j: int| 0 <= j < i - 1 implies (#[trigger] rest[j]).0 != name by {
            assert(rest[j] == properties[j + 1]);
        }
        lemma_property_index(rest, name, i - 1);
    }
}

fn find_property(properties: &Vec<(String, String)>, name: &str) -> (r: usize)
    ensures
        r <= properties@.len(),
        r == property_index(property_seq(properties@), name@),
        r < properties@.len() ==> properties@[r as int].0@ == name@,
{
    let ghost all = property_seq(properties@);
    let mut i: usize = 0;
    while i < properties.len()
        invariant
            i <= properties@.len(),
            all == property_seq(properties@),
            forall|j: int| 0 <= j < i ==> (#[trigger] all[j]).0 != name@,
        decreases properties@.len() - i,
    {
        if text_eq(properties[i].0.as_str(), name) {
            proof {
                lemma_property_index(all, name@, i as int);
            }
            return i;
        }
        i = i + 1;
    }
    proof {
        lemma_property_index(all, name@, i as int);
    }
    i
}

/// The value of the first property with the given name.
pub fn get_property(properties: &Vec<(String, String)>, name: &str) -> (r: Option<String>)
    ensures
        opt_text(r) == property_value(property_seq(properties@), name@),
{
    let i: usize = find_property(properties, name);
    if i < properties.len() {
        Some(properties[i].1.clone())
    } else {
        None
    }
}

/// Sets the first property with the given name, or adds it at the end.
pub fn set_property(properties: &mut Vec<(String, String)>, name: &str, value: String)
    ensures
        property_seq(final(properties)@) == with_property(
            property_seq(old(properties)@),
            name@,
            value@,
        ),
{
    let i: usize = find_property(properties, name);
    let ghost before = property_seq(properties@);
    let entry = (name.to_owned(), value);
    if i < properties.len() {
        properties.set(i, entry);
        proof {
            assert(property_seq(properties@) =~= before.update(i as int, (name@, value@)));
        }
    } else {
        properties.push(entry);
        proof {
            assert(property_seq(properties@) =~= before.push((name@, value@)));
        }
    }
}

/// The properties after a piece of style is added to the style property.
pub open spec fn with_style(
    properties: Seq<(Seq<char>, Seq<char>)>,
    fragment: Seq<char>,
) -> Seq<(Seq<char>, Seq<char>)> {
    let style = match property_value(properties, "style"@) {
        Some(style) => if style.len() == 0 {
            fragment
        } else {
            style + ";"@ + fragment
        },
        None => fragment,
    };
    with_property(properties, "style"@, style)
}

/// Adds a piece of style to the style property.
pub fn merge_style_property(properties: &mut Vec<(String, String)>, fragment: &str)
    ensures
        property_seq(final(properties)@) == with_style(
            property_seq(old(properties)@),
            fragment@,
        ),
{
    let style = match get_property(properties, "style") {
        Some(style) => {
            if style.as_str().is_empty() {
                fragment.to_owned()
            } else {
                let mut merged = style;
                merged.append(";");
                merged.append(fragment);
                merged
            }
        },
        None => fragment.to_owned(),
    };
    set_property(properties, "style", style);
}

/// The properties after the styles of all fragments are added.
pub open spec fn with_styles(
    properties: Seq<(Seq<char>, Seq<char>)>,
    fragments: Seq<SemanticStyleFragmentView>,
    scalars: Map<Seq<char>, i64>,
    scope: Option<Seq<char>>,
    item: Option<ObjectListItemView>,
) -> Seq<(Seq<char>, Seq<char>)>
    decreases fragments.len(),
{
    if fragments.len() == 0 {
        properties
    } else {
        let before = with_styles(properties, fragments.drop_last(), scalars, scope, item);
        match style_text(fragments.last(), scalars, scope, item) {
            Some(style) => with_style(before, style),
            None => before,
        }
    }
}

/// The views of style fragments.
pub open spec fn style_seq(
    fragments: Seq<SemanticStyleFragment>,
) -> Seq<SemanticStyleFragmentView> {
    fragments.map_values(|x: SemanticStyleFragment| x@)
}

/// Adds the styles of all fragments to the style property.
pub fn merge_style_fragments(
    properties: &mut Vec<(String, String)>,
    fragments: &Vec<SemanticStyleFragment>,
    scalar_values: &TextMap<i64>,
    current_element_scope: Option<&str>,
    item: Option<&ObjectListItem>,
)
    ensures
        property_seq(final(properties)@) == with_styles(
            property_seq(old(properties)@),
            style_seq(fragments@),
            scalar_values@,
            opt_str(current_element_scope),
            opt_item(item),
        ),
{
    let ghost all = style_seq(fragments@);
    let ghost start = property_seq(properties@);
    let mut i: usize = 0;
    proof {
        assert(all.take(0) =~= Seq::<SemanticStyleFragmentView>::empty());
    }
    while i < fragments.len()
        invariant
            i <= fragments@.len(),
            all == style_seq(fragments@),
            property_seq(properties@) == with_styles(
                start,
                all.take(i as int),
                scalar_values@,
                opt_str(current_element_scope),
                opt_item(item),
            ),
        decreases fragments@.len() - i,
    {
        let style = evaluate_style_fragment(
            &fragments[i],
            scalar_values,
            current_element_scope,
            item,
        );
        proof {
            assert(all.take(i + 1).drop_last() =~= all.take(i as int));
            assert(all.take(i + 1).last() == all[i as int]);
        }
        if let Some(text) = style {
            merge_style_property(properties, text.as_str());
        }
        i = i + 1;
    }
    proof {
        assert(all.take(i as int) =~= all);
    }
}

proof fn lemma_property_index_bounds(properties: Seq<(Seq<char>, Seq<char>)>, name: Seq<char>)
    ensures
        0 <= property_index(properties, name) <= properties.len(),
        property_index(properties, name) < properties.len() ==> properties[property_index(
            properties,
            name,
        )].0 == name,
        forall|j: int|
            0 <= j < property_index(properties, name) ==> (#[trigger] properties[j]).0 != name,
    decreases properties.len(),
{
    if properties.len() > 0 && properties[0].0 != name {
        lemma_property_index_bounds(properties.skip(1), name);
        let i = property_index(properties.skip(1), name);
        assert forall|j: int| 0 <= j < 1 + i implies (#[trigger] properties[j]).0 != name by {
            if j > 0 {
                assert(properties.skip(1)[j - 1].0 != name);
            }
        }
    }
}

/// A property that was set has its new value, and every property with another name has the
/// value that it had.
pub proof fn lemma_set_property(
    properties: Seq<(Seq<char>, Seq<char>)>,
    name: Seq<char>,
    value: Seq<char>,
    other: Seq<char>,
)
    ensures
        property_value(with_property(properties, name, value), name) == Some(value),
        other != name ==> property_value(with_property(properties, name, value), other)
            == property_value(properties, other),
{
    let after = with_property(properties, name, value);
    let i = property_index(properties, name);
    lemma_property_index_bounds(properties, name);
    assert forall|j: int| 0 <= j < i implies (#[trigger] after[j]).0 != name by {
        assert(after[j] == properties[j]);
    }
    lemma_property_index(after, name, i);
    if other != name {
        let k = property_index(properties, other);
        lemma_property_index_bounds(properties, other);
        let n = if k < properties.len() {
            k
        } else {
            after.len() as int
        };
        assert forall|j: int| 0 <= j < n implies (#[trigger] after[j]).0 != other by {
            if j < properties.len() {
                assert(properties[j].0 != other);
                assert(after[j].0 == properties[j].0);
            }
        }
        lemma_property_index(after, other, n);
    }
}

/// Adding a piece of style leaves every other property as it was.
pub proof fn lemma_style_keeps_other_properties(
    properties: Seq<(Seq<char>, Seq<char>)>,
    fragment: Seq<char>,
    name: Seq<char>,
)
    requires
        name != "style"@,
    ensures
        property_value(with_style(properties, fragment), name) == property_value(
            properties,
            name,
        ),
{
    let merged = match property_value(properties, "style"@) {
        Some(s) => if s.len() == 0 {
            fragment
        } else {
            s + ";"@ + fragment
        },
        None => fragment,
    };
    lemma_set_property(properties, "style"@, merged, name);
}

} // verus!
