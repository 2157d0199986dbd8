//! Reading the state: scalars, texts, lists, item fields and filters.
use crate::semantic_ir::{
    DerivedScalarOperand, IntCompareOp, ObjectListFilter, ObjectListItem, StateRuntimeModel,
    TextListFilter,
};
use crate::semantic_view::{
    DerivedScalarOperandView, ObjectListFilterView, ObjectListItemView, StateRuntimeModelView,
    TextListFilterView,
};
use crate::text::{i64_text, int_text, parse_i64, parsed_i64, text_eq};
use crate::text_map::TextMap;
use vstd::prelude::*;
use vstd::string::*;

verus! {

/// The mathematical value of the state of a program.
pub type StateView = StateRuntimeModelView;

/// The scalar at `key`, or zero.
pub open spec fn scalar_at(scalars: Map<Seq<char>, i64>, key: Seq<char>) -> i64 {
    if scalars.contains_key(key) {
        scalars[key]
    } else {
        0
    }
}

/// The text at `key`, or the empty text.
pub open spec fn text_at(texts: Map<Seq<char>, Seq<char>>, key: Seq<char>) -> Seq<char> {
    if texts.contains_key(key) {
        texts[key]
    } else {
        Seq::empty()
    }
}

/// The list at `key`, or the empty list.
pub open spec fn list_at<T>(lists: Map<Seq<char>, Seq<T>>, key: Seq<char>) -> Seq<T> {
    if lists.contains_key(key) {
        lists[key]
    } else {
        Seq::empty()
    }
}

/// The scalar at `key`, or zero.
pub fn scalar_or_zero(scalars: &TextMap<i64>, key: &str) -> (r: i64)
    ensures
        r == scalar_at(scalars@, key@),
{
    match scalars.get(key) {
        Some(v) => *v,
        None => 0,
    }
}

/// The text at `key`, or the empty text.
pub fn text_or_empty(texts: &TextMap<String>, key: &str) -> (r: String)
    ensures
        r@ == text_at(texts@.map_values(|x: String| x@), key@),
{
    match texts.get(key) {
        Some(v) => v.clone(),
        None => String::new(),
    }
}

/// Whether two integers stand in the given relation.
pub open spec fn compares(op: IntCompareOp, left: int, right: int) -> bool {
    match op {
        IntCompareOp::Equal => left == right,
        IntCompareOp::NotEqual => left != right,
        IntCompareOp::Greater => left > right,
        IntCompareOp::GreaterOrEqual => left >= right,
        IntCompareOp::Less => left < right,
        IntCompareOp::LessOrEqual => left <= right,
    }
}

/// Whether two integers stand in the given relation.
pub fn int_compare_matches(op: IntCompareOp, left: i64, right: i64) -> (r: bool)
    ensures
        r == compares(op, left as int, right as int),
{
    match op {
        IntCompareOp::Equal => left == right,
        IntCompareOp::NotEqual => left != right,
        IntCompareOp::Greater => left > right,
        IntCompareOp::GreaterOrEqual => left >= right,
        IntCompareOp::Less => left < right,
        IntCompareOp::LessOrEqual => left <= right,
    }
}

/// Whether a text passes a filter: it denotes an integer in the filter's relation.
pub open spec fn text_passes(value: Seq<char>, filter: TextListFilterView) -> bool {
    match filter {
        TextListFilterView::IntCompare { op, value: target } => match parsed_i64(value) {
            Some(parsed) => compares(op, parsed as int, target as int),
            None => false,
        },
    }
}

/// Whether a text passes a filter.
pub fn text_list_item_matches_filter(value: &str, filter: &TextListFilter) -> (r: bool)
    ensures
        r == text_passes(value@, filter@),
{
    match filter {
        TextListFilter::IntCompare { op, value: target } => match parse_i64(value) {
            Some(parsed) => int_compare_matches(*op, parsed, *target),
            None => false,
        },
    }
}

/// The truth value of a field of an item.
pub open spec fn item_bool(item: ObjectListItemView, field: Seq<char>) -> bool {
    if field == "completed"@ {
        item.completed
    } else {
        item.bool_fields.contains_key(field) && item.bool_fields[field]
    }
}

/// The truth value of a field of an item.
pub fn object_item_bool_field(item: &ObjectListItem, field: &str) -> (r: bool)
    ensures
        r == item_bool(item@, field@),
{
    if text_eq(field, "completed") {
        item.completed
    } else {
        match item.bool_fields.get(field) {
            Some(v) => *v,
            None => false,
        }
    }
}

/// Whether an item passes a filter.
pub open spec fn item_passes(
    item: ObjectListItemView,
    filter: ObjectListFilterView,
    scalars: Map<Seq<char>, i64>,
) -> bool {
    match filter {
        ObjectListFilterView::BoolFieldEquals { field, value } => item_bool(item, field) == value,
        ObjectListFilterView::SelectedCompletedByScalar { binding } => {
            let selected = scalar_at(scalars, binding);
            (selected == 1 ==> !item.completed) && (selected == 2 ==> item.completed)
        },
    }
}

/// Whether an item passes a filter.
pub fn object_list_item_matches_filter(
    item: &ObjectListItem,
    filter: &ObjectListFilter,
    scalar_values: &TextMap<i64>,
) -> (r: bool)
    ensures
        r == item_passes(item@, filter@, scalar_values@),
{
    match filter {
        ObjectListFilter::BoolFieldEquals { field, value } => {
            object_item_bool_field(item, field.as_str()) == *value
        },
        ObjectListFilter::SelectedCompletedByScalar { binding } => {
            let selected: i64 = scalar_or_zero(scalar_values, binding.as_str());
            if selected == 1 {
                !item.completed
            } else if selected == 2 {
                item.completed
            } else {
                true
            }
        },
    }
}

/// The texts that pass an optional filter, in their order.
pub open spec fn passing_texts(
    values: Seq<Seq<char>>,
    filter: Option<TextListFilterView>,
) -> Seq<Seq<char>> {
    match filter {
        None => values,
        Some(f) => values.filter(|v: Seq<char>| text_passes(v, f)),
    }
}

/// The items that pass an optional filter, in their order.
pub open spec fn passing_items(
    items: Seq<ObjectListItemView>,
    filter: Option<ObjectListFilterView>,
    scalars: Map<Seq<char>, i64>,
) -> Seq<ObjectListItemView> {
    match filter {
        None => items,
        Some(f) => items.filter(|item: ObjectListItemView| item_passes(item, f, scalars)),
    }
}

/// The view of an optional filter of texts.
pub open spec fn opt_text_filter(filter: Option<TextListFilter>) -> Option<TextListFilterView> {
    match filter {
        Some(f) => Some(f@),
        None => None,
    }
}

/// The view of an optional filter of items.
pub open spec fn opt_item_filter(filter: Option<ObjectListFilter>) -> Option<ObjectListFilterView> {
    match filter {
        Some(f) => Some(f@),
        None => None,
    }
}

/// The views of texts.
pub open spec fn text_seq(s: Seq<String>) -> Seq<Seq<char>> {
    s.map_values(|x: String| x@)
}

/// The views of items.
pub open spec fn item_seq(s: Seq<ObjectListItem>) -> Seq<ObjectListItemView> {
    s.map_values(|x: ObjectListItem| x@)
}

/// Filtering one more element appends it exactly when it passes.
pub(crate) proof fn lemma_filter_step<A>(s: Seq<A>, i: int, pred: spec_fn(A) -> bool)
    requires
        0 <= i < s.len(),
    ensures
        s.take(i + 1).filter(pred) == if pred(s[i]) {
            s.take(i).filter(pred).push(s[i])
        } else {
            s.take(i).filter(pred)
        },
{
    reveal(Seq::filter);
    assert(s.take(i + 1).drop_last() =~= s.take(i));
    assert(s.take(i + 1).last() == s[i]);
}

/// The texts of a list that pass an optional filter.
pub fn passing_text_values(
    values: &Vec<String>,
    filter: &Option<TextListFilter>,
) -> (r: Vec<String>)
    ensures
        text_seq(r@) == passing_texts(text_seq(values@), opt_text_filter(*filter)),
{
    let ghost all = text_seq(values@);
    let mut out: Vec<String> = Vec::new();
    let mut i: usize = 0;
    match filter {
        None => {
            while i < values.len()
                invariant
                    i <= values@.len(),
                    all == text_seq(values@),
                    text_seq(out@) == all.take(i as int),
                decreases values@.len() - i,
            {
                let ghost before = out@;
                out.push(values[i].clone());
                proof {
                    assert(text_seq(out@) =~= text_seq(before).push(all[i as int]));
                    assert(all.take(i + 1) =~= all.take(i as int).push(all[i as int]));
                }
                i = i + 1;
            }
            proof {
                assert(all.take(i as int) =~= all);
            }
        },
        Some(f) => {
            let ghost pred = |v: Seq<char>| text_passes(v, f@);
            proof {
                reveal(Seq::filter);
                assert(text_seq(out@) =~= all.take(0).filter(pred));
            }
            while i < values.len()
                invariant
                    i <= values@.len(),
                    all == text_seq(values@),
                    pred == (|v: Seq<char>| text_passes(v, f@)),
                    text_seq(out@) == all.take(i as int).filter(pred),
                decreases values@.len() - i,
            {
                proof {
                    lemma_filter_step(all, i as int, pred);
                }
                if text_list_item_matches_filter(values[i].as_str(), f) {
                    let ghost before = out@;
                    out.push(values[i].clone());
                    proof {
                        assert(text_seq(out@) =~= text_seq(before).push(all[i as int]));
                    }
                }
                i = i + 1;
            }
            proof {
                assert(all.take(i as int) =~= all);
            }
        },
    }
    out
}

/// The items of a list that pass an optional filter.
pub fn passing_list_items(
    items: &Vec<ObjectListItem>,
    filter: &Option<ObjectListFilter>,
    scalar_values: &TextMap<i64>,
) -> (r: Vec<ObjectListItem>)
    ensures
        item_seq(r@) == passing_items(
            item_seq(items@),
            opt_item_filter(*filter),
            scalar_values@,
        ),
{
    let ghost all = item_seq(items@);
    let mut out: Vec<ObjectListItem> = Vec::new();
    let mut i: usize = 0;
    match filter {
        None => {
            while i < items.len()
                invariant
                    i <= items@.len(),
                    all == item_seq(items@),
                    item_seq(out@) == all.take(i as int),
                decreases items@.len() - i,
            {
                let ghost before = out@;
                out.push(items[i].clone());
                proof {
                    assert(item_seq(out@) =~= item_seq(before).push(all[i as int]));
                    assert(all.take(i + 1) =~= all.take(i as int).push(all[i as int]));
                }
                i = i + 1;
            }
            proof {
                assert(all.take(i as int) =~= all);
            }
        },
        Some(f) => {
            let ghost pred = |item: ObjectListItemView| item_passes(item, f@, scalar_values@);
            proof {
                reveal(Seq::filter);
                assert(item_seq(out@) =~= all.take(0).filter(pred));
            }
            while i < items.len()
                invariant
                    i <= items@.len(),
                    all == item_seq(items@),
                    pred == (|item: ObjectListItemView| item_passes(item, f@, scalar_values@)),
                    item_seq(out@) == all.take(i as int).filter(pred),
                decreases items@.len() - i,
            {
                proof {
                    lemma_filter_step(all, i as int, pred);
                }
                if object_list_item_matches_filter(&items[i], f, scalar_values) {
                    let ghost before = out@;
                    out.push(items[i].clone());
                    proof {
                        assert(item_seq(out@) =~= item_seq(before).push(all[i as int]));
                    }
                }
                i = i + 1;
            }
            proof {
                assert(all.take(i as int) =~= all);
            }
        },
    }
    out
}

/// The texts of the list at `binding` that pass an optional filter.
pub open spec fn filtered_texts(
    state: StateView,
    binding: Seq<char>,
    filter: Option<TextListFilterView>,
) -> Seq<Seq<char>> {
    passing_texts(list_at(state.text_lists, binding), filter)
}

/// The items of the list at `binding` that pass an optional filter.
pub open spec fn filtered_items(
    state: StateView,
    binding: Seq<char>,
    filter: Option<ObjectListFilterView>,
) -> Seq<ObjectListItemView> {
    passing_items(list_at(state.object_lists, binding), filter, state.scalar_values)
}

/// The texts of the list at `binding` that pass an optional filter.
pub fn filtered_text_list_values(
    state: &StateRuntimeModel,
    binding: &str,
    filter: &Option<TextListFilter>,
) -> (r: Vec<String>)
    ensures
        text_seq(r@) == filtered_texts(state@, binding@, opt_text_filter(*filter)),
{
    match state.text_lists.get(binding) {
        Some(values) => passing_text_values(values, filter),
        None => {
            let none: Vec<String> = Vec::new();
            proof {
                assert(text_seq(none@) =~= Seq::<Seq<char>>::empty());
            }
            passing_text_values(&none, filter)
        },
    }
}

/// The items of the list at `binding` that pass an optional filter.
pub fn filtered_object_list_items(
    state: &StateRuntimeModel,
    binding: &str,
    filter: &Option<ObjectListFilter>,
) -> (r: Vec<ObjectListItem>)
    ensures
        item_seq(r@) == filtered_items(state@, binding@, opt_item_filter(*filter)),
{
    match state.object_lists.get(binding) {
        Some(items) => passing_list_items(items, filter, &state.scalar_values),
        None => {
            let none: Vec<ObjectListItem> = Vec::new();
            proof {
                assert(item_seq(none@) =~= Seq::<ObjectListItemView>::empty());
            }
            passing_list_items(&none, filter, &state.scalar_values)
        },
    }
}

/// The text of a field that an item holds itself.
pub open spec fn item_text(item: ObjectListItemView, field: Seq<char>) -> Seq<char> {
    if field == "title"@ {
        item.title
    } else if field == "completed"@ {
        bool_name(item.completed)
    } else if item.scalar_fields.contains_key(field) {
        int_text(item.scalar_fields[field] as int)
    } else if item.text_fields.contains_key(field) {
        item.text_fields[field]
    } else if item.bool_fields.contains_key(field) {
        bool_name(item.bool_fields[field])
    } else {
        Seq::empty()
    }
}

/// How a truth value is written.
pub open spec fn bool_name(b: bool) -> Seq<char> {
    if b {
        "True"@
    } else {
        "False"@
    }
}

fn bool_text(b: bool) -> (r: String)
    ensures
        r@ == bool_name(b),
{
    if b {
        "True".to_owned()
    } else {
        "False".to_owned()
    }
}

/// The text of a field that an item holds itself.
pub fn object_item_field_text(item: &ObjectListItem, field: &str) -> (r: String)
    ensures
        r@ == item_text(item@, field@),
{
    if text_eq(field, "title") {
        return item.title.clone();
    }
    if text_eq(field, "completed") {
        return bool_text(item.completed);
    }
    if let Some(v) = item.scalar_fields.get(field) {
        return i64_text(*v);
    }
    if let Some(v) = item.text_fields.get(field) {
        return v.clone();
    }
    match item.bool_fields.get(field) {
        Some(v) => bool_text(*v),
        None => String::new(),
    }
}

/// The integer that a text denotes, or zero.
pub open spec fn int_or_zero(text: Seq<char>) -> i64 {
    match parsed_i64(text) {
        Some(v) => v,
        None => 0,
    }
}

/// The integer that a text denotes, or zero.
pub fn parse_or_zero(text: &str) -> (r: i64)
    ensures
        r == int_or_zero(text@),
{
    match parse_i64(text) {
        Some(v) => v,
        None => 0,
    }
}

/// One for true, zero for false.
pub open spec fn bool_int(b: bool) -> i64 {
    if b {
        1
    } else {
        0
    }
}

/// The number of a field that an item holds itself.
pub open spec fn item_scalar(item: ObjectListItemView, field: Seq<char>) -> i64 {
    if field == "completed"@ {
        bool_int(item.completed)
    } else if field == "title"@ {
        int_or_zero(item.title)
    } else if item.scalar_fields.contains_key(field) {
        item.scalar_fields[field]
    } else if item.bool_fields.contains_key(field) {
        bool_int(item.bool_fields[field])
    } else if item.text_fields.contains_key(field) {
        int_or_zero(item.text_fields[field])
    } else {
        0
    }
}

/// One for true, zero for false.
pub fn bool_number(b: bool) -> (r: i64)
    ensures
        r == bool_int(b),
{
    if b {
        1
    } else {
        0
    }
}

/// The number of a field that an item holds itself.
pub fn object_item_field_scalar_value(item: &ObjectListItem, field: &str) -> (r: i64)
    ensures
        r == item_scalar(item@, field@),
{
    if text_eq(field, "completed") {
        return bool_number(item.completed);
    }
    if text_eq(field, "title") {
        return parse_or_zero(item.title.as_str());
    }
    if let Some(v) = item.scalar_fields.get(field) {
        return *v;
    }
    if let Some(v) = item.bool_fields.get(field) {
        return bool_number(*v);
    }
    match item.text_fields.get(field) {
        Some(v) => parse_or_zero(v.as_str()),
        None => 0,
    }
}

/// The number that an operand denotes.
pub open spec fn operand_value(
    scalars: Map<Seq<char>, i64>,
    operand: DerivedScalarOperandView,
) -> i64 {
    match operand {
        DerivedScalarOperandView::Binding(binding) => scalar_at(scalars, binding),
        DerivedScalarOperandView::Literal(value) => value,
    }
}

/// The number that an operand denotes.
pub fn derived_scalar_operand_value(
    scalar_values: &TextMap<i64>,
    operand: &DerivedScalarOperand,
) -> (r: i64)
    ensures
        r == operand_value(scalar_values@, operand@),
{
    match operand {
        DerivedScalarOperand::Binding(binding) => scalar_or_zero(scalar_values, binding.as_str()),
        DerivedScalarOperand::Literal(value) => *value,
    }
}

/// Whether two operands stand in the given relation.
pub open spec fn operands_compare(
    scalars: Map<Seq<char>, i64>,
    left: DerivedScalarOperandView,
    op: IntCompareOp,
    right: DerivedScalarOperandView,
) -> bool {
    compares(op, operand_value(scalars, left) as int, operand_value(scalars, right) as int)
}

/// Whether two operands stand in the given relation.
pub fn scalar_compare_matches(
    scalar_values: &TextMap<i64>,
    left: &DerivedScalarOperand,
    op: IntCompareOp,
    right: &DerivedScalarOperand,
) -> (r: bool)
    ensures
        r == operands_compare(scalar_values@, left@, op, right@),
{
    let left_value: i64 = derived_scalar_operand_value(scalar_values, left);
    let right_value: i64 = derived_scalar_operand_value(scalar_values, right);
    int_compare_matches(op, left_value, right_value)
}

} // verus!
