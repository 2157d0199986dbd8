//! What is read out of the state and out of items.
use crate::cell_laws::lemma_split_there;
use crate::scene::{KEYDOWN_TEXT_SEPARATOR, UiEventKind, UiEventView, keydown_text, primary_payload};
use crate::semantic_ir::IntCompareOp;
use crate::semantic_view::{
    DerivedScalarOperandView, ObjectListFilterView, ObjectListItemView, TextListFilterView,
};
use crate::text::{int_text, lemma_parse_reads_back, parsed_i64, split_at_first};
use crate::values::{
    StateView, compares, filtered_items, filtered_texts, item_bool, item_passes, item_scalar,
    item_text, list_at, operand_value, operands_compare, passing_items, passing_texts, scalar_at,
    text_at, text_passes,
};
use vstd::prelude::*;

verus! {

/// What is not set counts as zero, as no text and as no items; what is set counts as it is.
pub proof fn lemma_read_state<T>(
    scalars: Map<Seq<char>, i64>,
    texts: Map<Seq<char>, Seq<char>>,
    lists: Map<Seq<char>, Seq<T>>,
    key: Seq<char>,
)
    ensures
        scalars.contains_key(key) ==> scalar_at(scalars, key) == scalars[key],
        !scalars.contains_key(key) ==> scalar_at(scalars, key) == 0,
        texts.contains_key(key) ==> text_at(texts, key) == texts[key],
        !texts.contains_key(key) ==> text_at(texts, key).len() == 0,
        lists.contains_key(key) ==> list_at(lists, key) == lists[key],
        !lists.contains_key(key) ==> list_at(lists, key).len() == 0,
{
}

/// What the comparisons mean, and how they hang together: each one and its opposite never hold at
/// once, and turning one round turns its operands round.
pub proof fn lemma_comparisons(a: int, b: int)
    ensures
        compares(IntCompareOp::Equal, a, b) <==> a == b,
        compares(IntCompareOp::NotEqual, a, b) <==> a != b,
        compares(IntCompareOp::Greater, a, b) <==> a > b,
        compares(IntCompareOp::GreaterOrEqual, a, b) <==> a >= b,
        compares(IntCompareOp::Less, a, b) <==> a < b,
        compares(IntCompareOp::LessOrEqual, a, b) <==> a <= b,
        compares(IntCompareOp::Less, a, b) == compares(IntCompareOp::Greater, b, a),
        compares(IntCompareOp::LessOrEqual, a, b) == compares(IntCompareOp::GreaterOrEqual, b, a),
        compares(IntCompareOp::LessOrEqual, a, b) == !compares(IntCompareOp::Greater, a, b),
        compares(IntCompareOp::GreaterOrEqual, a, b) == !compares(IntCompareOp::Less, a, b),
        compares(IntCompareOp::Equal, a, b) == !compares(IntCompareOp::NotEqual, a, b),
{
}

/// An operand is the scalar that it names, zero where there is none, or the number that it is.
pub proof fn lemma_operands(
    scalars: Map<Seq<char>, i64>,
    binding: Seq<char>,
    n: i64,
    left: DerivedScalarOperandView,
    right: DerivedScalarOperandView,
)
    ensures
        operand_value(scalars, DerivedScalarOperandView::Literal(n)) == n,
        scalars.contains_key(binding) ==> operand_value(
            scalars,
            DerivedScalarOperandView::Binding(binding),
        ) == scalars[binding],
        !scalars.contains_key(binding) ==> operand_value(
            scalars,
            DerivedScalarOperandView::Binding(binding),
        ) == 0,
        operands_compare(scalars, left, IntCompareOp::Less, right) <==> operand_value(scalars, left)
            < operand_value(scalars, right),
        operands_compare(scalars, left, IntCompareOp::Greater, right) <==> operand_value(
            scalars,
            left,
        ) > operand_value(scalars, right),
        operands_compare(scalars, left, IntCompareOp::Equal, right) <==> operand_value(
            scalars,
            left,
        ) == operand_value(scalars, right),
{
}

/// A text passes a comparison if it is a number that does; a text that is no number passes none.
pub proof fn lemma_texts_compared(n: i64, op: IntCompareOp, value: i64, text: Seq<char>)
    ensures
        text_passes(int_text(n as int), TextListFilterView::IntCompare { op, value }) == compares(
            op,
            n as int,
            value as int,
        ),
        parsed_i64(text) is None ==> !text_passes(
            text,
            TextListFilterView::IntCompare { op, value },
        ),
{
    lemma_parse_reads_back(n);
}

/// The truth values of an item: `completed` is a field of its own, others are false where they
/// are not set.
pub proof fn lemma_truth_of_fields(item: ObjectListItemView, field: Seq<char>)
    ensures
        item_bool(item, "completed"@) == item.completed,
        field != "completed"@ && item.bool_fields.contains_key(field) ==> item_bool(item, field)
            == item.bool_fields[field],
        field != "completed"@ && !item.bool_fields.contains_key(field) ==> !item_bool(item, field),
{
}

/// The texts of the fields of an item: `title` and `completed` are fields of their own; of others
/// a number comes before a text, and a text before a truth value.
pub proof fn lemma_texts_of_fields(item: ObjectListItemView, field: Seq<char>)
    ensures
        item_text(item, "title"@) == item.title,
        item_text(item, "completed"@) == (if item.completed {
            "True"@
        } else {
            "False"@
        }),
        field != "title"@ && field != "completed"@ ==> {
            &&& item.scalar_fields.contains_key(field) ==> item_text(item, field) == int_text(
                item.scalar_fields[field] as int,
            )
            &&& !item.scalar_fields.contains_key(field) && item.text_fields.contains_key(field)
                ==> item_text(item, field) == item.text_fields[field]
            &&& !item.scalar_fields.contains_key(field) && !item.text_fields.contains_key(field)
                && item.bool_fields.contains_key(field) ==> item_text(item, field) == (
            if item.bool_fields[field] {
                "True"@
            } else {
                "False"@
            })
            &&& !item.scalar_fields.contains_key(field) && !item.text_fields.contains_key(field)
                && !item.bool_fields.contains_key(field) ==> item_text(item, field).len() == 0
        },
{
    reveal_strlit("title");
    reveal_strlit("completed");
    assert("title"@.len() != "completed"@.len());
}

/// The numbers of the fields of an item: a truth value counts as one or zero, and a text as the
/// number that it is, or as zero.
pub proof fn lemma_numbers_of_fields(item: ObjectListItemView, field: Seq<char>, n: i64)
    ensures
        item_scalar(item, "completed"@) == (if item.completed {
            1i64
        } else {
            0
        }),
        item.title == int_text(n as int) ==> item_scalar(item, "title"@) == n,
        parsed_i64(item.title) is None ==> item_scalar(item, "title"@) == 0,
        field != "title"@ && field != "completed"@ ==> {
            &&& item.scalar_fields.contains_key(field) ==> item_scalar(item, field)
                == item.scalar_fields[field]
            &&& !item.scalar_fields.contains_key(field) && item.bool_fields.contains_key(field)
                ==> item_scalar(item, field) == (if item.bool_fields[field] {
                1i64
            } else {
                0
            })
            &&& !item.scalar_fields.contains_key(field) && !item.bool_fields.contains_key(field)
                && item.text_fields.contains_key(field) ==> {
                &&& item.text_fields[field] == int_text(n as int) ==> item_scalar(item, field) == n
                &&& parsed_i64(item.text_fields[field]) is None ==> item_scalar(item, field) == 0
            }
            &&& !item.scalar_fields.contains_key(field) && !item.text_fields.contains_key(field)
                && !item.bool_fields.contains_key(field) ==> item_scalar(item, field) == 0
        },
{
    lemma_parse_reads_back(n);
    reveal_strlit("title");
    reveal_strlit("completed");
    assert("title"@.len() != "completed"@.len());
}

/// Which items pass a filter: those whose truth value is the wanted one; and by what is selected,
/// all, those not completed, or those completed.
pub proof fn lemma_items_filtered(
    item: ObjectListItemView,
    field: Seq<char>,
    value: bool,
    binding: Seq<char>,
    scalars: Map<Seq<char>, i64>,
)
    ensures
        item_passes(item, ObjectListFilterView::BoolFieldEquals { field, value }, scalars)
            <==> item_bool(item, field) == value,
        ({
            let selected = ObjectListFilterView::SelectedCompletedByScalar { binding };
            &&& !scalars.contains_key(binding) ==> item_passes(item, selected, scalars)
            &&& scalars.contains_key(binding) && scalars[binding] != 1 && scalars[binding] != 2
                ==> item_passes(item, selected, scalars)
            &&& scalars.contains_key(binding) && scalars[binding] == 1 ==> item_passes(
                item,
                selected,
                scalars,
            ) == !item.completed
            &&& scalars.contains_key(binding) && scalars[binding] == 2 ==> item_passes(
                item,
                selected,
                scalars,
            ) == item.completed
        }),
{
}

proof fn lemma_filter_counts<T>(s: Seq<T>, p: spec_fn(T) -> bool, x: T)
    ensures
        s.push(x).filter(p) == (if p(x) {
            s.filter(p).push(x)
        } else {
            s.filter(p)
        }),
{
    reveal(Seq::filter);
    assert(s.push(x).drop_last() =~= s);
}

/// A filtered list holds what passes, in its order: a further element is added at the end if it
/// passes, and is left out otherwise. Without a filter all are there.
pub proof fn lemma_lists_filtered(
    texts: Seq<Seq<char>>,
    text: Seq<char>,
    text_filter: TextListFilterView,
    items: Seq<ObjectListItemView>,
    item: ObjectListItemView,
    item_filter: ObjectListFilterView,
    scalars: Map<Seq<char>, i64>,
)
    ensures
        passing_texts(texts, None) == texts,
        passing_texts(Seq::empty(), Some(text_filter)).len() == 0,
        text_passes(text, text_filter) ==> passing_texts(texts.push(text), Some(text_filter))
            == passing_texts(texts, Some(text_filter)).push(text),
        !text_passes(text, text_filter) ==> passing_texts(texts.push(text), Some(text_filter))
            == passing_texts(texts, Some(text_filter)),
        passing_items(items, None, scalars) == items,
        passing_items(Seq::empty(), Some(item_filter), scalars).len() == 0,
        item_passes(item, item_filter, scalars) ==> passing_items(
            items.push(item),
            Some(item_filter),
            scalars,
        ) == passing_items(items, Some(item_filter), scalars).push(item),
        !item_passes(item, item_filter, scalars) ==> passing_items(
            items.push(item),
            Some(item_filter),
            scalars,
        ) == passing_items(items, Some(item_filter), scalars),
{
    let p = |v: Seq<char>| text_passes(v, text_filter);
    let q = |x: ObjectListItemView| item_passes(x, item_filter, scalars);
    lemma_filter_counts(texts, p, text);
    lemma_filter_counts(items, q, item);
    reveal(Seq::filter);
    assert(Seq::<Seq<char>>::empty().filter(p).len() == 0);
    assert(Seq::<ObjectListItemView>::empty().filter(q).len() == 0);
    assert(passing_texts(texts.push(text), Some(text_filter)) == texts.push(text).filter(p));
    assert(passing_items(items.push(item), Some(item_filter), scalars) == items.push(item).filter(
        q,
    ));
}

/// The filtered lists of a state are those of what it holds under their names.
pub proof fn lemma_filtered_lists_of_state(
    state: StateView,
    binding: Seq<char>,
    text_filter: Option<TextListFilterView>,
    item_filter: Option<ObjectListFilterView>,
)
    ensures
        state.text_lists.contains_key(binding) ==> filtered_texts(state, binding, text_filter)
            == passing_texts(state.text_lists[binding], text_filter),
        !state.text_lists.contains_key(binding) ==> filtered_texts(
            state,
            binding,
            text_filter,
        ).len() == 0,
        state.object_lists.contains_key(binding) ==> filtered_items(state, binding, item_filter)
            == passing_items(state.object_lists[binding], item_filter, state.scalar_values),
        !state.object_lists.contains_key(binding) ==> filtered_items(
            state,
            binding,
            item_filter,
        ).len() == 0,
{
    reveal(Seq::filter);
}

/// What an event says: the payload itself; of a key that is pressed, the key, which may be
/// followed by the text that is then in the element.
pub proof fn lemma_payloads(event: UiEventView, key: Seq<char>, text: Seq<char>)
    ensures
        event.payload is None ==> primary_payload(event) is None && keydown_text(event) is None,
        event.payload is Some && event.kind != UiEventKind::KeyDown ==> primary_payload(event)
            == event.payload && keydown_text(event) is None,
        event.kind == UiEventKind::KeyDown && !key.contains(KEYDOWN_TEXT_SEPARATOR)
            && event.payload == Some(key) ==> primary_payload(event) == Some(key) && keydown_text(
            event,
        ) is None,
        event.kind == UiEventKind::KeyDown && !key.contains(KEYDOWN_TEXT_SEPARATOR)
            && event.payload == Some(key + seq![KEYDOWN_TEXT_SEPARATOR] + text)
            ==> primary_payload(event) == Some(key) && keydown_text(event) == Some(text),
{
    if !key.contains(KEYDOWN_TEXT_SEPARATOR) {
        lemma_split_there(key, KEYDOWN_TEXT_SEPARATOR, text);
        lemma_not_split(key, KEYDOWN_TEXT_SEPARATOR);
    }
}

proof fn lemma_not_split(s: Seq<char>, c: char)
    requires
        !s.contains(c),
    ensures
        split_at_first(s, c) is None,
    decreases s.len(),
{
    if s.len() > 0 {
        assert(s.contains(s[0]));
        assert(!s.skip(1).contains(c)) by {
            if s.skip(1).contains(c) {
                let i = choose|i: int| 0 <= i < s.skip(1).len() && s.skip(1)[i] == c;
                assert(s[i + 1] == c);
            }
        }
        lemma_not_split(s.skip(1), c);
    }
}

} // verus!
