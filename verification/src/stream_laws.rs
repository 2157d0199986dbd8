//! What streams of values do.
use crate::streams::{
    HeldStateView, PartValueView, PersistenceState, StoredFormView, TaggedChange, arrives_before,
    change_of, changes_of, combined_text, first_state, forwarded, held_input, held_start,
    held_value, in_arrival_order, joined_part_texts, lemma_persisted_values, loaded_state,
    merge_run, part_value, restorable, savable, saved, value_text,
};
use crate::value::{FieldView, ListEntryView, ValueView};
use vstd::prelude::*;

verus! {

/// Of what is stored, texts, numbers, truth values, nothing and plain tags are taken back, and
/// lists and other objects are not.
pub proof fn lemma_what_is_taken_back(keys: Seq<Seq<char>>)
    ensures
        restorable(StoredFormView::Text),
        restorable(StoredFormView::Number),
        restorable(StoredFormView::Bool),
        restorable(StoredFormView::Null),
        !restorable(StoredFormView::List),
        restorable(StoredFormView::Object { keys }) <==> keys.len() == 1 && keys[0] == "_tag"@,
{
    if keys.len() == 1 {
        assert(keys =~= seq![keys[0]]);
    }
    assert(seq!["_tag"@].len() == 1 && seq!["_tag"@][0] == "_tag"@);
}

/// Where a value is taken back, it stands for the first value of the source, and all others are
/// emitted. Where none is, or where values are taken one by one, all are emitted.
pub proof fn lemma_values_after_loading(
    stored: Option<StoredFormView>,
    source: Seq<ValueView>,
)
    ensures
        first_state(true) == PersistenceState::ForwardingSource,
        first_state(false) == PersistenceState::LoadingStored,
        forwarded(first_state(true), source) == source,
        stored is None ==> forwarded(loaded_state(stored), source) == source,
        stored == Some(StoredFormView::List) ==> forwarded(loaded_state(stored), source) == source,
        (stored == Some(StoredFormView::Text) || stored == Some(StoredFormView::Number) || stored
            == Some(StoredFormView::Bool)) && source.len() > 0 ==> forwarded(
            loaded_state(stored),
            source,
        ) == source.skip(1),
{
    lemma_persisted_values(PersistenceState::ForwardingSource, source);
    lemma_persisted_values(PersistenceState::SkipFirstSource, source);
}

/// Of the values that are emitted, texts, numbers and tags are saved, in their order.
pub proof fn lemma_saved_in_order(
    source: Seq<ValueView>,
    text: Seq<char>,
    number: u64,
    fields: Seq<FieldView>,
    items: Seq<ListEntryView>,
)
    ensures
        ({
            let saved_of = |s: Seq<ValueView>| saved(PersistenceState::ForwardingSource, s);
            let before = saved_of(source);
            &&& saved_of(Seq::empty()) == Seq::<ValueView>::empty()
            &&& saved_of(source.push(ValueView::Text(text))) == before.push(ValueView::Text(text))
            &&& saved_of(source.push(ValueView::Number(number))) == before.push(
                ValueView::Number(number),
            )
            &&& saved_of(source.push(ValueView::Tag(text))) == before.push(ValueView::Tag(text))
            &&& saved_of(source.push(ValueView::Object { fields })) == before
            &&& saved_of(source.push(ValueView::TaggedObject { tag: text, fields })) == before
            &&& saved_of(source.push(ValueView::List { items })) == before
        }),
{
    let state = PersistenceState::ForwardingSource;
    lemma_saved_one_more(source, ValueView::Text(text));
    lemma_saved_one_more(source, ValueView::Number(number));
    lemma_saved_one_more(source, ValueView::Tag(text));
    lemma_saved_one_more(source, ValueView::Object { fields });
    lemma_saved_one_more(source, ValueView::TaggedObject { tag: text, fields });
    lemma_saved_one_more(source, ValueView::List { items });
    lemma_persisted_values(state, Seq::empty());
    reveal(Seq::filter);
    assert(saved(state, Seq::empty()) =~= Seq::<ValueView>::empty());
}

proof fn lemma_saved_one_more(source: Seq<ValueView>, value: ValueView)
    ensures
        ({
            let state = PersistenceState::ForwardingSource;
            saved(state, source.push(value)) == if savable(value) {
                saved(state, source).push(value)
            } else {
                saved(state, source)
            }
        }),
{
    let state = PersistenceState::ForwardingSource;
    lemma_persisted_values(state, source);
    lemma_persisted_values(state, source.push(value));
    reveal(Seq::filter);
    assert(source.push(value).drop_last() =~= source);
}

/// A held state begins with what is stored, without emitting it. The first input has what is stored
/// emitted in its place; without anything stored, and after the first, an input becomes the state,
/// is stored and is emitted. What the body gives always does.
pub proof fn lemma_held_states(
    stored: Option<ValueView>,
    before: ValueView,
    value: ValueView,
    held: HeldStateView,
)
    ensures
        held_start(stored).state == stored,
        held_start(stored).stored == stored,
        held_start(stored).output is None,
        held_start(stored).first_input,
        held_input(held_start(Some(before)), value) == (HeldStateView {
            state: Some(before),
            output: Some(before),
            stored: Some(before),
            first_input: false,
        }),
        held_input(held_start(None), value) == (HeldStateView {
            state: Some(value),
            output: Some(value),
            stored: Some(value),
            first_input: false,
        }),
        !held.first_input ==> held_input(held, value) == (HeldStateView {
            state: Some(value),
            output: Some(value),
            stored: Some(value),
            first_input: false,
        }),
        held_value(held, value) == (HeldStateView {
            state: Some(value),
            output: Some(value),
            stored: Some(value),
            first_input: held.first_input,
        }),
{
}

/// The text of a text or a tag is itself, and that of a number the one that is given for it.
/// Objects and lists have none.
pub proof fn lemma_texts_of_values(
    text: Seq<char>,
    number: Seq<char>,
    bits: u64,
    fields: Seq<FieldView>,
    items: Seq<ListEntryView>,
)
    ensures
        value_text(ValueView::Text(text), number) == Some(text),
        value_text(ValueView::Tag(text), number) == Some(text),
        value_text(ValueView::Number(bits), number) == Some(number),
        value_text(ValueView::Object { fields }, number) is None,
        value_text(ValueView::TaggedObject { tag: text, fields }, number) is None,
        value_text(ValueView::List { items }, number) is None,
{
}

/// Parts are combined in their order. One without a text adds nothing, and as long as one has no
/// value there is no text.
pub proof fn lemma_combined_in_order(parts: Seq<PartValueView>, text: Seq<char>)
    ensures
        combined_text(Seq::empty()) == Some(Seq::<char>::empty()),
        combined_text(parts.push(PartValueView::Missing)) is None,
        part_value(Some(text)) == PartValueView::Text(text),
        part_value(None) == PartValueView::Textless,
        match combined_text(parts) {
            Some(before) => {
                &&& combined_text(parts.push(PartValueView::Text(text))) == Some(before + text)
                &&& combined_text(parts.push(PartValueView::Textless)) == Some(before)
            },
            None => {
                &&& combined_text(parts.push(PartValueView::Text(text))) is None
                &&& combined_text(parts.push(PartValueView::Textless)) is None
            },
        },
{
    lemma_one_more_part(parts, PartValueView::Missing);
    lemma_one_more_part(parts, PartValueView::Text(text));
    lemma_one_more_part(parts, PartValueView::Textless);
    let last = parts.push(PartValueView::Missing);
    assert(last[parts.len() as int] is Missing);
    if combined_text(parts) is Some {
        let before = combined_text(parts)->0;
        assert(before + Seq::<char>::empty() =~= before);
    }
}

proof fn lemma_one_more_part(parts: Seq<PartValueView>, part: PartValueView)
    ensures
        joined_part_texts(parts.push(part)) == joined_part_texts(parts) + match part {
            PartValueView::Text(text) => text,
            _ => Seq::empty(),
        },
        !(part is Missing) ==> (combined_text(parts.push(part)) is None <==> combined_text(
            parts,
        ) is None),
{
    let all = parts.push(part);
    assert(all.drop_last() =~= parts);
    if !(part is Missing) {
        if combined_text(parts) is None {
            let i = choose|i: int| 0 <= i < parts.len() && (#[trigger] parts[i]) is Missing;
            assert(all[i] is Missing);
        }
        if combined_text(all) is None {
            let i = choose|i: int| 0 <= i < all.len() && (#[trigger] all[i]) is Missing;
            assert(parts[i] is Missing);
        }
    }
}

/// What the list itself holds comes first, then what was appended before, then all that comes
/// later, each in its order. As long as the list has said nothing, nothing is emitted.
pub proof fn lemma_merged_in_order<C>(
    early: Seq<TaggedChange<C>>,
    list: C,
    late: Seq<TaggedChange<C>>,
)
    requires
        forall|i: int| 0 <= i < early.len() ==> !((#[trigger] early[i]) is FromList),
    ensures
        merge_run((false, Seq::empty()), early).0 == Seq::<C>::empty(),
        merge_run((false, Seq::empty()), early + seq![TaggedChange::FromList(list)] + late).0
            == seq![list] + changes_of(early) + changes_of(late),
    decreases late.len(),
{
    let none = (false, Seq::<C>::empty());
    lemma_waiting(early);
    let begun = early + seq![TaggedChange::FromList(list)];
    let all = begun + late;
    if late.len() == 0 {
        assert(all =~= begun);
        assert(begun.drop_last() =~= early);
        assert(begun.last() == TaggedChange::FromList(list));
        assert(changes_of(late) =~= Seq::<C>::empty());
        assert(merge_run(none, begun).0 =~= seq![list] + changes_of(early));
        assert(seq![list] + changes_of(early) + changes_of(late) =~= seq![list] + changes_of(
            early,
        ));
    } else {
        let fewer = late.drop_last();
        lemma_merged_in_order(early, list, fewer);
        assert(all.drop_last() =~= begun + fewer);
        assert(all.last() == late.last());
        lemma_started(early, list, fewer);
        assert(changes_of(late) =~= changes_of(fewer).push(change_of(late.last())));
        assert(merge_run(none, all).0 =~= seq![list] + changes_of(early) + changes_of(late));
    }
}

proof fn lemma_waiting<C>(early: Seq<TaggedChange<C>>)
    requires
        forall|i: int| 0 <= i < early.len() ==> !((#[trigger] early[i]) is FromList),
    ensures
        merge_run((false, Seq::empty()), early) == (
            Seq::<C>::empty(),
            (false, changes_of(early)),
        ),
    decreases early.len(),
{
    if early.len() == 0 {
        assert(changes_of(early) =~= Seq::<C>::empty());
    } else {
        let fewer = early.drop_last();
        assert forall|i: int| 0 <= i < fewer.len() implies !((#[trigger] fewer[i]) is FromList) by {
            assert(fewer[i] == early[i]);
        }
        lemma_waiting(fewer);
        assert(!(early[early.len() - 1] is FromList));
        assert(changes_of(early) =~= changes_of(fewer).push(change_of(early.last())));
        assert(Seq::<C>::empty() + Seq::<C>::empty() =~= Seq::<C>::empty());
    }
}

proof fn lemma_started<C>(
    early: Seq<TaggedChange<C>>,
    list: C,
    late: Seq<TaggedChange<C>>,
)
    ensures
        merge_run((false, Seq::empty()), early + seq![TaggedChange::FromList(list)] + late).1.0,
    decreases late.len(),
{
    let begun = early + seq![TaggedChange::FromList(list)];
    let all = begun + late;
    if late.len() == 0 {
        assert(all =~= begun);
        assert(begun.drop_last() =~= early);
        assert(begun.last() == TaggedChange::FromList(list));
    } else {
        lemma_started(early, list, late.drop_last());
        assert(all.drop_last() =~= begun + late.drop_last());
    }
}

/// In the order of arrival no time is followed by an earlier one, places of the same time keep
/// their order, and no place occurs twice.
pub proof fn lemma_times_in_order(times: Seq<u64>, order: Seq<usize>, i: int, j: int)
    requires
        in_arrival_order(times, order, times.len()),
        0 <= i < j < order.len(),
    ensures
        order.len() == times.len(),
        order[i] < times.len(),
        order[j] < times.len(),
        times[order[i] as int] <= times[order[j] as int],
        times[order[i] as int] == times[order[j] as int] ==> order[i] < order[j],
        order[i] != order[j],
{
    assert(arrives_before(times, order[i], order[j]));
}

} // verus!
