//! Copies of the types of the user interface description.
use crate::semantic_ir::{
    DerivedScalarOperand, DerivedScalarSpec, ItemScalarUpdate, ItemTextUpdate,
    NestedObjectListAction, NestedObjectListUpdate, ObjectDerivedScalarOperand,
    ObjectItemActionKind, ObjectItemActionSpec, ObjectListFilter, ObjectListItem,
    ObjectListUpdate, RuntimeModel, ScalarRuntimeModel, ScalarUpdate, SemanticAction,
    SemanticEventBinding, SemanticFactBinding, SemanticInputValue, SemanticNode, SemanticProgram,
    SemanticStyleFragment, SemanticTextPart, StateRuntimeModel, TextListFilter, TextListTemplate,
    TextListUpdate, TextUpdate,
};
use crate::semantic_view::{
    nested_object_list_action_seq, object_item_action_spec_lists_pairs,
    object_item_action_spec_seq, object_list_item_lists_pairs, object_list_item_seq,
    semantic_action_seq, semantic_node_seq,
};
use crate::text_map::{TextMap, entry_pairs, lemma_pairs_map_values};
use vstd::prelude::*;
use vstd::string::*;

verus! {

pub(crate) fn clone_vec_semantic_node(s: &Vec<SemanticNode>) -> (r: Vec<SemanticNode>)
    ensures
        r@.len() == s@.len(),
        forall|i: int| 0 <= i < s@.len() ==> (#[trigger] r@[i])@ == s@[i]@,
        semantic_node_seq(r@) == semantic_node_seq(s@),
        r@.map_values(|x: SemanticNode| x@) == s@.map_values(|x: SemanticNode| x@),
    decreases s,
{
    let mut out: Vec<SemanticNode> = Vec::new();
    let mut i: usize = 0;
    while i < s.len()
        invariant
            i == out@.len(),
            i <= s@.len(),
            forall|j: int| 0 <= j < i ==> (#[trigger] out@[j])@ == s@[j]@,
        decreases s@.len() - i,
    {
        out.push(s[i].clone());
        i = i + 1;
    }
    proof {
        assert(semantic_node_seq(out@) =~= semantic_node_seq(s@));
    }
    out
}

pub(crate) fn clone_opt_text(s: &Option<String>) -> (r: Option<String>)
    ensures
        match (*s, r) { (Some(x), Some(y)) => x@ == y@, (None, None) => true, _ => false },
{
    match s {
        Some(x) => Some(x.clone()),
        None => None,
    }
}

pub(crate) fn clone_vec_pair(s: &Vec<(String, String)>) -> (r: Vec<(String, String)>)
    ensures
        r@.len() == s@.len(),
        forall|i: int| 0 <= i < s@.len() ==> (#[trigger] r@[i]).0@ == s@[i].0@
            && r@[i].1@ == s@[i].1@,
        r@.map_values(|x: (String, String)| (x.0@, x.1@))
            == s@.map_values(|x: (String, String)| (x.0@, x.1@)),
{
    let mut out: Vec<(String, String)> = Vec::new();
    let mut i: usize = 0;
    while i < s.len()
        invariant
            i == out@.len(),
            i <= s@.len(),
            forall|j: int| 0 <= j < i ==> (#[trigger] out@[j]).0@ == s@[j].0@
                && out@[j].1@ == s@[j].1@,
        decreases s@.len() - i,
    {
        out.push((s[i].0.clone(), s[i].1.clone()));
        i = i + 1;
    }
    out
}

pub(crate) fn clone_opt_semantic_input_value(
    s: &Option<SemanticInputValue>,
) -> (r: Option<SemanticInputValue>)
    ensures
        match (*s, r) { (Some(x), Some(y)) => x@ == y@, (None, None) => true, _ => false },
    decreases s,
{
    match s {
        Some(x) => Some(x.clone()),
        None => None,
    }
}

pub(crate) fn clone_vec_semantic_style_fragment(
    s: &Vec<SemanticStyleFragment>,
) -> (r: Vec<SemanticStyleFragment>)
    ensures
        r@.len() == s@.len(),
        forall|i: int| 0 <= i < s@.len() ==> (#[trigger] r@[i])@ == s@[i]@,
        r@.map_values(|x: SemanticStyleFragment| x@)
            == s@.map_values(|x: SemanticStyleFragment| x@),
    decreases s,
{
    let mut out: Vec<SemanticStyleFragment> = Vec::new();
    let mut i: usize = 0;
    while i < s.len()
        invariant
            i == out@.len(),
            i <= s@.len(),
            forall|j: int| 0 <= j < i ==> (#[trigger] out@[j])@ == s@[j]@,
        decreases s@.len() - i,
    {
        out.push(s[i].clone());
        i = i + 1;
    }
    out
}

pub(crate) fn clone_vec_semantic_event_binding(
    s: &Vec<SemanticEventBinding>,
) -> (r: Vec<SemanticEventBinding>)
    ensures
        r@.len() == s@.len(),
        forall|i: int| 0 <= i < s@.len() ==> (#[trigger] r@[i])@ == s@[i]@,
        r@.map_values(|x: SemanticEventBinding| x@) == s@.map_values(|x: SemanticEventBinding| x@),
{
    let mut out: Vec<SemanticEventBinding> = Vec::new();
    let mut i: usize = 0;
    while i < s.len()
        invariant
            i == out@.len(),
            i <= s@.len(),
            forall|j: int| 0 <= j < i ==> (#[trigger] out@[j])@ == s@[j]@,
        decreases s@.len() - i,
    {
        out.push(s[i].clone());
        i = i + 1;
    }
    out
}

pub(crate) fn clone_vec_semantic_fact_binding(
    s: &Vec<SemanticFactBinding>,
) -> (r: Vec<SemanticFactBinding>)
    ensures
        r@.len() == s@.len(),
        forall|i: int| 0 <= i < s@.len() ==> (#[trigger] r@[i])@ == s@[i]@,
        r@.map_values(|x: SemanticFactBinding| x@) == s@.map_values(|x: SemanticFactBinding| x@),
{
    let mut out: Vec<SemanticFactBinding> = Vec::new();
    let mut i: usize = 0;
    while i < s.len()
        invariant
            i == out@.len(),
            i <= s@.len(),
            forall|j: int| 0 <= j < i ==> (#[trigger] out@[j])@ == s@[j]@,
        decreases s@.len() - i,
    {
        out.push(s[i].clone());
        i = i + 1;
    }
    out
}

pub(crate) fn clone_vec_semantic_text_part(s: &Vec<SemanticTextPart>) -> (r: Vec<SemanticTextPart>)
    ensures
        r@.len() == s@.len(),
        forall|i: int| 0 <= i < s@.len() ==> (#[trigger] r@[i])@ == s@[i]@,
        r@.map_values(|x: SemanticTextPart| x@) == s@.map_values(|x: SemanticTextPart| x@),
{
    let mut out: Vec<SemanticTextPart> = Vec::new();
    let mut i: usize = 0;
    while i < s.len()
        invariant
            i == out@.len(),
            i <= s@.len(),
            forall|j: int| 0 <= j < i ==> (#[trigger] out@[j])@ == s@[j]@,
        decreases s@.len() - i,
    {
        out.push(s[i].clone());
        i = i + 1;
    }
    out
}

pub(crate) fn clone_vec_text(s: &Vec<String>) -> (r: Vec<String>)
    ensures
        r@.len() == s@.len(),
        forall|i: int| 0 <= i < s@.len() ==> (#[trigger] r@[i])@ == s@[i]@,
        r@.map_values(|x: String| x@) == s@.map_values(|x: String| x@),
{
    let mut out: Vec<String> = Vec::new();
    let mut i: usize = 0;
    while i < s.len()
        invariant
            i == out@.len(),
            i <= s@.len(),
            forall|j: int| 0 <= j < i ==> (#[trigger] out@[j])@ == s@[j]@,
        decreases s@.len() - i,
    {
        out.push(s[i].clone());
        i = i + 1;
    }
    out
}

pub(crate) fn clone_opt_text_list_filter(s: &Option<TextListFilter>) -> (r: Option<TextListFilter>)
    ensures
        match (*s, r) { (Some(x), Some(y)) => x@ == y@, (None, None) => true, _ => false },
{
    match s {
        Some(x) => Some(x.clone()),
        None => None,
    }
}

pub(crate) fn clone_opt_object_list_filter(
    s: &Option<ObjectListFilter>,
) -> (r: Option<ObjectListFilter>)
    ensures
        match (*s, r) { (Some(x), Some(y)) => x@ == y@, (None, None) => true, _ => false },
{
    match s {
        Some(x) => Some(x.clone()),
        None => None,
    }
}

pub(crate) fn clone_vec_object_item_action_spec(
    s: &Vec<ObjectItemActionSpec>,
) -> (r: Vec<ObjectItemActionSpec>)
    ensures
        r@.len() == s@.len(),
        forall|i: int| 0 <= i < s@.len() ==> (#[trigger] r@[i])@ == s@[i]@,
        object_item_action_spec_seq(r@) == object_item_action_spec_seq(s@),
        r@.map_values(|x: ObjectItemActionSpec| x@) == s@.map_values(|x: ObjectItemActionSpec| x@),
    decreases s,
{
    let mut out: Vec<ObjectItemActionSpec> = Vec::new();
    let mut i: usize = 0;
    while i < s.len()
        invariant
            i == out@.len(),
            i <= s@.len(),
            forall|j: int| 0 <= j < i ==> (#[trigger] out@[j])@ == s@[j]@,
        decreases s@.len() - i,
    {
        out.push(s[i].clone());
        i = i + 1;
    }
    proof {
        assert(object_item_action_spec_seq(out@) =~= object_item_action_spec_seq(s@));
    }
    out
}

pub(crate) fn clone_map_text(s: &TextMap<String>) -> (r: TextMap<String>)
    ensures
        r.entries@.len() == s.entries@.len(),
        forall|j: int|
            0 <= j < s.entries@.len() ==> (#[trigger] r.entries@[j]).0@ == s.entries@[j].0@
                && (r.entries@[j].1)@ == s.entries@[j].1@,
        r@.map_values(|x: String| x@) == s@.map_values(|x: String| x@),
{
    proof {
        use_type_invariant(s);
    }
    let mut out: Vec<(String, String)> = Vec::new();
    let mut i: usize = 0;
    while i < s.entries.len()
        invariant
            i == out@.len(),
            i <= s.entries@.len(),
            forall|j: int|
                0 <= j < i ==> (#[trigger] out@[j]).0@ == s.entries@[j].0@
                    && (out@[j].1)@ == s.entries@[j].1@,
        decreases s.entries@.len() - i,
    {
        out.push((s.entries[i].0.clone(), s.entries[i].1.clone()));
        i = i + 1;
    }
    let r = TextMap::from_ordered(out);
    proof {
        use_type_invariant(&r);
        let f = |x: String| x@;
        let pairs = s.entries@.map_values(|e: (String, String)| (e.0@, f(e.1)));
        lemma_pairs_map_values(s.entries@, pairs, f);
        assert forall|i: int| 0 <= i < r.entries@.len() implies (#[trigger] pairs[i]).0
            == r.entries@[i].0@ && pairs[i].1 == f(r.entries@[i].1) by {
            assert(f(s.entries@[i].1) =~= f(r.entries@[i].1));
        }
        lemma_pairs_map_values(r.entries@, pairs, f);
    }
    r
}

pub(crate) fn clone_map_bool(s: &TextMap<bool>) -> (r: TextMap<bool>)
    ensures
        r.entries@.len() == s.entries@.len(),
        forall|j: int|
            0 <= j < s.entries@.len() ==> (#[trigger] r.entries@[j]).0@ == s.entries@[j].0@
                && r.entries@[j].1 == s.entries@[j].1,
        r@ == s@,
{
    proof {
        use_type_invariant(s);
    }
    let mut out: Vec<(String, bool)> = Vec::new();
    let mut i: usize = 0;
    while i < s.entries.len()
        invariant
            i == out@.len(),
            i <= s.entries@.len(),
            forall|j: int|
                0 <= j < i ==> (#[trigger] out@[j]).0@ == s.entries@[j].0@
                    && out@[j].1 == s.entries@[j].1,
        decreases s.entries@.len() - i,
    {
        out.push((s.entries[i].0.clone(), s.entries[i].1));
        i = i + 1;
    }
    let r = TextMap::from_ordered(out);
    proof {
        assert(entry_pairs(r.entries@) =~= entry_pairs(s.entries@));
    }
    r
}

pub(crate) fn clone_map_i64(s: &TextMap<i64>) -> (r: TextMap<i64>)
    ensures
        r.entries@.len() == s.entries@.len(),
        forall|j: int|
            0 <= j < s.entries@.len() ==> (#[trigger] r.entries@[j]).0@ == s.entries@[j].0@
                && r.entries@[j].1 == s.entries@[j].1,
        r@ == s@,
{
    proof {
        use_type_invariant(s);
    }
    let mut out: Vec<(String, i64)> = Vec::new();
    let mut i: usize = 0;
    while i < s.entries.len()
        invariant
            i == out@.len(),
            i <= s.entries@.len(),
            forall|j: int|
                0 <= j < i ==> (#[trigger] out@[j]).0@ == s.entries@[j].0@
                    && out@[j].1 == s.entries@[j].1,
        decreases s.entries@.len() - i,
    {
        out.push((s.entries[i].0.clone(), s.entries[i].1));
        i = i + 1;
    }
    let r = TextMap::from_ordered(out);
    proof {
        assert(entry_pairs(r.entries@) =~= entry_pairs(s.entries@));
    }
    r
}

pub(crate) fn clone_map_vec_object_list_item(
    s: &TextMap<Vec<ObjectListItem>>,
) -> (r: TextMap<Vec<ObjectListItem>>)
    ensures
        r.entries@.len() == s.entries@.len(),
        forall|j: int|
            0 <= j < s.entries@.len() ==> (#[trigger] r.entries@[j]).0@ == s.entries@[j].0@
                && r.entries@[j].1@.len() == s.entries@[j].1@.len()
                && (forall|n: int|
                    0 <= n < s.entries@[j].1@.len() ==>
                        (#[trigger] r.entries@[j].1@[n])@
                            == s.entries@[j].1@[n]@),
        r@.map_values(|x: Vec<ObjectListItem>| x@.map_values(|x: ObjectListItem| x@))
            == s@.map_values(|x: Vec<ObjectListItem>| x@.map_values(|x: ObjectListItem| x@)),
    decreases s,
{
    proof {
        use_type_invariant(s);
    }
    let mut out: Vec<(String, Vec<ObjectListItem>)> = Vec::new();
    let mut i: usize = 0;
    while i < s.entries.len()
        invariant
            i == out@.len(),
            i <= s.entries@.len(),
            forall|j: int|
                0 <= j < i ==> (#[trigger] out@[j]).0@ == s.entries@[j].0@
                    && out@[j].1@.len() == s.entries@[j].1@.len()
                    && (forall|n: int|
                        0 <= n < s.entries@[j].1@.len() ==>
                            (#[trigger] out@[j].1@[n])@
                                == s.entries@[j].1@[n]@),
        decreases s.entries@.len() - i,
    {
        out.push((s.entries[i].0.clone(), clone_vec_object_list_item(&s.entries[i].1)));
        i = i + 1;
    }
    let r = TextMap::from_ordered(out);
    proof {
        use_type_invariant(&r);
        let f = |x: Vec<ObjectListItem>| x@.map_values(|x: ObjectListItem| x@);
        let pairs = s.entries@.map_values(|e: (String, Vec<ObjectListItem>)| (e.0@, f(e.1)));
        lemma_pairs_map_values(s.entries@, pairs, f);
        assert forall|i: int| 0 <= i < r.entries@.len() implies (#[trigger] pairs[i]).0
            == r.entries@[i].0@ && pairs[i].1 == f(r.entries@[i].1) by {
            assert(f(s.entries@[i].1) =~= f(r.entries@[i].1));
        }
        lemma_pairs_map_values(r.entries@, pairs, f);
    }
    r
}

pub(crate) fn clone_vec_object_list_item(s: &Vec<ObjectListItem>) -> (r: Vec<ObjectListItem>)
    ensures
        r@.len() == s@.len(),
        forall|i: int| 0 <= i < s@.len() ==> (#[trigger] r@[i])@ == s@[i]@,
        object_list_item_seq(r@) == object_list_item_seq(s@),
        r@.map_values(|x: ObjectListItem| x@) == s@.map_values(|x: ObjectListItem| x@),
    decreases s,
{
    let mut out: Vec<ObjectListItem> = Vec::new();
    let mut i: usize = 0;
    while i < s.len()
        invariant
            i == out@.len(),
            i <= s@.len(),
            forall|j: int| 0 <= j < i ==> (#[trigger] out@[j])@ == s@[j]@,
        decreases s@.len() - i,
    {
        out.push(s[i].clone());
        i = i + 1;
    }
    proof {
        assert(object_list_item_seq(out@) =~= object_list_item_seq(s@));
    }
    out
}

pub(crate) fn clone_map_vec_object_item_action_spec(
    s: &TextMap<Vec<ObjectItemActionSpec>>,
) -> (r: TextMap<Vec<ObjectItemActionSpec>>)
    ensures
        r.entries@.len() == s.entries@.len(),
        forall|j: int|
            0 <= j < s.entries@.len() ==> (#[trigger] r.entries@[j]).0@ == s.entries@[j].0@
                && r.entries@[j].1@.len() == s.entries@[j].1@.len()
                && (forall|n: int|
                    0 <= n < s.entries@[j].1@.len() ==>
                        (#[trigger] r.entries@[j].1@[n])@
                            == s.entries@[j].1@[n]@),
        r@.map_values(|x: Vec<ObjectItemActionSpec>| x@.map_values(|x: ObjectItemActionSpec| x@))
            == s@.map_values(|x: Vec<ObjectItemActionSpec>| x@.map_values(|x: ObjectItemActionSpec| x@)),
    decreases s,
{
    proof {
        use_type_invariant(s);
    }
    let mut out: Vec<(String, Vec<ObjectItemActionSpec>)> = Vec::new();
    let mut i: usize = 0;
    while i < s.entries.len()
        invariant
            i == out@.len(),
            i <= s.entries@.len(),
            forall|j: int|
                0 <= j < i ==> (#[trigger] out@[j]).0@ == s.entries@[j].0@
                    && out@[j].1@.len() == s.entries@[j].1@.len()
                    && (forall|n: int|
                        0 <= n < s.entries@[j].1@.len() ==>
                            (#[trigger] out@[j].1@[n])@
                                == s.entries@[j].1@[n]@),
        decreases s.entries@.len() - i,
    {
        out.push((s.entries[i].0.clone(), clone_vec_object_item_action_spec(&s.entries[i].1)));
        i = i + 1;
    }
    let r = TextMap::from_ordered(out);
    proof {
        use_type_invariant(&r);
        let f = |x: Vec<ObjectItemActionSpec>| x@.map_values(|x: ObjectItemActionSpec| x@);
        let pairs = s.entries@.map_values(|e: (String, Vec<ObjectItemActionSpec>)| (e.0@, f(e.1)));
        lemma_pairs_map_values(s.entries@, pairs, f);
        assert forall|i: int| 0 <= i < r.entries@.len() implies (#[trigger] pairs[i]).0
            == r.entries@[i].0@ && pairs[i].1 == f(r.entries@[i].1) by {
            assert(f(s.entries@[i].1) =~= f(r.entries@[i].1));
        }
        lemma_pairs_map_values(r.entries@, pairs, f);
    }
    r
}

pub(crate) fn clone_vec_nested_object_list_action(
    s: &Vec<NestedObjectListAction>,
) -> (r: Vec<NestedObjectListAction>)
    ensures
        r@.len() == s@.len(),
        forall|i: int| 0 <= i < s@.len() ==> (#[trigger] r@[i])@ == s@[i]@,
        nested_object_list_action_seq(r@) == nested_object_list_action_seq(s@),
        r@.map_values(|x: NestedObjectListAction| x@)
            == s@.map_values(|x: NestedObjectListAction| x@),
    decreases s,
{
    let mut out: Vec<NestedObjectListAction> = Vec::new();
    let mut i: usize = 0;
    while i < s.len()
        invariant
            i == out@.len(),
            i <= s@.len(),
            forall|j: int| 0 <= j < i ==> (#[trigger] out@[j])@ == s@[j]@,
        decreases s@.len() - i,
    {
        out.push(s[i].clone());
        i = i + 1;
    }
    proof {
        assert(nested_object_list_action_seq(out@) =~= nested_object_list_action_seq(s@));
    }
    out
}

pub(crate) fn clone_vec_item_scalar_update(s: &Vec<ItemScalarUpdate>) -> (r: Vec<ItemScalarUpdate>)
    ensures
        r@.len() == s@.len(),
        forall|i: int| 0 <= i < s@.len() ==> (#[trigger] r@[i])@ == s@[i]@,
        r@.map_values(|x: ItemScalarUpdate| x@) == s@.map_values(|x: ItemScalarUpdate| x@),
{
    let mut out: Vec<ItemScalarUpdate> = Vec::new();
    let mut i: usize = 0;
    while i < s.len()
        invariant
            i == out@.len(),
            i <= s@.len(),
            forall|j: int| 0 <= j < i ==> (#[trigger] out@[j])@ == s@[j]@,
        decreases s@.len() - i,
    {
        out.push(s[i].clone());
        i = i + 1;
    }
    out
}

pub(crate) fn clone_vec_item_text_update(s: &Vec<ItemTextUpdate>) -> (r: Vec<ItemTextUpdate>)
    ensures
        r@.len() == s@.len(),
        forall|i: int| 0 <= i < s@.len() ==> (#[trigger] r@[i])@ == s@[i]@,
        r@.map_values(|x: ItemTextUpdate| x@) == s@.map_values(|x: ItemTextUpdate| x@),
{
    let mut out: Vec<ItemTextUpdate> = Vec::new();
    let mut i: usize = 0;
    while i < s.len()
        invariant
            i == out@.len(),
            i <= s@.len(),
            forall|j: int| 0 <= j < i ==> (#[trigger] out@[j])@ == s@[j]@,
        decreases s@.len() - i,
    {
        out.push(s[i].clone());
        i = i + 1;
    }
    out
}

pub(crate) fn clone_opt_semantic_action(s: &Option<SemanticAction>) -> (r: Option<SemanticAction>)
    ensures
        match (*s, r) { (Some(x), Some(y)) => x@ == y@, (None, None) => true, _ => false },
    decreases s,
{
    match s {
        Some(x) => Some(x.clone()),
        None => None,
    }
}

pub(crate) fn clone_vec_scalar_update(s: &Vec<ScalarUpdate>) -> (r: Vec<ScalarUpdate>)
    ensures
        r@.len() == s@.len(),
        forall|i: int| 0 <= i < s@.len() ==> (#[trigger] r@[i])@ == s@[i]@,
        r@.map_values(|x: ScalarUpdate| x@) == s@.map_values(|x: ScalarUpdate| x@),
{
    let mut out: Vec<ScalarUpdate> = Vec::new();
    let mut i: usize = 0;
    while i < s.len()
        invariant
            i == out@.len(),
            i <= s@.len(),
            forall|j: int| 0 <= j < i ==> (#[trigger] out@[j])@ == s@[j]@,
        decreases s@.len() - i,
    {
        out.push(s[i].clone());
        i = i + 1;
    }
    out
}

pub(crate) fn clone_vec_text_update(s: &Vec<TextUpdate>) -> (r: Vec<TextUpdate>)
    ensures
        r@.len() == s@.len(),
        forall|i: int| 0 <= i < s@.len() ==> (#[trigger] r@[i])@ == s@[i]@,
        r@.map_values(|x: TextUpdate| x@) == s@.map_values(|x: TextUpdate| x@),
{
    let mut out: Vec<TextUpdate> = Vec::new();
    let mut i: usize = 0;
    while i < s.len()
        invariant
            i == out@.len(),
            i <= s@.len(),
            forall|j: int| 0 <= j < i ==> (#[trigger] out@[j])@ == s@[j]@,
        decreases s@.len() - i,
    {
        out.push(s[i].clone());
        i = i + 1;
    }
    out
}

pub(crate) fn clone_vec_text_list_update(s: &Vec<TextListUpdate>) -> (r: Vec<TextListUpdate>)
    ensures
        r@.len() == s@.len(),
        forall|i: int| 0 <= i < s@.len() ==> (#[trigger] r@[i])@ == s@[i]@,
        r@.map_values(|x: TextListUpdate| x@) == s@.map_values(|x: TextListUpdate| x@),
{
    let mut out: Vec<TextListUpdate> = Vec::new();
    let mut i: usize = 0;
    while i < s.len()
        invariant
            i == out@.len(),
            i <= s@.len(),
            forall|j: int| 0 <= j < i ==> (#[trigger] out@[j])@ == s@[j]@,
        decreases s@.len() - i,
    {
        out.push(s[i].clone());
        i = i + 1;
    }
    out
}

pub(crate) fn clone_vec_object_list_update(s: &Vec<ObjectListUpdate>) -> (r: Vec<ObjectListUpdate>)
    ensures
        r@.len() == s@.len(),
        forall|i: int| 0 <= i < s@.len() ==> (#[trigger] r@[i])@ == s@[i]@,
        r@.map_values(|x: ObjectListUpdate| x@) == s@.map_values(|x: ObjectListUpdate| x@),
{
    let mut out: Vec<ObjectListUpdate> = Vec::new();
    let mut i: usize = 0;
    while i < s.len()
        invariant
            i == out@.len(),
            i <= s@.len(),
            forall|j: int| 0 <= j < i ==> (#[trigger] out@[j])@ == s@[j]@,
        decreases s@.len() - i,
    {
        out.push(s[i].clone());
        i = i + 1;
    }
    out
}

pub(crate) fn clone_vec_nested_object_list_update(
    s: &Vec<NestedObjectListUpdate>,
) -> (r: Vec<NestedObjectListUpdate>)
    ensures
        r@.len() == s@.len(),
        forall|i: int| 0 <= i < s@.len() ==> (#[trigger] r@[i])@ == s@[i]@,
        r@.map_values(|x: NestedObjectListUpdate| x@)
            == s@.map_values(|x: NestedObjectListUpdate| x@),
{
    let mut out: Vec<NestedObjectListUpdate> = Vec::new();
    let mut i: usize = 0;
    while i < s.len()
        invariant
            i == out@.len(),
            i <= s@.len(),
            forall|j: int| 0 <= j < i ==> (#[trigger] out@[j])@ == s@[j]@,
        decreases s@.len() - i,
    {
        out.push(s[i].clone());
        i = i + 1;
    }
    out
}

pub(crate) fn clone_vec_semantic_action(s: &Vec<SemanticAction>) -> (r: Vec<SemanticAction>)
    ensures
        r@.len() == s@.len(),
        forall|i: int| 0 <= i < s@.len() ==> (#[trigger] r@[i])@ == s@[i]@,
        semantic_action_seq(r@) == semantic_action_seq(s@),
        r@.map_values(|x: SemanticAction| x@) == s@.map_values(|x: SemanticAction| x@),
    decreases s,
{
    let mut out: Vec<SemanticAction> = Vec::new();
    let mut i: usize = 0;
    while i < s.len()
        invariant
            i == out@.len(),
            i <= s@.len(),
            forall|j: int| 0 <= j < i ==> (#[trigger] out@[j])@ == s@[j]@,
        decreases s@.len() - i,
    {
        out.push(s[i].clone());
        i = i + 1;
    }
    proof {
        assert(semantic_action_seq(out@) =~= semantic_action_seq(s@));
    }
    out
}

pub(crate) fn clone_map_vec_text(s: &TextMap<Vec<String>>) -> (r: TextMap<Vec<String>>)
    ensures
        r.entries@.len() == s.entries@.len(),
        forall|j: int|
            0 <= j < s.entries@.len() ==> (#[trigger] r.entries@[j]).0@ == s.entries@[j].0@
                && r.entries@[j].1@.map_values(|x: String| x@) == s.entries@[j].1@.map_values(|x: String| x@),
        r@.map_values(|x: Vec<String>| x@.map_values(|x: String| x@))
            == s@.map_values(|x: Vec<String>| x@.map_values(|x: String| x@)),
{
    proof {
        use_type_invariant(s);
    }
    let mut out: Vec<(String, Vec<String>)> = Vec::new();
    let mut i: usize = 0;
    while i < s.entries.len()
        invariant
            i == out@.len(),
            i <= s.entries@.len(),
            forall|j: int|
                0 <= j < i ==> (#[trigger] out@[j]).0@ == s.entries@[j].0@
                    && out@[j].1@.map_values(|x: String| x@) == s.entries@[j].1@.map_values(|x: String| x@),
        decreases s.entries@.len() - i,
    {
        out.push((s.entries[i].0.clone(), clone_vec_text(&s.entries[i].1)));
        i = i + 1;
    }
    let r = TextMap::from_ordered(out);
    proof {
        use_type_invariant(&r);
        let f = |x: Vec<String>| x@.map_values(|x: String| x@);
        let pairs = s.entries@.map_values(|e: (String, Vec<String>)| (e.0@, f(e.1)));
        lemma_pairs_map_values(s.entries@, pairs, f);
        assert forall|i: int| 0 <= i < r.entries@.len() implies (#[trigger] pairs[i]).0
            == r.entries@[i].0@ && pairs[i].1 == f(r.entries@[i].1) by {
            assert(f(s.entries@[i].1) =~= f(r.entries@[i].1));
        }
        lemma_pairs_map_values(r.entries@, pairs, f);
    }
    r
}

pub(crate) fn clone_vec_derived_scalar_spec(
    s: &Vec<DerivedScalarSpec>,
) -> (r: Vec<DerivedScalarSpec>)
    ensures
        r@.len() == s@.len(),
        forall|i: int| 0 <= i < s@.len() ==> (#[trigger] r@[i])@ == s@[i]@,
        r@.map_values(|x: DerivedScalarSpec| x@) == s@.map_values(|x: DerivedScalarSpec| x@),
{
    let mut out: Vec<DerivedScalarSpec> = Vec::new();
    let mut i: usize = 0;
    while i < s.len()
        invariant
            i == out@.len(),
            i <= s@.len(),
            forall|j: int| 0 <= j < i ==> (#[trigger] out@[j])@ == s@[j]@,
        decreases s@.len() - i,
    {
        out.push(s[i].clone());
        i = i + 1;
    }
    out
}

impl Clone for SemanticProgram {
    fn clone(&self) -> (r: Self)
        ensures
            r@ == self@,
    {
        SemanticProgram {
            root: self.root.clone(),
            runtime: self.runtime.clone(),
        }
    }
}

impl Clone for SemanticNode {
    fn clone(&self) -> (r: Self)
        ensures
            r@ == self@,
        decreases self,
    {
        match self {
            SemanticNode::Fragment(a) => SemanticNode::Fragment(clone_vec_semantic_node(a)),
            SemanticNode::Keyed { key, node } => SemanticNode::Keyed {
                key: *key,
                node: Box::new((**node).clone()),
            },
            SemanticNode::Element {
                tag,
                text,
                properties,
                input_value,
                style_fragments,
                event_bindings,
                fact_bindings,
                children,
            } => SemanticNode::Element {
                tag: tag.clone(),
                text: clone_opt_text(text),
                properties: clone_vec_pair(properties),
                input_value: clone_opt_semantic_input_value(input_value),
                style_fragments: clone_vec_semantic_style_fragment(style_fragments),
                event_bindings: clone_vec_semantic_event_binding(event_bindings),
                fact_bindings: clone_vec_semantic_fact_binding(fact_bindings),
                children: clone_vec_semantic_node(children),
            },
            SemanticNode::Text(a) => SemanticNode::Text(a.clone()),
            SemanticNode::TextTemplate { parts, value } => SemanticNode::TextTemplate {
                parts: clone_vec_semantic_text_part(parts),
                value: value.clone(),
            },
            SemanticNode::TextBindingBranch {
                binding,
                invert,
                truthy,
                falsy,
            } => SemanticNode::TextBindingBranch {
                binding: binding.clone(),
                invert: *invert,
                truthy: Box::new((**truthy).clone()),
                falsy: Box::new((**falsy).clone()),
            },
            SemanticNode::BoolBranch { binding, truthy, falsy } => SemanticNode::BoolBranch {
                binding: binding.clone(),
                truthy: Box::new((**truthy).clone()),
                falsy: Box::new((**falsy).clone()),
            },
            SemanticNode::ScalarCompareBranch {
                left,
                op,
                right,
                truthy,
                falsy,
            } => SemanticNode::ScalarCompareBranch {
                left: left.clone(),
                op: *op,
                right: right.clone(),
                truthy: Box::new((**truthy).clone()),
                falsy: Box::new((**falsy).clone()),
            },
            SemanticNode::ObjectScalarCompareBranch {
                left,
                op,
                right,
                truthy,
                falsy,
            } => SemanticNode::ObjectScalarCompareBranch {
                left: left.clone(),
                op: *op,
                right: right.clone(),
                truthy: Box::new((**truthy).clone()),
                falsy: Box::new((**falsy).clone()),
            },
            SemanticNode::ObjectBoolFieldBranch {
                field,
                truthy,
                falsy,
            } => SemanticNode::ObjectBoolFieldBranch {
                field: field.clone(),
                truthy: Box::new((**truthy).clone()),
                falsy: Box::new((**falsy).clone()),
            },
            SemanticNode::ObjectTextFieldBranch {
                field,
                invert,
                truthy,
                falsy,
            } => SemanticNode::ObjectTextFieldBranch {
                field: field.clone(),
                invert: *invert,
                truthy: Box::new((**truthy).clone()),
                falsy: Box::new((**falsy).clone()),
            },
            SemanticNode::ListEmptyBranch {
                binding,
                object_items,
                invert,
                truthy,
                falsy,
            } => SemanticNode::ListEmptyBranch {
                binding: binding.clone(),
                object_items: *object_items,
                invert: *invert,
                truthy: Box::new((**truthy).clone()),
                falsy: Box::new((**falsy).clone()),
            },
            SemanticNode::ScalarValue { binding, value } => SemanticNode::ScalarValue {
                binding: binding.clone(),
                value: *value,
            },
            SemanticNode::ObjectFieldValue { field } => SemanticNode::ObjectFieldValue {
                field: field.clone(),
            },
            SemanticNode::TextList { binding, values, filter, template } => SemanticNode::TextList {
                binding: binding.clone(),
                values: clone_vec_text(values),
                filter: clone_opt_text_list_filter(filter),
                template: template.clone(),
            },
            SemanticNode::ObjectList {
                binding,
                filter,
                item_actions,
                template,
            } => SemanticNode::ObjectList {
                binding: binding.clone(),
                filter: clone_opt_object_list_filter(filter),
                item_actions: clone_vec_object_item_action_spec(item_actions),
                template: Box::new((**template).clone()),
            },
        }
    }
}

impl Clone for SemanticTextPart {
    fn clone(&self) -> (r: Self)
        ensures
            r@ == self@,
    {
        match self {
            SemanticTextPart::Static(a) => SemanticTextPart::Static(a.clone()),
            SemanticTextPart::TextBinding(a) => SemanticTextPart::TextBinding(a.clone()),
            SemanticTextPart::ScalarBinding(a) => SemanticTextPart::ScalarBinding(a.clone()),
            SemanticTextPart::ObjectFieldBinding(a) => SemanticTextPart::ObjectFieldBinding(
                a.clone(),
            ),
            SemanticTextPart::ListCountBinding(a) => SemanticTextPart::ListCountBinding(a.clone()),
            SemanticTextPart::ObjectListCountBinding(a) => SemanticTextPart::ObjectListCountBinding(
                a.clone(),
            ),
            SemanticTextPart::FilteredListCountBinding {
                binding,
                filter,
            } => SemanticTextPart::FilteredListCountBinding {
                binding: binding.clone(),
                filter: filter.clone(),
            },
            SemanticTextPart::FilteredObjectListCountBinding {
                binding,
                filter,
            } => SemanticTextPart::FilteredObjectListCountBinding {
                binding: binding.clone(),
                filter: filter.clone(),
            },
            SemanticTextPart::BoolBindingText {
                binding,
                true_text,
                false_text,
            } => SemanticTextPart::BoolBindingText {
                binding: binding.clone(),
                true_text: true_text.clone(),
                false_text: false_text.clone(),
            },
            SemanticTextPart::ObjectBoolFieldText {
                field,
                true_text,
                false_text,
            } => SemanticTextPart::ObjectBoolFieldText {
                field: field.clone(),
                true_text: true_text.clone(),
                false_text: false_text.clone(),
            },
        }
    }
}

impl Clone for SemanticInputValue {
    fn clone(&self) -> (r: Self)
        ensures
            r@ == self@,
        decreases self,
    {
        match self {
            SemanticInputValue::Static(a) => SemanticInputValue::Static(a.clone()),
            SemanticInputValue::TextParts { parts, value } => SemanticInputValue::TextParts {
                parts: clone_vec_semantic_text_part(parts),
                value: value.clone(),
            },
            SemanticInputValue::TextBindingBranch {
                binding,
                invert,
                truthy,
                falsy,
            } => SemanticInputValue::TextBindingBranch {
                binding: binding.clone(),
                invert: *invert,
                truthy: Box::new((**truthy).clone()),
                falsy: Box::new((**falsy).clone()),
            },
            SemanticInputValue::ObjectTextFieldBranch {
                field,
                invert,
                truthy,
                falsy,
            } => SemanticInputValue::ObjectTextFieldBranch {
                field: field.clone(),
                invert: *invert,
                truthy: Box::new((**truthy).clone()),
                falsy: Box::new((**falsy).clone()),
            },
        }
    }
}

impl Clone for TextListFilter {
    fn clone(&self) -> (r: Self)
        ensures
            r@ == self@,
    {
        match self {
            TextListFilter::IntCompare { op, value } => TextListFilter::IntCompare {
                op: *op,
                value: *value,
            },
        }
    }
}

impl Clone for TextListTemplate {
    fn clone(&self) -> (r: Self)
        ensures
            r@ == self@,
    {
        TextListTemplate {
            tag: self.tag.clone(),
            properties: clone_vec_pair(&self.properties),
            prefix: self.prefix.clone(),
            suffix: self.suffix.clone(),
        }
    }
}

impl Clone for ObjectListFilter {
    fn clone(&self) -> (r: Self)
        ensures
            r@ == self@,
    {
        match self {
            ObjectListFilter::BoolFieldEquals {
                field,
                value,
            } => ObjectListFilter::BoolFieldEquals {
                field: field.clone(),
                value: *value,
            },
            ObjectListFilter::SelectedCompletedByScalar {
                binding,
            } => ObjectListFilter::SelectedCompletedByScalar {
                binding: binding.clone(),
            },
        }
    }
}

impl Clone for ObjectListItem {
    fn clone(&self) -> (r: Self)
        ensures
            r@ == self@,
        decreases self,
    {
        let r = ObjectListItem {
            id: self.id,
            title: self.title.clone(),
            completed: self.completed,
            text_fields: clone_map_text(&self.text_fields),
            bool_fields: clone_map_bool(&self.bool_fields),
            scalar_fields: clone_map_i64(&self.scalar_fields),
            object_lists: clone_map_vec_object_list_item(&self.object_lists),
            nested_item_actions: clone_map_vec_object_item_action_spec(&self.nested_item_actions),
        };
        proof {
            assert(
                object_list_item_lists_pairs(r.object_lists) =~~= object_list_item_lists_pairs(
                    self.object_lists,
                )
            );
            assert(
                object_item_action_spec_lists_pairs(
                    r.nested_item_actions,
                ) =~~= object_item_action_spec_lists_pairs(self.nested_item_actions)
            );
        }
        r
    }
}

impl Clone for ObjectItemActionSpec {
    fn clone(&self) -> (r: Self)
        ensures
            r@ == self@,
        decreases self,
    {
        let r = ObjectItemActionSpec {
            source_binding_suffix: self.source_binding_suffix.clone(),
            kind: self.kind,
            action: self.action.clone(),
        };
        proof {
        }
        r
    }
}

impl Clone for ObjectItemActionKind {
    fn clone(&self) -> (r: Self)
        ensures
            r@ == self@,
        decreases self,
    {
        match self {
            ObjectItemActionKind::ToggleBoolField {
                field,
            } => ObjectItemActionKind::ToggleBoolField {
                field: field.clone(),
            },
            ObjectItemActionKind::UpdateNestedObjectLists {
                updates,
            } => ObjectItemActionKind::UpdateNestedObjectLists {
                updates: clone_vec_nested_object_list_action(updates),
            },
            ObjectItemActionKind::SetBoolField {
                field,
                value,
                payload_filter,
            } => ObjectItemActionKind::SetBoolField {
                field: field.clone(),
                value: *value,
                payload_filter: clone_opt_text(payload_filter),
            },
            ObjectItemActionKind::SetTitle {
                trim,
                reject_empty,
                payload_filter,
            } => ObjectItemActionKind::SetTitle {
                trim: *trim,
                reject_empty: *reject_empty,
                payload_filter: clone_opt_text(payload_filter),
            },
            ObjectItemActionKind::UpdateBindings {
                scalar_updates,
                text_updates,
                payload_filter,
            } => ObjectItemActionKind::UpdateBindings {
                scalar_updates: clone_vec_item_scalar_update(scalar_updates),
                text_updates: clone_vec_item_text_update(text_updates),
                payload_filter: clone_opt_text(payload_filter),
            },
            ObjectItemActionKind::RemoveSelf => ObjectItemActionKind::RemoveSelf,
        }
    }
}

impl Clone for NestedObjectListAction {
    fn clone(&self) -> (r: Self)
        ensures
            r@ == self@,
        decreases self,
    {
        match self {
            NestedObjectListAction::AppendObject {
                field,
                item,
            } => NestedObjectListAction::AppendObject {
                field: field.clone(),
                item: item.clone(),
            },
        }
    }
}

impl Clone for ItemScalarUpdate {
    fn clone(&self) -> (r: Self)
        ensures
            r@ == self@,
    {
        match self {
            ItemScalarUpdate::SetStatic { binding, value } => ItemScalarUpdate::SetStatic {
                binding: binding.clone(),
                value: *value,
            },
            ItemScalarUpdate::SetFromField { binding, field } => ItemScalarUpdate::SetFromField {
                binding: binding.clone(),
                field: field.clone(),
            },
        }
    }
}

impl Clone for ItemTextUpdate {
    fn clone(&self) -> (r: Self)
        ensures
            r@ == self@,
    {
        match self {
            ItemTextUpdate::SetStatic { binding, value } => ItemTextUpdate::SetStatic {
                binding: binding.clone(),
                value: value.clone(),
            },
            ItemTextUpdate::SetFromField { binding, field } => ItemTextUpdate::SetFromField {
                binding: binding.clone(),
                field: field.clone(),
            },
            ItemTextUpdate::SetFromPayload { binding } => ItemTextUpdate::SetFromPayload {
                binding: binding.clone(),
            },
            ItemTextUpdate::SetFromInputSource {
                binding,
                source_suffix,
            } => ItemTextUpdate::SetFromInputSource {
                binding: binding.clone(),
                source_suffix: source_suffix.clone(),
            },
        }
    }
}

impl Clone for SemanticEventBinding {
    fn clone(&self) -> (r: Self)
        ensures
            r@ == self@,
    {
        SemanticEventBinding {
            kind: self.kind,
            source_binding: clone_opt_text(&self.source_binding),
            action: clone_opt_semantic_action(&self.action),
        }
    }
}

impl Clone for SemanticFactBinding {
    fn clone(&self) -> (r: Self)
        ensures
            r@ == self@,
    {
        SemanticFactBinding {
            kind: self.kind,
            binding: self.binding.clone(),
        }
    }
}

impl Clone for SemanticStyleFragment {
    fn clone(&self) -> (r: Self)
        ensures
            r@ == self@,
        decreases self,
    {
        match self {
            SemanticStyleFragment::Static(a) => SemanticStyleFragment::Static(clone_opt_text(a)),
            SemanticStyleFragment::BoolBinding {
                binding,
                truthy,
                falsy,
            } => SemanticStyleFragment::BoolBinding {
                binding: binding.clone(),
                truthy: Box::new((**truthy).clone()),
                falsy: Box::new((**falsy).clone()),
            },
            SemanticStyleFragment::ScalarCompare {
                left,
                op,
                right,
                truthy,
                falsy,
            } => SemanticStyleFragment::ScalarCompare {
                left: left.clone(),
                op: *op,
                right: right.clone(),
                truthy: Box::new((**truthy).clone()),
                falsy: Box::new((**falsy).clone()),
            },
            SemanticStyleFragment::ObjectBoolField {
                field,
                truthy,
                falsy,
            } => SemanticStyleFragment::ObjectBoolField {
                field: field.clone(),
                truthy: Box::new((**truthy).clone()),
                falsy: Box::new((**falsy).clone()),
            },
        }
    }
}

impl Clone for SemanticAction {
    fn clone(&self) -> (r: Self)
        ensures
            r@ == self@,
        decreases self,
    {
        match self {
            SemanticAction::UpdateScalars { updates } => SemanticAction::UpdateScalars {
                updates: clone_vec_scalar_update(updates),
            },
            SemanticAction::UpdateTexts { updates } => SemanticAction::UpdateTexts {
                updates: clone_vec_text_update(updates),
            },
            SemanticAction::UpdateTextLists { updates } => SemanticAction::UpdateTextLists {
                updates: clone_vec_text_list_update(updates),
            },
            SemanticAction::UpdateObjectLists { updates } => SemanticAction::UpdateObjectLists {
                updates: clone_vec_object_list_update(updates),
            },
            SemanticAction::UpdateNestedObjectLists {
                parent_binding,
                parent_item_id,
                updates,
            } => SemanticAction::UpdateNestedObjectLists {
                parent_binding: parent_binding.clone(),
                parent_item_id: *parent_item_id,
                updates: clone_vec_nested_object_list_update(updates),
            },
            SemanticAction::Batch { actions } => SemanticAction::Batch {
                actions: clone_vec_semantic_action(actions),
            },
        }
    }
}

impl Clone for RuntimeModel {
    fn clone(&self) -> (r: Self)
        ensures
            r@ == self@,
    {
        match self {
            RuntimeModel::Static => RuntimeModel::Static,
            RuntimeModel::Scalars(a) => RuntimeModel::Scalars(a.clone()),
            RuntimeModel::State(a) => RuntimeModel::State(a.clone()),
        }
    }
}

impl Clone for ScalarRuntimeModel {
    fn clone(&self) -> (r: Self)
        ensures
            r@ == self@,
    {
        ScalarRuntimeModel {
            values: clone_map_i64(&self.values),
        }
    }
}

impl Clone for DerivedScalarOperand {
    fn clone(&self) -> (r: Self)
        ensures
            r@ == self@,
    {
        match self {
            DerivedScalarOperand::Binding(a) => DerivedScalarOperand::Binding(a.clone()),
            DerivedScalarOperand::Literal(a) => DerivedScalarOperand::Literal(*a),
        }
    }
}

impl Clone for ObjectDerivedScalarOperand {
    fn clone(&self) -> (r: Self)
        ensures
            r@ == self@,
    {
        match self {
            ObjectDerivedScalarOperand::Binding(a) => ObjectDerivedScalarOperand::Binding(
                a.clone(),
            ),
            ObjectDerivedScalarOperand::Field(a) => ObjectDerivedScalarOperand::Field(a.clone()),
            ObjectDerivedScalarOperand::Literal(a) => ObjectDerivedScalarOperand::Literal(*a),
        }
    }
}

impl Clone for DerivedScalarSpec {
    fn clone(&self) -> (r: Self)
        ensures
            r@ == self@,
    {
        match self {
            DerivedScalarSpec::TextListCount {
                binding,
                filter,
                target,
            } => DerivedScalarSpec::TextListCount {
                binding: binding.clone(),
                filter: clone_opt_text_list_filter(filter),
                target: target.clone(),
            },
            DerivedScalarSpec::ObjectListCount {
                binding,
                filter,
                target,
            } => DerivedScalarSpec::ObjectListCount {
                binding: binding.clone(),
                filter: clone_opt_object_list_filter(filter),
                target: target.clone(),
            },
            DerivedScalarSpec::Arithmetic {
                target,
                op,
                left,
                right,
            } => DerivedScalarSpec::Arithmetic {
                target: target.clone(),
                op: *op,
                left: left.clone(),
                right: right.clone(),
            },
            DerivedScalarSpec::Comparison {
                target,
                op,
                left,
                right,
            } => DerivedScalarSpec::Comparison {
                target: target.clone(),
                op: *op,
                left: left.clone(),
                right: right.clone(),
            },
        }
    }
}

impl Clone for StateRuntimeModel {
    fn clone(&self) -> (r: Self)
        ensures
            r@ == self@,
    {
        StateRuntimeModel {
            scalar_values: clone_map_i64(&self.scalar_values),
            text_values: clone_map_text(&self.text_values),
            text_lists: clone_map_vec_text(&self.text_lists),
            object_lists: clone_map_vec_object_list_item(&self.object_lists),
            input_texts: clone_map_text(&self.input_texts),
            derived_scalars: clone_vec_derived_scalar_spec(&self.derived_scalars),
        }
    }
}

impl Clone for ScalarUpdate {
    fn clone(&self) -> (r: Self)
        ensures
            r@ == self@,
    {
        match self {
            ScalarUpdate::SetTo { binding, value } => ScalarUpdate::SetTo {
                binding: binding.clone(),
                value: *value,
            },
            ScalarUpdate::SetFiltered {
                binding,
                value,
                payload_filter,
            } => ScalarUpdate::SetFiltered {
                binding: binding.clone(),
                value: *value,
                payload_filter: payload_filter.clone(),
            },
            ScalarUpdate::Add { binding, delta } => ScalarUpdate::Add {
                binding: binding.clone(),
                delta: *delta,
            },
            ScalarUpdate::ToggleBool { binding } => ScalarUpdate::ToggleBool {
                binding: binding.clone(),
            },
        }
    }
}

impl Clone for TextUpdate {
    fn clone(&self) -> (r: Self)
        ensures
            r@ == self@,
    {
        match self {
            TextUpdate::SetStatic { binding, value, payload_filter } => TextUpdate::SetStatic {
                binding: binding.clone(),
                value: value.clone(),
                payload_filter: clone_opt_text(payload_filter),
            },
            TextUpdate::SetFromInput {
                binding,
                source_binding,
                payload_filter,
            } => TextUpdate::SetFromInput {
                binding: binding.clone(),
                source_binding: source_binding.clone(),
                payload_filter: clone_opt_text(payload_filter),
            },
            TextUpdate::SetFromPayload { binding } => TextUpdate::SetFromPayload {
                binding: binding.clone(),
            },
        }
    }
}

impl Clone for TextListUpdate {
    fn clone(&self) -> (r: Self)
        ensures
            r@ == self@,
    {
        match self {
            TextListUpdate::AppendDraftText {
                binding,
                source_binding,
                key,
                trim,
                reject_empty,
                clear_draft,
            } => TextListUpdate::AppendDraftText {
                binding: binding.clone(),
                source_binding: source_binding.clone(),
                key: clone_opt_text(key),
                trim: *trim,
                reject_empty: *reject_empty,
                clear_draft: *clear_draft,
            },
            TextListUpdate::Clear { binding } => TextListUpdate::Clear { binding: binding.clone() },
        }
    }
}

impl Clone for ObjectListUpdate {
    fn clone(&self) -> (r: Self)
        ensures
            r@ == self@,
    {
        match self {
            ObjectListUpdate::AppendObject { binding, item } => ObjectListUpdate::AppendObject {
                binding: binding.clone(),
                item: item.clone(),
            },
            ObjectListUpdate::AppendDraftObject {
                binding,
                source_binding,
                key,
                trim,
                reject_empty,
                clear_draft,
                bool_fields,
            } => ObjectListUpdate::AppendDraftObject {
                binding: binding.clone(),
                source_binding: source_binding.clone(),
                key: clone_opt_text(key),
                trim: *trim,
                reject_empty: *reject_empty,
                clear_draft: *clear_draft,
                bool_fields: clone_map_bool(bool_fields),
            },
            ObjectListUpdate::ToggleBoolField {
                binding,
                item_id,
                field,
            } => ObjectListUpdate::ToggleBoolField {
                binding: binding.clone(),
                item_id: *item_id,
                field: field.clone(),
            },
            ObjectListUpdate::SetBoolField {
                binding,
                item_id,
                field,
                value,
                payload_filter,
            } => ObjectListUpdate::SetBoolField {
                binding: binding.clone(),
                item_id: *item_id,
                field: field.clone(),
                value: *value,
                payload_filter: clone_opt_text(payload_filter),
            },
            ObjectListUpdate::SetTitle {
                binding,
                item_id,
                trim,
                reject_empty,
                payload_filter,
            } => ObjectListUpdate::SetTitle {
                binding: binding.clone(),
                item_id: *item_id,
                trim: *trim,
                reject_empty: *reject_empty,
                payload_filter: clone_opt_text(payload_filter),
            },
            ObjectListUpdate::ToggleAllBoolField {
                binding,
                field,
            } => ObjectListUpdate::ToggleAllBoolField {
                binding: binding.clone(),
                field: field.clone(),
            },
            ObjectListUpdate::RemoveItem { binding, item_id } => ObjectListUpdate::RemoveItem {
                binding: binding.clone(),
                item_id: *item_id,
            },
            ObjectListUpdate::RemoveMatching {
                binding,
                filter,
            } => ObjectListUpdate::RemoveMatching {
                binding: binding.clone(),
                filter: filter.clone(),
            },
        }
    }
}

impl Clone for NestedObjectListUpdate {
    fn clone(&self) -> (r: Self)
        ensures
            r@ == self@,
    {
        match self {
            NestedObjectListUpdate::AppendObject {
                field,
                item,
            } => NestedObjectListUpdate::AppendObject {
                field: field.clone(),
                item: item.clone(),
            },
            NestedObjectListUpdate::RemoveItem {
                field,
                item_id,
            } => NestedObjectListUpdate::RemoveItem {
                field: field.clone(),
                item_id: *item_id,
            },
        }
    }
}

} // verus!
