//! How values are compared with patterns and taken apart.
use crate::expression_view::{
    LiteralView, PatternVariableView, PatternView, lemma_pattern_seq, lemma_pattern_variable_seq,
    pattern_seq, pattern_variable_seq,
};
use crate::static_expression::{Literal, Pattern, PatternVariable};
use crate::text::text_eq;
use crate::text_map::{TextMap, lemma_insert_values};
use crate::value::{
    Field, FieldView, ListEntry, ListEntryView, Value, ValueView, field_seq, lemma_field_seq,
    lemma_list_entry_seq, list_entry_seq,
};
use vstd::prelude::*;

verus! {

/// What came of comparing a value with a pattern, up to its numbers: the names that are bound,
/// and the numbers that have to be equal, each in the pattern and in the value, as bits.
#[derive(Debug, PartialEq, Eq)]
pub struct PatternMatch {
    pub bindings: TextMap<Value>,
    pub numbers: Vec<(u64, u64)>,
}

/// The mathematical value of a [`PatternMatch`].
#[verifier::ext_equal]
pub struct PatternMatchView {
    pub bindings: Map<Seq<char>, ValueView>,
    pub numbers: Seq<(u64, u64)>,
}

impl View for PatternMatch {
    type V = PatternMatchView;

    open spec fn view(&self) -> PatternMatchView {
        PatternMatchView {
            bindings: self.bindings@.map_values(|x: Value| x@),
            numbers: self.numbers@,
        }
    }
}

/// A match that binds nothing.
pub open spec fn plain_match() -> PatternMatchView {
    PatternMatchView { bindings: Map::empty(), numbers: Seq::empty() }
}

/// A match that binds one name.
pub open spec fn binding_match(name: Seq<char>, value: ValueView) -> PatternMatchView {
    PatternMatchView { bindings: Map::empty().insert(name, value), numbers: Seq::empty() }
}

/// Two matches together; where both bind a name the second one has it.
pub open spec fn both_matches(a: PatternMatchView, b: PatternMatchView) -> PatternMatchView {
    PatternMatchView {
        bindings: a.bindings.union_prefer_right(b.bindings),
        numbers: a.numbers + b.numbers,
    }
}

/// How a literal matches: a text and a tag by their characters, numbers by being equal.
pub open spec fn literal_matched(literal: LiteralView, value: ValueView) -> Option<
    PatternMatchView,
> {
    match (literal, value) {
        (LiteralView::Number(a), ValueView::Number(b)) => Some(
            PatternMatchView { bindings: Map::empty(), numbers: seq![(a, b)] },
        ),
        (LiteralView::Tag(a), ValueView::Tag(b)) => if a == b {
            Some(plain_match())
        } else {
            None
        },
        (LiteralView::Text(a), ValueView::Text(b)) => if a == b {
            Some(plain_match())
        } else {
            None
        },
        _ => None,
    }
}

/// The first field of a name.
pub open spec fn named_field(fields: Seq<FieldView>, name: Seq<char>) -> Option<FieldView>
    decreases fields.len(),
{
    if fields.len() == 0 {
        None
    } else if fields[0].name == name {
        Some(fields[0])
    } else {
        named_field(fields.skip(1), name)
    }
}

/// The fields of an object, tagged or not.
pub open spec fn object_fields(value: ValueView) -> Option<Seq<FieldView>> {
    match value {
        ValueView::Object { fields } => Some(fields),
        ValueView::TaggedObject { fields, .. } => Some(fields),
        _ => None,
    }
}

/// How a value matches a pattern; `None` where it does not, whatever its numbers are.
pub open spec fn matched(pattern: PatternView, value: ValueView) -> Option<PatternMatchView>
    decreases pattern,
{
    match pattern {
        PatternView::WildCard => Some(plain_match()),
        PatternView::Alias { name } => Some(binding_match(name, value)),
        PatternView::Literal(literal) => literal_matched(literal, value),
        PatternView::TaggedObject { tag, variables } => match value {
            ValueView::TaggedObject { tag: found, fields } => if found == tag {
                fields_matched(variables, fields)
            } else {
                None
            },
            _ => None,
        },
        PatternView::Object { variables } => match object_fields(value) {
            Some(fields) => fields_matched(variables, fields),
            None => None,
        },
        PatternView::List { items } => match value {
            ValueView::List { items: entries } => if entries.len() == items.len() {
                entries_matched(items, entries)
            } else {
                None
            },
            _ => None,
        },
        PatternView::MapEntries => None,
    }
}

/// How the fields of an object match the fields of a pattern.
pub open spec fn fields_matched(
    variables: Seq<PatternVariableView>,
    fields: Seq<FieldView>,
) -> Option<PatternMatchView>
    decreases variables,
{
    if variables.len() == 0 {
        Some(plain_match())
    } else {
        match (
            fields_matched(variables.drop_last(), fields),
            variable_matched(variables[variables.len() - 1], fields),
        ) {
            (Some(a), Some(b)) => Some(both_matches(a, b)),
            _ => None,
        }
    }
}

/// How a field of a pattern matches: there is a field of that name and it has a value, which
/// matches the pattern of the field or, if there is none, is bound to the name.
pub open spec fn variable_matched(
    variable: PatternVariableView,
    fields: Seq<FieldView>,
) -> Option<PatternMatchView>
    decreases variable,
{
    match named_field(fields, variable.name) {
        Some(field) => match field.value {
            Some(value) => match variable.value {
                Some(pattern) => matched(pattern, value),
                None => Some(binding_match(variable.name, value)),
            },
            None => None,
        },
        None => None,
    }
}

/// How the items of a list match as many patterns.
pub open spec fn entries_matched(patterns: Seq<PatternView>, entries: Seq<ListEntryView>) -> Option<
    PatternMatchView,
>
    decreases patterns,
{
    if patterns.len() == 0 {
        Some(plain_match())
    } else {
        match (
            entries_matched(patterns.drop_last(), entries),
            match entries[patterns.len() - 1].value {
                Some(value) => matched(patterns[patterns.len() - 1], value),
                None => None,
            },
        ) {
            (Some(a), Some(b)) => Some(both_matches(a, b)),
            _ => None,
        }
    }
}

proof fn lemma_both_matches(a: PatternMatchView, b: PatternMatchView, c: PatternMatchView)
    ensures
        both_matches(both_matches(a, b), c) == both_matches(a, both_matches(b, c)),
        both_matches(a, plain_match()) == a,
        both_matches(plain_match(), a) == a,
{
    assert(both_matches(both_matches(a, b), c) =~= both_matches(a, both_matches(b, c)));
    assert(both_matches(a, plain_match()) =~= a);
    assert(both_matches(plain_match(), a) =~= a);
}

/// What a comparison leaves behind, where it starts from what earlier ones found.
pub open spec fn extended(
    found: Option<PatternMatchView>,
    before: PatternMatchView,
    ok: bool,
    after: PatternMatchView,
) -> bool {
    match found {
        Some(m) => ok && after == both_matches(before, m),
        None => !ok,
    }
}

/// The first field of a name.
pub fn find_field<'a>(fields: &'a Vec<Field>, name: &str) -> (r: Option<&'a Field>)
    ensures
        match r {
            Some(field) => fields@.contains(*field) && named_field(field_seq(fields@), name@)
                == Some(field@),
            None => named_field(field_seq(fields@), name@) is None,
        },
{
    let ghost all = field_seq(fields@);
    proof {
        lemma_field_seq(fields@);
        assert(all.skip(0) =~= all);
    }
    let mut i: usize = 0;
    while i < fields.len()
        invariant
            i <= fields@.len(),
            all == field_seq(fields@),
            all.len() == fields@.len(),
            forall|j: int| 0 <= j < fields@.len() ==> #[trigger] all[j] == fields@[j]@,
            named_field(all, name@) == named_field(all.skip(i as int), name@),
        decreases fields@.len() - i,
    {
        assert(all.skip(i as int)[0] == fields@[i as int]@);
        assert(all.skip(i as int).skip(1) =~= all.skip(i + 1));
        if text_eq(fields[i].name.as_str(), name) {
            assert(fields@.contains(fields@[i as int]));
            return Some(&fields[i]);
        }
        i += 1;
    }
    None
}

impl PatternMatch {
    fn bind(&mut self, name: &String, value: &Value)
        ensures
            final(self)@ == both_matches(old(self)@, binding_match(name@, value@)),
    {
        let ghost before = self@;
        let ghost map = self.bindings@;
        let copy = value.clone();
        self.bindings.insert(name.clone(), copy);
        proof {
            lemma_insert_values(map, name@, copy, |x: Value| x@);
            assert(self@ =~= both_matches(before, binding_match(name@, value@)));
        }
    }
}

fn match_literal(literal: &Literal, value: &Value, out: &mut PatternMatch) -> (r: bool)
    ensures
        extended(literal_matched(literal@, value@), old(out)@, r, final(out)@),
{
    let ghost before = out@;
    proof {
        lemma_both_matches(before, before, before);
    }
    match (literal, value) {
        (Literal::Number(a), Value::Number(b)) => {
            out.numbers.push((*a, *b));
            proof {
                assert(out@ =~= both_matches(
                    before,
                    PatternMatchView { bindings: Map::empty(), numbers: seq![(*a, *b)] },
                ));
            }
            true
        },
        (Literal::Tag(a), Value::Tag(b)) => text_eq(a.as_str(), b.as_str()),
        (Literal::Text(a), Value::Text(b)) => text_eq(a.as_str(), b.as_str()),
        _ => false,
    }
}

fn match_into(pattern: &Pattern, value: &Value, out: &mut PatternMatch) -> (r: bool)
    ensures
        extended(matched(pattern@, value@), old(out)@, r, final(out)@),
    decreases pattern,
{
    proof {
        lemma_both_matches(out@, out@, out@);
    }
    match pattern {
        Pattern::WildCard => true,
        Pattern::Alias { name } => {
            out.bind(name, value);
            true
        },
        Pattern::Literal(literal) => match_literal(literal, value, out),
        Pattern::TaggedObject { tag, variables } => match value {
            Value::TaggedObject { tag: found, fields } => text_eq(found.as_str(), tag.as_str())
                && match_fields(variables, fields, out),
            _ => false,
        },
        Pattern::Object { variables } => match value {
            Value::Object { fields } => match_fields(variables, fields, out),
            Value::TaggedObject { fields, .. } => match_fields(variables, fields, out),
            _ => false,
        },
        Pattern::List { items } => match value {
            Value::List { items: entries } => entries.len() == items.len() && match_entries(
                items,
                entries,
                out,
            ),
            _ => false,
        },
        Pattern::MapEntries => false,
    }
}

fn match_fields(variables: &Vec<PatternVariable>, fields: &Vec<Field>, out: &mut PatternMatch) -> (r:
    bool)
    ensures
        extended(
            fields_matched(pattern_variable_seq(variables@), field_seq(fields@)),
            old(out)@,
            r,
            final(out)@,
        ),
    decreases variables,
{
    let ghost wanted = pattern_variable_seq(variables@);
    let ghost given = field_seq(fields@);
    let ghost before = out@;
    proof {
        lemma_pattern_variable_seq(variables@);
        lemma_both_matches(before, before, before);
    }
    let mut i: usize = 0;
    while i < variables.len()
        invariant
            i <= variables@.len(),
            before == old(out)@,
            wanted == pattern_variable_seq(variables@),
            given == field_seq(fields@),
            wanted.len() == variables@.len(),
            forall|j: int| 0 <= j < variables@.len() ==> #[trigger] wanted[j] == variables@[j]@,
            extended(fields_matched(wanted.take(i as int), given), before, true, out@),
        decreases variables@.len() - i,
    {
        let variable = &variables[i];
        let ghost now = out@;
        proof {
            assert(wanted.take(i + 1).drop_last() =~= wanted.take(i as int));
            assert(wanted.take(i + 1)[i as int] == variable@);
            lemma_stuck_fields(wanted, given, i + 1);
            lemma_both_matches(
                before,
                fields_matched(wanted.take(i as int), given)->0,
                match variable_matched(variable@, given) {
                    Some(m) => m,
                    None => before,
                },
            );
        }
        match find_field(fields, variable.name.as_str()) {
            Some(field) => match &field.value {
                Some(value) => match &variable.value {
                    Some(pattern) => {
                        if !match_into(pattern, value, out) {
                            return false;
                        }
                    },
                    None => out.bind(&variable.name, value),
                },
                None => {
                    return false;
                },
            },
            None => {
                return false;
            },
        }
        i += 1;
    }
    assert(wanted.take(i as int) =~= wanted);
    true
}

fn match_entries(patterns: &Vec<Pattern>, entries: &Vec<ListEntry>, out: &mut PatternMatch) -> (r:
    bool)
    requires
        patterns@.len() == entries@.len(),
    ensures
        extended(
            entries_matched(pattern_seq(patterns@), list_entry_seq(entries@)),
            old(out)@,
            r,
            final(out)@,
        ),
    decreases patterns,
{
    let ghost wanted = pattern_seq(patterns@);
    let ghost given = list_entry_seq(entries@);
    let ghost before = out@;
    proof {
        lemma_pattern_seq(patterns@);
        lemma_list_entry_seq(entries@);
        lemma_both_matches(before, before, before);
    }
    let mut i: usize = 0;
    while i < patterns.len()
        invariant
            i <= patterns@.len(),
            patterns@.len() == entries@.len(),
            before == old(out)@,
            wanted == pattern_seq(patterns@),
            given == list_entry_seq(entries@),
            wanted.len() == patterns@.len(),
            given.len() == entries@.len(),
            forall|j: int| 0 <= j < patterns@.len() ==> #[trigger] wanted[j] == patterns@[j]@,
            forall|j: int| 0 <= j < entries@.len() ==> #[trigger] given[j] == entries@[j]@,
            extended(entries_matched(wanted.take(i as int), given), before, true, out@),
        decreases patterns@.len() - i,
    {
        proof {
            assert(wanted.take(i + 1).drop_last() =~= wanted.take(i as int));
            assert(wanted.take(i + 1)[i as int] == patterns@[i as int]@);
            assert(given[i as int] == entries@[i as int]@);
            lemma_stuck_entries(wanted, given, i + 1);
        }
        match &entries[i].value {
            Some(value) => {
                proof {
                    lemma_both_matches(
                        before,
                        entries_matched(wanted.take(i as int), given)->0,
                        match matched(wanted[i as int], value@) {
                            Some(m) => m,
                            None => before,
                        },
                    );
                }
                if !match_into(&patterns[i], value, out) {
                    return false;
                }
            },
            None => {
                return false;
            },
        }
        i += 1;
    }
    assert(wanted.take(i as int) =~= wanted);
    true
}

/// Where some of the fields do not match, all together do not.
proof fn lemma_stuck_fields(variables: Seq<PatternVariableView>, fields: Seq<FieldView>, n: int)
    requires
        0 <= n <= variables.len(),
    ensures
        fields_matched(variables.take(n), fields) is None ==> fields_matched(
            variables,
            fields,
        ) is None,
    decreases variables.len(),
{
    if n < variables.len() {
        assert(variables.drop_last().take(n) =~= variables.take(n));
        lemma_stuck_fields(variables.drop_last(), fields, n);
    } else {
        assert(variables.take(n) =~= variables);
    }
}

/// Where some of the items do not match, all together do not.
proof fn lemma_stuck_entries(patterns: Seq<PatternView>, entries: Seq<ListEntryView>, n: int)
    requires
        0 <= n <= patterns.len(),
    ensures
        entries_matched(patterns.take(n), entries) is None ==> entries_matched(
            patterns,
            entries,
        ) is None,
    decreases patterns.len(),
{
    if n < patterns.len() {
        assert(patterns.drop_last().take(n) =~= patterns.take(n));
        lemma_stuck_entries(patterns.drop_last(), entries, n);
    } else {
        assert(patterns.take(n) =~= patterns);
    }
}

/// The value of an optional match.
pub open spec fn opt_match(m: Option<PatternMatch>) -> Option<PatternMatchView> {
    match m {
        Some(x) => Some(x@),
        None => None,
    }
}

/// Compares a value with a pattern. The value matches if there is a result and the numbers in
/// each pair of it are equal.
pub fn match_pattern(pattern: &Pattern, value: &Value) -> (r: Option<PatternMatch>)
    ensures
        opt_match(r) == matched(pattern@, value@),
{
    let mut out = PatternMatch { bindings: TextMap::new(), numbers: Vec::new() };
    assert(out@ =~= plain_match());
    if match_into(pattern, value, &mut out) {
        proof {
            lemma_both_matches(matched(pattern@, value@)->0, plain_match(), plain_match());
        }
        Some(out)
    } else {
        None
    }
}

} // verus!
