//! Ways through the fields of values, and the links at their ends.
use crate::contexts::{span_name, span_text};
use crate::expression_view::AliasView;
use crate::matching::{find_field, named_field, object_fields};
use crate::plan::{AliasRoot, EvaluationContext};
use crate::plan_view::EvaluationContextView;
use crate::semantic_clone::clone_vec_text;
use crate::static_expression::Alias;
use crate::value::{Field, Value, ValueView};
use crate::values::text_seq;
use vstd::prelude::*;

verus! {

/// The value at the end of a path of fields. There is none where the path leads through
/// something that is no object, or where a field or its value is missing.
pub open spec fn field_at(value: ValueView, path: Seq<Seq<char>>) -> Option<ValueView>
    decreases path.len(),
{
    if path.len() == 0 {
        Some(value)
    } else {
        match object_fields(value) {
            Some(fields) => match named_field(fields, path[0]) {
                Some(field) => match field.value {
                    Some(inner) => field_at(inner, path.skip(1)),
                    None => None,
                },
                None => None,
            },
            None => None,
        }
    }
}

/// The number of the link at the end of a path of fields. There is none where the path is empty
/// or does not lead to a link.
pub open spec fn link_at(value: ValueView, path: Seq<Seq<char>>) -> Option<u64> {
    if path.len() == 0 {
        None
    } else {
        match field_at(value, path.drop_last()) {
            Some(owner) => match object_fields(owner) {
                Some(fields) => match named_field(fields, path.last()) {
                    Some(field) => field.link,
                    None => None,
                },
                None => None,
            },
            None => None,
        }
    }
}

/// The value of an optional value.
pub open spec fn opt_value(value: Option<Value>) -> Option<ValueView> {
    match value {
        Some(x) => Some(x@),
        None => None,
    }
}

/// The value of an optional value that is borrowed.
pub open spec fn opt_value_ref(value: Option<&Value>) -> Option<ValueView> {
    match value {
        Some(x) => Some(x@),
        None => None,
    }
}

fn field_of<'a>(value: &'a Value, name: &str) -> (r: Option<&'a Field>)
    ensures
        match r {
            Some(field) => object_fields(value@) is Some && named_field(
                object_fields(value@)->0,
                name@,
            ) == Some(field@),
            None => object_fields(value@) is None || named_field(
                object_fields(value@)->0,
                name@,
            ) is None,
        },
{
    match value {
        Value::Object { fields } => find_field(fields, name),
        Value::TaggedObject { fields, .. } => find_field(fields, name),
        _ => None,
    }
}

fn walk<'a>(value: &'a Value, path: &Vec<String>, count: usize) -> (r: Option<&'a Value>)
    requires
        count <= path@.len(),
    ensures
        opt_value_ref(r) == field_at(value@, text_seq(path@).take(count as int)),
{
    let ghost names = text_seq(path@).take(count as int);
    let mut current: &'a Value = value;
    let mut i: usize = 0;
    assert(names.skip(0) =~= names);
    while i < count
        invariant
            i <= count <= path@.len(),
            names == text_seq(path@).take(count as int),
            field_at(value@, names) == field_at(current@, names.skip(i as int)),
        decreases count - i,
    {
        proof {
            assert(names.skip(i as int)[0] == path@[i as int]@);
            assert(names.skip(i as int).skip(1) =~= names.skip(i + 1));
        }
        match field_of(current, path[i].as_str()) {
            Some(field) => match &field.value {
                Some(inner) => {
                    current = inner;
                },
                None => {
                    return None;
                },
            },
            None => {
                return None;
            },
        }
        i += 1;
    }
    Some(current)
}

/// The value at the end of a path of fields.
pub fn extract_field_path(value: &Value, path: &Vec<String>) -> (r: Option<Value>)
    ensures
        opt_value(r) == field_at(value@, text_seq(path@)),
{
    assert(text_seq(path@).take(path@.len() as int) =~= text_seq(path@));
    match walk(value, path, path.len()) {
        Some(found) => Some(found.clone()),
        None => None,
    }
}

/// The link at the end of a path of fields.
pub fn extract_link(value: &Value, path: &Vec<String>) -> (r: Option<u64>)
    ensures
        r == link_at(value@, text_seq(path@)),
{
    let ghost names = text_seq(path@);
    if path.len() == 0 {
        return None;
    }
    let last: usize = path.len() - 1;
    proof {
        assert(names.drop_last() =~= names.take(last as int));
        assert(names.last() == path@[last as int]@);
    }
    match walk(value, path, last) {
        Some(owner) => match field_of(owner, path[last].as_str()) {
            Some(field) => field.link,
            None => None,
        },
        None => None,
    }
}

/// Where the way to a link starts, and the fields along it. A name alone leads to no link.
pub open spec fn link_path(alias: AliasView, ctx: EvaluationContextView) -> Option<
    (AliasRoot, Seq<Seq<char>>),
> {
    let c = ctx.actor_context;
    match alias {
        AliasView::WithPassed { extra_parts } => match c.passed {
            Some(passed) => Some((AliasRoot::Actor(passed), extra_parts)),
            None => None,
        },
        AliasView::WithoutPassed { parts, referenced_span } => if parts.len() <= 1 {
            None
        } else if c.parameters.contains_key(parts[0]) {
            Some((AliasRoot::Actor(c.parameters[parts[0]]), parts.skip(1)))
        } else {
            match referenced_span {
                Some(span) => if c.object_locals.contains_key(span_name(span)) {
                    Some((AliasRoot::Actor(c.object_locals[span_name(span)]), parts.skip(1)))
                } else if ctx.reference_connector {
                    Some((AliasRoot::Reference(span), parts.skip(1)))
                } else {
                    None
                },
                None => None,
            }
        },
    }
}

fn rest_of(parts: &Vec<String>) -> (r: Vec<String>)
    requires
        parts@.len() > 0,
    ensures
        text_seq(r@) == text_seq(parts@).skip(1),
{
    let mut out: Vec<String> = Vec::new();
    let mut i: usize = 1;
    while i < parts.len()
        invariant
            1 <= i <= parts@.len(),
            out@.len() == i - 1,
            forall|j: int| 0 <= j < out@.len() ==> (#[trigger] out@[j])@ == parts@[j + 1]@,
        decreases parts@.len() - i,
    {
        out.push(parts[i].clone());
        i += 1;
    }
    assert(text_seq(out@) =~= text_seq(parts@).skip(1));
    out
}

/// Where the way to the link that an alias names starts, and the fields along it.
pub fn get_link_path_from_alias(alias: &Alias, ctx: &EvaluationContext) -> (r: Option<
    (AliasRoot, Vec<String>),
>)
    ensures
        match r {
            Some(x) => link_path(alias@, ctx@) == Some((x.0, text_seq(x.1@))),
            None => link_path(alias@, ctx@) is None,
        },
{
    let c = &ctx.actor_context;
    match alias {
        Alias::WithPassed { extra_parts } => match c.passed {
            Some(passed) => Some((AliasRoot::Actor(passed), clone_vec_text(extra_parts))),
            None => None,
        },
        Alias::WithoutPassed { parts, referenced_span } => {
            if parts.len() <= 1 {
                return None;
            }
            assert(alias@->parts[0] == parts@[0]@);
            if let Some(actor) = c.parameters.get(parts[0].as_str()) {
                return Some((AliasRoot::Actor(*actor), rest_of(parts)));
            }
            match referenced_span {
                Some(span) => {
                    if let Some(actor) = c.object_locals.get(span_text(*span).as_str()) {
                        return Some((AliasRoot::Actor(*actor), rest_of(parts)));
                    }
                    if ctx.try_reference_connector() {
                        Some((AliasRoot::Reference(*span), rest_of(parts)))
                    } else {
                        None
                    }
                },
                None => None,
            }
        },
    }
}

/// A path is walked field by field.
pub proof fn lemma_field_path_in_steps(value: ValueView, path: Seq<Seq<char>>, rest: Seq<Seq<char>>)
    ensures
        field_at(value, path + rest) == match field_at(value, path) {
            Some(inner) => field_at(inner, rest),
            None => None,
        },
    decreases path.len(),
{
    if path.len() == 0 {
        assert(path + rest =~= rest);
    } else {
        assert((path + rest).skip(1) =~= path.skip(1) + rest);
        assert((path + rest)[0] == path[0]);
        match object_fields(value) {
            Some(fields) => match named_field(fields, path[0]) {
                Some(field) => match field.value {
                    Some(inner) => {
                        lemma_field_path_in_steps(inner, path.skip(1), rest);
                    },
                    None => {},
                },
                None => {},
            },
            None => {},
        }
    }
}

} // verus!
