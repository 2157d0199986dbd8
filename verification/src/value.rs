//! The values that programs compute.
use vstd::prelude::*;
use vstd::string::*;

verus! {

/// What an actor emits, with the current values of everything in it. A number is kept as the bits
/// of its floating point form.
#[allow(inconsistent_fields)]
#[derive(Debug, PartialEq, Eq)]
pub enum Value {
    Text(String),
    Number(u64),
    Tag(String),
    Object { fields: Vec<Field> },
    TaggedObject { tag: String, fields: Vec<Field> },
    List { items: Vec<ListEntry> },
}

/// A field of an object: its current value, if it has one, and the number of its link, if it is
/// one.
#[derive(Debug, PartialEq, Eq)]
pub struct Field {
    pub name: String,
    pub value: Option<Value>,
    pub link: Option<u64>,
}

/// An item of a list, with its current value if it has one.
#[derive(Debug, PartialEq, Eq)]
pub struct ListEntry {
    pub value: Option<Value>,
}

/// The mathematical value of a [`Value`].
#[allow(inconsistent_fields)]
#[verifier::ext_equal]
pub enum ValueView {
    Text(Seq<char>),
    Number(u64),
    Tag(Seq<char>),
    Object { fields: Seq<FieldView> },
    TaggedObject { tag: Seq<char>, fields: Seq<FieldView> },
    List { items: Seq<ListEntryView> },
}

pub open spec fn value_view(v: Value) -> ValueView
    decreases v,
{
    match v {
        Value::Text(a) => ValueView::Text(a@),
        Value::Number(a) => ValueView::Number(a),
        Value::Tag(a) => ValueView::Tag(a@),
        Value::Object { fields } => ValueView::Object {
            fields: field_seq(fields@),
        },
        Value::TaggedObject { tag, fields } => ValueView::TaggedObject {
            tag: tag@,
            fields: field_seq(fields@),
        },
        Value::List { items } => ValueView::List {
            items: list_entry_seq(items@),
        },
    }
}

impl View for Value {
    type V = ValueView;

    open spec fn view(&self) -> ValueView {
        value_view(*self)
    }
}

/// The mathematical value of a [`Field`].
#[verifier::ext_equal]
pub struct FieldView {
    pub name: Seq<char>,
    pub value: Option<ValueView>,
    pub link: Option<u64>,
}

pub open spec fn field_view(v: Field) -> FieldView
    decreases v,
{
    FieldView {
        name: v.name@,
        value: match v.value { Some(x) => Some(value_view(x)), None => None },
        link: v.link,
    }
}

/// The values of the elements of a sequence.
pub open spec fn field_seq(s: Seq<Field>) -> Seq<FieldView>
    decreases s,
{
    Seq::new(
        s.len(),
        |i: int|
            if 0 <= i < s.len() {
                field_view(s[i])
            } else {
                arbitrary()
            },
    )
}

/// The values of the elements of a sequence, one by one.
pub proof fn lemma_field_seq(s: Seq<Field>)
    ensures
        field_seq(s) == s.map_values(|x: Field| x@),
        field_seq(s).len() == s.len(),
        forall|i: int| 0 <= i < s.len() ==> #[trigger] field_seq(s)[i] == s[i]@,
{
    assert(field_seq(s) =~= s.map_values(|x: Field| x@));
}

impl View for Field {
    type V = FieldView;

    open spec fn view(&self) -> FieldView {
        field_view(*self)
    }
}

/// The mathematical value of a [`ListEntry`].
#[verifier::ext_equal]
pub struct ListEntryView {
    pub value: Option<ValueView>,
}

pub open spec fn list_entry_view(v: ListEntry) -> ListEntryView
    decreases v,
{
    ListEntryView {
        value: match v.value { Some(x) => Some(value_view(x)), None => None },
    }
}

/// The values of the elements of a sequence.
pub open spec fn list_entry_seq(s: Seq<ListEntry>) -> Seq<ListEntryView>
    decreases s,
{
    Seq::new(
        s.len(),
        |i: int|
            if 0 <= i < s.len() {
                list_entry_view(s[i])
            } else {
                arbitrary()
            },
    )
}

/// The values of the elements of a sequence, one by one.
pub proof fn lemma_list_entry_seq(s: Seq<ListEntry>)
    ensures
        list_entry_seq(s) == s.map_values(|x: ListEntry| x@),
        list_entry_seq(s).len() == s.len(),
        forall|i: int| 0 <= i < s.len() ==> #[trigger] list_entry_seq(s)[i] == s[i]@,
{
    assert(list_entry_seq(s) =~= s.map_values(|x: ListEntry| x@));
}

impl View for ListEntry {
    type V = ListEntryView;

    open spec fn view(&self) -> ListEntryView {
        list_entry_view(*self)
    }
}

pub(crate) fn clone_vec_field(s: &Vec<Field>) -> (r: Vec<Field>)
    ensures
        r@.len() == s@.len(),
        forall|i: int| 0 <= i < s@.len() ==> (#[trigger] r@[i])@ == s@[i]@,
        field_seq(r@) == field_seq(s@),
        r@.map_values(|x: Field| x@) == s@.map_values(|x: Field| x@),
    decreases s,
{
    let mut out: Vec<Field> = Vec::new();
    let mut i: usize = 0;
    while i < s.len()
        invariant
            i == out@.len(),
            i <= s@.len(),
            forall|j: int| 0 <= j < i ==> (#[trigger] out@[j])@ == s@[j]@,
        decreases s@.len() - i,
    {
        out.push(s[i].clone());
        i = i + 1;
    }
    proof {
        assert(field_seq(out@) =~= field_seq(s@));
    }
    out
}

pub(crate) fn clone_vec_list_entry(s: &Vec<ListEntry>) -> (r: Vec<ListEntry>)
    ensures
        r@.len() == s@.len(),
        forall|i: int| 0 <= i < s@.len() ==> (#[trigger] r@[i])@ == s@[i]@,
        list_entry_seq(r@) == list_entry_seq(s@),
        r@.map_values(|x: ListEntry| x@) == s@.map_values(|x: ListEntry| x@),
    decreases s,
{
    let mut out: Vec<ListEntry> = Vec::new();
    let mut i: usize = 0;
    while i < s.len()
        invariant
            i == out@.len(),
            i <= s@.len(),
            forall|j: int| 0 <= j < i ==> (#[trigger] out@[j])@ == s@[j]@,
        decreases s@.len() - i,
    {
        out.push(s[i].clone());
        i = i + 1;
    }
    proof {
        assert(list_entry_seq(out@) =~= list_entry_seq(s@));
    }
    out
}

pub(crate) fn clone_opt_value(s: &Option<Value>) -> (r: Option<Value>)
    ensures
        match (*s, r) { (Some(x), Some(y)) => x@ == y@, (None, None) => true, _ => false },
    decreases s,
{
    match s {
        Some(x) => Some(x.clone()),
        None => None,
    }
}

impl Clone for Value {
    fn clone(&self) -> (r: Self)
        ensures
            r@ == self@,
        decreases self,
    {
        match self {
            Value::Text(a) => Value::Text(a.clone()),
            Value::Number(a) => Value::Number(*a),
            Value::Tag(a) => Value::Tag(a.clone()),
            Value::Object { fields } => Value::Object { fields: clone_vec_field(fields) },
            Value::TaggedObject { tag, fields } => Value::TaggedObject {
                tag: tag.clone(),
                fields: clone_vec_field(fields),
            },
            Value::List { items } => Value::List { items: clone_vec_list_entry(items) },
        }
    }
}

impl Clone for Field {
    fn clone(&self) -> (r: Self)
        ensures
            r@ == self@,
        decreases self,
    {
        let r = Field {
            name: self.name.clone(),
            value: clone_opt_value(&self.value),
            link: self.link,
        };
        proof {
        }
        r
    }
}

impl Clone for ListEntry {
    fn clone(&self) -> (r: Self)
        ensures
            r@ == self@,
        decreases self,
    {
        let r = ListEntry {
            value: clone_opt_value(&self.value),
        };
        proof {
        }
        r
    }
}

} // verus!
