//! What passes through actors as values arrive: persisted variables, held states, texts put
//! together of parts, and lists that are appended to.
use crate::fields::opt_value;
use crate::plan::{
    ActorContext, EvaluationContext, ListBindingOperation, PersistenceKey, RecordedCall,
};
use crate::plan_view::RecordedCallView;
use crate::reactions::{call_name, lemma_call_names_differ};
use crate::text::{opt_str, opt_text, text_eq};
use crate::value::{Value, ValueView, clone_opt_value};
use crate::values::text_seq;
use vstd::prelude::*;
use vstd::string::*;

verus! {

/// The form of a stored value.
#[derive(Debug, PartialEq, Eq)]
pub enum StoredForm {
    Text,
    Number,
    Bool,
    Null,
    Object { keys: Vec<String> },
    List,
}

/// The mathematical value of a [`StoredForm`].
#[verifier::ext_equal]
pub enum StoredFormView {
    Text,
    Number,
    Bool,
    Null,
    Object { keys: Seq<Seq<char>> },
    List,
}

impl View for StoredForm {
    type V = StoredFormView;

    open spec fn view(&self) -> StoredFormView {
        match self {
            StoredForm::Text => StoredFormView::Text,
            StoredForm::Number => StoredFormView::Number,
            StoredForm::Bool => StoredFormView::Bool,
            StoredForm::Null => StoredFormView::Null,
            StoredForm::Object { keys } => StoredFormView::Object { keys: text_seq(keys@) },
            StoredForm::List => StoredFormView::List,
        }
    }
}

/// Whether a variable takes a stored value back: a plain one, or a tag. Objects are made by the
/// program, and a list out of the storage would have no link to what changes it.
pub open spec fn restorable(form: StoredFormView) -> bool {
    match form {
        StoredFormView::Text | StoredFormView::Number | StoredFormView::Bool
        | StoredFormView::Null => true,
        StoredFormView::Object { keys } => keys == seq!["_tag"@],
        StoredFormView::List => false,
    }
}

/// Whether a variable takes a stored value back.
pub fn is_restorable(form: &StoredForm) -> (r: bool)
    ensures
        r == restorable(form@),
{
    match form {
        StoredForm::Text | StoredForm::Number | StoredForm::Bool | StoredForm::Null => true,
        StoredForm::Object { keys } => {
            let r = keys.len() == 1 && text_eq(keys[0].as_str(), "_tag");
            proof {
                if r {
                    assert(text_seq(keys@) =~= seq!["_tag"@]);
                } else if text_seq(keys@) == seq!["_tag"@] {
                    assert(text_seq(keys@).len() == 1);
                    assert(text_seq(keys@)[0] == keys@[0]@);
                    assert(seq!["_tag"@][0] == "_tag"@);
                }
            }
            r
        },
        StoredForm::List => false,
    }
}

/// Whether a variable saves a value: texts, numbers and tags.
pub open spec fn savable(value: ValueView) -> bool {
    value is Text || value is Number || value is Tag
}

/// Whether a variable saves a value.
pub fn is_savable(value: &Value) -> (r: bool)
    ensures
        r == savable(value@),
{
    match value {
        Value::Text(_) | Value::Number(_) | Value::Tag(_) => true,
        _ => false,
    }
}

/// How far a persisted variable is.
#[derive(Debug, Clone, Copy, PartialEq, Eq, Structural)]
pub enum PersistenceState {
    LoadingStored,
    SkipFirstSource,
    ForwardingSource,
}

/// How a persisted variable starts. In the body of HOLD, where values are processed one after
/// the other, nothing is loaded: the state is what is kept there.
pub open spec fn first_state(sequential: bool) -> PersistenceState {
    if sequential {
        PersistenceState::ForwardingSource
    } else {
        PersistenceState::LoadingStored
    }
}

/// How a persisted variable starts.
pub fn begin_persistence(context: &ActorContext) -> (r: PersistenceState)
    ensures
        r == first_state(context@.sequential_processing),
{
    if context.sequential_processing {
        PersistenceState::ForwardingSource
    } else {
        PersistenceState::LoadingStored
    }
}

/// The form of a stored value, if there is one.
pub open spec fn opt_form(stored: Option<StoredForm>) -> Option<StoredFormView> {
    match stored {
        Some(form) => Some(form@),
        None => None,
    }
}

/// How a variable goes on once it is known what is stored: if that is taken back, the first
/// value of the source is skipped.
pub open spec fn loaded_state(stored: Option<StoredFormView>) -> PersistenceState {
    match stored {
        Some(form) => if restorable(form) {
            PersistenceState::SkipFirstSource
        } else {
            PersistenceState::ForwardingSource
        },
        None => PersistenceState::ForwardingSource,
    }
}

/// What a variable does with a value of its source: whether it emits the value, and whether it
/// saves it.
#[derive(Debug, Clone, Copy, PartialEq, Eq, Structural)]
pub struct PersistenceStep {
    pub emit: bool,
    pub save: bool,
}

impl PersistenceState {
    /// Takes note of what is stored. The result says whether the stored value is emitted.
    pub fn load(&mut self, stored: &Option<StoredForm>) -> (r: bool)
        requires
            *old(self) == PersistenceState::LoadingStored,
        ensures
            *final(self) == loaded_state(opt_form(*stored)),
            r == (loaded_state(opt_form(*stored)) == PersistenceState::SkipFirstSource),
    {
        let restored = match stored {
            Some(form) => is_restorable(form),
            None => false,
        };
        *self = if restored {
            PersistenceState::SkipFirstSource
        } else {
            PersistenceState::ForwardingSource
        };
        restored
    }

    /// Takes a value of the source. All are emitted, and saved where they are plain, but for the
    /// one that a stored value stands for.
    pub fn receive(&mut self, value: &Value) -> (r: PersistenceStep)
        requires
            *old(self) != PersistenceState::LoadingStored,
        ensures
            *final(self) == PersistenceState::ForwardingSource,
            r.emit == (*old(self) == PersistenceState::ForwardingSource),
            r.save == (r.emit && savable(value@)),
    {
        let emit = match *self {
            PersistenceState::ForwardingSource => true,
            _ => false,
        };
        *self = PersistenceState::ForwardingSource;
        PersistenceStep { emit, save: emit && is_savable(value) }
    }
}

/// What a variable emits of the values of its source.
pub open spec fn forwarded(state: PersistenceState, source: Seq<ValueView>) -> Seq<ValueView>
    decreases source.len(),
{
    if source.len() == 0 {
        Seq::empty()
    } else {
        let rest = forwarded(PersistenceState::ForwardingSource, source.skip(1));
        if state == PersistenceState::ForwardingSource {
            seq![source[0]] + rest
        } else {
            rest
        }
    }
}

/// What a variable saves of the values of its source.
pub open spec fn saved(state: PersistenceState, source: Seq<ValueView>) -> Seq<ValueView> {
    forwarded(state, source).filter(|v: ValueView| savable(v))
}

/// A variable with nothing to take back emits all that its source does; one that takes a value
/// back emits that one in place of the first value of the source.
pub proof fn lemma_persisted_values(state: PersistenceState, source: Seq<ValueView>)
    ensures
        state == PersistenceState::ForwardingSource ==> forwarded(state, source) == source,
        state == PersistenceState::SkipFirstSource && source.len() > 0 ==> forwarded(state, source)
            == source.skip(1),
        source.len() == 0 ==> forwarded(state, source) == source,
    decreases source.len(),
{
    if source.len() == 0 {
        assert(source =~= Seq::empty());
    } else {
        lemma_persisted_values(PersistenceState::ForwardingSource, source.skip(1));
        assert(seq![source[0]] + source.skip(1) =~= source);
    }
}

/// A held state: what the body sees, what is emitted last, what is stored, and whether an input
/// has come yet.
#[derive(Debug, PartialEq, Eq)]
pub struct HeldState {
    pub state: Option<Value>,
    pub output: Option<Value>,
    pub stored: Option<Value>,
    pub first_input: bool,
}

/// The mathematical value of a [`HeldState`].
#[verifier::ext_equal]
pub struct HeldStateView {
    pub state: Option<ValueView>,
    pub output: Option<ValueView>,
    pub stored: Option<ValueView>,
    pub first_input: bool,
}

impl View for HeldState {
    type V = HeldStateView;

    open spec fn view(&self) -> HeldStateView {
        HeldStateView {
            state: opt_value(self.state),
            output: opt_value(self.output),
            stored: opt_value(self.stored),
            first_input: self.first_input,
        }
    }
}

/// A held state before any input: the stored value, if there is one, is the state.
pub open spec fn held_start(stored: Option<ValueView>) -> HeldStateView {
    HeldStateView { state: stored, output: None, stored, first_input: true }
}

/// A held state after a value that becomes the state, is emitted and is stored.
pub open spec fn held_value(held: HeldStateView, value: ValueView) -> HeldStateView {
    HeldStateView { state: Some(value), output: Some(value), stored: Some(value), ..held }
}

/// A held state after an input: it sets the state, but for the first one where a value is
/// stored, in place of which the stored value is emitted.
pub open spec fn held_input(held: HeldStateView, value: ValueView) -> HeldStateView {
    if held.first_input && held.stored is Some {
        HeldStateView { output: held.stored, first_input: false, ..held }
    } else {
        held_value(HeldStateView { first_input: false, ..held }, value)
    }
}

impl HeldState {
    /// A held state before any input.
    pub fn new(stored: Option<Value>) -> (r: Self)
        ensures
            r@ == held_start(opt_value(stored)),
    {
        let state = clone_opt_value(&stored);
        HeldState { state, output: None, stored, first_input: true }
    }

    /// Takes an input.
    pub fn input(&mut self, value: &Value)
        ensures
            final(self)@ == held_input(old(self)@, value@),
    {
        let first = self.first_input;
        self.first_input = false;
        if first && self.stored.is_some() {
            self.output = clone_opt_value(&self.stored);
        } else {
            self.update(value);
        }
    }

    /// Takes a value of the body.
    pub fn update(&mut self, value: &Value)
        ensures
            final(self)@ == held_value(old(self)@, value@),
    {
        self.state = Some(value.clone());
        self.output = Some(value.clone());
        self.stored = Some(value.clone());
    }
}

/// What happens to a held state.
pub enum HeldEvent {
    Input(ValueView),
    Update(ValueView),
}

/// A held state after one thing has happened to it.
pub open spec fn held_step(held: HeldStateView, event: HeldEvent) -> HeldStateView {
    match event {
        HeldEvent::Input(value) => held_input(held, value),
        HeldEvent::Update(value) => held_value(held, value),
    }
}

/// A held state after all that has happened to it.
pub open spec fn held_run(held: HeldStateView, events: Seq<HeldEvent>) -> HeldStateView
    decreases events.len(),
{
    if events.len() == 0 {
        held
    } else {
        held_step(held_run(held, events.drop_last()), events.last())
    }
}

/// After anything has happened, what is emitted last is the state and is stored.
pub proof fn lemma_held_in_step(stored: Option<ValueView>, events: Seq<HeldEvent>)
    ensures
        ({
            let held = held_run(held_start(stored), events);
            &&& held.state == held.stored
            &&& events.len() > 0 ==> held.output is Some && held.output == held.state
        }),
    decreases events.len(),
{
    if events.len() > 0 {
        lemma_held_in_step(stored, events.drop_last());
    }
}

/// A program that is started again goes on where it was: the first input to a held state emits
/// what was emitted last, and the body sees the state as it was.
pub proof fn lemma_held_survives_restart(
    stored: Option<ValueView>,
    events: Seq<HeldEvent>,
    input: ValueView,
)
    requires
        events.len() > 0,
    ensures
        ({
            let before = held_run(held_start(stored), events);
            let after = held_input(held_start(before.stored), input);
            &&& after.output == before.output
            &&& after.state == before.state
            &&& after.stored == before.stored
        }),
{
    lemma_held_in_step(stored, events);
}

/// What a value adds to a text: itself if it is a text or a tag, and for a number its text.
pub open spec fn value_text(value: ValueView, number: Seq<char>) -> Option<Seq<char>> {
    match value {
        ValueView::Text(text) => Some(text),
        ValueView::Tag(tag) => Some(tag),
        ValueView::Number(_) => Some(number),
        _ => None,
    }
}

/// What a value adds to a text; `number` is the text of the value where it is a number.
pub fn part_text(value: &Value, number: &str) -> (r: Option<String>)
    ensures
        opt_text(r) == value_text(value@, number@),
{
    match value {
        Value::Text(text) => Some(text.clone()),
        Value::Tag(tag) => Some(tag.clone()),
        Value::Number(_) => Some(number.to_owned()),
        _ => None,
    }
}

/// The latest value of a part of a text: none yet, one without a text, or a text.
#[derive(Debug, PartialEq, Eq)]
pub enum PartValue {
    Missing,
    Textless,
    Text(String),
}

/// The mathematical value of a [`PartValue`].
#[verifier::ext_equal]
pub enum PartValueView {
    Missing,
    Textless,
    Text(Seq<char>),
}

impl View for PartValue {
    type V = PartValueView;

    open spec fn view(&self) -> PartValueView {
        match self {
            PartValue::Missing => PartValueView::Missing,
            PartValue::Textless => PartValueView::Textless,
            PartValue::Text(text) => PartValueView::Text(text@),
        }
    }
}

/// The parts of a text, with their latest values.
#[derive(Debug, PartialEq, Eq)]
pub struct TextCombiner {
    pub parts: Vec<PartValue>,
}

impl View for TextCombiner {
    type V = Seq<PartValueView>;

    open spec fn view(&self) -> Seq<PartValueView> {
        self.parts@.map_values(|x: PartValue| x@)
    }
}

/// The texts of parts, one after the other.
pub open spec fn joined_part_texts(parts: Seq<PartValueView>) -> Seq<char>
    decreases parts.len(),
{
    if parts.len() == 0 {
        Seq::empty()
    } else {
        joined_part_texts(parts.drop_last()) + match parts.last() {
            PartValueView::Text(text) => text,
            _ => Seq::empty(),
        }
    }
}

/// The text of the parts, once each of them has a value.
pub open spec fn combined_text(parts: Seq<PartValueView>) -> Option<Seq<char>> {
    if exists|i: int| 0 <= i < parts.len() && (#[trigger] parts[i]) is Missing {
        None
    } else {
        Some(joined_part_texts(parts))
    }
}

/// A part with a new value.
pub open spec fn part_value(text: Option<Seq<char>>) -> PartValueView {
    match text {
        Some(t) => PartValueView::Text(t),
        None => PartValueView::Textless,
    }
}

impl TextCombiner {
    /// Parts without values.
    pub fn new(count: usize) -> (r: Self)
        ensures
            r@ == Seq::new(count as nat, |i: int| PartValueView::Missing),
    {
        let mut parts: Vec<PartValue> = Vec::new();
        while parts.len() < count
            invariant
                parts@.len() <= count,
                forall|i: int| 0 <= i < parts@.len() ==> (#[trigger] parts@[i]) is Missing,
            decreases count - parts@.len(),
        {
            parts.push(PartValue::Missing);
        }
        let r = TextCombiner { parts };
        assert(r@ =~= Seq::new(count as nat, |i: int| PartValueView::Missing));
        r
    }

    fn combined(&self) -> (r: Option<String>)
        ensures
            opt_text(r) == combined_text(self@),
    {
        let mut out = String::new();
        let mut i: usize = 0;
        assert(self@.take(0) =~= Seq::empty());
        assert(out@ =~= Seq::empty());
        while i < self.parts.len()
            invariant
                i <= self.parts@.len(),
                self@.len() == self.parts@.len(),
                forall|j: int| 0 <= j < i ==> !((#[trigger] self@[j]) is Missing),
                out@ == joined_part_texts(self@.take(i as int)),
            decreases self.parts@.len() - i,
        {
            proof {
                assert(self@[i as int] == self.parts@[i as int]@);
                assert(self@.take(i + 1).drop_last() =~= self@.take(i as int));
                assert(self@.take(i + 1).last() == self@[i as int]);
            }
            match &self.parts[i] {
                PartValue::Missing => {
                    return None;
                },
                PartValue::Textless => {
                    assert(out@ + Seq::<char>::empty() =~= out@);
                },
                PartValue::Text(text) => {
                    out.append(text.as_str());
                },
            }
            i += 1;
        }
        assert(self@.take(i as int) =~= self@);
        Some(out)
    }

    /// Takes a new value of a part, and gives the text of all parts once each of them has one.
    pub fn receive(&mut self, part: usize, text: Option<String>) -> (r: Option<String>)
        requires
            part < old(self)@.len(),
        ensures
            final(self)@ == old(self)@.update(part as int, part_value(opt_text(text))),
            opt_text(r) == combined_text(final(self)@),
    {
        let ghost before = self@;
        let ghost given = part_value(opt_text(text));
        let value = match text {
            Some(t) => PartValue::Text(t),
            None => PartValue::Textless,
        };
        self.parts.set(part, value);
        assert(self@ =~= before.update(part as int, given));
        self.combined()
    }
}

/// A change to a list that is appended to, by where it comes from.
#[derive(Debug, PartialEq, Eq)]
pub enum TaggedChange<C> {
    FromList(C),
    FromAppend(C),
    FromRestored(C),
}

/// The change itself.
pub open spec fn change_of<C>(tagged: TaggedChange<C>) -> C {
    match tagged {
        TaggedChange::FromList(change) => change,
        TaggedChange::FromAppend(change) => change,
        TaggedChange::FromRestored(change) => change,
    }
}

/// The changes to a list that is appended to. Until the list itself has said what it holds, what
/// is appended waits.
#[derive(Debug, PartialEq, Eq)]
pub struct AppendMerge<C> {
    pub started: bool,
    pub waiting: Vec<C>,
}

impl<C> View for AppendMerge<C> {
    type V = (bool, Seq<C>);

    open spec fn view(&self) -> (bool, Seq<C>) {
        (self.started, self.waiting@)
    }
}

/// What follows from a change: the changes that are emitted, and what is then known and waiting.
pub open spec fn merge_step<C>(state: (bool, Seq<C>), tagged: TaggedChange<C>) -> (
    Seq<C>,
    (bool, Seq<C>),
) {
    if state.0 {
        (seq![change_of(tagged)], state)
    } else if tagged is FromList {
        (seq![change_of(tagged)] + state.1, (true, Seq::empty()))
    } else {
        (Seq::empty(), (false, state.1.push(change_of(tagged))))
    }
}

impl<C> AppendMerge<C> {
    /// Nothing is known yet, and nothing waits.
    pub fn new() -> (r: Self)
        ensures
            r@ == (false, Seq::<C>::empty()),
    {
        let r = AppendMerge { started: false, waiting: Vec::new() };
        assert(r@.1 =~= Seq::<C>::empty());
        r
    }

    /// Takes a change, and gives those that are emitted for it.
    pub fn receive(&mut self, tagged: TaggedChange<C>) -> (r: Vec<C>)
        ensures
            merge_step(old(self)@, tagged) == (r@, final(self)@),
    {
        let ghost before = self@;
        let from_list = match &tagged {
            TaggedChange::FromList(_) => true,
            _ => false,
        };
        let change = match tagged {
            TaggedChange::FromList(change) => change,
            TaggedChange::FromAppend(change) => change,
            TaggedChange::FromRestored(change) => change,
        };
        let mut out: Vec<C> = Vec::new();
        if self.started || from_list {
            out.push(change);
            if !self.started {
                self.started = true;
                out.append(&mut self.waiting);
                assert(self.waiting@ =~= Seq::empty());
            }
        } else {
            self.waiting.push(change);
        }
        proof {
            assert(out@ =~= merge_step(before, tagged).0);
            assert(self@ == merge_step(before, tagged).1);
        }
        out
    }
}

/// What is emitted for changes that come one after the other.
pub open spec fn merge_run<C>(state: (bool, Seq<C>), changes: Seq<TaggedChange<C>>) -> (
    Seq<C>,
    (bool, Seq<C>),
)
    decreases changes.len(),
{
    if changes.len() == 0 {
        (Seq::empty(), state)
    } else {
        let before = merge_run(state, changes.drop_last());
        let step = merge_step(before.1, changes.last());
        (before.0 + step.0, step.1)
    }
}

/// The changes themselves.
pub open spec fn changes_of<C>(changes: Seq<TaggedChange<C>>) -> Seq<C> {
    changes.map_values(|c: TaggedChange<C>| change_of(c))
}

/// No change is lost and none is made up: those that were emitted and those that wait are the
/// ones that came in. Nothing waits once the list has said what it holds, and nothing is emitted
/// before that.
pub proof fn lemma_merge_keeps_changes<C>(changes: Seq<TaggedChange<C>>)
    ensures
        ({
            let done = merge_run((false, Seq::empty()), changes);
            &&& done.0.to_multiset().add(done.1.1.to_multiset()) == changes_of(
                changes,
            ).to_multiset()
            &&& done.1.0 == (exists|i: int|
                0 <= i < changes.len() && (#[trigger] changes[i]) is FromList)
            &&& done.1.0 ==> done.1.1 == Seq::<C>::empty()
            &&& !done.1.0 ==> done.0 == Seq::<C>::empty()
        }),
    decreases changes.len(),
{
    broadcast use vstd::seq_lib::group_to_multiset_ensures;

    let done = merge_run((false, Seq::empty()), changes);
    if changes.len() == 0 {
        assert(changes_of(changes) =~= Seq::empty());
        assert(done.0.to_multiset().add(done.1.1.to_multiset()) =~= changes_of(
            changes,
        ).to_multiset());
    } else {
        let front = changes.drop_last();
        let last = changes.last();
        let before = merge_run((false, Seq::empty()), front);
        let step = merge_step(before.1, last);
        lemma_merge_keeps_changes(front);
        assert(changes_of(changes) =~= changes_of(front).push(change_of(last)));
        vstd::seq_lib::lemma_multiset_commutative(before.0, step.0);
        if before.1.0 {
            assert(seq![change_of(last)] =~= Seq::<C>::empty().push(change_of(last)));
        } else if last is FromList {
            vstd::seq_lib::lemma_multiset_commutative(seq![change_of(last)], before.1.1);
            assert(seq![change_of(last)] =~= Seq::<C>::empty().push(change_of(last)));
            assert(changes[changes.len() - 1] is FromList);
        } else {
            assert(before.0 + step.0 =~= Seq::empty());
        }
        assert(done.0.to_multiset().add(done.1.1.to_multiset()) =~= changes_of(
            changes,
        ).to_multiset());
        assert(done.1.0 == (exists|i: int|
            0 <= i < changes.len() && (#[trigger] changes[i]) is FromList)) by {
            if exists|i: int| 0 <= i < front.len() && (#[trigger] front[i]) is FromList {
                let i = choose|i: int| 0 <= i < front.len() && (#[trigger] front[i]) is FromList;
                assert(changes[i] is FromList);
            }
            if exists|i: int| 0 <= i < changes.len() && (#[trigger] changes[i]) is FromList {
                let i = choose|i: int|
                    0 <= i < changes.len() && (#[trigger] changes[i]) is FromList;
                if i < front.len() {
                    assert(front[i] is FromList);
                }
            }
        }
    }
}

/// The first change that is emitted is the first one of the list itself.
pub proof fn lemma_list_speaks_first<C>(changes: Seq<TaggedChange<C>>, n: int)
    requires
        0 <= n < changes.len(),
        changes[n] is FromList,
        forall|i: int| 0 <= i < n ==> !((#[trigger] changes[i]) is FromList),
    ensures
        ({
            let done = merge_run((false, Seq::empty()), changes);
            done.1.0 && done.0.len() > 0 && done.0[0] == change_of(changes[n])
        }),
    decreases changes.len(),
{
    let front = changes.drop_last();
    lemma_merge_keeps_changes(front);
    if n < changes.len() - 1 {
        assert(front[n] == changes[n]);
        assert forall|i: int| 0 <= i < n implies !((#[trigger] front[i]) is FromList) by {
            assert(changes[i] == front[i]);
        }
        lemma_list_speaks_first(front, n);
    } else {
        let before = merge_run((false, Seq::<C>::empty()), front);
        if before.1.0 {
            let i = choose|i: int| 0 <= i < front.len() && (#[trigger] front[i]) is FromList;
            assert(changes[i] == front[i]);
        }
    }
}

/// How the pass-through of a link setter is set up.
#[derive(Debug, Clone, Copy, PartialEq, Eq, Structural)]
pub enum PassThroughSetup {
    /// There is one already: the new forwarder is added to it.
    AddForwarder,
    /// There is none: the new one becomes known.
    Register,
    /// The connector is gone.
    Nothing,
}

/// How the pass-through of a link setter is set up, where `existing` says whether one was found
/// under its identity and its scope.
pub fn set_up_pass_through(ctx: &EvaluationContext, existing: bool) -> (r: PassThroughSetup)
    ensures
        r == (if !ctx@.pass_through_connector {
            PassThroughSetup::Nothing
        } else if existing {
            PassThroughSetup::AddForwarder
        } else {
            PassThroughSetup::Register
        }),
{
    if !ctx.try_pass_through_connector() {
        PassThroughSetup::Nothing
    } else if existing {
        PassThroughSetup::AddForwarder
    } else {
        PassThroughSetup::Register
    }
}

/// Where a value that is piped into a link setter goes.
#[derive(Debug, Clone, Copy, PartialEq, Eq, Structural)]
pub struct LinkDelivery {
    pub to_link: Option<u64>,
    pub to_existing: bool,
    pub to_own: bool,
}

/// Where a value that is piped into a link setter goes: to the link, if there is one, to the
/// pass-through that was found, if there is one, and to the setter's own. Once the scope around
/// is cancelled it goes nowhere, and no further one does.
pub fn deliver_to_link(
    scope_cancelled: bool,
    link: Option<u64>,
    existing: bool,
) -> (r: Option<LinkDelivery>)
    ensures
        r == (if scope_cancelled {
            None
        } else {
            Some(LinkDelivery { to_link: link, to_existing: existing, to_own: true })
        }),
{
    if scope_cancelled {
        None
    } else {
        Some(LinkDelivery { to_link: link, to_existing: existing, to_own: true })
    }
}

/// The identity under which a function with a transform keeps what it has done to a list: a
/// removal keeps what it has taken away, the others keep nothing.
pub fn binding_key(operation: ListBindingOperation, key: PersistenceKey) -> (r: Option<
    PersistenceKey,
>)
    ensures
        r == (if operation == ListBindingOperation::Remove {
            Some(key)
        } else {
            None
        }),
{
    match operation {
        ListBindingOperation::Remove => Some(key),
        _ => None,
    }
}

/// The form of the value that a JSON text denotes; none where the text is not JSON.
pub uninterp spec fn json_form(text: Seq<char>) -> Option<StoredFormView>;

/// `serde_json::from_str` into a `serde_json::Value`, of which the kind is told, and of an object
/// the keys. The form is a function of the text; which text has which form is left unsaid.
#[verifier::external_body]
fn read_json_form(text: &str) -> (r: Option<StoredForm>)
    ensures
        opt_form(r) == json_form(text@),
{
    match serde_json::from_str::<serde_json::Value>(text) {
        Ok(serde_json::Value::String(_)) => Some(StoredForm::Text),
        Ok(serde_json::Value::Number(_)) => Some(StoredForm::Number),
        Ok(serde_json::Value::Bool(_)) => Some(StoredForm::Bool),
        Ok(serde_json::Value::Null) => Some(StoredForm::Null),
        Ok(serde_json::Value::Array(_)) => Some(StoredForm::List),
        Ok(serde_json::Value::Object(fields)) => Some(
            StoredForm::Object { keys: fields.into_iter().map(|field| field.0).collect() },
        ),
        Err(_) => None,
    }
}

/// The form of what a storage holds as JSON, if it holds anything.
pub open spec fn stored_form(stored: Option<Seq<char>>) -> Option<StoredFormView> {
    match stored {
        Some(text) => json_form(text),
        None => None,
    }
}

/// Takes note of the JSON that a storage holds for a variable. The result says whether the
/// stored value is emitted. What is not JSON counts as not stored.
pub fn load_stored(state: &mut PersistenceState, stored: Option<&str>) -> (r: bool)
    requires
        *old(state) == PersistenceState::LoadingStored,
    ensures
        *final(state) == loaded_state(stored_form(opt_str(stored))),
        r == (loaded_state(stored_form(opt_str(stored))) == PersistenceState::SkipFirstSource),
{
    let form = match stored {
        Some(text) => read_json_form(text),
        None => None,
    };
    state.load(&form)
}

/// Whether the value at one place comes before the one at another: by its time, and of the same
/// time by its place.
pub open spec fn arrives_before(times: Seq<u64>, a: usize, b: usize) -> bool {
    times[a as int] < times[b as int] || (times[a as int] == times[b as int] && a < b)
}

/// Whether an order holds the first `n` places, each once, in the order of arrival.
pub open spec fn in_arrival_order(times: Seq<u64>, order: Seq<usize>, n: nat) -> bool {
    &&& order.len() == n
    &&& forall|i: int| 0 <= i < order.len() ==> (#[trigger] order[i]) < n
    &&& forall|i: int, j: int|
        0 <= i < j < order.len() ==> arrives_before(
            times,
            #[trigger] order[i],
            #[trigger] order[j],
        )
}

/// The order in which values that have come in together are handled: by their times, and those
/// of the same time as they came.
pub fn arrival_order(times: &Vec<u64>) -> (r: Vec<usize>)
    ensures
        in_arrival_order(times@, r@, times@.len()),
{
    let mut order: Vec<usize> = Vec::new();
    let mut n: usize = 0;
    while n < times.len()
        invariant
            n <= times@.len(),
            in_arrival_order(times@, order@, n as nat),
        decreases times@.len() - n,
    {
        let mut at: usize = order.len();
        while at > 0 && times[order[at - 1]] > times[n]
            invariant
                at <= order@.len(),
                n < times@.len(),
                in_arrival_order(times@, order@, n as nat),
                forall|i: int| at <= i < order@.len() ==>
                    times@[n as int] < times@[#[trigger] order@[i] as int],
            decreases at,
        {
            at = at - 1;
        }
        let ghost before = order@;
        order.insert(at, n);
        proof {
            assert(order@ == before.insert(at as int, n));
            assert forall|i: int| 0 <= i < order@.len() implies (#[trigger] order@[i]) < n + 1 by {
                if i < at {
                    assert(order@[i] == before[i]);
                } else if i > at {
                    assert(order@[i] == before[i - 1]);
                }
            }
            assert forall|i: int, j: int| 0 <= i < j < order@.len() implies arrives_before(
                times@,
                #[trigger] order@[i],
                #[trigger] order@[j],
            ) by {
                if j < at {
                    assert(arrives_before(times@, before[i], before[j]));
                } else if j == at {
                    assert(order@[i] == before[i]);
                    if i < at - 1 {
                        assert(arrives_before(times@, before[i], before[at - 1]));
                    }
                } else if i < at {
                    assert(arrives_before(times@, before[i], before[j - 1]));
                } else if i == at {
                    assert(order@[j] == before[j - 1]);
                } else {
                    assert(arrives_before(times@, before[i - 1], before[j - 1]));
                }
            }
        }
        n += 1;
    }
    order
}

/// The calls that made the items of a list, as they are kept. What could not be read counts as
/// no calls.
#[derive(Debug, PartialEq, Eq)]
pub struct CallLog {
    pub calls: Vec<RecordedCall>,
}

impl View for CallLog {
    type V = Seq<RecordedCallView>;

    open spec fn view(&self) -> Seq<RecordedCallView> {
        self.calls@.map_values(|x: RecordedCall| x@)
    }
}

impl CallLog {
    /// The calls that were kept, if they could be read.
    pub fn new(kept: Option<Vec<RecordedCall>>) -> (r: Self)
        ensures
            r@ == (match kept {
                Some(calls) => calls@.map_values(|x: RecordedCall| x@),
                None => Seq::empty(),
            }),
    {
        let r = match kept {
            Some(calls) => CallLog { calls },
            None => CallLog { calls: Vec::new() },
        };
        assert(kept is None ==> r@ =~= Seq::<RecordedCallView>::empty());
        r
    }

    /// Adds a call behind the others. All of them are then to be kept.
    pub fn record(&mut self, call: RecordedCall)
        ensures
            final(self)@ == old(self)@.push(call@),
    {
        let ghost before = self@;
        self.calls.push(call);
        assert(self@ =~= before.push(call@));
    }

    /// The number of calls, which is the number of the next one.
    pub fn next_number(&self) -> (r: u64)
        ensures
            r == self@.len() as u64,
    {
        self.calls.len() as u64
    }
}

/// Calls that are recorded get names of their own: the next one is not the name of any before.
pub proof fn lemma_recorded_names_differ(kept: nat, a: nat, b: nat)
    requires
        a != b,
    ensures
        call_name(kept + a) != call_name(kept + b),
{
    lemma_call_names_differ(kept + a, kept + b);
}

} // verus!
