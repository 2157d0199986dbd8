//! The runtime: it keeps the state of the active program, handles events and facts, and says
//! what is to be rendered.
use std::collections::HashMap;
use crate::abi::{BufferRange, bytes_at, packed, unpacked};
use crate::actions::{
    Store, StoreView, action_step, apply_action, payload_text, scalar_set, set_input_text,
    set_scalar,
};
use crate::derived::{refresh_derived_scalars, refreshed};
use crate::render::{materialize_node, tree};
use crate::scene::{
    EventPortId, NodeId, UiEventBatch, UiEventKind, UiEventView, UiFact, UiFactBatch, UiFactKind,
    UiFactKindView, UiFactView, event_keydown_text, event_primary_payload, keydown_text,
};
use crate::semantic_clone::clone_map_i64;
use crate::semantic_ir::{
    ObjectListItem, RuntimeModel, SemanticAction, SemanticFactKind, SemanticNode, SemanticProgram,
    StateRuntimeModel, bootstrap_runtime_scaffold, or_none, status_view,
};
use crate::semantic_view::{
    ObjectListItemView, RuntimeModelView, SemanticActionView, SemanticProgramView,
};
use crate::text::{opt_text, text_eq};
use crate::text_map::{
    TextMap, entry_pairs, keys_increase, lemma_insert_values, lemma_pairs_map_has,
};
use crate::values::{StateView, bool_int, bool_number, text_at, text_or_empty};
use vstd::prelude::*;
use vstd::std_specs::hash::*;
use vstd::string::*;

verus! {

broadcast use group_hash_axioms;

/// A place where the host hands in events, with what they do.
#[derive(Debug, PartialEq, Eq)]
pub struct ExecEventBinding {
    pub port: EventPortId,
    pub action: Option<SemanticAction>,
    pub source_binding: Option<String>,
}

/// The mathematical value of an [`ExecEventBinding`].
pub struct ExecEventBindingView {
    pub port: EventPortId,
    pub action: Option<SemanticActionView>,
    pub source_binding: Option<Seq<char>>,
}

/// The view of an optional action.
pub open spec fn opt_action(action: Option<SemanticAction>) -> Option<SemanticActionView> {
    match action {
        Some(a) => Some(a@),
        None => None,
    }
}

impl View for ExecEventBinding {
    type V = ExecEventBindingView;

    open spec fn view(&self) -> ExecEventBindingView {
        ExecEventBindingView {
            port: self.port,
            action: opt_action(self.action),
            source_binding: opt_text(self.source_binding),
        }
    }
}

/// The scalar that keeps a fact of a rendered element.
#[derive(Debug, PartialEq, Eq)]
pub struct ExecFactBinding {
    pub id: NodeId,
    pub kind: SemanticFactKind,
    pub binding: String,
}

/// The mathematical value of an [`ExecFactBinding`].
pub struct ExecFactBindingView {
    pub id: NodeId,
    pub kind: SemanticFactKind,
    pub binding: Seq<char>,
}

impl View for ExecFactBinding {
    type V = ExecFactBindingView;

    open spec fn view(&self) -> ExecFactBindingView {
        ExecFactBindingView { id: self.id, kind: self.kind, binding: self.binding@ }
    }
}

/// The element that an event port is attached to.
#[derive(Debug, Clone, Copy, PartialEq, Eq, Structural)]
pub struct AttachedPort {
    pub id: NodeId,
    pub port: EventPortId,
}

/// A program whose elements and event ports have got their identities.
#[derive(Debug, PartialEq, Eq)]
pub struct ExecProgram {
    pub semantic_root: SemanticNode,
    pub runtime: RuntimeModel,
    pub attached_ports: Vec<AttachedPort>,
    pub event_bindings: Vec<ExecEventBinding>,
    pub fact_bindings: Vec<ExecFactBinding>,
}

/// What the host is to render.
#[derive(Debug, PartialEq, Eq)]
pub enum RenderRequest {
    /// Nothing: what is shown is up to date.
    Nothing,
    /// The active program. The identities given to its elements and ports are handed back
    /// to [`WasmProRuntime::commit_program`].
    Program(SemanticProgram),
    /// The status view. The commands that show it are handed back to
    /// [`WasmProRuntime::queue_commands`].
    Status(SemanticProgram),
}

/// The mathematical value of a [`RenderRequest`].
pub enum RenderRequestView {
    Nothing,
    Program(SemanticProgramView),
    Status(SemanticProgramView),
}

impl View for RenderRequest {
    type V = RenderRequestView;

    open spec fn view(&self) -> RenderRequestView {
        match self {
            RenderRequest::Nothing => RenderRequestView::Nothing,
            RenderRequest::Program(p) => RenderRequestView::Program(p@),
            RenderRequest::Status(p) => RenderRequestView::Status(p@),
        }
    }
}

/// The runtime of one program.
#[derive(Debug)]
pub struct WasmProRuntime {
    memory: Vec<u8>,
    pending_commands: Option<BufferRange>,
    event_history: Vec<UiEventBatch>,
    fact_history: Vec<UiFactBatch>,
    source_len: usize,
    external_functions: usize,
    persistence_enabled: bool,
    focused: bool,
    active_program: Option<SemanticProgram>,
    active_actions: HashMap<u128, SemanticAction>,
    active_input_bindings: HashMap<u128, String>,
    active_input_nodes: HashMap<u128, String>,
    active_hovered_bindings: HashMap<u128, String>,
    active_focused_bindings: HashMap<u128, String>,
    store: Store,
}

/// The mathematical value of a [`WasmProRuntime`].
#[verifier::ext_equal]
pub struct RuntimeView {
    pub memory: Seq<u8>,
    pub pending_commands: Option<BufferRange>,
    pub event_history: Seq<Seq<UiEventView>>,
    pub fact_history: Seq<Seq<UiFactView>>,
    pub source_len: nat,
    pub external_functions: nat,
    pub persistence_enabled: bool,
    pub focused: bool,
    pub active_program: Option<SemanticProgramView>,
    pub actions: Map<u128, SemanticActionView>,
    pub input_bindings: Map<u128, Seq<char>>,
    pub input_nodes: Map<u128, Seq<char>>,
    pub hovered_bindings: Map<u128, Seq<char>>,
    pub focused_bindings: Map<u128, Seq<char>>,
    pub store: StoreView,
}

impl View for WasmProRuntime {
    type V = RuntimeView;

    closed spec fn view(&self) -> RuntimeView {
        RuntimeView {
            memory: self.memory@,
            pending_commands: self.pending_commands,
            event_history: self.event_history@.map_values(|x: UiEventBatch| x@),
            fact_history: self.fact_history@.map_values(|x: UiFactBatch| x@),
            source_len: self.source_len as nat,
            external_functions: self.external_functions as nat,
            persistence_enabled: self.persistence_enabled,
            focused: self.focused,
            active_program: match self.active_program {
                Some(p) => Some(p@),
                None => None,
            },
            actions: self.active_actions@.map_values(|x: SemanticAction| x@),
            input_bindings: self.active_input_bindings@.map_values(|x: String| x@),
            input_nodes: self.active_input_nodes@.map_values(|x: String| x@),
            hovered_bindings: self.active_hovered_bindings@.map_values(|x: String| x@),
            focused_bindings: self.active_focused_bindings@.map_values(|x: String| x@),
            store: self.store@,
        }
    }
}

/// The state without anything in it.
pub open spec fn empty_state() -> StateView {
    StateView {
        scalar_values: Map::empty(),
        text_values: Map::empty(),
        text_lists: Map::empty(),
        object_lists: Map::empty(),
        input_texts: Map::empty(),
        derived_scalars: Seq::empty(),
    }
}

/// The state that a program starts with.
pub open spec fn initial_state(model: RuntimeModelView) -> StateView {
    match model {
        RuntimeModelView::Static => empty_state(),
        RuntimeModelView::Scalars(scalars) => StateView {
            scalar_values: scalars.values,
            ..empty_state()
        },
        RuntimeModelView::State(state) => state,
    }
}

/// Whether `m` is the greatest identity of an item, or zero when there are no items.
pub open spec fn is_max_id(lists: Map<Seq<char>, Seq<ObjectListItemView>>, m: u64) -> bool {
    &&& forall|k: Seq<char>, i: int|
        lists.contains_key(k) && 0 <= i < lists[k].len() ==> (#[trigger] lists[k][i]).id <= m
    &&& m == 0 || exists|k: Seq<char>, i: int|
        lists.contains_key(k) && 0 <= i < lists[k].len() && (#[trigger] lists[k][i]).id == m
}

/// Whether `n` is the identity after the greatest one.
pub open spec fn is_next_id(lists: Map<Seq<char>, Seq<ObjectListItemView>>, n: u64) -> bool {
    exists|m: u64| #[trigger] is_max_id(lists, m) && n == m.wrapping_add(1)
}

/// The active program with its dynamic parts resolved.
pub open spec fn materialized(r: RuntimeView) -> SemanticProgramView
    recommends
        r.active_program is Some,
{
    let program = r.active_program->0;
    SemanticProgramView {
        root: tree(r.store.state, None, program.root, Seq::empty(), None),
        runtime: program.runtime,
    }
}

/// The name of what happened to an element.
pub open spec fn event_kind_name(kind: UiEventKind) -> Seq<char> {
    match kind {
        UiEventKind::Click => "Click"@,
        UiEventKind::DoubleClick => "DoubleClick"@,
        UiEventKind::Input => "Input"@,
        UiEventKind::Change => "Change"@,
        UiEventKind::KeyDown => "KeyDown"@,
        UiEventKind::Focus => "Focus"@,
        UiEventKind::Blur => "Blur"@,
    }
}

/// The last event, in words.
pub open spec fn last_event(history: Seq<Seq<UiEventView>>) -> Option<Seq<char>> {
    if history.len() == 0 || history.last().len() == 0 {
        None
    } else {
        let event = history.last().last();
        Some(event_kind_name(event.kind) + " payload="@ + or_none(event.payload))
    }
}

/// How a truth value is written in a summary.
pub open spec fn flag_name(flag: bool) -> Seq<char> {
    if flag {
        "true"@
    } else {
        "false"@
    }
}

/// A fact, in words.
pub open spec fn fact_summary(kind: UiFactKindView) -> Seq<char> {
    match kind {
        UiFactKindView::Hovered(hovered) => "Hovered("@ + flag_name(hovered) + ")"@,
        UiFactKindView::Focused(focused) => "Focused("@ + flag_name(focused) + ")"@,
        UiFactKindView::DraftText(text) => "DraftText("@ + text + ")"@,
        UiFactKindView::LayoutSize { width, height } => "LayoutSize("@ + width + "x"@ + height
            + ")"@,
        UiFactKindView::Custom { name, value } => "Custom("@ + name + "="@ + value + ")"@,
    }
}

/// The last fact, in words.
pub open spec fn last_fact(history: Seq<Seq<UiFactView>>) -> Option<Seq<char>> {
    if history.len() == 0 || history.last().len() == 0 {
        None
    } else {
        Some(fact_summary(history.last().last().kind))
    }
}

/// The status view.
pub open spec fn status(r: RuntimeView) -> SemanticProgramView {
    status_view(
        r.source_len,
        r.external_functions,
        r.persistence_enabled,
        r.event_history.len(),
        r.fact_history.len(),
        last_event(r.event_history),
        last_fact(r.fact_history),
        r.store.draft_text,
        r.focused,
    )
}

/// What the first `n` events do to the store, and whether they change anything: each does
/// what the action at its port does.
pub open spec fn events_step(
    s: StoreView,
    actions: Map<u128, SemanticActionView>,
    events: Seq<UiEventView>,
    n: nat,
) -> (StoreView, bool)
    decreases n,
{
    if n == 0 {
        (s, false)
    } else {
        let before = events_step(s, actions, events, (n - 1) as nat);
        let event = events[n - 1];
        if actions.contains_key(event.target.0) {
            let after = action_step(before.0, actions[event.target.0], event);
            (after.0, before.1 || after.1)
        } else {
            before
        }
    }
}

/// The runtime after a text was typed at an event port.
pub open spec fn typed(r: RuntimeView, target: EventPortId, text: Seq<char>) -> RuntimeView {
    let input_texts = if r.input_bindings.contains_key(target.0) {
        r.store.state.input_texts.insert(r.input_bindings[target.0], text)
    } else {
        r.store.state.input_texts
    };
    RuntimeView {
        store: StoreView {
            state: StateView { input_texts, ..r.store.state },
            draft_text: text,
            next_object_item_id: r.store.next_object_item_id,
        },
        ..r
    }
}

/// What the last event of a batch does to the text being typed and to the focus.
pub open spec fn event_effects(r: RuntimeView, events: Seq<UiEventView>) -> RuntimeView {
    if events.len() == 0 {
        r
    } else {
        let event = events.last();
        match event.kind {
            UiEventKind::Input => typed(r, event.target, payload_text(event)),
            UiEventKind::Change => typed(r, event.target, payload_text(event)),
            UiEventKind::KeyDown => match keydown_text(event) {
                Some(text) => typed(r, event.target, text),
                None => r,
            },
            UiEventKind::Focus => RuntimeView { focused: true, ..r },
            UiEventKind::Blur => RuntimeView { focused: false, ..r },
            _ => r,
        }
    }
}

/// The runtime after a batch of events, and whether their actions changed anything.
pub open spec fn dispatched(r: RuntimeView, events: Seq<UiEventView>) -> (RuntimeView, bool) {
    let acted = if r.active_program is Some {
        events_step(r.store, r.actions, events, events.len())
    } else {
        (r.store, false)
    };
    let store = if acted.1 {
        StoreView { state: refreshed(acted.0.state), ..acted.0 }
    } else {
        acted.0
    };
    let after = event_effects(RuntimeView { store, ..r }, events);
    (RuntimeView { event_history: r.event_history.push(events), ..after }, acted.1)
}

/// What a fact does, and whether it changes anything.
pub open spec fn fact_step(r: RuntimeView, fact: UiFactView) -> (RuntimeView, bool) {
    match fact.kind {
        UiFactKindView::DraftText(text) => {
            let input_texts = r.store.state.input_texts;
            let drafted = r.store.draft_text != text;
            if r.input_nodes.contains_key(fact.id.0) {
                let binding = r.input_nodes[fact.id.0];
                (
                    RuntimeView {
                        store: StoreView {
                            state: StateView {
                                input_texts: input_texts.insert(binding, text),
                                ..r.store.state
                            },
                            draft_text: text,
                            next_object_item_id: r.store.next_object_item_id,
                        },
                        ..r
                    },
                    drafted || text_at(input_texts, binding) != text,
                )
            } else {
                (RuntimeView { store: StoreView { draft_text: text, ..r.store }, ..r }, drafted)
            }
        },
        UiFactKindView::Focused(focused) => {
            let moved = r.focused != focused;
            if r.focused_bindings.contains_key(fact.id.0) {
                let after = scalar_set(
                    r.store,
                    r.focused_bindings[fact.id.0],
                    bool_int(focused),
                );
                (RuntimeView { focused, store: after.0, ..r }, moved || after.1)
            } else {
                (RuntimeView { focused, ..r }, moved)
            }
        },
        UiFactKindView::Hovered(hovered) => {
            if r.hovered_bindings.contains_key(fact.id.0) {
                let after = scalar_set(
                    r.store,
                    r.hovered_bindings[fact.id.0],
                    bool_int(hovered),
                );
                (RuntimeView { store: after.0, ..r }, after.1)
            } else {
                (r, false)
            }
        },
        _ => (r, false),
    }
}

/// What the first `n` facts do, one after the other.
pub open spec fn facts_step(r: RuntimeView, facts: Seq<UiFactView>, n: nat) -> (RuntimeView, bool)
    decreases n,
{
    if n == 0 {
        (r, false)
    } else {
        let before = facts_step(r, facts, (n - 1) as nat);
        let after = fact_step(before.0, facts[n - 1]);
        (after.0, before.1 || after.1)
    }
}

/// The actions at the event ports. Of several bindings of one port the last counts.
pub open spec fn port_actions(bindings: Seq<ExecEventBindingView>) -> Map<u128, SemanticActionView>
    decreases bindings.len(),
{
    if bindings.len() == 0 {
        Map::empty()
    } else {
        let before = port_actions(bindings.drop_last());
        match bindings.last().action {
            Some(action) => before.insert(bindings.last().port.0, action),
            None => before,
        }
    }
}

/// The sources of the texts typed at the event ports.
pub open spec fn port_sources(bindings: Seq<ExecEventBindingView>) -> Map<u128, Seq<char>>
    decreases bindings.len(),
{
    if bindings.len() == 0 {
        Map::empty()
    } else {
        let before = port_sources(bindings.drop_last());
        match bindings.last().source_binding {
            Some(source) => before.insert(bindings.last().port.0, source),
            None => before,
        }
    }
}

/// The elements that the event ports are attached to.
pub open spec fn port_nodes(ports: Seq<AttachedPort>) -> Map<u128, u128>
    decreases ports.len(),
{
    if ports.len() == 0 {
        Map::empty()
    } else {
        port_nodes(ports.drop_last()).insert(ports.last().port.0, ports.last().id.0)
    }
}

/// The sources of the texts typed into the elements.
pub open spec fn node_sources(
    bindings: Seq<ExecEventBindingView>,
    nodes: Map<u128, u128>,
) -> Map<u128, Seq<char>>
    decreases bindings.len(),
{
    if bindings.len() == 0 {
        Map::empty()
    } else {
        let before = node_sources(bindings.drop_last(), nodes);
        let last = bindings.last();
        if last.source_binding is Some && nodes.contains_key(last.port.0) {
            before.insert(nodes[last.port.0], last.source_binding->0)
        } else {
            before
        }
    }
}

/// The scalars that keep facts of the given kind.
pub open spec fn fact_scalars(
    bindings: Seq<ExecFactBindingView>,
    kind: SemanticFactKind,
) -> Map<u128, Seq<char>>
    decreases bindings.len(),
{
    if bindings.len() == 0 {
        Map::empty()
    } else {
        let before = fact_scalars(bindings.drop_last(), kind);
        if bindings.last().kind == kind {
            before.insert(bindings.last().id.0, bindings.last().binding)
        } else {
            before
        }
    }
}

/// The views of event bindings.
pub open spec fn exec_event_seq(bindings: Seq<ExecEventBinding>) -> Seq<ExecEventBindingView> {
    bindings.map_values(|x: ExecEventBinding| x@)
}

/// The views of fact bindings.
pub open spec fn exec_fact_seq(bindings: Seq<ExecFactBinding>) -> Seq<ExecFactBindingView> {
    bindings.map_values(|x: ExecFactBinding| x@)
}

/// The runtime with the event ports and facts of a rendered program.
pub open spec fn bound(r: RuntimeView, exec: ExecProgram) -> RuntimeView {
    let events = exec_event_seq(exec.event_bindings@);
    let facts = exec_fact_seq(exec.fact_bindings@);
    RuntimeView {
        actions: port_actions(events),
        input_bindings: port_sources(events),
        input_nodes: node_sources(events, port_nodes(exec.attached_ports@)),
        hovered_bindings: fact_scalars(facts, SemanticFactKind::Hovered),
        focused_bindings: fact_scalars(facts, SemanticFactKind::Focused),
        ..r
    }
}

/// The range that the next `len` bytes of the memory take.
pub open spec fn next_range(memory: Seq<u8>, len: nat) -> BufferRange {
    BufferRange {
        start: (memory.len() % 0x1_0000_0000) as u32,
        len: (len % 0x1_0000_0000) as u32,
    }
}

/// The runtime after commands were queued.
pub open spec fn queued(r: RuntimeView, bytes: Seq<u8>) -> RuntimeView {
    RuntimeView {
        memory: r.memory + bytes,
        pending_commands: Some(next_range(r.memory, bytes.len())),
        ..r
    }
}

/// The runtime after the pending commands were taken, and their range as one number.
pub open spec fn taken(r: RuntimeView) -> (RuntimeView, u64) {
    (
        RuntimeView { pending_commands: None, ..r },
        match r.pending_commands {
            Some(range) => packed(range),
            None => 0,
        },
    )
}

fn event_kind_text(kind: UiEventKind) -> (r: &'static str)
    ensures
        r@ == event_kind_name(kind),
{
    match kind {
        UiEventKind::Click => "Click",
        UiEventKind::DoubleClick => "DoubleClick",
        UiEventKind::Input => "Input",
        UiEventKind::Change => "Change",
        UiEventKind::KeyDown => "KeyDown",
        UiEventKind::Focus => "Focus",
        UiEventKind::Blur => "Blur",
    }
}

fn flag_text(flag: bool) -> (r: &'static str)
    ensures
        r@ == flag_name(flag),
{
    if flag {
        "true"
    } else {
        "false"
    }
}

fn fact_text(kind: &UiFactKind) -> (r: String)
    ensures
        r@ == fact_summary(kind@),
{
    match kind {
        UiFactKind::Hovered(hovered) => {
            let mut out = "Hovered(".to_owned();
            out.append(flag_text(*hovered));
            out.append(")");
            out
        },
        UiFactKind::Focused(focused) => {
            let mut out = "Focused(".to_owned();
            out.append(flag_text(*focused));
            out.append(")");
            out
        },
        UiFactKind::DraftText(text) => {
            let mut out = "DraftText(".to_owned();
            out.append(text.as_str());
            out.append(")");
            out
        },
        UiFactKind::LayoutSize { width, height } => {
            let mut out = "LayoutSize(".to_owned();
            out.append(width.as_str());
            out.append("x");
            out.append(height.as_str());
            out.append(")");
            out
        },
        UiFactKind::Custom { name, value } => {
            let mut out = "Custom(".to_owned();
            out.append(name.as_str());
            out.append("=");
            out.append(value.as_str());
            out.append(")");
            out
        },
    }
}

/// The greatest identity of an item, or zero when there are no items.
fn max_item_id(lists: &TextMap<Vec<ObjectListItem>>) -> (r: u64)
    ensures
        is_max_id(
            lists@.map_values(|x: Vec<ObjectListItem>| x@.map_values(|x: ObjectListItem| x@)),
            r,
        ),
{
    proof {
        use_type_invariant(lists);
    }
    let ghost all = lists@.map_values(
        |x: Vec<ObjectListItem>| x@.map_values(|x: ObjectListItem| x@),
    );
    let mut max: u64 = 0;
    let mut i: usize = 0;
    while i < lists.entries.len()
        invariant
            i <= lists.entries@.len(),
            keys_increase(lists.entries@),
            all == lists@.map_values(
                |x: Vec<ObjectListItem>| x@.map_values(|x: ObjectListItem| x@),
            ),
            forall|n: int, k: int|
                0 <= n < i && 0 <= k < lists.entries@[n].1@.len() ==> (
                #[trigger] lists.entries@[n].1@[k]).id <= max,
            max == 0 || exists|k: Seq<char>, n: int|
                all.contains_key(k) && 0 <= n < all[k].len() && (#[trigger] all[k][n]).id == max,
        decreases lists.entries@.len() - i,
    {
        let mut j: usize = 0;
        while j < lists.entries[i].1.len()
            invariant
                i < lists.entries@.len(),
                j <= lists.entries@[i as int].1@.len(),
                keys_increase(lists.entries@),
                all == lists@.map_values(
                    |x: Vec<ObjectListItem>| x@.map_values(|x: ObjectListItem| x@),
                ),
                forall|n: int, k: int|
                    0 <= n < i && 0 <= k < lists.entries@[n].1@.len() ==> (
                    #[trigger] lists.entries@[n].1@[k]).id <= max,
                forall|k: int|
                    0 <= k < j ==> (#[trigger] lists.entries@[i as int].1@[k]).id <= max,
                max == 0 || exists|k: Seq<char>, n: int|
                    all.contains_key(k) && 0 <= n < all[k].len() && (#[trigger] all[k][n]).id
                        == max,
            decreases lists.entries@[i as int].1@.len() - j,
        {
            let id: u64 = lists.entries[i].1[j].id;
            if id > max {
                max = id;
                proof {
                    lemma_pairs_map_has(lists.entries@, i as int);
                    let key = lists.entries@[i as int].0@;
                    assert(all.contains_key(key));
                    assert(all[key][j as int].id == max);
                }
            }
            j = j + 1;
        }
        i = i + 1;
    }
    proof {
        assert forall|k: Seq<char>, n: int|
            all.contains_key(k) && 0 <= n < all[k].len() implies (#[trigger] all[k][n]).id
            <= max by {
            let pairs = entry_pairs(lists.entries@);
            let p = choose|p: int| 0 <= p < pairs.len() && (#[trigger] pairs[p]).0 == k;
            assert(pairs[p].0 == k);
            lemma_pairs_map_has(lists.entries@, p);
            assert(all[k][n] == lists.entries@[p].1@[n]@);
        }
    }
    max
}

fn empty_runtime_state() -> (r: StateRuntimeModel)
    ensures
        r@ == empty_state(),
{
    let r = StateRuntimeModel {
        scalar_values: TextMap::new(),
        text_values: TextMap::new(),
        text_lists: TextMap::new(),
        object_lists: TextMap::new(),
        input_texts: TextMap::new(),
        derived_scalars: Vec::new(),
    };
    proof {
        assert(r@ =~= empty_state());
    }
    r
}

fn starting_state(model: &RuntimeModel) -> (r: StateRuntimeModel)
    ensures
        r@ == initial_state(model@),
{
    match model {
        RuntimeModel::Static => empty_runtime_state(),
        RuntimeModel::Scalars(scalars) => {
            let mut state = empty_runtime_state();
            state.scalar_values = clone_map_i64(&scalars.values);
            state
        },
        RuntimeModel::State(state) => state.clone(),
    }
}

fn index_actions(bindings: &Vec<ExecEventBinding>) -> (r: HashMap<u128, SemanticAction>)
    ensures
        r@.map_values(|x: SemanticAction| x@) == port_actions(exec_event_seq(bindings@)),
{
    let ghost all = exec_event_seq(bindings@);
    let ghost f = |x: SemanticAction| x@;
    let mut out: HashMap<u128, SemanticAction> = HashMap::new();
    let mut i: usize = 0;
    proof {
        assert(all.take(0) =~= Seq::<ExecEventBindingView>::empty());
        assert(out@.map_values(f) =~= Map::<u128, SemanticActionView>::empty());
    }
    while i < bindings.len()
        invariant
            i <= bindings@.len(),
            all == exec_event_seq(bindings@),
            f == (|x: SemanticAction| x@),
            out@.map_values(f) == port_actions(all.take(i as int)),
        decreases bindings@.len() - i,
    {
        proof {
            assert(all.take(i + 1).drop_last() =~= all.take(i as int));
            assert(all.take(i + 1).last() == bindings@[i as int]@);
        }
        if let Some(action) = &bindings[i].action {
            let copy = action.clone();
            proof {
                lemma_insert_values(out@, bindings@[i as int].port.0, copy, f);
            }
            out.insert(bindings[i].port.0, copy);
        }
        i = i + 1;
    }
    proof {
        assert(all.take(i as int) =~= all);
    }
    out
}

fn index_sources(bindings: &Vec<ExecEventBinding>) -> (r: HashMap<u128, String>)
    ensures
        r@.map_values(|x: String| x@) == port_sources(exec_event_seq(bindings@)),
{
    let ghost all = exec_event_seq(bindings@);
    let ghost f = |x: String| x@;
    let mut out: HashMap<u128, String> = HashMap::new();
    let mut i: usize = 0;
    proof {
        assert(all.take(0) =~= Seq::<ExecEventBindingView>::empty());
        assert(out@.map_values(f) =~= Map::<u128, Seq<char>>::empty());
    }
    while i < bindings.len()
        invariant
            i <= bindings@.len(),
            all == exec_event_seq(bindings@),
            f == (|x: String| x@),
            out@.map_values(f) == port_sources(all.take(i as int)),
        decreases bindings@.len() - i,
    {
        proof {
            assert(all.take(i + 1).drop_last() =~= all.take(i as int));
            assert(all.take(i + 1).last() == bindings@[i as int]@);
        }
        if let Some(source) = &bindings[i].source_binding {
            let copy = source.clone();
            proof {
                lemma_insert_values(out@, bindings@[i as int].port.0, copy, f);
            }
            out.insert(bindings[i].port.0, copy);
        }
        i = i + 1;
    }
    proof {
        assert(all.take(i as int) =~= all);
    }
    out
}

fn index_ports(ports: &Vec<AttachedPort>) -> (r: HashMap<u128, u128>)
    ensures
        r@ == port_nodes(ports@),
{
    let mut out: HashMap<u128, u128> = HashMap::new();
    let mut i: usize = 0;
    proof {
        assert(ports@.take(0) =~= Seq::<AttachedPort>::empty());
    }
    while i < ports.len()
        invariant
            i <= ports@.len(),
            out@ == port_nodes(ports@.take(i as int)),
        decreases ports@.len() - i,
    {
        proof {
            assert(ports@.take(i + 1).drop_last() =~= ports@.take(i as int));
            assert(ports@.take(i + 1).last() == ports@[i as int]);
        }
        out.insert(ports[i].port.0, ports[i].id.0);
        i = i + 1;
    }
    proof {
        assert(ports@.take(i as int) =~= ports@);
    }
    out
}

fn index_node_sources(
    bindings: &Vec<ExecEventBinding>,
    nodes: &HashMap<u128, u128>,
) -> (r: HashMap<u128, String>)
    ensures
        r@.map_values(|x: String| x@) == node_sources(exec_event_seq(bindings@), nodes@),
{
    let ghost all = exec_event_seq(bindings@);
    let ghost f = |x: String| x@;
    let mut out: HashMap<u128, String> = HashMap::new();
    let mut i: usize = 0;
    proof {
        assert(all.take(0) =~= Seq::<ExecEventBindingView>::empty());
        assert(out@.map_values(f) =~= Map::<u128, Seq<char>>::empty());
    }
    while i < bindings.len()
        invariant
            i <= bindings@.len(),
            all == exec_event_seq(bindings@),
            f == (|x: String| x@),
            out@.map_values(f) == node_sources(all.take(i as int), nodes@),
        decreases bindings@.len() - i,
    {
        proof {
            assert(all.take(i + 1).drop_last() =~= all.take(i as int));
            assert(all.take(i + 1).last() == bindings@[i as int]@);
        }
        if let Some(source) = &bindings[i].source_binding {
            if let Some(node) = nodes.get(&bindings[i].port.0) {
                let copy = source.clone();
                proof {
                    lemma_insert_values(out@, *node, copy, f);
                }
                out.insert(*node, copy);
            }
        }
        i = i + 1;
    }
    proof {
        assert(all.take(i as int) =~= all);
    }
    out
}

fn index_facts(bindings: &Vec<ExecFactBinding>, kind: SemanticFactKind) -> (r: HashMap<
    u128,
    String,
>)
    ensures
        r@.map_values(|x: String| x@) == fact_scalars(exec_fact_seq(bindings@), kind),
{
    let ghost all = exec_fact_seq(bindings@);
    let ghost f = |x: String| x@;
    let mut out: HashMap<u128, String> = HashMap::new();
    let mut i: usize = 0;
    proof {
        assert(all.take(0) =~= Seq::<ExecFactBindingView>::empty());
        assert(out@.map_values(f) =~= Map::<u128, Seq<char>>::empty());
    }
    while i < bindings.len()
        invariant
            i <= bindings@.len(),
            all == exec_fact_seq(bindings@),
            f == (|x: String| x@),
            out@.map_values(f) == fact_scalars(all.take(i as int), kind),
        decreases bindings@.len() - i,
    {
        proof {
            assert(all.take(i + 1).drop_last() =~= all.take(i as int));
            assert(all.take(i + 1).last() == bindings@[i as int]@);
        }
        if bindings[i].kind == kind {
            let copy = bindings[i].binding.clone();
            proof {
                lemma_insert_values(out@, bindings@[i as int].id.0, copy, f);
            }
            out.insert(bindings[i].id.0, copy);
        }
        i = i + 1;
    }
    proof {
        assert(all.take(i as int) =~= all);
    }
    out
}

/// The runtime before anything happened.
pub open spec fn fresh_runtime(
    source_len: nat,
    external_functions: nat,
    persistence_enabled: bool,
) -> RuntimeView {
    RuntimeView {
        memory: Seq::empty(),
        pending_commands: None,
        event_history: Seq::empty(),
        fact_history: Seq::empty(),
        source_len,
        external_functions,
        persistence_enabled,
        focused: false,
        active_program: None,
        actions: Map::empty(),
        input_bindings: Map::empty(),
        input_nodes: Map::empty(),
        hovered_bindings: Map::empty(),
        focused_bindings: Map::empty(),
        store: StoreView {
            state: empty_state(),
            draft_text: Seq::empty(),
            next_object_item_id: 0,
        },
    }
}

/// What is to be rendered after an event or a fact.
pub open spec fn request_after(r: RuntimeView, changed: bool) -> RenderRequestView {
    if r.active_program is None {
        RenderRequestView::Status(status(r))
    } else if changed {
        RenderRequestView::Program(materialized(r))
    } else {
        RenderRequestView::Nothing
    }
}

impl WasmProRuntime {
    /// The runtime before anything happened.
    #[must_use]
    pub fn new(source_len: usize, external_functions: usize, persistence_enabled: bool) -> (r: Self)
        ensures
            r@ == fresh_runtime(
                source_len as nat,
                external_functions as nat,
                persistence_enabled,
            ),
    {
        let r = WasmProRuntime {
            memory: Vec::new(),
            pending_commands: None,
            event_history: Vec::new(),
            fact_history: Vec::new(),
            source_len,
            external_functions,
            persistence_enabled,
            focused: false,
            active_program: None,
            active_actions: HashMap::new(),
            active_input_bindings: HashMap::new(),
            active_input_nodes: HashMap::new(),
            active_hovered_bindings: HashMap::new(),
            active_focused_bindings: HashMap::new(),
            store: Store {
                state: empty_runtime_state(),
                draft_text: String::new(),
                next_object_item_id: 0,
            },
        };
        proof {
            assert(r@ =~= fresh_runtime(
                source_len as nat,
                external_functions as nat,
                persistence_enabled,
            ));
        }
        r
    }

    /// Makes a program the active one, with the state that it starts with.
    pub fn init(&mut self, program: &ExecProgram) -> (r: RenderRequest)
        ensures
            is_next_id(
                initial_state(program.runtime@).object_lists,
                final(self)@.store.next_object_item_id,
            ),
            final(self)@ == (RuntimeView {
                active_program: Some(
                    SemanticProgramView {
                        root: program.semantic_root@,
                        runtime: program.runtime@,
                    },
                ),
                store: StoreView {
                    state: refreshed(initial_state(program.runtime@)),
                    draft_text: old(self)@.store.draft_text,
                    next_object_item_id: final(self)@.store.next_object_item_id,
                },
                ..old(self)@
            }),
            r@ == RenderRequestView::Program(materialized(final(self)@)),
    {
        self.active_program = Some(
            SemanticProgram {
                root: program.semantic_root.clone(),
                runtime: program.runtime.clone(),
            },
        );
        self.store.state = starting_state(&program.runtime);
        let max: u64 = max_item_id(&self.store.state.object_lists);
        self.store.next_object_item_id = max.wrapping_add(1);
        refresh_derived_scalars(&mut self.store.state);
        self.render_active_program()
    }

    /// Handles a batch of events.
    pub fn dispatch_events(&mut self, batch: UiEventBatch) -> (r: RenderRequest)
        ensures
            final(self)@ == dispatched(old(self)@, batch@).0,
            r@ == request_after(final(self)@, dispatched(old(self)@, batch@).1),
    {
        let ghost start = self@;
        let mut changed: bool = false;
        if self.active_program.is_some() {
            let mut i: usize = 0;
            while i < batch.events.len()
                invariant
                    i <= batch.events@.len(),
                    self.active_program is Some,
                    start.active_program is Some,
                    self@ == (RuntimeView { store: self@.store, ..start }),
                    (self@.store, changed) == events_step(
                        start.store,
                        start.actions,
                        batch@,
                        i as nat,
                    ),
                decreases batch.events@.len() - i,
            {
                let event = &batch.events[i];
                proof {
                    assert(batch@[i as int] == event@);
                }
                if let Some(action) = self.active_actions.get(&event.target.0) {
                    let copy = action.clone();
                    let step = apply_action(&mut self.store, &copy, event);
                    changed = changed || step;
                }
                i = i + 1;
            }
            if changed {
                refresh_derived_scalars(&mut self.store.state);
            }
        }
        self.apply_event_effects(&batch);
        let ghost affected = self@;
        self.event_history.push(batch);
        proof {
            assert(self@.event_history =~= start.event_history.push(batch@));
            assert(self@ =~= dispatched(start, batch@).0);
        }
        if self.active_program.is_none() {
            self.status_batch()
        } else if changed {
            self.render_active_program()
        } else {
            RenderRequest::Nothing
        }
    }

    /// Handles a batch of facts.
    pub fn apply_facts(&mut self, batch: UiFactBatch) -> (r: RenderRequest)
        ensures
            final(self)@ == (RuntimeView {
                fact_history: old(self)@.fact_history.push(batch@),
                ..facts_step(old(self)@, batch@, batch@.len()).0
            }),
            r@ == request_after(
                final(self)@,
                facts_step(old(self)@, batch@, batch@.len()).1,
            ),
    {
        let ghost start = self@;
        let changed = self.apply_fact_effects(&batch);
        self.fact_history.push(batch);
        proof {
            lemma_facts_keep_history(start, batch@, batch@.len());
            assert(self@.fact_history =~= start.fact_history.push(batch@));
        }
        if self.active_program.is_none() {
            self.status_batch()
        } else if changed {
            self.render_active_program()
        } else {
            RenderRequest::Nothing
        }
    }

    /// Takes the range of the commands that were queued last, if it was not taken yet.
    #[must_use]
    pub fn take_commands(&mut self) -> (r: u64)
        ensures
            (final(self)@, r) == taken(old(self)@),
    {
        match self.pending_commands.take() {
            Some(range) => range.pack(),
            None => 0,
        }
    }

    /// The memory that is shared with the host.
    #[must_use]
    pub fn memory(&self) -> (r: &[u8])
        ensures
            r@ == self@.memory,
    {
        self.memory.as_slice()
    }

    /// The bytes of the commands in a range, or none when the range leaves the memory.
    pub fn decode_commands(&self, descriptor: u64) -> (r: Vec<u8>)
        ensures
            r@ == match bytes_at(self@.memory, unpacked(descriptor)) {
                Some(bytes) => bytes,
                None => Seq::empty(),
            },
    {
        let range = BufferRange::from_packed(descriptor);
        match range.slice(self.memory.as_slice()) {
            Some(bytes) => vstd::slice::slice_to_vec(bytes),
            None => Vec::new(),
        }
    }

    /// Queues the bytes of commands.
    pub fn queue_commands(&mut self, bytes: &[u8]) -> (r: u64)
        ensures
            final(self)@ == queued(old(self)@, bytes@),
            r == packed(next_range(old(self)@.memory, bytes@.len())),
    {
        let ghost start = self@;
        let start_at: u32 = (self.memory.len() as u64 % 0x1_0000_0000) as u32;
        let len: u32 = (bytes.len() as u64 % 0x1_0000_0000) as u32;
        self.memory.extend_from_slice(bytes);
        let range = BufferRange::new(start_at, len);
        self.pending_commands = Some(range);
        proof {
            assert(self.memory@ =~= start.memory + bytes@);
        }
        range.pack()
    }

    /// Takes over the identities that were given to a rendered program and queues its commands.
    pub fn commit_program(&mut self, exec: &ExecProgram, bytes: &[u8]) -> (r: u64)
        ensures
            final(self)@ == queued(bound(old(self)@, *exec), bytes@),
            r == packed(next_range(old(self)@.memory, bytes@.len())),
    {
        let ghost start = self@;
        self.active_actions = index_actions(&exec.event_bindings);
        self.active_input_bindings = index_sources(&exec.event_bindings);
        let nodes = index_ports(&exec.attached_ports);
        self.active_input_nodes = index_node_sources(&exec.event_bindings, &nodes);
        self.active_hovered_bindings = index_facts(&exec.fact_bindings, SemanticFactKind::Hovered);
        self.active_focused_bindings = index_facts(&exec.fact_bindings, SemanticFactKind::Focused);
        proof {
            assert(self@ =~= bound(start, *exec));
        }
        self.queue_commands(bytes)
    }

    fn render_active_program(&self) -> (r: RenderRequest)
        ensures
            r@ == request_after(self@, true),
    {
        match &self.active_program {
            None => self.status_batch(),
            Some(program) => {
                let path: Vec<usize> = Vec::new();
                let root = materialize_node(&self.store.state, &program.root, &path);
                proof {
                    assert(path@ =~= Seq::<usize>::empty());
                }
                RenderRequest::Program(SemanticProgram { root, runtime: program.runtime.clone() })
            },
        }
    }

    fn status_batch(&self) -> (r: RenderRequest)
        ensures
            r@ == RenderRequestView::Status(status(self@)),
    {
        let event_text = self.last_event_summary();
        let fact_text = self.last_fact_summary();
        let event = match &event_text {
            Some(text) => Some(text.as_str()),
            None => None,
        };
        let fact = match &fact_text {
            Some(text) => Some(text.as_str()),
            None => None,
        };
        proof {
            assert(self@.event_history.len() == self.event_history@.len());
            assert(self@.fact_history.len() == self.fact_history@.len());
        }
        RenderRequest::Status(
            bootstrap_runtime_scaffold(
                self.source_len,
                self.external_functions,
                self.persistence_enabled,
                self.event_history.len(),
                self.fact_history.len(),
                event,
                fact,
                self.store.draft_text.as_str(),
                self.focused,
            ),
        )
    }

    fn last_event_summary(&self) -> (r: Option<String>)
        ensures
            opt_text(r) == last_event(self@.event_history),
    {
        let n: usize = self.event_history.len();
        if n == 0 {
            return None;
        }
        let batch = &self.event_history[n - 1];
        let m: usize = batch.events.len();
        proof {
            assert(self@.event_history.last() == batch@);
        }
        if m == 0 {
            return None;
        }
        let event = &batch.events[m - 1];
        proof {
            assert(batch@.last() == event@);
        }
        let mut out = event_kind_text(event.kind).to_owned();
        out.append(" payload=");
        match &event.payload {
            Some(payload) => out.append(payload.as_str()),
            None => out.append("none"),
        }
        Some(out)
    }

    fn last_fact_summary(&self) -> (r: Option<String>)
        ensures
            opt_text(r) == last_fact(self@.fact_history),
    {
        let n: usize = self.fact_history.len();
        if n == 0 {
            return None;
        }
        let batch = &self.fact_history[n - 1];
        let m: usize = batch.facts.len();
        proof {
            assert(self@.fact_history.last() == batch@);
        }
        if m == 0 {
            return None;
        }
        let fact = &batch.facts[m - 1];
        proof {
            assert(batch@.last() == fact@);
        }
        Some(fact_text(&fact.kind))
    }

    fn note_typed(&mut self, target: EventPortId, text: String)
        ensures
            final(self)@ == typed(old(self)@, target, text@),
            final(self).active_program == old(self).active_program,
    {
        let ghost start = self@;
        if let Some(source) = self.active_input_bindings.get(&target.0) {
            let binding = source.clone();
            set_input_text(&mut self.store, binding, text.clone());
        }
        self.store.draft_text = text;
        proof {
            assert(self@ =~= typed(start, target, text@));
        }
    }

    fn apply_event_effects(&mut self, batch: &UiEventBatch)
        ensures
            final(self)@ == event_effects(old(self)@, batch@),
            final(self).active_program == old(self).active_program,
    {
        let n: usize = batch.events.len();
        if n == 0 {
            return;
        }
        let event = &batch.events[n - 1];
        proof {
            assert(batch@.last() == event@);
        }
        match event.kind {
            UiEventKind::Input | UiEventKind::Change => {
                let text = match event_primary_payload(event) {
                    Some(payload) => payload,
                    None => String::new(),
                };
                self.note_typed(event.target, text);
            },
            UiEventKind::KeyDown => {
                if let Some(text) = event_keydown_text(event) {
                    self.note_typed(event.target, text);
                }
            },
            UiEventKind::Focus => {
                self.focused = true;
            },
            UiEventKind::Blur => {
                self.focused = false;
            },
            UiEventKind::Click | UiEventKind::DoubleClick => {},
        }
    }

    fn apply_fact(&mut self, fact: &UiFact) -> (r: bool)
        ensures
            (final(self)@, r) == fact_step(old(self)@, fact@),
            final(self).active_program == old(self).active_program,
    {
        let ghost start = self@;
        match &fact.kind {
            UiFactKind::DraftText(text) => {
                let mut changed = !text_eq(self.store.draft_text.as_str(), text.as_str());
                self.store.draft_text = text.clone();
                if let Some(source) = self.active_input_nodes.get(&fact.id.0) {
                    let binding = source.clone();
                    let before = text_or_empty(
                        &self.store.state.input_texts,
                        binding.as_str(),
                    );
                    changed = changed || !text_eq(before.as_str(), text.as_str());
                    set_input_text(&mut self.store, binding, text.clone());
                }
                proof {
                    assert(self@ =~= fact_step(start, fact@).0);
                }
                changed
            },
            UiFactKind::Focused(focused) => {
                let mut changed = self.focused != *focused;
                self.focused = *focused;
                if let Some(source) = self.active_focused_bindings.get(&fact.id.0) {
                    let binding = source.clone();
                    let step = set_scalar(&mut self.store, &binding, bool_number(*focused));
                    changed = changed || step;
                }
                changed
            },
            UiFactKind::Hovered(hovered) => {
                if let Some(source) = self.active_hovered_bindings.get(&fact.id.0) {
                    let binding = source.clone();
                    set_scalar(&mut self.store, &binding, bool_number(*hovered))
                } else {
                    false
                }
            },
            UiFactKind::LayoutSize { .. } => false,
            UiFactKind::Custom { .. } => false,
        }
    }

    /// Takes note of what facts say. The result says whether anything has changed by it.
    pub fn apply_fact_effects(&mut self, batch: &UiFactBatch) -> (r: bool)
        ensures
            (final(self)@, r) == facts_step(old(self)@, batch@, batch@.len()),
    {
        let ghost start = self@;
        let mut changed: bool = false;
        let mut i: usize = 0;
        while i < batch.facts.len()
            invariant
                i <= batch.facts@.len(),
                (self@, changed) == facts_step(start, batch@, i as nat),
            decreases batch.facts@.len() - i,
        {
            proof {
                assert(batch@[i as int] == batch.facts@[i as int]@);
            }
            let step = self.apply_fact(&batch.facts[i]);
            changed = changed || step;
            i = i + 1;
        }
        changed
    }
}

proof fn lemma_facts_keep_history(r: RuntimeView, facts: Seq<UiFactView>, n: nat)
    ensures
        facts_step(r, facts, n).0.fact_history == r.fact_history,
        facts_step(r, facts, n).0.active_program == r.active_program,
    decreases n,
{
    if n > 0 {
        lemma_facts_keep_history(r, facts, (n - 1) as nat);
    }
}

/// A runtime for a source text, before anything happened.
pub fn bootstrap_runtime(
    source: &str,
    external_functions: usize,
    persistence_enabled: bool,
) -> (r: WasmProRuntime)
    ensures
        r@ == fresh_runtime(
            source.len() as nat,
            external_functions as nat,
            persistence_enabled,
        ),
{
    WasmProRuntime::new(source.len(), external_functions, persistence_enabled)
}

} // verus!
