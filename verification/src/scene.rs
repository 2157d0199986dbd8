//! Events and facts that the host reports of the rendered scene.
use crate::text::{opt_text, split_at_first, split_once, text_eq};
use vstd::prelude::*;

verus! {

/// The identity of a rendered element.
#[derive(Debug, Clone, Copy, PartialEq, Eq, Structural, Hash)]
pub struct NodeId(pub u128);

/// The identity of a place where the host hands in events.
#[derive(Debug, Clone, Copy, PartialEq, Eq, Structural, Hash)]
pub struct EventPortId(pub u128);

/// What happened to an element.
#[derive(Debug, Clone, Copy, PartialEq, Eq, Structural, Hash)]
pub enum UiEventKind {
    Click,
    DoubleClick,
    Input,
    Change,
    KeyDown,
    Focus,
    Blur,
}

/// Something that happened to an element.
#[derive(Debug, PartialEq, Eq)]
pub struct UiEvent {
    pub target: EventPortId,
    pub kind: UiEventKind,
    pub payload: Option<String>,
}

/// The mathematical value of a [`UiEvent`].
pub struct UiEventView {
    pub target: EventPortId,
    pub kind: UiEventKind,
    pub payload: Option<Seq<char>>,
}

impl View for UiEvent {
    type V = UiEventView;

    open spec fn view(&self) -> UiEventView {
        UiEventView { target: self.target, kind: self.kind, payload: opt_text(self.payload) }
    }
}

/// Events that are handled together.
#[derive(Debug, PartialEq, Eq)]
pub struct UiEventBatch {
    pub events: Vec<UiEvent>,
}

impl View for UiEventBatch {
    type V = Seq<UiEventView>;

    open spec fn view(&self) -> Seq<UiEventView> {
        self.events@.map_values(|x: UiEvent| x@)
    }
}

/// What the host knows of an element. A size is kept as the text of its numbers.
#[derive(Debug, PartialEq, Eq)]
pub enum UiFactKind {
    Hovered(bool),
    Focused(bool),
    DraftText(String),
    LayoutSize { width: String, height: String },
    Custom { name: String, value: String },
}

/// The mathematical value of a [`UiFactKind`].
pub enum UiFactKindView {
    Hovered(bool),
    Focused(bool),
    DraftText(Seq<char>),
    LayoutSize { width: Seq<char>, height: Seq<char> },
    Custom { name: Seq<char>, value: Seq<char> },
}

impl View for UiFactKind {
    type V = UiFactKindView;

    open spec fn view(&self) -> UiFactKindView {
        match self {
            UiFactKind::Hovered(b) => UiFactKindView::Hovered(*b),
            UiFactKind::Focused(b) => UiFactKindView::Focused(*b),
            UiFactKind::DraftText(text) => UiFactKindView::DraftText(text@),
            UiFactKind::LayoutSize { width, height } => UiFactKindView::LayoutSize {
                width: width@,
                height: height@,
            },
            UiFactKind::Custom { name, value } => UiFactKindView::Custom {
                name: name@,
                value: value@,
            },
        }
    }
}

/// Something that the host knows of an element.
#[derive(Debug, PartialEq, Eq)]
pub struct UiFact {
    pub id: NodeId,
    pub kind: UiFactKind,
}

/// The mathematical value of a [`UiFact`].
pub struct UiFactView {
    pub id: NodeId,
    pub kind: UiFactKindView,
}

impl View for UiFact {
    type V = UiFactView;

    open spec fn view(&self) -> UiFactView {
        UiFactView { id: self.id, kind: self.kind@ }
    }
}

/// Facts that are reported together.
#[derive(Debug, PartialEq, Eq)]
pub struct UiFactBatch {
    pub facts: Vec<UiFact>,
}

impl View for UiFactBatch {
    type V = Seq<UiFactView>;

    open spec fn view(&self) -> Seq<UiFactView> {
        self.facts@.map_values(|x: UiFact| x@)
    }
}

/// What separates the key of a key press from the text of the input element.
pub const KEYDOWN_TEXT_SEPARATOR: char = '\u{1F}';

/// The key and the text of the input element in the payload of a key press.
pub open spec fn keydown_parts(payload: Seq<char>) -> (Seq<char>, Option<Seq<char>>) {
    match split_at_first(payload, KEYDOWN_TEXT_SEPARATOR) {
        Some(parts) => (parts.0, Some(parts.1)),
        None => (payload, None),
    }
}

/// The payload that actions look at: of a key press, the key alone.
pub open spec fn primary_payload(event: UiEventView) -> Option<Seq<char>> {
    match event.payload {
        Some(payload) => if event.kind == UiEventKind::KeyDown {
            Some(keydown_parts(payload).0)
        } else {
            Some(payload)
        },
        None => None,
    }
}

/// The text of the input element at a key press.
pub open spec fn keydown_text(event: UiEventView) -> Option<Seq<char>> {
    match event.payload {
        Some(payload) => if event.kind == UiEventKind::KeyDown {
            keydown_parts(payload).1
        } else {
            None
        },
        None => None,
    }
}

/// Splits the payload of a key press into the key and the text of the input element.
pub fn split_keydown_payload(payload: &str) -> (r: (String, Option<String>))
    ensures
        (r.0@, opt_text(r.1)) == keydown_parts(payload@),
{
    match split_once(payload, KEYDOWN_TEXT_SEPARATOR) {
        Some(parts) => (parts.0, Some(parts.1)),
        None => (payload.to_owned(), None),
    }
}

/// The payload that actions look at: of a key press, the key alone.
pub fn event_primary_payload(event: &UiEvent) -> (r: Option<String>)
    ensures
        opt_text(r) == primary_payload(event@),
{
    match &event.payload {
        Some(payload) => if event.kind == UiEventKind::KeyDown {
            Some(split_keydown_payload(payload.as_str()).0)
        } else {
            Some(payload.clone())
        },
        None => None,
    }
}

/// The text of the input element at a key press.
pub fn event_keydown_text(event: &UiEvent) -> (r: Option<String>)
    ensures
        opt_text(r) == keydown_text(event@),
{
    if event.kind != UiEventKind::KeyDown {
        return None;
    }
    match &event.payload {
        Some(payload) => split_keydown_payload(payload.as_str()).1,
        None => None,
    }
}

/// Whether the payload that actions look at is the expected one.
pub fn event_payload_matches(event: &UiEvent, expected: &str) -> (r: bool)
    ensures
        r == (primary_payload(event@) == Some(expected@)),
{
    match event_primary_payload(event) {
        Some(payload) => text_eq(payload.as_str(), expected),
        None => false,
    }
}

} // verus!
