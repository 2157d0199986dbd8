//! What the status of a runtime says.
use crate::runtime::{RuntimeView, last_event, last_fact, status};
use crate::scene::{EventPortId, NodeId, UiEventKind, UiEventView, UiFactKindView, UiFactView};
use crate::text::nat_text;
use vstd::prelude::*;

verus! {

/// The last event is told by its kind and its payload, whatever came before it.
pub proof fn lemma_last_event_in_words(
    before: Seq<Seq<UiEventView>>,
    batch: Seq<UiEventView>,
    target: EventPortId,
    text: Seq<char>,
)
    ensures
        ({
            let of = |kind: UiEventKind, payload: Option<Seq<char>>| last_event(
                before.push(batch.push(UiEventView { target, kind, payload })),
            );
            &&& last_event(Seq::empty()) is None
            &&& last_event(before.push(Seq::empty())) is None
            &&& of(UiEventKind::Click, None) == Some("Click"@ + " payload="@ + "none"@)
            &&& of(UiEventKind::Click, Some(text)) == Some("Click"@ + " payload="@ + text)
            &&& of(UiEventKind::DoubleClick, Some(text)) == Some(
                "DoubleClick"@ + " payload="@ + text,
            )
            &&& of(UiEventKind::Input, Some(text)) == Some("Input"@ + " payload="@ + text)
            &&& of(UiEventKind::Change, Some(text)) == Some("Change"@ + " payload="@ + text)
            &&& of(UiEventKind::KeyDown, Some(text)) == Some("KeyDown"@ + " payload="@ + text)
            &&& of(UiEventKind::Focus, Some(text)) == Some("Focus"@ + " payload="@ + text)
            &&& of(UiEventKind::Blur, Some(text)) == Some("Blur"@ + " payload="@ + text)
        }),
{
}

/// The last fact is told by its kind and what it says, whatever came before it.
pub proof fn lemma_last_fact_in_words(
    before: Seq<Seq<UiFactView>>,
    batch: Seq<UiFactView>,
    id: NodeId,
    name: Seq<char>,
    value: Seq<char>,
)
    ensures
        ({
            let of = |kind: UiFactKindView| last_fact(
                before.push(batch.push(UiFactView { id, kind })),
            );
            &&& last_fact(Seq::empty()) is None
            &&& last_fact(before.push(Seq::empty())) is None
            &&& of(UiFactKindView::Hovered(true)) == Some("Hovered("@ + "true"@ + ")"@)
            &&& of(UiFactKindView::Hovered(false)) == Some("Hovered("@ + "false"@ + ")"@)
            &&& of(UiFactKindView::Focused(true)) == Some("Focused("@ + "true"@ + ")"@)
            &&& of(UiFactKindView::Focused(false)) == Some("Focused("@ + "false"@ + ")"@)
            &&& of(UiFactKindView::DraftText(name)) == Some("DraftText("@ + name + ")"@)
            &&& of(UiFactKindView::LayoutSize { width: name, height: value }) == Some(
                "LayoutSize("@ + name + "x"@ + value + ")"@,
            )
            &&& of(UiFactKindView::Custom { name, value }) == Some(
                "Custom("@ + name + "="@ + value + ")"@,
            )
        }),
{
}

/// The status has a line for each number, for the last event and the last fact, and for what is
/// switched on, in this order behind a button and an input with what was typed.
pub proof fn lemma_status_lines(r: RuntimeView)
    ensures
        ({
            let children = status(r).root->Element_children;
            let line = |i: int| children[i]->Text_0;
            let said = |text: Option<Seq<char>>|
                match text {
                    Some(text) => text,
                    None => "none"@,
                };
            &&& status(r).root is Element
            &&& children.len() == 10
            &&& forall|i: int| 2 <= i < 10 ==> #[trigger] children[i] is Text
            &&& children[0] is Element && children[0]->Element_tag == "button"@
            &&& children[0]->Element_event_bindings.len() == 1
            &&& children[0]->Element_event_bindings[0].kind == UiEventKind::Click
            &&& children[1] is Element && children[1]->Element_tag == "input"@
            &&& children[1]->Element_properties.len() == 3
            &&& children[1]->Element_properties[2] == ("value"@, r.store.draft_text)
            &&& children[1]->Element_event_bindings.len() == 3
            &&& children[1]->Element_event_bindings[0].kind == UiEventKind::Focus
            &&& children[1]->Element_event_bindings[1].kind == UiEventKind::Blur
            &&& children[1]->Element_event_bindings[2].kind == UiEventKind::Input
            &&& line(2) == "Source bytes: "@ + nat_text(r.source_len)
            &&& line(3) == "External functions: "@ + nat_text(r.external_functions)
            &&& line(4) == "Persistence: "@ + if r.persistence_enabled {
                "enabled"@
            } else {
                "disabled"@
            }
            &&& line(5) == "Event batches: "@ + nat_text(r.event_history.len())
            &&& line(6) == "Fact batches: "@ + nat_text(r.fact_history.len())
            &&& line(7) == "Last event: "@ + said(last_event(r.event_history))
            &&& line(8) == "Last fact: "@ + said(last_fact(r.fact_history))
            &&& line(9) == "Focused: "@ + if r.focused {
                "yes"@
            } else {
                "no"@
            }
        }),
{
    let children = status(r).root->Element_children;
    assert(children.len() == 10);
    assert forall|i: int| 2 <= i < 10 implies #[trigger] children[i] is Text by {
        assert(i == 2 || i == 3 || i == 4 || i == 5 || i == 6 || i == 7 || i == 8 || i == 9);
    }
}

} // verus!
