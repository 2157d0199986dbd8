//! The description of a user interface and of the state behind it.
use crate::parts::{part_seq, property_seq, style_seq};
use crate::render::{action_spec_seq, event_seq, fact_seq};
use crate::scene::UiEventKind;
use crate::semantic_view::{
    RuntimeModelView, SemanticEventBindingView, SemanticFactBindingView, SemanticNodeView,
    SemanticProgramView, SemanticStyleFragmentView, lemma_semantic_node_seq, semantic_node_seq,
};
use crate::text::{nat_text, opt_str, opt_text, usize_text};
use crate::text_map::TextMap;
use crate::values::{opt_item_filter, opt_text_filter, text_seq};
use vstd::prelude::*;
use vstd::string::*;

verus! {

/// A user interface and the state that it reads.
#[derive(Debug, PartialEq, Eq)]
pub struct SemanticProgram {
    pub root: SemanticNode,
    pub runtime: RuntimeModel,
}

/// A node of the user interface, before its dynamic parts are resolved.
#[allow(inconsistent_fields)]
#[derive(Debug, PartialEq, Eq)]
pub enum SemanticNode {
    Fragment(Vec<SemanticNode>),
    Keyed { key: u64, node: Box<SemanticNode> },
    Element {
        tag: String,
        text: Option<String>,
        properties: Vec<(String, String)>,
        input_value: Option<SemanticInputValue>,
        style_fragments: Vec<SemanticStyleFragment>,
        event_bindings: Vec<SemanticEventBinding>,
        fact_bindings: Vec<SemanticFactBinding>,
        children: Vec<SemanticNode>,
    },
    Text(String),
    TextTemplate { parts: Vec<SemanticTextPart>, value: String },
    TextBindingBranch {
        binding: String,
        invert: bool,
        truthy: Box<SemanticNode>,
        falsy: Box<SemanticNode>,
    },
    BoolBranch { binding: String, truthy: Box<SemanticNode>, falsy: Box<SemanticNode> },
    ScalarCompareBranch {
        left: DerivedScalarOperand,
        op: IntCompareOp,
        right: DerivedScalarOperand,
        truthy: Box<SemanticNode>,
        falsy: Box<SemanticNode>,
    },
    ObjectScalarCompareBranch {
        left: ObjectDerivedScalarOperand,
        op: IntCompareOp,
        right: ObjectDerivedScalarOperand,
        truthy: Box<SemanticNode>,
        falsy: Box<SemanticNode>,
    },
    ObjectBoolFieldBranch { field: String, truthy: Box<SemanticNode>, falsy: Box<SemanticNode> },
    ObjectTextFieldBranch {
        field: String,
        invert: bool,
        truthy: Box<SemanticNode>,
        falsy: Box<SemanticNode>,
    },
    ListEmptyBranch {
        binding: String,
        object_items: bool,
        invert: bool,
        truthy: Box<SemanticNode>,
        falsy: Box<SemanticNode>,
    },
    ScalarValue { binding: String, value: i64 },
    ObjectFieldValue { field: String },
    TextList {
        binding: String,
        values: Vec<String>,
        filter: Option<TextListFilter>,
        template: TextListTemplate,
    },
    ObjectList {
        binding: String,
        filter: Option<ObjectListFilter>,
        item_actions: Vec<ObjectItemActionSpec>,
        template: Box<SemanticNode>,
    },
}

/// A piece of a text template.
#[allow(inconsistent_fields)]
#[derive(Debug, PartialEq, Eq)]
pub enum SemanticTextPart {
    Static(String),
    TextBinding(String),
    ScalarBinding(String),
    ObjectFieldBinding(String),
    ListCountBinding(String),
    ObjectListCountBinding(String),
    FilteredListCountBinding { binding: String, filter: TextListFilter },
    FilteredObjectListCountBinding { binding: String, filter: ObjectListFilter },
    BoolBindingText { binding: String, true_text: String, false_text: String },
    ObjectBoolFieldText { field: String, true_text: String, false_text: String },
}

/// The source of the value of an input element.
#[derive(Debug, PartialEq, Eq)]
pub enum SemanticInputValue {
    Static(String),
    TextParts { parts: Vec<SemanticTextPart>, value: String },
    TextBindingBranch {
        binding: String,
        invert: bool,
        truthy: Box<SemanticInputValue>,
        falsy: Box<SemanticInputValue>,
    },
    ObjectTextFieldBranch {
        field: String,
        invert: bool,
        truthy: Box<SemanticInputValue>,
        falsy: Box<SemanticInputValue>,
    },
}

/// Which items of a text list are shown.
#[derive(Debug, PartialEq, Eq)]
pub enum TextListFilter {
    IntCompare { op: IntCompareOp, value: i64 },
}

/// A comparison of two integers.
#[derive(Debug, Clone, Copy, PartialEq, Eq, Structural, Hash)]
pub enum IntCompareOp {
    Equal,
    NotEqual,
    Greater,
    GreaterOrEqual,
    Less,
    LessOrEqual,
}

/// How each item of a text list is shown.
#[derive(Debug, PartialEq, Eq)]
pub struct TextListTemplate {
    pub tag: String,
    pub properties: Vec<(String, String)>,
    pub prefix: String,
    pub suffix: String,
}

/// Which items of an object list are shown.
#[derive(Debug, PartialEq, Eq)]
pub enum ObjectListFilter {
    BoolFieldEquals { field: String, value: bool },
    SelectedCompletedByScalar { binding: String },
}

/// An item of an object list.
#[derive(Debug, PartialEq, Eq)]
pub struct ObjectListItem {
    pub id: u64,
    pub title: String,
    pub completed: bool,
    pub text_fields: TextMap<String>,
    pub bool_fields: TextMap<bool>,
    pub scalar_fields: TextMap<i64>,
    pub object_lists: TextMap<Vec<ObjectListItem>>,
    pub nested_item_actions: TextMap<Vec<ObjectItemActionSpec>>,
}

/// What an event on an element of an item does.
#[derive(Debug, PartialEq, Eq)]
pub struct ObjectItemActionSpec {
    pub source_binding_suffix: String,
    pub kind: UiEventKind,
    pub action: ObjectItemActionKind,
}

/// The effect of an item action.
#[derive(Debug, PartialEq, Eq)]
pub enum ObjectItemActionKind {
    ToggleBoolField { field: String },
    UpdateNestedObjectLists { updates: Vec<NestedObjectListAction> },
    SetBoolField { field: String, value: bool, payload_filter: Option<String> },
    SetTitle { trim: bool, reject_empty: bool, payload_filter: Option<String> },
    UpdateBindings {
        scalar_updates: Vec<ItemScalarUpdate>,
        text_updates: Vec<ItemTextUpdate>,
        payload_filter: Option<String>,
    },
    RemoveSelf,
}

/// A change of a list inside the item that an action belongs to.
#[derive(Debug, PartialEq, Eq)]
pub enum NestedObjectListAction {
    AppendObject { field: String, item: ObjectListItem },
}

/// A change of a scalar from an item.
#[derive(Debug, PartialEq, Eq)]
pub enum ItemScalarUpdate {
    SetStatic { binding: String, value: i64 },
    SetFromField { binding: String, field: String },
}

/// A change of a text from an item.
#[derive(Debug, PartialEq, Eq)]
pub enum ItemTextUpdate {
    SetStatic { binding: String, value: String },
    SetFromField { binding: String, field: String },
    SetFromPayload { binding: String },
    SetFromInputSource { binding: String, source_suffix: String },
}

/// An event that an element listens to.
#[derive(Debug, PartialEq, Eq)]
pub struct SemanticEventBinding {
    pub kind: UiEventKind,
    pub source_binding: Option<String>,
    pub action: Option<SemanticAction>,
}

/// A fact that the host reports of an element.
#[derive(Debug, Clone, Copy, PartialEq, Eq, Structural, Hash)]
pub enum SemanticFactKind {
    Hovered,
    Focused,
}

/// The scalar that keeps a fact of an element.
#[derive(Debug, PartialEq, Eq)]
pub struct SemanticFactBinding {
    pub kind: SemanticFactKind,
    pub binding: String,
}

/// A piece of the style of an element.
#[derive(Debug, PartialEq, Eq)]
pub enum SemanticStyleFragment {
    Static(Option<String>),
    BoolBinding {
        binding: String,
        truthy: Box<SemanticStyleFragment>,
        falsy: Box<SemanticStyleFragment>,
    },
    ScalarCompare {
        left: DerivedScalarOperand,
        op: IntCompareOp,
        right: DerivedScalarOperand,
        truthy: Box<SemanticStyleFragment>,
        falsy: Box<SemanticStyleFragment>,
    },
    ObjectBoolField {
        field: String,
        truthy: Box<SemanticStyleFragment>,
        falsy: Box<SemanticStyleFragment>,
    },
}

/// What an event does to the state.
#[allow(inconsistent_fields)]
#[derive(Debug, PartialEq, Eq)]
pub enum SemanticAction {
    UpdateScalars { updates: Vec<ScalarUpdate> },
    UpdateTexts { updates: Vec<TextUpdate> },
    UpdateTextLists { updates: Vec<TextListUpdate> },
    UpdateObjectLists { updates: Vec<ObjectListUpdate> },
    UpdateNestedObjectLists {
        parent_binding: String,
        parent_item_id: u64,
        updates: Vec<NestedObjectListUpdate>,
    },
    Batch { actions: Vec<SemanticAction> },
}

/// The state that a program starts with.
#[allow(inconsistent_fields)]
#[derive(Debug, PartialEq, Eq)]
pub enum RuntimeModel {
    Static,
    Scalars(ScalarRuntimeModel),
    State(StateRuntimeModel),
}

/// Scalars alone.
#[derive(Debug, PartialEq, Eq)]
pub struct ScalarRuntimeModel {
    pub values: TextMap<i64>,
}

/// An operand of a derived scalar.
#[allow(inconsistent_fields)]
#[derive(Debug, PartialEq, Eq)]
pub enum DerivedScalarOperand {
    Binding(String),
    Literal(i64),
}

/// An operand that may be a field of the current item.
#[allow(inconsistent_fields)]
#[derive(Debug, PartialEq, Eq)]
pub enum ObjectDerivedScalarOperand {
    Binding(String),
    Field(String),
    Literal(i64),
}

/// An arithmetic operation on two scalars.
#[derive(Debug, Clone, Copy, PartialEq, Eq, Structural, Hash)]
pub enum DerivedArithmeticOp {
    Add,
    Subtract,
}

/// A scalar that is computed from the rest of the state.
#[allow(inconsistent_fields)]
#[derive(Debug, PartialEq, Eq)]
pub enum DerivedScalarSpec {
    TextListCount { binding: String, filter: Option<TextListFilter>, target: String },
    ObjectListCount { binding: String, filter: Option<ObjectListFilter>, target: String },
    Arithmetic {
        target: String,
        op: DerivedArithmeticOp,
        left: DerivedScalarOperand,
        right: DerivedScalarOperand,
    },
    Comparison {
        target: String,
        op: IntCompareOp,
        left: DerivedScalarOperand,
        right: DerivedScalarOperand,
    },
}

/// The full state of a program.
#[derive(Debug, PartialEq, Eq)]
pub struct StateRuntimeModel {
    pub scalar_values: TextMap<i64>,
    pub text_values: TextMap<String>,
    pub text_lists: TextMap<Vec<String>>,
    pub object_lists: TextMap<Vec<ObjectListItem>>,
    pub input_texts: TextMap<String>,
    pub derived_scalars: Vec<DerivedScalarSpec>,
}

/// A change of a scalar.
#[derive(Debug, PartialEq, Eq)]
pub enum ScalarUpdate {
    SetTo { binding: String, value: i64 },
    SetFiltered { binding: String, value: i64, payload_filter: String },
    Add { binding: String, delta: i64 },
    ToggleBool { binding: String },
}

/// A change of a text.
#[derive(Debug, PartialEq, Eq)]
pub enum TextUpdate {
    SetStatic { binding: String, value: String, payload_filter: Option<String> },
    SetFromInput { binding: String, source_binding: String, payload_filter: Option<String> },
    SetFromPayload { binding: String },
}

/// A change of a text list.
#[derive(Debug, PartialEq, Eq)]
pub enum TextListUpdate {
    AppendDraftText {
        binding: String,
        source_binding: String,
        key: Option<String>,
        trim: bool,
        reject_empty: bool,
        clear_draft: bool,
    },
    Clear { binding: String },
}

/// A change of an object list.
#[derive(Debug, PartialEq, Eq)]
pub enum ObjectListUpdate {
    AppendObject { binding: String, item: ObjectListItem },
    AppendDraftObject {
        binding: String,
        source_binding: String,
        key: Option<String>,
        trim: bool,
        reject_empty: bool,
        clear_draft: bool,
        bool_fields: TextMap<bool>,
    },
    ToggleBoolField { binding: String, item_id: u64, field: String },
    SetBoolField {
        binding: String,
        item_id: u64,
        field: String,
        value: bool,
        payload_filter: Option<String>,
    },
    SetTitle {
        binding: String,
        item_id: u64,
        trim: bool,
        reject_empty: bool,
        payload_filter: Option<String>,
    },
    ToggleAllBoolField { binding: String, field: String },
    RemoveItem { binding: String, item_id: u64 },
    RemoveMatching { binding: String, filter: ObjectListFilter },
}

/// A change of a list inside an item.
#[derive(Debug, PartialEq, Eq)]
pub enum NestedObjectListUpdate {
    AppendObject { field: String, item: ObjectListItem },
    RemoveItem { field: String, item_id: u64 },
}

impl SemanticNode {
    /// A node with a key that tells it from its siblings.
    #[must_use]
    pub fn keyed(key: u64, node: SemanticNode) -> (r: Self)
        ensures
            r@ == (SemanticNodeView::Keyed { key, node: Box::new(node@) }),
    {
        SemanticNode::Keyed {
            key,
            node: Box::new(node),
        }
    }

    /// An element without facts and styles.
    #[must_use]
    pub fn element(
        tag: &str,
        text: Option<String>,
        properties: Vec<(String, String)>,
        event_bindings: Vec<SemanticEventBinding>,
        children: Vec<SemanticNode>,
    ) -> (r: Self)
        ensures
            r@ == (SemanticNodeView::Element {
                tag: tag@,
                text: opt_text(text),
                properties: property_seq(properties@),
                input_value: None,
                style_fragments: Seq::empty(),
                event_bindings: event_seq(event_bindings@),
                fact_bindings: Seq::empty(),
                children: semantic_node_seq(children@),
            }),
    {
        let style_fragments: Vec<SemanticStyleFragment> = Vec::new();
        let fact_bindings: Vec<SemanticFactBinding> = Vec::new();
        proof {
            assert(style_seq(style_fragments@) =~= Seq::<SemanticStyleFragmentView>::empty());
            assert(fact_seq(fact_bindings@) =~= Seq::<SemanticFactBindingView>::empty());
        }
        SemanticNode::Element {
            tag: tag.to_owned(),
            text,
            properties,
            input_value: None,
            style_fragments,
            event_bindings,
            fact_bindings,
            children,
        }
    }

    /// An element with facts and without styles.
    #[must_use]
    pub fn element_with_facts(
        tag: &str,
        text: Option<String>,
        properties: Vec<(String, String)>,
        event_bindings: Vec<SemanticEventBinding>,
        fact_bindings: Vec<SemanticFactBinding>,
        children: Vec<SemanticNode>,
    ) -> (r: Self)
        ensures
            r@ == (SemanticNodeView::Element {
                tag: tag@,
                text: opt_text(text),
                properties: property_seq(properties@),
                input_value: None,
                style_fragments: Seq::empty(),
                event_bindings: event_seq(event_bindings@),
                fact_bindings: fact_seq(fact_bindings@),
                children: semantic_node_seq(children@),
            }),
    {
        let style_fragments: Vec<SemanticStyleFragment> = Vec::new();
        proof {
            assert(style_seq(style_fragments@) =~= Seq::<SemanticStyleFragmentView>::empty());
        }
        SemanticNode::Element {
            tag: tag.to_owned(),
            text,
            properties,
            input_value: None,
            style_fragments,
            event_bindings,
            fact_bindings,
            children,
        }
    }

    /// An element with facts and styles.
    #[must_use]
    pub fn element_with_facts_and_styles(
        tag: &str,
        text: Option<String>,
        properties: Vec<(String, String)>,
        style_fragments: Vec<SemanticStyleFragment>,
        event_bindings: Vec<SemanticEventBinding>,
        fact_bindings: Vec<SemanticFactBinding>,
        children: Vec<SemanticNode>,
    ) -> (r: Self)
        ensures
            r@ == (SemanticNodeView::Element {
                tag: tag@,
                text: opt_text(text),
                properties: property_seq(properties@),
                input_value: None,
                style_fragments: style_seq(style_fragments@),
                event_bindings: event_seq(event_bindings@),
                fact_bindings: fact_seq(fact_bindings@),
                children: semantic_node_seq(children@),
            }),
    {
        SemanticNode::Element {
            tag: tag.to_owned(),
            text,
            properties,
            input_value: None,
            style_fragments,
            event_bindings,
            fact_bindings,
            children,
        }
    }

    /// A text.
    #[must_use]
    pub fn text(text: &str) -> (r: Self)
        ensures
            r@ == SemanticNodeView::Text(text@),
    {
        SemanticNode::Text(text.to_owned())
    }

    /// A text put together from pieces.
    #[must_use]
    pub fn text_template(parts: Vec<SemanticTextPart>, value: &str) -> (r: Self)
        ensures
            r@ == (SemanticNodeView::TextTemplate {
                parts: part_seq(parts@),
                value: value@,
            }),
    {
        SemanticNode::TextTemplate {
            parts,
            value: value.to_owned(),
        }
    }

    /// One of two nodes, by a scalar.
    #[must_use]
    pub fn bool_branch(binding: &str, truthy: SemanticNode, falsy: SemanticNode) -> (r: Self)
        ensures
            r@ == (SemanticNodeView::BoolBranch {
                binding: binding@,
                truthy: Box::new(truthy@),
                falsy: Box::new(falsy@),
            }),
    {
        SemanticNode::BoolBranch {
            binding: binding.to_owned(),
            truthy: Box::new(truthy),
            falsy: Box::new(falsy),
        }
    }

    /// One of two nodes, by whether a text is empty.
    #[must_use]
    pub fn text_binding_branch(
        binding: &str,
        invert: bool,
        truthy: SemanticNode,
        falsy: SemanticNode,
    ) -> (r: Self)
        ensures
            r@ == (SemanticNodeView::TextBindingBranch {
                binding: binding@,
                invert,
                truthy: Box::new(truthy@),
                falsy: Box::new(falsy@),
            }),
    {
        SemanticNode::TextBindingBranch {
            binding: binding.to_owned(),
            invert,
            truthy: Box::new(truthy),
            falsy: Box::new(falsy),
        }
    }

    /// One of two nodes, by a comparison.
    #[must_use]
    pub fn scalar_compare_branch(
        left: DerivedScalarOperand,
        op: IntCompareOp,
        right: DerivedScalarOperand,
        truthy: SemanticNode,
        falsy: SemanticNode,
    ) -> (r: Self)
        ensures
            r@ == (SemanticNodeView::ScalarCompareBranch {
                left: left@,
                op,
                right: right@,
                truthy: Box::new(truthy@),
                falsy: Box::new(falsy@),
            }),
    {
        SemanticNode::ScalarCompareBranch {
            left,
            op,
            right,
            truthy: Box::new(truthy),
            falsy: Box::new(falsy),
        }
    }

    /// One of two nodes, by a comparison for the current item.
    #[must_use]
    pub fn object_scalar_compare_branch(
        left: ObjectDerivedScalarOperand,
        op: IntCompareOp,
        right: ObjectDerivedScalarOperand,
        truthy: SemanticNode,
        falsy: SemanticNode,
    ) -> (r: Self)
        ensures
            r@ == (SemanticNodeView::ObjectScalarCompareBranch {
                left: left@,
                op,
                right: right@,
                truthy: Box::new(truthy@),
                falsy: Box::new(falsy@),
            }),
    {
        SemanticNode::ObjectScalarCompareBranch {
            left,
            op,
            right,
            truthy: Box::new(truthy),
            falsy: Box::new(falsy),
        }
    }

    /// One of two nodes, by whether a list is empty.
    #[must_use]
    pub fn list_empty_branch(
        binding: &str,
        object_items: bool,
        invert: bool,
        truthy: SemanticNode,
        falsy: SemanticNode,
    ) -> (r: Self)
        ensures
            r@ == (SemanticNodeView::ListEmptyBranch {
                binding: binding@,
                object_items,
                invert,
                truthy: Box::new(truthy@),
                falsy: Box::new(falsy@),
            }),
    {
        SemanticNode::ListEmptyBranch {
            binding: binding.to_owned(),
            object_items,
            invert,
            truthy: Box::new(truthy),
            falsy: Box::new(falsy),
        }
    }

    /// One of two nodes, by a truth value of the current item.
    #[must_use]
    pub fn object_bool_field_branch(
        field: &str,
        truthy: SemanticNode,
        falsy: SemanticNode,
    ) -> (r: Self)
        ensures
            r@ == (SemanticNodeView::ObjectBoolFieldBranch {
                field: field@,
                truthy: Box::new(truthy@),
                falsy: Box::new(falsy@),
            }),
    {
        SemanticNode::ObjectBoolFieldBranch {
            field: field.to_owned(),
            truthy: Box::new(truthy),
            falsy: Box::new(falsy),
        }
    }

    /// One of two nodes, by whether a text of the current item is empty.
    #[must_use]
    pub fn object_text_field_branch(
        field: &str,
        invert: bool,
        truthy: SemanticNode,
        falsy: SemanticNode,
    ) -> (r: Self)
        ensures
            r@ == (SemanticNodeView::ObjectTextFieldBranch {
                field: field@,
                invert,
                truthy: Box::new(truthy@),
                falsy: Box::new(falsy@),
            }),
    {
        SemanticNode::ObjectTextFieldBranch {
            field: field.to_owned(),
            invert,
            truthy: Box::new(truthy),
            falsy: Box::new(falsy),
        }
    }

    /// A list of texts.
    #[must_use]
    pub fn text_list(
        binding: &str,
        values: Vec<String>,
        filter: Option<TextListFilter>,
        template: TextListTemplate,
    ) -> (r: Self)
        ensures
            r@ == (SemanticNodeView::TextList {
                binding: binding@,
                values: text_seq(values@),
                filter: opt_text_filter(filter),
                template: template@,
            }),
    {
        SemanticNode::TextList {
            binding: binding.to_owned(),
            values,
            filter,
            template,
        }
    }

    /// A list of items.
    #[must_use]
    pub fn object_list(
        binding: &str,
        filter: Option<ObjectListFilter>,
        item_actions: Vec<ObjectItemActionSpec>,
        template: SemanticNode,
    ) -> (r: Self)
        ensures
            r@ == (SemanticNodeView::ObjectList {
                binding: binding@,
                filter: opt_item_filter(filter),
                item_actions: action_spec_seq(item_actions@),
                template: Box::new(template@),
            }),
    {
        SemanticNode::ObjectList {
            binding: binding.to_owned(),
            filter,
            item_actions,
            template: Box::new(template),
        }
    }
}

/// A labelled value of the status view.
pub open spec fn status_line(label: Seq<char>, value: Seq<char>) -> SemanticNodeView {
    SemanticNodeView::Text(label + value)
}

/// An element of the status view.
pub open spec fn status_element(
    tag: Seq<char>,
    text: Option<Seq<char>>,
    properties: Seq<(Seq<char>, Seq<char>)>,
    kinds: Seq<UiEventKind>,
    children: Seq<SemanticNodeView>,
) -> SemanticNodeView {
    SemanticNodeView::Element {
        tag,
        text,
        properties,
        input_value: None,
        style_fragments: Seq::empty(),
        event_bindings: kinds.map_values(
            |kind: UiEventKind|
                SemanticEventBindingView { kind, source_binding: None, action: None },
        ),
        fact_bindings: Seq::empty(),
        children,
    }
}

/// `value`, or `none` if there is none.
pub open spec fn or_none(value: Option<Seq<char>>) -> Seq<char> {
    match value {
        Some(text) => text,
        None => "none"@,
    }
}

/// The status view that is shown while no program is active.
pub open spec fn status_view(
    source_len: nat,
    external_functions: nat,
    persistence_enabled: bool,
    event_batches: nat,
    fact_batches: nat,
    last_event: Option<Seq<char>>,
    last_fact: Option<Seq<char>>,
    draft_text: Seq<char>,
    focused: bool,
) -> SemanticProgramView {
    SemanticProgramView {
        root: status_element(
            "section"@,
            Some("Wasm runtime scaffold"@),
            Seq::empty(),
            Seq::empty(),
            seq![
                status_element(
                    "button"@,
                    Some("Dispatch click batch"@),
                    Seq::empty(),
                    seq![UiEventKind::Click],
                    Seq::empty(),
                ),
                status_element(
                    "input"@,
                    None,
                    seq![
                        ("type"@, "text"@),
                        ("placeholder"@, "Type to send event + fact batches"@),
                        ("value"@, draft_text),
                    ],
                    seq![UiEventKind::Focus, UiEventKind::Blur, UiEventKind::Input],
                    Seq::empty(),
                ),
                status_line("Source bytes: "@, nat_text(source_len)),
                status_line("External functions: "@, nat_text(external_functions)),
                status_line(
                    "Persistence: "@,
                    if persistence_enabled {
                        "enabled"@
                    } else {
                        "disabled"@
                    },
                ),
                status_line("Event batches: "@, nat_text(event_batches)),
                status_line("Fact batches: "@, nat_text(fact_batches)),
                status_line("Last event: "@, or_none(last_event)),
                status_line("Last fact: "@, or_none(last_fact)),
                status_line(
                    "Focused: "@,
                    if focused {
                        "yes"@
                    } else {
                        "no"@
                    },
                ),
            ],
        ),
        runtime: RuntimeModelView::Static,
    }
}

fn status_text(label: &str, value: &str) -> (r: SemanticNode)
    ensures
        r@ == status_line(label@, value@),
{
    let mut text = label.to_owned();
    text.append(value);
    SemanticNode::Text(text)
}

fn plain_event(kind: UiEventKind) -> (r: SemanticEventBinding)
    ensures
        r@ == (SemanticEventBindingView { kind, source_binding: None, action: None }),
{
    SemanticEventBinding { kind, source_binding: None, action: None }
}

fn status_button() -> (r: SemanticNode)
    ensures
        r@ == status_element(
            "button"@,
            Some("Dispatch click batch"@),
            Seq::empty(),
            seq![UiEventKind::Click],
            Seq::empty(),
        ),
{
    let r = SemanticNode::element(
        "button",
        Some("Dispatch click batch".to_owned()),
        Vec::new(),
        vec![plain_event(UiEventKind::Click)],
        Vec::new(),
    );
    proof {
        let kinds = seq![UiEventKind::Click];
        assert(r@->properties =~= Seq::<(Seq<char>, Seq<char>)>::empty());
        assert(r@->event_bindings =~= kinds.map_values(
            |kind: UiEventKind|
                SemanticEventBindingView { kind, source_binding: None, action: None },
        ));
        assert(r@->children =~= Seq::<SemanticNodeView>::empty());
    }
    r
}

fn status_input(draft_text: &str) -> (r: SemanticNode)
    ensures
        r@ == status_element(
            "input"@,
            None,
            seq![
                ("type"@, "text"@),
                ("placeholder"@, "Type to send event + fact batches"@),
                ("value"@, draft_text@),
            ],
            seq![UiEventKind::Focus, UiEventKind::Blur, UiEventKind::Input],
            Seq::empty(),
        ),
{
    let r = SemanticNode::element(
        "input",
        None,
        vec![
            ("type".to_owned(), "text".to_owned()),
            ("placeholder".to_owned(), "Type to send event + fact batches".to_owned()),
            ("value".to_owned(), draft_text.to_owned()),
        ],
        vec![
            plain_event(UiEventKind::Focus),
            plain_event(UiEventKind::Blur),
            plain_event(UiEventKind::Input),
        ],
        Vec::new(),
    );
    proof {
        let kinds = seq![UiEventKind::Focus, UiEventKind::Blur, UiEventKind::Input];
        assert(r@->properties =~= seq![
            ("type"@, "text"@),
            ("placeholder"@, "Type to send event + fact batches"@),
            ("value"@, draft_text@),
        ]);
        assert(r@->event_bindings =~= kinds.map_values(
            |kind: UiEventKind|
                SemanticEventBindingView { kind, source_binding: None, action: None },
        ));
        assert(r@->children =~= Seq::<SemanticNodeView>::empty());
    }
    r
}

/// The status view that is shown while no program is active.
#[must_use]
pub fn bootstrap_runtime_scaffold(
    source_len: usize,
    external_functions: usize,
    persistence_enabled: bool,
    event_batches: usize,
    fact_batches: usize,
    last_event: Option<&str>,
    last_fact: Option<&str>,
    draft_text: &str,
    focused: bool,
) -> (r: SemanticProgram)
    ensures
        r@ == status_view(
            source_len as nat,
            external_functions as nat,
            persistence_enabled,
            event_batches as nat,
            fact_batches as nat,
            opt_str(last_event),
            opt_str(last_fact),
            draft_text@,
            focused,
        ),
{
    let persistence = if persistence_enabled {
        "enabled"
    } else {
        "disabled"
    };
    let focus = if focused {
        "yes"
    } else {
        "no"
    };
    let event_text = match last_event {
        Some(text) => text,
        None => "none",
    };
    let fact_text = match last_fact {
        Some(text) => text,
        None => "none",
    };
    let children = vec![
        status_button(),
        status_input(draft_text),
        status_text("Source bytes: ", usize_text(source_len).as_str()),
        status_text("External functions: ", usize_text(external_functions).as_str()),
        status_text("Persistence: ", persistence),
        status_text("Event batches: ", usize_text(event_batches).as_str()),
        status_text("Fact batches: ", usize_text(fact_batches).as_str()),
        status_text("Last event: ", event_text),
        status_text("Last fact: ", fact_text),
        status_text("Focused: ", focus),
    ];
    let root = SemanticNode::element(
        "section",
        Some("Wasm runtime scaffold".to_owned()),
        Vec::new(),
        Vec::new(),
        children,
    );
    let r = SemanticProgram { root, runtime: RuntimeModel::Static };
    proof {
        let shown = status_view(
            source_len as nat,
            external_functions as nat,
            persistence_enabled,
            event_batches as nat,
            fact_batches as nat,
            opt_str(last_event),
            opt_str(last_fact),
            draft_text@,
            focused,
        );
        lemma_semantic_node_seq(children@);
        assert(root@->properties =~= Seq::<(Seq<char>, Seq<char>)>::empty());
        assert(root@->event_bindings =~= shown.root->event_bindings);
        assert(root@->children =~= shown.root->children);
    }
    r
}

} // verus!
