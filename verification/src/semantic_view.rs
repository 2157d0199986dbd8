//! The mathematical values of the types of the user interface description.
use crate::scene::UiEventKind;
use crate::semantic_ir::{
    DerivedArithmeticOp, DerivedScalarOperand, DerivedScalarSpec, IntCompareOp, ItemScalarUpdate,
    ItemTextUpdate, NestedObjectListAction, NestedObjectListUpdate, ObjectDerivedScalarOperand,
    ObjectItemActionKind, ObjectItemActionSpec, ObjectListFilter, ObjectListItem,
    ObjectListUpdate, RuntimeModel, ScalarRuntimeModel, ScalarUpdate, SemanticAction,
    SemanticEventBinding, SemanticFactBinding, SemanticFactKind, SemanticInputValue, SemanticNode,
    SemanticProgram, SemanticStyleFragment, SemanticTextPart, StateRuntimeModel, TextListFilter,
    TextListTemplate, TextListUpdate, TextUpdate,
};
use crate::text_map::{TextMap, keys_increase, lemma_pairs_map_values, pairs_map};
use vstd::prelude::*;

verus! {

/// The mathematical value of a [`SemanticProgram`].
#[verifier::ext_equal]
pub struct SemanticProgramView {
    pub root: SemanticNodeView,
    pub runtime: RuntimeModelView,
}

impl View for SemanticProgram {
    type V = SemanticProgramView;

    open spec fn view(&self) -> SemanticProgramView {
        SemanticProgramView {
            root: self.root@,
            runtime: self.runtime@,
        }
    }
}

/// The mathematical value of a [`SemanticNode`].
#[allow(inconsistent_fields)]
#[verifier::ext_equal]
pub enum SemanticNodeView {
    Fragment(Seq<SemanticNodeView>),
    Keyed { key: u64, node: Box<SemanticNodeView> },
    Element {
        tag: Seq<char>,
        text: Option<Seq<char>>,
        properties: Seq<(Seq<char>, Seq<char>)>,
        input_value: Option<SemanticInputValueView>,
        style_fragments: Seq<SemanticStyleFragmentView>,
        event_bindings: Seq<SemanticEventBindingView>,
        fact_bindings: Seq<SemanticFactBindingView>,
        children: Seq<SemanticNodeView>,
    },
    Text(Seq<char>),
    TextTemplate { parts: Seq<SemanticTextPartView>, value: Seq<char> },
    TextBindingBranch {
        binding: Seq<char>,
        invert: bool,
        truthy: Box<SemanticNodeView>,
        falsy: Box<SemanticNodeView>,
    },
    BoolBranch { binding: Seq<char>, truthy: Box<SemanticNodeView>, falsy: Box<SemanticNodeView> },
    ScalarCompareBranch {
        left: DerivedScalarOperandView,
        op: IntCompareOp,
        right: DerivedScalarOperandView,
        truthy: Box<SemanticNodeView>,
        falsy: Box<SemanticNodeView>,
    },
    ObjectScalarCompareBranch {
        left: ObjectDerivedScalarOperandView,
        op: IntCompareOp,
        right: ObjectDerivedScalarOperandView,
        truthy: Box<SemanticNodeView>,
        falsy: Box<SemanticNodeView>,
    },
    ObjectBoolFieldBranch {
        field: Seq<char>,
        truthy: Box<SemanticNodeView>,
        falsy: Box<SemanticNodeView>,
    },
    ObjectTextFieldBranch {
        field: Seq<char>,
        invert: bool,
        truthy: Box<SemanticNodeView>,
        falsy: Box<SemanticNodeView>,
    },
    ListEmptyBranch {
        binding: Seq<char>,
        object_items: bool,
        invert: bool,
        truthy: Box<SemanticNodeView>,
        falsy: Box<SemanticNodeView>,
    },
    ScalarValue { binding: Seq<char>, value: i64 },
    ObjectFieldValue { field: Seq<char> },
    TextList {
        binding: Seq<char>,
        values: Seq<Seq<char>>,
        filter: Option<TextListFilterView>,
        template: TextListTemplateView,
    },
    ObjectList {
        binding: Seq<char>,
        filter: Option<ObjectListFilterView>,
        item_actions: Seq<ObjectItemActionSpecView>,
        template: Box<SemanticNodeView>,
    },
}

pub open spec fn semantic_node_view(v: SemanticNode) -> SemanticNodeView
    decreases v,
{
    match v {
        SemanticNode::Fragment(a) => SemanticNodeView::Fragment(semantic_node_seq(a@)),
        SemanticNode::Keyed { key, node } => SemanticNodeView::Keyed {
            key,
            node: Box::new(semantic_node_view(*node)),
        },
        SemanticNode::Element {
            tag,
            text,
            properties,
            input_value,
            style_fragments,
            event_bindings,
            fact_bindings,
            children,
        } => SemanticNodeView::Element {
            tag: tag@,
            text: match text { Some(x) => Some(x@), None => None },
            properties: properties@.map_values(|x: (String, String)| (x.0@, x.1@)),
            input_value: match input_value { Some(x) => Some(x@), None => None },
            style_fragments: style_fragments@.map_values(|x: SemanticStyleFragment| x@),
            event_bindings: event_bindings@.map_values(|x: SemanticEventBinding| x@),
            fact_bindings: fact_bindings@.map_values(|x: SemanticFactBinding| x@),
            children: semantic_node_seq(children@),
        },
        SemanticNode::Text(a) => SemanticNodeView::Text(a@),
        SemanticNode::TextTemplate { parts, value } => SemanticNodeView::TextTemplate {
            parts: parts@.map_values(|x: SemanticTextPart| x@),
            value: value@,
        },
        SemanticNode::TextBindingBranch {
            binding,
            invert,
            truthy,
            falsy,
        } => SemanticNodeView::TextBindingBranch {
            binding: binding@,
            invert,
            truthy: Box::new(semantic_node_view(*truthy)),
            falsy: Box::new(semantic_node_view(*falsy)),
        },
        SemanticNode::BoolBranch { binding, truthy, falsy } => SemanticNodeView::BoolBranch {
            binding: binding@,
            truthy: Box::new(semantic_node_view(*truthy)),
            falsy: Box::new(semantic_node_view(*falsy)),
        },
        SemanticNode::ScalarCompareBranch {
            left,
            op,
            right,
            truthy,
            falsy,
        } => SemanticNodeView::ScalarCompareBranch {
            left: left@,
            op,
            right: right@,
            truthy: Box::new(semantic_node_view(*truthy)),
            falsy: Box::new(semantic_node_view(*falsy)),
        },
        SemanticNode::ObjectScalarCompareBranch {
            left,
            op,
            right,
            truthy,
            falsy,
        } => SemanticNodeView::ObjectScalarCompareBranch {
            left: left@,
            op,
            right: right@,
            truthy: Box::new(semantic_node_view(*truthy)),
            falsy: Box::new(semantic_node_view(*falsy)),
        },
        SemanticNode::ObjectBoolFieldBranch {
            field,
            truthy,
            falsy,
        } => SemanticNodeView::ObjectBoolFieldBranch {
            field: field@,
            truthy: Box::new(semantic_node_view(*truthy)),
            falsy: Box::new(semantic_node_view(*falsy)),
        },
        SemanticNode::ObjectTextFieldBranch {
            field,
            invert,
            truthy,
            falsy,
        } => SemanticNodeView::ObjectTextFieldBranch {
            field: field@,
            invert,
            truthy: Box::new(semantic_node_view(*truthy)),
            falsy: Box::new(semantic_node_view(*falsy)),
        },
        SemanticNode::ListEmptyBranch {
            binding,
            object_items,
            invert,
            truthy,
            falsy,
        } => SemanticNodeView::ListEmptyBranch {
            binding: binding@,
            object_items,
            invert,
            truthy: Box::new(semantic_node_view(*truthy)),
            falsy: Box::new(semantic_node_view(*falsy)),
        },
        SemanticNode::ScalarValue { binding, value } => SemanticNodeView::ScalarValue {
            binding: binding@,
            value,
        },
        SemanticNode::ObjectFieldValue { field } => SemanticNodeView::ObjectFieldValue {
            field: field@,
        },
        SemanticNode::TextList { binding, values, filter, template } => SemanticNodeView::TextList {
            binding: binding@,
            values: values@.map_values(|x: String| x@),
            filter: match filter { Some(x) => Some(x@), None => None },
            template: template@,
        },
        SemanticNode::ObjectList {
            binding,
            filter,
            item_actions,
            template,
        } => SemanticNodeView::ObjectList {
            binding: binding@,
            filter: match filter { Some(x) => Some(x@), None => None },
            item_actions: item_actions@.map_values(|x: ObjectItemActionSpec| x@),
            template: Box::new(semantic_node_view(*template)),
        },
    }
}

/// The values of the elements of a sequence.
pub open spec fn semantic_node_seq(s: Seq<SemanticNode>) -> Seq<SemanticNodeView>
    decreases s,
{
    Seq::new(
        s.len(),
        |i: int|
            if 0 <= i < s.len() {
                semantic_node_view(s[i])
            } else {
                arbitrary()
            },
    )
}

/// The values of the elements of a sequence, one by one.
pub proof fn lemma_semantic_node_seq(s: Seq<SemanticNode>)
    ensures
        semantic_node_seq(s) == s.map_values(|x: SemanticNode| x@),
        semantic_node_seq(s).len() == s.len(),
        forall|i: int| 0 <= i < s.len() ==> #[trigger] semantic_node_seq(s)[i] == s[i]@,
{
    assert(semantic_node_seq(s) =~= s.map_values(|x: SemanticNode| x@));
}

impl View for SemanticNode {
    type V = SemanticNodeView;

    open spec fn view(&self) -> SemanticNodeView {
        semantic_node_view(*self)
    }
}

/// The mathematical value of a [`SemanticTextPart`].
#[allow(inconsistent_fields)]
#[verifier::ext_equal]
pub enum SemanticTextPartView {
    Static(Seq<char>),
    TextBinding(Seq<char>),
    ScalarBinding(Seq<char>),
    ObjectFieldBinding(Seq<char>),
    ListCountBinding(Seq<char>),
    ObjectListCountBinding(Seq<char>),
    FilteredListCountBinding { binding: Seq<char>, filter: TextListFilterView },
    FilteredObjectListCountBinding { binding: Seq<char>, filter: ObjectListFilterView },
    BoolBindingText { binding: Seq<char>, true_text: Seq<char>, false_text: Seq<char> },
    ObjectBoolFieldText { field: Seq<char>, true_text: Seq<char>, false_text: Seq<char> },
}

impl View for SemanticTextPart {
    type V = SemanticTextPartView;

    open spec fn view(&self) -> SemanticTextPartView {
        match self {
            SemanticTextPart::Static(a) => SemanticTextPartView::Static(a@),
            SemanticTextPart::TextBinding(a) => SemanticTextPartView::TextBinding(a@),
            SemanticTextPart::ScalarBinding(a) => SemanticTextPartView::ScalarBinding(a@),
            SemanticTextPart::ObjectFieldBinding(a) => SemanticTextPartView::ObjectFieldBinding(a@),
            SemanticTextPart::ListCountBinding(a) => SemanticTextPartView::ListCountBinding(a@),
            SemanticTextPart::ObjectListCountBinding(
                a,
            ) => SemanticTextPartView::ObjectListCountBinding(a@),
            SemanticTextPart::FilteredListCountBinding {
                binding,
                filter,
            } => SemanticTextPartView::FilteredListCountBinding {
                binding: binding@,
                filter: filter@,
            },
            SemanticTextPart::FilteredObjectListCountBinding {
                binding,
                filter,
            } => SemanticTextPartView::FilteredObjectListCountBinding {
                binding: binding@,
                filter: filter@,
            },
            SemanticTextPart::BoolBindingText {
                binding,
                true_text,
                false_text,
            } => SemanticTextPartView::BoolBindingText {
                binding: binding@,
                true_text: true_text@,
                false_text: false_text@,
            },
            SemanticTextPart::ObjectBoolFieldText {
                field,
                true_text,
                false_text,
            } => SemanticTextPartView::ObjectBoolFieldText {
                field: field@,
                true_text: true_text@,
                false_text: false_text@,
            },
        }
    }
}

/// The mathematical value of a [`SemanticInputValue`].
#[verifier::ext_equal]
pub enum SemanticInputValueView {
    Static(Seq<char>),
    TextParts { parts: Seq<SemanticTextPartView>, value: Seq<char> },
    TextBindingBranch {
        binding: Seq<char>,
        invert: bool,
        truthy: Box<SemanticInputValueView>,
        falsy: Box<SemanticInputValueView>,
    },
    ObjectTextFieldBranch {
        field: Seq<char>,
        invert: bool,
        truthy: Box<SemanticInputValueView>,
        falsy: Box<SemanticInputValueView>,
    },
}

pub open spec fn semantic_input_value_view(v: SemanticInputValue) -> SemanticInputValueView
    decreases v,
{
    match v {
        SemanticInputValue::Static(a) => SemanticInputValueView::Static(a@),
        SemanticInputValue::TextParts { parts, value } => SemanticInputValueView::TextParts {
            parts: parts@.map_values(|x: SemanticTextPart| x@),
            value: value@,
        },
        SemanticInputValue::TextBindingBranch {
            binding,
            invert,
            truthy,
            falsy,
        } => SemanticInputValueView::TextBindingBranch {
            binding: binding@,
            invert,
            truthy: Box::new(semantic_input_value_view(*truthy)),
            falsy: Box::new(semantic_input_value_view(*falsy)),
        },
        SemanticInputValue::ObjectTextFieldBranch {
            field,
            invert,
            truthy,
            falsy,
        } => SemanticInputValueView::ObjectTextFieldBranch {
            field: field@,
            invert,
            truthy: Box::new(semantic_input_value_view(*truthy)),
            falsy: Box::new(semantic_input_value_view(*falsy)),
        },
    }
}

impl View for SemanticInputValue {
    type V = SemanticInputValueView;

    open spec fn view(&self) -> SemanticInputValueView {
        semantic_input_value_view(*self)
    }
}

/// The mathematical value of a [`TextListFilter`].
#[verifier::ext_equal]
pub enum TextListFilterView {
    IntCompare { op: IntCompareOp, value: i64 },
}

impl View for TextListFilter {
    type V = TextListFilterView;

    open spec fn view(&self) -> TextListFilterView {
        match self {
            TextListFilter::IntCompare { op, value } => TextListFilterView::IntCompare {
                op: *op,
                value: *value,
            },
        }
    }
}

/// The mathematical value of a [`TextListTemplate`].
#[verifier::ext_equal]
pub struct TextListTemplateView {
    pub tag: Seq<char>,
    pub properties: Seq<(Seq<char>, Seq<char>)>,
    pub prefix: Seq<char>,
    pub suffix: Seq<char>,
}

impl View for TextListTemplate {
    type V = TextListTemplateView;

    open spec fn view(&self) -> TextListTemplateView {
        TextListTemplateView {
            tag: self.tag@,
            properties: self.properties@.map_values(|x: (String, String)| (x.0@, x.1@)),
            prefix: self.prefix@,
            suffix: self.suffix@,
        }
    }
}

/// The mathematical value of a [`ObjectListFilter`].
#[verifier::ext_equal]
pub enum ObjectListFilterView {
    BoolFieldEquals { field: Seq<char>, value: bool },
    SelectedCompletedByScalar { binding: Seq<char> },
}

impl View for ObjectListFilter {
    type V = ObjectListFilterView;

    open spec fn view(&self) -> ObjectListFilterView {
        match self {
            ObjectListFilter::BoolFieldEquals {
                field,
                value,
            } => ObjectListFilterView::BoolFieldEquals {
                field: field@,
                value: *value,
            },
            ObjectListFilter::SelectedCompletedByScalar {
                binding,
            } => ObjectListFilterView::SelectedCompletedByScalar {
                binding: binding@,
            },
        }
    }
}

/// The mathematical value of a [`ObjectListItem`].
#[verifier::ext_equal]
pub struct ObjectListItemView {
    pub id: u64,
    pub title: Seq<char>,
    pub completed: bool,
    pub text_fields: Map<Seq<char>, Seq<char>>,
    pub bool_fields: Map<Seq<char>, bool>,
    pub scalar_fields: Map<Seq<char>, i64>,
    pub object_lists: Map<Seq<char>, Seq<ObjectListItemView>>,
    pub nested_item_actions: Map<Seq<char>, Seq<ObjectItemActionSpecView>>,
}

pub open(crate) spec fn object_list_item_view(v: ObjectListItem) -> ObjectListItemView
    decreases v,
{
    ObjectListItemView {
        id: v.id,
        title: v.title@,
        completed: v.completed,
        text_fields: v.text_fields@.map_values(|x: String| x@),
        bool_fields: v.bool_fields@,
        scalar_fields: v.scalar_fields@,
        object_lists: pairs_map(object_list_item_lists_pairs(v.object_lists)),
        nested_item_actions: pairs_map(object_item_action_spec_lists_pairs(v.nested_item_actions)),
    }
}

/// The values of the elements of a sequence.
pub open(crate) spec fn object_list_item_seq(s: Seq<ObjectListItem>) -> Seq<ObjectListItemView>
    decreases s,
{
    Seq::new(
        s.len(),
        |i: int|
            if 0 <= i < s.len() {
                object_list_item_view(s[i])
            } else {
                arbitrary()
            },
    )
}

/// The values of the elements of a sequence, one by one.
pub proof fn lemma_object_list_item_seq(s: Seq<ObjectListItem>)
    ensures
        object_list_item_seq(s) == s.map_values(|x: ObjectListItem| x@),
        object_list_item_seq(s).len() == s.len(),
        forall|i: int| 0 <= i < s.len() ==> #[trigger] object_list_item_seq(s)[i] == s[i]@,
{
    assert(object_list_item_seq(s) =~= s.map_values(|x: ObjectListItem| x@));
}

/// The entries of a map of lists, with the values of their items.
pub open(crate) spec fn object_list_item_lists_pairs(
    m: TextMap<Vec<ObjectListItem>>,
) -> Seq<(Seq<char>, Seq<ObjectListItemView>)>
    decreases m,
{
    Seq::new(
        m.entries@.len(),
        |i: int| (
            m.entries@[i].0@,
            if 0 <= i < m.entries@.len() {
                object_list_item_seq(m.entries@[i].1@)
            } else {
                arbitrary()
            },
        ),
    )
}

/// The value of a map of lists is the map of the values of its lists.
pub(crate) proof fn lemma_object_list_item_lists(m: TextMap<Vec<ObjectListItem>>)
    requires
        keys_increase(m.entries@),
    ensures
        pairs_map(
            object_list_item_lists_pairs(m),
        ) == m@.map_values(|s: Vec<ObjectListItem>| s@.map_values(|x: ObjectListItem| x@)),
{
    let f = |s: Vec<ObjectListItem>| s@.map_values(|x: ObjectListItem| x@);
    let pairs = object_list_item_lists_pairs(m);
    assert forall|i: int| 0 <= i < pairs.len() implies (#[trigger] pairs[i]).0
        == m.entries@[i].0@ && pairs[i].1 == f(m.entries@[i].1) by {
        lemma_object_list_item_seq(m.entries@[i].1@);
    }
    lemma_pairs_map_values(m.entries@, pairs, f);
}

/// The entries of a map of lists, with the values of their items.
pub open(crate) spec fn object_item_action_spec_lists_pairs(
    m: TextMap<Vec<ObjectItemActionSpec>>,
) -> Seq<(Seq<char>, Seq<ObjectItemActionSpecView>)>
    decreases m,
{
    Seq::new(
        m.entries@.len(),
        |i: int| (
            m.entries@[i].0@,
            if 0 <= i < m.entries@.len() {
                object_item_action_spec_seq(m.entries@[i].1@)
            } else {
                arbitrary()
            },
        ),
    )
}

/// The value of a map of lists is the map of the values of its lists.
pub(crate) proof fn lemma_object_item_action_spec_lists(m: TextMap<Vec<ObjectItemActionSpec>>)
    requires
        keys_increase(m.entries@),
    ensures
        pairs_map(
            object_item_action_spec_lists_pairs(m),
        ) == m@.map_values(|s: Vec<ObjectItemActionSpec>| s@.map_values(|x: ObjectItemActionSpec| x@)),
{
    let f = |s: Vec<ObjectItemActionSpec>| s@.map_values(|x: ObjectItemActionSpec| x@);
    let pairs = object_item_action_spec_lists_pairs(m);
    assert forall|i: int| 0 <= i < pairs.len() implies (#[trigger] pairs[i]).0
        == m.entries@[i].0@ && pairs[i].1 == f(m.entries@[i].1) by {
        lemma_object_item_action_spec_seq(m.entries@[i].1@);
    }
    lemma_pairs_map_values(m.entries@, pairs, f);
}

impl View for ObjectListItem {
    type V = ObjectListItemView;

    open(crate) spec fn view(&self) -> ObjectListItemView {
        object_list_item_view(*self)
    }
}

/// The mathematical value of a [`ObjectItemActionSpec`].
#[verifier::ext_equal]
pub struct ObjectItemActionSpecView {
    pub source_binding_suffix: Seq<char>,
    pub kind: UiEventKind,
    pub action: ObjectItemActionKindView,
}

pub open(crate) spec fn object_item_action_spec_view(
    v: ObjectItemActionSpec,
) -> ObjectItemActionSpecView
    decreases v,
{
    ObjectItemActionSpecView {
        source_binding_suffix: v.source_binding_suffix@,
        kind: v.kind,
        action: object_item_action_kind_view(v.action),
    }
}

/// The values of the elements of a sequence.
pub open(crate) spec fn object_item_action_spec_seq(
    s: Seq<ObjectItemActionSpec>,
) -> Seq<ObjectItemActionSpecView>
    decreases s,
{
    Seq::new(
        s.len(),
        |i: int|
            if 0 <= i < s.len() {
                object_item_action_spec_view(s[i])
            } else {
                arbitrary()
            },
    )
}

/// The values of the elements of a sequence, one by one.
pub proof fn lemma_object_item_action_spec_seq(s: Seq<ObjectItemActionSpec>)
    ensures
        object_item_action_spec_seq(s) == s.map_values(|x: ObjectItemActionSpec| x@),
        object_item_action_spec_seq(s).len() == s.len(),
        forall|i: int| 0 <= i < s.len() ==> #[trigger] object_item_action_spec_seq(s)[i] == s[i]@,
{
    assert(object_item_action_spec_seq(s) =~= s.map_values(|x: ObjectItemActionSpec| x@));
}

impl View for ObjectItemActionSpec {
    type V = ObjectItemActionSpecView;

    open(crate) spec fn view(&self) -> ObjectItemActionSpecView {
        object_item_action_spec_view(*self)
    }
}

/// The mathematical value of a [`ObjectItemActionKind`].
#[verifier::ext_equal]
pub enum ObjectItemActionKindView {
    ToggleBoolField { field: Seq<char> },
    UpdateNestedObjectLists { updates: Seq<NestedObjectListActionView> },
    SetBoolField { field: Seq<char>, value: bool, payload_filter: Option<Seq<char>> },
    SetTitle { trim: bool, reject_empty: bool, payload_filter: Option<Seq<char>> },
    UpdateBindings {
        scalar_updates: Seq<ItemScalarUpdateView>,
        text_updates: Seq<ItemTextUpdateView>,
        payload_filter: Option<Seq<char>>,
    },
    RemoveSelf,
}

pub open(crate) spec fn object_item_action_kind_view(
    v: ObjectItemActionKind,
) -> ObjectItemActionKindView
    decreases v,
{
    match v {
        ObjectItemActionKind::ToggleBoolField {
            field,
        } => ObjectItemActionKindView::ToggleBoolField {
            field: field@,
        },
        ObjectItemActionKind::UpdateNestedObjectLists {
            updates,
        } => ObjectItemActionKindView::UpdateNestedObjectLists {
            updates: nested_object_list_action_seq(updates@),
        },
        ObjectItemActionKind::SetBoolField {
            field,
            value,
            payload_filter,
        } => ObjectItemActionKindView::SetBoolField {
            field: field@,
            value,
            payload_filter: match payload_filter { Some(x) => Some(x@), None => None },
        },
        ObjectItemActionKind::SetTitle {
            trim,
            reject_empty,
            payload_filter,
        } => ObjectItemActionKindView::SetTitle {
            trim,
            reject_empty,
            payload_filter: match payload_filter { Some(x) => Some(x@), None => None },
        },
        ObjectItemActionKind::UpdateBindings {
            scalar_updates,
            text_updates,
            payload_filter,
        } => ObjectItemActionKindView::UpdateBindings {
            scalar_updates: scalar_updates@.map_values(|x: ItemScalarUpdate| x@),
            text_updates: text_updates@.map_values(|x: ItemTextUpdate| x@),
            payload_filter: match payload_filter { Some(x) => Some(x@), None => None },
        },
        ObjectItemActionKind::RemoveSelf => ObjectItemActionKindView::RemoveSelf,
    }
}

impl View for ObjectItemActionKind {
    type V = ObjectItemActionKindView;

    open(crate) spec fn view(&self) -> ObjectItemActionKindView {
        object_item_action_kind_view(*self)
    }
}

/// The mathematical value of a [`NestedObjectListAction`].
#[verifier::ext_equal]
pub enum NestedObjectListActionView {
    AppendObject { field: Seq<char>, item: ObjectListItemView },
}

pub open(crate) spec fn nested_object_list_action_view(
    v: NestedObjectListAction,
) -> NestedObjectListActionView
    decreases v,
{
    match v {
        NestedObjectListAction::AppendObject {
            field,
            item,
        } => NestedObjectListActionView::AppendObject {
            field: field@,
            item: object_list_item_view(item),
        },
    }
}

/// The values of the elements of a sequence.
pub open(crate) spec fn nested_object_list_action_seq(
    s: Seq<NestedObjectListAction>,
) -> Seq<NestedObjectListActionView>
    decreases s,
{
    Seq::new(
        s.len(),
        |i: int|
            if 0 <= i < s.len() {
                nested_object_list_action_view(s[i])
            } else {
                arbitrary()
            },
    )
}

/// The values of the elements of a sequence, one by one.
pub proof fn lemma_nested_object_list_action_seq(s: Seq<NestedObjectListAction>)
    ensures
        nested_object_list_action_seq(s) == s.map_values(|x: NestedObjectListAction| x@),
        nested_object_list_action_seq(s).len() == s.len(),
        forall|i: int| 0 <= i < s.len() ==> #[trigger] nested_object_list_action_seq(s)[i] == s[i]@,
{
    assert(nested_object_list_action_seq(s) =~= s.map_values(|x: NestedObjectListAction| x@));
}

impl View for NestedObjectListAction {
    type V = NestedObjectListActionView;

    open(crate) spec fn view(&self) -> NestedObjectListActionView {
        nested_object_list_action_view(*self)
    }
}

/// The mathematical value of a [`ItemScalarUpdate`].
#[verifier::ext_equal]
pub enum ItemScalarUpdateView {
    SetStatic { binding: Seq<char>, value: i64 },
    SetFromField { binding: Seq<char>, field: Seq<char> },
}

impl View for ItemScalarUpdate {
    type V = ItemScalarUpdateView;

    open spec fn view(&self) -> ItemScalarUpdateView {
        match self {
            ItemScalarUpdate::SetStatic { binding, value } => ItemScalarUpdateView::SetStatic {
                binding: binding@,
                value: *value,
            },
            ItemScalarUpdate::SetFromField {
                binding,
                field,
            } => ItemScalarUpdateView::SetFromField {
                binding: binding@,
                field: field@,
            },
        }
    }
}

/// The mathematical value of a [`ItemTextUpdate`].
#[verifier::ext_equal]
pub enum ItemTextUpdateView {
    SetStatic { binding: Seq<char>, value: Seq<char> },
    SetFromField { binding: Seq<char>, field: Seq<char> },
    SetFromPayload { binding: Seq<char> },
    SetFromInputSource { binding: Seq<char>, source_suffix: Seq<char> },
}

impl View for ItemTextUpdate {
    type V = ItemTextUpdateView;

    open spec fn view(&self) -> ItemTextUpdateView {
        match self {
            ItemTextUpdate::SetStatic { binding, value } => ItemTextUpdateView::SetStatic {
                binding: binding@,
                value: value@,
            },
            ItemTextUpdate::SetFromField { binding, field } => ItemTextUpdateView::SetFromField {
                binding: binding@,
                field: field@,
            },
            ItemTextUpdate::SetFromPayload { binding } => ItemTextUpdateView::SetFromPayload {
                binding: binding@,
            },
            ItemTextUpdate::SetFromInputSource {
                binding,
                source_suffix,
            } => ItemTextUpdateView::SetFromInputSource {
                binding: binding@,
                source_suffix: source_suffix@,
            },
        }
    }
}

/// The mathematical value of a [`SemanticEventBinding`].
#[verifier::ext_equal]
pub struct SemanticEventBindingView {
    pub kind: UiEventKind,
    pub source_binding: Option<Seq<char>>,
    pub action: Option<SemanticActionView>,
}

impl View for SemanticEventBinding {
    type V = SemanticEventBindingView;

    open spec fn view(&self) -> SemanticEventBindingView {
        SemanticEventBindingView {
            kind: self.kind,
            source_binding: match self.source_binding { Some(x) => Some(x@), None => None },
            action: match self.action { Some(x) => Some(x@), None => None },
        }
    }
}

/// The mathematical value of a [`SemanticFactBinding`].
#[verifier::ext_equal]
pub struct SemanticFactBindingView {
    pub kind: SemanticFactKind,
    pub binding: Seq<char>,
}

impl View for SemanticFactBinding {
    type V = SemanticFactBindingView;

    open spec fn view(&self) -> SemanticFactBindingView {
        SemanticFactBindingView {
            kind: self.kind,
            binding: self.binding@,
        }
    }
}

/// The mathematical value of a [`SemanticStyleFragment`].
#[verifier::ext_equal]
pub enum SemanticStyleFragmentView {
    Static(Option<Seq<char>>),
    BoolBinding {
        binding: Seq<char>,
        truthy: Box<SemanticStyleFragmentView>,
        falsy: Box<SemanticStyleFragmentView>,
    },
    ScalarCompare {
        left: DerivedScalarOperandView,
        op: IntCompareOp,
        right: DerivedScalarOperandView,
        truthy: Box<SemanticStyleFragmentView>,
        falsy: Box<SemanticStyleFragmentView>,
    },
    ObjectBoolField {
        field: Seq<char>,
        truthy: Box<SemanticStyleFragmentView>,
        falsy: Box<SemanticStyleFragmentView>,
    },
}

pub open spec fn semantic_style_fragment_view(v: SemanticStyleFragment) -> SemanticStyleFragmentView
    decreases v,
{
    match v {
        SemanticStyleFragment::Static(a) => SemanticStyleFragmentView::Static(
            match a { Some(x) => Some(x@), None => None },
        ),
        SemanticStyleFragment::BoolBinding {
            binding,
            truthy,
            falsy,
        } => SemanticStyleFragmentView::BoolBinding {
            binding: binding@,
            truthy: Box::new(semantic_style_fragment_view(*truthy)),
            falsy: Box::new(semantic_style_fragment_view(*falsy)),
        },
        SemanticStyleFragment::ScalarCompare {
            left,
            op,
            right,
            truthy,
            falsy,
        } => SemanticStyleFragmentView::ScalarCompare {
            left: left@,
            op,
            right: right@,
            truthy: Box::new(semantic_style_fragment_view(*truthy)),
            falsy: Box::new(semantic_style_fragment_view(*falsy)),
        },
        SemanticStyleFragment::ObjectBoolField {
            field,
            truthy,
            falsy,
        } => SemanticStyleFragmentView::ObjectBoolField {
            field: field@,
            truthy: Box::new(semantic_style_fragment_view(*truthy)),
            falsy: Box::new(semantic_style_fragment_view(*falsy)),
        },
    }
}

impl View for SemanticStyleFragment {
    type V = SemanticStyleFragmentView;

    open spec fn view(&self) -> SemanticStyleFragmentView {
        semantic_style_fragment_view(*self)
    }
}

/// The mathematical value of a [`SemanticAction`].
#[allow(inconsistent_fields)]
#[verifier::ext_equal]
pub enum SemanticActionView {
    UpdateScalars { updates: Seq<ScalarUpdateView> },
    UpdateTexts { updates: Seq<TextUpdateView> },
    UpdateTextLists { updates: Seq<TextListUpdateView> },
    UpdateObjectLists { updates: Seq<ObjectListUpdateView> },
    UpdateNestedObjectLists {
        parent_binding: Seq<char>,
        parent_item_id: u64,
        updates: Seq<NestedObjectListUpdateView>,
    },
    Batch { actions: Seq<SemanticActionView> },
}

pub open spec fn semantic_action_view(v: SemanticAction) -> SemanticActionView
    decreases v,
{
    match v {
        SemanticAction::UpdateScalars { updates } => SemanticActionView::UpdateScalars {
            updates: updates@.map_values(|x: ScalarUpdate| x@),
        },
        SemanticAction::UpdateTexts { updates } => SemanticActionView::UpdateTexts {
            updates: updates@.map_values(|x: TextUpdate| x@),
        },
        SemanticAction::UpdateTextLists { updates } => SemanticActionView::UpdateTextLists {
            updates: updates@.map_values(|x: TextListUpdate| x@),
        },
        SemanticAction::UpdateObjectLists { updates } => SemanticActionView::UpdateObjectLists {
            updates: updates@.map_values(|x: ObjectListUpdate| x@),
        },
        SemanticAction::UpdateNestedObjectLists {
            parent_binding,
            parent_item_id,
            updates,
        } => SemanticActionView::UpdateNestedObjectLists {
            parent_binding: parent_binding@,
            parent_item_id,
            updates: updates@.map_values(|x: NestedObjectListUpdate| x@),
        },
        SemanticAction::Batch { actions } => SemanticActionView::Batch {
            actions: semantic_action_seq(actions@),
        },
    }
}

/// The values of the elements of a sequence.
pub open spec fn semantic_action_seq(s: Seq<SemanticAction>) -> Seq<SemanticActionView>
    decreases s,
{
    Seq::new(
        s.len(),
        |i: int|
            if 0 <= i < s.len() {
                semantic_action_view(s[i])
            } else {
                arbitrary()
            },
    )
}

/// The values of the elements of a sequence, one by one.
pub proof fn lemma_semantic_action_seq(s: Seq<SemanticAction>)
    ensures
        semantic_action_seq(s) == s.map_values(|x: SemanticAction| x@),
        semantic_action_seq(s).len() == s.len(),
        forall|i: int| 0 <= i < s.len() ==> #[trigger] semantic_action_seq(s)[i] == s[i]@,
{
    assert(semantic_action_seq(s) =~= s.map_values(|x: SemanticAction| x@));
}

impl View for SemanticAction {
    type V = SemanticActionView;

    open spec fn view(&self) -> SemanticActionView {
        semantic_action_view(*self)
    }
}

/// The mathematical value of a [`RuntimeModel`].
#[allow(inconsistent_fields)]
#[verifier::ext_equal]
pub enum RuntimeModelView {
    Static,
    Scalars(ScalarRuntimeModelView),
    State(StateRuntimeModelView),
}

impl View for RuntimeModel {
    type V = RuntimeModelView;

    open spec fn view(&self) -> RuntimeModelView {
        match self {
            RuntimeModel::Static => RuntimeModelView::Static,
            RuntimeModel::Scalars(a) => RuntimeModelView::Scalars(a@),
            RuntimeModel::State(a) => RuntimeModelView::State(a@),
        }
    }
}

/// The mathematical value of a [`ScalarRuntimeModel`].
#[verifier::ext_equal]
pub struct ScalarRuntimeModelView {
    pub values: Map<Seq<char>, i64>,
}

impl View for ScalarRuntimeModel {
    type V = ScalarRuntimeModelView;

    open spec fn view(&self) -> ScalarRuntimeModelView {
        ScalarRuntimeModelView {
            values: self.values@,
        }
    }
}

/// The mathematical value of a [`DerivedScalarOperand`].
#[allow(inconsistent_fields)]
#[verifier::ext_equal]
pub enum DerivedScalarOperandView {
    Binding(Seq<char>),
    Literal(i64),
}

impl View for DerivedScalarOperand {
    type V = DerivedScalarOperandView;

    open spec fn view(&self) -> DerivedScalarOperandView {
        match self {
            DerivedScalarOperand::Binding(a) => DerivedScalarOperandView::Binding(a@),
            DerivedScalarOperand::Literal(a) => DerivedScalarOperandView::Literal(*a),
        }
    }
}

/// The mathematical value of a [`ObjectDerivedScalarOperand`].
#[allow(inconsistent_fields)]
#[verifier::ext_equal]
pub enum ObjectDerivedScalarOperandView {
    Binding(Seq<char>),
    Field(Seq<char>),
    Literal(i64),
}

impl View for ObjectDerivedScalarOperand {
    type V = ObjectDerivedScalarOperandView;

    open spec fn view(&self) -> ObjectDerivedScalarOperandView {
        match self {
            ObjectDerivedScalarOperand::Binding(a) => ObjectDerivedScalarOperandView::Binding(a@),
            ObjectDerivedScalarOperand::Field(a) => ObjectDerivedScalarOperandView::Field(a@),
            ObjectDerivedScalarOperand::Literal(a) => ObjectDerivedScalarOperandView::Literal(*a),
        }
    }
}

/// The mathematical value of a [`DerivedScalarSpec`].
#[allow(inconsistent_fields)]
#[verifier::ext_equal]
pub enum DerivedScalarSpecView {
    TextListCount { binding: Seq<char>, filter: Option<TextListFilterView>, target: Seq<char> },
    ObjectListCount { binding: Seq<char>, filter: Option<ObjectListFilterView>, target: Seq<char> },
    Arithmetic {
        target: Seq<char>,
        op: DerivedArithmeticOp,
        left: DerivedScalarOperandView,
        right: DerivedScalarOperandView,
    },
    Comparison {
        target: Seq<char>,
        op: IntCompareOp,
        left: DerivedScalarOperandView,
        right: DerivedScalarOperandView,
    },
}

impl View for DerivedScalarSpec {
    type V = DerivedScalarSpecView;

    open spec fn view(&self) -> DerivedScalarSpecView {
        match self {
            DerivedScalarSpec::TextListCount {
                binding,
                filter,
                target,
            } => DerivedScalarSpecView::TextListCount {
                binding: binding@,
                filter: match filter { Some(x) => Some(x@), None => None },
                target: target@,
            },
            DerivedScalarSpec::ObjectListCount {
                binding,
                filter,
                target,
            } => DerivedScalarSpecView::ObjectListCount {
                binding: binding@,
                filter: match filter { Some(x) => Some(x@), None => None },
                target: target@,
            },
            DerivedScalarSpec::Arithmetic {
                target,
                op,
                left,
                right,
            } => DerivedScalarSpecView::Arithmetic {
                target: target@,
                op: *op,
                left: left@,
                right: right@,
            },
            DerivedScalarSpec::Comparison {
                target,
                op,
                left,
                right,
            } => DerivedScalarSpecView::Comparison {
                target: target@,
                op: *op,
                left: left@,
                right: right@,
            },
        }
    }
}

/// The mathematical value of a [`StateRuntimeModel`].
#[verifier::ext_equal]
pub struct StateRuntimeModelView {
    pub scalar_values: Map<Seq<char>, i64>,
    pub text_values: Map<Seq<char>, Seq<char>>,
    pub text_lists: Map<Seq<char>, Seq<Seq<char>>>,
    pub object_lists: Map<Seq<char>, Seq<ObjectListItemView>>,
    pub input_texts: Map<Seq<char>, Seq<char>>,
    pub derived_scalars: Seq<DerivedScalarSpecView>,
}

impl View for StateRuntimeModel {
    type V = StateRuntimeModelView;

    open spec fn view(&self) -> StateRuntimeModelView {
        StateRuntimeModelView {
            scalar_values: self.scalar_values@,
            text_values: self.text_values@.map_values(|x: String| x@),
            text_lists: self.text_lists@.map_values(|x: Vec<String>| x@.map_values(|x: String| x@)),
            object_lists: self.object_lists@.map_values(|x: Vec<ObjectListItem>| x@.map_values(|x: ObjectListItem| x@)),
            input_texts: self.input_texts@.map_values(|x: String| x@),
            derived_scalars: self.derived_scalars@.map_values(|x: DerivedScalarSpec| x@),
        }
    }
}

/// The mathematical value of a [`ScalarUpdate`].
#[verifier::ext_equal]
pub enum ScalarUpdateView {
    SetTo { binding: Seq<char>, value: i64 },
    SetFiltered { binding: Seq<char>, value: i64, payload_filter: Seq<char> },
    Add { binding: Seq<char>, delta: i64 },
    ToggleBool { binding: Seq<char> },
}

impl View for ScalarUpdate {
    type V = ScalarUpdateView;

    open spec fn view(&self) -> ScalarUpdateView {
        match self {
            ScalarUpdate::SetTo { binding, value } => ScalarUpdateView::SetTo {
                binding: binding@,
                value: *value,
            },
            ScalarUpdate::SetFiltered {
                binding,
                value,
                payload_filter,
            } => ScalarUpdateView::SetFiltered {
                binding: binding@,
                value: *value,
                payload_filter: payload_filter@,
            },
            ScalarUpdate::Add { binding, delta } => ScalarUpdateView::Add {
                binding: binding@,
                delta: *delta,
            },
            ScalarUpdate::ToggleBool { binding } => ScalarUpdateView::ToggleBool {
                binding: binding@,
            },
        }
    }
}

/// The mathematical value of a [`TextUpdate`].
#[verifier::ext_equal]
pub enum TextUpdateView {
    SetStatic { binding: Seq<char>, value: Seq<char>, payload_filter: Option<Seq<char>> },
    SetFromInput {
        binding: Seq<char>,
        source_binding: Seq<char>,
        payload_filter: Option<Seq<char>>,
    },
    SetFromPayload { binding: Seq<char> },
}

impl View for TextUpdate {
    type V = TextUpdateView;

    open spec fn view(&self) -> TextUpdateView {
        match self {
            TextUpdate::SetStatic { binding, value, payload_filter } => TextUpdateView::SetStatic {
                binding: binding@,
                value: value@,
                payload_filter: match payload_filter { Some(x) => Some(x@), None => None },
            },
            TextUpdate::SetFromInput {
                binding,
                source_binding,
                payload_filter,
            } => TextUpdateView::SetFromInput {
                binding: binding@,
                source_binding: source_binding@,
                payload_filter: match payload_filter { Some(x) => Some(x@), None => None },
            },
            TextUpdate::SetFromPayload { binding } => TextUpdateView::SetFromPayload {
                binding: binding@,
            },
        }
    }
}

/// The mathematical value of a [`TextListUpdate`].
#[verifier::ext_equal]
pub enum TextListUpdateView {
    AppendDraftText {
        binding: Seq<char>,
        source_binding: Seq<char>,
        key: Option<Seq<char>>,
        trim: bool,
        reject_empty: bool,
        clear_draft: bool,
    },
    Clear { binding: Seq<char> },
}

impl View for TextListUpdate {
    type V = TextListUpdateView;

    open spec fn view(&self) -> TextListUpdateView {
        match self {
            TextListUpdate::AppendDraftText {
                binding,
                source_binding,
                key,
                trim,
                reject_empty,
                clear_draft,
            } => TextListUpdateView::AppendDraftText {
                binding: binding@,
                source_binding: source_binding@,
                key: match key { Some(x) => Some(x@), None => None },
                trim: *trim,
                reject_empty: *reject_empty,
                clear_draft: *clear_draft,
            },
            TextListUpdate::Clear { binding } => TextListUpdateView::Clear {
                binding: binding@,
            },
        }
    }
}

/// The mathematical value of a [`ObjectListUpdate`].
#[verifier::ext_equal]
pub enum ObjectListUpdateView {
    AppendObject { binding: Seq<char>, item: ObjectListItemView },
    AppendDraftObject {
        binding: Seq<char>,
        source_binding: Seq<char>,
        key: Option<Seq<char>>,
        trim: bool,
        reject_empty: bool,
        clear_draft: bool,
        bool_fields: Map<Seq<char>, bool>,
    },
    ToggleBoolField { binding: Seq<char>, item_id: u64, field: Seq<char> },
    SetBoolField {
        binding: Seq<char>,
        item_id: u64,
        field: Seq<char>,
        value: bool,
        payload_filter: Option<Seq<char>>,
    },
    SetTitle {
        binding: Seq<char>,
        item_id: u64,
        trim: bool,
        reject_empty: bool,
        payload_filter: Option<Seq<char>>,
    },
    ToggleAllBoolField { binding: Seq<char>, field: Seq<char> },
    RemoveItem { binding: Seq<char>, item_id: u64 },
    RemoveMatching { binding: Seq<char>, filter: ObjectListFilterView },
}

impl View for ObjectListUpdate {
    type V = ObjectListUpdateView;

    open spec fn view(&self) -> ObjectListUpdateView {
        match self {
            ObjectListUpdate::AppendObject { binding, item } => ObjectListUpdateView::AppendObject {
                binding: binding@,
                item: item@,
            },
            ObjectListUpdate::AppendDraftObject {
                binding,
                source_binding,
                key,
                trim,
                reject_empty,
                clear_draft,
                bool_fields,
            } => ObjectListUpdateView::AppendDraftObject {
                binding: binding@,
                source_binding: source_binding@,
                key: match key { Some(x) => Some(x@), None => None },
                trim: *trim,
                reject_empty: *reject_empty,
                clear_draft: *clear_draft,
                bool_fields: bool_fields@,
            },
            ObjectListUpdate::ToggleBoolField {
                binding,
                item_id,
                field,
            } => ObjectListUpdateView::ToggleBoolField {
                binding: binding@,
                item_id: *item_id,
                field: field@,
            },
            ObjectListUpdate::SetBoolField {
                binding,
                item_id,
                field,
                value,
                payload_filter,
            } => ObjectListUpdateView::SetBoolField {
                binding: binding@,
                item_id: *item_id,
                field: field@,
                value: *value,
                payload_filter: match payload_filter { Some(x) => Some(x@), None => None },
            },
            ObjectListUpdate::SetTitle {
                binding,
                item_id,
                trim,
                reject_empty,
                payload_filter,
            } => ObjectListUpdateView::SetTitle {
                binding: binding@,
                item_id: *item_id,
                trim: *trim,
                reject_empty: *reject_empty,
                payload_filter: match payload_filter { Some(x) => Some(x@), None => None },
            },
            ObjectListUpdate::ToggleAllBoolField {
                binding,
                field,
            } => ObjectListUpdateView::ToggleAllBoolField {
                binding: binding@,
                field: field@,
            },
            ObjectListUpdate::RemoveItem { binding, item_id } => ObjectListUpdateView::RemoveItem {
                binding: binding@,
                item_id: *item_id,
            },
            ObjectListUpdate::RemoveMatching {
                binding,
                filter,
            } => ObjectListUpdateView::RemoveMatching {
                binding: binding@,
                filter: filter@,
            },
        }
    }
}

/// The mathematical value of a [`NestedObjectListUpdate`].
#[verifier::ext_equal]
pub enum NestedObjectListUpdateView {
    AppendObject { field: Seq<char>, item: ObjectListItemView },
    RemoveItem { field: Seq<char>, item_id: u64 },
}

impl View for NestedObjectListUpdate {
    type V = NestedObjectListUpdateView;

    open spec fn view(&self) -> NestedObjectListUpdateView {
        match self {
            NestedObjectListUpdate::AppendObject {
                field,
                item,
            } => NestedObjectListUpdateView::AppendObject {
                field: field@,
                item: item@,
            },
            NestedObjectListUpdate::RemoveItem {
                field,
                item_id,
            } => NestedObjectListUpdateView::RemoveItem {
                field: field@,
                item_id: *item_id,
            },
        }
    }
}

} // verus!
