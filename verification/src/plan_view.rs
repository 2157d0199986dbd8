//! The mathematical values of the types of plans.
use crate::builtins::BuiltinFunction;
use crate::expression_view::{
    AliasView, ArmView, LiteralView, SpannedExpressionView, StaticFunctionDefinitionView,
};
use crate::plan::{
    ActorContext, ActorNode, ActorSpec, AliasRoot, ArgumentSlot, EvaluationContext,
    ForwardingConnection, ForwardingLoop, FunctionRegistry, ListBindingOperation,
    ObjectVariableData, PersistenceKey, Plan, RecordedCall, Registration, Scope, ScopeSegment,
    VariableSpec, WorkItem,
};
use crate::static_expression::{Arm, BinaryOpKind, PersistenceId, Span, StaticFunctionDefinition};
use crate::value::ValueView;
use vstd::prelude::*;

verus! {

/// The mathematical value of a [`ScopeSegment`].
#[verifier::ext_equal]
pub enum ScopeSegmentView {
    ListItem { index: u64, key: PersistenceKey },
    WhileArm { index: u64 },
    ListAppend { span: Span },
    Call { key: PersistenceKey },
    Invocation { id: Seq<char> },
    Restored { id: Seq<char> },
}

impl View for ScopeSegment {
    type V = ScopeSegmentView;

    open spec fn view(&self) -> ScopeSegmentView {
        match self {
            ScopeSegment::ListItem { index, key } => ScopeSegmentView::ListItem {
                index: *index,
                key: *key,
            },
            ScopeSegment::WhileArm { index } => ScopeSegmentView::WhileArm {
                index: *index,
            },
            ScopeSegment::ListAppend { span } => ScopeSegmentView::ListAppend {
                span: *span,
            },
            ScopeSegment::Call { key } => ScopeSegmentView::Call {
                key: *key,
            },
            ScopeSegment::Invocation { id } => ScopeSegmentView::Invocation {
                id: id@,
            },
            ScopeSegment::Restored { id } => ScopeSegmentView::Restored {
                id: id@,
            },
        }
    }
}

/// The mathematical value of a [`Scope`].
#[verifier::ext_equal]
pub struct ScopeView {
    pub segments: Seq<ScopeSegmentView>,
}

impl View for Scope {
    type V = ScopeView;

    open spec fn view(&self) -> ScopeView {
        ScopeView {
            segments: self.segments@.map_values(|x: ScopeSegment| x@),
        }
    }
}

/// The mathematical value of a [`FunctionRegistry`].
#[verifier::ext_equal]
pub struct FunctionRegistryView {
    pub functions: Map<Seq<char>, StaticFunctionDefinitionView>,
}

impl View for FunctionRegistry {
    type V = FunctionRegistryView;

    open spec fn view(&self) -> FunctionRegistryView {
        FunctionRegistryView {
            functions: self.functions@.map_values(|x: StaticFunctionDefinition| x@),
        }
    }
}

/// The mathematical value of a [`ActorContext`].
#[verifier::ext_equal]
pub struct ActorContextView {
    pub piped: Option<u64>,
    pub passed: Option<u64>,
    pub parameters: Map<Seq<char>, u64>,
    pub sequential_processing: bool,
    pub backpressure_permit: Option<u64>,
    pub hold_state_update_callback: Option<u64>,
    pub use_lazy_actors: bool,
    pub is_snapshot_context: bool,
    pub object_locals: Map<Seq<char>, u64>,
    pub scope: ScopeView,
    pub subscription_scope: Option<u64>,
    pub call_recorder: Option<Seq<char>>,
    pub is_restoring: bool,
    pub list_append_storage_key: Option<Seq<char>>,
    pub recording_counter: Option<Seq<char>>,
    pub subscription_time: Option<u64>,
}

impl View for ActorContext {
    type V = ActorContextView;

    open spec fn view(&self) -> ActorContextView {
        ActorContextView {
            piped: self.piped,
            passed: self.passed,
            parameters: self.parameters@,
            sequential_processing: self.sequential_processing,
            backpressure_permit: self.backpressure_permit,
            hold_state_update_callback: self.hold_state_update_callback,
            use_lazy_actors: self.use_lazy_actors,
            is_snapshot_context: self.is_snapshot_context,
            object_locals: self.object_locals@,
            scope: self.scope@,
            subscription_scope: self.subscription_scope,
            call_recorder: match self.call_recorder { Some(x) => Some(x@), None => None },
            is_restoring: self.is_restoring,
            list_append_storage_key: match self.list_append_storage_key {
                Some(x) => Some(x@),
                None => None,
            },
            recording_counter: match self.recording_counter { Some(x) => Some(x@), None => None },
            subscription_time: self.subscription_time,
        }
    }
}

/// The mathematical value of a [`EvaluationContext`].
#[verifier::ext_equal]
pub struct EvaluationContextView {
    pub actor_context: ActorContextView,
    pub reference_connector: bool,
    pub link_connector: bool,
    pub pass_through_connector: bool,
    pub function_registry_snapshot: Option<FunctionRegistryView>,
}

impl View for EvaluationContext {
    type V = EvaluationContextView;

    open spec fn view(&self) -> EvaluationContextView {
        EvaluationContextView {
            actor_context: self.actor_context@,
            reference_connector: self.reference_connector,
            link_connector: self.link_connector,
            pass_through_connector: self.pass_through_connector,
            function_registry_snapshot: match self.function_registry_snapshot {
                Some(x) => Some(x@),
                None => None,
            },
        }
    }
}

/// The mathematical value of a [`VariableSpec`].
#[verifier::ext_equal]
pub struct VariableSpecView {
    pub name: Seq<char>,
    pub span: Span,
    pub key: PersistenceKey,
    pub value: u64,
    pub is_link: bool,
    pub source: Option<u64>,
}

impl View for VariableSpec {
    type V = VariableSpecView;

    open spec fn view(&self) -> VariableSpecView {
        VariableSpecView {
            name: self.name@,
            span: self.span,
            key: self.key,
            value: self.value,
            is_link: self.is_link,
            source: self.source,
        }
    }
}

/// The mathematical value of a [`ActorSpec`].
#[allow(inconsistent_fields)]
#[verifier::ext_equal]
pub enum ActorSpecView {
    Literal(LiteralView),
    BinaryOp { op: BinaryOpKind, a: u64, b: u64 },
    List { items: Seq<u64> },
    Object { variables: Seq<VariableSpecView> },
    TaggedObject { tag: Seq<char>, variables: Seq<VariableSpecView> },
    Latest { inputs: Seq<u64> },
    Then {
        piped: u64,
        body: SpannedExpressionView,
        registry: FunctionRegistryView,
        ordered: bool,
        lazy: bool,
    },
    When { piped: u64, arms: Seq<ArmView>, registry: FunctionRegistryView, ordered: bool },
    While { piped: u64, arms: Seq<ArmView>, registry: FunctionRegistryView },
    HoldState { state_param: Seq<char>, initial: u64 },
    Hold { state: u64, body: u64, initial: u64 },
    Block { object: u64, output: u64 },
    Alias { root: AliasRoot, alias: AliasView },
    FieldAccess { piped: u64, path: Seq<Seq<char>> },
    Reference { referenced: Span },
    TextField { base: u64, path: Seq<Seq<char>> },
    CombinedText { parts: Seq<u64> },
    Relay { source: u64 },
    LinkForwarder { source: u64, alias: AliasView, pass_through: PersistenceKey },
    PassThrough { forwarder: u64, key: PersistenceKey },
    LinkRelay { pass_through: u64, key: PersistenceKey },
    Forwarding,
    LinkValue,
    Persisted { source: u64 },
    Function { name: Seq<char> },
    ListBinding {
        operation: ListBindingOperation,
        binding: Seq<char>,
        list: u64,
        transform: SpannedExpressionView,
    },
    ListAppend { list: u64, item: u64, storage_key: Seq<char> },
    Builtin { function: BuiltinFunction, arguments: Seq<u64> },
    UserCall { result: u64, parameters: Map<Seq<char>, u64> },
    PipedUserCall {
        piped: u64,
        param: Seq<char>,
        path: Seq<Seq<char>>,
        definition: StaticFunctionDefinitionView,
        parameters: Map<Seq<char>, u64>,
    },
    WithLoops { source: u64, loops: Seq<ForwardingLoop> },
    Constant(ValueView),
    AppendedItem { value: ValueView, storage_key: Seq<char>, call_id: Seq<char> },
    RestoredItem { source: u64, storage_key: Seq<char>, call_id: Seq<char> },
}

impl View for ActorSpec {
    type V = ActorSpecView;

    open spec fn view(&self) -> ActorSpecView {
        match self {
            ActorSpec::Literal(a) => ActorSpecView::Literal(a@),
            ActorSpec::BinaryOp { op, a, b } => ActorSpecView::BinaryOp {
                op: *op,
                a: *a,
                b: *b,
            },
            ActorSpec::List { items } => ActorSpecView::List {
                items: items@,
            },
            ActorSpec::Object { variables } => ActorSpecView::Object {
                variables: variables@.map_values(|x: VariableSpec| x@),
            },
            ActorSpec::TaggedObject { tag, variables } => ActorSpecView::TaggedObject {
                tag: tag@,
                variables: variables@.map_values(|x: VariableSpec| x@),
            },
            ActorSpec::Latest { inputs } => ActorSpecView::Latest {
                inputs: inputs@,
            },
            ActorSpec::Then { piped, body, registry, ordered, lazy } => ActorSpecView::Then {
                piped: *piped,
                body: body@,
                registry: registry@,
                ordered: *ordered,
                lazy: *lazy,
            },
            ActorSpec::When { piped, arms, registry, ordered } => ActorSpecView::When {
                piped: *piped,
                arms: arms@.map_values(|x: Arm| x@),
                registry: registry@,
                ordered: *ordered,
            },
            ActorSpec::While { piped, arms, registry } => ActorSpecView::While {
                piped: *piped,
                arms: arms@.map_values(|x: Arm| x@),
                registry: registry@,
            },
            ActorSpec::HoldState { state_param, initial } => ActorSpecView::HoldState {
                state_param: state_param@,
                initial: *initial,
            },
            ActorSpec::Hold { state, body, initial } => ActorSpecView::Hold {
                state: *state,
                body: *body,
                initial: *initial,
            },
            ActorSpec::Block { object, output } => ActorSpecView::Block {
                object: *object,
                output: *output,
            },
            ActorSpec::Alias { root, alias } => ActorSpecView::Alias {
                root: *root,
                alias: alias@,
            },
            ActorSpec::FieldAccess { piped, path } => ActorSpecView::FieldAccess {
                piped: *piped,
                path: path@.map_values(|x: String| x@),
            },
            ActorSpec::Reference { referenced } => ActorSpecView::Reference {
                referenced: *referenced,
            },
            ActorSpec::TextField { base, path } => ActorSpecView::TextField {
                base: *base,
                path: path@.map_values(|x: String| x@),
            },
            ActorSpec::CombinedText { parts } => ActorSpecView::CombinedText {
                parts: parts@,
            },
            ActorSpec::Relay { source } => ActorSpecView::Relay {
                source: *source,
            },
            ActorSpec::LinkForwarder {
                source,
                alias,
                pass_through,
            } => ActorSpecView::LinkForwarder {
                source: *source,
                alias: alias@,
                pass_through: *pass_through,
            },
            ActorSpec::PassThrough { forwarder, key } => ActorSpecView::PassThrough {
                forwarder: *forwarder,
                key: *key,
            },
            ActorSpec::LinkRelay { pass_through, key } => ActorSpecView::LinkRelay {
                pass_through: *pass_through,
                key: *key,
            },
            ActorSpec::Forwarding => ActorSpecView::Forwarding,
            ActorSpec::LinkValue => ActorSpecView::LinkValue,
            ActorSpec::Persisted { source } => ActorSpecView::Persisted {
                source: *source,
            },
            ActorSpec::Function { name } => ActorSpecView::Function {
                name: name@,
            },
            ActorSpec::ListBinding {
                operation,
                binding,
                list,
                transform,
            } => ActorSpecView::ListBinding {
                operation: *operation,
                binding: binding@,
                list: *list,
                transform: transform@,
            },
            ActorSpec::ListAppend { list, item, storage_key } => ActorSpecView::ListAppend {
                list: *list,
                item: *item,
                storage_key: storage_key@,
            },
            ActorSpec::Builtin { function, arguments } => ActorSpecView::Builtin {
                function: *function,
                arguments: arguments@,
            },
            ActorSpec::UserCall { result, parameters } => ActorSpecView::UserCall {
                result: *result,
                parameters: parameters@,
            },
            ActorSpec::PipedUserCall {
                piped,
                param,
                path,
                definition,
                parameters,
            } => ActorSpecView::PipedUserCall {
                piped: *piped,
                param: param@,
                path: path@.map_values(|x: String| x@),
                definition: definition@,
                parameters: parameters@,
            },
            ActorSpec::WithLoops { source, loops } => ActorSpecView::WithLoops {
                source: *source,
                loops: loops@,
            },
            ActorSpec::Constant(a) => ActorSpecView::Constant(a@),
            ActorSpec::AppendedItem { value, storage_key, call_id } => ActorSpecView::AppendedItem {
                value: value@,
                storage_key: storage_key@,
                call_id: call_id@,
            },
            ActorSpec::RestoredItem {
                source,
                storage_key,
                call_id,
            } => ActorSpecView::RestoredItem {
                source: *source,
                storage_key: storage_key@,
                call_id: call_id@,
            },
        }
    }
}

/// The mathematical value of a [`ActorNode`].
#[verifier::ext_equal]
pub struct ActorNodeView {
    pub actor: ActorSpecView,
    pub key: PersistenceKey,
    pub span: Span,
    pub context: ActorContextView,
}

impl View for ActorNode {
    type V = ActorNodeView;

    open spec fn view(&self) -> ActorNodeView {
        ActorNodeView {
            actor: self.actor@,
            key: self.key,
            span: self.span,
            context: self.context@,
        }
    }
}

/// The mathematical value of a [`Registration`].
#[verifier::ext_equal]
pub enum RegistrationView {
    Referenceable { span: Span, actor: u64 },
    Link { span: Span, scope: ScopeView, actor: u64 },
}

impl View for Registration {
    type V = RegistrationView;

    open spec fn view(&self) -> RegistrationView {
        match self {
            Registration::Referenceable { span, actor } => RegistrationView::Referenceable {
                span: *span,
                actor: *actor,
            },
            Registration::Link { span, scope, actor } => RegistrationView::Link {
                span: *span,
                scope: scope@,
                actor: *actor,
            },
        }
    }
}

/// The mathematical value of a [`Plan`].
#[verifier::ext_equal]
pub struct PlanView {
    pub actors: Seq<ActorNodeView>,
    pub registrations: Seq<RegistrationView>,
    pub fresh: u64,
}

impl View for Plan {
    type V = PlanView;

    open spec fn view(&self) -> PlanView {
        PlanView {
            actors: self.actors@.map_values(|x: ActorNode| x@),
            registrations: self.registrations@.map_values(|x: Registration| x@),
            fresh: self.fresh,
        }
    }
}

/// The mathematical value of a [`ObjectVariableData`].
#[verifier::ext_equal]
pub struct ObjectVariableDataView {
    pub name: Seq<char>,
    pub value_slot: u32,
    pub is_link: bool,
    pub is_referenced: bool,
    pub span: Span,
    pub key: PersistenceKey,
    pub forwarding_actor: Option<u64>,
}

impl View for ObjectVariableData {
    type V = ObjectVariableDataView;

    open spec fn view(&self) -> ObjectVariableDataView {
        ObjectVariableDataView {
            name: self.name@,
            value_slot: self.value_slot,
            is_link: self.is_link,
            is_referenced: self.is_referenced,
            span: self.span,
            key: self.key,
            forwarding_actor: self.forwarding_actor,
        }
    }
}

/// The mathematical value of a [`WorkItem`].
#[verifier::ext_equal]
pub enum WorkItemView {
    Evaluate { expr: SpannedExpressionView, ctx: EvaluationContextView, result_slot: u32 },
    BinaryOp {
        op: BinaryOpKind,
        operand_a_slot: u32,
        operand_b_slot: u32,
        span: Span,
        key: PersistenceKey,
        ctx: EvaluationContextView,
        result_slot: u32,
    },
    BuildList {
        item_slots: Seq<u32>,
        span: Span,
        key: PersistenceKey,
        ctx: EvaluationContextView,
        result_slot: u32,
    },
    BuildObject {
        variable_data: Seq<ObjectVariableDataView>,
        span: Span,
        key: PersistenceKey,
        ctx: EvaluationContextView,
        result_slot: u32,
    },
    BuildTaggedObject {
        tag: Seq<char>,
        variable_data: Seq<ObjectVariableDataView>,
        span: Span,
        key: PersistenceKey,
        ctx: EvaluationContextView,
        result_slot: u32,
    },
    BuildLatest {
        input_slots: Seq<u32>,
        span: Span,
        key: PersistenceKey,
        ctx: EvaluationContextView,
        result_slot: u32,
    },
    BuildThen {
        piped_slot: u32,
        body: SpannedExpressionView,
        span: Span,
        key: PersistenceKey,
        ctx: EvaluationContextView,
        result_slot: u32,
    },
    BuildWhen {
        piped_slot: u32,
        arms: Seq<ArmView>,
        span: Span,
        key: PersistenceKey,
        ctx: EvaluationContextView,
        result_slot: u32,
    },
    BuildWhile {
        piped_slot: u32,
        arms: Seq<ArmView>,
        span: Span,
        key: PersistenceKey,
        ctx: EvaluationContextView,
        result_slot: u32,
    },
    BuildHold {
        initial_slot: u32,
        state_param: Seq<char>,
        body: SpannedExpressionView,
        span: Span,
        key: PersistenceKey,
        ctx: EvaluationContextView,
        result_slot: u32,
    },
    BuildBlock { object_slot: u32, output_slot: u32, result_slot: u32 },
    EvaluateWithPiped {
        expr: SpannedExpressionView,
        prev_slot: u32,
        ctx: EvaluationContextView,
        result_slot: u32,
    },
    CallFunction {
        path: Seq<Seq<char>>,
        arg_slots: Seq<ArgumentSlotView>,
        passed_slot: Option<u32>,
        passed_context: Option<u32>,
        use_piped_for_builtin: bool,
        span: Span,
        key: PersistenceKey,
        ctx: EvaluationContextView,
        result_slot: u32,
    },
    ConnectForwardingActors { connections: Seq<ForwardingConnection> },
    WrapWithPersistence {
        source_slot: u32,
        persistence_id: PersistenceId,
        ctx: EvaluationContextView,
        result_slot: u32,
    },
}

impl View for WorkItem {
    type V = WorkItemView;

    open spec fn view(&self) -> WorkItemView {
        match self {
            WorkItem::Evaluate { expr, ctx, result_slot } => WorkItemView::Evaluate {
                expr: expr@,
                ctx: ctx@,
                result_slot: *result_slot,
            },
            WorkItem::BinaryOp {
                op,
                operand_a_slot,
                operand_b_slot,
                span,
                key,
                ctx,
                result_slot,
            } => WorkItemView::BinaryOp {
                op: *op,
                operand_a_slot: *operand_a_slot,
                operand_b_slot: *operand_b_slot,
                span: *span,
                key: *key,
                ctx: ctx@,
                result_slot: *result_slot,
            },
            WorkItem::BuildList {
                item_slots,
                span,
                key,
                ctx,
                result_slot,
            } => WorkItemView::BuildList {
                item_slots: item_slots@,
                span: *span,
                key: *key,
                ctx: ctx@,
                result_slot: *result_slot,
            },
            WorkItem::BuildObject {
                variable_data,
                span,
                key,
                ctx,
                result_slot,
            } => WorkItemView::BuildObject {
                variable_data: variable_data@.map_values(|x: ObjectVariableData| x@),
                span: *span,
                key: *key,
                ctx: ctx@,
                result_slot: *result_slot,
            },
            WorkItem::BuildTaggedObject {
                tag,
                variable_data,
                span,
                key,
                ctx,
                result_slot,
            } => WorkItemView::BuildTaggedObject {
                tag: tag@,
                variable_data: variable_data@.map_values(|x: ObjectVariableData| x@),
                span: *span,
                key: *key,
                ctx: ctx@,
                result_slot: *result_slot,
            },
            WorkItem::BuildLatest {
                input_slots,
                span,
                key,
                ctx,
                result_slot,
            } => WorkItemView::BuildLatest {
                input_slots: input_slots@,
                span: *span,
                key: *key,
                ctx: ctx@,
                result_slot: *result_slot,
            },
            WorkItem::BuildThen {
                piped_slot,
                body,
                span,
                key,
                ctx,
                result_slot,
            } => WorkItemView::BuildThen {
                piped_slot: *piped_slot,
                body: body@,
                span: *span,
                key: *key,
                ctx: ctx@,
                result_slot: *result_slot,
            },
            WorkItem::BuildWhen {
                piped_slot,
                arms,
                span,
                key,
                ctx,
                result_slot,
            } => WorkItemView::BuildWhen {
                piped_slot: *piped_slot,
                arms: arms@.map_values(|x: Arm| x@),
                span: *span,
                key: *key,
                ctx: ctx@,
                result_slot: *result_slot,
            },
            WorkItem::BuildWhile {
                piped_slot,
                arms,
                span,
                key,
                ctx,
                result_slot,
            } => WorkItemView::BuildWhile {
                piped_slot: *piped_slot,
                arms: arms@.map_values(|x: Arm| x@),
                span: *span,
                key: *key,
                ctx: ctx@,
                result_slot: *result_slot,
            },
            WorkItem::BuildHold {
                initial_slot,
                state_param,
                body,
                span,
                key,
                ctx,
                result_slot,
            } => WorkItemView::BuildHold {
                initial_slot: *initial_slot,
                state_param: state_param@,
                body: body@,
                span: *span,
                key: *key,
                ctx: ctx@,
                result_slot: *result_slot,
            },
            WorkItem::BuildBlock {
                object_slot,
                output_slot,
                result_slot,
            } => WorkItemView::BuildBlock {
                object_slot: *object_slot,
                output_slot: *output_slot,
                result_slot: *result_slot,
            },
            WorkItem::EvaluateWithPiped {
                expr,
                prev_slot,
                ctx,
                result_slot,
            } => WorkItemView::EvaluateWithPiped {
                expr: expr@,
                prev_slot: *prev_slot,
                ctx: ctx@,
                result_slot: *result_slot,
            },
            WorkItem::CallFunction {
                path,
                arg_slots,
                passed_slot,
                passed_context,
                use_piped_for_builtin,
                span,
                key,
                ctx,
                result_slot,
            } => WorkItemView::CallFunction {
                path: path@.map_values(|x: String| x@),
                arg_slots: arg_slots@.map_values(|x: ArgumentSlot| x@),
                passed_slot: *passed_slot,
                passed_context: *passed_context,
                use_piped_for_builtin: *use_piped_for_builtin,
                span: *span,
                key: *key,
                ctx: ctx@,
                result_slot: *result_slot,
            },
            WorkItem::ConnectForwardingActors {
                connections,
            } => WorkItemView::ConnectForwardingActors {
                connections: connections@,
            },
            WorkItem::WrapWithPersistence {
                source_slot,
                persistence_id,
                ctx,
                result_slot,
            } => WorkItemView::WrapWithPersistence {
                source_slot: *source_slot,
                persistence_id: *persistence_id,
                ctx: ctx@,
                result_slot: *result_slot,
            },
        }
    }
}

/// The mathematical value of a [`ArgumentSlot`].
#[verifier::ext_equal]
pub struct ArgumentSlotView {
    pub name: Seq<char>,
    pub slot: u32,
}

impl View for ArgumentSlot {
    type V = ArgumentSlotView;

    open spec fn view(&self) -> ArgumentSlotView {
        ArgumentSlotView {
            name: self.name@,
            slot: self.slot,
        }
    }
}

/// The mathematical value of a [`RecordedCall`].
#[verifier::ext_equal]
pub struct RecordedCallView {
    pub id: Seq<char>,
    pub path: Seq<Seq<char>>,
    pub input: Option<ValueView>,
}

impl View for RecordedCall {
    type V = RecordedCallView;

    open spec fn view(&self) -> RecordedCallView {
        RecordedCallView {
            id: self.id@,
            path: self.path@.map_values(|x: String| x@),
            input: match self.input { Some(x) => Some(x@), None => None },
        }
    }
}

} // verus!
