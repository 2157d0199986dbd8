//! What the evaluation of an expression leads to: actors to be made and steps to be done.
use crate::builtins::BuiltinFunction;
use crate::static_expression::{
    Alias, Arm, BinaryOpKind, Literal, PersistenceId, Span, SpannedExpression,
    StaticFunctionDefinition,
};
use crate::text_map::TextMap;
use crate::value::Value;
use vstd::prelude::*;

verus! {

/// The identity of a piece of a running program: one that is kept across runs, or one that is
/// drawn anew, by its number.
#[derive(Debug, Clone, Copy, PartialEq, Eq, Structural)]
pub enum PersistenceKey {
    Stored(PersistenceId),
    Fresh(u64),
}

/// Where a reference starts: at an actor, or at what is declared at a place in the source.
#[derive(Debug, Clone, Copy, PartialEq, Eq, Structural)]
pub enum AliasRoot {
    Actor(u64),
    Reference(Span),
}

/// An actor that hands on what another one emits.
#[derive(Debug, Clone, Copy, PartialEq, Eq, Structural)]
pub struct ForwardingLoop {
    pub target: u64,
    pub source: u64,
}

/// A forwarding actor that waits for the actor in a slot.
#[derive(Debug, Clone, Copy, PartialEq, Eq, Structural)]
pub struct ForwardingConnection {
    pub slot: u32,
    pub target: u64,
}

/// What a function with a transform does to the items of a list.
#[derive(Debug, Clone, Copy, PartialEq, Eq, Structural)]
pub enum ListBindingOperation {
    Transform,
    Retain,
    Remove,
    Every,
    Any,
    SortBy,
}

/// One level of a scope.
#[derive(Debug, PartialEq, Eq)]
pub enum ScopeSegment {
    ListItem { index: u64, key: PersistenceKey },
    WhileArm { index: u64 },
    ListAppend { span: Span },
    Call { key: PersistenceKey },
    Invocation { id: String },
    Restored { id: String },
}

/// Where in the running program something is; the root scope has no levels.
#[derive(Debug, PartialEq, Eq)]
pub struct Scope {
    pub segments: Vec<ScopeSegment>,
}

/// The functions that can be called.
#[derive(Debug, PartialEq, Eq)]
pub struct FunctionRegistry {
    pub functions: TextMap<StaticFunctionDefinition>,
}

/// What an actor sees of the actors around it.
#[derive(Debug, PartialEq, Eq)]
pub struct ActorContext {
    pub piped: Option<u64>,
    pub passed: Option<u64>,
    pub parameters: TextMap<u64>,
    pub sequential_processing: bool,
    pub backpressure_permit: Option<u64>,
    pub hold_state_update_callback: Option<u64>,
    pub use_lazy_actors: bool,
    pub is_snapshot_context: bool,
    pub object_locals: TextMap<u64>,
    pub scope: Scope,
    pub subscription_scope: Option<u64>,
    pub call_recorder: Option<String>,
    pub is_restoring: bool,
    pub list_append_storage_key: Option<String>,
    pub recording_counter: Option<String>,
    pub subscription_time: Option<u64>,
}

/// What an expression is evaluated in. A connector is `true` while it is alive.
#[derive(Debug, PartialEq, Eq)]
pub struct EvaluationContext {
    pub actor_context: ActorContext,
    pub reference_connector: bool,
    pub link_connector: bool,
    pub pass_through_connector: bool,
    pub function_registry_snapshot: Option<FunctionRegistry>,
}

/// A variable of an object.
#[derive(Debug, PartialEq, Eq)]
pub struct VariableSpec {
    pub name: String,
    pub span: Span,
    pub key: PersistenceKey,
    pub value: u64,
    pub is_link: bool,
    pub source: Option<u64>,
}

/// What an actor does.
#[allow(inconsistent_fields)]
#[derive(Debug, PartialEq, Eq)]
pub enum ActorSpec {
    Literal(Literal),
    BinaryOp { op: BinaryOpKind, a: u64, b: u64 },
    List { items: Vec<u64> },
    Object { variables: Vec<VariableSpec> },
    TaggedObject { tag: String, variables: Vec<VariableSpec> },
    Latest { inputs: Vec<u64> },
    Then {
        piped: u64,
        body: SpannedExpression,
        registry: FunctionRegistry,
        ordered: bool,
        lazy: bool,
    },
    When { piped: u64, arms: Vec<Arm>, registry: FunctionRegistry, ordered: bool },
    While { piped: u64, arms: Vec<Arm>, registry: FunctionRegistry },
    HoldState { state_param: String, initial: u64 },
    Hold { state: u64, body: u64, initial: u64 },
    Block { object: u64, output: u64 },
    Alias { root: AliasRoot, alias: Alias },
    FieldAccess { piped: u64, path: Vec<String> },
    Reference { referenced: Span },
    TextField { base: u64, path: Vec<String> },
    CombinedText { parts: Vec<u64> },
    Relay { source: u64 },
    LinkForwarder { source: u64, alias: Alias, pass_through: PersistenceKey },
    PassThrough { forwarder: u64, key: PersistenceKey },
    LinkRelay { pass_through: u64, key: PersistenceKey },
    Forwarding,
    LinkValue,
    Persisted { source: u64 },
    Function { name: String },
    ListBinding {
        operation: ListBindingOperation,
        binding: String,
        list: u64,
        transform: SpannedExpression,
    },
    ListAppend { list: u64, item: u64, storage_key: String },
    Builtin { function: BuiltinFunction, arguments: Vec<u64> },
    UserCall { result: u64, parameters: TextMap<u64> },
    PipedUserCall {
        piped: u64,
        param: String,
        path: Vec<String>,
        definition: StaticFunctionDefinition,
        parameters: TextMap<u64>,
    },
    WithLoops { source: u64, loops: Vec<ForwardingLoop> },
    Constant(Value),
    AppendedItem { value: Value, storage_key: String, call_id: String },
    RestoredItem { source: u64, storage_key: String, call_id: String },
}

/// An actor to be made, with its identity, its place in the source and its context.
#[derive(Debug, PartialEq, Eq)]
pub struct ActorNode {
    pub actor: ActorSpec,
    pub key: PersistenceKey,
    pub span: Span,
    pub context: ActorContext,
}

/// A name under which an actor can be found.
#[derive(Debug, PartialEq, Eq)]
pub enum Registration {
    Referenceable { span: Span, actor: u64 },
    Link { span: Span, scope: Scope, actor: u64 },
}

/// The actors to be made, in their order, and the names under which they can be found. `fresh`
/// counts the identities to be drawn.
#[derive(Debug, PartialEq, Eq)]
pub struct Plan {
    pub actors: Vec<ActorNode>,
    pub registrations: Vec<Registration>,
    pub fresh: u64,
}

/// A variable of an object that is being built.
#[derive(Debug, PartialEq, Eq)]
pub struct ObjectVariableData {
    pub name: String,
    pub value_slot: u32,
    pub is_link: bool,
    pub is_referenced: bool,
    pub span: Span,
    pub key: PersistenceKey,
    pub forwarding_actor: Option<u64>,
}

/// A step of an evaluation that is still to be done.
#[derive(Debug, PartialEq, Eq)]
pub enum WorkItem {
    Evaluate { expr: SpannedExpression, ctx: EvaluationContext, result_slot: u32 },
    BinaryOp {
        op: BinaryOpKind,
        operand_a_slot: u32,
        operand_b_slot: u32,
        span: Span,
        key: PersistenceKey,
        ctx: EvaluationContext,
        result_slot: u32,
    },
    BuildList {
        item_slots: Vec<u32>,
        span: Span,
        key: PersistenceKey,
        ctx: EvaluationContext,
        result_slot: u32,
    },
    BuildObject {
        variable_data: Vec<ObjectVariableData>,
        span: Span,
        key: PersistenceKey,
        ctx: EvaluationContext,
        result_slot: u32,
    },
    BuildTaggedObject {
        tag: String,
        variable_data: Vec<ObjectVariableData>,
        span: Span,
        key: PersistenceKey,
        ctx: EvaluationContext,
        result_slot: u32,
    },
    BuildLatest {
        input_slots: Vec<u32>,
        span: Span,
        key: PersistenceKey,
        ctx: EvaluationContext,
        result_slot: u32,
    },
    BuildThen {
        piped_slot: u32,
        body: SpannedExpression,
        span: Span,
        key: PersistenceKey,
        ctx: EvaluationContext,
        result_slot: u32,
    },
    BuildWhen {
        piped_slot: u32,
        arms: Vec<Arm>,
        span: Span,
        key: PersistenceKey,
        ctx: EvaluationContext,
        result_slot: u32,
    },
    BuildWhile {
        piped_slot: u32,
        arms: Vec<Arm>,
        span: Span,
        key: PersistenceKey,
        ctx: EvaluationContext,
        result_slot: u32,
    },
    BuildHold {
        initial_slot: u32,
        state_param: String,
        body: SpannedExpression,
        span: Span,
        key: PersistenceKey,
        ctx: EvaluationContext,
        result_slot: u32,
    },
    BuildBlock { object_slot: u32, output_slot: u32, result_slot: u32 },
    EvaluateWithPiped {
        expr: SpannedExpression,
        prev_slot: u32,
        ctx: EvaluationContext,
        result_slot: u32,
    },
    CallFunction {
        path: Vec<String>,
        arg_slots: Vec<ArgumentSlot>,
        passed_slot: Option<u32>,
        passed_context: Option<u32>,
        use_piped_for_builtin: bool,
        span: Span,
        key: PersistenceKey,
        ctx: EvaluationContext,
        result_slot: u32,
    },
    ConnectForwardingActors { connections: Vec<ForwardingConnection> },
    WrapWithPersistence {
        source_slot: u32,
        persistence_id: PersistenceId,
        ctx: EvaluationContext,
        result_slot: u32,
    },
}

/// An argument and the slot of its value.
#[derive(Debug, PartialEq, Eq)]
pub struct ArgumentSlot {
    pub name: String,
    pub slot: u32,
}

/// A call that made an item of a list: its number, the function, and the value that went in, if it
/// can be had.
#[derive(Debug, PartialEq, Eq)]
pub struct RecordedCall {
    pub id: String,
    pub path: Vec<String>,
    pub input: Option<Value>,
}

} // verus!
