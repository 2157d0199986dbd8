//! Copies of the types of plans.
use crate::expression_clone::{clone_map_static_function_definition, clone_vec_arm};
use crate::plan::{
    ActorContext, ActorNode, ActorSpec, ArgumentSlot, EvaluationContext, ForwardingConnection,
    ForwardingLoop, FunctionRegistry, ObjectVariableData, Plan, RecordedCall, Registration, Scope,
    ScopeSegment, VariableSpec, WorkItem,
};
use crate::semantic_clone::{clone_opt_text, clone_vec_text};
use crate::text_map::{TextMap, entry_pairs};
use crate::value::clone_opt_value;
use vstd::prelude::*;
use vstd::string::*;

verus! {

pub(crate) fn clone_vec_scope_segment(s: &Vec<ScopeSegment>) -> (r: Vec<ScopeSegment>)
    ensures
        r@.len() == s@.len(),
        forall|i: int| 0 <= i < s@.len() ==> (#[trigger] r@[i])@ == s@[i]@,
        r@.map_values(|x: ScopeSegment| x@) == s@.map_values(|x: ScopeSegment| x@),
{
    let mut out: Vec<ScopeSegment> = Vec::new();
    let mut i: usize = 0;
    while i < s.len()
        invariant
            i == out@.len(),
            i <= s@.len(),
            forall|j: int| 0 <= j < i ==> (#[trigger] out@[j])@ == s@[j]@,
        decreases s@.len() - i,
    {
        out.push(s[i].clone());
        i = i + 1;
    }
    out
}

pub(crate) fn clone_map_u64(s: &TextMap<u64>) -> (r: TextMap<u64>)
    ensures
        r.entries@.len() == s.entries@.len(),
        forall|j: int|
            0 <= j < s.entries@.len() ==> (#[trigger] r.entries@[j]).0@ == s.entries@[j].0@
                && r.entries@[j].1 == s.entries@[j].1,
        r@ == s@,
{
    proof {
        use_type_invariant(s);
    }
    let mut out: Vec<(String, u64)> = Vec::new();
    let mut i: usize = 0;
    while i < s.entries.len()
        invariant
            i == out@.len(),
            i <= s.entries@.len(),
            forall|j: int|
                0 <= j < i ==> (#[trigger] out@[j]).0@ == s.entries@[j].0@
                    && out@[j].1 == s.entries@[j].1,
        decreases s.entries@.len() - i,
    {
        out.push((s.entries[i].0.clone(), s.entries[i].1));
        i = i + 1;
    }
    let r = TextMap::from_ordered(out);
    proof {
        assert(entry_pairs(r.entries@) =~= entry_pairs(s.entries@));
    }
    r
}

pub(crate) fn clone_opt_function_registry(
    s: &Option<FunctionRegistry>,
) -> (r: Option<FunctionRegistry>)
    ensures
        match (*s, r) { (Some(x), Some(y)) => x@ == y@, (None, None) => true, _ => false },
{
    match s {
        Some(x) => Some(x.clone()),
        None => None,
    }
}

pub(crate) fn clone_vec_u64(s: &Vec<u64>) -> (r: Vec<u64>)
    ensures
        r@ == s@,
{
    let mut out: Vec<u64> = Vec::new();
    let mut i: usize = 0;
    while i < s.len()
        invariant
            i == out@.len(),
            i <= s@.len(),
            forall|j: int| 0 <= j < i ==> #[trigger] out@[j] == s@[j],
        decreases s@.len() - i,
    {
        out.push(s[i]);
        i = i + 1;
    }
    out
}

pub(crate) fn clone_vec_variable_spec(s: &Vec<VariableSpec>) -> (r: Vec<VariableSpec>)
    ensures
        r@.len() == s@.len(),
        forall|i: int| 0 <= i < s@.len() ==> (#[trigger] r@[i])@ == s@[i]@,
        r@.map_values(|x: VariableSpec| x@) == s@.map_values(|x: VariableSpec| x@),
{
    let mut out: Vec<VariableSpec> = Vec::new();
    let mut i: usize = 0;
    while i < s.len()
        invariant
            i == out@.len(),
            i <= s@.len(),
            forall|j: int| 0 <= j < i ==> (#[trigger] out@[j])@ == s@[j]@,
        decreases s@.len() - i,
    {
        out.push(s[i].clone());
        i = i + 1;
    }
    out
}

pub(crate) fn clone_vec_forwarding_loop(s: &Vec<ForwardingLoop>) -> (r: Vec<ForwardingLoop>)
    ensures
        r@ == s@,
{
    let mut out: Vec<ForwardingLoop> = Vec::new();
    let mut i: usize = 0;
    while i < s.len()
        invariant
            i == out@.len(),
            i <= s@.len(),
            forall|j: int| 0 <= j < i ==> #[trigger] out@[j] == s@[j],
        decreases s@.len() - i,
    {
        out.push(s[i]);
        i = i + 1;
    }
    out
}

pub(crate) fn clone_vec_actor_node(s: &Vec<ActorNode>) -> (r: Vec<ActorNode>)
    ensures
        r@.len() == s@.len(),
        forall|i: int| 0 <= i < s@.len() ==> (#[trigger] r@[i])@ == s@[i]@,
        r@.map_values(|x: ActorNode| x@) == s@.map_values(|x: ActorNode| x@),
{
    let mut out: Vec<ActorNode> = Vec::new();
    let mut i: usize = 0;
    while i < s.len()
        invariant
            i == out@.len(),
            i <= s@.len(),
            forall|j: int| 0 <= j < i ==> (#[trigger] out@[j])@ == s@[j]@,
        decreases s@.len() - i,
    {
        out.push(s[i].clone());
        i = i + 1;
    }
    out
}

pub(crate) fn clone_vec_registration(s: &Vec<Registration>) -> (r: Vec<Registration>)
    ensures
        r@.len() == s@.len(),
        forall|i: int| 0 <= i < s@.len() ==> (#[trigger] r@[i])@ == s@[i]@,
        r@.map_values(|x: Registration| x@) == s@.map_values(|x: Registration| x@),
{
    let mut out: Vec<Registration> = Vec::new();
    let mut i: usize = 0;
    while i < s.len()
        invariant
            i == out@.len(),
            i <= s@.len(),
            forall|j: int| 0 <= j < i ==> (#[trigger] out@[j])@ == s@[j]@,
        decreases s@.len() - i,
    {
        out.push(s[i].clone());
        i = i + 1;
    }
    out
}

pub(crate) fn clone_vec_u32(s: &Vec<u32>) -> (r: Vec<u32>)
    ensures
        r@ == s@,
{
    let mut out: Vec<u32> = Vec::new();
    let mut i: usize = 0;
    while i < s.len()
        invariant
            i == out@.len(),
            i <= s@.len(),
            forall|j: int| 0 <= j < i ==> #[trigger] out@[j] == s@[j],
        decreases s@.len() - i,
    {
        out.push(s[i]);
        i = i + 1;
    }
    out
}

pub(crate) fn clone_vec_object_variable_data(
    s: &Vec<ObjectVariableData>,
) -> (r: Vec<ObjectVariableData>)
    ensures
        r@.len() == s@.len(),
        forall|i: int| 0 <= i < s@.len() ==> (#[trigger] r@[i])@ == s@[i]@,
        r@.map_values(|x: ObjectVariableData| x@) == s@.map_values(|x: ObjectVariableData| x@),
{
    let mut out: Vec<ObjectVariableData> = Vec::new();
    let mut i: usize = 0;
    while i < s.len()
        invariant
            i == out@.len(),
            i <= s@.len(),
            forall|j: int| 0 <= j < i ==> (#[trigger] out@[j])@ == s@[j]@,
        decreases s@.len() - i,
    {
        out.push(s[i].clone());
        i = i + 1;
    }
    out
}

pub(crate) fn clone_vec_argument_slot(s: &Vec<ArgumentSlot>) -> (r: Vec<ArgumentSlot>)
    ensures
        r@.len() == s@.len(),
        forall|i: int| 0 <= i < s@.len() ==> (#[trigger] r@[i])@ == s@[i]@,
        r@.map_values(|x: ArgumentSlot| x@) == s@.map_values(|x: ArgumentSlot| x@),
{
    let mut out: Vec<ArgumentSlot> = Vec::new();
    let mut i: usize = 0;
    while i < s.len()
        invariant
            i == out@.len(),
            i <= s@.len(),
            forall|j: int| 0 <= j < i ==> (#[trigger] out@[j])@ == s@[j]@,
        decreases s@.len() - i,
    {
        out.push(s[i].clone());
        i = i + 1;
    }
    out
}

pub(crate) fn clone_vec_forwarding_connection(
    s: &Vec<ForwardingConnection>,
) -> (r: Vec<ForwardingConnection>)
    ensures
        r@ == s@,
{
    let mut out: Vec<ForwardingConnection> = Vec::new();
    let mut i: usize = 0;
    while i < s.len()
        invariant
            i == out@.len(),
            i <= s@.len(),
            forall|j: int| 0 <= j < i ==> #[trigger] out@[j] == s@[j],
        decreases s@.len() - i,
    {
        out.push(s[i]);
        i = i + 1;
    }
    out
}

impl Clone for ScopeSegment {
    fn clone(&self) -> (r: Self)
        ensures
            r@ == self@,
    {
        match self {
            ScopeSegment::ListItem { index, key } => ScopeSegment::ListItem {
                index: *index,
                key: *key,
            },
            ScopeSegment::WhileArm { index } => ScopeSegment::WhileArm { index: *index },
            ScopeSegment::ListAppend { span } => ScopeSegment::ListAppend { span: *span },
            ScopeSegment::Call { key } => ScopeSegment::Call { key: *key },
            ScopeSegment::Invocation { id } => ScopeSegment::Invocation { id: id.clone() },
            ScopeSegment::Restored { id } => ScopeSegment::Restored { id: id.clone() },
        }
    }
}

impl Clone for Scope {
    fn clone(&self) -> (r: Self)
        ensures
            r@ == self@,
    {
        Scope {
            segments: clone_vec_scope_segment(&self.segments),
        }
    }
}

impl Clone for FunctionRegistry {
    fn clone(&self) -> (r: Self)
        ensures
            r@ == self@,
    {
        FunctionRegistry {
            functions: clone_map_static_function_definition(&self.functions),
        }
    }
}

impl Clone for ActorContext {
    fn clone(&self) -> (r: Self)
        ensures
            r@ == self@,
    {
        ActorContext {
            piped: self.piped,
            passed: self.passed,
            parameters: clone_map_u64(&self.parameters),
            sequential_processing: self.sequential_processing,
            backpressure_permit: self.backpressure_permit,
            hold_state_update_callback: self.hold_state_update_callback,
            use_lazy_actors: self.use_lazy_actors,
            is_snapshot_context: self.is_snapshot_context,
            object_locals: clone_map_u64(&self.object_locals),
            scope: self.scope.clone(),
            subscription_scope: self.subscription_scope,
            call_recorder: clone_opt_text(&self.call_recorder),
            is_restoring: self.is_restoring,
            list_append_storage_key: clone_opt_text(&self.list_append_storage_key),
            recording_counter: clone_opt_text(&self.recording_counter),
            subscription_time: self.subscription_time,
        }
    }
}

impl Clone for EvaluationContext {
    fn clone(&self) -> (r: Self)
        ensures
            r@ == self@,
    {
        EvaluationContext {
            actor_context: self.actor_context.clone(),
            reference_connector: self.reference_connector,
            link_connector: self.link_connector,
            pass_through_connector: self.pass_through_connector,
            function_registry_snapshot: clone_opt_function_registry(
                &self.function_registry_snapshot,
            ),
        }
    }
}

impl Clone for VariableSpec {
    fn clone(&self) -> (r: Self)
        ensures
            r@ == self@,
    {
        VariableSpec {
            name: self.name.clone(),
            span: self.span,
            key: self.key,
            value: self.value,
            is_link: self.is_link,
            source: self.source,
        }
    }
}

impl Clone for ActorSpec {
    fn clone(&self) -> (r: Self)
        ensures
            r@ == self@,
    {
        match self {
            ActorSpec::Literal(a) => ActorSpec::Literal(a.clone()),
            ActorSpec::BinaryOp { op, a, b } => ActorSpec::BinaryOp { op: *op, a: *a, b: *b },
            ActorSpec::List { items } => ActorSpec::List { items: clone_vec_u64(items) },
            ActorSpec::Object { variables } => ActorSpec::Object {
                variables: clone_vec_variable_spec(variables),
            },
            ActorSpec::TaggedObject { tag, variables } => ActorSpec::TaggedObject {
                tag: tag.clone(),
                variables: clone_vec_variable_spec(variables),
            },
            ActorSpec::Latest { inputs } => ActorSpec::Latest { inputs: clone_vec_u64(inputs) },
            ActorSpec::Then { piped, body, registry, ordered, lazy } => ActorSpec::Then {
                piped: *piped,
                body: body.clone(),
                registry: registry.clone(),
                ordered: *ordered,
                lazy: *lazy,
            },
            ActorSpec::When { piped, arms, registry, ordered } => ActorSpec::When {
                piped: *piped,
                arms: clone_vec_arm(arms),
                registry: registry.clone(),
                ordered: *ordered,
            },
            ActorSpec::While { piped, arms, registry } => ActorSpec::While {
                piped: *piped,
                arms: clone_vec_arm(arms),
                registry: registry.clone(),
            },
            ActorSpec::HoldState { state_param, initial } => ActorSpec::HoldState {
                state_param: state_param.clone(),
                initial: *initial,
            },
            ActorSpec::Hold { state, body, initial } => ActorSpec::Hold {
                state: *state,
                body: *body,
                initial: *initial,
            },
            ActorSpec::Block { object, output } => ActorSpec::Block {
                object: *object,
                output: *output,
            },
            ActorSpec::Alias { root, alias } => ActorSpec::Alias {
                root: *root,
                alias: alias.clone(),
            },
            ActorSpec::FieldAccess { piped, path } => ActorSpec::FieldAccess {
                piped: *piped,
                path: clone_vec_text(path),
            },
            ActorSpec::Reference { referenced } => ActorSpec::Reference { referenced: *referenced },
            ActorSpec::TextField { base, path } => ActorSpec::TextField {
                base: *base,
                path: clone_vec_text(path),
            },
            ActorSpec::CombinedText { parts } => ActorSpec::CombinedText {
                parts: clone_vec_u64(parts),
            },
            ActorSpec::Relay { source } => ActorSpec::Relay { source: *source },
            ActorSpec::LinkForwarder { source, alias, pass_through } => ActorSpec::LinkForwarder {
                source: *source,
                alias: alias.clone(),
                pass_through: *pass_through,
            },
            ActorSpec::PassThrough { forwarder, key } => ActorSpec::PassThrough {
                forwarder: *forwarder,
                key: *key,
            },
            ActorSpec::LinkRelay { pass_through, key } => ActorSpec::LinkRelay {
                pass_through: *pass_through,
                key: *key,
            },
            ActorSpec::Forwarding => ActorSpec::Forwarding,
            ActorSpec::LinkValue => ActorSpec::LinkValue,
            ActorSpec::Persisted { source } => ActorSpec::Persisted { source: *source },
            ActorSpec::Function { name } => ActorSpec::Function { name: name.clone() },
            ActorSpec::ListBinding {
                operation,
                binding,
                list,
                transform,
            } => ActorSpec::ListBinding {
                operation: *operation,
                binding: binding.clone(),
                list: *list,
                transform: transform.clone(),
            },
            ActorSpec::ListAppend { list, item, storage_key } => ActorSpec::ListAppend {
                list: *list,
                item: *item,
                storage_key: storage_key.clone(),
            },
            ActorSpec::Builtin { function, arguments } => ActorSpec::Builtin {
                function: *function,
                arguments: clone_vec_u64(arguments),
            },
            ActorSpec::UserCall { result, parameters } => ActorSpec::UserCall {
                result: *result,
                parameters: clone_map_u64(parameters),
            },
            ActorSpec::PipedUserCall {
                piped,
                param,
                path,
                definition,
                parameters,
            } => ActorSpec::PipedUserCall {
                piped: *piped,
                param: param.clone(),
                path: clone_vec_text(path),
                definition: definition.clone(),
                parameters: clone_map_u64(parameters),
            },
            ActorSpec::WithLoops { source, loops } => ActorSpec::WithLoops {
                source: *source,
                loops: clone_vec_forwarding_loop(loops),
            },
            ActorSpec::Constant(a) => ActorSpec::Constant(a.clone()),
            ActorSpec::AppendedItem { value, storage_key, call_id } => ActorSpec::AppendedItem {
                value: value.clone(),
                storage_key: storage_key.clone(),
                call_id: call_id.clone(),
            },
            ActorSpec::RestoredItem { source, storage_key, call_id } => ActorSpec::RestoredItem {
                source: *source,
                storage_key: storage_key.clone(),
                call_id: call_id.clone(),
            },
        }
    }
}

impl Clone for ActorNode {
    fn clone(&self) -> (r: Self)
        ensures
            r@ == self@,
    {
        ActorNode {
            actor: self.actor.clone(),
            key: self.key,
            span: self.span,
            context: self.context.clone(),
        }
    }
}

impl Clone for Registration {
    fn clone(&self) -> (r: Self)
        ensures
            r@ == self@,
    {
        match self {
            Registration::Referenceable { span, actor } => Registration::Referenceable {
                span: *span,
                actor: *actor,
            },
            Registration::Link { span, scope, actor } => Registration::Link {
                span: *span,
                scope: scope.clone(),
                actor: *actor,
            },
        }
    }
}

impl Clone for Plan {
    fn clone(&self) -> (r: Self)
        ensures
            r@ == self@,
    {
        Plan {
            actors: clone_vec_actor_node(&self.actors),
            registrations: clone_vec_registration(&self.registrations),
            fresh: self.fresh,
        }
    }
}

impl Clone for ObjectVariableData {
    fn clone(&self) -> (r: Self)
        ensures
            r@ == self@,
    {
        ObjectVariableData {
            name: self.name.clone(),
            value_slot: self.value_slot,
            is_link: self.is_link,
            is_referenced: self.is_referenced,
            span: self.span,
            key: self.key,
            forwarding_actor: self.forwarding_actor,
        }
    }
}

impl Clone for WorkItem {
    fn clone(&self) -> (r: Self)
        ensures
            r@ == self@,
    {
        match self {
            WorkItem::Evaluate { expr, ctx, result_slot } => WorkItem::Evaluate {
                expr: expr.clone(),
                ctx: ctx.clone(),
                result_slot: *result_slot,
            },
            WorkItem::BinaryOp {
                op,
                operand_a_slot,
                operand_b_slot,
                span,
                key,
                ctx,
                result_slot,
            } => WorkItem::BinaryOp {
                op: *op,
                operand_a_slot: *operand_a_slot,
                operand_b_slot: *operand_b_slot,
                span: *span,
                key: *key,
                ctx: ctx.clone(),
                result_slot: *result_slot,
            },
            WorkItem::BuildList { item_slots, span, key, ctx, result_slot } => WorkItem::BuildList {
                item_slots: clone_vec_u32(item_slots),
                span: *span,
                key: *key,
                ctx: ctx.clone(),
                result_slot: *result_slot,
            },
            WorkItem::BuildObject {
                variable_data,
                span,
                key,
                ctx,
                result_slot,
            } => WorkItem::BuildObject {
                variable_data: clone_vec_object_variable_data(variable_data),
                span: *span,
                key: *key,
                ctx: ctx.clone(),
                result_slot: *result_slot,
            },
            WorkItem::BuildTaggedObject {
                tag,
                variable_data,
                span,
                key,
                ctx,
                result_slot,
            } => WorkItem::BuildTaggedObject {
                tag: tag.clone(),
                variable_data: clone_vec_object_variable_data(variable_data),
                span: *span,
                key: *key,
                ctx: ctx.clone(),
                result_slot: *result_slot,
            },
            WorkItem::BuildLatest {
                input_slots,
                span,
                key,
                ctx,
                result_slot,
            } => WorkItem::BuildLatest {
                input_slots: clone_vec_u32(input_slots),
                span: *span,
                key: *key,
                ctx: ctx.clone(),
                result_slot: *result_slot,
            },
            WorkItem::BuildThen {
                piped_slot,
                body,
                span,
                key,
                ctx,
                result_slot,
            } => WorkItem::BuildThen {
                piped_slot: *piped_slot,
                body: body.clone(),
                span: *span,
                key: *key,
                ctx: ctx.clone(),
                result_slot: *result_slot,
            },
            WorkItem::BuildWhen {
                piped_slot,
                arms,
                span,
                key,
                ctx,
                result_slot,
            } => WorkItem::BuildWhen {
                piped_slot: *piped_slot,
                arms: clone_vec_arm(arms),
                span: *span,
                key: *key,
                ctx: ctx.clone(),
                result_slot: *result_slot,
            },
            WorkItem::BuildWhile {
                piped_slot,
                arms,
                span,
                key,
                ctx,
                result_slot,
            } => WorkItem::BuildWhile {
                piped_slot: *piped_slot,
                arms: clone_vec_arm(arms),
                span: *span,
                key: *key,
                ctx: ctx.clone(),
                result_slot: *result_slot,
            },
            WorkItem::BuildHold {
                initial_slot,
                state_param,
                body,
                span,
                key,
                ctx,
                result_slot,
            } => WorkItem::BuildHold {
                initial_slot: *initial_slot,
                state_param: state_param.clone(),
                body: body.clone(),
                span: *span,
                key: *key,
                ctx: ctx.clone(),
                result_slot: *result_slot,
            },
            WorkItem::BuildBlock { object_slot, output_slot, result_slot } => WorkItem::BuildBlock {
                object_slot: *object_slot,
                output_slot: *output_slot,
                result_slot: *result_slot,
            },
            WorkItem::EvaluateWithPiped {
                expr,
                prev_slot,
                ctx,
                result_slot,
            } => WorkItem::EvaluateWithPiped {
                expr: expr.clone(),
                prev_slot: *prev_slot,
                ctx: ctx.clone(),
                result_slot: *result_slot,
            },
            WorkItem::CallFunction {
                path,
                arg_slots,
                passed_slot,
                passed_context,
                use_piped_for_builtin,
                span,
                key,
                ctx,
                result_slot,
            } => WorkItem::CallFunction {
                path: clone_vec_text(path),
                arg_slots: clone_vec_argument_slot(arg_slots),
                passed_slot: *passed_slot,
                passed_context: *passed_context,
                use_piped_for_builtin: *use_piped_for_builtin,
                span: *span,
                key: *key,
                ctx: ctx.clone(),
                result_slot: *result_slot,
            },
            WorkItem::ConnectForwardingActors { connections } => WorkItem::ConnectForwardingActors {
                connections: clone_vec_forwarding_connection(connections),
            },
            WorkItem::WrapWithPersistence {
                source_slot,
                persistence_id,
                ctx,
                result_slot,
            } => WorkItem::WrapWithPersistence {
                source_slot: *source_slot,
                persistence_id: *persistence_id,
                ctx: ctx.clone(),
                result_slot: *result_slot,
            },
        }
    }
}

impl Clone for ArgumentSlot {
    fn clone(&self) -> (r: Self)
        ensures
            r@ == self@,
    {
        ArgumentSlot {
            name: self.name.clone(),
            slot: self.slot,
        }
    }
}

impl Clone for RecordedCall {
    fn clone(&self) -> (r: Self)
        ensures
            r@ == self@,
    {
        RecordedCall {
            id: self.id.clone(),
            path: clone_vec_text(&self.path),
            input: clone_opt_value(&self.input),
        }
    }
}

} // verus!
