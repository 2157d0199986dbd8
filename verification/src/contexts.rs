//! The contexts in which the parts of a program are evaluated.
use crate::plan::{ActorContext, EvaluationContext, Scope, ScopeSegment};
use crate::plan_clone::{clone_map_u64, clone_vec_scope_segment};
use crate::plan_view::{ActorContextView, EvaluationContextView, ScopeSegmentView, ScopeView};
use crate::static_expression::Span;
use crate::text::{nat_text, u64_text};
use crate::text_map::{TextMap, entry_pairs, keys_increase, lemma_entries_grow, pairs_map};
use vstd::prelude::*;
use vstd::string::*;

verus! {

/// A place in the source, as it is written: start and end with two dots between.
pub open spec fn span_name(span: Span) -> Seq<char> {
    nat_text(span.start as nat) + ".."@ + nat_text(span.end as nat)
}

/// A place in the source, as it is written.
pub fn span_text(span: Span) -> (r: String)
    ensures
        r@ == span_name(span),
{
    let mut out = u64_text(span.start);
    out.append("..");
    out.append(u64_text(span.end).as_str());
    out
}

/// A scope one level below another one.
pub open spec fn child_scope(scope: ScopeView, segment: ScopeSegmentView) -> ScopeView {
    ScopeView { segments: scope.segments.push(segment) }
}

impl Scope {
    /// The scope one level below.
    pub fn child(&self, segment: ScopeSegment) -> (r: Scope)
        ensures
            r@ == child_scope(self@, segment@),
    {
        let mut segments = clone_vec_scope_segment(&self.segments);
        let ghost before = self@.segments;
        segments.push(segment);
        let r = Scope { segments };
        proof {
            assert(r@.segments =~= before.push(segment@));
        }
        r
    }
}

/// The context of a program as a whole.
pub open spec fn root_context() -> ActorContextView {
    ActorContextView {
        piped: None,
        passed: None,
        parameters: Map::empty(),
        sequential_processing: false,
        backpressure_permit: None,
        hold_state_update_callback: None,
        use_lazy_actors: false,
        is_snapshot_context: false,
        object_locals: Map::empty(),
        scope: ScopeView { segments: Seq::empty() },
        subscription_scope: None,
        call_recorder: None,
        is_restoring: false,
        list_append_storage_key: None,
        recording_counter: None,
        subscription_time: None,
    }
}

impl Default for ActorContext {
    fn default() -> (r: Self)
        ensures
            r@ == root_context(),
    {
        let r = ActorContext {
            piped: None,
            passed: None,
            parameters: TextMap::new(),
            sequential_processing: false,
            backpressure_permit: None,
            hold_state_update_callback: None,
            use_lazy_actors: false,
            is_snapshot_context: false,
            object_locals: TextMap::new(),
            scope: Scope { segments: Vec::new() },
            subscription_scope: None,
            call_recorder: None,
            is_restoring: false,
            list_append_storage_key: None,
            recording_counter: None,
            subscription_time: None,
        };
        proof {
            assert(r@.scope.segments =~= Seq::<ScopeSegmentView>::empty());
        }
        r
    }
}

/// A context one scope level below another one.
pub open spec fn in_child_scope(
    c: ActorContextView,
    segment: ScopeSegmentView,
) -> ActorContextView {
    ActorContextView { scope: child_scope(c.scope, segment), ..c }
}

/// The context of the body of THEN and of an arm of WHEN: the value is piped in, the
/// parameters are frozen, and what the body emits is a snapshot.
pub open spec fn snapshot_context(
    c: ActorContextView,
    value: u64,
    parameters: Map<Seq<char>, u64>,
) -> ActorContextView {
    ActorContextView {
        piped: Some(value),
        parameters,
        hold_state_update_callback: None,
        is_snapshot_context: true,
        subscription_time: None,
        ..c
    }
}

/// The context of an arm of WHILE: the value is piped in, and the arm has a scope of its own.
pub open spec fn while_arm_context(
    c: ActorContextView,
    value: u64,
    parameters: Map<Seq<char>, u64>,
    arm: u64,
    subscription: u64,
) -> ActorContextView {
    ActorContextView {
        piped: Some(value),
        parameters,
        is_snapshot_context: false,
        scope: child_scope(c.scope, ScopeSegmentView::WhileArm { index: arm }),
        subscription_scope: Some(subscription),
        subscription_time: None,
        ..c
    }
}

/// The context of the body of HOLD: the state is a parameter, and values are taken one by one.
pub open spec fn hold_body_context(
    c: ActorContextView,
    state_param: Seq<char>,
    state: u64,
) -> ActorContextView {
    ActorContextView {
        piped: None,
        parameters: c.parameters.insert(state_param, state),
        sequential_processing: true,
        backpressure_permit: Some(state),
        hold_state_update_callback: Some(state),
        use_lazy_actors: true,
        is_snapshot_context: false,
        ..c
    }
}

/// The context of the body of a function that is called.
pub open spec fn call_body_context(
    c: ActorContextView,
    piped: Option<u64>,
    parameters: Map<Seq<char>, u64>,
    segment: ScopeSegmentView,
) -> ActorContextView {
    ActorContextView {
        piped,
        parameters,
        hold_state_update_callback: None,
        is_snapshot_context: false,
        object_locals: Map::empty(),
        scope: child_scope(c.scope, segment),
        ..c
    }
}

/// The context of a function that the platform brings along.
pub open spec fn builtin_context(c: ActorContextView) -> ActorContextView {
    ActorContextView {
        piped: None,
        hold_state_update_callback: None,
        is_snapshot_context: false,
        object_locals: Map::empty(),
        ..c
    }
}

/// The key under which the calls that made the items of a list are kept.
pub open spec fn append_storage_key(span: Span) -> Seq<char> {
    "list_calls:list_append_"@ + span_name(span)
}

/// The context of the item of an appending: its calls are recorded.
pub open spec fn recording_context(c: ActorContextView, span: Span) -> ActorContextView {
    ActorContextView {
        scope: child_scope(c.scope, ScopeSegmentView::ListAppend { span }),
        call_recorder: Some(append_storage_key(span)),
        list_append_storage_key: Some(append_storage_key(span)),
        recording_counter: Some(append_storage_key(span)),
        ..c
    }
}

/// The context in which a recorded call is made again.
pub open spec fn restoring_context(
    c: ActorContextView,
    parameters: Map<Seq<char>, u64>,
    id: Seq<char>,
) -> ActorContextView {
    ActorContextView {
        parameters,
        scope: child_scope(c.scope, ScopeSegmentView::Restored { id }),
        is_restoring: true,
        ..c
    }
}

impl ActorContext {
    /// The context one scope level below.
    pub fn with_child_scope(&self, segment: ScopeSegment) -> (r: Self)
        ensures
            r@ == in_child_scope(self@, segment@),
    {
        let mut out = self.clone();
        out.scope = self.scope.child(segment);
        out
    }

    /// The context of the body of THEN and of an arm of WHEN.
    pub fn for_snapshot(&self, value: u64, parameters: TextMap<u64>) -> (r: Self)
        ensures
            r@ == snapshot_context(self@, value, parameters@),
    {
        let mut out = self.clone();
        out.piped = Some(value);
        out.parameters = parameters;
        out.hold_state_update_callback = None;
        out.is_snapshot_context = true;
        out.subscription_time = None;
        out
    }

    /// The context of an arm of WHILE.
    pub fn for_while_arm(
        &self,
        value: u64,
        parameters: TextMap<u64>,
        arm: u64,
        subscription: u64,
    ) -> (r: Self)
        ensures
            r@ == while_arm_context(self@, value, parameters@, arm, subscription),
    {
        let mut out = self.clone();
        out.piped = Some(value);
        out.parameters = parameters;
        out.is_snapshot_context = false;
        out.scope = self.scope.child(ScopeSegment::WhileArm { index: arm });
        out.subscription_scope = Some(subscription);
        out.subscription_time = None;
        out
    }

    /// The context of the body of HOLD.
    pub fn for_hold_body(&self, state_param: &String, state: u64) -> (r: Self)
        ensures
            r@ == hold_body_context(self@, state_param@, state),
    {
        let mut out = self.clone();
        out.piped = None;
        out.parameters.insert(state_param.clone(), state);
        out.sequential_processing = true;
        out.backpressure_permit = Some(state);
        out.hold_state_update_callback = Some(state);
        out.use_lazy_actors = true;
        out.is_snapshot_context = false;
        out
    }

    /// The context of the body of a function that is called.
    pub fn for_call(
        &self,
        piped: Option<u64>,
        parameters: TextMap<u64>,
        segment: ScopeSegment,
    ) -> (r: Self)
        ensures
            r@ == call_body_context(self@, piped, parameters@, segment@),
    {
        let mut out = self.clone();
        out.piped = piped;
        out.parameters = parameters;
        out.hold_state_update_callback = None;
        out.is_snapshot_context = false;
        out.object_locals = TextMap::new();
        out.scope = self.scope.child(segment);
        out
    }

    /// The context of a function that the platform brings along.
    pub fn for_builtin(&self) -> (r: Self)
        ensures
            r@ == builtin_context(self@),
    {
        let mut out = self.clone();
        out.piped = None;
        out.hold_state_update_callback = None;
        out.is_snapshot_context = false;
        out.object_locals = TextMap::new();
        out
    }

    /// The context of the item of an appending.
    pub fn for_recording(&self, span: Span) -> (r: Self)
        ensures
            r@ == recording_context(self@, span),
    {
        let key = list_append_key(span);
        let mut out = self.clone();
        out.scope = self.scope.child(ScopeSegment::ListAppend { span });
        out.call_recorder = Some(key.clone());
        out.list_append_storage_key = Some(key.clone());
        out.recording_counter = Some(key);
        out
    }

    /// The context in which a recorded call is made again.
    pub fn for_restoring(&self, parameters: TextMap<u64>, id: &str) -> (r: Self)
        ensures
            r@ == restoring_context(self@, parameters@, id@),
    {
        let mut out = self.clone();
        out.parameters = parameters;
        out.scope = self.scope.child(ScopeSegment::Restored { id: id.to_owned() });
        out.is_restoring = true;
        out
    }
}

/// The key under which the calls that made the items of a list are kept.
pub fn list_append_key(span: Span) -> (r: String)
    ensures
        r@ == append_storage_key(span),
{
    let mut key = "list_calls:list_append_".to_owned();
    key.append(span_text(span).as_str());
    key
}

/// The view of an evaluation context with another actor context.
pub open spec fn with_context(
    ctx: EvaluationContextView,
    actor_context: ActorContextView,
) -> EvaluationContextView {
    EvaluationContextView { actor_context, ..ctx }
}

impl EvaluationContext {
    /// A context in which all connectors are alive and no functions are known.
    pub fn new(actor_context: ActorContext) -> (r: Self)
        ensures
            r@ == (EvaluationContextView {
                actor_context: actor_context@,
                reference_connector: true,
                link_connector: true,
                pass_through_connector: true,
                function_registry_snapshot: None,
            }),
    {
        EvaluationContext {
            actor_context,
            reference_connector: true,
            link_connector: true,
            pass_through_connector: true,
            function_registry_snapshot: None,
        }
    }

    /// The context with another actor context.
    pub fn with_actor_context(&self, actor_context: ActorContext) -> (r: Self)
        ensures
            r@ == with_context(self@, actor_context@),
    {
        let mut out = self.clone();
        out.actor_context = actor_context;
        out
    }

    /// The context with a piped actor.
    pub fn with_piped(&self, piped: u64) -> (r: Self)
        ensures
            r@ == with_context(
                self@,
                (ActorContextView { piped: Some(piped), ..self@.actor_context }),
            ),
    {
        let mut out = self.clone();
        out.actor_context.piped = Some(piped);
        out
    }

    /// The context with a passed actor.
    pub fn with_passed(&self, passed: u64) -> (r: Self)
        ensures
            r@ == with_context(
                self@,
                (ActorContextView { passed: Some(passed), ..self@.actor_context }),
            ),
    {
        let mut out = self.clone();
        out.actor_context.passed = Some(passed);
        out
    }

    /// The context with more parameters, in place of those with the same names.
    pub fn with_parameters(&self, params: &TextMap<u64>) -> (r: Self)
        ensures
            r@ == with_context(
                self@,
                (ActorContextView {
                    parameters: self@.actor_context.parameters.union_prefer_right(params@),
                    ..self@.actor_context
                }),
            ),
    {
        let mut out = self.clone();
        out.actor_context.parameters = merged_parameters(&self.actor_context.parameters, params);
        out
    }

    /// The context with actors that are lazy or not.
    pub fn with_lazy_actors(&self, use_lazy_actors: bool) -> (r: Self)
        ensures
            r@ == with_context(
                self@,
                (ActorContextView { use_lazy_actors, ..self@.actor_context }),
            ),
    {
        let mut out = self.clone();
        out.actor_context.use_lazy_actors = use_lazy_actors;
        out
    }

    /// Whether the connector of references is alive.
    pub fn try_reference_connector(&self) -> (r: bool)
        ensures
            r == self@.reference_connector,
    {
        self.reference_connector
    }

    /// Whether the connector of links is alive.
    pub fn try_link_connector(&self) -> (r: bool)
        ensures
            r == self@.link_connector,
    {
        self.link_connector
    }

    /// Whether the connector of pass-throughs is alive.
    pub fn try_pass_through_connector(&self) -> (r: bool)
        ensures
            r == self@.pass_through_connector,
    {
        self.pass_through_connector
    }
}

/// The parameters of both maps; those of `over` in place of others with their names.
pub fn merged_parameters(params: &TextMap<u64>, over: &TextMap<u64>) -> (r: TextMap<u64>)
    ensures
        r@ == params@.union_prefer_right(over@),
{
    let mut out = clone_map_u64(params);
    proof {
        use_type_invariant(over);
    }
    let ghost entries = over.entries@;
    let mut i: usize = 0;
    while i < over.entries.len()
        invariant
            i <= over.entries@.len(),
            entries == over.entries@,
            keys_increase(entries),
            out@ == params@.union_prefer_right(pairs_map(entry_pairs(entries.take(i as int)))),
        decreases over.entries@.len() - i,
    {
        proof {
            lemma_entries_grow(entries, i as int);
            let more = pairs_map(entry_pairs(entries.take(i as int)));
            let k = entries[i as int].0@;
            let v = entries[i as int].1;
            assert(params@.union_prefer_right(more.insert(k, v)) =~= params@.union_prefer_right(
                more,
            ).insert(k, v));
        }
        out.insert(over.entries[i].0.clone(), over.entries[i].1);
        i = i + 1;
    }
    proof {
        assert(entries.take(i as int) =~= entries);
    }
    out
}

} // verus!
