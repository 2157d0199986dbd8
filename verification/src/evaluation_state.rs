//! The state of an evaluation: steps to be done, results in slots and the plan so far.
use std::collections::HashMap;
use crate::expression_view::StaticFunctionDefinitionView;
use crate::plan::{
    ActorContext, ActorNode, ActorSpec, ForwardingLoop, FunctionRegistry, PersistenceKey, Plan,
    Registration, WorkItem,
};
use crate::plan_view::{
    ActorContextView, ActorNodeView, ActorSpecView, PlanView, RegistrationView, WorkItemView,
};
use crate::static_expression::{PersistenceId, Span, StaticFunctionDefinition};
use crate::text::{lemma_text_before_total, text_before};
use crate::text_map::{
    TextMap, keys_increase, lemma_insert_values, lemma_pairs_map_has, lemma_pairs_map_lacks,
};
use vstd::prelude::*;
use vstd::std_specs::hash::*;
use vstd::string::*;

verus! {

broadcast use group_hash_axioms;

/// The number of a place for a result.
pub type SlotId = u32;

/// The state of an evaluation.
#[derive(Debug)]
pub struct EvaluationState {
    work_queue: Vec<WorkItem>,
    results: HashMap<u32, u64>,
    next_slot: SlotId,
    function_registry: FunctionRegistry,
    forwarding_loops: Vec<ForwardingLoop>,
    plan: Plan,
}

/// The mathematical value of an [`EvaluationState`].
#[verifier::ext_equal]
pub struct MachineView {
    pub queue: Seq<WorkItemView>,
    pub results: Map<u32, u64>,
    pub next_slot: u32,
    pub registry: Map<Seq<char>, StaticFunctionDefinitionView>,
    pub loops: Seq<ForwardingLoop>,
    pub plan: PlanView,
}

impl View for EvaluationState {
    type V = MachineView;

    closed spec fn view(&self) -> MachineView {
        MachineView {
            queue: self.work_queue@.map_values(|x: WorkItem| x@),
            results: self.results@,
            next_slot: self.next_slot,
            registry: self.function_registry@.functions,
            loops: self.forwarding_loops@,
            plan: self.plan@,
        }
    }
}

/// The plan without actors.
pub open spec fn empty_plan() -> PlanView {
    PlanView { actors: Seq::empty(), registrations: Seq::empty(), fresh: 0 }
}

/// An evaluation that has not begun, on top of a plan.
pub open spec fn fresh_machine(plan: PlanView) -> MachineView {
    MachineView {
        queue: Seq::empty(),
        results: Map::empty(),
        next_slot: 0,
        registry: Map::empty(),
        loops: Seq::empty(),
        plan,
    }
}

/// The identity that the next actor gets.
pub open spec fn next_actor(m: MachineView) -> u64 {
    m.plan.actors.len() as u64
}

/// The machine with one more actor.
pub open spec fn add_actor(
    m: MachineView,
    actor: ActorSpecView,
    key: PersistenceKey,
    span: Span,
    context: ActorContextView,
) -> MachineView {
    let node = ActorNodeView { actor, key, span, context };
    MachineView { plan: PlanView { actors: m.plan.actors.push(node), ..m.plan }, ..m }
}

/// The machine with an actor in a slot.
pub open spec fn stored(m: MachineView, slot: u32, actor: u64) -> MachineView {
    MachineView { results: m.results.insert(slot, actor), ..m }
}

/// The machine with one more actor, which is in a slot.
pub open spec fn emit(
    m: MachineView,
    slot: u32,
    actor: ActorSpecView,
    key: PersistenceKey,
    span: Span,
    context: ActorContextView,
) -> MachineView {
    stored(add_actor(m, actor, key, span, context), slot, next_actor(m))
}

/// The machine with one more step to be done.
pub open spec fn pushed(m: MachineView, item: WorkItemView) -> MachineView {
    MachineView { queue: m.queue.push(item), ..m }
}

/// The slot `k` places after `base`.
pub open spec fn slot_at(base: u32, k: int) -> u32 {
    ((base + k) % 0x1_0000_0000) as u32
}

/// The machine after `n` slots were taken.
pub open spec fn allocated(m: MachineView, n: nat) -> MachineView {
    MachineView { next_slot: slot_at(m.next_slot, n as int), ..m }
}

/// The machine after an identity was drawn.
pub open spec fn drawn(m: MachineView) -> MachineView {
    MachineView { plan: PlanView { fresh: m.plan.fresh.wrapping_add(1), ..m.plan }, ..m }
}

/// The identity of an expression: the one that is kept, else one that is drawn.
pub open spec fn key_of(m: MachineView, persistence: Option<PersistenceId>) -> PersistenceKey {
    match persistence {
        Some(id) => PersistenceKey::Stored(id),
        None => PersistenceKey::Fresh(m.plan.fresh),
    }
}

/// The machine after [`key_of`].
pub open spec fn keyed(m: MachineView, persistence: Option<PersistenceId>) -> MachineView {
    match persistence {
        Some(_) => m,
        None => drawn(m),
    }
}

/// The machine with one more registration, if the connector for it is alive.
pub open spec fn registered(
    m: MachineView,
    alive: bool,
    registration: RegistrationView,
) -> MachineView {
    if alive {
        MachineView {
            plan: PlanView {
                registrations: m.plan.registrations.push(registration),
                ..m.plan
            },
            ..m
        }
    } else {
        m
    }
}

impl FunctionRegistry {
    /// The registry without functions.
    pub fn new() -> (r: Self)
        ensures
            r@.functions == Map::<Seq<char>, StaticFunctionDefinitionView>::empty(),
    {
        let r = FunctionRegistry { functions: TextMap::new() };
        proof {
            assert(r@.functions =~= Map::<Seq<char>, StaticFunctionDefinitionView>::empty());
        }
        r
    }

    /// The function with the given name.
    pub fn get(&self, name: &str) -> (r: Option<&StaticFunctionDefinition>)
        ensures
            match r {
                Some(d) => self@.functions.contains_key(name@) && self@.functions[name@] == d@,
                None => !self@.functions.contains_key(name@),
            },
    {
        self.functions.get(name)
    }

    /// Adds a function, in place of one with the same name.
    pub fn insert(&mut self, name: String, definition: StaticFunctionDefinition)
        ensures
            final(self)@.functions == old(self)@.functions.insert(name@, definition@),
    {
        proof {
            lemma_insert_values(
                self.functions@,
                name@,
                definition,
                |x: StaticFunctionDefinition| x@,
            );
        }
        self.functions.insert(name, definition);
    }

    /// The functions of both registries; those of `over` in place of others with their names.
    pub fn merged(&self, over: &FunctionRegistry) -> (r: FunctionRegistry)
        ensures
            r@.functions == self@.functions.union_prefer_right(over@.functions),
    {
        let mut out = self.clone();
        proof {
            use_type_invariant(&over.functions);
        }
        let ghost start = self@.functions;
        let ghost entries = over.functions.entries@;
        let mut i: usize = 0;
        while i < over.functions.entries.len()
            invariant
                i <= over.functions.entries@.len(),
                entries == over.functions.entries@,
                keys_increase(entries),
                forall|k: Seq<char>| #[trigger]
                    out@.functions.contains_key(k) == (start.contains_key(k) || exists|j: int|
                        0 <= j < i && (#[trigger] entries[j]).0@ == k),
                forall|j: int|
                    0 <= j < i ==> out@.functions[(#[trigger] entries[j]).0@] == entries[j].1@,
                forall|k: Seq<char>|
                    start.contains_key(k) && (forall|j: int|
                        0 <= j < i ==> (#[trigger] entries[j]).0@ != k) ==> #[trigger]
                    out@.functions[k] == start[k],
            decreases over.functions.entries@.len() - i,
        {
            let ghost before = out@.functions;
            let ghost key = entries[i as int].0@;
            out.insert(
                over.functions.entries[i].0.clone(),
                over.functions.entries[i].1.clone(),
            );
            proof {
                assert(out@.functions == before.insert(key, entries[i as int].1@));
                assert forall|k: Seq<char>| #[trigger]
                    out@.functions.contains_key(k) == (start.contains_key(k) || exists|j: int|
                        0 <= j < i + 1 && (#[trigger] entries[j]).0@ == k) by {
                    if exists|j: int| 0 <= j < i && (#[trigger] entries[j]).0@ == k {
                        let j = choose|j: int| 0 <= j < i && (#[trigger] entries[j]).0@ == k;
                        assert(entries[j].0@ == k && j < i + 1);
                    }
                    if k == key {
                        assert(entries[i as int].0@ == k);
                    }
                    assert(before.contains_key(k) == (start.contains_key(k) || exists|j: int|
                        0 <= j < i && (#[trigger] entries[j]).0@ == k));
                }
                assert forall|j: int| 0 <= j < i + 1 implies out@.functions[(
                #[trigger] entries[j]).0@] == entries[j].1@ by {
                    if j < i {
                        assert(text_before(entries[j].0@, entries[i as int].0@));
                        lemma_text_before_total(key, key);
                        assert(before[entries[j].0@] == entries[j].1@);
                    }
                }
                assert forall|k: Seq<char>|
                    start.contains_key(k) && (forall|j: int|
                        0 <= j < i + 1 ==> (#[trigger] entries[j]).0@ != k) implies #[trigger]
                    out@.functions[k] == start[k] by {
                    assert(entries[i as int].0@ != k);
                    assert(forall|j: int| 0 <= j < i ==> (#[trigger] entries[j]).0@ != k);
                    assert(before[k] == start[k]);
                }
            }
            i = i + 1;
        }
        proof {
            let n = over@.functions;
            let u = start.union_prefer_right(n);
            assert forall|k: Seq<char>|
                #![trigger out@.functions.dom().contains(k)]
                #![trigger u.dom().contains(k)]
                out@.functions.dom().contains(k) == u.dom().contains(k) && (u.dom().contains(k)
                    ==> out@.functions[k] == u[k]) by {
                assert(out@.functions.contains_key(k) == (start.contains_key(k) || exists|j: int|
                    0 <= j < i && (#[trigger] entries[j]).0@ == k));
                if exists|j: int| 0 <= j < entries.len() && (#[trigger] entries[j]).0@ == k {
                    let j = choose|j: int| 0 <= j < entries.len() && (#[trigger] entries[j]).0@ == k;
                    lemma_pairs_map_has(entries, j);
                    assert(out@.functions[entries[j].0@] == entries[j].1@);
                } else {
                    lemma_pairs_map_lacks(entries, k);
                    if start.contains_key(k) {
                        assert(out@.functions[k] == start[k]);
                    }
                }
            }
            assert(out@.functions =~= u);
        }
        out
    }
}

impl EvaluationState {
    /// An evaluation that has not begun.
    pub fn new() -> (r: Self)
        ensures
            r@ == fresh_machine(empty_plan()),
    {
        let r = EvaluationState::with_plan(
            Plan { actors: Vec::new(), registrations: Vec::new(), fresh: 0 },
        );
        proof {
            assert(r@.plan =~= empty_plan());
        }
        r
    }

    /// An evaluation that has not begun, on top of a plan.
    pub fn with_plan(plan: Plan) -> (r: Self)
        ensures
            r@ == fresh_machine(plan@),
    {
        let r = EvaluationState {
            work_queue: Vec::new(),
            results: HashMap::new(),
            next_slot: 0,
            function_registry: FunctionRegistry::new(),
            forwarding_loops: Vec::new(),
            plan,
        };
        proof {
            assert(r@ =~= fresh_machine(plan@));
        }
        r
    }

    /// An evaluation that has not begun and knows some functions.
    pub fn with_functions(functions: FunctionRegistry) -> (r: Self)
        ensures
            r@ == (MachineView { registry: functions@.functions, ..fresh_machine(empty_plan()) }),
    {
        let mut r = EvaluationState::new();
        r.function_registry = functions;
        r
    }

    /// Adds a forwarding loop.
    pub fn add_forwarding_loop(&mut self, loop_: ForwardingLoop)
        ensures
            final(self)@ == (MachineView { loops: old(self)@.loops.push(loop_), ..old(self)@ }),
    {
        self.forwarding_loops.push(loop_);
    }

    /// Takes all forwarding loops.
    pub fn take_forwarding_loops(&mut self) -> (r: Vec<ForwardingLoop>)
        ensures
            final(self)@ == (MachineView { loops: Seq::empty(), ..old(self)@ }),
            r@ == old(self)@.loops,
    {
        let mut taken: Vec<ForwardingLoop> = Vec::new();
        core::mem::swap(&mut self.forwarding_loops, &mut taken);
        taken
    }

    /// Makes a function known.
    pub fn register_function(&mut self, name: String, def: StaticFunctionDefinition)
        ensures
            final(self)@ == (MachineView {
                registry: old(self)@.registry.insert(name@, def@),
                ..old(self)@
            }),
    {
        self.function_registry.insert(name, def);
    }

    /// The known function with the given name.
    pub fn get_function(&self, name: &str) -> (r: Option<&StaticFunctionDefinition>)
        ensures
            match r {
                Some(d) => self@.registry.contains_key(name@) && self@.registry[name@] == d@,
                None => !self@.registry.contains_key(name@),
            },
    {
        self.function_registry.get(name)
    }

    /// The known functions.
    pub fn functions(&self) -> (r: &FunctionRegistry)
        ensures
            r@.functions == self@.registry,
    {
        &self.function_registry
    }

    /// Takes the next slot.
    pub fn alloc_slot(&mut self) -> (r: SlotId)
        ensures
            r == old(self)@.next_slot,
            final(self)@ == allocated(old(self)@, 1),
    {
        let slot: u32 = self.next_slot;
        self.next_slot = slot.wrapping_add(1);
        slot
    }

    /// Takes the next `n` slots.
    pub fn alloc_slots(&mut self, n: usize) -> (r: Vec<SlotId>)
        ensures
            r@ == Seq::new(n as nat, |i: int| slot_at(old(self)@.next_slot, i)),
            final(self)@ == allocated(old(self)@, n as nat),
    {
        let ghost start = self@;
        let mut out: Vec<u32> = Vec::new();
        let mut i: usize = 0;
        while i < n
            invariant
                i <= n,
                i == out@.len(),
                self@ == allocated(start, i as nat),
                forall|j: int| 0 <= j < i ==> out@[j] == slot_at(start.next_slot, j),
            decreases n - i,
        {
            let slot: u32 = self.alloc_slot();
            out.push(slot);
            i = i + 1;
        }
        proof {
            assert(out@ =~= Seq::new(n as nat, |i: int| slot_at(start.next_slot, i)));
        }
        out
    }

    /// Puts an actor in a slot.
    pub fn store(&mut self, slot: SlotId, actor: u64)
        ensures
            final(self)@ == stored(old(self)@, slot, actor),
    {
        self.results.insert(slot, actor);
    }

    /// The actor in a slot.
    pub fn get(&self, slot: SlotId) -> (r: Option<u64>)
        ensures
            r == if self@.results.contains_key(slot) {
                Some(self@.results[slot])
            } else {
                None
            },
    {
        match self.results.get(&slot) {
            Some(actor) => Some(*actor),
            None => None,
        }
    }

    /// Adds a step to be done before the others.
    pub fn push(&mut self, item: WorkItem)
        ensures
            final(self)@ == pushed(old(self)@, item@),
    {
        let ghost start = self@;
        self.work_queue.push(item);
        proof {
            assert(self@.queue =~= start.queue.push(item@));
        }
    }

    /// Takes the step that is to be done next.
    pub fn pop(&mut self) -> (r: Option<WorkItem>)
        ensures
            match r {
                Some(item) => {
                    &&& old(self)@.queue.len() > 0
                    &&& item@ == old(self)@.queue.last()
                    &&& final(self)@ == (MachineView {
                        queue: old(self)@.queue.drop_last(),
                        ..old(self)@
                    })
                },
                None => old(self)@.queue.len() == 0 && final(self)@ == old(self)@,
            },
    {
        let ghost start = self@;
        let item = self.work_queue.pop();
        proof {
            if item is Some {
                assert(self@.queue =~= start.queue.drop_last());
            } else {
                assert(start.queue.len() == 0);
            }
        }
        item
    }

    /// Adds an actor to the plan.
    pub fn add_actor(
        &mut self,
        actor: ActorSpec,
        key: PersistenceKey,
        span: Span,
        context: &ActorContext,
    ) -> (r: u64)
        ensures
            r == next_actor(old(self)@),
            final(self)@ == add_actor(old(self)@, actor@, key, span, context@),
    {
        let ghost start = self@;
        proof {
            assert(start.plan.actors.len() == self.plan.actors@.len());
        }
        let id: u64 = self.plan.actors.len() as u64;
        let node = ActorNode { actor, key, span, context: context.clone() };
        self.plan.actors.push(node);
        proof {
            assert(self@.plan.actors =~= start.plan.actors.push(node@));
        }
        id
    }

    /// Adds an actor to the plan and puts it in a slot.
    pub fn emit(
        &mut self,
        slot: SlotId,
        actor: ActorSpec,
        key: PersistenceKey,
        span: Span,
        context: &ActorContext,
    )
        ensures
            final(self)@ == emit(old(self)@, slot, actor@, key, span, context@),
    {
        let id: u64 = self.add_actor(actor, key, span, context);
        self.store(slot, id);
    }

    /// Draws an identity.
    pub fn draw(&mut self) -> (r: PersistenceKey)
        ensures
            r == PersistenceKey::Fresh(old(self)@.plan.fresh),
            final(self)@ == drawn(old(self)@),
    {
        let n: u64 = self.plan.fresh;
        self.plan.fresh = n.wrapping_add(1);
        PersistenceKey::Fresh(n)
    }

    /// The identity of an expression: the one that is kept, else one that is drawn.
    pub fn key_for(&mut self, persistence: Option<PersistenceId>) -> (r: PersistenceKey)
        ensures
            r == key_of(old(self)@, persistence),
            final(self)@ == keyed(old(self)@, persistence),
    {
        match persistence {
            Some(id) => PersistenceKey::Stored(id),
            None => self.draw(),
        }
    }

    /// Adds a registration, if the connector for it is alive.
    pub fn register(&mut self, alive: bool, registration: Registration)
        ensures
            final(self)@ == registered(old(self)@, alive, registration@),
    {
        let ghost start = self@;
        if alive {
            self.plan.registrations.push(registration);
            proof {
                assert(self@.plan.registrations =~= start.plan.registrations.push(registration@));
            }
        }
    }

    /// Takes the plan out of the evaluation.
    pub fn take_plan(&mut self) -> (r: Plan)
        ensures
            r@ == old(self)@.plan,
            final(self)@ == (MachineView { plan: empty_plan(), ..old(self)@ }),
    {
        let mut taken = Plan { actors: Vec::new(), registrations: Vec::new(), fresh: 0 };
        core::mem::swap(&mut self.plan, &mut taken);
        proof {
            assert(self@.plan =~= empty_plan());
        }
        taken
    }

    /// Puts a plan into the evaluation.
    pub fn put_plan(&mut self, plan: Plan)
        ensures
            final(self)@ == (MachineView { plan: plan@, ..old(self)@ }),
    {
        self.plan = plan;
    }
}

/// Taking slots in turn gives different slots, as long as they last.
pub proof fn lemma_slots_are_fresh(m: MachineView, n: nat, i: int, j: int)
    requires
        0 <= i < j < n <= 0x1_0000_0000,
    ensures
        slot_at(m.next_slot, i) != slot_at(m.next_slot, j),
{
}

/// Steps are done in the opposite of the order in which they were added.
pub proof fn lemma_last_step_first(m: MachineView, item: WorkItemView)
    ensures
        pushed(m, item).queue.last() == item,
        pushed(m, item).queue.drop_last() == m.queue,
{
    assert(m.queue.push(item).drop_last() =~= m.queue);
}

/// The name of a kind of step.
pub open spec fn step_name(item: WorkItemView) -> Seq<char> {
    match item {
        WorkItemView::Evaluate { .. } => "Evaluate"@,
        WorkItemView::BinaryOp { .. } => "BinaryOp"@,
        WorkItemView::BuildList { .. } => "BuildList"@,
        WorkItemView::BuildObject { .. } => "BuildObject"@,
        WorkItemView::BuildTaggedObject { .. } => "BuildTaggedObject"@,
        WorkItemView::BuildLatest { .. } => "BuildLatest"@,
        WorkItemView::BuildThen { .. } => "BuildThen"@,
        WorkItemView::BuildWhen { .. } => "BuildWhen"@,
        WorkItemView::BuildWhile { .. } => "BuildWhile"@,
        WorkItemView::BuildHold { .. } => "BuildHold"@,
        WorkItemView::BuildBlock { .. } => "BuildBlock"@,
        WorkItemView::EvaluateWithPiped { .. } => "EvaluateWithPiped"@,
        WorkItemView::CallFunction { .. } => "CallFunction"@,
        WorkItemView::ConnectForwardingActors { .. } => "ConnectForwardingActors"@,
        WorkItemView::WrapWithPersistence { .. } => "WrapWithPersistence"@,
    }
}

impl WorkItem {
    /// The name of the kind of the step.
    pub fn debug_name(&self) -> (r: &'static str)
        ensures
            r@ == step_name(self@),
    {
        match self {
            WorkItem::Evaluate { .. } => "Evaluate",
            WorkItem::BinaryOp { .. } => "BinaryOp",
            WorkItem::BuildList { .. } => "BuildList",
            WorkItem::BuildObject { .. } => "BuildObject",
            WorkItem::BuildTaggedObject { .. } => "BuildTaggedObject",
            WorkItem::BuildLatest { .. } => "BuildLatest",
            WorkItem::BuildThen { .. } => "BuildThen",
            WorkItem::BuildWhen { .. } => "BuildWhen",
            WorkItem::BuildWhile { .. } => "BuildWhile",
            WorkItem::BuildHold { .. } => "BuildHold",
            WorkItem::BuildBlock { .. } => "BuildBlock",
            WorkItem::EvaluateWithPiped { .. } => "EvaluateWithPiped",
            WorkItem::CallFunction { .. } => "CallFunction",
            WorkItem::ConnectForwardingActors { .. } => "ConnectForwardingActors",
            WorkItem::WrapWithPersistence { .. } => "WrapWithPersistence",
        }
    }
}

} // verus!
