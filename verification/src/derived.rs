//! Scalars that are computed from the rest of the state.
use crate::semantic_ir::{DerivedArithmeticOp, DerivedScalarSpec, StateRuntimeModel};
use crate::semantic_view::{
    DerivedScalarOperandView, DerivedScalarSpecView, ObjectListFilterView, ObjectListItemView,
};
use crate::values::{
    StateView, bool_int, bool_number, derived_scalar_operand_value, filtered_items,
    filtered_object_list_items, filtered_text_list_values, filtered_texts, item_passes, item_seq,
    list_at, operand_value, operands_compare, scalar_at, scalar_compare_matches, scalar_or_zero,
    text_seq,
};
use vstd::prelude::*;

verus! {

/// The scalar that a computation is kept in.
pub open spec fn target(spec: DerivedScalarSpecView) -> Seq<char> {
    match spec {
        DerivedScalarSpecView::TextListCount { target, .. } => target,
        DerivedScalarSpecView::ObjectListCount { target, .. } => target,
        DerivedScalarSpecView::Arithmetic { target, .. } => target,
        DerivedScalarSpecView::Comparison { target, .. } => target,
    }
}

/// The value of a computation, wrapping around at the limits of a 64-bit integer.
pub open spec fn derived_value(state: StateView, spec: DerivedScalarSpecView) -> i64 {
    match spec {
        DerivedScalarSpecView::TextListCount { binding, filter, .. } => filtered_texts(
            state,
            binding,
            filter,
        ).len() as i64,
        DerivedScalarSpecView::ObjectListCount { binding, filter, .. } => filtered_items(
            state,
            binding,
            filter,
        ).len() as i64,
        DerivedScalarSpecView::Arithmetic { op, left, right, .. } => {
            let a = operand_value(state.scalar_values, left);
            let b = operand_value(state.scalar_values, right);
            match op {
                DerivedArithmeticOp::Add => a.wrapping_add(b),
                DerivedArithmeticOp::Subtract => a.wrapping_sub(b),
            }
        },
        DerivedScalarSpecView::Comparison { op, left, right, .. } => bool_int(
            operands_compare(state.scalar_values, left, op, right),
        ),
    }
}

/// The state after one computation is kept.
pub open spec fn derive_one(state: StateView, spec: DerivedScalarSpecView) -> StateView {
    StateView {
        scalar_values: state.scalar_values.insert(target(spec), derived_value(state, spec)),
        ..state
    }
}

/// The state after the first `n` computations, in their order, and whether any scalar changed.
pub open spec fn derive_pass(
    state: StateView,
    specs: Seq<DerivedScalarSpecView>,
    n: nat,
) -> (StateView, bool)
    decreases n,
{
    if n == 0 {
        (state, false)
    } else {
        let before = derive_pass(state, specs, (n - 1) as nat);
        let spec = specs[n - 1];
        let changed = scalar_at(before.0.scalar_values, target(spec)) != derived_value(
            before.0,
            spec,
        );
        (derive_one(before.0, spec), before.1 || changed)
    }
}

/// The state after passes over all computations until one changes nothing, `limit` at most.
pub open spec fn derive_passes(
    state: StateView,
    specs: Seq<DerivedScalarSpecView>,
    limit: nat,
) -> StateView
    decreases limit,
{
    if limit == 0 {
        state
    } else {
        let pass = derive_pass(state, specs, specs.len());
        if pass.1 {
            derive_passes(pass.0, specs, (limit - 1) as nat)
        } else {
            pass.0
        }
    }
}

/// The state with its derived scalars brought up to date: as many passes as computations.
pub open spec fn refreshed(state: StateView) -> StateView {
    derive_passes(state, state.derived_scalars, state.derived_scalars.len())
}

/// The value of a computation.
pub fn derived_scalar_value(state: &StateRuntimeModel, spec: &DerivedScalarSpec) -> (r: i64)
    ensures
        r == derived_value(state@, spec@),
{
    match spec {
        DerivedScalarSpec::TextListCount { binding, filter, .. } => {
            let values = filtered_text_list_values(state, binding.as_str(), filter);
            proof {
                assert(text_seq(values@).len() == values@.len());
            }
            values.len() as i64
        },
        DerivedScalarSpec::ObjectListCount { binding, filter, .. } => {
            let items = filtered_object_list_items(state, binding.as_str(), filter);
            proof {
                assert(item_seq(items@).len() == items@.len());
            }
            items.len() as i64
        },
        DerivedScalarSpec::Arithmetic { op, left, right, .. } => {
            let a: i64 = derived_scalar_operand_value(&state.scalar_values, left);
            let b: i64 = derived_scalar_operand_value(&state.scalar_values, right);
            match op {
                DerivedArithmeticOp::Add => a.wrapping_add(b),
                DerivedArithmeticOp::Subtract => a.wrapping_sub(b),
            }
        },
        DerivedScalarSpec::Comparison { op, left, right, .. } => bool_number(
            scalar_compare_matches(&state.scalar_values, left, *op, right),
        ),
    }
}

fn derived_target(spec: &DerivedScalarSpec) -> (r: String)
    ensures
        r@ == target(spec@),
{
    match spec {
        DerivedScalarSpec::TextListCount { target, .. } => target.clone(),
        DerivedScalarSpec::ObjectListCount { target, .. } => target.clone(),
        DerivedScalarSpec::Arithmetic { target, .. } => target.clone(),
        DerivedScalarSpec::Comparison { target, .. } => target.clone(),
    }
}

fn run_pass(state: &mut StateRuntimeModel) -> (r: bool)
    ensures
        (final(state)@, r) == derive_pass(
            old(state)@,
            old(state)@.derived_scalars,
            old(state)@.derived_scalars.len(),
        ),
{
    let ghost start = state@;
    let ghost specs = state@.derived_scalars;
    let mut changed: bool = false;
    let mut i: usize = 0;
    while i < state.derived_scalars.len()
        invariant
            i <= specs.len(),
            state@.derived_scalars == specs,
            specs == start.derived_scalars,
            (state@, changed) == derive_pass(start, specs, i as nat),
        decreases specs.len() - i,
    {
        let spec = state.derived_scalars[i].clone();
        proof {
            assert(spec@ == specs[i as int]);
        }
        let value: i64 = derived_scalar_value(state, &spec);
        let name = derived_target(&spec);
        if scalar_or_zero(&state.scalar_values, name.as_str()) != value {
            changed = true;
        }
        state.scalar_values.insert(name, value);
        i = i + 1;
    }
    changed
}

/// Brings the derived scalars up to date.
pub fn refresh_derived_scalars(state: &mut StateRuntimeModel)
    ensures
        final(state)@ == refreshed(old(state)@),
{
    let ghost start = state@;
    let ghost specs = state@.derived_scalars;
    let limit: usize = state.derived_scalars.len();
    let mut i: usize = 0;
    while i < limit
        invariant_except_break
            i <= limit,
            limit == specs.len(),
            state@.derived_scalars == specs,
            derive_passes(start, specs, limit as nat) == derive_passes(
                state@,
                specs,
                (limit - i) as nat,
            ),
        ensures
            derive_passes(start, specs, limit as nat) == state@,
        decreases limit - i,
    {
        let ghost before = state@;
        let changed = run_pass(state);
        proof {
            lemma_pass_keeps_specs(before, specs, specs.len());
        }
        if !changed {
            break;
        }
        i = i + 1;
    }
}

proof fn lemma_pass_keeps_specs(state: StateView, specs: Seq<DerivedScalarSpecView>, n: nat)
    ensures
        derive_pass(state, specs, n).0.derived_scalars == state.derived_scalars,
    decreases n,
{
    if n > 0 {
        lemma_pass_keeps_specs(state, specs, (n - 1) as nat);
    }
}

/// Whether an operand reads a scalar.
pub open spec fn operand_reads(operand: DerivedScalarOperandView, k: Seq<char>) -> bool {
    operand == DerivedScalarOperandView::Binding(k)
}

/// Whether a computation reads a scalar.
pub open spec fn reads(spec: DerivedScalarSpecView, k: Seq<char>) -> bool {
    match spec {
        DerivedScalarSpecView::TextListCount { .. } => false,
        DerivedScalarSpecView::ObjectListCount { filter, .. } => filter == Some(
            ObjectListFilterView::SelectedCompletedByScalar { binding: k },
        ),
        DerivedScalarSpecView::Arithmetic { left, right, .. } => operand_reads(left, k)
            || operand_reads(right, k),
        DerivedScalarSpecView::Comparison { left, right, .. } => operand_reads(left, k)
            || operand_reads(right, k),
    }
}

/// Whether no two computations share a target, and each has a higher rank than those that it
/// reads from. There are such ranks if none depends on itself.
pub open spec fn ranked(specs: Seq<DerivedScalarSpecView>, ranks: Seq<nat>) -> bool {
    &&& ranks.len() == specs.len()
    &&& forall|i: int, j: int|
        0 <= i < j < specs.len() ==> target(#[trigger] specs[i]) != target(#[trigger] specs[j])
    &&& forall|i: int, j: int|
        0 <= i < specs.len() && 0 <= j < specs.len() && reads(
            #[trigger] specs[i],
            target(#[trigger] specs[j]),
        ) ==> ranks[j] < ranks[i]
}

/// Whether the first `n` derived scalars have the values of their computations.
pub open spec fn settled(state: StateView, specs: Seq<DerivedScalarSpecView>, n: nat) -> bool {
    forall|i: int|
        0 <= i < n ==> scalar_at(state.scalar_values, target(#[trigger] specs[i]))
            == derived_value(state, specs[i])
}

proof fn lemma_filter_agrees<A>(
    s: Seq<A>,
    p: spec_fn(A) -> bool,
    q: spec_fn(A) -> bool,
)
    requires
        forall|i: int| 0 <= i < s.len() ==> p(#[trigger] s[i]) == q(s[i]),
    ensures
        s.filter(p) == s.filter(q),
    decreases s.len(),
{
    reveal(Seq::filter);
    if s.len() > 0 {
        assert forall|i: int| 0 <= i < s.drop_last().len() implies p(#[trigger] s.drop_last()[i])
            == q(s.drop_last()[i]) by {
            assert(p(s[i]) == q(s[i]));
        }
        lemma_filter_agrees(s.drop_last(), p, q);
        assert(p(s[s.len() - 1]) == q(s[s.len() - 1]));
    }
}

/// A computation has the same value wherever what it reads is the same.
proof fn lemma_value_depends_on_reads(a: StateView, b: StateView, spec: DerivedScalarSpecView)
    requires
        a.text_lists == b.text_lists,
        a.object_lists == b.object_lists,
        forall|k: Seq<char>|
            reads(spec, k) ==> #[trigger] scalar_at(a.scalar_values, k) == scalar_at(
                b.scalar_values,
                k,
            ),
    ensures
        derived_value(a, spec) == derived_value(b, spec),
{
    match spec {
        DerivedScalarSpecView::ObjectListCount { binding, filter, .. } => {
            if let Some(f) = filter {
                let items = list_at(a.object_lists, binding);
                let p = |item: ObjectListItemView| item_passes(item, f, a.scalar_values);
                let q = |item: ObjectListItemView| item_passes(item, f, b.scalar_values);
                if let ObjectListFilterView::SelectedCompletedByScalar { binding: k } = f {
                    assert(reads(spec, k));
                    assert(scalar_at(a.scalar_values, k) == scalar_at(b.scalar_values, k));
                }
                lemma_filter_agrees(items, p, q);
            }
        },
        DerivedScalarSpecView::Arithmetic { left, right, .. } => {
            lemma_operand_agrees(a, b, spec, left);
            lemma_operand_agrees(a, b, spec, right);
        },
        DerivedScalarSpecView::Comparison { left, right, .. } => {
            lemma_operand_agrees(a, b, spec, left);
            lemma_operand_agrees(a, b, spec, right);
        },
        _ => {},
    }
}

proof fn lemma_operand_agrees(
    a: StateView,
    b: StateView,
    spec: DerivedScalarSpecView,
    operand: DerivedScalarOperandView,
)
    requires
        forall|k: Seq<char>| operand_reads(operand, k) ==> reads(spec, k),
        forall|k: Seq<char>|
            reads(spec, k) ==> #[trigger] scalar_at(a.scalar_values, k) == scalar_at(
                b.scalar_values,
                k,
            ),
    ensures
        operand_value(a.scalar_values, operand) == operand_value(b.scalar_values, operand),
{
    if let DerivedScalarOperandView::Binding(k) = operand {
        assert(operand_reads(operand, k));
        assert(scalar_at(a.scalar_values, k) == scalar_at(b.scalar_values, k));
    }
}

/// A pass changes scalars that are targets, and nothing else.
proof fn lemma_pass_changes_targets(
    state: StateView,
    specs: Seq<DerivedScalarSpecView>,
    n: nat,
    k: Seq<char>,
)
    requires
        n <= specs.len(),
        forall|i: int| 0 <= i < n ==> target(#[trigger] specs[i]) != k,
    ensures
        scalar_at(derive_pass(state, specs, n).0.scalar_values, k) == scalar_at(
            state.scalar_values,
            k,
        ),
    decreases n,
{
    if n > 0 {
        lemma_pass_changes_targets(state, specs, (n - 1) as nat, k);
        assert(target(specs[n - 1]) != k);
    }
}

proof fn lemma_pass_keeps_the_rest(state: StateView, specs: Seq<DerivedScalarSpecView>, n: nat)
    ensures
        derive_pass(state, specs, n).0 == (StateView {
            scalar_values: derive_pass(state, specs, n).0.scalar_values,
            ..state
        }),
    decreases n,
{
    if n > 0 {
        lemma_pass_keeps_the_rest(state, specs, (n - 1) as nat);
    }
}

/// How many of the first `n` ranks are below another one.
spec fn below(ranks: Seq<nat>, n: nat, rank: nat) -> nat
    decreases n,
{
    if n == 0 {
        0
    } else {
        below(ranks, (n - 1) as nat, rank) + if ranks[n - 1] < rank {
            1nat
        } else {
            0
        }
    }
}

proof fn lemma_below(ranks: Seq<nat>, n: nat, low: nat, high: nat, i: int)
    requires
        n <= ranks.len(),
        low <= high,
    ensures
        below(ranks, n, low) <= below(ranks, n, high) <= n,
        0 <= i < n && low <= ranks[i] < high ==> below(ranks, n, low) < below(ranks, n, high),
        0 <= i < n && ranks[i] >= high ==> below(ranks, n, high) < n,
    decreases n,
{
    if n > 0 {
        lemma_below(ranks, (n - 1) as nat, low, high, i);
    }
}

/// How many computations have a lower rank than one of them.
spec fn level(ranks: Seq<nat>, i: int) -> nat {
    below(ranks, ranks.len(), ranks[i])
}

proof fn lemma_levels_fall(specs: Seq<DerivedScalarSpecView>, ranks: Seq<nat>, i: int, j: int)
    requires
        ranked(specs, ranks),
        0 <= i < specs.len(),
        0 <= j < specs.len(),
        reads(specs[i], target(specs[j])),
    ensures
        level(ranks, j) < level(ranks, i),
{
    lemma_below(ranks, ranks.len(), ranks[j], ranks[i], j);
}

/// Whether the computations with fewer than `p` others of lower rank have their values.
spec fn settled_below(
    state: StateView,
    specs: Seq<DerivedScalarSpecView>,
    ranks: Seq<nat>,
    p: nat,
) -> bool {
    forall|i: int|
        0 <= i < specs.len() && level(ranks, i) < p ==> scalar_at(
            state.scalar_values,
            target(#[trigger] specs[i]),
        ) == derived_value(state, specs[i])
}

/// Where what a computation reads has its value already, it reads the same during a pass.
proof fn lemma_same_value_in_pass(
    state: StateView,
    specs: Seq<DerivedScalarSpecView>,
    ranks: Seq<nat>,
    p: nat,
    n: nat,
    i: int,
)
    requires
        ranked(specs, ranks),
        n <= specs.len(),
        0 <= i < specs.len(),
        level(ranks, i) <= p,
        forall|j: int|
            0 <= j < specs.len() && level(ranks, j) < p ==> scalar_at(
                derive_pass(state, specs, n).0.scalar_values,
                target(#[trigger] specs[j]),
            ) == scalar_at(state.scalar_values, target(specs[j])),
    ensures
        derived_value(derive_pass(state, specs, n).0, specs[i]) == derived_value(state, specs[i]),
{
    let now = derive_pass(state, specs, n).0;
    lemma_pass_keeps_the_rest(state, specs, n);
    assert forall|k: Seq<char>| reads(specs[i], k) implies #[trigger] scalar_at(
        now.scalar_values,
        k,
    ) == scalar_at(state.scalar_values, k) by {
        if exists|j: int| 0 <= j < specs.len() && target(#[trigger] specs[j]) == k {
            let j = choose|j: int| 0 <= j < specs.len() && target(#[trigger] specs[j]) == k;
            lemma_levels_fall(specs, ranks, i, j);
        } else {
            lemma_pass_changes_targets(state, specs, n, k);
        }
    }
    lemma_value_depends_on_reads(now, state, specs[i]);
}

proof fn lemma_pass_settles(
    state: StateView,
    specs: Seq<DerivedScalarSpecView>,
    ranks: Seq<nat>,
    p: nat,
    n: nat,
)
    requires
        ranked(specs, ranks),
        settled_below(state, specs, ranks, p),
        n <= specs.len(),
    ensures
        forall|j: int|
            0 <= j < specs.len() && level(ranks, j) < p ==> scalar_at(
                derive_pass(state, specs, n).0.scalar_values,
                target(#[trigger] specs[j]),
            ) == scalar_at(state.scalar_values, target(specs[j])),
        forall|j: int|
            0 <= j < n && level(ranks, j) <= p ==> scalar_at(
                derive_pass(state, specs, n).0.scalar_values,
                target(#[trigger] specs[j]),
            ) == derived_value(state, specs[j]),
    decreases n,
{
    if n > 0 {
        let m = (n - 1) as nat;
        let before = derive_pass(state, specs, m).0;
        let last = specs[n - 1];
        let after = derive_one(before, last);
        lemma_pass_settles(state, specs, ranks, p, m);
        if level(ranks, n - 1) <= p {
            lemma_same_value_in_pass(state, specs, ranks, p, m, n - 1);
        }
        assert forall|j: int| 0 <= j < specs.len() && level(ranks, j) < p implies scalar_at(
            after.scalar_values,
            target(#[trigger] specs[j]),
        ) == scalar_at(state.scalar_values, target(specs[j])) by {
            if j < n - 1 {
                assert(target(specs[j]) != target(specs[n - 1]));
            } else if j > n - 1 {
                assert(target(specs[n - 1]) != target(specs[j]));
            }
        }
        assert forall|j: int| 0 <= j < n && level(ranks, j) <= p implies scalar_at(
            after.scalar_values,
            target(#[trigger] specs[j]),
        ) == derived_value(state, specs[j]) by {
            if j < n - 1 {
                assert(target(specs[j]) != target(specs[n - 1]));
            }
        }
    }
}

/// A pass settles the computations whose operands were settled before it.
proof fn lemma_pass_settles_more(
    state: StateView,
    specs: Seq<DerivedScalarSpecView>,
    ranks: Seq<nat>,
    p: nat,
)
    requires
        ranked(specs, ranks),
        settled_below(state, specs, ranks, p),
    ensures
        settled_below(derive_pass(state, specs, specs.len()).0, specs, ranks, p + 1),
{
    let after = derive_pass(state, specs, specs.len()).0;
    lemma_pass_settles(state, specs, ranks, p, specs.len());
    assert forall|i: int| 0 <= i < specs.len() && level(ranks, i) < p + 1 implies scalar_at(
        after.scalar_values,
        target(#[trigger] specs[i]),
    ) == derived_value(after, specs[i]) by {
        lemma_same_value_in_pass(state, specs, ranks, p, specs.len(), i);
    }
}

/// A pass that changes nothing finds every computation settled.
proof fn lemma_quiet_pass(state: StateView, specs: Seq<DerivedScalarSpecView>, n: nat)
    requires
        n <= specs.len(),
        !derive_pass(state, specs, n).1,
    ensures
        forall|k: Seq<char>| #[trigger]
            scalar_at(derive_pass(state, specs, n).0.scalar_values, k) == scalar_at(
                state.scalar_values,
                k,
            ),
        settled(state, specs, n),
    decreases n,
{
    if n > 0 {
        let m = (n - 1) as nat;
        lemma_quiet_pass(state, specs, m);
        lemma_pass_keeps_the_rest(state, specs, m);
        let before = derive_pass(state, specs, m).0;
        lemma_value_depends_on_reads(before, state, specs[n - 1]);
        assert forall|k: Seq<char>| #[trigger]
            scalar_at(derive_pass(state, specs, n).0.scalar_values, k) == scalar_at(
                state.scalar_values,
                k,
            ) by {
            assert(scalar_at(before.scalar_values, k) == scalar_at(state.scalar_values, k));
        }
    }
}

proof fn lemma_passes_settle(
    state: StateView,
    specs: Seq<DerivedScalarSpecView>,
    ranks: Seq<nat>,
    p: nat,
    limit: nat,
)
    requires
        ranked(specs, ranks),
        settled_below(state, specs, ranks, p),
        p + limit >= specs.len(),
    ensures
        settled(derive_passes(state, specs, limit), specs, specs.len()),
    decreases limit,
{
    let done = derive_passes(state, specs, limit);
    if limit == 0 {
        assert forall|i: int| 0 <= i < specs.len() implies scalar_at(
            done.scalar_values,
            target(#[trigger] specs[i]),
        ) == derived_value(done, specs[i]) by {
            lemma_below(ranks, ranks.len(), ranks[i], ranks[i], i);
        }
    } else {
        let pass = derive_pass(state, specs, specs.len());
        lemma_pass_settles_more(state, specs, ranks, p);
        if pass.1 {
            lemma_passes_settle(pass.0, specs, ranks, p + 1, (limit - 1) as nat);
        } else {
            lemma_quiet_pass(state, specs, specs.len());
            lemma_pass_keeps_the_rest(state, specs, specs.len());
            assert forall|i: int| 0 <= i < specs.len() implies scalar_at(
                done.scalar_values,
                target(#[trigger] specs[i]),
            ) == derived_value(done, specs[i]) by {
                lemma_value_depends_on_reads(done, state, specs[i]);
            }
        }
    }
}

/// Once the derived scalars are brought up to date, each has the value of its computation, in
/// whatever order they are listed, provided that none depends on itself and no two share a
/// target.
pub proof fn lemma_refreshed_is_settled(state: StateView, ranks: Seq<nat>)
    requires
        ranked(state.derived_scalars, ranks),
    ensures
        settled(refreshed(state), state.derived_scalars, state.derived_scalars.len()),
{
    lemma_passes_settle(
        state,
        state.derived_scalars,
        ranks,
        0,
        state.derived_scalars.len(),
    );
}

/// Whether the targets of the first `n` computations are there.
spec fn targets_there(state: StateView, specs: Seq<DerivedScalarSpecView>, n: nat) -> bool {
    forall|i: int| 0 <= i < n ==> state.scalar_values.contains_key(target(#[trigger] specs[i]))
}

proof fn lemma_pass_makes_targets(state: StateView, specs: Seq<DerivedScalarSpecView>, n: nat)
    requires
        n <= specs.len(),
    ensures
        targets_there(derive_pass(state, specs, n).0, specs, n),
    decreases n,
{
    if n > 0 {
        lemma_pass_makes_targets(state, specs, (n - 1) as nat);
    }
}

proof fn lemma_passes_make_targets(
    state: StateView,
    specs: Seq<DerivedScalarSpecView>,
    limit: nat,
)
    requires
        limit > 0 || targets_there(state, specs, specs.len()),
    ensures
        targets_there(derive_passes(state, specs, limit), specs, specs.len()),
    decreases limit,
{
    if limit > 0 {
        lemma_pass_makes_targets(state, specs, specs.len());
        let pass = derive_pass(state, specs, specs.len());
        if pass.1 {
            lemma_passes_make_targets(pass.0, specs, (limit - 1) as nat);
        }
    }
}

proof fn lemma_settled_pass(state: StateView, specs: Seq<DerivedScalarSpecView>, n: nat)
    requires
        n <= specs.len(),
        settled(state, specs, specs.len()),
        targets_there(state, specs, specs.len()),
    ensures
        derive_pass(state, specs, n) == (state, false),
    decreases n,
{
    if n > 0 {
        lemma_settled_pass(state, specs, (n - 1) as nat);
        let last = specs[n - 1];
        assert(state.scalar_values.contains_key(target(last)));
        assert(scalar_at(state.scalar_values, target(last)) == derived_value(state, last));
        assert(state.scalar_values.insert(target(last), derived_value(state, last))
            =~= state.scalar_values);
    }
}

/// Bringing the derived scalars up to date once more changes nothing.
pub proof fn lemma_refreshed_twice(state: StateView, ranks: Seq<nat>)
    requires
        ranked(state.derived_scalars, ranks),
    ensures
        refreshed(refreshed(state)) == refreshed(state),
{
    let specs = state.derived_scalars;
    let done = refreshed(state);
    lemma_refreshed_is_settled(state, ranks);
    lemma_passes_keep_the_rest(state, specs, specs.len());
    if specs.len() > 0 {
        lemma_passes_make_targets(state, specs, specs.len());
        lemma_settled_pass(done, specs, specs.len());
    }
}

proof fn lemma_passes_change_targets(
    state: StateView,
    specs: Seq<DerivedScalarSpecView>,
    limit: nat,
    k: Seq<char>,
)
    requires
        forall|i: int| 0 <= i < specs.len() ==> target(#[trigger] specs[i]) != k,
    ensures
        scalar_at(derive_passes(state, specs, limit).scalar_values, k) == scalar_at(
            state.scalar_values,
            k,
        ),
    decreases limit,
{
    if limit > 0 {
        let pass = derive_pass(state, specs, specs.len());
        lemma_pass_changes_targets(state, specs, specs.len(), k);
        if pass.1 {
            lemma_passes_change_targets(pass.0, specs, (limit - 1) as nat, k);
        }
    }
}

proof fn lemma_passes_keep_the_rest(
    state: StateView,
    specs: Seq<DerivedScalarSpecView>,
    limit: nat,
)
    ensures
        derive_passes(state, specs, limit) == (StateView {
            scalar_values: derive_passes(state, specs, limit).scalar_values,
            ..state
        }),
    decreases limit,
{
    if limit > 0 {
        let pass = derive_pass(state, specs, specs.len());
        lemma_pass_keeps_the_rest(state, specs, specs.len());
        if pass.1 {
            lemma_passes_keep_the_rest(pass.0, specs, (limit - 1) as nat);
        }
    }
}

/// Bringing the derived scalars up to date changes scalars alone, and of these only derived
/// ones.
pub proof fn lemma_refreshed_changes_derived_scalars_alone(state: StateView, k: Seq<char>)
    ensures
        refreshed(state) == (StateView {
            scalar_values: refreshed(state).scalar_values,
            ..state
        }),
        (forall|i: int|
            0 <= i < state.derived_scalars.len() ==> target(#[trigger] state.derived_scalars[i])
                != k) ==> scalar_at(refreshed(state).scalar_values, k) == scalar_at(
            state.scalar_values,
            k,
        ),
{
    let specs = state.derived_scalars;
    lemma_passes_keep_the_rest(state, specs, specs.len());
    if forall|i: int| 0 <= i < specs.len() ==> target(#[trigger] specs[i]) != k {
        lemma_passes_change_targets(state, specs, specs.len(), k);
    }
}

} // verus!
