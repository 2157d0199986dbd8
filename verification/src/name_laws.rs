//! What texts, names and contexts are.
use crate::contexts::{child_scope, root_context, span_name};
use crate::ids::{scope_name, segment_name, ulid_name};
use crate::plan::PersistenceKey;
use crate::plan_view::{ActorContextView, ActorSpecView, PlanView, ScopeSegmentView, ScopeView};
use crate::reactions::{frozen, with_appended, with_bindings};
use crate::scope::path_name;
use crate::static_expression::{PersistenceId, Span};
use crate::text::{
    all_digits, digit_char, digits_value, is_digit, is_white_space, nat_text, parsed_int, trimmed,
    trimmed_end, trimmed_start,
};
use crate::value::ValueView;
use vstd::prelude::*;

verus! {

/// Whether a text is made of white space alone.
pub open spec fn is_blank(s: Seq<char>) -> bool {
    forall|i: int| 0 <= i < s.len() ==> is_white_space(#[trigger] s[i])
}

/// A trimmed text is what is left without white space at either end: nothing else is taken away,
/// and nothing that could be is left.
pub proof fn lemma_only_white_space_is_trimmed(s: Seq<char>)
    ensures
        exists|before: Seq<char>, after: Seq<char>|
            is_blank(before) && is_blank(after) && s == #[trigger] (before + trimmed(s) + after),
        trimmed(s).len() > 0 ==> !is_white_space(trimmed(s)[0]) && !is_white_space(
            trimmed(s).last(),
        ),
{
    let before = lemma_trimmed_start(s);
    let rest = trimmed_start(s);
    let after = lemma_trimmed_end(rest);
    assert(before + trimmed(s) + after =~= s);
    if trimmed(s).len() > 0 {
        assert(trimmed(s)[0] == rest[0]);
    }
}

proof fn lemma_trimmed_start(s: Seq<char>) -> (before: Seq<char>)
    ensures
        is_blank(before),
        s == before + trimmed_start(s),
        trimmed_start(s).len() > 0 ==> !is_white_space(trimmed_start(s)[0]),
    decreases s.len(),
{
    if s.len() > 0 && is_white_space(s[0]) {
        let inner = lemma_trimmed_start(s.skip(1));
        let before = seq![s[0]] + inner;
        assert forall|i: int| 0 <= i < before.len() implies is_white_space(
            #[trigger] before[i],
        ) by {
            if i > 0 {
                assert(before[i] == inner[i - 1]);
            }
        }
        assert(before + trimmed_start(s) =~= s) by {
            assert(s =~= seq![s[0]] + s.skip(1));
        }
        before
    } else {
        assert(Seq::<char>::empty() + s =~= s);
        Seq::empty()
    }
}

proof fn lemma_trimmed_end(s: Seq<char>) -> (after: Seq<char>)
    ensures
        is_blank(after),
        s == trimmed_end(s) + after,
        trimmed_end(s).len() > 0 ==> !is_white_space(trimmed_end(s).last()),
    decreases s.len(),
{
    if s.len() > 0 && is_white_space(s.last()) {
        let inner = lemma_trimmed_end(s.drop_last());
        let after = inner.push(s.last());
        assert(trimmed_end(s) + after =~= s) by {
            assert(s =~= s.drop_last().push(s.last()));
        }
        after
    } else {
        assert(s + Seq::<char>::empty() =~= s);
        Seq::empty()
    }
}

/// A sign before digits is read, a text without digits or with anything else is no number, and one
/// more digit counts ten times the others.
pub proof fn lemma_numbers_read(digits: Seq<char>, d: int, other: char)
    requires
        digits.len() > 0,
        all_digits(digits),
        0 <= d < 10,
        !is_digit(other),
    ensures
        parsed_int(digits) is Some,
        parsed_int(seq!['+'] + digits) == parsed_int(digits),
        parsed_int(seq!['-'] + digits) == Some(-parsed_int(digits)->0),
        parsed_int(digits.push(digit_char(d))) == Some(10 * parsed_int(digits)->0 + d),
        parsed_int(seq![digit_char(d)]) == Some(d),
        parsed_int(digits.push(other)) is None,
        parsed_int(Seq::empty()) is None,
        parsed_int(seq!['+']) is None,
        parsed_int(seq!['-']) is None,
{
    let plus = seq!['+'] + digits;
    let minus = seq!['-'] + digits;
    let more = digits.push(digit_char(d));
    let single = seq![digit_char(d)];
    let bad = digits.push(other);
    assert(is_digit(digits[0]));
    assert(plus.skip(1) =~= digits);
    assert(minus.skip(1) =~= digits);
    assert(is_digit(digit_char(d)));
    assert forall|i: int| 0 <= i < more.len() implies is_digit(#[trigger] more[i]) by {
        if i < digits.len() {
            assert(more[i] == digits[i]);
        }
    }
    assert(more[0] == digits[0]);
    assert(more.drop_last() =~= digits);
    reveal_with_fuel(digits_value, 2);
    assert(single[0] == digit_char(d));
    assert(single.drop_last() =~= Seq::<char>::empty());
    assert(digits_value(single) == d);
    assert(bad[0] == digits[0]);
    assert(!is_digit(bad[digits.len() as int]));
    assert(seq!['+'].skip(1).len() == 0);
    assert(seq!['-'].skip(1).len() == 0);
}

/// The places in a program are named by where they start and where they end.
pub proof fn lemma_names_of_places(start: u64, end: u64)
    ensures
        span_name(Span { start, end }) == nat_text(start as nat) + ".."@ + nat_text(end as nat),
{
}

/// The segments of a scope by their names.
pub proof fn lemma_names_of_segments(
    index: u64,
    id: PersistenceId,
    n: u64,
    span: Span,
    text: Seq<char>,
    drawn: Seq<PersistenceId>,
)
    ensures
        segment_name(
            ScopeSegmentView::ListItem { index, key: PersistenceKey::Stored(id) },
            drawn,
        ) == "list_item_"@ + nat_text(index as nat) + "_"@ + nat_text(id.0 as nat),
        segment_name(
            ScopeSegmentView::ListItem { index, key: PersistenceKey::Fresh(n) },
            drawn,
        ) == "list_item_"@ + nat_text(index as nat) + "_"@ + ulid_name(drawn[n as int].0),
        segment_name(ScopeSegmentView::WhileArm { index }, drawn) == "while_arm_"@ + nat_text(
            index as nat,
        ),
        segment_name(ScopeSegmentView::ListAppend { span }, drawn) == "list_append_"@ + (nat_text(
            span.start as nat,
        ) + ".."@ + nat_text(span.end as nat)),
        segment_name(ScopeSegmentView::Call { key: PersistenceKey::Stored(id) }, drawn)
            == ulid_name(id.0),
        segment_name(ScopeSegmentView::Call { key: PersistenceKey::Fresh(n) }, drawn) == ulid_name(
            drawn[n as int].0,
        ),
        segment_name(ScopeSegmentView::Invocation { id: text }, drawn) == text,
        segment_name(ScopeSegmentView::Restored { id: text }, drawn) == text,
{
}

/// The scope of the whole has no name; one inside it has the name of its segment, and each further
/// one the name of the one around it, a colon and the name of its segment.
pub proof fn lemma_names_of_scopes(
    scope: ScopeView,
    segment: ScopeSegmentView,
    drawn: Seq<PersistenceId>,
)
    ensures
        scope_name(root_context().scope, drawn) is None,
        scope_name(child_scope(scope, segment), drawn) == Some(
            match scope_name(scope, drawn) {
                None => segment_name(segment, drawn),
                Some(around) => around + ":"@ + segment_name(segment, drawn),
            },
        ),
{
    let inner = child_scope(scope, segment).segments;
    assert(inner.drop_last() =~= scope.segments);
    assert(inner.last() == segment);
}

/// The root of a tree is named so; what is below it has the numbers of the children on the way,
/// with
/// underscores between them.
pub proof fn lemma_names_of_paths(path: Seq<usize>, child: usize)
    ensures
        path_name(Seq::empty()) == "root"@,
        path_name(seq![child]) == nat_text(child as nat),
        path.len() > 0 ==> path_name(path.push(child)) == path_name(path) + "_"@ + nat_text(
            child as nat,
        ),
{
    assert(path.push(child).drop_last() =~= path);
}

/// One more name that a pattern binds is a parameter with its value as a constant actor; the others
/// stay as they are.
pub proof fn lemma_names_are_bound(
    plan: PlanView,
    parameters: Map<Seq<char>, u64>,
    bindings: Seq<(Seq<char>, ValueView)>,
    name: Seq<char>,
    value: ValueView,
    span: Span,
    context: ActorContextView,
)
    ensures
        ({
            let before = with_bindings(plan, parameters, bindings, span, context);
            let after = with_bindings(
                plan,
                parameters,
                bindings.push((name, value)),
                span,
                context,
            );
            &&& with_bindings(plan, parameters, Seq::empty(), span, context) == (plan, parameters)
            &&& after.0.actors.len() == before.0.actors.len() + 1
            &&& after.0.actors.drop_last() == before.0.actors
            &&& after.0.actors.last().actor == ActorSpecView::Constant(value)
            &&& after.0.actors.last().span == span
            &&& after.0.actors.last().context == context
            &&& after.0.registrations == before.0.registrations
            &&& after.1 == before.1.insert(name, before.0.actors.len() as u64)
        }),
{
    let all = bindings.push((name, value));
    assert(all.drop_last() =~= bindings);
    let before = with_bindings(plan, parameters, bindings, span, context);
    let after = with_bindings(plan, parameters, all, span, context);
    assert(after.0.actors.drop_last() =~= before.0.actors);
}

/// A parameter with a current value is kept as a constant of that value, and one without is handed
/// on as it is.
pub proof fn lemma_parameters_are_kept(
    plan: PlanView,
    parameters: Seq<(Seq<char>, u64)>,
    name: Seq<char>,
    actor: u64,
    current: Map<Seq<char>, ValueView>,
    span: Span,
    context: ActorContextView,
)
    ensures
        ({
            let before = frozen(plan, parameters, current, span, context);
            let after = frozen(plan, parameters.push((name, actor)), current, span, context);
            if current.contains_key(name) {
                &&& after.0.actors.len() == before.0.actors.len() + 1
                &&& after.0.actors.drop_last() == before.0.actors
                &&& after.0.actors.last().actor == ActorSpecView::Constant(current[name])
                &&& after.1 == before.1.insert(name, before.0.actors.len() as u64)
            } else {
                after.0 == before.0 && after.1 == before.1.insert(name, actor)
            }
        }),
{
    let all = parameters.push((name, actor));
    assert(all.drop_last() =~= parameters);
    let before = frozen(plan, parameters, current, span, context);
    let after = frozen(plan, all, current, span, context);
    if current.contains_key(name) {
        assert(after.0.actors.drop_last() =~= before.0.actors);
    }
}

/// An item that is appended is an actor of its value, which is kept under the place of the
/// appending and under the number of the call.
pub proof fn lemma_appended_items(
    plan: PlanView,
    value: ValueView,
    span: Span,
    context: ActorContextView,
    count: nat,
)
    ensures
        ({
            let after = with_appended(plan, value, span, context, count);
            &&& after.actors.drop_last() == plan.actors
            &&& after.actors.last().actor == (ActorSpecView::AppendedItem {
                value,
                storage_key: "list_calls:list_append_"@ + (nat_text(span.start as nat) + ".."@
                    + nat_text(span.end as nat)),
                call_id: "call_"@ + nat_text(count),
            })
            &&& after.actors.last().key == PersistenceKey::Fresh(plan.fresh)
            &&& after.fresh == plan.fresh.wrapping_add(1)
        }),
{
    let after = with_appended(plan, value, span, context, count);
    assert(after.actors.drop_last() =~= plan.actors);
}

/// An evaluation begins without a piped or passed value, without parameters, in the scope of the
/// whole, and with nothing asked for that only some expressions ask for.
pub proof fn lemma_first_context()
    ensures
        ({
            let c = root_context();
            &&& c.piped is None && c.passed is None
            &&& c.parameters == Map::<Seq<char>, u64>::empty()
            &&& c.object_locals == Map::<Seq<char>, u64>::empty()
            &&& !c.sequential_processing && c.backpressure_permit is None
            &&& c.hold_state_update_callback is None && !c.use_lazy_actors
            &&& !c.is_snapshot_context && !c.is_restoring
            &&& c.scope.segments.len() == 0 && c.subscription_scope is None
            &&& c.call_recorder is None && c.list_append_storage_key is None
            &&& c.recording_counter is None && c.subscription_time is None
        }),
{
}

} // verus!
