//! Identities that are drawn anew, and the names of scopes.
use crate::contexts::{child_scope, span_name, span_text};
use crate::plan::{PersistenceKey, Scope, ScopeSegment};
use crate::plan_view::{ScopeSegmentView, ScopeView};
use crate::static_expression::PersistenceId;
use crate::text::{
    is_digit, lemma_nat_text_injective, lemma_nat_text_is_digits, nat_text, opt_text, u128_text,
    u64_text,
};
use vstd::prelude::*;

verus! {

/// The digit of a number below 32 in an identity's text: the letters I, L, O and U are left out.
pub open spec fn ulid_digit(d: int) -> char {
    "0123456789ABCDEFGHJKMNPQRSTVWXYZ"@[d]
}

/// The last `count` digits of a number to the base 32.
pub open spec fn ulid_digits(n: nat, count: nat) -> Seq<char>
    decreases count,
{
    if count == 0 {
        Seq::empty()
    } else {
        ulid_digits(n / 32, (count - 1) as nat).push(ulid_digit((n % 32) as int))
    }
}

/// The text of an identity: its 26 digits to the base 32.
pub open spec fn ulid_name(id: u128) -> Seq<char> {
    ulid_digits(id as nat, 26)
}

/// `ulid::Ulid::new`: an identity made of the time and of chance. Nothing is claimed of which one
/// comes, nor that two calls give different ones.
#[verifier::external_body]
fn new_ulid() -> (r: u128) {
    u128::from(ulid::Ulid::new())
}

/// `ulid::Ulid`'s `to_string`: the identity in 26 digits of Crockford's base 32, the most
/// significant one first.
#[verifier::external_body]
fn ulid_to_string(id: u128) -> (r: String)
    ensures
        r@ == ulid_name(id),
{
    ulid::Ulid::from(id).to_string()
}

/// The text of an identity.
pub fn identity_text(id: PersistenceId) -> (r: String)
    ensures
        r@ == ulid_name(id.0),
{
    ulid_to_string(id.0)
}

/// As many new identities as a plan asks for.
pub fn draw_ids(count: u64) -> (r: Vec<PersistenceId>)
    ensures
        r@.len() == count,
{
    let mut ids: Vec<PersistenceId> = Vec::new();
    let mut i: u64 = 0;
    while i < count
        invariant
            i <= count,
            ids@.len() == i,
        decreases count - i,
    {
        ids.push(PersistenceId(new_ulid()));
        i += 1;
    }
    ids
}

/// Whether a key is stored or among the ones that were drawn.
pub open spec fn key_drawn(key: PersistenceKey, drawn: Seq<PersistenceId>) -> bool {
    match key {
        PersistenceKey::Stored(_) => true,
        PersistenceKey::Fresh(n) => n < drawn.len(),
    }
}

/// The identity behind a key.
pub open spec fn key_identity(key: PersistenceKey, drawn: Seq<PersistenceId>) -> PersistenceId {
    match key {
        PersistenceKey::Stored(id) => id,
        PersistenceKey::Fresh(n) => drawn[n as int],
    }
}

/// The identity behind a key.
pub fn resolve_key(key: PersistenceKey, drawn: &Vec<PersistenceId>) -> (r: PersistenceId)
    requires
        key_drawn(key, drawn@),
    ensures
        r == key_identity(key, drawn@),
{
    let count: usize = drawn.len();
    match key {
        PersistenceKey::Stored(id) => id,
        PersistenceKey::Fresh(n) => {
            assert(n < count);
            drawn[n as usize]
        },
    }
}

/// Whether all the keys of a level of a scope are stored or drawn.
pub open spec fn segment_drawn(segment: ScopeSegmentView, drawn: Seq<PersistenceId>) -> bool {
    match segment {
        ScopeSegmentView::ListItem { key, .. } => key_drawn(key, drawn),
        ScopeSegmentView::Call { key } => key_drawn(key, drawn),
        _ => true,
    }
}

/// The name of a level of a scope. An item of a list that has a stored identity is named by the
/// decimal text of it, one that has none by the text of a drawn identity.
pub open spec fn segment_name(segment: ScopeSegmentView, drawn: Seq<PersistenceId>) -> Seq<char> {
    match segment {
        ScopeSegmentView::ListItem { index, key } => "list_item_"@ + nat_text(index as nat) + "_"@
            + match key {
            PersistenceKey::Stored(id) => nat_text(id.0 as nat),
            PersistenceKey::Fresh(n) => ulid_name(drawn[n as int].0),
        },
        ScopeSegmentView::WhileArm { index } => "while_arm_"@ + nat_text(index as nat),
        ScopeSegmentView::ListAppend { span } => "list_append_"@ + span_name(span),
        ScopeSegmentView::Call { key } => ulid_name(key_identity(key, drawn).0),
        ScopeSegmentView::Invocation { id } => id,
        ScopeSegmentView::Restored { id } => id,
    }
}

/// The name of a level of a scope.
pub fn segment_text(segment: &ScopeSegment, drawn: &Vec<PersistenceId>) -> (r: String)
    requires
        segment_drawn(segment@, drawn@),
    ensures
        r@ == segment_name(segment@, drawn@),
{
    match segment {
        ScopeSegment::ListItem { index, key } => {
            let mut out = "list_item_".to_owned();
            out.append(u64_text(*index).as_str());
            out.append("_");
            match key {
                PersistenceKey::Stored(id) => out.append(u128_text(id.0).as_str()),
                PersistenceKey::Fresh(_) => out.append(
                    identity_text(resolve_key(*key, drawn)).as_str(),
                ),
            }
            out
        },
        ScopeSegment::WhileArm { index } => {
            let mut out = "while_arm_".to_owned();
            out.append(u64_text(*index).as_str());
            out
        },
        ScopeSegment::ListAppend { span } => {
            let mut out = "list_append_".to_owned();
            out.append(span_text(*span).as_str());
            out
        },
        ScopeSegment::Call { key } => identity_text(resolve_key(*key, drawn)),
        ScopeSegment::Invocation { id } => id.clone(),
        ScopeSegment::Restored { id } => id.clone(),
    }
}

/// The names of levels, joined by colons.
pub open spec fn segments_name(segments: Seq<ScopeSegmentView>, drawn: Seq<PersistenceId>) -> Seq<
    char,
>
    decreases segments.len(),
{
    if segments.len() == 0 {
        Seq::empty()
    } else if segments.len() == 1 {
        segment_name(segments[0], drawn)
    } else {
        segments_name(segments.drop_last(), drawn) + ":"@ + segment_name(segments.last(), drawn)
    }
}

/// The name of a scope; the root scope has none.
pub open spec fn scope_name(scope: ScopeView, drawn: Seq<PersistenceId>) -> Option<Seq<char>> {
    if scope.segments.len() == 0 {
        None
    } else {
        Some(segments_name(scope.segments, drawn))
    }
}

/// The name of a scope; the root scope has none.
pub fn scope_text(scope: &Scope, drawn: &Vec<PersistenceId>) -> (r: Option<String>)
    requires
        forall|i: int| 0 <= i < scope@.segments.len() ==> segment_drawn(
            #[trigger] scope@.segments[i],
            drawn@,
        ),
    ensures
        opt_text(r) == scope_name(scope@, drawn@),
{
    if scope.segments.len() == 0 {
        return None;
    }
    assert(segment_drawn(scope@.segments[0], drawn@));
    let mut out = segment_text(&scope.segments[0], drawn);
    let ghost levels = scope@.segments;
    assert(levels.take(1)[0] == levels[0]);
    let mut i: usize = 1;
    while i < scope.segments.len()
        invariant
            1 <= i <= scope.segments.len(),
            levels == scope@.segments,
            levels.len() == scope.segments@.len(),
            forall|i: int| 0 <= i < levels.len() ==> segment_drawn(#[trigger] levels[i], drawn@),
            out@ == segments_name(levels.take(i as int), drawn@),
        decreases scope.segments.len() - i,
    {
        assert(segment_drawn(levels[i as int], drawn@));
        assert(levels[i as int] == scope.segments@[i as int]@);
        out.append(":");
        out.append(segment_text(&scope.segments[i], drawn).as_str());
        assert(levels.take(i + 1).drop_last() =~= levels.take(i as int));
        i += 1;
    }
    assert(levels.take(i as int) =~= levels);
    Some(out)
}

/// Different numbers below 32 have different digits.
proof fn lemma_ulid_digit_injective(a: int, b: int)
    requires
        0 <= a < 32,
        0 <= b < 32,
        ulid_digit(a) == ulid_digit(b),
    ensures
        a == b,
{
    reveal_strlit("0123456789ABCDEFGHJKMNPQRSTVWXYZ");
}

proof fn lemma_ulid_digits_injective(a: nat, b: nat, count: nat)
    requires
        a < vstd::arithmetic::power::pow(32, count),
        b < vstd::arithmetic::power::pow(32, count),
        ulid_digits(a, count) == ulid_digits(b, count),
    ensures
        a == b,
    decreases count,
{
    reveal(vstd::arithmetic::power::pow);
    if count > 0 {
        let x = ulid_digits(a, count);
        let y = ulid_digits(b, count);
        assert(x.drop_last() =~= ulid_digits(a / 32, (count - 1) as nat));
        assert(y.drop_last() =~= ulid_digits(b / 32, (count - 1) as nat));
        assert(x.last() == y.last());
        lemma_ulid_digit_injective((a % 32) as int, (b % 32) as int);
        lemma_ulid_digits_injective(a / 32, b / 32, (count - 1) as nat);
    }
}

/// Different identities have different texts.
pub proof fn lemma_identity_text_injective(a: u128, b: u128)
    requires
        ulid_name(a) == ulid_name(b),
    ensures
        a == b,
{
    assert(vstd::arithmetic::power::pow(32, 26) > u128::MAX) by {
        vstd::arithmetic::power::lemma_pow_adds(32, 13, 13);
        reveal_with_fuel(vstd::arithmetic::power::pow, 14);
    }
    lemma_ulid_digits_injective(a as nat, b as nat, 26);
}

/// What stands before the first underscore of a text that starts with digits.
proof fn lemma_digits_before_underscore(a: nat, x: Seq<char>, b: nat, y: Seq<char>)
    requires
        nat_text(a) + "_"@ + x == nat_text(b) + "_"@ + y,
    ensures
        a == b,
{
    reveal_strlit("_");
    lemma_nat_text_is_digits(a);
    lemma_nat_text_is_digits(b);
    let s = nat_text(a) + "_"@ + x;
    let n = nat_text(a).len() as int;
    let m = nat_text(b).len() as int;
    assert(s[n] == '_');
    assert(s[m] == '_');
    if n < m {
        assert(is_digit(nat_text(b)[n]));
        assert(s[n] == nat_text(b)[n]);
    } else if m < n {
        assert(is_digit(nat_text(a)[m]));
        assert(s[m] == nat_text(a)[m]);
    }
    assert(s.take(n) =~= nat_text(a));
    assert(s.take(n) =~= nat_text(b));
    lemma_nat_text_injective(a, b);
}

/// The scopes of two items of one list have different names, whatever their identities are.
pub proof fn lemma_item_scopes_differ(
    scope: ScopeView,
    i: u64,
    a: PersistenceKey,
    j: u64,
    b: PersistenceKey,
    drawn: Seq<PersistenceId>,
)
    requires
        i != j,
    ensures
        scope_name(child_scope(scope, ScopeSegmentView::ListItem { index: i, key: a }), drawn)
            != scope_name(
                child_scope(scope, ScopeSegmentView::ListItem { index: j, key: b }),
                drawn,
            ),
{
    let p = ScopeSegmentView::ListItem { index: i, key: a };
    let q = ScopeSegmentView::ListItem { index: j, key: b };
    let x = segment_name(p, drawn);
    let y = segment_name(q, drawn);
    if x == y {
        let k = "list_item_"@.len() as int;
        let tail_x = match a {
            PersistenceKey::Stored(id) => nat_text(id.0 as nat),
            PersistenceKey::Fresh(n) => ulid_name(drawn[n as int].0),
        };
        let tail_y = match b {
            PersistenceKey::Stored(id) => nat_text(id.0 as nat),
            PersistenceKey::Fresh(n) => ulid_name(drawn[n as int].0),
        };
        assert(x.skip(k) =~= nat_text(i as nat) + "_"@ + tail_x);
        assert(y.skip(k) =~= nat_text(j as nat) + "_"@ + tail_y);
        lemma_digits_before_underscore(i as nat, tail_x, j as nat, tail_y);
    }
    lemma_child_names_differ(scope, p, q, drawn);
}

/// The name of a scope one level down.
pub proof fn lemma_child_name(
    scope: ScopeView,
    segment: ScopeSegmentView,
    drawn: Seq<PersistenceId>,
)
    ensures
        scope_name(child_scope(scope, segment), drawn) == Some(
            if scope.segments.len() == 0 {
                segment_name(segment, drawn)
            } else {
                segments_name(scope.segments, drawn) + ":"@ + segment_name(segment, drawn)
            },
        ),
{
    let all = scope.segments.push(segment);
    assert(all.drop_last() =~= scope.segments);
}

/// Levels with different names give scopes with different names.
pub proof fn lemma_child_names_differ(
    scope: ScopeView,
    p: ScopeSegmentView,
    q: ScopeSegmentView,
    drawn: Seq<PersistenceId>,
)
    requires
        segment_name(p, drawn) != segment_name(q, drawn),
    ensures
        scope_name(child_scope(scope, p), drawn) != scope_name(child_scope(scope, q), drawn),
{
    let x = segment_name(p, drawn);
    let y = segment_name(q, drawn);
    lemma_child_name(scope, p, drawn);
    lemma_child_name(scope, q, drawn);
    if scope.segments.len() > 0 {
        let front = segments_name(scope.segments, drawn) + ":"@;
        assert((front + x).skip(front.len() as int) =~= x);
        assert((front + y).skip(front.len() as int) =~= y);
    }
}

/// The arms of a choice have scopes of their own.
pub proof fn lemma_arm_scopes_differ(scope: ScopeView, i: u64, j: u64, drawn: Seq<PersistenceId>)
    requires
        i != j,
    ensures
        scope_name(child_scope(scope, ScopeSegmentView::WhileArm { index: i }), drawn)
            != scope_name(child_scope(scope, ScopeSegmentView::WhileArm { index: j }), drawn),
{
    let p = ScopeSegmentView::WhileArm { index: i };
    let q = ScopeSegmentView::WhileArm { index: j };
    let x = segment_name(p, drawn);
    let y = segment_name(q, drawn);
    let k = "while_arm_"@.len() as int;
    assert(x.skip(k) =~= nat_text(i as nat));
    assert(y.skip(k) =~= nat_text(j as nat));
    if x == y {
        lemma_nat_text_injective(i as nat, j as nat);
    }
    lemma_child_names_differ(scope, p, q, drawn);
}

/// Whether a level of a scope has an identity that is drawn anew.
pub open spec fn is_fresh(segment: ScopeSegmentView) -> bool {
    match segment {
        ScopeSegmentView::ListItem { key, .. } => key is Fresh,
        ScopeSegmentView::Call { key } => key is Fresh,
        _ => false,
    }
}

/// A scope whose levels all have stored identities keeps its name, whatever identities are drawn
/// when its parts are made again.
pub proof fn lemma_stored_scope_is_stable(
    segments: Seq<ScopeSegmentView>,
    a: Seq<PersistenceId>,
    b: Seq<PersistenceId>,
)
    requires
        forall|i: int| 0 <= i < segments.len() ==> !is_fresh(#[trigger] segments[i]),
    ensures
        scope_name(ScopeView { segments }, a) == scope_name(ScopeView { segments }, b),
    decreases segments.len(),
{
    if segments.len() > 0 {
        assert(!is_fresh(segments[0]));
        assert(!is_fresh(segments[segments.len() - 1]));
        assert forall|i: int| 0 <= i < segments.drop_last().len() implies !is_fresh(
            #[trigger] segments.drop_last()[i],
        ) by {
            assert(!is_fresh(segments[i]));
        }
        if segments.len() > 1 {
            lemma_stored_scope_is_stable(segments.drop_last(), a, b);
        }
    }
}

} // verus!
