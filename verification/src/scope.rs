//! Names of state that belongs to one item of a list or to one element.
use crate::semantic_ir::SemanticFactBinding;
use crate::semantic_view::SemanticFactBindingView;
use crate::text::{
    has_prefix, is_digit, lemma_nat_text_injective, lemma_nat_text_is_digits, nat_text, opt_str,
    opt_text, starts_with, strip_prefix, u64_text, usize_text, without_prefix,
};
use vstd::prelude::*;
use vstd::string::*;

verus! {

/// The positions of a path, joined by underscores.
pub open spec fn joined_path(path: Seq<usize>) -> Seq<char>
    decreases path.len(),
{
    if path.len() == 0 {
        Seq::empty()
    } else if path.len() == 1 {
        nat_text(path[0] as nat)
    } else {
        joined_path(path.drop_last()) + "_"@ + nat_text(path.last() as nat)
    }
}

/// The name of a place in the tree.
pub open spec fn path_name(path: Seq<usize>) -> Seq<char> {
    if path.len() == 0 {
        "root"@
    } else {
        joined_path(path)
    }
}

/// The path of the child at `index`.
pub fn child_path(path: &Vec<usize>, index: usize) -> (r: Vec<usize>)
    ensures
        r@ == path@.push(index),
{
    let mut next: Vec<usize> = Vec::new();
    let mut i: usize = 0;
    while i < path.len()
        invariant
            i <= path@.len(),
            next@ == path@.take(i as int),
        decreases path@.len() - i,
    {
        next.push(path[i]);
        proof {
            assert(next@ =~= path@.take(i + 1));
        }
        i = i + 1;
    }
    next.push(index);
    proof {
        assert(path@.take(i as int) =~= path@);
    }
    next
}

/// The name of a place in the tree.
pub fn path_key(path: &Vec<usize>) -> (r: String)
    ensures
        r@ == path_name(path@),
{
    if path.len() == 0 {
        return "root".to_owned();
    }
    let mut out = usize_text(path[0]);
    let mut i: usize = 1;
    proof {
        assert(path@.take(1).len() == 1);
        assert(joined_path(path@.take(1)) == nat_text(path@[0] as nat));
    }
    while i < path.len()
        invariant
            1 <= i <= path@.len(),
            out@ == joined_path(path@.take(i as int)),
        decreases path@.len() - i,
    {
        out.append("_");
        out.append(usize_text(path[i]).as_str());
        proof {
            assert(path@.take(i + 1).drop_last() =~= path@.take(i as int));
        }
        i = i + 1;
    }
    proof {
        assert(path@.take(i as int) =~= path@);
    }
    out
}

/// The scope of the item with the given identity in a list.
pub open spec fn item_scope(list_binding: Seq<char>, item_id: u64) -> Seq<char> {
    list_binding + ".__item__."@ + nat_text(item_id as nat)
}

/// The scope of the item with the given identity in a list.
pub fn object_item_scope(list_binding: &str, item_id: u64) -> (r: String)
    ensures
        r@ == item_scope(list_binding@, item_id),
{
    let mut out = list_binding.to_owned();
    out.append(".__item__.");
    out.append(u64_text(item_id).as_str());
    out
}

/// `suffix` inside `scope`.
pub open spec fn within(scope: Seq<char>, suffix: Seq<char>) -> Seq<char> {
    scope + "."@ + suffix
}

/// `suffix` inside `scope`.
pub fn join_scope(scope: &str, suffix: &str) -> (r: String)
    ensures
        r@ == within(scope@, suffix@),
{
    let mut out = scope.to_owned();
    out.append(".");
    out.append(suffix);
    out
}

/// A source binding as it is named for one item: a name of the item is put in its scope.
pub open spec fn item_source(
    source_binding: Seq<char>,
    list_binding: Seq<char>,
    item_id: u64,
) -> Seq<char> {
    match without_prefix(source_binding, "__item__."@) {
        Some(suffix) => within(item_scope(list_binding, item_id), suffix),
        None => source_binding,
    }
}

/// A source binding as it is named for one item.
pub fn scope_object_source_binding(
    source_binding: Option<&str>,
    list_binding: &str,
    item_id: u64,
) -> (r: Option<String>)
    ensures
        match source_binding {
            Some(s) => opt_text(r) == Some(item_source(s@, list_binding@, item_id)),
            None => r is None,
        },
{
    match source_binding {
        None => None,
        Some(source) => match strip_prefix(source, "__item__.") {
            Some(suffix) => {
                let scope = object_item_scope(list_binding, item_id);
                Some(join_scope(scope.as_str(), suffix.as_str()))
            },
            None => Some(source.to_owned()),
        },
    }
}

/// A binding as it is named inside an element: a name of the element is put in its scope.
pub open spec fn element_binding(binding: Seq<char>, scope: Option<Seq<char>>) -> Seq<char> {
    match (without_prefix(binding, "__element__."@), scope) {
        (Some(suffix), Some(scope)) => within(scope, suffix),
        _ => binding,
    }
}

/// A binding as it is named inside an element.
pub fn scope_element_binding(binding: &str, current_element_scope: Option<&str>) -> (r: String)
    ensures
        r@ == element_binding(binding@, opt_str(current_element_scope)),
{
    match strip_prefix(binding, "__element__.") {
        None => binding.to_owned(),
        Some(suffix) => match current_element_scope {
            Some(scope) => join_scope(scope, suffix.as_str()),
            None => binding.to_owned(),
        },
    }
}

/// The scope that an element opens: it opens one when a fact binding names the element.
pub open spec fn opened_scope(
    path: Seq<usize>,
    item_scope: Option<Seq<char>>,
    fact_bindings: Seq<SemanticFactBindingView>,
) -> Option<Seq<char>> {
    if exists|i: int|
        0 <= i < fact_bindings.len() && has_prefix(
            (#[trigger] fact_bindings[i]).binding,
            "__element__."@,
        ) {
        match item_scope {
            Some(scope) => Some(scope + ".__element__."@ + path_name(path)),
            None => Some("__element__."@ + path_name(path)),
        }
    } else {
        None
    }
}

/// The scope that an element opens.
pub fn local_element_scope(
    path: &Vec<usize>,
    item_scope: Option<&str>,
    fact_bindings: &Vec<SemanticFactBinding>,
) -> (r: Option<String>)
    ensures
        opt_text(r) == opened_scope(
            path@,
            opt_str(item_scope),
            fact_bindings@.map_values(|x: SemanticFactBinding| x@),
        ),
{
    let ghost bindings = fact_bindings@.map_values(|x: SemanticFactBinding| x@);
    let mut found: bool = false;
    let mut i: usize = 0;
    while i < fact_bindings.len() && !found
        invariant
            i <= fact_bindings@.len(),
            bindings == fact_bindings@.map_values(|x: SemanticFactBinding| x@),
            found == exists|j: int|
                0 <= j < i && has_prefix((#[trigger] bindings[j]).binding, "__element__."@),
        decreases fact_bindings@.len() - i,
    {
        if starts_with(fact_bindings[i].binding.as_str(), "__element__.") {
            proof {
                assert(has_prefix(bindings[i as int].binding, "__element__."@));
            }
            found = true;
        }
        i = i + 1;
    }
    if !found {
        return None;
    }
    let key = path_key(path);
    match item_scope {
        Some(scope) => {
            let mut out = scope.to_owned();
            out.append(".__element__.");
            out.append(key.as_str());
            Some(out)
        },
        None => {
            let mut out = "__element__.".to_owned();
            out.append(key.as_str());
            Some(out)
        },
    }
}

/// The names of different places in the tree differ.
pub proof fn lemma_path_name_injective(p: Seq<usize>, q: Seq<usize>)
    requires
        path_name(p) == path_name(q),
    ensures
        p == q,
{
    reveal_strlit("root");
    if p.len() > 0 {
        lemma_joined_path_first(p);
    }
    if q.len() > 0 {
        lemma_joined_path_first(q);
    }
    if p.len() > 0 && q.len() > 0 {
        lemma_joined_path_injective(p, q);
    } else {
        assert(!is_digit('r'));
        assert("root"@[0] == 'r');
        assert(p =~= q);
    }
}

proof fn lemma_joined_path_first(p: Seq<usize>)
    requires
        p.len() > 0,
    ensures
        joined_path(p).len() > 0,
        is_digit(joined_path(p)[0]),
    decreases p.len(),
{
    if p.len() == 1 {
        lemma_nat_text_is_digits(p[0] as nat);
    } else {
        lemma_joined_path_first(p.drop_last());
        assert(joined_path(p)[0] == joined_path(p.drop_last())[0]);
    }
}

/// The end of a joined path: the last number, with an underscore before it if any.
proof fn lemma_joined_path_injective(p: Seq<usize>, q: Seq<usize>)
    requires
        p.len() > 0,
        q.len() > 0,
        joined_path(p) == joined_path(q),
    ensures
        p == q,
    decreases p.len(),
{
    reveal_strlit("_");
    let s = joined_path(p);
    let a = nat_text(p.last() as nat);
    let b = nat_text(q.last() as nat);
    lemma_nat_text_is_digits(p.last() as nat);
    lemma_nat_text_is_digits(q.last() as nat);
    assert(p.len() == 1 ==> p.last() == p[0]);
    assert(q.len() == 1 ==> q.last() == q[0]);
    let x = s.len() - a.len();
    let y = s.len() - b.len();
    assert(s.skip(x) =~= a);
    assert(s.skip(y) =~= b);
    assert(p.len() > 1 ==> s[x - 1] == '_');
    assert(q.len() > 1 ==> s[y - 1] == '_');
    assert(!is_digit('_'));
    if x < y {
        assert(a[y - 1 - x] == s[y - 1]);
        assert(is_digit(a[y - 1 - x]));
        assert(false);
    }
    if y < x {
        assert(b[x - 1 - y] == s[x - 1]);
        assert(is_digit(b[x - 1 - y]));
        assert(false);
    }
    lemma_nat_text_injective(p.last() as nat, q.last() as nat);
    if p.len() > 1 {
        assert(x > 0);
        assert(q.len() > 1);
        assert(s.take(x - 1) =~= joined_path(p.drop_last()));
        assert(s.take(x - 1) =~= joined_path(q.drop_last()));
        lemma_joined_path_injective(p.drop_last(), q.drop_last());
        assert(p =~= p.drop_last().push(p.last()));
        assert(q =~= q.drop_last().push(q.last()));
    } else {
        assert(q.len() == 1) by {
            if q.len() > 1 {
                assert(y > 0);
            }
        }
        assert(p =~= seq![p.last()]);
        assert(q =~= seq![q.last()]);
    }
}

/// Different items of one list have different scopes.
pub proof fn lemma_item_scope_injective(list_binding: Seq<char>, a: u64, b: u64)
    requires
        item_scope(list_binding, a) == item_scope(list_binding, b),
    ensures
        a == b,
{
    let n = (list_binding + ".__item__."@).len();
    assert(item_scope(list_binding, a).skip(n as int) =~= nat_text(a as nat));
    assert(item_scope(list_binding, b).skip(n as int) =~= nat_text(b as nat));
    lemma_nat_text_injective(a as nat, b as nat);
}

/// A name of an element means different scalars in elements at different places.
pub proof fn lemma_element_binding_per_place(
    suffix: Seq<char>,
    p: Seq<usize>,
    q: Seq<usize>,
)
    requires
        p != q,
    ensures
        element_binding("__element__."@ + suffix, Some("__element__."@ + path_name(p)))
            != element_binding("__element__."@ + suffix, Some("__element__."@ + path_name(q))),
{
    reveal_strlit("__element__.");
    let e = "__element__."@;
    assert((e + suffix).take(e.len() as int) =~= e);
    assert((e + suffix).skip(e.len() as int) =~= suffix);
    let tail = "."@ + suffix;
    let a = within(e + path_name(p), suffix);
    let b = within(e + path_name(q), suffix);
    if a == b {
        let m = a.len() - tail.len();
        assert(a.subrange(e.len() as int, m) =~= path_name(p));
        assert(b.subrange(e.len() as int, m) =~= path_name(q));
        lemma_path_name_injective(p, q);
    }
}

/// A binding that does not name its element means the same everywhere.
pub proof fn lemma_shared_binding_keeps_its_name(binding: Seq<char>, scope: Option<Seq<char>>)
    requires
        !has_prefix(binding, "__element__."@),
    ensures
        element_binding(binding, scope) == binding,
{
}

} // verus!
