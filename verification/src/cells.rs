//! Spreadsheet cells: their formulas and the values of these.
use crate::semantic_ir::{ObjectListItem, StateRuntimeModel};
use crate::semantic_view::ObjectListItemView;
use crate::text::{
    has_prefix, i64_text, int_text, lemma_int_text_trimmed, lemma_parse_reads_back, opt_text,
    parse_i64, parsed_i64, split_at_first, split_once, strip_last, strip_prefix, text_eq,
    trim_text, trimmed, without_last, without_prefix,
};
use crate::values::{
    StateView, int_or_zero, item_scalar, item_seq, item_text, list_at,
    object_item_field_scalar_value, object_item_field_text, parse_or_zero, text_at, text_or_empty,
};
use vstd::prelude::*;
use vstd::string::*;

verus! {

/// The formula that a cell starts with.
pub open spec fn default_formula(column: i64, row: i64) -> Seq<char> {
    if column == 1 && row == 1 {
        "5"@
    } else if column == 1 && row == 2 {
        "10"@
    } else if column == 1 && row == 3 {
        "15"@
    } else if column == 2 && row == 1 {
        "=add(A1, A2)"@
    } else if column == 3 && row == 1 {
        "=sum(A1:A3)"@
    } else {
        Seq::empty()
    }
}

/// The formula that a cell starts with.
pub fn default_cell_formula_text(column: i64, row: i64) -> (r: String)
    ensures
        r@ == default_formula(column, row),
{
    if column == 1 && row == 1 {
        "5".to_owned()
    } else if column == 1 && row == 2 {
        "10".to_owned()
    } else if column == 1 && row == 3 {
        "15".to_owned()
    } else if column == 2 && row == 1 {
        "=add(A1, A2)".to_owned()
    } else if column == 3 && row == 1 {
        "=sum(A1:A3)".to_owned()
    } else {
        String::new()
    }
}

/// The column and the row that a reference such as `B3` names.
pub open spec fn cell_reference(reference: Seq<char>) -> Option<(i64, i64)> {
    if reference.len() > 0 && 'A' <= reference[0] && reference[0] <= 'Z' {
        match parsed_i64(reference.skip(1)) {
            Some(row) => Some(((reference[0] as u32 - 'A' as u32 + 1) as i64, row)),
            None => None,
        }
    } else {
        None
    }
}

/// The column and the row that a reference such as `B3` names.
pub fn parse_cell_reference(reference: &str) -> (r: Option<(i64, i64)>)
    ensures
        r == cell_reference(reference@),
{
    let n: usize = reference.unicode_len();
    if n == 0 {
        return None;
    }
    let letter = reference.get_char(0);
    if letter < 'A' || letter > 'Z' {
        return None;
    }
    proof {
        assert(reference@.subrange(1, n as int) =~= reference@.skip(1));
    }
    match parse_i64(reference.substring_char(1, n)) {
        Some(row) => {
            let column: i64 = (letter as u32 - 64) as i64;
            Some((column, row))
        },
        None => None,
    }
}

/// The position of a cell, if the item is one.
pub open spec fn position(item: ObjectListItemView) -> Option<(i64, i64)> {
    if item.scalar_fields.contains_key("column"@) && item.scalar_fields.contains_key("row"@) {
        Some((item.scalar_fields["column"@], item.scalar_fields["row"@]))
    } else {
        None
    }
}

/// The position of a cell, if the item is one.
pub fn cell_position(item: &ObjectListItem) -> (r: Option<(i64, i64)>)
    ensures
        r == position(item@),
{
    match item.scalar_fields.get("column") {
        Some(column) => match item.scalar_fields.get("row") {
            Some(row) => Some((*column, *row)),
            None => None,
        },
        None => None,
    }
}

/// The text of the last of the items at the given position.
pub open spec fn last_text_at(
    items: Seq<ObjectListItemView>,
    column: i64,
    row: i64,
) -> Option<Seq<char>>
    decreases items.len(),
{
    if items.len() == 0 {
        None
    } else if position(items.last()) == Some((column, row)) {
        Some(item_text(items.last(), "text"@))
    } else {
        last_text_at(items.drop_last(), column, row)
    }
}

/// The formula that overrides the default one of a cell: the latest, unless it is empty.
pub open spec fn override_formula(state: StateView, column: i64, row: i64) -> Option<Seq<char>> {
    match last_text_at(list_at(state.object_lists, "overrides"@), column, row) {
        Some(text) => if text.len() > 0 {
            Some(text)
        } else {
            None
        },
        None => None,
    }
}

/// The formula of a cell.
pub open spec fn formula(state: StateView, column: i64, row: i64) -> Seq<char> {
    match override_formula(state, column, row) {
        Some(text) => text,
        None => default_formula(column, row),
    }
}

/// The formula that overrides the default one of a cell.
pub fn find_override_formula_text(state: &StateRuntimeModel, column: i64, row: i64) -> (r: Option<
    String,
>)
    ensures
        opt_text(r) == override_formula(state@, column, row),
{
    match state.object_lists.get("overrides") {
        None => None,
        Some(items) => {
            let ghost all = item_seq(items@);
            let mut i: usize = items.len();
            proof {
                assert(all.take(i as int) =~= all);
            }
            while i > 0
                invariant
                    i <= items@.len(),
                    all == item_seq(items@),
                    all == list_at(state@.object_lists, "overrides"@),
                    last_text_at(all, column, row) == last_text_at(
                        all.take(i as int),
                        column,
                        row,
                    ),
                decreases i,
            {
                proof {
                    assert(all.take(i as int).last() == all[i - 1]);
                    assert(all.take(i as int).drop_last() =~= all.take(i - 1));
                }
                i = i - 1;
                let matched = match cell_position(&items[i]) {
                    Some(p) => p.0 == column && p.1 == row,
                    None => false,
                };
                if matched {
                    let text = object_item_field_text(&items[i], "text");
                    if text.as_str().is_empty() {
                        return None;
                    }
                    return Some(text);
                }
            }
            None
        },
    }
}

/// The formula of a cell.
pub fn cell_formula_text(state: &StateRuntimeModel, column: i64, row: i64) -> (r: String)
    ensures
        r@ == formula(state@, column, row),
{
    match find_override_formula_text(state, column, row) {
        Some(text) => text,
        None => default_cell_formula_text(column, row),
    }
}

/// Positions that can hold a formula: those with a default one and those overridden.
pub open spec fn formula_positions(state: StateView) -> Seq<(i64, i64)> {
    seq![(1i64, 1i64), (1, 2), (1, 3), (2, 1), (3, 1)] + list_at(
        state.object_lists,
        "overrides"@,
    ).map_values(
        |item: ObjectListItemView|
            match position(item) {
                Some(p) => p,
                None => (1i64, 1i64),
            },
    )
}

/// How many of the positions have not been visited.
pub open spec fn unvisited(positions: Seq<(i64, i64)>, visited: Set<(i64, i64)>) -> nat
    decreases positions.len(),
{
    if positions.len() == 0 {
        0
    } else {
        unvisited(positions.drop_last(), visited) + if visited.contains(positions.last()) {
            0nat
        } else {
            1nat
        }
    }
}

proof fn lemma_unvisited_monotone(
    positions: Seq<(i64, i64)>,
    visited: Set<(i64, i64)>,
    p: (i64, i64),
)
    ensures
        unvisited(positions, visited.insert(p)) <= unvisited(positions, visited),
        positions.contains(p) && !visited.contains(p) ==> unvisited(positions, visited.insert(p))
            < unvisited(positions, visited),
    decreases positions.len(),
{
    if positions.len() > 0 {
        lemma_unvisited_monotone(positions.drop_last(), visited, p);
        if positions.contains(p) && positions.last() != p {
            let i = choose|i: int| 0 <= i < positions.len() && positions[i] == p;
            assert(positions.drop_last()[i] == p);
        }
    }
}

proof fn lemma_last_text_position(items: Seq<ObjectListItemView>, column: i64, row: i64)
    requires
        last_text_at(items, column, row) is Some,
    ensures
        exists|i: int| 0 <= i < items.len() && position(#[trigger] items[i]) == Some((column, row)),
    decreases items.len(),
{
    if position(items.last()) == Some((column, row)) {
        assert(position(items[items.len() - 1]) == Some((column, row)));
    } else {
        lemma_last_text_position(items.drop_last(), column, row);
        let i = choose|i: int|
            0 <= i < items.drop_last().len() && position(#[trigger] items.drop_last()[i]) == Some(
                (column, row),
            );
        assert(position(items[i]) == Some((column, row)));
    }
}

/// Entering a cell with a formula leaves fewer positions unvisited.
pub proof fn lemma_enter_cell(state: StateView, column: i64, row: i64, visited: Set<(i64, i64)>)
    requires
        formula(state, column, row).len() > 0,
        !visited.contains((column, row)),
    ensures
        unvisited(formula_positions(state), visited.insert((column, row))) < unvisited(
            formula_positions(state),
            visited,
        ),
{
    let positions = formula_positions(state);
    let items = list_at(state.object_lists, "overrides"@);
    assert(positions.contains((column, row))) by {
        if override_formula(state, column, row) is Some {
            lemma_last_text_position(items, column, row);
            let i = choose|i: int|
                0 <= i < items.len() && position(#[trigger] items[i]) == Some((column, row));
            assert(positions[5 + i] == (column, row));
        } else {
            assert(positions[0] == (1i64, 1i64));
            assert(positions[1] == (1i64, 2i64));
            assert(positions[2] == (1i64, 3i64));
            assert(positions[3] == (2i64, 1i64));
            assert(positions[4] == (3i64, 1i64));
        }
    }
    lemma_unvisited_monotone(positions, visited, (column, row));
}

/// The arguments of a call of the named function, `name` ending in the opening bracket.
pub open spec fn call_arguments(expression: Seq<char>, name: Seq<char>) -> Option<Seq<char>> {
    match without_prefix(expression, name) {
        Some(rest) => without_last(rest, ')'),
        None => None,
    }
}

/// The value of a cell. `visited` holds the cells whose values are being computed: one that
/// needs itself counts as zero.
pub open spec fn cell_value(
    state: StateView,
    column: i64,
    row: i64,
    visited: Set<(i64, i64)>,
) -> i64
    decreases unvisited(formula_positions(state), visited), 0nat, 0nat,
{
    let text = formula(state, column, row);
    if visited.contains((column, row)) || text.len() == 0 {
        0
    } else {
        proof {
            lemma_enter_cell(state, column, row, visited);
        }
        formula_value(state, text, visited.insert((column, row)))
    }
}

/// The sum of the values of the cells of a column from one row through another, wrapping
/// around at the limits of a 64-bit integer.
pub open spec fn column_sum(
    state: StateView,
    column: i64,
    from: int,
    to: int,
    visited: Set<(i64, i64)>,
) -> i64
    decreases
            unvisited(formula_positions(state), visited),
            1nat,
            (if from <= to {
                to - from + 1
            } else {
                0
            }) as nat,
{
    if from > to {
        0
    } else {
        column_sum(state, column, from, to - 1, visited).wrapping_add(
            cell_value(state, column, to as i64, visited),
        )
    }
}

/// The value of the cell that a reference names, or zero.
pub open spec fn referenced_value(
    state: StateView,
    reference: Seq<char>,
    visited: Set<(i64, i64)>,
) -> i64
    decreases unvisited(formula_positions(state), visited), 1nat, 0nat,
{
    match cell_reference(reference) {
        Some(p) => cell_value(state, p.0, p.1, visited),
        None => 0,
    }
}

/// The value of a formula: a number, `=add(X, Y)` or `=sum(X:Y)`; anything else counts as
/// zero.
pub open spec fn formula_value(
    state: StateView,
    formula_text: Seq<char>,
    visited: Set<(i64, i64)>,
) -> i64
    decreases unvisited(formula_positions(state), visited), 2nat, 0nat,
{
    let text = trimmed(formula_text);
    match without_prefix(text, "="@) {
        None => int_or_zero(text),
        Some(rest) => {
            let expression = trimmed(rest);
            match (call_arguments(expression, "add("@), call_arguments(expression, "sum("@)) {
                (Some(arguments), _) => match split_at_first(arguments, ',') {
                    Some(parts) => referenced_value(
                        state,
                        trimmed(parts.0),
                        visited,
                    ).wrapping_add(referenced_value(state, trimmed(parts.1), visited)),
                    None => 0,
                },
                (None, Some(arguments)) => match split_at_first(arguments, ':') {
                    Some(parts) => match (
                        cell_reference(trimmed(parts.0)),
                        cell_reference(trimmed(parts.1)),
                    ) {
                        (Some(start), Some(end)) => if start.0 != end.0 {
                            0
                        } else if start.1 <= end.1 {
                            column_sum(state, start.0, start.1 as int, end.1 as int, visited)
                        } else {
                            column_sum(state, start.0, end.1 as int, start.1 as int, visited)
                        },
                        _ => 0,
                    },
                    None => 0,
                },
                _ => 0,
            }
        },
    }
}

/// The cells whose values are being computed.
pub open spec fn visited_cells(visited: Seq<(i64, i64)>) -> Set<(i64, i64)> {
    visited.to_set()
}

fn is_visited(visited: &Vec<(i64, i64)>, column: i64, row: i64) -> (r: bool)
    ensures
        r == visited_cells(visited@).contains((column, row)),
{
    let mut i: usize = 0;
    while i < visited.len()
        invariant
            i <= visited@.len(),
            forall|j: int| 0 <= j < i ==> visited@[j] != (column, row),
        decreases visited@.len() - i,
    {
        if visited[i].0 == column && visited[i].1 == row {
            proof {
                assert(visited@[i as int] == (column, row));
            }
            return true;
        }
        i = i + 1;
    }
    false
}

fn with_visited(visited: &Vec<(i64, i64)>, column: i64, row: i64) -> (r: Vec<(i64, i64)>)
    ensures
        visited_cells(r@) == visited_cells(visited@).insert((column, row)),
{
    let mut next: Vec<(i64, i64)> = Vec::new();
    let mut i: usize = 0;
    while i < visited.len()
        invariant
            i <= visited@.len(),
            next@ == visited@.take(i as int),
        decreases visited@.len() - i,
    {
        next.push(visited[i]);
        proof {
            assert(next@ =~= visited@.take(i + 1));
        }
        i = i + 1;
    }
    proof {
        assert(next@ =~= visited@);
    }
    next.push((column, row));
    proof {
        assert(next@ == visited@.push((column, row)));
        assert forall|p: (i64, i64)| #[trigger]
            visited_cells(next@).contains(p) == visited_cells(visited@).insert(
                (column, row),
            ).contains(p) by {
            if visited@.contains(p) {
                let k = choose|k: int| 0 <= k < visited@.len() && visited@[k] == p;
                assert(next@[k] == p);
            }
            assert(next@[visited@.len() as int] == (column, row));
        }
        assert(visited_cells(next@) =~= visited_cells(visited@).insert((column, row)));
    }
    next
}

/// The value of a cell, given the cells whose values are being computed.
pub fn cell_value_at(
    state: &StateRuntimeModel,
    column: i64,
    row: i64,
    visited: &Vec<(i64, i64)>,
) -> (r: i64)
    ensures
        r == cell_value(state@, column, row, visited_cells(visited@)),
    decreases unvisited(formula_positions(state@), visited_cells(visited@)), 0nat, 0nat,
{
    if is_visited(visited, column, row) {
        return 0;
    }
    let formula_text = cell_formula_text(state, column, row);
    if formula_text.as_str().is_empty() {
        return 0;
    }
    let next = with_visited(visited, column, row);
    proof {
        lemma_enter_cell(state@, column, row, visited_cells(visited@));
    }
    compute_formula_text_value(state, formula_text.as_str(), &next)
}

fn reference_value(state: &StateRuntimeModel, reference: &str, visited: &Vec<(i64, i64)>) -> (r:
    i64)
    ensures
        r == referenced_value(state@, reference@, visited_cells(visited@)),
    decreases unvisited(formula_positions(state@), visited_cells(visited@)), 1nat, 0nat,
{
    match parse_cell_reference(reference) {
        Some(p) => cell_value_at(state, p.0, p.1, visited),
        None => 0,
    }
}

fn sum_rows(
    state: &StateRuntimeModel,
    column: i64,
    from: i64,
    to: i64,
    visited: &Vec<(i64, i64)>,
) -> (r: i64)
    requires
        from <= to,
    ensures
        r == column_sum(state@, column, from as int, to as int, visited_cells(visited@)),
    decreases unvisited(formula_positions(state@), visited_cells(visited@)), 1nat, 0nat,
{
    let mut total: i64 = 0i64.wrapping_add(cell_value_at(state, column, from, visited));
    let mut current: i64 = from;
    proof {
        reveal_with_fuel(column_sum, 2);
    }
    while current < to
        invariant
            from <= current <= to,
            total == column_sum(
                state@,
                column,
                from as int,
                current as int,
                visited_cells(visited@),
            ),
        decreases to - current,
    {
        current = current + 1;
        let value: i64 = cell_value_at(state, column, current, visited);
        total = total.wrapping_add(value);
    }
    total
}

fn strip_call(expression: &str, name: &str) -> (r: Option<String>)
    ensures
        opt_text(r) == call_arguments(expression@, name@),
{
    match strip_prefix(expression, name) {
        Some(rest) => strip_last(rest.as_str(), ')'),
        None => None,
    }
}

/// The value of a formula, given the cells whose values are being computed.
pub fn compute_formula_text_value(
    state: &StateRuntimeModel,
    formula_text: &str,
    visited: &Vec<(i64, i64)>,
) -> (r: i64)
    ensures
        r == formula_value(state@, formula_text@, visited_cells(visited@)),
    decreases unvisited(formula_positions(state@), visited_cells(visited@)), 2nat, 0nat,
{
    let text = trim_text(formula_text);
    let rest = match strip_prefix(text.as_str(), "=") {
        None => {
            return parse_or_zero(text.as_str());
        },
        Some(rest) => rest,
    };
    let expression = trim_text(rest.as_str());
    if let Some(arguments) = strip_call(expression.as_str(), "add(") {
        return match split_once(arguments.as_str(), ',') {
            Some(parts) => {
                let left: i64 = reference_value(
                    state,
                    trim_text(parts.0.as_str()).as_str(),
                    visited,
                );
                let right: i64 = reference_value(
                    state,
                    trim_text(parts.1.as_str()).as_str(),
                    visited,
                );
                left.wrapping_add(right)
            },
            None => 0,
        };
    }
    if let Some(arguments) = strip_call(expression.as_str(), "sum(") {
        return match split_once(arguments.as_str(), ':') {
            Some(parts) => {
                let start = match parse_cell_reference(trim_text(parts.0.as_str()).as_str()) {
                    Some(p) => p,
                    None => {
                        return 0;
                    },
                };
                let end = match parse_cell_reference(trim_text(parts.1.as_str()).as_str()) {
                    Some(p) => p,
                    None => {
                        return 0;
                    },
                };
                if start.0 != end.0 {
                    0
                } else if start.1 <= end.1 {
                    sum_rows(state, start.0, start.1, end.1, visited)
                } else {
                    sum_rows(state, start.0, end.1, start.1, visited)
                }
            },
            None => 0,
        };
    }
    0
}

/// The text of the value of a cell.
pub fn cell_display_value_text(state: &StateRuntimeModel, column: i64, row: i64) -> (r: String)
    ensures
        r@ == int_text(cell_value(state@, column, row, Set::empty()) as int),
{
    let visited: Vec<(i64, i64)> = Vec::new();
    proof {
        assert(visited_cells(visited@) =~= Set::<(i64, i64)>::empty());
    }
    i64_text(cell_value_at(state, column, row, &visited))
}

/// The text of a field of an item, whether held by it or computed for it.
pub open spec fn field_text(
    state: StateView,
    item: ObjectListItemView,
    field: Seq<char>,
) -> Seq<char> {
    if field == "formula_text"@ {
        match position(item) {
            Some(p) => formula(state, p.0, p.1),
            None => Seq::empty(),
        }
    } else if field == "display_value"@ {
        match position(item) {
            Some(p) => int_text(cell_value(state, p.0, p.1, Set::empty()) as int),
            None => Seq::empty(),
        }
    } else if field == "input_text"@ {
        let editing = text_at(state.text_values, "editing_text"@);
        if editing.len() > 0 {
            editing
        } else {
            match position(item) {
                Some(p) => formula(state, p.0, p.1),
                None => Seq::empty(),
            }
        }
    } else {
        item_text(item, field)
    }
}

fn formula_of(state: &StateRuntimeModel, item: &ObjectListItem) -> (r: String)
    ensures
        r@ == match position(item@) {
            Some(p) => formula(state@, p.0, p.1),
            None => Seq::empty(),
        },
{
    match cell_position(item) {
        Some(p) => cell_formula_text(state, p.0, p.1),
        None => String::new(),
    }
}

/// The text of a field of an item, whether held by it or computed for it.
pub fn object_item_field_text_value(
    state: &StateRuntimeModel,
    item: &ObjectListItem,
    field: &str,
) -> (r: String)
    ensures
        r@ == field_text(state@, item@, field@),
{
    if text_eq(field, "formula_text") {
        formula_of(state, item)
    } else if text_eq(field, "display_value") {
        match cell_position(item) {
            Some(p) => cell_display_value_text(state, p.0, p.1),
            None => String::new(),
        }
    } else if text_eq(field, "input_text") {
        let editing = text_or_empty(&state.text_values, "editing_text");
        if editing.as_str().is_empty() {
            formula_of(state, item)
        } else {
            editing
        }
    } else {
        object_item_field_text(item, field)
    }
}

/// The number of a field of an item, whether held by it or computed for it.
pub open spec fn field_scalar(
    state: StateView,
    item: ObjectListItemView,
    field: Seq<char>,
) -> i64 {
    if field == "display_value"@ {
        match position(item) {
            Some(p) => cell_value(state, p.0, p.1, Set::empty()),
            None => 0,
        }
    } else {
        item_scalar(item, field)
    }
}

/// The number of a field of an item, whether held by it or computed for it.
pub fn item_field_scalar_value(
    state: &StateRuntimeModel,
    item: &ObjectListItem,
    field: &str,
) -> (r: i64)
    ensures
        r == field_scalar(state@, item@, field@),
{
    if text_eq(field, "display_value") {
        match cell_position(item) {
            Some(p) => {
                let visited: Vec<(i64, i64)> = Vec::new();
                proof {
                    assert(visited_cells(visited@) =~= Set::<(i64, i64)>::empty());
                }
                cell_value_at(state, p.0, p.1, &visited)
            },
            None => 0,
        }
    } else {
        object_item_field_scalar_value(item, field)
    }
}

/// Whether two states override the same cells in the same way.
pub open spec fn same_overrides(a: StateView, b: StateView) -> bool {
    list_at(a.object_lists, "overrides"@) == list_at(b.object_lists, "overrides"@)
}

/// The value of a cell depends on nothing but what cells are overridden with.
pub proof fn lemma_cell_depends_on_overrides(
    a: StateView,
    b: StateView,
    column: i64,
    row: i64,
    visited: Set<(i64, i64)>,
)
    requires
        same_overrides(a, b),
    ensures
        cell_value(a, column, row, visited) == cell_value(b, column, row, visited),
    decreases unvisited(formula_positions(a), visited), 0nat, 0nat,
{
    let text = formula(a, column, row);
    if !(visited.contains((column, row)) || text.len() == 0) {
        lemma_enter_cell(a, column, row, visited);
        lemma_formula_depends_on_overrides(a, b, text, visited.insert((column, row)));
    }
}

proof fn lemma_sum_depends_on_overrides(
    a: StateView,
    b: StateView,
    column: i64,
    from: int,
    to: int,
    visited: Set<(i64, i64)>,
)
    requires
        same_overrides(a, b),
    ensures
        column_sum(a, column, from, to, visited) == column_sum(b, column, from, to, visited),
    decreases
            unvisited(formula_positions(a), visited),
            1nat,
            (if from <= to {
                to - from + 1
            } else {
                0
            }) as nat,
{
    if from <= to {
        lemma_sum_depends_on_overrides(a, b, column, from, to - 1, visited);
        lemma_cell_depends_on_overrides(a, b, column, to as i64, visited);
    }
}

proof fn lemma_reference_depends_on_overrides(
    a: StateView,
    b: StateView,
    reference: Seq<char>,
    visited: Set<(i64, i64)>,
)
    requires
        same_overrides(a, b),
    ensures
        referenced_value(a, reference, visited) == referenced_value(b, reference, visited),
    decreases unvisited(formula_positions(a), visited), 1nat, 0nat,
{
    match cell_reference(reference) {
        Some(p) => {
            lemma_cell_depends_on_overrides(a, b, p.0, p.1, visited);
        },
        None => {},
    }
}

proof fn lemma_formula_depends_on_overrides(
    a: StateView,
    b: StateView,
    formula_text: Seq<char>,
    visited: Set<(i64, i64)>,
)
    requires
        same_overrides(a, b),
    ensures
        formula_value(a, formula_text, visited) == formula_value(b, formula_text, visited),
    decreases unvisited(formula_positions(a), visited), 2nat, 0nat,
{
    match without_prefix(trimmed(formula_text), "="@) {
        None => {},
        Some(rest) => {
            let expression = trimmed(rest);
            match (call_arguments(expression, "add("@), call_arguments(expression, "sum("@)) {
                (Some(arguments), _) => match split_at_first(arguments, ',') {
                    Some(parts) => {
                        lemma_reference_depends_on_overrides(a, b, trimmed(parts.0), visited);
                        lemma_reference_depends_on_overrides(a, b, trimmed(parts.1), visited);
                    },
                    None => {},
                },
                (None, Some(arguments)) => match split_at_first(arguments, ':') {
                    Some(parts) => match (
                        cell_reference(trimmed(parts.0)),
                        cell_reference(trimmed(parts.1)),
                    ) {
                        (Some(start), Some(end)) => {
                            let low = if start.1 <= end.1 {
                                start.1
                            } else {
                                end.1
                            };
                            let high = if start.1 <= end.1 {
                                end.1
                            } else {
                                start.1
                            };
                            lemma_sum_depends_on_overrides(
                                a,
                                b,
                                start.0,
                                low as int,
                                high as int,
                                visited,
                            );
                        },
                        _ => {},
                    },
                    None => {},
                },
                _ => {},
            }
        },
    }
}

/// A cell whose value is being computed counts as zero for those that need it.
pub proof fn lemma_cell_that_needs_itself(
    state: StateView,
    column: i64,
    row: i64,
    visited: Set<(i64, i64)>,
)
    requires
        visited.contains((column, row)),
    ensures
        cell_value(state, column, row, visited) == 0,
{
}

/// A number that was put into a cell last is the value of the cell, and no other cell has
/// another formula for it.
pub proof fn lemma_number_put_into_cell(
    before: StateView,
    after: StateView,
    item: ObjectListItemView,
    column: i64,
    row: i64,
    n: i64,
)
    requires
        list_at(after.object_lists, "overrides"@) == list_at(
            before.object_lists,
            "overrides"@,
        ).push(item),
        position(item) == Some((column, row)),
        item_text(item, "text"@) == int_text(n as int),
    ensures
        formula(after, column, row) == int_text(n as int),
        cell_value(after, column, row, Set::empty()) == n,
        forall|c: i64, r: i64|
            (c, r) != (column, row) ==> #[trigger] formula(after, c, r) == formula(before, c, r),
{
    let items = list_at(after.object_lists, "overrides"@);
    assert(items.last() == item);
    assert(items.drop_last() =~= list_at(before.object_lists, "overrides"@));
    lemma_int_text_trimmed(n as int);
    lemma_parse_reads_back(n);
    let text = int_text(n as int);
    reveal_strlit("=");
    assert(without_prefix(text, "="@) is None) by {
        if has_prefix(text, "="@) {
            assert(text.take(1)[0] == '=');
            assert(text[0] == '=');
        }
    }
    lemma_enter_cell(after, column, row, Set::empty());
}

} // verus!
