//! What the formulas of cells mean.
use crate::cells::{
    call_arguments, cell_reference, cell_value, column_sum, field_scalar, field_text, formula,
    formula_value, lemma_enter_cell,
};
use crate::semantic_view::ObjectListItemView;
use crate::text::{
    has_prefix, int_text, is_digit, is_white_space, lemma_int_text_trimmed,
    lemma_nat_text_is_digits, lemma_parse_reads_back, nat_text, parsed_i64, split_at_first,
    trimmed, trimmed_start, without_prefix,
};
use crate::values::{StateView, item_scalar, item_text};
use vstd::prelude::*;

verus! {

/// How a formula names a cell: by the letter of its column and the number of its row.
pub open spec fn cell_name(letter: char, row: i64) -> Seq<char> {
    seq![letter] + int_text(row as int)
}

/// The formula that adds up the cells between two others.
pub open spec fn sum_text(from: Seq<char>, to: Seq<char>) -> Seq<char> {
    "=sum("@ + from + ":"@ + to + ")"@
}

/// The formula that adds two cells.
pub open spec fn add_text(first: Seq<char>, second: Seq<char>) -> Seq<char> {
    "=add("@ + first + ","@ + second + ")"@
}

proof fn lemma_untrimmed(s: Seq<char>)
    requires
        s.len() > 0,
        !is_white_space(s[0]),
        !is_white_space(s.last()),
    ensures
        trimmed(s) == s,
{
}

proof fn lemma_cell_name(letter: char, row: i64)
    requires
        'A' <= letter <= 'Z',
    ensures
        cell_reference(cell_name(letter, row)) == Some(
            ((letter as int - 64) as i64, row),
        ),
        trimmed(cell_name(letter, row)) == cell_name(letter, row),
        !cell_name(letter, row).contains(','),
        !cell_name(letter, row).contains(':'),
{
    let number = int_text(row as int);
    let name = cell_name(letter, row);
    lemma_parse_reads_back(row);
    lemma_int_text_trimmed(row as int);
    assert(name.skip(1) =~= number);
    assert(name[0] == letter);
    let digits = if row < 0 {
        nat_text((-row) as nat)
    } else {
        nat_text(row as nat)
    };
    lemma_nat_text_is_digits(
        if row < 0 {
            (-row) as nat
        } else {
            row as nat
        },
    );
    assert(number.last() == digits.last());
    assert(is_digit(digits[digits.len() - 1]));
    assert(name.last() == number.last());
    lemma_untrimmed(name);
    assert forall|i: int| 0 <= i < name.len() implies name[i] != ',' && name[i] != ':' by {
        if i > 0 {
            assert(name[i] == number[i - 1]);
            if row < 0 {
                if i > 1 {
                    assert(number[i - 1] == digits[i - 2]);
                    assert(is_digit(digits[i - 2]));
                }
            } else {
                assert(is_digit(digits[i - 1]));
            }
        }
    }
}

/// A text is split at the first of the separators that it holds.
pub proof fn lemma_split_there(a: Seq<char>, c: char, b: Seq<char>)
    requires
        !a.contains(c),
    ensures
        split_at_first(a + seq![c] + b, c) == Some((a, b)),
    decreases a.len(),
{
    let s = a + seq![c] + b;
    if a.len() == 0 {
        assert(s.skip(1) =~= b);
        assert(s[0] == c);
    } else {
        let rest = a.skip(1);
        assert(!rest.contains(c)) by {
            if rest.contains(c) {
                let i = choose|i: int| 0 <= i < rest.len() && rest[i] == c;
                assert(a[i + 1] == c);
            }
        }
        lemma_split_there(rest, c, b);
        assert(a.contains(a[0]));
        assert(s[0] == a[0]);
        assert(s.skip(1) =~= rest + seq![c] + b);
        assert(seq![a[0]] + rest =~= a);
    }
}

proof fn lemma_call_read(name: Seq<char>, arguments: Seq<char>)
    requires
        name == "sum("@ || name == "add("@,
    ensures
        ({
            let text = "="@ + name + arguments + ")"@;
            let expression = name + arguments + ")"@;
            &&& trimmed(text) == text
            &&& without_prefix(text, "="@) == Some(expression)
            &&& trimmed(expression) == expression
            &&& call_arguments(expression, name) == Some(arguments)
            &&& name == "sum("@ ==> call_arguments(expression, "add("@) is None
        }),
{
    reveal_strlit("=");
    reveal_strlit("sum(");
    reveal_strlit("add(");
    reveal_strlit(")");
    let text = "="@ + name + arguments + ")"@;
    let expression = name + arguments + ")"@;
    assert(text[0] == '=');
    assert(text.last() == ')');
    lemma_untrimmed(text);
    assert(text.take(1) =~= "="@);
    assert(text.skip(1) =~= expression);
    assert(expression[0] == name[0]);
    assert(expression.last() == ')');
    lemma_untrimmed(expression);
    assert(expression.take(4) =~= name);
    assert(expression.skip(4) =~= arguments + ")"@);
    assert((arguments + ")"@).last() == ')');
    assert((arguments + ")"@).drop_last() =~= arguments);
    if name == "sum("@ {
        assert(expression[0] == 's');
        assert("add("@[0] == 'a');
        if has_prefix(expression, "add("@) {
            assert(expression.take(4)[0] == expression[0]);
        }
    }
}

proof fn lemma_sum_read(a: Seq<char>, b: Seq<char>)
    requires
        !a.contains(':'),
    ensures
        ({
            let expression = "sum("@ + (a + ":"@ + b) + ")"@;
            &&& trimmed(sum_text(a, b)) == sum_text(a, b)
            &&& without_prefix(sum_text(a, b), "="@) == Some(expression)
            &&& trimmed(expression) == expression
            &&& call_arguments(expression, "add("@) is None
            &&& call_arguments(expression, "sum("@) == Some(a + ":"@ + b)
            &&& split_at_first(a + ":"@ + b, ':') == Some((a, b))
        }),
{
    reveal_strlit("=");
    reveal_strlit("sum(");
    reveal_strlit("=sum(");
    reveal_strlit(":");
    assert(":"@ =~= seq![':']);
    assert("=sum("@ =~= "="@ + "sum("@);
    assert(sum_text(a, b) =~= "="@ + "sum("@ + (a + ":"@ + b) + ")"@);
    lemma_call_read("sum("@, a + ":"@ + b);
    lemma_split_there(a, ':', b);
}

proof fn lemma_add_read(a: Seq<char>, b: Seq<char>)
    requires
        !a.contains(','),
    ensures
        ({
            let expression = "add("@ + (a + ","@ + b) + ")"@;
            &&& trimmed(add_text(a, b)) == add_text(a, b)
            &&& without_prefix(add_text(a, b), "="@) == Some(expression)
            &&& trimmed(expression) == expression
            &&& call_arguments(expression, "add("@) == Some(a + ","@ + b)
            &&& split_at_first(a + ","@ + b, ',') == Some((a, b))
        }),
{
    reveal_strlit("=");
    reveal_strlit("add(");
    reveal_strlit("=add(");
    reveal_strlit(",");
    assert(","@ =~= seq![',']);
    assert("=add("@ =~= "="@ + "add("@);
    assert(add_text(a, b) =~= "="@ + "add("@ + (a + ","@ + b) + ")"@);
    lemma_call_read("add("@, a + ","@ + b);
    lemma_split_there(a, ',', b);
}

/// A sum over one cell has the value of that cell, whatever its column; a further row adds the
/// value of the cell of that column and row; and a sum can be given from below.
pub proof fn lemma_sum_over_rows(
    state: StateView,
    letter: char,
    m: i64,
    n: i64,
    visited: Set<(i64, i64)>,
)
    requires
        'A' <= letter <= 'Z',
        m <= n,
    ensures
        ({
            let column = (letter as int - 64) as i64;
            let sum = |from: i64, to: i64|
                formula_value(
                    state,
                    sum_text(cell_name(letter, from), cell_name(letter, to)),
                    visited,
                );
            &&& sum(m, m) == cell_value(state, column, m, visited)
            &&& m < n ==> sum(m, n) == sum(m, (n - 1) as i64).wrapping_add(
                cell_value(state, column, n, visited),
            )
            &&& sum(n, m) == sum(m, n)
        }),
{
    let column = (letter as int - 64) as i64;
    lemma_cell_name(letter, m);
    lemma_cell_name(letter, n);
    lemma_sum_read(cell_name(letter, m), cell_name(letter, m));
    lemma_sum_read(cell_name(letter, m), cell_name(letter, n));
    lemma_sum_read(cell_name(letter, n), cell_name(letter, m));
    reveal_with_fuel(column_sum, 2);
    if m < n {
        let before = (n - 1) as i64;
        lemma_cell_name(letter, before);
        lemma_sum_read(cell_name(letter, m), cell_name(letter, before));
    }
}

/// A sum over cells of different columns counts as zero.
pub proof fn lemma_sum_over_columns(
    state: StateView,
    a: char,
    b: char,
    m: i64,
    n: i64,
    visited: Set<(i64, i64)>,
)
    requires
        'A' <= a <= 'Z',
        'A' <= b <= 'Z',
        a != b,
    ensures
        formula_value(state, sum_text(cell_name(a, m), cell_name(b, n)), visited) == 0,
{
    lemma_cell_name(a, m);
    lemma_cell_name(b, n);
    lemma_sum_read(cell_name(a, m), cell_name(b, n));
}

/// `=add(X,Y)` has the value of the one cell and that of the other added up, each with its own
/// column and row; a blank before the second one makes no difference.
pub proof fn lemma_add_of_two(
    state: StateView,
    a: char,
    m: i64,
    b: char,
    n: i64,
    visited: Set<(i64, i64)>,
)
    requires
        'A' <= a <= 'Z',
        'A' <= b <= 'Z',
    ensures
        ({
            let first = cell_value(state, (a as int - 64) as i64, m, visited);
            let second = cell_value(state, (b as int - 64) as i64, n, visited);
            let added = formula_value(state, add_text(cell_name(a, m), cell_name(b, n)), visited);
            let spaced = formula_value(
                state,
                add_text(cell_name(a, m), seq![' '] + cell_name(b, n)),
                visited,
            );
            &&& added == first.wrapping_add(second)
            &&& spaced == added
        }),
{
    lemma_cell_name(a, m);
    lemma_cell_name(b, n);
    lemma_add_read(cell_name(a, m), cell_name(b, n));
    let spaced = seq![' '] + cell_name(b, n);
    lemma_add_read(cell_name(a, m), spaced);
    assert(spaced.skip(1) =~= cell_name(b, n));
    assert(spaced[0] == ' ');
    reveal_with_fuel(trimmed_start, 2);
}

/// A number as a formula has itself as its value, with blanks around it or without; a text that is
/// neither a number nor a formula counts as zero.
pub proof fn lemma_plain_formula(
    state: StateView,
    n: i64,
    text: Seq<char>,
    visited: Set<(i64, i64)>,
)
    ensures
        formula_value(state, int_text(n as int), visited) == n,
        !has_prefix(trimmed(text), "="@) && parsed_i64(trimmed(text)) is None ==> formula_value(
            state,
            text,
            visited,
        ) == 0,
{
    lemma_int_text_trimmed(n as int);
    lemma_parse_reads_back(n);
    let number = int_text(n as int);
    reveal_strlit("=");
    assert(without_prefix(number, "="@) is None) by {
        if has_prefix(number, "="@) {
            assert(number.take(1)[0] == '=');
            assert(number[0] == '=');
        }
    }
}

/// The value of a cell is that of its formula, computed while the cell itself counts as visited.
/// A cell without a formula counts as zero, and so does one that is being computed already.
pub proof fn lemma_cell_has_the_value_of_its_formula(
    state: StateView,
    column: i64,
    row: i64,
    visited: Set<(i64, i64)>,
)
    ensures
        visited.contains((column, row)) ==> cell_value(state, column, row, visited) == 0,
        formula(state, column, row).len() == 0 ==> cell_value(state, column, row, visited) == 0,
        !visited.contains((column, row)) && formula(state, column, row).len() > 0 ==> cell_value(
            state,
            column,
            row,
            visited,
        ) == formula_value(state, formula(state, column, row), visited.insert((column, row))),
{
    if !visited.contains((column, row)) && formula(state, column, row).len() > 0 {
        lemma_enter_cell(state, column, row, visited);
    }
}

/// The formula of a cell is the text that was put into it last. An empty one brings back the
/// formula that the cell starts with, and other cells keep theirs.
pub proof fn lemma_text_put_into_cell(
    before: StateView,
    after: StateView,
    item: ObjectListItemView,
    column: i64,
    row: i64,
    text: Seq<char>,
)
    requires
        before.object_lists.contains_key("overrides"@),
        after.object_lists.contains_key("overrides"@),
        after.object_lists["overrides"@] == before.object_lists["overrides"@].push(item),
        item.scalar_fields.contains_key("column"@),
        item.scalar_fields.contains_key("row"@),
        item.scalar_fields["column"@] == column,
        item.scalar_fields["row"@] == row,
        !item.scalar_fields.contains_key("text"@),
        item.text_fields.contains_key("text"@),
        item.text_fields["text"@] == text,
    ensures
        text.len() > 0 ==> formula(after, column, row) == text,
        text.len() == 0 && column == 1 && row == 1 ==> formula(after, column, row) == "5"@,
        text.len() == 0 && column == 1 && row == 2 ==> formula(after, column, row) == "10"@,
        text.len() == 0 && column == 1 && row == 3 ==> formula(after, column, row) == "15"@,
        text.len() == 0 && column == 2 && row == 1 ==> formula(after, column, row)
            == "=add(A1, A2)"@,
        text.len() == 0 && column == 3 && row == 1 ==> formula(after, column, row)
            == "=sum(A1:A3)"@,
        text.len() == 0 && !(column == 1 && 1 <= row <= 3) && !(2 <= column <= 3 && row == 1)
            ==> formula(after, column, row).len() == 0,
        forall|c: i64, r: i64|
            (c, r) != (column, row) ==> #[trigger] formula(after, c, r) == formula(before, c, r),
{
    let items = after.object_lists["overrides"@];
    assert(items.last() == item);
    assert(items.drop_last() =~= before.object_lists["overrides"@]);
    reveal_strlit("title");
    reveal_strlit("completed");
    reveal_strlit("text");
    assert("text"@.len() != "title"@.len());
    assert("text"@.len() != "completed"@.len());
}

/// Without anything put into it, a cell has the formula that it starts with.
pub proof fn lemma_first_formulas(state: StateView, column: i64, row: i64)
    requires
        !state.object_lists.contains_key("overrides"@),
    ensures
        formula(state, 1, 1) == "5"@,
        formula(state, 1, 2) == "10"@,
        formula(state, 1, 3) == "15"@,
        formula(state, 2, 1) == "=add(A1, A2)"@,
        formula(state, 3, 1) == "=sum(A1:A3)"@,
        !(column == 1 && 1 <= row <= 3) && !(2 <= column <= 3 && row == 1) ==> formula(
            state,
            column,
            row,
        ).len() == 0,
{
}

/// The fields that are computed for a cell: its formula, the text of its value, and what is shown
/// while it is edited. Other fields are those of the item, and what is no cell has no formula.
pub proof fn lemma_fields_of_cells(state: StateView, item: ObjectListItemView, field: Seq<char>)
    ensures
        ({
            let placed = item.scalar_fields.contains_key("column"@)
                && item.scalar_fields.contains_key("row"@);
            let column = item.scalar_fields["column"@];
            let row = item.scalar_fields["row"@];
            let editing = state.text_values.contains_key("editing_text"@)
                && state.text_values["editing_text"@].len() > 0;
            let nothing = Seq::<char>::empty();
            &&& placed ==> {
                &&& field_text(state, item, "formula_text"@) == formula(state, column, row)
                &&& field_text(state, item, "display_value"@) == int_text(
                    cell_value(state, column, row, Set::empty()) as int,
                )
                &&& field_scalar(state, item, "display_value"@) == cell_value(
                    state,
                    column,
                    row,
                    Set::empty(),
                )
                &&& !editing ==> field_text(state, item, "input_text"@) == formula(
                    state,
                    column,
                    row,
                )
            }
            &&& editing ==> field_text(state, item, "input_text"@)
                == state.text_values["editing_text"@]
            &&& !placed ==> {
                &&& field_text(state, item, "formula_text"@) == nothing
                &&& field_text(state, item, "display_value"@) == nothing
                &&& field_scalar(state, item, "display_value"@) == 0
                &&& !editing ==> field_text(state, item, "input_text"@) == nothing
            }
            &&& field != "formula_text"@ && field != "display_value"@ && field != "input_text"@
                ==> field_text(state, item, field) == item_text(item, field)
            &&& field != "display_value"@ ==> field_scalar(state, item, field) == item_scalar(
                item,
                field,
            )
        }),
{
    reveal_strlit("formula_text");
    reveal_strlit("display_value");
    reveal_strlit("input_text");
    assert("formula_text"@.len() != "display_value"@.len());
    assert("formula_text"@.len() != "input_text"@.len());
    assert("display_value"@.len() != "input_text"@.len());
}

} // verus!
