//! Spreadsheet cells.
use boon::cells::{
    cell_display_value_text, cell_formula_text, default_cell_formula_text,
    item_field_scalar_value, object_item_field_text_value, parse_cell_reference,
};
use boon::semantic_ir::{ObjectListItem, StateRuntimeModel};
use boon::text_map::TextMap;

fn cell(id: u64, column: i64, row: i64) -> ObjectListItem {
    let mut scalar_fields = TextMap::new();
    scalar_fields.insert("column".to_string(), column);
    scalar_fields.insert("row".to_string(), row);
    ObjectListItem {
        id,
        title: String::new(),
        completed: false,
        text_fields: TextMap::new(),
        bool_fields: TextMap::new(),
        scalar_fields,
        object_lists: TextMap::new(),
        nested_item_actions: TextMap::new(),
    }
}

fn sheet(overrides: &[(i64, i64, &str)]) -> StateRuntimeModel {
    let mut items = Vec::new();
    for (column, row, text) in overrides {
        let mut item = cell(items.len() as u64 + 1, *column, *row);
        item.text_fields.insert("text".to_string(), text.to_string());
        items.push(item);
    }
    let mut object_lists = TextMap::new();
    object_lists.insert("overrides".to_string(), items);
    StateRuntimeModel {
        scalar_values: TextMap::new(),
        text_values: TextMap::new(),
        text_lists: TextMap::new(),
        object_lists,
        input_texts: TextMap::new(),
        derived_scalars: Vec::new(),
    }
}

fn shown(state: &StateRuntimeModel, reference: &str) -> String {
    let (column, row) = parse_cell_reference(reference).expect("a reference");
    cell_display_value_text(state, column, row)
}

#[test]
fn cells_start_with_their_formulas() {
    assert_eq!(default_cell_formula_text(1, 1), "5");
    assert_eq!(default_cell_formula_text(1, 2), "10");
    assert_eq!(default_cell_formula_text(1, 3), "15");
    assert_eq!(default_cell_formula_text(2, 1), "=add(A1, A2)");
    assert_eq!(default_cell_formula_text(3, 1), "=sum(A1:A3)");
    assert_eq!(default_cell_formula_text(4, 1), "");
    let state = sheet(&[]);
    assert_eq!(shown(&state, "A1"), "5");
    assert_eq!(shown(&state, "B1"), "15");
    assert_eq!(shown(&state, "C1"), "30");
    assert_eq!(shown(&state, "A2"), "10");
    assert_eq!(shown(&state, "Z100"), "0");
}

#[test]
fn an_override_recomputes_the_cells_that_use_it() {
    let state = sheet(&[(1, 1, "7")]);
    assert_eq!(shown(&state, "A1"), "7");
    assert_eq!(shown(&state, "B1"), "17");
    assert_eq!(shown(&state, "C1"), "32");
}

#[test]
fn an_override_can_be_a_formula() {
    let state = sheet(&[(2, 1, "=add(A2, A3)")]);
    assert_eq!(shown(&state, "B1"), "25");
    assert_eq!(cell_formula_text(&state, 2, 1), "=add(A2, A3)");
}

#[test]
fn the_last_override_counts_and_an_empty_one_is_none() {
    assert_eq!(shown(&sheet(&[(1, 1, "7"), (1, 1, "8")]), "A1"), "8");
    assert_eq!(shown(&sheet(&[(1, 1, "7"), (1, 1, "")]), "A1"), "5");
}

#[test]
fn a_sum_can_be_given_from_below_and_not_across_columns() {
    assert_eq!(shown(&sheet(&[(4, 1, "=sum(A3:A1)")]), "D1"), "30");
    assert_eq!(shown(&sheet(&[(4, 1, "=sum(A1:B3)")]), "D1"), "0");
    assert_eq!(shown(&sheet(&[(4, 1, "=sum(A1)")]), "D1"), "0");
    assert_eq!(shown(&sheet(&[(4, 1, "=sub(A1, A2)")]), "D1"), "0");
}

#[test]
fn a_cell_that_needs_itself_counts_as_zero_there() {
    assert_eq!(shown(&sheet(&[(1, 1, "=add(A1, A2)")]), "A1"), "10");
    assert_eq!(shown(&sheet(&[(1, 1, "=add(A2, B1)")]), "A1"), "20");
}

#[test]
fn references_are_a_letter_and_a_number() {
    assert_eq!(parse_cell_reference("A1"), Some((1, 1)));
    assert_eq!(parse_cell_reference("Z100"), Some((26, 100)));
    assert_eq!(parse_cell_reference("a1"), None);
    assert_eq!(parse_cell_reference("A"), None);
    assert_eq!(parse_cell_reference(""), None);
    assert_eq!(parse_cell_reference("11"), None);
}

#[test]
fn fields_of_cells_are_computed() {
    let mut state = sheet(&[(1, 1, "7")]);
    let b1 = cell(1, 2, 1);
    assert_eq!(object_item_field_text_value(&state, &b1, "formula_text"), "=add(A1, A2)");
    assert_eq!(object_item_field_text_value(&state, &b1, "display_value"), "17");
    assert_eq!(item_field_scalar_value(&state, &b1, "display_value"), 17);
    assert_eq!(object_item_field_text_value(&state, &b1, "input_text"), "=add(A1, A2)");
    state.text_values.insert("editing_text".to_string(), "=A".to_string());
    assert_eq!(object_item_field_text_value(&state, &b1, "input_text"), "=A");
    assert_eq!(item_field_scalar_value(&state, &b1, "row"), 1);
}
