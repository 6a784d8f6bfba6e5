use jwtop::input::{Column, InputState, KeyCommand, SortDirection};

fn sort_state(state: &InputState) -> (Column, SortDirection) {
    match state {
        InputState::ProcessesSortSelection { column, direction } => (*column, *direction),
        InputState::ProcessesSearch { .. } => panic!("expected sort mode"),
    }
}

fn search_text(state: &InputState) -> String {
    match state {
        InputState::ProcessesSearch { search, .. } => search.clone(),
        InputState::ProcessesSortSelection { .. } => panic!("expected search mode"),
    }
}

#[test]
fn default_is_cpu_descending() {
    let state = InputState::default();
    assert_eq!(sort_state(&state), (Column::Cpu, SortDirection::Descending));
}

#[test]
fn selecting_same_column_flips_direction() {
    let state = InputState::default();
    let state = state.apply(KeyCommand::SelectColumn(Column::Cpu));
    assert_eq!(sort_state(&state), (Column::Cpu, SortDirection::Ascending));
}

#[test]
fn selecting_other_column_takes_its_default_direction() {
    let state = InputState::default();
    let state = state.apply(KeyCommand::SelectColumn(Column::Pid));
    assert_eq!(sort_state(&state), (Column::Pid, SortDirection::Ascending));
    let state = state.apply(KeyCommand::SelectColumn(Column::Memory));
    assert_eq!(sort_state(&state), (Column::Memory, SortDirection::Descending));
}

#[test]
fn default_directions_per_column() {
    assert_eq!(Column::Pid.default_sort_direction(), SortDirection::Ascending);
    assert_eq!(Column::Name.default_sort_direction(), SortDirection::Ascending);
    assert_eq!(Column::Cpu.default_sort_direction(), SortDirection::Descending);
    assert_eq!(Column::Memory.default_sort_direction(), SortDirection::Descending);
    assert_eq!(Column::DiskRead.default_sort_direction(), SortDirection::Descending);
    assert_eq!(Column::DiskWrite.default_sort_direction(), SortDirection::Descending);
}

#[test]
fn reversed_flips() {
    assert_eq!(SortDirection::Ascending.reversed(), SortDirection::Descending);
    assert_eq!(SortDirection::Descending.reversed(), SortDirection::Ascending);
}

#[test]
fn search_round_trip_restores_saved_sort_mode() {
    let state = InputState::ProcessesSortSelection {
        column: Column::Name,
        direction: SortDirection::Ascending,
    };
    let state = state.apply(KeyCommand::EnterSearch);
    let state = state.apply(KeyCommand::Char('a'));
    let state = state.apply(KeyCommand::Char('b'));
    let state = state.apply(KeyCommand::Char('c'));
    assert_eq!(search_text(&state), "abc");
    let state = state.apply(KeyCommand::Cancel);
    // Exactly the saved mode comes back, not the global default.
    assert_eq!(sort_state(&state), (Column::Name, SortDirection::Ascending));
}

#[test]
fn backspace_erases_one_and_is_a_no_op_on_empty() {
    let state = InputState::default().apply(KeyCommand::EnterSearch);
    let state = state.apply(KeyCommand::Char('h'));
    let state = state.apply(KeyCommand::Char('i'));
    let state = state.apply(KeyCommand::Backspace);
    assert_eq!(search_text(&state), "h");
    let state = state.apply(KeyCommand::Backspace);
    let state = state.apply(KeyCommand::Backspace);
    assert_eq!(search_text(&state), "");
}

#[test]
fn word_erase_clears_the_line() {
    let state = InputState::default().apply(KeyCommand::EnterSearch);
    let state = state.apply(KeyCommand::Char('t'));
    let state = state.apply(KeyCommand::Char('o'));
    let state = state.apply(KeyCommand::Char('p'));
    let state = state.apply(KeyCommand::WordErase);
    assert_eq!(search_text(&state), "");
}

#[test]
fn unrecognized_commands_are_no_ops() {
    // Typing is ignored in sort mode.
    let state = InputState::default().apply(KeyCommand::Char('x'));
    assert_eq!(sort_state(&state), (Column::Cpu, SortDirection::Descending));
    // Column selection is ignored in search mode.
    let state = InputState::default().apply(KeyCommand::EnterSearch);
    let state = state.apply(KeyCommand::SelectColumn(Column::Pid));
    assert_eq!(search_text(&state), "");
    let state = state.apply(KeyCommand::Cancel);
    assert_eq!(sort_state(&state), (Column::Cpu, SortDirection::Descending));
}
