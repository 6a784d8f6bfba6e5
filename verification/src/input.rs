//! The interaction state machine of the process table: column-sort mode and
//! fuzzy-search mode, driven by discrete key commands.
//!
//! Exactly one mode is active at a time.  Search mode remembers the sort
//! mode it was entered from and restores it on cancellation.  Commands not
//! recognized in the current mode are no-ops, not errors.

use vstd::prelude::*;

use crate::text::{pop_char, push_char};

verus! {

/// Which way a column orders the table.
#[derive(Debug, Clone, Copy, PartialEq, Eq, Structural)]
pub enum SortDirection {
    Ascending,
    Descending,
}

/// The opposite direction of `d`.
pub open spec fn reverse_of(d: SortDirection) -> SortDirection {
    match d {
        SortDirection::Ascending => SortDirection::Descending,
        SortDirection::Descending => SortDirection::Ascending,
    }
}

impl SortDirection {
    /// The opposite direction.
    pub fn reversed(&self) -> (r: SortDirection)
        ensures
            r == reverse_of(*self),
    {
        match self {
            SortDirection::Ascending => SortDirection::Descending,
            SortDirection::Descending => SortDirection::Ascending,
        }
    }
}

/// A column of the process table.
#[derive(Debug, Clone, Copy, PartialEq, Eq, Structural)]
pub enum Column {
    Pid,
    Name,
    Cpu,
    Memory,
    DiskRead,
    DiskWrite,
}

/// The direction a column starts sorting in when first selected: ascending
/// for the identity columns, descending for the usage columns, so the most
/// expensive entries come first.
pub open spec fn default_dir(c: Column) -> SortDirection {
    match c {
        Column::Pid | Column::Name => SortDirection::Ascending,
        Column::Cpu | Column::Memory | Column::DiskRead | Column::DiskWrite
            => SortDirection::Descending,
    }
}

impl Column {
    /// The direction this column starts sorting in when first selected.
    pub fn default_sort_direction(&self) -> (r: SortDirection)
        ensures
            r == default_dir(*self),
    {
        match self {
            Column::Pid | Column::Name => SortDirection::Ascending,
            Column::Cpu | Column::Memory | Column::DiskRead | Column::DiskWrite
                => SortDirection::Descending,
        }
    }
}

impl Default for Column {
    /// The column the table sorts by at startup.
    fn default() -> (r: Column)
        ensures
            r == Column::Cpu,
    {
        Column::Cpu
    }
}

/// A discrete input command, as the event source delivers it.
#[derive(Debug, Clone, Copy, PartialEq, Eq, Structural)]
pub enum KeyCommand {
    /// Stop the application; accepted in any state, before state-specific
    /// dispatch.
    Quit,
    /// Sort by the given column, or flip the direction if it already sorts.
    SelectColumn(Column),
    /// Switch from sort mode to search mode with empty text.
    EnterSearch,
    /// Append one character to the search text.
    Char(char),
    /// Erase the last character of the search text.
    Backspace,
    /// Clear the whole search text.
    WordErase,
    /// Leave search mode, restoring the remembered sort mode.
    Cancel,
}

/// The two interaction modes of the process table.
#[derive(Debug, Clone)]
pub enum InputState {
    /// Sort mode: the table orders by `column` in `direction`.
    ProcessesSortSelection { column: Column, direction: SortDirection },
    /// Search mode: the table ranks by fuzzy match against `search`; the
    /// saved fields remember the sort mode to restore on cancellation.
    ProcessesSearch {
        old_column: Option<Column>,
        old_direction: Option<SortDirection>,
        search: String,
    },
}

/// The mathematical value of an interaction state: the search text as a
/// character sequence.
pub enum InputModel {
    Sort { column: Column, direction: SortDirection },
    Search {
        saved_column: Option<Column>,
        saved_direction: Option<SortDirection>,
        text: Seq<char>,
    },
}

impl View for InputState {
    type V = InputModel;

    open spec fn view(&self) -> InputModel {
        match self {
            InputState::ProcessesSortSelection { column, direction } => InputModel::Sort {
                column: *column,
                direction: *direction,
            },
            InputState::ProcessesSearch { old_column, old_direction, search }
                => InputModel::Search {
                saved_column: *old_column,
                saved_direction: *old_direction,
                text: search@,
            },
        }
    }
}

/// The transition function: what one command does to an interaction state.
/// Commands not recognized in the current mode leave the state unchanged;
/// `Quit` never changes the state (the application flag is kept elsewhere).
pub open spec fn step(m: InputModel, cmd: KeyCommand) -> InputModel {
    match m {
        InputModel::Sort { column, direction } => match cmd {
            KeyCommand::SelectColumn(c) => if c == column {
                InputModel::Sort { column, direction: reverse_of(direction) }
            } else {
                InputModel::Sort { column: c, direction: default_dir(c) }
            },
            KeyCommand::EnterSearch => InputModel::Search {
                saved_column: Some(column),
                saved_direction: Some(direction),
                text: Seq::empty(),
            },
            _ => m,
        },
        InputModel::Search { saved_column, saved_direction, text } => match cmd {
            KeyCommand::Char(c) => InputModel::Search {
                saved_column,
                saved_direction,
                text: text.push(c),
            },
            KeyCommand::Backspace => InputModel::Search {
                saved_column,
                saved_direction,
                text: if text.len() == 0 {
                    text
                } else {
                    text.drop_last()
                },
            },
            KeyCommand::WordErase => InputModel::Search {
                saved_column,
                saved_direction,
                text: Seq::empty(),
            },
            KeyCommand::Cancel => {
                let column = match saved_column {
                    Some(c) => c,
                    None => Column::Cpu,
                };
                let direction = match saved_direction {
                    Some(d) => d,
                    None => default_dir(column),
                };
                InputModel::Sort { column, direction }
            },
            _ => m,
        },
    }
}

impl InputState {
    /// Apply one command and return the next state.
    pub fn apply(self, cmd: KeyCommand) -> (r: InputState)
        ensures
            r@ == step(self@, cmd),
    {
        match self {
            InputState::ProcessesSortSelection { column, direction } => match cmd {
                KeyCommand::SelectColumn(c) => {
                    if c == column {
                        InputState::ProcessesSortSelection {
                            column,
                            direction: direction.reversed(),
                        }
                    } else {
                        InputState::ProcessesSortSelection {
                            column: c,
                            direction: c.default_sort_direction(),
                        }
                    }
                },
                KeyCommand::EnterSearch => InputState::ProcessesSearch {
                    old_column: Some(column),
                    old_direction: Some(direction),
                    search: String::new(),
                },
                _ => InputState::ProcessesSortSelection { column, direction },
            },
            InputState::ProcessesSearch { old_column, old_direction, mut search } => match cmd {
                KeyCommand::Char(c) => {
                    push_char(&mut search, c);
                    InputState::ProcessesSearch { old_column, old_direction, search }
                },
                KeyCommand::Backspace => {
                    let _ = pop_char(&mut search);
                    InputState::ProcessesSearch { old_column, old_direction, search }
                },
                KeyCommand::WordErase => InputState::ProcessesSearch {
                    old_column,
                    old_direction,
                    search: String::new(),
                },
                KeyCommand::Cancel => {
                    let column = match old_column {
                        Some(c) => c,
                        None => Column::Cpu,
                    };
                    let direction = match old_direction {
                        Some(d) => d,
                        None => column.default_sort_direction(),
                    };
                    InputState::ProcessesSortSelection { column, direction }
                },
                _ => InputState::ProcessesSearch { old_column, old_direction, search },
            },
        }
    }
}

impl Default for InputState {
    /// The initial state: sort mode on the default column, in that column's
    /// default direction.
    fn default() -> (r: InputState)
        ensures
            r@ == (InputModel::Sort {
                column: Column::Cpu,
                direction: SortDirection::Descending,
            }),
    {
        InputState::ProcessesSortSelection {
            column: Column::Cpu,
            direction: SortDirection::Descending,
        }
    }
}

/// Whether `cmd` only edits search text: appending, erasing one character,
/// or clearing the line.
pub open spec fn is_text_edit(cmd: KeyCommand) -> bool {
    cmd is Char || cmd is Backspace || cmd is WordErase
}

/// The state after applying a whole sequence of commands, first first.
pub open spec fn step_all(m: InputModel, cmds: Seq<KeyCommand>) -> InputModel
    decreases cmds.len(),
{
    if cmds.len() == 0 {
        m
    } else {
        step_all(step(m, cmds[0]), cmds.drop_first())
    }
}

/// The saved sort mode a search state would restore; nothing in sort mode.
pub open spec fn saved_of(m: InputModel) -> (Option<Column>, Option<SortDirection>) {
    match m {
        InputModel::Sort { .. } => (None, None),
        InputModel::Search { saved_column, saved_direction, .. }
            => (saved_column, saved_direction),
    }
}

/// Text edits keep a search state in search mode and never touch the saved
/// sort mode.
proof fn lemma_edits_keep_saved(m: InputModel, edits: Seq<KeyCommand>)
    requires
        (m is Search),
        forall|i: int| 0 <= i < edits.len() ==> is_text_edit(#[trigger] edits[i]),
    ensures
        (step_all(m, edits) is Search),
        saved_of(step_all(m, edits)) == saved_of(m),
    decreases edits.len(),
{
    if edits.len() > 0 {
        lemma_edits_keep_saved(step(m, edits[0]), edits.drop_first());
    }
}

/// Search round trip: entering search from any sort mode, typing and erasing
/// any amount, then cancelling restores exactly the sort mode left behind.
pub proof fn lemma_search_round_trip(
    column: Column,
    direction: SortDirection,
    edits: Seq<KeyCommand>,
)
    requires
        forall|i: int| 0 <= i < edits.len() ==> is_text_edit(#[trigger] edits[i]),
    ensures
        step(
            step_all(
                step(InputModel::Sort { column, direction }, KeyCommand::EnterSearch),
                edits,
            ),
            KeyCommand::Cancel,
        ) == (InputModel::Sort { column, direction }),
{
    let entered = step(InputModel::Sort { column, direction }, KeyCommand::EnterSearch);
    lemma_edits_keep_saved(entered, edits);
}

} // verus!
