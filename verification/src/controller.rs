use vstd::prelude::*;
use crate::action::{InputKey, TableEvents};
use crate::model::ModelAction;

verus! {

/// The column of the scale table an edit intent is aimed at.
#[derive(Debug, Clone, Copy, PartialEq, Eq, Structural)]
pub enum ScaleColumn {
    Min,
    Max,
}

/// The selection cursor over the six rows of the scale table, with an
/// optional column cursor.  It translates key presses into intents for
/// the model and never touches the scale itself.
#[derive(Debug, Clone, PartialEq, Eq, Structural)]
pub struct ScaleTableController {
    pub selected: usize,
    pub column: Option<ScaleColumn>,
}

impl ScaleTableController {
    /// Well-formed controllers keep the cursor on one of the six rows.
    pub open spec fn wf(&self) -> bool {
        self.selected < 6
    }

    pub fn new() -> (r: ScaleTableController)
        ensures
            r.wf(),
            r.selected == 0,
            r.column is None,
    {
        ScaleTableController { selected: 0, column: None }
    }

    /// The grade number of the selected row, rows running from the
    /// best grade down.
    pub fn selected_grade(&self) -> (r: u8)
        requires
            self.wf(),
        ensures
            r == self.selected + 1,
    {
        (self.selected as u8) + 1
    }

    /// Moves the cursor one row down, wrapping below the last row.
    pub fn next_row(&mut self)
        requires
            old(self).wf(),
        ensures
            final(self).wf(),
            final(self).selected == (old(self).selected + 1) % 6,
            final(self).column == old(self).column,
    {
        self.selected = (self.selected + 1) % 6;
    }

    /// Moves the cursor one row up, wrapping above the first row.
    pub fn previous_row(&mut self)
        requires
            old(self).wf(),
        ensures
            final(self).wf(),
            final(self).selected == if old(self).selected == 0 {
                5int
            } else {
                old(self).selected - 1
            },
            final(self).column == old(self).column,
    {
        if self.selected == 0 {
            self.selected = 5;
        } else {
            self.selected = self.selected - 1;
        }
    }

    pub fn select_col(&mut self, col: Option<ScaleColumn>)
        ensures
            final(self).selected == old(self).selected,
            final(self).column == col,
    {
        self.column = col;
    }

    pub fn select_col_min(&mut self)
        ensures
            final(self).selected == old(self).selected,
            final(self).column == Some(ScaleColumn::Min),
    {
        self.column = Some(ScaleColumn::Min);
    }

    pub fn select_col_max(&mut self)
        ensures
            final(self).selected == old(self).selected,
            final(self).column == Some(ScaleColumn::Max),
    {
        self.column = Some(ScaleColumn::Max);
    }

    /// Applies a table navigation intent to the row cursor.
    pub fn apply_table_event(&mut self, event: TableEvents)
        requires
            old(self).wf(),
        ensures
            final(self).wf(),
            final(self).column == old(self).column,
            final(self).selected == match event {
                TableEvents::FirstRow => 0int,
                TableEvents::LastRow => 5int,
                TableEvents::NextRow => (old(self).selected + 1) % 6,
                TableEvents::PrevRow => if old(self).selected == 0 {
                    5int
                } else {
                    old(self).selected - 1
                },
            },
    {
        match event {
            TableEvents::FirstRow => {
                self.selected = 0;
            }
            TableEvents::LastRow => {
                self.selected = 5;
            }
            TableEvents::NextRow => {
                self.next_row();
            }
            TableEvents::PrevRow => {
                self.previous_row();
            }
        }
    }

    /// Routes one key press: navigation keys move the cursors, the
    /// plus and minus keys emit a threshold intent for the selected
    /// grade, the paging keys emit a maximum-points intent, and every
    /// other key does nothing.
    pub fn handle_event(&mut self, key: InputKey) -> (r: Option<ModelAction>)
        requires
            old(self).wf(),
        ensures
            final(self).wf(),
            match key {
                InputKey::Up | InputKey::Char('j') => r is None && final(self).column == old(self).column
                    && final(self).selected == (if old(self).selected == 0 {
                    5int
                } else {
                    old(self).selected - 1
                }),
                InputKey::Down | InputKey::Char('k') => r is None && final(self).column == old(self).column
                    && final(self).selected == (old(self).selected + 1) % 6,
                InputKey::Left | InputKey::Char('h') => r is None && *final(self)
                    == (ScaleTableController { column: Some(ScaleColumn::Min), ..*old(self) }),
                InputKey::Right | InputKey::Char('l') => r is None && *final(self)
                    == (ScaleTableController { column: Some(ScaleColumn::Max), ..*old(self) }),
                InputKey::Esc => r is None && *final(self) == (ScaleTableController {
                    column: None,
                    ..*old(self)
                }),
                InputKey::Char('+') => *final(self) == *old(self) && r == Some(
                    ModelAction::IncrementThreshold((old(self).selected + 1) as u8),
                ),
                InputKey::Char('-') => *final(self) == *old(self) && r == Some(
                    ModelAction::DecrementThreshold((old(self).selected + 1) as u8),
                ),
                InputKey::PageUp => *final(self) == *old(self) && r == Some(
                    ModelAction::IncrementMaxPoints,
                ),
                InputKey::PageDown => *final(self) == *old(self) && r == Some(
                    ModelAction::DecrementMaxPoints,
                ),
                _ => *final(self) == *old(self) && r is None,
            },
    {
        match key {
            InputKey::Up => {
                self.previous_row();
                None
            }
            InputKey::Char('j') => {
                self.previous_row();
                None
            }
            InputKey::Down => {
                self.next_row();
                None
            }
            InputKey::Char('k') => {
                self.next_row();
                None
            }
            InputKey::Left => {
                self.select_col_min();
                None
            }
            InputKey::Char('h') => {
                self.select_col_min();
                None
            }
            InputKey::Right => {
                self.select_col_max();
                None
            }
            InputKey::Char('l') => {
                self.select_col_max();
                None
            }
            InputKey::Esc => {
                self.select_col(None);
                None
            }
            InputKey::Char('+') => Some(ModelAction::IncrementThreshold(self.selected_grade())),
            InputKey::Char('-') => Some(ModelAction::DecrementThreshold(self.selected_grade())),
            InputKey::PageUp => Some(ModelAction::IncrementMaxPoints),
            InputKey::PageDown => Some(ModelAction::DecrementMaxPoints),
            _ => None,
        }
    }
}

/// The selection cursor over the exam-results rows; it holds the
/// student names in row order and translates key presses into
/// per-student intents.
#[derive(Debug, Clone)]
pub struct ResultsTableController {
    pub names: Vec<String>,
    pub selected: usize,
}

impl ResultsTableController {
    /// Well-formed controllers keep the cursor on a row, or at zero
    /// over an empty table.
    pub open spec fn wf(&self) -> bool {
        if self.names@.len() == 0 {
            self.selected == 0
        } else {
            self.selected < self.names@.len()
        }
    }

    pub fn new() -> (r: ResultsTableController)
        ensures
            r.wf(),
            r.names@.len() == 0,
            r.selected == 0,
    {
        ResultsTableController { names: Vec::new(), selected: 0 }
    }

    /// Replaces the row names; the cursor returns to the first row.
    pub fn set_names(&mut self, names: Vec<String>)
        ensures
            final(self).wf(),
            final(self).names == names,
            final(self).selected == 0,
    {
        self.names = names;
        self.selected = 0;
    }

    /// Moves the cursor one row down, stopping at the last row.
    pub fn next_row(&mut self)
        requires
            old(self).wf(),
        ensures
            final(self).wf(),
            final(self).names == old(self).names,
            final(self).selected == if old(self).selected + 1 < old(self).names@.len() {
                old(self).selected + 1
            } else {
                old(self).selected as int
            },
    {
        let n = self.names.len();
        if n > 0 && self.selected < n - 1 {
            self.selected = self.selected + 1;
        }
    }

    /// Moves the cursor one row up, stopping at the first row.
    pub fn previous_row(&mut self)
        requires
            old(self).wf(),
        ensures
            final(self).wf(),
            final(self).names == old(self).names,
            final(self).selected == if old(self).selected > 0 {
                old(self).selected - 1
            } else {
                0int
            },
    {
        if self.selected > 0 {
            self.selected = self.selected - 1;
        }
    }

    /// Routes one key press: the arrow keys move the cursor, the plus
    /// and minus keys emit a point intent for the selected student,
    /// and every other key does nothing.  Over an empty table nothing
    /// is emitted.
    pub fn handle_event(&mut self, key: InputKey) -> (r: Option<ModelAction>)
        requires
            old(self).wf(),
        ensures
            final(self).wf(),
            final(self).names == old(self).names,
            match key {
                InputKey::Up => r is None && final(self).selected == (if old(self).selected > 0 {
                    old(self).selected - 1
                } else {
                    0int
                }),
                InputKey::Down => r is None && final(self).selected == (if old(self).selected + 1
                    < old(self).names@.len() {
                    old(self).selected + 1
                } else {
                    old(self).selected as int
                }),
                InputKey::Char('+') => *final(self) == *old(self) && if old(self).names@.len() > 0 {
                    r matches Some(a) && (a matches ModelAction::IncrementStudentPoints(n)
                        && n@ == old(self).names@[old(self).selected as int]@)
                } else {
                    r is None
                },
                InputKey::Char('-') => *final(self) == *old(self) && if old(self).names@.len() > 0 {
                    r matches Some(a) && (a matches ModelAction::DecrementStudentPoints(n)
                        && n@ == old(self).names@[old(self).selected as int]@)
                } else {
                    r is None
                },
                _ => *final(self) == *old(self) && r is None,
            },
    {
        match key {
            InputKey::Up => {
                self.previous_row();
                None
            }
            InputKey::Down => {
                self.next_row();
                None
            }
            InputKey::Char('+') => {
                if self.names.len() > 0 {
                    Some(ModelAction::IncrementStudentPoints(self.names[self.selected].clone()))
                } else {
                    None
                }
            }
            InputKey::Char('-') => {
                if self.names.len() > 0 {
                    Some(ModelAction::DecrementStudentPoints(self.names[self.selected].clone()))
                } else {
                    None
                }
            }
            _ => None,
        }
    }
}

} // verus!
