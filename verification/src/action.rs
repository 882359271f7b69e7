use vstd::prelude::*;
use vstd::string::StringExecFns;
use crate::model::ModelAction;

verus! {

/// A top-level event of the interactive session.
#[derive(Debug, Clone, PartialEq, Eq)]
pub enum Action {
    Tick,
    Render,
    Resize(u16, u16),
    Suspend,
    Resume,
    Quit,
    ClearScreen,
    Error(String),
    Help,
    User(UserEvent),
    ProcessCommand(String),
}

/// An intent raised by the user, before the model interprets it.
#[derive(Debug, Clone, PartialEq, Eq)]
pub enum UserEvent {
    IncrementThreshold(usize),
    DecrementThreshold(usize),
    SetMaxPoints(u16),
    SetScale(usize),
    LoadStudentList(String),
    ExportTo(String),
    SwitchTab(AppTab),
    Table(TableEvents),
    StudentResults(ExamResultEvents),
    IncrementPoints(usize),
    DecrementPoints(usize),
}

/// A navigation intent on a table.
#[derive(Debug, Clone, Copy, PartialEq, Eq, Structural)]
pub enum TableEvents {
    FirstRow,
    LastRow,
    NextRow,
    PrevRow,
}

/// An edit intent on the exam-results table.
#[derive(Debug, Clone, PartialEq, Eq)]
pub enum ExamResultEvents {
    AddStudent(String),
    RenameStudent(String),
}

/// An edit intent on the grade table.
#[derive(Debug, Clone, Copy, PartialEq, Eq, Structural)]
pub enum GradeTableEvent {
    IncreasePoints,
    DecreasePoints,
}

/// The mode the session is in: browsing, typing into the input line,
/// or done.
#[derive(Debug, Clone, Copy, PartialEq, Eq, Structural)]
pub enum AppMode {
    Normal,
    Insert,
    Exited,
}

/// A key press, abstracted from any terminal backend.
#[derive(Debug, Clone, Copy, PartialEq, Eq, Structural)]
pub enum InputKey {
    Char(char),
    Up,
    Down,
    Left,
    Right,
    Esc,
    Enter,
    PageUp,
    PageDown,
    FKey(u8),
}

/// The tabs of the interface.
#[derive(Debug, Clone, Copy, PartialEq, Eq, Structural)]
pub enum AppTab {
    Scale,
    Result,
    Report,
}

impl AppTab {
    /// The tab's title, with its switch key.
    pub fn to_string(&self) -> (r: String)
        ensures
            self is Scale ==> r@ == "Scale [1]"@,
            self is Result ==> r@ == "Result [2]"@,
            self is Report ==> r@ == "Report [3]"@,
    {
        match self {
            AppTab::Scale => String::from_str("Scale [1]"),
            AppTab::Result => String::from_str("Result [2]"),
            AppTab::Report => String::from_str("Report [3]"),
        }
    }
}

/// The tab a key press switches to, if any: the digit or function key
/// of the tab.
pub fn tab_for_key(key: InputKey) -> (r: Option<AppTab>)
    ensures
        r == match key {
            InputKey::Char('1') | InputKey::FKey(1u8) => Some(AppTab::Scale),
            InputKey::Char('2') | InputKey::FKey(2u8) => Some(AppTab::Result),
            InputKey::Char('3') | InputKey::FKey(3u8) => Some(AppTab::Report),
            _ => None::<AppTab>,
        },
{
    match key {
        InputKey::Char('1') | InputKey::FKey(1u8) => Some(AppTab::Scale),
        InputKey::Char('2') | InputKey::FKey(2u8) => Some(AppTab::Result),
        InputKey::Char('3') | InputKey::FKey(3u8) => Some(AppTab::Report),
        _ => None,
    }
}

/// The model intent a global key press raises, wherever the focus is:
/// the scale-kind keys and the half-point toggle.
pub fn global_action_for_key(key: InputKey) -> (r: Option<ModelAction>)
    ensures
        r == match key {
            InputKey::Char('I') => Some(ModelAction::SetScale(1usize)),
            InputKey::Char('T') => Some(ModelAction::SetScale(2usize)),
            InputKey::Char('L') => Some(ModelAction::SetScale(3usize)),
            InputKey::Char('C') => Some(ModelAction::SetScale(4usize)),
            InputKey::Char('.') => Some(ModelAction::ToggleHalfPoints),
            _ => None::<ModelAction>,
        },
{
    match key {
        InputKey::Char('I') => Some(ModelAction::SetScale(1)),
        InputKey::Char('T') => Some(ModelAction::SetScale(2)),
        InputKey::Char('L') => Some(ModelAction::SetScale(3)),
        InputKey::Char('C') => Some(ModelAction::SetScale(4)),
        InputKey::Char('.') => Some(ModelAction::ToggleHalfPoints),
        _ => None,
    }
}

} // verus!
