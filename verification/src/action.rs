use vstd::prelude::*;

verus! {

/// One unit of parsed, executable intent. An action is self-contained: it
/// carries no reference to surrounding session state.
#[derive(Debug, Clone, PartialEq, Eq)]
pub enum Action {
    Show,
    ShowCurrentLine,
    MoveUp,
    MoveDown,
    MoveLeft,
    MoveRight,
    MoveToBeginning,
    MoveToEnd,
    MoveTo { line: usize, column: usize },
    Insert(String),
    InsertLineBelow,
    InsertLineAbove,
    RemoveCharLeft,
    RemoveCharRight,
    ReplaceCurrentLine(String),
    Load(String),
    SaveCurrentFile,
    Save(String),
    Help,
    Exit,
}

/// The mathematical shape of an action: string arguments as character
/// sequences, numbers unbounded.
pub enum ActionV {
    Show,
    ShowCurrentLine,
    MoveUp,
    MoveDown,
    MoveLeft,
    MoveRight,
    MoveToBeginning,
    MoveToEnd,
    MoveTo { line: nat, column: nat },
    Insert(Seq<char>),
    InsertLineBelow,
    InsertLineAbove,
    RemoveCharLeft,
    RemoveCharRight,
    ReplaceCurrentLine(Seq<char>),
    Load(Seq<char>),
    SaveCurrentFile,
    Save(Seq<char>),
    Help,
    Exit,
}

/// The view of one action.
pub open spec fn action_view(a: Action) -> ActionV {
    match a {
        Action::Show => ActionV::Show,
        Action::ShowCurrentLine => ActionV::ShowCurrentLine,
        Action::MoveUp => ActionV::MoveUp,
        Action::MoveDown => ActionV::MoveDown,
        Action::MoveLeft => ActionV::MoveLeft,
        Action::MoveRight => ActionV::MoveRight,
        Action::MoveToBeginning => ActionV::MoveToBeginning,
        Action::MoveToEnd => ActionV::MoveToEnd,
        Action::MoveTo { line, column } => ActionV::MoveTo {
            line: line as nat,
            column: column as nat,
        },
        Action::Insert(s) => ActionV::Insert(s@),
        Action::InsertLineBelow => ActionV::InsertLineBelow,
        Action::InsertLineAbove => ActionV::InsertLineAbove,
        Action::RemoveCharLeft => ActionV::RemoveCharLeft,
        Action::RemoveCharRight => ActionV::RemoveCharRight,
        Action::ReplaceCurrentLine(s) => ActionV::ReplaceCurrentLine(s@),
        Action::Load(s) => ActionV::Load(s@),
        Action::SaveCurrentFile => ActionV::SaveCurrentFile,
        Action::Save(s) => ActionV::Save(s@),
        Action::Help => ActionV::Help,
        Action::Exit => ActionV::Exit,
    }
}

/// The views of a list of actions.
pub open spec fn actions_view(v: Seq<Action>) -> Seq<ActionV> {
    v.map_values(|a: Action| action_view(a))
}

} // verus!
