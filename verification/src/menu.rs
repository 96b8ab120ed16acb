//! The commands, and the menu that lists them.

use vstd::prelude::*;

use crate::scan::texts;

verus! {

/// What the user can ask for besides moving about.
#[derive(Clone, Copy, Debug, PartialEq, Eq, Structural)]
pub enum Command {
    View,
    Edit,
    Copy,
    Move,
    Rename,
    Mkdir,
    Delete,
    SelectAll,
    Deselect,
    Sort,
    GoTo,
    Sync,
    Mount,
    Connect,
    Refresh,
    Help,
    Menu,
    Search,
}

/// How many items the menu has.
pub const MENU_COUNT: usize = 15;

/// The items of the menu.
pub open spec fn menu_label(i: int) -> Seq<char> {
    if i == 0 {
        "View (F3)"@
    } else if i == 1 {
        "Edit (F4/e)"@
    } else if i == 2 {
        "Copy (F5)"@
    } else if i == 3 {
        "Move (F6)"@
    } else if i == 4 {
        "Rename (F2/r)"@
    } else if i == 5 {
        "Mkdir (F7)"@
    } else if i == 6 {
        "Delete (F8/dd)"@
    } else if i == 7 {
        "Select All (Ctrl+A)"@
    } else if i == 8 {
        "Deselect All (Esc)"@
    } else if i == 9 {
        "Sort…(s)"@
    } else if i == 10 {
        "Go to…(g)"@
    } else if i == 11 {
        "Sync panes (S)"@
    } else if i == 12 {
        "rclone mount (C)"@
    } else if i == 13 {
        "FTP connect (f)"@
    } else {
        "Refresh (R)"@
    }
}

/// All items of the menu.
pub open spec fn menu_labels() -> Seq<Seq<char>> {
    Seq::new(MENU_COUNT as nat, |i: int| menu_label(i))
}

/// The command of an item.
pub open spec fn menu_command(i: int) -> Option<Command> {
    if i == 0 {
        Some(Command::View)
    } else if i == 1 {
        Some(Command::Edit)
    } else if i == 2 {
        Some(Command::Copy)
    } else if i == 3 {
        Some(Command::Move)
    } else if i == 4 {
        Some(Command::Rename)
    } else if i == 5 {
        Some(Command::Mkdir)
    } else if i == 6 {
        Some(Command::Delete)
    } else if i == 7 {
        Some(Command::SelectAll)
    } else if i == 8 {
        Some(Command::Deselect)
    } else if i == 9 {
        Some(Command::Sort)
    } else if i == 10 {
        Some(Command::GoTo)
    } else if i == 11 {
        Some(Command::Sync)
    } else if i == 12 {
        Some(Command::Mount)
    } else if i == 13 {
        Some(Command::Connect)
    } else if i == 14 {
        Some(Command::Refresh)
    } else {
        None
    }
}

/// An item of the menu.
fn menu_label_at(i: usize) -> (r: &'static str)
    ensures
        r@ == menu_label(i as int),
{
    match i {
        0 => "View (F3)",
        1 => "Edit (F4/e)",
        2 => "Copy (F5)",
        3 => "Move (F6)",
        4 => "Rename (F2/r)",
        5 => "Mkdir (F7)",
        6 => "Delete (F8/dd)",
        7 => "Select All (Ctrl+A)",
        8 => "Deselect All (Esc)",
        9 => "Sort…(s)",
        10 => "Go to…(g)",
        11 => "Sync panes (S)",
        12 => "rclone mount (C)",
        13 => "FTP connect (f)",
        _ => "Refresh (R)",
    }
}

/// The items of the menu.
pub fn menu_items() -> (r: Vec<String>)
    ensures
        texts(r@) == menu_labels(),
{
    let mut r: Vec<String> = Vec::new();
    for i in 0..MENU_COUNT
        invariant
            r@.len() == i,
            forall|j: int| 0 <= j < i ==> (#[trigger] r@[j])@ == menu_label(j),
    {
        r.push(menu_label_at(i).to_string());
    }
    assert(texts(r@) =~= menu_labels());
    r
}

/// The command of the item that was picked.
pub fn op_context_menu(idx: usize) -> (r: Option<Command>)
    ensures
        r == menu_command(idx as int),
{
    match idx {
        0 => Some(Command::View),
        1 => Some(Command::Edit),
        2 => Some(Command::Copy),
        3 => Some(Command::Move),
        4 => Some(Command::Rename),
        5 => Some(Command::Mkdir),
        6 => Some(Command::Delete),
        7 => Some(Command::SelectAll),
        8 => Some(Command::Deselect),
        9 => Some(Command::Sort),
        10 => Some(Command::GoTo),
        11 => Some(Command::Sync),
        12 => Some(Command::Mount),
        13 => Some(Command::Connect),
        14 => Some(Command::Refresh),
        _ => None,
    }
}

/// Every item of the menu stands for a command, and no two for the same.
pub proof fn menu_items_are_commands(i: int, j: int)
    requires
        0 <= i < MENU_COUNT,
        0 <= j < MENU_COUNT,
    ensures
        menu_command(i) is Some,
        i != j ==> menu_command(i) != menu_command(j),
{
}

/// The labels of the menu belong to its commands: each names what the command is
/// for, and there are as many as commands.
pub proof fn labels_name_their_commands(i: int)
    ensures
        menu_labels().len() == 15,
        0 <= i < 15 ==> menu_labels()[i] == menu_label(i),
        menu_command(i) is Some <==> 0 <= i < 15,
        menu_command(i) == Some(Command::View) ==> menu_label(i) == "View (F3)"@,
        menu_command(i) == Some(Command::Edit) ==> menu_label(i) == "Edit (F4/e)"@,
        menu_command(i) == Some(Command::Copy) ==> menu_label(i) == "Copy (F5)"@,
        menu_command(i) == Some(Command::Move) ==> menu_label(i) == "Move (F6)"@,
        menu_command(i) == Some(Command::Rename) ==> menu_label(i) == "Rename (F2/r)"@,
        menu_command(i) == Some(Command::Mkdir) ==> menu_label(i) == "Mkdir (F7)"@,
        menu_command(i) == Some(Command::Delete) ==> menu_label(i) == "Delete (F8/dd)"@,
        menu_command(i) == Some(Command::SelectAll) ==> menu_label(i) == "Select All (Ctrl+A)"@,
        menu_command(i) == Some(Command::Deselect) ==> menu_label(i) == "Deselect All (Esc)"@,
        menu_command(i) == Some(Command::Sort) ==> menu_label(i) == "Sort…(s)"@,
        menu_command(i) == Some(Command::GoTo) ==> menu_label(i) == "Go to…(g)"@,
        menu_command(i) == Some(Command::Sync) ==> menu_label(i) == "Sync panes (S)"@,
        menu_command(i) == Some(Command::Mount) ==> menu_label(i) == "rclone mount (C)"@,
        menu_command(i) == Some(Command::Connect) ==> menu_label(i) == "FTP connect (f)"@,
        menu_command(i) == Some(Command::Refresh) ==> menu_label(i) == "Refresh (R)"@,
        !(menu_command(i) matches Some(Command::Help)),
        !(menu_command(i) matches Some(Command::Menu)),
        !(menu_command(i) matches Some(Command::Search)),
{
}

} // verus!
