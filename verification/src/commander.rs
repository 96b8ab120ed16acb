//! The whole program: two panes, of which one is active, and what each key does.

use vstd::prelude::*;

use crate::ansi::{clear_text, clr, hide_cur, mouse_off, mouse_on, show_cur};
use crate::draw::{fkey_label, scrolled_panes};
use crate::keys::Key;
use crate::listing::{Listing, ListingView};
use crate::menu::{menu_command, Command};
use crate::mount::{navigate_right_to, right_at, Arrival};
use crate::pane::{
    back_effect, enter_effect, Pane, PaneView, Panes, PanesView, Reload, Visit, VisitView,
};
use crate::path::DOT;
use crate::scan::texts;
use crate::text::copied;

verus! {

/// The state of the program.
pub struct Commander {
    pub panes: Panes,
    /// The active pane: 0 for the left one, 1 for the right one.
    pub active: usize,
    /// The character that was typed last, for commands of two.
    pub last_char: char,
    /// The places where remotes were mounted.
    pub mounts: Vec<String>,
}

/// The content of the state.
#[verifier::ext_equal]
pub struct CommanderView {
    pub panes: PanesView,
    pub active: int,
    pub last_char: char,
    pub mounts: Seq<Seq<char>>,
}

impl View for Commander {
    type V = CommanderView;

    open spec fn view(&self) -> CommanderView {
        CommanderView {
            panes: self.panes@,
            active: self.active as int,
            last_char: self.last_char,
            mounts: texts(self.mounts@),
        }
    }
}

/// What is to be done after a key.
pub enum Action {
    /// Nothing.
    Nothing,
    /// A pane goes into a directory, or out of one.
    Go(usize, Visit),
    /// The listing of a pane is to be read again.
    Refresh(usize),
    /// The user is to be shown or asked something.
    Run(Command),
    /// The program ends.
    Quit,
}

/// The content of an action.
#[verifier::ext_equal]
pub enum ActionView {
    Nothing,
    Go(int, VisitView),
    Refresh(int),
    Run(Command),
    Quit,
}

impl View for Action {
    type V = ActionView;

    open spec fn view(&self) -> ActionView {
        match self {
            Action::Nothing => ActionView::Nothing,
            Action::Go(i, v) => ActionView::Go(*i as int, v@),
            Action::Refresh(i) => ActionView::Refresh(*i as int),
            Action::Run(c) => ActionView::Run(*c),
            Action::Quit => ActionView::Quit,
        }
    }
}

/// The pane beside a pane.
pub open spec fn other(i: int) -> int {
    if i == 0 {
        1
    } else {
        0
    }
}

/// The character that a key types; the null character for a key that types none.
pub open spec fn typed_char(key: Key) -> char {
    match key {
        Key::Char(c) => c,
        _ => '\0',
    }
}

/// The command of a key, after the character that was typed before it.
pub open spec fn key_command(key: Key, last: char) -> Option<Command> {
    match key {
        Key::Esc => Some(Command::Deselect),
        Key::Delete => Some(Command::Delete),
        Key::F(n) => if n == 1 {
            Some(Command::Help)
        } else if n == 2 {
            Some(Command::Rename)
        } else if n == 3 {
            Some(Command::View)
        } else if n == 4 {
            Some(Command::Edit)
        } else if n == 5 {
            Some(Command::Copy)
        } else if n == 6 {
            Some(Command::Move)
        } else if n == 7 {
            Some(Command::Mkdir)
        } else if n == 8 {
            Some(Command::Delete)
        } else if n == 9 {
            Some(Command::Menu)
        } else {
            None
        },
        Key::Char(c) => if c == '\x01' {
            Some(Command::SelectAll)
        } else if c == '/' {
            Some(Command::Search)
        } else if c == 'e' {
            Some(Command::Edit)
        } else if c == 'd' && last == 'd' {
            Some(Command::Delete)
        } else if c == '\'' {
            Some(Command::GoTo)
        } else if c == 'r' {
            Some(Command::Rename)
        } else if c == 's' {
            Some(Command::Sort)
        } else if c == 'S' {
            Some(Command::Sync)
        } else if c == 'C' {
            Some(Command::Mount)
        } else if c == 'f' {
            Some(Command::Connect)
        } else if c == 'R' {
            Some(Command::Refresh)
        } else if c == '?' {
            Some(Command::Help)
        } else {
            None
        },
        _ => None,
    }
}

/// The listing after a key that moves the cursor, or changes the selection, on a
/// screen that shows so many entries.
pub open spec fn key_move(
    list: ListingView,
    key: Key,
    last: char,
    visible: int,
) -> Option<ListingView> {
    match key {
        Key::Up => Some(list.moved_up(1)),
        Key::Down => Some(list.stepped_down()),
        Key::PageUp => Some(list.moved_up(visible)),
        Key::PageDown => Some(list.moved_down(visible)),
        Key::Home => Some(list.with_cursor(0)),
        Key::End => Some(list.with_cursor(list.last())),
        Key::Insert => Some(list.toggled(list.cursor as usize).stepped_down()),
        Key::Char(c) => if c == 'k' {
            Some(list.moved_up(1))
        } else if c == 'j' {
            Some(list.stepped_down())
        } else if c == 'g' && last == 'g' {
            Some(list.with_cursor(0))
        } else if c == 'G' {
            Some(list.with_cursor(list.last()))
        } else if c == ' ' {
            Some(list.toggled(list.cursor as usize))
        } else {
            None
        },
        _ => None,
    }
}

/// The pane of a column: the left one up to the middle of the screen.
pub open spec fn pane_of_column(col: u16, cols: u16) -> int {
    if col <= cols / 2 {
        0
    } else {
        1
    }
}

impl PanesView {
    /// The panes with another listing in one of them.
    pub open spec fn with_list(self, i: int, list: ListingView) -> PanesView {
        self.with(i, self.at(i).with_list(list))
    }
}

/// Showing the active pane's directory in the other one. Only local panes take
/// part.
pub open spec fn synced(v: PanesView, active: int) -> (PanesView, ActionView) {
    match (v.at(active), v.at(other(active))) {
        (PaneView::Local(a), PaneView::Local(b)) => (
            v.with(other(active), PaneView::Local(b.at_path(a.path))),
            ActionView::Go(other(active), VisitView::List(None)),
        ),
        _ => (v, ActionView::Nothing),
    }
}

impl CommanderView {
    /// Whether there is an active pane, and the cursors are on entries.
    pub open spec fn is_valid(self) -> bool {
        &&& self.active == 0 || self.active == 1
        &&& self.panes.left.list().cursor_is_valid()
        &&& self.panes.right.list().cursor_is_valid()
    }

    /// The active pane's listing.
    pub open spec fn list(self) -> ListingView {
        self.panes.at(self.active).list()
    }

    /// Going into a directory or out of one, in the pane `i`.
    pub open spec fn gone(self, i: int, effect: (PaneView, VisitView)) -> (
        CommanderView,
        ActionView,
    ) {
        (
            CommanderView { panes: self.panes.with(i, effect.0), ..self },
            ActionView::Go(i, effect.1),
        )
    }

    /// A command.
    pub open spec fn commanded(self, c: Command) -> (CommanderView, ActionView) {
        match c {
            Command::SelectAll => (
                CommanderView {
                    panes: self.panes.with_list(self.active, self.list().all_selected()),
                    ..self
                },
                ActionView::Nothing,
            ),
            Command::Deselect => (
                CommanderView {
                    panes: self.panes.with_list(self.active, self.list().none_selected()),
                    ..self
                },
                ActionView::Nothing,
            ),
            Command::Sync => {
                let (panes, action) = synced(self.panes, self.active);
                (CommanderView { panes, ..self }, action)
            },
            Command::Refresh => (self, ActionView::Refresh(self.active)),
            _ => (self, ActionView::Run(c)),
        }
    }

    /// A click with the left button: on the entry under the cursor it goes into
    /// it, on another entry it moves the cursor there, and elsewhere it makes the
    /// pane active.
    pub open spec fn clicked(self, i: int, row: int) -> (CommanderView, ActionView) {
        let list = self.panes.at(i).list();
        let idx = list.offset + row - 2;
        if row < 2 || idx >= list.entries.len() {
            (CommanderView { active: i, ..self }, ActionView::Nothing)
        } else if i == self.active && idx == list.cursor {
            self.gone(i, enter_effect(self.panes.at(i)))
        } else {
            (
                CommanderView {
                    active: i,
                    panes: self.panes.with_list(i, list.with_cursor(idx)),
                    ..self
                },
                ActionView::Nothing,
            )
        }
    }

    /// A turn of the wheel over the pane `i`: three rows.
    pub open spec fn wheeled(self, i: int, up: bool) -> CommanderView {
        let list = self.panes.at(i).list();
        CommanderView {
            panes: self.panes.with_list(
                i,
                if up {
                    list.moved_up(3)
                } else {
                    list.moved_down(3)
                },
            ),
            ..self
        }
    }

    /// A key, except for what it leaves as the last character.
    pub open spec fn keyed(self, key: Key, rows: u16, cols: u16) -> (CommanderView, ActionView) {
        match key_move(self.list(), key, self.last_char, rows - 4) {
            Some(list) => (
                CommanderView { panes: self.panes.with_list(self.active, list), ..self },
                ActionView::Nothing,
            ),
            None => match key_command(key, self.last_char) {
                Some(c) => self.commanded(c),
                None => match key {
                    Key::Enter | Key::Right => self.gone(
                        self.active,
                        enter_effect(self.panes.at(self.active)),
                    ),
                    Key::Left | Key::Backspace => self.gone(
                        self.active,
                        back_effect(self.panes.at(self.active)),
                    ),
                    Key::F(n) => if n == 10 {
                        (self, ActionView::Quit)
                    } else {
                        (self, ActionView::Nothing)
                    },
                    Key::Char(c) => if c == '\t' {
                        (CommanderView { active: other(self.active), ..self }, ActionView::Nothing)
                    } else if c == 'q' || c == 'Q' {
                        (self, ActionView::Quit)
                    } else {
                        (self, ActionView::Nothing)
                    },
                    Key::Click { btn, col, row } => if btn == 0 {
                        self.clicked(pane_of_column(col, cols), row as int)
                    } else if btn == 2 {
                        let i = pane_of_column(col, cols);
                        (CommanderView { active: i, ..self }).gone(
                            i,
                            back_effect(self.panes.at(i)),
                        )
                    } else {
                        (self, ActionView::Nothing)
                    },
                    Key::Scroll { up, col, .. } => (
                        self.wheeled(pane_of_column(col, cols), up),
                        ActionView::Nothing,
                    ),
                    _ => (self, ActionView::Nothing),
                },
            },
        }
    }

    /// A key.
    pub open spec fn stepped(self, key: Key, rows: u16, cols: u16) -> (CommanderView, ActionView) {
        let (v, action) = self.keyed(key, rows, cols);
        (CommanderView { last_char: typed_char(key), ..v }, action)
    }
}

/// The command of a key.
fn find_command(key: Key, last: char) -> (r: Option<Command>)
    ensures
        r == key_command(key, last),
{
    match key {
        Key::Esc => Some(Command::Deselect),
        Key::Delete => Some(Command::Delete),
        Key::F(n) => match n {
            1 => Some(Command::Help),
            2 => Some(Command::Rename),
            3 => Some(Command::View),
            4 => Some(Command::Edit),
            5 => Some(Command::Copy),
            6 => Some(Command::Move),
            7 => Some(Command::Mkdir),
            8 => Some(Command::Delete),
            9 => Some(Command::Menu),
            _ => None,
        },
        Key::Char(c) => match c {
            '\x01' => Some(Command::SelectAll),
            '/' => Some(Command::Search),
            'e' => Some(Command::Edit),
            'd' => if last == 'd' {
                Some(Command::Delete)
            } else {
                None
            },
            '\'' => Some(Command::GoTo),
            'r' => Some(Command::Rename),
            's' => Some(Command::Sort),
            'S' => Some(Command::Sync),
            'C' => Some(Command::Mount),
            'f' => Some(Command::Connect),
            'R' => Some(Command::Refresh),
            '?' => Some(Command::Help),
            _ => None,
        },
        _ => None,
    }
}

/// Moves in a listing, if the key does that.
fn move_in(list: &mut Listing, key: Key, last: char, visible: usize) -> (r: bool)
    ensures
        match key_move(old(list)@, key, last, visible as int) {
            Some(l) => r && final(list)@ == l,
            None => !r && final(list)@ == old(list)@,
        },
{
    match key {
        Key::Up => {
            list.move_up(1);
        },
        Key::Down => {
            list.step_down();
        },
        Key::PageUp => {
            list.move_up(visible);
        },
        Key::PageDown => {
            list.move_down(visible);
        },
        Key::Home => {
            list.move_home();
        },
        Key::End => {
            list.move_end();
        },
        Key::Insert => {
            let i = list.cursor;
            list.toggle_sel(i);
            list.step_down();
        },
        Key::Char(c) => {
            if c == 'k' {
                list.move_up(1);
            } else if c == 'j' {
                list.step_down();
            } else if c == 'g' && last == 'g' {
                list.move_home();
            } else if c == 'G' {
                list.move_end();
            } else if c == ' ' {
                let i = list.cursor;
                list.toggle_sel(i);
            } else {
                return false;
            }
        },
        _ => {
            return false;
        },
    }
    true
}

/// Shows the active pane's directory in the other one, whose listing is then to
/// be read. Gives whether that is so.
pub fn op_sync_panes(panes: &mut Panes, active: usize) -> (r: bool)
    ensures
        final(panes)@ == synced(old(panes)@, active as int).0,
        r == (synced(old(panes)@, active as int).1 is Go),
{
    let path = match panes.get(active) {
        Pane::Local(p) => copied(p.path.as_slice()),
        Pane::Remote(_) => {
            return false;
        },
    };
    let i: usize = if active == 0 {
        1
    } else {
        0
    };
    match panes.get_mut(i) {
        Pane::Local(p) => {
            p.go_to(path);
            true
        },
        Pane::Remote(_) => false,
    }
}

impl Commander {
    /// The program with two panes, the left one active.
    pub fn new(left: Pane, right: Pane) -> (r: Commander)
        ensures
            r@ == (CommanderView {
                panes: PanesView { left: left@, right: right@ },
                active: 0,
                last_char: '\0',
                mounts: Seq::empty(),
            }),
    {
        let mounts: Vec<String> = Vec::new();
        assert(texts(mounts@) =~= Seq::empty());
        Commander { panes: Panes { left, right }, active: 0, last_char: '\0', mounts }
    }

    /// Goes into the entry under the cursor of the pane `i`.
    fn enter(&mut self, i: usize) -> (r: Action)
        ensures
            (final(self)@, r@) == old(self)@.gone(
                i as int,
                enter_effect(old(self)@.panes.at(i as int)),
            ),
    {
        Action::Go(i, self.panes.get_mut(i).enter())
    }

    /// Goes up in the pane `i`.
    fn back(&mut self, i: usize) -> (r: Action)
        ensures
            (final(self)@, r@) == old(self)@.gone(
                i as int,
                back_effect(old(self)@.panes.at(i as int)),
            ),
    {
        Action::Go(i, self.panes.get_mut(i).back())
    }

    /// Does what a command can do at once.
    pub fn command(&mut self, c: Command) -> (r: Action)
        requires
            old(self).active <= 1,
        ensures
            (final(self)@, r@) == old(self)@.commanded(c),
    {
        match c {
            Command::SelectAll => {
                self.panes.get_mut(self.active).select_all();
                Action::Nothing
            },
            Command::Deselect => {
                self.panes.get_mut(self.active).clear_sel();
                Action::Nothing
            },
            Command::Sync => {
                if op_sync_panes(&mut self.panes, self.active) {
                    Action::Go(1 - self.active, Visit::List(Reload { focus: None }))
                } else {
                    Action::Nothing
                }
            },
            Command::Refresh => Action::Refresh(self.active),
            _ => Action::Run(c),
        }
    }

    /// Takes a click with the left button.
    fn click(&mut self, i: usize, row: u16) -> (r: Action)
        requires
            i <= 1,
        ensures
            (final(self)@, r@) == old(self)@.clicked(i as int, row as int),
    {
        let list = self.panes.get(i).list();
        let offset = list.offset;
        let len = list.entries.len();
        let cursor = list.cursor;
        if row < 2 || offset >= len || (row - 2) as usize >= len - offset {
            self.active = i;
            return Action::Nothing;
        }
        let idx = offset + (row - 2) as usize;
        if i == self.active && idx == cursor {
            self.enter(i)
        } else {
            self.active = i;
            *self.panes.get_mut(i).cursor_mut() = idx;
            Action::Nothing
        }
    }

    /// Takes a turn of the wheel.
    fn wheel(&mut self, i: usize, up: bool)
        ensures
            final(self)@ == old(self)@.wheeled(i as int, up),
    {
        let list = self.panes.get_mut(i).list_mut();
        if up {
            list.move_up(3);
        } else {
            list.move_down(3);
        }
    }

    /// Does what a key does, except for what it leaves as the last character.
    fn act(&mut self, key: Key, rows: u16, cols: u16) -> (r: Action)
        requires
            old(self).active <= 1,
            rows >= 4,
        ensures
            (final(self)@, r@) == old(self)@.keyed(key, rows, cols),
    {
        let visible = rows as usize - 4;
        let last = self.last_char;
        if move_in(self.panes.get_mut(self.active).list_mut(), key, last, visible) {
            return Action::Nothing;
        }
        assert(self@ =~= old(self)@);
        match find_command(key, last) {
            Some(c) => {
                return self.command(c);
            },
            None => {},
        }
        match key {
            Key::Enter | Key::Right => self.enter(self.active),
            Key::Left | Key::Backspace => self.back(self.active),
            Key::F(n) => if n == 10 {
                Action::Quit
            } else {
                Action::Nothing
            },
            Key::Char(c) => {
                if c == '\t' {
                    self.active = 1 - self.active;
                    Action::Nothing
                } else if c == 'q' || c == 'Q' {
                    Action::Quit
                } else {
                    Action::Nothing
                }
            },
            Key::Click { btn, col, row } => {
                let i: usize = if col <= cols / 2 {
                    0
                } else {
                    1
                };
                if btn == 0 {
                    self.click(i, row)
                } else if btn == 2 {
                    self.active = i;
                    self.back(i)
                } else {
                    Action::Nothing
                }
            },
            Key::Scroll { up, col, row: _ } => {
                let i: usize = if col <= cols / 2 {
                    0
                } else {
                    1
                };
                self.wheel(i, up);
                Action::Nothing
            },
            _ => Action::Nothing,
        }
    }

    /// Takes a key, on a screen of this size.
    pub fn step(&mut self, key: Key, rows: u16, cols: u16) -> (r: Action)
        requires
            old(self).active <= 1,
            rows >= 4,
        ensures
            (final(self)@, r@) == old(self)@.stepped(key, rows, cols),
    {
        let r = self.act(key, rows, cols);
        self.last_char = match key {
            Key::Char(c) => c,
            _ => '\0',
        };
        r
    }

    /// Takes the right pane to a place where a remote is mounted, which is to be
    /// unmounted at the end if the mount is new.
    pub fn arrive(&mut self, place: &str, new: bool) -> (r: Arrival)
        ensures
            r@ == right_at(old(self)@.panes, place@).1,
            final(self)@ == (CommanderView {
                panes: right_at(old(self)@.panes, place@).0,
                mounts: if new {
                    old(self)@.mounts.push(place@)
                } else {
                    old(self)@.mounts
                },
                ..old(self)@
            }),
    {
        if new {
            self.mounts.push(place.to_string());
            assert(texts(self.mounts@) =~= texts(old(self).mounts@).push(place@));
        }
        navigate_right_to(&mut self.panes, place)
    }
}

/// The screen when the program starts.
pub fn start_screen(o: &mut String, rows: u16, cols: u16)
    ensures
        final(o)@ == old(o)@ + "\x1b[?25l"@ + "\x1b[?1000h\x1b[?1006h"@ + clear_text(
            rows as nat,
            cols as int,
        ),
{
    hide_cur(o);
    mouse_on(o);
    clr(o, rows, cols);
}

/// The screen when the program ends.
pub fn end_screen(o: &mut String, rows: u16, cols: u16)
    ensures
        final(o)@ == old(o)@ + "\x1b[?1006l\x1b[?1000l"@ + clear_text(rows as nat, cols as int)
            + "\x1b[?25h"@,
{
    mouse_off(o);
    clr(o, rows, cols);
    show_cur(o);
}

/// The screen before another program runs.
pub fn leave_screen(o: &mut String, rows: u16, cols: u16)
    ensures
        final(o)@ == old(o)@ + "\x1b[?25h"@ + clear_text(rows as nat, cols as int),
{
    show_cur(o);
    clr(o, rows, cols);
}

/// The screen after another program ran.
pub fn return_screen(o: &mut String, rows: u16, cols: u16)
    ensures
        final(o)@ == old(o)@ + "\x1b[?25l"@ + clear_text(rows as nat, cols as int),
{
    hide_cur(o);
    clr(o, rows, cols);
}

/// The paths or addresses that the panes start with: those in the arguments, or
/// else the current directory.
pub open spec fn start_of(args: Seq<Seq<char>>, i: int) -> Seq<char> {
    if i < args.len() {
        args[i]
    } else {
        "."@
    }
}

/// What the pane `i` starts with.
pub fn start_arg(args: &Vec<String>, i: usize) -> (r: String)
    ensures
        r@ == start_of(texts(args@), i as int),
{
    if i < args.len() {
        assert(texts(args@)[i as int] == args@[i as int]@);
        args[i].clone()
    } else {
        ".".to_string()
    }
}

/// The path of a local pane: the canonical form of what was asked for, or the
/// current directory where that has none.
pub fn local_start(canonical: Option<Vec<u8>>) -> (r: Vec<u8>)
    ensures
        r@ == (match canonical {
            Some(p) => p@,
            None => seq![DOT],
        }),
{
    match canonical {
        Some(p) => p,
        None => {
            let mut r: Vec<u8> = Vec::new();
            r.push(DOT);
            assert(r@ =~= seq![DOT]);
            r
        },
    }
}

/// Whatever key comes, one of the two panes is active and both cursors are on
/// entries.
pub proof fn every_key_keeps_the_state_valid(v: CommanderView, key: Key, rows: u16, cols: u16)
    requires
        v.is_valid(),
        rows >= 4,
        v.panes.left.list().offset >= 0,
        v.panes.right.list().offset >= 0,
    ensures
        v.stepped(key, rows, cols).0.is_valid(),
{
    let none = Seq::<char>::empty();
    let entries = Seq::<crate::entry::EntryView>::empty();
    crate::listing::cursor_stays_valid(v.panes.left.list(), rows - 4, none, entries);
    crate::listing::cursor_stays_valid(v.panes.right.list(), rows - 4, none, entries);
    crate::listing::cursor_stays_valid(v.panes.left.list(), 3, none, entries);
    crate::listing::cursor_stays_valid(v.panes.right.list(), 3, none, entries);
    crate::listing::cursor_stays_valid(v.panes.left.list(), 1, none, entries);
    crate::listing::cursor_stays_valid(v.panes.right.list(), 1, none, entries);
}

/// The Tab key twice changes nothing but the last character.
pub proof fn tab_twice_changes_nothing(v: CommanderView, rows: u16, cols: u16)
    requires
        v.active == 0 || v.active == 1,
    ensures
        ({
            let tab = Key::Char('\t');
            let once = v.stepped(tab, rows, cols).0;
            &&& once == (CommanderView { active: other(v.active), last_char: '\t', ..v })
            &&& once.stepped(tab, rows, cols).0 == (CommanderView { last_char: '\t', ..v })
        }),
{
}

/// The panes are independent: a key of the keyboard, other than the one that
/// shows a directory in both, leaves the pane that is not active as it is.
pub proof fn keys_leave_the_other_pane(v: CommanderView, key: Key, rows: u16, cols: u16)
    requires
        v.active == 0 || v.active == 1,
        !(key is Click),
        !(key is Scroll),
        key != Key::Char('S'),
    ensures
        v.stepped(key, rows, cols).0.panes.at(other(v.active)) == v.panes.at(other(v.active)),
{
}

/// Deleting by letters takes two of them: the first does nothing, and the second
/// asks for the deletion only if it follows at once.
pub proof fn deleting_takes_two_letters(v: CommanderView, key: Key, rows: u16, cols: u16)
    requires
        v.last_char != 'd',
        key != Key::Char('d'),
    ensures
        ({
            let d = Key::Char('d');
            let once = v.stepped(d, rows, cols);
            &&& once == (CommanderView { last_char: 'd', ..v }, ActionView::Nothing)
            &&& once.0.stepped(d, rows, cols).1 == ActionView::Run(Command::Delete)
            &&& once.0.stepped(key, rows, cols).0.stepped(d, rows, cols).1
                == ActionView::Nothing
        }),
{
}

/// The letter for the top takes two strokes as well.
pub proof fn top_takes_two_letters(v: CommanderView, rows: u16, cols: u16)
    requires
        v.active == 0 || v.active == 1,
        v.last_char != 'g',
    ensures
        ({
            let g = Key::Char('g');
            let once = v.stepped(g, rows, cols);
            let twice = once.0.stepped(g, rows, cols);
            &&& once == (CommanderView { last_char: 'g', ..v }, ActionView::Nothing)
            &&& twice.0.list() == v.list().with_cursor(0)
        }),
{
}

/// The letters do what the keys do for which they stand.
pub proof fn letters_stand_for_keys(v: CommanderView, rows: u16, cols: u16)
    ensures
        v.keyed(Key::Char('j'), rows, cols) == v.keyed(Key::Down, rows, cols),
        v.keyed(Key::Char('k'), rows, cols) == v.keyed(Key::Up, rows, cols),
        v.keyed(Key::Char('G'), rows, cols) == v.keyed(Key::End, rows, cols),
        v.keyed(Key::Char('e'), rows, cols) == v.keyed(Key::F(4), rows, cols),
        v.keyed(Key::Char('r'), rows, cols) == v.keyed(Key::F(2), rows, cols),
        v.keyed(Key::Char('?'), rows, cols) == v.keyed(Key::F(1), rows, cols),
        v.keyed(Key::Char('q'), rows, cols) == v.keyed(Key::F(10), rows, cols),
        v.keyed(Key::Delete, rows, cols) == v.keyed(Key::F(8), rows, cols),
        v.keyed(Key::Right, rows, cols) == v.keyed(Key::Enter, rows, cols),
        v.keyed(Key::Backspace, rows, cols) == v.keyed(Key::Left, rows, cols),
{
}

/// A second click on the same entry goes into it: the first made its pane active
/// and put the cursor on it.
pub proof fn second_click_enters(v: CommanderView, col: u16, row: u16, rows: u16, cols: u16)
    requires
        v.active == 0 || v.active == 1,
        row >= 2,
        ({
            let list = v.panes.at(pane_of_column(col, cols)).list();
            list.offset + row - 2 < list.entries.len() && (v.active != pane_of_column(col, cols)
                || list.cursor != list.offset + row - 2)
        }),
    ensures
        ({
            let i = pane_of_column(col, cols);
            let click = Key::Click { btn: 0, col, row };
            let once = v.stepped(click, rows, cols);
            let idx = v.panes.at(i).list().offset + row - 2;
            &&& once.1 == ActionView::Nothing
            &&& once.0.active == i
            &&& once.0.panes.at(i).list() == v.panes.at(i).list().with_cursor(idx)
            &&& once.0.stepped(click, rows, cols).1 == ActionView::Go(
                i,
                enter_effect(once.0.panes.at(i)).1,
            )
        }),
{
}

/// After the panes were synchronised, both show the same path; doing it again
/// changes nothing more.
pub proof fn synced_panes_show_the_same_path(v: PanesView, active: int)
    requires
        active == 0 || active == 1,
        v.left is Local,
        v.right is Local,
    ensures
        ({
            let w = synced(v, active).0;
            &&& w.left->Local_0.path == w.right->Local_0.path
            &&& w.at(active) == v.at(active)
            &&& synced(w, active).0 == w
        }),
{
}

/// Which keys ask for which command, and no others do.
pub proof fn commands_have_their_keys(key: Key, last: char)
    ensures
        key_command(key, last) == Some(Command::Help) <==> key == Key::F(1) || key == Key::Char(
            '?',
        ),
        key_command(key, last) == Some(Command::Rename) <==> key == Key::F(2) || key == Key::Char(
            'r',
        ),
        key_command(key, last) == Some(Command::View) <==> key == Key::F(3),
        key_command(key, last) == Some(Command::Edit) <==> key == Key::F(4) || key == Key::Char(
            'e',
        ),
        key_command(key, last) == Some(Command::Copy) <==> key == Key::F(5),
        key_command(key, last) == Some(Command::Move) <==> key == Key::F(6),
        key_command(key, last) == Some(Command::Mkdir) <==> key == Key::F(7),
        key_command(key, last) == Some(Command::Delete) <==> key == Key::F(8) || key is Delete || (
        key == Key::Char('d') && last == 'd'),
        key_command(key, last) == Some(Command::Menu) <==> key == Key::F(9),
        key_command(key, last) == Some(Command::SelectAll) <==> key == Key::Char('\x01'),
        key_command(key, last) == Some(Command::Deselect) <==> key is Esc,
        key_command(key, last) == Some(Command::Search) <==> key == Key::Char('/'),
        key_command(key, last) == Some(Command::GoTo) <==> key == Key::Char('\''),
        key_command(key, last) == Some(Command::Sort) <==> key == Key::Char('s'),
        key_command(key, last) == Some(Command::Sync) <==> key == Key::Char('S'),
        key_command(key, last) == Some(Command::Mount) <==> key == Key::Char('C'),
        key_command(key, last) == Some(Command::Connect) <==> key == Key::Char('f'),
        key_command(key, last) == Some(Command::Refresh) <==> key == Key::Char('R'),
{
}

/// A key with a command does what the command does, and a command that the program
/// does not do at once is handed on; the panes stay.
pub proof fn commands_are_handed_on(v: CommanderView, c: Command)
    requires
        v.active == 0 || v.active == 1,
    ensures
        !(c is SelectAll) && !(c is Deselect) && !(c is Sync) && !(c is Refresh) ==> v.commanded(c)
            == (v, ActionView::Run(c)),
        v.commanded(Command::Refresh) == (v, ActionView::Refresh(v.active)),
        forall|i: usize| #[trigger]
            v.commanded(Command::SelectAll).0.list().selected.contains(i) <==> i
                < v.list().entries.len(),
        forall|i: usize| !(#[trigger] v.commanded(Command::Deselect).0.list().selected.contains(i)),
        v.commanded(Command::SelectAll).0.list().entries == v.list().entries,
        v.commanded(Command::SelectAll).0.list().cursor == v.list().cursor,
        v.commanded(Command::Deselect).0.list().entries == v.list().entries,
        v.commanded(Command::Deselect).0.list().cursor == v.list().cursor,
{
}

/// How far the keys that move take the cursor of the active pane, on a screen of so
/// many rows: by one row, by as many as are visible, or to an end. The entries and
/// the selection stay.
pub proof fn keys_move_the_cursor(v: CommanderView, rows: u16, cols: u16)
    requires
        v.is_valid(),
        rows >= 4,
        v.list().entries.len() > 0,
    ensures
        ({
            let c = v.list().cursor;
            let n = v.list().entries.len() as int;
            let page = rows - 4;
            let up = v.stepped(Key::Up, rows, cols);
            let down = v.stepped(Key::Down, rows, cols);
            let back = v.stepped(Key::PageUp, rows, cols);
            let on = v.stepped(Key::PageDown, rows, cols);
            &&& up.1 is Nothing && down.1 is Nothing && back.1 is Nothing && on.1 is Nothing
            &&& c > 0 ==> up.0.list().cursor == c - 1
            &&& c == 0 ==> up.0.list() == v.list()
            &&& c + 1 < n ==> down.0.list().cursor == c + 1
            &&& c + 1 == n ==> down.0.list() == v.list()
            &&& c >= page ==> back.0.list().cursor == c - page
            &&& c < page ==> back.0.list().cursor == 0
            &&& c + page < n ==> on.0.list().cursor == c + page
            &&& c + page >= n ==> on.0.list().cursor == n - 1
            &&& v.stepped(Key::Home, rows, cols).0.list().cursor == 0
            &&& v.stepped(Key::End, rows, cols).0.list().cursor == n - 1
            &&& up.0.list().entries == v.list().entries
            &&& down.0.list().entries == v.list().entries
            &&& back.0.list().entries == v.list().entries
            &&& on.0.list().entries == v.list().entries
            &&& up.0.list().selected == v.list().selected
            &&& down.0.list().selected == v.list().selected
            &&& back.0.list().selected == v.list().selected
            &&& on.0.list().selected == v.list().selected
        }),
{
}

/// The blank selects the entry under the cursor, or takes it out of the selection;
/// Insert does so and goes on to the next entry. No other entry is touched.
pub proof fn keys_select_under_the_cursor(v: CommanderView, rows: u16, cols: u16, i: usize)
    requires
        v.is_valid(),
        v.list().entries.len() <= usize::MAX,
    ensures
        ({
            let c = v.list().cursor;
            let was = v.list().selected;
            let blank = v.stepped(Key::Char(' '), rows, cols).0.list();
            let insert = v.stepped(Key::Insert, rows, cols).0.list();
            &&& i == c ==> (blank.selected.contains(i) <==> !was.contains(i))
            &&& i != c ==> (blank.selected.contains(i) <==> was.contains(i))
            &&& insert.selected == blank.selected
            &&& blank.cursor == c
            &&& c + 1 < v.list().entries.len() ==> insert.cursor == c + 1
            &&& c + 1 >= v.list().entries.len() ==> insert.cursor == c
            &&& blank.entries == v.list().entries
            &&& insert.entries == v.list().entries
        }),
{
}

/// Enter goes into the entry under the cursor of the active pane, and Left out of its
/// directory; what is to be read then is said.
pub proof fn keys_follow_the_active_pane(v: CommanderView, rows: u16, cols: u16)
    requires
        v.active == 0 || v.active == 1,
    ensures
        ({
            let pane = v.panes.at(v.active);
            let (enter, to) = v.stepped(Key::Enter, rows, cols);
            let (left, from) = v.stepped(Key::Left, rows, cols);
            &&& enter.panes.at(v.active) == enter_effect(pane).0
            &&& to == ActionView::Go(v.active, enter_effect(pane).1)
            &&& left.panes.at(v.active) == back_effect(pane).0
            &&& from == ActionView::Go(v.active, back_effect(pane).1)
            &&& enter.active == v.active
            &&& left.active == v.active
        }),
{
}

/// Both letters, and the tenth function key, end the program; no other key does.
pub proof fn program_ends_by_its_keys(v: CommanderView, key: Key, rows: u16, cols: u16)
    ensures
        v.stepped(key, rows, cols).1 is Quit <==> key == Key::F(10) || key == Key::Char('q') || key
            == Key::Char('Q'),
        v.stepped(Key::Char('q'), rows, cols).0.panes == v.panes,
{
}

/// A click in the left half of the screen is meant for the left pane, another for
/// the right one. The left button puts the cursor on the entry that the row shows,
/// which is `row - 2` rows below the first visible one; the title and the rows below
/// the last entry only make the pane active.
pub proof fn click_meets_its_row(v: CommanderView, col: u16, row: u16, rows: u16, cols: u16)
    requires
        v.active == 0 || v.active == 1,
    ensures
        ({
            let i: int = if 2 * col <= cols {
                0
            } else {
                1
            };
            let list = v.panes.at(i).list();
            let (w, action) = v.stepped(Key::Click { btn: 0, col, row }, rows, cols);
            &&& w.active == i
            &&& row < 2 || list.offset + (row - 2) >= list.entries.len() ==> w.panes == v.panes
                && action is Nothing
            &&& row >= 2 && list.offset + (row - 2) < list.entries.len() && (i != v.active
                || list.cursor != list.offset + (row - 2)) ==> action is Nothing && w.panes.at(
                i,
            ).list().cursor == list.offset + (row - 2) && w.panes.at(i).list().entries
                == list.entries && w.panes.at(other(i)) == v.panes.at(other(i))
            &&& row >= 2 && list.offset + (row - 2) < list.entries.len() && i == v.active
                && list.cursor == list.offset + (row - 2) ==> w.panes.at(i) == enter_effect(
                v.panes.at(i),
            ).0 && action == ActionView::Go(i, enter_effect(v.panes.at(i)).1)
        }),
{
}

/// The right button makes the pane active and goes out of its directory; the middle
/// one does nothing.
pub proof fn other_buttons(v: CommanderView, btn: u8, col: u16, row: u16, rows: u16, cols: u16)
    requires
        v.active == 0 || v.active == 1,
        btn != 0,
    ensures
        ({
            let i: int = if 2 * col <= cols {
                0
            } else {
                1
            };
            let (w, action) = v.stepped(Key::Click { btn, col, row }, rows, cols);
            &&& btn == 2 ==> w.active == i && w.panes.at(i) == back_effect(v.panes.at(i)).0
                && action == ActionView::Go(i, back_effect(v.panes.at(i)).1) && w.panes.at(other(i))
                == v.panes.at(other(i))
            &&& btn != 2 ==> w.panes == v.panes && w.active == v.active && action is Nothing
        }),
{
}

/// A turn of the wheel moves the cursor of the pane under it by three rows, as far as
/// there are some, and makes no other pane active.
pub proof fn wheel_moves_by_three(
    v: CommanderView,
    up: bool,
    col: u16,
    row: u16,
    rows: u16,
    cols: u16,
)
    requires
        v.is_valid(),
    ensures
        ({
            let i: int = if 2 * col <= cols {
                0
            } else {
                1
            };
            let list = v.panes.at(i).list();
            let (w, action) = v.stepped(Key::Scroll { up, col, row }, rows, cols);
            let c = w.panes.at(i).list().cursor;
            &&& action is Nothing
            &&& w.active == v.active
            &&& up && list.cursor >= 3 ==> c == list.cursor - 3
            &&& up && list.cursor < 3 ==> c == 0
            &&& !up && list.cursor + 3 < list.entries.len() ==> c == list.cursor + 3
            &&& !up && list.cursor + 3 >= list.entries.len() > 0 ==> c == list.entries.len() - 1
            &&& w.panes.at(i).list().entries == list.entries
            &&& w.panes.at(i).list().selected == list.selected
            &&& w.panes.at(other(i)) == v.panes.at(other(i))
        }),
{
}

/// The last character is the one that was typed, and none after any other key; no
/// key touches what is to be unmounted at the end.
pub proof fn last_character_is_the_one_typed(
    v: CommanderView,
    key: Key,
    c: char,
    rows: u16,
    cols: u16,
)
    ensures
        v.stepped(Key::Char(c), rows, cols).0.last_char == c,
        !(key is Char) ==> v.stepped(key, rows, cols).0.last_char == '\0',
        v.stepped(key, rows, cols).0.mounts == v.mounts,
{
}

/// Synchronising shows the active pane's path in the other one, at the top, and has
/// its listing read; where a pane is remote, nothing happens.
pub proof fn synchronising_changes_the_other_pane(v: PanesView, active: int)
    requires
        active == 0 || active == 1,
    ensures
        v.left is Remote || v.right is Remote ==> synced(v, active) == (v, ActionView::Nothing),
        v.left is Local && v.right is Local ==> ({
            let (w, action) = synced(v, active);
            let now = w.at(other(active));
            &&& now->Local_0.path == v.at(active)->Local_0.path
            &&& now.list().cursor == 0
            &&& now.list().offset == 0
            &&& now->Local_0.sort == v.at(other(active))->Local_0.sort
            &&& now->Local_0.reverse == v.at(other(active))->Local_0.reverse
            &&& action == ActionView::Go(1 - active, VisitView::List(None))
        }),
{
}

/// The menu offers what keys do: an item has the command of the key in its label.
pub proof fn menu_does_what_keys_do(last: char)
    ensures
        menu_command(0) == key_command(Key::F(3), last),
        menu_command(1) == key_command(Key::F(4), last),
        menu_command(2) == key_command(Key::F(5), last),
        menu_command(3) == key_command(Key::F(6), last),
        menu_command(4) == key_command(Key::F(2), last),
        menu_command(5) == key_command(Key::F(7), last),
        menu_command(6) == key_command(Key::F(8), last),
        menu_command(7) == key_command(Key::Char('\x01'), last),
        menu_command(8) == key_command(Key::Esc, last),
        menu_command(9) == key_command(Key::Char('s'), last),
        menu_command(10) == key_command(Key::Char('\''), last),
        menu_command(11) == key_command(Key::Char('S'), last),
        menu_command(12) == key_command(Key::Char('C'), last),
        menu_command(13) == key_command(Key::Char('f'), last),
        menu_command(14) == key_command(Key::Char('R'), last),
{
}

/// The panes start with the arguments, in their order, and with the current
/// directory where there are fewer.
pub proof fn panes_start_with_the_arguments(args: Seq<Seq<char>>, i: int)
    requires
        i >= 0,
    ensures
        i < args.len() ==> start_of(args, i) == args[i],
        i >= args.len() ==> start_of(args, i) == seq!['.'],
{
    reveal_strlit(".");
    assert("."@ =~= seq!['.']);
}

/// The bar names what the function keys do: each label stands at the number of the key
/// that asks for the command, and the last one at the key that ends the program.
pub proof fn bar_names_the_commands(i: u8, last: char)
    requires
        i < 10,
    ensures
        key_command(Key::F((i + 1) as u8), last) == Some(Command::Help) ==> fkey_label(i as int)
            == "Help(?)"@,
        key_command(Key::F((i + 1) as u8), last) == Some(Command::Rename) ==> fkey_label(i as int)
            == "Rename(r)"@,
        key_command(Key::F((i + 1) as u8), last) == Some(Command::View) ==> fkey_label(i as int)
            == "View"@,
        key_command(Key::F((i + 1) as u8), last) == Some(Command::Edit) ==> fkey_label(i as int)
            == "Edit(e)"@,
        key_command(Key::F((i + 1) as u8), last) == Some(Command::Copy) ==> fkey_label(i as int)
            == "Copy"@,
        key_command(Key::F((i + 1) as u8), last) == Some(Command::Move) ==> fkey_label(i as int)
            == "Move"@,
        key_command(Key::F((i + 1) as u8), last) == Some(Command::Mkdir) ==> fkey_label(i as int)
            == "Mkdir"@,
        key_command(Key::F((i + 1) as u8), last) == Some(Command::Delete) ==> fkey_label(i as int)
            == "Delete(dd)"@,
        key_command(Key::F((i + 1) as u8), last) == Some(Command::Menu) ==> fkey_label(i as int)
            == "Menu"@,
        key_command(Key::F((i + 1) as u8), last) is None ==> i == 9 && fkey_label(i as int)
            == "Quit"@,
{
}

/// A click on a row of the screen meets the entry that is drawn there: the row below
/// the upper border shows the first visible entry, and so on.
pub proof fn click_meets_the_entry_that_is_drawn(
    v: CommanderView,
    col: u16,
    row: u16,
    rows: u16,
    cols: u16,
    i: int,
)
    requires
        v.active == 0 || v.active == 1,
        rows >= 4,
        0 <= i < rows - 4,
        row == 2 + i,
        ({
            let list = v.panes.at(pane_of_column(col, cols)).list();
            &&& 0 <= list.offset <= list.cursor < list.offset + (rows - 4)
            &&& list.offset + i < list.entries.len()
            &&& list.offset + i != list.cursor
        }),
    ensures
        ({
            let p = pane_of_column(col, cols);
            let drawn = scrolled_panes(v.panes, rows as int).at(p).list();
            let (w, action) = v.stepped(Key::Click { btn: 0, col, row }, rows, cols);
            w.panes.at(p).list().current() == Some(drawn.entries[drawn.offset + i])
        }),
{
}

} // verus!
