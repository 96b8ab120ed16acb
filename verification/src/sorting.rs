//! The dialog in which the user chooses what a listing is sorted by.

use vstd::prelude::*;

use crate::ansi::{
    c_norm, c_reset, c_sel, colours_text, goto, goto_text, reset_text, BLACK, CYAN,
};
use crate::draw::{at_least_zero, lemma_last_part, lemma_more_behind, norm_text};
use crate::entry::SortBy;
use crate::frame::{draw_nc_box, inner_width, nc_box_text};
use crate::keys::Key;
use crate::pane::{Pane, PaneView};
use crate::text::{
    byte_len, head_to, lemma_ascii_start, lemma_cut_at_end, pad_right, push_padded, starts_ascii,
    to_byte, utf8_len,
};

verus! {

/// How many criteria there are.
pub const CRITERIA: usize = 3;

/// The position of a criterion in the dialog.
pub open spec fn sort_index(s: SortBy) -> int {
    match s {
        SortBy::Name => 0,
        SortBy::Size => 1,
        SortBy::Ext => 2,
    }
}

/// The criterion at a position.
pub open spec fn sort_at(i: int) -> SortBy {
    if i == 1 {
        SortBy::Size
    } else if i == 2 {
        SortBy::Ext
    } else {
        SortBy::Name
    }
}

/// What a criterion is called.
pub open spec fn sort_label(i: int) -> Seq<char> {
    if i == 0 {
        "Name"@
    } else if i == 1 {
        "Size"@
    } else {
        "Extension"@
    }
}

/// The dialog: how the listing is sorted now, where the user is, and the
/// direction that would be taken.
#[derive(Clone, Copy, Debug, PartialEq, Eq, Structural)]
pub struct SortDialog {
    pub sort: SortBy,
    pub reverse: bool,
    pub cursor: usize,
    pub wanted: bool,
}

/// What a key does to the dialog.
#[derive(Clone, Copy, Debug, PartialEq, Eq, Structural)]
pub enum SortStep {
    /// The user may have moved, or turned the direction round.
    Move,
    /// The user gave up.
    Abort,
    /// The listing is to be sorted so, and read again.
    Choose { sort: SortBy, reverse: bool },
}

/// The title, which shows the direction.
pub open spec fn sort_title(wanted: bool) -> Seq<char> {
    if wanted {
        "Sort by  ↓ desc"@
    } else {
        "Sort by  ↑ asc"@
    }
}

/// The mark before a criterion: on the present one, the direction.
pub open spec fn sort_marker(present: bool, wanted: bool) -> Seq<char> {
    if !present {
        "   "@
    } else if wanted {
        "◆↓ "@
    } else {
        "◆↑ "@
    }
}

/// The width of the frame.
pub open spec fn sort_width(cols: int) -> int {
    if cols - 4 > 28 {
        28
    } else {
        at_least_zero(cols - 4)
    }
}

/// The first row of the frame.
pub open spec fn sort_row0(rows: int) -> int {
    at_least_zero(rows - 5) / 2 + 1
}

/// The first column of the frame.
pub open spec fn sort_col0(cols: int) -> int {
    at_least_zero(cols - sort_width(cols)) / 2 + 1
}

/// The columns for a criterion.
pub open spec fn sort_room(cols: int) -> int {
    at_least_zero(inner_width(sort_width(cols)) - 3)
}

/// The start of a criterion's name, as much as there is room for.
pub open spec fn shown_criterion(i: int, cols: int) -> Seq<char> {
    if utf8_len(sort_label(i)) > sort_room(cols) {
        to_byte(sort_label(i), sort_room(cols))
    } else {
        sort_label(i)
    }
}

impl SortDialog {
    /// Whether the user is on a criterion.
    pub open spec fn is_valid(self) -> bool {
        self.cursor < CRITERIA
    }

    /// The row of a criterion.
    pub open spec fn row_text(self, i: int, rows: int, cols: int) -> Seq<char> {
        goto_text((sort_row0(rows) + 1 + i) as nat, (sort_col0(cols) + 1) as nat) + (if i
            == self.cursor {
            colours_text(BLACK, CYAN)
        } else {
            norm_text()
        }) + sort_marker(i == sort_index(self.sort), self.wanted) + pad_right(
            shown_criterion(i, cols),
            sort_room(cols),
        ) + reset_text()
    }

    /// The dialog on a screen of this size.
    pub open spec fn text(self, rows: int, cols: int) -> Seq<char> {
        nc_box_text(
            sort_row0(rows),
            sort_col0(cols),
            sort_width(cols),
            CRITERIA as int,
            sort_title(self.wanted),
        ) + self.row_text(0, rows, cols) + self.row_text(1, rows, cols) + self.row_text(
            2,
            rows,
            cols,
        )
    }

    /// The dialog after a key.
    pub open spec fn moved(self, key: Key) -> SortDialog {
        if key == Key::Up && self.cursor > 0 {
            SortDialog { cursor: (self.cursor - 1) as usize, ..self }
        } else if key == Key::Down && self.cursor + 1 < CRITERIA {
            SortDialog { cursor: (self.cursor + 1) as usize, ..self }
        } else if key == Key::Char('r') || key == Key::Char('R') {
            SortDialog { wanted: !self.wanted, ..self }
        } else {
            self
        }
    }

    /// The direction that is chosen: to choose the present criterion without
    /// having turned the direction round turns it round.
    pub open spec fn chosen_reverse(self) -> bool {
        if sort_at(self.cursor as int) == self.sort && self.wanted == self.reverse {
            !self.reverse
        } else {
            self.wanted
        }
    }

    /// What a key leads to.
    pub open spec fn step(self, key: Key) -> SortStep {
        if key == Key::Esc {
            SortStep::Abort
        } else if key == Key::Enter {
            SortStep::Choose {
                sort: sort_at(self.cursor as int),
                reverse: self.chosen_reverse(),
            }
        } else {
            SortStep::Move
        }
    }

    /// The dialog for a listing that is sorted so.
    pub fn new(sort: SortBy, reverse: bool) -> (r: SortDialog)
        ensures
            r == (SortDialog {
                sort,
                reverse,
                cursor: sort_index(sort) as usize,
                wanted: reverse,
            }),
            r.is_valid(),
    {
        let cursor: usize = match sort {
            SortBy::Name => 0,
            SortBy::Size => 1,
            SortBy::Ext => 2,
        };
        SortDialog { sort, reverse, cursor, wanted: reverse }
    }

    /// Draws the row of a criterion.
    fn draw_row(&self, o: &mut String, i: usize, rows: u16, cols: u16)
        requires
            i < CRITERIA,
        ensures
            final(o)@ == old(o)@ + self.row_text(i as int, rows as int, cols as int),
    {
        let width = if cols > 32 {
            28
        } else {
            (cols as usize).saturating_sub(4)
        };
        let room = width.saturating_sub(2).saturating_sub(3);
        let row0 = ((rows as usize).saturating_sub(5) / 2 + 1) as u16;
        let col0 = ((cols as usize).saturating_sub(width) / 2 + 1) as u16;
        let row = row0 + 1 + i as u16;
        let label = match i {
            0 => "Name",
            1 => "Size",
            _ => "Extension",
        };
        proof {
            reveal_strlit("Name");
            reveal_strlit("Size");
            reveal_strlit("Extension");
            assert(starts_ascii(label@, label@.len() as int));
            lemma_ascii_start(label@, label@.len() as int);
            lemma_cut_at_end(label@.skip(label@.len() as int));
            crate::text::lemma_cut_joins(label@, label@.len() as int);
            assert(label@.skip(label@.len() as int) =~= Seq::<char>::empty());
            if room <= label@.len() {
                lemma_ascii_start(label@, room as int);
            }
        }
        let shown = if byte_len(label) > room {
            head_to(label, room)
        } else {
            label
        };
        let present = i == (match self.sort {
            SortBy::Name => 0usize,
            SortBy::Size => 1usize,
            SortBy::Ext => 2usize,
        });
        let marker = if !present {
            "   "
        } else if self.wanted {
            "◆↓ "
        } else {
            "◆↑ "
        };
        let mut t = String::new();
        goto(&mut t, row, col0 + 1);
        assert(t@ =~= goto_text(row as nat, (col0 + 1) as nat));
        if i == self.cursor {
            c_sel(&mut t);
        } else {
            c_norm(&mut t);
        }
        t.push_str(marker);
        push_padded(&mut t, shown, room);
        c_reset(&mut t);
        o.push_str(t.as_str());
    }

    /// Draws the dialog.
    pub fn draw(&self, o: &mut String, rows: u16, cols: u16)
        ensures
            final(o)@ == old(o)@ + self.text(rows as int, cols as int),
    {
        let width = if cols > 32 {
            28
        } else {
            (cols as usize).saturating_sub(4)
        };
        let row0 = ((rows as usize).saturating_sub(5) / 2 + 1) as u16;
        let col0 = ((cols as usize).saturating_sub(width) / 2 + 1) as u16;
        let title = if self.wanted {
            "Sort by  ↓ desc"
        } else {
            "Sort by  ↑ asc"
        };
        let mut t = String::new();
        draw_nc_box(&mut t, row0, col0, width, CRITERIA, title);
        assert(t@ =~= nc_box_text(
            sort_row0(rows as int),
            sort_col0(cols as int),
            sort_width(cols as int),
            CRITERIA as int,
            sort_title(self.wanted),
        ));
        self.draw_row(&mut t, 0, rows, cols);
        self.draw_row(&mut t, 1, rows, cols);
        self.draw_row(&mut t, 2, rows, cols);
        o.push_str(t.as_str());
    }
}

/// The dialog for a pane; there is none for a remote one.
pub fn sort_dialog(p: &Pane) -> (r: Option<SortDialog>)
    ensures
        match p@ {
            PaneView::Local(l) => r == Some(opened(l.sort, l.reverse)),
            PaneView::Remote(_) => r is None,
        },
        r matches Some(d) ==> d.is_valid(),
{
    match p {
        Pane::Local(l) => Some(SortDialog::new(l.sort, l.reverse)),
        Pane::Remote(_) => None,
    }
}

/// Takes a key.
pub fn op_sort(d: &mut SortDialog, key: Key) -> (r: SortStep)
    requires
        old(d).is_valid(),
    ensures
        r == old(d).step(key),
        *final(d) == old(d).moved(key),
        final(d).is_valid(),
{
    match key {
        Key::Esc => SortStep::Abort,
        Key::Enter => {
            let sort = match d.cursor {
                1 => SortBy::Size,
                2 => SortBy::Ext,
                _ => SortBy::Name,
            };
            let reverse = if sort == d.sort && d.wanted == d.reverse {
                !d.reverse
            } else {
                d.wanted
            };
            SortStep::Choose { sort, reverse }
        },
        Key::Char(c) => {
            if c == 'r' || c == 'R' {
                d.wanted = !d.wanted;
            }
            SortStep::Move
        },
        Key::Up => {
            if d.cursor > 0 {
                d.cursor = d.cursor - 1;
            }
            SortStep::Move
        },
        Key::Down => {
            if d.cursor + 1 < CRITERIA {
                d.cursor = d.cursor + 1;
            }
            SortStep::Move
        },
        _ => SortStep::Move,
    }
}

/// The dialog as it opens for a listing that is sorted so.
pub open spec fn opened(sort: SortBy, reverse: bool) -> SortDialog {
    SortDialog { sort, reverse, cursor: sort_index(sort) as usize, wanted: reverse }
}

/// To open the dialog and choose at once turns the direction round and keeps the
/// criterion; so does to turn the direction round first.
pub proof fn choosing_at_once_turns_round(sort: SortBy, reverse: bool)
    ensures
        opened(sort, reverse).step(Key::Enter) == (SortStep::Choose { sort, reverse: !reverse }),
        opened(sort, reverse).moved(Key::Char('r')).step(Key::Enter) == (SortStep::Choose {
            sort,
            reverse: !reverse,
        }),
{
}

/// Another criterion is taken with the direction that the title shows.
pub proof fn other_criterion_keeps_direction(d: SortDialog)
    requires
        d.is_valid(),
        sort_at(d.cursor as int) != d.sort,
    ensures
        d.step(Key::Enter) == (SortStep::Choose {
            sort: sort_at(d.cursor as int),
            reverse: d.wanted,
        }),
{
}

/// To turn the direction round twice changes nothing.
pub proof fn turning_round_twice_changes_nothing(d: SortDialog)
    ensures
        d.moved(Key::Char('r')).moved(Key::Char('R')) == d,
{
}

/// Each criterion has a place in the dialog, and its name there.
pub proof fn criteria_have_their_places(s: SortBy, i: int)
    ensures
        sort_at(sort_index(s)) == s,
        0 <= sort_index(s) < 3,
        0 <= i < 3 ==> sort_index(sort_at(i)) == i,
        sort_label(sort_index(SortBy::Name)) == "Name"@,
        sort_label(sort_index(SortBy::Size)) == "Size"@,
        sort_label(sort_index(SortBy::Ext)) == "Extension"@,
{
}

/// The dialog opens on the present criterion. Up and Down go to the one beside, if
/// there is one; the letter turns the direction round; no other key changes it.
pub proof fn dialog_obeys_its_keys(d: SortDialog, key: Key)
    requires
        d.is_valid(),
    ensures
        opened(d.sort, d.reverse).cursor == sort_index(d.sort),
        opened(d.sort, d.reverse).wanted == d.reverse,
        d.cursor > 0 ==> d.moved(Key::Up).cursor == d.cursor - 1,
        d.cursor == 0 ==> d.moved(Key::Up) == d,
        d.cursor < 2 ==> d.moved(Key::Down).cursor == d.cursor + 1,
        d.cursor == 2 ==> d.moved(Key::Down) == d,
        d.moved(Key::Char('r')).wanted == !d.wanted,
        d.moved(Key::Char('R')) == d.moved(Key::Char('r')),
        d.moved(Key::Char('r')).cursor == d.cursor,
        d.moved(key).sort == d.sort && d.moved(key).reverse == d.reverse,
        !(key is Up) && !(key is Down) && key != Key::Char('r') && key != Key::Char('R')
            ==> d.moved(key) == d,
        d.step(key) is Abort <==> key is Esc,
        d.step(key) is Choose <==> key is Enter,
{
}

/// What is chosen is the criterion that the user is on.
pub proof fn criterion_under_the_cursor_is_chosen(d: SortDialog)
    requires
        d.is_valid(),
    ensures
        d.step(Key::Enter) matches SortStep::Choose { sort, reverse } && sort_index(sort)
            == d.cursor && (sort == d.sort ==> reverse != d.reverse) && (sort != d.sort ==> reverse
            == d.wanted),
{
}

/// Every criterion stands in its row of the frame: the one that the user is on in the
/// colours of the cursor, and the present one with a mark for the direction.
pub proof fn every_criterion_is_shown(d: SortDialog, rows: int, cols: int, i: int) -> (parts: (
    Seq<char>,
    Seq<char>,
))
    requires
        0 <= i < 3,
    ensures
        d.text(rows, cols) == parts.0 + (goto_text(
            (sort_row0(rows) + 1 + i) as nat,
            (sort_col0(cols) + 1) as nat,
        ) + (if i == d.cursor {
            colours_text(0x000000, 0x00aaaa)
        } else {
            colours_text(0x55ffff, 0x0000aa)
        }) + (if sort_at(i) == d.sort {
            if d.wanted {
                "◆↓ "@
            } else {
                "◆↑ "@
            }
        } else {
            "   "@
        }) + pad_right(shown_criterion(i, cols), sort_room(cols)) + reset_text()) + parts.1,
{
    let frame = nc_box_text(
        sort_row0(rows),
        sort_col0(cols),
        sort_width(cols),
        CRITERIA as int,
        sort_title(d.wanted),
    );
    let a = d.row_text(0, rows, cols);
    let b = d.row_text(1, rows, cols);
    let c = d.row_text(2, rows, cols);
    if i == 0 {
        lemma_more_behind(frame, a, b, c);
        (frame, b + c)
    } else if i == 1 {
        (frame + a, c)
    } else {
        lemma_last_part(frame + a + b, c);
        (frame + a + b, Seq::empty())
    }
}

/// On a screen of more than 32 columns the names are shown whole, and the frame stands in
/// the middle, but for one row and one column.
pub proof fn dialog_stands_in_the_middle(rows: int, cols: int, i: int)
    requires
        rows >= 5,
        cols > 32,
        0 <= i < 3,
    ensures
        shown_criterion(i, cols) == sort_label(i),
        sort_width(cols) == 28,
        sort_room(cols) == 23,
        ({
            let above = sort_row0(rows) - 1;
            let below = rows - above - 5;
            let left = sort_col0(cols) - 1;
            let right = cols - left - 28;
            &&& above == below || above + 1 == below
            &&& left == right || left + 1 == right
        }),
{
    reveal_strlit("Name");
    reveal_strlit("Size");
    reveal_strlit("Extension");
    let s = sort_label(i);
    crate::text::lemma_ascii_bytes(s);
}

/// The title shows the direction that would be taken.
pub proof fn title_shows_the_direction()
    ensures
        sort_title(true).contains('↓'),
        !sort_title(true).contains('↑'),
        sort_title(false).contains('↑'),
        !sort_title(false).contains('↓'),
{
    reveal_strlit("Sort by  ↓ desc");
    reveal_strlit("Sort by  ↑ asc");
    assert("Sort by  ↓ desc"@[9] == '↓');
    assert("Sort by  ↑ asc"@[9] == '↑');
}

/// On a narrower screen the frame leaves four columns beside it, and of a name the
/// start is shown, as much as there is room for.
pub proof fn narrow_dialog_fits_the_screen(rows: int, cols: int, i: int)
    requires
        0 <= cols <= 32,
        0 <= i < 3,
    ensures
        cols >= 4 ==> sort_width(cols) == cols - 4,
        cols < 4 ==> sort_width(cols) == 0,
        rows <= 5 ==> sort_row0(rows) == 1,
        sort_room(cols) < sort_label(i).len() ==> shown_criterion(i, cols) == sort_label(i).take(
            sort_room(cols),
        ),
        sort_room(cols) >= sort_label(i).len() ==> shown_criterion(i, cols) == sort_label(i),
        cols >= 9 ==> sort_room(cols) == cols - 9,
        cols < 9 ==> sort_room(cols) == 0,
{
    reveal_strlit("Name");
    reveal_strlit("Size");
    reveal_strlit("Extension");
    let s = sort_label(i);
    crate::text::lemma_ascii_bytes(s);
    if sort_room(cols) < s.len() {
        lemma_ascii_start(s, sort_room(cols));
    }
}

} // verus!
