//! A list of items over the panes, of which the user picks one.

use vstd::prelude::*;

use crate::ansi::{
    c_norm, c_reset, c_sel, colours_text, goto, goto_text, reset_text, BLACK, CYAN,
};
use crate::draw::{at_least_zero, lemma_last_part, lemma_more_behind, norm_text};
use crate::frame::{draw_nc_box, inner_width, nc_box_text};
use crate::keys::Key;
use crate::scan::texts;
use crate::text::{
    byte_len, can_cut, head_to, on_boundary, pad_right, push_padded, put, to_byte, utf8_len,
};

verus! {

/// The items, and which of them the user is on.
pub struct Picker {
    pub title: String,
    pub items: Vec<String>,
    pub cursor: usize,
}

/// The content of a picker.
#[verifier::ext_equal]
pub struct PickerView {
    pub title: Seq<char>,
    pub items: Seq<Seq<char>>,
    pub cursor: int,
}

impl View for Picker {
    type V = PickerView;

    open spec fn view(&self) -> PickerView {
        PickerView { title: self.title@, items: texts(self.items@), cursor: self.cursor as int }
    }
}

/// What a key does to a picker.
#[derive(Clone, Copy, Debug, PartialEq, Eq, Structural)]
pub enum PickerStep {
    /// The user may have moved.
    Move,
    /// The user gave up.
    Abort,
    /// This item was picked.
    Pick(usize),
}

/// The bytes of the longest of the first `k` items.
pub open spec fn longest(items: Seq<Seq<char>>, k: int) -> int
    decreases k,
{
    if k <= 0 {
        0
    } else {
        let before = longest(items, k - 1);
        if utf8_len(items[k - 1]) > before {
            utf8_len(items[k - 1]) as int
        } else {
            before
        }
    }
}

/// `n`, but at least `low` and at most `high`.
pub open spec fn clamped(n: int, low: int, high: int) -> int {
    if n < low {
        low
    } else if n > high {
        high
    } else {
        n
    }
}

impl PickerView {
    /// Whether the user is on an item.
    pub open spec fn is_valid(self) -> bool {
        0 <= self.cursor < self.items.len()
    }

    /// How many items a screen with so many rows shows.
    pub open spec fn visible(self, rows: int) -> int {
        let room = at_least_zero(rows - 6);
        if self.items.len() < room {
            self.items.len() as int
        } else {
            room
        }
    }

    /// The width of the frame: that of the longest item, or of the title.
    pub open spec fn width(self, cols: int) -> int {
        let items = longest(self.items, self.items.len() as int);
        let title = utf8_len(self.title) + 4;
        clamped(
            (if items > title {
                items
            } else {
                title as int
            }) + 4,
            24,
            cols - 4,
        )
    }

    /// The first row of the frame.
    pub open spec fn row0(self, rows: int) -> int {
        at_least_zero(rows - (self.visible(rows) + 2)) / 2 + 1
    }

    /// The first column of the frame.
    pub open spec fn col0(self, cols: int) -> int {
        at_least_zero(cols - self.width(cols)) / 2 + 1
    }

    /// The first item that is shown.
    pub open spec fn offset(self, rows: int) -> int {
        if self.cursor >= self.visible(rows) {
            self.cursor - self.visible(rows) + 1
        } else {
            0
        }
    }

    /// The columns for an item.
    pub open spec fn room(self, cols: int) -> int {
        inner_width(self.width(cols)) - 2
    }

    /// Whether an item fits, or can be cut between two characters.
    pub open spec fn is_item_drawable(self, i: int, cols: int) -> bool {
        utf8_len(self.items[i]) > self.room(cols) ==> on_boundary(self.items[i], self.room(cols))
    }

    /// Whether the picker can be drawn on a screen of this size.
    pub open spec fn is_drawable(self, rows: int, cols: int) -> bool {
        cols >= 28 && forall|i: int|
            self.offset(rows) <= i < self.offset(rows) + self.visible(rows)
                ==> #[trigger] self.is_item_drawable(i, cols)
    }

    /// The start of an item, as many bytes as there is room for.
    pub open spec fn shown_item(self, i: int, cols: int) -> Seq<char> {
        if utf8_len(self.items[i]) > self.room(cols) {
            to_byte(self.items[i], self.room(cols))
        } else {
            self.items[i]
        }
    }

    /// The row `i` of the items.
    pub open spec fn row_text(self, i: int, rows: int, cols: int) -> Seq<char> {
        let idx = self.offset(rows) + i;
        goto_text((self.row0(rows) + 1 + i) as nat, (self.col0(cols) + 1) as nat) + (if idx
            == self.cursor {
            colours_text(BLACK, CYAN)
        } else {
            norm_text()
        }) + seq![' '] + pad_right(self.shown_item(idx, cols), self.room(cols)) + seq![' ']
            + reset_text()
    }

    /// The first `n` rows of the items.
    pub open spec fn rows_text(self, n: int, rows: int, cols: int) -> Seq<char>
        decreases n,
    {
        if n <= 0 {
            Seq::empty()
        } else {
            self.rows_text(n - 1, rows, cols) + self.row_text(n - 1, rows, cols)
        }
    }

    /// The picker on a screen of this size.
    pub open spec fn text(self, rows: int, cols: int) -> Seq<char> {
        nc_box_text(
            self.row0(rows),
            self.col0(cols),
            self.width(cols),
            self.visible(rows),
            self.title,
        ) + self.rows_text(self.visible(rows), rows, cols)
    }

    /// The picker after a key: up and down move, as far as there are items.
    pub open spec fn moved(self, key: Key) -> PickerView {
        if key == Key::Up && self.cursor > 0 {
            PickerView { cursor: self.cursor - 1, ..self }
        } else if key == Key::Down && self.cursor + 1 < self.items.len() {
            PickerView { cursor: self.cursor + 1, ..self }
        } else {
            self
        }
    }
}

/// What a key leads to: Escape gives up, and Enter picks.
pub open spec fn picker_step(v: PickerView, key: Key) -> PickerStep {
    if key == Key::Esc {
        PickerStep::Abort
    } else if key == Key::Enter {
        PickerStep::Pick(v.cursor as usize)
    } else {
        PickerStep::Move
    }
}

/// Where a picker is drawn, and what it shows.
struct Place {
    visible: usize,
    width: usize,
    row0: u16,
    col0: u16,
    offset: usize,
}

impl Picker {
    /// A picker of these items, if there are any.
    pub fn new(title: &str, items: Vec<String>) -> (r: Option<Picker>)
        ensures
            match r {
                Some(p) => items@.len() > 0 && p@ == (PickerView {
                    title: title@,
                    items: texts(items@),
                    cursor: 0,
                }) && p@.is_valid(),
                None => items@.len() == 0,
            },
    {
        if items.len() == 0 {
            None
        } else {
            Some(Picker { title: title.to_string(), items, cursor: 0 })
        }
    }

    /// The width of the frame.
    fn width(&self, cols: u16) -> (r: usize)
        requires
            cols >= 28,
        ensures
            r == self@.width(cols as int),
    {
        let ghost items = self@.items;
        let n = self.items.len();
        let mut most: usize = 0;
        let mut i: usize = 0;
        while i < n
            invariant
                n == self.items@.len(),
                items == texts(self.items@),
                i <= n,
                most == longest(items, i as int),
            decreases n - i,
        {
            assert(items[i as int] == self.items@[i as int]@);
            let k = byte_len(self.items[i].as_str());
            if k > most {
                most = k;
            }
            i += 1;
        }
        let high = cols as usize - 4;
        let title = byte_len(self.title.as_str()).saturating_add(4);
        let wanted = if most > title {
            most
        } else {
            title
        };
        let wanted = wanted.saturating_add(4);
        if wanted < 24 {
            24
        } else if wanted > high {
            high
        } else {
            wanted
        }
    }

    /// Where the picker is drawn.
    fn place(&self, rows: u16, cols: u16) -> (r: Place)
        requires
            cols >= 28,
            self@.is_valid(),
        ensures
            r.visible == self@.visible(rows as int),
            r.width == self@.width(cols as int),
            24 <= r.width <= cols - 4,
            r.row0 == self@.row0(rows as int),
            r.col0 == self@.col0(cols as int),
            r.offset == self@.offset(rows as int),
            r.row0 + 1 + r.visible <= 0xffff,
            r.col0 + 1 <= 0xffff,
            r.offset + r.visible <= self@.items.len() || r.visible == 0,
    {
        let room = (rows as usize).saturating_sub(6);
        let n = self.items.len();
        let visible = if n < room {
            n
        } else {
            room
        };
        let width = self.width(cols);
        let row0 = ((rows as usize).saturating_sub(visible + 2) / 2 + 1) as u16;
        let col0 = ((cols as usize).saturating_sub(width) / 2 + 1) as u16;
        let offset = if self.cursor >= visible {
            self.cursor - visible + 1
        } else {
            0
        };
        Place { visible, width, row0, col0, offset }
    }

    /// Tests whether the picker can be drawn on a screen of this size.
    pub fn drawable(&self, rows: u16, cols: u16) -> (r: bool)
        requires
            self@.is_valid(),
        ensures
            r == self@.is_drawable(rows as int, cols as int),
    {
        if cols < 28 {
            return false;
        }
        let p = self.place(rows, cols);
        let room = p.width - 4;
        let ghost v = self@;
        let mut i: usize = 0;
        while i < p.visible
            invariant
                v == self@,
                v.is_valid(),
                cols >= 28,
                i <= p.visible,
                p.visible == v.visible(rows as int),
                p.offset == v.offset(rows as int),
                p.offset + p.visible <= v.items.len() || p.visible == 0,
                room == v.room(cols as int),
                forall|j: int|
                    p.offset <= j < p.offset + i ==> #[trigger] v.is_item_drawable(j, cols as int),
            decreases p.visible - i,
        {
            let idx = p.offset + i;
            assert(v.items[idx as int] == self.items@[idx as int]@);
            let item = self.items[idx].as_str();
            if byte_len(item) > room && !can_cut(item, room) {
                assert(!v.is_item_drawable(idx as int, cols as int));
                return false;
            }
            i += 1;
        }
        true
    }

    /// Draws the picker.
    pub fn draw(&self, o: &mut String, rows: u16, cols: u16)
        requires
            self@.is_valid(),
            self@.is_drawable(rows as int, cols as int),
        ensures
            final(o)@ == old(o)@ + self@.text(rows as int, cols as int),
    {
        let p = self.place(rows, cols);
        let room = p.width - 4;
        let ghost v = self@;
        let mut t = String::new();
        draw_nc_box(&mut t, p.row0, p.col0, p.width, p.visible, self.title.as_str());
        let ghost frame = t@;
        assert(frame =~= nc_box_text(
            v.row0(rows as int),
            v.col0(cols as int),
            v.width(cols as int),
            v.visible(rows as int),
            v.title,
        ));
        let mut i: usize = 0;
        assert(t@ =~= frame + v.rows_text(0, rows as int, cols as int));
        while i < p.visible
            invariant
                v == self@,
                v.is_valid(),
                v.is_drawable(rows as int, cols as int),
                i <= p.visible,
                p.visible == v.visible(rows as int),
                p.offset == v.offset(rows as int),
                p.row0 == v.row0(rows as int),
                p.col0 == v.col0(cols as int),
                p.row0 + 1 + p.visible <= 0xffff,
                p.col0 + 1 <= 0xffff,
                p.offset + p.visible <= v.items.len() || p.visible == 0,
                room == v.room(cols as int),
                t@ == frame + v.rows_text(i as int, rows as int, cols as int),
            decreases p.visible - i,
        {
            let idx = p.offset + i;
            assert(v.items[idx as int] == self.items@[idx as int]@);
            assert(v.is_item_drawable(idx as int, cols as int));
            let item = self.items[idx].as_str();
            let shown = if byte_len(item) > room {
                head_to(item, room)
            } else {
                item
            };
            let row = p.row0 + 1 + i as u16;
            let mut line = String::new();
            goto(&mut line, row, p.col0 + 1);
            assert(line@ =~= goto_text(row as nat, (p.col0 + 1) as nat));
            if idx == self.cursor {
                c_sel(&mut line);
            } else {
                c_norm(&mut line);
            }
            put(&mut line, ' ');
            push_padded(&mut line, shown, room);
            put(&mut line, ' ');
            c_reset(&mut line);
            t.push_str(line.as_str());
            i += 1;
            assert(t@ =~= frame + v.rows_text(i as int, rows as int, cols as int));
        }
        o.push_str(t.as_str());
    }
}

/// Takes a key.
pub fn picker(p: &mut Picker, key: Key) -> (r: PickerStep)
    requires
        old(p)@.is_valid(),
    ensures
        r == picker_step(old(p)@, key),
        final(p)@ == old(p)@.moved(key),
        final(p)@.is_valid(),
{
    match key {
        Key::Esc => PickerStep::Abort,
        Key::Enter => PickerStep::Pick(p.cursor),
        Key::Up => {
            if p.cursor > 0 {
                p.cursor = p.cursor - 1;
            }
            PickerStep::Move
        },
        Key::Down => {
            if p.cursor < p.items.len() - 1 {
                p.cursor = p.cursor + 1;
            }
            PickerStep::Move
        },
        _ => PickerStep::Move,
    }
}

/// What is picked is one of the items, and it is among those that are shown.
pub proof fn picked_item_is_shown(v: PickerView, rows: int)
    requires
        v.is_valid(),
        v.items.len() <= usize::MAX,
        rows > 6,
    ensures
        picker_step(v, Key::Enter) == PickerStep::Pick(v.cursor as usize),
        v.offset(rows) <= v.cursor < v.offset(rows) + v.visible(rows) <= v.items.len(),
{
}

/// Going down and up again comes back to the same item, unless there is none
/// below.
pub proof fn up_undoes_down(v: PickerView)
    requires
        v.is_valid(),
        v.cursor + 1 < v.items.len(),
    ensures
        v.moved(Key::Down).moved(Key::Up) == v,
{
}

/// The frame lies on the screen, wherever that has room for one.
pub proof fn picker_lies_on_the_screen(v: PickerView, rows: int, cols: int)
    requires
        rows >= 2,
        cols >= 28,
    ensures
        1 <= v.row0(rows),
        v.row0(rows) + v.visible(rows) + 1 <= rows,
        1 <= v.col0(cols),
        v.col0(cols) + v.width(cols) - 1 <= cols,
{
}

/// Enter picks the item that the user is on and Escape gives up; no other key ends
/// the picker. Up and Down go to the item beside, if there is one, and no other key
/// moves.
pub proof fn picker_obeys_four_keys(v: PickerView, key: Key)
    requires
        v.is_valid(),
        v.items.len() <= usize::MAX,
    ensures
        picker_step(v, key) is Abort <==> key is Esc,
        picker_step(v, key) is Pick <==> key is Enter,
        picker_step(v, Key::Enter) matches PickerStep::Pick(i) && i == v.cursor,
        v.cursor > 0 ==> v.moved(Key::Up).cursor == v.cursor - 1,
        v.cursor == 0 ==> v.moved(Key::Up) == v,
        v.cursor + 1 < v.items.len() ==> v.moved(Key::Down).cursor == v.cursor + 1,
        v.cursor + 1 == v.items.len() ==> v.moved(Key::Down) == v,
        v.moved(key).items == v.items && v.moved(key).title == v.title,
        !(key is Up) && !(key is Down) ==> v.moved(key) == v,
{
}

/// The longest item has the most bytes: no item has more, and one has as many.
pub proof fn longest_item_has_the_most_bytes(items: Seq<Seq<char>>, k: int, i: int)
    requires
        0 <= i < k <= items.len(),
    ensures
        utf8_len(items[i]) <= longest(items, k),
        exists|j: int| 0 <= j < k && #[trigger] utf8_len(items[j]) == longest(items, k),
    decreases k,
{
    if k == 1 {
        assert(longest(items, 0) == 0);
        assert(utf8_len(items[0]) == longest(items, k));
    } else {
        longest_item_has_the_most_bytes(
            items,
            k - 1,
            if i < k - 1 {
                i
            } else {
                0
            },
        );
        if utf8_len(items[k - 1]) > longest(items, k - 1) {
            assert(utf8_len(items[k - 1]) == longest(items, k));
        } else {
            let j = choose|j: int|
                0 <= j < k - 1 && #[trigger] utf8_len(items[j]) == longest(items, k - 1);
            assert(utf8_len(items[j]) == longest(items, k));
        }
    }
}

/// On a screen that is wide enough every item is shown whole, and the title has room.
pub proof fn items_are_shown_whole(v: PickerView, cols: int, i: int)
    requires
        0 <= i < v.items.len(),
        cols >= 28,
        longest(v.items, v.items.len() as int) + 8 <= cols,
        utf8_len(v.title) + 12 <= cols,
    ensures
        v.shown_item(i, cols) == v.items[i],
        v.width(cols) >= utf8_len(v.title) + 8,
        v.width(cols) >= utf8_len(v.items[i]) + 4,
        24 <= v.width(cols) <= cols - 4,
{
    longest_item_has_the_most_bytes(v.items, v.items.len() as int, i);
}

/// Of an item that is too long the start is shown, as many bytes as there is room
/// for.
pub proof fn start_of_a_long_item_is_shown(v: PickerView, cols: int, i: int)
    requires
        0 <= i < v.items.len(),
        v.is_item_drawable(i, cols),
        utf8_len(v.items[i]) > v.room(cols),
    ensures
        ({
            let start = v.shown_item(i, cols);
            &&& start.len() <= v.items[i].len()
            &&& start == v.items[i].take(start.len() as int)
            &&& utf8_len(start) == v.room(cols)
        }),
{
    let s = v.items[i];
    let at = v.room(cols);
    crate::text::lemma_cut_joins(s, at);
    let a = to_byte(s, at);
    let b = crate::text::from_byte(s, at);
    assert((a + b).take(a.len() as int) =~= a);
}

/// Every visible row shows the item that stands as far behind the first one shown,
/// within the frame; the one that the user is on, and no other, in the colours of the
/// cursor. The row stands between `parts`.
pub proof fn picker_row_shows_its_item(
    v: PickerView,
    n: int,
    rows: int,
    cols: int,
    i: int,
) -> (parts: (Seq<char>, Seq<char>))
    requires
        0 <= i < n,
    ensures
        v.rows_text(n, rows, cols) == parts.0 + (goto_text(
            (v.row0(rows) + 1 + i) as nat,
            (v.col0(cols) + 1) as nat,
        ) + (if v.offset(rows) + i == v.cursor {
            colours_text(0x000000, 0x00aaaa)
        } else {
            colours_text(0x55ffff, 0x0000aa)
        }) + seq![' '] + pad_right(v.shown_item(v.offset(rows) + i, cols), v.room(cols)) + seq![' ']
            + reset_text()) + parts.1,
    decreases n,
{
    let before = v.rows_text(n - 1, rows, cols);
    let last = v.row_text(n - 1, rows, cols);
    if i == n - 1 {
        lemma_last_part(before, last);
        (before, Seq::empty())
    } else {
        let (a, b) = picker_row_shows_its_item(v, n - 1, rows, cols, i);
        lemma_more_behind(a, v.row_text(i, rows, cols), b, last);
        (a, b + last)
    }
}

/// The frame stands in the middle of the screen, but for one row and one column, and
/// shows all items if the screen has room for them and for six rows more.
pub proof fn picker_stands_in_the_middle(v: PickerView, rows: int, cols: int)
    requires
        rows >= 6,
        cols >= 28,
    ensures
        ({
            let above = v.row0(rows) - 1;
            let below = rows - above - (v.visible(rows) + 2);
            let left = v.col0(cols) - 1;
            let right = cols - left - v.width(cols);
            &&& above == below || above + 1 == below
            &&& left == right || left + 1 == right
        }),
        v.items.len() + 6 <= rows ==> v.visible(rows) == v.items.len(),
        v.items.len() + 6 > rows ==> v.visible(rows) == rows - 6,
{
}

/// A picker of ASCII items can be drawn, if the screen has 28 columns.
pub proof fn ascii_items_can_be_drawn(v: PickerView, rows: int, cols: int)
    requires
        v.is_valid(),
        cols >= 28,
        forall|i: int| 0 <= i < v.items.len() ==> crate::text::is_ascii(#[trigger] v.items[i]),
    ensures
        v.is_drawable(rows, cols),
{
    assert forall|i: int|
        v.offset(rows) <= i < v.offset(rows) + v.visible(
            rows,
        ) implies #[trigger] v.is_item_drawable(i, cols) by {
        let s = v.items[i];
        assert(crate::text::is_ascii(s));
        crate::text::lemma_ascii_bytes(s);
        if utf8_len(s) > v.room(cols) {
            crate::text::lemma_ascii_start(s, v.room(cols));
        }
    }
}

/// A picker is its frame, with the title, around the rows of its items.
pub proof fn picker_is_its_frame_and_its_rows(v: PickerView, rows: int, cols: int)
    ensures
        v.text(rows, cols) == nc_box_text(
            v.row0(rows),
            v.col0(cols),
            v.width(cols),
            v.visible(rows),
            v.title,
        ) + v.rows_text(v.visible(rows), rows, cols),
{
}

} // verus!
