//! Drawing the panes, their borders, the bars and the frames of dialogs.

use vstd::prelude::*;

use crate::ansi::{
    bg_text, c_dir, c_hdr, c_hdr_act, c_norm, c_reset, c_sel, c_sel_file, c_sel_inactive, c_status,
    colours_text, fg_text, goto, goto_text, reset_text, set_bg, set_fg, BLACK, BLUE, BRIGHT_CYAN,
    CYAN, DARK_GREY, LIGHT_GREY, WHITE, YELLOW,
};
use crate::entry::{display_text, is_displayable, EntryView, FileEntry};
use crate::listing::{Listing, ListingView};
use crate::pane::{Pane, Panes, PanesView};
use crate::text::{
    byte_len, can_cut, char_count, chars_of, from_byte, head_to, is_ascii, lemma_cut_joins,
    lemma_no_more_chars_than_bytes, on_boundary, pad_right, push_padded, push_repeated,
    push_spaces, put, repeated, spaces, tail_from, to_byte, utf8_len,
};

verus! {

/// The columns that a character takes on the screen: two for an icon, whose code
/// point lies in the private use area, else one.
pub open spec fn char_columns(c: char) -> int {
    if '\u{e000}' <= c <= '\u{f8ff}' {
        2
    } else {
        1
    }
}

/// The columns that a text takes.
pub open spec fn columns(s: Seq<char>) -> int
    decreases s.len(),
{
    if s.len() == 0 {
        0
    } else {
        char_columns(s[0]) + columns(s.skip(1))
    }
}

/// The longest start of `s` that takes at most `max` columns.
pub open spec fn truncated(s: Seq<char>, max: int) -> Seq<char>
    decreases s.len(),
{
    if s.len() == 0 || char_columns(s[0]) > max {
        Seq::empty()
    } else {
        seq![s[0]] + truncated(s.skip(1), max - char_columns(s[0]))
    }
}

/// A text takes no more columns than it has bytes.
pub proof fn lemma_columns_fit(s: Seq<char>)
    ensures
        0 <= columns(s) <= utf8_len(s),
    decreases s.len(),
{
    if s.len() > 0 {
        lemma_columns_fit(s.skip(1));
        assert(s.skip(1) =~= s.drop_first());
        lemma_char_columns_fit(s[0]);
    }
}

proof fn lemma_char_columns_fit(c: char)
    ensures
        char_columns(c) <= vstd::utf8::encode_scalar(c as u32).len(),
{
}

/// A truncated text takes no more columns than allowed, is a start of the text,
/// and is the whole text or leaves no room for the next character.
pub proof fn truncated_is_longest_start(s: Seq<char>, max: int)
    requires
        max >= 0,
    ensures
        0 <= columns(truncated(s, max)) <= max,
        truncated(s, max).len() <= s.len(),
        truncated(s, max) == s.take(truncated(s, max).len() as int),
        truncated(s, max) == s || columns(truncated(s, max)) + char_columns(
            s[truncated(s, max).len() as int],
        ) > max,
    decreases s.len(),
{
    let t = truncated(s, max);
    if s.len() == 0 {
        assert(t =~= s);
    } else if char_columns(s[0]) > max {
        assert(t =~= s.take(0));
    } else {
        let rest = truncated(s.skip(1), max - char_columns(s[0]));
        truncated_is_longest_start(s.skip(1), max - char_columns(s[0]));
        assert(t.skip(1) =~= rest);
        assert(t =~= s.take(t.len() as int));
        if rest == s.skip(1) {
            assert(t =~= s);
        } else {
            if rest.len() == s.skip(1).len() {
                assert(s.skip(1).take(rest.len() as int) =~= s.skip(1));
            }
            assert(s.skip(1)[rest.len() as int] == s[t.len() as int]);
        }
    }
}

/// Cuts a text to a number of columns.
pub fn trunc_cols<'a>(s: &'a str, max_cols: usize) -> (r: &'a str)
    ensures
        r@ == truncated(s@, max_cols as int),
{
    let v = chars_of(s);
    let n = v.len();
    let mut left: usize = max_cols;
    let mut i: usize = 0;
    assert(v@.skip(0) =~= v@);
    assert(v@.take(0) + truncated(v@, max_cols as int) =~= truncated(v@, max_cols as int));
    while i < n
        invariant
            n == v@.len(),
            v@ == s@,
            i <= n,
            v@.take(i as int) + truncated(v@.skip(i as int), left as int) == truncated(
                v@,
                max_cols as int,
            ),
        decreases n - i,
    {
        let w: usize = if '\u{e000}' <= v[i] && v[i] <= '\u{f8ff}' {
            2
        } else {
            1
        };
        if w > left {
            let r = vstd::string::StrSliceExecFns::substring_char(s, 0, i);
            assert(r@ =~= v@.take(i as int) + Seq::<char>::empty());
            return r;
        }
        assert(v@.skip(i as int).skip(1) =~= v@.skip(i + 1));
        assert(v@.take(i as int) + (seq![v@[i as int]] + truncated(v@.skip(i + 1), left - w))
            =~= v@.take(i + 1) + truncated(v@.skip(i + 1), left - w));
        left -= w;
        i += 1;
    }
    assert(v@.take(n as int) + truncated(v@.skip(n as int), left as int) =~= v@);
    s
}

/// The columns that a text takes.
pub fn str_cols(s: &str) -> (r: usize)
    ensures
        r == columns(s@),
{
    let total = byte_len(s);
    let v = chars_of(s);
    let n = v.len();
    let mut r: usize = 0;
    let mut i: usize = 0;
    proof {
        lemma_columns_fit(s@);
        assert(v@.skip(0) =~= v@);
    }
    while i < n
        invariant
            n == v@.len(),
            i <= n,
            total == utf8_len(v@),
            columns(v@) <= total,
            r + columns(v@.skip(i as int)) == columns(v@),
        decreases n - i,
    {
        assert(v@.skip(i as int).skip(1) =~= v@.skip(i + 1));
        proof {
            lemma_columns_fit(v@.skip(i + 1));
        }
        r += if '\u{e000}' <= v[i] && v[i] <= '\u{f8ff}' {
            2
        } else {
            1
        };
        i += 1;
    }
    r
}

/// `n`, but not below zero.
pub open spec fn at_least_zero(n: int) -> int {
    if n > 0 {
        n
    } else {
        0
    }
}

/// The colours of normal text.
pub open spec fn norm_text() -> Seq<char> {
    colours_text(BRIGHT_CYAN, BLUE)
}

/// Whether a title fits into a border of this width, or can be cut between two
/// characters.
pub open spec fn is_title_drawable(title: Seq<char>, width: int) -> bool {
    utf8_len(title) > at_least_zero(width - 4) ==> on_boundary(
        title,
        utf8_len(title) - at_least_zero(width - 4),
    )
}

/// The end of the title, as many bytes as fit beside two dashes and two blanks.
pub open spec fn shown_title(title: Seq<char>, width: int) -> Seq<char> {
    if utf8_len(title) > at_least_zero(width - 4) {
        from_byte(title, utf8_len(title) - at_least_zero(width - 4))
    } else {
        title
    }
}

/// How many dashes stand to the left of a text of `len` characters that is
/// centred in `width` columns.
pub open spec fn dashes_left(width: int, len: int) -> int {
    at_least_zero(width - len) / 2
}

/// How many dashes stand to its right.
pub open spec fn dashes_right(width: int, len: int) -> int {
    at_least_zero(width - len - dashes_left(width, len))
}

/// A piece of a border with a title in its middle.
pub open spec fn border_title_text(title: Seq<char>, width: int, active: bool) -> Seq<char> {
    let inner = seq![' '] + shown_title(title, width) + seq![' '];
    norm_text() + repeated('═', dashes_left(width, inner.len() as int)) + colours_text(
        if active {
            YELLOW
        } else {
            LIGHT_GREY
        },
        BLUE,
    ) + inner + norm_text() + repeated('═', dashes_right(width, inner.len() as int))
}

/// Tests whether a title can be drawn in this width.
pub fn title_drawable(title: &str, width: usize) -> (r: bool)
    ensures
        r == is_title_drawable(title@, width as int),
{
    let n = byte_len(title);
    let max_t = width.saturating_sub(4);
    if n > max_t {
        can_cut(title, n - max_t)
    } else {
        true
    }
}

/// Draws a piece of a border with a title in its middle.
pub fn write_border_title(o: &mut String, title: &str, width: usize, active: bool)
    requires
        is_title_drawable(title@, width as int),
    ensures
        final(o)@ == old(o)@ + border_title_text(title@, width as int, active),
{
    let n = byte_len(title);
    let max_t = width.saturating_sub(4);
    let shown = if n > max_t {
        tail_from(title, n - max_t)
    } else {
        title
    };
    let mut inner = String::new();
    inner.push(' ');
    inner.push_str(shown);
    inner.push(' ');
    assert(inner@ =~= seq![' '] + shown_title(title@, width as int) + seq![' ']);
    let ilen = char_count(inner.as_str());
    let left = if width > ilen {
        (width - ilen) / 2
    } else {
        0
    };
    let right = width.saturating_sub(ilen).saturating_sub(left);
    let mut t = String::new();
    c_norm(&mut t);
    assert(t@ =~= norm_text());
    push_repeated(&mut t, '═', left);
    if active {
        c_hdr_act(&mut t);
    } else {
        c_hdr(&mut t);
    }
    t.push_str(inner.as_str());
    c_norm(&mut t);
    push_repeated(&mut t, '═', right);
    o.push_str(t.as_str());
}

/// The border above the panes.
pub open spec fn top_border_text(
    cols: int,
    half: int,
    left_title: Seq<char>,
    right_title: Seq<char>,
    active: int,
) -> Seq<char> {
    goto_text(1, 1) + norm_text() + seq!['╔'] + border_title_text(left_title, half - 1, active == 0)
        + norm_text() + seq!['╦'] + border_title_text(right_title, cols - half - 2, active == 1)
        + norm_text() + seq!['╗'] + reset_text()
}

/// Draws the border above the panes.
pub fn draw_top_border(
    o: &mut String,
    cols: usize,
    half: usize,
    left_title: &str,
    right_title: &str,
    active: usize,
)
    requires
        1 <= half,
        half + 2 <= cols,
        is_title_drawable(left_title@, half - 1),
        is_title_drawable(right_title@, cols - half - 2),
    ensures
        final(o)@ == old(o)@ + top_border_text(
            cols as int,
            half as int,
            left_title@,
            right_title@,
            active as int,
        ),
{
    let mut t = String::new();
    goto(&mut t, 1, 1);
    assert(t@ =~= goto_text(1, 1));
    c_norm(&mut t);
    put(&mut t, '╔');
    write_border_title(&mut t, left_title, half - 1, active == 0);
    c_norm(&mut t);
    put(&mut t, '╦');
    write_border_title(&mut t, right_title, cols - half - 2, active == 1);
    c_norm(&mut t);
    put(&mut t, '╗');
    c_reset(&mut t);
    o.push_str(t.as_str());
}

/// The border below the panes.
pub open spec fn bottom_border_text(row: nat, cols: int, half: int) -> Seq<char> {
    goto_text(row, 1) + norm_text() + seq!['╚'] + repeated('═', half - 1) + seq!['╩'] + repeated(
        '═',
        cols - half - 2,
    ) + seq!['╝'] + reset_text()
}

/// Draws the border below the panes.
pub fn draw_bottom_border(o: &mut String, row: u16, cols: usize, half: usize)
    requires
        1 <= half,
        half + 2 <= cols,
    ensures
        final(o)@ == old(o)@ + bottom_border_text(row as nat, cols as int, half as int),
{
    let mut t = String::new();
    goto(&mut t, row, 1);
    assert(t@ =~= goto_text(row as nat, 1));
    c_norm(&mut t);
    put(&mut t, '╚');
    push_repeated(&mut t, '═', half - 1);
    put(&mut t, '╩');
    push_repeated(&mut t, '═', cols - half - 2);
    put(&mut t, '╝');
    c_reset(&mut t);
    o.push_str(t.as_str());
}

/// The first visible row for `n` rows: where it was if the cursor is visible
/// then, else the nearest row with which it is.
pub open spec fn scrolled(cursor: int, offset: int, n: int) -> int {
    if cursor < offset {
        cursor
    } else if cursor >= offset + n {
        at_least_zero(cursor - at_least_zero(n - 1))
    } else {
        offset
    }
}

/// The listing as it is shown in `n` rows.
pub open spec fn scrolled_list(v: ListingView, n: int) -> ListingView {
    ListingView { offset: scrolled(v.cursor, v.offset, n), ..v }
}

/// Whether the rows that show entries can be drawn in this width.
pub open spec fn are_rows_drawable(v: ListingView, n: int, width: int) -> bool {
    forall|i: int|
        v.offset <= i < v.offset + n && 0 <= i < v.entries.len() ==> is_displayable(
            #[trigger] v.entries[i],
            width,
        )
}

/// The colours of an entry: of the cursor before those of a selection, and
/// those before the ones of its kind.
pub open spec fn entry_colours(v: ListingView, idx: int, active: bool) -> Seq<char> {
    if idx == v.cursor {
        if active {
            colours_text(BLACK, CYAN)
        } else {
            colours_text(LIGHT_GREY, DARK_GREY)
        }
    } else if v.selected.contains(idx as usize) {
        colours_text(YELLOW, BLUE)
    } else if v.entries[idx].is_dir {
        colours_text(WHITE, BLUE)
    } else {
        norm_text()
    }
}

/// What fills a row that shows an entry: the entry, cut to the width or filled
/// up to it.
pub open spec fn entry_cells(e: EntryView, width: int) -> Seq<char> {
    let line = truncated(display_text(e, width), width);
    line + spaces(width - columns(line))
}

/// The row `i` of a pane.
pub open spec fn row_text(
    v: ListingView,
    active: bool,
    i: int,
    row0: int,
    col0: int,
    width: int,
) -> Seq<char> {
    let idx = v.offset + i;
    goto_text((row0 + i) as nat, col0 as nat) + (if idx >= v.entries.len() {
        norm_text() + spaces(width)
    } else {
        entry_colours(v, idx, active) + entry_cells(v.entries[idx], width)
    }) + reset_text()
}

/// The first `n` rows of a pane.
pub open spec fn rows_text(
    v: ListingView,
    active: bool,
    n: int,
    row0: int,
    col0: int,
    width: int,
) -> Seq<char>
    decreases n,
{
    if n <= 0 {
        Seq::empty()
    } else {
        rows_text(v, active, n - 1, row0, col0, width) + row_text(
            v,
            active,
            n - 1,
            row0,
            col0,
            width,
        )
    }
}

/// Tests whether the visible entries of a pane can be drawn.
pub fn rows_drawable(pane: &Pane, n_rows: usize, inner_w: usize) -> (r: bool)
    ensures
        r == are_rows_drawable(
            scrolled_list(pane@.list(), n_rows as int),
            n_rows as int,
            inner_w as int,
        ),
{
    let list = pane.list();
    let offset = scroll_to(list.cursor, list.offset, n_rows);
    let ghost v = scrolled_list(list@, n_rows as int);
    let len = list.entries.len();
    let end = if offset >= len {
        offset
    } else if n_rows < len - offset {
        offset + n_rows
    } else {
        len
    };
    let mut i = offset;
    while i < end
        invariant
            list@ == pane@.list(),
            v == scrolled_list(list@, n_rows as int),
            v.offset == offset,
            len == list.entries@.len(),
            offset <= i <= end,
            end > offset ==> end <= len && end <= offset + n_rows,
            forall|j: int|
                offset <= j < i ==> is_displayable(#[trigger] v.entries[j], inner_w as int),
        decreases end - i,
    {
        assert(v.entries[i as int] == list.entries@[i as int]@);
        if !list.entries[i].displayable(inner_w) {
            assert(!is_displayable(v.entries[i as int], inner_w as int));
            return false;
        }
        i += 1;
    }
    true
}

/// Chooses the first visible row.
pub fn scroll_to(cursor: usize, offset: usize, n_rows: usize) -> (r: usize)
    ensures
        r == scrolled(cursor as int, offset as int, n_rows as int),
{
    if cursor < offset {
        cursor
    } else if cursor - offset >= n_rows {
        cursor.saturating_sub(n_rows.saturating_sub(1))
    } else {
        offset
    }
}

/// Sets the colours of an entry.
fn set_entry_colours(o: &mut String, list: &Listing, idx: usize, active: bool)
    requires
        idx < list@.entries.len(),
    ensures
        final(o)@ == old(o)@ + entry_colours(list@, idx as int, active),
{
    if idx == list.cursor {
        if active {
            c_sel(o);
        } else {
            c_sel_inactive(o);
        }
    } else if list.is_selected(idx) {
        c_sel_file(o);
    } else if list.entries[idx].is_dir {
        c_dir(o);
    } else {
        c_norm(o);
    }
}

/// Draws an entry in its row.
fn draw_entry(o: &mut String, e: &FileEntry, inner_w: usize)
    requires
        is_displayable(e@, inner_w as int),
    ensures
        final(o)@ == old(o)@ + entry_cells(e@, inner_w as int),
{
    let line = e.display(inner_w);
    let trimmed = trunc_cols(line.as_str(), inner_w);
    let used = str_cols(trimmed);
    let mut t = String::new();
    t.push_str(trimmed);
    assert(t@ =~= trimmed@);
    push_spaces(&mut t, inner_w.saturating_sub(used));
    assert(spaces(inner_w.saturating_sub(used) as int) =~= spaces(inner_w - used));
    o.push_str(t.as_str());
}

/// Draws one row of a pane.
fn draw_row(
    o: &mut String,
    list: &Listing,
    active: bool,
    i: usize,
    row0: u16,
    col0: u16,
    inner_w: usize,
)
    requires
        row0 + i <= 0xffff,
        list@.offset + i < list@.entries.len() ==> is_displayable(
            list@.entries[list@.offset + i],
            inner_w as int,
        ),
    ensures
        final(o)@ == old(o)@ + row_text(
            list@,
            active,
            i as int,
            row0 as int,
            col0 as int,
            inner_w as int,
        ),
{
    let len = list.entries.len();
    let mut inner = String::new();
    if list.offset >= len || i >= len - list.offset {
        c_norm(&mut inner);
        assert(inner@ =~= norm_text());
        push_spaces(&mut inner, inner_w);
    } else {
        let idx = list.offset + i;
        set_entry_colours(&mut inner, list, idx, active);
        assert(inner@ =~= entry_colours(list@, idx as int, active));
        assert(list@.entries[idx as int] == list.entries@[idx as int]@);
        draw_entry(&mut inner, &list.entries[idx], inner_w);
    }
    let mut t = String::new();
    goto(&mut t, row0 + i as u16, col0);
    assert(t@ =~= goto_text((row0 + i) as nat, col0 as nat));
    t.push_str(inner.as_str());
    c_reset(&mut t);
    o.push_str(t.as_str());
}

/// Draws the rows of a pane, without its title and borders, and scrolls it so
/// that the cursor is visible.
pub fn draw_pane_content(
    o: &mut String,
    pane: &mut Pane,
    active: bool,
    row0: u16,
    n_rows: usize,
    col0: u16,
    inner_w: usize,
)
    requires
        row0 + n_rows <= 0x1_0000,
        are_rows_drawable(
            scrolled_list(old(pane)@.list(), n_rows as int),
            n_rows as int,
            inner_w as int,
        ),
    ensures
        final(pane)@ == old(pane)@.with_list(scrolled_list(old(pane)@.list(), n_rows as int)),
        final(o)@ == old(o)@ + rows_text(
            scrolled_list(old(pane)@.list(), n_rows as int),
            active,
            n_rows as int,
            row0 as int,
            col0 as int,
            inner_w as int,
        ),
{
    let offset = scroll_to(pane.cursor(), pane.offset(), n_rows);
    *pane.offset_mut() = offset;
    let ghost v = scrolled_list(old(pane)@.list(), n_rows as int);
    let list = pane.list();
    assert(list@ == v);
    let mut i: usize = 0;
    assert(old(o)@ + rows_text(v, active, 0, row0 as int, col0 as int, inner_w as int) =~= old(o)@);
    while i < n_rows
        invariant
            list@ == v,
            i <= n_rows,
            row0 + n_rows <= 0x1_0000,
            are_rows_drawable(v, n_rows as int, inner_w as int),
            o@ == old(o)@ + rows_text(
                v,
                active,
                i as int,
                row0 as int,
                col0 as int,
                inner_w as int,
            ),
        decreases n_rows - i,
    {
        draw_row(o, list, active, i, row0, col0, inner_w);
        i += 1;
        assert(o@ =~= old(o)@ + rows_text(
            v,
            active,
            i as int,
            row0 as int,
            col0 as int,
            inner_w as int,
        ));
    }
}

/// Wherever there are rows, the cursor is on a visible one after drawing.
pub proof fn cursor_is_visible(v: ListingView, n: int)
    requires
        v.cursor_is_valid(),
        v.offset >= 0,
        n > 0,
    ensures
        0 <= scrolled_list(v, n).offset <= v.cursor < scrolled_list(v, n).offset + n,
{
}

/// A pane whose cursor is visible does not scroll.
pub proof fn visible_cursor_does_not_scroll(v: ListingView, n: int)
    requires
        v.offset <= v.cursor < v.offset + n,
    ensures
        scrolled_list(v, n) == v,
{
}

/// A row that shows an entry takes exactly the columns of the pane.
pub proof fn row_fills_its_width(e: EntryView, width: int)
    requires
        width >= 0,
    ensures
        columns(entry_cells(e, width)) == width,
{
    let line = truncated(display_text(e, width), width);
    truncated_is_longest_start(display_text(e, width), width);
    lemma_columns_add(line, spaces(width - columns(line)));
    lemma_columns_of_spaces(width - columns(line));
}

proof fn lemma_columns_add(a: Seq<char>, b: Seq<char>)
    ensures
        columns(a + b) == columns(a) + columns(b),
    decreases a.len(),
{
    if a.len() == 0 {
        assert(a + b =~= b);
    } else {
        lemma_columns_add(a.skip(1), b);
        assert((a + b).skip(1) =~= a.skip(1) + b);
    }
}

proof fn lemma_columns_of_spaces(n: int)
    requires
        n >= 0,
    ensures
        columns(spaces(n)) == n,
    decreases n,
{
    if n > 0 {
        lemma_columns_of_spaces(n - 1);
        assert(spaces(n).skip(1) =~= spaces(n - 1));
    }
}

/// The number of a function key.
pub open spec fn fkey_number(i: int) -> Seq<char> {
    if i == 0 {
        "1"@
    } else if i == 1 {
        "2"@
    } else if i == 2 {
        "3"@
    } else if i == 3 {
        "4"@
    } else if i == 4 {
        "5"@
    } else if i == 5 {
        "6"@
    } else if i == 6 {
        "7"@
    } else if i == 7 {
        "8"@
    } else if i == 8 {
        "9"@
    } else {
        "10"@
    }
}

/// What a function key does, with the letter that does the same.
pub open spec fn fkey_label(i: int) -> Seq<char> {
    if i == 0 {
        "Help(?)"@
    } else if i == 1 {
        "Rename(r)"@
    } else if i == 2 {
        "View"@
    } else if i == 3 {
        "Edit(e)"@
    } else if i == 4 {
        "Copy"@
    } else if i == 5 {
        "Move"@
    } else if i == 6 {
        "Mkdir"@
    } else if i == 7 {
        "Delete(dd)"@
    } else if i == 8 {
        "Menu"@
    } else {
        "Quit"@
    }
}

/// How many function keys the bar names.
pub const FKEY_COUNT: usize = 10;

/// The number and the label of a function key.
pub fn fkey(i: usize) -> (r: (&'static str, &'static str))
    ensures
        r.0@ == fkey_number(i as int),
        r.1@ == fkey_label(i as int),
        r.0@.len() <= 2,
        r.1@.len() <= 10,
{
    proof {
        reveal_strlit("1");
        reveal_strlit("2");
        reveal_strlit("3");
        reveal_strlit("4");
        reveal_strlit("5");
        reveal_strlit("6");
        reveal_strlit("7");
        reveal_strlit("8");
        reveal_strlit("9");
        reveal_strlit("10");
        reveal_strlit("Help(?)");
        reveal_strlit("Rename(r)");
        reveal_strlit("View");
        reveal_strlit("Edit(e)");
        reveal_strlit("Copy");
        reveal_strlit("Move");
        reveal_strlit("Mkdir");
        reveal_strlit("Delete(dd)");
        reveal_strlit("Menu");
        reveal_strlit("Quit");
    }
    match i {
        0 => ("1", "Help(?)"),
        1 => ("2", "Rename(r)"),
        2 => ("3", "View"),
        3 => ("4", "Edit(e)"),
        4 => ("5", "Copy"),
        5 => ("6", "Move"),
        6 => ("7", "Mkdir"),
        7 => ("8", "Delete(dd)"),
        8 => ("9", "Menu"),
        _ => ("10", "Quit"),
    }
}

/// The columns that a function key takes in the bar, with a blank behind it.
pub open spec fn fkey_columns(i: int) -> int {
    (fkey_number(i).len() + fkey_label(i).len() + 1) as int
}

/// How many of the function keys from `i` on fit into the columns after `used`.
pub open spec fn fkeys_that_fit(i: int, used: int, cols: int) -> int
    decreases FKEY_COUNT - i,
{
    if i >= FKEY_COUNT || used + fkey_columns(i) > cols {
        0
    } else {
        1 + fkeys_that_fit(i + 1, used + fkey_columns(i), cols)
    }
}

/// The columns that the first `n` function keys take.
pub open spec fn fkeys_columns(n: int) -> int
    decreases n,
{
    if n <= 0 {
        0
    } else {
        fkeys_columns(n - 1) + fkey_columns(n - 1)
    }
}

/// One function key in the bar.
pub open spec fn fkey_text(i: int) -> Seq<char> {
    fg_text(BRIGHT_CYAN) + bg_text(BLACK) + fkey_number(i) + fg_text(BLACK) + bg_text(CYAN)
        + fkey_label(i) + seq![' ']
}

/// The first `n` function keys in the bar.
pub open spec fn fkeys_text(n: int) -> Seq<char>
    decreases n,
{
    if n <= 0 {
        Seq::empty()
    } else {
        fkeys_text(n - 1) + fkey_text(n - 1)
    }
}

/// The bar of the function keys: as many as fit, then blanks.
pub open spec fn fkey_bar_text(row: nat, cols: int) -> Seq<char> {
    let n = fkeys_that_fit(0, 0, cols);
    goto_text(row, 1) + fkeys_text(n) + fg_text(BRIGHT_CYAN) + bg_text(BLACK) + spaces(
        cols - fkeys_columns(n),
    ) + reset_text()
}

/// Draws the bar of the function keys.
pub fn draw_fkey_bar(o: &mut String, rows: u16, cols: usize)
    ensures
        final(o)@ == old(o)@ + fkey_bar_text(rows as nat, cols as int),
{
    let mut keys = String::new();
    let mut used: usize = 0;
    let mut i: usize = 0;
    let ghost n = fkeys_that_fit(0, 0, cols as int);
    loop
        invariant_except_break
            n == i + fkeys_that_fit(i as int, used as int, cols as int),
        invariant
            i <= FKEY_COUNT,
            used <= cols,
            used == fkeys_columns(i as int),
            keys@ == fkeys_text(i as int),
        ensures
            i == n,
        decreases FKEY_COUNT - i,
    {
        if i == FKEY_COUNT {
            break;
        }
        let (num, label) = fkey(i);
        let len = char_count(num) + char_count(label) + 1;
        if len > cols - used {
            break;
        }
        let mut t = String::new();
        set_fg(&mut t, BRIGHT_CYAN);
        assert(t@ =~= fg_text(BRIGHT_CYAN));
        set_bg(&mut t, BLACK);
        t.push_str(num);
        set_fg(&mut t, BLACK);
        set_bg(&mut t, CYAN);
        t.push_str(label);
        put(&mut t, ' ');
        keys.push_str(t.as_str());
        used += len;
        i += 1;
    }
    let mut t = String::new();
    goto(&mut t, rows, 1);
    assert(t@ =~= goto_text(rows as nat, 1));
    t.push_str(keys.as_str());
    set_fg(&mut t, BRIGHT_CYAN);
    set_bg(&mut t, BLACK);
    push_spaces(&mut t, cols - used);
    c_reset(&mut t);
    o.push_str(t.as_str());
}

/// Whether a message fits into a line, or can be cut between two characters.
pub open spec fn is_message_drawable(msg: Seq<char>, cols: int) -> bool {
    utf8_len(msg) > cols ==> on_boundary(msg, cols)
}

/// The start of a message, as many bytes as there are columns.
pub open spec fn shown_message(msg: Seq<char>, cols: int) -> Seq<char> {
    if utf8_len(msg) > cols {
        to_byte(msg, cols)
    } else {
        msg
    }
}

/// A message in the last row.
pub open spec fn flash_text(rows: nat, cols: int, msg: Seq<char>) -> Seq<char> {
    goto_text(rows, 1) + colours_text(BLACK, CYAN) + pad_right(shown_message(msg, cols), cols)
        + reset_text()
}

/// Tests whether a message can be shown.
pub fn message_drawable(msg: &str, cols: u16) -> (r: bool)
    ensures
        r == is_message_drawable(msg@, cols as int),
{
    if byte_len(msg) > cols as usize {
        can_cut(msg, cols as usize)
    } else {
        true
    }
}

/// Shows a message in the last row.
pub fn flash(o: &mut String, rows: u16, cols: u16, msg: &str)
    requires
        is_message_drawable(msg@, cols as int),
    ensures
        final(o)@ == old(o)@ + flash_text(rows as nat, cols as int, msg@),
{
    let shown = if byte_len(msg) > cols as usize {
        head_to(msg, cols as usize)
    } else {
        msg
    };
    let mut t = String::new();
    goto(&mut t, rows, 1);
    assert(t@ =~= goto_text(rows as nat, 1));
    c_status(&mut t);
    push_padded(&mut t, shown, cols as usize);
    c_reset(&mut t);
    o.push_str(t.as_str());
}

/// A black row.
pub open spec fn info_row_text(row: nat, cols: int) -> Seq<char> {
    goto_text(row, 1) + bg_text(BLACK) + spaces(cols) + reset_text()
}

/// Draws the black row above the bar.
pub fn draw_info_row(o: &mut String, row: u16, cols: usize)
    ensures
        final(o)@ == old(o)@ + info_row_text(row as nat, cols as int),
{
    let mut t = String::new();
    goto(&mut t, row, 1);
    assert(t@ =~= goto_text(row as nat, 1));
    set_bg(&mut t, BLACK);
    push_spaces(&mut t, cols);
    c_reset(&mut t);
    o.push_str(t.as_str());
}

/// One row of the borders beside the panes and between them.
pub open spec fn side_borders_row(r: int, cols: int, half: int) -> Seq<char> {
    goto_text((2 + r) as nat, 1) + seq!['║'] + goto_text((2 + r) as nat, (half + 1) as nat)
        + seq!['║'] + goto_text((2 + r) as nat, cols as nat) + seq!['║']
}

/// The borders beside the first `n` rows of the panes.
pub open spec fn side_borders_text(n: int, cols: int, half: int) -> Seq<char>
    decreases n,
{
    if n <= 0 {
        Seq::empty()
    } else {
        side_borders_text(n - 1, cols, half) + side_borders_row(n - 1, cols, half)
    }
}

/// How many rows of a screen are for entries.
pub open spec fn content_rows(rows: int) -> int {
    at_least_zero(rows - 4)
}

/// The width of a pane within its borders.
pub open spec fn pane_width(cols: int, i: int) -> int {
    if i == 0 {
        cols / 2 - 1
    } else {
        cols - cols / 2 - 2
    }
}

/// The panes as they are shown on a screen with so many rows.
pub open spec fn scrolled_panes(v: PanesView, rows: int) -> PanesView {
    PanesView {
        left: v.left.with_list(scrolled_list(v.left.list(), content_rows(rows))),
        right: v.right.with_list(scrolled_list(v.right.list(), content_rows(rows))),
    }
}

/// Whether the panes can be drawn on a screen of this size: it has room for the
/// borders, and every text that does not fit can be cut between two characters.
pub open spec fn is_screen_drawable(v: PanesView, rows: int, cols: int) -> bool {
    &&& rows >= 2
    &&& cols >= 3
    &&& is_title_drawable(v.left.title(), pane_width(cols, 0))
    &&& is_title_drawable(v.right.title(), pane_width(cols, 1))
    &&& are_rows_drawable(
        scrolled_list(v.left.list(), content_rows(rows)),
        content_rows(rows),
        pane_width(cols, 0),
    )
    &&& are_rows_drawable(
        scrolled_list(v.right.list(), content_rows(rows)),
        content_rows(rows),
        pane_width(cols, 1),
    )
}

/// The whole screen: the borders, the two panes, the black row and the bar.
pub open spec fn screen_text(v: PanesView, active: int, rows: int, cols: int) -> Seq<char> {
    let n = content_rows(rows);
    let half = cols / 2;
    let shown = scrolled_panes(v, rows);
    bg_text(BLUE) + "\x1b[2J"@ + top_border_text(
        cols,
        half,
        v.left.title(),
        v.right.title(),
        active,
    ) + rows_text(shown.left.list(), active == 0, n, 2, 2, pane_width(cols, 0)) + rows_text(
        shown.right.list(),
        active == 1,
        n,
        2,
        half + 2,
        pane_width(cols, 1),
    ) + norm_text() + side_borders_text(n, cols, half) + reset_text() + bottom_border_text(
        (rows - 2) as nat,
        cols,
        half,
    ) + info_row_text((rows - 1) as nat, cols) + fkey_bar_text(rows as nat, cols)
}

/// Tests whether the panes can be drawn on a screen of this size.
pub fn screen_drawable(panes: &Panes, rows: u16, cols: u16) -> (r: bool)
    ensures
        r == is_screen_drawable(panes@, rows as int, cols as int),
{
    if rows < 2 || cols < 3 {
        return false;
    }
    let n = (rows as usize).saturating_sub(4);
    let half = cols as usize / 2;
    let left_w = half - 1;
    let right_w = cols as usize - half - 2;
    let lt = panes.left.title();
    let rt = panes.right.title();
    title_drawable(lt.as_str(), left_w) && title_drawable(rt.as_str(), right_w) && rows_drawable(
        &panes.left,
        n,
        left_w,
    ) && rows_drawable(&panes.right, n, right_w)
}

/// Draws the borders beside the panes.
fn draw_side_borders(o: &mut String, n: usize, cols: u16, half: u16)
    requires
        n + 4 <= 0xffff,
        half < 0xffff,
    ensures
        final(o)@ == old(o)@ + side_borders_text(n as int, cols as int, half as int),
{
    let mut i: usize = 0;
    assert(old(o)@ + side_borders_text(0, cols as int, half as int) =~= old(o)@);
    while i < n
        invariant
            i <= n,
            n + 4 <= 0xffff,
            half < 0xffff,
            o@ == old(o)@ + side_borders_text(i as int, cols as int, half as int),
        decreases n - i,
    {
        let row: u16 = 2 + i as u16;
        let mut t = String::new();
        goto(&mut t, row, 1);
        assert(t@ =~= goto_text(row as nat, 1));
        put(&mut t, '║');
        goto(&mut t, row, half + 1);
        put(&mut t, '║');
        goto(&mut t, row, cols);
        put(&mut t, '║');
        o.push_str(t.as_str());
        i += 1;
        assert(o@ =~= old(o)@ + side_borders_text(i as int, cols as int, half as int));
    }
}

/// Draws the whole screen, and scrolls the panes so that their cursors are
/// visible.
pub fn render(o: &mut String, panes: &mut Panes, active: usize, rows: u16, cols: u16)
    requires
        is_screen_drawable(old(panes)@, rows as int, cols as int),
    ensures
        final(panes)@ == scrolled_panes(old(panes)@, rows as int),
        final(o)@ == old(o)@ + screen_text(
            old(panes)@,
            active as int,
            rows as int,
            cols as int,
        ),
{
    let n = (rows as usize).saturating_sub(4);
    let wide = cols as usize;
    let half = wide / 2;
    let left_w = half - 1;
    let right_w = wide - half - 2;
    let lt = panes.left.title();
    let rt = panes.right.title();
    let mut t = String::new();
    set_bg(&mut t, BLUE);
    assert(t@ =~= bg_text(BLUE));
    t.push_str("\x1b[2J");
    draw_top_border(&mut t, wide, half, lt.as_str(), rt.as_str(), active);
    draw_pane_content(&mut t, &mut panes.left, active == 0, 2, n, 2, left_w);
    draw_pane_content(&mut t, &mut panes.right, active == 1, 2, n, half as u16 + 2, right_w);
    c_norm(&mut t);
    draw_side_borders(&mut t, n, cols, half as u16);
    c_reset(&mut t);
    draw_bottom_border(&mut t, rows - 2, wide, half);
    draw_info_row(&mut t, rows - 1, wide);
    draw_fkey_bar(&mut t, rows, wide);
    o.push_str(t.as_str());
}

/// Draws the whole screen if it can be drawn, and gives whether it was. If not,
/// nothing is changed.
pub fn render_if_drawable(
    o: &mut String,
    panes: &mut Panes,
    active: usize,
    rows: u16,
    cols: u16,
) -> (r: bool)
    ensures
        r == is_screen_drawable(old(panes)@, rows as int, cols as int),
        r ==> final(panes)@ == scrolled_panes(old(panes)@, rows as int) && final(o)@ == old(o)@
            + screen_text(old(panes)@, active as int, rows as int, cols as int),
        !r ==> final(panes)@ == old(panes)@ && final(o)@ == old(o)@,
{
    if screen_drawable(panes, rows, cols) {
        render(o, panes, active, rows, cols);
        true
    } else {
        false
    }
}

/// A title stands in the middle of its border, and the border is as wide as it
/// should be, unless it has no room for the two blanks around a title. With two
/// columns more there is a dash on either side.
pub proof fn title_is_centred(title: Seq<char>, width: int)
    requires
        width >= 2,
        is_title_drawable(title, width),
    ensures
        ({
            let len = shown_title(title, width).len() as int + 2;
            let left = dashes_left(width, len);
            let right = dashes_right(width, len);
            &&& left + len + right == width
            &&& left <= right <= left + 1
            &&& width >= 4 ==> left >= 1
        }),
{
    let max = at_least_zero(width - 4);
    lemma_no_more_chars_than_bytes(title);
    if utf8_len(title) > max {
        let at = utf8_len(title) - max;
        lemma_cut_joins(title, at);
        lemma_no_more_chars_than_bytes(from_byte(title, at));
    }
}

/// The function keys that are shown fit into the line, and the next one would
/// not.
pub proof fn fkeys_fill_the_line(cols: int)
    requires
        cols >= 0,
    ensures
        ({
            let n = fkeys_that_fit(0, 0, cols);
            &&& 0 <= n <= FKEY_COUNT
            &&& fkeys_columns(n) <= cols
            &&& n < FKEY_COUNT ==> fkeys_columns(n + 1) > cols
        }),
{
    lemma_fkeys_from(0, cols);
}

proof fn lemma_fkeys_from(i: int, cols: int)
    requires
        0 <= i <= FKEY_COUNT,
        fkeys_columns(i) <= cols,
    ensures
        ({
            let n = i + fkeys_that_fit(i, fkeys_columns(i), cols);
            &&& i <= n <= FKEY_COUNT
            &&& fkeys_columns(n) <= cols
            &&& n < FKEY_COUNT ==> fkeys_columns(n + 1) > cols
        }),
    decreases FKEY_COUNT - i,
{
    if i < FKEY_COUNT && fkeys_columns(i) + fkey_columns(i) <= cols {
        lemma_fkeys_from(i + 1, cols);
    }
}

/// An icon takes two columns and any other character one; the columns of a text are
/// those of its characters.
pub proof fn columns_are_those_of_the_characters(a: Seq<char>, c: char, b: Seq<char>)
    ensures
        columns(a + b) == columns(a) + columns(b),
        0xe000 <= c as int <= 0xf8ff ==> columns(seq![c]) == 2,
        !(0xe000 <= c as int <= 0xf8ff) ==> columns(seq![c]) == 1,
        columns(Seq::empty()) == 0,
{
    lemma_columns_add(a, b);
    assert(seq![c].skip(1) =~= Seq::<char>::empty());
    assert(columns(seq![c].skip(1)) == 0);
}

/// Every row of a pane is drawn at its own place on the screen, with the entry that
/// stands as far behind the first visible one, in the colours for it; behind the last
/// entry the rows are blank. The row stands between `parts`.
pub proof fn row_shows_its_entry(
    v: ListingView,
    active: bool,
    n: int,
    row0: int,
    col0: int,
    width: int,
    i: int,
) -> (parts: (Seq<char>, Seq<char>))
    requires
        0 <= i < n,
    ensures
        v.offset + i < v.entries.len() ==> rows_text(v, active, n, row0, col0, width) == parts.0 + (
        goto_text((row0 + i) as nat, col0 as nat) + (entry_colours(v, v.offset + i, active)
            + entry_cells(v.entries[v.offset + i], width)) + reset_text()) + parts.1,
        v.offset + i >= v.entries.len() ==> rows_text(v, active, n, row0, col0, width) == parts.0
            + (goto_text((row0 + i) as nat, col0 as nat) + (norm_text() + spaces(width))
            + reset_text()) + parts.1,
    decreases n,
{
    let before = rows_text(v, active, n - 1, row0, col0, width);
    let last = row_text(v, active, n - 1, row0, col0, width);
    if i == n - 1 {
        lemma_last_part(before, last);
        (before, Seq::empty())
    } else {
        let (a, b) = row_shows_its_entry(v, active, n - 1, row0, col0, width, i);
        let row = row_text(v, active, i, row0, col0, width);
        lemma_more_behind(a, row, b, last);
        (a, b + last)
    }
}

/// What stands last has nothing behind it.
pub proof fn lemma_last_part(a: Seq<char>, b: Seq<char>)
    ensures
        a + b == a + b + Seq::<char>::empty(),
{
    assert(a + b =~= a + b + Seq::<char>::empty());
}

/// More behind a part is added to what stands behind it.
pub proof fn lemma_more_behind(a: Seq<char>, part: Seq<char>, b: Seq<char>, c: Seq<char>)
    ensures
        a + part + b + c == a + part + (b + c),
{
    assert(a + part + b + c =~= a + part + (b + c));
}

/// The colours of a row: the cursor's, which tell whether its pane is active, before
/// those of a selected entry, and those before the ones of a directory or a file.
pub proof fn colours_tell_the_state(v: ListingView, idx: int, active: bool)
    ensures
        idx == v.cursor && active ==> entry_colours(v, idx, active) == colours_text(
            0x000000,
            0x00aaaa,
        ),
        idx == v.cursor && !active ==> entry_colours(v, idx, active) == colours_text(
            0xaaaaaa,
            0x555555,
        ),
        idx != v.cursor && v.selected.contains(idx as usize) ==> entry_colours(v, idx, active)
            == colours_text(0xffff55, 0x0000aa),
        idx != v.cursor && !v.selected.contains(idx as usize) && v.entries[idx].is_dir
            ==> entry_colours(v, idx, active) == colours_text(0xffffff, 0x0000aa),
        idx != v.cursor && !v.selected.contains(idx as usize) && !v.entries[idx].is_dir
            ==> entry_colours(v, idx, active) == colours_text(0x55ffff, 0x0000aa),
{
}

/// What fills a row is the longest start of the entry's line that fits, and blanks
/// behind it; a line that fits is shown whole.
pub proof fn row_starts_with_the_line(e: EntryView, width: int)
    requires
        width >= 0,
    ensures
        ({
            let line = display_text(e, width);
            let cells = entry_cells(e, width);
            &&& columns(line) <= width ==> cells == line + spaces(width - columns(line))
            &&& columns(line) > width ==> exists|k: int|
                0 <= k < line.len() && #[trigger] line.take(k) == cells.take(k) && columns(
                    line.take(k),
                ) + 2 > width
        }),
{
    let line = display_text(e, width);
    let t = truncated(line, width);
    truncated_is_longest_start(line, width);
    if columns(line) <= width {
        if t != line {
            let k = t.len() as int;
            assert(line =~= line.take(k) + line.skip(k));
            lemma_columns_add(line.take(k), line.skip(k));
            lemma_columns_fit(line.skip(k).skip(1));
            assert(t.len() != line.len()) by {
                assert(line.take(line.len() as int) =~= line);
            }
        }
    } else {
        let k = t.len() as int;
        assert(t != line);
        assert(k < line.len()) by {
            assert(line.take(line.len() as int) =~= line);
        }
        assert(entry_cells(e, width).take(k) =~= line.take(k));
    }
}

/// Scrolling goes no further than it must: a cursor above the first visible row
/// becomes that row, and one below the last visible row becomes that row. Nothing
/// but the first visible row changes.
pub proof fn scrolling_goes_no_further(v: ListingView, n: int)
    requires
        n > 0,
        v.cursor >= 0,
        v.offset >= 0,
    ensures
        v.cursor < v.offset ==> scrolled_list(v, n).offset == v.cursor,
        v.cursor >= v.offset + n ==> scrolled_list(v, n).offset + n - 1 == v.cursor,
        scrolled_list(v, n).entries == v.entries,
        scrolled_list(v, n).cursor == v.cursor,
        scrolled_list(v, n).selected == v.selected,
{
}

/// A title that fits is shown whole; of a longer one the end is shown, as many bytes
/// as there is room for.
pub proof fn end_of_the_title_is_shown(title: Seq<char>, width: int)
    requires
        width >= 4,
        is_title_drawable(title, width),
    ensures
        utf8_len(title) <= width - 4 ==> shown_title(title, width) == title,
        utf8_len(title) > width - 4 ==> ({
            let end = shown_title(title, width);
            &&& end.len() <= title.len()
            &&& end == title.skip(title.len() - end.len())
            &&& utf8_len(end) == width - 4
        }),
{
    if utf8_len(title) > width - 4 {
        let at = utf8_len(title) - (width - 4);
        lemma_cut_joins(title, at);
        let a = to_byte(title, at);
        let b = from_byte(title, at);
        assert((a + b).skip(a.len() as int) =~= b);
    }
}

/// A message that fits is shown whole; of a longer one the start is shown, as many
/// bytes as there are columns.
pub proof fn start_of_the_message_is_shown(msg: Seq<char>, cols: int)
    requires
        cols >= 0,
        is_message_drawable(msg, cols),
    ensures
        utf8_len(msg) <= cols ==> shown_message(msg, cols) == msg,
        utf8_len(msg) > cols ==> ({
            let start = shown_message(msg, cols);
            &&& start.len() <= msg.len()
            &&& start == msg.take(start.len() as int)
            &&& utf8_len(start) == cols
        }),
{
    if utf8_len(msg) > cols {
        lemma_cut_joins(msg, cols);
        let a = to_byte(msg, cols);
        let b = from_byte(msg, cols);
        assert((a + b).take(a.len() as int) =~= a);
    }
}

/// A message stands in the row that was asked for, from its first column on, in black
/// on cyan, and is filled up with blanks.
pub proof fn message_stands_in_its_row(rows: nat, cols: int, msg: Seq<char>)
    requires
        cols >= 0,
        utf8_len(msg) <= cols,
    ensures
        flash_text(rows, cols, msg) == goto_text(rows, 1) + colours_text(0x000000, 0x00aaaa) + (msg
            + spaces(cols - msg.len())) + reset_text(),
{
}

/// The panes share the width of the screen: between the three borders each has its
/// own columns, and the right one has no more than one fewer or more.
pub proof fn panes_share_the_width(cols: int)
    requires
        cols >= 4,
    ensures
        1 + pane_width(cols, 0) + 1 + pane_width(cols, 1) + 1 == cols,
        pane_width(cols, 0) - pane_width(cols, 1) == 1 || pane_width(cols, 0) == pane_width(
            cols,
            1,
        ),
        1 + pane_width(cols, 0) == cols / 2,
{
}

/// The rows of a screen are the upper border, the entries, the lower border, the
/// black row and the bar.
pub proof fn rows_share_the_height(rows: int)
    requires
        rows >= 4,
    ensures
        1 + content_rows(rows) + 1 + 1 + 1 == rows,
        content_rows(rows) >= 0,
{
}

/// Every row of the panes has a border at the first column, at the column behind the
/// left pane and at the last one.
pub proof fn every_row_has_three_borders(n: int, cols: int, half: int, r: int) -> (parts: (
    Seq<char>,
    Seq<char>,
))
    requires
        0 <= r < n,
    ensures
        side_borders_text(n, cols, half) == parts.0 + (goto_text((2 + r) as nat, 1) + seq!['║']
            + goto_text((2 + r) as nat, (half + 1) as nat) + seq!['║'] + goto_text(
            (2 + r) as nat,
            cols as nat,
        ) + seq!['║']) + parts.1,
    decreases n,
{
    let before = side_borders_text(n - 1, cols, half);
    let last = side_borders_row(n - 1, cols, half);
    if r == n - 1 {
        lemma_last_part(before, last);
        (before, Seq::empty())
    } else {
        let (a, b) = every_row_has_three_borders(n - 1, cols, half, r);
        let row = side_borders_row(r, cols, half);
        lemma_more_behind(a, row, b, last);
        (a, b + last)
    }
}

/// The number before the label of a function key is its number, and the keys in the
/// bar come in the order of their numbers.
pub proof fn function_keys_are_numbered(i: int)
    requires
        0 <= i < 10,
    ensures
        fkey_number(i) == crate::num::decimal((i + 1) as nat),
        FKEY_COUNT == 10,
        fkeys_text(i + 1) == fkeys_text(i) + (fg_text(0x55ffff) + bg_text(0x000000) + fkey_number(
            i,
        ) + fg_text(0x000000) + bg_text(0x00aaaa) + fkey_label(i) + seq![' ']),
        fkeys_text(0).len() == 0,
        fkeys_columns(i + 1) == fkeys_columns(i) + fkey_number(i).len() + fkey_label(i).len() + 1,
{
    reveal_strlit("1");
    reveal_strlit("2");
    reveal_strlit("3");
    reveal_strlit("4");
    reveal_strlit("5");
    reveal_strlit("6");
    reveal_strlit("7");
    reveal_strlit("8");
    reveal_strlit("9");
    reveal_strlit("10");
    reveal_with_fuel(crate::num::decimal, 3);
    assert(fkey_number(i) =~= crate::num::decimal((i + 1) as nat));
}

/// The panes are scrolled each by itself, and nothing else in them changes.
pub proof fn panes_scroll_by_themselves(v: PanesView, rows: int)
    ensures
        scrolled_panes(v, rows).left == v.left.with_list(
            scrolled_list(v.left.list(), content_rows(rows)),
        ),
        scrolled_panes(v, rows).right == v.right.with_list(
            scrolled_list(v.right.list(), content_rows(rows)),
        ),
        scrolled_panes(v, rows).left.title() == v.left.title(),
        scrolled_panes(v, rows).right.title() == v.right.title(),
{
}

/// The whole screen holds the left pane's rows from the second row and the second
/// column on, and the right pane's beside them, two columns behind the left half. Of
/// the two the active one is drawn as such, by whether it is the left.
pub proof fn screen_holds_both_panes(v: PanesView, active: int, rows: int, cols: int) -> (parts: (
    Seq<char>,
    Seq<char>,
))
    ensures
        screen_text(v, active, rows, cols) == parts.0 + (rows_text(
            scrolled_panes(v, rows).left.list(),
            active == 0,
            content_rows(rows),
            2,
            2,
            pane_width(cols, 0),
        ) + rows_text(
            scrolled_panes(v, rows).right.list(),
            active == 1,
            content_rows(rows),
            2,
            cols / 2 + 2,
            pane_width(cols, 1),
        )) + parts.1,
{
    let n = content_rows(rows);
    let half = cols / 2;
    let shown = scrolled_panes(v, rows);
    let a = bg_text(BLUE) + "\x1b[2J"@ + top_border_text(
        cols,
        half,
        v.left.title(),
        v.right.title(),
        active,
    );
    let l = rows_text(shown.left.list(), active == 0, n, 2, 2, pane_width(cols, 0));
    let r = rows_text(shown.right.list(), active == 1, n, 2, half + 2, pane_width(cols, 1));
    let b = norm_text();
    let c = side_borders_text(n, cols, half);
    let d = reset_text();
    let e = bottom_border_text((rows - 2) as nat, cols, half);
    let f = info_row_text((rows - 1) as nat, cols);
    let g = fkey_bar_text(rows as nat, cols);
    assert(a + l + r =~= a + (l + r));
    lemma_more_behind(a, l + r, b, c);
    lemma_more_behind(a, l + r, b + c, d);
    lemma_more_behind(a, l + r, b + c + d, e);
    lemma_more_behind(a, l + r, b + c + d + e, f);
    lemma_more_behind(a, l + r, b + c + d + e + f, g);
    (a, b + c + d + e + f + g)
}

/// The title stands in its border with a blank on either side, in yellow if its pane
/// is active and else in light grey, between dashes.
pub proof fn border_holds_its_title(title: Seq<char>, width: int, active: bool) -> (dashes: (
    int,
    int,
))
    requires
        width >= 2,
        is_title_drawable(title, width),
    ensures
        dashes.0 >= 0,
        dashes.1 >= 0,
        dashes.0 + shown_title(title, width).len() + 2 + dashes.1 == width,
        dashes.0 <= dashes.1 <= dashes.0 + 1,
        border_title_text(title, width, active) == colours_text(0x55ffff, 0x0000aa) + repeated(
            '═',
            dashes.0,
        ) + colours_text(
            if active {
                0xffff55
            } else {
                0xaaaaaa
            },
            0x0000aa,
        ) + (seq![' '] + shown_title(title, width) + seq![' ']) + colours_text(0x55ffff, 0x0000aa)
            + repeated('═', dashes.1),
{
    title_is_centred(title, width);
    let len = shown_title(title, width).len() as int + 2;
    assert((seq![' '] + shown_title(title, width) + seq![' ']).len() == len);
    (dashes_left(width, len), dashes_right(width, len))
}

/// The upper border, in the first row, holds the titles of both panes, each as wide as
/// its pane, with corners at the ends and a joint between them; that of the active
/// pane is marked.
pub proof fn upper_border_holds_both_titles(
    cols: int,
    left: Seq<char>,
    right: Seq<char>,
    active: int,
)
    ensures
        top_border_text(cols, cols / 2, left, right, active) == goto_text(1, 1) + norm_text() + seq![
            '╔',
        ] + border_title_text(left, pane_width(cols, 0), active == 0) + norm_text() + seq!['╦']
            + border_title_text(right, pane_width(cols, 1), active == 1) + norm_text() + seq!['╗']
            + reset_text(),
{
}

/// The lower border is as wide as the screen, with its joint in the column of the
/// border between the panes.
pub proof fn lower_border_is_as_wide(row: nat, cols: int)
    requires
        cols >= 4,
    ensures
        ({
            let line = seq!['╚'] + repeated('═', pane_width(cols, 0)) + seq!['╩'] + repeated(
                '═',
                pane_width(cols, 1),
            ) + seq!['╝'];
            &&& line.len() == cols
            &&& line[cols / 2] == '╩'
            &&& bottom_border_text(row, cols, cols / 2) == goto_text(row, 1) + norm_text() + line
                + reset_text()
        }),
{
    let a = goto_text(row, 1) + norm_text();
    let p = repeated('═', pane_width(cols, 0));
    let q = repeated('═', pane_width(cols, 1));
    let line = seq!['╚'] + p + seq!['╩'] + q + seq!['╝'];
    assert(line[cols / 2] == '╩');
    assert(a + seq!['╚'] + p + seq!['╩'] + q + seq!['╝'] =~= a + line);
}

/// Below the panes come the lower border, the black row and the bar, in the last three
/// rows; the screen is cleared and the upper border drawn before all else.
pub proof fn screen_ends_with_the_bar(v: PanesView, active: int, rows: int, cols: int) -> (middle:
    Seq<char>)
    ensures
        screen_text(v, active, rows, cols) == bg_text(0x0000aa) + "\x1b[2J"@ + top_border_text(
            cols,
            cols / 2,
            v.left.title(),
            v.right.title(),
            active,
        ) + middle + (bottom_border_text((rows - 2) as nat, cols, cols / 2) + info_row_text(
            (rows - 1) as nat,
            cols,
        ) + fkey_bar_text(rows as nat, cols)),
{
    let n = content_rows(rows);
    let half = cols / 2;
    let shown = scrolled_panes(v, rows);
    let a = bg_text(BLUE) + "\x1b[2J"@ + top_border_text(
        cols,
        half,
        v.left.title(),
        v.right.title(),
        active,
    );
    let l = rows_text(shown.left.list(), active == 0, n, 2, 2, pane_width(cols, 0));
    let r = rows_text(shown.right.list(), active == 1, n, 2, half + 2, pane_width(cols, 1));
    let b = norm_text();
    let c = side_borders_text(n, cols, half);
    let d = reset_text();
    let e = bottom_border_text((rows - 2) as nat, cols, half);
    let f = info_row_text((rows - 1) as nat, cols);
    let g = fkey_bar_text(rows as nat, cols);
    lemma_more_behind(a, l, r, b);
    lemma_more_behind(a, l, r + b, c);
    lemma_more_behind(a, l, r + b + c, d);
    let middle = l + (r + b + c + d);
    assert(a + l + (r + b + c + d) =~= a + middle);
    lemma_more_behind(a, middle, e, f);
    lemma_more_behind(a, middle, e + f, g);
    middle
}

/// The black row is blank over all columns, and the bar of the function keys takes all
/// columns of its row.
pub proof fn last_rows_take_all_columns(row: nat, cols: int)
    requires
        cols >= 0,
    ensures
        info_row_text(row, cols) == goto_text(row, 1) + bg_text(0x000000) + spaces(cols)
            + reset_text(),
        ({
            let n = fkeys_that_fit(0, 0, cols);
            &&& fkeys_columns(n) <= cols
            &&& n < 10 ==> fkeys_columns(n + 1) > cols
            &&& fkey_bar_text(row, cols) == goto_text(row, 1) + fkeys_text(n) + fg_text(0x55ffff)
                + bg_text(0x000000) + spaces(cols - fkeys_columns(n)) + reset_text()
        }),
{
    fkeys_fill_the_line(cols);
}

/// A screen that shows only ASCII can be drawn, if it has two rows and three columns.
pub proof fn ascii_screen_can_be_drawn(v: PanesView, rows: int, cols: int)
    requires
        rows >= 2,
        cols >= 3,
        is_ascii(v.left.title()),
        is_ascii(v.right.title()),
        forall|i: int|
            0 <= i < v.left.list().entries.len() ==> is_ascii(
                (#[trigger] v.left.list().entries[i]).name,
            ),
        forall|i: int|
            0 <= i < v.right.list().entries.len() ==> is_ascii(
                (#[trigger] v.right.list().entries[i]).name,
            ),
    ensures
        is_screen_drawable(v, rows, cols),
{
    lemma_ascii_title(v.left.title(), pane_width(cols, 0));
    lemma_ascii_title(v.right.title(), pane_width(cols, 1));
    let n = content_rows(rows);
    let l = scrolled_list(v.left.list(), n);
    let r = scrolled_list(v.right.list(), n);
    assert forall|i: int|
        l.offset <= i < l.offset + n && 0 <= i < l.entries.len() implies is_displayable(
        #[trigger] l.entries[i],
        pane_width(cols, 0),
    ) by {
        assert(is_ascii(v.left.list().entries[i].name));
        crate::entry::ascii_name_can_be_shown(l.entries[i], pane_width(cols, 0));
    }
    assert forall|i: int|
        r.offset <= i < r.offset + n && 0 <= i < r.entries.len() implies is_displayable(
        #[trigger] r.entries[i],
        pane_width(cols, 1),
    ) by {
        assert(is_ascii(v.right.list().entries[i].name));
        crate::entry::ascii_name_can_be_shown(r.entries[i], pane_width(cols, 1));
    }
}

/// An ASCII title, or message, can be cut anywhere.
proof fn lemma_ascii_title(title: Seq<char>, width: int)
    requires
        is_ascii(title),
    ensures
        is_title_drawable(title, width),
{
    crate::text::lemma_ascii_bytes(title);
    let at = utf8_len(title) - at_least_zero(width - 4);
    if at > 0 {
        crate::text::lemma_ascii_start(title, at);
    }
}

/// An ASCII message can be shown in any width.
pub proof fn ascii_message_can_be_shown(msg: Seq<char>, cols: int)
    requires
        is_ascii(msg),
        cols >= 0,
    ensures
        is_message_drawable(msg, cols),
{
    crate::text::lemma_ascii_bytes(msg);
    if utf8_len(msg) > cols {
        crate::text::lemma_ascii_start(msg, cols);
    }
}

/// Dashes fill the columns beside a text, as many on the right as on the left or one
/// more; there are none where the text takes all columns.
pub proof fn dashes_fill_the_border(width: int, len: int)
    requires
        len >= 0,
    ensures
        width >= len ==> dashes_left(width, len) + len + dashes_right(width, len) == width,
        width >= len ==> 0 <= dashes_left(width, len) <= dashes_right(width, len) <= dashes_left(
            width,
            len,
        ) + 1,
        width < len ==> dashes_left(width, len) == 0 && dashes_right(width, len) == 0,
{
}

} // verus!
