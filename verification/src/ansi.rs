//! Control sequences for the screen. What is written is collected in a text.

use vstd::prelude::*;

use crate::num::{decimal, push_decimal};
use crate::text::{push_spaces, spaces};

verus! {

/// The red, green and blue parts of a colour, with semicolons between them. A
/// colour is a number of six hexadecimal digits, two for each part.
pub open spec fn rgb_text(c: u32) -> Seq<char> {
    decimal((c / 0x1_0000) as nat) + seq![';'] + decimal((c / 0x100 % 0x100) as nat) + seq![';']
        + decimal((c % 0x100) as nat)
}

/// Sets the colour of the text.
pub open spec fn fg_text(c: u32) -> Seq<char> {
    "\x1b[38;2;"@ + rgb_text(c) + seq!['m']
}

/// Sets the colour behind the text.
pub open spec fn bg_text(c: u32) -> Seq<char> {
    "\x1b[48;2;"@ + rgb_text(c) + seq!['m']
}

/// Sets both colours.
pub open spec fn colours_text(fg: u32, bg: u32) -> Seq<char> {
    fg_text(fg) + bg_text(bg)
}

/// Moves to a row and a column, which count from 1.
pub open spec fn goto_text(r: nat, c: nat) -> Seq<char> {
    "\x1b["@ + decimal(r) + seq![';'] + decimal(c) + seq!['H']
}

/// The black of the CGA palette, as the other colours are of it.
pub const BLACK: u32 = 0x000000;

pub const BLUE: u32 = 0x0000aa;

pub const CYAN: u32 = 0x00aaaa;

pub const BRIGHT_CYAN: u32 = 0x55ffff;

pub const WHITE: u32 = 0xffffff;

pub const LIGHT_GREY: u32 = 0xaaaaaa;

pub const DARK_GREY: u32 = 0x555555;

pub const YELLOW: u32 = 0xffff55;

/// Appends a colour's three numbers.
fn push_rgb(o: &mut String, c: u32)
    ensures
        final(o)@ == old(o)@ + rgb_text(c),
{
    push_decimal(o, (c / 0x1_0000) as u64);
    o.push(';');
    push_decimal(o, (c / 0x100 % 0x100) as u64);
    o.push(';');
    push_decimal(o, (c % 0x100) as u64);
    assert(o@ =~= old(o)@ + rgb_text(c));
}

/// Sets the colour of the text.
pub fn set_fg(o: &mut String, c: u32)
    ensures
        final(o)@ == old(o)@ + fg_text(c),
{
    o.push_str("\x1b[38;2;");
    push_rgb(o, c);
    o.push('m');
    assert(o@ =~= old(o)@ + fg_text(c));
}

/// Sets the colour behind the text.
pub fn set_bg(o: &mut String, c: u32)
    ensures
        final(o)@ == old(o)@ + bg_text(c),
{
    o.push_str("\x1b[48;2;");
    push_rgb(o, c);
    o.push('m');
    assert(o@ =~= old(o)@ + bg_text(c));
}

/// Sets both colours.
fn set_colours(o: &mut String, fg: u32, bg: u32)
    ensures
        final(o)@ == old(o)@ + colours_text(fg, bg),
{
    set_fg(o, fg);
    set_bg(o, bg);
    assert(o@ =~= old(o)@ + colours_text(fg, bg));
}

/// Moves to a row and a column.
pub fn goto(o: &mut String, r: u16, c: u16)
    ensures
        final(o)@ == old(o)@ + goto_text(r as nat, c as nat),
{
    o.push_str("\x1b[");
    push_decimal(o, r as u64);
    o.push(';');
    push_decimal(o, c as u64);
    o.push('H');
    assert(o@ =~= old(o)@ + goto_text(r as nat, c as nat));
}

/// Hides the cursor.
pub fn hide_cur(o: &mut String)
    ensures
        final(o)@ == old(o)@ + "\x1b[?25l"@,
{
    o.push_str("\x1b[?25l");
}

/// Shows the cursor.
pub fn show_cur(o: &mut String)
    ensures
        final(o)@ == old(o)@ + "\x1b[?25h"@,
{
    o.push_str("\x1b[?25h");
}

/// Back to the terminal's own colours.
pub open spec fn reset_text() -> Seq<char> {
    "\x1b[0m"@
}

/// Back to the terminal's own colours.
pub fn c_reset(o: &mut String)
    ensures
        final(o)@ == old(o)@ + reset_text(),
{
    o.push_str("\x1b[0m");
}

/// The header of the active pane, and the borders of dialogs: yellow on blue.
pub fn c_hdr_act(o: &mut String)
    ensures
        final(o)@ == old(o)@ + colours_text(YELLOW, BLUE),
{
    set_colours(o, YELLOW, BLUE);
}

/// The header of the other pane: light grey on blue.
pub fn c_hdr(o: &mut String)
    ensures
        final(o)@ == old(o)@ + colours_text(LIGHT_GREY, BLUE),
{
    set_colours(o, LIGHT_GREY, BLUE);
}

/// The cursor in the active pane: black on cyan.
pub fn c_sel(o: &mut String)
    ensures
        final(o)@ == old(o)@ + colours_text(BLACK, CYAN),
{
    set_colours(o, BLACK, CYAN);
}

/// The cursor in the other pane: light grey on dark grey.
pub fn c_sel_inactive(o: &mut String)
    ensures
        final(o)@ == old(o)@ + colours_text(LIGHT_GREY, DARK_GREY),
{
    set_colours(o, LIGHT_GREY, DARK_GREY);
}

/// A directory: white on blue.
pub fn c_dir(o: &mut String)
    ensures
        final(o)@ == old(o)@ + colours_text(WHITE, BLUE),
{
    set_colours(o, WHITE, BLUE);
}

/// A file, and the inside of dialogs: bright cyan on blue.
pub fn c_norm(o: &mut String)
    ensures
        final(o)@ == old(o)@ + colours_text(BRIGHT_CYAN, BLUE),
{
    set_colours(o, BRIGHT_CYAN, BLUE);
}

/// The status line: black on cyan.
pub fn c_status(o: &mut String)
    ensures
        final(o)@ == old(o)@ + colours_text(BLACK, CYAN),
{
    set_colours(o, BLACK, CYAN);
}

/// A selected entry: yellow on blue.
pub fn c_sel_file(o: &mut String)
    ensures
        final(o)@ == old(o)@ + colours_text(YELLOW, BLUE),
{
    set_colours(o, YELLOW, BLUE);
}

/// Asks for reports of the mouse.
pub fn mouse_on(o: &mut String)
    ensures
        final(o)@ == old(o)@ + "\x1b[?1000h\x1b[?1006h"@,
{
    o.push_str("\x1b[?1000h\x1b[?1006h");
}

/// Asks for no more reports of the mouse.
pub fn mouse_off(o: &mut String)
    ensures
        final(o)@ == old(o)@ + "\x1b[?1006l\x1b[?1000l"@,
{
    o.push_str("\x1b[?1006l\x1b[?1000l");
}

/// The first `rows` rows, each blank over `cols` columns.
pub open spec fn blank_rows(rows: nat, cols: int) -> Seq<char>
    decreases rows,
{
    if rows == 0 {
        Seq::empty()
    } else {
        blank_rows((rows - 1) as nat, cols) + goto_text(rows, 1) + spaces(cols)
    }
}

/// A blank screen.
pub open spec fn clear_text(rows: nat, cols: int) -> Seq<char> {
    bg_text(BLUE) + fg_text(BRIGHT_CYAN) + blank_rows(rows, cols) + goto_text(1, 1)
}

/// Clears a screen of this size.
pub fn clr(o: &mut String, rows: u16, cols: u16)
    ensures
        final(o)@ == old(o)@ + clear_text(rows as nat, cols as int),
{
    set_bg(o, BLUE);
    set_fg(o, BRIGHT_CYAN);
    let ghost start = o@;
    let mut r: u16 = 0;
    assert(start + blank_rows(0, cols as int) =~= start);
    while r < rows
        invariant
            r <= rows,
            o@ == start + blank_rows(r as nat, cols as int),
        decreases rows - r,
    {
        r += 1;
        goto(o, r, 1);
        push_spaces(o, cols as usize);
        assert(o@ =~= start + blank_rows(r as nat, cols as int));
    }
    goto(o, 1, 1);
    assert(o@ =~= old(o)@ + clear_text(rows as nat, cols as int));
}

/// A colour is given by its red, green and blue parts, in this order.
pub proof fn colour_has_three_parts(r: u32, g: u32, b: u32)
    requires
        r < 256,
        g < 256,
        b < 256,
    ensures
        rgb_text((r * 65536 + g * 256 + b) as u32) == decimal(r as nat) + seq![';'] + decimal(
            g as nat,
        ) + seq![';'] + decimal(b as nat),
{
    let c = (r * 65536 + g * 256 + b) as u32;
    assert(c / 0x1_0000 == r);
    assert(c / 0x100 % 0x100 == g);
    assert(c % 0x100 == b);
}

/// Both colours are set, that of the text and that behind it, and a place is named by
/// its row and then its column.
pub proof fn sequences_are_spelled_out(fg: u32, bg: u32, r: nat, c: nat)
    ensures
        colours_text(fg, bg) == "\x1b[38;2;"@ + rgb_text(fg) + "m\x1b[48;2;"@ + rgb_text(bg) + "m"@,
        goto_text(r, c) == "\x1b["@ + decimal(r) + ";"@ + decimal(c) + "H"@,
        reset_text() == seq!['\x1b', '[', '0', 'm'],
{
    reveal_strlit("\x1b[38;2;");
    reveal_strlit("\x1b[48;2;");
    reveal_strlit("m\x1b[48;2;");
    reveal_strlit("m");
    reveal_strlit(";");
    reveal_strlit("H");
    reveal_strlit("\x1b[0m");
    assert(colours_text(fg, bg) =~= "\x1b[38;2;"@ + rgb_text(fg) + "m\x1b[48;2;"@ + rgb_text(bg)
        + "m"@);
    assert(goto_text(r, c) =~= "\x1b["@ + decimal(r) + ";"@ + decimal(c) + "H"@);
    assert(reset_text() =~= seq!['\x1b', '[', '0', 'm']);
}

/// Clearing the screen blanks every row, over all its columns: what is written holds
/// the way to the row and the blanks, between `parts`.
pub proof fn every_row_is_blanked(rows: nat, cols: int, r: nat) -> (parts: (Seq<char>, Seq<char>))
    requires
        1 <= r <= rows,
    ensures
        blank_rows(rows, cols) == parts.0 + (goto_text(r, 1) + spaces(cols)) + parts.1,
    decreases rows,
{
    let before = blank_rows((rows - 1) as nat, cols);
    let last = goto_text(rows, 1) + spaces(cols);
    if r == rows {
        assert(blank_rows(rows, cols) =~= before + last + Seq::<char>::empty());
        (before, Seq::empty())
    } else {
        let (a, b) = every_row_is_blanked((rows - 1) as nat, cols, r);
        assert(blank_rows(rows, cols) =~= a + (goto_text(r, 1) + spaces(cols)) + (b + last));
        (a, b + last)
    }
}

/// A cleared screen is blue, with the rows blanked, and the place is the top left.
pub proof fn cleared_screen_is_blue(rows: nat, cols: int)
    ensures
        clear_text(rows, cols) == bg_text(0x0000aa) + fg_text(0x55ffff) + blank_rows(rows, cols)
            + goto_text(1, 1),
{
}

} // verus!
