//! The list of the keys.

use vstd::prelude::*;

use crate::ansi::{c_norm, goto, goto_text};
use crate::draw::{at_least_zero, lemma_last_part, lemma_more_behind, norm_text};
use crate::frame::{draw_nc_box, inner_width, nc_box_text};
use crate::text::{pad_right, push_padded, spaces};

verus! {

/// How many lines the list has.
pub const HELP_COUNT: usize = 41;

/// The lines of the list.
pub open spec fn help_line(i: int) -> Seq<char> {
    if i == 0 {
        "  Navigation                              "@
    } else if i == 1 {
        "  Tab           switch active pane        "@
    } else if i == 2 {
        "  ↑/↓           move cursor               "@
    } else if i == 3 {
        "  PgUp/PgDn     scroll page               "@
    } else if i == 4 {
        "  Home/End       first/last entry         "@
    } else if i == 5 {
        "  gg             go to top (vim)           "@
    } else if i == 6 {
        "  G              go to bottom (vim)        "@
    } else if i == 7 {
        "  /              incremental search        "@
    } else if i == 8 {
        "  Enter/→        enter dir or open file   "@
    } else if i == 9 {
        "  ←/Backspace    go up (parent dir)       "@
    } else if i == 10 {
        "                                          "@
    } else if i == 11 {
        "  Selection                               "@
    } else if i == 12 {
        "  Insert         toggle + move down       "@
    } else if i == 13 {
        "  Space          toggle selection         "@
    } else if i == 14 {
        "  Ctrl+A         select all               "@
    } else if i == 15 {
        "  Esc            deselect all             "@
    } else if i == 16 {
        "                                          "@
    } else if i == 17 {
        "  File operations                         "@
    } else if i == 18 {
        "  F1 / ?         this help                "@
    } else if i == 19 {
        "  F2 / r         rename                   "@
    } else if i == 20 {
        "  F3             view file (pager)        "@
    } else if i == 21 {
        "  F4 / e         edit file                "@
    } else if i == 22 {
        "  F5             copy to other pane       "@
    } else if i == 23 {
        "  F6             move to other pane       "@
    } else if i == 24 {
        "  F7             create directory         "@
    } else if i == 25 {
        "  F8 / dd / Del  delete                   "@
    } else if i == 26 {
        "  F9             context menu             "@
    } else if i == 27 {
        "  F10 / q        quit                     "@
    } else if i == 28 {
        "                                          "@
    } else if i == 29 {
        "  Misc                                    "@
    } else if i == 30 {
        "  S              sync other pane here     "@
    } else if i == 31 {
        "  '              goto path                 "@
    } else if i == 32 {
        "  s              sort by …               "@
    } else if i == 33 {
        "  R              refresh                  "@
    } else if i == 34 {
        "  C              rclone remote mount      "@
    } else if i == 35 {
        "  f              FTP (netrc) connect      "@
    } else if i == 36 {
        "                                          "@
    } else if i == 37 {
        "  Mouse                                   "@
    } else if i == 38 {
        "  click          switch pane / cursor     "@
    } else if i == 39 {
        "  dbl-click      enter dir or open file   "@
    } else {
        "  scroll         scroll 3 rows            "@
    }
}

/// A line of the list.
pub fn help_at(i: usize) -> (r: &'static str)
    ensures
        r@ == help_line(i as int),
{
    match i {
        0 => "  Navigation                              ",
        1 => "  Tab           switch active pane        ",
        2 => "  ↑/↓           move cursor               ",
        3 => "  PgUp/PgDn     scroll page               ",
        4 => "  Home/End       first/last entry         ",
        5 => "  gg             go to top (vim)           ",
        6 => "  G              go to bottom (vim)        ",
        7 => "  /              incremental search        ",
        8 => "  Enter/→        enter dir or open file   ",
        9 => "  ←/Backspace    go up (parent dir)       ",
        10 => "                                          ",
        11 => "  Selection                               ",
        12 => "  Insert         toggle + move down       ",
        13 => "  Space          toggle selection         ",
        14 => "  Ctrl+A         select all               ",
        15 => "  Esc            deselect all             ",
        16 => "                                          ",
        17 => "  File operations                         ",
        18 => "  F1 / ?         this help                ",
        19 => "  F2 / r         rename                   ",
        20 => "  F3             view file (pager)        ",
        21 => "  F4 / e         edit file                ",
        22 => "  F5             copy to other pane       ",
        23 => "  F6             move to other pane       ",
        24 => "  F7             create directory         ",
        25 => "  F8 / dd / Del  delete                   ",
        26 => "  F9             context menu             ",
        27 => "  F10 / q        quit                     ",
        28 => "                                          ",
        29 => "  Misc                                    ",
        30 => "  S              sync other pane here     ",
        31 => "  '              goto path                 ",
        32 => "  s              sort by …               ",
        33 => "  R              refresh                  ",
        34 => "  C              rclone remote mount      ",
        35 => "  f              FTP (netrc) connect      ",
        36 => "                                          ",
        37 => "  Mouse                                   ",
        38 => "  click          switch pane / cursor     ",
        39 => "  dbl-click      enter dir or open file   ",
        _ => "  scroll         scroll 3 rows            ",
    }
}

/// The width of the frame: that of the first line, with the borders.
pub const HELP_WIDTH: usize = 44;

/// The width of the frame, as far as the screen has it.
pub open spec fn help_width(cols: int) -> int {
    if cols < HELP_WIDTH {
        cols
    } else {
        HELP_WIDTH as int
    }
}

/// The first row of the frame.
pub open spec fn help_row0(rows: int) -> int {
    at_least_zero(rows - (HELP_COUNT + 2)) / 2 + 1
}

/// The first column of the frame.
pub open spec fn help_col0(cols: int) -> int {
    at_least_zero(cols - help_width(cols)) / 2 + 1
}

/// The row of a line.
pub open spec fn help_row(i: int, rows: int, cols: int) -> Seq<char> {
    goto_text((help_row0(rows) + 1 + i) as nat, (help_col0(cols) + 1) as nat) + norm_text()
        + pad_right(help_line(i), inner_width(help_width(cols)))
}

/// The rows of the first `n` lines.
pub open spec fn help_rows(n: int, rows: int, cols: int) -> Seq<char>
    decreases n,
{
    if n <= 0 {
        Seq::empty()
    } else {
        help_rows(n - 1, rows, cols) + help_row(n - 1, rows, cols)
    }
}

/// The list on a screen of this size.
pub open spec fn help_text(rows: int, cols: int) -> Seq<char> {
    nc_box_text(
        help_row0(rows),
        help_col0(cols),
        help_width(cols),
        HELP_COUNT as int,
        "Keybindings  (any key to close)"@,
    ) + help_rows(HELP_COUNT as int, rows, cols)
}

/// Draws the list of the keys; any key closes it.
pub fn op_help(o: &mut String, rows: u16, cols: u16)
    ensures
        final(o)@ == old(o)@ + help_text(rows as int, cols as int),
{
    let width: usize = if (cols as usize) < HELP_WIDTH {
        cols as usize
    } else {
        HELP_WIDTH
    };
    let row0 = ((rows as usize).saturating_sub(HELP_COUNT + 2) / 2 + 1) as u16;
    let col0 = ((cols as usize).saturating_sub(width) / 2 + 1) as u16;
    let mut t = String::new();
    let inner_w = draw_nc_box(
        &mut t,
        row0,
        col0,
        width,
        HELP_COUNT,
        "Keybindings  (any key to close)",
    );
    let ghost frame = t@;
    assert(frame =~= nc_box_text(
        help_row0(rows as int),
        help_col0(cols as int),
        help_width(cols as int),
        HELP_COUNT as int,
        "Keybindings  (any key to close)"@,
    ));
    let mut i: usize = 0;
    assert(t@ =~= frame + help_rows(0, rows as int, cols as int));
    while i < HELP_COUNT
        invariant
            i <= HELP_COUNT,
            row0 == help_row0(rows as int),
            col0 == help_col0(cols as int),
            inner_w == inner_width(help_width(cols as int)),
            row0 + 1 + HELP_COUNT <= 0xffff,
            col0 + 1 <= 0xffff,
            t@ == frame + help_rows(i as int, rows as int, cols as int),
        decreases HELP_COUNT - i,
    {
        let row = row0 + 1 + i as u16;
        let mut line = String::new();
        goto(&mut line, row, col0 + 1);
        assert(line@ =~= goto_text(row as nat, (col0 + 1) as nat));
        c_norm(&mut line);
        push_padded(&mut line, help_at(i), inner_w);
        t.push_str(line.as_str());
        i += 1;
        assert(t@ =~= frame + help_rows(i as int, rows as int, cols as int));
    }
    o.push_str(t.as_str());
}

/// Every line of the list is written in its own row within the frame, one below the
/// other. The row stands between `parts`.
pub proof fn every_line_is_written(n: int, rows: int, cols: int, i: int) -> (parts: (
    Seq<char>,
    Seq<char>,
))
    requires
        0 <= i < n,
    ensures
        help_rows(n, rows, cols) == parts.0 + (goto_text(
            (help_row0(rows) + 1 + i) as nat,
            (help_col0(cols) + 1) as nat,
        ) + norm_text() + pad_right(help_line(i), inner_width(help_width(cols)))) + parts.1,
    decreases n,
{
    let before = help_rows(n - 1, rows, cols);
    let last = help_row(n - 1, rows, cols);
    if i == n - 1 {
        lemma_last_part(before, last);
        (before, Seq::empty())
    } else {
        let (a, b) = every_line_is_written(n - 1, rows, cols, i);
        lemma_more_behind(a, help_row(i, rows, cols), b, last);
        (a, b + last)
    }
}

/// On a screen with room for it the list stands in the middle, but for one row and
/// one column, with all its lines.
pub proof fn list_stands_in_the_middle(rows: int, cols: int)
    requires
        rows >= 43,
        cols >= 44,
    ensures
        HELP_COUNT == 41,
        help_width(cols) == 44,
        ({
            let above = help_row0(rows) - 1;
            let below = rows - above - 43;
            let left = help_col0(cols) - 1;
            let right = cols - left - 44;
            &&& above == below || above + 1 == below
            &&& left == right || left + 1 == right
        }),
{
}

/// A line of the list has a key and what it does; the lines stand in groups, each
/// under its heading, with a blank line between two.
pub proof fn lines_tell_what_keys_do()
    ensures
        help_line(1) == "  Tab           "@ + "switch active pane        "@,
        help_line(2) == "  ↑/↓           "@ + "move cursor               "@,
        help_line(3) == "  PgUp/PgDn     "@ + "scroll page               "@,
        help_line(4) == "  Home/End       "@ + "first/last entry         "@,
        help_line(5) == "  gg             "@ + "go to top (vim)           "@,
        help_line(6) == "  G              "@ + "go to bottom (vim)        "@,
        help_line(7) == "  /              "@ + "incremental search        "@,
        help_line(8) == "  Enter/→        "@ + "enter dir or open file   "@,
        help_line(9) == "  ←/Backspace    "@ + "go up (parent dir)       "@,
        help_line(12) == "  Insert         "@ + "toggle + move down       "@,
        help_line(13) == "  Space          "@ + "toggle selection         "@,
        help_line(14) == "  Ctrl+A         "@ + "select all               "@,
        help_line(15) == "  Esc            "@ + "deselect all             "@,
        help_line(18) == "  F1 / ?         "@ + "this help                "@,
        help_line(19) == "  F2 / r         "@ + "rename                   "@,
        help_line(20) == "  F3             "@ + "view file (pager)        "@,
        help_line(21) == "  F4 / e         "@ + "edit file                "@,
        help_line(22) == "  F5             "@ + "copy to other pane       "@,
        help_line(23) == "  F6             "@ + "move to other pane       "@,
        help_line(24) == "  F7             "@ + "create directory         "@,
        help_line(25) == "  F8 / dd / Del  "@ + "delete                   "@,
        help_line(26) == "  F9             "@ + "context menu             "@,
        help_line(27) == "  F10 / q        "@ + "quit                     "@,
        help_line(30) == "  S              "@ + "sync other pane here     "@,
        help_line(31) == "  '              "@ + "goto path                 "@,
        help_line(32) == "  s              "@ + "sort by …               "@,
        help_line(33) == "  R              "@ + "refresh                  "@,
        help_line(34) == "  C              "@ + "rclone remote mount      "@,
        help_line(35) == "  f              "@ + "FTP (netrc) connect      "@,
        help_line(38) == "  click          "@ + "switch pane / cursor     "@,
        help_line(39) == "  dbl-click      "@ + "enter dir or open file   "@,
        help_line(40) == "  scroll         "@ + "scroll 3 rows            "@,
        help_line(0) == "  Navigation"@ + spaces(30),
        help_line(11) == "  Selection"@ + spaces(31),
        help_line(17) == "  File operations"@ + spaces(25),
        help_line(29) == "  Misc"@ + spaces(36),
        help_line(37) == "  Mouse"@ + spaces(35),
        help_line(10) == spaces(42),
        help_line(16) == spaces(42),
        help_line(28) == spaces(42),
        help_line(36) == spaces(42),
{
    assert(help_line(1) =~= "  Tab           "@ + "switch active pane        "@) by {
        reveal_strlit("  Tab           switch active pane        ");
        reveal_strlit("  Tab           ");
        reveal_strlit("switch active pane        ");
    }
    assert(help_line(2) =~= "  ↑/↓           "@ + "move cursor               "@) by {
        reveal_strlit("  ↑/↓           move cursor               ");
        reveal_strlit("  ↑/↓           ");
        reveal_strlit("move cursor               ");
    }
    assert(help_line(3) =~= "  PgUp/PgDn     "@ + "scroll page               "@) by {
        reveal_strlit("  PgUp/PgDn     scroll page               ");
        reveal_strlit("  PgUp/PgDn     ");
        reveal_strlit("scroll page               ");
    }
    assert(help_line(4) =~= "  Home/End       "@ + "first/last entry         "@) by {
        reveal_strlit("  Home/End       first/last entry         ");
        reveal_strlit("  Home/End       ");
        reveal_strlit("first/last entry         ");
    }
    assert(help_line(5) =~= "  gg             "@ + "go to top (vim)           "@) by {
        reveal_strlit("  gg             go to top (vim)           ");
        reveal_strlit("  gg             ");
        reveal_strlit("go to top (vim)           ");
    }
    assert(help_line(6) =~= "  G              "@ + "go to bottom (vim)        "@) by {
        reveal_strlit("  G              go to bottom (vim)        ");
        reveal_strlit("  G              ");
        reveal_strlit("go to bottom (vim)        ");
    }
    assert(help_line(7) =~= "  /              "@ + "incremental search        "@) by {
        reveal_strlit("  /              incremental search        ");
        reveal_strlit("  /              ");
        reveal_strlit("incremental search        ");
    }
    assert(help_line(8) =~= "  Enter/→        "@ + "enter dir or open file   "@) by {
        reveal_strlit("  Enter/→        enter dir or open file   ");
        reveal_strlit("  Enter/→        ");
        reveal_strlit("enter dir or open file   ");
    }
    assert(help_line(9) =~= "  ←/Backspace    "@ + "go up (parent dir)       "@) by {
        reveal_strlit("  ←/Backspace    go up (parent dir)       ");
        reveal_strlit("  ←/Backspace    ");
        reveal_strlit("go up (parent dir)       ");
    }
    assert(help_line(12) =~= "  Insert         "@ + "toggle + move down       "@) by {
        reveal_strlit("  Insert         toggle + move down       ");
        reveal_strlit("  Insert         ");
        reveal_strlit("toggle + move down       ");
    }
    assert(help_line(13) =~= "  Space          "@ + "toggle selection         "@) by {
        reveal_strlit("  Space          toggle selection         ");
        reveal_strlit("  Space          ");
        reveal_strlit("toggle selection         ");
    }
    assert(help_line(14) =~= "  Ctrl+A         "@ + "select all               "@) by {
        reveal_strlit("  Ctrl+A         select all               ");
        reveal_strlit("  Ctrl+A         ");
        reveal_strlit("select all               ");
    }
    assert(help_line(15) =~= "  Esc            "@ + "deselect all             "@) by {
        reveal_strlit("  Esc            deselect all             ");
        reveal_strlit("  Esc            ");
        reveal_strlit("deselect all             ");
    }
    assert(help_line(18) =~= "  F1 / ?         "@ + "this help                "@) by {
        reveal_strlit("  F1 / ?         this help                ");
        reveal_strlit("  F1 / ?         ");
        reveal_strlit("this help                ");
    }
    assert(help_line(19) =~= "  F2 / r         "@ + "rename                   "@) by {
        reveal_strlit("  F2 / r         rename                   ");
        reveal_strlit("  F2 / r         ");
        reveal_strlit("rename                   ");
    }
    assert(help_line(20) =~= "  F3             "@ + "view file (pager)        "@) by {
        reveal_strlit("  F3             view file (pager)        ");
        reveal_strlit("  F3             ");
        reveal_strlit("view file (pager)        ");
    }
    assert(help_line(21) =~= "  F4 / e         "@ + "edit file                "@) by {
        reveal_strlit("  F4 / e         edit file                ");
        reveal_strlit("  F4 / e         ");
        reveal_strlit("edit file                ");
    }
    assert(help_line(22) =~= "  F5             "@ + "copy to other pane       "@) by {
        reveal_strlit("  F5             copy to other pane       ");
        reveal_strlit("  F5             ");
        reveal_strlit("copy to other pane       ");
    }
    assert(help_line(23) =~= "  F6             "@ + "move to other pane       "@) by {
        reveal_strlit("  F6             move to other pane       ");
        reveal_strlit("  F6             ");
        reveal_strlit("move to other pane       ");
    }
    assert(help_line(24) =~= "  F7             "@ + "create directory         "@) by {
        reveal_strlit("  F7             create directory         ");
        reveal_strlit("  F7             ");
        reveal_strlit("create directory         ");
    }
    assert(help_line(25) =~= "  F8 / dd / Del  "@ + "delete                   "@) by {
        reveal_strlit("  F8 / dd / Del  delete                   ");
        reveal_strlit("  F8 / dd / Del  ");
        reveal_strlit("delete                   ");
    }
    assert(help_line(26) =~= "  F9             "@ + "context menu             "@) by {
        reveal_strlit("  F9             context menu             ");
        reveal_strlit("  F9             ");
        reveal_strlit("context menu             ");
    }
    assert(help_line(27) =~= "  F10 / q        "@ + "quit                     "@) by {
        reveal_strlit("  F10 / q        quit                     ");
        reveal_strlit("  F10 / q        ");
        reveal_strlit("quit                     ");
    }
    assert(help_line(30) =~= "  S              "@ + "sync other pane here     "@) by {
        reveal_strlit("  S              sync other pane here     ");
        reveal_strlit("  S              ");
        reveal_strlit("sync other pane here     ");
    }
    assert(help_line(31) =~= "  '              "@ + "goto path                 "@) by {
        reveal_strlit("  '              goto path                 ");
        reveal_strlit("  '              ");
        reveal_strlit("goto path                 ");
    }
    assert(help_line(32) =~= "  s              "@ + "sort by …               "@) by {
        reveal_strlit("  s              sort by …               ");
        reveal_strlit("  s              ");
        reveal_strlit("sort by …               ");
    }
    assert(help_line(33) =~= "  R              "@ + "refresh                  "@) by {
        reveal_strlit("  R              refresh                  ");
        reveal_strlit("  R              ");
        reveal_strlit("refresh                  ");
    }
    assert(help_line(34) =~= "  C              "@ + "rclone remote mount      "@) by {
        reveal_strlit("  C              rclone remote mount      ");
        reveal_strlit("  C              ");
        reveal_strlit("rclone remote mount      ");
    }
    assert(help_line(35) =~= "  f              "@ + "FTP (netrc) connect      "@) by {
        reveal_strlit("  f              FTP (netrc) connect      ");
        reveal_strlit("  f              ");
        reveal_strlit("FTP (netrc) connect      ");
    }
    assert(help_line(38) =~= "  click          "@ + "switch pane / cursor     "@) by {
        reveal_strlit("  click          switch pane / cursor     ");
        reveal_strlit("  click          ");
        reveal_strlit("switch pane / cursor     ");
    }
    assert(help_line(39) =~= "  dbl-click      "@ + "enter dir or open file   "@) by {
        reveal_strlit("  dbl-click      enter dir or open file   ");
        reveal_strlit("  dbl-click      ");
        reveal_strlit("enter dir or open file   ");
    }
    assert(help_line(40) =~= "  scroll         "@ + "scroll 3 rows            "@) by {
        reveal_strlit("  scroll         scroll 3 rows            ");
        reveal_strlit("  scroll         ");
        reveal_strlit("scroll 3 rows            ");
    }
    assert(help_line(0) =~= "  Navigation"@ + spaces(30)) by {
        reveal_strlit("  Navigation                              ");
        reveal_strlit("  Navigation");
    }
    assert(help_line(11) =~= "  Selection"@ + spaces(31)) by {
        reveal_strlit("  Selection                               ");
        reveal_strlit("  Selection");
    }
    assert(help_line(17) =~= "  File operations"@ + spaces(25)) by {
        reveal_strlit("  File operations                         ");
        reveal_strlit("  File operations");
    }
    assert(help_line(29) =~= "  Misc"@ + spaces(36)) by {
        reveal_strlit("  Misc                                    ");
        reveal_strlit("  Misc");
    }
    assert(help_line(37) =~= "  Mouse"@ + spaces(35)) by {
        reveal_strlit("  Mouse                                   ");
        reveal_strlit("  Mouse");
    }
    assert(help_line(10) =~= spaces(42)) by {
        reveal_strlit("                                          ");
    }
    assert(help_line(16) =~= spaces(42)) by {
        reveal_strlit("                                          ");
    }
    assert(help_line(28) =~= spaces(42)) by {
        reveal_strlit("                                          ");
    }
    assert(help_line(36) =~= spaces(42)) by {
        reveal_strlit("                                          ");
    }
}

} // verus!
