//! The frame of a dialog.

use vstd::prelude::*;

use crate::ansi::{
    c_hdr_act, c_norm, c_reset, colours_text, goto, goto_text, reset_text, BLUE, YELLOW,
};
use crate::draw::{
    at_least_zero, dashes_fill_the_border, dashes_left, dashes_right, norm_text,
};
use crate::text::{char_count, push_repeated, push_spaces, put, repeated, spaces};

verus! {

/// The colours of a frame.
pub open spec fn frame_text() -> Seq<char> {
    colours_text(YELLOW, BLUE)
}

/// The columns within a frame.
pub open spec fn inner_width(box_w: int) -> int {
    at_least_zero(box_w - 2)
}

/// The title of a frame, with its ends.
pub open spec fn frame_title(title: Seq<char>) -> Seq<char> {
    "╡ "@ + title + " ╞"@
}

/// One row of the inside, with its borders.
pub open spec fn frame_row(row: int, col0: int, inner_w: int) -> Seq<char> {
    goto_text(row as nat, col0 as nat) + frame_text() + seq!['║'] + norm_text() + spaces(inner_w)
        + frame_text() + seq!['║']
}

/// The first `n` rows of the inside.
pub open spec fn frame_rows(n: int, row0: int, col0: int, inner_w: int) -> Seq<char>
    decreases n,
{
    if n <= 0 {
        Seq::empty()
    } else {
        frame_rows(n - 1, row0, col0, inner_w) + frame_row(row0 + n, col0, inner_w)
    }
}

/// A frame with a title, around `box_h` empty rows.
pub open spec fn nc_box_text(
    row0: int,
    col0: int,
    box_w: int,
    box_h: int,
    title: Seq<char>,
) -> Seq<char> {
    let inner_w = inner_width(box_w);
    let seg = frame_title(title);
    goto_text(row0 as nat, col0 as nat) + frame_text() + seq!['╔'] + repeated(
        '═',
        dashes_left(inner_w, seg.len() as int),
    ) + seg + repeated('═', dashes_right(inner_w, seg.len() as int)) + seq!['╗'] + frame_rows(
        box_h,
        row0,
        col0,
        inner_w,
    ) + goto_text((row0 + 1 + box_h) as nat, col0 as nat) + seq!['╚'] + repeated('═', inner_w)
        + seq!['╝'] + reset_text()
}

/// Draws a frame around `box_h` rows, which it clears. Gives the columns within.
pub fn draw_nc_box(
    o: &mut String,
    row0: u16,
    col0: u16,
    box_w: usize,
    box_h: usize,
    title: &str,
) -> (r: usize)
    requires
        row0 + 1 + box_h <= 0xffff,
    ensures
        r == inner_width(box_w as int),
        final(o)@ == old(o)@ + nc_box_text(
            row0 as int,
            col0 as int,
            box_w as int,
            box_h as int,
            title@,
        ),
{
    let inner_w = box_w.saturating_sub(2);
    let mut seg = String::new();
    seg.push_str("╡ ");
    assert(seg@ =~= "╡ "@);
    seg.push_str(title);
    seg.push_str(" ╞");
    let tlen = char_count(seg.as_str());
    let left = if inner_w > tlen {
        (inner_w - tlen) / 2
    } else {
        0
    };
    let right = inner_w.saturating_sub(tlen).saturating_sub(left);
    let mut t = String::new();
    goto(&mut t, row0, col0);
    assert(t@ =~= goto_text(row0 as nat, col0 as nat));
    c_hdr_act(&mut t);
    put(&mut t, '╔');
    push_repeated(&mut t, '═', left);
    t.push_str(seg.as_str());
    push_repeated(&mut t, '═', right);
    put(&mut t, '╗');
    draw_frame_rows(&mut t, row0, col0, inner_w, box_h);
    goto(&mut t, row0 + 1 + box_h as u16, col0);
    put(&mut t, '╚');
    push_repeated(&mut t, '═', inner_w);
    put(&mut t, '╝');
    c_reset(&mut t);
    o.push_str(t.as_str());
    inner_w
}

/// Draws the rows of the inside.
fn draw_frame_rows(o: &mut String, row0: u16, col0: u16, inner_w: usize, box_h: usize)
    requires
        row0 + 1 + box_h <= 0xffff,
    ensures
        final(o)@ == old(o)@ + frame_rows(
            box_h as int,
            row0 as int,
            col0 as int,
            inner_w as int,
        ),
{
    let mut r: usize = 0;
    assert(o@ =~= old(o)@ + frame_rows(0, row0 as int, col0 as int, inner_w as int));
    while r < box_h
        invariant
            r <= box_h,
            row0 + 1 + box_h <= 0xffff,
            o@ == old(o)@ + frame_rows(r as int, row0 as int, col0 as int, inner_w as int),
        decreases box_h - r,
    {
        let row = row0 + 1 + r as u16;
        let mut t = String::new();
        goto(&mut t, row, col0);
        assert(t@ =~= goto_text(row as nat, col0 as nat));
        c_hdr_act(&mut t);
        put(&mut t, '║');
        c_norm(&mut t);
        push_spaces(&mut t, inner_w);
        c_hdr_act(&mut t);
        put(&mut t, '║');
        o.push_str(t.as_str());
        r += 1;
        assert(o@ =~= old(o)@ + frame_rows(r as int, row0 as int, col0 as int, inner_w as int));
    }
}

/// The inside of a frame has every row: the way to it, a border at each side and
/// blanks between them.
pub proof fn every_row_has_its_borders(n: int, row0: int, col0: int, inner_w: int, k: int) -> (parts:
    (Seq<char>, Seq<char>))
    requires
        1 <= k <= n,
    ensures
        frame_rows(n, row0, col0, inner_w) == parts.0 + (goto_text(
            (row0 + k) as nat,
            col0 as nat,
        ) + frame_text() + seq!['║'] + norm_text() + spaces(inner_w) + frame_text() + seq!['║'])
            + parts.1,
    decreases n,
{
    let before = frame_rows(n - 1, row0, col0, inner_w);
    let last = frame_row(row0 + n, col0, inner_w);
    if k == n {
        assert(frame_rows(n, row0, col0, inner_w) =~= before + last + Seq::<char>::empty());
        (before, Seq::empty())
    } else {
        let (a, b) = every_row_has_its_borders(n - 1, row0, col0, inner_w, k);
        let row = frame_row(row0 + k, col0, inner_w);
        assert(frame_rows(n, row0, col0, inner_w) =~= a + row + (b + last));
        (a, b + last)
    }
}

/// The borders of a frame are as wide as asked: the columns within and two corners.
/// The title stands whole in the upper one, in the middle but for one column.
pub proof fn title_stands_in_the_border(title: Seq<char>, box_w: int)
    requires
        box_w >= title.len() + 6,
    ensures
        ({
            let inner = inner_width(box_w);
            let seg = frame_title(title);
            let left = dashes_left(inner, seg.len() as int);
            let right = dashes_right(inner, seg.len() as int);
            &&& inner == box_w - 2
            &&& seg == seq!['╡', ' '] + title + seq![' ', '╞']
            &&& left + seg.len() + right == inner
            &&& right - left == 0 || right - left == 1
        }),
{
    reveal_strlit("╡ ");
    reveal_strlit(" ╞");
    assert(frame_title(title) =~= seq!['╡', ' '] + title + seq![' ', '╞']);
}

/// A frame is its upper border, the rows of the inside and its lower border, each at
/// its own row. The title stands whole in the upper one, however narrow the frame.
pub proof fn frame_is_drawn_from_top_to_bottom(
    row0: int,
    col0: int,
    box_w: int,
    box_h: int,
    title: Seq<char>,
)
    requires
        box_w >= 2,
    ensures
        ({
            let inner = box_w - 2;
            let len = title.len() as int + 4;
            let upper = seq!['╔'] + (repeated('═', dashes_left(inner, len)) + (seq!['╡', ' '] + title
                + seq![' ', '╞']) + repeated('═', dashes_right(inner, len))) + seq!['╗'];
            let lower = seq!['╚'] + repeated('═', inner) + seq!['╝'];
            &&& len <= inner ==> upper.len() == box_w
            &&& lower.len() == box_w
            &&& nc_box_text(row0, col0, box_w, box_h, title) == goto_text(
                row0 as nat,
                col0 as nat,
            ) + frame_text() + upper + frame_rows(box_h, row0, col0, inner) + goto_text(
                (row0 + 1 + box_h) as nat,
                col0 as nat,
            ) + lower + reset_text()
        }),
{
    reveal_strlit("╡ ");
    reveal_strlit(" ╞");
    assert(frame_title(title) =~= seq!['╡', ' '] + title + seq![' ', '╞']);
    let inner = box_w - 2;
    let len = title.len() as int + 4;
    dashes_fill_the_border(inner, len);
    let a = repeated('═', dashes_left(inner, len));
    let b = repeated('═', dashes_right(inner, len));
    let start = goto_text(row0 as nat, col0 as nat) + frame_text();
    lemma_border_is_one(start, seq!['╔'], a + frame_title(title) + b, seq!['╗']);
    lemma_border_is_one(start + seq!['╔'], a, frame_title(title), b);
    let end = goto_text((row0 + 1 + box_h) as nat, col0 as nat);
    lemma_border_is_one(
        start + (seq!['╔'] + (a + frame_title(title) + b) + seq!['╗']) + frame_rows(
            box_h,
            row0,
            col0,
            inner,
        ) + end,
        seq!['╚'],
        repeated('═', inner),
        seq!['╝'],
    );
}

/// A border and its corners, one after the other, are a whole.
proof fn lemma_border_is_one(start: Seq<char>, a: Seq<char>, b: Seq<char>, c: Seq<char>)
    ensures
        start + a + b + c == start + (a + b + c),
{
    assert(start + a + b + c =~= start + (a + b + c));
}

/// The colours of a frame are yellow on blue, and those of its inside bright cyan on
/// blue; a frame of fewer than two columns has no inside.
pub proof fn frame_has_its_colours(box_w: int)
    ensures
        frame_text() == colours_text(0xffff55, 0x0000aa),
        norm_text() == colours_text(0x55ffff, 0x0000aa),
        box_w >= 2 ==> inner_width(box_w) == box_w - 2,
        box_w < 2 ==> inner_width(box_w) == 0,
{
}

} // verus!
