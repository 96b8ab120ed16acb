//! The line in which the user types an answer.

use vstd::prelude::*;

use crate::ansi::{c_status, colours_text, goto, goto_text, hide_cur, show_cur, BLACK, CYAN};
use crate::draw::at_least_zero;
use crate::keys::{first_byte, Key, KeyStepView};
use crate::scan::{control, is_control_char};
use crate::text::{
    byte_len, can_cut, chars_of, from_byte, lemma_cut_joins, on_boundary, pad_right, push_padded,
    tail_from, text_of, utf8_len,
};

verus! {

/// A question, and the answer as far as it is typed.
pub struct Prompt {
    pub label: String,
    pub buf: Vec<char>,
}

/// The content of a prompt.
#[verifier::ext_equal]
pub struct PromptView {
    pub label: Seq<char>,
    pub buf: Seq<char>,
}

impl View for Prompt {
    type V = PromptView;

    open spec fn view(&self) -> PromptView {
        PromptView { label: self.label@, buf: self.buf@ }
    }
}

/// What a key does to a prompt.
pub enum PromptStep {
    /// The answer may have changed.
    Edit,
    /// The user gave up.
    Abort,
    /// This is the answer.
    Accept(String),
}

/// The content of a `PromptStep`.
#[verifier::ext_equal]
pub enum PromptStepView {
    Edit,
    Abort,
    Accept(Seq<char>),
}

impl View for PromptStep {
    type V = PromptStepView;

    open spec fn view(&self) -> PromptStepView {
        match self {
            PromptStep::Edit => PromptStepView::Edit,
            PromptStep::Abort => PromptStepView::Abort,
            PromptStep::Accept(s) => PromptStepView::Accept(s@),
        }
    }
}

/// The answer after a key. A printable character is added, and a delete or
/// backspace character takes the last one away. The Backspace key is another
/// matter: a terminal's delete and backspace bytes are read as that key, never as
/// those characters, and it leaves the answer as it is.
pub open spec fn edited(buf: Seq<char>, key: Key) -> Seq<char> {
    match key {
        Key::Char(c) => if c == '\x7f' || c == '\x08' {
            if buf.len() > 0 {
                buf.drop_last()
            } else {
                buf
            }
        } else if is_control_char(c) {
            buf
        } else {
            buf.push(c)
        },
        _ => buf,
    }
}

/// What a key leads to: Escape gives up, and Enter accepts the answer.
pub open spec fn prompt_step(buf: Seq<char>, key: Key) -> PromptStepView {
    match key {
        Key::Esc => PromptStepView::Abort,
        Key::Enter => PromptStepView::Accept(buf),
        _ => PromptStepView::Edit,
    }
}

/// What stands before the answer.
pub open spec fn prompt_header(label: Seq<char>) -> Seq<char> {
    seq![' '] + label + ": "@
}

/// The columns for the answer.
pub open spec fn prompt_room(label: Seq<char>, cols: int) -> int {
    at_least_zero(cols - utf8_len(prompt_header(label)) - 1)
}

/// Whether the answer fits, or can be cut between two characters.
pub open spec fn is_prompt_drawable(v: PromptView, cols: int) -> bool {
    let room = prompt_room(v.label, cols);
    utf8_len(v.buf) > room ==> on_boundary(v.buf, utf8_len(v.buf) - room)
}

/// The end of the answer, as many bytes as there is room for.
pub open spec fn shown_answer(v: PromptView, cols: int) -> Seq<char> {
    let room = prompt_room(v.label, cols);
    if utf8_len(v.buf) > room {
        from_byte(v.buf, utf8_len(v.buf) - room)
    } else {
        v.buf
    }
}

/// The column where the cursor stands: behind the answer, in the line.
pub open spec fn prompt_column(v: PromptView, cols: int) -> int {
    let c = utf8_len(prompt_header(v.label)) + utf8_len(shown_answer(v, cols)) + 1;
    if c < cols {
        c as int
    } else {
        cols
    }
}

/// The prompt in the last row.
pub open spec fn prompt_text(v: PromptView, rows: int, cols: int) -> Seq<char> {
    goto_text(rows as nat, 1) + colours_text(BLACK, CYAN) + prompt_header(v.label) + pad_right(
        shown_answer(v, cols),
        prompt_room(v.label, cols),
    ) + goto_text(rows as nat, prompt_column(v, cols) as nat)
}

impl Prompt {
    /// A prompt with an answer to start from. The cursor appears.
    pub fn new(o: &mut String, label: &str, default: &str) -> (r: Prompt)
        ensures
            r@ == (PromptView { label: label@, buf: default@ }),
            final(o)@ == old(o)@ + "\x1b[?25h"@,
    {
        show_cur(o);
        Prompt { label: label.to_string(), buf: chars_of(default) }
    }

    /// What stands before the answer.
    fn header(&self) -> (r: String)
        ensures
            r@ == prompt_header(self.label@),
    {
        let mut r = String::new();
        r.push(' ');
        r.push_str(self.label.as_str());
        r.push_str(": ");
        assert(r@ =~= prompt_header(self.label@));
        r
    }

    /// Tests whether the prompt can be drawn in so many columns.
    pub fn drawable(&self, cols: u16) -> (r: bool)
        ensures
            r == is_prompt_drawable(self@, cols as int),
    {
        let header = self.header();
        let room = (cols as usize).saturating_sub(byte_len(header.as_str())).saturating_sub(1);
        let answer = text_of(self.buf.as_slice());
        let n = byte_len(answer.as_str());
        if n > room {
            can_cut(answer.as_str(), n - room)
        } else {
            true
        }
    }

    /// Draws the prompt in the last row.
    pub fn draw(&self, o: &mut String, rows: u16, cols: u16)
        requires
            is_prompt_drawable(self@, cols as int),
        ensures
            final(o)@ == old(o)@ + prompt_text(self@, rows as int, cols as int),
    {
        let header = self.header();
        let h = byte_len(header.as_str());
        let room = (cols as usize).saturating_sub(h).saturating_sub(1);
        let answer = text_of(self.buf.as_slice());
        let n = byte_len(answer.as_str());
        let shown = if n > room {
            proof {
                lemma_cut_joins(self.buf@, n - room);
            }
            tail_from(answer.as_str(), n - room)
        } else {
            answer.as_str()
        };
        let d = byte_len(shown);
        assert(d <= room);
        let col: u16 = if h >= cols as usize || h + d + 1 >= cols as usize {
            cols
        } else {
            (h + d + 1) as u16
        };
        let mut t = String::new();
        goto(&mut t, rows, 1);
        assert(t@ =~= goto_text(rows as nat, 1));
        c_status(&mut t);
        t.push_str(header.as_str());
        push_padded(&mut t, shown, room);
        goto(&mut t, rows, col);
        o.push_str(t.as_str());
    }
}

/// What is written when the prompt ends: the cursor disappears.
pub open spec fn prompt_end(step: PromptStepView) -> Seq<char> {
    if step is Edit {
        Seq::empty()
    } else {
        "\x1b[?25l"@
    }
}

/// Takes a key.
pub fn prompt(o: &mut String, p: &mut Prompt, key: Key) -> (r: PromptStep)
    ensures
        r@ == prompt_step(old(p)@.buf, key),
        final(p)@ == (PromptView { buf: edited(old(p)@.buf, key), ..old(p)@ }),
        final(o)@ == old(o)@ + prompt_end(r@),
{
    match key {
        Key::Esc => {
            hide_cur(o);
            PromptStep::Abort
        },
        Key::Enter => {
            hide_cur(o);
            PromptStep::Accept(text_of(p.buf.as_slice()))
        },
        Key::Char(c) => {
            if c == '\x7f' || c == '\x08' {
                p.buf.pop();
            } else if !control(c) {
                p.buf.push(c);
            }
            assert(o@ =~= old(o)@ + Seq::<char>::empty());
            PromptStep::Edit
        },
        _ => {
            assert(o@ =~= old(o)@ + Seq::<char>::empty());
            PromptStep::Edit
        },
    }
}

/// The answer after a text was typed.
pub open spec fn typed(buf: Seq<char>, text: Seq<char>) -> Seq<char>
    decreases text.len(),
{
    if text.len() == 0 {
        buf
    } else {
        typed(edited(buf, Key::Char(text[0])), text.skip(1))
    }
}

/// What is typed is added to the answer, character for character, and Enter
/// accepts it.
pub proof fn typed_text_is_accepted(buf: Seq<char>, text: Seq<char>)
    requires
        forall|i: int| 0 <= i < text.len() ==> !is_control_char(#[trigger] text[i]),
    ensures
        typed(buf, text) == buf + text,
        prompt_step(typed(buf, text), Key::Enter) == PromptStepView::Accept(buf + text),
    decreases text.len(),
{
    if text.len() == 0 {
        assert(buf + text =~= buf);
    } else {
        let c = text[0];
        assert(!is_control_char(c));
        typed_text_is_accepted(buf.push(c), text.skip(1));
        assert(buf.push(c) + text.skip(1) =~= buf + text);
    }
}

/// A delete character takes back what was typed last. The Backspace key, which is
/// what a terminal's delete and backspace bytes are read as, does not: it leaves
/// the answer as it is.
pub proof fn delete_character_undoes_typing(buf: Seq<char>, c: char)
    requires
        !is_control_char(c),
    ensures
        edited(edited(buf, Key::Char(c)), Key::Char('\x7f')) == buf,
        edited(edited(buf, Key::Char(c)), Key::Backspace) == buf.push(c),
        first_byte(0x7f) == KeyStepView::Done(Key::Backspace),
        first_byte(0x08) == KeyStepView::Done(Key::Backspace),
{
    assert(buf.push(c).drop_last() =~= buf);
}

/// Escape gives up and Enter accepts; no other key ends a prompt.
pub proof fn prompt_ends_by_two_keys(buf: Seq<char>, key: Key)
    ensures
        prompt_step(buf, key) is Abort <==> key is Esc,
        prompt_step(buf, key) is Accept <==> key is Enter,
        prompt_step(buf, key) matches PromptStepView::Accept(s) ==> s == buf,
        key is Enter || key is Esc ==> edited(buf, key) == buf,
{
}

/// A key that types no character leaves the answer as it is, and so does a control
/// character other than the two that delete; those take the last character of the
/// answer, if there is one.
pub proof fn other_keys_leave_the_answer(buf: Seq<char>, key: Key, c: char)
    ensures
        !(key is Char) ==> edited(buf, key) == buf,
        is_control_char(c) && c as int != 0x7f && c as int != 0x08 ==> edited(buf, Key::Char(c))
            == buf,
        c as int == 0x7f || c as int == 0x08 ==> edited(Seq::empty(), Key::Char(c)) == Seq::<
            char,
        >::empty() && edited(buf.push('x'), Key::Char(c)) == buf,
{
    assert(buf.push('x').drop_last() =~= buf);
}

/// The answer is shown whole where there is room; else its end is, as many bytes as
/// there is room for.
pub proof fn end_of_the_answer_is_shown(v: PromptView, cols: int)
    requires
        is_prompt_drawable(v, cols),
    ensures
        ({
            let room = prompt_room(v.label, cols);
            let shown = shown_answer(v, cols);
            &&& utf8_len(v.buf) <= room ==> shown == v.buf
            &&& utf8_len(v.buf) > room ==> shown.len() <= v.buf.len() && shown == v.buf.skip(
                v.buf.len() - shown.len(),
            ) && utf8_len(shown) == room
        }),
{
    let room = prompt_room(v.label, cols);
    if utf8_len(v.buf) > room {
        let at = utf8_len(v.buf) - room;
        lemma_cut_joins(v.buf, at);
        let a = crate::text::to_byte(v.buf, at);
        let b = from_byte(v.buf, at);
        assert((a + b).skip(a.len() as int) =~= b);
    }
}

/// The question, the answer and the cursor behind it share the line: of its columns
/// the question leaves the rest but one to the answer, and the cursor stands behind
/// what is shown, within the line.
pub proof fn prompt_fits_its_line(v: PromptView, cols: int)
    requires
        is_prompt_drawable(v, cols),
        cols > utf8_len(prompt_header(v.label)),
    ensures
        prompt_header(v.label) == seq![' '] + v.label + seq![':', ' '],
        utf8_len(prompt_header(v.label)) + prompt_room(v.label, cols) + 1 == cols,
        prompt_column(v, cols) == utf8_len(prompt_header(v.label)) + utf8_len(
            shown_answer(v, cols),
        ) + 1,
        prompt_column(v, cols) <= cols,
{
    reveal_strlit(": ");
    assert(prompt_header(v.label) =~= seq![' '] + v.label + seq![':', ' ']);
    end_of_the_answer_is_shown(v, cols);
}

/// The prompt is drawn in the row that was asked for, from its first column on, in
/// black on cyan: the question, then what is shown of the answer, filled up with
/// blanks; the cursor is left behind it. Where the question takes the whole line, there
/// is no room for the answer, and the cursor stands in the last column.
pub proof fn prompt_stands_in_its_row(v: PromptView, rows: int, cols: int)
    requires
        is_prompt_drawable(v, cols),
    ensures
        ({
            let header = seq![' '] + v.label + seq![':', ' '];
            let shown = shown_answer(v, cols);
            &&& cols > utf8_len(header) ==> prompt_text(v, rows, cols) == goto_text(rows as nat, 1)
                + colours_text(0x000000, 0x00aaaa) + header + pad_right(
                shown,
                cols - utf8_len(header) - 1,
            ) + goto_text(rows as nat, utf8_len(header) + utf8_len(shown) + 1)
            &&& cols <= utf8_len(header) ==> prompt_text(v, rows, cols) == goto_text(
                rows as nat,
                1,
            ) + colours_text(0x000000, 0x00aaaa) + header + pad_right(shown, 0) + goto_text(
                rows as nat,
                cols as nat,
            )
        }),
{
    reveal_strlit(": ");
    assert(prompt_header(v.label) =~= seq![' '] + v.label + seq![':', ' ']);
    if cols > utf8_len(prompt_header(v.label)) {
        prompt_fits_its_line(v, cols);
    }
}

/// An ASCII answer can be shown behind any question.
pub proof fn ascii_answer_can_be_shown(v: PromptView, cols: int)
    requires
        crate::text::is_ascii(v.buf),
    ensures
        is_prompt_drawable(v, cols),
{
    crate::text::lemma_ascii_bytes(v.buf);
    let at = utf8_len(v.buf) - prompt_room(v.label, cols);
    if at > 0 {
        crate::text::lemma_ascii_start(v.buf, at);
    }
}

/// The cursor disappears when the prompt ends, and not before.
pub proof fn prompt_hides_the_cursor_at_its_end(buf: Seq<char>, key: Key)
    ensures
        key is Enter || key is Esc ==> prompt_end(prompt_step(buf, key)) == "\x1b[?25l"@,
        !(key is Enter) && !(key is Esc) ==> prompt_end(prompt_step(buf, key)).len() == 0,
{
}

} // verus!
