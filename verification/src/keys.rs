//! The keyboard and the mouse: from the bytes that a terminal sends to keys.

use vstd::prelude::*;

use crate::scan::{fields, lacks, lemma_last_field, lemma_only_field};

verus! {

/// What the user pressed, clicked or turned.
#[derive(Clone, Copy, Debug, PartialEq, Eq, Structural)]
pub enum Key {
    Char(char),
    Up,
    Down,
    Left,
    Right,
    Enter,
    Backspace,
    Insert,
    Delete,
    PageUp,
    PageDown,
    Home,
    End,
    Esc,
    F(u8),
    Click { btn: u8, col: u16, row: u16 },
    Scroll { up: bool, col: u16, row: u16 },
}

/// Whether a byte is an ASCII digit.
pub open spec fn is_digit_byte(b: u8) -> bool {
    0x30 <= b <= 0x39
}

/// Whether a field holds a digit.
pub open spec fn has_digit(f: Seq<u8>) -> bool {
    exists|i: int| 0 <= i < f.len() && is_digit_byte(#[trigger] f[i])
}

/// The number that the digits in a field spell, other bytes left out.
pub open spec fn digits_in(f: Seq<u8>) -> nat
    decreases f.len(),
{
    if f.len() == 0 {
        0
    } else if is_digit_byte(f.last()) {
        digits_in(f.drop_last()) * 10 + (f.last() - 0x30) as nat
    } else {
        digits_in(f.drop_last())
    }
}

/// The number in a field, modulo 2^32.
pub open spec fn field_number(f: Seq<u8>) -> u32 {
    (digits_in(f) % 0x1_0000_0000) as u32
}

/// The number in the field `k`; 1 where the field is missing or holds no digit.
pub open spec fn number_at(f: Seq<Seq<u8>>, k: int) -> u32 {
    if 0 <= k < f.len() && has_digit(f[k]) {
        field_number(f[k])
    } else {
        1
    }
}

/// The number in the last field from the third on that holds a digit; 1 where
/// there is none.
pub open spec fn last_number(f: Seq<Seq<u8>>) -> u32
    decreases f.len(),
{
    if f.len() <= 2 {
        1
    } else if has_digit(f.last()) {
        field_number(f.last())
    } else {
        last_number(f.drop_last())
    }
}

/// The three numbers of a parameter list with semicolons.
pub open spec fn numbers(b: Seq<u8>) -> Seq<u32> {
    let f = fields(b, 0x3b);
    seq![number_at(f, 0), number_at(f, 1), last_number(f)]
}

/// Reads up to three decimal numbers, separated by semicolons. A missing number
/// is 1, as coordinates count from 1. Numbers wrap around at 2^32.
pub fn parse_nums(b: &[u8]) -> (out: [u32; 3])
    ensures
        out@ == numbers(b@),
{
    let mut out: [u32; 3] = [1, 1, 1];
    let mut i: usize = 0;
    let mut cur: u32 = 0;
    let mut has: bool = false;
    let mut k: usize = 0;
    let n = b.len();
    let ghost mut fs: Seq<Seq<u8>> = fields(b@.take(0), 0x3b);
    assert(b@.take(0) =~= Seq::<u8>::empty());
    assert(fs.drop_last() =~= Seq::<Seq<u8>>::empty());
    while k < n
        invariant
            n == b@.len(),
            k <= n,
            fs == fields(b@.take(k as int), 0x3b),
            fs.len() > 0,
            i == if fs.len() <= 3 {
                fs.len() - 1
            } else {
                2
            },
            cur == field_number(fs.last()),
            has == has_digit(fs.last()),
            out@.len() == 3,
            out@[0] == number_at(fs.drop_last(), 0),
            out@[1] == number_at(fs.drop_last(), 1),
            out@[2] == last_number(fs.drop_last()),
        decreases n - k,
    {
        let c = b[k];
        let ghost old_fs = fs;
        let ghost p = b@.take(k + 1);
        proof {
            assert(p.drop_last() =~= b@.take(k as int));
            fs = fields(p, 0x3b);
        }
        if c == 0x3b {
            if has {
                out[i] = cur;
            }
            i = if i < 2 {
                i + 1
            } else {
                2
            };
            cur = 0;
            has = false;
            proof {
                assert(fs.drop_last() =~= old_fs);
                if old_fs.len() > 2 {
                    assert(old_fs.last() == old_fs[old_fs.len() - 1]);
                }
            }
        } else {
            proof {
                assert(fs.drop_last() =~= old_fs.drop_last());
                let f = fs.last();
                assert(f.drop_last() =~= old_fs.last());
                assert(f.last() == c);
                assert forall|q: int| 0 <= q < old_fs.last().len() implies f[q]
                    == old_fs.last()[q] by {}
                if has_digit(old_fs.last()) {
                    let q = choose|q: int|
                        0 <= q < old_fs.last().len() && is_digit_byte(#[trigger] old_fs.last()[q]);
                    assert(is_digit_byte(f[q]));
                }
                if is_digit_byte(c) {
                    assert(is_digit_byte(f[f.len() - 1]));
                }
            }
            if 0x30 <= c && c <= 0x39 {
                proof {
                    lemma_wrapped_digit(digits_in(old_fs.last()), (c - 0x30) as nat);
                }
                cur = cur.wrapping_mul(10).wrapping_add((c - 0x30) as u32);
                has = true;
            }
        }
        k += 1;
    }
    assert(b@.take(n as int) =~= b@);
    if has {
        out[i] = cur;
    }
    assert(out@ =~= numbers(b@));
    out
}

proof fn lemma_wrapped_digit(x: nat, d: nat)
    requires
        d < 10,
    ensures
        ((x % 0x1_0000_0000) * 10 % 0x1_0000_0000 + d) % 0x1_0000_0000 == (x * 10 + d)
            % 0x1_0000_0000,
{
}

/// The key of a mouse report: the button, the column and the row.
pub open spec fn mouse_key(btn: u8, col: u16, row: u16) -> Option<Key> {
    if btn == 64 {
        Some(Key::Scroll { up: true, col, row })
    } else if btn == 65 {
        Some(Key::Scroll { up: false, col, row })
    } else if btn < 4 {
        Some(Key::Click { btn, col, row })
    } else {
        None
    }
}

/// The key of a sequence that consists of its final byte alone.
pub open spec fn letter_key(fin: u8) -> Option<Key> {
    if fin == 0x41 {
        Some(Key::Up)
    } else if fin == 0x42 {
        Some(Key::Down)
    } else if fin == 0x43 {
        Some(Key::Right)
    } else if fin == 0x44 {
        Some(Key::Left)
    } else if fin == 0x48 {
        Some(Key::Home)
    } else if fin == 0x46 {
        Some(Key::End)
    } else if fin == 0x5a {
        Some(Key::Char('\t'))
    } else {
        None
    }
}

/// The number of the function key that a tilde sequence with the parameter `n`
/// stands for.
pub open spec fn function_key(n: u32) -> Option<u8> {
    if 11 <= n <= 15 {
        Some((n - 10) as u8)
    } else if 17 <= n <= 21 {
        Some((n - 11) as u8)
    } else if 23 <= n <= 24 {
        Some((n - 12) as u8)
    } else {
        None
    }
}

/// The key of a sequence with the parameter `n` and the final byte `fin`.
pub open spec fn parameter_key(n: u32, fin: u8) -> Option<Key> {
    if fin == 0x48 {
        Some(Key::Home)
    } else if fin == 0x46 {
        Some(Key::End)
    } else if fin != 0x7e {
        None
    } else if n == 1 || n == 7 {
        Some(Key::Home)
    } else if n == 4 || n == 8 {
        Some(Key::End)
    } else if n == 2 {
        Some(Key::Insert)
    } else if n == 3 {
        Some(Key::Delete)
    } else if n == 5 {
        Some(Key::PageUp)
    } else if n == 6 {
        Some(Key::PageDown)
    } else {
        match function_key(n) {
            Some(f) => Some(Key::F(f)),
            None => None,
        }
    }
}

/// The key of a control sequence, given by what follows its introducer, up to
/// and with the final byte.
pub open spec fn csi_key(buf: Seq<u8>) -> Option<Key> {
    if buf.len() == 0 {
        None
    } else if buf[0] == 0x3c {
        if buf.last() == 0x6d {
            None
        } else {
            let nums = numbers(buf.subrange(1, buf.len() - 1));
            mouse_key(
                (nums[0] % 0x100) as u8,
                (nums[1] % 0x1_0000) as u16,
                (nums[2] % 0x1_0000) as u16,
            )
        }
    } else if buf.len() == 1 {
        letter_key(buf[0])
    } else {
        parameter_key(numbers(buf.drop_last())[0], buf.last())
    }
}

/// Classifies a complete control sequence. A mouse report starts with `<`, and
/// the report of a released button is no key.
pub fn parse_csi(buf: &[u8]) -> (r: Option<Key>)
    requires
        buf@ != seq![0x3cu8],
    ensures
        r == csi_key(buf@),
{
    let n = buf.len();
    if n == 0 {
        return None;
    }
    let fin = buf[n - 1];
    if buf[0] == 0x3c {
        if fin == 0x6d {
            return None;
        }
        assert(n >= 2) by {
            if n == 1 {
                assert(buf@ =~= seq![0x3cu8]);
            }
        }
        let nums = parse_nums(vstd::slice::slice_subrange(buf, 1, n - 1));
        let btn = (nums[0] % 0x100) as u8;
        let col = (nums[1] % 0x1_0000) as u16;
        let row = (nums[2] % 0x1_0000) as u16;
        return match btn {
            64 => Some(Key::Scroll { up: true, col, row }),
            65 => Some(Key::Scroll { up: false, col, row }),
            _ => if btn < 4 {
                Some(Key::Click { btn, col, row })
            } else {
                None
            },
        };
    }
    if n == 1 {
        return match fin {
            0x41 => Some(Key::Up),
            0x42 => Some(Key::Down),
            0x43 => Some(Key::Right),
            0x44 => Some(Key::Left),
            0x48 => Some(Key::Home),
            0x46 => Some(Key::End),
            0x5a => Some(Key::Char('\t')),
            _ => None,
        };
    }
    let params = vstd::slice::slice_subrange(buf, 0, n - 1);
    assert(params@ =~= buf@.drop_last());
    let p: u32 = parse_nums(params)[0];
    if fin == 0x48 {
        return Some(Key::Home);
    }
    if fin == 0x46 {
        return Some(Key::End);
    }
    if fin != 0x7e {
        return None;
    }
    match p {
        1 | 7 => Some(Key::Home),
        4 | 8 => Some(Key::End),
        2 => Some(Key::Insert),
        3 => Some(Key::Delete),
        5 => Some(Key::PageUp),
        6 => Some(Key::PageDown),
        11 => Some(Key::F(1)),
        12 => Some(Key::F(2)),
        13 => Some(Key::F(3)),
        14 => Some(Key::F(4)),
        15 => Some(Key::F(5)),
        17 => Some(Key::F(6)),
        18 => Some(Key::F(7)),
        19 => Some(Key::F(8)),
        20 => Some(Key::F(9)),
        21 => Some(Key::F(10)),
        23 => Some(Key::F(11)),
        24 => Some(Key::F(12)),
        _ => None,
    }
}

/// How far the reading of a key has come.
pub enum KeyState {
    /// Nothing is read: the next byte is waited for.
    Start,
    /// An escape byte is read; what belongs to it follows at once or not at all.
    Escape,
    /// The introducer of a control sequence is read, and these bytes after it.
    Csi(Vec<u8>),
    /// The introducer of a single-shift sequence is read.
    Ss3,
}

/// What reading one byte leads to.
pub enum KeyStep {
    /// A key is complete.
    Done(Key),
    /// More is to be read.
    Wait(KeyState),
}

/// The content of a `KeyState`.
pub enum KeyStateView {
    Start,
    Escape,
    Csi(Seq<u8>),
    Ss3,
}

/// The content of a `KeyStep`.
pub enum KeyStepView {
    Done(Key),
    Wait(KeyStateView),
}

impl View for KeyState {
    type V = KeyStateView;

    open spec fn view(&self) -> KeyStateView {
        match self {
            KeyState::Start => KeyStateView::Start,
            KeyState::Escape => KeyStateView::Escape,
            KeyState::Csi(b) => KeyStateView::Csi(b@),
            KeyState::Ss3 => KeyStateView::Ss3,
        }
    }
}

impl View for KeyStep {
    type V = KeyStepView;

    open spec fn view(&self) -> KeyStepView {
        match self {
            KeyStep::Done(k) => KeyStepView::Done(*k),
            KeyStep::Wait(s) => KeyStepView::Wait(s@),
        }
    }
}

/// Whether a byte ends a control sequence.
pub open spec fn is_final_byte(b: u8) -> bool {
    0x40 <= b <= 0x7e
}

/// A key if there is one, else a fresh start.
pub open spec fn key_or_start(k: Option<Key>) -> KeyStepView {
    match k {
        Some(k) => KeyStepView::Done(k),
        None => KeyStepView::Wait(KeyStateView::Start),
    }
}

/// What the first byte of a key means.
pub open spec fn first_byte(b: u8) -> KeyStepView {
    if b == 0x1b {
        KeyStepView::Wait(KeyStateView::Escape)
    } else if b == 0x0d || b == 0x0a {
        KeyStepView::Done(Key::Enter)
    } else if b == 0x7f || b == 0x08 {
        KeyStepView::Done(Key::Backspace)
    } else if b < 0x80 {
        KeyStepView::Done(Key::Char(b as char))
    } else {
        KeyStepView::Wait(KeyStateView::Start)
    }
}

/// What follows from a byte, or from none having come, in each state. Where a
/// byte had to come, none counts as a zero byte.
pub open spec fn key_step(state: KeyStateView, input: Option<u8>) -> KeyStepView {
    let b = match input {
        Some(b) => b,
        None => 0u8,
    };
    match state {
        KeyStateView::Start => first_byte(b),
        KeyStateView::Escape => if input is None {
            KeyStepView::Done(Key::Esc)
        } else if b == 0x5b {
            KeyStepView::Wait(KeyStateView::Csi(Seq::empty()))
        } else if b == 0x4f {
            KeyStepView::Wait(KeyStateView::Ss3)
        } else {
            KeyStepView::Wait(KeyStateView::Start)
        },
        KeyStateView::Csi(buf) => if b == 0 {
            KeyStepView::Wait(KeyStateView::Start)
        } else if is_final_byte(b) {
            key_or_start(csi_key(buf.push(b)))
        } else {
            KeyStepView::Wait(KeyStateView::Csi(buf.push(b)))
        },
        KeyStateView::Ss3 => if 0x50 <= b <= 0x53 {
            KeyStepView::Done(Key::F((b - 0x4f) as u8))
        } else {
            KeyStepView::Wait(KeyStateView::Start)
        },
    }
}

/// Reads one byte of a key. `input` is the byte; it is `None` where none came in
/// time, which in the state `Escape` means the escape key itself.
pub fn read_key(state: KeyState, input: Option<u8>) -> (r: KeyStep)
    ensures
        r@ == key_step(state@, input),
{
    let b: u8 = match input {
        Some(b) => b,
        None => 0,
    };
    match state {
        KeyState::Start => {
            if b == 0x1b {
                KeyStep::Wait(KeyState::Escape)
            } else if b == 0x0d || b == 0x0a {
                KeyStep::Done(Key::Enter)
            } else if b == 0x7f || b == 0x08 {
                KeyStep::Done(Key::Backspace)
            } else if b < 0x80 {
                KeyStep::Done(Key::Char(b as char))
            } else {
                KeyStep::Wait(KeyState::Start)
            }
        },
        KeyState::Escape => {
            if input.is_none() {
                KeyStep::Done(Key::Esc)
            } else if b == 0x5b {
                KeyStep::Wait(KeyState::Csi(Vec::new()))
            } else if b == 0x4f {
                KeyStep::Wait(KeyState::Ss3)
            } else {
                KeyStep::Wait(KeyState::Start)
            }
        },
        KeyState::Csi(buf) => {
            if b == 0 {
                return KeyStep::Wait(KeyState::Start);
            }
            let mut buf = buf;
            buf.push(b);
            if 0x40 <= b && b <= 0x7e {
                assert(buf@.last() != 0x3c);
                assert(seq![0x3cu8].last() == 0x3c);
                match parse_csi(buf.as_slice()) {
                    Some(k) => KeyStep::Done(k),
                    None => KeyStep::Wait(KeyState::Start),
                }
            } else {
                KeyStep::Wait(KeyState::Csi(buf))
            }
        },
        KeyState::Ss3 => {
            match b {
                0x50 => KeyStep::Done(Key::F(1)),
                0x51 => KeyStep::Done(Key::F(2)),
                0x52 => KeyStep::Done(Key::F(3)),
                0x53 => KeyStep::Done(Key::F(4)),
                _ => KeyStep::Wait(KeyState::Start),
            }
        },
    }
}

/// What reading the bytes one after the other leads to, up to the first key.
pub open spec fn read_all(step: KeyStepView, bytes: Seq<u8>) -> KeyStepView
    decreases bytes.len(),
{
    match step {
        KeyStepView::Done(_) => step,
        KeyStepView::Wait(state) => if bytes.len() == 0 {
            step
        } else {
            read_all(key_step(state, Some(bytes[0])), bytes.skip(1))
        },
    }
}

/// Whether `p` is the payload of one control sequence: it ends with a final
/// byte, before which there is none, nor a zero byte.
pub open spec fn is_csi_payload(p: Seq<u8>) -> bool {
    &&& p.len() > 0
    &&& is_final_byte(p.last())
    &&& forall|i: int| 0 <= i < p.len() - 1 ==> !is_final_byte(#[trigger] p[i]) && p[i] != 0
}

/// A control sequence that is read byte by byte gives the key that its whole
/// payload stands for; where it stands for none, the reading starts afresh.
pub proof fn control_sequence_gives_its_key(p: Seq<u8>)
    requires
        is_csi_payload(p),
    ensures
        read_all(KeyStepView::Wait(KeyStateView::Start), seq![0x1bu8, 0x5bu8] + p) == key_or_start(
            csi_key(p),
        ),
{
    let all = seq![0x1bu8, 0x5bu8] + p;
    let one = all.skip(1);
    assert(one[0] == 0x5b);
    assert(one.skip(1) =~= p);
    lemma_payload(Seq::empty(), p);
    assert(Seq::<u8>::empty() + p =~= p);
    assert(read_all(KeyStepView::Wait(KeyStateView::Escape), one) == read_all(
        KeyStepView::Wait(KeyStateView::Csi(Seq::empty())),
        p,
    ));
}

proof fn lemma_payload(done: Seq<u8>, p: Seq<u8>)
    requires
        is_csi_payload(p),
    ensures
        read_all(KeyStepView::Wait(KeyStateView::Csi(done)), p) == key_or_start(csi_key(done + p)),
    decreases p.len(),
{
    let b = p[0];
    let rest = p.skip(1);
    assert(done.push(b) + rest =~= done + p);
    if p.len() == 1 {
        assert(done.push(b) =~= done + p);
        assert(read_all(key_or_start(csi_key(done + p)), rest) == key_or_start(csi_key(done + p)));
    } else {
        assert forall|i: int| 0 <= i < rest.len() - 1 implies !is_final_byte(#[trigger] rest[i])
            && rest[i] != 0 by {
            assert(rest[i] == p[i + 1]);
        }
        lemma_payload(done.push(b), rest);
    }
}

/// A printable character that is typed is read as itself.
pub proof fn typed_character_is_read(b: u8)
    requires
        0x20 <= b < 0x7f,
    ensures
        read_all(KeyStepView::Wait(KeyStateView::Start), seq![b]) == KeyStepView::Done(
            Key::Char(b as char),
        ),
{
    reveal_with_fuel(read_all, 2);
}

/// `n` in decimal, as bytes.
pub open spec fn decimal_bytes(n: nat) -> Seq<u8>
    decreases n,
{
    if n < 10 {
        seq![(0x30 + n) as u8]
    } else {
        decimal_bytes(n / 10).push((0x30 + n % 10) as u8)
    }
}

/// What is written in decimal is a field with that number.
proof fn lemma_decimal_field(n: nat)
    requires
        n < 0x1_0000_0000,
    ensures
        has_digit(decimal_bytes(n)),
        digits_in(decimal_bytes(n)) == n,
        field_number(decimal_bytes(n)) == n,
        lacks(decimal_bytes(n), 0x3b),
        forall|i: int| 0 <= i < decimal_bytes(n).len() ==> is_digit_byte(decimal_bytes(n)[i]),
    decreases n,
{
    let d = decimal_bytes(n);
    if n < 10 {
        assert(d.drop_last() =~= Seq::<u8>::empty());
        assert(digits_in(d.drop_last()) == 0);
        assert(is_digit_byte(d[0]));
    } else {
        lemma_decimal_field(n / 10);
        let e = decimal_bytes(n / 10);
        assert(d.drop_last() =~= e);
        assert(is_digit_byte(d[d.len() - 1]));
        assert forall|i: int| 0 <= i < d.len() implies is_digit_byte(d[i]) by {
            if i < e.len() {
                assert(d[i] == e[i]);
            }
        }
    }
}

/// What a terminal sends for a press of a mouse button, or a turn of the wheel,
/// behind the introducer.
pub open spec fn mouse_report(btn: nat, col: nat, row: nat) -> Seq<u8> {
    seq![0x3cu8] + (decimal_bytes(btn).push(0x3b) + decimal_bytes(col)).push(0x3b) + decimal_bytes(
        row,
    ) + seq![0x4du8]
}

/// A report of the mouse is one control sequence, and gives the button, the
/// column and the row that it was made for.
pub proof fn mouse_report_is_read(btn: u8, col: u16, row: u16)
    ensures
        is_csi_payload(mouse_report(btn as nat, col as nat, row as nat)),
        csi_key(mouse_report(btn as nat, col as nat, row as nat)) == mouse_key(btn, col, row),
{
    let b = decimal_bytes(btn as nat);
    let c = decimal_bytes(col as nat);
    let r = decimal_bytes(row as nat);
    lemma_decimal_field(btn as nat);
    lemma_decimal_field(col as nat);
    lemma_decimal_field(row as nat);
    let buf = mouse_report(btn as nat, col as nat, row as nat);
    let params = (b.push(0x3b) + c).push(0x3b) + r;
    assert(buf.subrange(1, buf.len() - 1) =~= params);
    assert forall|i: int| 0 <= i < params.len() implies (#[trigger] params[i] == 0x3b
        || is_digit_byte(params[i])) by {
        let k = b.len() as int;
        let m = k + 1 + c.len();
        if i < k {
            assert(params[i] == b[i]);
        } else if k < i && i < m {
            assert(params[i] == c[i - k - 1]);
        } else if m < i {
            assert(params[i] == r[i - m - 1]);
        }
    }
    assert forall|i: int| 0 <= i < buf.len() - 1 implies !is_final_byte(#[trigger] buf[i])
        && buf[i] != 0 by {
        if i > 0 {
            assert(buf[i] == params[i - 1]);
        }
    }
    lemma_only_field(b, 0x3b);
    lemma_last_field(b, 0x3b, c);
    lemma_last_field(b.push(0x3b) + c, 0x3b, r);
    let f = fields(params, 0x3b);
    assert(f =~= seq![b, c, r]);
}

/// The keys that are sequences of their final byte alone, and no others.
pub proof fn letters_give_their_keys(fin: u8)
    requires
        fin != 0x3c,
    ensures
        csi_key(seq![fin]) == Some(Key::Up) <==> fin == 0x41,
        csi_key(seq![fin]) == Some(Key::Down) <==> fin == 0x42,
        csi_key(seq![fin]) == Some(Key::Right) <==> fin == 0x43,
        csi_key(seq![fin]) == Some(Key::Left) <==> fin == 0x44,
        csi_key(seq![fin]) == Some(Key::End) <==> fin == 0x46,
        csi_key(seq![fin]) == Some(Key::Home) <==> fin == 0x48,
        csi_key(seq![fin]) == Some(Key::Char('\t')) <==> fin == 0x5a,
        csi_key(seq![fin]) is Some <==> fin == 0x41 || fin == 0x42 || fin == 0x43 || fin == 0x44 || fin
            == 0x46 || fin == 0x48 || fin == 0x5a,
{
}

/// The first number of a list of parameters decides which key a sequence stands
/// for, whatever parameters follow it.
pub proof fn first_parameter_decides(n: u32, more: Seq<u8>, fin: u8)
    requires
        more.len() == 0 || more[0] == 0x3b,
    ensures
        csi_key(decimal_bytes(n as nat) + more + seq![fin]) == parameter_key(n, fin),
{
    let d = decimal_bytes(n as nat);
    lemma_decimal_field(n as nat);
    let buf = d + more + seq![fin];
    lemma_some_digits(n as nat);
    assert(buf[0] == d[0]);
    assert(is_digit_byte(d[0]));
    assert(buf.drop_last() =~= d + more);
    assert(buf.last() == fin);
    lemma_first_field(d, more);
}

/// A number is written with a digit at least.
proof fn lemma_some_digits(n: nat)
    ensures
        decimal_bytes(n).len() > 0,
{
}

/// A first piece without a separator stays the first, whatever follows its end.
proof fn lemma_first_field(d: Seq<u8>, more: Seq<u8>)
    requires
        lacks(d, 0x3b),
        more.len() == 0 || more[0] == 0x3b,
    ensures
        fields(d + more, 0x3b).len() > 0,
        fields(d + more, 0x3b)[0] == d,
        more.len() > 0 ==> fields(d + more, 0x3b).len() > 1,
    decreases more.len(),
{
    if more.len() == 0 {
        lemma_only_field(d, 0x3b);
        assert(d + more =~= d);
    } else {
        lemma_first_field(d, more.drop_last());
        assert((d + more).drop_last() =~= d + more.drop_last());
        assert((d + more).last() == more.last());
        if more.len() == 1 {
            assert(more.last() == 0x3b);
        }
    }
}

/// The parameters of the keys whose sequences end with a tilde, and of no others:
/// in the order of their numbers, with the gaps that terminals leave.
pub proof fn parameters_give_their_keys(n: u32, k: u8)
    ensures
        parameter_key(n, 0x7e) == Some(Key::Home) <==> n == 1 || n == 7,
        parameter_key(n, 0x7e) == Some(Key::Insert) <==> n == 2,
        parameter_key(n, 0x7e) == Some(Key::Delete) <==> n == 3,
        parameter_key(n, 0x7e) == Some(Key::End) <==> n == 4 || n == 8,
        parameter_key(n, 0x7e) == Some(Key::PageUp) <==> n == 5,
        parameter_key(n, 0x7e) == Some(Key::PageDown) <==> n == 6,
        parameter_key(n, 0x7e) == Some(Key::F(k)) <==> 1 <= k <= 12 && n == seq![
            11u32,
            12,
            13,
            14,
            15,
            17,
            18,
            19,
            20,
            21,
            23,
            24,
        ][k - 1],
        parameter_key(n, 0x48) == Some(Key::Home),
        parameter_key(n, 0x46) == Some(Key::End),
{
}

/// Without a tilde, a sequence with parameters is a key only if it ends in the
/// letter of Home or of End.
pub proof fn other_sequences_give_no_key(n: u32, fin: u8)
    requires
        fin != 0x7e,
        fin != 0x48,
        fin != 0x46,
    ensures
        parameter_key(n, fin) is None,
{
}

/// A press of one of the first four buttons gives a click at its place, the wheel
/// gives a turn up or down, and any other button gives nothing.
pub proof fn presses_and_turns_are_read(btn: u8, col: u16, row: u16)
    ensures
        ({
            let key = csi_key(mouse_report(btn as nat, col as nat, row as nat));
            &&& btn <= 3 ==> key == Some(Key::Click { btn, col, row })
            &&& btn == 64 ==> key == Some(Key::Scroll { up: true, col, row })
            &&& btn == 65 ==> key == Some(Key::Scroll { up: false, col, row })
            &&& btn > 3 && btn != 64 && btn != 65 ==> key is None
        }),
{
    mouse_report_is_read(btn, col, row);
}

/// The release of a button gives nothing.
pub proof fn releases_give_nothing(p: Seq<u8>)
    ensures
        csi_key(seq![0x3cu8] + p + seq![0x6du8]) is None,
{
    let buf = seq![0x3cu8] + p + seq![0x6du8];
    assert(buf[0] == 0x3c && buf.last() == 0x6d);
}

/// What a byte gives that comes alone: a character that is typed, Enter for either
/// end of a line, Backspace for either byte of it. An escape that nothing follows is
/// the key itself, and the bytes of a longer key are waited for.
pub proof fn single_bytes_are_read(b: u8)
    ensures
        b == 0x0d || b == 0x0a ==> key_step(KeyStateView::Start, Some(b)) == KeyStepView::Done(
            Key::Enter,
        ),
        b == 0x7f || b == 0x08 ==> key_step(KeyStateView::Start, Some(b)) == KeyStepView::Done(
            Key::Backspace,
        ),
        b < 0x80 && b != 0x0d && b != 0x0a && b != 0x7f && b != 0x08 && b != 0x1b ==> key_step(
            KeyStateView::Start,
            Some(b),
        ) == KeyStepView::Done(Key::Char(b as char)),
        b >= 0x80 ==> key_step(KeyStateView::Start, Some(b)) == KeyStepView::Wait(
            KeyStateView::Start,
        ),
        key_step(KeyStateView::Start, None) == KeyStepView::Done(Key::Char('\0')),
        key_step(KeyStateView::Start, Some(0x1b)) == KeyStepView::Wait(KeyStateView::Escape),
        key_step(KeyStateView::Escape, None) == KeyStepView::Done(Key::Esc),
        b != 0x5b && b != 0x4f ==> key_step(KeyStateView::Escape, Some(b)) == KeyStepView::Wait(
            KeyStateView::Start,
        ),
{
}

/// The first four function keys also come as an escape, the letter O and a letter
/// from P on; another letter there gives nothing.
pub proof fn short_function_keys_are_read(b: u8)
    ensures
        0x50 <= b <= 0x53 ==> read_all(
            KeyStepView::Wait(KeyStateView::Start),
            seq![0x1bu8, 0x4fu8, b],
        ) == KeyStepView::Done(Key::F((b - 0x50 + 1) as u8)),
        b < 0x50 || b > 0x53 ==> read_all(
            KeyStepView::Wait(KeyStateView::Start),
            seq![0x1bu8, 0x4fu8, b],
        ) == KeyStepView::Wait(KeyStateView::Start),
{
    let all = seq![0x1bu8, 0x4fu8, b];
    let two = all.skip(1);
    let one = two.skip(1);
    assert(two[0] == 0x4f);
    assert(one[0] == b);
    assert(one.skip(1).len() == 0);
    reveal_with_fuel(read_all, 4);
}

/// A list of two or three numbers gives them; a missing one is 1, and of more than
/// three the last counts as the third.
pub proof fn numbers_are_read(a: u32, b: u32, c: u32)
    ensures
        ({
            let two = decimal_bytes(a as nat).push(0x3b) + decimal_bytes(b as nat);
            &&& numbers(Seq::empty()) == seq![1u32, 1, 1]
            &&& numbers(decimal_bytes(a as nat)) == seq![a, 1, 1]
            &&& numbers(two) == seq![a, b, 1]
            &&& numbers(two.push(0x3b) + decimal_bytes(c as nat)) == seq![a, b, c]
        }),
{
    let x = decimal_bytes(a as nat);
    let y = decimal_bytes(b as nat);
    let z = decimal_bytes(c as nat);
    let none = Seq::<u8>::empty();
    lemma_decimal_field(a as nat);
    lemma_decimal_field(b as nat);
    lemma_decimal_field(c as nat);
    lemma_only_field(none, 0x3b);
    lemma_only_field(x, 0x3b);
    let two = x.push(0x3b) + y;
    lemma_last_field(x, 0x3b, y);
    lemma_last_field(two, 0x3b, z);
    assert(!has_digit(none));
    assert(fields(two, 0x3b) =~= seq![x, y]);
    assert(fields(two.push(0x3b) + z, 0x3b) =~= seq![x, y, z]);
}

/// Of more than three numbers the last counts as the third. Numbers wrap around at
/// 2^32.
pub proof fn last_of_many_numbers_counts(a: u32, b: u32, c: u32, d: u32, n: nat)
    ensures
        numbers(
            ((decimal_bytes(a as nat).push(0x3b) + decimal_bytes(b as nat)).push(0x3b)
                + decimal_bytes(c as nat)).push(0x3b) + decimal_bytes(d as nat),
        ) == seq![a, b, d],
        numbers(decimal_bytes(n))[0] == n % 0x1_0000_0000,
{
    let w = decimal_bytes(a as nat);
    let x = decimal_bytes(b as nat);
    let y = decimal_bytes(c as nat);
    let z = decimal_bytes(d as nat);
    lemma_decimal_field(a as nat);
    lemma_decimal_field(b as nat);
    lemma_decimal_field(c as nat);
    lemma_decimal_field(d as nat);
    lemma_only_field(w, 0x3b);
    let two = w.push(0x3b) + x;
    lemma_last_field(w, 0x3b, x);
    let three = two.push(0x3b) + y;
    lemma_last_field(two, 0x3b, y);
    lemma_last_field(three, 0x3b, z);
    assert(fields(three.push(0x3b) + z, 0x3b) =~= seq![w, x, y, z]);
    lemma_large_field(n);
    lemma_only_field(decimal_bytes(n), 0x3b);
}

/// What is written in decimal is a field with that number, however large.
proof fn lemma_large_field(n: nat)
    ensures
        has_digit(decimal_bytes(n)),
        digits_in(decimal_bytes(n)) == n,
        lacks(decimal_bytes(n), 0x3b),
    decreases n,
{
    let d = decimal_bytes(n);
    if n < 10 {
        assert(d.drop_last() =~= Seq::<u8>::empty());
        assert(digits_in(d.drop_last()) == 0);
        assert(is_digit_byte(d[0]));
    } else {
        lemma_large_field(n / 10);
        let e = decimal_bytes(n / 10);
        assert(d.drop_last() =~= e);
        assert(is_digit_byte(d[d.len() - 1]));
        assert forall|i: int| 0 <= i < d.len() implies d[i] != 0x3b by {
            if i < e.len() {
                assert(d[i] == e[i]);
            }
        }
    }
}

/// A byte that is neither a digit nor a semicolon changes no number.
pub proof fn other_bytes_change_no_number(s: Seq<u8>, b: u8)
    requires
        b != 0x3b,
        b < 0x30 || b > 0x39,
    ensures
        numbers(s.push(b)) == numbers(s),
{
    let f = fields(s, 0x3b);
    crate::scan::pieces_are_split_at_separators(s, 0x3bu8, Seq::empty());
    let t = s.push(b);
    assert(t.drop_last() =~= s);
    let x = f.last();
    let y = x.push(b);
    let g = f.drop_last().push(y);
    assert(fields(t, 0x3b) == g);
    assert(y.drop_last() =~= x);
    assert(has_digit(x) == has_digit(y)) by {
        if has_digit(x) {
            let i = choose|i: int| 0 <= i < x.len() && is_digit_byte(#[trigger] x[i]);
            assert(is_digit_byte(y[i]));
        }
        if has_digit(y) {
            let i = choose|i: int| 0 <= i < y.len() && is_digit_byte(#[trigger] y[i]);
            assert(x[i] == y[i]);
        }
    }
    assert(g.drop_last() =~= f.drop_last());
    assert forall|k: int| 0 <= k < f.len() - 1 implies g[k] == f[k] by {}
    assert(number_at(g, 0) == number_at(f, 0));
    assert(number_at(g, 1) == number_at(f, 1));
    assert(last_number(g) == last_number(f));
    assert(numbers(t) =~= numbers(s));
}

/// A sequence that stops short, or holds a zero byte, is dropped; the next byte starts
/// afresh. Every other byte below the final ones is kept.
pub proof fn short_sequences_are_dropped(buf: Seq<u8>, b: u8)
    ensures
        key_step(KeyStateView::Csi(buf), None) == KeyStepView::Wait(KeyStateView::Start),
        key_step(KeyStateView::Csi(buf), Some(0)) == KeyStepView::Wait(KeyStateView::Start),
        key_step(KeyStateView::Ss3, None) == KeyStepView::Wait(KeyStateView::Start),
        0 < b < 0x40 || b > 0x7e ==> key_step(KeyStateView::Csi(buf), Some(b)) == KeyStepView::Wait(
            KeyStateView::Csi(buf + seq![b]),
        ),
        0x40 <= b <= 0x7e ==> key_step(KeyStateView::Csi(buf), Some(b)) == (match csi_key(
            buf + seq![b],
        ) {
            Some(k) => KeyStepView::Done(k),
            None => KeyStepView::Wait(KeyStateView::Start),
        }),
{
    assert(buf.push(b) =~= buf + seq![b]);
}

/// A sequence with parameters is read by the first number among them, and by its final
/// byte; the number is 1 if there is none. A report of the mouse is read by its three
/// numbers, whatever its final byte, if that is not the one of a release.
pub proof fn parameters_are_read_as_numbers(p: Seq<u8>, fin: u8)
    ensures
        p.len() > 0 && p[0] != 0x3c ==> csi_key(p + seq![fin]) == parameter_key(
            numbers(p)[0],
            fin,
        ),
        fin != 0x6d ==> csi_key(seq![0x3cu8] + p + seq![fin]) == mouse_key(
            (numbers(p)[0] % 256) as u8,
            (numbers(p)[1] % 65536) as u16,
            (numbers(p)[2] % 65536) as u16,
        ),
{
    let a = p + seq![fin];
    assert(a.drop_last() =~= p);
    assert(a.last() == fin);
    let b = seq![0x3cu8] + p + seq![fin];
    assert(b[0] == 0x3c && b.last() == fin);
    assert(b.subrange(1, b.len() - 1) =~= p);
}

} // verus!
