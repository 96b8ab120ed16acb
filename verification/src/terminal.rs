//! The terminal's settings: raw mode, and reading with a time limit.

use vstd::prelude::*;

verus! {

/// Translate a carriage return on input.
pub const ICRNL: u32 = 0x100;

/// Flow control on output.
pub const IXON: u32 = 0x400;

/// Process output.
pub const OPOST: u32 = 0x1;

/// Echo what is typed.
pub const ECHO: u32 = 0x8;

/// Hand over input by lines.
pub const ICANON: u32 = 0x2;

/// Turn some characters into signals.
pub const ISIG: u32 = 0x1;

/// Extended processing of input.
pub const IEXTEN: u32 = 0x8000;

/// Where the time limit of a read stands among the control characters.
pub const VTIME: usize = 5;

/// Where the least number of bytes of a read stands.
pub const VMIN: usize = 6;

/// The settings of a terminal.
#[derive(Clone, Copy, Debug, PartialEq, Eq)]
pub struct Termios {
    pub c_iflag: u32,
    pub c_oflag: u32,
    pub c_cflag: u32,
    pub c_lflag: u32,
    pub c_line: u8,
    pub c_cc: [u8; 19],
}

/// The settings with another least number of bytes and time limit for a read.
pub fn with_read_limits(t: Termios, least: u8, tenths: u8) -> (r: Termios)
    ensures
        r.c_iflag == t.c_iflag,
        r.c_oflag == t.c_oflag,
        r.c_cflag == t.c_cflag,
        r.c_lflag == t.c_lflag,
        r.c_line == t.c_line,
        r.c_cc@ == t.c_cc@.update(VMIN as int, least).update(VTIME as int, tenths),
{
    let mut cc: [u8; 19] = t.c_cc;
    cc[VMIN] = least;
    cc[VTIME] = tenths;
    Termios {
        c_iflag: t.c_iflag,
        c_oflag: t.c_oflag,
        c_cflag: t.c_cflag,
        c_lflag: t.c_lflag,
        c_line: t.c_line,
        c_cc: cc,
    }
}

/// Raw mode: every byte is handed over as it comes, unchanged and unechoed, and
/// what is written goes out unchanged.
pub fn raw_on(t: Termios) -> (r: Termios)
    ensures
        r.c_iflag == t.c_iflag & !(ICRNL | IXON),
        r.c_oflag == t.c_oflag & !OPOST,
        r.c_cflag == t.c_cflag,
        r.c_lflag == t.c_lflag & !(ECHO | ICANON | ISIG | IEXTEN),
        r.c_line == t.c_line,
        r.c_cc@ == t.c_cc@.update(VMIN as int, 1).update(VTIME as int, 0),
{
    let mut raw = with_read_limits(t, 1, 0);
    raw.c_iflag = t.c_iflag & !(ICRNL | IXON);
    raw.c_oflag = t.c_oflag & !OPOST;
    raw.c_lflag = t.c_lflag & !(ECHO | ICANON | ISIG | IEXTEN);
    raw
}

/// The settings for a read that waits so many tenths of a second at most.
pub fn timed(t: Termios, tenths: u8) -> (r: Termios)
    ensures
        r.c_iflag == t.c_iflag,
        r.c_oflag == t.c_oflag,
        r.c_cflag == t.c_cflag,
        r.c_lflag == t.c_lflag,
        r.c_line == t.c_line,
        r.c_cc@ == t.c_cc@.update(VMIN as int, 0).update(VTIME as int, tenths),
{
    with_read_limits(t, 0, tenths)
}

/// After a read with a time limit the settings can be put back: the read limits
/// of `t` set on the changed settings give `t` again.
pub proof fn read_limits_are_restored(t: Termios, tenths: u8)
    ensures
        t.c_cc@.update(VMIN as int, 0).update(VTIME as int, tenths).update(
            VMIN as int,
            t.c_cc@[VMIN as int],
        ).update(VTIME as int, t.c_cc@[VTIME as int]) == t.c_cc@,
{
    assert(t.c_cc@.len() == 19);
    assert(t.c_cc@.update(VMIN as int, 0).update(VTIME as int, tenths).update(
        VMIN as int,
        t.c_cc@[VMIN as int],
    ).update(VTIME as int, t.c_cc@[VTIME as int]) =~= t.c_cc@);
}

/// The flags are bits of their own within their field, and the places of the read
/// limits differ.
pub proof fn flags_are_bits_of_their_own()
    ensures
        ICRNL == 0o400,
        IXON == 0o2000,
        OPOST == 1,
        ISIG == 0o1,
        ICANON == 0o2,
        ECHO == 0o10,
        IEXTEN == 0o100000,
        VTIME == 5,
        VMIN == 6,
{
}

} // verus!
