use oc::keys::{parse_csi, parse_nums, read_key, Key, KeyState, KeyStep};
use oc::terminal::{raw_on, timed, with_read_limits, Termios};

fn feed(bytes: &[Option<u8>]) -> Vec<Key> {
    let mut keys = Vec::new();
    let mut state = KeyState::Start;
    for b in bytes {
        match read_key(state, *b) {
            KeyStep::Done(k) => {
                keys.push(k);
                state = KeyState::Start;
            }
            KeyStep::Wait(s) => state = s,
        }
    }
    keys
}

fn feed_all(bytes: &[u8]) -> Vec<Key> {
    let v: Vec<Option<u8>> = bytes.iter().map(|b| Some(*b)).collect();
    feed(&v)
}

#[test]
fn numbers_default_to_one() {
    assert_eq!(parse_nums(b""), [1, 1, 1]);
    assert_eq!(parse_nums(b"12"), [12, 1, 1]);
    assert_eq!(parse_nums(b"0;5;7"), [0, 5, 7]);
    assert_eq!(parse_nums(b";5"), [1, 5, 1]);
    assert_eq!(parse_nums(b"1;2;3;4"), [1, 2, 4]);
    assert_eq!(parse_nums(b"1;2;3;"), [1, 2, 3]);
    assert_eq!(parse_nums(b"<3x4;;9"), [34, 1, 9]);
    assert_eq!(parse_nums(b"4294967296"), [0, 1, 1]);
}

#[test]
fn cursor_keys() {
    assert_eq!(parse_csi(b""), None);
    assert_eq!(parse_csi(b"A"), Some(Key::Up));
    assert_eq!(parse_csi(b"B"), Some(Key::Down));
    assert_eq!(parse_csi(b"C"), Some(Key::Right));
    assert_eq!(parse_csi(b"D"), Some(Key::Left));
    assert_eq!(parse_csi(b"H"), Some(Key::Home));
    assert_eq!(parse_csi(b"F"), Some(Key::End));
    assert_eq!(parse_csi(b"Z"), Some(Key::Char('\t')));
    assert_eq!(parse_csi(b"X"), None);
}

#[test]
fn keys_with_parameters() {
    let table: [(&[u8], Option<Key>); 24] = [
        (b"1~", Some(Key::Home)),
        (b"7~", Some(Key::Home)),
        (b"1;5H", Some(Key::Home)),
        (b"4~", Some(Key::End)),
        (b"8~", Some(Key::End)),
        (b"1;5F", Some(Key::End)),
        (b"2~", Some(Key::Insert)),
        (b"3~", Some(Key::Delete)),
        (b"5~", Some(Key::PageUp)),
        (b"6~", Some(Key::PageDown)),
        (b"11~", Some(Key::F(1))),
        (b"12~", Some(Key::F(2))),
        (b"13~", Some(Key::F(3))),
        (b"14~", Some(Key::F(4))),
        (b"15~", Some(Key::F(5))),
        (b"17~", Some(Key::F(6))),
        (b"18~", Some(Key::F(7))),
        (b"19~", Some(Key::F(8))),
        (b"20~", Some(Key::F(9))),
        (b"21~", Some(Key::F(10))),
        (b"23~", Some(Key::F(11))),
        (b"24~", Some(Key::F(12))),
        (b"16~", None),
        (b"1;5A", None),
    ];
    for (bytes, key) in table {
        assert_eq!(parse_csi(bytes), key, "{:?}", bytes);
    }
}

#[test]
fn mouse_reports() {
    assert_eq!(parse_csi(b"<0;12;5M"), Some(Key::Click { btn: 0, col: 12, row: 5 }));
    assert_eq!(parse_csi(b"<2;1;1M"), Some(Key::Click { btn: 2, col: 1, row: 1 }));
    assert_eq!(parse_csi(b"<0;12;5m"), None);
    assert_eq!(parse_csi(b"<64;3;4M"), Some(Key::Scroll { up: true, col: 3, row: 4 }));
    assert_eq!(parse_csi(b"<65;3;4M"), Some(Key::Scroll { up: false, col: 3, row: 4 }));
    assert_eq!(parse_csi(b"<35;3;4M"), None);
    assert_eq!(parse_csi(b"<256;3;4M"), Some(Key::Click { btn: 0, col: 3, row: 4 }));
    assert_eq!(parse_csi(b"<m"), None);
}

#[test]
fn bytes_become_keys() {
    assert_eq!(feed_all(b"a\r\n\x7f\x08\t"), vec![
        Key::Char('a'),
        Key::Enter,
        Key::Enter,
        Key::Backspace,
        Key::Backspace,
        Key::Char('\t'),
    ]);
    assert_eq!(feed_all(b"\x1b[A"), vec![Key::Up]);
    assert_eq!(feed_all(b"\x1b[<0;80;24Mq"), vec![
        Key::Click { btn: 0, col: 80, row: 24 },
        Key::Char('q'),
    ]);
    assert_eq!(feed_all(b"\x1bOP\x1bOQ\x1bOR\x1bOS"), vec![
        Key::F(1),
        Key::F(2),
        Key::F(3),
        Key::F(4),
    ]);
}

#[test]
fn lone_escape_is_a_key() {
    assert_eq!(feed(&[Some(0x1b), None]), vec![Key::Esc]);
}

#[test]
fn unknown_sequences_are_skipped() {
    assert_eq!(feed_all(b"\x1b[Xa"), vec![Key::Char('a')]);
    assert_eq!(feed_all(b"\x1bOXa"), vec![Key::Char('a')]);
    assert_eq!(feed_all(b"\x1bxa"), vec![Key::Char('a')]);
    assert_eq!(feed_all(&[0xc3, 0xa9, b'a']), vec![Key::Char('a')]);
    assert_eq!(feed(&[Some(0x1b), Some(b'['), None, Some(b'a')]), vec![Key::Char('a')]);
    assert_eq!(feed(&[Some(0x1b), Some(b'O'), None, Some(b'a')]), vec![Key::Char('a')]);
}

#[test]
fn raw_mode_clears_flags_only() {
    let mut cc = [7u8; 19];
    cc[5] = 9;
    cc[6] = 9;
    let t = Termios {
        c_iflag: 0xffff_ffff,
        c_oflag: 0xffff_ffff,
        c_cflag: 0x1234,
        c_lflag: 0xffff_ffff,
        c_line: 3,
        c_cc: cc,
    };
    let r = raw_on(t);
    assert_eq!(r.c_iflag, 0xffff_ffff & !(0x100 | 0x400));
    assert_eq!(r.c_oflag, 0xffff_ffff & !1);
    assert_eq!(r.c_lflag, 0xffff_ffff & !(8 | 2 | 1 | 0x8000));
    assert_eq!(r.c_cflag, 0x1234);
    assert_eq!(r.c_line, 3);
    assert_eq!(r.c_cc[6], 1);
    assert_eq!(r.c_cc[5], 0);
    assert_eq!(r.c_cc[0], 7);
    let w = timed(r, 1);
    assert_eq!((w.c_cc[6], w.c_cc[5]), (0, 1));
    let back = with_read_limits(w, r.c_cc[6], r.c_cc[5]);
    assert_eq!(back.c_cc, r.c_cc);
}
