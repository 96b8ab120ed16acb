use oc::commander::{
    end_screen, leave_screen, local_start, op_sync_panes, return_screen, start_arg, start_screen, Action,
    Commander,
};
use oc::entry::FileEntry;
use oc::keys::Key;
use oc::menu::Command;
use oc::mount::Arrival;
use oc::pane::{LocalPane, Pane, Panes, RemotePane, Visit};

fn ten_entries(path: &str) -> Pane {
    let items = (0..10)
        .map(|i| FileEntry { name: format!("n{}", i), is_dir: i < 3, size: i })
        .collect();
    Pane::Local(LocalPane::new(path.as_bytes().to_vec(), items))
}

fn server() -> Pane {
    let d = FileEntry { name: "pub".to_string(), is_dir: true, size: 1 };
    Pane::Remote(RemotePane::new("h".to_string(), "/x".to_string(), vec![d]))
}

fn program() -> Commander {
    Commander::new(ten_entries("/left"), ten_entries("/right"))
}

fn press(c: &mut Commander, key: Key) -> Action {
    c.step(key, 9, 80)
}

fn ran(a: Action) -> Option<Command> {
    match a {
        Action::Run(c) => Some(c),
        _ => None,
    }
}

#[test]
fn tab_switches_panes() {
    let mut c = program();
    assert_eq!(c.active, 0);
    press(&mut c, Key::Char('\t'));
    assert_eq!(c.active, 1);
    press(&mut c, Key::Char('\t'));
    assert_eq!(c.active, 0);
}

#[test]
fn keys_move_the_cursor_of_the_active_pane() {
    let mut c = program();
    for (k, at) in [
        (Key::Up, 0),
        (Key::Down, 1),
        (Key::Char('j'), 2),
        (Key::Char('k'), 1),
        (Key::PageDown, 6),
        (Key::PageDown, 10),
        (Key::Down, 10),
        (Key::PageUp, 5),
        (Key::Home, 0),
        (Key::End, 10),
        (Key::Char('g'), 10),
        (Key::Char('g'), 0),
        (Key::Char('G'), 10),
        (Key::Char('g'), 10),
        (Key::Left, 0),
    ] {
        press(&mut c, k);
        assert_eq!(c.panes.left.cursor(), at, "{:?}", k);
        assert_eq!(c.panes.right.cursor(), 0);
    }
}

#[test]
fn keys_select() {
    let mut c = program();
    press(&mut c, Key::Down);
    press(&mut c, Key::Insert);
    press(&mut c, Key::Char(' '));
    assert_eq!(c.panes.left.selected_names(), vec!["n0", "n1"]);
    assert_eq!(c.panes.left.cursor(), 2);
    press(&mut c, Key::Char(' '));
    assert_eq!(c.panes.left.selected_names(), vec!["n0"]);
    press(&mut c, Key::Char('\x01'));
    assert_eq!(c.panes.left.selected_names().len(), 10);
    press(&mut c, Key::Esc);
    assert!(!c.panes.left.has_selection());
    c.command(Command::SelectAll);
    assert!(c.panes.left.is_selected(0));
    c.command(Command::Deselect);
    assert!(!c.panes.left.has_selection());
}

#[test]
fn keys_go_in_and_out() {
    let mut c = program();
    press(&mut c, Key::Down);
    match press(&mut c, Key::Enter) {
        Action::Go(0, Visit::List(r)) => assert!(r.focus.is_none()),
        _ => panic!(),
    }
    assert_eq!(c.panes.left.title(), "/left/n0");
    match press(&mut c, Key::Backspace) {
        Action::Go(0, Visit::List(r)) => assert_eq!(r.focus, Some("n0".to_string())),
        _ => panic!(),
    }
    assert_eq!(c.panes.left.title(), "/left");
    press(&mut c, Key::End);
    assert!(matches!(press(&mut c, Key::Right), Action::Go(0, Visit::Stay)));
    let mut r = Commander::new(server(), ten_entries("/"));
    assert!(matches!(press(&mut r, Key::Enter), Action::Go(0, Visit::ChangeTo(d)) if d == "pub"));
    assert!(matches!(press(&mut r, Key::Left), Action::Go(0, Visit::ChangeUp(n)) if n == "x"));
}

#[test]
fn keys_run_commands() {
    let mut c = program();
    let table = [
        (Key::Delete, Command::Delete),
        (Key::F(1), Command::Help),
        (Key::F(2), Command::Rename),
        (Key::F(3), Command::View),
        (Key::F(4), Command::Edit),
        (Key::F(5), Command::Copy),
        (Key::F(6), Command::Move),
        (Key::F(7), Command::Mkdir),
        (Key::F(8), Command::Delete),
        (Key::F(9), Command::Menu),
        (Key::Char('/'), Command::Search),
        (Key::Char('e'), Command::Edit),
        (Key::Char('\''), Command::GoTo),
        (Key::Char('r'), Command::Rename),
        (Key::Char('s'), Command::Sort),
        (Key::Char('C'), Command::Mount),
        (Key::Char('f'), Command::Connect),
        (Key::Char('?'), Command::Help),
    ];
    for (k, cmd) in table {
        assert_eq!(ran(press(&mut c, k)), Some(cmd), "{:?}", k);
    }
    assert!(matches!(press(&mut c, Key::Char('R')), Action::Refresh(0)));
    assert!(matches!(press(&mut c, Key::F(10)), Action::Quit));
    assert!(matches!(press(&mut c, Key::Char('q')), Action::Quit));
    assert!(matches!(press(&mut c, Key::Char('Q')), Action::Quit));
    assert!(matches!(press(&mut c, Key::F(11)), Action::Nothing));
    assert!(matches!(press(&mut c, Key::Char('x')), Action::Nothing));
}

#[test]
fn deleting_by_letters_takes_two() {
    let mut c = program();
    assert!(matches!(press(&mut c, Key::Char('d')), Action::Nothing));
    assert!(matches!(press(&mut c, Key::Char('x')), Action::Nothing));
    assert!(matches!(press(&mut c, Key::Char('d')), Action::Nothing));
    assert!(matches!(press(&mut c, Key::Up), Action::Nothing));
    assert!(matches!(press(&mut c, Key::Char('d')), Action::Nothing));
    assert_eq!(ran(press(&mut c, Key::Char('d'))), Some(Command::Delete));
    assert_eq!(ran(press(&mut c, Key::Char('d'))), Some(Command::Delete));
}

#[test]
fn clicks_choose_and_enter() {
    let mut c = program();
    let click = Key::Click { btn: 0, col: 41, row: 4 };
    assert!(matches!(press(&mut c, click), Action::Nothing));
    assert_eq!((c.active, c.panes.right.cursor()), (1, 2));
    assert!(matches!(press(&mut c, click), Action::Go(1, Visit::List(_))));
    assert_eq!(c.panes.right.title(), "/right/n1");
    let mut c = program();
    press(&mut c, Key::Click { btn: 0, col: 40, row: 2 });
    assert_eq!((c.active, c.panes.left.title().as_str()), (0, "/"));
    let mut c = program();
    press(&mut c, Key::Click { btn: 0, col: 60, row: 1 });
    assert_eq!((c.active, c.panes.right.cursor()), (1, 0));
    press(&mut c, Key::Click { btn: 0, col: 1, row: 60 });
    assert_eq!((c.active, c.panes.left.cursor()), (0, 0));
    *c.panes.left.offset_mut() = 3;
    press(&mut c, Key::Click { btn: 0, col: 1, row: 3 });
    assert_eq!(c.panes.left.cursor(), 4);
    assert!(matches!(press(&mut c, Key::Click { btn: 1, col: 60, row: 3 }), Action::Nothing));
    assert_eq!(c.active, 0);
}

#[test]
fn right_click_goes_up() {
    let mut c = program();
    let a = press(&mut c, Key::Click { btn: 2, col: 70, row: 9 });
    assert!(matches!(a, Action::Go(1, Visit::List(_))));
    assert_eq!((c.active, c.panes.right.title().as_str()), (1, "/"));
}

#[test]
fn wheel_moves_three_rows() {
    let mut c = program();
    press(&mut c, Key::Scroll { up: false, col: 70, row: 1 });
    assert_eq!((c.active, c.panes.right.cursor(), c.panes.left.cursor()), (0, 3, 0));
    for _ in 0..5 {
        press(&mut c, Key::Scroll { up: false, col: 70, row: 1 });
    }
    assert_eq!(c.panes.right.cursor(), 10);
    press(&mut c, Key::Scroll { up: true, col: 70, row: 1 });
    assert_eq!(c.panes.right.cursor(), 7);
    press(&mut c, Key::Scroll { up: true, col: 1, row: 1 });
    assert_eq!(c.panes.left.cursor(), 0);
}

#[test]
fn syncing_shows_the_same_path() {
    let mut c = program();
    *c.panes.right.cursor_mut() = 4;
    match press(&mut c, Key::Char('S')) {
        Action::Go(1, Visit::List(r)) => assert!(r.focus.is_none()),
        _ => panic!(),
    }
    assert_eq!((c.panes.right.title().as_str(), c.panes.right.cursor()), ("/left", 0));
    let mut p = Panes { left: server(), right: ten_entries("/r") };
    assert!(!op_sync_panes(&mut p, 0));
    assert!(!op_sync_panes(&mut p, 1));
    assert_eq!(p.right.title(), "/r");
    let mut p = Panes { left: ten_entries("/l"), right: ten_entries("/r") };
    assert!(op_sync_panes(&mut p, 1));
    assert_eq!(p.left.title(), "/r");
    let mut s = Commander::new(server(), ten_entries("/r"));
    assert!(matches!(press(&mut s, Key::Char('S')), Action::Nothing));
}

#[test]
fn new_mounts_are_remembered() {
    let mut c = program();
    assert!(matches!(c.arrive("/tmp/oc-a", true), Arrival::List));
    assert!(matches!(c.arrive("/tmp/oc-b", false), Arrival::List));
    assert_eq!(c.mounts, vec!["/tmp/oc-a"]);
    assert_eq!(c.panes.right.title(), "/tmp/oc-b");
    let mut c = Commander::new(ten_entries("/l"), server());
    assert!(matches!(c.arrive("/tmp/oc-a", true), Arrival::Open(p) if p == "/tmp/oc-a"));
    assert_eq!(c.mounts, vec!["/tmp/oc-a"]);
}

#[test]
fn screens_at_start_and_end() {
    let clear = "\x1b[48;2;0;0;170m\x1b[38;2;85;255;255m\x1b[1;1H  \x1b[1;1H";
    let mut o = String::new();
    start_screen(&mut o, 1, 2);
    assert_eq!(o, format!("\x1b[?25l\x1b[?1000h\x1b[?1006h{}", clear));
    o.clear();
    end_screen(&mut o, 1, 2);
    assert_eq!(o, format!("\x1b[?1006l\x1b[?1000l{}\x1b[?25h", clear));
    o.clear();
    leave_screen(&mut o, 1, 2);
    assert_eq!(o, format!("\x1b[?25h{}", clear));
    o.clear();
    return_screen(&mut o, 1, 2);
    assert_eq!(o, format!("\x1b[?25l{}", clear));
}

#[test]
fn arguments_default_to_the_current_directory() {
    let none: Vec<String> = vec![];
    assert_eq!(start_arg(&none, 0), ".");
    let one = vec!["/a".to_string()];
    assert_eq!(start_arg(&one, 0), "/a");
    assert_eq!(start_arg(&one, 1), ".");
    assert_eq!(local_start(None), b".");
    assert_eq!(local_start(Some(vec![b'/', 0xff])), vec![b'/', 0xff]);
}
