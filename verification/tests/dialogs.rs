use oc::entry::{FileEntry, SortBy};
use oc::keys::Key;
use oc::menu::{menu_items, op_context_menu, Command, MENU_COUNT};
use oc::pane::{LocalPane, Pane, RemotePane};
use oc::picker::{picker, Picker, PickerStep};
use oc::prompt::{prompt, Prompt, PromptStep};
use oc::search::{find_holding, op_search, Search};
use oc::sorting::{op_sort, sort_dialog, SortDialog, SortStep};

const NORM_ON_BLUE: &str = "\x1b[38;2;85;255;255m\x1b[48;2;0;0;170m";
const BLACK_ON_CYAN: &str = "\x1b[38;2;0;0;0m\x1b[48;2;0;170;170m";

fn pane_of(names: &[&str]) -> Pane {
    let items = names
        .iter()
        .map(|n| FileEntry { name: n.to_string(), is_dir: false, size: 1 })
        .collect();
    Pane::Local(LocalPane::new(b"/".to_vec(), items))
}

#[test]
fn prompt_takes_what_is_typed() {
    let mut o = String::new();
    let mut p = Prompt::new(&mut o, "Go to", "ab");
    assert_eq!(o, "\x1b[?25h");
    for k in [Key::Char('c'), Key::Char('\x01'), Key::Up, Key::Backspace, Key::Char('é')] {
        assert!(matches!(prompt(&mut o, &mut p, k), PromptStep::Edit));
    }
    assert_eq!(p.buf, vec!['a', 'b', 'c', 'é']);
    prompt(&mut o, &mut p, Key::Char('\x7f'));
    prompt(&mut o, &mut p, Key::Char('\x08'));
    assert_eq!(p.buf, vec!['a', 'b']);
    assert_eq!(o, "\x1b[?25h");
    match prompt(&mut o, &mut p, Key::Enter) {
        PromptStep::Accept(s) => assert_eq!(s, "ab"),
        _ => panic!(),
    }
    assert_eq!(o, "\x1b[?25h\x1b[?25l");
}

#[test]
fn prompt_is_left_by_escape() {
    let mut o = String::new();
    let mut p = Prompt::new(&mut o, "New directory", "");
    prompt(&mut o, &mut p, Key::Char('\x7f'));
    assert!(p.buf.is_empty());
    assert!(matches!(prompt(&mut o, &mut p, Key::Esc), PromptStep::Abort));
    assert!(o.ends_with("\x1b[?25l"));
}

#[test]
fn prompt_shows_the_end_of_a_long_answer() {
    let mut o = String::new();
    let p = Prompt::new(&mut o, "Go", "/tmp");
    o.clear();
    assert!(p.drawable(20));
    p.draw(&mut o, 24, 20);
    assert_eq!(o, format!("\x1b[24;1H{} Go: /tmp          \x1b[24;10H", BLACK_ON_CYAN));
    o.clear();
    p.draw(&mut o, 24, 8);
    assert_eq!(o, format!("\x1b[24;1H{} Go: mp\x1b[24;8H", BLACK_ON_CYAN));
    o.clear();
    p.draw(&mut o, 24, 3);
    assert_eq!(o, format!("\x1b[24;1H{} Go: \x1b[24;3H", BLACK_ON_CYAN));
    let mut x = String::new();
    let q = Prompt::new(&mut x, "Go", "aé");
    assert!(q.drawable(8));
    assert!(!q.drawable(7));
}

#[test]
fn picker_moves_and_picks() {
    let items: Vec<String> = ["a", "b", "c"].iter().map(|s| s.to_string()).collect();
    let mut p = Picker::new("Menu", items).unwrap();
    assert_eq!(picker(&mut p, Key::Up), PickerStep::Move);
    assert_eq!(p.cursor, 0);
    for _ in 0..5 {
        picker(&mut p, Key::Down);
    }
    assert_eq!(p.cursor, 2);
    picker(&mut p, Key::Up);
    assert_eq!(picker(&mut p, Key::Char('x')), PickerStep::Move);
    assert_eq!(picker(&mut p, Key::Enter), PickerStep::Pick(1));
    assert_eq!(picker(&mut p, Key::Esc), PickerStep::Abort);
    assert!(Picker::new("Menu", vec![]).is_none());
}

#[test]
fn picker_is_drawn_in_the_middle() {
    let items: Vec<String> = ["one", "two"].iter().map(|s| s.to_string()).collect();
    let p = Picker::new("T", items).unwrap();
    assert!(p.drawable(24, 80));
    let mut o = String::new();
    p.draw(&mut o, 24, 80);
    assert!(o.starts_with("\x1b[11;29H"));
    assert!(o.contains("╡ T ╞"));
    assert!(o.contains(&format!("\x1b[12;30H{} one                  \x1b[0m", BLACK_ON_CYAN)));
    assert!(o.ends_with(&format!("\x1b[13;30H{} two                  \x1b[0m", NORM_ON_BLUE)));
    assert!(!p.drawable(24, 27));
    assert!(p.drawable(24, 28));
}

#[test]
fn picker_scrolls_and_cuts() {
    let items: Vec<String> = (0..20).map(|i| format!("{:02}{}", i, "x".repeat(40))).collect();
    let mut p = Picker::new("T", items).unwrap();
    for _ in 0..10 {
        picker(&mut p, Key::Down);
    }
    let mut o = String::new();
    assert!(p.drawable(10, 30));
    p.draw(&mut o, 10, 30);
    assert!(!o.contains(" 06x"));
    assert!(o.contains(" 07xxxxxxxxxxxxxxxxxxxx \x1b[0m"));
    assert!(o.contains(&format!("{} 10x", BLACK_ON_CYAN)));
    assert!(!o.contains(" 11x"));
    let u = Picker::new("T", vec![format!("{}é", "x".repeat(21))]).unwrap();
    assert!(!u.drawable(24, 30));
    assert!(u.drawable(24, 80));
    let mut none = String::new();
    p.draw(&mut none, 6, 30);
    assert!(!none.contains("xx"));
}

#[test]
fn sort_dialog_turns_round() {
    let mut p = pane_of(&["a"]);
    let mut d = sort_dialog(&p).unwrap();
    assert_eq!(
        op_sort(&mut d, Key::Enter),
        SortStep::Choose { sort: SortBy::Name, reverse: true }
    );
    op_sort(&mut d, Key::Char('r'));
    assert_eq!(
        op_sort(&mut d, Key::Enter),
        SortStep::Choose { sort: SortBy::Name, reverse: true }
    );
    op_sort(&mut d, Key::Char('R'));
    assert_eq!(d, SortDialog::new(SortBy::Name, false));
    op_sort(&mut d, Key::Up);
    op_sort(&mut d, Key::Down);
    assert_eq!(
        op_sort(&mut d, Key::Enter),
        SortStep::Choose { sort: SortBy::Size, reverse: false }
    );
    op_sort(&mut d, Key::Down);
    op_sort(&mut d, Key::Down);
    op_sort(&mut d, Key::Char('r'));
    assert_eq!(
        op_sort(&mut d, Key::Enter),
        SortStep::Choose { sort: SortBy::Ext, reverse: true }
    );
    assert_eq!(op_sort(&mut d, Key::Esc), SortStep::Abort);
    assert_eq!(op_sort(&mut d, Key::Left), SortStep::Move);
    p.as_local_mut().unwrap().set_sort(SortBy::Ext, true);
    assert_eq!(sort_dialog(&p), Some(SortDialog::new(SortBy::Ext, true)));
    let r = Pane::Remote(RemotePane::new("h".to_string(), "/".to_string(), vec![]));
    assert!(sort_dialog(&r).is_none());
}

#[test]
fn sort_dialog_is_drawn() {
    let d = SortDialog::new(SortBy::Size, true);
    let mut o = String::new();
    d.draw(&mut o, 24, 80);
    assert!(o.starts_with("\x1b[10;27H"));
    assert!(o.contains("╡ Sort by  ↓ desc ╞"));
    assert!(o.contains(&format!("\x1b[11;28H{}   Name                   \x1b[0m", NORM_ON_BLUE)));
    assert!(o.contains(&format!("\x1b[12;28H{}◆↓ Size                   \x1b[0m", BLACK_ON_CYAN)));
    assert!(o.ends_with(&format!("\x1b[13;28H{}   Extension              \x1b[0m", NORM_ON_BLUE)));
    let e = SortDialog::new(SortBy::Name, false);
    let mut o = String::new();
    e.draw(&mut o, 5, 12);
    assert!(o.contains("╡ Sort by  ↑ asc ╞"));
    assert!(o.contains("◆↑ Nam\x1b[0m"));
    assert!(o.contains("   Ext\x1b[0m"));
    let mut tiny = String::new();
    e.draw(&mut tiny, 0, 0);
    assert!(tiny.contains("◆↑ \x1b[0m"));
}

#[test]
fn search_follows_the_query() {
    let mut p = pane_of(&["Alpha", "beta", "BETTER", "gamma"]);
    let mut o = String::new();
    *p.cursor_mut() = 3;
    let mut s = Search::new(&mut o, &p);
    assert_eq!(o, "\x1b[?25h");
    assert!(op_search(&mut o, &mut s, &mut p, Key::Char('B')));
    assert_eq!(p.cursor(), 1);
    for c in "ett".chars() {
        op_search(&mut o, &mut s, &mut p, Key::Char(c));
    }
    assert_eq!(p.cursor(), 2);
    op_search(&mut o, &mut s, &mut p, Key::Char('z'));
    assert_eq!(p.cursor(), 2);
    op_search(&mut o, &mut s, &mut p, Key::Backspace);
    op_search(&mut o, &mut s, &mut p, Key::Backspace);
    assert_eq!(p.cursor(), 1);
    op_search(&mut o, &mut s, &mut p, Key::Down);
    op_search(&mut o, &mut s, &mut p, Key::Char('\t'));
    assert_eq!(s.query, vec!['B', 'e', 't']);
    assert!(!op_search(&mut o, &mut s, &mut p, Key::Enter));
    assert_eq!(p.cursor(), 1);
    assert_eq!(o, "\x1b[?25h\x1b[?25l");
}

#[test]
fn search_ignores_case() {
    for query in ["ETA", "eta", "EtA"] {
        let mut p = pane_of(&["Alpha", "BETA", "beta2"]);
        let mut o = String::new();
        let mut s = Search::new(&mut o, &p);
        for c in query.chars() {
            op_search(&mut o, &mut s, &mut p, Key::Char(c));
        }
        assert_eq!(p.cursor(), 1);
    }
}

#[test]
fn search_is_undone_by_escape() {
    let mut p = pane_of(&["Alpha", "beta"]);
    let mut o = String::new();
    let mut s = Search::new(&mut o, &p);
    op_search(&mut o, &mut s, &mut p, Key::Char('b'));
    assert_eq!(p.cursor(), 1);
    p.toggle_sel(0);
    *p.offset_mut() = 1;
    assert!(!op_search(&mut o, &mut s, &mut p, Key::Esc));
    assert_eq!((p.cursor(), p.offset()), (0, 1));
    assert!(p.is_selected(0));
}

#[test]
fn search_shows_the_query() {
    let p = pane_of(&["a"]);
    let mut o = String::new();
    let mut s = Search::new(&mut o, &p);
    s.query = vec!['é', 'x'];
    o.clear();
    assert!(s.drawable(24));
    s.draw(&mut o, 24, 6);
    assert_eq!(o, format!("\x1b[23;1H{}/éx   \x1b[0m\x1b[23;4H", BLACK_ON_CYAN));
    assert!(!s.drawable(0));
    s.query = vec!['a'; 65534];
    assert!(!s.drawable(24));
    s.query = vec!['a'; 65535];
    o.clear();
    s.draw(&mut o, 24, 1);
    assert!(o.ends_with("\x1b[23;1H"));
}

#[test]
fn first_text_that_holds_another() {
    let names: Vec<String> = ["abc", "bcd", "cde"].iter().map(|s| s.to_string()).collect();
    assert_eq!(find_holding(&names, "cd"), Some(1));
    assert_eq!(find_holding(&names, ""), Some(0));
    assert_eq!(find_holding(&names, "x"), None);
}

#[test]
fn menu_lists_the_commands() {
    let items = menu_items();
    assert_eq!(items.len(), MENU_COUNT);
    assert_eq!(items[0], "View (F3)");
    assert_eq!(items[9], "Sort…(s)");
    assert_eq!(items[14], "Refresh (R)");
    assert_eq!(op_context_menu(0), Some(Command::View));
    assert_eq!(op_context_menu(6), Some(Command::Delete));
    assert_eq!(op_context_menu(11), Some(Command::Sync));
    assert_eq!(op_context_menu(14), Some(Command::Refresh));
    assert_eq!(op_context_menu(15), None);
}
