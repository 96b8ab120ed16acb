use oc::entry::{sort_entries, FileEntry, SortBy};
use oc::icons::{choose_icon, file_icon};
use oc::listing::{position_of, Listing};
use oc::order::{order_texts, Order};
use oc::pane::{split, LocalPane, Pane, Panes, Reload, RemotePane, Visit};

fn file(name: &str, size: u64) -> FileEntry {
    FileEntry { name: name.to_string(), is_dir: false, size }
}

fn dir(name: &str) -> FileEntry {
    FileEntry { name: name.to_string(), is_dir: true, size: 0 }
}

fn names(v: &[FileEntry]) -> Vec<&str> {
    v.iter().map(|e| e.name.as_str()).collect()
}

fn sample() -> Vec<FileEntry> {
    vec![
        file("b.txt", 30),
        dir("zeta"),
        file("A.rs", 20),
        file("c", 10),
        dir("Alpha"),
        file("a.txt", 20),
    ]
}

fn listing() -> Listing {
    Listing::new(vec![dir(".."), dir("d"), file("x", 1), file("y", 2)])
}

#[test]
fn sorted_by_name_in_lower_case() {
    let r = sort_entries(&sample(), SortBy::Name, false);
    assert_eq!(names(&r), vec!["Alpha", "zeta", "A.rs", "a.txt", "b.txt", "c"]);
    let r = sort_entries(&sample(), SortBy::Name, true);
    assert_eq!(names(&r), vec!["zeta", "Alpha", "c", "b.txt", "a.txt", "A.rs"]);
}

#[test]
fn sorted_by_size_and_stable() {
    let r = sort_entries(&sample(), SortBy::Size, false);
    assert_eq!(names(&r), vec!["zeta", "Alpha", "c", "A.rs", "a.txt", "b.txt"]);
    let r = sort_entries(&sample(), SortBy::Size, true);
    assert_eq!(names(&r), vec!["zeta", "Alpha", "b.txt", "A.rs", "a.txt", "c"]);
}

#[test]
fn sorted_by_extension_then_name() {
    let r = sort_entries(&sample(), SortBy::Ext, false);
    assert_eq!(names(&r), vec!["Alpha", "zeta", "c", "A.rs", "a.txt", "b.txt"]);
}

#[test]
fn sorting_agrees_with_std() {
    let words = ["b", "B", "a.C", "é", "É", "z.c", "", "a", "aa", "İ", "Z.C", "b.a.c"];
    let mut items = Vec::new();
    for (i, w) in words.iter().enumerate() {
        items.push(FileEntry {
            name: w.to_string(),
            is_dir: i % 3 == 0,
            size: (i as u64 * 7) % 5,
        });
        items.push(FileEntry { name: w.to_string(), is_dir: i % 2 == 0, size: i as u64 % 2 });
    }
    for sort in [SortBy::Name, SortBy::Size, SortBy::Ext] {
        for reverse in [false, true] {
            let mut want: Vec<FileEntry> = items.clone();
            want.sort_by(|a, b| {
                let n = a.name.to_lowercase().cmp(&b.name.to_lowercase());
                let ext = |s: &str| s.rsplit('.').next().unwrap_or("").to_lowercase();
                let inner = match sort {
                    SortBy::Name => n,
                    SortBy::Size => a.size.cmp(&b.size),
                    SortBy::Ext => ext(&a.name).cmp(&ext(&b.name)).then(n),
                };
                let inner = if reverse { inner.reverse() } else { inner };
                (!a.is_dir).cmp(&!b.is_dir).then(inner)
            });
            let got = sort_entries(&items, sort, reverse);
            assert_eq!(names(&got), names(&want));
            for (g, w) in got.iter().zip(want.iter()) {
                assert_eq!((g.is_dir, g.size), (w.is_dir, w.size));
            }
        }
    }
}

#[test]
fn texts_are_ordered_like_strings() {
    let words = ["", "a", "ab", "b", "é", "z", "\u{ffff}", "\u{10000}"];
    for a in words {
        for b in words {
            let x: Vec<char> = a.chars().collect();
            let y: Vec<char> = b.chars().collect();
            let want = if a < b {
                Order::Less
            } else if a == b {
                Order::Equal
            } else {
                Order::Greater
            };
            assert!(order_texts(&x, &y) == want);
        }
    }
}

#[test]
fn icons_by_name_and_extension() {
    assert_eq!(file_icon(".git", true), '\u{e702}');
    assert_eq!(file_icon("node_modules", true), '\u{e5fa}');
    assert_eq!(file_icon("src.rs", true), '\u{f07b}');
    assert_eq!(file_icon("Makefile", false), '\u{e779}');
    assert_eq!(file_icon("GNUMAKEFILE", false), '\u{e779}');
    assert_eq!(file_icon("Dockerfile", false), '\u{e7b0}');
    assert_eq!(file_icon("Cargo.toml", false), '\u{e7a8}');
    assert_eq!(file_icon(".gitignore", false), '\u{e702}');
    assert_eq!(file_icon(".env", false), '\u{f462}');
    assert_eq!(file_icon("main.RS", false), '\u{e7a8}');
    assert_eq!(file_icon("a.b.PNG", false), '\u{f1c5}');
    assert_eq!(file_icon("x.tar.gz", false), '\u{f1c6}');
    assert_eq!(file_icon("rs", false), '\u{e7a8}');
    assert_eq!(file_icon(".vimrc", false), '\u{e62b}');
    assert_eq!(file_icon("y.tfvars", false), '\u{e69a}');
    assert_eq!(file_icon("z.conf", false), '\u{e615}');
    assert_eq!(file_icon("unknown.thing", false), '\u{f15b}');
    assert_eq!(file_icon("", false), '\u{f15b}');
    for name in ["x.tar.gz", "Makefile.gz", ".gz", "gz"] {
        assert_eq!(file_icon(name, false), '\u{f1c6}');
    }
    assert_eq!(choose_icon("MAIN.RS", false, "main.rs", "rs"), '\u{e7a8}');
    assert_eq!(choose_icon("x", false, "x", "zig"), '\u{e6a9}');
}

#[test]
fn cursor_moves_within_the_listing() {
    let mut l = listing();
    l.move_up(1);
    assert_eq!(l.cursor, 0);
    l.step_down();
    l.step_down();
    assert_eq!(l.cursor, 2);
    l.move_down(10);
    assert_eq!(l.cursor, 3);
    l.step_down();
    assert_eq!(l.cursor, 3);
    l.move_up(2);
    assert_eq!(l.cursor, 1);
    l.move_end();
    assert_eq!(l.cursor, 3);
    l.move_home();
    assert_eq!(l.cursor, 0);
    let mut e = Listing::new(vec![]);
    e.step_down();
    e.move_down(3);
    e.move_end();
    assert_eq!(e.cursor, 0);
    assert!(e.current().is_none());
}

#[test]
fn selection_toggles_and_names() {
    let mut l = listing();
    assert!(!l.has_selection());
    l.toggle_sel(2);
    l.toggle_sel(3);
    l.toggle_sel(0);
    assert_eq!(l.selected_names(), vec!["x", "y"]);
    l.toggle_sel(2);
    assert_eq!(l.selected_names(), vec!["y"]);
    assert!(!l.is_selected(2));
    l.toggle_sel(2);
    l.toggle_sel(2);
    assert!(!l.is_selected(2));
    l.select_all();
    assert_eq!(l.selected_names(), vec!["d", "x", "y"]);
    assert!(l.is_selected(0));
    l.clear_sel();
    assert!(!l.has_selection());
    assert!(l.selected_names().is_empty());
}

#[test]
fn replaced_entries_keep_the_cursor_in_range() {
    let mut l = listing();
    l.cursor = 3;
    l.offset = 2;
    l.select_all();
    l.replace(vec![file("a", 1), file("b", 2)]);
    assert_eq!((l.cursor, l.offset), (1, 2));
    assert!(!l.has_selection());
    l.replace(vec![]);
    assert_eq!(l.cursor, 0);
    let mut m = listing();
    m.focus("y");
    assert_eq!(m.cursor, 3);
    m.focus("missing");
    assert_eq!(m.cursor, 3);
    m.to_top();
    assert_eq!((m.cursor, m.offset), (0, 0));
    assert_eq!(position_of(&m.entries, "d"), Some(1));
    assert_eq!(position_of(&m.entries, "no"), None);
}

#[test]
fn local_pane_shows_the_way_up_first() {
    let p = LocalPane::new(b"/home".to_vec(), sample());
    assert_eq!(names(&p.list.entries)[..3], ["..", "Alpha", "zeta"]);
    assert_eq!(p.title(), "/home");
    let r = LocalPane::new(b"/".to_vec(), sample());
    assert_eq!(names(&r.list.entries)[0], "Alpha");
}

#[test]
fn refreshing_twice_is_refreshing_once() {
    let mut p = LocalPane::new(b"/home".to_vec(), sample());
    p.list.cursor = 4;
    p.set_sort(SortBy::Size, true);
    p.refresh(sample());
    let once: Vec<String> = p.list.entries.iter().map(|e| e.name.clone()).collect();
    assert_eq!(once, vec!["..", "zeta", "Alpha", "b.txt", "A.rs", "a.txt", "c"]);
    p.refresh(sample());
    assert_eq!(names(&p.list.entries), once);
    assert_eq!(p.list.cursor, 4);
}

#[test]
fn entering_and_leaving_a_directory() {
    let mut p = LocalPane::new(b"/home".to_vec(), sample());
    p.list.cursor = 2;
    p.list.offset = 1;
    let r = p.enter().unwrap();
    assert_eq!(p.path, b"/home/zeta");
    assert!(r.focus.is_none());
    assert_eq!((p.list.cursor, p.list.offset), (0, 0));
    p.reload(vec![file("inner", 1)], &r);
    assert_eq!(names(&p.list.entries), vec!["..", "inner"]);
    let r = p.back().unwrap();
    assert_eq!(p.path, b"/home");
    assert_eq!(r.focus, Some("zeta".to_string()));
    p.reload(sample(), &r);
    assert_eq!(p.list.current().unwrap().name, "zeta");
}

#[test]
fn directories_whose_path_is_no_text() {
    let mut p = LocalPane::new(vec![b'/', 0xff], vec![dir("a")]);
    assert_eq!(p.title(), "/\u{fffd}");
    p.list.cursor = 1;
    p.enter().unwrap();
    assert_eq!(p.path, vec![b'/', 0xff, b'/', b'a']);
    p.back().unwrap();
    assert_eq!(p.path, vec![b'/', 0xff]);
    let r = p.back().unwrap();
    assert_eq!(p.path, b"/");
    assert_eq!(r.focus, Some("\u{fffd}".to_string()));
}

#[test]
fn left_directory_is_found_by_what_is_shown() {
    let mut p = LocalPane::new(vec![b'/', b'a', b'/', b'b', 0xff], vec![]);
    let r = p.back().unwrap();
    let items = vec![
        FileEntry::read(b"z", true, 0),
        FileEntry::read(&[b'b', 0xff], true, 3),
        FileEntry::read("é".as_bytes(), false, 1),
    ];
    assert_eq!(names(&items), vec!["z", "b\u{fffd}", "é"]);
    assert_eq!((items[1].is_dir, items[1].size), (true, 3));
    p.reload(items, &r);
    assert_eq!(p.list.current().unwrap().name, "b\u{fffd}");
}

#[test]
fn round_trip_from_an_untidy_path() {
    for (path, tidy) in [("/home", "/home"), ("/home//", "/home"), ("/./.", "/"), ("", "")] {
        let mut p = LocalPane::new(path.as_bytes().to_vec(), sample());
        p.list.focus("zeta");
        let cursor = p.list.cursor;
        let before: Vec<String> = p.list.entries.iter().map(|e| e.name.clone()).collect();
        let r = p.enter().unwrap();
        p.reload(vec![file("inner", 1), file("other", 1)], &r);
        p.list.move_end();
        let r = p.back().unwrap();
        p.reload(sample(), &r);
        assert_eq!(p.path, tidy.as_bytes());
        assert_eq!(names(&p.list.entries), before);
        assert_eq!(p.list.cursor, cursor);
    }
}

#[test]
fn case_of_ascii_names_does_not_matter() {
    for (a, b) in [("README.MD", "readme.md"), ("Makefile", "MAKEFILE"), ("X.Rs", "x.rS")] {
        assert_eq!(file_icon(a, false), file_icon(b, false));
        for sort in [SortBy::Name, SortBy::Ext] {
            let r = sort_entries(&vec![file(b, 1), file(a, 1)], sort, false);
            assert_eq!(names(&r), vec![b, a]);
            let r = sort_entries(&vec![file(a, 1), file(b, 1)], sort, true);
            assert_eq!(names(&r), vec![a, b]);
        }
    }
}

#[test]
fn way_up_leads_up_and_files_lead_nowhere() {
    let mut p = LocalPane::new(b"/home".to_vec(), sample());
    let r = p.enter().unwrap();
    assert_eq!(p.path, b"/");
    assert_eq!(r.focus, Some("home".to_string()));
    assert!(p.back().is_none());
    let mut q = LocalPane::new(b"/home".to_vec(), sample());
    q.list.cursor = 3;
    assert!(q.enter().is_none());
    let mut e = LocalPane::new(b"/".to_vec(), vec![]);
    assert!(e.enter().is_none());
}

#[test]
fn missing_focus_leaves_the_cursor_at_the_top() {
    let mut p = LocalPane::new(b"/home/gone".to_vec(), vec![]);
    let r = p.back().unwrap();
    p.reload(sample(), &r);
    assert_eq!(p.list.cursor, 0);
    p.reload(sample(), &Reload { focus: Some("c".to_string()) });
    assert_eq!(p.list.current().unwrap().name, "c");
}

#[test]
fn remote_pane_goes_in_and_up() {
    let mut p = RemotePane::new(
        "host".to_string(),
        "/pub/linux/".to_string(),
        vec![dir("a"), file("f", 3)],
    );
    assert_eq!(p.title(), "ftp://host/pub/linux/");
    assert_eq!(p.enter(), Some("a".to_string()));
    assert_eq!(p.back(), "linux");
    p.list.cursor = 1;
    assert_eq!(p.enter(), None);
    p.list.offset = 1;
    p.refresh("/x".to_string(), vec![dir("z")]);
    assert_eq!((p.list.cursor, p.list.offset), (0, 1));
    p.arrive("/pub".to_string(), vec![dir("k"), dir("linux")], &Some("linux".to_string()));
    assert_eq!((p.list.cursor, p.list.offset), (1, 0));
    assert_eq!(p.title(), "ftp://host/pub");
    p.arrive("/".to_string(), vec![], &None);
    assert_eq!(p.back(), "");
}

#[test]
fn panes_share_their_operations() {
    let mut p = Pane::Local(LocalPane::new(b"/home".to_vec(), sample()));
    assert!(!p.is_remote());
    assert_eq!(p.entries().len(), 7);
    *p.cursor_mut() = 1;
    *p.offset_mut() = 1;
    assert_eq!((p.cursor(), p.offset()), (1, 1));
    assert_eq!(p.current().unwrap().name, "Alpha");
    p.toggle_sel(1);
    assert!(p.is_selected(1));
    assert!(p.has_selection());
    assert_eq!(p.selected_names(), vec!["Alpha"]);
    p.select_all();
    p.clear_sel();
    assert!(!p.has_selection());
    assert!(p.as_local().is_some());
    p.as_local_mut().unwrap().go_to(b"/tmp".to_vec());
    assert_eq!(p.title(), "/tmp");
    let mut r = Pane::Remote(RemotePane::new("h".to_string(), "/".to_string(), vec![dir("a")]));
    assert!(r.is_remote());
    assert!(r.as_local().is_none());
    assert!(r.as_local_mut().is_none());
    assert!(matches!(r.enter(), Visit::ChangeTo(d) if d == "a"));
    assert!(matches!(r.back(), Visit::ChangeUp(n) if n.is_empty()));
    let mut l = Pane::Local(LocalPane::new(b"/".to_vec(), vec![file("f", 1)]));
    assert!(matches!(l.enter(), Visit::Stay));
    assert!(matches!(l.back(), Visit::Stay));
}

#[test]
fn split_gives_the_active_pane_first() {
    let mut panes = Panes {
        left: Pane::Local(LocalPane::new(b"/l".to_vec(), vec![])),
        right: Pane::Local(LocalPane::new(b"/r".to_vec(), vec![])),
    };
    {
        let (a, b) = split(&mut panes, 1);
        assert_eq!(a.title(), "/r");
        assert_eq!(b.title(), "/l");
    }
    let (a, _) = split(&mut panes, 0);
    assert_eq!(a.title(), "/l");
    assert_eq!(panes.get(1).title(), "/r");
    panes.get_mut(0).as_local_mut().unwrap().go_to(b"/x".to_vec());
    assert_eq!(panes.left.title(), "/x");
}

#[test]
fn lines_of_entries() {
    let f = file("notes.txt", 1536);
    assert!(f.displayable(24));
    assert_eq!(f.display(24), "\u{f15c} notes.txt        1.5K");
    assert_eq!(f.display(24).chars().count(), 23);
    let d = dir("src");
    assert_eq!(d.display(20), "\u{f07b} src/             ");
    assert_eq!(f.display(14), "\u{f15c} …txt   1.5K");
    assert_eq!(f.display(5), "\u{f15c} …  1.5K");
    let u = file("éé", 1);
    assert!(!u.displayable(12));
    assert!(u.displayable(11));
    assert!(u.displayable(14));
}
