use oc::attempts::{next_attempt, Attempt};
use oc::copying::{CopyWork, Outcome, Task};
use oc::entry::FileEntry;
use oc::fileops::{
    confirmed_delete, delete_answer, error_text, go_to_target, goto_answer, mkdir_answer,
    move_step, op_copy, op_delete, op_edit, op_goto, op_mkdir, op_move, op_rename, op_view,
    rename_answer, transfer_answer, MoveStage, MoveStep, Plan,
};
use oc::mount::{
    config_candidates, is_mounted, list_rclone_remotes, listing_args, mount_args, mount_point,
    mounting_text, navigate_right_to, op_rclone_mount, pick_remote, rclone_config_flag,
    remotes_of, unmount_all, Arrival, MountEvent, MountStage, MountStep,
};
use oc::pane::{LocalPane, Pane, Panes, RemotePane};

fn local(path: &str) -> Pane {
    let items = vec![
        FileEntry { name: "dir".to_string(), is_dir: true, size: 0 },
        FileEntry { name: "x".to_string(), is_dir: false, size: 1 },
        FileEntry { name: "y".to_string(), is_dir: false, size: 1 },
    ];
    Pane::Local(LocalPane::new(path.as_bytes().to_vec(), items))
}

fn remote() -> Pane {
    let f = FileEntry { name: "f".to_string(), is_dir: false, size: 1 };
    Pane::Remote(RemotePane::new("h".to_string(), "/".to_string(), vec![f]))
}

fn some(s: &str) -> Option<String> {
    Some(s.to_string())
}

fn notice(p: Plan) -> String {
    match p {
        Plan::Notice(s) => s,
        _ => panic!(),
    }
}

fn asked(p: Plan) -> (String, String) {
    match p {
        Plan::Ask(l, d) => (l, d),
        _ => panic!(),
    }
}

fn text(b: &[u8]) -> String {
    String::from_utf8(b.to_vec()).unwrap()
}

fn pair(a: &str, b: &str) -> (String, String) {
    (a.to_string(), b.to_string())
}

#[test]
fn renaming() {
    let mut p = local("/home");
    assert!(matches!(op_rename(&p), Plan::Nothing));
    *p.cursor_mut() = 2;
    assert_eq!(asked(op_rename(&p)), pair("Rename to", "x"));
    let t = rename_answer(&p, &some("z")).unwrap();
    assert_eq!((t.from, t.to), (b"/home/x".to_vec(), b"/home/z".to_vec()));
    assert!(rename_answer(&p, &some("x")).is_none());
    assert!(rename_answer(&p, &some("")).is_none());
    assert!(rename_answer(&p, &None).is_none());
    assert_eq!(notice(op_rename(&remote())), " Remote rename not supported");
    assert!(rename_answer(&remote(), &some("z")).is_none());
    let empty = Pane::Local(LocalPane::new(b"/".to_vec(), vec![]));
    assert!(matches!(op_rename(&empty), Plan::Nothing));
}

#[test]
fn copying_one_name() {
    let mut s = local("/a");
    let d = local("/b");
    assert!(matches!(op_copy(&s, &d), Plan::Nothing));
    assert!(transfer_answer(&s, &d, &some("/t")).is_none());
    *s.cursor_mut() = 3;
    assert_eq!(asked(op_copy(&s, &d)), pair("Copy to", "/b/y"));
    let t = transfer_answer(&s, &d, &some("/b/new")).unwrap();
    assert_eq!(t.len(), 1);
    assert_eq!((text(&t[0].from), text(&t[0].to)), pair("/a/y", "/b/new"));
    assert!(transfer_answer(&s, &d, &some("")).is_none());
    assert!(transfer_answer(&s, &d, &None).is_none());
}

#[test]
fn moving_several_names() {
    let mut s = local("/a");
    let d = local("/b");
    s.select_all();
    assert_eq!(asked(op_move(&s, &d)), pair("Move to", "/b"));
    let t = transfer_answer(&s, &d, &some("/b")).unwrap();
    let got: Vec<(String, String)> = t.iter().map(|t| (text(&t.from), text(&t.to))).collect();
    assert_eq!(got, vec![
        pair("/a/dir", "/b/dir"),
        pair("/a/x", "/b/x"),
        pair("/a/y", "/b/y"),
    ]);
}

#[test]
fn names_in_a_path_that_is_no_text() {
    let f = FileEntry { name: "x".to_string(), is_dir: false, size: 1 };
    let mut p = Pane::Local(LocalPane::new(vec![b'/', 0xff], vec![f]));
    *p.cursor_mut() = 1;
    let mut d = local("/b");
    d.select_all();
    assert_eq!(asked(op_goto(&p)), pair("Go to", "/\u{fffd}"));
    assert_eq!(asked(op_copy(&d, &p)), pair("Copy to", "/\u{fffd}"));
    let t = transfer_answer(&p, &d, &some("/b/x")).unwrap();
    assert_eq!(t[0].from, vec![b'/', 0xff, b'/', b'x']);
    assert_eq!(delete_answer(&p, &some("y")), Some(vec![vec![b'/', 0xff, b'/', b'x']]));
    assert_eq!(mkdir_answer(&p, &some("n")), Some(vec![b'/', 0xff, b'/', b'n']));
    assert_eq!(op_view(&p, &None).unwrap().path, "/\u{fffd}/x");
}

#[test]
fn remote_panes_are_not_worked_on() {
    let l = local("/a");
    assert_eq!(notice(op_copy(&l, &remote())), " Remote copy not supported");
    assert_eq!(notice(op_copy(&remote(), &l)), " Remote copy not supported");
    assert_eq!(notice(op_move(&remote(), &l)), " Remote move not supported");
    assert_eq!(notice(op_delete(&remote())), " Remote delete not supported");
    assert_eq!(notice(op_mkdir(&remote())), " Remote mkdir not supported");
    assert_eq!(notice(op_goto(&remote())), " Use ← → to navigate remote pane");
    assert!(transfer_answer(&remote(), &l, &some("/t")).is_none());
    assert!(op_view(&remote(), &None).is_none());
}

#[test]
fn only_the_way_up_selected_is_nothing() {
    let mut p = local("/a");
    p.toggle_sel(0);
    *p.cursor_mut() = 1;
    assert!(matches!(op_delete(&p), Plan::Nothing));
    assert!(confirmed_delete(&p, "y").is_none());
}

#[test]
fn deleting_is_confirmed() {
    let mut p = local("/a");
    *p.cursor_mut() = 2;
    assert_eq!(asked(op_delete(&p)), pair("Delete 'x'? [y/N]", ""));
    assert_eq!(delete_answer(&p, &some("Y")), Some(vec![b"/a/x".to_vec()]));
    assert_eq!(delete_answer(&p, &some("y")), Some(vec![b"/a/x".to_vec()]));
    assert_eq!(confirmed_delete(&p, "y"), Some(vec![b"/a/x".to_vec()]));
    assert_eq!(confirmed_delete(&p, "Y"), None);
    assert_eq!(delete_answer(&p, &some("yes")), None);
    for c in '\0'..='\x7f' {
        let confirmed = delete_answer(&p, &Some(c.to_string())).is_some();
        assert_eq!(confirmed, c == 'y' || c == 'Y');
    }
    assert_eq!(delete_answer(&p, &some("")), None);
    assert_eq!(delete_answer(&p, &None), None);
    p.select_all();
    assert_eq!(asked(op_delete(&p)), pair("Delete 3 items? [y/N]", ""));
    assert_eq!(delete_answer(&p, &some("y")).unwrap().len(), 3);
    assert_eq!(delete_answer(&remote(), &some("y")), None);
}

#[test]
fn making_a_directory() {
    let p = local("/a");
    assert_eq!(asked(op_mkdir(&p)), pair("New directory", ""));
    assert_eq!(mkdir_answer(&p, &some("n/m")), Some(b"/a/n/m".to_vec()));
    assert_eq!(mkdir_answer(&p, &some("/abs")), Some(b"/abs".to_vec()));
    assert_eq!(mkdir_answer(&p, &some("")), None);
    assert_eq!(mkdir_answer(&p, &None), None);
    assert_eq!(mkdir_answer(&remote(), &some("x")), None);
}

#[test]
fn going_to_a_path() {
    let p = local("/a");
    assert_eq!(asked(op_goto(&p)), pair("Go to", "/a"));
    assert_eq!(goto_answer(&some("/t")), some("/t"));
    assert_eq!(goto_answer(&some("")), None);
    assert_eq!(goto_answer(&None), None);
    let mut lp = LocalPane::new(b"/a".to_vec(), vec![]);
    lp.list.offset = 3;
    assert_eq!(
        go_to_target(&mut lp, "/f".to_string(), false, None),
        some(" Not a directory: /f")
    );
    assert_eq!((text(&lp.path), lp.list.offset), ("/a".to_string(), 3));
    let canonical = Some(b"/t".to_vec());
    assert_eq!(go_to_target(&mut lp, "/t/.".to_string(), true, canonical), None);
    assert_eq!((text(&lp.path), lp.list.offset), ("/t".to_string(), 0));
    assert_eq!(go_to_target(&mut lp, "/u".to_string(), true, None), None);
    assert_eq!(lp.path, b"/u");
}

#[test]
fn viewing_and_editing() {
    let mut p = local("/a");
    assert!(op_view(&p, &None).is_none());
    *p.cursor_mut() = 1;
    assert!(op_edit(&p, &None).is_none());
    *p.cursor_mut() = 2;
    let v = op_view(&p, &None).unwrap();
    assert_eq!((v.program, v.path), pair("less", "/a/x"));
    let v = op_view(&p, &some("more")).unwrap();
    assert_eq!(v.program, "more");
    let e = op_edit(&p, &None).unwrap();
    assert_eq!((e.program, e.path), pair("vi", "/a/x"));
    assert_eq!(op_edit(&p, &some("nano")).unwrap().program, "nano");
    assert_eq!(error_text("no"), " Error: no");
}

#[test]
fn moving_falls_back_to_copying() {
    assert_eq!(move_step(MoveStage::Rename, true), MoveStep::Done);
    assert_eq!(move_step(MoveStage::Rename, false), MoveStep::Go(MoveStage::Copy));
    assert_eq!(move_step(MoveStage::Copy, true), MoveStep::Go(MoveStage::Remove));
    assert_eq!(move_step(MoveStage::Copy, false), MoveStep::Fail);
    assert_eq!(move_step(MoveStage::Remove, true), MoveStep::Done);
    assert_eq!(move_step(MoveStage::Remove, false), MoveStep::Fail);
}

fn copy_tree(
    disk: &dyn Fn(&[u8]) -> Option<Vec<Vec<u8>>>,
    fail_at: &str,
    complete: bool,
) -> (Vec<String>, bool) {
    let mut w = CopyWork::new(b"/s".to_vec(), b"/t".to_vec());
    let mut log = Vec::new();
    loop {
        let e = match w.next() {
            None => return (log, true),
            Some(Task::Fail) => return (log, false),
            Some(Task::Inspect(j)) => Outcome::Kind { is_dir: disk(&j.from).is_some() },
            Some(Task::Make(j)) => {
                log.push(format!("mkdir {}", text(&j.to)));
                Outcome::Did { ok: text(&j.to) != fail_at }
            }
            Some(Task::List(j)) => {
                if text(&j.from) == fail_at {
                    Outcome::Did { ok: false }
                } else {
                    Outcome::Names { names: disk(&j.from).unwrap(), complete }
                }
            }
            Some(Task::File(j)) => {
                log.push(format!("cp {} {}", text(&j.from), text(&j.to)));
                Outcome::Did { ok: text(&j.to) != fail_at }
            }
        };
        w.copy_rec(e);
    }
}

fn small_disk(path: &[u8]) -> Option<Vec<Vec<u8>>> {
    match path {
        b"/s" => Some(vec![b"a".to_vec(), b"d".to_vec(), b"z".to_vec()]),
        b"/s/d" => Some(vec![b"b".to_vec(), b"e".to_vec()]),
        b"/s/d/e" => Some(vec![]),
        _ => None,
    }
}

#[test]
fn trees_are_copied_whole() {
    let (log, ok) = copy_tree(&small_disk, "", true);
    assert!(ok);
    assert_eq!(log, vec![
        "mkdir /t",
        "cp /s/a /t/a",
        "mkdir /t/d",
        "cp /s/d/b /t/d/b",
        "mkdir /t/d/e",
        "cp /s/z /t/z",
    ]);
    let (log, ok) = copy_tree(&|_| None, "", true);
    assert!(ok);
    assert_eq!(log, vec!["cp /s /t"]);
}

#[test]
fn copying_stops_at_a_failure() {
    let (log, ok) = copy_tree(&small_disk, "/t/d/b", true);
    assert!(!ok);
    assert_eq!(log.last().unwrap(), "cp /s/d/b /t/d/b");
    let (log, ok) = copy_tree(&small_disk, "/t", true);
    assert_eq!((log.len(), ok), (1, false));
    let (log, ok) = copy_tree(&small_disk, "/s/d", true);
    assert!(!ok);
    assert_eq!(log.last().unwrap(), "mkdir /t/d");
    let (log, ok) = copy_tree(&small_disk, "", false);
    assert!(!ok);
    assert_eq!(log.last().unwrap(), "mkdir /t/d/e");
}

#[test]
fn copying_joins_bytes() {
    let mut w = CopyWork::new(b"/".to_vec(), b"".to_vec());
    w.copy_rec(Outcome::Kind { is_dir: true });
    w.copy_rec(Outcome::Did { ok: true });
    w.copy_rec(Outcome::Names { names: vec![vec![0xff, 0xfe]], complete: true });
    match w.next() {
        Some(Task::Inspect(j)) => {
            assert_eq!(j.from, vec![b'/', 0xff, 0xfe]);
            assert_eq!(j.to, vec![0xff, 0xfe]);
        }
        _ => panic!(),
    }
}

#[test]
fn rclone_configuration_is_sought() {
    let c = config_candidates(&some("/e"), "/home/u");
    assert_eq!(c, vec![
        "/e",
        "/home/u/git/conf/rclone.conf",
        "/home/u/.config/rclone/rclone.conf",
        "/home/u/.rclone.conf",
    ]);
    assert_eq!(config_candidates(&None, "").len(), 3);
    assert_eq!(rclone_config_flag(&c, &vec![false, false, true, true]), some(c[2].as_str()));
    assert_eq!(rclone_config_flag(&c, &vec![true, true, true, true]), some("/e"));
    assert_eq!(rclone_config_flag(&c, &vec![false; 4]), None);
    assert_eq!(listing_args(&None), vec!["listremotes"]);
    assert_eq!(listing_args(&some("/e")), vec!["listremotes", "--config", "/e"]);
}

#[test]
fn rclone_remotes_are_listed() {
    assert_eq!(list_rclone_remotes(b"drive:\nbox::\n:\n\nplain"), vec!["drive", "box", "plain"]);
    assert_eq!(list_rclone_remotes(b"a\xff:\n"), vec!["a\u{fffd}"]);
    assert_eq!(remotes_of("é:\n\nb"), vec!["é", "b"]);
    assert!(list_rclone_remotes(b"").is_empty());
    let p = pick_remote(vec!["drive".to_string()]).ok().unwrap();
    assert_eq!((p.title.as_str(), p.cursor), ("rclone Remotes", 0));
    assert_eq!(
        pick_remote(vec![]).err(),
        some(" No rclone remotes found (is rclone installed and configured?)")
    );
}

#[test]
fn mounts_are_found_in_the_table() {
    let table = "proc /proc proc rw 0 0\ndrive: /tmp/oc-drive fuse.rclone rw 0 0\nshort\n";
    assert!(is_mounted(table, "/tmp/oc-drive"));
    assert!(is_mounted(table, "/proc"));
    assert!(!is_mounted(table, "proc"));
    assert!(!is_mounted(table, "/tmp/oc"));
    assert!(!is_mounted("", "/proc"));
    assert_eq!(mount_point("drive"), "/tmp/oc-drive");
    assert_eq!(mounting_text("drive"), " Mounting drive...");
    assert_eq!(mount_args("drive", &some("/c")), vec![
        "mount",
        "drive:",
        "/tmp/oc-drive",
        "--vfs-cache-mode",
        "writes",
        "--config",
        "/c",
    ]);
}

fn failure(s: MountStep) -> String {
    match s {
        MountStep::Fail(e) => e,
        _ => panic!(),
    }
}

#[test]
fn mounting_step_by_step() {
    use_step(MountStage::Check, MountEvent::Mounted(false), MountStage::Create);
    use_step(MountStage::Create, MountEvent::Did(None), MountStage::Start);
    use_step(MountStage::Start, MountEvent::Did(None), MountStage::Wait(0));
    use_step(MountStage::Wait(98), MountEvent::Mounted(false), MountStage::Wait(99));
    let r = op_rclone_mount("d", MountStage::Check, &MountEvent::Mounted(true));
    assert!(matches!(r, MountStep::Arrive { new: false }));
    let r = op_rclone_mount("d", MountStage::Wait(99), &MountEvent::Mounted(true));
    assert!(matches!(r, MountStep::Arrive { new: true }));
    let r = op_rclone_mount("d", MountStage::Wait(99), &MountEvent::Mounted(false));
    assert_eq!(failure(r), " Timeout waiting for d to mount");
    let r = op_rclone_mount("d", MountStage::Create, &MountEvent::Did(some("x")));
    assert_eq!(failure(r), " Cannot create mountpoint: x");
    let r = op_rclone_mount("d", MountStage::Start, &MountEvent::Did(some("x")));
    assert_eq!(failure(r), " rclone spawn failed: x");
}

fn use_step(stage: MountStage, e: MountEvent, next: MountStage) {
    match op_rclone_mount("d", stage, &e) {
        MountStep::Go(s) => assert_eq!(s, next),
        _ => panic!(),
    }
}

#[test]
fn mounting_waits_a_hundred_times() {
    let mut stage = MountStage::Wait(0);
    let mut polls = 0;
    loop {
        polls += 1;
        match op_rclone_mount("d", stage, &MountEvent::Mounted(false)) {
            MountStep::Go(s) => stage = s,
            _ => break,
        }
    }
    assert_eq!(polls, 100);
}

#[test]
fn right_pane_goes_to_the_mount() {
    let mut panes = Panes { left: local("/l"), right: local("/r") };
    *panes.right.cursor_mut() = 2;
    assert!(matches!(navigate_right_to(&mut panes, "/tmp/oc-d"), Arrival::List));
    assert_eq!((panes.right.title().as_str(), panes.right.cursor()), ("/tmp/oc-d", 0));
    let mut panes = Panes { left: local("/l"), right: remote() };
    match navigate_right_to(&mut panes, "/tmp/oc-d") {
        Arrival::Open(p) => assert_eq!(p, "/tmp/oc-d"),
        _ => panic!(),
    }
    assert!(panes.right.is_remote());
}

#[test]
fn attempts_stop_at_the_first_success() {
    assert_eq!(next_attempt(3, &vec![]), Attempt::Make(0));
    assert_eq!(next_attempt(3, &vec![false]), Attempt::Make(1));
    assert_eq!(next_attempt(3, &vec![false, true]), Attempt::Succeeded(1));
    assert_eq!(next_attempt(3, &vec![false; 3]), Attempt::Failed);
    assert_eq!(next_attempt(0, &vec![]), Attempt::Failed);
    let would = [false, false, true, true];
    let mut outcomes = Vec::new();
    loop {
        match next_attempt(would.len(), &outcomes) {
            Attempt::Make(i) => outcomes.push(would[i]),
            other => {
                assert_eq!(other, Attempt::Succeeded(2));
                break;
            }
        }
    }
    assert_eq!(outcomes.len(), 3);
}

#[test]
fn unmounting_tries_three_commands() {
    let c = unmount_all(&vec!["/tmp/oc-a".to_string(), "/tmp/oc-b".to_string()]);
    assert_eq!(c.len(), 2);
    assert_eq!(c[1], vec![
        vec!["fusermount3", "-u", "/tmp/oc-b"],
        vec!["fusermount", "-u", "/tmp/oc-b"],
        vec!["umount", "/tmp/oc-b"],
    ]);
}
