use std::path::{Path, PathBuf};

use oc::path::{file_name, join, join_name, parent};
use oc::text::{bytes_of, copied, shown};

fn all_paths() -> Vec<String> {
    let mut all = vec![String::new()];
    let mut layer = vec![String::new()];
    for _ in 0..8 {
        let mut next = Vec::new();
        for s in &layer {
            for c in ['/', '.', 'a'] {
                let mut t = s.clone();
                t.push(c);
                next.push(t);
            }
        }
        all.extend(next.iter().cloned());
        layer = next;
    }
    all
}

#[test]
fn parents_and_names_agree_with_std() {
    for s in all_paths() {
        let p = Path::new(&s);
        assert_eq!(
            parent(s.as_bytes()),
            p.parent().map(|q| q.display().to_string().into_bytes()),
            "{:?}",
            s
        );
        assert_eq!(
            file_name(s.as_bytes()),
            p.file_name().map(|n| n.to_string_lossy().into_owned().into_bytes()),
            "{:?}",
            s
        );
    }
}

#[test]
fn joins_agree_with_std() {
    for dir in ["", "/", "a", "a/", "/a//", ".", "é"] {
        for name in ["", "b", "/b", "..", "b/c", "."] {
            let want = PathBuf::from(dir).join(name).display().to_string();
            assert_eq!(join(dir.as_bytes(), name.as_bytes()), want.as_bytes());
            assert_eq!(join_name(dir.as_bytes(), name), want.as_bytes());
        }
    }
}

#[test]
fn joined_name_is_the_last_name() {
    let p = join_name(b"/home/u", "file.txt");
    assert_eq!(p, b"/home/u/file.txt");
    assert_eq!(file_name(&p), Some(b"file.txt".to_vec()));
    assert_eq!(parent(&p), Some(b"/home/u".to_vec()));
}

#[test]
fn root_has_no_parent() {
    assert_eq!(parent(b"/"), None);
    assert_eq!(file_name(b"/"), None);
    assert_eq!(parent(b""), None);
    assert_eq!(parent(b"/a"), Some(b"/".to_vec()));
    assert_eq!(parent(b"a"), Some(b"".to_vec()));
}

#[test]
fn paths_need_not_be_text() {
    let p = join_name(&[b'/', 0xff], "é");
    assert_eq!(p, vec![b'/', 0xff, b'/', 0xc3, 0xa9]);
    assert_eq!(parent(&p), Some(vec![b'/', 0xff]));
    assert_eq!(file_name(&[b'/', 0xff]), Some(vec![0xff]));
    assert_eq!(shown(&p), "/\u{fffd}/é");
    assert_eq!(shown("aé…".as_bytes()), "aé…");
    assert_eq!(shown(&[0xe2, 0x80]), "\u{fffd}");
    assert_eq!(bytes_of("é"), vec![0xc3, 0xa9]);
    assert_eq!(copied(&[1, 0xff]), vec![1, 0xff]);
}
