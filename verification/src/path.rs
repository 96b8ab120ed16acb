//! Paths as bytes, by the rules of Unix: names between slashes.
//!
//! Slashes that repeat, a slash at the end, and the name `.` anywhere but at the
//! start, mean nothing.

use vstd::prelude::*;
use vstd::utf8::encode_utf8;

use crate::scan::{last_at, lemma_last_at};
use crate::text::copied;

verus! {

/// The byte of a slash.
pub const SLASH: u8 = 0x2f;

/// The byte of a full stop.
pub const DOT: u8 = 0x2e;

/// `p` without the slashes and the names `.` at its end that mean nothing.
pub open spec fn tidy_end(p: Seq<u8>) -> Seq<u8>
    decreases p.len(),
{
    if p.len() > 1 && p.last() == SLASH {
        tidy_end(p.drop_last())
    } else if p.len() > 1 && p.last() == DOT && p[p.len() - 2] == SLASH {
        tidy_end(p.drop_last())
    } else {
        p
    }
}

/// The path without its last name; nothing for the root and for the empty path.
pub open spec fn parent_of(p: Seq<u8>) -> Option<Seq<u8>> {
    let t = tidy_end(p);
    if t.len() == 0 || t == seq![SLASH] {
        None
    } else {
        match last_at(t, SLASH) {
            Some(i) => Some(
                if i == 0 {
                    seq![SLASH]
                } else {
                    tidy_end(t.take(i))
                },
            ),
            None => Some(Seq::empty()),
        }
    }
}

/// The last name of the path; nothing where that is `.` or `..`, or where there
/// is none.
pub open spec fn leaf_of(p: Seq<u8>) -> Option<Seq<u8>> {
    let t = tidy_end(p);
    let name = match last_at(t, SLASH) {
        Some(i) => t.skip(i + 1),
        None => t,
    };
    if name.len() == 0 || name == seq![DOT] || name == seq![DOT, DOT] {
        None
    } else {
        Some(name)
    }
}

/// `name` below `dir`. A name that starts with a slash is a path of its own.
pub open spec fn joined(dir: Seq<u8>, name: Seq<u8>) -> Seq<u8> {
    if name.len() > 0 && name[0] == SLASH {
        name
    } else if dir.len() == 0 || dir.last() == SLASH {
        dir + name
    } else {
        dir.push(SLASH) + name
    }
}

/// Whether `name` can name a file in a directory.
pub open spec fn is_plain_name(name: Seq<u8>) -> bool {
    &&& name.len() > 0
    &&& forall|i: int| 0 <= i < name.len() ==> #[trigger] name[i] != SLASH
    &&& name != seq![DOT]
    &&& name != seq![DOT, DOT]
}

/// The text of an optional string.
pub open spec fn text_view(s: Option<String>) -> Option<Seq<char>> {
    match s {
        Some(t) => Some(t@),
        None => None,
    }
}

/// The content of optional bytes.
pub open spec fn bytes_view(b: Option<Vec<u8>>) -> Option<Seq<u8>> {
    match b {
        Some(v) => Some(v@),
        None => None,
    }
}

/// Finds the last slash.
fn find_slash(s: &[u8]) -> (r: Option<usize>)
    ensures
        match r {
            Some(i) => last_at(s@, SLASH) == Some(i as int),
            None => last_at(s@, SLASH) is None,
        },
        r matches Some(i) ==> i < s@.len(),
{
    let mut n: usize = s.len();
    assert(s@.take(n as int) =~= s@);
    while n > 0
        invariant
            n <= s@.len(),
            last_at(s@.take(n as int), SLASH) == last_at(s@, SLASH),
        decreases n,
    {
        if s[n - 1] == SLASH {
            return Some(n - 1);
        }
        assert(s@.take(n as int).drop_last() =~= s@.take(n - 1));
        n -= 1;
    }
    None
}

/// How long the path is without what means nothing at its end.
fn tidy_len(p: &[u8]) -> (n: usize)
    ensures
        n <= p@.len(),
        p@.take(n as int) == tidy_end(p@),
{
    let mut n: usize = p.len();
    assert(p@.take(n as int) =~= p@);
    while n > 1 && (p[n - 1] == SLASH || (p[n - 1] == DOT && p[n - 2] == SLASH))
        invariant
            n <= p@.len(),
            tidy_end(p@.take(n as int)) == tidy_end(p@),
        decreases n,
    {
        assert(p@.take(n as int).drop_last() =~= p@.take(n - 1));
        n -= 1;
    }
    n
}

/// The path without its last name.
pub fn parent(p: &[u8]) -> (r: Option<Vec<u8>>)
    ensures
        bytes_view(r) == parent_of(p@),
{
    let n = tidy_len(p);
    let t = vstd::slice::slice_subrange(p, 0, n);
    assert(t@ =~= tidy_end(p@));
    if n == 0 {
        return None;
    }
    if n == 1 && t[0] == SLASH {
        assert(t@ =~= seq![SLASH]);
        return None;
    }
    assert(t@ != seq![SLASH]) by {
        if t@ == seq![SLASH] {
            assert(t@.len() == 1 && t@[0] == SLASH);
        }
    }
    match find_slash(t) {
        Some(i) => {
            if i == 0 {
                let mut r: Vec<u8> = Vec::new();
                r.push(SLASH);
                assert(r@ =~= seq![SLASH]);
                Some(r)
            } else {
                let q = vstd::slice::slice_subrange(t, 0, i);
                assert(q@ =~= t@.take(i as int));
                let k = tidy_len(q);
                let r = copied(vstd::slice::slice_subrange(q, 0, k));
                assert(r@ =~= tidy_end(t@.take(i as int)));
                Some(r)
            }
        },
        None => Some(Vec::new()),
    }
}

/// The last name of the path.
pub fn file_name(p: &[u8]) -> (r: Option<Vec<u8>>)
    ensures
        bytes_view(r) == leaf_of(p@),
{
    let n = tidy_len(p);
    let t = vstd::slice::slice_subrange(p, 0, n);
    assert(t@ =~= tidy_end(p@));
    proof {
        lemma_last_at(t@, SLASH);
    }
    let start: usize = match find_slash(t) {
        Some(i) => i + 1,
        None => 0,
    };
    let name = vstd::slice::slice_subrange(t, start, n);
    let ghost want = match last_at(t@, SLASH) {
        Some(i) => t@.skip(i + 1),
        None => t@,
    };
    assert(name@ =~= want);
    let m = name.len();
    assert((m == 1 && name@[0] == DOT) == (name@ == seq![DOT])) by {
        if m == 1 && name@[0] == DOT {
            assert(name@ =~= seq![DOT]);
        }
    }
    assert((m == 2 && name@[0] == DOT && name@[1] == DOT) == (name@ == seq![DOT, DOT])) by {
        if m == 2 && name@[0] == DOT && name@[1] == DOT {
            assert(name@ =~= seq![DOT, DOT]);
        }
    }
    if m == 0 || (m == 1 && name[0] == DOT) || (m == 2 && name[0] == DOT && name[1] == DOT) {
        None
    } else {
        Some(copied(name))
    }
}

/// `name` below `dir`.
pub fn join(dir: &[u8], name: &[u8]) -> (r: Vec<u8>)
    ensures
        r@ == joined(dir@, name@),
{
    if name.len() > 0 && name[0] == SLASH {
        return copied(name);
    }
    let mut r = copied(dir);
    if dir.len() > 0 && dir[dir.len() - 1] != SLASH {
        r.push(SLASH);
    }
    r.extend_from_slice(name);
    assert(r@ =~= joined(dir@, name@));
    r
}

/// The entry `name` below `dir`.
pub open spec fn named(dir: Seq<u8>, name: Seq<char>) -> Seq<u8> {
    joined(dir, encode_utf8(name))
}

/// The entry `name` below `dir`.
pub fn join_name(dir: &[u8], name: &str) -> (r: Vec<u8>)
    ensures
        r@ == named(dir@, name@),
{
    join(dir, name.as_bytes())
}

/// What was joined to a directory is the last name of the result, and the
/// directory is its parent, without what means nothing at its end.
pub proof fn joined_name_is_found_again(dir: Seq<u8>, name: Seq<u8>)
    requires
        is_plain_name(name),
    ensures
        leaf_of(joined(dir, name)) == Some(name),
        parent_of(joined(dir, name)) == Some(tidy_end(dir)),
{
    let p = joined(dir, name);
    let k = p.len() - name.len();
    assert forall|i: int| 0 <= i < name.len() implies p[k + i] == #[trigger] name[i] by {}
    assert(p.last() == name.last());
    assert(name[name.len() - 1] != SLASH);
    if p.len() > 1 && p.last() == DOT && p[p.len() - 2] == SLASH {
        if name.len() == 1 {
            assert(name =~= seq![DOT]);
        } else {
            assert(p[p.len() - 2] == name[name.len() - 2]);
        }
        assert(false);
    }
    assert(tidy_end(p) == p);
    lemma_last_at(p, SLASH);
    assert(p.skip(k) =~= name);
    assert(p != seq![SLASH]) by {
        if p == seq![SLASH] {
            assert(p.last() == SLASH);
        }
    }
    if dir.len() == 0 {
        assert(p =~= name);
        match last_at(p, SLASH) {
            Some(i) => {
                assert(name[i] != SLASH);
            },
            None => {},
        }
        assert(dir =~= Seq::<u8>::empty());
    } else {
        assert(p[k - 1] == SLASH);
        match last_at(p, SLASH) {
            Some(i) => {
                if i > k - 1 {
                    assert(p[i] == name[i - k]);
                }
                assert(i == k - 1);
                if dir.last() != SLASH {
                    assert(p.take(i) =~= dir);
                } else if dir.len() == 1 {
                    assert(dir =~= seq![SLASH]);
                } else {
                    assert(p.take(i) =~= dir.drop_last());
                }
            },
            None => {},
        }
    }
}

/// A path that was tidied stays as it is, and has the same parent and the same
/// last name.
pub proof fn tidying_again_changes_nothing(p: Seq<u8>)
    ensures
        tidy_end(tidy_end(p)) == tidy_end(p),
        parent_of(tidy_end(p)) == parent_of(p),
        leaf_of(tidy_end(p)) == leaf_of(p),
    decreases p.len(),
{
    if p.len() > 1 && (p.last() == SLASH || (p.last() == DOT && p[p.len() - 2] == SLASH)) {
        tidying_again_changes_nothing(p.drop_last());
    }
}

/// A name that does not start with a slash stands whole at the end of the joined
/// path, after the whole directory; between them is a slash if the directory does
/// not end in one, and nothing else. A name that does replaces the directory.
pub proof fn joining_keeps_both_parts(dir: Seq<u8>, name: Seq<u8>)
    ensures
        name.len() > 0 && name[0] == 0x2f ==> joined(dir, name) == name,
        name.len() == 0 || name[0] != 0x2f ==> ({
            let p = joined(dir, name);
            let k = p.len() - name.len();
            &&& p.len() >= dir.len() + name.len()
            &&& p.take(dir.len() as int) == dir
            &&& p.skip(k) == name
            &&& k > 0 ==> p[k - 1] == 0x2f
            &&& k == dir.len() || (k == dir.len() + 1 && dir.last() != 0x2f)
            &&& k == 0 <==> dir.len() == 0
        }),
{
    let p = joined(dir, name);
    if name.len() == 0 || name[0] != 0x2f {
        assert(p.take(dir.len() as int) =~= dir);
        assert(p.skip(p.len() - name.len()) =~= name);
    }
}

/// A name of characters is joined as the bytes that encode it: below a directory
/// with no slash at its end the path is the directory, a slash and those bytes.
pub proof fn named_entry_is_below(dir: Seq<u8>, name: Seq<char>)
    requires
        is_plain_name(encode_utf8(name)),
    ensures
        dir.len() > 0 && dir.last() != 0x2f ==> named(dir, name) == dir + seq![0x2fu8]
            + encode_utf8(name),
        dir.len() == 0 || dir.last() == 0x2f ==> named(dir, name) == dir + encode_utf8(name),
{
    assert(named(dir, name) =~= if dir.len() > 0 && dir.last() != 0x2f {
        dir + seq![0x2fu8] + encode_utf8(name)
    } else {
        dir + encode_utf8(name)
    });
}

/// Two names in one directory have the same path only if they are the same.
pub proof fn different_names_have_different_paths(dir: Seq<u8>, a: Seq<u8>, b: Seq<u8>)
    requires
        is_plain_name(a),
        is_plain_name(b),
        joined(dir, a) == joined(dir, b),
    ensures
        a == b,
{
    joined_name_is_found_again(dir, a);
    joined_name_is_found_again(dir, b);
}

/// A slash at the end of a path, or a slash and a full stop, means nothing.
pub proof fn end_of_no_meaning(p: Seq<u8>)
    requires
        p.len() > 0,
    ensures
        tidy_end(p + seq![0x2fu8]) == tidy_end(p),
        tidy_end(p + seq![0x2fu8, 0x2eu8]) == tidy_end(p),
        parent_of(p + seq![0x2fu8]) == parent_of(p),
        parent_of(p + seq![0x2fu8, 0x2eu8]) == parent_of(p),
        leaf_of(p + seq![0x2fu8]) == leaf_of(p),
        leaf_of(p + seq![0x2fu8, 0x2eu8]) == leaf_of(p),
{
    let a = p + seq![0x2fu8];
    let b = p + seq![0x2fu8, 0x2eu8];
    assert(a.drop_last() =~= p);
    assert(b.drop_last() =~= a);
    assert(tidy_end(b) == tidy_end(a));
}

/// Tidying cuts only at the end, and cuts only slashes and full stops; a path that
/// ends in neither is left as it is, and so is the root.
pub proof fn tidying_cuts_only_the_end(p: Seq<u8>)
    ensures
        tidy_end(p).len() <= p.len(),
        tidy_end(p) == p.take(tidy_end(p).len() as int),
        forall|i: int|
            tidy_end(p).len() <= i < p.len() ==> #[trigger] p[i] == 0x2f || p[i] == 0x2e,
        p.len() > 0 ==> tidy_end(p).len() > 0,
        p.len() > 0 && p.last() != 0x2f && p.last() != 0x2e ==> tidy_end(p) == p,
        p.len() > 1 && p.last() == 0x2e && p[p.len() - 2] != 0x2f ==> tidy_end(p) == p,
        tidy_end(p).len() > 1 ==> tidy_end(p).last() != 0x2f,
        tidy_end(seq![0x2fu8]) == seq![0x2fu8],
    decreases p.len(),
{
    let t = tidy_end(p);
    if p.len() > 1 && (p.last() == SLASH || (p.last() == DOT && p[p.len() - 2] == SLASH)) {
        let q = p.drop_last();
        tidying_cuts_only_the_end(q);
        assert(p.take(t.len() as int) =~= q.take(t.len() as int));
        assert forall|i: int| t.len() <= i < p.len() implies #[trigger] p[i] == 0x2f || p[i]
            == 0x2e by {
            if i < q.len() {
                assert(q[i] == p[i]);
            }
        }
    } else {
        assert(p.take(t.len() as int) =~= p);
    }
}

/// The root has no parent and no name, nor has the empty path; a plain name alone
/// is its own last name, below the empty path. What ends in `..` has no last name.
pub proof fn paths_of_one_part(name: Seq<u8>, dir: Seq<u8>)
    requires
        is_plain_name(name),
    ensures
        parent_of(seq![0x2fu8]) is None,
        leaf_of(seq![0x2fu8]) is None,
        parent_of(Seq::empty()) is None,
        leaf_of(Seq::empty()) is None,
        leaf_of(name) == Some(name),
        parent_of(name) == Some(Seq::<u8>::empty()),
        leaf_of(seq![0x2fu8] + name) == Some(name),
        parent_of(seq![0x2fu8] + name) == Some(seq![0x2fu8]),
        leaf_of(dir + seq![0x2fu8, 0x2eu8, 0x2eu8]) is None,
        parent_of(dir + seq![0x2fu8] + name) is Some,
{
    let root = seq![0x2fu8];
    let none = Seq::<u8>::empty();
    lemma_last_at(root, SLASH);
    lemma_last_at(none, SLASH);
    assert(root.len() == 1 && root[0] == SLASH);
    assert(last_at(root, SLASH) == Some(0int));
    assert(root.skip(1).len() == 0);
    joined_name_is_found_again(none, name);
    assert(joined(none, name) =~= name);
    joined_name_is_found_again(root, name);
    assert(joined(root, name) =~= root + name);
    joined_name_is_found_again(dir + root, name);
    assert(joined(dir + root, name) =~= dir + seq![0x2fu8] + name);
    let up = dir + seq![0x2fu8, 0x2eu8, 0x2eu8];
    let n = up.len() as int;
    assert(up[n - 1] == DOT && up[n - 2] == DOT && up[n - 3] == SLASH);
    assert(tidy_end(up) == up);
    lemma_last_at(up, SLASH);
    assert(last_at(up, SLASH) == Some(n - 3));
    assert(up.skip(n - 2) =~= seq![DOT, DOT]);
}

} // verus!
