//! The file `.netrc`: logins by machine.

use vstd::prelude::*;

use crate::scan::{
    is_word, joined_words_are_split_again, split_words, texts, with_blanks, words,
};
use crate::text::text_eq;

verus! {

/// One entry: a machine and how to log in there. The machine `*` stands for any.
pub struct NetrcEntry {
    pub machine: String,
    pub login: String,
    pub password: String,
}

/// The content of an entry.
#[verifier::ext_equal]
pub struct NetrcView {
    pub machine: Seq<char>,
    pub login: Seq<char>,
    pub password: Seq<char>,
}

impl View for NetrcEntry {
    type V = NetrcView;

    open spec fn view(&self) -> NetrcView {
        NetrcView { machine: self.machine@, login: self.login@, password: self.password@ }
    }
}

/// The contents of the entries.
pub open spec fn entry_views(v: Seq<NetrcEntry>) -> Seq<NetrcView> {
    v.map_values(|e: NetrcEntry| e@)
}

/// An entry for `machine` without a login.
pub open spec fn fresh_entry(machine: Seq<char>) -> NetrcView {
    NetrcView { machine, login: Seq::empty(), password: Seq::empty() }
}

/// The first word, or the empty text.
pub open spec fn first_word(w: Seq<Seq<char>>) -> Seq<char> {
    if w.len() > 0 {
        w[0]
    } else {
        Seq::empty()
    }
}

/// The open entry as the end of a list.
pub open spec fn closed_entry(open: Option<NetrcView>) -> Seq<NetrcView> {
    match open {
        Some(e) => seq![e],
        None => Seq::empty(),
    }
}

/// The entries that the words `w` spell, where `open` is the entry that the
/// words before them began. `machine` and `default` begin an entry; `machine`,
/// `login` and `password` each take the next word as their value, whatever it
/// is; other words mean nothing. A login or a password before the first entry
/// belongs to none, and one without a value changes nothing.
pub open spec fn entries_from(w: Seq<Seq<char>>, open: Option<NetrcView>) -> Seq<NetrcView>
    decreases w.len(),
{
    if w.len() == 0 {
        closed_entry(open)
    } else {
        let rest = w.skip(1);
        if w[0] == "machine"@ {
            closed_entry(open) + entries_from(
                rest.skip(if rest.len() > 0 {
                    1int
                } else {
                    0int
                }),
                Some(fresh_entry(first_word(rest))),
            )
        } else if w[0] == "default"@ {
            closed_entry(open) + entries_from(rest, Some(fresh_entry(seq!['*'])))
        } else if w[0] == "login"@ && rest.len() > 0 {
            entries_from(
                rest.skip(1),
                match open {
                    Some(e) => Some(NetrcView { login: rest[0], ..e }),
                    None => None,
                },
            )
        } else if w[0] == "password"@ && rest.len() > 0 {
            entries_from(
                rest.skip(1),
                match open {
                    Some(e) => Some(NetrcView { password: rest[0], ..e }),
                    None => None,
                },
            )
        } else {
            entries_from(rest, open)
        }
    }
}

/// The entries of a file with this text.
pub open spec fn netrc_entries(text: Seq<char>) -> Seq<NetrcView> {
    entries_from(words(text, false), None)
}

/// Reads the entries out of the text of the file.
pub fn load_netrc(text: &str) -> (out: Vec<NetrcEntry>)
    ensures
        entry_views(out@) == netrc_entries(text@),
{
    let toks = split_words(text, false);
    let ghost w = words(text@, false);
    let n = toks.len();
    let mut out: Vec<NetrcEntry> = Vec::new();
    let mut open: Option<NetrcEntry> = None;
    let mut i: usize = 0;
    assert(w.skip(0) =~= w);
    assert(entry_views(out@) + entries_from(w, None) =~= netrc_entries(text@));
    while i < n
        invariant
            n == toks@.len(),
            texts(toks@) == w,
            i <= n,
            entry_views(out@) + entries_from(w.skip(i as int), open_view(open)) == netrc_entries(
                text@,
            ),
        decreases n - i,
    {
        let ghost rest = w.skip(i as int);
        let ghost before = out@;
        let ghost was = open_view(open);
        let tok = toks[i].as_str();
        assert(tok@ == rest[0]);
        assert(rest.skip(1) =~= w.skip(i + 1));
        assert(i + 1 < n ==> toks@[i + 1]@ == rest.skip(1)[0]);
        assert(i + 1 < n ==> rest.skip(1).skip(1) =~= w.skip(i + 2));
        assert(i + 1 == n ==> rest.skip(1).skip(0) =~= w.skip(i + 1));
        if text_eq(tok, "machine") || text_eq(tok, "default") {
            match open {
                Some(e) => {
                    out.push(e);
                    assert(entry_views(out@) =~= entry_views(before) + closed_entry(was));
                },
                None => {
                    assert(entry_views(out@) =~= entry_views(before) + closed_entry(was));
                },
            }
            let mut machine = String::new();
            assert("machine"@ != "default"@) by {
                reveal_strlit("machine");
                reveal_strlit("default");
                assert("machine"@[0] == 'm' && "default"@[0] == 'd');
            }
            if text_eq(tok, "default") {
                machine.push('*');
                assert(machine@ =~= seq!['*']);
                i += 1;
            } else if i + 1 < n {
                machine = toks[i + 1].clone();
                i += 2;
            } else {
                i += 1;
            }
            let e = NetrcEntry { machine, login: String::new(), password: String::new() };
            open = Some(e);
            assert(entry_views(out@) + entries_from(w.skip(i as int), open_view(open))
                =~= entry_views(before) + entries_from(rest, was));
        } else if text_eq(tok, "login") && i + 1 < n {
            open = match open {
                Some(e) => Some(
                    NetrcEntry {
                        machine: e.machine,
                        login: toks[i + 1].clone(),
                        password: e.password,
                    },
                ),
                None => None,
            };
            i += 2;
        } else if text_eq(tok, "password") && i + 1 < n {
            open = match open {
                Some(e) => Some(
                    NetrcEntry {
                        machine: e.machine,
                        login: e.login,
                        password: toks[i + 1].clone(),
                    },
                ),
                None => None,
            };
            i += 2;
        } else {
            i += 1;
        }
    }
    assert(w.skip(n as int) =~= Seq::<Seq<char>>::empty());
    let ghost before = out@;
    let ghost was = open_view(open);
    match open {
        Some(e) => {
            out.push(e);
            assert(entry_views(out@) =~= entry_views(before) + closed_entry(was));
        },
        None => {
            assert(entry_views(out@) =~= entry_views(before) + closed_entry(was));
        },
    }
    out
}

/// The content of the open entry.
spec fn open_view(open: Option<NetrcEntry>) -> Option<NetrcView> {
    match open {
        Some(e) => Some(e@),
        None => None,
    }
}

/// Whether an entry is good for `host`.
pub open spec fn entry_fits(e: NetrcView, host: Seq<char>) -> bool {
    e.machine == host || e.machine == seq!['*']
}

/// The login and the password of the first entry that is good for `host`.
pub open spec fn creds_for(entries: Seq<NetrcView>, host: Seq<char>) -> Option<(
    Seq<char>,
    Seq<char>,
)>
    decreases entries.len(),
{
    if entries.len() == 0 {
        None
    } else if entry_fits(entries[0], host) {
        Some((entries[0].login, entries[0].password))
    } else {
        creds_for(entries.skip(1), host)
    }
}

/// The texts in a pair, if there is one.
pub open spec fn pair_view(p: Option<(String, String)>) -> Option<(Seq<char>, Seq<char>)> {
    match p {
        Some((a, b)) => Some((a@, b@)),
        None => None,
    }
}

/// Looks up the login and the password for `host`.
pub fn netrc_creds(entries: &Vec<NetrcEntry>, host: &str) -> (r: Option<(String, String)>)
    ensures
        pair_view(r) == creds_for(entry_views(entries@), host@),
{
    let ghost es = entry_views(entries@);
    let n = entries.len();
    let mut i: usize = 0;
    assert(es.skip(0) =~= es);
    while i < n
        invariant
            n == entries@.len(),
            es == entry_views(entries@),
            i <= n,
            creds_for(es.skip(i as int), host@) == creds_for(es, host@),
        decreases n - i,
    {
        let e = &entries[i];
        assert(es.skip(i as int)[0] == e@);
        assert(es.skip(i as int).skip(1) =~= es.skip(i + 1));
        assert("*"@ =~= seq!['*']) by {
            reveal_strlit("*");
        }
        if text_eq(e.machine.as_str(), host) || text_eq(e.machine.as_str(), "*") {
            return Some((e.login.clone(), e.password.clone()));
        }
        i += 1;
    }
    None
}

/// A `default` entry serves every host: where one is listed, a lookup succeeds.
pub proof fn default_entry_serves_every_host(entries: Seq<NetrcView>, i: int, host: Seq<char>)
    requires
        0 <= i < entries.len(),
        entries[i].machine == seq!['*'],
    ensures
        creds_for(entries, host) is Some,
    decreases i,
{
    if !entry_fits(entries[0], host) {
        default_entry_serves_every_host(entries.skip(1), i - 1, host);
    }
}

/// The words of an entry for one machine.
pub open spec fn entry_words(
    machine: Seq<char>,
    login: Seq<char>,
    password: Seq<char>,
) -> Seq<Seq<char>> {
    seq!["machine"@, machine, "login"@, login, "password"@, password]
}

/// What a file spells out for one machine is what a lookup of that machine gives.
pub proof fn spelled_entry_is_found(machine: Seq<char>, login: Seq<char>, password: Seq<char>)
    requires
        is_word(machine, false),
        is_word(login, false),
        is_word(password, false),
    ensures
        creds_for(
            netrc_entries(with_blanks(entry_words(machine, login, password))),
            machine,
        ) == Some((login, password)),
{
    reveal_strlit("machine");
    reveal_strlit("default");
    reveal_strlit("login");
    reveal_strlit("password");
    assert("machine"@[0] == 'm' && "default"@[0] == 'd' && "login"@[0] == 'l' && "password"@[0]
        == 'p');
    let w = entry_words(machine, login, password);
    assert forall|i: int| 0 <= i < w.len() implies is_word(#[trigger] w[i], false) by {}
    joined_words_are_split_again(w, false);
    let w2 = seq!["login"@, login, "password"@, password];
    let w4 = seq!["password"@, password];
    assert(w.skip(1).skip(1) =~= w2);
    assert(w2.skip(1).skip(1) =~= w4);
    assert(w4.skip(1).skip(1) =~= Seq::<Seq<char>>::empty());
    let e0 = fresh_entry(machine);
    let e1 = NetrcView { login, ..e0 };
    let e2 = NetrcView { password, ..e1 };
    assert(entries_from(w4, Some(e1)) == entries_from(Seq::empty(), Some(e2)));
    assert(entries_from(w2, Some(e0)) == entries_from(w4, Some(e1)));
    assert(entries_from(w, None) =~= seq![e2]);
}

/// A lookup gives the login and the password of the first entry for the host, or for
/// any host; where there is none, it gives nothing.
pub proof fn first_fitting_entry_is_taken(entries: Seq<NetrcView>, i: int, host: Seq<char>)
    requires
        0 <= i <= entries.len(),
        forall|j: int|
            0 <= j < i ==> (#[trigger] entries[j]).machine != host && entries[j].machine
                != seq!['*'],
    ensures
        i == entries.len() ==> creds_for(entries, host) is None,
        i < entries.len() && (entries[i].machine == host || entries[i].machine == seq!['*'])
            ==> creds_for(entries, host) == Some((entries[i].login, entries[i].password)),
    decreases i,
{
    if i > 0 {
        assert(entries[0].machine != host);
        let rest = entries.skip(1);
        assert forall|j: int| 0 <= j < i - 1 implies (#[trigger] rest[j]).machine != host
            && rest[j].machine != seq!['*'] by {
            assert(rest[j] == entries[j + 1]);
        }
        first_fitting_entry_is_taken(rest, i - 1, host);
    }
}

/// The words that spell an entry: any machine is spelled as `default`.
pub open spec fn spelled_entry(e: NetrcView) -> Seq<Seq<char>> {
    if e.machine == seq!['*'] {
        seq!["default"@, "login"@, e.login, "password"@, e.password]
    } else {
        seq!["machine"@, e.machine, "login"@, e.login, "password"@, e.password]
    }
}

/// The words that spell some entries, one after the other.
pub open spec fn spelled_entries(entries: Seq<NetrcView>) -> Seq<Seq<char>>
    decreases entries.len(),
{
    if entries.len() == 0 {
        Seq::empty()
    } else {
        spelled_entry(entries[0]) + spelled_entries(entries.skip(1))
    }
}

/// Entries that are spelled one after the other are read back, all of them and in
/// their order.
pub proof fn spelled_entries_are_read_back(entries: Seq<NetrcView>)
    requires
        forall|i: int|
            0 <= i < entries.len() ==> is_word((#[trigger] entries[i]).machine, false) && is_word(
                entries[i].login,
                false,
            ) && is_word(entries[i].password, false),
    ensures
        netrc_entries(with_blanks(spelled_entries(entries))) == entries,
{
    lemma_spelled_words(entries);
    joined_words_are_split_again(spelled_entries(entries), false);
    lemma_spelled_entries(entries, None);
    assert(closed_entry(None) + entries =~= entries);
}

/// What spells entries is made of words.
proof fn lemma_spelled_words(entries: Seq<NetrcView>)
    requires
        forall|i: int|
            0 <= i < entries.len() ==> is_word((#[trigger] entries[i]).machine, false) && is_word(
                entries[i].login,
                false,
            ) && is_word(entries[i].password, false),
    ensures
        forall|i: int|
            0 <= i < spelled_entries(entries).len() ==> is_word(
                #[trigger] spelled_entries(entries)[i],
                false,
            ),
    decreases entries.len(),
{
    if entries.len() > 0 {
        reveal_strlit("machine");
        reveal_strlit("default");
        reveal_strlit("login");
        reveal_strlit("password");
        let e = entries[0];
        let rest = entries.skip(1);
        assert forall|i: int| 0 <= i < rest.len() implies is_word(
            (#[trigger] rest[i]).machine,
            false,
        ) && is_word(rest[i].login, false) && is_word(rest[i].password, false) by {
            assert(rest[i] == entries[i + 1]);
        }
        lemma_spelled_words(rest);
        let w = spelled_entry(e);
        assert forall|i: int| 0 <= i < w.len() implies is_word(#[trigger] w[i], false) by {}
        assert forall|i: int| 0 <= i < spelled_entries(entries).len() implies is_word(
            #[trigger] spelled_entries(entries)[i],
            false,
        ) by {
            if i < w.len() {
                assert(spelled_entries(entries)[i] == w[i]);
            } else {
                assert(spelled_entries(entries)[i] == spelled_entries(rest)[i - w.len()]);
            }
        }
    }
}

/// What spells entries closes the open one and gives them.
proof fn lemma_spelled_entries(entries: Seq<NetrcView>, open: Option<NetrcView>)
    ensures
        entries_from(spelled_entries(entries), open) == closed_entry(open) + entries,
    decreases entries.len(),
{
    if entries.len() == 0 {
        assert(entries_from(Seq::empty(), open) =~= closed_entry(open) + entries);
    } else {
        let e = entries[0];
        let more = entries.skip(1);
        lemma_spelled_entries(more, Some(e));
        lemma_one_entry(e, spelled_entries(more), open);
        assert(closed_entry(open) + (closed_entry(Some(e)) + more) =~= closed_entry(open)
            + entries);
    }
}

/// The words of an entry close the open one and leave that entry open.
proof fn lemma_one_entry(e: NetrcView, rest: Seq<Seq<char>>, open: Option<NetrcView>)
    ensures
        entries_from(spelled_entry(e) + rest, open) == closed_entry(open) + entries_from(
            rest,
            Some(e),
        ),
{
    reveal_strlit("machine");
    reveal_strlit("default");
    reveal_strlit("login");
    reveal_strlit("password");
    assert("machine"@[0] == 'm' && "default"@[0] == 'd' && "login"@[0] == 'l' && "password"@[0]
        == 'p');
    let w4 = seq!["password"@, e.password] + rest;
    let w2 = seq!["login"@, e.login] + w4;
    assert(w4.skip(1).skip(1) =~= rest);
    assert(w2.skip(1).skip(1) =~= w4);
    let e0 = fresh_entry(e.machine);
    let e1 = NetrcView { login: e.login, ..e0 };
    assert(NetrcView { password: e.password, ..e1 } =~= e);
    assert(w4.skip(1)[0] == e.password);
    assert(entries_from(w4, Some(e1)) == entries_from(rest, Some(e)));
    assert(w2.skip(1)[0] == e.login);
    assert(entries_from(w2, Some(e0)) == entries_from(w4, Some(e1)));
    if e.machine == seq!['*'] {
        let w = seq!["default"@] + w2;
        assert(w.skip(1) =~= w2);
        assert(w =~= spelled_entry(e) + rest);
    } else {
        let w = seq!["machine"@, e.machine] + w2;
        assert(w.skip(1).skip(1) =~= w2);
        assert(w.skip(1)[0] == e.machine);
        assert(w =~= spelled_entry(e) + rest);
    }
}

/// A word that begins no entry and names no value means nothing. A login and
/// a password may come in either order.
pub proof fn order_of_login_and_password_does_not_matter(
    login: Seq<char>,
    password: Seq<char>,
    rest: Seq<Seq<char>>,
    other: Seq<char>,
    open: Option<NetrcView>,
)
    requires
        other != "machine"@,
        other != "default"@,
        other != "login"@,
        other != "password"@,
    ensures
        entries_from(seq!["login"@, login, "password"@, password] + rest, open) == entries_from(
            seq!["password"@, password, "login"@, login] + rest,
            open,
        ),
        entries_from(seq![other] + rest, open) == entries_from(rest, open),
{
    reveal_strlit("machine");
    reveal_strlit("default");
    reveal_strlit("login");
    reveal_strlit("password");
    assert("machine"@[0] == 'm' && "default"@[0] == 'd' && "login"@[0] == 'l' && "password"@[0]
        == 'p');
    let a = seq!["login"@, login, "password"@, password] + rest;
    let b = seq!["password"@, password, "login"@, login] + rest;
    let a2 = seq!["password"@, password] + rest;
    let b2 = seq!["login"@, login] + rest;
    assert(a.skip(1).skip(1) =~= a2);
    assert(b.skip(1).skip(1) =~= b2);
    assert(a2.skip(1).skip(1) =~= rest);
    assert(b2.skip(1).skip(1) =~= rest);
    assert(a.skip(1)[0] == login && a2.skip(1)[0] == password);
    assert(b.skip(1)[0] == password && b2.skip(1)[0] == login);
    match open {
        Some(e) => {
            let f = NetrcView { login, ..e };
            let g = NetrcView { password, ..e };
            let both = NetrcView { login, password, ..e };
            assert(entries_from(a, open) == entries_from(a2, Some(f)));
            assert(entries_from(b, open) == entries_from(b2, Some(g)));
            assert(entries_from(a2, Some(f)) == entries_from(rest, Some(both)));
            assert(entries_from(b2, Some(g)) == entries_from(rest, Some(both)));
        },
        None => {
            assert(entries_from(a, open) == entries_from(a2, None));
            assert(entries_from(b, open) == entries_from(b2, None));
        },
    }
    assert((seq![other] + rest).skip(1) =~= rest);
}

/// A machine for which nothing more is said has no login and no password; one without
/// a name has an empty name. What is said twice holds as it is said last, and what is
/// said without a value, or before any machine, is not said at all.
pub proof fn unsaid_values_are_empty(
    machine: Seq<char>,
    a: Seq<char>,
    b: Seq<char>,
    rest: Seq<Seq<char>>,
    open: Option<NetrcView>,
)
    ensures
        entries_from(seq!["machine"@, machine], None) == seq![
            (NetrcView { machine, login: Seq::empty(), password: Seq::empty() }),
        ],
        entries_from(seq!["machine"@], None) == seq![
            (NetrcView { machine: Seq::empty(), login: Seq::empty(), password: Seq::empty() }),
        ],
        entries_from(seq!["default"@], None) == seq![
            (NetrcView { machine: seq!['*'], login: Seq::empty(), password: Seq::empty() }),
        ],
        entries_from(seq!["login"@, a, "login"@, b] + rest, open) == entries_from(
            seq!["login"@, b] + rest,
            open,
        ),
        entries_from(seq!["password"@, a, "password"@, b] + rest, open) == entries_from(
            seq!["password"@, b] + rest,
            open,
        ),
        entries_from(seq!["login"@], open) == entries_from(Seq::empty(), open),
        entries_from(seq!["password"@], open) == entries_from(Seq::empty(), open),
        entries_from(seq!["login"@, a] + rest, None) == entries_from(rest, None),
        entries_from(seq!["password"@, a] + rest, None) == entries_from(rest, None),
        entries_from(Seq::empty(), None).len() == 0,
{
    reveal_strlit("machine");
    reveal_strlit("default");
    reveal_strlit("login");
    reveal_strlit("password");
    assert("machine"@[0] == 'm' && "default"@[0] == 'd' && "login"@[0] == 'l' && "password"@[0]
        == 'p');
    let none = Seq::<Seq<char>>::empty();
    let m2 = seq!["machine"@, machine];
    assert(m2.skip(1).skip(1) =~= none);
    assert(m2.skip(1)[0] == machine);
    assert(entries_from(none, Some(fresh_entry(machine))) == seq![fresh_entry(machine)]);
    assert(entries_from(m2, None) =~= seq![fresh_entry(machine)]);
    let m1 = seq!["machine"@];
    assert(m1.skip(1).skip(0) =~= none);
    assert(m1.skip(1).len() == 0);
    let nameless = fresh_entry(Seq::empty());
    assert(entries_from(none, Some(nameless)) == seq![nameless]);
    assert(entries_from(m1, None) =~= seq![fresh_entry(Seq::empty())]);
    let d1 = seq!["default"@];
    assert(d1.skip(1) =~= none);
    assert(entries_from(none, Some(fresh_entry(seq!['*']))) == seq![fresh_entry(seq!['*'])]);
    assert(entries_from(d1, None) =~= seq![fresh_entry(seq!['*'])]);
    assert(seq!["login"@].skip(1) =~= none);
    assert(seq!["password"@].skip(1) =~= none);
    lemma_said_twice("login"@, a, b, rest);
    lemma_said_twice("password"@, a, b, rest);
    lemma_said_once("login"@, a, rest);
    lemma_said_once("password"@, a, rest);
    let l = seq!["login"@, a, "login"@, b] + rest;
    let p = seq!["password"@, a, "password"@, b] + rest;
    let l2 = seq!["login"@, b] + rest;
    let p2 = seq!["password"@, b] + rest;
    lemma_said_once("login"@, b, rest);
    lemma_said_once("password"@, b, rest);
    match open {
        Some(e) => {
            let x = NetrcView { login: a, ..e };
            let y = NetrcView { login: b, ..e };
            assert(entries_from(l, open) == entries_from(l2, Some(x)));
            assert(NetrcView { login: b, ..x } =~= y);
            assert(entries_from(l2, Some(x)) == entries_from(rest, Some(y)));
            assert(entries_from(l2, open) == entries_from(rest, Some(y)));
            let x = NetrcView { password: a, ..e };
            let y = NetrcView { password: b, ..e };
            assert(entries_from(p, open) == entries_from(p2, Some(x)));
            assert(NetrcView { password: b, ..x } =~= y);
            assert(entries_from(p2, Some(x)) == entries_from(rest, Some(y)));
            assert(entries_from(p2, open) == entries_from(rest, Some(y)));
        },
        None => {
            assert(entries_from(l, open) == entries_from(l2, None));
            assert(entries_from(p, open) == entries_from(p2, None));
        },
    }
}

/// Behind a word and its value comes the rest.
proof fn lemma_said_once(word: Seq<char>, a: Seq<char>, rest: Seq<Seq<char>>)
    ensures
        (seq![word, a] + rest).skip(1).skip(1) == rest,
        (seq![word, a] + rest).skip(1)[0] == a,
{
    assert((seq![word, a] + rest).skip(1).skip(1) =~= rest);
}

/// Behind a word and its value comes what is said again.
proof fn lemma_said_twice(word: Seq<char>, a: Seq<char>, b: Seq<char>, rest: Seq<Seq<char>>)
    ensures
        (seq![word, a, word, b] + rest).skip(1).skip(1) == seq![word, b] + rest,
        (seq![word, a, word, b] + rest).skip(1)[0] == a,
{
    assert((seq![word, a, word, b] + rest).skip(1).skip(1) =~= seq![word, b] + rest);
}

} // verus!
