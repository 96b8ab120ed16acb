//! Which servers are connected to, and as whom.

use vstd::prelude::*;

use crate::netrc::{creds_for, entry_views, netrc_creds, NetrcEntry, NetrcView};
use crate::picker::{Picker, PickerView};
use crate::scan::{before_first, has_prefix, starts_with, texts, up_to_first};
use crate::text::{chain, chars_of, text_of};

verus! {

/// A server, and the name and the password for it.
pub struct LoginTry {
    pub host: String,
    pub user: String,
    pub pass: String,
}

/// The content of a `LoginTry`.
#[verifier::ext_equal]
pub struct LoginTryView {
    pub host: Seq<char>,
    pub user: Seq<char>,
    pub pass: Seq<char>,
}

impl View for LoginTry {
    type V = LoginTryView;

    open spec fn view(&self) -> LoginTryView {
        LoginTryView { host: self.host@, user: self.user@, pass: self.pass@ }
    }
}

/// The contents of some tries.
pub open spec fn try_views(v: Seq<LoginTry>) -> Seq<LoginTryView> {
    v.map_values(|t: LoginTry| t@)
}

/// How a server is logged in to: with the name and the password that are listed
/// for it, or with empty ones.
pub open spec fn login_for(entries: Seq<NetrcView>, host: Seq<char>) -> LoginTryView {
    match creds_for(entries, host) {
        Some(c) => LoginTryView { host, user: c.0, pass: c.1 },
        None => LoginTryView { host, user: Seq::empty(), pass: Seq::empty() },
    }
}

/// The host in an address that starts with `ftp://`.
pub open spec fn url_host(arg: Seq<char>) -> Seq<char> {
    before_first(arg.skip(6), '/')
}

/// The logins to try for an argument, before it is taken for a local path: the
/// host of an FTP address; then, if the argument is no path, a host of that name
/// for which a login is listed.
pub open spec fn logins_for(arg: Seq<char>, exists: bool, entries: Seq<NetrcView>) -> Seq<
    LoginTryView,
> {
    let first = if has_prefix(arg, "ftp://"@) {
        seq![login_for(entries, url_host(arg))]
    } else {
        Seq::empty()
    };
    if !exists && login_for(entries, arg).user.len() > 0 {
        first.push(login_for(entries, arg))
    } else {
        first
    }
}

/// Looks up how to log in to a server.
pub fn login(entries: &Vec<NetrcEntry>, host: &str) -> (r: LoginTry)
    ensures
        r@ == login_for(entry_views(entries@), host@),
{
    match netrc_creds(entries, host) {
        Some((user, pass)) => LoginTry { host: host.to_string(), user, pass },
        None => LoginTry { host: host.to_string(), user: String::new(), pass: String::new() },
    }
}

/// Adds a try.
fn add_try(v: &mut Vec<LoginTry>, t: LoginTry)
    ensures
        try_views(final(v)@) == try_views(old(v)@).push(t@),
{
    let ghost w = t@;
    v.push(t);
    assert(try_views(v@) =~= try_views(old(v)@).push(w));
}

/// The logins to try for an argument, one after the other. The first that succeeds
/// gives a remote pane; if none does, the argument is a local path.
pub fn make_pane(arg: &str, exists: bool, entries: &Vec<NetrcEntry>) -> (r: Vec<LoginTry>)
    ensures
        try_views(r@) == logins_for(arg@, exists, entry_views(entries@)),
{
    let mut r: Vec<LoginTry> = Vec::new();
    assert(try_views(r@) =~= Seq::empty());
    if starts_with(arg, "ftp://") {
        proof {
            reveal_strlit("ftp://");
        }
        let v = chars_of(arg);
        let rest = text_of(vstd::slice::slice_subrange(v.as_slice(), 6, v.len()));
        assert(rest@ =~= arg@.skip(6));
        let host = up_to_first(rest.as_str(), '/');
        add_try(&mut r, login(entries, host.as_str()));
        assert(try_views(r@) =~= seq![login_for(entry_views(entries@), url_host(arg@))]);
    }
    if !exists {
        let t = login(entries, arg);
        if !t.user.as_str().is_empty() {
            add_try(&mut r, t);
        }
    }
    r
}

/// The machines of the entries.
pub open spec fn machines(entries: Seq<NetrcView>) -> Seq<Seq<char>> {
    entries.map_values(|e: NetrcView| e.machine)
}

/// The picker of servers, if any are listed.
pub fn pick_host(entries: &Vec<NetrcEntry>) -> (r: Result<Picker, String>)
    ensures
        match r {
            Ok(p) => entries@.len() > 0 && p@ == (PickerView {
                title: "FTP (netrc)"@,
                items: machines(entry_views(entries@)),
                cursor: 0,
            }) && p@.is_valid(),
            Err(e) => entries@.len() == 0 && e@ == " No ~/.netrc entries found"@,
        },
{
    let mut hosts: Vec<String> = Vec::new();
    for i in 0..entries.len()
        invariant
            hosts@.len() == i,
            forall|j: int| 0 <= j < i ==> (#[trigger] hosts@[j])@ == entries@[j].machine@,
    {
        hosts.push(entries[i].machine.clone());
    }
    assert(texts(hosts@) =~= machines(entry_views(entries@)));
    match Picker::new("FTP (netrc)", hosts) {
        Some(p) => Ok(p),
        None => Err(" No ~/.netrc entries found".to_string()),
    }
}

/// How to log in to the server that was picked. Its pane takes the place of the
/// right one.
pub fn op_connect_right(entries: &Vec<NetrcEntry>, idx: usize) -> (r: LoginTry)
    requires
        idx < entries@.len(),
    ensures
        r@ == login_for(
            entry_views(entries@),
            machines(entry_views(entries@))[idx as int],
        ),
{
    assert(machines(entry_views(entries@))[idx as int] == entries@[idx as int].machine@);
    login(entries, entries[idx].machine.as_str())
}

/// What is shown before a server is connected to.
pub fn connecting_text(host: &str) -> (r: String)
    ensures
        r@ == " Connecting to "@ + host@ + "..."@,
{
    let mut r = chain(" Connecting to ", host);
    r.push_str("...");
    r
}

/// What is shown when that fails.
pub fn connection_failed(e: &str) -> (r: String)
    ensures
        r@ == " Connection failed: "@ + e@,
{
    chain(" Connection failed: ", e)
}

/// A path that exists, and is no FTP address, is never taken for a server.
pub proof fn existing_path_is_local(arg: Seq<char>, entries: Seq<NetrcView>)
    requires
        !has_prefix(arg, "ftp://"@),
    ensures
        logins_for(arg, true, entries).len() == 0,
{
}

/// The host of an FTP address is what stands before the next slash, and is the
/// first that is tried.
pub proof fn address_names_its_host(host: Seq<char>, rest: Seq<char>, exists: bool, entries: Seq<
    NetrcView,
>)
    requires
        crate::scan::lacks(host, '/'),
    ensures
        logins_for("ftp://"@ + host + seq!['/'] + rest, exists, entries).len() > 0,
        logins_for("ftp://"@ + host + seq!['/'] + rest, exists, entries)[0] == login_for(
            entries,
            host,
        ),
{
    reveal_strlit("ftp://");
    let arg = "ftp://"@ + host + seq!['/'] + rest;
    assert(arg.take(6) =~= "ftp://"@);
    assert(arg.skip(6) =~= host + seq!['/'] + rest);
    crate::scan::lemma_found_first(host, '/', rest);
    assert(arg.skip(6).take(host.len() as int) =~= host);
}

/// A login is for the host that was asked for, with the name and the password that
/// are listed for it; without an entry both are empty.
pub proof fn login_is_as_listed(entries: Seq<NetrcView>, host: Seq<char>)
    ensures
        login_for(entries, host).host == host,
        creds_for(entries, host) matches Some(c) ==> login_for(entries, host).user == c.0
            && login_for(entries, host).pass == c.1,
        creds_for(entries, host) is None ==> login_for(entries, host).user.len() == 0 && login_for(
            entries,
            host,
        ).pass.len() == 0,
{
}

/// A host is tried by its bare name if it is no path and a user is listed for it,
/// and nothing else is tried; without a user it is not.
pub proof fn bare_host_is_tried_if_listed(arg: Seq<char>, entries: Seq<NetrcView>)
    requires
        !has_prefix(arg, "ftp://"@),
    ensures
        login_for(entries, arg).user.len() > 0 ==> logins_for(arg, false, entries) == seq![
            login_for(entries, arg),
        ],
        login_for(entries, arg).user.len() == 0 ==> logins_for(arg, false, entries).len() == 0,
{
    assert(Seq::<LoginTryView>::empty().push(login_for(entries, arg)) =~= seq![
        login_for(entries, arg),
    ]);
}

/// An FTP address without a path names its host too, and is tried alone if it
/// is not listed as it stands.
pub proof fn address_without_a_path_names_its_host(
    host: Seq<char>,
    exists: bool,
    entries: Seq<NetrcView>,
)
    requires
        crate::scan::lacks(host, '/'),
    ensures
        ({
            let tries = logins_for("ftp://"@ + host, exists, entries);
            &&& tries.len() > 0
            &&& tries[0] == login_for(entries, host)
            &&& exists ==> tries.len() == 1
            &&& tries.len() > 1 ==> tries.len() == 2 && tries[1] == login_for(
                entries,
                "ftp://"@ + host,
            ) && tries[1].user.len() > 0
        }),
{
    reveal_strlit("ftp://");
    let arg = "ftp://"@ + host;
    assert(arg.take(6) =~= "ftp://"@);
    assert(arg.skip(6) =~= host);
    crate::scan::text_is_cut_at_a_character(host, '/', Seq::empty());
}

/// The servers to pick from are the machines of the entries, each in its place.
pub proof fn every_machine_can_be_picked(entries: Seq<NetrcView>, i: int)
    requires
        0 <= i < entries.len(),
    ensures
        machines(entries).len() == entries.len(),
        machines(entries)[i] == entries[i].machine,
{
}

} // verus!
