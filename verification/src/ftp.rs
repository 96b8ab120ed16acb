//! The FTP dialogue: what is sent, and what the replies mean.

use vstd::prelude::*;
use vstd::utf8::encode_utf8;

use crate::entry::{entry_views, EntryView, FileEntry};
use crate::num::{
    decimal, decimal_is_read_back, decimal_spells_number, is_digit, parse_decimal, push_decimal,
    read_decimal,
};
use crate::order::{
    bool_order, comes_before, is_stable_order, is_stable_sort, key_views, keys_by_position, or_else,
    sort_order, text_order, text_order_is_lexicographic, Order, SortKey,
};
use crate::scan::{
    char_texts, drop_end_space, drop_start_space, fields, find_first, find_last, first_at,
    has_prefix, is_white_space, is_word, joined_words_are_split_again, lacks, last_at,
    lemma_first_at, lemma_found_first, lemma_found_last, lemma_last_at, lemma_last_field, lemma_only_field,
    split_fields, split_words, starts_with, texts, trim_end, trim_start, with_blanks, words,
};
use crate::text::{
    can_cut, chain, chars_of, head_to, lemma_ascii_start, lemma_cut_joins, on_boundary, put,
    starts_ascii, text_eq, text_of, to_byte,
};

verus! {

/// Where to connect to: the host, at the port 21 if it names none.
pub open spec fn server_address(host: Seq<char>) -> Seq<char> {
    if host.contains(':') {
        host
    } else {
        host + ":21"@
    }
}

/// Where to connect to.
pub fn address(host: &str) -> (r: String)
    ensures
        r@ == server_address(host@),
{
    let v = chars_of(host);
    let mut r = String::new();
    r.push_str(host);
    assert(r@ =~= host@);
    proof {
        lemma_first_at(host@, ':');
    }
    match find_first(v.as_slice(), ':') {
        Some(i) => {
            assert(host@[i as int] == ':');
        },
        None => {
            r.push_str(":21");
        },
    }
    r
}

/// A command as it is sent: a line of its own.
pub fn cmd(c: &str) -> (r: String)
    ensures
        r@ == c@ + "\r\n"@,
{
    chain(c, "\r\n")
}

/// The code that a line of a reply starts with: a number in its first three
/// bytes, else 0.
pub open spec fn reply_code(line: Seq<char>) -> nat {
    if on_boundary(line, 3) {
        match parse_decimal(to_byte(line, 3), 0xffff) {
            Some(n) => n,
            None => 0,
        }
    } else {
        0
    }
}

/// Whether the reply goes on: a minus sign follows the first three bytes.
pub open spec fn goes_on(line: Seq<char>) -> bool {
    encode_utf8(line).len() > 3 && encode_utf8(line)[3] == 0x2du8
}

/// How far a reply has been read.
pub enum ReplyState {
    /// Nothing of it.
    First,
    /// Its first line, with its code, and more is to come.
    More(u16, String),
}

/// What a line of a reply leads to.
pub enum ReplyStep {
    /// The reply is complete: its code, and its first line.
    Done(u16, String),
    /// Another line is to be read.
    Wait(ReplyState),
}

/// The content of a `ReplyState`.
pub enum ReplyStateView {
    First,
    More(nat, Seq<char>),
}

/// The content of a `ReplyStep`.
pub enum ReplyStepView {
    Done(nat, Seq<char>),
    Wait(ReplyStateView),
}

impl View for ReplyState {
    type V = ReplyStateView;

    open spec fn view(&self) -> ReplyStateView {
        match self {
            ReplyState::First => ReplyStateView::First,
            ReplyState::More(code, text) => ReplyStateView::More(*code as nat, text@),
        }
    }
}

impl View for ReplyStep {
    type V = ReplyStepView;

    open spec fn view(&self) -> ReplyStepView {
        match self {
            ReplyStep::Done(code, text) => ReplyStepView::Done(*code as nat, text@),
            ReplyStep::Wait(state) => ReplyStepView::Wait(state@),
        }
    }
}

/// Reading one line of a reply. A reply of more than one line ends with the line
/// that starts with its code and a blank.
pub open spec fn reply_step(state: ReplyStateView, line: Seq<char>) -> ReplyStepView {
    match state {
        ReplyStateView::First => {
            let text = trim_end(line);
            if goes_on(text) {
                ReplyStepView::Wait(ReplyStateView::More(reply_code(text), text))
            } else {
                ReplyStepView::Done(reply_code(text), text)
            }
        },
        ReplyStateView::More(code, text) => if has_prefix(line, decimal(code) + seq![' ']) {
            ReplyStepView::Done(code, text)
        } else {
            ReplyStepView::Wait(state)
        },
    }
}

/// Reads the code that a line starts with.
fn read_code(line: &str) -> (r: u16)
    ensures
        r == reply_code(line@),
{
    if can_cut(line, 3) {
        let digits = chars_of(head_to(line, 3));
        match read_decimal(digits.as_slice(), 0xffff) {
            Some(n) => n as u16,
            None => 0,
        }
    } else {
        0
    }
}

/// Takes one line of a reply.
pub fn response(state: ReplyState, line: &str) -> (r: ReplyStep)
    ensures
        r@ == reply_step(state@, line@),
{
    match state {
        ReplyState::First => {
            let v = chars_of(line);
            let text = text_of(drop_end_space(v.as_slice()));
            let code = read_code(text.as_str());
            let b = text.as_str().as_bytes();
            if b.len() > 3 && b[3] == 0x2d {
                ReplyStep::Wait(ReplyState::More(code, text))
            } else {
                ReplyStep::Done(code, text)
            }
        },
        ReplyState::More(code, text) => {
            let mut marker = String::new();
            push_decimal(&mut marker, code as u64);
            assert(marker@ =~= decimal(code as nat));
            put(&mut marker, ' ');
            if starts_with(line, marker.as_str()) {
                ReplyStep::Done(code, text)
            } else {
                ReplyStep::Wait(ReplyState::More(code, text))
            }
        },
    }
}

/// The content of a reply, or of the error on reading it.
pub open spec fn reply_view(r: Result<(u16, String), String>) -> Result<
    (nat, Seq<char>),
    Seq<char>,
> {
    match r {
        Ok(p) => Ok((p.0 as nat, p.1@)),
        Err(e) => Err(e@),
    }
}

/// The content of a text, or of the error in its place.
pub open spec fn result_view(r: Result<String, String>) -> Result<Seq<char>, Seq<char>> {
    match r {
        Ok(s) => Ok(s@),
        Err(e) => Err(e@),
    }
}

/// The line of a reply that has the code it should have; else what is wrong.
pub open spec fn expected(reply: Result<(nat, Seq<char>), Seq<char>>, code: nat) -> Result<
    Seq<char>,
    Seq<char>,
> {
    match reply {
        Ok(p) => if p.0 == code {
            Ok(p.1)
        } else {
            Err(
                "got "@ + decimal(p.0) + " expected "@ + decimal(code) + ": "@ + p.1,
            )
        },
        Err(e) => Err(e),
    }
}

/// Holds a reply to the code that it should have.
pub fn expect(reply: Result<(u16, String), String>, code: u16) -> (r: Result<String, String>)
    ensures
        result_view(r) == expected(reply_view(reply), code as nat),
{
    match reply {
        Ok((c, msg)) => {
            if c == code {
                Ok(msg)
            } else {
                let mut e = String::new();
                e.push_str("got ");
                assert(e@ =~= "got "@);
                push_decimal(&mut e, c as u64);
                e.push_str(" expected ");
                push_decimal(&mut e, code as u64);
                e.push_str(": ");
                e.push_str(msg.as_str());
                Err(e)
            }
        },
        Err(e) => Err(e),
    }
}

/// How far a login has come: what the next reply answers.
pub enum Login {
    Greeting,
    User,
    Password,
}

/// What the login does next.
pub enum LoginStep {
    /// The command is to be sent; then its reply is to be read.
    Send(String, Login),
    /// The server has let us in.
    Done,
    /// It has not.
    Fail(String),
}

/// The content of a `LoginStep`.
pub enum LoginStepView {
    Send(Seq<char>, Login),
    Done,
    Fail(Seq<char>),
}

impl View for LoginStep {
    type V = LoginStepView;

    open spec fn view(&self) -> LoginStepView {
        match self {
            LoginStep::Send(c, next) => LoginStepView::Send(c@, *next),
            LoginStep::Done => LoginStepView::Done,
            LoginStep::Fail(e) => LoginStepView::Fail(e@),
        }
    }
}

/// The code that the reply to a step of the login should have.
pub open spec fn login_code(at: Login) -> nat {
    match at {
        Login::Greeting => 220,
        Login::User => 331,
        Login::Password => 230,
    }
}

/// What follows the reply to a step of the login: the name after the greeting,
/// the password after the name, and nothing after the password. A reply with
/// another code ends the login.
pub open spec fn login_step(
    at: Login,
    user: Seq<char>,
    pass: Seq<char>,
    reply: Result<(nat, Seq<char>), Seq<char>>,
) -> LoginStepView {
    match expected(reply, login_code(at)) {
        Ok(_) => match at {
            Login::Greeting => LoginStepView::Send("USER "@ + user, Login::User),
            Login::User => LoginStepView::Send("PASS "@ + pass, Login::Password),
            Login::Password => LoginStepView::Done,
        },
        Err(e) => LoginStepView::Fail(e),
    }
}

/// Takes the reply to a step of the login.
pub fn connect(at: Login, user: &str, pass: &str, reply: Result<(u16, String), String>) -> (r:
    LoginStep)
    ensures
        r@ == login_step(at, user@, pass@, reply_view(reply)),
{
    let code: u16 = match at {
        Login::Greeting => 220,
        Login::User => 331,
        Login::Password => 230,
    };
    match expect(reply, code) {
        Ok(_) => match at {
            Login::Greeting => LoginStep::Send(chain("USER ", user), Login::User),
            Login::User => LoginStep::Send(chain("PASS ", pass), Login::Password),
            Login::Password => LoginStep::Done,
        },
        Err(e) => LoginStep::Fail(e),
    }
}

/// The command to change the directory.
pub fn cwd(d: &str) -> (r: String)
    ensures
        r@ == "CWD "@ + d@,
{
    chain("CWD ", d)
}

/// The command to go up.
pub fn cdup() -> (r: String)
    ensures
        r@ == "CDUP"@,
{
    "CDUP".to_string()
}

/// Whether the server has changed its directory.
pub fn changed(reply: Result<(u16, String), String>) -> (r: bool)
    ensures
        r == (reply_view(reply) matches Ok(p) && p.0 == 250),
{
    expect(reply, 250).is_ok()
}

/// The directory that a line of a reply names: what stands between its first and
/// its last quotation mark. The root if there are no two.
pub open spec fn quoted_directory(msg: Seq<char>) -> Seq<char> {
    match (first_at(msg, '"'), last_at(msg, '"')) {
        (Some(s), Some(e)) => if s < e {
            msg.subrange(s + 1, e)
        } else {
            "/"@
        },
        _ => "/"@,
    }
}

/// The server's directory by its reply.
pub open spec fn replied_directory(reply: Result<(nat, Seq<char>), Seq<char>>) -> Seq<char> {
    match expected(reply, 257) {
        Ok(msg) => quoted_directory(msg),
        Err(_) => "/"@,
    }
}

/// Reads the server's directory out of its reply.
pub fn pwd(reply: Result<(u16, String), String>) -> (r: String)
    ensures
        r@ == replied_directory(reply_view(reply)),
{
    match expect(reply, 257) {
        Ok(msg) => {
            let v = chars_of(msg.as_str());
            proof {
                lemma_first_at(msg@, '"');
                lemma_last_at(msg@, '"');
            }
            match (find_first(v.as_slice(), '"'), find_last(v.as_slice(), '"')) {
                (Some(s), Some(e)) => {
                    if s < e {
                        text_of(vstd::slice::slice_subrange(v.as_slice(), s + 1, e))
                    } else {
                        "/".to_string()
                    }
                },
                _ => "/".to_string(),
            }
        },
        Err(_) => "/".to_string(),
    }
}

/// The numbers among the first `k` pieces, in their order; what is no number of
/// one byte is left out.
pub open spec fn byte_numbers(pieces: Seq<Seq<char>>, k: int) -> Seq<nat>
    decreases k,
{
    if k <= 0 {
        Seq::empty()
    } else {
        let before = byte_numbers(pieces, k - 1);
        match parse_decimal(trim_start(trim_end(pieces[k - 1])), 255) {
            Some(n) => before.push(n),
            None => before,
        }
    }
}

/// The address that six numbers make: four of the host, two of the port.
pub open spec fn data_address(n: Seq<nat>) -> Seq<char> {
    decimal(n[0]) + seq!['.'] + decimal(n[1]) + seq!['.'] + decimal(n[2]) + seq!['.'] + decimal(
        n[3],
    ) + seq![':'] + decimal(n[4] * 256 + n[5])
}

/// Whether the brackets of a reply do not close before they open.
pub open spec fn are_brackets_in_order(msg: Seq<char>) -> bool {
    match (first_at(msg, '('), first_at(msg, ')')) {
        (Some(s), Some(e)) => s < e,
        _ => true,
    }
}

/// The address for the data in a line of a reply: six numbers in brackets, with
/// commas between them.
pub open spec fn bracketed_address(msg: Seq<char>) -> Result<Seq<char>, Seq<char>> {
    match first_at(msg, '(') {
        None => Err("no ("@),
        Some(s) => match first_at(msg, ')') {
            None => Err("no )"@),
            Some(e) => {
                let pieces = fields(msg.subrange(s + 1, e), ',');
                let n = byte_numbers(pieces, pieces.len() as int);
                if n.len() < 6 {
                    Err("bad PASV"@)
                } else {
                    Ok(data_address(n))
                }
            },
        },
    }
}

/// The address for the data by the server's reply.
pub open spec fn passive_address(reply: Result<(nat, Seq<char>), Seq<char>>) -> Result<
    Seq<char>,
    Seq<char>,
> {
    match expected(reply, 227) {
        Ok(msg) => bracketed_address(msg),
        Err(e) => Err(e),
    }
}

/// Whether the reply can be searched for an address.
pub open spec fn is_passive_reply(reply: Result<(nat, Seq<char>), Seq<char>>) -> bool {
    match expected(reply, 227) {
        Ok(msg) => are_brackets_in_order(msg),
        Err(_) => true,
    }
}

/// Tests whether the reply can be searched for an address.
pub fn passive_reply(reply: &Result<(u16, String), String>) -> (r: bool)
    ensures
        r == is_passive_reply(reply_view(*reply)),
{
    match reply {
        Ok(p) => {
            if p.0 != 227 {
                return true;
            }
            let v = chars_of(p.1.as_str());
            match (find_first(v.as_slice(), '('), find_first(v.as_slice(), ')')) {
                (Some(s), Some(e)) => s < e,
                _ => true,
            }
        },
        Err(_) => true,
    }
}

/// Reads the numbers of one byte out of the pieces.
fn read_numbers(pieces: &Vec<Vec<char>>) -> (r: Vec<u8>)
    ensures
        r@.map_values(|n: u8| n as nat) == byte_numbers(
            char_texts(pieces@),
            pieces@.len() as int,
        ),
{
    let mut r: Vec<u8> = Vec::new();
    let ghost ps = char_texts(pieces@);
    assert(r@.map_values(|n: u8| n as nat) =~= byte_numbers(ps, 0));
    let n = pieces.len();
    let mut i: usize = 0;
    while i < n
        invariant
            n == pieces@.len(),
            i <= n,
            ps == char_texts(pieces@),
            r@.map_values(|n: u8| n as nat) == byte_numbers(ps, i as int),
        decreases n - i,
    {
        let ghost before = r@;
        assert(ps[i as int] == pieces@[i as int]@);
        let trimmed = drop_start_space(drop_end_space(pieces[i].as_slice()));
        match read_decimal(trimmed, 255) {
            Some(k) => {
                r.push(k as u8);
                assert(r@.map_values(|n: u8| n as nat) =~= before.map_values(
                    |n: u8| n as nat,
                ).push(k as nat));
            },
            None => {},
        }
        i += 1;
    }
    r
}

/// Reads the address for the data out of the reply to `PASV`.
pub fn pasv_addr(reply: Result<(u16, String), String>) -> (r: Result<String, String>)
    requires
        is_passive_reply(reply_view(reply)),
    ensures
        result_view(r) == passive_address(reply_view(reply)),
{
    let msg = match expect(reply, 227) {
        Ok(msg) => msg,
        Err(e) => {
            return Err(e);
        },
    };
    let v = chars_of(msg.as_str());
    let s = match find_first(v.as_slice(), '(') {
        Some(s) => s,
        None => {
            return Err("no (".to_string());
        },
    };
    let e = match find_first(v.as_slice(), ')') {
        Some(e) => e,
        None => {
            return Err("no )".to_string());
        },
    };
    let pieces = split_fields(vstd::slice::slice_subrange(v.as_slice(), s + 1, e), ',');
    let n = read_numbers(&pieces);
    let ghost ns = byte_numbers(char_texts(pieces@), pieces@.len() as int);
    assert(ns == n@.map_values(|n: u8| n as nat));
    if n.len() < 6 {
        return Err("bad PASV".to_string());
    }
    assert(forall|i: int| 0 <= i < n@.len() ==> ns[i] == #[trigger] n@[i]);
    let mut r = String::new();
    push_decimal(&mut r, n[0] as u64);
    assert(r@ =~= decimal(ns[0]));
    put(&mut r, '.');
    push_decimal(&mut r, n[1] as u64);
    put(&mut r, '.');
    push_decimal(&mut r, n[2] as u64);
    put(&mut r, '.');
    push_decimal(&mut r, n[3] as u64);
    put(&mut r, ':');
    push_decimal(&mut r, n[4] as u64 * 256 + n[5] as u64);
    Ok(r)
}

/// An entry of a server's listing.
pub struct FtpEntry {
    pub name: String,
    pub is_dir: bool,
    pub size: u64,
}

impl View for FtpEntry {
    type V = EntryView;

    open spec fn view(&self) -> EntryView {
        EntryView { name: self.name@, is_dir: self.is_dir, size: self.size }
    }
}

/// The contents of a server's entries.
pub open spec fn listed_views(v: Seq<FtpEntry>) -> Seq<EntryView> {
    v.map_values(|e: FtpEntry| e@)
}

/// The entry in a line of a listing: its name is the ninth word and what follows,
/// its size is the fifth word, and a directory's line starts with `d`. There is
/// none in a shorter line, nor for the directory itself and the one above.
pub open spec fn listed_entry(line: Seq<char>) -> Option<EntryView> {
    let w = words(line, false);
    let name = with_blanks(w.skip(8));
    if w.len() < 9 || name == "."@ || name == ".."@ {
        None
    } else {
        Some(
            EntryView {
                name,
                is_dir: line.len() > 0 && line[0] == 'd',
                size: match parse_decimal(w[4], u64::MAX as nat) {
                    Some(n) => n as u64,
                    None => 0,
                },
            },
        )
    }
}

/// Puts words together, from the position `from` on.
fn join_from(w: &Vec<String>, from: usize) -> (r: String)
    requires
        from < w@.len(),
    ensures
        r@ == with_blanks(texts(w@).skip(from as int)),
{
    let ghost ws = texts(w@).skip(from as int);
    let mut r = w[from].clone();
    let n = w.len();
    let mut i: usize = from + 1;
    assert(ws.take(1) =~= seq![ws[0]]);
    while i < n
        invariant
            n == w@.len(),
            from < i <= n,
            ws == texts(w@).skip(from as int),
            r@ == with_blanks(ws.take(i - from)),
        decreases n - i,
    {
        let ghost t = ws.take(i - from + 1);
        assert(t.drop_last() =~= ws.take(i - from));
        assert(t.last() == w@[i as int]@);
        put(&mut r, ' ');
        r.push_str(w[i].as_str());
        i += 1;
    }
    assert(ws.take(n - from) =~= ws);
    r
}

/// Reads a line of a listing.
pub fn parse_ls(line: &str) -> (r: Option<FtpEntry>)
    ensures
        match r {
            Some(e) => listed_entry(line@) == Some(e@),
            None => listed_entry(line@) is None,
        },
{
    let parts = split_words(line, false);
    if parts.len() < 9 {
        return None;
    }
    let name = join_from(&parts, 8);
    if text_eq(name.as_str(), ".") || text_eq(name.as_str(), "..") {
        return None;
    }
    assert(texts(parts@)[4] == parts@[4]@);
    let digits = chars_of(parts[4].as_str());
    let size = match read_decimal(digits.as_slice(), u64::MAX) {
        Some(n) => n,
        None => 0,
    };
    let v = chars_of(line);
    Some(FtpEntry { name, is_dir: v.len() > 0 && v[0] == 'd', size })
}

/// The entries in the first `k` lines.
pub open spec fn listed_entries(lines: Seq<Seq<char>>, k: int) -> Seq<EntryView>
    decreases k,
{
    if k <= 0 {
        Seq::empty()
    } else {
        match listed_entry(lines[k - 1]) {
            Some(e) => listed_entries(lines, k - 1).push(e),
            None => listed_entries(lines, k - 1),
        }
    }
}

/// The order of a server's entries: directories before files, then by name.
pub open spec fn listed_order(a: EntryView, b: EntryView) -> Order {
    or_else(bool_order(!a.is_dir, !b.is_dir), text_order(a.name, b.name))
}

/// The order of the entries at two positions.
pub open spec fn listed_by_position(v: Seq<EntryView>) -> spec_fn(int, int) -> Order {
    |i: int, j: int| listed_order(v[i], v[j])
}

/// Whether `after` is the listing in `lines`, sorted.
pub open spec fn is_server_listing(lines: Seq<Seq<char>>, after: Seq<EntryView>) -> bool {
    let before = listed_entries(lines, lines.len() as int);
    is_stable_sort(listed_by_position(before), before, after)
}

/// Reads every line that shows an entry.
fn read_entries(lines: &Vec<String>) -> (r: Vec<FtpEntry>)
    ensures
        listed_views(r@) == listed_entries(texts(lines@), lines@.len() as int),
{
    let ghost ls = texts(lines@);
    let mut r: Vec<FtpEntry> = Vec::new();
    let n = lines.len();
    let mut i: usize = 0;
    assert(listed_views(r@) =~= listed_entries(ls, 0));
    while i < n
        invariant
            n == lines@.len(),
            i <= n,
            ls == texts(lines@),
            listed_views(r@) == listed_entries(ls, i as int),
        decreases n - i,
    {
        let ghost before = r@;
        assert(ls[i as int] == lines@[i as int]@);
        match parse_ls(lines[i].as_str()) {
            Some(e) => {
                let ghost v = e@;
                r.push(e);
                assert(listed_views(r@) =~= listed_views(before).push(v));
            },
            None => {},
        }
        i += 1;
    }
    r
}

/// The key that a server's entry is sorted by.
fn listed_key(e: &FtpEntry) -> (k: SortKey)
    ensures
        k@.group == !e.is_dir,
        k@.number == 0,
        k@.first == e.name@,
        k@.second == Seq::<char>::empty(),
{
    SortKey { group: !e.is_dir, number: 0, first: chars_of(e.name.as_str()), second: Vec::new() }
}

/// The entries of a server's directory, out of the lines that it sent.
pub fn list(lines: &Vec<String>) -> (r: Vec<FtpEntry>)
    ensures
        is_server_listing(texts(lines@), listed_views(r@)),
{
    let items = read_entries(lines);
    let ghost vs = listed_views(items@);
    let n = items.len();
    let mut keys: Vec<SortKey> = Vec::new();
    for i in 0..n
        invariant
            n == items@.len(),
            keys@.len() == i,
            forall|j: int|
                0 <= j < i ==> (#[trigger] keys@[j])@.group == !items@[j].is_dir
                    && keys@[j]@.number == 0 && keys@[j]@.first == items@[j].name@
                    && keys@[j]@.second == Seq::<char>::empty(),
    {
        keys.push(listed_key(&items[i]));
    }
    let p = sort_order(&keys, false);
    proof {
        let a = keys_by_position(key_views(keys@), false);
        let b = listed_by_position(vs);
        assert forall|i: int, j: int| 0 <= i < n && 0 <= j < n implies #[trigger] a(i, j) == b(
            i,
            j,
        ) by {
            assert(key_views(keys@)[i] == keys@[i]@);
            assert(key_views(keys@)[j] == keys@[j]@);
            assert(vs[i] == items@[i]@ && vs[j] == items@[j]@);
        }
        crate::order::lemma_same_order(a, b, n as nat, p@);
    }
    let mut r: Vec<FtpEntry> = Vec::new();
    for i in 0..p.len()
        invariant
            n == items@.len(),
            vs == listed_views(items@),
            is_stable_order(listed_by_position(vs), vs.len(), p@),
            r@.len() == i,
            forall|j: int| 0 <= j < i ==> (#[trigger] r@[j])@ == vs[p@[j] as int],
    {
        assert(0 <= p@[i as int] < n);
        let e = &items[p[i]];
        assert(vs[p@[i as int] as int] == e@);
        r.push(FtpEntry { name: e.name.clone(), is_dir: e.is_dir, size: e.size });
    }
    assert(listed_views(r@) =~= Seq::new(p@.len(), |i: int| vs[p@[i] as int]));
    r
}

/// A server's entries as the entries of a pane.
pub fn file_entries(listed: &Vec<FtpEntry>) -> (r: Vec<FileEntry>)
    ensures
        entry_views(r@) == listed_views(listed@),
{
    let mut r: Vec<FileEntry> = Vec::new();
    for i in 0..listed.len()
        invariant
            r@.len() == i,
            forall|j: int| 0 <= j < i ==> (#[trigger] r@[j])@ == listed@[j]@,
    {
        let e = &listed[i];
        r.push(FileEntry { name: e.name.clone(), is_dir: e.is_dir, size: e.size });
    }
    assert(entry_views(r@) =~= listed_views(listed@));
    r
}

/// The first `k` numbers with commas between them.
pub open spec fn with_commas(n: Seq<nat>, k: int) -> Seq<char>
    decreases k,
{
    if k <= 0 {
        Seq::empty()
    } else if k == 1 {
        decimal(n[0])
    } else {
        with_commas(n, k - 1).push(',') + decimal(n[k - 1])
    }
}

/// A number in decimal holds digits only.
proof fn lemma_digits_lack(n: nat, c: char)
    requires
        !is_digit(c),
    ensures
        lacks(decimal(n), c),
{
    decimal_spells_number(n);
    assert forall|i: int| 0 <= i < decimal(n).len() implies decimal(n)[i] != c by {
        assert(is_digit(decimal(n)[i]));
    }
}

/// The pieces of numbers with commas between them.
proof fn lemma_comma_fields(n: Seq<nat>, k: int)
    requires
        1 <= k <= n.len(),
    ensures
        fields(with_commas(n, k), ',') == Seq::new(k as nat, |i: int| decimal(n[i])),
        lacks(with_commas(n, k), ')'),
    decreases k,
{
    lemma_digits_lack(n[k - 1], ',');
    lemma_digits_lack(n[k - 1], ')');
    if k == 1 {
        lemma_only_field(decimal(n[0]), ',');
        assert(fields(with_commas(n, 1), ',') =~= Seq::new(1, |i: int| decimal(n[i])));
    } else {
        lemma_comma_fields(n, k - 1);
        let before = with_commas(n, k - 1);
        let last = decimal(n[k - 1]);
        lemma_last_field(before, ',', last);
        assert(fields(with_commas(n, k), ',') =~= Seq::new(k as nat, |i: int| decimal(n[i])));
        let all = with_commas(n, k);
        assert forall|i: int| 0 <= i < all.len() implies all[i] != ')' by {
            if i < before.len() {
                assert(all[i] == before[i]);
            } else if i > before.len() {
                assert(all[i] == last[i - before.len() - 1]);
            }
        }
    }
}

/// A number in decimal has no white space to trim.
proof fn lemma_digits_stay(n: nat)
    ensures
        trim_start(trim_end(decimal(n))) == decimal(n),
{
    decimal_spells_number(n);
    let d = decimal(n);
    assert(is_digit(d[0]));
    assert(is_digit(d[d.len() - 1]));
}

/// The numbers are read back.
proof fn lemma_numbers_read(n: Seq<nat>, pieces: Seq<Seq<char>>, k: int)
    requires
        0 <= k <= n.len(),
        pieces == Seq::new(n.len(), |i: int| decimal(n[i])),
        forall|i: int| 0 <= i < n.len() ==> #[trigger] n[i] <= 255,
    ensures
        byte_numbers(pieces, k) == n.take(k),
    decreases k,
{
    if k > 0 {
        lemma_numbers_read(n, pieces, k - 1);
        lemma_digits_stay(n[k - 1]);
        decimal_is_read_back(n[k - 1], 255);
        assert(n.take(k) =~= n.take(k - 1).push(n[k - 1]));
    } else {
        assert(n.take(0) =~= Seq::empty());
    }
}

/// The address is read out of a reply in the form that servers send: six numbers
/// in brackets, which are the only ones. What stands around them, and further
/// numbers, do not matter.
pub proof fn passive_address_is_read(before: Seq<char>, n: Seq<nat>, after: Seq<char>)
    requires
        lacks(before, '('),
        lacks(before, ')'),
        n.len() >= 6,
        forall|i: int| 0 <= i < n.len() ==> #[trigger] n[i] <= 255,
    ensures
        ({
            let msg = before + seq!['('] + with_commas(n, n.len() as int) + seq![')'] + after;
            are_brackets_in_order(msg) && bracketed_address(msg) == Ok::<Seq<char>, Seq<char>>(
                data_address(n),
            )
        }),
{
    let list = with_commas(n, n.len() as int);
    let msg = before + seq!['('] + list + seq![')'] + after;
    lemma_comma_fields(n, n.len() as int);
    assert(msg =~= before + seq!['('] + (list + seq![')'] + after));
    lemma_found_first(before, '(', list + seq![')'] + after);
    let upto = before + seq!['('] + list;
    assert forall|i: int| 0 <= i < upto.len() implies upto[i] != ')' by {
        if i < before.len() {
            assert(upto[i] == before[i]);
        } else if i > before.len() {
            assert(upto[i] == list[i - before.len() - 1]);
        }
    }
    lemma_found_first(upto, ')', after);
    assert(msg.subrange(before.len() as int + 1, upto.len() as int) =~= list);
    let pieces = fields(list, ',');
    lemma_numbers_read(n, pieces, n.len() as int);
    assert(n.take(n.len() as int) =~= n);
}

/// A code of three digits stands at the start of a line, as three bytes.
proof fn lemma_code_read(code: nat, line: Seq<char>)
    requires
        100 <= code <= 999,
        has_prefix(line, decimal(code)),
    ensures
        decimal(code).len() == 3,
        reply_code(line) == code,
        starts_ascii(line, 3),
{
    reveal_with_fuel(decimal, 4);
    decimal_spells_number(code);
    let d = decimal(code);
    assert(d.len() == 3);
    assert forall|i: int| 0 <= i < 3 implies (#[trigger] line[i]) as u32 <= 0x7f by {
        assert(line.take(3)[i] == d[i]);
        assert(is_digit(d[i]));
    }
    lemma_ascii_start(line, 3);
    decimal_is_read_back(code, 0xffff);
}

/// Trimming keeps what ends with something else than white space.
proof fn lemma_trim_keeps(p: Seq<char>, s: Seq<char>)
    requires
        p.len() > 0,
        !is_white_space(p.last()),
        has_prefix(s, p),
    ensures
        has_prefix(trim_end(s), p),
        trim_end(s).len() <= s.len(),
        trim_end(s) == s.take(trim_end(s).len() as int),
    decreases s.len(),
{
    if is_white_space(s.last()) {
        let t = s.drop_last();
        if s.len() == p.len() {
            assert(s.take(p.len() as int) =~= s);
        }
        assert(t.take(p.len() as int) =~= s.take(p.len() as int));
        lemma_trim_keeps(p, t);
        assert(t.take(trim_end(t).len() as int) =~= s.take(trim_end(t).len() as int));
    } else {
        assert(s.take(s.len() as int) =~= s);
    }
}

/// A reply of one line, a code and a blank and a text, is complete with that
/// line.
pub proof fn short_reply_is_read(code: nat, text: Seq<char>)
    requires
        100 <= code <= 999,
    ensures
        ({
            let line = decimal(code) + seq![' '] + text;
            reply_step(ReplyStateView::First, line) == ReplyStepView::Done(code, trim_end(line))
        }),
{
    let d = decimal(code);
    let line = d + seq![' '] + text;
    decimal_spells_number(code);
    assert(is_digit(d[d.len() - 1]));
    assert(line.take(d.len() as int) =~= d);
    lemma_trim_keeps(d, line);
    let t = trim_end(line);
    lemma_code_read(code, t);
    if t.len() == 3 {
        lemma_ascii_start(t, 3);
        lemma_cut_joins(t, 3);
        assert(t.skip(3) =~= Seq::<char>::empty());
    } else {
        assert(t[3] == line[3]);
        assert(line[3] == ' ');
        lemma_ascii_start(t, 4);
        assert(encode_utf8(t)[3] == ' ' as u8);
    }
}

/// The reply that the lines make, from a state on; none while it is not complete.
pub open spec fn reply_of(state: ReplyStateView, lines: Seq<Seq<char>>) -> Option<
    (nat, Seq<char>),
>
    decreases lines.len(),
{
    if lines.len() == 0 {
        None
    } else {
        match reply_step(state, lines[0]) {
            ReplyStepView::Done(code, text) => Some((code, text)),
            ReplyStepView::Wait(next) => reply_of(next, lines.skip(1)),
        }
    }
}

/// Lines that do not end a reply change nothing.
proof fn lemma_reply_goes_on(
    code: nat,
    text: Seq<char>,
    middle: Seq<Seq<char>>,
    last: Seq<char>,
)
    requires
        forall|i: int|
            0 <= i < middle.len() ==> !has_prefix(#[trigger] middle[i], decimal(code) + seq![' ']),
        has_prefix(last, decimal(code) + seq![' ']),
    ensures
        reply_of(ReplyStateView::More(code, text), middle.push(last)) == Some((code, text)),
    decreases middle.len(),
{
    let all = middle.push(last);
    if middle.len() > 0 {
        assert(all[0] == middle[0]);
        assert(all.skip(1) =~= middle.skip(1).push(last));
        lemma_reply_goes_on(code, text, middle.skip(1), last);
    }
}

/// A reply of more than one line is complete with the first line that starts with
/// its code and a blank, and gives its first line.
pub proof fn long_reply_is_read(
    code: nat,
    text: Seq<char>,
    middle: Seq<Seq<char>>,
    last: Seq<char>,
)
    requires
        100 <= code <= 999,
        forall|i: int|
            0 <= i < middle.len() ==> !has_prefix(#[trigger] middle[i], decimal(code) + seq![' ']),
        has_prefix(last, decimal(code) + seq![' ']),
    ensures
        ({
            let first = decimal(code) + seq!['-'] + text;
            reply_of(ReplyStateView::First, seq![first] + middle + seq![last]) == Some(
                (code, trim_end(first)),
            )
        }),
{
    let d = decimal(code);
    let first = d + seq!['-'] + text;
    let p = d + seq!['-'];
    assert(first.take(p.len() as int) =~= p);
    lemma_trim_keeps(p, first);
    let t = trim_end(first);
    assert(t.take(d.len() as int) =~= d) by {
        assert(t.take(p.len() as int).take(d.len() as int) =~= t.take(d.len() as int));
    }
    lemma_code_read(code, t);
    assert(t[3] == '-') by {
        assert(t.take(p.len() as int)[3] == p[3]);
    }
    lemma_ascii_start(t, 4);
    assert(encode_utf8(t)[3] == '-' as u8);
    let all = seq![first] + middle + seq![last];
    assert(all[0] == first);
    assert(all.skip(1) =~= middle.push(last));
    lemma_reply_goes_on(code, t, middle, last);
}

/// The directory that a reply quotes is read back, whatever it holds.
pub proof fn quoted_directory_is_read(before: Seq<char>, dir: Seq<char>, after: Seq<char>)
    requires
        lacks(before, '"'),
        lacks(after, '"'),
    ensures
        quoted_directory(before + seq!['"'] + dir + seq!['"'] + after) == dir,
{
    let msg = before + seq!['"'] + dir + seq!['"'] + after;
    assert(msg =~= before + seq!['"'] + (dir + seq!['"'] + after));
    lemma_found_first(before, '"', dir + seq!['"'] + after);
    lemma_found_last(before + seq!['"'] + dir, '"', after);
    let start = before.len() as int + 1;
    assert(msg.subrange(start, start + dir.len()) =~= dir);
}

/// A line of nine words or more, with one blank between them, shows the entry
/// that its words say, unless its name is that of the directory itself or of the
/// one above.
pub proof fn listed_line_is_read(w: Seq<Seq<char>>)
    requires
        w.len() >= 9,
        forall|i: int| 0 <= i < w.len() ==> is_word(#[trigger] w[i], false),
        with_blanks(w.skip(8)) != "."@,
        with_blanks(w.skip(8)) != ".."@,
    ensures
        listed_entry(with_blanks(w)) == Some(
            (EntryView {
                name: with_blanks(w.skip(8)),
                is_dir: w[0][0] == 'd',
                size: match parse_decimal(w[4], u64::MAX as nat) {
                    Some(n) => n as u64,
                    None => 0,
                },
            }),
        ),
{
    joined_words_are_split_again(w, false);
    lemma_first_letter(w);
}

proof fn lemma_first_letter(w: Seq<Seq<char>>)
    requires
        w.len() > 0,
        w[0].len() > 0,
    ensures
        with_blanks(w).len() > 0,
        with_blanks(w)[0] == w[0][0],
    decreases w.len(),
{
    if w.len() > 1 {
        lemma_first_letter(w.drop_last());
    }
}

/// In a server's listing every directory stands before every file.
pub proof fn listed_directories_come_first(
    lines: Seq<Seq<char>>,
    after: Seq<EntryView>,
    i: int,
    j: int,
)
    requires
        is_server_listing(lines, after),
        0 <= i < after.len(),
        0 <= j < after.len(),
        after[i].is_dir,
        !after[j].is_dir,
    ensures
        i < j,
{
    let before = listed_entries(lines, lines.len() as int);
    let ord = listed_by_position(before);
    let p = choose|p: Seq<usize>| #[trigger]
        is_stable_order(ord, before.len(), p) && after == Seq::new(
            p.len(),
            |i: int| before[p[i] as int],
        );
    if j < i {
        assert(crate::order::goes_before(ord, p[j] as int, p[i] as int));
    }
}

/// A server's listing holds the entry of every line that shows one, and each of
/// its entries is from a line of its own: `p` tells from which.
pub proof fn every_line_is_listed(lines: Seq<Seq<char>>, after: Seq<EntryView>) -> (p: Seq<int>)
    requires
        is_server_listing(lines, after),
    ensures
        p.len() == after.len(),
        p.no_duplicates(),
        forall|i: int|
            0 <= i < p.len() ==> 0 <= #[trigger] p[i] < lines.len() && listed_entry(lines[p[i]])
                == Some(after[i]),
        forall|k: int|
            0 <= k < lines.len() && listed_entry(#[trigger] lines[k]) is Some ==> p.contains(k),
        forall|i: int, j: int|
            0 <= i < j < after.len() && (#[trigger] after[i]).is_dir == (
            #[trigger] after[j]).is_dir && after[i].name == after[j].name ==> p[i] < p[j],
{
    let before = listed_entries(lines, lines.len() as int);
    let ord = listed_by_position(before);
    let q = choose|p: Seq<usize>| #[trigger]
        is_stable_order(ord, before.len(), p) && after == Seq::new(
            p.len(),
            |i: int| before[p[i] as int],
        );
    assert(crate::order::is_two_sided(ord)) by {
        assert forall|i: int, j: int| #[trigger] ord(j, i) == crate::order::flipped(ord(i, j)) by {
            crate::order::text_order_flips(before[i].name, before[j].name);
        }
    }
    crate::order::stable_order_is_a_permutation(ord, before.len(), q);
    let src = lemma_lines_of_entries(lines, lines.len() as int);
    let p = Seq::new(after.len(), |i: int| src[q[i] as int]);
    assert forall|i: int, j: int| 0 <= i < p.len() && 0 <= j < p.len() && i != j implies p[i]
        != p[j] by {
        let a = q[i] as int;
        let b = q[j] as int;
        assert(a != b);
        if a < b {
            assert(src[a] < src[b]);
        } else {
            assert(src[b] < src[a]);
        }
    }
    assert forall|k: int|
        0 <= k < lines.len() && listed_entry(#[trigger] lines[k]) is Some implies p.contains(k) by {
        assert(src.contains(k));
        let m = choose|m: int| 0 <= m < src.len() && src[m] == k;
        assert(crate::order::names(q, m));
        let i = choose|i: int| 0 <= i < q.len() && #[trigger] q[i] == m;
        assert(p[i] == k);
    }
    assert forall|i: int, j: int|
        0 <= i < j < after.len() && (#[trigger] after[i]).is_dir == (#[trigger] after[j]).is_dir
            && after[i].name == after[j].name implies p[i] < p[j] by {
        crate::order::text_order_equal(after[i].name, after[j].name);
        assert(crate::order::goes_before(ord, q[i] as int, q[j] as int));
        assert(q[i] < q[j]);
        assert(src[q[i] as int] < src[q[j] as int]);
    }
    p
}

/// A server's listing has as many entries as there are lines that show one, and holds
/// the entry of each.
pub proof fn entries_are_as_many_as_lines(lines: Seq<Seq<char>>, after: Seq<EntryView>, k: int)
    requires
        is_server_listing(lines, after),
    ensures
        after.len() == lines.filter(|l: Seq<char>| listed_entry(l) is Some).len(),
        0 <= k < lines.len() && listed_entry(lines[k]) is Some ==> after.contains(
            listed_entry(lines[k])->0,
        ),
{
    let p = every_line_is_listed(lines, after);
    lemma_as_many_entries(lines);
    if 0 <= k < lines.len() && listed_entry(lines[k]) is Some {
        assert(p.contains(k));
        let i = choose|i: int| 0 <= i < p.len() && p[i] == k;
        assert(listed_entry(lines[p[i]]) == Some(after[i]));
    }
    let before = listed_entries(lines, lines.len() as int);
    let ord = listed_by_position(before);
    let q = choose|p: Seq<usize>| #[trigger]
        is_stable_order(ord, before.len(), p) && after == Seq::new(
            p.len(),
            |i: int| before[p[i] as int],
        );
    assert(after.len() == before.len());
}

/// There are as many entries as lines that show one.
proof fn lemma_as_many_entries(lines: Seq<Seq<char>>)
    ensures
        listed_entries(lines, lines.len() as int).len() == lines.filter(
            |l: Seq<char>| listed_entry(l) is Some,
        ).len(),
    decreases lines.len(),
{
    reveal(Seq::filter);
    if lines.len() > 0 {
        let start = lines.drop_last();
        lemma_as_many_entries(start);
        lemma_same_lines(lines, start, start.len() as int);
    }
}

/// The entries depend on their lines alone.
proof fn lemma_same_lines(a: Seq<Seq<char>>, b: Seq<Seq<char>>, k: int)
    requires
        0 <= k <= a.len(),
        k <= b.len(),
        forall|i: int| 0 <= i < k ==> a[i] == b[i],
    ensures
        listed_entries(a, k) == listed_entries(b, k),
    decreases k,
{
    if k > 0 {
        lemma_same_lines(a, b, k - 1);
    }
}

/// The lines that the entries are from, in their order.
proof fn lemma_lines_of_entries(lines: Seq<Seq<char>>, k: int) -> (src: Seq<int>)
    requires
        0 <= k <= lines.len(),
    ensures
        src.len() == listed_entries(lines, k).len(),
        forall|i: int|
            0 <= i < src.len() ==> 0 <= #[trigger] src[i] < k && listed_entry(lines[src[i]])
                == Some(listed_entries(lines, k)[i]),
        forall|i: int, j: int| 0 <= i < j < src.len() ==> src[i] < src[j],
        forall|m: int|
            0 <= m < k && listed_entry(#[trigger] lines[m]) is Some ==> src.contains(m),
    decreases k,
{
    if k == 0 {
        Seq::empty()
    } else {
        let before = lemma_lines_of_entries(lines, k - 1);
        match listed_entry(lines[k - 1]) {
            Some(e) => {
                let src = before.push(k - 1);
                assert forall|m: int|
                    0 <= m < k && listed_entry(#[trigger] lines[m]) is Some implies src.contains(
                    m,
                ) by {
                    if m == k - 1 {
                        assert(src[before.len() as int] == m);
                    } else {
                        assert(before.contains(m));
                        let i = choose|i: int| 0 <= i < before.len() && before[i] == m;
                        assert(src[i] == m);
                    }
                }
                src
            },
            None => before,
        }
    }
}

/// In a server's listing the names of entries of one kind ascend, as in a
/// dictionary.
pub proof fn listed_names_ascend(
    lines: Seq<Seq<char>>,
    after: Seq<EntryView>,
    i: int,
    j: int,
)
    requires
        is_server_listing(lines, after),
        0 <= i < j < after.len(),
        after[i].is_dir == after[j].is_dir,
    ensures
        !comes_before(after[j].name, after[i].name),
{
    let before = listed_entries(lines, lines.len() as int);
    let ord = listed_by_position(before);
    let p = choose|p: Seq<usize>| #[trigger]
        is_stable_order(ord, before.len(), p) && after == Seq::new(
            p.len(),
            |i: int| before[p[i] as int],
        );
    assert(crate::order::goes_before(ord, p[i] as int, p[j] as int));
    text_order_is_lexicographic(after[i].name, after[j].name);
}

/// The address for the data is that of the first six numbers: the host's four with
/// full stops between them, and the port that the other two make as its high and
/// its low byte.
pub proof fn data_address_has_host_and_port(n: Seq<nat>, host: Seq<char>, port: nat)
    requires
        n.len() >= 6,
        host == decimal(n[0]) + seq!['.'] + decimal(n[1]) + seq!['.'] + decimal(n[2]) + seq!['.']
            + decimal(n[3]),
        port / 256 == n[4],
        port % 256 == n[5],
    ensures
        data_address(n) == host + seq![':'] + decimal(port),
{
}

/// A server is connected to at the port that its address names, else at 21; the
/// host is kept.
pub proof fn address_keeps_the_host(host: Seq<char>)
    ensures
        has_prefix(server_address(host), host),
        lacks(host, ':') ==> server_address(host).skip(host.len() as int) == ":21"@,
        !lacks(host, ':') ==> server_address(host).len() == host.len(),
{
    let a = server_address(host);
    assert(a.take(host.len() as int) =~= host);
    if lacks(host, ':') {
        assert(!host.contains(':'));
        assert(a.skip(host.len() as int) =~= ":21"@);
    }
}

/// A reply with the code that it should have gives its line; any other gives an
/// error that names both codes and holds the line, and an error stays.
pub proof fn reply_is_held_to_its_code(c: nat, code: nat, line: Seq<char>, e: Seq<char>)
    ensures
        expected(Ok((c, line)), code) is Ok <==> c == code,
        c == code ==> expected(Ok((c, line)), code)->Ok_0 == line,
        c != code ==> expected(Ok((c, line)), code)->Err_0 == "got "@ + decimal(c)
            + " expected "@ + decimal(code) + ": "@ + line,
        expected(Err(e), code) == Err::<Seq<char>, Seq<char>>(e),
{
}

/// A server that greets, asks for the password and lets us in gets the name and
/// then the password, each whole, and nothing else. A reply with any other code at
/// any stage ends the login.
pub proof fn login_sends_name_and_password(
    user: Seq<char>,
    pass: Seq<char>,
    text: Seq<char>,
    at: Login,
    code: nat,
)
    ensures
        login_step(Login::Greeting, user, pass, Ok((220, text))) == LoginStepView::Send(
            "USER "@ + user,
            Login::User,
        ),
        login_step(Login::User, user, pass, Ok((331, text))) == LoginStepView::Send(
            "PASS "@ + pass,
            Login::Password,
        ),
        login_step(Login::Password, user, pass, Ok((230, text))) == LoginStepView::Done,
        !(at is Greeting && code == 220) && !(at is User && code == 331) && !(at is Password
            && code == 230) ==> login_step(at, user, pass, Ok((code, text))) is Fail,
{
}

/// A line of fewer than nine words shows no entry, nor does one for the directory
/// itself or the one above.
pub proof fn other_lines_show_nothing(w: Seq<Seq<char>>)
    requires
        forall|i: int| 0 <= i < w.len() ==> is_word(#[trigger] w[i], false),
        w.len() < 9 || with_blanks(w.skip(8)) == "."@ || with_blanks(w.skip(8)) == ".."@,
    ensures
        listed_entry(with_blanks(w)) is None,
{
    joined_words_are_split_again(w, false);
}

/// A size that is written in decimal is read back from a line.
pub proof fn listed_size_is_read(w: Seq<Seq<char>>, size: u64)
    requires
        w.len() >= 9,
        forall|i: int| 0 <= i < w.len() ==> is_word(#[trigger] w[i], false),
        with_blanks(w.skip(8)) != "."@,
        with_blanks(w.skip(8)) != ".."@,
        w[4] == decimal(size as nat),
    ensures
        listed_entry(with_blanks(w)) matches Some(e) && e.size == size && e.name == with_blanks(
            w.skip(8),
        ) && (e.is_dir <==> w[0][0] == 'd'),
{
    listed_line_is_read(w);
    decimal_is_read_back(size as nat, u64::MAX as nat);
}

/// A reply of the right code names the server's directory between quotation marks;
/// after any other, or an error, or without two marks, it is taken for the root.
pub proof fn directory_is_taken_from_the_reply(
    code: nat,
    before: Seq<char>,
    dir: Seq<char>,
    after: Seq<char>,
    e: Seq<char>,
)
    requires
        lacks(before, '"'),
        lacks(after, '"'),
    ensures
        ({
            let msg = before + seq!['"'] + dir + seq!['"'] + after;
            &&& replied_directory(Ok((257, msg))) == dir
            &&& code != 257 ==> replied_directory(Ok((code, msg))) == seq!['/']
        }),
        replied_directory(Err(e)) == seq!['/'],
        replied_directory(Ok((257, before))) == seq!['/'],
        replied_directory(Ok((257, before + seq!['"'] + after))) == seq!['/'],
{
    reveal_strlit("/");
    assert("/"@ =~= seq!['/']);
    quoted_directory_is_read(before, dir, after);
    lemma_first_at(before, '"');
    lemma_found_first(before, '"', after);
    lemma_found_last(before, '"', after);
}

/// The reply to the request for a place for the data gives the address with the host
/// and the port in its brackets, if it has the right code.
pub proof fn passive_reply_gives_host_and_port(
    code: nat,
    before: Seq<char>,
    n: Seq<nat>,
    after: Seq<char>,
    e: Seq<char>,
)
    requires
        lacks(before, '('),
        lacks(before, ')'),
        n.len() >= 6,
        forall|i: int| 0 <= i < n.len() ==> #[trigger] n[i] <= 255,
    ensures
        ({
            let msg = before + seq!['('] + with_commas(n, n.len() as int) + seq![')'] + after;
            &&& is_passive_reply(Ok((227, msg)))
            &&& passive_address(Ok((227, msg))) == Ok::<Seq<char>, Seq<char>>(
                decimal(n[0]) + seq!['.'] + decimal(n[1]) + seq!['.'] + decimal(n[2]) + seq!['.']
                    + decimal(n[3]) + seq![':'] + decimal(256 * n[4] + n[5]),
            )
            &&& code != 227 ==> passive_address(Ok((code, msg))) is Err
        }),
        passive_address(Err(e)) == Err::<Seq<char>, Seq<char>>(e),
{
    passive_address_is_read(before, n, after);
}

/// Without a bracket there is no address, and the error tells which one is missing;
/// with fewer than six numbers there is none either.
pub proof fn missing_bracket_is_told(msg: Seq<char>, before: Seq<char>, after: Seq<char>)
    requires
        lacks(msg, '('),
        lacks(before, '('),
        lacks(before, ')'),
        lacks(after, ')'),
    ensures
        passive_address(Ok((227, msg))) == Err::<Seq<char>, Seq<char>>("no ("@),
        passive_address(Ok((227, before + seq!['('] + after))) == Err::<Seq<char>, Seq<char>>(
            "no )"@,
        ),
        passive_address(Ok((227, before + seq!['(', ')'] + after))) == Err::<Seq<char>, Seq<char>>(
            "bad PASV"@,
        ),
{
    lemma_first_at(msg, '(');
    let open = before + seq!['('] + after;
    lemma_found_first(before, '(', after);
    lemma_first_at(open, ')');
    match first_at(open, ')') {
        Some(i) => {
            if i < before.len() {
                assert(open[i] == before[i]);
            } else if i > before.len() {
                assert(open[i] == after[i - before.len() - 1]);
            }
        },
        None => {},
    }
    let both = before + seq!['(', ')'] + after;
    assert(both =~= before + seq!['('] + (seq![')'] + after));
    lemma_found_first(before, '(', seq![')'] + after);
    let upto = before + seq!['('];
    assert(both =~= upto + seq![')'] + after);
    assert(lacks(upto, ')')) by {
        assert forall|i: int| 0 <= i < upto.len() implies upto[i] != ')' by {
            if i < before.len() {
                assert(upto[i] == before[i]);
            }
        }
    }
    lemma_found_first(upto, ')', after);
    let inside = both.subrange(before.len() as int + 1, upto.len() as int);
    assert(inside =~= Seq::<char>::empty());
    lemma_only_field(inside, ',');
    assert(byte_numbers(fields(inside, ','), 0).len() == 0);
    assert(byte_numbers(fields(inside, ','), 1).len() <= 1);
}

/// The entries of a server are shown with what each says.
pub proof fn server_entries_are_taken_whole(v: Seq<FtpEntry>, i: int)
    requires
        0 <= i < v.len(),
    ensures
        listed_views(v).len() == v.len(),
        listed_views(v)[i].name == v[i].name@,
        listed_views(v)[i].is_dir == v[i].is_dir,
        listed_views(v)[i].size == v[i].size,
{
}

/// The code of a line is the number that its first three bytes spell, and none where
/// they spell no number or the line is shorter.
pub proof fn code_is_in_the_first_three_bytes(a: Seq<char>, rest: Seq<char>)
    requires
        starts_ascii(a, a.len() as int),
    ensures
        a.len() == 3 ==> (match parse_decimal(a, 0xffff) {
            Some(n) => reply_code(a + rest) == n,
            None => reply_code(a + rest) == 0,
        }),
        a.len() < 3 ==> reply_code(a) == 0,
{
    if a.len() == 3 {
        let s = a + rest;
        assert forall|i: int| 0 <= i < 3 implies (#[trigger] s[i]) as u32 <= 0x7f by {
            assert(s[i] == a[i]);
        }
        lemma_ascii_start(s, 3);
        assert(s.take(3) =~= a);
    } else if a.len() < 3 {
        crate::text::lemma_ascii_bytes(a);
        if on_boundary(a, 3) {
            crate::text::lemma_boundary_in_range(a, 3);
        }
    }
}

/// Only a minus sign right behind the code says that the reply goes on.
pub proof fn minus_sign_goes_on(a: Seq<char>, c: char, rest: Seq<char>)
    requires
        a.len() == 3,
        starts_ascii(a, 3),
        c as u32 <= 0x7f,
    ensures
        goes_on(a + seq![c] + rest) <==> c == '-',
        !goes_on(a),
{
    let s = a + seq![c] + rest;
    assert forall|i: int| 0 <= i < 4 implies (#[trigger] s[i]) as u32 <= 0x7f by {
        if i < 3 {
            assert(s[i] == a[i]);
        }
    }
    lemma_ascii_start(s, 4);
    assert(encode_utf8(s)[3] == s[3] as u8);
    crate::text::lemma_ascii_bytes(a);
}

/// Of the pieces between the commas a number of one byte counts, also with blanks
/// around it; a larger one, or what is no number, is left out.
pub proof fn numbers_of_one_byte_count(pieces: Seq<Seq<char>>, v: nat, junk: Seq<char>)
    requires
        parse_decimal(trim_start(trim_end(junk)), 255) is None,
    ensures
        ({
            let n = pieces.len() as int;
            let so_far = byte_numbers(pieces, n);
            &&& v <= 255 ==> byte_numbers(pieces.push(decimal(v)), n + 1) == so_far.push(v)
            &&& v > 255 ==> byte_numbers(pieces.push(decimal(v)), n + 1) == so_far
            &&& v <= 255 ==> byte_numbers(pieces.push(seq![' '] + decimal(v) + seq![' ']), n + 1)
                == so_far.push(v)
            &&& byte_numbers(pieces.push(junk), n + 1) == so_far
        }),
{
    let d = decimal(v);
    let wide = seq![' '] + d + seq![' '];
    lemma_same_pieces(pieces, d);
    lemma_same_pieces(pieces, wide);
    lemma_same_pieces(pieces, junk);
    lemma_digits_stay(v);
    lemma_blanks_around(v);
    if v <= 255 {
        decimal_is_read_back(v, 255);
    } else {
        lemma_too_large(v);
    }
}

/// A number above the largest is not read.
proof fn lemma_too_large(v: nat)
    requires
        v > 255,
    ensures
        parse_decimal(decimal(v), 255) is None,
{
    let d = decimal(v);
    decimal_spells_number(v);
    assert(is_digit(d[0]));
    assert(crate::num::without_plus(d) == d);
}

/// Blanks around a number are trimmed.
proof fn lemma_blanks_around(v: nat)
    ensures
        trim_start(trim_end(seq![' '] + decimal(v) + seq![' '])) == decimal(v),
{
    let d = decimal(v);
    decimal_spells_number(v);
    let start = seq![' '] + d;
    let wide = start + seq![' '];
    assert(is_digit(d[0]) && is_digit(d[d.len() - 1]));
    assert(wide.drop_last() =~= start);
    assert(start.last() == d.last());
    assert(trim_end(start) == start);
    assert(trim_end(wide) == start);
    assert(start.skip(1) =~= d);
    assert(trim_start(d) == d);
    assert(trim_start(start) == d);
}

/// The numbers depend on their pieces alone.
proof fn lemma_same_pieces(pieces: Seq<Seq<char>>, more: Seq<char>)
    ensures
        byte_numbers(pieces.push(more), pieces.len() as int) == byte_numbers(
            pieces,
            pieces.len() as int,
        ),
{
    lemma_same_pieces_up_to(pieces, more, pieces.len() as int);
}

proof fn lemma_same_pieces_up_to(pieces: Seq<Seq<char>>, more: Seq<char>, k: int)
    requires
        0 <= k <= pieces.len(),
    ensures
        byte_numbers(pieces.push(more), k) == byte_numbers(pieces, k),
    decreases k,
{
    if k > 0 {
        lemma_same_pieces_up_to(pieces, more, k - 1);
    }
}

/// A reply is searched for an address only if it has the right code, and then its
/// brackets must not close before they open.
pub proof fn closing_bracket_comes_second(
    code: nat,
    msg: Seq<char>,
    before: Seq<char>,
    after: Seq<char>,
    e: Seq<char>,
)
    requires
        code != 227,
        lacks(before, '('),
    ensures
        is_passive_reply(Ok((code, msg))),
        is_passive_reply(Err(e)),
        lacks(msg, '(') || lacks(msg, ')') ==> is_passive_reply(Ok((227, msg))),
        lacks(before, ')') ==> is_passive_reply(Ok((227, before + seq!['('] + after))),
        !lacks(before, ')') ==> !is_passive_reply(Ok((227, before + seq!['('] + after))),
{
    lemma_first_at(msg, '(');
    lemma_first_at(msg, ')');
    let s = before + seq!['('] + after;
    lemma_found_first(before, '(', after);
    lemma_first_at(s, ')');
    if lacks(before, ')') {
        match first_at(s, ')') {
            Some(i) => {
                if i < before.len() {
                    assert(s[i] == before[i]);
                }
            },
            None => {},
        }
    } else {
        let k = choose|k: int| 0 <= k < before.len() && before[k] == ')';
        assert(s[k] == ')');
    }
}

/// An entry says what the words of its line say, whatever white space stands between
/// them: the name is made of the words from the ninth on, and the first character
/// tells a directory. Where the fifth word is no number, the size is 0.
pub proof fn entry_says_what_the_words_say(line: Seq<char>, e: EntryView)
    requires
        listed_entry(line) == Some(e),
    ensures
        words(line, false).len() >= 9,
        e.name == with_blanks(words(line, false).skip(8)),
        e.is_dir <==> line[0] == 'd',
        parse_decimal(words(line, false)[4], u64::MAX as nat) matches Some(n) ==> e.size == n,
        parse_decimal(words(line, false)[4], u64::MAX as nat) is None ==> e.size == 0,
{
    if line.len() == 0 {
        assert(words(line, false).len() == 0);
    }
}

/// Every line of nine words or more shows an entry, unless that is for the directory
/// itself or the one above.
pub proof fn long_lines_show_entries(line: Seq<char>)
    ensures
        listed_entry(line) is Some <==> words(line, false).len() >= 9 && with_blanks(
            words(line, false).skip(8),
        ) != "."@ && with_blanks(words(line, false).skip(8)) != ".."@,
{
}

/// The first line of a reply decides whether it goes on, gives its code, and is its
/// text, without white space at the end. A further line ends the reply only if it
/// starts with that code and a blank, and the first line stays its text.
pub proof fn first_line_decides(line: Seq<char>, code: nat, text: Seq<char>)
    ensures
        ({
            let t = trim_end(line);
            &&& goes_on(t) ==> reply_step(ReplyStateView::First, line) == ReplyStepView::Wait(
                ReplyStateView::More(reply_code(t), t),
            )
            &&& !goes_on(t) ==> reply_step(ReplyStateView::First, line) == ReplyStepView::Done(
                reply_code(t),
                t,
            )
        }),
        has_prefix(line, decimal(code) + seq![' ']) ==> reply_step(
            ReplyStateView::More(code, text),
            line,
        ) == ReplyStepView::Done(code, text),
        !has_prefix(line, decimal(code) + seq![' ']) ==> reply_step(
            ReplyStateView::More(code, text),
            line,
        ) == ReplyStepView::Wait(ReplyStateView::More(code, text)),
{
}

} // verus!
