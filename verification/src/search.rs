//! Incremental search: the cursor follows what is typed.

use vstd::prelude::*;

use crate::ansi::{
    c_reset, c_status, colours_text, goto, goto_text, hide_cur, reset_text, show_cur, BLACK, CYAN,
};
use crate::draw::scrolled_list;
use crate::entry::{entry_views, EntryView, FileEntry};
use crate::keys::Key;
use crate::listing::ListingView;
use crate::pane::Pane;
use crate::scan::{
    contains, control, has_part, is_control_char, lemma_part_in_lower_case, texts,
};
use crate::text::{
    char_count, is_ascii, lemma_same_in_lower_case, lowercase, pad_right, push_padded,
    same_but_for_case, text_of,
};

verus! {

/// A search: where the cursor was, and what is typed.
pub struct Search {
    pub start: usize,
    pub query: Vec<char>,
}

/// The content of a search.
#[verifier::ext_equal]
pub struct SearchView {
    pub start: int,
    pub query: Seq<char>,
}

impl View for Search {
    type V = SearchView;

    open spec fn view(&self) -> SearchView {
        SearchView { start: self.start as int, query: self.query@ }
    }
}

/// The position of the first text that holds `q`.
pub open spec fn first_holding(names: Seq<Seq<char>>, q: Seq<char>) -> Option<int>
    decreases names.len(),
{
    if names.len() == 0 {
        None
    } else if has_part(names[0], q) {
        Some(0)
    } else {
        match first_holding(names.skip(1), q) {
            Some(i) => Some(i + 1),
            None => None,
        }
    }
}

/// What it means to be the first text that holds `q`.
pub proof fn lemma_first_holding(names: Seq<Seq<char>>, q: Seq<char>)
    ensures
        match first_holding(names, q) {
            Some(i) => 0 <= i < names.len() && has_part(names[i], q) && forall|j: int|
                0 <= j < i ==> !has_part(#[trigger] names[j], q),
            None => forall|j: int| 0 <= j < names.len() ==> !has_part(#[trigger] names[j], q),
        },
    decreases names.len(),
{
    if names.len() > 0 && !has_part(names[0], q) {
        let t = names.skip(1);
        lemma_first_holding(t, q);
        assert forall|j: int| 0 < j < names.len() implies #[trigger] names[j] == t[j - 1] by {}
    }
}

/// Finds the first text that holds `q`.
pub fn find_holding(names: &Vec<String>, q: &str) -> (r: Option<usize>)
    ensures
        match r {
            Some(i) => first_holding(texts(names@), q@) == Some(i as int),
            None => first_holding(texts(names@), q@) is None,
        },
{
    let ghost ns = texts(names@);
    proof {
        lemma_first_holding(ns, q@);
    }
    for i in 0..names.len()
        invariant
            ns == texts(names@),
            forall|j: int| 0 <= j < i ==> !has_part(#[trigger] ns[j], q@),
    {
        assert(ns[i as int] == names@[i as int]@);
        if contains(names[i].as_str(), q) {
            proof {
                lemma_first_holding(ns, q@);
            }
            return Some(i);
        }
    }
    None
}

/// The names of entries in lower case.
pub open spec fn lower_names(entries: Seq<EntryView>) -> Seq<Seq<char>> {
    entries.map_values(|e: EntryView| lowercase(e.name))
}

/// The names of entries in lower case.
fn lowered(entries: &Vec<FileEntry>) -> (r: Vec<String>)
    ensures
        texts(r@) == lower_names(entry_views(entries@)),
{
    let mut r: Vec<String> = Vec::new();
    for i in 0..entries.len()
        invariant
            r@.len() == i,
            forall|j: int| 0 <= j < i ==> (#[trigger] r@[j])@ == lowercase(entries@[j].name@),
    {
        r.push(entries[i].name.as_str().to_lowercase());
    }
    assert(texts(r@) =~= lower_names(entry_views(entries@)));
    r
}

/// The query after a key: a printable character is added, and Backspace takes
/// the last one away.
pub open spec fn query_after(query: Seq<char>, key: Key) -> Seq<char> {
    match key {
        Key::Backspace => if query.len() > 0 {
            query.drop_last()
        } else {
            query
        },
        Key::Char(c) => if is_control_char(c) {
            query
        } else {
            query.push(c)
        },
        _ => query,
    }
}

/// The cursor on the first entry whose name holds the query, in whichever case;
/// where it was if there is none, or if nothing is asked for.
pub open spec fn sought(list: ListingView, query: Seq<char>) -> ListingView {
    if query.len() == 0 {
        list
    } else {
        match first_holding(lower_names(list.entries), lowercase(query)) {
            Some(i) => list.with_cursor(i),
            None => list,
        }
    }
}

/// The listing after a key: Escape puts the cursor back, Enter leaves it, and any
/// other key seeks what is then typed.
pub open spec fn searched(v: SearchView, list: ListingView, key: Key) -> ListingView {
    if key == Key::Esc {
        list.with_cursor(v.start)
    } else if key == Key::Enter {
        list
    } else {
        sought(list, query_after(v.query, key))
    }
}

/// Whether a key ends the search.
pub open spec fn ends_search(key: Key) -> bool {
    key == Key::Esc || key == Key::Enter
}

/// What is written when the search ends: the cursor of the screen disappears.
pub open spec fn search_end(key: Key) -> Seq<char> {
    if ends_search(key) {
        "\x1b[?25l"@
    } else {
        Seq::empty()
    }
}

/// The line that shows the query.
pub open spec fn search_line(query: Seq<char>) -> Seq<char> {
    seq!['/'] + query
}

/// The query over the row above the last one.
pub open spec fn search_text(query: Seq<char>, rows: int, cols: int) -> Seq<char> {
    goto_text((rows - 1) as nat, 1) + colours_text(BLACK, CYAN) + pad_right(
        search_line(query),
        cols,
    ) + reset_text() + goto_text(
        (rows - 1) as nat,
        (search_line(query).len() % 0x1_0000 + 1) as nat,
    )
}

/// Whether the query can be shown: there is a row for it, and the column behind
/// it can be counted.
pub open spec fn is_search_drawable(query: Seq<char>, rows: int) -> bool {
    rows >= 1 && search_line(query).len() % 0x1_0000 != 0xffff
}

impl Search {
    /// A search in this pane. The cursor of the screen appears.
    pub fn new(o: &mut String, pane: &Pane) -> (r: Search)
        ensures
            r@ == (SearchView { start: pane@.list().cursor, query: Seq::empty() }),
            final(o)@ == old(o)@ + "\x1b[?25h"@,
    {
        show_cur(o);
        Search { start: pane.cursor(), query: Vec::new() }
    }

    /// The line that shows the query.
    fn line(&self) -> (r: String)
        ensures
            r@ == search_line(self.query@),
    {
        let mut r = String::new();
        r.push('/');
        r.push_str(text_of(self.query.as_slice()).as_str());
        assert(r@ =~= search_line(self.query@));
        r
    }

    /// Tests whether the query can be shown.
    pub fn drawable(&self, rows: u16) -> (r: bool)
        ensures
            r == is_search_drawable(self.query@, rows as int),
    {
        let n = char_count(self.line().as_str());
        rows >= 1 && n % 0x1_0000 != 0xffff
    }

    /// Shows the query.
    pub fn draw(&self, o: &mut String, rows: u16, cols: u16)
        requires
            is_search_drawable(self.query@, rows as int),
        ensures
            final(o)@ == old(o)@ + search_text(self.query@, rows as int, cols as int),
    {
        let line = self.line();
        let n = char_count(line.as_str());
        let col: u16 = (n % 0x1_0000) as u16 + 1;
        let mut t = String::new();
        goto(&mut t, rows - 1, 1);
        assert(t@ =~= goto_text((rows - 1) as nat, 1));
        c_status(&mut t);
        push_padded(&mut t, line.as_str(), cols as usize);
        c_reset(&mut t);
        goto(&mut t, rows - 1, col);
        o.push_str(t.as_str());
    }
}

/// Takes a key. Gives whether the search goes on.
pub fn op_search(o: &mut String, s: &mut Search, pane: &mut Pane, key: Key) -> (r: bool)
    ensures
        r == !ends_search(key),
        final(pane)@ == old(pane)@.with_list(searched(old(s)@, old(pane)@.list(), key)),
        !ends_search(key) ==> final(s)@ == (SearchView {
            query: query_after(old(s)@.query, key),
            ..old(s)@
        }),
        ends_search(key) ==> final(s)@ == old(s)@,
        final(o)@ == old(o)@ + search_end(key),
{
    match key {
        Key::Esc => {
            *pane.cursor_mut() = s.start;
            hide_cur(o);
            return false;
        },
        Key::Enter => {
            hide_cur(o);
            return false;
        },
        Key::Backspace => {
            s.query.pop();
        },
        Key::Char(c) => {
            if !control(c) {
                s.query.push(c);
            }
        },
        _ => {},
    }
    assert(s.query@ =~= query_after(old(s)@.query, key));
    if s.query.len() > 0 {
        let q = text_of(s.query.as_slice()).as_str().to_lowercase();
        let names = lowered(pane.entries());
        match find_holding(&names, q.as_str()) {
            Some(i) => {
                *pane.cursor_mut() = i;
            },
            None => {},
        }
    }
    assert(o@ =~= old(o)@ + Seq::<char>::empty());
    true
}

/// The search and the listing after some keys. Before each of them the listing is
/// drawn, in so many rows, which scrolls it to the cursor.
pub open spec fn after_keys(
    v: SearchView,
    list: ListingView,
    keys: Seq<Key>,
    rows: Seq<int>,
) -> (SearchView, ListingView)
    decreases keys.len(),
{
    if keys.len() == 0 {
        (v, list)
    } else {
        after_keys(
            SearchView { query: query_after(v.query, keys[0]), ..v },
            searched(v, scrolled_list(list, rows[0]), keys[0]),
            keys.skip(1),
            rows.skip(1),
        )
    }
}

/// Escape leaves the entries, the selection and the cursor as they were when the
/// search began, whatever was typed. Only the first visible row may be another,
/// as the listing was scrolled to what was found meanwhile.
pub proof fn escape_undoes_the_search(
    v: SearchView,
    begun: ListingView,
    list: ListingView,
    keys: Seq<Key>,
    rows: Seq<int>,
    last_rows: int,
)
    requires
        v.start == begun.cursor,
        list == (ListingView { cursor: list.cursor, offset: list.offset, ..begun }),
        forall|i: int| 0 <= i < keys.len() ==> !ends_search(#[trigger] keys[i]),
    ensures
        ({
            let (w, l) = after_keys(v, list, keys, rows);
            let shown = scrolled_list(l, last_rows);
            searched(w, shown, Key::Esc) == (ListingView { offset: shown.offset, ..begun })
        }),
    decreases keys.len(),
{
    if keys.len() > 0 {
        assert(!ends_search(keys[0]));
        escape_undoes_the_search(
            SearchView { query: query_after(v.query, keys[0]), ..v },
            begun,
            searched(v, scrolled_list(list, rows[0]), keys[0]),
            keys.skip(1),
            rows.skip(1),
            last_rows,
        );
    }
}

/// A key of a search moves nothing but the cursor, and leaves it on an entry.
pub proof fn search_moves_only_the_cursor(v: SearchView, list: ListingView, key: Key)
    requires
        list.cursor_is_valid(),
        list.with_cursor(v.start).cursor_is_valid(),
    ensures
        searched(v, list, key) == list.with_cursor(searched(v, list, key).cursor),
        searched(v, list, key).cursor_is_valid(),
{
    lemma_first_holding(lower_names(list.entries), lowercase(query_after(v.query, key)));
}

/// Where some name holds the query, the cursor is on the first one that does.
pub proof fn search_finds_the_first(list: ListingView, query: Seq<char>, k: int)
    requires
        query.len() > 0,
        0 <= k < list.entries.len(),
        has_part(lowercase(list.entries[k].name), lowercase(query)),
    ensures
        ({
            let e = sought(list, query).current();
            e is Some && has_part(lowercase(e.unwrap().name), lowercase(query))
        }),
        sought(list, query).cursor <= k,
{
    let names = lower_names(list.entries);
    lemma_first_holding(names, lowercase(query));
    assert(has_part(names[k], lowercase(query)));
}

/// The case of ASCII letters in the query does not matter.
pub proof fn case_of_the_query_does_not_matter(list: ListingView, p: Seq<char>, q: Seq<char>)
    requires
        same_but_for_case(p, q),
    ensures
        sought(list, p) == sought(list, q),
{
    lemma_same_in_lower_case(p, q);
}

/// The case of ASCII letters in the names does not matter: where every name is the
/// same but for case, the cursor goes to the same place.
pub proof fn case_of_the_names_does_not_matter(a: ListingView, b: ListingView, query: Seq<char>)
    requires
        a.cursor == b.cursor,
        a.entries.len() == b.entries.len(),
        forall|i: int|
            0 <= i < a.entries.len() ==> same_but_for_case(
                (#[trigger] a.entries[i]).name,
                b.entries[i].name,
            ),
    ensures
        sought(a, query).cursor == sought(b, query).cursor,
{
    assert forall|i: int| 0 <= i < a.entries.len() implies lower_names(a.entries)[i]
        == lower_names(b.entries)[i] by {
        lemma_same_in_lower_case(a.entries[i].name, b.entries[i].name);
    }
    assert(lower_names(a.entries) =~= lower_names(b.entries));
}

/// An ASCII name that holds the query, but for case, is found, or one before it.
pub proof fn name_that_holds_the_query_is_found(
    list: ListingView,
    query: Seq<char>,
    part: Seq<char>,
    k: int,
)
    requires
        query.len() > 0,
        same_but_for_case(query, part),
        0 <= k < list.entries.len(),
        is_ascii(list.entries[k].name),
        has_part(list.entries[k].name, part),
    ensures
        ({
            let e = sought(list, query).current();
            e is Some && has_part(lowercase(e.unwrap().name), lowercase(query))
        }),
        sought(list, query).cursor <= k,
{
    lemma_part_in_lower_case(list.entries[k].name, part);
    search_finds_the_first(list, query, k);
}

/// Where no name holds the query, or nothing is typed, the cursor stays.
pub proof fn fruitless_search_moves_nothing(list: ListingView, query: Seq<char>)
    requires
        query.len() == 0 || forall|k: int|
            0 <= k < list.entries.len() ==> !has_part(
                lowercase((#[trigger] list.entries[k]).name),
                lowercase(query),
            ),
    ensures
        sought(list, query) == list,
{
    let names = lower_names(list.entries);
    lemma_first_holding(names, lowercase(query));
    if query.len() > 0 {
        match first_holding(names, lowercase(query)) {
            Some(i) => {
                assert(names[i] == lowercase(list.entries[i].name));
            },
            None => {},
        }
    }
}

/// A printable character is added to the query, Backspace takes the last one away,
/// and no other key changes it.
pub proof fn query_is_what_was_typed(query: Seq<char>, c: char, key: Key)
    ensures
        !is_control_char(c) ==> query_after(query, Key::Char(c)) == query + seq![c],
        !is_control_char(c) ==> query_after(query_after(query, Key::Char(c)), Key::Backspace)
            == query,
        is_control_char(c) ==> query_after(query, Key::Char(c)) == query,
        query_after(Seq::empty(), Key::Backspace) == Seq::<char>::empty(),
        !(key is Char) && !(key is Backspace) ==> query_after(query, key) == query,
{
    assert(query.push(c) =~= query + seq![c]);
    assert(query.push(c).drop_last() =~= query);
}

/// Enter ends the search where the cursor is, Escape where it was at the start, and
/// no other key ends it.
pub proof fn search_ends_by_two_keys(v: SearchView, list: ListingView, key: Key)
    ensures
        ends_search(key) <==> key is Enter || key is Esc,
        searched(v, list, Key::Enter) == list,
        searched(v, list, Key::Esc).cursor == v.start,
        !(key is Enter) && !(key is Esc) ==> searched(v, list, key) == sought(
            list,
            query_after(v.query, key),
        ),
{
}

/// The search is drawn in the row above the last one, in black on cyan: a slash, then
/// what was typed, filled up with blanks; the cursor is left behind it.
pub proof fn search_stands_above_the_last_row(query: Seq<char>, rows: int, cols: int)
    requires
        rows >= 1,
    ensures
        is_search_drawable(query, rows) <==> (query.len() + 2) % 65536 != 0,
        !is_search_drawable(query, 0),
        query.len() < 65534 ==> search_text(query, rows, cols) == goto_text((rows - 1) as nat, 1) + colours_text(
            0x000000,
            0x00aaaa,
        ) + pad_right(seq!['/'] + query, cols) + reset_text() + goto_text(
            (rows - 1) as nat,
            (query.len() + 2) as nat,
        ),
{
}

/// When a search ends the cursor disappears, and not before.
pub proof fn search_hides_the_cursor_at_its_end(key: Key)
    ensures
        key is Enter || key is Esc ==> search_end(key) == "\x1b[?25l"@,
        !(key is Enter) && !(key is Esc) ==> search_end(key).len() == 0,
{
}

} // verus!
