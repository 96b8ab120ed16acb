//! The two kinds of pane: a local directory, and a directory on an FTP server.

use vstd::prelude::*;
use vstd::utf8::encode_utf8;

use crate::entry::{
    entry_views, is_sorted_listing, sort_entries, EntryView, FileEntry, SortBy,
};
use crate::listing::{lemma_first_named, Listing, ListingView};
use crate::path::{
    file_name, is_plain_name, join_name, joined_name_is_found_again, leaf_of, named, parent,
    parent_of, text_view, tidy_end, tidying_again_changes_nothing, DOT,
};
use crate::scan::{
    after_last, behind_last, drop_end_char, lacks, text_is_cut_at_a_character, texts,
    trim_end_matches,
};
use crate::text::{
    chars_of, lemma_ascii_bytes, lemma_encoded_is_shown, shown, shown_text, starts_ascii, text_eq,
    text_of,
};

verus! {

/// A new listing is to be read; then the cursor goes to the entry with the name
/// in `focus`, if there is one.
pub struct Reload {
    pub focus: Option<String>,
}

/// The name to go to, if a new listing is to be read.
pub open spec fn reload_view(r: Option<Reload>) -> Option<Option<Seq<char>>> {
    match r {
        Some(r) => Some(text_view(r.focus)),
        None => None,
    }
}

/// The entry that leads to the directory above.
pub open spec fn way_up() -> EntryView {
    EntryView { name: ".."@, is_dir: true, size: 0 }
}

/// A sorted listing with the way up before it, where there is one.
pub open spec fn with_way_up(path: Seq<u8>, entries: Seq<EntryView>) -> Seq<EntryView> {
    if parent_of(path) is Some {
        seq![way_up()] + entries
    } else {
        entries
    }
}

/// A directory of this machine.
pub struct LocalPane {
    pub path: Vec<u8>,
    pub list: Listing,
    pub sort: SortBy,
    pub reverse: bool,
}

/// The content of a local pane.
#[verifier::ext_equal]
pub struct LocalView {
    pub path: Seq<u8>,
    pub list: ListingView,
    pub sort: SortBy,
    pub reverse: bool,
}

impl View for LocalPane {
    type V = LocalView;

    open spec fn view(&self) -> LocalView {
        LocalView {
            path: self.path@,
            list: self.list@,
            sort: self.sort,
            reverse: self.reverse,
        }
    }
}

impl LocalView {
    /// Whether `after` is this pane with the directory's entries read afresh:
    /// sorted, the way up before them, nothing selected.
    pub open spec fn is_refreshed(self, items: Seq<EntryView>, after: LocalView) -> bool {
        exists|sorted: Seq<EntryView>| #[trigger]
            is_sorted_listing(items, sorted, self.sort, self.reverse) && after == (LocalView {
                list: self.list.replaced(with_way_up(self.path, sorted)),
                ..self
            })
    }

    /// Whether `after` is this pane with the entries read afresh and the cursor
    /// on the name in `focus`.
    pub open spec fn is_reloaded(
        self,
        items: Seq<EntryView>,
        focus: Option<Seq<char>>,
        after: LocalView,
    ) -> bool {
        exists|mid: LocalView| #[trigger]
            self.is_refreshed(items, mid) && after == (match focus {
                Some(name) => LocalView { list: mid.list.focused(name), ..mid },
                None => mid,
            })
    }

    /// The pane at another path, at the top.
    pub open spec fn at_path(self, path: Seq<u8>) -> LocalView {
        LocalView { path, list: self.list.at_top(), ..self }
    }

    /// The pane with its entries to be sorted otherwise.
    pub open spec fn sorted_by(self, sort: SortBy, reverse: bool) -> LocalView {
        LocalView { sort, reverse, ..self }
    }

    /// Going up: the pane, and the name to go to in the new listing. At the root
    /// nothing happens.
    pub open spec fn gone_back(self) -> (LocalView, Option<Option<Seq<char>>>) {
        match parent_of(self.path) {
            Some(p) => (
                self.at_path(p),
                Some(
                    match leaf_of(self.path) {
                        Some(leaf) => Some(shown_text(leaf)),
                        None => None,
                    },
                ),
            ),
            None => (self, None),
        }
    }

    /// Going into the entry under the cursor. On a file nothing happens, and the
    /// way up leads up.
    pub open spec fn entered(self) -> (LocalView, Option<Option<Seq<char>>>) {
        match self.list.current() {
            Some(e) => if !e.is_dir {
                (self, None)
            } else if e.name == ".."@ {
                self.gone_back()
            } else {
                (self.at_path(named(self.path, e.name)), Some(None))
            },
            None => (self, None),
        }
    }
}

impl LocalPane {
    /// A pane at `path`, with the entries of that directory.
    pub fn new(path: Vec<u8>, items: Vec<FileEntry>) -> (r: LocalPane)
        ensures
            (LocalView {
                path: path@,
                list: ListingView {
                    entries: Seq::empty(),
                    cursor: 0,
                    offset: 0,
                    selected: Set::empty(),
                },
                sort: SortBy::Name,
                reverse: false,
            }).is_refreshed(entry_views(items@), r@),
    {
        let none: Vec<FileEntry> = Vec::new();
        assert(entry_views(none@) =~= Seq::empty());
        let mut r = LocalPane { path, list: Listing::new(none), sort: SortBy::Name, reverse: false };
        r.refresh(items);
        r
    }

    /// Takes over the directory's entries.
    pub fn refresh(&mut self, items: Vec<FileEntry>)
        ensures
            old(self)@.is_refreshed(entry_views(items@), final(self)@),
    {
        let mut sorted = sort_entries(&items, self.sort, self.reverse);
        let ghost s = entry_views(sorted@);
        if parent(self.path.as_slice()).is_some() {
            let ghost plain = sorted@;
            let up = FileEntry { name: "..".to_string(), is_dir: true, size: 0 };
            let ghost e = up;
            assert(e@ =~= way_up());
            sorted.insert(0, up);
            assert(sorted@ =~= seq![e] + plain);
            assert(entry_views(sorted@) =~= seq![way_up()] + s);
        }
        assert(entry_views(sorted@) =~= with_way_up(self.path@, s));
        self.list.replace(sorted);
        assert(is_sorted_listing(entry_views(items@), s, old(self).sort, old(self).reverse));
    }

    /// Takes over a new listing, then goes to the name that was asked for.
    pub fn reload(&mut self, items: Vec<FileEntry>, reload: &Reload)
        ensures
            old(self)@.is_reloaded(entry_views(items@), text_view(reload.focus), final(self)@),
    {
        self.refresh(items);
        let ghost mid = self@;
        assert(old(self)@.is_refreshed(entry_views(items@), mid));
        match &reload.focus {
            Some(name) => {
                self.list.focus(name.as_str());
            },
            None => {},
        }
    }

    /// Goes to another path; its listing is then to be read.
    pub fn go_to(&mut self, path: Vec<u8>)
        ensures
            final(self)@ == old(self)@.at_path(path@),
    {
        self.path = path;
        self.list.to_top();
    }

    /// Sorts otherwise; the listing is then to be read again.
    pub fn set_sort(&mut self, sort: SortBy, reverse: bool)
        ensures
            final(self)@ == old(self)@.sorted_by(sort, reverse),
    {
        self.sort = sort;
        self.reverse = reverse;
    }

    /// Goes into the entry under the cursor.
    pub fn enter(&mut self) -> (r: Option<Reload>)
        ensures
            final(self)@ == old(self)@.entered().0,
            reload_view(r) == old(self)@.entered().1,
    {
        let name = match self.list.current() {
            Some(e) => if e.is_dir {
                e.name.clone()
            } else {
                return None;
            },
            None => {
                return None;
            },
        };
        if text_eq(name.as_str(), "..") {
            self.back()
        } else {
            let p = join_name(self.path.as_slice(), name.as_str());
            self.go_to(p);
            Some(Reload { focus: None })
        }
    }

    /// Goes up.
    pub fn back(&mut self) -> (r: Option<Reload>)
        ensures
            final(self)@ == old(self)@.gone_back().0,
            reload_view(r) == old(self)@.gone_back().1,
    {
        match parent(self.path.as_slice()) {
            Some(p) => {
                let focus = match file_name(self.path.as_slice()) {
                    Some(leaf) => Some(shown(leaf.as_slice())),
                    None => None,
                };
                self.go_to(p);
                Some(Reload { focus })
            },
            None => None,
        }
    }

    /// What stands above the pane: its path.
    pub fn title(&self) -> (r: String)
        ensures
            r@ == shown_text(self.path@),
    {
        shown(self.path.as_slice())
    }
}

/// A directory on an FTP server.
pub struct RemotePane {
    pub host: String,
    pub pwd: String,
    pub list: Listing,
}

/// The content of a remote pane.
#[verifier::ext_equal]
pub struct RemoteView {
    pub host: Seq<char>,
    pub pwd: Seq<char>,
    pub list: ListingView,
}

impl View for RemotePane {
    type V = RemoteView;

    open spec fn view(&self) -> RemoteView {
        RemoteView { host: self.host@, pwd: self.pwd@, list: self.list@ }
    }
}

impl RemoteView {
    /// The pane with the server's directory and entries read afresh.
    pub open spec fn refreshed(self, pwd: Seq<char>, entries: Seq<EntryView>) -> RemoteView {
        RemoteView { pwd, list: self.list.replaced(entries), ..self }
    }

    /// The pane after the server changed its directory: at the top, with the
    /// entries read afresh, and the cursor on the name in `focus`.
    pub open spec fn arrived(
        self,
        pwd: Seq<char>,
        entries: Seq<EntryView>,
        focus: Option<Seq<char>>,
    ) -> RemoteView {
        let list = self.list.at_top().replaced(entries);
        RemoteView {
            host: self.host,
            pwd,
            list: match focus {
                Some(name) => list.focused(name),
                None => list,
            },
        }
    }

    /// The directory to change to on entering: the entry under the cursor, if
    /// that is a directory.
    pub open spec fn enter_target(self) -> Option<Seq<char>> {
        match self.list.current() {
            Some(e) => if e.is_dir {
                Some(e.name)
            } else {
                None
            },
            None => None,
        }
    }

    /// The name of the directory that is left on going up.
    pub open spec fn back_focus(self) -> Seq<char> {
        after_last(trim_end_matches(self.pwd, '/'), '/')
    }

    /// What stands above the pane.
    pub open spec fn title(self) -> Seq<char> {
        "ftp://"@ + self.host + self.pwd
    }
}

impl RemotePane {
    /// A pane on a server that was just connected to.
    pub fn new(host: String, pwd: String, entries: Vec<FileEntry>) -> (r: RemotePane)
        ensures
            r@ == (RemoteView {
                host: host@,
                pwd: pwd@,
                list: ListingView {
                    entries: entry_views(entries@),
                    cursor: 0,
                    offset: 0,
                    selected: Set::empty(),
                },
            }),
    {
        RemotePane { host, pwd, list: Listing::new(entries) }
    }

    /// Takes over the server's directory and its entries.
    pub fn refresh(&mut self, pwd: String, entries: Vec<FileEntry>)
        ensures
            final(self)@ == old(self)@.refreshed(pwd@, entry_views(entries@)),
    {
        self.pwd = pwd;
        self.list.replace(entries);
    }

    /// Takes over what the server shows after it changed its directory.
    pub fn arrive(&mut self, pwd: String, entries: Vec<FileEntry>, focus: &Option<String>)
        ensures
            final(self)@ == old(self)@.arrived(pwd@, entry_views(entries@), text_view(*focus)),
    {
        self.list.to_top();
        self.refresh(pwd, entries);
        match focus {
            Some(name) => {
                self.list.focus(name.as_str());
            },
            None => {},
        }
    }

    /// The directory that the server is to change to.
    pub fn enter(&self) -> (r: Option<String>)
        ensures
            text_view(r) == self@.enter_target(),
    {
        match self.list.current() {
            Some(e) => if e.is_dir {
                Some(e.name.clone())
            } else {
                None
            },
            None => None,
        }
    }

    /// The name to go to once the server has gone up.
    pub fn back(&self) -> (r: String)
        ensures
            r@ == self@.back_focus(),
    {
        let v = chars_of(self.pwd.as_str());
        let t = text_of(drop_end_char(v.as_slice(), '/'));
        behind_last(t.as_str(), '/')
    }

    /// What stands above the pane: the address.
    pub fn title(&self) -> (r: String)
        ensures
            r@ == self@.title(),
    {
        let mut r = String::new();
        r.push_str("ftp://");
        r.push_str(self.host.as_str());
        r.push_str(self.pwd.as_str());
        assert(r@ =~= self@.title());
        r
    }
}

/// A pane.
pub enum Pane {
    Local(LocalPane),
    Remote(RemotePane),
}

/// The content of a pane.
#[verifier::ext_equal]
pub enum PaneView {
    Local(LocalView),
    Remote(RemoteView),
}

impl View for Pane {
    type V = PaneView;

    open spec fn view(&self) -> PaneView {
        match self {
            Pane::Local(p) => PaneView::Local(p@),
            Pane::Remote(p) => PaneView::Remote(p@),
        }
    }
}

impl PaneView {
    /// The listing that the pane shows.
    pub open spec fn list(self) -> ListingView {
        match self {
            PaneView::Local(p) => p.list,
            PaneView::Remote(p) => p.list,
        }
    }

    /// The pane with another listing.
    pub open spec fn with_list(self, list: ListingView) -> PaneView {
        match self {
            PaneView::Local(p) => PaneView::Local(LocalView { list, ..p }),
            PaneView::Remote(p) => PaneView::Remote(RemoteView { list, ..p }),
        }
    }

    /// What stands above the pane.
    pub open spec fn title(self) -> Seq<char> {
        match self {
            PaneView::Local(p) => shown_text(p.path),
            PaneView::Remote(p) => p.title(),
        }
    }
}

/// What is to be done to follow the user into a directory or out of one.
pub enum Visit {
    /// Nothing.
    Stay,
    /// The listing of the local pane's path is to be read.
    List(Reload),
    /// The server is to change to this directory; if it does, its directory and
    /// entries are to be read.
    ChangeTo(String),
    /// The server is to go up; if it does, its directory and entries are to be
    /// read and the cursor goes to this name.
    ChangeUp(String),
}

/// The content of a `Visit`.
pub enum VisitView {
    Stay,
    List(Option<Seq<char>>),
    ChangeTo(Seq<char>),
    ChangeUp(Seq<char>),
}

impl View for Visit {
    type V = VisitView;

    open spec fn view(&self) -> VisitView {
        match self {
            Visit::Stay => VisitView::Stay,
            Visit::List(r) => VisitView::List(text_view(r.focus)),
            Visit::ChangeTo(d) => VisitView::ChangeTo(d@),
            Visit::ChangeUp(n) => VisitView::ChangeUp(n@),
        }
    }
}

/// A reading of a listing, if there is one to be done.
pub open spec fn list_or_stay(r: Option<Option<Seq<char>>>) -> VisitView {
    match r {
        Some(focus) => VisitView::List(focus),
        None => VisitView::Stay,
    }
}

/// What entering means for a pane.
pub open spec fn enter_effect(p: PaneView) -> (PaneView, VisitView) {
    match p {
        PaneView::Local(l) => (PaneView::Local(l.entered().0), list_or_stay(l.entered().1)),
        PaneView::Remote(r) => (
            p,
            match r.enter_target() {
                Some(d) => VisitView::ChangeTo(d),
                None => VisitView::Stay,
            },
        ),
    }
}

/// What going up means for a pane.
pub open spec fn back_effect(p: PaneView) -> (PaneView, VisitView) {
    match p {
        PaneView::Local(l) => (PaneView::Local(l.gone_back().0), list_or_stay(l.gone_back().1)),
        PaneView::Remote(r) => (p, VisitView::ChangeUp(r.back_focus())),
    }
}

impl Pane {
    /// The listing of the pane.
    pub fn list(&self) -> (r: &Listing)
        ensures
            r@ == self@.list(),
    {
        match self {
            Pane::Local(p) => &p.list,
            Pane::Remote(p) => &p.list,
        }
    }

    /// The listing of the pane, to be changed.
    pub fn list_mut(&mut self) -> (r: &mut Listing)
        ensures
            r@ == old(self)@.list(),
            final(self)@ == old(self)@.with_list(final(r)@),
    {
        match self {
            Pane::Local(p) => &mut p.list,
            Pane::Remote(p) => &mut p.list,
        }
    }

    /// The entries that the pane shows.
    pub fn entries(&self) -> (r: &Vec<FileEntry>)
        ensures
            entry_views(r@) == self@.list().entries,
    {
        &self.list().entries
    }

    /// The position of the cursor.
    pub fn cursor(&self) -> (r: usize)
        ensures
            r == self@.list().cursor,
    {
        self.list().cursor
    }

    /// The position of the cursor, to be changed.
    pub fn cursor_mut(&mut self) -> (r: &mut usize)
        ensures
            *r == old(self)@.list().cursor,
            final(self)@ == old(self)@.with_list(old(self)@.list().with_cursor(*final(r) as int)),
    {
        &mut self.list_mut().cursor
    }

    /// The first visible row, to be changed.
    pub fn offset_mut(&mut self) -> (r: &mut usize)
        ensures
            *r == old(self)@.list().offset,
            final(self)@ == old(self)@.with_list(
                (ListingView { offset: *final(r) as int, ..old(self)@.list() }),
            ),
    {
        &mut self.list_mut().offset
    }

    /// The first visible row.
    pub fn offset(&self) -> (r: usize)
        ensures
            r == self@.list().offset,
    {
        self.list().offset
    }

    /// What stands above the pane.
    pub fn title(&self) -> (r: String)
        ensures
            r@ == self@.title(),
    {
        match self {
            Pane::Local(p) => p.title(),
            Pane::Remote(p) => p.title(),
        }
    }

    /// Whether the pane is on a server.
    pub fn is_remote(&self) -> (r: bool)
        ensures
            r == (self@ is Remote),
    {
        match self {
            Pane::Local(_) => false,
            Pane::Remote(_) => true,
        }
    }

    /// The entry under the cursor.
    pub fn current(&self) -> (r: Option<&FileEntry>)
        ensures
            match r {
                Some(e) => self@.list().current() == Some(e@),
                None => self@.list().current() is None,
            },
    {
        self.list().current()
    }

    /// The local pane, if it is one.
    pub fn as_local(&self) -> (r: Option<&LocalPane>)
        ensures
            match r {
                Some(p) => self@ == PaneView::Local(p@),
                None => self@ is Remote,
            },
    {
        match self {
            Pane::Local(p) => Some(p),
            Pane::Remote(_) => None,
        }
    }

    /// The local pane, if it is one, to be changed.
    pub fn as_local_mut(&mut self) -> (r: Option<&mut LocalPane>)
        ensures
            match r {
                Some(p) => old(self)@ == PaneView::Local(p@) && final(self)@ == PaneView::Local(
                    final(p)@,
                ),
                None => old(self)@ is Remote && final(self)@ == old(self)@,
            },
    {
        match self {
            Pane::Local(p) => Some(p),
            Pane::Remote(_) => None,
        }
    }

    /// Whether the position is selected.
    pub fn is_selected(&self, idx: usize) -> (r: bool)
        ensures
            r == self@.list().selected.contains(idx),
    {
        self.list().is_selected(idx)
    }

    /// Selects the position, or takes it out of the selection.
    pub fn toggle_sel(&mut self, idx: usize)
        ensures
            final(self)@ == old(self)@.with_list(old(self)@.list().toggled(idx)),
    {
        self.list_mut().toggle_sel(idx);
    }

    /// Selects every entry.
    pub fn select_all(&mut self)
        ensures
            final(self)@ == old(self)@.with_list(old(self)@.list().all_selected()),
    {
        self.list_mut().select_all();
    }

    /// Clears the selection.
    pub fn clear_sel(&mut self)
        ensures
            final(self)@ == old(self)@.with_list(old(self)@.list().none_selected()),
    {
        self.list_mut().clear_sel();
    }

    /// Whether anything is selected.
    pub fn has_selection(&self) -> (r: bool)
        ensures
            r == (self@.list().selected != Set::<usize>::empty()),
    {
        self.list().has_selection()
    }

    /// The names of the selected entries.
    pub fn selected_names(&self) -> (r: Vec<String>)
        ensures
            texts(r@) == self@.list().selected_names(),
    {
        self.list().selected_names()
    }

    /// Goes into the entry under the cursor.
    pub fn enter(&mut self) -> (r: Visit)
        ensures
            (final(self)@, r@) == enter_effect(old(self)@),
    {
        match self {
            Pane::Local(p) => match p.enter() {
                Some(r) => Visit::List(r),
                None => Visit::Stay,
            },
            Pane::Remote(p) => match p.enter() {
                Some(d) => Visit::ChangeTo(d),
                None => Visit::Stay,
            },
        }
    }

    /// Goes up.
    pub fn back(&mut self) -> (r: Visit)
        ensures
            (final(self)@, r@) == back_effect(old(self)@),
    {
        match self {
            Pane::Local(p) => match p.back() {
                Some(r) => Visit::List(r),
                None => Visit::Stay,
            },
            Pane::Remote(p) => Visit::ChangeUp(p.back()),
        }
    }
}

/// The two panes, side by side.
pub struct Panes {
    pub left: Pane,
    pub right: Pane,
}

/// The content of the two panes.
#[verifier::ext_equal]
pub struct PanesView {
    pub left: PaneView,
    pub right: PaneView,
}

impl View for Panes {
    type V = PanesView;

    open spec fn view(&self) -> PanesView {
        PanesView { left: self.left@, right: self.right@ }
    }
}

impl PanesView {
    /// The left pane for 0, else the right one.
    pub open spec fn at(self, i: int) -> PaneView {
        if i == 0 {
            self.left
        } else {
            self.right
        }
    }

    /// The panes with another one in the place `i`.
    pub open spec fn with(self, i: int, p: PaneView) -> PanesView {
        if i == 0 {
            PanesView { left: p, right: self.right }
        } else {
            PanesView { left: self.left, right: p }
        }
    }
}

impl Panes {
    /// The pane in the place `i`.
    pub fn get(&self, i: usize) -> (r: &Pane)
        ensures
            r@ == self@.at(i as int),
    {
        if i == 0 {
            &self.left
        } else {
            &self.right
        }
    }

    /// The pane in the place `i`, to be changed.
    pub fn get_mut(&mut self, i: usize) -> (r: &mut Pane)
        ensures
            r@ == old(self)@.at(i as int),
            final(self)@ == old(self)@.with(i as int, final(r)@),
    {
        if i == 0 {
            &mut self.left
        } else {
            &mut self.right
        }
    }
}

/// The active pane and the other one.
pub fn split(panes: &mut Panes, active: usize) -> (r: (&mut Pane, &mut Pane))
    ensures
        r.0@ == old(panes)@.at(active as int),
        r.1@ == old(panes)@.at(if active == 0 {
            1
        } else {
            0
        }),
        final(panes)@ == (if active == 0 {
            PanesView { left: final(r.0)@, right: final(r.1)@ }
        } else {
            PanesView { left: final(r.1)@, right: final(r.0)@ }
        }),
{
    if active == 0 {
        (&mut panes.left, &mut panes.right)
    } else {
        (&mut panes.right, &mut panes.left)
    }
}

/// Going into a directory and up again brings the pane back to its path, without
/// what means nothing at the end of that, and asks for the cursor on the
/// directory.
pub proof fn leaving_undoes_entering(v: LocalView, inside: LocalView)
    requires
        v.list.current() is Some,
        v.list.current().unwrap().is_dir,
        is_plain_name(encode_utf8(v.list.current().unwrap().name)),
        inside.path == v.entered().0.path,
    ensures
        inside.gone_back().0.path == tidy_end(v.path),
        inside.gone_back().1 == Some(Some(v.list.current().unwrap().name)),
{
    let e = v.list.current().unwrap();
    joined_name_is_found_again(v.path, encode_utf8(e.name));
    lemma_encoded_is_shown(e.name);
    assert(e.name != ".."@) by {
        reveal_strlit("..");
        assert(starts_ascii(".."@, 2));
        lemma_ascii_bytes(".."@);
        assert(encode_utf8(".."@) =~= seq![DOT, DOT]);
    }
}

/// Whether the pane shows a directory that holds these items.
pub open spec fn shows(v: LocalView, items: Seq<EntryView>) -> bool {
    exists|sorted: Seq<EntryView>| #[trigger]
        is_sorted_listing(items, sorted, v.sort, v.reverse) && v.list.entries == with_way_up(
            v.path,
            sorted,
        )
}

/// A pane shows what it was refreshed with, and what it was reloaded with.
pub proof fn read_directory_is_shown(
    v: LocalView,
    items: Seq<EntryView>,
    focus: Option<Seq<char>>,
    after: LocalView,
)
    requires
        v.is_refreshed(items, after) || v.is_reloaded(items, focus, after),
    ensures
        shows(after, items),
{
    let mid = if v.is_refreshed(items, after) {
        after
    } else {
        choose|mid: LocalView| #[trigger]
            v.is_refreshed(items, mid) && after == (match focus {
                Some(name) => LocalView { list: mid.list.focused(name), ..mid },
                None => mid,
            })
    };
    let sorted = choose|sorted: Seq<EntryView>| #[trigger]
        is_sorted_listing(items, sorted, v.sort, v.reverse) && mid == (LocalView {
            list: v.list.replaced(with_way_up(v.path, sorted)),
            ..v
        });
    assert(is_sorted_listing(items, sorted, after.sort, after.reverse));
}

/// Going into a directory and up again restores the pane, if the directory still
/// holds the same items and no entry before it has its name: the entries, the
/// cursor, how they are sorted, and the path without what means nothing at its
/// end. Where the cursor was inside does not matter.
pub proof fn round_trip_restores_the_pane(
    v: LocalView,
    items: Seq<EntryView>,
    inside: LocalView,
    back: LocalView,
)
    requires
        shows(v, items),
        v.list.current() is Some,
        v.list.current().unwrap().is_dir,
        is_plain_name(encode_utf8(v.list.current().unwrap().name)),
        forall|j: int|
            0 <= j < v.list.cursor ==> (#[trigger] v.list.entries[j]).name
                != v.list.current().unwrap().name,
        inside.path == v.entered().0.path,
        inside.sort == v.sort,
        inside.reverse == v.reverse,
        inside.gone_back().1 matches Some(focus) && inside.gone_back().0.is_reloaded(
            items,
            focus,
            back,
        ),
    ensures
        back.list.entries == v.list.entries,
        back.list.cursor == v.list.cursor,
        back.list.selected == Set::<usize>::empty(),
        back.path == tidy_end(v.path),
        back.sort == v.sort,
        back.reverse == v.reverse,
{
    let name = v.list.current().unwrap().name;
    leaving_undoes_entering(v, inside);
    tidying_again_changes_nothing(v.path);
    let up = inside.gone_back().0;
    let mid = choose|mid: LocalView| #[trigger]
        up.is_refreshed(items, mid) && back == (LocalView {
            list: mid.list.focused(name),
            ..mid
        });
    let t = choose|sorted: Seq<EntryView>| #[trigger]
        is_sorted_listing(items, sorted, up.sort, up.reverse) && mid == (LocalView {
            list: up.list.replaced(with_way_up(up.path, sorted)),
            ..up
        });
    let s = choose|sorted: Seq<EntryView>| #[trigger]
        is_sorted_listing(items, sorted, v.sort, v.reverse) && v.list.entries == with_way_up(
            v.path,
            sorted,
        );
    crate::entry::sorted_listing_is_unique(items, s, t, v.sort, v.reverse);
    assert(mid.list.entries == v.list.entries);
    lemma_first_named(mid.list.entries, name);
    assert(v.list.entries[v.list.cursor].name == name);
}

/// After going up, the cursor is on the directory that was left, wherever the
/// listing holds it as it was read: also if its name is not UTF-8.
pub proof fn left_directory_is_found(
    v: LocalView,
    leaf: Seq<u8>,
    items: Seq<EntryView>,
    after: LocalView,
    k: int,
)
    requires
        leaf_of(v.path) == Some(leaf),
        v.gone_back().1 matches Some(focus) && v.gone_back().0.is_reloaded(items, focus, after),
        0 <= k < items.len(),
        items[k].name == shown_text(leaf),
    ensures
        after.list.current() is Some,
        after.list.current().unwrap().name == shown_text(leaf),
{
    reloading_finds_the_name(v.gone_back().0, items, shown_text(leaf), after, k);
}

/// The cursor goes to the name that was asked for, where the directory holds it.
pub proof fn reloading_finds_the_name(
    before: LocalView,
    items: Seq<EntryView>,
    name: Seq<char>,
    after: LocalView,
    k: int,
)
    requires
        before.is_reloaded(items, Some(name), after),
        0 <= k < items.len(),
        items[k].name == name,
    ensures
        after.list.current() is Some,
        after.list.current().unwrap().name == name,
{
    let mid = choose|mid: LocalView| #[trigger]
        before.is_refreshed(items, mid) && after == (LocalView {
            list: mid.list.focused(name),
            ..mid
        });
    let sorted = choose|sorted: Seq<EntryView>| #[trigger]
        is_sorted_listing(items, sorted, before.sort, before.reverse) && mid == (LocalView {
            list: before.list.replaced(with_way_up(before.path, sorted)),
            ..before
        });
    let p = crate::entry::sorting_keeps_the_entries(items, sorted, before.sort, before.reverse);
    assert(crate::order::names(p, k));
    let i = choose|i: int| 0 <= i < p.len() && #[trigger] p[i] == k;
    assert(sorted[i] == items[k]);
    let all = with_way_up(before.path, sorted);
    let j = if parent_of(before.path) is Some {
        i + 1
    } else {
        i
    };
    assert(all[j] == sorted[i]);
    lemma_first_named(all, name);
}

/// Reading the same directory again changes nothing more.
pub proof fn refreshing_again_changes_nothing(
    v: LocalView,
    items: Seq<EntryView>,
    a: LocalView,
    b: LocalView,
)
    requires
        v.is_refreshed(items, a),
        a.is_refreshed(items, b),
    ensures
        b == a,
{
    let s = choose|sorted: Seq<EntryView>| #[trigger]
        is_sorted_listing(items, sorted, v.sort, v.reverse) && a == (LocalView {
            list: v.list.replaced(with_way_up(v.path, sorted)),
            ..v
        });
    let t = choose|sorted: Seq<EntryView>| #[trigger]
        is_sorted_listing(items, sorted, a.sort, a.reverse) && b == (LocalView {
            list: a.list.replaced(with_way_up(a.path, sorted)),
            ..a
        });
    crate::entry::sorted_listing_is_unique(items, s, t, v.sort, v.reverse);
}

/// After a refresh the cursor is on an entry, nothing is selected, and the way up
/// stands first wherever there is one.
pub proof fn refreshed_pane_is_in_order(v: LocalView, items: Seq<EntryView>, after: LocalView)
    requires
        v.is_refreshed(items, after),
        v.list.cursor >= 0,
    ensures
        after.list.cursor_is_valid(),
        after.list.selected == Set::<usize>::empty(),
        parent_of(v.path) is Some ==> after.list.entries.len() > 0 && after.list.entries[0]
            == way_up(),
        after.path == v.path,
        after.sort == v.sort,
        after.reverse == v.reverse,
{
}

/// So it is after a reload.
pub proof fn reloaded_pane_is_in_order(
    v: LocalView,
    items: Seq<EntryView>,
    focus: Option<Seq<char>>,
    after: LocalView,
)
    requires
        v.is_reloaded(items, focus, after),
        v.list.cursor >= 0,
    ensures
        after.list.cursor_is_valid(),
        after.list.selected == Set::<usize>::empty(),
        parent_of(v.path) is Some ==> after.list.entries.len() > 0 && after.list.entries[0]
            == way_up(),
        after.path == v.path,
        after.sort == v.sort,
        after.reverse == v.reverse,
{
    let mid = choose|mid: LocalView| #[trigger]
        v.is_refreshed(items, mid) && after == (match focus {
            Some(name) => LocalView { list: mid.list.focused(name), ..mid },
            None => mid,
        });
    refreshed_pane_is_in_order(v, items, mid);
    match focus {
        Some(name) => {
            lemma_first_named(mid.list.entries, name);
        },
        None => {},
    }
}

/// A remote pane that arrives in a directory has its cursor on an entry, which is
/// the one with the name that was asked for wherever there is one, and nothing
/// selected.
pub proof fn arrived_pane_is_in_order(
    v: RemoteView,
    pwd: Seq<char>,
    entries: Seq<EntryView>,
    name: Seq<char>,
    k: int,
)
    ensures
        v.arrived(pwd, entries, Some(name)).list.cursor_is_valid(),
        v.arrived(pwd, entries, None).list.cursor_is_valid(),
        v.arrived(pwd, entries, Some(name)).list.selected == Set::<usize>::empty(),
        0 <= k < entries.len() && entries[k].name == name ==> ({
            let e = v.arrived(pwd, entries, Some(name)).list.current();
            e is Some && e.unwrap().name == name
        }),
{
    lemma_first_named(entries, name);
}

/// Going into a directory goes to the path of the entry under the cursor, below the
/// path of the pane, and to the top of its listing, which is to be read; a file is
/// not entered. How the entries are sorted stays.
pub proof fn entering_goes_below(v: LocalView, e: EntryView)
    requires
        v.list.current() == Some(e),
    ensures
        !e.is_dir ==> v.entered() == (v, None::<Option<Seq<char>>>),
        e.is_dir && e.name != ".."@ ==> ({
            let (w, read) = v.entered();
            &&& w.path == named(v.path, e.name)
            &&& w.list.cursor == 0
            &&& w.list.offset == 0
            &&& w.sort == v.sort
            &&& w.reverse == v.reverse
            &&& read == Some(None::<Seq<char>>)
        }),
        e.is_dir && e.name == ".."@ ==> v.entered() == v.gone_back(),
{
}

/// Going up from a name in a directory goes to that directory and asks for the
/// cursor on the name; there is nothing above the root.
pub proof fn going_up_leaves_the_name(v: LocalView, dir: Seq<u8>, name: Seq<char>)
    requires
        is_plain_name(encode_utf8(name)),
    ensures
        v.path == named(dir, name) ==> ({
            let (w, read) = v.gone_back();
            &&& w.path == tidy_end(dir)
            &&& w.list.cursor == 0
            &&& w.list.offset == 0
            &&& w.sort == v.sort
            &&& w.reverse == v.reverse
            &&& read == Some(Some(name))
        }),
        v.path == seq![0x2fu8] ==> v.gone_back() == (v, None::<Option<Seq<char>>>),
{
    joined_name_is_found_again(dir, encode_utf8(name));
    lemma_encoded_is_shown(name);
    crate::path::paths_of_one_part(encode_utf8(name), dir);
}

/// After a directory was read, the pane shows each of its items once, and besides
/// them only the way up, first, where there is a directory above: `p` tells which
/// item each line shows.
pub proof fn each_item_is_shown(v: LocalView, items: Seq<EntryView>, after: LocalView) -> (p: Seq<
    usize,
>)
    requires
        v.is_refreshed(items, after),
    ensures
        ({
            let up: int = if parent_of(v.path) is Some {
                1
            } else {
                0
            };
            &&& after.list.entries.len() == items.len() + up
            &&& up == 1 ==> after.list.entries[0].name == ".."@ && after.list.entries[0].is_dir
                && after.list.entries[0].size == 0
            &&& p.len() == items.len()
            &&& p.no_duplicates()
            &&& forall|i: int|
                0 <= i < items.len() ==> #[trigger] p[i] < items.len() && after.list.entries[i + up]
                    == items[p[i] as int]
        }),
{
    let sorted = choose|sorted: Seq<EntryView>| #[trigger]
        is_sorted_listing(items, sorted, v.sort, v.reverse) && after == (LocalView {
            list: v.list.replaced(with_way_up(v.path, sorted)),
            ..v
        });
    let p = crate::entry::sorting_keeps_the_entries(items, sorted, v.sort, v.reverse);
    assert forall|i: int| 0 <= i < items.len() implies #[trigger] p[i] < items.len() && sorted[i]
        == items[p[i] as int] by {
        assert(sorted[i] == sorted[i]);
    }
    p
}

/// On a server, the name of the directory that is left on going up is the last one
/// of its path, with or without slashes behind it.
pub proof fn remote_directory_is_left_by_name(
    r: RemoteView,
    dir: Seq<char>,
    name: Seq<char>,
    slashes: Seq<char>,
)
    requires
        name.len() > 0,
        lacks(name, '/'),
        forall|i: int| 0 <= i < slashes.len() ==> #[trigger] slashes[i] == '/',
        r.pwd == dir + seq!['/'] + name + slashes,
    ensures
        r.back_focus() == name,
{
    let s = dir + seq!['/'] + name;
    lemma_trimmed_back(s, slashes);
    assert(s.last() == name.last());
    assert(name[name.len() - 1] != '/');
    text_is_cut_at_a_character(dir, '/', name);
}

/// What is all one character at the end is trimmed.
proof fn lemma_trimmed_back(s: Seq<char>, t: Seq<char>)
    requires
        s.len() > 0,
        s.last() != '/',
        forall|i: int| 0 <= i < t.len() ==> #[trigger] t[i] == '/',
    ensures
        trim_end_matches(s + t, '/') == s,
    decreases t.len(),
{
    if t.len() == 0 {
        assert(s + t =~= s);
    } else {
        let u = t.drop_last();
        assert forall|i: int| 0 <= i < u.len() implies #[trigger] u[i] == '/' by {
            assert(u[i] == t[i]);
        }
        lemma_trimmed_back(s, u);
        assert((s + t).drop_last() =~= s + u);
        assert(t[t.len() - 1] == '/');
    }
}

/// A remote pane changes to the directory under the cursor, by the name that it has,
/// and not to a file; going up asks the server for that. The pane stays until the
/// server has answered.
pub proof fn remote_pane_changes_by_name(r: RemoteView, e: EntryView)
    requires
        r.list.current() == Some(e),
    ensures
        enter_effect(PaneView::Remote(r)) == (
            PaneView::Remote(r),
            if e.is_dir {
                VisitView::ChangeTo(e.name)
            } else {
                VisitView::Stay
            },
        ),
        back_effect(PaneView::Remote(r)).0 == PaneView::Remote(r),
        back_effect(PaneView::Remote(r)).1 == VisitView::ChangeUp(r.back_focus()),
{
}

/// A remote pane shows the entries of the directory that it arrived in, in their
/// order, under that directory; its host stays.
pub proof fn arrived_pane_shows_the_directory(
    r: RemoteView,
    pwd: Seq<char>,
    entries: Seq<EntryView>,
    focus: Option<Seq<char>>,
)
    ensures
        r.arrived(pwd, entries, focus).list.entries == entries,
        r.arrived(pwd, entries, focus).pwd == pwd,
        r.arrived(pwd, entries, focus).host == r.host,
        r.arrived(pwd, entries, focus).list.offset == 0,
        r.arrived(pwd, entries, None).list.cursor == 0,
        r.refreshed(pwd, entries).list.entries == entries,
        r.refreshed(pwd, entries).pwd == pwd,
        r.refreshed(pwd, entries).host == r.host,
{
}

/// The title of a remote pane is its address: the scheme, the host and the path; that
/// of a local pane is its path.
pub proof fn title_is_the_address(r: RemoteView, l: LocalView)
    ensures
        ({
            let t = PaneView::Remote(r).title();
            &&& t.len() == 6 + r.host.len() + r.pwd.len()
            &&& t.take(6) == seq!['f', 't', 'p', ':', '/', '/']
            &&& t.subrange(6, 6 + r.host.len() as int) == r.host
            &&& t.skip(6 + r.host.len() as int) == r.pwd
        }),
        vstd::utf8::valid_utf8(l.path) ==> encode_utf8(PaneView::Local(l).title()) == l.path,
{
    reveal_strlit("ftp://");
    let t = PaneView::Remote(r).title();
    assert(t.take(6) =~= seq!['f', 't', 'p', ':', '/', '/']);
    assert(t.subrange(6, 6 + r.host.len() as int) =~= r.host);
    assert(t.skip(6 + r.host.len() as int) =~= r.pwd);
    if vstd::utf8::valid_utf8(l.path) {
        crate::text::lemma_shown_is_encoded(l.path);
    }
}

/// A pane with another listing shows that, and is otherwise the same.
pub proof fn listing_is_replaced_alone(p: PaneView, a: ListingView, b: ListingView)
    ensures
        p.with_list(a).list() == a,
        p.with_list(p.list()) == p,
        p.with_list(a).with_list(b) == p.with_list(b),
        p.with_list(a).title() == p.title(),
{
}

/// Of the two panes, one is replaced and the other stays.
pub proof fn pane_is_replaced_alone(v: PanesView, i: int, p: PaneView)
    ensures
        v.with(i, p).at(i) == p,
        i == 0 ==> v.with(i, p).at(1) == v.at(1) && v.at(i) == v.left,
        i != 0 ==> v.with(i, p).at(0) == v.at(0) && v.at(i) == v.right,
        v.with(i, v.at(i)) == v,
{
}

/// Reading a directory again leaves the cursor where it was, if there is an entry, and
/// does not scroll; reading it without a name to go to is the same, and so is reading it
/// with a name that is not there.
pub proof fn refreshing_keeps_the_place(
    v: LocalView,
    items: Seq<EntryView>,
    name: Seq<char>,
    after: LocalView,
)
    requires
        v.is_refreshed(items, after) || v.is_reloaded(items, None, after) || (v.is_reloaded(
            items,
            Some(name),
            after,
        ) && forall|i: int|
            0 <= i < after.list.entries.len() ==> (#[trigger] after.list.entries[i]).name != name),
        v.list.cursor >= 0,
    ensures
        after.list.offset == v.list.offset,
        v.list.cursor < after.list.entries.len() ==> after.list.cursor == v.list.cursor,
        v.list.cursor >= after.list.entries.len() > 0 ==> after.list.cursor
            == after.list.entries.len() - 1,
{
    if !v.is_refreshed(items, after) {
        if v.is_reloaded(items, None, after) {
            assert(v.is_refreshed(items, after));
        } else {
            let mid = choose|mid: LocalView| #[trigger]
                v.is_refreshed(items, mid) && after == (LocalView {
                    list: mid.list.focused(name),
                    ..mid
                });
            assert(after.list.entries == mid.list.entries);
            lemma_first_named(mid.list.entries, name);
        }
    }
}

/// Sorting otherwise changes the criterion and the direction alone, until the listing
/// is read again; going elsewhere changes the path, and goes to the top.
pub proof fn one_thing_changes_at_a_time(v: LocalView, sort: SortBy, reverse: bool, path: Seq<u8>)
    ensures
        v.sorted_by(sort, reverse).sort == sort,
        v.sorted_by(sort, reverse).reverse == reverse,
        v.sorted_by(sort, reverse).path == v.path,
        v.sorted_by(sort, reverse).list == v.list,
        v.at_path(path).path == path,
        v.at_path(path).list.entries == v.list.entries,
        v.at_path(path).list.cursor == 0,
        v.at_path(path).list.offset == 0,
        v.at_path(path).sort == v.sort,
        v.at_path(path).reverse == v.reverse,
{
}

} // verus!
