//! A listing with a cursor, a first visible row and a selection.

use std::collections::BTreeSet;

use vstd::prelude::*;

use crate::entry::{entry_views, EntryView, FileEntry};
use crate::scan::texts;
use crate::text::text_eq;

verus! {

/// The entries that a pane shows, and where in them the user is.
pub struct Listing {
    pub entries: Vec<FileEntry>,
    pub cursor: usize,
    pub offset: usize,
    pub selected: BTreeSet<usize>,
}

/// The content of a listing.
#[verifier::ext_equal]
pub struct ListingView {
    pub entries: Seq<EntryView>,
    pub cursor: int,
    pub offset: int,
    pub selected: Set<usize>,
}

impl View for Listing {
    type V = ListingView;

    open spec fn view(&self) -> ListingView {
        ListingView {
            entries: entry_views(self.entries@),
            cursor: self.cursor as int,
            offset: self.offset as int,
            selected: self.selected@,
        }
    }
}

impl ListingView {
    /// Whether the cursor is on an entry; in an empty listing it is at the top.
    pub open spec fn cursor_is_valid(self) -> bool {
        if self.entries.len() == 0 {
            self.cursor == 0
        } else {
            0 <= self.cursor < self.entries.len()
        }
    }

    /// The listing with the cursor at `c`.
    pub open spec fn with_cursor(self, c: int) -> ListingView {
        ListingView { cursor: c, ..self }
    }

    /// The listing with another selection.
    pub open spec fn with_selected(self, s: Set<usize>) -> ListingView {
        ListingView { selected: s, ..self }
    }

    /// The position of the last entry, or the top.
    pub open spec fn last(self) -> int {
        if self.entries.len() == 0 {
            0
        } else {
            self.entries.len() - 1
        }
    }

    /// The cursor moved up by `n` rows, as far as there are some.
    pub open spec fn moved_up(self, n: int) -> ListingView {
        self.with_cursor(
            if self.cursor > n {
                self.cursor - n
            } else {
                0
            },
        )
    }

    /// The cursor moved down by `n` rows, to the last entry at most.
    pub open spec fn moved_down(self, n: int) -> ListingView {
        self.with_cursor(
            if self.cursor + n < self.last() {
                self.cursor + n
            } else {
                self.last()
            },
        )
    }

    /// The cursor on the next entry, if there is one.
    pub open spec fn stepped_down(self) -> ListingView {
        if self.cursor + 1 < self.entries.len() {
            self.with_cursor(self.cursor + 1)
        } else {
            self
        }
    }

    /// The position `i` put into the selection, or taken out of it.
    pub open spec fn toggled(self, i: usize) -> ListingView {
        self.with_selected(
            if self.selected.contains(i) {
                self.selected.remove(i)
            } else {
                self.selected.insert(i)
            },
        )
    }

    /// Every entry selected.
    pub open spec fn all_selected(self) -> ListingView {
        self.with_selected(Set::new(|i: usize| i < self.entries.len()))
    }

    /// Nothing selected.
    pub open spec fn none_selected(self) -> ListingView {
        self.with_selected(Set::empty())
    }

    /// New entries: the cursor stays where it was, as far as there are entries,
    /// and nothing is selected.
    pub open spec fn replaced(self, entries: Seq<EntryView>) -> ListingView {
        let last = if entries.len() == 0 {
            0
        } else {
            entries.len() - 1
        };
        ListingView {
            entries,
            cursor: if self.cursor < last {
                self.cursor
            } else {
                last
            },
            offset: self.offset,
            selected: Set::empty(),
        }
    }

    /// The cursor and the first visible row at the top.
    pub open spec fn at_top(self) -> ListingView {
        ListingView { cursor: 0, offset: 0, ..self }
    }

    /// The cursor on the first entry with this name, if there is one.
    pub open spec fn focused(self, name: Seq<char>) -> ListingView {
        match first_named(self.entries, name) {
            Some(i) => self.with_cursor(i),
            None => self,
        }
    }

    /// The names of the selected entries up to the position `k`, in their order,
    /// without the way up.
    pub open spec fn names_up_to(self, k: int) -> Seq<Seq<char>>
        decreases k,
    {
        if k <= 0 {
            Seq::empty()
        } else {
            let before = self.names_up_to(k - 1);
            if self.selected.contains((k - 1) as usize) && self.entries[k - 1].name != ".."@ {
                before.push(self.entries[k - 1].name)
            } else {
                before
            }
        }
    }

    /// The names of the selected entries, in their order, without the way up.
    pub open spec fn selected_names(self) -> Seq<Seq<char>> {
        self.names_up_to(self.entries.len() as int)
    }

    /// The entry under the cursor.
    pub open spec fn current(self) -> Option<EntryView> {
        if 0 <= self.cursor < self.entries.len() {
            Some(self.entries[self.cursor])
        } else {
            None
        }
    }
}

/// The position of the first entry with this name.
pub open spec fn first_named(entries: Seq<EntryView>, name: Seq<char>) -> Option<int>
    decreases entries.len(),
{
    if entries.len() == 0 {
        None
    } else if entries[0].name == name {
        Some(0)
    } else {
        match first_named(entries.skip(1), name) {
            Some(i) => Some(i + 1),
            None => None,
        }
    }
}

/// What it means to be the first entry with a name.
pub proof fn lemma_first_named(entries: Seq<EntryView>, name: Seq<char>)
    ensures
        match first_named(entries, name) {
            Some(i) => 0 <= i < entries.len() && entries[i].name == name && forall|j: int|
                0 <= j < i ==> (#[trigger] entries[j]).name != name,
            None => forall|j: int| 0 <= j < entries.len() ==> (#[trigger] entries[j]).name != name,
        },
    decreases entries.len(),
{
    if entries.len() > 0 && entries[0].name != name {
        let t = entries.skip(1);
        lemma_first_named(t, name);
        assert forall|j: int| 0 < j < entries.len() implies #[trigger] entries[j] == t[j - 1] by {}
    }
}

/// Finds the first entry with a name.
pub fn position_of(entries: &Vec<FileEntry>, name: &str) -> (r: Option<usize>)
    ensures
        match r {
            Some(i) => first_named(entry_views(entries@), name@) == Some(i as int),
            None => first_named(entry_views(entries@), name@) is None,
        },
{
    let ghost vs = entry_views(entries@);
    proof {
        lemma_first_named(vs, name@);
    }
    for i in 0..entries.len()
        invariant
            vs == entry_views(entries@),
            forall|j: int| 0 <= j < i ==> (#[trigger] vs[j]).name != name@,
    {
        assert(vs[i as int] == entries@[i as int]@);
        if text_eq(entries[i].name.as_str(), name) {
            proof {
                lemma_first_named(vs, name@);
            }
            return Some(i);
        }
    }
    None
}

impl Listing {
    /// A listing of these entries, with the cursor at the top.
    pub fn new(entries: Vec<FileEntry>) -> (r: Listing)
        ensures
            r@ == (ListingView {
                entries: entry_views(entries@),
                cursor: 0,
                offset: 0,
                selected: Set::empty(),
            }),
    {
        Listing { entries, cursor: 0, offset: 0, selected: BTreeSet::new() }
    }

    /// Moves the cursor up.
    pub fn move_up(&mut self, n: usize)
        ensures
            final(self)@ == old(self)@.moved_up(n as int),
    {
        self.cursor = self.cursor.saturating_sub(n);
    }

    /// Moves the cursor down.
    pub fn move_down(&mut self, n: usize)
        ensures
            final(self)@ == old(self)@.moved_down(n as int),
    {
        let last = self.entries.len().saturating_sub(1);
        let to = self.cursor.saturating_add(n);
        self.cursor = if to < last {
            to
        } else {
            last
        };
    }

    /// Moves the cursor to the next entry.
    pub fn step_down(&mut self)
        ensures
            final(self)@ == old(self)@.stepped_down(),
    {
        let len = self.entries.len();
        if len > 0 && self.cursor < len - 1 {
            self.cursor = self.cursor + 1;
        }
    }

    /// Moves the cursor to the first entry.
    pub fn move_home(&mut self)
        ensures
            final(self)@ == old(self)@.with_cursor(0),
    {
        self.cursor = 0;
    }

    /// Moves the cursor to the last entry.
    pub fn move_end(&mut self)
        ensures
            final(self)@ == old(self)@.with_cursor(old(self)@.last()),
    {
        self.cursor = self.entries.len().saturating_sub(1);
    }

    /// The entry under the cursor.
    pub fn current(&self) -> (r: Option<&FileEntry>)
        ensures
            match r {
                Some(e) => self@.current() == Some(e@),
                None => self@.current() is None,
            },
    {
        if self.cursor < self.entries.len() {
            Some(&self.entries[self.cursor])
        } else {
            None
        }
    }

    /// Whether the position is selected.
    pub fn is_selected(&self, idx: usize) -> (r: bool)
        ensures
            r == self@.selected.contains(idx),
    {
        broadcast use vstd::std_specs::btree::group_btree_axioms;

        self.selected.contains(&idx)
    }

    /// Selects the position, or takes it out of the selection.
    pub fn toggle_sel(&mut self, idx: usize)
        ensures
            final(self)@ == old(self)@.toggled(idx),
    {
        broadcast use vstd::std_specs::btree::group_btree_axioms;

        if !self.selected.insert(idx) {
            self.selected.remove(&idx);
            assert(old(self).selected@.insert(idx) =~= old(self).selected@);
        }
    }

    /// Selects every entry.
    pub fn select_all(&mut self)
        ensures
            final(self)@ == old(self)@.all_selected(),
    {
        broadcast use vstd::std_specs::btree::group_btree_axioms;

        let n = self.entries.len();
        let mut all: BTreeSet<usize> = BTreeSet::new();
        let mut i: usize = 0;
        assert(all@ =~= Set::new(|j: usize| j < i));
        while i < n
            invariant
                i <= n,
                all@ == Set::new(|j: usize| j < i),
            decreases n - i,
        {
            let ghost before = i;
            all.insert(i);
            i += 1;
            assert(all@ =~= Set::new(|j: usize| j < i));
        }
        assert(all@ =~= Set::new(|j: usize| j < entry_views(self.entries@).len()));
        self.selected = all;
    }

    /// Clears the selection.
    pub fn clear_sel(&mut self)
        ensures
            final(self)@ == old(self)@.none_selected(),
    {
        self.selected.clear();
    }

    /// Whether anything is selected.
    pub fn has_selection(&self) -> (r: bool)
        ensures
            r == (self@.selected != Set::<usize>::empty()),
    {
        let none = self.selected.is_empty();
        proof {
            if none {
                assert(self.selected@ =~= Set::empty());
            }
        }
        !none
    }

    /// The names of the selected entries.
    pub fn selected_names(&self) -> (r: Vec<String>)
        ensures
            texts(r@) == self@.selected_names(),
    {
        let ghost v = self@;
        let mut r: Vec<String> = Vec::new();
        let n = self.entries.len();
        let mut i: usize = 0;
        assert(texts(r@) =~= v.names_up_to(0));
        while i < n
            invariant
                n == self.entries@.len(),
                v == self@,
                i <= n,
                texts(r@) == v.names_up_to(i as int),
            decreases n - i,
        {
            let ghost before = r@;
            assert(v.entries[i as int] == self.entries@[i as int]@);
            if self.is_selected(i) && !text_eq(self.entries[i].name.as_str(), "..") {
                r.push(self.entries[i].name.clone());
                assert(texts(r@) =~= texts(before).push(v.entries[i as int].name));
            }
            i += 1;
        }
        r
    }

    /// Shows other entries.
    pub fn replace(&mut self, entries: Vec<FileEntry>)
        ensures
            final(self)@ == old(self)@.replaced(entry_views(entries@)),
    {
        let last = entries.len().saturating_sub(1);
        self.entries = entries;
        if self.cursor > last {
            self.cursor = last;
        }
        self.selected.clear();
    }

    /// Goes to the top.
    pub fn to_top(&mut self)
        ensures
            final(self)@ == old(self)@.at_top(),
    {
        self.cursor = 0;
        self.offset = 0;
    }

    /// Puts the cursor on the first entry with this name.
    pub fn focus(&mut self, name: &str)
        ensures
            final(self)@ == old(self)@.focused(name@),
    {
        match position_of(&self.entries, name) {
            Some(i) => {
                self.cursor = i;
            },
            None => {},
        }
    }
}

/// Every way to move the cursor, and every new set of entries, leaves it on an
/// entry.
pub proof fn cursor_stays_valid(v: ListingView, n: int, name: Seq<char>, entries: Seq<EntryView>)
    requires
        v.cursor_is_valid(),
        0 <= n,
    ensures
        v.moved_up(n).cursor_is_valid(),
        v.moved_down(n).cursor_is_valid(),
        v.stepped_down().cursor_is_valid(),
        v.with_cursor(0).cursor_is_valid(),
        v.with_cursor(v.last()).cursor_is_valid(),
        v.focused(name).cursor_is_valid(),
        v.replaced(entries).cursor_is_valid(),
        v.at_top().cursor_is_valid(),
        v.all_selected().cursor_is_valid(),
        v.none_selected().cursor_is_valid(),
{
    lemma_first_named(v.entries, name);
}

/// Selecting a position twice leaves the selection as it was.
pub proof fn toggling_twice_changes_nothing(v: ListingView, i: usize)
    ensures
        v.toggled(i).toggled(i) == v,
{
    assert(v.toggled(i).toggled(i).selected =~= v.selected);
}

/// The way up is never among the names to work on.
pub proof fn way_up_is_never_selected(v: ListingView, k: int, i: int)
    requires
        0 <= i < v.names_up_to(k).len(),
    ensures
        v.names_up_to(k)[i] != ".."@,
    decreases k,
{
    if k > 0 && i < v.names_up_to(k - 1).len() {
        way_up_is_never_selected(v, k - 1, i);
    }
}

/// After everything is selected, the names are those of all entries but the way
/// up.
pub proof fn selecting_all_names_every_entry(v: ListingView, k: int, i: int)
    requires
        0 <= i < k <= v.entries.len(),
        v.entries.len() <= usize::MAX,
        v.entries[i].name != ".."@,
    ensures
        v.all_selected().names_up_to(k).contains(v.entries[i].name),
    decreases k,
{
    let a = v.all_selected();
    let before = a.names_up_to(k - 1);
    if i == k - 1 {
        assert(a.selected.contains((k - 1) as usize));
        assert(a.names_up_to(k).last() == v.entries[i].name);
    } else {
        selecting_all_names_every_entry(v, k - 1, i);
        let j = choose|j: int| 0 <= j < before.len() && before[j] == v.entries[i].name;
        assert(a.names_up_to(k)[j] == v.entries[i].name);
    }
}

/// The names to work on are those of the selected entries but the way up, each
/// once, in the order of the listing: `at` tells where each stands.
pub proof fn selected_names_are_those_selected(v: ListingView) -> (at: Seq<int>)
    requires
        v.entries.len() <= usize::MAX,
    ensures
        at.len() == v.selected_names().len(),
        forall|i: int, j: int| 0 <= i < j < at.len() ==> at[i] < at[j],
        forall|i: int|
            0 <= i < at.len() ==> 0 <= #[trigger] at[i] < v.entries.len() && v.selected.contains(
                at[i] as usize,
            ) && v.entries[at[i]].name != ".."@ && v.selected_names()[i] == v.entries[at[i]].name,
        forall|m: int|
            0 <= m < v.entries.len() && v.selected.contains(m as usize) && (
            #[trigger] v.entries[m]).name != ".."@ ==> at.contains(m),
{
    lemma_positions_of_names(v, v.entries.len() as int)
}

/// Where the selected names up to a position stand.
proof fn lemma_positions_of_names(v: ListingView, k: int) -> (at: Seq<int>)
    requires
        0 <= k <= v.entries.len() <= usize::MAX,
    ensures
        at.len() == v.names_up_to(k).len(),
        forall|i: int, j: int| 0 <= i < j < at.len() ==> at[i] < at[j],
        forall|i: int|
            0 <= i < at.len() ==> 0 <= #[trigger] at[i] < k && v.selected.contains(at[i] as usize)
                && v.entries[at[i]].name != ".."@ && v.names_up_to(k)[i] == v.entries[at[i]].name,
        forall|m: int|
            0 <= m < k && v.selected.contains(m as usize) && (#[trigger] v.entries[m]).name
                != ".."@ ==> at.contains(m),
    decreases k,
{
    if k == 0 {
        Seq::empty()
    } else {
        let before = lemma_positions_of_names(v, k - 1);
        if v.selected.contains((k - 1) as usize) && v.entries[k - 1].name != ".."@ {
            let at = before.push(k - 1);
            assert forall|m: int|
                0 <= m < k && v.selected.contains(m as usize) && (#[trigger] v.entries[m]).name
                    != ".."@ implies at.contains(m) by {
                if m == k - 1 {
                    assert(at[before.len() as int] == m);
                } else {
                    assert(before.contains(m));
                    let i = choose|i: int| 0 <= i < before.len() && before[i] == m;
                    assert(at[i] == m);
                }
            }
            at
        } else {
            before
        }
    }
}

/// Moving the cursor moves it by as many rows as asked, and as far as it goes where
/// there are fewer; the rest of the listing stays. Moving in two goes is moving at
/// once, and moving back undoes it.
pub proof fn cursor_moves_by_rows(v: ListingView, n: int, m: int)
    requires
        v.cursor_is_valid(),
        0 <= n,
        0 <= m,
    ensures
        n <= v.cursor ==> v.moved_up(n).cursor == v.cursor - n,
        n > v.cursor ==> v.moved_up(n).cursor == 0,
        v.cursor + n < v.entries.len() ==> v.moved_down(n).cursor == v.cursor + n,
        v.cursor + n >= v.entries.len() > 0 ==> v.moved_down(n).cursor == v.entries.len() - 1,
        v.moved_up(n).moved_up(m) == v.moved_up(n + m),
        v.moved_down(n).moved_down(m) == v.moved_down(n + m),
        n <= v.cursor ==> v.moved_up(n).moved_down(n) == v,
        v.cursor + n < v.entries.len() ==> v.moved_down(n).moved_up(n) == v,
        v.stepped_down() == v.moved_down(1),
{
}

/// Moving the cursor about changes nothing else.
pub proof fn moving_keeps_the_entries(v: ListingView, n: int, name: Seq<char>)
    ensures
        forall|w: ListingView|
            #![trigger w.entries]
            w == v.moved_up(n) || w == v.moved_down(n) || w == v.stepped_down() || w == v.focused(
                name,
            ) || w == v.with_cursor(n) ==> w.entries == v.entries && w.selected == v.selected
                && w.offset == v.offset,
        v.with_cursor(n).cursor == n,
        v.at_top().entries == v.entries,
        v.at_top().selected == v.selected,
        v.at_top().cursor == 0,
        v.at_top().offset == 0,
{
}

/// The selection changes in the position that is toggled and in no other; selecting
/// everything selects each position of an entry and no other, and selecting nothing
/// none.
pub proof fn selection_changes_as_asked(v: ListingView, i: usize, j: usize)
    ensures
        v.toggled(i).selected.contains(i) <==> !v.selected.contains(i),
        i != j ==> (v.toggled(i).selected.contains(j) <==> v.selected.contains(j)),
        v.all_selected().selected.contains(i) <==> i < v.entries.len(),
        !v.none_selected().selected.contains(i),
        v.toggled(i).with_selected(v.selected) == v,
        v.all_selected().with_selected(v.selected) == v,
        v.none_selected().with_selected(v.selected) == v,
{
}

/// New entries are all shown, in their order, and nothing is selected; the cursor
/// stays where it was if there is an entry there, else it is on the last one.
pub proof fn new_entries_are_shown(v: ListingView, entries: Seq<EntryView>)
    requires
        v.cursor >= 0,
    ensures
        v.replaced(entries).entries == entries,
        forall|i: usize| !(#[trigger] v.replaced(entries).selected.contains(i)),
        v.replaced(entries).offset == v.offset,
        v.cursor < entries.len() ==> v.replaced(entries).cursor == v.cursor,
        v.cursor >= entries.len() > 0 ==> v.replaced(entries).cursor == entries.len() - 1,
        entries.len() == 0 ==> v.replaced(entries).cursor == 0,
{
}

/// Focusing a name puts the cursor on the first entry that has it, and leaves it
/// where none has.
pub proof fn focused_name_is_under_the_cursor(v: ListingView, name: Seq<char>, k: int)
    requires
        0 <= k < v.entries.len(),
    ensures
        v.entries[k].name == name ==> 0 <= v.focused(name).cursor <= k && (
        v.focused(name).current() matches Some(e) && e.name == name),
        (forall|i: int| 0 <= i < v.entries.len() ==> (#[trigger] v.entries[i]).name != name)
            ==> v.focused(name) == v,
{
    lemma_first_named(v.entries, name);
}

/// The entry under the cursor is the one at its position.
pub proof fn current_is_under_the_cursor(v: ListingView)
    ensures
        v.current() is Some <==> 0 <= v.cursor < v.entries.len(),
        v.current() matches Some(e) ==> e == v.entries[v.cursor],
{
}

} // verus!
