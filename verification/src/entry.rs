//! Entries of a listing: how one is shown, and how a listing is sorted.

use vstd::prelude::*;

use crate::icons::{file_icon, icon};
use crate::order::{
    bool_order, comes_before, flipped, is_stable_order, is_stable_sort, key_order, key_order_flips, key_views,
    keys_by_position, number_order, or_else, sort_order, text_order,
    text_order_equal, text_order_is_lexicographic, KeyView, Order, SortKey,
};
use crate::scan::{after_last, behind_last, lemma_same_extension_but_for_case};
use crate::size::{human_size, human_size_text};
use crate::text::{
    byte_len, can_cut, char_count, chars_of, from_byte, lemma_cut_joins,
    lemma_no_more_chars_than_bytes, lemma_same_in_lower_case, lowercase, on_boundary, pad_left, pad_right, push_padded,
    push_spaces, same_but_for_case, shown, shown_text, spaces, tail_from, utf8_len,
};

verus! {

/// What a listing is sorted by.
#[derive(Clone, Copy, Debug, PartialEq, Eq, Structural)]
pub enum SortBy {
    Name,
    Size,
    Ext,
}

/// A file or a directory in a listing.
#[derive(Debug)]
pub struct FileEntry {
    pub name: String,
    pub is_dir: bool,
    pub size: u64,
}

/// The content of an entry.
#[verifier::ext_equal]
pub struct EntryView {
    pub name: Seq<char>,
    pub is_dir: bool,
    pub size: u64,
}

impl View for FileEntry {
    type V = EntryView;

    open spec fn view(&self) -> EntryView {
        EntryView { name: self.name@, is_dir: self.is_dir, size: self.size }
    }
}

impl Clone for FileEntry {
    fn clone(&self) -> (r: Self)
        ensures
            r == *self,
    {
        FileEntry { name: self.name.clone(), is_dir: self.is_dir, size: self.size }
    }
}

/// The contents of the entries.
pub open spec fn entry_views(v: Seq<FileEntry>) -> Seq<EntryView> {
    v.map_values(|e: FileEntry| e@)
}

/// The name with a slash behind it for a directory, a blank for a file.
pub open spec fn label(e: EntryView) -> Seq<char> {
    e.name.push(
        if e.is_dir {
            '/'
        } else {
            ' '
        },
    )
}

/// The columns for the label in a line of the width `w`: all but those for the
/// icon, the size and what separates them.
pub open spec fn label_width(w: int) -> int {
    if w > 9 {
        w - 9
    } else {
        0
    }
}

/// How many bytes of a label that is too long are kept, from its end.
pub open spec fn kept_bytes(w: int) -> int {
    if label_width(w) > 0 {
        label_width(w) - 1
    } else {
        0
    }
}

/// Whether the label fits, or can be cut between two characters.
pub open spec fn is_displayable(e: EntryView, w: int) -> bool {
    utf8_len(label(e)) > label_width(w) ==> on_boundary(
        label(e),
        utf8_len(label(e)) - kept_bytes(w),
    )
}

/// The label, or an ellipsis and its end where it takes more bytes than there
/// are columns.
pub open spec fn shown_label(e: EntryView, w: int) -> Seq<char> {
    if utf8_len(label(e)) > label_width(w) {
        seq!['…'] + from_byte(label(e), utf8_len(label(e)) - kept_bytes(w))
    } else {
        label(e)
    }
}

/// The size column: blank for a directory.
pub open spec fn size_column(e: EntryView) -> Seq<char> {
    if e.is_dir {
        spaces(5)
    } else {
        human_size_text(e.size as nat)
    }
}

/// The line that shows an entry in the width `w`.
pub open spec fn display_text(e: EntryView, w: int) -> Seq<char> {
    seq![icon(e.name, e.is_dir), ' '] + pad_right(shown_label(e, w), label_width(w)) + seq![' ']
        + pad_left(size_column(e), 5)
}

impl FileEntry {
    /// An entry of a directory, whose name is given as bytes.
    pub fn read(name: &[u8], is_dir: bool, size: u64) -> (r: FileEntry)
        ensures
            r@ == (EntryView { name: shown_text(name@), is_dir, size }),
    {
        FileEntry { name: shown(name), is_dir, size }
    }

    /// The label as a text of its own.
    fn label_text(&self) -> (r: String)
        ensures
            r@ == label(self@),
    {
        let mut r = self.name.clone();
        r.push(
            if self.is_dir {
                '/'
            } else {
                ' '
            },
        );
        r
    }

    /// Tests whether the entry can be shown in the width `w`.
    pub fn displayable(&self, w: usize) -> (r: bool)
        ensures
            r == is_displayable(self@, w as int),
    {
        let text = self.label_text();
        let n = byte_len(text.as_str());
        let avail = w.saturating_sub(9);
        if n > avail {
            can_cut(text.as_str(), n - avail.saturating_sub(1))
        } else {
            true
        }
    }

    /// The line that shows the entry in the width `w`.
    pub fn display(&self, w: usize) -> (r: String)
        requires
            is_displayable(self@, w as int),
        ensures
            r@ == display_text(self@, w as int),
    {
        let text = self.label_text();
        let n = byte_len(text.as_str());
        let avail = w.saturating_sub(9);
        let mut r = String::new();
        r.push(file_icon(self.name.as_str(), self.is_dir));
        r.push(' ');
        let mut shown = String::new();
        if n > avail {
            shown.push('…');
            shown.push_str(tail_from(text.as_str(), n - avail.saturating_sub(1)));
        } else {
            shown.push_str(text.as_str());
        }
        assert(shown@ =~= shown_label(self@, w as int));
        push_padded(&mut r, shown.as_str(), avail);
        r.push(' ');
        let size = if self.is_dir {
            let mut s = String::new();
            push_spaces(&mut s, 5);
            s
        } else {
            human_size(self.size)
        };
        assert(size@ =~= size_column(self@));
        let k = char_count(size.as_str());
        if k < 5 {
            push_spaces(&mut r, 5 - k);
        }
        r.push_str(size.as_str());
        assert(r@ =~= display_text(self@, w as int));
        r
    }
}

/// The order of two entries: directories before files in any case, then by what
/// the listing is sorted by, which `reverse` turns round. Names and extensions
/// are ordered by their lower case, and equal extensions by the names.
pub open spec fn entry_order(a: EntryView, b: EntryView, sort: SortBy, reverse: bool) -> Order {
    let names = text_order(lowercase(a.name), lowercase(b.name));
    let inner = match sort {
        SortBy::Name => names,
        SortBy::Size => number_order(a.size as int, b.size as int),
        SortBy::Ext => or_else(
            text_order(lowercase(after_last(a.name, '.')), lowercase(after_last(b.name, '.'))),
            names,
        ),
    };
    or_else(
        bool_order(!a.is_dir, !b.is_dir),
        if reverse {
            flipped(inner)
        } else {
            inner
        },
    )
}

/// The order of the entries at two positions.
pub open spec fn entries_by_position(v: Seq<EntryView>, sort: SortBy, reverse: bool) -> spec_fn(
    int,
    int,
) -> Order {
    |i: int, j: int| entry_order(v[i], v[j], sort, reverse)
}

/// Whether `after` is the listing `before`, sorted.
pub open spec fn is_sorted_listing(
    before: Seq<EntryView>,
    after: Seq<EntryView>,
    sort: SortBy,
    reverse: bool,
) -> bool {
    is_stable_sort(entries_by_position(before, sort, reverse), before, after)
}

/// What an entry is sorted by, as a key.
pub open spec fn entry_key(e: EntryView, sort: SortBy) -> KeyView {
    KeyView {
        group: !e.is_dir,
        number: if sort == SortBy::Size {
            e.size as int
        } else {
            0
        },
        first: match sort {
            SortBy::Name => lowercase(e.name),
            SortBy::Size => Seq::empty(),
            SortBy::Ext => lowercase(after_last(e.name, '.')),
        },
        second: if sort == SortBy::Ext {
            lowercase(e.name)
        } else {
            Seq::empty()
        },
    }
}

/// The keys order the entries as they are to be ordered.
pub proof fn lemma_entry_key(a: EntryView, b: EntryView, sort: SortBy, reverse: bool)
    ensures
        key_order(entry_key(a, sort), entry_key(b, sort), reverse) == entry_order(
            a,
            b,
            sort,
            reverse,
        ),
{
}

/// Makes the key of an entry.
fn make_key(e: &FileEntry, sort: SortBy) -> (k: SortKey)
    ensures
        k@ == entry_key(e@, sort),
{
    let name = e.name.as_str();
    let none: Vec<char> = Vec::new();
    let empty: Vec<char> = Vec::new();
    match sort {
        SortBy::Name => SortKey {
            group: !e.is_dir,
            number: 0,
            first: chars_of(name.to_lowercase().as_str()),
            second: none,
        },
        SortBy::Size => SortKey { group: !e.is_dir, number: e.size, first: empty, second: none },
        SortBy::Ext => SortKey {
            group: !e.is_dir,
            number: 0,
            first: chars_of(behind_last(name, '.').as_str().to_lowercase().as_str()),
            second: chars_of(name.to_lowercase().as_str()),
        },
    }
}

/// Puts the entries into the order `p`.
pub fn arranged(items: &Vec<FileEntry>, p: &Vec<usize>) -> (r: Vec<FileEntry>)
    requires
        forall|i: int| 0 <= i < p@.len() ==> #[trigger] p@[i] < items@.len(),
    ensures
        r@ == Seq::new(p@.len(), |i: int| items@[p@[i] as int]),
{
    let mut r: Vec<FileEntry> = Vec::new();
    for i in 0..p.len()
        invariant
            forall|i: int| 0 <= i < p@.len() ==> #[trigger] p@[i] < items@.len(),
            r@.len() == i,
            forall|j: int| 0 <= j < i ==> #[trigger] r@[j] == items@[p@[j] as int],
    {
        r.push(items[p[i]].clone());
    }
    assert(r@ =~= Seq::new(p@.len(), |i: int| items@[p@[i] as int]));
    r
}

/// Sorts a listing.
pub fn sort_entries(items: &Vec<FileEntry>, sort: SortBy, reverse: bool) -> (r: Vec<FileEntry>)
    ensures
        is_sorted_listing(entry_views(items@), entry_views(r@), sort, reverse),
        r@.len() == items@.len(),
{
    let ghost vs = entry_views(items@);
    let mut keys: Vec<SortKey> = Vec::new();
    for i in 0..items.len()
        invariant
            vs == entry_views(items@),
            keys@.len() == i,
            forall|j: int| 0 <= j < i ==> (#[trigger] keys@[j])@ == entry_key(vs[j], sort),
    {
        keys.push(make_key(&items[i], sort));
    }
    let p = sort_order(&keys, reverse);
    let r = arranged(items, &p);
    proof {
        let a = keys_by_position(key_views(keys@), reverse);
        let b = entries_by_position(vs, sort, reverse);
        let n = items@.len();
        assert forall|i: int, j: int| 0 <= i < n && 0 <= j < n implies #[trigger] a(i, j) == b(
            i,
            j,
        ) by {
            assert(keys@[i]@ == entry_key(vs[i], sort));
            assert(keys@[j]@ == entry_key(vs[j], sort));
            lemma_entry_key(vs[i], vs[j], sort, reverse);
        }
        crate::order::lemma_same_order(a, b, n, p@);
        assert(is_stable_order(b, vs.len(), p@));
        assert(entry_views(r@) =~= Seq::new(p@.len(), |i: int| vs[p@[i] as int]));
    }
    r
}

/// Swapping two entries reverses their order.
pub proof fn entry_order_flips(a: EntryView, b: EntryView, sort: SortBy, reverse: bool)
    ensures
        entry_order(b, a, sort, reverse) == flipped(entry_order(a, b, sort, reverse)),
{
    lemma_entry_key(a, b, sort, reverse);
    lemma_entry_key(b, a, sort, reverse);
    key_order_flips(entry_key(a, sort), entry_key(b, sort), reverse);
}

/// The order of entries is transitive.
pub proof fn entry_order_transitive(
    a: EntryView,
    b: EntryView,
    c: EntryView,
    sort: SortBy,
    reverse: bool,
)
    requires
        entry_order(a, b, sort, reverse) != Order::Greater,
        entry_order(b, c, sort, reverse) != Order::Greater,
    ensures
        entry_order(a, c, sort, reverse) != Order::Greater,
{
    lemma_entry_key(a, b, sort, reverse);
    lemma_entry_key(b, c, sort, reverse);
    lemma_entry_key(a, c, sort, reverse);
    crate::order::key_order_transitive(
        entry_key(a, sort),
        entry_key(b, sort),
        entry_key(c, sort),
        reverse,
    );
}

/// Sorting the other way round turns the order of two entries of the same kind
/// round, and leaves a directory before a file.
pub proof fn reverse_turns_round_within_kinds(a: EntryView, b: EntryView, sort: SortBy)
    ensures
        a.is_dir == b.is_dir ==> entry_order(a, b, sort, true) == flipped(
            entry_order(a, b, sort, false),
        ),
        a.is_dir && !b.is_dir ==> entry_order(a, b, sort, true) == Order::Less && entry_order(
            a,
            b,
            sort,
            false,
        ) == Order::Less,
{
}

/// In a sorted listing every directory stands before every file, whatever it is
/// sorted by and in whichever direction.
pub proof fn directories_come_first(
    before: Seq<EntryView>,
    after: Seq<EntryView>,
    sort: SortBy,
    reverse: bool,
    i: int,
    j: int,
)
    requires
        is_sorted_listing(before, after, sort, reverse),
        0 <= i < after.len(),
        0 <= j < after.len(),
        after[i].is_dir,
        !after[j].is_dir,
    ensures
        i < j,
{
    let ord = entries_by_position(before, sort, reverse);
    let p = choose|p: Seq<usize>| #[trigger]
        is_stable_order(ord, before.len(), p) && after == Seq::new(
            p.len(),
            |i: int| before[p[i] as int],
        );
    if j < i {
        assert(crate::order::goes_before(ord, p[j] as int, p[i] as int));
    }
}

/// A sorted listing holds what the unsorted one held: each entry as often.
pub proof fn sorting_keeps_the_entries(
    before: Seq<EntryView>,
    after: Seq<EntryView>,
    sort: SortBy,
    reverse: bool,
) -> (p: Seq<usize>)
    requires
        is_sorted_listing(before, after, sort, reverse),
    ensures
        after.len() == before.len(),
        p.len() == before.len(),
        p.no_duplicates(),
        forall|k: int| 0 <= k < before.len() ==> #[trigger] crate::order::names(p, k),
        forall|i: int| 0 <= i < after.len() ==> p[i] < before.len() && #[trigger] after[i]
            == before[p[i] as int],
{
    let ord = entries_by_position(before, sort, reverse);
    let p = choose|p: Seq<usize>| #[trigger]
        is_stable_order(ord, before.len(), p) && after == Seq::new(
            p.len(),
            |i: int| before[p[i] as int],
        );
    lemma_entries_two_sided(before, sort, reverse);
    crate::order::stable_order_is_a_permutation(ord, before.len(), p);
    p
}

proof fn lemma_entries_two_sided(v: Seq<EntryView>, sort: SortBy, reverse: bool)
    ensures
        crate::order::is_two_sided(entries_by_position(v, sort, reverse)),
{
    let ord = entries_by_position(v, sort, reverse);
    assert forall|i: int, j: int| #[trigger] ord(j, i) == flipped(ord(i, j)) by {
        entry_order_flips(v[i], v[j], sort, reverse);
    }
}

/// A listing has one sorted form.
pub proof fn sorted_listing_is_unique(
    before: Seq<EntryView>,
    a: Seq<EntryView>,
    b: Seq<EntryView>,
    sort: SortBy,
    reverse: bool,
)
    requires
        is_sorted_listing(before, a, sort, reverse),
        is_sorted_listing(before, b, sort, reverse),
    ensures
        a == b,
{
    lemma_entries_two_sided(before, sort, reverse);
    crate::order::stable_sort_is_unique(entries_by_position(before, sort, reverse), before, a, b);
}

/// The line of an entry has one character less than the width, for every name,
/// unless the width leaves no column for the name or the size takes more than
/// five.
pub proof fn line_has_a_fixed_length(e: EntryView, w: int)
    requires
        w >= 10,
        is_displayable(e, w),
        e.is_dir || e.size <= 9999 * crate::size::unit_bytes(4),
    ensures
        display_text(e, w).len() == w - 1,
{
    lemma_no_more_chars_than_bytes(label(e));
    if utf8_len(label(e)) > label_width(w) {
        let at = utf8_len(label(e)) - kept_bytes(w);
        lemma_cut_joins(label(e), at);
        lemma_no_more_chars_than_bytes(from_byte(label(e), at));
    }
    if !e.is_dir {
        crate::size::size_fits_its_column(e.size as nat);
    }
}

/// The case of ASCII letters does not matter to the order of names, nor to that of
/// extensions: entries that differ in nothing else stand equal.
pub proof fn case_does_not_matter_to_the_order(
    a: EntryView,
    b: EntryView,
    sort: SortBy,
    reverse: bool,
)
    requires
        same_but_for_case(a.name, b.name),
        a.is_dir == b.is_dir,
        a.size == b.size,
    ensures
        entry_order(a, b, sort, reverse) == Order::Equal,
{
    lemma_same_extension_but_for_case(a.name, b.name);
    lemma_same_in_lower_case(a.name, b.name);
    lemma_same_in_lower_case(after_last(a.name, '.'), after_last(b.name, '.'));
    text_order_equal(lowercase(a.name), lowercase(b.name));
    text_order_equal(lowercase(after_last(a.name, '.')), lowercase(after_last(b.name, '.')));
}

/// In a sorted listing an entry never stands after one that it should precede.
proof fn lemma_sorted_pairs(
    before: Seq<EntryView>,
    after: Seq<EntryView>,
    sort: SortBy,
    reverse: bool,
    i: int,
    j: int,
)
    requires
        is_sorted_listing(before, after, sort, reverse),
        0 <= i < j < after.len(),
    ensures
        entry_order(after[i], after[j], sort, reverse) != Order::Greater,
{
    let ord = entries_by_position(before, sort, reverse);
    let p = choose|p: Seq<usize>| #[trigger]
        is_stable_order(ord, before.len(), p) && after == Seq::new(
            p.len(),
            |i: int| before[p[i] as int],
        );
    assert(crate::order::goes_before(ord, p[i] as int, p[j] as int));
}

/// In a listing sorted by size the sizes of entries of one kind ascend, and they
/// descend if it is reversed.
pub proof fn sizes_ascend(
    before: Seq<EntryView>,
    after: Seq<EntryView>,
    reverse: bool,
    i: int,
    j: int,
)
    requires
        is_sorted_listing(before, after, SortBy::Size, reverse),
        0 <= i < j < after.len(),
        after[i].is_dir == after[j].is_dir,
    ensures
        !reverse ==> after[i].size <= after[j].size,
        reverse ==> after[i].size >= after[j].size,
{
    lemma_sorted_pairs(before, after, SortBy::Size, reverse, i, j);
}

/// In a listing sorted by name the names of entries of one kind ascend in lower
/// case, as in a dictionary, and they descend if it is reversed.
pub proof fn names_ascend(
    before: Seq<EntryView>,
    after: Seq<EntryView>,
    reverse: bool,
    i: int,
    j: int,
)
    requires
        is_sorted_listing(before, after, SortBy::Name, reverse),
        0 <= i < j < after.len(),
        after[i].is_dir == after[j].is_dir,
    ensures
        !reverse ==> !comes_before(lowercase(after[j].name), lowercase(after[i].name)),
        reverse ==> !comes_before(lowercase(after[i].name), lowercase(after[j].name)),
{
    lemma_sorted_pairs(before, after, SortBy::Name, reverse, i, j);
    text_order_is_lexicographic(lowercase(after[i].name), lowercase(after[j].name));
}

/// In a listing sorted by extension the extensions of entries of one kind ascend
/// in lower case, and under one extension the names do; both descend if it is
/// reversed.
pub proof fn extensions_ascend(
    before: Seq<EntryView>,
    after: Seq<EntryView>,
    reverse: bool,
    i: int,
    j: int,
)
    requires
        is_sorted_listing(before, after, SortBy::Ext, reverse),
        0 <= i < j < after.len(),
        after[i].is_dir == after[j].is_dir,
    ensures
        ({
            let a = if reverse {
                after[j].name
            } else {
                after[i].name
            };
            let b = if reverse {
                after[i].name
            } else {
                after[j].name
            };
            let x = lowercase(after_last(a, '.'));
            let y = lowercase(after_last(b, '.'));
            &&& !comes_before(y, x)
            &&& x == y ==> !comes_before(lowercase(b), lowercase(a))
        }),
{
    lemma_sorted_pairs(before, after, SortBy::Ext, reverse, i, j);
    let a = after[i].name;
    let b = after[j].name;
    text_order_is_lexicographic(lowercase(a), lowercase(b));
    text_order_is_lexicographic(lowercase(after_last(a, '.')), lowercase(after_last(b, '.')));
}

/// Sorting moves the entries about and keeps the order of those that stand equal:
/// `p` tells where each came from.
pub proof fn equal_entries_keep_their_order(
    before: Seq<EntryView>,
    after: Seq<EntryView>,
    sort: SortBy,
    reverse: bool,
) -> (p: Seq<usize>)
    requires
        is_sorted_listing(before, after, sort, reverse),
    ensures
        after.len() == before.len(),
        p.len() == before.len(),
        p.no_duplicates(),
        forall|i: int| 0 <= i < after.len() ==> p[i] < before.len() && #[trigger] after[i]
            == before[p[i] as int],
        forall|i: int, j: int|
            0 <= i < j < after.len() && (#[trigger] after[i]).is_dir == (
            #[trigger] after[j]).is_dir && after[i].size == after[j].size && lowercase(
                after[i].name,
            ) == lowercase(after[j].name) && lowercase(after_last(after[i].name, '.'))
                == lowercase(after_last(after[j].name, '.')) ==> p[i] < p[j],
{
    let ord = entries_by_position(before, sort, reverse);
    let p = choose|p: Seq<usize>| #[trigger]
        is_stable_order(ord, before.len(), p) && after == Seq::new(
            p.len(),
            |i: int| before[p[i] as int],
        );
    lemma_entries_two_sided(before, sort, reverse);
    crate::order::stable_order_is_a_permutation(ord, before.len(), p);
    assert forall|i: int, j: int|
        0 <= i < j < after.len() && (#[trigger] after[i]).is_dir == (#[trigger] after[j]).is_dir
            && after[i].size == after[j].size && lowercase(after[i].name) == lowercase(
            after[j].name,
        ) && lowercase(after_last(after[i].name, '.')) == lowercase(
            after_last(after[j].name, '.'),
        ) implies p[i] < p[j] by {
        text_order_equal(lowercase(after[i].name), lowercase(after[j].name));
        text_order_equal(
            lowercase(after_last(after[i].name, '.')),
            lowercase(after_last(after[j].name, '.')),
        );
        assert(crate::order::goes_before(ord, p[i] as int, p[j] as int));
    }
    p
}

/// The line of an entry shows it: the icon first, then the name with its mark if
/// that fits, and at the end the size.
pub proof fn line_shows_the_entry(e: EntryView, w: int)
    ensures
        ({
            let line = display_text(e, w);
            let mark = if e.is_dir {
                '/'
            } else {
                ' '
            };
            &&& line[0] == icon(e.name, e.is_dir)
            &&& utf8_len(e.name.push(mark)) <= w - 9 ==> line.subrange(
                2,
                2 + e.name.len() as int + 1,
            ) == e.name.push(mark)
            &&& !e.is_dir ==> line.skip(line.len() - human_size_text(e.size as nat).len())
                == human_size_text(e.size as nat)
        }),
{
    let line = display_text(e, w);
    let size = human_size_text(e.size as nat);
    if !e.is_dir {
        assert(line.skip(line.len() - size.len()) =~= size);
    }
    lemma_no_more_chars_than_bytes(label(e));
    if utf8_len(label(e)) <= w - 9 {
        assert(line.subrange(2, 2 + e.name.len() as int + 1) =~= label(e));
    }
}

/// Of a label that is too long its end is shown, behind an ellipsis, in no more
/// bytes than there are columns.
pub proof fn long_label_shows_its_end(e: EntryView, w: int)
    requires
        is_displayable(e, w),
        w >= 10,
        utf8_len(label(e)) > w - 9,
    ensures
        shown_label(e, w)[0] == '…',
        ({
            let end = shown_label(e, w).skip(1);
            &&& end.len() <= label(e).len()
            &&& end == label(e).skip(label(e).len() - end.len())
            &&& utf8_len(end) == w - 10
        }),
{
    let at = utf8_len(label(e)) - kept_bytes(w);
    lemma_cut_joins(label(e), at);
    let head = crate::text::to_byte(label(e), at);
    let end = from_byte(label(e), at);
    assert(shown_label(e, w).skip(1) =~= end);
    assert(label(e).skip(head.len() as int) =~= end) by {
        assert((head + end).skip(head.len() as int) =~= end);
    }
}

/// The line of an entry has one character fewer than there are columns, as its icon
/// takes two of them, wherever the size fits its column; a directory shows no size.
pub proof fn line_has_its_length(e: EntryView, w: int)
    requires
        w >= 10,
        is_displayable(e, w),
        e.is_dir || e.size <= 9999 * 0x100_0000_0000,
    ensures
        display_text(e, w).len() == w - 1,
        e.is_dir ==> display_text(e, w).skip(w - 6) == spaces(5),
        display_text(e, w)[1] == ' ',
        display_text(e, w)[w - 7] == ' ',
{
    lemma_no_more_chars_than_bytes(label(e));
    if utf8_len(label(e)) > label_width(w) {
        let at = utf8_len(label(e)) - kept_bytes(w);
        lemma_cut_joins(label(e), at);
        lemma_no_more_chars_than_bytes(from_byte(label(e), at));
    }
    if !e.is_dir {
        crate::size::size_fits_its_column(e.size as nat);
    } else {
        assert(pad_left(spaces(5), 5) =~= spaces(5));
        assert(display_text(e, w).skip(w - 6) =~= spaces(5));
    }
}

/// An entry with an ASCII name can be shown in any width.
pub proof fn ascii_name_can_be_shown(e: EntryView, w: int)
    requires
        crate::text::is_ascii(e.name),
    ensures
        is_displayable(e, w),
{
    let s = label(e);
    assert forall|i: int| 0 <= i < s.len() implies (#[trigger] s[i]) as u32 <= 0x7f by {
        if i < e.name.len() {
            assert(s[i] == e.name[i]);
        }
    }
    crate::text::lemma_ascii_bytes(s);
    let at = utf8_len(s) - kept_bytes(w);
    if utf8_len(s) > label_width(w) {
        crate::text::lemma_ascii_start(s, at);
    }
}

/// The entries of a directory are shown with what each says.
pub proof fn entries_are_taken_whole(v: Seq<FileEntry>, i: int)
    requires
        0 <= i < v.len(),
    ensures
        entry_views(v).len() == v.len(),
        entry_views(v)[i].name == v[i].name@,
        entry_views(v)[i].is_dir == v[i].is_dir,
        entry_views(v)[i].size == v[i].size,
{
}

/// The label that is shown stands behind the icon and a blank, and blanks fill its
/// column; in a line too narrow for a label only the ellipsis is shown.
pub proof fn label_stands_behind_the_icon(e: EntryView, w: int)
    requires
        is_displayable(e, w),
    ensures
        ({
            let line = display_text(e, w);
            let n = shown_label(e, w).len() as int;
            &&& line.subrange(2, 2 + n) == shown_label(e, w)
            &&& forall|i: int| 2 + n <= i < w - 7 ==> #[trigger] line[i] == ' '
            &&& w <= 9 ==> shown_label(e, w) == seq!['…']
        }),
{
    let line = display_text(e, w);
    let n = shown_label(e, w).len() as int;
    assert(line.subrange(2, 2 + n) =~= shown_label(e, w));
    if w <= 9 {
        lemma_no_more_chars_than_bytes(label(e));
        crate::text::lemma_cut_at_end(label(e));
        assert(shown_label(e, w) =~= seq!['…']);
    }
}

} // verus!
