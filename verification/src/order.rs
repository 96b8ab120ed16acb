//! Orders: comparing texts, and sorting stably by a comparison.

use vstd::prelude::*;

verus! {

/// How one thing stands to another.
#[derive(Clone, Copy, Debug, PartialEq, Eq, Structural)]
pub enum Order {
    Less,
    Equal,
    Greater,
}

/// The order seen from the other side.
pub open spec fn flipped(o: Order) -> Order {
    match o {
        Order::Less => Order::Greater,
        Order::Equal => Order::Equal,
        Order::Greater => Order::Less,
    }
}

/// The first order where it decides, else the second.
pub open spec fn or_else(a: Order, b: Order) -> Order {
    if a == Order::Equal {
        b
    } else {
        a
    }
}

/// Reverses an order.
pub fn flip(o: Order) -> (r: Order)
    ensures
        r == flipped(o),
{
    match o {
        Order::Less => Order::Greater,
        Order::Equal => Order::Equal,
        Order::Greater => Order::Less,
    }
}

/// `false` comes before `true`.
pub open spec fn bool_order(a: bool, b: bool) -> Order {
    if a == b {
        Order::Equal
    } else if b {
        Order::Less
    } else {
        Order::Greater
    }
}

/// The order of numbers.
pub open spec fn number_order(a: int, b: int) -> Order {
    if a < b {
        Order::Less
    } else if a == b {
        Order::Equal
    } else {
        Order::Greater
    }
}

/// The lexicographic order of texts by code points, where a text comes before
/// every longer one that it starts.
pub open spec fn text_order(a: Seq<char>, b: Seq<char>) -> Order
    decreases a.len(),
{
    if a.len() == 0 {
        if b.len() == 0 {
            Order::Equal
        } else {
            Order::Less
        }
    } else if b.len() == 0 {
        Order::Greater
    } else {
        or_else(
            number_order(a[0] as int, b[0] as int),
            text_order(a.skip(1), b.skip(1)),
        )
    }
}

/// Orders two texts.
pub fn order_texts(a: &[char], b: &[char]) -> (r: Order)
    ensures
        r == text_order(a@, b@),
{
    let mut i: usize = 0;
    assert(a@.skip(0) =~= a@);
    assert(b@.skip(0) =~= b@);
    while i < a.len() && i < b.len()
        invariant
            i <= a@.len(),
            i <= b@.len(),
            text_order(a@.skip(i as int), b@.skip(i as int)) == text_order(a@, b@),
        decreases a@.len() - i,
    {
        assert(a@.skip(i as int).skip(1) =~= a@.skip(i + 1));
        assert(b@.skip(i as int).skip(1) =~= b@.skip(i + 1));
        if a[i] < b[i] {
            return Order::Less;
        }
        if a[i] > b[i] {
            return Order::Greater;
        }
        i += 1;
    }
    if a.len() == b.len() {
        Order::Equal
    } else if i == a.len() {
        Order::Less
    } else {
        Order::Greater
    }
}

/// Texts that stand equal are the same text.
pub proof fn text_order_equal(a: Seq<char>, b: Seq<char>)
    ensures
        text_order(a, b) == Order::Equal <==> a == b,
    decreases a.len(),
{
    if a.len() > 0 && b.len() > 0 {
        text_order_equal(a.skip(1), b.skip(1));
        if text_order(a, b) == Order::Equal {
            assert(a =~= seq![a[0]] + a.skip(1));
            assert(b =~= seq![b[0]] + b.skip(1));
        }
    } else if a.len() == 0 && b.len() == 0 {
        assert(a =~= b);
    }
}

/// Swapping the texts reverses their order.
pub proof fn text_order_flips(a: Seq<char>, b: Seq<char>)
    ensures
        text_order(b, a) == flipped(text_order(a, b)),
    decreases a.len(),
{
    if a.len() > 0 && b.len() > 0 {
        text_order_flips(a.skip(1), b.skip(1));
    }
}

/// The order of texts is transitive.
pub proof fn text_order_transitive(a: Seq<char>, b: Seq<char>, c: Seq<char>)
    requires
        text_order(a, b) != Order::Greater,
        text_order(b, c) != Order::Greater,
    ensures
        text_order(a, c) != Order::Greater,
        text_order(a, c) == Order::Equal ==> text_order(a, b) == Order::Equal && text_order(b, c)
            == Order::Equal,
    decreases a.len(),
{
    if a.len() > 0 && b.len() > 0 && c.len() > 0 && a[0] == b[0] && b[0] == c[0] {
        text_order_transitive(a.skip(1), b.skip(1), c.skip(1));
    }
}

/// What things are sorted by: first by the group, then by the number, then by
/// the two texts.
pub struct SortKey {
    pub group: bool,
    pub number: u64,
    pub first: Vec<char>,
    pub second: Vec<char>,
}

/// The mathematical content of a sort key.
pub struct KeyView {
    pub group: bool,
    pub number: int,
    pub first: Seq<char>,
    pub second: Seq<char>,
}

impl View for SortKey {
    type V = KeyView;

    open spec fn view(&self) -> KeyView {
        KeyView {
            group: self.group,
            number: self.number as int,
            first: self.first@,
            second: self.second@,
        }
    }
}

/// The order of two keys; `reverse` turns it round within a group.
pub open spec fn key_order(a: KeyView, b: KeyView, reverse: bool) -> Order {
    let inner = or_else(
        number_order(a.number, b.number),
        or_else(text_order(a.first, b.first), text_order(a.second, b.second)),
    );
    or_else(
        bool_order(a.group, b.group),
        if reverse {
            flipped(inner)
        } else {
            inner
        },
    )
}

/// The keys' contents.
pub open spec fn key_views(keys: Seq<SortKey>) -> Seq<KeyView> {
    keys.map_values(|k: SortKey| k@)
}

/// The order of the things at two positions.
pub open spec fn keys_by_position(keys: Seq<KeyView>, reverse: bool) -> spec_fn(int, int) -> Order {
    |i: int, j: int| key_order(keys[i], keys[j], reverse)
}

/// Whether the thing at `i` belongs before the thing at `j`: it is less, or it
/// is equal and stood first.
pub open spec fn goes_before(ord: spec_fn(int, int) -> Order, i: int, j: int) -> bool {
    ord(i, j) == Order::Less || (ord(i, j) == Order::Equal && i < j)
}

/// Whether `p` lists the positions from `lo` up to `hi`, each once, in the order
/// of a stable sort.
pub open spec fn sorted_between(
    ord: spec_fn(int, int) -> Order,
    lo: int,
    hi: int,
    p: Seq<usize>,
) -> bool {
    &&& p.len() == hi - lo
    &&& forall|i: int| 0 <= i < p.len() ==> lo <= #[trigger] p[i] < hi
    &&& forall|i: int, j: int| 0 <= i < j < p.len() ==> goes_before(ord, p[i] as int, p[j] as int)
}

/// Whether `p` is the order of a stable sort of `n` things.
pub open spec fn is_stable_order(ord: spec_fn(int, int) -> Order, n: nat, p: Seq<usize>) -> bool {
    sorted_between(ord, 0, n as int, p)
}

/// Whether `after` is the stable sort of `before` by `ord`, which compares
/// positions of `before`.
pub open spec fn is_stable_sort<T>(
    ord: spec_fn(int, int) -> Order,
    before: Seq<T>,
    after: Seq<T>,
) -> bool {
    exists|p: Seq<usize>| #[trigger]
        is_stable_order(ord, before.len(), p) && after == Seq::new(
            p.len(),
            |i: int| before[p[i] as int],
        )
}

/// Orders two keys.
pub fn order_keys(a: &SortKey, b: &SortKey, reverse: bool) -> (r: Order)
    ensures
        r == key_order(a@, b@, reverse),
{
    if a.group != b.group {
        return if b.group {
            Order::Less
        } else {
            Order::Greater
        };
    }
    let inner = if a.number < b.number {
        Order::Less
    } else if a.number > b.number {
        Order::Greater
    } else {
        match order_texts(a.first.as_slice(), b.first.as_slice()) {
            Order::Less => Order::Less,
            Order::Equal => order_texts(a.second.as_slice(), b.second.as_slice()),
            Order::Greater => Order::Greater,
        }
    };
    if reverse {
        flip(inner)
    } else {
        inner
    }
}

/// Swapping the keys reverses their order.
pub proof fn key_order_flips(a: KeyView, b: KeyView, reverse: bool)
    ensures
        key_order(b, a, reverse) == flipped(key_order(a, b, reverse)),
{
    text_order_flips(a.first, b.first);
    text_order_flips(a.second, b.second);
}

/// The order of keys is transitive.
pub proof fn key_order_transitive(a: KeyView, b: KeyView, c: KeyView, reverse: bool)
    requires
        key_order(a, b, reverse) != Order::Greater,
        key_order(b, c, reverse) != Order::Greater,
    ensures
        key_order(a, c, reverse) != Order::Greater,
        key_order(a, c, reverse) == Order::Equal ==> key_order(a, b, reverse) == Order::Equal
            && key_order(b, c, reverse) == Order::Equal,
{
    if reverse {
        key_order_flips(a, b, false);
        key_order_flips(b, c, false);
        key_order_flips(a, c, false);
        if a.group == b.group && b.group == c.group {
            lemma_key_order_transitive_forward(c, b, a);
        }
    } else {
        lemma_key_order_transitive_forward(a, b, c);
    }
}

proof fn lemma_key_order_transitive_forward(a: KeyView, b: KeyView, c: KeyView)
    requires
        key_order(a, b, false) != Order::Greater,
        key_order(b, c, false) != Order::Greater,
    ensures
        key_order(a, c, false) != Order::Greater,
        key_order(a, c, false) == Order::Equal ==> key_order(a, b, false) == Order::Equal
            && key_order(b, c, false) == Order::Equal,
{
    text_order_equal(a.first, b.first);
    text_order_equal(b.first, c.first);
    text_order_equal(a.first, c.first);
    text_order_equal(a.second, b.second);
    text_order_equal(b.second, c.second);
    text_order_equal(a.second, c.second);
    text_order_flips(a.first, b.first);
    text_order_flips(b.first, c.first);
    if text_order(a.first, b.first) != Order::Greater && text_order(b.first, c.first)
        != Order::Greater {
        text_order_transitive(a.first, b.first, c.first);
    }
    if text_order(a.second, b.second) != Order::Greater && text_order(b.second, c.second)
        != Order::Greater {
        text_order_transitive(a.second, b.second, c.second);
    }
}

/// Of two positions exactly one goes before the other.
proof fn lemma_goes_before_total(keys: Seq<KeyView>, reverse: bool, i: int, j: int)
    requires
        i != j,
    ensures
        goes_before(keys_by_position(keys, reverse), i, j) != goes_before(
            keys_by_position(keys, reverse),
            j,
            i,
        ),
{
    key_order_flips(keys[i], keys[j], reverse);
}

proof fn lemma_goes_before_transitive(keys: Seq<KeyView>, reverse: bool, i: int, j: int, k: int)
    requires
        goes_before(keys_by_position(keys, reverse), i, j),
        goes_before(keys_by_position(keys, reverse), j, k),
    ensures
        goes_before(keys_by_position(keys, reverse), i, k),
{
    key_order_transitive(keys[i], keys[j], keys[k], reverse);
}

/// Merges two sorted lists of positions, of which the first holds the smaller
/// ones.
fn merge(
    keys: &Vec<SortKey>,
    reverse: bool,
    a: &Vec<usize>,
    b: &Vec<usize>,
    Ghost(lo): Ghost<int>,
    Ghost(mid): Ghost<int>,
    Ghost(hi): Ghost<int>,
) -> (out: Vec<usize>)
    requires
        0 <= lo <= mid <= hi <= keys@.len(),
        sorted_between(keys_by_position(key_views(keys@), reverse), lo, mid, a@),
        sorted_between(keys_by_position(key_views(keys@), reverse), mid, hi, b@),
    ensures
        sorted_between(keys_by_position(key_views(keys@), reverse), lo, hi, out@),
{
    let ghost ks = key_views(keys@);
    let ghost ord = keys_by_position(ks, reverse);
    let mut out: Vec<usize> = Vec::new();
    let mut i: usize = 0;
    let mut j: usize = 0;
    while i < a.len() || j < b.len()
        invariant
            0 <= lo <= mid <= hi <= keys@.len(),
            ks == key_views(keys@),
            ord == keys_by_position(ks, reverse),
            sorted_between(ord, lo, mid, a@),
            sorted_between(ord, mid, hi, b@),
            i <= a@.len(),
            j <= b@.len(),
            out@.len() == i + j,
            forall|p: int| 0 <= p < out@.len() ==> lo <= #[trigger] out@[p] < hi,
            forall|p: int, q: int|
                0 <= p < q < out@.len() ==> goes_before(ord, out@[p] as int, out@[q] as int),
            forall|p: int, q: int|
                0 <= p < out@.len() && i <= q < a@.len() ==> goes_before(
                    ord,
                    out@[p] as int,
                    a@[q] as int,
                ),
            forall|p: int, q: int|
                0 <= p < out@.len() && j <= q < b@.len() ==> goes_before(
                    ord,
                    out@[p] as int,
                    b@[q] as int,
                ),
        decreases a@.len() - i + b@.len() - j,
    {
        let ghost before = out@;
        let from_a = if i == a.len() {
            false
        } else if j == b.len() {
            true
        } else {
            order_keys(&keys[a[i]], &keys[b[j]], reverse) != Order::Greater
        };
        if from_a {
            let x = a[i];
            proof {
                if j < b@.len() {
                    assert(goes_before(ord, x as int, b@[j as int] as int));
                    assert forall|q: int| j <= q < b@.len() implies goes_before(
                        ord,
                        x as int,
                        b@[q] as int,
                    ) by {
                        if q > j {
                            lemma_goes_before_transitive(
                                ks,
                                reverse,
                                x as int,
                                b@[j as int] as int,
                                b@[q] as int,
                            );
                        }
                    }
                }
            }
            out.push(x);
            i += 1;
        } else {
            let y = b[j];
            proof {
                if i < a@.len() {
                    lemma_goes_before_total(ks, reverse, a@[i as int] as int, y as int);
                    assert(!goes_before(ord, a@[i as int] as int, y as int));
                    assert forall|q: int| i <= q < a@.len() implies goes_before(
                        ord,
                        y as int,
                        a@[q] as int,
                    ) by {
                        if q > i {
                            lemma_goes_before_transitive(
                                ks,
                                reverse,
                                y as int,
                                a@[i as int] as int,
                                a@[q] as int,
                            );
                        }
                    }
                }
            }
            out.push(y);
            j += 1;
        }
    }
    out
}

/// Sorts the positions from `lo` up to `hi`.
fn sort_between(keys: &Vec<SortKey>, reverse: bool, lo: usize, hi: usize) -> (out: Vec<usize>)
    requires
        lo <= hi <= keys@.len(),
    ensures
        sorted_between(
            keys_by_position(key_views(keys@), reverse),
            lo as int,
            hi as int,
            out@,
        ),
    decreases hi - lo,
{
    if hi - lo <= 1 {
        let mut out: Vec<usize> = Vec::new();
        if lo < hi {
            out.push(lo);
        }
        return out;
    }
    let mid = lo + (hi - lo) / 2;
    let a = sort_between(keys, reverse, lo, mid);
    let b = sort_between(keys, reverse, mid, hi);
    merge(keys, reverse, &a, &b, Ghost(lo as int), Ghost(mid as int), Ghost(hi as int))
}

/// The order of a stable sort by the keys.
pub fn sort_order(keys: &Vec<SortKey>, reverse: bool) -> (out: Vec<usize>)
    ensures
        is_stable_order(keys_by_position(key_views(keys@), reverse), keys@.len(), out@),
{
    sort_between(keys, reverse, 0, keys.len())
}

/// Whether swapping the positions reverses their order.
pub open spec fn is_two_sided(ord: spec_fn(int, int) -> Order) -> bool {
    forall|i: int, j: int| #[trigger] ord(j, i) == flipped(ord(i, j))
}

/// Whether `p` holds the position `k`.
pub open spec fn names(p: Seq<usize>, k: int) -> bool {
    exists|i: int| 0 <= i < p.len() && #[trigger] p[i] == k
}

/// The order of a stable sort names every position once: a sort neither loses
/// nor doubles anything.
pub proof fn stable_order_is_a_permutation(
    ord: spec_fn(int, int) -> Order,
    n: nat,
    p: Seq<usize>,
)
    requires
        is_two_sided(ord),
        is_stable_order(ord, n, p),
    ensures
        p.len() == n,
        p.no_duplicates(),
        forall|k: int| 0 <= k < n ==> #[trigger] names(p, k),
{
    assert forall|i: int, j: int| 0 <= i < j < p.len() implies p[i] != p[j] by {
        let x = p[i] as int;
        assert(goes_before(ord, x, p[j] as int));
        assert(ord(x, x) == flipped(ord(x, x)));
    }
    let q = p.map_values(|x: usize| x as int);
    assert(q.no_duplicates()) by {
        assert forall|i: int, j: int| 0 <= i < q.len() && 0 <= j < q.len() && i != j implies q[i]
            != q[j] by {
            if i < j {
                assert(p[i] != p[j]);
            } else {
                assert(p[j] != p[i]);
            }
        }
    }
    q.unique_seq_to_set();
    vstd::set_lib::lemma_int_range(0, n as int);
    let all = vstd::set_lib::set_int_range(0, n as int);
    assert(q.to_set().subset_of(all));
    vstd::set_lib::lemma_subset_equality(q.to_set(), all);
    assert forall|k: int| 0 <= k < n implies #[trigger] names(p, k) by {
        assert(all.contains(k));
        assert(q.contains(k));
        let i = choose|i: int| 0 <= i < q.len() && q[i] == k;
        assert(p[i] == k);
    }
}

/// There is one stable sort: two of the same things are equal.
pub proof fn stable_sort_is_unique<T>(
    ord: spec_fn(int, int) -> Order,
    before: Seq<T>,
    a: Seq<T>,
    b: Seq<T>,
)
    requires
        is_two_sided(ord),
        is_stable_sort(ord, before, a),
        is_stable_sort(ord, before, b),
    ensures
        a == b,
{
    let n = before.len();
    let p = choose|p: Seq<usize>| #[trigger]
        is_stable_order(ord, n, p) && a == Seq::new(p.len(), |i: int| before[p[i] as int]);
    let q = choose|p: Seq<usize>| #[trigger]
        is_stable_order(ord, n, p) && b == Seq::new(p.len(), |i: int| before[p[i] as int]);
    stable_order_is_a_permutation(ord, n, p);
    stable_order_is_a_permutation(ord, n, q);
    assert forall|i: int| 0 <= i < n implies p[i] == q[i] by {
        lemma_same_position(ord, n, p, q, i);
    }
    assert(p =~= q);
}

proof fn lemma_same_position(
    ord: spec_fn(int, int) -> Order,
    n: nat,
    p: Seq<usize>,
    q: Seq<usize>,
    i: int,
)
    requires
        is_two_sided(ord),
        is_stable_order(ord, n, p),
        is_stable_order(ord, n, q),
        p.no_duplicates(),
        q.no_duplicates(),
        forall|k: int| 0 <= k < n ==> #[trigger] names(p, k),
        forall|k: int| 0 <= k < n ==> #[trigger] names(q, k),
        0 <= i < n,
    ensures
        p[i] == q[i],
    decreases i,
{
    assert forall|j: int| 0 <= j < i implies p[j] == q[j] by {
        lemma_same_position(ord, n, p, q, j);
    }
    if p[i] != q[i] {
        let x = p[i] as int;
        let y = q[i] as int;
        assert(names(q, x));
        assert(names(p, y));
        let k = choose|k: int| 0 <= k < q.len() && #[trigger] q[k] == x;
        let m = choose|m: int| 0 <= m < p.len() && #[trigger] p[m] == y;
        assert(k > i) by {
            if k < i {
                assert(p[k] == p[i]);
            }
        }
        assert(m > i) by {
            if m < i {
                assert(q[m] == q[i]);
            }
        }
        assert(goes_before(ord, q[i] as int, q[k] as int));
        assert(goes_before(ord, p[i] as int, p[m] as int));
        assert(ord(y, x) == flipped(ord(x, y)));
    }
}

/// Orders that agree on all positions have the same stable sorts.
pub proof fn lemma_same_order(
    a: spec_fn(int, int) -> Order,
    b: spec_fn(int, int) -> Order,
    n: nat,
    p: Seq<usize>,
)
    requires
        is_stable_order(a, n, p),
        forall|i: int, j: int| 0 <= i < n && 0 <= j < n ==> #[trigger] a(i, j) == b(i, j),
    ensures
        is_stable_order(b, n, p),
{
    assert forall|i: int, j: int| 0 <= i < j < p.len() implies goes_before(
        b,
        p[i] as int,
        p[j] as int,
    ) by {
        assert(goes_before(a, p[i] as int, p[j] as int));
        assert(a(p[i] as int, p[j] as int) == b(p[i] as int, p[j] as int));
    }
}

/// Whether `a` comes before `b`: they are the same up to some place, and there `a`
/// has ended, or has the smaller character.
pub open spec fn comes_before(a: Seq<char>, b: Seq<char>) -> bool {
    exists|i: int|
        0 <= i <= a.len() && i < b.len() && #[trigger] a.take(i) == b.take(i) && (i < a.len() ==> (
        a[i] as int) < (b[i] as int))
}

/// The order of texts is that of a dictionary.
pub proof fn text_order_is_lexicographic(a: Seq<char>, b: Seq<char>)
    ensures
        text_order(a, b) == Order::Less <==> comes_before(a, b),
        text_order(a, b) == Order::Greater <==> comes_before(b, a),
        text_order(a, b) == Order::Equal <==> a == b,
{
    lemma_less_is_before(a, b);
    lemma_less_is_before(b, a);
    text_order_flips(a, b);
    text_order_equal(a, b);
}

proof fn lemma_less_is_before(a: Seq<char>, b: Seq<char>)
    ensures
        text_order(a, b) == Order::Less <==> comes_before(a, b),
    decreases a.len(),
{
    if a.len() == 0 {
        if b.len() > 0 {
            assert(a.take(0) =~= b.take(0));
        }
    } else if b.len() > 0 {
        if a[0] == b[0] {
            let x = a.skip(1);
            let y = b.skip(1);
            lemma_less_is_before(x, y);
            if comes_before(x, y) {
                let i = choose|i: int|
                    0 <= i <= x.len() && i < y.len() && #[trigger] x.take(i) == y.take(i) && (i
                        < x.len() ==> (x[i] as int) < (y[i] as int));
                assert(a.take(i + 1) =~= seq![a[0]] + x.take(i));
                assert(b.take(i + 1) =~= seq![b[0]] + y.take(i));
            }
            if comes_before(a, b) {
                let i = choose|i: int|
                    0 <= i <= a.len() && i < b.len() && #[trigger] a.take(i) == b.take(i) && (i
                        < a.len() ==> (a[i] as int) < (b[i] as int));
                assert(x.take(i - 1) =~= a.take(i).skip(1));
                assert(y.take(i - 1) =~= b.take(i).skip(1));
            }
        } else {
            if (a[0] as int) < (b[0] as int) {
                assert(a.take(0) =~= b.take(0));
            }
            if comes_before(a, b) {
                let i = choose|i: int|
                    0 <= i <= a.len() && i < b.len() && #[trigger] a.take(i) == b.take(i) && (i
                        < a.len() ==> (a[i] as int) < (b[i] as int));
                if i > 0 {
                    assert(a.take(i)[0] == b.take(i)[0]);
                }
            }
        }
    }
}

} // verus!
