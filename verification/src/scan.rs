//! Scanning text: character classes, words, fields, lines and searches.

use vstd::prelude::*;

use crate::text::{ascii_lower, chars_of, lower_char, same_but_for_case, text_of};

verus! {

/// The texts in a sequence of strings.
pub open spec fn texts(v: Seq<String>) -> Seq<Seq<char>> {
    v.map_values(|s: String| s@)
}

/// The texts in a sequence of character vectors.
pub open spec fn char_texts(v: Seq<Vec<char>>) -> Seq<Seq<char>> {
    v.map_values(|s: Vec<char>| s@)
}

/// The bytes in a sequence of byte vectors.
pub open spec fn byte_texts(v: Seq<Vec<u8>>) -> Seq<Seq<u8>> {
    v.map_values(|n: Vec<u8>| n@)
}

/// Whether `c` is one of the five ASCII white space characters.
pub open spec fn is_ascii_space(c: char) -> bool {
    c == ' ' || c == '\t' || c == '\n' || c == '\r' || c == '\x0c'
}

/// Whether `c` has the Unicode property `White_Space`.
pub open spec fn is_white_space(c: char) -> bool {
    ||| '\u{9}' <= c <= '\u{d}'
    ||| c == '\u{20}'
    ||| c == '\u{85}'
    ||| c == '\u{a0}'
    ||| c == '\u{1680}'
    ||| '\u{2000}' <= c <= '\u{200a}'
    ||| c == '\u{2028}'
    ||| c == '\u{2029}'
    ||| c == '\u{202f}'
    ||| c == '\u{205f}'
    ||| c == '\u{3000}'
}

/// White space: the ASCII kind only, or all of Unicode's.
pub open spec fn is_space(c: char, unicode: bool) -> bool {
    if unicode {
        is_white_space(c)
    } else {
        is_ascii_space(c)
    }
}

/// Whether `c` is a control character (Unicode's category `Cc`).
pub open spec fn is_control_char(c: char) -> bool {
    c <= '\u{1f}' || '\u{7f}' <= c <= '\u{9f}'
}

/// Tests for white space.
pub fn space(c: char, unicode: bool) -> (r: bool)
    ensures
        r == is_space(c, unicode),
{
    if unicode {
        ('\u{9}' <= c && c <= '\u{d}') || c == '\u{20}' || c == '\u{85}' || c == '\u{a0}' || c
            == '\u{1680}' || ('\u{2000}' <= c && c <= '\u{200a}') || c == '\u{2028}' || c
            == '\u{2029}' || c == '\u{202f}' || c == '\u{205f}' || c == '\u{3000}'
    } else {
        c == ' ' || c == '\t' || c == '\n' || c == '\r' || c == '\x0c'
    }
}

/// Tests for a control character.
pub fn control(c: char) -> (r: bool)
    ensures
        r == is_control_char(c),
{
    c <= '\u{1f}' || ('\u{7f}' <= c && c <= '\u{9f}')
}

/// How many characters of `s` stand before its first white space.
pub open spec fn word_len(s: Seq<char>, unicode: bool) -> nat
    decreases s.len(),
{
    if s.len() == 0 || is_space(s[0], unicode) {
        0
    } else {
        1 + word_len(s.skip(1), unicode)
    }
}

/// The word that `s` starts with is no longer than `s`.
pub proof fn lemma_word_len(s: Seq<char>, unicode: bool)
    ensures
        word_len(s, unicode) <= s.len(),
    decreases s.len(),
{
    if !(s.len() == 0 || is_space(s[0], unicode)) {
        lemma_word_len(s.skip(1), unicode);
    }
}

/// The words of `s`: its maximal stretches without white space, in order.
pub open spec fn words(s: Seq<char>, unicode: bool) -> Seq<Seq<char>>
    decreases s.len(),
{
    if s.len() == 0 {
        Seq::empty()
    } else if is_space(s[0], unicode) {
        words(s.skip(1), unicode)
    } else {
        let n = word_len(s, unicode) as int;
        proof {
            lemma_word_len(s, unicode);
        }
        seq![s.take(n)] + words(s.skip(n), unicode)
    }
}

/// Splits a text into words.
pub fn split_words(s: &str, unicode: bool) -> (r: Vec<String>)
    ensures
        texts(r@) == words(s@, unicode),
{
    let v = chars_of(s);
    let n = v.len();
    let mut out: Vec<String> = Vec::new();
    let mut i: usize = 0;
    assert(v@.skip(0) =~= v@);
    assert(texts(out@) + words(v@, unicode) =~= words(v@, unicode));
    while i < n
        invariant
            n == v@.len(),
            v@ == s@,
            i <= n,
            texts(out@) + words(v@.skip(i as int), unicode) == words(v@, unicode),
        decreases n - i,
    {
        let ghost rest = v@.skip(i as int);
        if space(v[i], unicode) {
            assert(rest.skip(1) =~= v@.skip(i + 1));
            i += 1;
        } else {
            let start = i;
            let mut word = String::new();
            assert(rest.skip(0) =~= rest);
            while i < n && !space(v[i], unicode)
                invariant
                    n == v@.len(),
                    start <= i <= n,
                    rest == v@.skip(start as int),
                    word@ == rest.take(i - start),
                    word_len(rest, unicode) == i - start + word_len(v@.skip(i as int), unicode),
                decreases n - i,
            {
                let ghost here = v@.skip(i as int);
                assert(here.skip(1) =~= v@.skip(i + 1));
                assert(rest.take(i - start + 1) =~= rest.take(i - start).push(v@[i as int]));
                word.push(v[i]);
                i += 1;
            }
            assert(word_len(v@.skip(i as int), unicode) == 0);
            assert(i > start) by {
                assert(!is_space(rest[0], unicode));
                assert(v@[start as int] == rest[0]);
            }
            let ghost before = out@;
            assert(rest.skip(i - start) =~= v@.skip(i as int));
            assert(words(rest, unicode) == seq![word@] + words(v@.skip(i as int), unicode));
            out.push(word);
            assert(texts(out@) =~= texts(before).push(word@));
            assert(texts(before) + words(rest, unicode) =~= texts(out@) + words(
                v@.skip(i as int),
                unicode,
            ));
        }
    }
    assert(texts(out@) + words(v@.skip(n as int), unicode) =~= texts(out@));
    out
}

/// The pieces of `s` between the separators `sep`; one piece more than there
/// are separators.
pub open spec fn fields<T>(s: Seq<T>, sep: T) -> Seq<Seq<T>>
    decreases s.len(),
{
    if s.len() == 0 {
        seq![Seq::empty()]
    } else {
        let f = fields(s.drop_last(), sep);
        if s.last() == sep {
            f.push(Seq::empty())
        } else {
            f.drop_last().push(f.last().push(s.last()))
        }
    }
}

/// Splits at every `sep`.
pub fn split_fields(s: &[char], sep: char) -> (r: Vec<Vec<char>>)
    ensures
        char_texts(r@) == fields(s@, sep),
        r@.len() > 0,
{
    let mut out: Vec<Vec<char>> = Vec::new();
    let mut cur: Vec<char> = Vec::new();
    let n = s.len();
    let mut i: usize = 0;
    assert(s@.take(0) =~= Seq::<char>::empty());
    assert(char_texts(out@).push(cur@) =~= fields(s@.take(0), sep));
    while i < n
        invariant
            n == s@.len(),
            i <= n,
            char_texts(out@).push(cur@) == fields(s@.take(i as int), sep),
        decreases n - i,
    {
        let c = s[i];
        let ghost p = s@.take(i + 1);
        let ghost f = fields(s@.take(i as int), sep);
        assert(p.drop_last() =~= s@.take(i as int));
        assert(f.last() == cur@);
        assert(f.drop_last() =~= char_texts(out@));
        if c == sep {
            let ghost before = out@;
            let ghost piece = cur@;
            let mut done: Vec<char> = Vec::new();
            std::mem::swap(&mut done, &mut cur);
            out.push(done);
            assert(char_texts(out@) =~= char_texts(before).push(piece));
            assert(char_texts(out@).push(cur@) =~= fields(p, sep));
        } else {
            cur.push(c);
            assert(char_texts(out@).push(cur@) =~= fields(p, sep));
        }
        i += 1;
    }
    assert(s@.take(n as int) =~= s@);
    let ghost before = out@;
    let ghost piece = cur@;
    out.push(cur);
    assert(char_texts(out@) =~= char_texts(before).push(piece));
    out
}

/// `s` without one carriage return at its end.
pub open spec fn without_cr(s: Seq<char>) -> Seq<char> {
    if s.len() > 0 && s.last() == '\r' {
        s.drop_last()
    } else {
        s
    }
}

/// The lines of `s`: a line ends with a line feed, which a carriage return may
/// precede, and neither belongs to it; the last line may lack its end.
pub open spec fn lines(s: Seq<char>) -> Seq<Seq<char>> {
    let f = fields(s, '\n');
    let ended = f.drop_last().map_values(|l: Seq<char>| without_cr(l));
    if f.last().len() > 0 {
        ended.push(f.last())
    } else {
        ended
    }
}

/// Splits a text into lines.
pub fn split_lines(s: &str) -> (r: Vec<String>)
    ensures
        texts(r@) == lines(s@),
{
    let v = chars_of(s);
    let f = split_fields(v.as_slice(), '\n');
    let ghost fs = fields(s@, '\n');
    let n = f.len();
    let mut out: Vec<String> = Vec::new();
    let mut i: usize = 0;
    assert(texts(out@) =~= fs.take(0).map_values(|l: Seq<char>| without_cr(l)));
    while i < n - 1
        invariant
            n == f@.len(),
            n > 0,
            i <= n - 1,
            char_texts(f@) == fs,
            texts(out@) == fs.take(i as int).map_values(|l: Seq<char>| without_cr(l)),
        decreases n - i,
    {
        let l = &f[i];
        assert(l@ == fs[i as int]);
        let m = l.len();
        let line = if m > 0 && l[m - 1] == '\r' {
            text_of(vstd::slice::slice_subrange(l.as_slice(), 0, m - 1))
        } else {
            text_of(l.as_slice())
        };
        assert(line@ =~= without_cr(fs[i as int]));
        let ghost before = out@;
        let ghost text = line@;
        out.push(line);
        i += 1;
        assert(texts(out@) =~= texts(before).push(text));
        assert(texts(out@) =~= fs.take(i as int).map_values(|l: Seq<char>| without_cr(l)));
    }
    assert(fs.take(n - 1) =~= fs.drop_last());
    assert(fs.last() == f@[n - 1]@);
    if f[n - 1].len() > 0 {
        let last = text_of(f[n - 1].as_slice());
        let ghost before = out@;
        let ghost text = last@;
        out.push(last);
        assert(texts(out@) =~= texts(before).push(text));
    }
    out
}

/// `s` without the white space at its end.
pub open spec fn trim_end(s: Seq<char>) -> Seq<char>
    decreases s.len(),
{
    if s.len() > 0 && is_white_space(s.last()) {
        trim_end(s.drop_last())
    } else {
        s
    }
}

/// `s` without the white space at its start.
pub open spec fn trim_start(s: Seq<char>) -> Seq<char>
    decreases s.len(),
{
    if s.len() > 0 && is_white_space(s[0]) {
        trim_start(s.skip(1))
    } else {
        s
    }
}

/// `s` without any `c` at its end.
pub open spec fn trim_end_matches(s: Seq<char>, c: char) -> Seq<char>
    decreases s.len(),
{
    if s.len() > 0 && s.last() == c {
        trim_end_matches(s.drop_last(), c)
    } else {
        s
    }
}

/// Drops the white space at the end.
pub fn drop_end_space(s: &[char]) -> (r: &[char])
    ensures
        r@ == trim_end(s@),
{
    let mut n: usize = s.len();
    assert(s@.take(n as int) =~= s@);
    while n > 0 && space(s[n - 1], true)
        invariant
            n <= s@.len(),
            trim_end(s@.take(n as int)) == trim_end(s@),
        decreases n,
    {
        assert(s@.take(n as int).drop_last() =~= s@.take(n - 1));
        n -= 1;
    }
    let r = vstd::slice::slice_subrange(s, 0, n);
    assert(r@ =~= s@.take(n as int));
    r
}

/// Drops the white space at the start.
pub fn drop_start_space(s: &[char]) -> (r: &[char])
    ensures
        r@ == trim_start(s@),
{
    let mut k: usize = 0;
    assert(s@.skip(0) =~= s@);
    while k < s.len() && space(s[k], true)
        invariant
            k <= s@.len(),
            trim_start(s@.skip(k as int)) == trim_start(s@),
        decreases s@.len() - k,
    {
        assert(s@.skip(k as int).skip(1) =~= s@.skip(k + 1));
        k += 1;
    }
    let r = vstd::slice::slice_subrange(s, k, s.len());
    assert(r@ =~= s@.skip(k as int));
    r
}

/// Drops every `c` at the end.
pub fn drop_end_char(s: &[char], c: char) -> (r: &[char])
    ensures
        r@ == trim_end_matches(s@, c),
{
    let mut n: usize = s.len();
    assert(s@.take(n as int) =~= s@);
    while n > 0 && s[n - 1] == c
        invariant
            n <= s@.len(),
            trim_end_matches(s@.take(n as int), c) == trim_end_matches(s@, c),
        decreases n,
    {
        assert(s@.take(n as int).drop_last() =~= s@.take(n - 1));
        n -= 1;
    }
    let r = vstd::slice::slice_subrange(s, 0, n);
    assert(r@ =~= s@.take(n as int));
    r
}

/// The position of the first `c` in `s`.
pub open spec fn first_at(s: Seq<char>, c: char) -> Option<int>
    decreases s.len(),
{
    if s.len() == 0 {
        None
    } else if s[0] == c {
        Some(0)
    } else {
        match first_at(s.skip(1), c) {
            Some(i) => Some(i + 1),
            None => None,
        }
    }
}

/// The position of the last `c` in `s`.
pub open spec fn last_at<T>(s: Seq<T>, c: T) -> Option<int>
    decreases s.len(),
{
    if s.len() == 0 {
        None
    } else if s.last() == c {
        Some(s.len() - 1)
    } else {
        last_at(s.drop_last(), c)
    }
}

/// What it means to be the position of the first `c`.
pub proof fn lemma_first_at(s: Seq<char>, c: char)
    ensures
        match first_at(s, c) {
            Some(i) => 0 <= i < s.len() && s[i] == c && forall|j: int| 0 <= j < i ==> s[j] != c,
            None => forall|j: int| 0 <= j < s.len() ==> s[j] != c,
        },
    decreases s.len(),
{
    if s.len() > 0 && s[0] != c {
        let t = s.skip(1);
        lemma_first_at(t, c);
        assert forall|j: int| 0 < j < s.len() implies s[j] == t[j - 1] by {}
    }
}

/// What it means to be the position of the last `c`.
pub proof fn lemma_last_at<T>(s: Seq<T>, c: T)
    ensures
        match last_at(s, c) {
            Some(i) => 0 <= i < s.len() && s[i] == c && forall|j: int|
                i < j < s.len() ==> s[j] != c,
            None => forall|j: int| 0 <= j < s.len() ==> s[j] != c,
        },
    decreases s.len(),
{
    if s.len() > 0 && s.last() != c {
        let t = s.drop_last();
        lemma_last_at(t, c);
        assert forall|j: int| 0 <= j < t.len() implies s[j] == t[j] by {}
    }
}

/// Finds the first `c`.
pub fn find_first(s: &[char], c: char) -> (r: Option<usize>)
    ensures
        match r {
            Some(i) => first_at(s@, c) == Some(i as int),
            None => first_at(s@, c) is None,
        },
        r matches Some(i) ==> i < s@.len(),
{
    proof {
        lemma_first_at(s@, c);
    }
    for i in 0..s.len()
        invariant
            forall|j: int| 0 <= j < i ==> s@[j] != c,
    {
        if s[i] == c {
            proof {
                lemma_first_at(s@, c);
            }
            return Some(i);
        }
    }
    None
}

/// Finds the last `c`.
pub fn find_last(s: &[char], c: char) -> (r: Option<usize>)
    ensures
        match r {
            Some(i) => last_at(s@, c) == Some(i as int),
            None => last_at(s@, c) is None,
        },
        r matches Some(i) ==> i < s@.len(),
{
    let mut n: usize = s.len();
    assert(s@.take(n as int) =~= s@);
    while n > 0
        invariant
            n <= s@.len(),
            last_at(s@.take(n as int), c) == last_at(s@, c),
        decreases n,
    {
        if s[n - 1] == c {
            return Some(n - 1);
        }
        assert(s@.take(n as int).drop_last() =~= s@.take(n - 1));
        n -= 1;
    }
    None
}

/// What of `s` follows its last `c`; all of `s` where there is none.
pub open spec fn after_last(s: Seq<char>, c: char) -> Seq<char> {
    match last_at(s, c) {
        Some(i) => s.skip(i + 1),
        None => s,
    }
}

/// The end of `s` behind its last `c`.
pub fn behind_last(s: &str, c: char) -> (r: String)
    ensures
        r@ == after_last(s@, c),
{
    let v = chars_of(s);
    proof {
        lemma_last_at(s@, c);
    }
    let n = v.len();
    match find_last(v.as_slice(), c) {
        Some(i) => {
            let r = text_of(vstd::slice::slice_subrange(v.as_slice(), i + 1, n));
            assert(r@ =~= s@.skip(i + 1));
            r
        },
        None => text_of(v.as_slice()),
    }
}

/// What of `s` stands before its first `c`; all of `s` where there is none.
pub open spec fn before_first(s: Seq<char>, c: char) -> Seq<char> {
    match first_at(s, c) {
        Some(i) => s.take(i),
        None => s,
    }
}

/// The start of `s` before its first `c`.
pub fn up_to_first(s: &str, c: char) -> (r: String)
    ensures
        r@ == before_first(s@, c),
{
    let v = chars_of(s);
    match find_first(v.as_slice(), c) {
        Some(i) => {
            let r = text_of(vstd::slice::slice_subrange(v.as_slice(), 0, i));
            assert(r@ =~= s@.take(i as int));
            r
        },
        None => text_of(v.as_slice()),
    }
}

/// Whether `s` starts with `p`.
pub open spec fn has_prefix(s: Seq<char>, p: Seq<char>) -> bool {
    p.len() <= s.len() && s.take(p.len() as int) == p
}

/// Whether `q` occurs in `s`.
pub open spec fn has_part(s: Seq<char>, q: Seq<char>) -> bool {
    exists|i: int| 0 <= i <= s.len() - q.len() && #[trigger] has_prefix(s.skip(i), q)
}

/// Tests whether `p` stands in `s` at the position `at`.
fn stands_at(s: &[char], at: usize, p: &[char]) -> (r: bool)
    requires
        at <= s@.len(),
    ensures
        r == has_prefix(s@.skip(at as int), p@),
{
    let ghost t = s@.skip(at as int);
    let n = s.len();
    if p.len() > n - at {
        return false;
    }
    for i in 0..p.len()
        invariant
            at <= n,
            n == s@.len(),
            p@.len() <= s@.len() - at,
            t == s@.skip(at as int),
            forall|j: int| 0 <= j < i ==> s@[at + j] == p@[j],
    {
        if s[at + i] != p[i] {
            assert(t.take(p@.len() as int)[i as int] == s@[at + i]);
            return false;
        }
    }
    assert(t.take(p@.len() as int) =~= p@);
    true
}

/// Tests whether `s` starts with `p`.
pub fn starts_with(s: &str, p: &str) -> (r: bool)
    ensures
        r == has_prefix(s@, p@),
{
    let v = chars_of(s);
    let q = chars_of(p);
    assert(v@.skip(0) =~= v@);
    stands_at(v.as_slice(), 0, q.as_slice())
}

/// Tests whether `q` occurs in `s`.
pub fn contains(s: &str, q: &str) -> (r: bool)
    ensures
        r == has_part(s@, q@),
{
    let v = chars_of(s);
    let p = chars_of(q);
    if p.len() > v.len() {
        return false;
    }
    let last = v.len() - p.len();
    let mut i: usize = 0;
    loop
        invariant
            v@ == s@,
            p@ == q@,
            last == v@.len() - p@.len(),
            i <= last,
            forall|j: int| 0 <= j < i ==> !#[trigger] has_prefix(s@.skip(j), q@),
        decreases last - i,
    {
        if stands_at(v.as_slice(), i, p.as_slice()) {
            return true;
        }
        if i == last {
            return false;
        }
        i += 1;
    }
}

/// Whether `s` holds no `c`.
pub open spec fn lacks<T>(s: Seq<T>, c: T) -> bool {
    forall|i: int| 0 <= i < s.len() ==> s[i] != c
}

/// Behind a separator, a text without one is a piece of its own.
pub proof fn lemma_last_field<T>(s: Seq<T>, sep: T, t: Seq<T>)
    requires
        lacks(t, sep),
    ensures
        fields(s.push(sep) + t, sep) == fields(s, sep).push(t),
    decreases t.len(),
{
    let all = s.push(sep) + t;
    if t.len() == 0 {
        assert(all =~= s.push(sep));
        assert(all.drop_last() =~= s);
        assert(t =~= Seq::empty());
    } else {
        let u = t.drop_last();
        assert(lacks(u, sep)) by {
            assert forall|i: int| 0 <= i < u.len() implies u[i] != sep by {
                assert(u[i] == t[i]);
            }
        }
        lemma_last_field(s, sep, u);
        assert(all.drop_last() =~= s.push(sep) + u);
        assert(all.last() == t.last());
        let f = fields(s, sep).push(u);
        assert(f.drop_last().push(f.last().push(t.last())) =~= fields(s, sep).push(t)) by {
            assert(u.push(t.last()) =~= t);
        }
    }
}

/// A text without a separator is one piece.
pub proof fn lemma_only_field<T>(t: Seq<T>, sep: T)
    requires
        lacks(t, sep),
    ensures
        fields(t, sep) == seq![t],
    decreases t.len(),
{
    if t.len() == 0 {
        assert(t =~= Seq::empty());
    } else {
        let u = t.drop_last();
        assert(lacks(u, sep)) by {
            assert forall|i: int| 0 <= i < u.len() implies u[i] != sep by {
                assert(u[i] == t[i]);
            }
        }
        lemma_only_field(u, sep);
        assert(u.push(t.last()) =~= t);
        assert(fields(t, sep) =~= seq![t]);
    }
}

/// Whether `u` is one word: it holds something, and no white space.
pub open spec fn is_word(u: Seq<char>, unicode: bool) -> bool {
    u.len() > 0 && forall|i: int| 0 <= i < u.len() ==> !is_space(#[trigger] u[i], unicode)
}

/// The words with one blank between them.
pub open spec fn with_blanks(w: Seq<Seq<char>>) -> Seq<char>
    decreases w.len(),
{
    if w.len() == 0 {
        Seq::empty()
    } else if w.len() == 1 {
        w[0]
    } else {
        with_blanks(w.drop_last()) + seq![' '] + w.last()
    }
}

/// A word alone is one word.
proof fn lemma_only_word(u: Seq<char>, unicode: bool)
    requires
        is_word(u, unicode),
    ensures
        words(u, unicode) == seq![u],
{
    lemma_word_alone(u, unicode);
    assert(!is_space(u[0], unicode));
    assert(u.take(u.len() as int) =~= u);
    assert(u.skip(u.len() as int) =~= Seq::<char>::empty());
    assert(words(Seq::<char>::empty(), unicode) =~= Seq::empty());
    assert(words(u, unicode) =~= seq![u]);
}

proof fn lemma_word_alone(u: Seq<char>, unicode: bool)
    requires
        forall|i: int| 0 <= i < u.len() ==> !is_space(#[trigger] u[i], unicode),
    ensures
        word_len(u, unicode) == u.len(),
    decreases u.len(),
{
    if u.len() > 0 {
        lemma_word_alone(u.skip(1), unicode);
    }
}

proof fn lemma_word_before_blank(a: Seq<char>, u: Seq<char>, unicode: bool)
    ensures
        word_len(a + seq![' '] + u, unicode) == word_len(a, unicode),
    decreases a.len(),
{
    let all = a + seq![' '] + u;
    if a.len() == 0 {
        assert(all[0] == ' ');
    } else {
        assert(all[0] == a[0]);
        assert(all.skip(1) =~= a.skip(1) + seq![' '] + u);
        lemma_word_before_blank(a.skip(1), u, unicode);
    }
}

/// A word behind a blank is one more word.
pub proof fn lemma_last_word(a: Seq<char>, u: Seq<char>, unicode: bool)
    requires
        is_word(u, unicode),
    ensures
        words(a + seq![' '] + u, unicode) == words(a, unicode).push(u),
    decreases a.len(),
{
    let all = a + seq![' '] + u;
    if a.len() == 0 {
        assert(all[0] == ' ');
        assert(all.skip(1) =~= u);
        lemma_only_word(u, unicode);
        assert(words(a, unicode).push(u) =~= seq![u]);
    } else if is_space(a[0], unicode) {
        assert(all[0] == a[0]);
        assert(all.skip(1) =~= a.skip(1) + seq![' '] + u);
        lemma_last_word(a.skip(1), u, unicode);
    } else {
        assert(all[0] == a[0]);
        let n = word_len(a, unicode) as int;
        lemma_word_len(a, unicode);
        lemma_word_before_blank(a, u, unicode);
        assert(all.take(n) =~= a.take(n));
        assert(all.skip(n) =~= a.skip(n) + seq![' '] + u);
        lemma_last_word(a.skip(n), u, unicode);
        assert(seq![a.take(n)] + words(a.skip(n), unicode).push(u) =~= (seq![a.take(n)] + words(
            a.skip(n),
            unicode,
        )).push(u));
    }
}

/// Words that were put together with blanks are split into the same words.
pub proof fn joined_words_are_split_again(w: Seq<Seq<char>>, unicode: bool)
    requires
        forall|i: int| 0 <= i < w.len() ==> is_word(#[trigger] w[i], unicode),
    ensures
        words(with_blanks(w), unicode) == w,
    decreases w.len(),
{
    if w.len() == 0 {
        assert(w =~= Seq::empty());
    } else if w.len() == 1 {
        lemma_only_word(w[0], unicode);
        assert(w =~= seq![w[0]]);
    } else {
        let v = w.drop_last();
        assert forall|i: int| 0 <= i < v.len() implies is_word(#[trigger] v[i], unicode) by {
            assert(v[i] == w[i]);
        }
        joined_words_are_split_again(v, unicode);
        lemma_last_word(with_blanks(v), w.last(), unicode);
        assert(v.push(w.last()) =~= w);
    }
}

/// What is found first does not depend on what follows it.
pub proof fn lemma_found_first(a: Seq<char>, c: char, b: Seq<char>)
    requires
        lacks(a, c),
    ensures
        first_at(a + seq![c] + b, c) == Some(a.len() as int),
{
    let s = a + seq![c] + b;
    lemma_first_at(s, c);
    assert(s[a.len() as int] == c);
    assert forall|j: int| 0 <= j < a.len() implies s[j] != c by {
        assert(s[j] == a[j]);
    }
}

/// What is found last does not depend on what precedes it.
pub proof fn lemma_found_last(a: Seq<char>, c: char, b: Seq<char>)
    requires
        lacks(b, c),
    ensures
        last_at(a + seq![c] + b, c) == Some(a.len() as int),
{
    let s = a + seq![c] + b;
    lemma_last_at(s, c);
    assert(s[a.len() as int] == c);
    assert forall|j: int| a.len() < j < s.len() implies s[j] != c by {
        assert(s[j] == b[j - a.len() - 1]);
    }
}

/// Lower case neither makes nor takes away a full stop.
proof fn lemma_full_stop_stays(c: char)
    ensures
        lower_char(c) == '.' <==> c == '.',
{
}

/// The last full stop stays where it is in lower case.
proof fn lemma_full_stop_in_lower_case(s: Seq<char>)
    ensures
        last_at(ascii_lower(s), '.') == last_at(s, '.'),
    decreases s.len(),
{
    if s.len() > 0 {
        lemma_full_stop_stays(s.last());
        assert(ascii_lower(s).last() == lower_char(s.last()));
        assert(ascii_lower(s).drop_last() =~= ascii_lower(s.drop_last()));
        lemma_full_stop_in_lower_case(s.drop_last());
    }
}

/// Names that are the same but for case have extensions that are.
pub proof fn lemma_same_extension_but_for_case(a: Seq<char>, b: Seq<char>)
    requires
        same_but_for_case(a, b),
    ensures
        same_but_for_case(after_last(a, '.'), after_last(b, '.')),
{
    lemma_full_stop_in_lower_case(a);
    lemma_full_stop_in_lower_case(b);
    lemma_last_at(a, '.');
    lemma_last_at(b, '.');
    match last_at(a, '.') {
        Some(i) => {
            let x = a.skip(i + 1);
            let y = b.skip(i + 1);
            assert(ascii_lower(x) =~= ascii_lower(a).skip(i + 1));
            assert(ascii_lower(y) =~= ascii_lower(b).skip(i + 1));
            assert forall|j: int| 0 <= j < x.len() implies (#[trigger] x[j]) as u32 <= 0x7f by {
                assert(a[i + 1 + j] as u32 <= 0x7f);
            }
            assert forall|j: int| 0 <= j < y.len() implies (#[trigger] y[j]) as u32 <= 0x7f by {
                assert(b[i + 1 + j] as u32 <= 0x7f);
            }
        },
        None => {},
    }
}

/// What holds a text holds it in lower case, too.
pub proof fn lemma_part_in_lower_case(s: Seq<char>, q: Seq<char>)
    requires
        has_part(s, q),
    ensures
        has_part(ascii_lower(s), ascii_lower(q)),
{
    let i = choose|i: int| 0 <= i <= s.len() - q.len() && #[trigger] has_prefix(s.skip(i), q);
    let t = ascii_lower(s).skip(i);
    let n = q.len() as int;
    assert(t.take(n) =~= ascii_lower(q)) by {
        assert forall|j: int| 0 <= j < n implies t.take(n)[j] == ascii_lower(q)[j] by {
            assert(s.skip(i).take(n)[j] == q[j]);
        }
    }
    assert(has_prefix(t, ascii_lower(q)));
}

/// White space in ASCII is a blank, a tabulator, a line feed, a carriage return or a
/// form feed. For an ASCII character Unicode adds the vertical tabulator alone.
pub proof fn white_space_of_ascii(c: char)
    ensures
        is_space(c, false) <==> seq![0x20int, 0x09, 0x0a, 0x0d, 0x0c].contains(c as int),
        c as int <= 0x7f ==> (is_space(c, true) <==> is_space(c, false) || c as int == 0x0b),
        is_space(c, false) ==> is_space(c, true),
        is_space(c, false) && c != ' ' ==> is_control_char(c),
{
    let s = seq![0x20int, 0x09, 0x0a, 0x0d, 0x0c];
    assert(s[0] == 0x20 && s[1] == 0x09 && s[2] == 0x0a && s[3] == 0x0d && s[4] == 0x0c);
    if is_space(c, false) {
        assert(exists|i: int| 0 <= i < s.len() && s[i] == c as int) by {
            let i: int = if c == ' ' {
                0
            } else if c == '\t' {
                1
            } else if c == '\n' {
                2
            } else if c == '\r' {
                3
            } else {
                4
            };
            assert(s[i] == c as int);
        }
    }
}

/// A printable ASCII character is no control character, and the others are; so are
/// the 32 characters behind ASCII, and none of the rest.
pub proof fn control_characters_stand_in_two_blocks(c: char)
    ensures
        c as int <= 0x7f ==> (is_control_char(c) <==> c as int <= 0x1f || c as int == 0x7f),
        c as int > 0x7f ==> (is_control_char(c) <==> c as int <= 0x7f + 32),
{
}

/// Of the characters behind ASCII these are white space, and no others: in Unicode's
/// order, with the eleven blanks of different widths in one block.
pub proof fn white_space_behind_ascii(c: char)
    requires
        c as int > 0x7f,
    ensures
        is_space(c, true) <==> seq![
            0x85int,
            0xa0,
            0x1680,
            0x2028,
            0x2029,
            0x202f,
            0x205f,
            0x3000,
        ].contains(c as int) || 0 <= c as int - 0x2000 < 11,
        !is_space(c, false),
{
    let s = seq![0x85int, 0xa0, 0x1680, 0x2028, 0x2029, 0x202f, 0x205f, 0x3000];
    assert(s[0] == 0x85 && s[1] == 0xa0 && s[2] == 0x1680 && s[3] == 0x2028 && s[4] == 0x2029
        && s[5] == 0x202f && s[6] == 0x205f && s[7] == 0x3000);
}

/// The words of a text with white space in it are those before it and those after.
pub proof fn words_are_split_at_white_space(a: Seq<char>, c: char, b: Seq<char>, unicode: bool)
    requires
        is_space(c, unicode),
    ensures
        words(a + seq![c] + b, unicode) == words(a, unicode) + words(b, unicode),
    decreases a.len(),
{
    let s = a + seq![c] + b;
    if a.len() == 0 {
        assert(s.skip(1) =~= b);
        assert(words(a, unicode) + words(b, unicode) =~= words(b, unicode));
    } else if is_space(a[0], unicode) {
        words_are_split_at_white_space(a.skip(1), c, b, unicode);
        assert(s.skip(1) =~= a.skip(1) + seq![c] + b);
    } else {
        let n = word_len(a, unicode) as int;
        lemma_word_len(a, unicode);
        lemma_word_ends(a, c, b, unicode);
        words_are_split_at_white_space(a.skip(n), c, b, unicode);
        assert(s.take(n) =~= a.take(n));
        assert(s.skip(n) =~= a.skip(n) + seq![c] + b);
        assert(words(s, unicode) =~= words(a, unicode) + words(b, unicode));
    }
}

/// A word ends at white space at the latest.
proof fn lemma_word_ends(a: Seq<char>, c: char, b: Seq<char>, unicode: bool)
    requires
        is_space(c, unicode),
    ensures
        word_len(a + seq![c] + b, unicode) == word_len(a, unicode),
    decreases a.len(),
{
    let s = a + seq![c] + b;
    if a.len() > 0 && !is_space(a[0], unicode) {
        lemma_word_ends(a.skip(1), c, b, unicode);
        assert(s.skip(1) =~= a.skip(1) + seq![c] + b);
    }
}

/// A text without white space is one word, unless it is empty.
pub proof fn text_without_white_space_is_a_word(u: Seq<char>, unicode: bool)
    requires
        forall|i: int| 0 <= i < u.len() ==> !is_space(#[trigger] u[i], unicode),
    ensures
        u.len() > 0 ==> words(u, unicode) == seq![u],
        u.len() == 0 ==> words(u, unicode).len() == 0,
{
    if u.len() > 0 {
        lemma_only_word(u, unicode);
    }
}

/// The pieces between separators hold none, and there is one more than there are
/// separators: a separator and a further piece add that piece.
pub proof fn pieces_are_split_at_separators<T>(s: Seq<T>, sep: T, t: Seq<T>)
    requires
        lacks(t, sep),
    ensures
        fields(t, sep) == seq![t],
        fields(s + seq![sep] + t, sep) == fields(s, sep).push(t),
        fields(s, sep).len() > 0,
{
    lemma_only_field(t, sep);
    lemma_last_field(s, sep, t);
    assert(s + seq![sep] + t =~= s.push(sep) + t);
    lemma_some_field(s, sep);
}

/// There is a piece at least.
proof fn lemma_some_field<T>(s: Seq<T>, sep: T)
    ensures
        fields(s, sep).len() > 0,
    decreases s.len(),
{
    if s.len() > 0 {
        lemma_some_field(s.drop_last(), sep);
    }
}

/// A text of ended lines, with a further line behind it, has that line as its last,
/// with or without an end, which is a line feed or a carriage return and a line feed.
/// A carriage return that no line feed follows belongs to the line.
pub proof fn lines_are_split_at_line_feeds(s: Seq<char>, t: Seq<char>)
    requires
        s.len() == 0 || s.last() == '\n',
        lacks(t, '\n'),
    ensures
        lines(Seq::empty()).len() == 0,
        t.len() > 0 ==> lines(s + t) == lines(s).push(t),
        t.len() == 0 || t.last() != '\r' ==> lines(s + t + seq!['\n']) == lines(s).push(t),
        lines(s + t + seq!['\r', '\n']) == lines(s).push(t),
{
    let none = Seq::<char>::empty();
    lemma_only_field(none, '\n');
    assert(fields(none, '\n').last().len() == 0);
    assert(fields(none, '\n').drop_last().len() == 0);
    lemma_some_field(s, '\n');
    let f = fields(s, '\n');
    assert(f.last() =~= none) by {
        if s.len() > 0 {
            lemma_last_field(s.drop_last(), '\n', none);
            assert(s.drop_last().push('\n') + none =~= s);
        } else {
            assert(s =~= none);
        }
    }
    let head = f.drop_last();
    let ended = head.map_values(|l: Seq<char>| without_cr(l));
    assert(lines(s) == ended);
    lemma_line_behind(s, t);
    let u = t.push('\r');
    lemma_line_behind(s, u);
    let a = s + t;
    assert(fields(a, '\n') == head.push(t));
    if t.len() > 0 {
        assert(head.push(t).drop_last() =~= head);
        assert(lines(a) =~= ended.push(t));
    }
    lemma_last_field(a, '\n', none);
    assert(a.push('\n') + none =~= s + t + seq!['\n']);
    let fa = head.push(t).push(none);
    assert(fa.drop_last() =~= head.push(t));
    if t.len() == 0 || t.last() != '\r' {
        assert(without_cr(t) == t);
        assert(lines(s + t + seq!['\n']) =~= ended.push(t));
    }
    let b = s + u;
    assert(fields(b, '\n') == head.push(u));
    lemma_last_field(b, '\n', none);
    assert(b.push('\n') + none =~= s + t + seq!['\r', '\n']);
    let fb = head.push(u).push(none);
    assert(fb.drop_last() =~= head.push(u));
    assert(without_cr(u) =~= t);
    assert(lines(s + t + seq!['\r', '\n']) =~= ended.push(t));
}

/// A text without a separator behind ended pieces is the last piece.
proof fn lemma_line_behind(s: Seq<char>, t: Seq<char>)
    requires
        s.len() == 0 || s.last() == '\n',
        lacks(t, '\n'),
    ensures
        fields(s + t, '\n') == fields(s, '\n').drop_last().push(t),
{
    if s.len() == 0 {
        lemma_only_field(t, '\n');
        lemma_only_field(s, '\n');
        assert(s + t =~= t);
        assert(fields(s, '\n').drop_last().push(t) =~= seq![t]);
    } else {
        let r = s.drop_last();
        lemma_last_field(r, '\n', t);
        lemma_last_field(r, '\n', Seq::empty());
        assert(r.push('\n') + Seq::<char>::empty() =~= s);
        assert(r.push('\n') + t =~= s + t);
        assert(fields(s, '\n').drop_last() =~= fields(r, '\n'));
    }
}

/// Trimming takes all white space away at its one side, and nothing else.
pub proof fn trimming_takes_white_space_only(s: Seq<char>)
    ensures
        trim_end(s).len() <= s.len(),
        s.take(trim_end(s).len() as int) == trim_end(s),
        forall|i: int| trim_end(s).len() <= i < s.len() ==> is_white_space(#[trigger] s[i]),
        trim_end(s).len() > 0 ==> !is_white_space(trim_end(s).last()),
        trim_start(s).len() <= s.len(),
        s.skip(s.len() - trim_start(s).len()) == trim_start(s),
        forall|i: int|
            0 <= i < s.len() - trim_start(s).len() ==> is_white_space(#[trigger] s[i]),
        trim_start(s).len() > 0 ==> !is_white_space(trim_start(s)[0]),
    decreases s.len(),
{
    let e = trim_end(s);
    if s.len() > 0 && is_white_space(s.last()) {
        let t = s.drop_last();
        trimming_takes_white_space_only(t);
        assert(s.take(e.len() as int) =~= t.take(e.len() as int));
        assert forall|i: int| e.len() <= i < s.len() implies is_white_space(#[trigger] s[i]) by {
            if i < t.len() {
                assert(t[i] == s[i]);
            }
        }
    } else {
        assert(s.take(e.len() as int) =~= s);
    }
    let b = trim_start(s);
    if s.len() > 0 && is_white_space(s[0]) {
        let t = s.skip(1);
        trimming_takes_white_space_only(t);
        assert(s.skip(s.len() - b.len()) =~= t.skip(t.len() - b.len()));
        assert forall|i: int| 0 <= i < s.len() - b.len() implies is_white_space(
            #[trigger] s[i],
        ) by {
            if i > 0 {
                assert(t[i - 1] == s[i]);
            }
        }
    } else {
        assert(s.skip(s.len() - b.len()) =~= s);
    }
}

/// Trimming a character takes all of it away at the end, and nothing else.
pub proof fn trimming_takes_the_character_only(s: Seq<char>, c: char)
    ensures
        trim_end_matches(s, c).len() <= s.len(),
        s.take(trim_end_matches(s, c).len() as int) == trim_end_matches(s, c),
        forall|i: int| trim_end_matches(s, c).len() <= i < s.len() ==> #[trigger] s[i] == c,
        trim_end_matches(s, c).len() > 0 ==> trim_end_matches(s, c).last() != c,
    decreases s.len(),
{
    let e = trim_end_matches(s, c);
    if s.len() > 0 && s.last() == c {
        let t = s.drop_last();
        trimming_takes_the_character_only(t, c);
        assert(s.take(e.len() as int) =~= t.take(e.len() as int));
        assert forall|i: int| e.len() <= i < s.len() implies #[trigger] s[i] == c by {
            if i < t.len() {
                assert(t[i] == s[i]);
            }
        }
    } else {
        assert(s.take(e.len() as int) =~= s);
    }
}

/// Around a character stand what comes before its first and behind its last
/// occurrence; a text without it is taken whole.
pub proof fn text_is_cut_at_a_character(a: Seq<char>, c: char, b: Seq<char>)
    ensures
        lacks(a, c) ==> before_first(a + seq![c] + b, c) == a,
        lacks(b, c) ==> after_last(a + seq![c] + b, c) == b,
        lacks(a, c) ==> before_first(a, c) == a && after_last(a, c) == a,
{
    let s = a + seq![c] + b;
    if lacks(a, c) {
        lemma_found_first(a, c, b);
        assert(s.take(a.len() as int) =~= a);
        lemma_first_at(a, c);
        lemma_last_at(a, c);
    }
    if lacks(b, c) {
        lemma_found_last(a, c, b);
        assert(s.skip(a.len() as int + 1) =~= b);
    }
}

/// A part stands somewhere between what is before and what is behind it, and a text
/// that is shorter is no part's holder.
pub proof fn part_stands_between(a: Seq<char>, q: Seq<char>, b: Seq<char>, s: Seq<char>)
    ensures
        has_part(a + q + b, q),
        has_prefix(q + b, q),
        s.len() < q.len() ==> !has_part(s, q) && !has_prefix(s, q),
        s.len() == q.len() ==> (has_part(s, q) <==> s == q),
        s.len() == q.len() ==> (has_prefix(s, q) <==> s == q),
{
    let t = a + q + b;
    let k = a.len() as int;
    assert(t.skip(k).take(q.len() as int) =~= q);
    assert(has_prefix(t.skip(k), q));
    assert((q + b).take(q.len() as int) =~= q);
    if s.len() == q.len() {
        assert(s.take(q.len() as int) =~= s);
        assert(s.skip(0) =~= s);
        assert(has_prefix(s.skip(0), q) <==> s == q);
    }
}

/// The texts of strings, of characters and of bytes are those of each, in order.
pub proof fn texts_are_taken_whole(
    s: Seq<String>,
    c: Seq<Vec<char>>,
    b: Seq<Vec<u8>>,
    i: int,
)
    ensures
        texts(s).len() == s.len(),
        char_texts(c).len() == c.len(),
        byte_texts(b).len() == b.len(),
        0 <= i < s.len() ==> texts(s)[i] == s[i]@,
        0 <= i < c.len() ==> char_texts(c)[i] == c[i]@,
        0 <= i < b.len() ==> byte_texts(b)[i] == b[i]@,
{
}

/// Between words that are put together stands one blank, and nothing else is added.
pub proof fn blanks_stand_between_words(w: Seq<Seq<char>>, u: Seq<char>)
    ensures
        with_blanks(seq![u]) == u,
        w.len() > 0 ==> with_blanks(w.push(u)) == with_blanks(w) + seq![' '] + u,
        with_blanks(Seq::empty()).len() == 0,
{
    assert(w.push(u).drop_last() =~= w);
}

/// Where a text holds a part, it is what stands before the part, the part, and what
/// stands behind it: `sides`.
pub proof fn holder_is_around_its_part(s: Seq<char>, q: Seq<char>) -> (sides: (
    Seq<char>,
    Seq<char>,
))
    requires
        has_part(s, q),
    ensures
        s == sides.0 + q + sides.1,
        has_prefix(s, q) ==> s == q + s.skip(q.len() as int),
{
    let i = choose|i: int| 0 <= i <= s.len() - q.len() && #[trigger] has_prefix(s.skip(i), q);
    let a = s.take(i);
    let b = s.skip(i + q.len());
    let t = s.skip(i);
    assert forall|k: int| 0 <= k < q.len() implies s[i + k] == #[trigger] q[k] by {
        assert(t.take(q.len() as int)[k] == q[k]);
    }
    assert(s =~= a + q + b);
    if has_prefix(s, q) {
        assert forall|k: int| 0 <= k < q.len() implies s[k] == #[trigger] q[k] by {
            assert(s.take(q.len() as int)[k] == q[k]);
        }
        assert(s =~= q + s.skip(q.len() as int));
    }
    (a, b)
}

} // verus!
