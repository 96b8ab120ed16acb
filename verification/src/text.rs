//! Text: character sequences, their UTF-8 lengths, and the padding and cutting
//! that the screen needs.

use vstd::prelude::*;
use vstd::utf8::{decode_utf8, encode_utf8, is_char_boundary, valid_utf8};

verus! {

/// `String::push` appends one character.
pub assume_specification[ String::push ](s: &mut String, ch: char)
    ensures
        final(s)@ == old(s)@.push(ch),
;

/// `String::push_str` appends every character of its argument, in order.
pub assume_specification[ String::push_str ](s: &mut String, string: &str)
    ensures
        final(s)@ == old(s)@ + string@,
;

/// Whether a text is ASCII.
pub open spec fn is_ascii(s: Seq<char>) -> bool {
    forall|i: int| 0 <= i < s.len() ==> (#[trigger] s[i]) as u32 <= 0x7f
}

/// An ASCII letter in lower case; any other character as it is.
pub open spec fn lower_char(c: char) -> char {
    if 'A' <= c <= 'Z' {
        (c as u32 + 32) as char
    } else {
        c
    }
}

/// A text with its ASCII letters in lower case.
pub open spec fn ascii_lower(s: Seq<char>) -> Seq<char> {
    s.map_values(|c: char| lower_char(c))
}

/// What `str::to_lowercase` makes of a text that is not ASCII: Unicode's lowercase
/// mapping.
pub uninterp spec fn unicode_lower(s: Seq<char>) -> Seq<char>;

/// `str::to_lowercase` maps the letters of an ASCII text to lower case and keeps
/// the rest. Of another text it makes a text that is a function of it alone;
/// `unicode_lower` names it.
pub assume_specification[ str::to_lowercase ](s: &str) -> (r: String)
    ensures
        is_ascii(s@) ==> r@ == ascii_lower(s@),
        !is_ascii(s@) ==> r@ == unicode_lower(s@),
;

/// A text in lower case.
pub open spec fn lowercase(s: Seq<char>) -> Seq<char> {
    if is_ascii(s) {
        ascii_lower(s)
    } else {
        unicode_lower(s)
    }
}

/// Whether two texts are ASCII, and the same but for the case of their letters.
pub open spec fn same_but_for_case(a: Seq<char>, b: Seq<char>) -> bool {
    is_ascii(a) && is_ascii(b) && ascii_lower(a) == ascii_lower(b)
}

/// Texts that are the same but for case are the same in lower case.
pub proof fn lemma_same_in_lower_case(a: Seq<char>, b: Seq<char>)
    requires
        same_but_for_case(a, b),
    ensures
        lowercase(a) == lowercase(b),
        a.len() == b.len(),
{
    assert(ascii_lower(a).len() == a.len());
    assert(ascii_lower(b).len() == b.len());
}

/// What `String::from_utf8_lossy` makes of bytes that are not UTF-8: a text with
/// replacement characters in it.
pub uninterp spec fn lossy_text(b: Seq<u8>) -> Seq<char>;

/// `String::from_utf8_lossy` decodes what is UTF-8 unchanged. Of other bytes it
/// makes a text that is a function of them alone; `lossy_text` names it.
#[verifier::external_body]
fn from_lossy(b: &[u8]) -> (r: String)
    ensures
        valid_utf8(b@) ==> r@ == decode_utf8(b@),
        !valid_utf8(b@) ==> r@ == lossy_text(b@),
{
    String::from_utf8_lossy(b).into_owned()
}

/// Bytes as a text: decoded where they are UTF-8, else with replacements.
pub open spec fn shown_text(b: Seq<u8>) -> Seq<char> {
    if valid_utf8(b) {
        decode_utf8(b)
    } else {
        lossy_text(b)
    }
}

/// Bytes as a text.
pub fn shown(b: &[u8]) -> (r: String)
    ensures
        r@ == shown_text(b@),
{
    from_lossy(b)
}

/// A copy of some bytes.
pub fn copied(b: &[u8]) -> (r: Vec<u8>)
    ensures
        r@ == b@,
{
    let mut r: Vec<u8> = Vec::new();
    r.extend_from_slice(b);
    assert(r@ =~= b@);
    r
}

/// A text as bytes in UTF-8.
pub fn bytes_of(s: &str) -> (r: Vec<u8>)
    ensures
        r@ == encode_utf8(s@),
{
    copied(s.as_bytes())
}

/// A text that was encoded is shown as it was.
pub proof fn lemma_encoded_is_shown(s: Seq<char>)
    ensures
        valid_utf8(encode_utf8(s)),
        shown_text(encode_utf8(s)) == s,
{
    broadcast use vstd::utf8::encode_utf8_valid_utf8, vstd::utf8::encode_utf8_decode_utf8;

}

/// Bytes that are UTF-8 are the encoding of what is shown of them.
pub proof fn lemma_shown_is_encoded(b: Seq<u8>)
    requires
        valid_utf8(b),
    ensures
        encode_utf8(shown_text(b)) == b,
{
    vstd::utf8::decode_utf8_encode_utf8(b);
}

/// Appends one character, as a text of its own.
pub fn put(o: &mut String, c: char)
    ensures
        final(o)@ == old(o)@ + seq![c],
{
    o.push(c);
    assert(o@ =~= old(o)@ + seq![c]);
}

/// `a` with `b` behind it.
pub fn chain(a: &str, b: &str) -> (r: String)
    ensures
        r@ == a@ + b@,
{
    let mut r = String::new();
    r.push_str(a);
    assert(r@ =~= a@);
    r.push_str(b);
    r
}

/// The characters of `s` as a vector.
pub fn chars_of(s: &str) -> (v: Vec<char>)
    ensures
        v@ == s@,
{
    let mut v: Vec<char> = Vec::new();
    for c in it: s.chars()
        invariant
            it.seq() == s@,
            v@ == s@.take(it.index() as int),
    {
        v.push(c);
        assert(s@.take(it.index() + 1) =~= s@.take(it.index() as int).push(c));
    }
    assert(s@.take(s@.len() as int) =~= s@);
    v
}

/// The text made of the characters of `v`.
pub fn text_of(v: &[char]) -> (s: String)
    ensures
        s@ == v@,
{
    let mut s = String::new();
    for i in 0..v.len()
        invariant
            s@ == v@.take(i as int),
    {
        s.push(v[i]);
        assert(v@.take(i + 1) =~= v@.take(i as int).push(v@[i as int]));
    }
    assert(v@.take(v@.len() as int) =~= v@);
    s
}

/// Whether two texts hold the same characters.
pub fn text_eq(a: &str, b: &str) -> (r: bool)
    ensures
        r == (a@ == b@),
{
    broadcast use vstd::utf8::encode_utf8_decode_utf8;
    let x = a.as_bytes();
    let y = b.as_bytes();
    if x.len() != y.len() {
        return false;
    }
    for i in 0..x.len()
        invariant
            x@.len() == y@.len(),
            x@ == encode_utf8(a@),
            y@ == encode_utf8(b@),
            forall|j: int| 0 <= j < i ==> x@[j] == y@[j],
    {
        if x[i] != y[i] {
            assert(a@ != b@);
            return false;
        }
    }
    assert(x@ =~= y@);
    assert(decode_utf8(encode_utf8(a@)) == decode_utf8(encode_utf8(b@)));
    true
}

/// How many bytes `s` takes in UTF-8.
pub open spec fn utf8_len(s: Seq<char>) -> nat {
    encode_utf8(s).len()
}

/// Whether the byte offset `at` lies between two characters of `s`, or at an end.
pub open spec fn on_boundary(s: Seq<char>, at: int) -> bool {
    is_char_boundary(encode_utf8(s), at)
}

/// The characters of `s` that start at or after the byte offset `at`.
pub open spec fn from_byte(s: Seq<char>, at: int) -> Seq<char> {
    decode_utf8(encode_utf8(s).skip(at))
}

/// The characters of `s` that end at or before the byte offset `at`.
pub open spec fn to_byte(s: Seq<char>, at: int) -> Seq<char> {
    decode_utf8(encode_utf8(s).take(at))
}

/// The number of bytes of `s`.
pub fn byte_len(s: &str) -> (n: usize)
    ensures
        n == utf8_len(s@),
{
    s.as_bytes().len()
}

/// Whether `s` can be cut at the byte offset `at`.
pub fn can_cut(s: &str, at: usize) -> (r: bool)
    ensures
        r == on_boundary(s@, at as int),
{
    s.is_char_boundary(at)
}

/// What of `s` stands at and after the byte offset `at`.
pub fn tail_from(s: &str, at: usize) -> (r: &str)
    requires
        on_boundary(s@, at as int),
    ensures
        r@ == from_byte(s@, at as int),
{
    broadcast use vstd::utf8::encode_utf8_decode_utf8;
    proof {
        lemma_boundary_in_range(s@, at as int);
        assert(encode_utf8(s@).skip(at as int) =~= encode_utf8(s@).subrange(
            at as int,
            encode_utf8(s@).len() as int,
        ));
    }
    s.split_at(at).1
}

/// What of `s` stands before the byte offset `at`.
pub fn head_to(s: &str, at: usize) -> (r: &str)
    requires
        on_boundary(s@, at as int),
    ensures
        r@ == to_byte(s@, at as int),
{
    broadcast use vstd::utf8::encode_utf8_decode_utf8;
    proof {
        lemma_boundary_in_range(s@, at as int);
        assert(encode_utf8(s@).take(at as int) =~= encode_utf8(s@).subrange(0, at as int));
    }
    s.split_at(at).0
}

/// A boundary lies within the text.
pub proof fn lemma_boundary_in_range(s: Seq<char>, at: int)
    requires
        on_boundary(s, at),
    ensures
        0 <= at <= utf8_len(s),
{
    broadcast use vstd::utf8::encode_utf8_valid_utf8;
    let b = encode_utf8(s);
    assert(is_char_boundary(b, at));
}

/// The end of a text is a boundary, and nothing follows it.
pub proof fn lemma_cut_at_end(s: Seq<char>)
    ensures
        on_boundary(s, utf8_len(s) as int),
        from_byte(s, utf8_len(s) as int) == Seq::<char>::empty(),
        to_byte(s, utf8_len(s) as int) == s,
{
    broadcast use vstd::utf8::encode_utf8_valid_utf8, vstd::utf8::encode_utf8_decode_utf8;
    let b = encode_utf8(s);
    vstd::utf8::is_char_boundary_start_end_of_seq(b);
    assert(b.skip(b.len() as int) =~= Seq::<u8>::empty());
    assert(b.take(b.len() as int) =~= b);
    assert(encode_utf8(Seq::<char>::empty()) =~= Seq::<u8>::empty());
    vstd::utf8::encode_utf8_decode_utf8(Seq::<char>::empty());
}

/// Cutting a text at a boundary loses nothing.
pub proof fn lemma_cut_joins(s: Seq<char>, at: int)
    requires
        on_boundary(s, at),
    ensures
        to_byte(s, at) + from_byte(s, at) == s,
        utf8_len(to_byte(s, at)) == at,
        utf8_len(from_byte(s, at)) == utf8_len(s) - at,
{
    broadcast use vstd::utf8::encode_utf8_valid_utf8, vstd::utf8::encode_utf8_decode_utf8;
    lemma_boundary_in_range(s, at);
    let b = encode_utf8(s);
    assert(b.take(at) =~= b.subrange(0, at));
    assert(b.skip(at) =~= b.subrange(at, b.len() as int));
    vstd::utf8::decode_utf8_split(b, at);
    vstd::utf8::valid_utf8_split(b, at);
    vstd::utf8::decode_utf8_encode_utf8(b.take(at));
    vstd::utf8::decode_utf8_encode_utf8(b.skip(at));
}

/// A character takes at least one byte.
pub proof fn lemma_no_more_chars_than_bytes(s: Seq<char>)
    ensures
        s.len() <= utf8_len(s),
    decreases s.len(),
{
    if s.len() > 0 {
        lemma_no_more_chars_than_bytes(s.drop_first());
    }
}

/// Whether the first `k` characters are ASCII.
pub open spec fn starts_ascii(s: Seq<char>, k: int) -> bool {
    k <= s.len() && forall|i: int| 0 <= i < k ==> (#[trigger] s[i]) as u32 <= 0x7f
}

/// A text can be cut behind ASCII characters, each of which is its own byte.
pub proof fn lemma_ascii_start(s: Seq<char>, k: int)
    requires
        0 <= k,
        starts_ascii(s, k),
    ensures
        on_boundary(s, k),
        to_byte(s, k) == s.take(k),
        from_byte(s, k) == s.skip(k),
        k <= utf8_len(s),
        forall|i: int| 0 <= i < k ==> #[trigger] encode_utf8(s)[i] == s[i] as u8,
    decreases k,
{
    broadcast use vstd::utf8::encode_utf8_valid_utf8, vstd::utf8::encode_utf8_decode_utf8;

    let b = encode_utf8(s);
    if k == 0 {
        vstd::utf8::is_char_boundary_start_end_of_seq(b);
        assert(b.take(0) =~= Seq::<u8>::empty());
        assert(encode_utf8(Seq::<char>::empty()) =~= Seq::<u8>::empty());
        vstd::utf8::encode_utf8_decode_utf8(Seq::<char>::empty());
        assert(s.take(0) =~= Seq::<char>::empty());
        assert(b.skip(0) =~= b);
        assert(s.skip(0) =~= s);
    } else {
        let t = s.drop_first();
        assert forall|i: int| 0 <= i < k - 1 implies (#[trigger] t[i]) as u32 <= 0x7f by {
            assert(s[i + 1] as u32 <= 0x7f);
        }
        lemma_ascii_start(t, k - 1);
        let c = s[0];
        lemma_ascii_byte(c);
        let e = vstd::utf8::encode_scalar(c as u32);
        assert(b == e + encode_utf8(t));
        assert forall|i: int| 0 <= i < k implies #[trigger] b[i] == s[i] as u8 by {
            if i > 0 {
                assert(b[i] == encode_utf8(t)[i - 1]);
            }
        }
        assert(vstd::utf8::pop_first_scalar(b) =~= encode_utf8(t));
        assert(is_char_boundary(b, k));
        lemma_cut_joins(s, k);
        assert(b.skip(k) =~= encode_utf8(t).skip(k - 1));
        assert(from_byte(s, k) == t.skip(k - 1));
        assert(t.skip(k - 1) =~= s.skip(k));
        let h = to_byte(s, k);
        assert(h.len() + s.skip(k).len() == s.len());
        assert(h =~= s.take(k)) by {
            assert(h =~= (h + s.skip(k)).take(k));
        }
    }
}

/// An ASCII text is its own bytes.
pub proof fn lemma_ascii_bytes(s: Seq<char>)
    requires
        starts_ascii(s, s.len() as int),
    ensures
        encode_utf8(s) == s.map_values(|c: char| c as u8),
{
    let n = s.len() as int;
    lemma_ascii_start(s, n);
    lemma_cut_joins(s, n);
    assert(s.skip(n) =~= Seq::<char>::empty());
    assert(encode_utf8(Seq::<char>::empty()) =~= Seq::<u8>::empty());
    assert(encode_utf8(s) =~= s.map_values(|c: char| c as u8));
}

/// An ASCII character is its own byte.
proof fn lemma_ascii_byte(c: char)
    requires
        c as u32 <= 0x7f,
    ensures
        vstd::utf8::encode_scalar(c as u32) == seq![c as u8],
        c as u8 <= 0x7f,
{
    let v = c as u32;
    assert(v <= 0x7f ==> (v & 0x7f) as u8 == v as u8 && v as u8 <= 0x7f) by (bit_vector);
    assert(vstd::utf8::encode_scalar(v) =~= seq![v as u8]);
}

/// So many blanks; none for a negative number.
pub open spec fn spaces(n: int) -> Seq<char> {
    Seq::new(
        if n > 0 {
            n as nat
        } else {
            0
        },
        |i: int| ' ',
    )
}

/// `s` with blanks behind it up to the width `w`.
pub open spec fn pad_right(s: Seq<char>, w: int) -> Seq<char> {
    s + spaces(w - s.len())
}

/// `s` with blanks before it up to the width `w`.
pub open spec fn pad_left(s: Seq<char>, w: int) -> Seq<char> {
    spaces(w - s.len()) + s
}

/// The character `c`, `n` times.
pub open spec fn repeated(c: char, n: int) -> Seq<char> {
    Seq::new(
        if n > 0 {
            n as nat
        } else {
            0
        },
        |i: int| c,
    )
}

/// Appends `c` so many times.
pub fn push_repeated(o: &mut String, c: char, n: usize)
    ensures
        final(o)@ == old(o)@ + repeated(c, n as int),
{
    let mut i: usize = 0;
    assert(o@ + repeated(c, 0) =~= o@);
    while i < n
        invariant
            i <= n,
            o@ == old(o)@ + repeated(c, i as int),
        decreases n - i,
    {
        o.push(c);
        i += 1;
        assert(o@ =~= old(o)@ + repeated(c, i as int));
    }
}

/// Appends so many blanks.
pub fn push_spaces(o: &mut String, n: usize)
    ensures
        final(o)@ == old(o)@ + spaces(n as int),
{
    push_repeated(o, ' ', n);
    assert(repeated(' ', n as int) =~= spaces(n as int));
}

/// The number of characters of `s`.
pub fn char_count(s: &str) -> (n: usize)
    ensures
        n == s@.len(),
{
    let v = chars_of(s);
    v.len()
}

/// Appends `s`, then blanks up to the width `w`.
pub fn push_padded(o: &mut String, s: &str, w: usize)
    ensures
        final(o)@ == old(o)@ + pad_right(s@, w as int),
{
    let n = char_count(s);
    o.push_str(s);
    if n < w {
        push_spaces(o, w - n);
    }
    assert(o@ =~= old(o)@ + pad_right(s@, w as int));
}

/// In an ASCII text the letters A to Z become a to z, each in its place, and nothing
/// else changes.
pub proof fn lower_case_changes_capitals_only(s: Seq<char>, i: int)
    requires
        is_ascii(s),
        0 <= i < s.len(),
    ensures
        lowercase(s).len() == s.len(),
        'A' <= s[i] <= 'Z' ==> lowercase(s)[i] as int - 'a' as int == s[i] as int - 'A' as int,
        !('A' <= s[i] <= 'Z') ==> lowercase(s)[i] == s[i],
{
}

/// Padding keeps the text and adds blanks, on its one side, up to the width and no
/// further.
pub proof fn padding_adds_blanks(s: Seq<char>, w: int)
    ensures
        s.len() >= w ==> pad_right(s, w) == s && pad_left(s, w) == s,
        s.len() < w ==> pad_right(s, w).len() == w && pad_left(s, w).len() == w,
        pad_right(s, w).take(s.len() as int) == s,
        pad_left(s, w).skip(pad_left(s, w).len() - s.len()) == s,
        forall|i: int| s.len() <= i < w ==> #[trigger] pad_right(s, w)[i] == ' ',
        forall|i: int| 0 <= i < w - s.len() ==> #[trigger] pad_left(s, w)[i] == ' ',
{
    let r = pad_right(s, w);
    let l = pad_left(s, w);
    if s.len() >= w {
        assert(r =~= s);
        assert(l =~= s);
    }
    assert(r.take(s.len() as int) =~= s);
    assert(l.skip(l.len() - s.len()) =~= s);
}

/// A repeated character stands so many times, and nothing else does.
pub proof fn repeated_holds_one_character(c: char, n: int)
    ensures
        n >= 0 ==> repeated(c, n).len() == n && spaces(n).len() == n,
        n < 0 ==> repeated(c, n).len() == 0 && spaces(n).len() == 0,
        forall|i: int| 0 <= i < n ==> #[trigger] repeated(c, n)[i] == c,
        forall|i: int| 0 <= i < n ==> #[trigger] spaces(n)[i] == ' ',
{
}

} // verus!
