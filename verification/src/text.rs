//! Text: comparison, order, trimming, numbers as text and text as numbers.
//!
//! A text is modelled by its sequence of characters. Its length in storage and its place in an
//! ordered list go by its UTF-8 bytes.
use vstd::prelude::*;
use vstd::string::StrSliceExecFns;
use vstd::string::StringExecFns;
use vstd::utf8::{encode_utf8, encode_utf8_decode_utf8};

verus! {

// ---------------------------------------------------------------------------
// Characters
// ---------------------------------------------------------------------------

/// The characters with the Unicode property White_Space.
pub open spec fn white_space(c: char) -> bool {
    ||| '\u{9}' <= c <= '\u{d}'
    ||| c == ' '
    ||| c == '\u{85}'
    ||| c == '\u{a0}'
    ||| c == '\u{1680}'
    ||| '\u{2000}' <= c <= '\u{200a}'
    ||| c == '\u{2028}'
    ||| c == '\u{2029}'
    ||| c == '\u{202f}'
    ||| c == '\u{205f}'
    ||| c == '\u{3000}'
}

pub fn is_white_space(c: char) -> (r: bool)
    ensures
        r == white_space(c),
{
    ('\u{9}' <= c && c <= '\u{d}') || c == ' ' || c == '\u{85}' || c == '\u{a0}' || c == '\u{1680}'
        || ('\u{2000}' <= c && c <= '\u{200a}') || c == '\u{2028}' || c == '\u{2029}'
        || c == '\u{202f}' || c == '\u{205f}' || c == '\u{3000}'
}

/// An ASCII capital letter as a small one; every other character as it is.
pub open spec fn lower(c: char) -> char {
    if 'A' <= c <= 'Z' {
        ((c as u8) + 32) as u8 as char
    } else {
        c
    }
}

/// A text with its ASCII capital letters as small ones.
pub open spec fn lowered(s: Seq<char>) -> Seq<char> {
    s.map_values(|c: char| lower(c))
}

fn to_lower(c: char) -> (r: char)
    ensures
        r == lower(c),
{
    if 'A' <= c && c <= 'Z' {
        ((c as u8) + 32) as char
    } else {
        c
    }
}

// ---------------------------------------------------------------------------
// Equality and order
// ---------------------------------------------------------------------------

/// Two texts with the same bytes are the same text.
pub proof fn lemma_bytes_determine_text(a: Seq<char>, b: Seq<char>)
    requires
        encode_utf8(a) == encode_utf8(b),
    ensures
        a == b,
{
    encode_utf8_decode_utf8(a);
    encode_utf8_decode_utf8(b);
}

pub fn same_text(a: &str, b: &str) -> (r: bool)
    ensures
        r == (a@ == b@),
{
    let x: &[u8] = a.as_bytes();
    let y: &[u8] = b.as_bytes();
    if x.len() != y.len() {
        return false;
    }
    let mut i: usize = 0;
    while i < x.len()
        invariant
            i <= x.len(),
            x.len() == y.len(),
            x@ == encode_utf8(a@),
            y@ == encode_utf8(b@),
            forall|j: int| 0 <= j < i ==> x@[j] == y@[j],
        decreases x.len() - i,
    {
        if x[i] != y[i] {
            return false;
        }
        i = i + 1;
    }
    proof {
        assert(x@ =~= y@);
        lemma_bytes_determine_text(a@, b@);
    }
    true
}

/// The order of two byte sequences: by their first difference, a proper prefix first.
pub open spec fn bytes_before(a: Seq<u8>, b: Seq<u8>) -> bool
    decreases a.len(),
{
    if b.len() == 0 {
        false
    } else if a.len() == 0 {
        true
    } else if a[0] != b[0] {
        a[0] < b[0]
    } else {
        bytes_before(a.drop_first(), b.drop_first())
    }
}

/// The order of two texts: that of their UTF-8 bytes.
pub open spec fn text_before(a: Seq<char>, b: Seq<char>) -> bool {
    bytes_before(encode_utf8(a), encode_utf8(b))
}

proof fn lemma_bytes_before_irreflexive(a: Seq<u8>)
    ensures
        !bytes_before(a, a),
    decreases a.len(),
{
    if a.len() > 0 {
        lemma_bytes_before_irreflexive(a.drop_first());
    }
}

proof fn lemma_bytes_before_transitive(a: Seq<u8>, b: Seq<u8>, c: Seq<u8>)
    requires
        bytes_before(a, b),
        bytes_before(b, c),
    ensures
        bytes_before(a, c),
    decreases a.len(),
{
    if a.len() > 0 && b.len() > 0 && c.len() > 0 && a[0] == b[0] && b[0] == c[0] {
        lemma_bytes_before_transitive(a.drop_first(), b.drop_first(), c.drop_first());
    }
}

proof fn lemma_bytes_before_total(a: Seq<u8>, b: Seq<u8>)
    ensures
        bytes_before(a, b) || bytes_before(b, a) || a == b,
    decreases a.len(),
{
    if a.len() > 0 && b.len() > 0 && a[0] == b[0] {
        lemma_bytes_before_total(a.drop_first(), b.drop_first());
        if a.drop_first() == b.drop_first() {
            assert(a =~= seq![a[0]] + a.drop_first());
            assert(b =~= seq![b[0]] + b.drop_first());
        }
    } else if a.len() == 0 && b.len() == 0 {
        assert(a =~= b);
    }
}

/// No text comes before itself.
pub broadcast proof fn lemma_text_before_irreflexive(a: Seq<char>)
    ensures
        !#[trigger] text_before(a, a),
{
    lemma_bytes_before_irreflexive(encode_utf8(a));
}

/// The order of texts is transitive.
pub proof fn lemma_text_before_transitive(a: Seq<char>, b: Seq<char>, c: Seq<char>)
    requires
        text_before(a, b),
        text_before(b, c),
    ensures
        text_before(a, c),
{
    lemma_bytes_before_transitive(encode_utf8(a), encode_utf8(b), encode_utf8(c));
}

proof fn lemma_ascii_byte(c: char)
    requires
        c as u32 <= 0x7f,
    ensures
        vstd::utf8::encode_scalar(c as u32) == seq![c as u8],
{
    let x = c as u32;
    assert((x & 0x7f) as u8 == x as u8) by (bit_vector)
        requires
            x <= 0x7f,
    ;
}

/// Of two texts that begin with different ASCII characters, that with the smaller one comes first.
pub proof fn lemma_first_letters(a: Seq<char>, b: Seq<char>)
    requires
        a.len() > 0,
        b.len() > 0,
        a[0] as u32 <= 0x7f,
        b[0] as u32 <= 0x7f,
        (a[0] as u8) < b[0] as u8,
    ensures
        text_before(a, b),
{
    lemma_ascii_byte(a[0]);
    lemma_ascii_byte(b[0]);
    assert(encode_utf8(a)[0] == a[0] as u8);
    assert(encode_utf8(b)[0] == b[0] as u8);
}

/// Of two texts that begin with the same ASCII character, the order is that of the rest.
pub proof fn lemma_shared_letter(a: Seq<char>, b: Seq<char>)
    requires
        a.len() > 0,
        b.len() > 0,
        a[0] == b[0],
        b[0] as u32 <= 0x7f,
        text_before(a.drop_first(), b.drop_first()),
    ensures
        text_before(a, b),
{
    lemma_ascii_byte(a[0]);
    assert(encode_utf8(a).drop_first() =~= encode_utf8(a.drop_first()));
    assert(encode_utf8(b).drop_first() =~= encode_utf8(b.drop_first()));
    assert(encode_utf8(a)[0] == encode_utf8(b)[0]);
}

/// Of two texts not each comes before the other.
pub proof fn lemma_text_before_asymmetric(a: Seq<char>, b: Seq<char>)
    requires
        text_before(a, b),
    ensures
        !text_before(b, a),
        a != b,
{
    broadcast use lemma_text_before_irreflexive;

    if text_before(b, a) {
        lemma_text_before_transitive(a, b, a);
    }
}

/// Of two different texts one comes before the other.
pub proof fn lemma_text_before_total(a: Seq<char>, b: Seq<char>)
    ensures
        text_before(a, b) || text_before(b, a) || a == b,
{
    lemma_bytes_before_total(encode_utf8(a), encode_utf8(b));
    if encode_utf8(a) == encode_utf8(b) {
        lemma_bytes_determine_text(a, b);
    }
}

pub fn comes_before(a: &str, b: &str) -> (r: bool)
    ensures
        r == text_before(a@, b@),
{
    let x: &[u8] = a.as_bytes();
    let y: &[u8] = b.as_bytes();
    let mut i: usize = 0;
    assert(x@.subrange(0, x@.len() as int) =~= x@);
    assert(y@.subrange(0, y@.len() as int) =~= y@);
    while i < x.len() && i < y.len()
        invariant
            i <= x.len(),
            i <= y.len(),
            x@ == encode_utf8(a@),
            y@ == encode_utf8(b@),
            bytes_before(x@, y@) == bytes_before(
                x@.subrange(i as int, x@.len() as int),
                y@.subrange(i as int, y@.len() as int),
            ),
        decreases x.len() - i,
    {
        let ghost xs = x@.subrange(i as int, x@.len() as int);
        let ghost ys = y@.subrange(i as int, y@.len() as int);
        if x[i] != y[i] {
            assert(xs[0] != ys[0]);
            return x[i] < y[i];
        }
        assert(xs.drop_first() =~= x@.subrange(i + 1, x@.len() as int));
        assert(ys.drop_first() =~= y@.subrange(i + 1, y@.len() as int));
        i = i + 1;
    }
    i < y.len()
}

// ---------------------------------------------------------------------------
// Length, blankness, trimming
// ---------------------------------------------------------------------------

/// The number of bytes that a text takes.
pub open spec fn byte_length(s: Seq<char>) -> nat {
    encode_utf8(s).len()
}

pub fn byte_len(s: &str) -> (n: usize)
    ensures
        n == byte_length(s@),
{
    let b: &[u8] = s.as_bytes();
    b.len()
}

/// A text that holds nothing but white space.
pub open spec fn blank(s: Seq<char>) -> bool {
    forall|i: int| 0 <= i < s.len() ==> white_space(#[trigger] s[i])
}

pub fn is_blank(s: &str) -> (r: bool)
    ensures
        r == blank(s@),
{
    let n: usize = s.unicode_len();
    let mut i: usize = 0;
    while i < n
        invariant
            i <= n,
            n == s@.len(),
            forall|j: int| 0 <= j < i ==> white_space(#[trigger] s@[j]),
        decreases n - i,
    {
        if !is_white_space(s.get_char(i)) {
            return false;
        }
        i = i + 1;
    }
    true
}

/// A text without the white space at its two ends.
pub open spec fn trimmed(s: Seq<char>) -> Seq<char>
    decreases s.len(),
{
    if s.len() == 0 {
        s
    } else if white_space(s[0]) {
        trimmed(s.drop_first())
    } else if white_space(s.last()) {
        trimmed(s.drop_last())
    } else {
        s
    }
}

pub fn trim(s: &str) -> (r: String)
    ensures
        r@ == trimmed(s@),
{
    let n: usize = s.unicode_len();
    let mut from: usize = 0;
    assert(s@.subrange(0, n as int) =~= s@);
    while from < n && is_white_space(s.get_char(from))
        invariant
            from <= n,
            n == s@.len(),
            trimmed(s@) == trimmed(s@.subrange(from as int, n as int)),
        decreases n - from,
    {
        assert(s@.subrange(from as int, n as int).drop_first() =~= s@.subrange(from + 1, n as int));
        from = from + 1;
    }
    let mut to: usize = n;
    while from < to && is_white_space(s.get_char(to - 1))
        invariant
            from <= to <= n,
            n == s@.len(),
            from < n ==> !white_space(s@[from as int]),
            trimmed(s@) == trimmed(s@.subrange(from as int, to as int)),
        decreases to - from,
    {
        let ghost part = s@.subrange(from as int, to as int);
        assert(part.drop_last() =~= s@.subrange(from as int, to - 1));
        assert(part[0] == s@[from as int]);
        assert(part.last() == s@[to - 1]);
        to = to - 1;
    }
    proof {
        let part = s@.subrange(from as int, to as int);
        if from < to {
            assert(part[0] == s@[from as int]);
            assert(part.last() == s@[to - 1]);
        }
    }
    s.substring_char(from, to).to_owned()
}

proof fn lemma_trimmed_blank(s: Seq<char>)
    ensures
        blank(s) <==> trimmed(s).len() == 0,
    decreases s.len(),
{
    if s.len() == 0 {
    } else if white_space(s[0]) {
        let t = s.drop_first();
        lemma_trimmed_blank(t);
        assert(forall|i: int| 0 <= i < t.len() ==> t[i] == s[i + 1]);
        if blank(t) {
            assert forall|i: int| 0 <= i < s.len() implies white_space(#[trigger] s[i]) by {
                if i > 0 {
                    assert(white_space(t[i - 1]));
                }
            }
        }
        if blank(s) {
            assert forall|i: int| 0 <= i < t.len() implies white_space(#[trigger] t[i]) by {
                assert(white_space(s[i + 1]));
            }
        }
    } else {
        assert(!blank(s));
        if white_space(s.last()) {
            let t = s.drop_last();
            lemma_trimmed_blank(t);
            assert(!white_space(t[0]));
            assert(!blank(t));
        }
    }
}

/// A text is blank exactly if nothing of it is left after trimming.
pub proof fn blank_means_trimmed_to_nothing(s: Seq<char>)
    ensures
        blank(s) <==> trimmed(s) == Seq::<char>::empty(),
{
    lemma_trimmed_blank(s);
    if trimmed(s).len() == 0 {
        assert(trimmed(s) =~= Seq::<char>::empty());
    }
}

// ---------------------------------------------------------------------------
// Comparison with small letters, prefixes, parts
// ---------------------------------------------------------------------------

/// Whether `s`, its ASCII capitals made small, is `name`.
pub fn lowers_to(s: &str, name: &str) -> (r: bool)
    ensures
        r == (lowered(s@) == name@),
{
    let n: usize = s.unicode_len();
    if n != name.unicode_len() {
        assert(lowered(s@).len() == n);
        return false;
    }
    let mut i: usize = 0;
    while i < n
        invariant
            i <= n,
            n == s@.len(),
            n == name@.len(),
            forall|j: int| 0 <= j < i ==> lower(s@[j]) == name@[j],
        decreases n - i,
    {
        if to_lower(s.get_char(i)) != name.get_char(i) {
            assert(lowered(s@)[i as int] != name@[i as int]);
            return false;
        }
        i = i + 1;
    }
    assert(lowered(s@) =~= name@);
    true
}

/// Whether two texts differ at most in the case of ASCII letters.
pub fn same_ignoring_ascii_case(a: &str, b: &str) -> (r: bool)
    ensures
        r == (lowered(a@) == lowered(b@)),
{
    let n: usize = a.unicode_len();
    if n != b.unicode_len() {
        assert(lowered(a@).len() != lowered(b@).len());
        return false;
    }
    let mut i: usize = 0;
    while i < n
        invariant
            i <= n,
            n == a@.len(),
            n == b@.len(),
            forall|j: int| 0 <= j < i ==> lower(a@[j]) == lower(b@[j]),
        decreases n - i,
    {
        if to_lower(a.get_char(i)) != to_lower(b.get_char(i)) {
            assert(lowered(a@)[i as int] != lowered(b@)[i as int]);
            return false;
        }
        i = i + 1;
    }
    assert(lowered(a@) =~= lowered(b@));
    true
}

pub fn has_prefix(s: &str, prefix: &str) -> (r: bool)
    ensures
        r == prefix@.is_prefix_of(s@),
{
    let n: usize = prefix.unicode_len();
    if n > s.unicode_len() {
        return false;
    }
    same_text(s.substring_char(0, n), prefix)
}

/// Whether `part` stands somewhere in `s`.
pub open spec fn text_contains(s: Seq<char>, part: Seq<char>) -> bool {
    exists|i: int|
        0 <= i <= s.len() - part.len() && #[trigger] s.subrange(i, i + part.len()) == part
}

pub fn contains_text(s: &str, part: &str) -> (r: bool)
    ensures
        r == text_contains(s@, part@),
{
    let n: usize = s.unicode_len();
    let m: usize = part.unicode_len();
    if m > n {
        return false;
    }
    let mut i: usize = 0;
    while i <= n - m
        invariant
            i <= n - m + 1,
            n == s@.len(),
            m == part@.len(),
            m <= n,
            forall|j: int| 0 <= j < i ==> #[trigger] s@.subrange(j, j + m) != part@,
        decreases n - m + 1 - i,
    {
        if same_text(s.substring_char(i, i + m), part) {
            assert(s@.subrange(i as int, i + part@.len()) == part@);
            return true;
        }
        if i == n - m {
            return false;
        }
        i = i + 1;
    }
    false
}

/// Whether a list of texts holds one.
pub open spec fn texts_hold(list: Seq<String>, s: Seq<char>) -> bool {
    exists|i: int| 0 <= i < list.len() && (#[trigger] list[i])@ == s
}

pub fn texts_contain(list: &Vec<String>, s: &str) -> (r: bool)
    ensures
        r == texts_hold(list@, s@),
{
    let mut i: usize = 0;
    while i < list.len()
        invariant
            i <= list.len(),
            forall|j: int| 0 <= j < i ==> (#[trigger] list@[j])@ != s@,
        decreases list.len() - i,
    {
        if same_text(list[i].as_str(), s) {
            return true;
        }
        i = i + 1;
    }
    false
}

/// Whether the text at a place stands earlier in the list too.
pub open spec fn repeats(list: Seq<Seq<char>>, i: int) -> bool {
    exists|j: int| 0 <= j < i && #[trigger] list[j] == list[i]
}

/// The first place from `i` on whose text stands earlier in the list too.
pub open spec fn repeat_from(list: Seq<Seq<char>>, i: int) -> Option<int>
    decreases list.len() - i,
{
    if i >= list.len() {
        None
    } else if repeats(list, i) {
        Some(i)
    } else {
        repeat_from(list, i + 1)
    }
}

/// The first place whose text stands earlier in the list too.
pub open spec fn first_repeat(list: Seq<Seq<char>>) -> Option<int> {
    repeat_from(list, 0)
}

proof fn lemma_repeat_from(list: Seq<Seq<char>>, i: int)
    requires
        0 <= i,
        forall|k: int| 0 <= k < i ==> !repeats(list, k),
    ensures
        match repeat_from(list, i) {
            Some(p) => i <= p < list.len() && repeats(list, p) && forall|k: int|
                0 <= k < p ==> !repeats(list, k),
            None => forall|k: int| 0 <= k < list.len() ==> !repeats(list, k),
        },
    decreases list.len() - i,
{
    if i < list.len() && !repeats(list, i) {
        lemma_repeat_from(list, i + 1);
    }
}

/// Nothing repeats in a list exactly if no two of its texts are the same; else the first repeat
/// is the first place whose text stands earlier too.
pub proof fn first_repeat_is_first(list: Seq<Seq<char>>)
    ensures
        first_repeat(list) is None <==> list.no_duplicates(),
        first_repeat(list) matches Some(p) ==> 0 <= p < list.len() && repeats(list, p) && forall|
            k: int,
        |
            0 <= k < p ==> !repeats(list, k),
{
    lemma_repeat_from(list, 0);
    if first_repeat(list) is None {
        assert forall|i: int, j: int| 0 <= i < list.len() && 0 <= j < list.len() && i
            != j implies list[i] != list[j] by {
            if list[i] == list[j] {
                if i < j {
                    assert(repeats(list, j));
                } else {
                    assert(repeats(list, i));
                }
            }
        }
    }
}

/// The texts of a list.
pub open spec fn texts_view(list: Seq<String>) -> Seq<Seq<char>> {
    list.map_values(|s: String| s@)
}

pub fn find_repeat(list: &Vec<String>) -> (r: Option<usize>)
    ensures
        match r {
            Some(p) => first_repeat(texts_view(list@)) == Some(p as int) && p < list.len(),
            None => first_repeat(texts_view(list@)) is None,
        },
{
    let ghost all = texts_view(list@);
    let mut i: usize = 0;
    while i < list.len()
        invariant
            i <= list.len(),
            all == texts_view(list@),
            first_repeat(all) == repeat_from(all, i as int),
        decreases list.len() - i,
    {
        let mut j: usize = 0;
        while j < i
            invariant
                j <= i < list.len(),
                all == texts_view(list@),
                first_repeat(all) == repeat_from(all, i as int),
                forall|k: int| 0 <= k < j ==> #[trigger] all[k] != all[i as int],
            decreases i - j,
        {
            if same_text(list[j].as_str(), list[i].as_str()) {
                assert(all[j as int] == all[i as int]);
                assert(repeats(all, i as int));
                return Some(i);
            }
            j = j + 1;
        }
        assert(!repeats(all, i as int));
        i = i + 1;
    }
    None
}

// ---------------------------------------------------------------------------
// Texts as they are shown to a programmer
// ---------------------------------------------------------------------------

/// A text between quotes, as the standard library's `Debug` writes it.
pub uninterp spec fn debug_quoted(s: Seq<char>) -> Seq<char>;

/// The `Debug` form of a text: the text between quotes, with what needs it escaped. The result
/// depends on the text alone; which characters are escaped how is left unsaid.
#[verifier::external_body]
pub(crate) fn debug_text(s: &str) -> (r: String)
    ensures
        r@ == debug_quoted(s@),
{
    format!("{s:?}")
}

/// Texts between quotes, a comma between each two.
pub open spec fn debug_items(list: Seq<Seq<char>>) -> Seq<char>
    decreases list.len(),
{
    if list.len() == 0 {
        Seq::empty()
    } else if list.len() == 1 {
        debug_quoted(list[0])
    } else {
        debug_items(list.drop_last()) + ", "@ + debug_quoted(list.last())
    }
}

/// A list of texts as it is shown to a programmer: between brackets.
pub open spec fn debug_list(list: Seq<Seq<char>>) -> Seq<char> {
    "["@ + debug_items(list) + "]"@
}

pub fn debug_list_text(list: &Vec<String>) -> (r: String)
    ensures
        r@ == debug_list(texts_view(list@)),
{
    let ghost all = texts_view(list@);
    let mut out: String = String::new();
    let mut i: usize = 0;
    while i < list.len()
        invariant
            i <= list.len(),
            all == texts_view(list@),
            out@ == debug_items(all.subrange(0, i as int)),
        decreases list.len() - i,
    {
        let item: String = debug_text(list[i].as_str());
        let ghost part = all.subrange(0, i + 1);
        assert(part.drop_last() =~= all.subrange(0, i as int));
        assert(part.last() == list@[i as int]@);
        if i == 0 {
            out = item;
        } else {
            out.append(", ");
            out.append(item.as_str());
        }
        i = i + 1;
    }
    assert(all.subrange(0, list@.len() as int) =~= all);
    cat3("[", out.as_str(), "]")
}

// ---------------------------------------------------------------------------
// Putting texts together
// ---------------------------------------------------------------------------

pub fn cat2(a: &str, b: &str) -> (r: String)
    ensures
        r@ == a@ + b@,
{
    let mut r: String = a.to_owned();
    r.append(b);
    r
}

pub fn cat3(a: &str, b: &str, c: &str) -> (r: String)
    ensures
        r@ == a@ + b@ + c@,
{
    let mut r: String = cat2(a, b);
    r.append(c);
    r
}

pub fn cat4(a: &str, b: &str, c: &str, d: &str) -> (r: String)
    ensures
        r@ == a@ + b@ + c@ + d@,
{
    let mut r: String = cat3(a, b, c);
    r.append(d);
    r
}

pub fn cat5(a: &str, b: &str, c: &str, d: &str, e: &str) -> (r: String)
    ensures
        r@ == a@ + b@ + c@ + d@ + e@,
{
    let mut r: String = cat4(a, b, c, d);
    r.append(e);
    r
}

pub fn cat6(a: &str, b: &str, c: &str, d: &str, e: &str, f: &str) -> (r: String)
    ensures
        r@ == a@ + b@ + c@ + d@ + e@ + f@,
{
    let mut r: String = cat5(a, b, c, d, e);
    r.append(f);
    r
}

pub fn cat7(a: &str, b: &str, c: &str, d: &str, e: &str, f: &str, g: &str) -> (r: String)
    ensures
        r@ == a@ + b@ + c@ + d@ + e@ + f@ + g@,
{
    let mut r: String = cat6(a, b, c, d, e, f);
    r.append(g);
    r
}

pub fn cat8(a: &str, b: &str, c: &str, d: &str, e: &str, f: &str, g: &str, h: &str) -> (r: String)
    ensures
        r@ == a@ + b@ + c@ + d@ + e@ + f@ + g@ + h@,
{
    let mut r: String = cat7(a, b, c, d, e, f, g);
    r.append(h);
    r
}

pub fn cat9(
    a: &str,
    b: &str,
    c: &str,
    d: &str,
    e: &str,
    f: &str,
    g: &str,
    h: &str,
    i: &str,
) -> (r: String)
    ensures
        r@ == a@ + b@ + c@ + d@ + e@ + f@ + g@ + h@ + i@,
{
    let mut r: String = cat8(a, b, c, d, e, f, g, h);
    r.append(i);
    r
}

/// Texts one after the other, a separator between each two.
pub open spec fn joined(parts: Seq<Seq<char>>, separator: Seq<char>) -> Seq<char>
    decreases parts.len(),
{
    if parts.len() == 0 {
        Seq::empty()
    } else if parts.len() == 1 {
        parts[0]
    } else {
        joined(parts.drop_last(), separator) + separator + parts.last()
    }
}

pub fn join(parts: &Vec<String>, separator: &str) -> (r: String)
    ensures
        r@ == joined(texts_view(parts@), separator@),
{
    let ghost all = texts_view(parts@);
    let mut out: String = String::new();
    let mut i: usize = 0;
    while i < parts.len()
        invariant
            i <= parts.len(),
            all == texts_view(parts@),
            out@ == joined(all.subrange(0, i as int), separator@),
        decreases parts.len() - i,
    {
        let ghost part = all.subrange(0, i + 1);
        assert(part.drop_last() =~= all.subrange(0, i as int));
        assert(part.last() == parts@[i as int]@);
        if i == 0 {
            out = parts[i].clone();
        } else {
            out.append(separator);
            out.append(parts[i].as_str());
        }
        i = i + 1;
    }
    assert(all.subrange(0, parts@.len() as int) =~= all);
    out
}

// ---------------------------------------------------------------------------
// Numbers as text
// ---------------------------------------------------------------------------

/// The decimal digit that stands for a number below ten.
pub open spec fn digit(n: int) -> char {
    (48 + n) as u32 as char
}

/// A number in decimal digits.
pub open spec fn decimal(n: nat) -> Seq<char>
    decreases n,
{
    if n < 10 {
        seq![digit(n as int)]
    } else {
        decimal(n / 10).push(digit((n % 10) as int))
    }
}

/// An integer in decimal digits, a minus in front where it is negative.
pub open spec fn signed_decimal(n: int) -> Seq<char> {
    if n < 0 {
        seq!['-'] + decimal((-n) as nat)
    } else {
        decimal(n as nat)
    }
}

fn digit_text(n: u64) -> (r: &'static str)
    requires
        n < 10,
    ensures
        r@ == seq![digit(n as int)],
{
    proof {
        reveal_strlit("0");
        reveal_strlit("1");
        reveal_strlit("2");
        reveal_strlit("3");
        reveal_strlit("4");
        reveal_strlit("5");
        reveal_strlit("6");
        reveal_strlit("7");
        reveal_strlit("8");
        reveal_strlit("9");
    }
    let r: &'static str = match n {
        0 => "0",
        1 => "1",
        2 => "2",
        3 => "3",
        4 => "4",
        5 => "5",
        6 => "6",
        7 => "7",
        8 => "8",
        _ => "9",
    };
    assert(r@ =~= seq![digit(n as int)]);
    r
}

pub fn decimal_text(n: u64) -> (r: String)
    ensures
        r@ == decimal(n as nat),
    decreases n,
{
    if n < 10 {
        digit_text(n).to_owned()
    } else {
        let mut r: String = decimal_text(n / 10);
        r.append(digit_text(n % 10));
        assert(r@ =~= decimal((n / 10) as nat).push(digit((n % 10) as int)));
        r
    }
}

pub fn signed_decimal_text(n: i64) -> (r: String)
    ensures
        r@ == signed_decimal(n as int),
{
    if n < 0 {
        proof {
            reveal_strlit("-");
        }
        let magnitude: u64 = if n == i64::MIN {
            9223372036854775808
        } else {
            (-n) as u64
        };
        let digits: String = decimal_text(magnitude);
        let r: String = cat2("-", digits.as_str());
        assert("-"@ =~= seq!['-']);
        r
    } else {
        decimal_text(n as u64)
    }
}

// ---------------------------------------------------------------------------
// Text as numbers
// ---------------------------------------------------------------------------

pub open spec fn is_digit(c: char) -> bool {
    '0' <= c <= '9'
}

pub open spec fn digit_value(c: char) -> int {
    (c as int) - 48
}

/// The value of a sequence of decimal digits.
pub open spec fn digits_value(s: Seq<char>) -> int
    decreases s.len(),
{
    if s.len() == 0 {
        0
    } else {
        10 * digits_value(s.drop_last()) + digit_value(s.last())
    }
}

pub open spec fn all_digits(s: Seq<char>) -> bool {
    forall|i: int| 0 <= i < s.len() ==> is_digit(#[trigger] s[i])
}

/// What a text says as an integer: digits, with a sign or without; nothing where it says none.
pub open spec fn parsed_integer(s: Seq<char>) -> Option<int> {
    let signed = s.len() > 0 && (s[0] == '-' || s[0] == '+');
    let digits = if signed {
        s.subrange(1, s.len() as int)
    } else {
        s
    };
    if digits.len() == 0 || !all_digits(digits) {
        None
    } else if signed && s[0] == '-' {
        Some(-digits_value(digits))
    } else {
        Some(digits_value(digits))
    }
}

/// What a text says as an `i64`.
pub open spec fn parsed_i64(s: Seq<char>) -> Option<int> {
    match parsed_integer(s) {
        Some(n) => if i64::MIN <= n <= i64::MAX {
            Some(n)
        } else {
            None
        },
        None => None,
    }
}

/// What a text says as a `u16`: a minus is no part of it.
pub open spec fn parsed_u16(s: Seq<char>) -> Option<int> {
    if s.len() > 0 && s[0] == '-' {
        None
    } else {
        match parsed_integer(s) {
            Some(n) => if n <= u16::MAX {
                Some(n)
            } else {
                None
            },
            None => None,
        }
    }
}

proof fn lemma_digits_value_grows(s: Seq<char>, n: int)
    requires
        0 <= n <= s.len(),
        all_digits(s),
    ensures
        0 <= digits_value(s.subrange(0, n)) <= digits_value(s),
    decreases s.len(),
{
    if n == s.len() {
        assert(s.subrange(0, n) =~= s);
        if n > 0 {
            let t = s.drop_last();
            assert(all_digits(t)) by {
                assert forall|i: int| 0 <= i < t.len() implies is_digit(#[trigger] t[i]) by {
                    assert(t[i] == s[i]);
                }
            }
            lemma_digits_value_grows(t, n - 1);
            assert(t.subrange(0, n - 1) =~= t);
            assert(is_digit(s[n - 1]));
        }
    } else {
        let t = s.drop_last();
        assert(all_digits(t)) by {
            assert forall|i: int| 0 <= i < t.len() implies is_digit(#[trigger] t[i]) by {
                assert(t[i] == s[i]);
            }
        }
        lemma_digits_value_grows(t, n);
        assert(t.subrange(0, n) =~= s.subrange(0, n));
        assert(is_digit(s[s.len() - 1]));
    }
}

/// The digits of `s` from `from` on, up to a limit; `None` where one is no digit, where there is
/// none, or where the value passes the limit.
fn digits_from(s: &str, from: usize, limit: u64) -> (r: Option<u64>)
    requires
        from <= s@.len(),
        limit <= 0x8000_0000_0000_0000,
    ensures
        ({
            let digits = s@.subrange(from as int, s@.len() as int);
            match r {
                Some(n) => digits.len() > 0 && all_digits(digits) && n == digits_value(digits) && n
                    <= limit,
                None => digits.len() == 0 || !all_digits(digits) || digits_value(digits) > limit,
            }
        }),
{
    let n: usize = s.unicode_len();
    let ghost digits = s@.subrange(from as int, n as int);
    if from == n {
        return None;
    }
    let mut value: u128 = 0;
    let mut passed: bool = false;
    let mut i: usize = from;
    while i < n
        invariant
            from <= i <= n,
            n == s@.len(),
            digits == s@.subrange(from as int, n as int),
            limit <= 0x8000_0000_0000_0000,
            all_digits(digits.subrange(0, i - from)),
            !passed ==> value == digits_value(digits.subrange(0, i - from)) && value <= limit,
            passed ==> digits_value(digits.subrange(0, i - from)) > limit,
        decreases n - i,
    {
        let c: char = s.get_char(i);
        let ghost part = digits.subrange(0, i - from);
        let ghost next = digits.subrange(0, i + 1 - from);
        assert(next.drop_last() =~= part);
        assert(next.last() == c);
        if !('0' <= c && c <= '9') {
            assert(!is_digit(digits[i - from]));
            return None;
        }
        assert(all_digits(next)) by {
            assert forall|k: int| 0 <= k < next.len() implies is_digit(#[trigger] next[k]) by {
                if k < part.len() {
                    assert(next[k] == part[k]);
                }
            }
        }
        if !passed {
            value = 10 * value + ((c as u32) - 48) as u128;
            if value > limit as u128 {
                passed = true;
                value = 0;
            }
        } else {
            proof {
                lemma_digits_value_grows(next, part.len() as int);
                assert(next.subrange(0, part.len() as int) =~= part);
            }
        }
        i = i + 1;
    }
    assert(digits.subrange(0, n - from) =~= digits);
    if passed {
        None
    } else {
        Some(value as u64)
    }
}

pub fn parse_i64(s: &str) -> (r: Option<i64>)
    ensures
        match r {
            Some(n) => parsed_i64(s@) == Some(n as int),
            None => parsed_i64(s@) is None,
        },
{
    let n: usize = s.unicode_len();
    if n == 0 {
        return None;
    }
    let first: char = s.get_char(0);
    assert(s@.subrange(0, n as int) =~= s@);
    if first == '-' {
        match digits_from(s, 1, 9223372036854775808) {
            Some(m) => if m == 9223372036854775808 {
                Some(i64::MIN)
            } else {
                Some(-(m as i64))
            },
            None => None,
        }
    } else {
        let from: usize = if first == '+' {
            1
        } else {
            0
        };
        match digits_from(s, from, 9223372036854775807) {
            Some(m) => Some(m as i64),
            None => {
                proof {
                    let digits = s@.subrange(from as int, n as int);
                    if digits.len() > 0 && all_digits(digits) {
                        lemma_digits_value_grows(digits, 0);
                    }
                }
                None
            },
        }
    }
}

pub fn parse_u16(s: &str) -> (r: Option<u16>)
    ensures
        match r {
            Some(n) => parsed_u16(s@) == Some(n as int),
            None => parsed_u16(s@) is None,
        },
{
    let n: usize = s.unicode_len();
    if n == 0 {
        return None;
    }
    let first: char = s.get_char(0);
    assert(s@.subrange(0, n as int) =~= s@);
    if first == '-' {
        return None;
    }
    let from: usize = if first == '+' {
        1
    } else {
        0
    };
    match digits_from(s, from, 65535) {
        Some(m) => Some(m as u16),
        None => None,
    }
}

// ---------------------------------------------------------------------------
// Hexadecimal
// ---------------------------------------------------------------------------

/// The hexadecimal digit of a number below sixteen, with small or capital letters.
pub open spec fn hex_digit(n: int, capital: bool) -> char {
    if n < 10 {
        (48 + n) as u32 as char
    } else if capital {
        (55 + n) as u32 as char
    } else {
        (87 + n) as u32 as char
    }
}

/// Two hexadecimal digits for each byte.
pub open spec fn hex(bytes: Seq<u8>, capital: bool) -> Seq<char>
    decreases bytes.len(),
{
    if bytes.len() == 0 {
        Seq::empty()
    } else {
        hex(bytes.drop_last(), capital) + seq![
            hex_digit(bytes.last() as int / 16, capital),
            hex_digit(bytes.last() as int % 16, capital),
        ]
    }
}

/// The low `count` hexadecimal digits of a number.
pub open spec fn hex_digits(n: nat, count: nat) -> Seq<char>
    decreases count,
{
    if count == 0 {
        Seq::empty()
    } else {
        hex_digits(n / 16, (count - 1) as nat).push(hex_digit((n % 16) as int, false))
    }
}

fn hex_digit_text(n: u64, capital: bool) -> (r: &'static str)
    requires
        n < 16,
    ensures
        r@ == seq![hex_digit(n as int, capital)],
{
    if n < 10 {
        return digit_text(n);
    }
    proof {
        reveal_strlit("a");
        reveal_strlit("b");
        reveal_strlit("c");
        reveal_strlit("d");
        reveal_strlit("e");
        reveal_strlit("f");
        reveal_strlit("A");
        reveal_strlit("B");
        reveal_strlit("C");
        reveal_strlit("D");
        reveal_strlit("E");
        reveal_strlit("F");
    }
    let r: &'static str = if capital {
        match n {
            10 => "A",
            11 => "B",
            12 => "C",
            13 => "D",
            14 => "E",
            _ => "F",
        }
    } else {
        match n {
            10 => "a",
            11 => "b",
            12 => "c",
            13 => "d",
            14 => "e",
            _ => "f",
        }
    };
    assert(r@ =~= seq![hex_digit(n as int, capital)]);
    r
}

pub fn hex_text(bytes: &[u8], capital: bool) -> (r: String)
    ensures
        r@ == hex(bytes@, capital),
{
    let mut r: String = String::new();
    let mut i: usize = 0;
    while i < bytes.len()
        invariant
            i <= bytes.len(),
            r@ == hex(bytes@.subrange(0, i as int), capital),
        decreases bytes.len() - i,
    {
        let b: u64 = bytes[i] as u64;
        r.append(hex_digit_text(b / 16, capital));
        r.append(hex_digit_text(b % 16, capital));
        proof {
            let part = bytes@.subrange(0, i + 1);
            assert(part.drop_last() =~= bytes@.subrange(0, i as int));
            assert(r@ =~= hex(part, capital));
        }
        i = i + 1;
    }
    assert(bytes@.subrange(0, bytes@.len() as int) =~= bytes@);
    r
}

/// The low hexadecimal digits of a number, as many as asked for.
pub fn hex_number_text(n: u64, count: u8) -> (r: String)
    ensures
        r@ == hex_digits(n as nat, count as nat),
    decreases count,
{
    if count == 0 {
        String::new()
    } else {
        let mut r: String = hex_number_text(n / 16, count - 1);
        r.append(hex_digit_text(n % 16, false));
        assert(r@ =~= hex_digits((n / 16) as nat, (count - 1) as nat).push(
            hex_digit((n % 16) as int, false),
        ));
        r
    }
}

/// Letters are made small one by one, and nothing but letters from A to Z is changed.
pub proof fn letters_are_made_small(s: Seq<char>, i: int)
    requires
        0 <= i < s.len(),
    ensures
        lowered(s).len() == s.len(),
        'A' <= s[i] <= 'Z' ==> lowered(s)[i] as int == s[i] as int + 32,
        !('A' <= s[i] <= 'Z') ==> lowered(s)[i] == s[i],
{
}

/// White space is what Unicode calls so.
pub proof fn white_space_is_this(c: char)
    ensures
        white_space(' '),
        white_space('\t'),
        white_space('\n'),
        white_space('\r'),
        '!' <= c <= '~' ==> !white_space(c),
{
}

proof fn lemma_trimmed_part(s: Seq<char>) -> (r: (int, int))
    ensures
        0 <= r.0 <= r.1 <= s.len(),
        trimmed(s) == s.subrange(r.0, r.1),
        forall|i: int| 0 <= i < r.0 ==> white_space(#[trigger] s[i]),
        forall|i: int| r.1 <= i < s.len() ==> white_space(#[trigger] s[i]),
        r.0 < r.1 ==> !white_space(s[r.0]) && !white_space(s[r.1 - 1]),
    decreases s.len(),
{
    if s.len() == 0 {
        assert(s =~= s.subrange(0, 0));
        (0, 0)
    } else if white_space(s[0]) {
        let t = s.drop_first();
        let r = lemma_trimmed_part(t);
        assert(t.subrange(r.0, r.1) =~= s.subrange(r.0 + 1, r.1 + 1));
        assert forall|i: int| 0 <= i < r.0 + 1 implies white_space(#[trigger] s[i]) by {
            if i > 0 {
                assert(t[i - 1] == s[i]);
            }
        }
        assert forall|i: int| r.1 + 1 <= i < s.len() implies white_space(#[trigger] s[i]) by {
            assert(t[i - 1] == s[i]);
        }
        (r.0 + 1, r.1 + 1)
    } else if white_space(s.last()) {
        let t = s.drop_last();
        let r = lemma_trimmed_part(t);
        assert(t.subrange(r.0, r.1) =~= s.subrange(r.0, r.1));
        assert forall|i: int| 0 <= i < r.0 implies white_space(#[trigger] s[i]) by {
            assert(t[i] == s[i]);
        }
        assert forall|i: int| r.1 <= i < s.len() implies white_space(#[trigger] s[i]) by {
            if i < t.len() {
                assert(t[i] == s[i]);
            }
        }
        (r.0, r.1)
    } else {
        assert(s =~= s.subrange(0, s.len() as int));
        (0, s.len() as int)
    }
}

/// A trimmed text is a part of the text, with nothing but white space around it, and with none at
/// its ends.
pub proof fn white_space_around_a_text_is_taken_away(s: Seq<char>)
    ensures
        exists|a: int, b: int|
            0 <= a <= b <= s.len() && trimmed(s) == #[trigger] s.subrange(a, b) && (forall|i: int|
                0 <= i < a ==> white_space(#[trigger] s[i])) && (forall|i: int|
                b <= i < s.len() ==> white_space(#[trigger] s[i])),
        trimmed(s).len() > 0 ==> !white_space(trimmed(s)[0]) && !white_space(trimmed(s).last()),
{
    let r = lemma_trimmed_part(s);
    assert(trimmed(s) == s.subrange(r.0, r.1));
}

/// A number in decimal has digits only, means the number, and begins with no zero but where it is
/// zero.
pub proof fn decimals_mean_their_number(n: nat)
    ensures
        all_digits(decimal(n)),
        digits_value(decimal(n)) == n,
        decimal(n).len() > 0,
        decimal(n)[0] == '0' <==> n == 0,
        n < 10 ==> decimal(n).len() == 1,
    decreases n,
{
    if n >= 10 {
        decimals_mean_their_number(n / 10);
        let front = decimal(n / 10);
        let d = digit((n % 10) as int);
        assert(decimal(n) =~= front.push(d));
        assert(decimal(n).drop_last() =~= front);
        assert(is_digit(d));
        assert(digit_value(d) == n % 10);
        assert(n == 10 * (n / 10) + n % 10);
        assert forall|i: int| 0 <= i < decimal(n).len() implies is_digit(
            #[trigger] decimal(n)[i],
        ) by {
            if i < front.len() {
                assert(front[i] == decimal(n)[i]);
            }
        }
    } else {
        let s = decimal(n);
        assert(s =~= seq![digit(n as int)]);
        assert(s.drop_last() =~= Seq::<char>::empty());
        assert(digits_value(s.drop_last()) == 0);
        assert(digit_value(digit(n as int)) == n);
    }
}

/// A text is read as the number it is written of, with or without a sign; nothing but digits behind
/// a sign is a number.
pub proof fn numbers_are_read_as_they_are_written(n: nat, s: Seq<char>)
    ensures
        parsed_integer(decimal(n)) == Some(n as int),
        parsed_integer(seq!['-'] + decimal(n)) == Some(-(n as int)),
        parsed_integer(seq!['+'] + decimal(n)) == Some(n as int),
        parsed_integer(Seq::empty()) is None,
        s.len() > 0 && s[0] != '-' && s[0] != '+' ==> (parsed_integer(s) is Some <==> forall|i: int|
            0 <= i < s.len() ==> '0' <= #[trigger] s[i] <= '9'),
{
    decimals_mean_their_number(n);
    assert(is_digit(decimal(n)[0]));
    assert((seq!['-'] + decimal(n)).subrange(1, decimal(n).len() as int + 1) =~= decimal(n));
    assert((seq!['+'] + decimal(n)).subrange(1, decimal(n).len() as int + 1) =~= decimal(n));
    if s.len() > 0 && s[0] != '-' && s[0] != '+' {
        if forall|i: int| 0 <= i < s.len() ==> '0' <= #[trigger] s[i] <= '9' {
            assert forall|i: int| 0 <= i < s.len() implies is_digit(#[trigger] s[i]) by {}
        }
        if all_digits(s) {
            assert forall|i: int| 0 <= i < s.len() implies '0' <= #[trigger] s[i] <= '9' by {
                assert(is_digit(s[i]));
            }
        }
    }
}

/// A number with a sign is written with it where it is below zero only.
pub proof fn signed_numbers_are_written_with_their_sign(n: int)
    ensures
        n >= 0 ==> signed_decimal(n) == decimal(n as nat),
        n < 0 ==> signed_decimal(n) == seq!['-'] + decimal((-n) as nat),
{
}

/// A number is of its range or is none.
pub proof fn numbers_keep_to_their_range(s: Seq<char>, n: int)
    ensures
        parsed_i64(s) == Some(n) <==> parsed_integer(s) == Some(n) && i64::MIN <= n <= i64::MAX,
        s.len() > 0 && s[0] == '-' ==> parsed_u16(s) is None,
        !(s.len() > 0 && s[0] == '-') ==> (parsed_u16(s) == Some(n) <==> parsed_integer(s) == Some(
            n,
        ) && n <= 65535),
{
}

/// Bytes are written as two digits each, the higher half first.
pub proof fn bytes_are_written_as_two_digits(bytes: Seq<u8>, b: u8, n: int)
    ensures
        hex(Seq::empty(), true).len() == 0,
        hex(bytes.push(b), true) == hex(bytes, true) + seq![
            hex_digit(b as int / 16, true),
            hex_digit(b as int % 16, true),
        ],
        0 <= n < 10 ==> hex_digit(n, true) as int == '0' as int + n && hex_digit(n, false) as int
            == '0' as int + n,
        10 <= n < 16 ==> hex_digit(n, true) as int == 'A' as int + n - 10 && hex_digit(
            n,
            false,
        ) as int == 'a' as int + n - 10,
{
    assert(bytes.push(b).drop_last() =~= bytes);
}

/// A number is written with as many digits as are asked for, the last of which is its lowest.
pub proof fn numbers_are_written_with_so_many_digits(n: nat, count: nat)
    ensures
        hex_digits(n, count).len() == count,
        count > 0 ==> hex_digits(n, count).last() == hex_digit((n % 16) as int, false),
    decreases count,
{
    if count > 0 {
        numbers_are_written_with_so_many_digits(n / 16, (count - 1) as nat);
    }
}

/// Parts are joined with the separator between them.
pub proof fn parts_are_joined_with_a_separator(
    parts: Seq<Seq<char>>,
    p: Seq<char>,
    separator: Seq<char>,
)
    ensures
        joined(Seq::empty(), separator).len() == 0,
        joined(seq![p], separator) == p,
        parts.len() > 0 ==> joined(parts.push(p), separator) == joined(parts, separator) + separator
            + p,
{
    assert(parts.push(p).drop_last() =~= parts);
}

/// Texts are ordered by the first byte in which they differ, and a shorter one before what it
/// begins.
pub proof fn bytes_are_ordered_by_their_first_difference(
    common: Seq<u8>,
    a: Seq<u8>,
    b: Seq<u8>,
)
    ensures
        a.len() > 0 && b.len() > 0 && a[0] != b[0] ==> (bytes_before(common + a, common + b)
            <==> a[0] < b[0]),
        a.len() > 0 ==> bytes_before(common, common + a) && !bytes_before(common + a, common),
        !bytes_before(common, common),
    decreases common.len(),
{
    if common.len() > 0 {
        let rest = common.drop_first();
        bytes_are_ordered_by_their_first_difference(rest, a, b);
        assert((common + a).drop_first() =~= rest + a);
        assert((common + b).drop_first() =~= rest + b);
    } else {
        assert(common + a =~= a);
        assert(common + b =~= b);
    }
}

/// A text holds a part exactly where the part stands somewhere in it.
pub proof fn parts_stand_somewhere_in_a_text(before: Seq<char>, part: Seq<char>, behind: Seq<char>)
    ensures
        text_contains(before + part + behind, part),
{
    let s = before + part + behind;
    assert(s.subrange(before.len() as int, (before.len() + part.len()) as int) =~= part);
}

} // verus!
