//! How a JSON text is made up: where its members and items stand, with the names that members are
//! given, repeated ones too. It is for texts that are known to be JSON.
use vstd::prelude::*;

use crate::json::{
    all_escaped, entries_text, escaped, items_text, json_quoted, json_text, object_get, JsonV,
};

verus! {

// ---------------------------------------------------------------------------
// Where things end
// ---------------------------------------------------------------------------

/// Whether a character may stand between the parts of a JSON text.
pub open spec fn between(c: char) -> bool {
    c == ' ' || c == '\n' || c == '\t' || c == '\r'
}

/// Whether a character stands at a place.
pub open spec fn stands(t: Seq<char>, i: int, c: char) -> bool {
    0 <= i < t.len() && t[i] == c
}

/// The place after one, if there is one.
pub open spec fn past(t: Seq<char>, i: int) -> int {
    if i < t.len() {
        i + 1
    } else {
        i
    }
}

/// The first place from one on where no space stands.
pub open spec fn space_end(t: Seq<char>, i: int) -> int
    decreases t.len() - i,
{
    if 0 <= i < t.len() && between(t[i]) {
        space_end(t, i + 1)
    } else {
        i
    }
}

/// The place after a string of which the first character stands at a place: after the next quote
/// that no backslash stands before.
pub open spec fn string_end(t: Seq<char>, i: int) -> int
    decreases t.len() - i,
{
    if i < 0 || i >= t.len() {
        t.len() as int
    } else if t[i] == '"' {
        i + 1
    } else if t[i] != '\\' {
        string_end(t, i + 1)
    } else if i + 1 < t.len() {
        string_end(t, i + 2)
    } else {
        t.len() as int
    }
}

/// The place after a value that stands at a place, `depth` brackets being open before it that end
/// with it.
pub open spec fn value_end(t: Seq<char>, i: int, depth: nat) -> int
    decreases t.len() - i,
{
    if i < 0 || i >= t.len() {
        i
    } else if t[i] == '"' {
        let e = string_end(t, i + 1);
        if depth == 0 || e <= i || e > t.len() {
            e
        } else {
            value_end(t, e, depth)
        }
    } else if t[i] == '{' || t[i] == '[' {
        value_end(t, i + 1, depth + 1)
    } else if t[i] == '}' || t[i] == ']' {
        if depth == 0 {
            i
        } else if depth == 1 {
            i + 1
        } else {
            value_end(t, i + 1, (depth - 1) as nat)
        }
    } else if depth == 0 && (t[i] == ',' || t[i] == ':' || between(t[i])) {
        i
    } else {
        value_end(t, i + 1, depth)
    }
}

proof fn lemma_space_end(t: Seq<char>, i: int)
    requires
        0 <= i <= t.len(),
    ensures
        i <= space_end(t, i) <= t.len(),
    decreases t.len() - i,
{
    if i < t.len() && between(t[i]) {
        lemma_space_end(t, i + 1);
    }
}

proof fn lemma_string_end(t: Seq<char>, i: int)
    requires
        0 <= i <= t.len(),
    ensures
        i <= string_end(t, i) <= t.len(),
    decreases t.len() - i,
{
    if i < t.len() && t[i] != '"' {
        if t[i] != '\\' {
            lemma_string_end(t, i + 1);
        } else if i + 1 < t.len() {
            lemma_string_end(t, i + 2);
        }
    }
}

/// The characters of a text.
pub fn chars_of(s: &str) -> (r: Vec<char>)
    ensures
        r@ == s@,
{
    let mut out: Vec<char> = Vec::new();
    for c in it: s.chars()
        invariant
            it.seq() == s@,
            out@ == s@.subrange(0, it.index() as int),
    {
        out.push(c);
        assert(out@ =~= s@.subrange(0, it.index() + 1));
    }
    assert(s@.subrange(0, s@.len() as int) =~= s@);
    out
}

fn is_between(c: char) -> (r: bool)
    ensures
        r == between(c),
{
    c == ' ' || c == '\n' || c == '\t' || c == '\r'
}

/// Whether a character stands at a place.
pub fn is_at(t: &Vec<char>, i: usize, c: char) -> (r: bool)
    ensures
        r == stands(t@, i as int, c),
{
    i < t.len() && t[i] == c
}

fn after(t: &Vec<char>, i: usize) -> (r: usize)
    requires
        i <= t@.len(),
    ensures
        r == past(t@, i as int),
        i <= r <= t@.len(),
{
    if i < t.len() {
        i + 1
    } else {
        i
    }
}

/// The first place from one on where no space stands.
pub fn after_space(t: &Vec<char>, from: usize) -> (r: usize)
    requires
        from <= t@.len(),
    ensures
        r == space_end(t@, from as int),
        from <= r <= t@.len(),
{
    let mut i: usize = from;
    while i < t.len() && is_between(t[i])
        invariant
            from <= i <= t@.len(),
            space_end(t@, from as int) == space_end(t@, i as int),
        decreases t@.len() - i,
    {
        i = i + 1;
    }
    i
}

fn after_string(t: &Vec<char>, from: usize) -> (r: usize)
    requires
        from <= t@.len(),
    ensures
        r == string_end(t@, from as int),
        from <= r <= t@.len(),
{
    let mut i: usize = from;
    while i < t.len()
        invariant
            from <= i <= t@.len(),
            string_end(t@, from as int) == string_end(t@, i as int),
        decreases t@.len() - i,
    {
        if t[i] == '"' {
            return i + 1;
        }
        if t[i] != '\\' {
            i = i + 1;
        } else if t.len() - i > 1 {
            i = i + 2;
        } else {
            return t.len();
        }
    }
    i
}

fn after_value(t: &Vec<char>, from: usize) -> (r: usize)
    requires
        from <= t@.len(),
    ensures
        r == value_end(t@, from as int, 0),
        from <= r <= t@.len(),
{
    let mut i: usize = from;
    let mut depth: usize = 0;
    while i < t.len()
        invariant
            from <= i <= t@.len(),
            depth <= i,
            value_end(t@, from as int, 0) == value_end(t@, i as int, depth as nat),
        decreases t@.len() - i,
    {
        let c: char = t[i];
        if c == '"' {
            let e: usize = after_string(t, i + 1);
            if depth == 0 {
                return e;
            }
            i = e;
        } else if c == '{' || c == '[' {
            i = i + 1;
            depth = depth + 1;
        } else if c == '}' || c == ']' {
            if depth == 0 {
                return i;
            }
            if depth == 1 {
                return i + 1;
            }
            i = i + 1;
            depth = depth - 1;
        } else if depth == 0 && (c == ',' || c == ':' || is_between(c)) {
            return i;
        } else {
            i = i + 1;
        }
    }
    i
}

// ---------------------------------------------------------------------------
// Names
// ---------------------------------------------------------------------------

/// The number that a hexadecimal digit stands for, if a character is one.
pub open spec fn digit_of(c: char) -> Option<int> {
    if '0' <= c <= '9' {
        Some(c as int - 48)
    } else if 'a' <= c <= 'f' {
        Some(c as int - 87)
    } else if 'A' <= c <= 'F' {
        Some(c as int - 55)
    } else {
        None
    }
}

/// The character that four hexadecimal digits at a place stand for. Beyond ASCII it is one that
/// stands for any.
pub open spec fn coded(t: Seq<char>, i: int) -> char {
    match (digit_of(t[i]), digit_of(t[i + 1]), digit_of(t[i + 2]), digit_of(t[i + 3])) {
        (Some(a), Some(b), Some(c), Some(d)) => {
            if a == 0 && b == 0 && c < 8 {
                (16 * c + d) as u8 as char
            } else {
                '\u{fffd}'
            }
        },
        _ => '\u{fffd}',
    }
}

/// The character that one after a backslash stands for.
pub open spec fn undone(c: char) -> char {
    if c == 'b' {
        '\u{8}'
    } else if c == 'f' {
        '\u{c}'
    } else if c == 'n' {
        '\n'
    } else if c == 'r' {
        '\r'
    } else if c == 't' {
        '\t'
    } else {
        c
    }
}

/// The text that the characters from one place up to another spell as the inside of a string.
pub open spec fn spelt(t: Seq<char>, i: int, e: int) -> Seq<char>
    decreases e - i,
{
    if i < 0 || i >= e || e > t.len() {
        Seq::empty()
    } else if t[i] != '\\' {
        seq![t[i]] + spelt(t, i + 1, e)
    } else if i + 1 >= e {
        Seq::empty()
    } else if t[i + 1] != 'u' {
        seq![undone(t[i + 1])] + spelt(t, i + 2, e)
    } else if i + 6 <= e {
        seq![coded(t, i + 2)] + spelt(t, i + 6, e)
    } else {
        Seq::empty()
    }
}

fn digit(c: char) -> (r: Option<u8>)
    ensures
        match r {
            Some(n) => digit_of(c) == Some(n as int) && n < 16,
            None => digit_of(c) is None,
        },
{
    if '0' <= c && c <= '9' {
        Some((c as u32 - 48) as u8)
    } else if 'a' <= c && c <= 'f' {
        Some((c as u32 - 87) as u8)
    } else if 'A' <= c && c <= 'F' {
        Some((c as u32 - 55) as u8)
    } else {
        None
    }
}

fn decode(t: &Vec<char>, i: usize) -> (r: char)
    requires
        i + 4 <= t@.len(),
    ensures
        r == coded(t@, i as int),
{
    assert(t@.len() == t.len());
    match (digit(t[i]), digit(t[i + 1]), digit(t[i + 2]), digit(t[i + 3])) {
        (Some(a), Some(b), Some(c), Some(d)) => {
            if a == 0 && b == 0 && c < 8 {
                (16 * c + d) as char
            } else {
                '\u{fffd}'
            }
        },
        _ => '\u{fffd}',
    }
}

fn undo(c: char) -> (r: char)
    ensures
        r == undone(c),
{
    if c == 'b' {
        '\u{8}'
    } else if c == 'f' {
        '\u{c}'
    } else if c == 'n' {
        '\n'
    } else if c == 'r' {
        '\r'
    } else if c == 't' {
        '\t'
    } else {
        c
    }
}

fn spell(t: &Vec<char>, from: usize, e: usize) -> (r: Vec<char>)
    requires
        e <= t@.len(),
    ensures
        r@ == spelt(t@, from as int, e as int),
{
    let mut out: Vec<char> = Vec::new();
    let mut i: usize = from;
    while i < e
        invariant
            e <= t@.len(),
            spelt(t@, from as int, e as int) == out@ + spelt(t@, i as int, e as int),
        decreases e - i,
    {
        let ghost before = out@;
        let ghost rest = spelt(t@, i as int, e as int);
        if t[i] != '\\' {
            out.push(t[i]);
            i = i + 1;
        } else if e - i < 2 {
            assert(out@ + rest =~= out@);
            return out;
        } else if t[i + 1] != 'u' {
            out.push(undo(t[i + 1]));
            i = i + 2;
        } else if e - i >= 6 {
            out.push(decode(t, i + 2));
            i = i + 6;
        } else {
            assert(out@ + rest =~= out@);
            return out;
        }
        assert(before + rest =~= out@ + spelt(t@, i as int, e as int));
    }
    assert(out@ + spelt(t@, i as int, e as int) =~= out@);
    out
}

// ---------------------------------------------------------------------------
// Members and items
// ---------------------------------------------------------------------------

/// The members from one on that begins at a place: their names, and where their values stand.
pub open spec fn members_from(t: Seq<char>, i: int) -> Seq<(Seq<char>, int)>
    decreases t.len() - i,
{
    if !stands(t, i, '"') {
        Seq::empty()
    } else {
        let e = string_end(t, i + 1);
        let v = space_end(t, past(t, space_end(t, e)));
        let m = space_end(t, value_end(t, v, 0));
        let next = space_end(t, past(t, m));
        seq![(spelt(t, i + 1, e - 1), v)] + if stands(t, m, ',') && i < next <= t.len() {
            members_from(t, next)
        } else {
            Seq::empty()
        }
    }
}

/// The members of an object that stands at a place.
pub open spec fn members_at(t: Seq<char>, i: int) -> Seq<(Seq<char>, int)> {
    members_from(t, space_end(t, past(t, i)))
}

/// Where the items stand from one on that begins at a place.
pub open spec fn items_from(t: Seq<char>, i: int) -> Seq<int>
    decreases t.len() - i,
{
    if i < 0 || i >= t.len() || t[i] == ']' {
        Seq::empty()
    } else {
        let m = space_end(t, value_end(t, i, 0));
        let next = space_end(t, past(t, m));
        seq![i] + if stands(t, m, ',') && i < next <= t.len() {
            items_from(t, next)
        } else {
            Seq::empty()
        }
    }
}

/// Where the items of an array stand that stands at a place.
pub open spec fn items_at(t: Seq<char>, i: int) -> Seq<int> {
    items_from(t, space_end(t, past(t, i)))
}

/// What [`Member`]s are: names, and where values stand.
pub open spec fn members_view(ms: Seq<Member>) -> Seq<(Seq<char>, int)> {
    ms.map_values(|m: Member| (m.name@, m.place as int))
}

/// A member of an object: its name, and where its value stands.
pub struct Member {
    pub name: Vec<char>,
    pub place: usize,
}

/// The members of an object that stands at a place.
pub fn members(t: &Vec<char>, at: usize) -> (r: Vec<Member>)
    requires
        at <= t@.len(),
    ensures
        members_view(r@) == members_at(t@, at as int),
        forall|k: int| 0 <= k < r@.len() ==> (#[trigger] r@[k]).place <= t@.len(),
{
    let mut out: Vec<Member> = Vec::new();
    let start: usize = after(t, at);
    let mut i: usize = after_space(t, start);
    let ghost all = members_from(t@, i as int);
    assert(members_view(out@) + all =~= all);
    while i < t.len() && t[i] == '"'
        invariant
            i <= t@.len(),
            members_view(out@) + members_from(t@, i as int) == all,
            forall|k: int| 0 <= k < out@.len() ==> (#[trigger] out@[k]).place <= t@.len(),
            all == members_at(t@, at as int),
        decreases t@.len() - i,
    {
        let ghost before = members_view(out@);
        let ghost here = i as int;
        let e: usize = after_string(t, i + 1);
        let colon: usize = after_space(t, e);
        let value: usize = after(t, colon);
        let v: usize = after_space(t, value);
        let n: usize = after_value(t, v);
        let m: usize = after_space(t, n);
        let past_comma: usize = after(t, m);
        let next: usize = after_space(t, past_comma);
        let inside: usize = if e > i + 1 {
            e - 1
        } else {
            i
        };
        let name: Vec<char> = spell(t, i + 1, inside);
        assert(name@ == spelt(t@, here + 1, e - 1));
        out.push(Member { name, place: v });
        let ghost one = seq![(name@, v as int)];
        assert(members_view(out@) =~= before + one);
        if !is_at(t, m, ',') || next <= i {
            assert(members_from(t@, here) =~= one);
            assert(before + one == all);
            return out;
        }
        assert(members_from(t@, here) == one + members_from(t@, next as int));
        assert(before + (one + members_from(t@, next as int)) =~= (before + one) + members_from(
            t@,
            next as int,
        ));
        i = next;
    }
    assert(members_view(out@) + members_from(t@, i as int) =~= members_view(out@));
    out
}

/// Where the items of an array stand that stands at a place.
pub fn items(t: &Vec<char>, at: usize) -> (r: Vec<usize>)
    requires
        at <= t@.len(),
    ensures
        r@.map_values(|p: usize| p as int) == items_at(t@, at as int),
        forall|k: int| 0 <= k < r@.len() ==> (#[trigger] r@[k]) <= t@.len(),
{
    let mut out: Vec<usize> = Vec::new();
    let start: usize = after(t, at);
    let mut i: usize = after_space(t, start);
    let ghost all = items_from(t@, i as int);
    assert(out@.map_values(|p: usize| p as int) + all =~= all);
    while i < t.len() && !is_at(t, i, ']')
        invariant
            i <= t@.len(),
            out@.map_values(|p: usize| p as int) + items_from(t@, i as int) == all,
            forall|k: int| 0 <= k < out@.len() ==> (#[trigger] out@[k]) <= t@.len(),
            all == items_at(t@, at as int),
        decreases t@.len() - i,
    {
        let ghost before = out@.map_values(|p: usize| p as int);
        let ghost here = i as int;
        let n: usize = after_value(t, i);
        let m: usize = after_space(t, n);
        let past_comma: usize = after(t, m);
        let next: usize = after_space(t, past_comma);
        out.push(i);
        let ghost one = seq![here];
        assert(out@.map_values(|p: usize| p as int) =~= before + one);
        if !is_at(t, m, ',') || next <= i {
            assert(items_from(t@, here) =~= one);
            assert(before + one == all);
            return out;
        }
        assert(items_from(t@, here) == one + items_from(t@, next as int));
        assert(before + (one + items_from(t@, next as int)) =~= (before + one) + items_from(
            t@,
            next as int,
        ));
        i = next;
    }
    assert(out@.map_values(|p: usize| p as int) + items_from(t@, i as int) =~= out@.map_values(
        |p: usize| p as int,
    ));
    out
}

/// How often a name is given.
pub open spec fn times<T>(ms: Seq<(Seq<char>, T)>, name: Seq<char>) -> nat
    decreases ms.len(),
{
    if ms.len() == 0 {
        0
    } else {
        times(ms.drop_last(), name) + if ms.last().0 == name {
            1nat
        } else {
            0nat
        }
    }
}

/// Whether a name is given at most once.
pub open spec fn once<T>(ms: Seq<(Seq<char>, T)>, name: Seq<char>) -> bool {
    times(ms, name) <= 1
}

/// Where the value of the first member stands that has a name.
pub open spec fn named(ms: Seq<(Seq<char>, int)>, name: Seq<char>) -> Option<int>
    decreases ms.len(),
{
    if ms.len() == 0 {
        None
    } else if ms[0].0 == name {
        Some(ms[0].1)
    } else {
        named(ms.drop_first(), name)
    }
}

/// Where a field stands in what stands at a place: in an object under its name, and in an array as
/// the item at `k`.
pub open spec fn field_place(t: Seq<char>, i: int, name: Seq<char>, k: int) -> Option<int> {
    if stands(t, i, '{') {
        named(members_at(t, i), name)
    } else if stands(t, i, '[') && 0 <= k < items_at(t, i).len() {
        Some(items_at(t, i)[k])
    } else {
        None
    }
}

fn same_chars(a: &Vec<char>, b: &Vec<char>) -> (r: bool)
    ensures
        r == (a@ == b@),
{
    if a.len() != b.len() {
        return false;
    }
    let mut i: usize = 0;
    while i < a.len()
        invariant
            i <= a@.len(),
            a@.len() == b@.len(),
            forall|k: int| 0 <= k < i ==> a@[k] == b@[k],
        decreases a@.len() - i,
    {
        if a[i] != b[i] {
            return false;
        }
        i = i + 1;
    }
    assert(a@ =~= b@);
    true
}

/// Whether a name is given at most once.
pub fn is_once(ms: &Vec<Member>, name: &str) -> (r: bool)
    ensures
        r == once(members_view(ms@), name@),
{
    let want: Vec<char> = chars_of(name);
    let ghost all = members_view(ms@);
    let mut found: bool = false;
    let mut i: usize = 0;
    assert(all.subrange(0, 0).len() == 0);
    while i < ms.len()
        invariant
            i <= ms@.len(),
            want@ == name@,
            all == members_view(ms@),
            times(all.subrange(0, i as int), name@) == (if found {
                1nat
            } else {
                0nat
            }),
        decreases ms@.len() - i,
    {
        let ghost part = all.subrange(0, i + 1);
        assert(part.drop_last() =~= all.subrange(0, i as int));
        assert(part.last().0 == ms@[i as int].name@);
        if same_chars(&ms[i].name, &want) {
            if found {
                proof {
                    lemma_times_grow(all, i + 1, name@);
                }
                return false;
            }
            found = true;
        }
        i = i + 1;
    }
    assert(all.subrange(0, all.len() as int) =~= all);
    true
}

proof fn lemma_times_grow<T>(ms: Seq<(Seq<char>, T)>, n: int, name: Seq<char>)
    requires
        0 <= n <= ms.len(),
    ensures
        times(ms.subrange(0, n), name) <= times(ms, name),
    decreases ms.len(),
{
    if n == ms.len() {
        assert(ms.subrange(0, n) =~= ms);
    } else {
        assert(ms.drop_last().subrange(0, n) =~= ms.subrange(0, n));
        lemma_times_grow(ms.drop_last(), n, name);
    }
}

fn place_named(ms: &Vec<Member>, name: &str) -> (r: Option<usize>)
    ensures
        match r {
            Some(p) => named(members_view(ms@), name@) == Some(p as int) && exists|k: int|
                0 <= k < ms@.len() && (#[trigger] ms@[k]).place == p,
            None => named(members_view(ms@), name@) is None,
        },
{
    let want: Vec<char> = chars_of(name);
    let ghost all = members_view(ms@);
    let mut i: usize = 0;
    assert(all.subrange(0, all.len() as int) =~= all);
    while i < ms.len()
        invariant
            i <= ms@.len(),
            want@ == name@,
            all == members_view(ms@),
            named(all, name@) == named(all.subrange(i as int, all.len() as int), name@),
        decreases ms@.len() - i,
    {
        let ghost rest = all.subrange(i as int, all.len() as int);
        assert(rest.drop_first() =~= all.subrange(i + 1, all.len() as int));
        assert(rest[0] == (ms@[i as int].name@, ms@[i as int].place as int));
        if same_chars(&ms[i].name, &want) {
            return Some(ms[i].place);
        }
        i = i + 1;
    }
    None
}

/// Where a field stands in what stands at a place.
pub fn place_of_field(t: &Vec<char>, i: usize, name: &str, k: usize) -> (r: Option<usize>)
    requires
        i <= t@.len(),
    ensures
        match r {
            Some(p) => field_place(t@, i as int, name@, k as int) == Some(p as int) && p
                <= t@.len(),
            None => field_place(t@, i as int, name@, k as int) is None,
        },
{
    if is_at(t, i, '{') {
        let ms: Vec<Member> = members(t, i);
        place_named(&ms, name)
    } else if is_at(t, i, '[') {
        let ps: Vec<usize> = items(t, i);
        assert(items_at(t@, i as int).len() == ps@.len());
        if k < ps.len() {
            Some(ps[k])
        } else {
            None
        }
    } else {
        None
    }
}

// ---------------------------------------------------------------------------
// Texts that were written
// ---------------------------------------------------------------------------

/// Whether a text stands in another at a place.
pub open spec fn text_at(t: Seq<char>, i: int, s: Seq<char>) -> bool {
    0 <= i && i + s.len() <= t.len() && t.subrange(i, i + s.len()) == s
}

/// Whether a value ends at a place, by what stands there.
pub open spec fn ends_at(t: Seq<char>, i: int) -> bool {
    i == t.len() || stands(t, i, ',') || stands(t, i, '}') || stands(t, i, ']')
}

/// Whether no number is part of a value.
pub open spec fn worded(v: JsonV) -> bool
    decreases v,
{
    match v {
        JsonV::Number(n) => false,
        JsonV::Array(a) => worded_items(a),
        JsonV::Object(o) => worded_entries(o),
        _ => true,
    }
}

/// Whether no number is part of some values.
pub open spec fn worded_items(a: Seq<JsonV>) -> bool
    decreases a,
{
    a.len() == 0 || (worded_items(a.drop_last()) && worded(a.last()))
}

/// Whether no number is part of the values of some entries.
pub open spec fn worded_entries(o: Seq<(Seq<char>, JsonV)>) -> bool
    decreases o,
{
    o.len() == 0 || (worded_entries(o.drop_last()) && worded(o.last().1))
}

/// Whether a name is written in a string as it is.
pub open spec fn plainly_written(s: Seq<char>) -> bool {
    forall|i: int| 0 <= i < s.len() ==> escaped(#[trigger] s[i]) == seq![s[i]] && s[i] != '\\'
}

proof fn lemma_parts(t: Seq<char>, i: int, a: Seq<char>, b: Seq<char>)
    requires
        text_at(t, i, a + b),
    ensures
        text_at(t, i, a),
        text_at(t, i + a.len(), b),
{
    let s = a + b;
    let whole = t.subrange(i, i + s.len());
    assert forall|k: int| 0 <= k < a.len() implies t[i + k] == a[k] by {
        assert(whole[k] == t[i + k]);
    }
    assert forall|k: int| 0 <= k < b.len() implies t[i + a.len() + k] == b[k] by {
        assert(whole[a.len() + k] == t[i + a.len() + k]);
    }
    assert(t.subrange(i, i + a.len()) =~= a);
    assert(t.subrange(i + a.len(), i + a.len() + b.len()) =~= b);
}

proof fn lemma_char(t: Seq<char>, i: int, s: Seq<char>, k: int)
    requires
        text_at(t, i, s),
        0 <= k < s.len(),
    ensures
        t[i + k] == s[k],
{
    assert(t.subrange(i, i + s.len())[k] == t[i + k]);
}

proof fn lemma_escaped_char(t: Seq<char>, i: int, c: char)
    requires
        text_at(t, i, escaped(c)),
    ensures
        string_end(t, i) == string_end(t, i + escaped(c).len()),
{
    reveal_with_fuel(string_end, 7);
    let s = escaped(c);
    assert forall|k: int| 0 <= k < s.len() implies t[i + k] == s[k] by {
        lemma_char(t, i, s, k);
    }
    assert(t[i + 0] == s[0]);
    if s.len() == 2 {
        assert(t[i + 1] == s[1]);
    } else if s.len() == 6 {
        assert(t[i + 1] == s[1]);
        assert(t[i + 2] == s[2]);
        assert(t[i + 3] == s[3]);
        assert(t[i + 4] == s[4]);
        assert(t[i + 5] == s[5]);
    }
}

proof fn lemma_escaped_text(t: Seq<char>, i: int, s: Seq<char>)
    requires
        text_at(t, i, all_escaped(s)),
    ensures
        string_end(t, i) == string_end(t, i + all_escaped(s).len()),
    decreases s.len(),
{
    if s.len() > 0 {
        let front = s.drop_last();
        lemma_parts(t, i, all_escaped(front), escaped(s.last()));
        lemma_escaped_text(t, i, front);
        lemma_escaped_char(t, i + all_escaped(front).len(), s.last());
    }
}

proof fn lemma_quoted(t: Seq<char>, i: int, s: Seq<char>)
    requires
        text_at(t, i, json_quoted(s)),
    ensures
        stands(t, i, '"'),
        string_end(t, i + 1) == i + json_quoted(s).len(),
        text_at(t, i + 1, all_escaped(s)),
        json_quoted(s).len() == all_escaped(s).len() + 2,
{
    let q = seq!['"'];
    lemma_parts(t, i, q + all_escaped(s), q);
    lemma_parts(t, i, q, all_escaped(s));
    lemma_char(t, i, q, 0);
    lemma_escaped_text(t, i + 1, s);
    lemma_char(t, i + 1 + all_escaped(s).len(), q, 0);
}

proof fn lemma_plainly_escaped(s: Seq<char>)
    requires
        plainly_written(s),
    ensures
        all_escaped(s) == s,
    decreases s.len(),
{
    if s.len() > 0 {
        let front = s.drop_last();
        assert forall|i: int| 0 <= i < front.len() implies escaped(#[trigger] front[i]) == seq![
            front[i],
        ] && front[i] != '\\' by {
            assert(front[i] == s[i]);
        }
        lemma_plainly_escaped(front);
        assert(s[s.len() - 1] == s.last());
        assert(front + seq![s.last()] =~= s);
    } else {
        assert(all_escaped(s) =~= s);
    }
}

proof fn lemma_plainly_spelt(t: Seq<char>, i: int, s: Seq<char>)
    requires
        plainly_written(s),
        text_at(t, i, s),
    ensures
        spelt(t, i, i + s.len()) == s,
    decreases s.len(),
{
    if s.len() > 0 {
        let rest = s.drop_first();
        assert(seq![s[0]] + rest =~= s);
        lemma_parts(t, i, seq![s[0]], rest);
        lemma_char(t, i, s, 0);
        assert forall|k: int| 0 <= k < rest.len() implies escaped(#[trigger] rest[k]) == seq![
            rest[k],
        ] && rest[k] != '\\' by {
            assert(rest[k] == s[k + 1]);
        }
        lemma_plainly_spelt(t, i + 1, rest);
        assert(s[0] != '\\');
    } else {
        assert(spelt(t, i, i + s.len()) =~= s);
    }
}

proof fn lemma_word(t: Seq<char>, i: int, s: Seq<char>, depth: nat)
    requires
        text_at(t, i, s),
        forall|k: int| 0 <= k < s.len() ==> 'a' <= #[trigger] s[k] <= 'z',
    ensures
        value_end(t, i, depth) == value_end(t, i + s.len(), depth),
    decreases s.len(),
{
    if s.len() > 0 {
        let rest = s.drop_first();
        assert(seq![s[0]] + rest =~= s);
        lemma_parts(t, i, seq![s[0]], rest);
        lemma_char(t, i, s, 0);
        assert forall|k: int| 0 <= k < rest.len() implies 'a' <= #[trigger] rest[k] <= 'z' by {
            assert(rest[k] == s[k + 1]);
        }
        lemma_word(t, i + 1, rest, depth);
    }
}

proof fn lemma_value(v: JsonV, t: Seq<char>, i: int, depth: nat)
    requires
        worded(v),
        text_at(t, i, json_text(v)),
        depth == 0 ==> ends_at(t, i + json_text(v).len()),
    ensures
        value_end(t, i, depth) == (if depth == 0 {
            i + json_text(v).len()
        } else {
            value_end(t, i + json_text(v).len(), depth)
        }),
        json_text(v).len() > 0,
        !between(t[i]) && t[i] != ']' && t[i] != '}',
    decreases v, 1nat,
{
    let s = json_text(v);
    match v {
        JsonV::Null => {
            reveal_strlit("null");
            lemma_char(t, i, s, 0);
            lemma_word(t, i, s, depth);
        },
        JsonV::Bool(b) => {
            reveal_strlit("true");
            reveal_strlit("false");
            lemma_char(t, i, s, 0);
            lemma_word(t, i, s, depth);
        },
        JsonV::Number(n) => {},
        JsonV::String(x) => {
            lemma_quoted(t, i, x);
        },
        JsonV::Array(a) => {
            reveal_strlit("[");
            reveal_strlit("]");
            lemma_parts(t, i, "["@ + items_text(a), "]"@);
            lemma_parts(t, i, "["@, items_text(a));
            lemma_char(t, i, "["@, 0);
            lemma_char(t, i + 1 + items_text(a).len(), "]"@, 0);
            lemma_values(a, t, i + 1, depth + 1);
        },
        JsonV::Object(o) => {
            reveal_strlit("{");
            reveal_strlit("}");
            lemma_parts(t, i, "{"@ + entries_text(o), "}"@);
            lemma_parts(t, i, "{"@, entries_text(o));
            lemma_char(t, i, "{"@, 0);
            lemma_char(t, i + 1 + entries_text(o).len(), "}"@, 0);
            lemma_entries(o, t, i + 1, depth + 1);
        },
    }
}

proof fn lemma_values(a: Seq<JsonV>, t: Seq<char>, i: int, depth: nat)
    requires
        worded_items(a),
        text_at(t, i, items_text(a)),
        depth > 0,
    ensures
        value_end(t, i, depth) == value_end(t, i + items_text(a).len(), depth),
    decreases a, 0nat,
{
    if a.len() == 1 {
        lemma_value(a[0], t, i, depth);
    } else if a.len() > 1 {
        let front = items_text(a.drop_last());
        let last = json_text(a.last());
        reveal_strlit(",");
        lemma_parts(t, i, front + ","@, last);
        lemma_parts(t, i, front, ","@);
        lemma_char(t, i + front.len(), ","@, 0);
        lemma_values(a.drop_last(), t, i, depth);
        lemma_value(a.last(), t, i + front.len() + 1, depth);
    }
}

proof fn lemma_entry(key: Seq<char>, v: JsonV, t: Seq<char>, i: int, depth: nat)
    requires
        worded(v),
        text_at(t, i, json_quoted(key) + ":"@ + json_text(v)),
        depth > 0,
    ensures
        value_end(t, i, depth) == value_end(
            t,
            i + (json_quoted(key) + ":"@ + json_text(v)).len(),
            depth,
        ),
    decreases v, 2nat,
{
    let q = json_quoted(key);
    reveal_strlit(":");
    lemma_parts(t, i, q + ":"@, json_text(v));
    lemma_parts(t, i, q, ":"@);
    lemma_quoted(t, i, key);
    lemma_char(t, i + q.len(), ":"@, 0);
    lemma_value(v, t, i + q.len() + 1, depth);
    assert(value_end(t, i, depth) == value_end(t, i + q.len(), depth));
    assert(value_end(t, i + q.len(), depth) == value_end(t, i + q.len() + 1, depth));
}

proof fn lemma_entries(o: Seq<(Seq<char>, JsonV)>, t: Seq<char>, i: int, depth: nat)
    requires
        worded_entries(o),
        text_at(t, i, entries_text(o)),
        depth > 0,
    ensures
        value_end(t, i, depth) == value_end(t, i + entries_text(o).len(), depth),
    decreases o, 0nat,
{
    if o.len() == 1 {
        assert(o[0] == o.last());
        lemma_entry(o[0].0, o[0].1, t, i, depth);
    } else if o.len() > 1 {
        let front = entries_text(o.drop_last());
        let last = json_quoted(o.last().0) + ":"@ + json_text(o.last().1);
        reveal_strlit(",");
        lemma_parts(t, i, front + ","@, last);
        lemma_parts(t, i, front, ","@);
        lemma_char(t, i + front.len(), ","@, 0);
        lemma_entries(o.drop_last(), t, i, depth);
        lemma_entry(o.last().0, o.last().1, t, i + front.len() + 1, depth);
    }
}

proof fn lemma_first_entries(o: Seq<(Seq<char>, JsonV)>, t: Seq<char>, i: int, n: int)
    requires
        text_at(t, i, entries_text(o)),
        0 <= n <= o.len(),
    ensures
        text_at(t, i, entries_text(o.take(n))),
        0 < n < o.len() ==> stands(t, i + entries_text(o.take(n)).len(), ','),
    decreases o.len() - n,
{
    if n == o.len() {
        assert(o.take(n) =~= o);
    } else {
        let more = o.take(n + 1);
        lemma_first_entries(o, t, i, n + 1);
        assert(more.drop_last() =~= o.take(n));
        if n > 0 {
            let front = entries_text(o.take(n));
            reveal_strlit(",");
            lemma_parts(
                t,
                i,
                front + ","@,
                json_quoted(more.last().0) + ":"@ + json_text(more.last().1),
            );
            lemma_parts(t, i, front, ","@);
            lemma_char(t, i + front.len(), ","@, 0);
        } else {
            assert(t.subrange(i, i) =~= entries_text(o.take(0)));
        }
    }
}

proof fn lemma_worded_entry(o: Seq<(Seq<char>, JsonV)>, k: int)
    requires
        worded_entries(o),
        0 <= k < o.len(),
    ensures
        worded(o[k].1),
    decreases o.len(),
{
    if k < o.len() - 1 {
        assert(o.drop_last()[k] == o[k]);
        lemma_worded_entry(o.drop_last(), k);
    }
}

/// Whether members are those of some entries that were written, from the `k`-th on.
pub open spec fn members_of(
    ms: Seq<(Seq<char>, int)>,
    t: Seq<char>,
    o: Seq<(Seq<char>, JsonV)>,
    k: int,
) -> bool {
    &&& ms.len() == o.len() - k
    &&& forall|j: int|
        0 <= j < ms.len() ==> {
            &&& (#[trigger] ms[j]).0 == o[k + j].0
            &&& text_at(t, ms[j].1, json_text(o[k + j].1))
            &&& ends_at(t, ms[j].1 + json_text(o[k + j].1).len())
            &&& worded(o[k + j].1)
        }
}

proof fn lemma_members_from(o: Seq<(Seq<char>, JsonV)>, t: Seq<char>, i: int, k: int, at: int)
    requires
        0 <= k < o.len(),
        worded_entries(o),
        forall|j: int| 0 <= j < o.len() ==> plainly_written((#[trigger] o[j]).0),
        text_at(t, i, entries_text(o)),
        stands(t, i + entries_text(o).len(), '}'),
        at == i + entries_text(o.take(k)).len() + (if k > 0 {
            1int
        } else {
            0int
        }),
    ensures
        members_of(members_from(t, at), t, o, k),
        stands(t, at, '"'),
    decreases o.len() - k,
{
    let key = o[k].0;
    let v = o[k].1;
    let q = json_quoted(key);
    let front = entries_text(o.take(k));
    let more = o.take(k + 1);
    let own = q + ":"@ + json_text(v);
    let end = i + entries_text(more).len();
    assert(more.drop_last() =~= o.take(k));
    assert(more.last() == o[k]);
    reveal_strlit(":");
    reveal_strlit(",");
    lemma_first_entries(o, t, i, k + 1);
    lemma_worded_entry(o, k);
    if k > 0 {
        lemma_parts(t, i, front + ","@, own);
    } else {
        assert(o.take(0).len() == 0);
        assert(more[0] == o[0]);
    }
    assert(text_at(t, at, own));
    assert(end == at + own.len());
    lemma_parts(t, at, q + ":"@, json_text(v));
    lemma_parts(t, at, q, ":"@);
    lemma_quoted(t, at, key);
    lemma_plainly_escaped(key);
    lemma_plainly_spelt(t, at + 1, key);
    let e = at + q.len();
    lemma_char(t, e, ":"@, 0);
    if k + 1 == o.len() {
        assert(more =~= o);
    }
    assert(ends_at(t, end));
    lemma_value(v, t, e + 1, 0);
    assert(string_end(t, at + 1) == e);
    assert(space_end(t, e) == e);
    assert(space_end(t, e + 1) == e + 1);
    assert(value_end(t, e + 1, 0) == end);
    assert(space_end(t, end) == end);
    let ms = members_from(t, at);
    let one = seq![(key, e + 1)];
    if k + 1 < o.len() {
        lemma_members_from(o, t, i, k + 1, end + 1);
        assert(space_end(t, end + 1) == end + 1);
        let rest = members_from(t, end + 1);
        assert(ms == one + rest);
        assert forall|j: int| 0 <= j < ms.len() implies {
            &&& (#[trigger] ms[j]).0 == o[k + j].0
            &&& text_at(t, ms[j].1, json_text(o[k + j].1))
            &&& ends_at(t, ms[j].1 + json_text(o[k + j].1).len())
            &&& worded(o[k + j].1)
        } by {
            if j > 0 {
                assert(ms[j] == rest[j - 1]);
                assert(o[k + j] == o[(k + 1) + (j - 1)]);
            }
        }
    } else {
        assert(ms =~= one);
    }
}

/// The members of an object that was written are found by their names, if these are plain.
pub proof fn written_members_are_found(o: Seq<(Seq<char>, JsonV)>, t: Seq<char>, i: int)
    requires
        worded_entries(o),
        forall|j: int| 0 <= j < o.len() ==> plainly_written((#[trigger] o[j]).0),
        text_at(t, i, json_text(JsonV::Object(o))),
    ensures
        stands(t, i, '{'),
        members_of(members_at(t, i), t, o, 0),
{
    reveal_strlit("{");
    reveal_strlit("}");
    lemma_parts(t, i, "{"@ + entries_text(o), "}"@);
    lemma_parts(t, i, "{"@, entries_text(o));
    lemma_char(t, i, "{"@, 0);
    lemma_char(t, i + 1 + entries_text(o).len(), "}"@, 0);
    if o.len() > 0 {
        assert(o.take(0) =~= Seq::empty());
        lemma_members_from(o, t, i + 1, 0, i + 1);
        assert(space_end(t, i + 1) == i + 1);
    } else {
        assert(space_end(t, i + 1) == i + 1);
    }
}

proof fn lemma_first_items(a: Seq<JsonV>, t: Seq<char>, i: int, n: int)
    requires
        text_at(t, i, items_text(a)),
        0 <= n <= a.len(),
    ensures
        text_at(t, i, items_text(a.take(n))),
        0 < n < a.len() ==> stands(t, i + items_text(a.take(n)).len(), ','),
    decreases a.len() - n,
{
    if n == a.len() {
        assert(a.take(n) =~= a);
    } else {
        let more = a.take(n + 1);
        lemma_first_items(a, t, i, n + 1);
        assert(more.drop_last() =~= a.take(n));
        if n > 0 {
            let front = items_text(a.take(n));
            reveal_strlit(",");
            lemma_parts(t, i, front + ","@, json_text(more.last()));
            lemma_parts(t, i, front, ","@);
            lemma_char(t, i + front.len(), ","@, 0);
        } else {
            assert(t.subrange(i, i) =~= items_text(a.take(0)));
        }
    }
}

proof fn lemma_worded_item(a: Seq<JsonV>, k: int)
    requires
        worded_items(a),
        0 <= k < a.len(),
    ensures
        worded(a[k]),
    decreases a.len(),
{
    if k < a.len() - 1 {
        assert(a.drop_last()[k] == a[k]);
        lemma_worded_item(a.drop_last(), k);
    }
}

/// Whether places are those of some values that were written, from the `k`-th on.
pub open spec fn items_of(places: Seq<int>, t: Seq<char>, a: Seq<JsonV>, k: int) -> bool {
    &&& places.len() == a.len() - k
    &&& forall|j: int|
        0 <= j < places.len() ==> {
            &&& text_at(t, #[trigger] places[j], json_text(a[k + j]))
            &&& worded(a[k + j])
        }
}

proof fn lemma_items_from(a: Seq<JsonV>, t: Seq<char>, i: int, k: int, at: int)
    requires
        0 <= k < a.len(),
        worded_items(a),
        text_at(t, i, items_text(a)),
        stands(t, i + items_text(a).len(), ']'),
        at == i + items_text(a.take(k)).len() + (if k > 0 {
            1int
        } else {
            0int
        }),
    ensures
        items_of(items_from(t, at), t, a, k),
        0 <= at < t.len() && !between(t[at]),
    decreases a.len() - k,
{
    let v = a[k];
    let front = items_text(a.take(k));
    let more = a.take(k + 1);
    let end = i + items_text(more).len();
    assert(more.drop_last() =~= a.take(k));
    assert(more.last() == a[k]);
    reveal_strlit(",");
    lemma_first_items(a, t, i, k + 1);
    lemma_worded_item(a, k);
    if k > 0 {
        lemma_parts(t, i, front + ","@, json_text(v));
    } else {
        assert(a.take(0).len() == 0);
        assert(more[0] == a[0]);
    }
    assert(text_at(t, at, json_text(v)));
    assert(end == at + json_text(v).len());
    if k + 1 == a.len() {
        assert(more =~= a);
    }
    assert(ends_at(t, end));
    lemma_value(v, t, at, 0);
    assert(space_end(t, end) == end);
    let ps = items_from(t, at);
    let one = seq![at];
    if k + 1 < a.len() {
        lemma_items_from(a, t, i, k + 1, end + 1);
        assert(space_end(t, end + 1) == end + 1);
        let rest = items_from(t, end + 1);
        assert(ps == one + rest);
        assert forall|j: int| 0 <= j < ps.len() implies {
            &&& text_at(t, #[trigger] ps[j], json_text(a[k + j]))
            &&& worded(a[k + j])
        } by {
            if j > 0 {
                assert(ps[j] == rest[j - 1]);
                assert(a[k + j] == a[(k + 1) + (j - 1)]);
            }
        }
    } else {
        assert(ps =~= one);
    }
}

/// The items of an array that was written are found.
pub proof fn written_items_are_found(a: Seq<JsonV>, t: Seq<char>, i: int)
    requires
        worded_items(a),
        text_at(t, i, json_text(JsonV::Array(a))),
    ensures
        stands(t, i, '['),
        items_of(items_at(t, i), t, a, 0),
{
    reveal_strlit("[");
    reveal_strlit("]");
    lemma_parts(t, i, "["@ + items_text(a), "]"@);
    lemma_parts(t, i, "["@, items_text(a));
    lemma_char(t, i, "["@, 0);
    lemma_char(t, i + 1 + items_text(a).len(), "]"@, 0);
    if a.len() > 0 {
        assert(a.take(0) =~= Seq::empty());
        lemma_items_from(a, t, i + 1, 0, i + 1);
        assert(space_end(t, i + 1) == i + 1);
    } else {
        assert(space_end(t, i + 1) == i + 1);
    }
}

/// A string that was written begins with a quote.
pub proof fn written_strings_begin_with_a_quote(t: Seq<char>, i: int, s: Seq<char>)
    requires
        text_at(t, i, json_text(JsonV::String(s))),
    ensures
        stands(t, i, '"'),
{
    lemma_quoted(t, i, s);
}

/// How often a name is given by two lists, one after the other.
pub proof fn times_in_both<T>(a: Seq<(Seq<char>, T)>, b: Seq<(Seq<char>, T)>, name: Seq<char>)
    ensures
        times(a + b, name) == times(a, name) + times(b, name),
    decreases b.len(),
{
    if b.len() == 0 {
        assert(a + b =~= a);
    } else {
        assert((a + b).drop_last() =~= a + b.drop_last());
        times_in_both(a, b.drop_last(), name);
    }
}

/// Members that were written have the names of the entries that were written.
pub proof fn written_members_have_their_names(
    ms: Seq<(Seq<char>, int)>,
    t: Seq<char>,
    o: Seq<(Seq<char>, JsonV)>,
    name: Seq<char>,
)
    requires
        members_of(ms, t, o, 0),
    ensures
        times(ms, name) == times(o, name),
    decreases ms.len(),
{
    if ms.len() > 0 {
        let a = ms.drop_last();
        let b = o.drop_last();
        assert(ms.last() == ms[ms.len() - 1]);
        assert forall|j: int| 0 <= j < a.len() implies {
            &&& (#[trigger] a[j]).0 == b[0 + j].0
            &&& text_at(t, a[j].1, json_text(b[0 + j].1))
            &&& ends_at(t, a[j].1 + json_text(b[0 + j].1).len())
            &&& worded(b[0 + j].1)
        } by {
            assert(a[j] == ms[j]);
        }
        written_members_have_their_names(a, t, b, name);
    }
}

/// A member that was written stands where it is looked for by its name.
pub proof fn written_members_are_named(
    ms: Seq<(Seq<char>, int)>,
    t: Seq<char>,
    o: Seq<(Seq<char>, JsonV)>,
    k: int,
    name: Seq<char>,
)
    requires
        0 <= k <= o.len(),
        members_of(ms, t, o, k),
    ensures
        match named(ms, name) {
            Some(p) => {
                &&& object_get(o.skip(k), name) is Some
                &&& text_at(t, p, json_text(object_get(o.skip(k), name)->0))
                &&& worded(object_get(o.skip(k), name)->0)
            },
            None => object_get(o.skip(k), name) is None,
        },
    decreases ms.len(),
{
    if ms.len() > 0 {
        let rest = ms.drop_first();
        assert(o.skip(k)[0] == o[k]);
        assert(o.skip(k).drop_first() =~= o.skip(k + 1));
        assert(ms[0].0 == o[k + 0].0);
        assert forall|j: int| 0 <= j < rest.len() implies {
            &&& (#[trigger] rest[j]).0 == o[k + 1 + j].0
            &&& text_at(t, rest[j].1, json_text(o[k + 1 + j].1))
            &&& ends_at(t, rest[j].1 + json_text(o[k + 1 + j].1).len())
            &&& worded(o[k + 1 + j].1)
        } by {
            assert(rest[j] == ms[j + 1]);
            assert(o[k + 1 + j] == o[k + (j + 1)]);
        }
        written_members_are_named(rest, t, o, k + 1, name);
    }
}

/// How often a name stands among members.
pub proof fn members_are_counted_by_name<T>(ms: Seq<(Seq<char>, T)>, name: Seq<char>, m: (Seq<char>, T))
    ensures
        times(Seq::<(Seq<char>, T)>::empty(), name) == 0,
        m.0 == name ==> times(ms.push(m), name) == times(ms, name) + 1,
        m.0 != name ==> times(ms.push(m), name) == times(ms, name),
{
    assert(ms.push(m).drop_last() =~= ms);
}

/// Between the parts of a text stand blanks, line ends and tabs, and nothing else.
pub proof fn blanks_are_these(c: char)
    ensures
        between(c) <==> c == ' ' || c == '\n' || c == '\t' || c == '\r',
{
}

/// A string ends behind the first quote that no backslash stands before.
pub proof fn strings_end_at_their_quote(t: Seq<char>, i: int)
    requires
        0 <= i < t.len(),
    ensures
        t[i] == '"' ==> string_end(t, i) == i + 1,
        t[i] != '"' && t[i] != '\\' ==> string_end(t, i) == string_end(t, i + 1),
        t[i] == '\\' && i + 1 < t.len() ==> string_end(t, i) == string_end(t, i + 2),
{
}

} // verus!
