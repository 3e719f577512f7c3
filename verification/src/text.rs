//! Character-level helpers shared by the parsers and the string builders.
use vstd::prelude::*;

verus! {

/// The characters of `s`, in order.
pub fn chars_of(s: &str) -> (v: Vec<char>)
    ensures
        v@ == s@,
{
    let mut v: Vec<char> = Vec::new();
    for c in it: s.chars()
        invariant
            v@ == it.seq().take(it.index() as int),
            it.seq() == s@,
    {
        v.push(c);
    }
    v
}

/// Appends one character to a `String` (std's `String::push`).
#[verifier::external_body]
pub(crate) fn push_char(s: &mut String, c: char)
    ensures
        final(s)@ == old(s)@.push(c),
{
    s.push(c);
}

/// Appends every character of `v` to `s`.
pub fn push_chars(s: &mut String, v: &Vec<char>)
    ensures
        final(s)@ == old(s)@ + v@,
{
    let ghost start = s@;
    for i in 0..v.len()
        invariant
            s@ == start + v@.take(i as int),
    {
        push_char(s, v[i]);
        assert(v@.take(i as int).push(v@[i as int]) == v@.take(i + 1));
    }
    assert(v@.take(v.len() as int) == v@);
}

/// A `String` holding exactly the characters of `v`.
pub fn string_of(v: &Vec<char>) -> (s: String)
    ensures
        s@ == v@,
{
    let mut s = String::new();
    push_chars(&mut s, v);
    s
}

/// ASCII letters and digits (`char::is_ascii_alphanumeric`).
pub open spec fn is_ascii_alnum(c: char) -> bool {
    ||| ('0' <= c && c <= '9')
    ||| ('a' <= c && c <= 'z')
    ||| ('A' <= c && c <= 'Z')
}

pub fn ascii_alnum(c: char) -> (b: bool)
    ensures
        b == is_ascii_alnum(c),
{
    ('0' <= c && c <= '9') || ('a' <= c && c <= 'z') || ('A' <= c && c <= 'Z')
}

/// `char::to_ascii_lowercase`: ASCII capitals become small letters, all else is kept.
pub open spec fn ascii_lower(c: char) -> char {
    if 'A' <= c && c <= 'Z' {
        ((c as u32) + 32) as char
    } else {
        c
    }
}

pub fn to_ascii_lower(c: char) -> (d: char)
    ensures
        d == ascii_lower(c),
{
    if 'A' <= c && c <= 'Z' {
        let u: u8 = (c as u8) + 32;
        assert(u as u32 == (c as u32) + 32);
        u as char
    } else {
        c
    }
}

/// `str::eq_ignore_ascii_case`: same length, and equal after ASCII lowercasing.
pub open spec fn eq_ignore_ascii_case(a: Seq<char>, b: Seq<char>) -> bool {
    a.len() == b.len() && forall|i: int| 0 <= i < a.len() ==> ascii_lower(#[trigger] a[i]) == ascii_lower(b[i])
}

pub fn chars_eq_ignore_ascii_case(a: &Vec<char>, b: &Vec<char>) -> (r: bool)
    ensures
        r == eq_ignore_ascii_case(a@, b@),
{
    if a.len() != b.len() {
        return false;
    }
    let mut i: usize = 0;
    while i < a.len()
        invariant
            a.len() == b.len(),
            i <= a.len(),
            forall|j: int| 0 <= j < i ==> ascii_lower(#[trigger] a@[j]) == ascii_lower(b@[j]),
        decreases a.len() - i,
    {
        if to_ascii_lower(a[i]) != to_ascii_lower(b[i]) {
            return false;
        }
        i = i + 1;
    }
    true
}

/// Exact equality of two character sequences.
pub fn chars_eq(a: &Vec<char>, b: &Vec<char>) -> (r: bool)
    ensures
        r == (a@ == b@),
{
    if a.len() != b.len() {
        return false;
    }
    let mut i: usize = 0;
    while i < a.len()
        invariant
            a.len() == b.len(),
            i <= a.len(),
            forall|j: int| 0 <= j < i ==> a@[j] == b@[j],
        decreases a.len() - i,
    {
        if a[i] != b[i] {
            return false;
        }
        i = i + 1;
    }
    assert(a@ =~= b@);
    true
}

/// Names are compared ignoring ASCII case and nothing else: two strings
/// match exactly when they have the same length and, place by place, the
/// same character or the small and capital forms of one ASCII letter.
pub proof fn law_ascii_case_comparison(a: Seq<char>, b: Seq<char>)
    ensures
        eq_ignore_ascii_case(a, b) <==> (a.len() == b.len() && forall|i: int|
            0 <= i < a.len() ==> {
                ||| #[trigger] a[i] == b[i]
                ||| ('a' <= a[i] <= 'z' && (b[i] as u32) + 32 == a[i] as u32)
                ||| ('A' <= a[i] <= 'Z' && (a[i] as u32) + 32 == b[i] as u32)
            }),
{
    assert forall|x: char, y: char| #[trigger] ascii_lower(x) == #[trigger] ascii_lower(y) <==> {
        ||| x == y
        ||| ('a' <= x <= 'z' && (y as u32) + 32 == x as u32)
        ||| ('A' <= x <= 'Z' && (x as u32) + 32 == y as u32)
    } by {
        assert(ascii_lower(x) as u32 == if 'A' <= x <= 'Z' { x as u32 + 32 } else { x as u32 as int });
        assert(ascii_lower(y) as u32 == if 'A' <= y <= 'Z' { y as u32 + 32 } else { y as u32 as int });
    }
}

} // verus!
