//! The render options that name colors: the color scheme and the background.
use vstd::prelude::*;

use crate::error::RenderError;
use crate::text::chars_of;

verus! {

/// The color scheme a document is rendered in (`prefers-color-scheme`).
#[derive(Debug, Clone, Copy, PartialEq, Eq, Structural)]
pub enum ColorScheme {
    Light,
    Dark,
}

/// Reads the `color_scheme` option: `light` or `dark`, nothing else.
pub fn parse_color_scheme(s: &str) -> (res: Result<ColorScheme, RenderError>)
    ensures
        s@ == "light"@ ==> res == Ok::<ColorScheme, RenderError>(ColorScheme::Light),
        s@ == "dark"@ ==> res == Ok::<ColorScheme, RenderError>(ColorScheme::Dark),
        s@ != "light"@ && s@ != "dark"@ ==> (res matches Err(RenderError::ColorScheme(m)) && m@ == s@),
{
    proof {
        reveal_strlit("light");
        reveal_strlit("dark");
        assert("light"@.len() != "dark"@.len());
    }
    let v = chars_of(s);
    let light = chars_of("light");
    let dark = chars_of("dark");
    if crate::text::chars_eq(&v, &light) {
        Ok(ColorScheme::Light)
    } else if crate::text::chars_eq(&v, &dark) {
        Ok(ColorScheme::Dark)
    } else {
        Err(RenderError::ColorScheme(s.to_owned()))
    }
}

/// An 8-bit-per-channel RGBA color.
#[derive(Debug, Clone, Copy, PartialEq, Eq, Structural)]
pub struct Rgba8 {
    pub r: u8,
    pub g: u8,
    pub b: u8,
    pub a: u8,
}

/// Why a background string is refused.
pub enum BackgroundFault {
    /// Not of the form `#rgb`, `#rrggbb` or `#rrggbbaa`.
    Format,
    /// The right length, but a field is not a hex number.
    Digit,
}

/// The value of a hex digit (`char::to_digit(16)`).
pub open spec fn hex_value(c: char) -> Option<int> {
    if '0' <= c && c <= '9' {
        Some(c as int - '0' as int)
    } else if 'a' <= c && c <= 'f' {
        Some(c as int - 'a' as int + 10)
    } else if 'A' <= c && c <= 'F' {
        Some(c as int - 'A' as int + 10)
    } else {
        None
    }
}

/// The base-16 value of a string of digits; `None` if one is not a hex digit.
pub open spec fn digits16(d: Seq<char>) -> Option<int>
    decreases d.len(),
{
    if d.len() == 0 {
        Some(0)
    } else {
        match (digits16(d.drop_last()), hex_value(d.last())) {
            (Some(x), Some(y)) => Some(16 * x + y),
            _ => None,
        }
    }
}

/// A field of a hex color: at least one hex digit (nothing else, not even a
/// sign), with a value that fits in a byte.
pub open spec fn hex_field(p: Seq<char>) -> Option<u8> {
    if p.len() == 0 {
        None
    } else {
        match digits16(p) {
            Some(v) => if v <= 255 { Some(v as u8) } else { None },
            None => None,
        }
    }
}

/// Every character is ASCII (`str::is_ascii`).
pub open spec fn is_ascii_text(h: Seq<char>) -> bool {
    forall|j: int| 0 <= j < h.len() ==> #[trigger] h[j] <= '\u{7f}'
}

/// The string with one leading `#` removed, if it has one.
pub open spec fn strip_hash(s: Seq<char>) -> Seq<char> {
    if s.len() > 0 && s[0] == '#' { s.drop_first() } else { s }
}

/// The color a background string names: `#rgb` (each digit `d` standing for
/// `d * 17`), `#rrggbb` (opaque) or `#rrggbbaa`; the `#` may be left out.
pub open spec fn background_color(s: Seq<char>) -> Result<Rgba8, BackgroundFault> {
    let h = strip_hash(s);
    if !is_ascii_text(h) {
        Err(BackgroundFault::Format)
    } else if h.len() == 3 {
        match (hex_field(h.subrange(0, 1)), hex_field(h.subrange(1, 2)), hex_field(h.subrange(2, 3))) {
            (Some(r), Some(g), Some(b)) => Ok(Rgba8 { r: (r * 17) as u8, g: (g * 17) as u8, b: (b * 17) as u8, a: 255 }),
            _ => Err(BackgroundFault::Digit),
        }
    } else if h.len() == 6 {
        match (hex_field(h.subrange(0, 2)), hex_field(h.subrange(2, 4)), hex_field(h.subrange(4, 6))) {
            (Some(r), Some(g), Some(b)) => Ok(Rgba8 { r, g, b, a: 255 }),
            _ => Err(BackgroundFault::Digit),
        }
    } else if h.len() == 8 {
        match (
            hex_field(h.subrange(0, 2)),
            hex_field(h.subrange(2, 4)),
            hex_field(h.subrange(4, 6)),
            hex_field(h.subrange(6, 8)),
        ) {
            (Some(r), Some(g), Some(b), Some(a)) => Ok(Rgba8 { r, g, b, a }),
            _ => Err(BackgroundFault::Digit),
        }
    } else {
        Err(BackgroundFault::Format)
    }
}

fn hex_digit(c: char) -> (v: Option<u8>)
    ensures
        match hex_value(c) {
            Some(x) => v == Some(x as u8) && x < 16,
            None => v is None,
        },
{
    if '0' <= c && c <= '9' {
        Some(((c as u32) - ('0' as u32)) as u8)
    } else if 'a' <= c && c <= 'f' {
        Some(((c as u32) - ('a' as u32) + 10) as u8)
    } else if 'A' <= c && c <= 'F' {
        Some(((c as u32) - ('A' as u32) + 10) as u8)
    } else {
        None
    }
}

/// A one-character field.
fn field1(c: char) -> (v: Option<u8>)
    ensures
        v == hex_field(seq![c]),
        v matches Some(x) ==> x < 16,
{
    proof {
        let p = seq![c];
        assert(p.drop_last() =~= Seq::<char>::empty());
        reveal_with_fuel(digits16, 2);
    }
    hex_digit(c)
}

/// A two-character field.
fn field2(c0: char, c1: char) -> (v: Option<u8>)
    ensures
        v == hex_field(seq![c0, c1]),
{
    proof {
        let p = seq![c0, c1];
        assert(p.drop_last() =~= seq![c0]);
        assert(p.drop_first() =~= seq![c1]);
        assert(seq![c0].drop_last() =~= Seq::<char>::empty());
        assert(seq![c1].drop_last() =~= Seq::<char>::empty());
        reveal_with_fuel(digits16, 3);
    }
    match (hex_digit(c0), hex_digit(c1)) {
        (Some(x), Some(y)) => Some(16 * x + y),
        _ => None,
    }
}

/// Reads the `background` option: `None` stands for a transparent canvas.
pub fn parse_background(s: Option<&str>) -> (res: Result<Option<Rgba8>, RenderError>)
    ensures
        s is None ==> res == Ok::<Option<Rgba8>, RenderError>(None),
        s matches Some(t) ==> match background_color(t@) {
            Ok(c) => res == Ok::<Option<Rgba8>, RenderError>(Some(c)),
            Err(BackgroundFault::Format) => res matches Err(RenderError::BackgroundFormat(m)) && m@ == t@,
            Err(BackgroundFault::Digit) => res matches Err(RenderError::InvalidColor),
        },
{
    match s {
        None => Ok(None),
        Some(t) => parse_background_str(t),
    }
}

fn parse_background_str(t: &str) -> (res: Result<Option<Rgba8>, RenderError>)
    ensures
        match background_color(t@) {
            Ok(c) => res == Ok::<Option<Rgba8>, RenderError>(Some(c)),
            Err(BackgroundFault::Format) => res matches Err(RenderError::BackgroundFormat(m)) && m@ == t@,
            Err(BackgroundFault::Digit) => res matches Err(RenderError::InvalidColor),
        },
{
    let v = chars_of(t);
    let start: usize = if v.len() > 0 && v[0] == '#' { 1 } else { 0 };
    let ghost h = strip_hash(t@);
    assert(h =~= v@.subrange(start as int, v@.len() as int));
    let n = v.len() - start;
    let mut i = start;
    while i < v.len()
        invariant
            start <= i <= v.len(),
            v@ == t@,
            h == v@.subrange(start as int, v@.len() as int),
            h == strip_hash(t@),
            forall|j: int| start <= j < i ==> #[trigger] v@[j] <= '\u{7f}',
        decreases v.len() - i,
    {
        let c = v[i];
        if c > '\u{7f}' {
            assert(v@[i as int] == h[i - start]);
            assert(!is_ascii_text(h));
            return Err(RenderError::BackgroundFormat(t.to_owned()));
        }
        i = i + 1;
    }
    assert(is_ascii_text(h)) by {
        assert forall|j: int| 0 <= j < h.len() implies #[trigger] h[j] <= '\u{7f}' by {
            assert(h[j] == v@[j + start]);
        }
    }
    if n == 3 {
        assert(h.subrange(0, 1) =~= seq![v@[start as int]]);
        assert(h.subrange(1, 2) =~= seq![v@[start + 1]]);
        assert(h.subrange(2, 3) =~= seq![v@[start + 2]]);
        let r = field1(v[start]);
        let g = field1(v[start + 1]);
        let b = field1(v[start + 2]);
        match (r, g, b) {
            (Some(r), Some(g), Some(b)) => Ok(Some(Rgba8 { r: r * 17, g: g * 17, b: b * 17, a: 255 })),
            _ => Err(RenderError::InvalidColor),
        }
    } else if n == 6 || n == 8 {
        assert(h.subrange(0, 2) =~= seq![v@[start as int], v@[start + 1]]);
        assert(h.subrange(2, 4) =~= seq![v@[start + 2], v@[start + 3]]);
        assert(h.subrange(4, 6) =~= seq![v@[start + 4], v@[start + 5]]);
        let r = field2(v[start], v[start + 1]);
        let g = field2(v[start + 2], v[start + 3]);
        let b = field2(v[start + 4], v[start + 5]);
        let a = if n == 8 {
            assert(h.subrange(6, 8) =~= seq![v@[start + 6], v@[start + 7]]);
            field2(v[start + 6], v[start + 7])
        } else {
            Some(255u8)
        };
        match (r, g, b, a) {
            (Some(r), Some(g), Some(b), Some(a)) => Ok(Some(Rgba8 { r, g, b, a })),
            _ => Err(RenderError::InvalidColor),
        }
    } else {
        Err(RenderError::BackgroundFormat(t.to_owned()))
    }
}


proof fn lemma_field1(c: char)
    ensures
        hex_field(seq![c]) == match hex_value(c) {
            Some(v) => Some(v as u8),
            None => None::<u8>,
        },
{
    assert(seq![c].drop_last() =~= Seq::<char>::empty());
    assert(seq![c].drop_first() =~= Seq::<char>::empty());
    reveal_with_fuel(digits16, 2);
}

proof fn lemma_field2_doubled(c: char)
    ensures
        hex_field(seq![c, c]) == match hex_value(c) {
            Some(v) => Some((v * 17) as u8),
            None => None::<u8>,
        },
{
    assert(seq![c, c].drop_last() =~= seq![c]);
    assert(seq![c, c].drop_first() =~= seq![c]);
    assert(seq![c].drop_last() =~= Seq::<char>::empty());
    reveal_with_fuel(digits16, 3);
}

/// The short form `#rgb` names the same color as `#rrggbb` (and is refused
/// the same way): each hex digit `d` of the short form stands for the byte
/// `d * 17`. It names a color exactly when the three are hex digits.
#[verifier::spinoff_prover]
pub proof fn law_short_form_doubles_digits(x: char, y: char, z: char)
    ensures
        background_color(seq!['#', x, y, z]) == background_color(seq!['#', x, x, y, y, z, z]),
        background_color(seq!['#', x, y, z]) is Ok <==> (hex_value(x) is Some && hex_value(y) is Some && hex_value(
            z,
        ) is Some),
{
    let s = seq!['#', x, y, z];
    let l = seq!['#', x, x, y, y, z, z];
    let hs = seq![x, y, z];
    let hl = seq![x, x, y, y, z, z];
    assert(strip_hash(s) =~= hs);
    assert(strip_hash(l) =~= hl);
    assert(hs.subrange(0, 1) =~= seq![x]);
    assert(hs.subrange(1, 2) =~= seq![y]);
    assert(hs.subrange(2, 3) =~= seq![z]);
    assert(hl.subrange(0, 2) =~= seq![x, x]);
    assert(hl.subrange(2, 4) =~= seq![y, y]);
    assert(hl.subrange(4, 6) =~= seq![z, z]);
    lemma_field1(x);
    lemma_field1(y);
    lemma_field1(z);
    lemma_field2_doubled(x);
    lemma_field2_doubled(y);
    lemma_field2_doubled(z);
    assert(is_ascii_text(hs) == is_ascii_text(hl)) by {
        if is_ascii_text(hs) {
            assert forall|j: int| 0 <= j < hl.len() implies #[trigger] hl[j] <= '\u{7f}' by {
                assert(hl[j] == hs[j / 2]);
            }
        }
        if is_ascii_text(hl) {
            assert forall|j: int| 0 <= j < hs.len() implies #[trigger] hs[j] <= '\u{7f}' by {
                assert(hs[j] == hl[2 * j]);
            }
        }
    }
}

/// `#rrggbb` is the opaque color: it equals `#rrggbbff`, whatever the six
/// characters (a refusal of one is the same refusal of the other).
pub proof fn law_six_digits_are_opaque(h: Seq<char>)
    requires
        h.len() == 6,
    ensures
        background_color(seq!['#'] + h) == background_color(seq!['#'] + h + seq!['f', 'f']),
{
    let s = seq!['#'] + h;
    let l = seq!['#'] + h + seq!['f', 'f'];
    let hl = h + seq!['f', 'f'];
    assert(strip_hash(s) =~= h);
    assert(strip_hash(l) =~= hl);
    assert(hl.subrange(0, 2) =~= h.subrange(0, 2));
    assert(hl.subrange(2, 4) =~= h.subrange(2, 4));
    assert(hl.subrange(4, 6) =~= h.subrange(4, 6));
    assert(hl.subrange(6, 8) =~= seq!['f', 'f']);
    assert(seq!['f', 'f'].drop_last() =~= seq!['f']);
    assert(seq!['f'].drop_last() =~= Seq::<char>::empty());
    reveal_with_fuel(digits16, 3);
    assert(hex_field(seq!['f', 'f']) == Some(255u8));
    if is_ascii_text(h) {
        assert(is_ascii_text(hl)) by {
            assert forall|j: int| 0 <= j < hl.len() implies #[trigger] hl[j] <= '\u{7f}' by {
                if j >= 6 {
                    assert(hl[j] == 'f');
                } else {
                    assert(hl[j] == h[j]);
                }
            }
        }
    } else {
        let j = choose|j: int| 0 <= j < h.len() && !(#[trigger] h[j] <= '\u{7f}');
        assert(hl[j] == h[j]);
    }
}

/// The leading `#` is optional: a string without one names the same color
/// as the string with one put in front.
pub proof fn law_hash_is_optional(s: Seq<char>)
    requires
        s.len() == 0 || s[0] != '#',
    ensures
        background_color(s) == background_color(seq!['#'] + s),
{
    assert((seq!['#'] + s).drop_first() =~= s);
}

/// The capital of an ASCII small letter.
spec fn capital(c: char) -> char {
    ((c as u32) - 32) as char
}

/// Hex digits are read in either case: a small letter `a` to `f` and its
/// capital both stand for ten and up, and a decimal digit for itself.
pub proof fn law_hex_digits_either_case(c: char)
    ensures
        'a' <= c <= 'f' ==> hex_value(c) == Some(c as int - 'a' as int + 10) && hex_value(((c as u32) - 32) as char)
            == hex_value(c),
        '0' <= c <= '9' ==> hex_value(c) == Some(c as int - '0' as int),
{
}

proof fn lemma_field2_value(c0: char, c1: char)
    requires
        hex_value(c0) is Some,
        hex_value(c1) is Some,
    ensures
        hex_field(seq![c0, c1]) == Some((16 * hex_value(c0)->0 + hex_value(c1)->0) as u8),
{
    assert(seq![c0, c1].drop_last() =~= seq![c0]);
    assert(seq![c0].drop_last() =~= Seq::<char>::empty());
    reveal_with_fuel(digits16, 3);
}

/// A `#rrggbb` background names the same opaque color whether its letters
/// are small or capital: for any six hex digits, capitalising the letters
/// among them changes nothing, and the color is the digits read in base 16.
pub proof fn law_background_ignores_case(d: Seq<char>)
    requires
        d.len() == 6,
        forall|i: int| 0 <= i < 6 ==> ('0' <= #[trigger] d[i] <= '9' || 'a' <= d[i] <= 'f'),
    ensures
        ({
            let up = d.map_values(|c: char| if 'a' <= c <= 'f' { ((c as u32) - 32) as char } else { c });
            &&& background_color(seq!['#'] + up) == background_color(seq!['#'] + d)
            &&& background_color(seq!['#'] + d) is Ok
        }),
{
    let up = d.map_values(|c: char| if 'a' <= c <= 'f' { capital(c) } else { c });
    let s1 = seq!['#'] + up;
    let s0 = seq!['#'] + d;
    assert(strip_hash(s1) =~= up);
    assert(strip_hash(s0) =~= d);
    assert forall|i: int| 0 <= i < 6 implies hex_value(#[trigger] up[i]) == hex_value(d[i]) && hex_value(d[i]) is Some
        && up[i] <= '\u{7f}' && d[i] <= '\u{7f}' by {
        law_hex_digits_either_case(d[i]);
    }
    assert(is_ascii_text(up));
    assert(is_ascii_text(d));
    assert forall|k: int| 0 <= k < 3 implies hex_field(#[trigger] up.subrange(2 * k, 2 * k + 2)) == hex_field(
        d.subrange(2 * k, 2 * k + 2),
    ) && hex_field(d.subrange(2 * k, 2 * k + 2)) is Some by {
        assert(up.subrange(2 * k, 2 * k + 2) =~= seq![up[2 * k], up[2 * k + 1]]);
        assert(d.subrange(2 * k, 2 * k + 2) =~= seq![d[2 * k], d[2 * k + 1]]);
        lemma_field2_value(up[2 * k], up[2 * k + 1]);
        lemma_field2_value(d[2 * k], d[2 * k + 1]);
    }
    let (k0, k1, k2): (int, int, int) = (0, 1, 2);
    assert(hex_field(up.subrange(2 * k0, 2 * k0 + 2)) == hex_field(d.subrange(2 * k0, 2 * k0 + 2)));
    assert(hex_field(up.subrange(2 * k1, 2 * k1 + 2)) == hex_field(d.subrange(2 * k1, 2 * k1 + 2)));
    assert(hex_field(up.subrange(2 * k2, 2 * k2 + 2)) == hex_field(d.subrange(2 * k2, 2 * k2 + 2)));
    assert(hex_field(up.subrange(0, 2)) == hex_field(d.subrange(0, 2)));
    assert(hex_field(up.subrange(2, 4)) == hex_field(d.subrange(2, 4)));
    assert(hex_field(up.subrange(4, 6)) == hex_field(d.subrange(4, 6)));
    assert(up =~= d.map_values(|c: char| if 'a' <= c <= 'f' { ((c as u32) - 32) as char } else { c }));
}

} // verus!
