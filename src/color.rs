//! Colors handed to a drawing backend that exchanges the red and blue
//! channels. Every color is built through `Color::rgba`, which stores red and
//! blue already exchanged, so that the backend shows the intended color.
use vstd::prelude::*;
use vstd::string::StrSliceExecFns;

verus! {

/// A color with an alpha channel, as stored for the drawing backend: the
/// `red` field holds the intended blue and the `blue` field the intended red.
#[derive(Clone, Copy, Debug, PartialEq, Eq, Structural, Hash)]
pub struct Color {
    red: u8,
    green: u8,
    blue: u8,
    alpha: u8,
}

impl View for Color {
    /// The stored channels, in the order (red, green, blue, alpha).
    type V = (u8, u8, u8, u8);

    closed spec fn view(&self) -> (u8, u8, u8, u8) {
        (self.red, self.green, self.blue, self.alpha)
    }
}

impl Color {
    /// The color built from the intended channels `r`, `g`, `b`, `a`.
    pub closed spec fn spec_rgba(r: u8, g: u8, b: u8, a: u8) -> Color {
        Color { red: b, green: g, blue: r, alpha: a }
    }

    /// Creates a color with an alpha channel from the intended red, green,
    /// blue and alpha values. Red and blue are stored exchanged.
    pub fn rgba(r: u8, g: u8, b: u8, a: u8) -> (c: Color)
        ensures
            c == Color::spec_rgba(r, g, b, a),
            c@ == stored(r, g, b, a),
    {
        Color { red: b, green: g, blue: r, alpha: a }
    }

    /// The stored channels, in the order (red, green, blue, alpha).
    pub fn values(&self) -> (t: (u8, u8, u8, u8))
        ensures
            t == self@,
    {
        (self.red, self.green, self.blue, self.alpha)
    }
}

/// The value of `c` read as one hexadecimal digit, in either case.
pub open spec fn hex_digit(c: char) -> Option<u8> {
    if '0' <= c && c <= '9' {
        Some((c as u32 - '0' as u32) as u8)
    } else if 'a' <= c && c <= 'f' {
        Some((c as u32 - 'a' as u32 + 10) as u8)
    } else if 'A' <= c && c <= 'F' {
        Some((c as u32 - 'A' as u32 + 10) as u8)
    } else {
        None
    }
}

/// The byte written by the first two characters of `s` as two hexadecimal
/// digits, most significant first; what follows them is not read.
pub open spec fn channel_of(s: Seq<char>) -> Option<u8> {
    if s.len() >= 2 && hex_digit(s[0]) is Some && hex_digit(s[1]) is Some {
        Some((hex_digit(s[0])->0 * 16 + hex_digit(s[1])->0) as u8)
    } else {
        None
    }
}

/// The two characters of `s` from position `i` on, read as one channel.
pub open spec fn field_of(s: Seq<char>, i: int) -> Option<u8> {
    channel_of(s.subrange(i, i + 2))
}

/// The stored channels (red, green, blue, alpha) of an opaque color built
/// from the intended channels `r`, `g`, `b` and alpha `a`: red and blue are
/// exchanged.
pub open spec fn stored(r: u8, g: u8, b: u8, a: u8) -> (u8, u8, u8, u8) {
    (b, g, r, a)
}

/// The stored channels of what an optional color holds.
pub open spec fn channels(c: Option<Color>) -> Option<(u8, u8, u8, u8)> {
    match c {
        Some(c) => Some(c@),
        None => None,
    }
}

/// The stored channels of the color written as `RRGGBB`: exactly six
/// hexadecimal digits, opaque.
pub open spec fn rgb_of(s: Seq<char>) -> Option<(u8, u8, u8, u8)> {
    if s.len() == 6 && field_of(s, 0) is Some && field_of(s, 2) is Some && field_of(s, 4) is Some {
        Some(stored(field_of(s, 0)->0, field_of(s, 2)->0, field_of(s, 4)->0, 255))
    } else {
        None
    }
}

/// The stored channels of the color written as `AARRGGBB`: exactly eight
/// hexadecimal digits.
pub open spec fn argb_of(s: Seq<char>) -> Option<(u8, u8, u8, u8)> {
    if s.len() == 8 && field_of(s, 0) is Some && field_of(s, 2) is Some && field_of(s, 4) is Some
        && field_of(s, 6) is Some {
        Some(
            stored(
                field_of(s, 2)->0,
                field_of(s, 4)->0,
                field_of(s, 6)->0,
                field_of(s, 0)->0,
            ),
        )
    } else {
        None
    }
}

/// Whether `s` begins with the prefix `0x`.
pub open spec fn has_hex_prefix(s: Seq<char>) -> bool {
    s.len() >= 2 && s[0] == '0' && s[1] == 'x'
}

/// The stored channels of the color written by `s`: leading `#` and `0x`
/// prefixes are dropped one at a time, and what is left is read as
/// `AARRGGBB` or `RRGGBB`.
pub open spec fn parsed(s: Seq<char>) -> Option<(u8, u8, u8, u8)>
    decreases s.len(),
{
    if s.len() >= 1 && s[0] == '#' {
        parsed(s.subrange(1, s.len() as int))
    } else if has_hex_prefix(s) {
        parsed(s.subrange(2, s.len() as int))
    } else if s.len() == 8 {
        argb_of(s)
    } else if s.len() == 6 {
        rgb_of(s)
    } else {
        None
    }
}

impl Color {
    /// Reads one hexadecimal digit, in either case.
    pub fn hex_to_u8(c: char) -> (r: Option<u8>)
        ensures
            r == hex_digit(c),
    {
        if '0' <= c && c <= '9' {
            Some((c as u32 - '0' as u32) as u8)
        } else if 'a' <= c && c <= 'f' {
            Some((c as u32 - 'a' as u32 + 10) as u8)
        } else if 'A' <= c && c <= 'F' {
            Some((c as u32 - 'A' as u32 + 10) as u8)
        } else {
            None
        }
    }

    /// Reads one channel from the first two characters of `s` (for instance
    /// "AA", "RR", "GG" or "BB"); what follows them is not read.
    pub fn parse_color(s: &str) -> (r: Option<u8>)
        ensures
            r == channel_of(s@),
    {
        if s.unicode_len() < 2 {
            return None;
        }
        let high = match Color::hex_to_u8(s.get_char(0)) {
            Some(d) => d,
            None => return None,
        };
        let low = match Color::hex_to_u8(s.get_char(1)) {
            Some(d) => d,
            None => return None,
        };
        assert((high << 4u8) | low == high * 16 + low) by (bit_vector)
            requires
                high < 16u8,
                low < 16u8,
        ;
        Some((high << 4u8) | low)
    }

    /// Parses a color written as `RRGGBB`.
    pub fn parse_rgb(s: &str) -> (r: Option<Color>)
        ensures
            channels(r) == rgb_of(s@),
    {
        if s.unicode_len() != 6 {
            return None;
        }
        let red = match Color::parse_color(s.substring_char(0, 2)) {
            Some(v) => v,
            None => return None,
        };
        let green = match Color::parse_color(s.substring_char(2, 4)) {
            Some(v) => v,
            None => return None,
        };
        let blue = match Color::parse_color(s.substring_char(4, 6)) {
            Some(v) => v,
            None => return None,
        };
        Some(Color::rgba(red, green, blue, 255))
    }

    /// Parses a color written as `AARRGGBB`.
    pub fn parse_argb(s: &str) -> (r: Option<Color>)
        ensures
            channels(r) == argb_of(s@),
    {
        if s.unicode_len() != 8 {
            return None;
        }
        let alpha = match Color::parse_color(s.substring_char(0, 2)) {
            Some(v) => v,
            None => return None,
        };
        let rest = s.substring_char(2, 8);
        proof {
            assert(rest@.subrange(0, 2) =~= s@.subrange(2, 4));
            assert(rest@.subrange(2, 4) =~= s@.subrange(4, 6));
            assert(rest@.subrange(4, 6) =~= s@.subrange(6, 8));
        }
        // The opaque color has red and blue stored exchanged already; hand
        // them back in their intended places so that `rgba` exchanges them
        // once only.
        match Color::parse_rgb(rest) {
            Some(rgb) => Some(Color::rgba(rgb.blue, rgb.green, rgb.red, alpha)),
            None => None,
        }
    }

    /// Parses a color written as `RRGGBB` or `AARRGGBB`, each optionally
    /// preceded by `#` or `0x`.
    pub fn parse(s: &str) -> (r: Option<Color>)
        ensures
            channels(r) == parsed(s@),
        decreases s@.len(),
    {
        let n = s.unicode_len();
        if n >= 1 && s.get_char(0) == '#' {
            Color::parse(s.substring_char(1, n))
        } else if n >= 2 && s.get_char(0) == '0' && s.get_char(1) == 'x' {
            Color::parse(s.substring_char(2, n))
        } else if n == 8 {
            Color::parse_argb(s)
        } else if n == 6 {
            Color::parse_rgb(s)
        } else {
            None
        }
    }
}

/// The intended red of a packed `0xRRGGBB` integer: bits 16 to 23; bits
/// above the lowest 24 are not read.
pub open spec fn integer_red(v: u32) -> u8 {
    (v / 0x10000 % 0x100) as u8
}

/// The intended green of a packed `0xRRGGBB` integer: bits 8 to 15.
pub open spec fn integer_green(v: u32) -> u8 {
    (v / 0x100 % 0x100) as u8
}

/// The intended blue of a packed `0xRRGGBB` integer: bits 0 to 7.
pub open spec fn integer_blue(v: u32) -> u8 {
    (v % 0x100) as u8
}

impl Color {
    /// The opaque color of a packed `0xRRGGBB` integer.
    pub fn from_integer(val: u32) -> (c: Color)
        ensures
            c == Color::spec_rgba(integer_red(val), integer_green(val), integer_blue(val), 255),
            c@ == stored(integer_red(val), integer_green(val), integer_blue(val), 255),
    {
        let red = ((val & 0xff0000) >> 16) as u8;
        let green = ((val & 0x00ff00) >> 8) as u8;
        let blue = (val & 0x0000ff) as u8;
        assert(((val & 0xff0000) >> 16) == val / 0x10000 % 0x100) by (bit_vector);
        assert(((val & 0x00ff00) >> 8) == val / 0x100 % 0x100) by (bit_vector);
        assert((val & 0x0000ff) == val % 0x100) by (bit_vector);
        Color::rgba(red, green, blue, 255)
    }
}

impl From<u32> for Color {
    fn from(val: u32) -> (c: Color) {
        Color::from_integer(val)
    }
}

impl vstd::std_specs::convert::FromSpecImpl<u32> for Color {
    open spec fn obeys_from_spec() -> bool {
        true
    }

    open spec fn from_spec(v: u32) -> Color {
        Color::spec_rgba(integer_red(v), integer_green(v), integer_blue(v), 255)
    }
}

/// Whether every character of `s` is a hexadecimal digit.
pub open spec fn all_hex(s: Seq<char>) -> bool {
    forall|i: int| 0 <= i < s.len() ==> (#[trigger] hex_digit(s[i])) is Some
}

/// `c` with an ASCII capital letter turned into its small letter.
pub open spec fn ascii_lower(c: char) -> char {
    if 'A' <= c && c <= 'Z' {
        ((c as u32) + 32) as char
    } else {
        c
    }
}

/// Building a color and reading it back gives the intended channels with red
/// and blue exchanged; green and alpha are kept.
pub proof fn lemma_values_of_rgba(r: u8, g: u8, b: u8, a: u8)
    ensures
        Color::spec_rgba(r, g, b, a)@ == (b, g, r, a),
{
}

/// Six hexadecimal digits `RRGGBB` always parse, to the opaque color whose
/// stored red is `BB`, stored green `GG` and stored blue `RR`.
pub proof fn lemma_parse_rgb_digits(s: Seq<char>)
    requires
        s.len() == 6,
        all_hex(s),
    ensures
        parsed(s) == Some((
            channel_of(s.subrange(4, 6))->0,
            channel_of(s.subrange(2, 4))->0,
            channel_of(s.subrange(0, 2))->0,
            255u8,
        )),
{
    lemma_hex_body_has_no_prefix(s);
    lemma_fields_of_hex(s);
}

/// Eight hexadecimal digits `AARRGGBB` always parse, to the color whose stored
/// red is `BB`, stored green `GG`, stored blue `RR` and alpha `AA`.
pub proof fn lemma_parse_argb_digits(s: Seq<char>)
    requires
        s.len() == 8,
        all_hex(s),
    ensures
        parsed(s) == Some((
            channel_of(s.subrange(6, 8))->0,
            channel_of(s.subrange(4, 6))->0,
            channel_of(s.subrange(2, 4))->0,
            channel_of(s.subrange(0, 2))->0,
        )),
{
    lemma_hex_body_has_no_prefix(s);
    lemma_fields_of_hex(s);
}

/// A leading `#` or `0x` does not change what a text parses to.
pub proof fn lemma_parse_ignores_prefix(x: Seq<char>)
    ensures
        parsed(seq!['#'] + x) == parsed(x),
        parsed(seq!['0', 'x'] + x) == parsed(x),
{
    let h = seq!['#'] + x;
    let z = seq!['0', 'x'] + x;
    assert(h.subrange(1, h.len() as int) =~= x);
    assert(z.subrange(2, z.len() as int) =~= x);
}

/// Hexadecimal digits parse alike in either case: two texts of digits that
/// differ only in the case of their letters parse to the same result.
pub proof fn lemma_parse_ignores_case(x: Seq<char>, y: Seq<char>)
    requires
        all_hex(x),
        x.len() == y.len(),
        forall|i: int| 0 <= i < x.len() ==> ascii_lower(#[trigger] x[i]) == ascii_lower(y[i]),
    ensures
        parsed(x) == parsed(y),
{
    assert forall|i: int| 0 <= i < x.len() implies hex_digit(#[trigger] x[i]) == hex_digit(y[i]) by {
        lemma_hex_digit_of_lower(x[i]);
        lemma_hex_digit_of_lower(y[i]);
    }
    assert forall|i: int| 0 <= i < y.len() implies (#[trigger] hex_digit(y[i])) is Some by {
        assert(hex_digit(x[i]) is Some);
    }
    lemma_hex_body_has_no_prefix(x);
    lemma_hex_body_has_no_prefix(y);
    if x.len() == 6 || x.len() == 8 {
        lemma_same_field(x, y, 0);
        lemma_same_field(x, y, 2);
        lemma_same_field(x, y, 4);
        if x.len() == 8 {
            lemma_same_field(x, y, 6);
        }
    }
}

/// A text that begins with neither `#` nor `0x` is refused when its length is
/// neither six nor eight, or when one of its characters is no hexadecimal
/// digit.
pub proof fn lemma_parse_rejects(s: Seq<char>)
    requires
        !(s.len() >= 1 && s[0] == '#'),
        !has_hex_prefix(s),
        (s.len() != 6 && s.len() != 8) || !all_hex(s),
    ensures
        parsed(s) is None,
{
    if s.len() == 6 || s.len() == 8 {
        let i = choose|i: int| 0 <= i < s.len() && (#[trigger] hex_digit(s[i])) is None;
        let k = i - i % 2;
        assert(s.subrange(k, k + 2)[i % 2] == s[i]);
        assert(field_of(s, k) is None);
    }
}

proof fn lemma_hex_body_has_no_prefix(s: Seq<char>)
    requires
        all_hex(s),
    ensures
        !(s.len() >= 1 && s[0] == '#'),
        !has_hex_prefix(s),
{
    if s.len() >= 1 {
        assert(hex_digit(s[0]) is Some);
    }
    if s.len() >= 2 {
        assert(hex_digit(s[1]) is Some);
    }
}

proof fn lemma_fields_of_hex(s: Seq<char>)
    requires
        all_hex(s),
    ensures
        forall|k: int| 0 <= k && k + 2 <= s.len() ==> (#[trigger] field_of(s, k)) is Some,
{
    assert forall|k: int| 0 <= k && k + 2 <= s.len() implies (#[trigger] field_of(s, k)) is Some by {
        let f = s.subrange(k, k + 2);
        assert(f[0] == s[k]);
        assert(f[1] == s[k + 1]);
        assert(hex_digit(s[k]) is Some);
        assert(hex_digit(s[k + 1]) is Some);
    }
}

proof fn lemma_same_field(x: Seq<char>, y: Seq<char>, k: int)
    requires
        0 <= k,
        k + 2 <= x.len(),
        x.len() == y.len(),
        forall|i: int| 0 <= i < x.len() ==> hex_digit(#[trigger] x[i]) == hex_digit(y[i]),
    ensures
        field_of(x, k) == field_of(y, k),
{
    assert(x.subrange(k, k + 2)[0] == x[k]);
    assert(x.subrange(k, k + 2)[1] == x[k + 1]);
    assert(y.subrange(k, k + 2)[0] == y[k]);
    assert(y.subrange(k, k + 2)[1] == y[k + 1]);
    assert(hex_digit(x[k]) == hex_digit(y[k]));
    assert(hex_digit(x[k + 1]) == hex_digit(y[k + 1]));
}

proof fn lemma_hex_digit_of_lower(c: char)
    ensures
        hex_digit(c) == hex_digit(ascii_lower(c)),
{
}

} // verus!
