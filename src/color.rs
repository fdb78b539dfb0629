//! Colours: the two palettes, the random pick of one colour per disk, and
//! parsing of `#rrggbb` colour text.
use vstd::prelude::*;
use crate::circle::IshiharaColor;
use crate::random::choose_from;
use vstd::string::StringSliceAdditionalSpecFns;

verus! {

/// An opaque RGB colour.
#[derive(Clone, Copy, Debug, PartialEq, Eq, Structural)]
pub struct Color {
    pub red: u8,
    pub green: u8,
    pub blue: u8,
}

pub open spec fn rgb(red: u8, green: u8, blue: u8) -> Color {
    Color { red, green, blue }
}

/// The colours of disks inside the silhouette: red, red, orange, yellow,
/// light red, light red, tan.
pub open spec fn inside_palette() -> Seq<Color> {
    seq![
        rgb(0xcf, 0x5f, 0x47),
        rgb(0xcf, 0x5f, 0x47),
        rgb(0xfd, 0x95, 0x00),
        rgb(0xff, 0xd5, 0x00),
        rgb(0xee, 0x85, 0x68),
        rgb(0xee, 0x85, 0x68),
        rgb(0xee, 0xbd, 0x7a),
    ]
}

/// The colours of disks outside the silhouette: dark green, green, light green.
pub open spec fn outside_palette() -> Seq<Color> {
    seq![rgb(0x5a, 0x8a, 0x50), rgb(0xa2, 0xab, 0x5a), rgb(0xc9, 0xcc, 0x7d)]
}

pub open spec fn palette_of(side: IshiharaColor) -> Seq<Color> {
    match side {
        IshiharaColor::Inside => inside_palette(),
        IshiharaColor::Outside => outside_palette(),
    }
}

/// The palette of one side of the silhouette, in its fixed order.
pub fn palette(side: IshiharaColor) -> (r: Vec<Color>)
    ensures
        r@ == palette_of(side),
{
    let r = match side {
        IshiharaColor::Inside => vec![
            Color { red: 0xcf, green: 0x5f, blue: 0x47 },
            Color { red: 0xcf, green: 0x5f, blue: 0x47 },
            Color { red: 0xfd, green: 0x95, blue: 0x00 },
            Color { red: 0xff, green: 0xd5, blue: 0x00 },
            Color { red: 0xee, green: 0x85, blue: 0x68 },
            Color { red: 0xee, green: 0x85, blue: 0x68 },
            Color { red: 0xee, green: 0xbd, blue: 0x7a },
        ],
        IshiharaColor::Outside => vec![
            Color { red: 0x5a, green: 0x8a, blue: 0x50 },
            Color { red: 0xa2, green: 0xab, blue: 0x5a },
            Color { red: 0xc9, green: 0xcc, blue: 0x7d },
        ],
    };
    assert(r@ =~= palette_of(side));
    r
}

/// A colour of the palette of `side`, drawn from `rng`.
pub fn color_for(side: IshiharaColor, rng: &mut rand::rngs::StdRng) -> (r: Color)
    ensures
        palette_of(side).contains(r),
{
    let colors = palette(side);
    match choose_from(colors.as_slice(), rng) {
        Some(c) => *c,
        None => colors[0],
    }
}

/// `c` is an ASCII hexadecimal digit, of either case.
pub open spec fn is_hex_char(c: char) -> bool {
    ('0' <= c <= '9') || ('a' <= c <= 'f') || ('A' <= c <= 'F')
}

/// `b` is the byte of an ASCII hexadecimal digit.
pub open spec fn is_hex_byte(b: u8) -> bool {
    (0x30 <= b <= 0x39) || (0x61 <= b <= 0x66) || (0x41 <= b <= 0x46)
}

/// The value of a hexadecimal digit byte.
pub open spec fn hex_val(b: u8) -> int {
    if 0x30 <= b <= 0x39 {
        b - 0x30
    } else if 0x61 <= b <= 0x66 {
        b - 0x61 + 10
    } else {
        b - 0x41 + 10
    }
}

/// The value of a string of hexadecimal digit bytes, most significant first.
pub open spec fn hex_value(s: Seq<u8>) -> int
    decreases s.len(),
{
    if s.len() == 0 {
        0
    } else {
        hex_value(s.drop_last()) * 16 + hex_val(s.last())
    }
}

pub open spec fn all_hex(s: Seq<u8>) -> bool {
    forall|i: int| 0 <= i < s.len() ==> #[trigger] is_hex_byte(s[i])
}

/// The digits of a number text: the text less one leading `+`, if any.
pub open spec fn unsigned_digits(s: Seq<u8>) -> Seq<u8> {
    if s.len() > 0 && s[0] == 0x2b {
        s.drop_first()
    } else {
        s
    }
}

/// `c` is a hexadecimal digit.
pub fn is_hex_digit(c: char) -> (r: bool)
    ensures
        r == is_hex_char(c),
{
    ('0' <= c && c <= '9') || ('a' <= c && c <= 'f') || ('A' <= c && c <= 'F')
}

fn hex_byte_value(b: u8) -> (r: u8)
    requires
        is_hex_byte(b),
    ensures
        r == hex_val(b),
        r < 16,
{
    if b <= 0x39 {
        b - 0x30
    } else if b >= 0x61 {
        b - 0x61 + 10
    } else {
        b - 0x41 + 10
    }
}

/// Reads `input` as an unsigned byte written in base 16: an optional `+`,
/// then one or more hexadecimal digits of value at most 255.
pub fn from_hex(input: &str) -> (r: Option<u8>)
    ensures
        ({
            let d = unsigned_digits(input.spec_bytes());
            &&& r is Some <==> (d.len() > 0 && all_hex(d) && hex_value(d) <= 255)
            &&& r matches Some(v) ==> v == hex_value(d)
        }),
{
    let bytes = input.as_bytes();
    let mut i: usize = 0;
    if bytes.len() > 0 && bytes[0] == 0x2b {
        i = 1;
    }
    let start = i;
    let ghost d = unsigned_digits(bytes@);
    assert(d =~= bytes@.subrange(start as int, bytes@.len() as int));
    if i == bytes.len() {
        return None;
    }
    let mut acc: u32 = 0;
    while i < bytes.len()
        invariant
            start <= i <= bytes@.len(),
            d == unsigned_digits(input.spec_bytes()),
            d == bytes@.subrange(start as int, bytes@.len() as int),
            all_hex(bytes@.subrange(start as int, i as int)),
            acc as int == if hex_value(bytes@.subrange(start as int, i as int)) < 256 {
                hex_value(bytes@.subrange(start as int, i as int))
            } else {
                256
            },
        decreases bytes@.len() - i,
    {
        let b = bytes[i];
        if !((0x30 <= b && b <= 0x39) || (0x61 <= b && b <= 0x66) || (0x41 <= b && b <= 0x46)) {
            assert(d[i - start] == b);
            assert(!is_hex_byte(d[i - start]));
            return None;
        }
        let v = hex_byte_value(b);
        let ghost pre = bytes@.subrange(start as int, i as int);
        let ghost next = bytes@.subrange(start as int, i + 1);
        assert(next.drop_last() =~= pre);
        assert(hex_value(pre) >= 0) by {
            lemma_hex_value_nonneg(pre);
        }
        let t: u32 = acc * 16 + v as u32;
        acc = if t < 256 { t } else { 256 };
        i = i + 1;
        assert(all_hex(next)) by {
            assert forall|k: int| 0 <= k < next.len() implies #[trigger] is_hex_byte(next[k]) by {
                if k < pre.len() {
                    assert(next[k] == pre[k]);
                }
            }
        }
    }
    assert(bytes@.subrange(start as int, i as int) =~= d);
    if acc < 256 {
        Some(acc as u8)
    } else {
        None
    }
}

/// The value of the two hexadecimal digit bytes of `b` at `at` and `at + 1`.
pub open spec fn pair_value(b: Seq<u8>, at: int) -> int {
    16 * hex_val(b[at]) + hex_val(b[at + 1])
}

/// `b` holds two hexadecimal digits at `at` and `at + 1`.
pub open spec fn has_pair(b: Seq<u8>, at: int) -> bool {
    &&& 0 <= at
    &&& at + 2 <= b.len()
    &&& is_hex_byte(b[at])
    &&& is_hex_byte(b[at + 1])
}

/// Reads one colour channel: the two hexadecimal digits of `bytes` at `at`.
pub fn hex_primary(bytes: &[u8], at: usize) -> (r: Option<u8>)
    ensures
        r is Some <==> has_pair(bytes@, at as int),
        r matches Some(v) ==> v == pair_value(bytes@, at as int),
{
    if at >= bytes.len() || bytes.len() - at < 2 {
        return None;
    }
    let hi = bytes[at];
    let lo = bytes[at + 1];
    if !((0x30 <= hi && hi <= 0x39) || (0x61 <= hi && hi <= 0x66) || (0x41 <= hi && hi <= 0x46)) {
        return None;
    }
    if !((0x30 <= lo && lo <= 0x39) || (0x61 <= lo && lo <= 0x66) || (0x41 <= lo && lo <= 0x46)) {
        return None;
    }
    Some(hex_byte_value(hi) * 16 + hex_byte_value(lo))
}

/// `b` starts with `#` and six hexadecimal digits.
pub open spec fn is_hex_color(b: Seq<u8>) -> bool {
    &&& b.len() >= 7
    &&& b[0] == 0x23
    &&& has_pair(b, 1)
    &&& has_pair(b, 3)
    &&& has_pair(b, 5)
}

/// Reads a colour written `#rrggbb` at the start of `input`; what follows
/// those seven characters is left unread.
pub fn hex_color(input: &str) -> (r: Option<Color>)
    ensures
        r is Some <==> is_hex_color(input.spec_bytes()),
        r matches Some(c) ==> c == rgb(
            pair_value(input.spec_bytes(), 1) as u8,
            pair_value(input.spec_bytes(), 3) as u8,
            pair_value(input.spec_bytes(), 5) as u8,
        ),
{
    let bytes = input.as_bytes();
    if bytes.len() == 0 || bytes[0] != 0x23 {
        return None;
    }
    let red = match hex_primary(bytes, 1) {
        Some(v) => v,
        None => return None,
    };
    let green = match hex_primary(bytes, 3) {
        Some(v) => v,
        None => return None,
    };
    let blue = match hex_primary(bytes, 5) {
        Some(v) => v,
        None => return None,
    };
    Some(Color { red, green, blue })
}

/// The value of a string of digit bytes is never negative.
pub proof fn lemma_hex_value_nonneg(s: Seq<u8>)
    requires
        all_hex(s),
    ensures
        hex_value(s) >= 0,
    decreases s.len(),
{
    if s.len() > 0 {
        assert(all_hex(s.drop_last())) by {
            assert forall|k: int| 0 <= k < s.drop_last().len() implies #[trigger] is_hex_byte(
                s.drop_last()[k],
            ) by {
                assert(s.drop_last()[k] == s[k]);
            }
        }
        lemma_hex_value_nonneg(s.drop_last());
        assert(is_hex_byte(s[s.len() - 1]));
    }
}

} // verus!
