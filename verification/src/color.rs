//! The colour of a calendar and its text form `#RRGGBB`.

use vstd::prelude::*;

verus! {

/// A colour as red, green and blue.
#[derive(Clone, Copy, Debug, PartialEq, Eq, Structural)]
pub struct Color {
    pub red: u8,
    pub green: u8,
    pub blue: u8,
}

/// Whether `c` is a digit of base sixteen, in either case.
pub open spec fn is_hex_digit(c: char) -> bool {
    '0' <= c <= '9' || 'a' <= c <= 'f' || 'A' <= c <= 'F'
}

/// The number that a digit of base sixteen stands for.
pub open spec fn hex_value(c: char) -> int {
    if '0' <= c <= '9' {
        c as int - '0' as int
    } else if 'a' <= c <= 'f' {
        c as int - 'a' as int + 10
    } else {
        c as int - 'A' as int + 10
    }
}

/// The digit of base sixteen, in upper case, that stands for `d`.
pub open spec fn hex_digit(d: int) -> char {
    if d < 10 {
        (d + '0' as int) as char
    } else {
        (d - 10 + 'A' as int) as char
    }
}

/// The text of a colour: `#`, then two digits of base sixteen, in upper case,
/// for each of red, green and blue.
pub open spec fn color_text(c: Color) -> Seq<char> {
    seq![
        '#',
        hex_digit(c.red as int / 16),
        hex_digit(c.red as int % 16),
        hex_digit(c.green as int / 16),
        hex_digit(c.green as int % 16),
        hex_digit(c.blue as int / 16),
        hex_digit(c.blue as int % 16),
    ]
}

/// The colour that a text denotes. Each `#` is passed over; what is left must
/// be three digits of base sixteen, each of which then counts twice, or six,
/// and after a sixth digit nothing may follow, not even a `#`.
pub open spec fn color_of_text(s: Seq<char>) -> Option<Color> {
    let d = s.filter(|c: char| c != '#');
    if !(forall|i: int| 0 <= i < d.len() ==> is_hex_digit(#[trigger] d[i])) {
        None
    } else if d.len() == 3 {
        Some(
            Color {
                red: (17 * hex_value(d[0])) as u8,
                green: (17 * hex_value(d[1])) as u8,
                blue: (17 * hex_value(d[2])) as u8,
            },
        )
    } else if d.len() == 6 && s.last() != '#' {
        Some(
            Color {
                red: (16 * hex_value(d[0]) + hex_value(d[1])) as u8,
                green: (16 * hex_value(d[2]) + hex_value(d[3])) as u8,
                blue: (16 * hex_value(d[4]) + hex_value(d[5])) as u8,
            },
        )
    } else {
        None
    }
}

/// Calls colorsys's `Rgb::from_hex_str` and rounds each channel to a byte.
/// Trusted: the call passes over every `#`, takes exactly three or six digits
/// of base sixteen in either case, refuses any other character and anything
/// after a sixth digit, and gives the channels that the digits denote.
#[verifier::external_body]
fn colorsys_parse(s: &str) -> (r: Option<Color>)
    ensures
        r == color_of_text(s@),
{
    match colorsys::Rgb::from_hex_str(s) {
        Ok(rgb) => Some(
            Color {
                red: rgb.red().round() as u8,
                green: rgb.green().round() as u8,
                blue: rgb.blue().round() as u8,
            },
        ),
        Err(_) => None,
    }
}

/// Reads a colour from its text.
pub fn parse_color(s: &str) -> (r: Option<Color>)
    ensures
        r == color_of_text(s@),
{
    colorsys_parse(s)
}

fn hex_digit_of(d: u8) -> (c: char)
    requires
        d < 16,
    ensures
        c == hex_digit(d as int),
{
    if d < 10 {
        (d + ('0' as u8)) as char
    } else {
        (d - 10 + ('A' as u8)) as char
    }
}

/// Writes a colour as `#RRGGBB`.
pub fn format_color(c: Color) -> (v: Vec<char>)
    ensures
        v@ == color_text(c),
{
    let mut v: Vec<char> = Vec::new();
    v.push('#');
    v.push(hex_digit_of(c.red / 16));
    v.push(hex_digit_of(c.red % 16));
    v.push(hex_digit_of(c.green / 16));
    v.push(hex_digit_of(c.green % 16));
    v.push(hex_digit_of(c.blue / 16));
    v.push(hex_digit_of(c.blue % 16));
    assert(v@ == color_text(c));
    v
}

/// The text written for a colour reads back as that colour.
pub proof fn lemma_color_text_reads_back(c: Color)
    ensures
        color_of_text(color_text(c)) == Some(c),
{
    let s = color_text(c);
    let keep = |c: char| c != '#';
    let s0 = Seq::<char>::empty().push(s[0]);
    let s1 = s0.push(s[1]);
    let s2 = s1.push(s[2]);
    let s3 = s2.push(s[3]);
    let s4 = s3.push(s[4]);
    let s5 = s4.push(s[5]);
    let s6 = s5.push(s[6]);
    assert(s6 == s);
    assert forall|i: int| 1 <= i < 7 implies is_hex_digit(#[trigger] s[i]) && s[i] != '#' by {}
    reveal(Seq::filter);
    assert(Seq::<char>::empty().filter(keep) == Seq::<char>::empty());
    Seq::<char>::empty().lemma_filter_push(s[0], keep);
    s0.lemma_filter_push(s[1], keep);
    s1.lemma_filter_push(s[2], keep);
    s2.lemma_filter_push(s[3], keep);
    s3.lemma_filter_push(s[4], keep);
    s4.lemma_filter_push(s[5], keep);
    s5.lemma_filter_push(s[6], keep);
    let d = s.filter(keep);
    assert(d == s.subrange(1, 7));
    assert(hex_value(hex_digit(c.red as int / 16)) == c.red as int / 16);
    assert(hex_value(hex_digit(c.red as int % 16)) == c.red as int % 16);
    assert(hex_value(hex_digit(c.green as int / 16)) == c.green as int / 16);
    assert(hex_value(hex_digit(c.green as int % 16)) == c.green as int % 16);
    assert(hex_value(hex_digit(c.blue as int / 16)) == c.blue as int / 16);
    assert(hex_value(hex_digit(c.blue as int % 16)) == c.blue as int % 16);
}

} // verus!
