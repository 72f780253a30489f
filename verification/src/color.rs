//! Display colours: fixed colours for the positional fields of a log line, a
//! severity colour chosen by the level letter, and a colour derived from the
//! text of a tag.

use vstd::prelude::*;
use crate::text::{lemma_char_code, to_chars};

verus! {

/// An opaque display colour, one byte per channel.
#[derive(Clone, Copy, Debug, PartialEq, Eq, Structural)]
pub struct Color {
    pub r: u8,
    pub g: u8,
    pub b: u8,
}

/// The positional fields that are drawn in a colour of their own.
#[derive(Clone, Copy, Debug, PartialEq, Eq, Structural)]
pub enum FieldKind {
    Date,
    Time,
    Pid,
    Tid,
}

/// The colour of text that carries no field colour: unstructured lines and
/// the gaps between fields.
pub open spec fn plain_color() -> Color {
    Color { r: 160, g: 160, b: 160 }
}

/// The neutral colour shared by verbose lines and unknown levels.
pub open spec fn neutral_color() -> Color {
    Color { r: 220, g: 220, b: 220 }
}

/// The fixed colour of each positional field.
pub open spec fn field_color_of(kind: FieldKind) -> Color {
    match kind {
        FieldKind::Date => Color { r: 0x66, g: 0x99, b: 0x99 },
        FieldKind::Time => Color { r: 0x33, g: 0x99, b: 0x99 },
        FieldKind::Pid => Color { r: 0xcc, g: 0xcc, b: 0xcc },
        FieldKind::Tid => Color { r: 0x99, g: 0xcc, b: 0x99 },
    }
}

/// The severity colour selected by a level letter.
pub open spec fn level_color_of(level: char) -> Color {
    if level == 'D' {
        Color { r: 0xAD, g: 0xD8, b: 0xE6 }
    } else if level == 'I' {
        Color { r: 255, g: 255, b: 255 }
    } else if level == 'W' {
        Color { r: 255, g: 255, b: 0 }
    } else if level == 'E' {
        Color { r: 255, g: 128, b: 128 }
    } else {
        neutral_color()
    }
}

/// The severity colour of a level field: that of its first character, and
/// the neutral colour when the field is empty.
pub open spec fn level_field_color(level: Seq<char>) -> Color {
    if level.len() == 0 {
        neutral_color()
    } else {
        level_color_of(level[0])
    }
}

/// The sum of the code points of `s`.
pub open spec fn code_sum(s: Seq<char>) -> nat
    decreases s.len(),
{
    if s.len() == 0 {
        0
    } else {
        code_sum(s.drop_last()) + s.last() as nat
    }
}

/// One colour channel from one part of a tag: twice the truncated mean of
/// its code points, capped at 255. An empty part gives 0.
pub open spec fn channel_of(part: Seq<char>) -> int {
    if part.len() == 0 {
        0
    } else {
        let doubled = 2 * (code_sum(part) / part.len());
        if doubled > 255 {
            255
        } else {
            doubled as int
        }
    }
}

/// The colour of a tag: its text is cut at one third and two thirds of its
/// length (rounded down), and each part gives one channel.
pub open spec fn tag_color_of(tag: Seq<char>) -> Color {
    let third = tag.len() as int / 3;
    Color {
        r: channel_of(tag.subrange(0, third)) as u8,
        g: channel_of(tag.subrange(third, 2 * third)) as u8,
        b: channel_of(tag.subrange(2 * third, tag.len() as int)) as u8,
    }
}

/// The largest code point of a `char`.
pub open spec fn max_code() -> nat {
    0x10FFFF
}

/// The sum of code points grows by at most the largest code point per
/// character.
pub proof fn lemma_code_sum_bound(s: Seq<char>)
    ensures
        code_sum(s) <= s.len() * max_code(),
    decreases s.len(),
{
    if s.len() > 0 {
        lemma_code_sum_bound(s.drop_last());
        lemma_char_code(s.last());
        assert((s.len() - 1) * max_code() + max_code() == s.len() * max_code())
            by (nonlinear_arith);
    }
}

impl Color {
    /// The colour with the given red, green and blue channels.
    pub fn from_rgb(r: u8, g: u8, b: u8) -> (c: Color)
        ensures
            c == (Color { r, g, b }),
    {
        Color { r, g, b }
    }
}

/// The colour of plain text.
pub fn fallback_color() -> (c: Color)
    ensures
        c == plain_color(),
{
    Color::from_rgb(160, 160, 160)
}

/// The fixed colour of a positional field.
pub fn field_color(kind: FieldKind) -> (c: Color)
    ensures
        c == field_color_of(kind),
{
    match kind {
        FieldKind::Date => Color::from_rgb(0x66, 0x99, 0x99),
        FieldKind::Time => Color::from_rgb(0x33, 0x99, 0x99),
        FieldKind::Pid => Color::from_rgb(0xcc, 0xcc, 0xcc),
        FieldKind::Tid => Color::from_rgb(0x99, 0xcc, 0x99),
    }
}

/// The severity colour of a level letter: `D`, `I`, `W` and `E` each have
/// their own, and every other character, `V` included, is neutral.
pub fn level_color(level: char) -> (c: Color)
    ensures
        c == level_color_of(level),
{
    if level == 'D' {
        Color::from_rgb(0xAD, 0xD8, 0xE6)
    } else if level == 'I' {
        Color::from_rgb(255, 255, 255)
    } else if level == 'W' {
        Color::from_rgb(255, 255, 0)
    } else if level == 'E' {
        Color::from_rgb(255, 128, 128)
    } else {
        Color::from_rgb(220, 220, 220)
    }
}

/// The sum of the code points of `chars[from..to]`.
fn sum_codes(chars: &Vec<char>, from: usize, to: usize) -> (sum: u128)
    requires
        from <= to <= chars.len(),
    ensures
        sum == code_sum(chars@.subrange(from as int, to as int)),
{
    let mut sum: u128 = 0;
    let mut i: usize = from;
    while i < to
        invariant
            from <= i <= to <= chars.len(),
            sum == code_sum(chars@.subrange(from as int, i as int)),
            sum <= (i - from) * max_code(),
        decreases to - i,
    {
        let c: char = chars[i];
        let code: u32 = c as u32;
        proof {
            lemma_char_code(c);
            let next = chars@.subrange(from as int, i as int + 1);
            assert(next.drop_last() =~= chars@.subrange(from as int, i as int));
            assert((i - from) * max_code() + max_code() == (i + 1 - from) * max_code())
                by (nonlinear_arith);
            assert((i + 1 - from) * max_code() <= usize::MAX * max_code()) by (nonlinear_arith)
                requires
                    i + 1 - from <= usize::MAX,
            ;
        }
        sum = sum + code as u128;
        i = i + 1;
    }
    sum
}

/// One channel from `chars[from..to]`.
fn channel(chars: &Vec<char>, from: usize, to: usize) -> (value: u8)
    requires
        from <= to <= chars.len(),
    ensures
        value == channel_of(chars@.subrange(from as int, to as int)),
{
    let count: usize = to - from;
    if count == 0 {
        return 0;
    }
    let sum: u128 = sum_codes(chars, from, to);
    let mean: u128 = sum / (count as u128);
    proof {
        let part = chars@.subrange(from as int, to as int);
        lemma_code_sum_bound(part);
    }
    if mean > 127 {
        255
    } else {
        (2 * mean) as u8
    }
}

/// The colour of a tag, derived from its text alone: the same tag always
/// gets the same colour. Parts of length zero, which a tag shorter than
/// three characters has, give channel 0.
pub fn get_color_from_string(string: &str) -> (c: Color)
    ensures
        c == tag_color_of(string@),
{
    let chars: Vec<char> = to_chars(string);
    let len: usize = chars.len();
    let third: usize = len / 3;
    let r: u8 = channel(&chars, 0, third);
    let g: u8 = channel(&chars, third, 2 * third);
    let b: u8 = channel(&chars, 2 * third, len);
    Color::from_rgb(r, g, b)
}

} // verus!
