//! What select graphic rendition (SGR) does to the pen, code by code.

use vstd::prelude::*;

use crate::cell;
use crate::cell::{Attrs, Color, Pen};
use crate::parser;
use crate::screen;
use crate::screen::Screen;

verus! {

/// The parameters of a sequence in which each code stands alone.
pub open spec fn alone(codes: Seq<u16>) -> Seq<Seq<u16>> {
    Seq::new(codes.len(), |i: int| seq![codes[i]])
}

/// The screen after `CSI codes m`.
#[verifier::opaque]
pub open spec fn sgr(s: Screen, codes: Seq<u16>) -> Screen {
    parser::csi(s, alone(codes), Seq::empty(), 'm')
}

/// The screen with another pen, and nothing else changed.
pub open spec fn with_pen(s: Screen, fg: Color, bg: Color, attrs: Attrs) -> Screen {
    Screen { pen: Pen { fg, bg, attrs }, ..s }
}

/// Codes that stand alone, in one list.
pub proof fn flat_alone(codes: Seq<u16>)
    ensures
        parser::flat(alone(codes)) == codes,
    decreases codes.len(),
{
    if codes.len() > 0 {
        flat_alone(codes.drop_last());
        assert(alone(codes).drop_last() =~= alone(codes.drop_last()));
        assert(codes.drop_last() + seq![codes.last()] =~= codes);
    } else {
        assert(parser::flat(alone(codes)) =~= codes);
    }
}

proof fn one_code(s: Screen, code: u16)
    ensures
        code != 38 && code != 48 ==> sgr(s, seq![code]) == (Screen {
            pen: screen::sgr_single(s.pen, code),
            ..s
        }),
        code == 38 || code == 48 ==> sgr(s, seq![code]) == s,
{
    reveal(sgr);
    flat_alone(seq![code]);
    let rest = seq![code].skip(1);
    assert(rest =~= Seq::<u16>::empty());
    assert(screen::sgr_pen(s.pen, rest) == s.pen);
    assert(screen::sgr_pen(screen::sgr_single(s.pen, code), rest) == screen::sgr_single(
        s.pen,
        code,
    ));
}

/// SGR 30 to 37 and 40 to 47 set the foreground and the background to the first
/// eight colors of the palette, 90 to 97 and 100 to 107 to the next eight, in
/// order; 39 and 49 set them to the default. Nothing else changes.
pub proof fn codes_of_the_sixteen_colors(s: Screen, k: u8)
    requires
        k < 8,
    ensures
        sgr(s, seq![(30 + k) as u16]) == with_pen(s, Color::Indexed(k), s.pen.bg, s.pen.attrs),
        sgr(s, seq![(40 + k) as u16]) == with_pen(s, s.pen.fg, Color::Indexed(k), s.pen.attrs),
        sgr(s, seq![(90 + k) as u16]) == with_pen(
            s,
            Color::Indexed((8 + k) as u8),
            s.pen.bg,
            s.pen.attrs,
        ),
        sgr(s, seq![(100 + k) as u16]) == with_pen(
            s,
            s.pen.fg,
            Color::Indexed((8 + k) as u8),
            s.pen.attrs,
        ),
        sgr(s, seq![39u16]) == with_pen(s, Color::Default, s.pen.bg, s.pen.attrs),
        sgr(s, seq![49u16]) == with_pen(s, s.pen.fg, Color::Default, s.pen.attrs),
{
    one_code(s, (30 + k) as u16);
    one_code(s, (40 + k) as u16);
    one_code(s, (90 + k) as u16);
    one_code(s, (100 + k) as u16);
    one_code(s, 39);
    one_code(s, 49);
}

proof fn extended(s: Screen, codes: Seq<u16>, taken: int)
    requires
        codes.len() > 0,
        codes[0] == 38 || codes[0] == 48,
        codes.len() == taken + 1,
        screen::extended_color(codes.skip(1)) matches Some((_, n)) && n == taken,
    ensures
        ({
            let (color, _) = screen::extended_color(codes.skip(1))->0;
            sgr(s, codes) == if codes[0] == 38 {
                with_pen(s, color, s.pen.bg, s.pen.attrs)
            } else {
                with_pen(s, s.pen.fg, color, s.pen.attrs)
            }
        }),
{
    reveal(sgr);
    flat_alone(codes);
    let rest = codes.skip(1).skip(taken);
    assert(rest =~= Seq::<u16>::empty());
    let (color, _) = screen::extended_color(codes.skip(1))->0;
    let next = if codes[0] == 38 {
        Pen { fg: color, ..s.pen }
    } else {
        Pen { bg: color, ..s.pen }
    };
    assert(screen::sgr_pen(next, rest) == next);
}

/// `38;5;n` and `48;5;n` set a color to entry `n` of the 256-color table, and
/// `38;2;r;g;b` and `48;2;r;g;b` to a color of its own; numbers count modulo 256.
/// Nothing else changes.
pub proof fn codes_of_all_colors(s: Screen, n: u16, r: u16, g: u16, b: u16)
    ensures
        sgr(s, seq![38u16, 5, n]) == with_pen(
            s,
            Color::Indexed((n % 256) as u8),
            s.pen.bg,
            s.pen.attrs,
        ),
        sgr(s, seq![48u16, 5, n]) == with_pen(
            s,
            s.pen.fg,
            Color::Indexed((n % 256) as u8),
            s.pen.attrs,
        ),
        sgr(s, seq![38u16, 2, r, g, b]) == with_pen(
            s,
            Color::Rgb((r % 256) as u8, (g % 256) as u8, (b % 256) as u8),
            s.pen.bg,
            s.pen.attrs,
        ),
        sgr(s, seq![48u16, 2, r, g, b]) == with_pen(
            s,
            s.pen.fg,
            Color::Rgb((r % 256) as u8, (g % 256) as u8, (b % 256) as u8),
            s.pen.attrs,
        ),
{
    extended(s, seq![38u16, 5, n], 2);
    extended(s, seq![48u16, 5, n], 2);
    extended(s, seq![38u16, 2, r, g, b], 4);
    extended(s, seq![48u16, 2, r, g, b], 4);
}

/// The short codes and the 256-color table agree: `30+k` is `38;5;k`, `90+k` is
/// `38;5;8+k`, and the same with the background. Different codes give different
/// colors.
pub proof fn short_codes_agree_with_the_table(s: Screen, k: u8, m: u8)
    requires
        k < 8,
        m < 8,
    ensures
        sgr(s, seq![(30 + k) as u16]) == sgr(s, seq![38u16, 5, k as u16]),
        sgr(s, seq![(40 + k) as u16]) == sgr(s, seq![48u16, 5, k as u16]),
        sgr(s, seq![(90 + k) as u16]) == sgr(s, seq![38u16, 5, (8 + k) as u16]),
        sgr(s, seq![(100 + k) as u16]) == sgr(s, seq![48u16, 5, (8 + k) as u16]),
        k != m ==> sgr(s, seq![(30 + k) as u16]).pen.fg != sgr(s, seq![(30 + m) as u16]).pen.fg,
        k != m ==> sgr(s, seq![(40 + k) as u16]).pen.bg != sgr(s, seq![(40 + m) as u16]).pen.bg,
        sgr(s, seq![(30 + k) as u16]).pen.fg != sgr(s, seq![(90 + m) as u16]).pen.fg,
{
    codes_of_the_sixteen_colors(s, k);
    codes_of_the_sixteen_colors(s, m);
    codes_of_all_colors(s, k as u16, 0, 0, 0);
    codes_of_all_colors(s, (8 + k) as u16, 0, 0, 0);
}

/// The attribute that a code switches on; 0 where it switches none.
pub open spec fn attribute_of(code: u16) -> u8 {
    if code == 1 {
        Attrs::BOLD
    } else if code == 2 {
        Attrs::DIM
    } else if code == 3 {
        Attrs::ITALIC
    } else if code == 4 {
        Attrs::UNDERLINE
    } else if code == 7 {
        Attrs::REVERSE
    } else if code == 8 {
        Attrs::HIDDEN
    } else if code == 9 {
        Attrs::STRIKE
    } else {
        0
    }
}

/// Each attribute is a bit of its own.
pub proof fn attributes_are_apart(a: u16, b: u16)
    requires
        attribute_of(a) != 0,
        attribute_of(b) != 0,
        a != b,
    ensures
        attribute_of(a) & attribute_of(b) == 0,
{
    let x = attribute_of(a);
    let y = attribute_of(b);
    assert((x == 1 || x == 2 || x == 4 || x == 8 || x == 16 || x == 32 || x == 64) && (y == 1 || y
        == 2 || y == 4 || y == 8 || y == 16 || y == 32 || y == 64) && x != y ==> x & y == 0)
        by (bit_vector);
}

/// SGR 1, 2, 3, 4, 7, 8 and 9 switch one attribute on each: bold, dim, italic,
/// underline, reverse, hidden and strike. The other attributes and the colors stay.
pub proof fn codes_switch_attributes_on(s: Screen, code: u16, other: u16)
    requires
        attribute_of(code) != 0,
        attribute_of(other) != 0,
        other != code,
    ensures
        ({
            let after = sgr(s, seq![code]);
            &&& after == with_pen(s, s.pen.fg, s.pen.bg, after.pen.attrs)
            &&& after.pen.attrs.has(attribute_of(code))
            &&& after.pen.attrs.has(attribute_of(other)) == s.pen.attrs.has(attribute_of(other))
        }),
{
    one_code(s, code);
    attributes_are_apart(code, other);
    cell::attrs_change_only_the_mask(s.pen.attrs, attribute_of(code), attribute_of(other));
}

/// The code that switches an attribute off is 20 more than the one that switches it
/// on, and 22 for both bold and dim. The other attributes and the colors stay.
pub proof fn codes_switch_attributes_off(s: Screen, code: u16, other: u16)
    requires
        attribute_of(code) != 0,
        attribute_of(other) != 0,
        other != code,
    ensures
        ({
            let off: u16 = if code == 1 {
                22
            } else {
                (20 + code) as u16
            };
            let after = sgr(s, seq![off]);
            &&& after == with_pen(s, s.pen.fg, s.pen.bg, after.pen.attrs)
            &&& !after.pen.attrs.has(attribute_of(code))
            &&& !(off == 22 && (other == 1 || other == 2)) ==> after.pen.attrs.has(
                attribute_of(other),
            ) == s.pen.attrs.has(attribute_of(other))
        }),
{
    let off: u16 = if code == 1 {
        22
    } else {
        (20 + code) as u16
    };
    let mask: u8 = if off == 22 {
        Attrs::BOLD | Attrs::DIM
    } else {
        attribute_of(code)
    };
    let own = attribute_of(code);
    let theirs = attribute_of(other);
    one_code(s, off);
    attributes_are_apart(code, other);
    assert(Attrs::BOLD | Attrs::DIM == 3) by {
        assert(1u8 | 2u8 == 3) by (bit_vector);
    }
    assert(mask == 3 && (theirs == 4 || theirs == 8 || theirs == 16 || theirs == 32 || theirs == 64)
        ==> mask & theirs == 0) by (bit_vector);
    assert(mask == 3 && (own == 1 || own == 2) ==> mask & own == own) by (bit_vector);
    if off == 22 && (other == 1 || other == 2) {
        assert(mask & 0 == 0) by (bit_vector);
        cell::attrs_change_only_the_mask(s.pen.attrs, mask, 0);
    } else {
        cell::attrs_change_only_the_mask(s.pen.attrs, mask, theirs);
    }
    let bits = s.pen.attrs.bits;
    assert(own != 0 && mask & own == own ==> (bits & !mask) & own != own) by (bit_vector);
    if mask == own {
        assert(own & own == own) by (bit_vector);
    }
}

/// SGR 0, and no code at all, make the pen plain: default colors, no attribute.
pub proof fn codes_that_reset(s: Screen)
    ensures
        sgr(s, seq![0u16]) == with_pen(s, Color::Default, Color::Default, Attrs { bits: 0 }),
        sgr(s, Seq::empty()) == with_pen(s, Color::Default, Color::Default, Attrs { bits: 0 }),
{
    reveal(sgr);
    one_code(s, 0);
    flat_alone(Seq::empty());
}

/// A code that is none of the known ones changes nothing, nor does `38` or `48`
/// without a color behind it.
pub proof fn other_codes_change_nothing(s: Screen, code: u16)
    requires
        code != 0,
        attribute_of(code) == 0,
        code != 22,
        code < 20 || code > 29 || attribute_of((code - 20) as u16) == 0,
        !(30 <= code <= 37),
        code != 39,
        !(40 <= code <= 47),
        code != 49,
        !(90 <= code <= 97),
        !(100 <= code <= 107),
    ensures
        sgr(s, seq![code]) == s,
{
    one_code(s, code);
}

/// Codes are taken one after the other: what a list does is what its first code
/// does, and then the rest. A color of the table and a color of its own take their
/// numbers with them.
pub proof fn codes_are_taken_in_turn(s: Screen, first: Seq<u16>, rest: Seq<u16>)
    requires
        rest.len() > 0,
        ({
            ||| first.len() == 1 && first[0] != 38 && first[0] != 48
            ||| first.len() == 3 && (first[0] == 38 || first[0] == 48) && first[1] == 5
            ||| first.len() == 5 && (first[0] == 38 || first[0] == 48) && first[1] == 2
        }),
    ensures
        sgr(s, first + rest) == sgr(sgr(s, first), rest),
{
    reveal(sgr);
    let codes = first + rest;
    flat_alone(codes);
    flat_alone(first);
    flat_alone(rest);
    if first.len() == 1 {
        assert(first =~= seq![first[0]]);
        one_code(s, first[0]);
        assert(codes.skip(1) =~= rest);
    } else {
        let taken = first.len() - 1;
        extended(s, first, taken);
        assert(codes.skip(1).skip(taken) =~= rest);
        assert(screen::extended_color(codes.skip(1)) == screen::extended_color(first.skip(1)));
    }
}

/// Whatever the codes are, only the pen changes.
pub proof fn codes_change_only_the_pen(s: Screen, codes: Seq<u16>)
    ensures
        sgr(s, codes) == (Screen { pen: sgr(s, codes).pen, ..s }),
{
    reveal(sgr);
}

/// `38` or `48` without a complete color behind it is passed over, and what follows is
/// read as codes.
pub proof fn incomplete_colors_are_passed_over(s: Screen, code: u16, rest: Seq<u16>)
    requires
        code == 38 || code == 48,
        rest.len() > 0,
        rest[0] == 5 ==> rest.len() < 2,
        rest[0] == 2 ==> rest.len() < 4,
    ensures
        sgr(s, seq![code] + rest) == sgr(s, rest),
{
    reveal(sgr);
    let codes = seq![code] + rest;
    flat_alone(codes);
    flat_alone(rest);
    assert(codes.skip(1) =~= rest);
}

/// It does not matter whether codes are parted by colons or by semicolons.
pub proof fn colons_and_semicolons(s: Screen, codes: Seq<u16>)
    ensures
        parser::csi(s, seq![codes], Seq::empty(), 'm') == sgr(s, codes),
{
    reveal(sgr);
    flat_alone(codes);
    let group = seq![codes];
    assert(group.drop_last() =~= Seq::<Seq<u16>>::empty());
    assert(parser::flat(group.drop_last()) =~= Seq::<u16>::empty());
    assert(parser::flat(group) =~= codes);
}

} // verus!
