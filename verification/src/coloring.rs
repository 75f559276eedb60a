//! The color algebra: opaque and transparent 8-bit RGB(A) colors with
//! alpha-correct "draw over" compositing and hex-code parsing.

use vstd::arithmetic::div_mod::{
    lemma_div_by_multiple, lemma_div_is_ordered, lemma_div_multiples_vanish,
    lemma_div_pos_is_pos, lemma_fundamental_div_mod, lemma_mod_division_less_than_divisor,
};
use vstd::prelude::*;

verus! {

/// One channel of the "over opaque" compositing rule: each term is scaled
/// by its share of the alpha with a truncating division by 255.
pub open spec fn blend_solid_channel(base: int, over: int, alpha: int) -> int {
    base * (255 - alpha) / 255 + over * alpha / 255
}

/// The combined alpha of drawing a color with alpha `over_a` over one with
/// alpha `base_a`.
pub open spec fn spec_combined_alpha(over_a: int, base_a: int) -> int {
    255 - (255 - over_a) * (255 - base_a) / 255
}

/// One channel of drawing a transparent color over a transparent base:
/// premultiplied, widened arithmetic divided by the combined alpha, with
/// the degenerate zero-alpha case keeping the base channel unchanged.
pub open spec fn spec_combined_channel(base_c: int, base_a: int, over_c: int, over_a: int) -> int {
    let a3 = spec_combined_alpha(over_a, base_a);
    if a3 == 0 {
        base_c
    } else {
        (base_c * base_a * (255 - over_a) / 255 + over_c * over_a) / a3
    }
}

/// The full "over opaque" compositing rule on colors.
pub open spec fn spec_draw_on_solid(over: TransparentColor, base: SolidColor) -> SolidColor {
    SolidColor {
        red: blend_solid_channel(base.red as int, over.red as int, over.alpha as int) as u8,
        green: blend_solid_channel(base.green as int, over.green as int, over.alpha as int) as u8,
        blue: blend_solid_channel(base.blue as int, over.blue as int, over.alpha as int) as u8,
    }
}

/// The full "over transparent" compositing rule on colors.
pub open spec fn spec_draw_on(over: TransparentColor, base: TransparentColor) -> TransparentColor {
    TransparentColor {
        red: spec_combined_channel(
            base.red as int,
            base.alpha as int,
            over.red as int,
            over.alpha as int,
        ) as u8,
        green: spec_combined_channel(
            base.green as int,
            base.alpha as int,
            over.green as int,
            over.alpha as int,
        ) as u8,
        blue: spec_combined_channel(
            base.blue as int,
            base.alpha as int,
            over.blue as int,
            over.alpha as int,
        ) as u8,
        alpha: spec_combined_alpha(over.alpha as int, base.alpha as int) as u8,
    }
}

pub proof fn lemma_blend_solid_channel_bounds(base: int, over: int, alpha: int)
    requires
        0 <= base <= 255,
        0 <= over <= 255,
        0 <= alpha <= 255,
    ensures
        0 <= blend_solid_channel(base, over, alpha) <= 255,
{
    assert(base * (255 - alpha) <= 255 * (255 - alpha)) by (nonlinear_arith)
        requires 0 <= base <= 255 && alpha <= 255;
    assert(over * alpha <= 255 * alpha) by (nonlinear_arith)
        requires 0 <= over <= 255 && 0 <= alpha;
    lemma_div_is_ordered(base * (255 - alpha), 255 * (255 - alpha), 255);
    lemma_div_is_ordered(over * alpha, 255 * alpha, 255);
    lemma_div_multiples_vanish(255 - alpha, 255);
    lemma_div_multiples_vanish(alpha, 255);
    assert(base * (255 - alpha) >= 0) by (nonlinear_arith)
        requires 0 <= base && alpha <= 255;
    assert(over * alpha >= 0) by (nonlinear_arith)
        requires 0 <= over && 0 <= alpha;
    lemma_div_pos_is_pos(base * (255 - alpha), 255);
    lemma_div_pos_is_pos(over * alpha, 255);
}

pub proof fn lemma_combined_alpha_bounds(over_a: int, base_a: int)
    requires
        0 <= over_a <= 255,
        0 <= base_a <= 255,
    ensures
        0 <= spec_combined_alpha(over_a, base_a) <= 255,
        over_a <= spec_combined_alpha(over_a, base_a),
        base_a <= spec_combined_alpha(over_a, base_a),
        spec_combined_alpha(over_a, base_a) == 0 <==> over_a == 0 && base_a == 0,
{
    let p = (255 - over_a) * (255 - base_a);
    assert(p >= 0 && p <= 255 * (255 - base_a) && p <= (255 - over_a) * 255 && p <= 255 * 255)
        by (nonlinear_arith)
        requires
            p == (255 - over_a) * (255 - base_a),
            0 <= over_a <= 255,
            0 <= base_a <= 255,
    ;
    lemma_div_pos_is_pos(p, 255);
    lemma_div_is_ordered(p, 255 * (255 - base_a), 255);
    lemma_div_is_ordered(p, (255 - over_a) * 255, 255);
    lemma_div_is_ordered(p, (255 * 255) as int, 255);
    lemma_div_multiples_vanish(255 - base_a, 255);
    lemma_div_multiples_vanish(255, 255);
    assert((255 - over_a) * 255 == 255 * (255 - over_a)) by (nonlinear_arith);
    lemma_div_multiples_vanish(255 - over_a, 255);
    if over_a == 0 && base_a == 0 {
        assert(p == 255 * 255) by (nonlinear_arith)
            requires p == (255 - over_a) * (255 - base_a), over_a == 0, base_a == 0,
        ;
    }
    if spec_combined_alpha(over_a, base_a) == 0 {
        // p / 255 == 255 forces p >= 255 * 255, so both alphas are zero.
        lemma_fundamental_div_mod(p, 255);
        assert(p == 255 * 255 + p % 255);
        if over_a > 0 || base_a > 0 {
            assert(p < 255 * 255) by (nonlinear_arith)
                requires
                    p == (255 - over_a) * (255 - base_a),
                    0 <= over_a <= 255,
                    0 <= base_a <= 255,
                    over_a > 0 || base_a > 0,
            ;
        }
    }
}


/// Why constructing a color from a hex code failed.
#[derive(Debug)]
pub enum ColorError {
    /// The code is not 6 or 8 hex digits (after an optional leading `#`);
    /// carries the offending input.
    InvalidColorFormat(String),
    /// The code is well-formed but names a non-opaque color where an opaque
    /// one was asked for; carries the offending input.
    AlphaNotAllowed(String),
}

pub open spec fn is_hex_digit(c: char) -> bool {
    ('0' as u32 <= c as u32 && c as u32 <= '9' as u32) || ('a' as u32 <= c as u32 && c as u32
        <= 'f' as u32) || ('A' as u32 <= c as u32 && c as u32 <= 'F' as u32)
}

pub open spec fn hex_digit_value(c: char) -> int {
    if '0' as u32 <= c as u32 && c as u32 <= '9' as u32 {
        c as u32 - '0' as u32
    } else if 'a' as u32 <= c as u32 && c as u32 <= 'f' as u32 {
        c as u32 - 'a' as u32 + 10
    } else {
        c as u32 - 'A' as u32 + 10
    }
}

/// The hex code with its optional leading `#` stripped.
pub open spec fn stripped_code(s: Seq<char>) -> Seq<char> {
    if s.len() > 0 && s[0] == '#' {
        s.drop_first()
    } else {
        s
    }
}

/// A well-formed color code: 6 or 8 hex digits after the optional `#`.
pub open spec fn valid_hex_code(s: Seq<char>) -> bool {
    let t = stripped_code(s);
    (t.len() == 6 || t.len() == 8) && (forall|i: int|
        0 <= i < t.len() ==> is_hex_digit(#[trigger] t[i]))
}

/// The byte named by digits `2k` and `2k+1` of a stripped code.
pub open spec fn hex_pair_value(t: Seq<char>, k: int) -> int {
    16 * hex_digit_value(t[2 * k]) + hex_digit_value(t[2 * k + 1])
}

/// The color a valid hex code names: RGB for 6 digits (opaque), RGBA for 8.
pub open spec fn spec_hex_color(s: Seq<char>) -> TransparentColor
    recommends
        valid_hex_code(s),
{
    let t = stripped_code(s);
    TransparentColor {
        red: hex_pair_value(t, 0) as u8,
        green: hex_pair_value(t, 1) as u8,
        blue: hex_pair_value(t, 2) as u8,
        alpha: if t.len() == 8 {
            hex_pair_value(t, 3) as u8
        } else {
            255u8
        },
    }
}

pub proof fn lemma_hex_digit_value_bounds(c: char)
    requires
        is_hex_digit(c),
    ensures
        0 <= hex_digit_value(c) <= 15,
{
}

pub proof fn lemma_combined_channel_bounds(base_c: int, base_a: int, over_c: int, over_a: int)
    requires
        0 <= base_c <= 255,
        0 <= base_a <= 255,
        0 <= over_c <= 255,
        0 <= over_a <= 255,
    ensures
        0 <= spec_combined_channel(base_c, base_a, over_c, over_a) <= 255,
{
    lemma_combined_alpha_bounds(over_a, base_a);
    let a3 = spec_combined_alpha(over_a, base_a);
    if a3 != 0 {
        let pre = base_c * base_a * (255 - over_a);
        let numer = pre / 255 + over_c * over_a;
        // Upper bound: the numerator never exceeds 255 times the combined alpha.
        assert(pre >= 0 && pre <= 255 * (base_a * (255 - over_a))) by (nonlinear_arith)
            requires
                pre == base_c * base_a * (255 - over_a),
                0 <= base_c <= 255,
                0 <= base_a <= 255,
                0 <= over_a <= 255,
        ;
        lemma_div_pos_is_pos(pre, 255);
        lemma_div_is_ordered(pre, 255 * (base_a * (255 - over_a)), 255);
        lemma_div_multiples_vanish(base_a * (255 - over_a), 255);
        assert(over_c * over_a >= 0 && over_c * over_a <= 255 * over_a) by (nonlinear_arith)
            requires 0 <= over_c <= 255, 0 <= over_a,
        ;
        assert(numer <= base_a * (255 - over_a) + 255 * over_a);
        // 255 * a3 is at least that, because 255 * ((255-over_a)*(255-base_a) / 255)
        // is at most (255-over_a)*(255-base_a).
        let p = (255 - over_a) * (255 - base_a);
        lemma_fundamental_div_mod(p, 255);
        assert(255 * (p / 255) <= p);
        assert(255 * a3 == 255 * 255 - 255 * (p / 255)) by (nonlinear_arith)
            requires a3 == 255 - p / 255,
        ;
        assert(255 * 255 - p == base_a * (255 - over_a) + 255 * over_a) by (nonlinear_arith)
            requires p == (255 - over_a) * (255 - base_a),
        ;
        assert(numer <= 255 * a3);
        lemma_div_is_ordered(numer, 255 * a3, a3);
        lemma_div_multiples_vanish(255, a3);
        assert(255 * a3 == a3 * 255) by (nonlinear_arith);
        lemma_div_pos_is_pos(numer, a3);
    }
}

/// An opaque 8-bit RGB color.
#[derive(Copy, Clone, Debug, PartialEq, Eq, Structural)]
pub struct SolidColor {
    pub red: u8,
    pub green: u8,
    pub blue: u8,
}

/// An 8-bit RGB color with an alpha channel; `alpha == 255` is fully opaque.
#[derive(Copy, Clone, Debug, PartialEq, Eq, Structural)]
pub struct TransparentColor {
    pub red: u8,
    pub green: u8,
    pub blue: u8,
    pub alpha: u8,
}

impl SolidColor {
    pub open spec fn spec_black() -> SolidColor {
        SolidColor { red: 0, green: 0, blue: 0 }
    }

    /// Opaque black, the usual background color.
    pub fn black() -> (r: SolidColor)
        ensures
            r == SolidColor::spec_black(),
    {
        SolidColor { red: 0, green: 0, blue: 0 }
    }

    /// Parses a hex color code that must name an opaque color: 6 digits, or
    /// 8 digits whose alpha is `ff`. A well-formed code with any other alpha
    /// is an `AlphaNotAllowed` error; a malformed code is
    /// `InvalidColorFormat`. Both carry the input.
    pub fn from_hex_code(hex_code: &str) -> (r: Result<SolidColor, ColorError>)
        ensures
            r is Ok <==> valid_hex_code(hex_code@) && spec_hex_color(hex_code@).alpha == 255,
            r is Ok ==> r->Ok_0 == spec_hex_color(hex_code@).as_solid_spec(),
            !valid_hex_code(hex_code@) ==> (r->Err_0 matches ColorError::InvalidColorFormat(m)
                && m@ == hex_code@),
            valid_hex_code(hex_code@) && spec_hex_color(hex_code@).alpha != 255 ==> (r->Err_0
                matches ColorError::AlphaNotAllowed(m) && m@ == hex_code@),
    {
        match TransparentColor::from_hex_code(hex_code) {
            Ok(color) => {
                if color.alpha == 255 {
                    Ok(SolidColor { red: color.red, green: color.green, blue: color.blue })
                } else {
                    Err(ColorError::AlphaNotAllowed(hex_code.to_owned()))
                }
            },
            Err(e) => Err(e),
        }
    }

    /// The lossless embedding of an opaque color into the transparent type.
    pub fn to_transparent(&self) -> (r: TransparentColor)
        ensures
            r == (TransparentColor {
                red: self.red,
                green: self.green,
                blue: self.blue,
                alpha: 255u8,
            }),
    {
        TransparentColor { red: self.red, green: self.green, blue: self.blue, alpha: 255 }
    }
}

impl TransparentColor {
    pub open spec fn spec_transparent() -> TransparentColor {
        TransparentColor { red: 0, green: 0, blue: 0, alpha: 0 }
    }

    /// The fully transparent color: scratch layers start out filled with it.
    pub fn transparent() -> (r: TransparentColor)
        ensures
            r == TransparentColor::spec_transparent(),
    {
        TransparentColor { red: 0, green: 0, blue: 0, alpha: 0 }
    }

    /// Drops the alpha channel, keeping the color channels as they are.
    pub fn as_solid(&self) -> (r: SolidColor)
        ensures
            r == (SolidColor { red: self.red, green: self.green, blue: self.blue }),
    {
        SolidColor { red: self.red, green: self.green, blue: self.blue }
    }

    /// Conversion to an opaque color; defined only for fully opaque values.
    pub fn try_into_solid(&self) -> (r: Result<SolidColor, ()>)
        ensures
            self.alpha == 255 ==> r == Ok::<SolidColor, ()>(self.as_solid_spec()),
            self.alpha != 255 ==> r == Err::<SolidColor, ()>(()),
    {
        if self.alpha == 255 {
            Ok(SolidColor { red: self.red, green: self.green, blue: self.blue })
        } else {
            Err(())
        }
    }

    pub open spec fn as_solid_spec(&self) -> SolidColor {
        SolidColor { red: self.red, green: self.green, blue: self.blue }
    }

    /// Parses a hex color code: 6 digits are RGB (opaque), 8 digits are
    /// RGBA; a leading `#` is optional. Any other length, or any non-hex
    /// character, is an `InvalidColorFormat` error carrying the input.
    pub fn from_hex_code(hex_code: &str) -> (r: Result<TransparentColor, ColorError>)
        ensures
            r is Ok <==> valid_hex_code(hex_code@),
            r is Ok ==> r->Ok_0 == spec_hex_color(hex_code@),
            r is Err ==> (r->Err_0 matches ColorError::InvalidColorFormat(m) && m@ == hex_code@),
    {
        let chars = chars_vec(hex_code);
        let off: usize = if chars.len() > 0 && chars[0] == '#' {
            1
        } else {
            0
        };
        let ghost t = stripped_code(hex_code@);
        proof {
            assert(t =~= chars@.skip(off as int));
        }
        let n = chars.len() - off;
        if n != 6 && n != 8 {
            return Err(ColorError::InvalidColorFormat(hex_code.to_owned()));
        }
        let red = match parse_hex_pair(&chars, off) {
            Some(v) => v,
            None => {
                proof {
                    assert(t[0] == chars@[off as int] && t[1] == chars@[off as int + 1]);
                }
                return Err(ColorError::InvalidColorFormat(hex_code.to_owned()));
            },
        };
        let green = match parse_hex_pair(&chars, off + 2) {
            Some(v) => v,
            None => {
                proof {
                    assert(t[2] == chars@[off as int + 2] && t[3] == chars@[off as int + 3]);
                }
                return Err(ColorError::InvalidColorFormat(hex_code.to_owned()));
            },
        };
        let blue = match parse_hex_pair(&chars, off + 4) {
            Some(v) => v,
            None => {
                proof {
                    assert(t[4] == chars@[off as int + 4] && t[5] == chars@[off as int + 5]);
                }
                return Err(ColorError::InvalidColorFormat(hex_code.to_owned()));
            },
        };
        let alpha = if n == 8 {
            match parse_hex_pair(&chars, off + 6) {
                Some(v) => v,
                None => {
                    proof {
                        assert(t[6] == chars@[off as int + 6] && t[7] == chars@[off as int + 7]);
                    }
                    return Err(ColorError::InvalidColorFormat(hex_code.to_owned()));
                },
            }
        } else {
            255
        };
        proof {
            assert forall|i: int| 0 <= i < t.len() implies is_hex_digit(#[trigger] t[i]) by {
                assert(t[i] == chars@[off + i]);
            }
            lemma_hex_digit_value_bounds(t[0]);
            lemma_hex_digit_value_bounds(t[1]);
            lemma_hex_digit_value_bounds(t[2]);
            lemma_hex_digit_value_bounds(t[3]);
            lemma_hex_digit_value_bounds(t[4]);
            lemma_hex_digit_value_bounds(t[5]);
            if t.len() == 8 {
                lemma_hex_digit_value_bounds(t[6]);
                lemma_hex_digit_value_bounds(t[7]);
            }
        }
        Ok(TransparentColor { red, green, blue, alpha })
    }

    /// Standard "over" alpha compositing of this color onto an opaque base:
    /// each channel is `base*(255-alpha)/255 + over*alpha/255`, computed in a
    /// widened integer type and truncated.
    pub fn draw_on_solid(&self, base_color: &SolidColor) -> (r: SolidColor)
        ensures
            r == spec_draw_on_solid(*self, *base_color),
    {
        SolidColor {
            red: blend_channel_solid(base_color.red, self.red, self.alpha),
            green: blend_channel_solid(base_color.green, self.green, self.alpha),
            blue: blend_channel_solid(base_color.blue, self.blue, self.alpha),
        }
    }

    /// Compositing of this color onto a transparent base. The combined alpha
    /// is `255 - (255-a_over)*(255-a_base)/255`; each channel divides the
    /// premultiplied sum by the combined alpha, and when the combined alpha is
    /// zero the base channels are kept unchanged.
    pub fn draw_on(&self, base_color: &TransparentColor) -> (r: TransparentColor)
        ensures
            r == spec_draw_on(*self, *base_color),
    {
        proof {
            lemma_combined_alpha_bounds(self.alpha as int, base_color.alpha as int);
        }
        let over_a = self.alpha as u32;
        let base_a = base_color.alpha as u32;
        assert((255 - over_a) * (255 - base_a) <= 255 * 255) by (nonlinear_arith)
            requires over_a <= 255 && base_a <= 255;
        let combined_alpha = 255 - (255 - over_a) * (255 - base_a) / 255;
        if combined_alpha == 0 {
            TransparentColor {
                red: base_color.red,
                green: base_color.green,
                blue: base_color.blue,
                alpha: 0,
            }
        } else {
            TransparentColor {
                red: combine_channel(base_color.red, base_a, self.red, over_a, combined_alpha),
                green: combine_channel(base_color.green, base_a, self.green, over_a, combined_alpha),
                blue: combine_channel(base_color.blue, base_a, self.blue, over_a, combined_alpha),
                alpha: combined_alpha as u8,
            }
        }
    }
}

/// The string's characters as a vector, for index-based parsing.
fn chars_vec(s: &str) -> (v: Vec<char>)
    ensures
        v@ == s@,
{
    let mut v: Vec<char> = Vec::new();
    for c in it: s.chars()
        invariant
            it.seq() == s@,
            v@ == it.seq().take(it.index() as int),
    {
        v.push(c);
    }
    proof {
        assert(s@.take(s@.len() as int) =~= s@);
    }
    v
}

/// The value of one hex digit, or `None` for any other character.
fn hex_digit_val(c: char) -> (r: Option<u8>)
    ensures
        r is Some <==> is_hex_digit(c),
        r is Some ==> r->0 as int == hex_digit_value(c) && r->0 <= 15,
{
    let u = c as u32;
    if 48 <= u && u <= 57 {
        Some((u - 48) as u8)
    } else if 97 <= u && u <= 102 {
        Some((u - 97 + 10) as u8)
    } else if 65 <= u && u <= 70 {
        Some((u - 65 + 10) as u8)
    } else {
        None
    }
}

/// The byte named by the two hex digits at `i` and `i + 1`, or `None` if
/// either character is not a hex digit.
fn parse_hex_pair(chars: &Vec<char>, i: usize) -> (r: Option<u8>)
    requires
        i + 2 <= chars@.len(),
    ensures
        r is Some <==> is_hex_digit(chars@[i as int]) && is_hex_digit(chars@[i as int + 1]),
        r is Some ==> r->0 as int == 16 * hex_digit_value(chars@[i as int]) + hex_digit_value(
            chars@[i as int + 1],
        ),
{
    let n = chars.len();
    assert(i + 1 < n);
    let hi = hex_digit_val(chars[i]);
    let lo = hex_digit_val(chars[i + 1]);
    match (hi, lo) {
        (Some(h), Some(l)) => Some(h * 16 + l),
        _ => None,
    }
}

/// One channel of `draw_on_solid`, in 16-bit arithmetic.
fn blend_channel_solid(base: u8, over: u8, alpha: u8) -> (r: u8)
    ensures
        r as int == blend_solid_channel(base as int, over as int, alpha as int),
{
    proof {
        lemma_blend_solid_channel_bounds(base as int, over as int, alpha as int);
    }
    let b = base as u16;
    let o = over as u16;
    let a = alpha as u16;
    assert(b * (255 - a) <= 255 * 255) by (nonlinear_arith)
        requires b <= 255 && a <= 255;
    assert(o * a <= 255 * 255) by (nonlinear_arith)
        requires o <= 255 && a <= 255;
    (b * (255 - a) / 255 + o * a / 255) as u8
}

/// One channel of `draw_on`, in 32-bit arithmetic. The worst intermediate
/// product of three 8-bit values needs 24 bits.
fn combine_channel(base_c: u8, base_a: u32, over_c: u8, over_a: u32, combined_alpha: u32) -> (r: u8)
    requires
        base_a <= 255,
        over_a <= 255,
        combined_alpha == spec_combined_alpha(over_a as int, base_a as int),
        combined_alpha > 0,
    ensures
        r as int == spec_combined_channel(
            base_c as int,
            base_a as int,
            over_c as int,
            over_a as int,
        ),
{
    proof {
        lemma_combined_channel_bounds(base_c as int, base_a as int, over_c as int, over_a as int);
    }
    let bc = base_c as u32;
    let oc = over_c as u32;
    assert(bc * base_a <= 255 * 255) by (nonlinear_arith)
        requires bc <= 255 && base_a <= 255;
    assert(bc * base_a * (255 - over_a) <= 255 * 255 * 255) by (nonlinear_arith)
        requires bc * base_a <= 255 * 255 && over_a <= 255;
    assert(oc * over_a <= 255 * 255) by (nonlinear_arith)
        requires oc <= 255 && over_a <= 255;
    ((bc * base_a * (255 - over_a) / 255 + oc * over_a) / combined_alpha) as u8
}

/// Full-opacity overwrite: a color with alpha 255 drawn over any opaque
/// base replaces the base with its own channels.
pub proof fn lemma_full_opacity_overwrite(over: TransparentColor, base: SolidColor)
    requires
        over.alpha == 255,
    ensures
        spec_draw_on_solid(over, base) == over.as_solid_spec(),
{
    lemma_full_opacity_channel(base.red as int, over.red as int);
    lemma_full_opacity_channel(base.green as int, over.green as int);
    lemma_full_opacity_channel(base.blue as int, over.blue as int);
}

proof fn lemma_full_opacity_channel(base: int, over: int)
    requires
        0 <= base <= 255,
        0 <= over <= 255,
    ensures
        blend_solid_channel(base, over, 255) == over,
{
    assert(base * 0 == 0) by (nonlinear_arith);
    lemma_div_by_multiple(over, 255);
}

/// Zero-alpha no-op: the fully transparent color drawn over any opaque base
/// leaves the base unchanged.
pub proof fn lemma_zero_alpha_noop(base: SolidColor)
    ensures
        spec_draw_on_solid(TransparentColor::spec_transparent(), base) == base,
{
    lemma_blend_zero_alpha(base.red as int, 0);
    lemma_blend_zero_alpha(base.green as int, 0);
    lemma_blend_zero_alpha(base.blue as int, 0);
}

proof fn lemma_blend_zero_alpha(base: int, over: int)
    requires
        0 <= base <= 255,
        0 <= over,
    ensures
        blend_solid_channel(base, over, 0) == base,
{
    lemma_div_by_multiple(base, 255);
    assert(base * (255 - 0) == base * 255) by (nonlinear_arith);
    assert(over * 0 == 0) by (nonlinear_arith);
}

/// The exact numerator, scaled by 255 * 255, of drawing channel `c1` with
/// alpha `a1` and then channel `c2` with alpha `a2` over an opaque channel
/// `c`, before any truncating division.
pub open spec fn exact_compose_numer(c: int, c1: int, a1: int, c2: int, a2: int) -> int {
    c * (255 - a1) * (255 - a2) + c1 * a1 * (255 - a2) + 255 * (c2 * a2)
}

/// Composition of two sequential `draw_on_solid` steps stays within four
/// truncation errors of the exact value scaled by 255 * 255.
proof fn lemma_sequential_error(c: int, c1: int, a1: int, c2: int, a2: int)
    requires
        0 <= c <= 255,
        0 <= c1 <= 255,
        0 <= a1 <= 255,
        0 <= c2 <= 255,
        0 <= a2 <= 255,
    ensures
        ({
            let s = blend_solid_channel(blend_solid_channel(c, c1, a1), c2, a2);
            exact_compose_numer(c, c1, a1, c2, a2) - 259081 <= 65025 * s <= exact_compose_numer(
                c,
                c1,
                a1,
                c2,
                a2,
            )
        }),
{
    let x1 = c * (255 - a1);
    let x2 = c1 * a1;
    let q1 = x1 / 255;
    let r1 = x1 % 255;
    let q2 = x2 / 255;
    let r2 = x2 % 255;
    assert(0 <= x1 && 0 <= x2) by (nonlinear_arith)
        requires x1 == c * (255 - a1), x2 == c1 * a1, 0 <= c, a1 <= 255, 0 <= c1, 0 <= a1,
    ;
    lemma_fundamental_div_mod(x1, 255);
    lemma_fundamental_div_mod(x2, 255);
    lemma_mod_division_less_than_divisor(x1, 255);
    lemma_mod_division_less_than_divisor(x2, 255);
    let d1 = q1 + q2;
    assert(255 * d1 == x1 + x2 - r1 - r2);
    let y = 255 - a2;
    let x3 = d1 * y;
    let x4 = c2 * a2;
    let q3 = x3 / 255;
    let r3 = x3 % 255;
    let q4 = x4 / 255;
    let r4 = x4 % 255;
    assert(0 <= x3) by (nonlinear_arith)
        requires x3 == d1 * y, 0 <= d1, 0 <= y,
    ;
    assert(0 <= x4) by (nonlinear_arith)
        requires x4 == c2 * a2, 0 <= c2, 0 <= a2,
    ;
    lemma_fundamental_div_mod(x3, 255);
    lemma_fundamental_div_mod(x4, 255);
    lemma_mod_division_less_than_divisor(x3, 255);
    lemma_mod_division_less_than_divisor(x4, 255);
    let s = q3 + q4;
    assert(255 * s == x3 + x4 - r3 - r4);
    assert(255 * x3 == x1 * y + x2 * y - (r1 + r2) * y) by (nonlinear_arith)
        requires x3 == d1 * y, 255 * d1 == x1 + x2 - r1 - r2,
    ;
    assert(65025 * s == 255 * x3 + 255 * x4 - 255 * (r3 + r4)) by (nonlinear_arith)
        requires 255 * s == x3 + x4 - r3 - r4,
    ;
    assert(0 <= (r1 + r2) * y <= 129540) by (nonlinear_arith)
        requires 0 <= r1 + r2 <= 508, 0 <= y <= 255,
    ;
    assert(x1 * y == c * (255 - a1) * (255 - a2) && x2 * y == c1 * a1 * (255 - a2))
        by (nonlinear_arith)
        requires x1 == c * (255 - a1), x2 == c1 * a1, y == 255 - a2,
    ;
    assert(65025 * s == exact_compose_numer(c, c1, a1, c2, a2) - (r1 + r2) * y - 255 * (r3 + r4));
}

/// Drawing the combined color stays within four truncation errors of the
/// exact value scaled by 255 * 255, when the combined alpha is not zero.
proof fn lemma_combined_error(c: int, c1: int, a1: int, c2: int, a2: int)
    requires
        0 <= c <= 255,
        0 <= c1 <= 255,
        0 <= a1 <= 255,
        0 <= c2 <= 255,
        0 <= a2 <= 255,
        spec_combined_alpha(a2, a1) != 0,
    ensures
        ({
            let g = blend_solid_channel(
                c,
                spec_combined_channel(c1, a1, c2, a2),
                spec_combined_alpha(a2, a1),
            );
            exact_compose_numer(c, c1, a1, c2, a2) - 259335 <= 65025 * g <= exact_compose_numer(
                c,
                c1,
                a1,
                c2,
                a2,
            )
        }),
{
    lemma_combined_alpha_bounds(a2, a1);
    lemma_combined_channel_bounds(c1, a1, c2, a2);
    let p = (255 - a2) * (255 - a1);
    let m = p / 255;
    let rm = p % 255;
    assert(0 <= p) by (nonlinear_arith)
        requires p == (255 - a2) * (255 - a1), a2 <= 255, a1 <= 255,
    ;
    lemma_fundamental_div_mod(p, 255);
    lemma_mod_division_less_than_divisor(p, 255);
    let a3 = 255 - m;
    assert(a3 == spec_combined_alpha(a2, a1));
    let pre = c1 * a1 * (255 - a2);
    let kq = pre / 255;
    let rk = pre % 255;
    assert(0 <= pre) by (nonlinear_arith)
        requires pre == c1 * a1 * (255 - a2), 0 <= c1, 0 <= a1, a2 <= 255,
    ;
    lemma_fundamental_div_mod(pre, 255);
    lemma_mod_division_less_than_divisor(pre, 255);
    let k = kq + c2 * a2;
    let cc = k / a3;
    let rc = k % a3;
    assert(0 <= c2 * a2) by (nonlinear_arith)
        requires 0 <= c2, 0 <= a2,
    ;
    lemma_fundamental_div_mod(k, a3);
    lemma_mod_division_less_than_divisor(k, a3);
    assert(cc == spec_combined_channel(c1, a1, c2, a2));
    // The final blend of the combined color over the opaque base.
    let x5 = c * (255 - a3);
    let x6 = cc * a3;
    let q5 = x5 / 255;
    let r5 = x5 % 255;
    let q6 = x6 / 255;
    let r6 = x6 % 255;
    assert(0 <= x5) by (nonlinear_arith)
        requires x5 == c * (255 - a3), 0 <= c, a3 <= 255,
    ;
    assert(0 <= x6) by (nonlinear_arith)
        requires x6 == cc * a3, 0 <= cc, 0 <= a3,
    ;
    lemma_fundamental_div_mod(x5, 255);
    lemma_fundamental_div_mod(x6, 255);
    lemma_mod_division_less_than_divisor(x5, 255);
    lemma_mod_division_less_than_divisor(x6, 255);
    let g = q5 + q6;
    assert(g == blend_solid_channel(c, cc, a3));
    assert(255 * g == x5 + x6 - r5 - r6);
    // 255 * x5 == c * p - c * rm, since 255 - a3 == m and 255 * m == p - rm.
    assert(255 * x5 == c * p - c * rm) by (nonlinear_arith)
        requires x5 == c * (255 - a3), a3 == 255 - m, 255 * m == p - rm,
    ;
    // 255 * x6 == 255 * k - 255 * rc, since a3 * cc == k - rc.
    assert(255 * x6 == 255 * k - 255 * rc) by (nonlinear_arith)
        requires x6 == cc * a3, a3 * cc == k - rc,
    ;
    assert(a3 * cc == k - rc);
    assert(65025 * g == 255 * x5 + 255 * x6 - 255 * (r5 + r6)) by (nonlinear_arith)
        requires 255 * g == x5 + x6 - r5 - r6,
    ;
    assert(255 * k == pre - rk + 255 * (c2 * a2));
    assert(c * p == c * (255 - a1) * (255 - a2)) by (nonlinear_arith)
        requires p == (255 - a2) * (255 - a1),
    ;
    assert(65025 * g == exact_compose_numer(c, c1, a1, c2, a2) - (c * rm + rk + 255 * (rc + r5
        + r6)));
    assert(0 <= c * rm <= 64770) by (nonlinear_arith)
        requires 0 <= c <= 255, 0 <= rm <= 254,
    ;
    assert(0 <= 255 * rc <= 64770);
}

/// Layer composition against the combined color: drawing `t1` and then `t2`
/// over an opaque base gives the same color, channel by channel, as drawing
/// the single color `t2.draw_on(t1)`, up to three units of 8-bit truncation
/// error per channel.
pub proof fn lemma_draw_on_compose_close(base: SolidColor, t1: TransparentColor, t2: TransparentColor)
    ensures
        ({
            let sequential = spec_draw_on_solid(t2, spec_draw_on_solid(t1, base));
            let combined = spec_draw_on_solid(spec_draw_on(t2, t1), base);
            &&& -3 <= sequential.red - combined.red <= 3
            &&& -3 <= sequential.green - combined.green <= 3
            &&& -3 <= sequential.blue - combined.blue <= 3
        }),
{
    lemma_compose_channel_close(base.red as int, t1.red as int, t1.alpha as int, t2.red as int, t2.alpha as int);
    lemma_compose_channel_close(base.green as int, t1.green as int, t1.alpha as int, t2.green as int, t2.alpha as int);
    lemma_compose_channel_close(base.blue as int, t1.blue as int, t1.alpha as int, t2.blue as int, t2.alpha as int);
    lemma_combined_alpha_bounds(t2.alpha as int, t1.alpha as int);
    lemma_combined_channel_bounds(t1.red as int, t1.alpha as int, t2.red as int, t2.alpha as int);
    lemma_combined_channel_bounds(t1.green as int, t1.alpha as int, t2.green as int, t2.alpha as int);
    lemma_combined_channel_bounds(t1.blue as int, t1.alpha as int, t2.blue as int, t2.alpha as int);
    lemma_blend_solid_channel_bounds(base.red as int, t1.red as int, t1.alpha as int);
    lemma_blend_solid_channel_bounds(base.green as int, t1.green as int, t1.alpha as int);
    lemma_blend_solid_channel_bounds(base.blue as int, t1.blue as int, t1.alpha as int);
    lemma_blend_solid_channel_bounds(
        blend_solid_channel(base.red as int, t1.red as int, t1.alpha as int),
        t2.red as int,
        t2.alpha as int,
    );
    lemma_blend_solid_channel_bounds(
        blend_solid_channel(base.green as int, t1.green as int, t1.alpha as int),
        t2.green as int,
        t2.alpha as int,
    );
    lemma_blend_solid_channel_bounds(
        blend_solid_channel(base.blue as int, t1.blue as int, t1.alpha as int),
        t2.blue as int,
        t2.alpha as int,
    );
    lemma_blend_solid_channel_bounds(
        base.red as int,
        spec_combined_channel(t1.red as int, t1.alpha as int, t2.red as int, t2.alpha as int),
        spec_combined_alpha(t2.alpha as int, t1.alpha as int),
    );
    lemma_blend_solid_channel_bounds(
        base.green as int,
        spec_combined_channel(t1.green as int, t1.alpha as int, t2.green as int, t2.alpha as int),
        spec_combined_alpha(t2.alpha as int, t1.alpha as int),
    );
    lemma_blend_solid_channel_bounds(
        base.blue as int,
        spec_combined_channel(t1.blue as int, t1.alpha as int, t2.blue as int, t2.alpha as int),
        spec_combined_alpha(t2.alpha as int, t1.alpha as int),
    );
}

proof fn lemma_compose_channel_close(c: int, c1: int, a1: int, c2: int, a2: int)
    requires
        0 <= c <= 255,
        0 <= c1 <= 255,
        0 <= a1 <= 255,
        0 <= c2 <= 255,
        0 <= a2 <= 255,
    ensures
        ({
            let s = blend_solid_channel(blend_solid_channel(c, c1, a1), c2, a2);
            let g = blend_solid_channel(
                c,
                spec_combined_channel(c1, a1, c2, a2),
                spec_combined_alpha(a2, a1),
            );
            -3 <= s - g <= 3
        }),
{
    lemma_combined_alpha_bounds(a2, a1);
    if spec_combined_alpha(a2, a1) == 0 {
        // Both alphas are zero: each side leaves the base channel unchanged.
        lemma_blend_zero_alpha(c, c1);
        lemma_blend_zero_alpha(c, c2);
    } else {
        lemma_sequential_error(c, c1, a1, c2, a2);
        lemma_combined_error(c, c1, a1, c2, a2);
        let s = blend_solid_channel(blend_solid_channel(c, c1, a1), c2, a2);
        let g = blend_solid_channel(
            c,
            spec_combined_channel(c1, a1, c2, a2),
            spec_combined_alpha(a2, a1),
        );
        assert(-259335 <= 65025 * (s - g) <= 259081) by (nonlinear_arith)
            requires
                exact_compose_numer(c, c1, a1, c2, a2) - 259081 <= 65025 * s <= exact_compose_numer(c, c1, a1, c2, a2),
                exact_compose_numer(c, c1, a1, c2, a2) - 259335 <= 65025 * g <= exact_compose_numer(c, c1, a1, c2, a2),
        ;
        assert(-3 <= s - g <= 3) by (nonlinear_arith)
            requires -259335 <= 65025 * (s - g) <= 259081,
        ;
    }
}

} // verus!
