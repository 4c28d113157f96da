//! Size of a node's own box, estimated from its text, image and style.
//!
//! Glyphs are taken to be `font_size - 4` wide and `font_size - 2` high, with
//! [`INTERLINE`] units between lines. The formulas are stated over unbounded
//! integers; intermediate values may be negative for a font smaller than the
//! glyph margins, the final size never is. Every node has a size: what is
//! absent counts as zero, and text that wraps on lines without room takes one
//! line for each glyph.

use vstd::prelude::*;
use crate::layout::size::{Extent, Size};
use crate::node::image::NodeImage;
use crate::node::style::NodeStyle;

verus! {

/// Vertical space added to each line of text.
pub const INTERLINE: u32 = 4;

/// Width and height of a block of text. Either may be negative.
pub struct TextBlock {
    pub width: int,
    pub height: int,
}

/// `a / b` rounded towards positive infinity, for `b != 0`.
pub open spec fn ceil_div(a: int, b: int) -> int {
    if b > 0 {
        -((-a) / b)
    } else {
        a / b
    }
}

/// Width of one glyph. Negative for a font size below 4.
pub open spec fn glyph_width(style: NodeStyle) -> int {
    style.font_size - 4
}

/// Height of one line: that of a glyph and the space between lines.
pub open spec fn line_height(style: NodeStyle) -> int {
    style.font_size - 2 + INTERLINE
}

/// Width of a line of text when `offset_width` units of each line are taken
/// by something else.
pub open spec fn line_room(style: NodeStyle, offset_width: int) -> int {
    style.max_width - offset_width
}

/// Number of lines that `text_len` glyphs break into: the width of the text
/// over the room of a line, rounded up; where a line has no room at all, it
/// holds one glyph, so that there are as many lines as glyphs and none for
/// no text.
pub open spec fn line_count(text_len: nat, style: NodeStyle, offset_width: int) -> int {
    if line_room(style, offset_width) == 0 {
        text_len as int
    } else {
        ceil_div(text_len * glyph_width(style), line_room(style, offset_width))
    }
}

/// The block that `text_len` bytes of text occupy.
pub open spec fn text_block(text_len: nat, style: NodeStyle, offset_width: int) -> TextBlock {
    let width = text_len * glyph_width(style);
    TextBlock {
        width,
        height: if style.text_wrapping {
            line_count(text_len, style, offset_width) * line_height(style)
        } else {
            line_height(style)
        },
    }
}

/// Space that the image takes: its dimensions, each capped at `max_width`.
/// No image takes no space, and an unknown dimension counts as zero.
pub open spec fn image_footprint(image: Option<NodeImage>, max_width: nat) -> Extent {
    match image {
        None => Extent::zero(),
        Some(image) => {
            let width: nat = match image.width {
                Some(w) => w as nat,
                None => 0,
            };
            let height: nat = match image.height {
                Some(h) => h as nat,
                None => 0,
            };
            Extent {
                width: if width <= max_width { width } else { max_width },
                height: if height <= max_width { height } else { max_width },
            }
        },
    }
}

/// Image and text share a row. This is also the arrangement of a node without image.
pub open spec fn image_beside_text(image: Option<NodeImage>) -> bool {
    match image {
        None => true,
        Some(image) => image.position.is_beside(),
    }
}

/// Width that is not available to a line of text.
pub open spec fn text_offset(style: NodeStyle, image: Option<NodeImage>) -> int {
    if image_beside_text(image) {
        image_footprint(image, style.max_width as nat).width as int
    } else {
        style.padding as int
    }
}

/// Text and image together, before the outer padding: `(width, height)`.
pub open spec fn content_box(text_len: nat, style: NodeStyle, image: Option<NodeImage>) -> (int, int) {
    let picture = image_footprint(image, style.max_width as nat);
    let text = text_block(text_len, style, text_offset(style, image));
    if image_beside_text(image) {
        (
            text.width + picture.width + style.padding,
            if text.height >= picture.height { text.height } else { picture.height as int },
        )
    } else {
        (
            if text.width >= picture.width { text.width } else { picture.width as int },
            text.height + picture.height + style.padding,
        )
    }
}

/// Width of the box around content of width `content_width`.
pub open spec fn clamped_width(content_width: int, style: NodeStyle) -> int {
    let padded = content_width + 2 * style.padding;
    if padded < style.min_width {
        style.min_width as int
    } else if padded > style.max_width && style.text_wrapping {
        style.max_width as int
    } else {
        padded
    }
}

/// Height of the box around content of height `content_height`.
pub open spec fn clamped_height(content_height: int, style: NodeStyle) -> int {
    let padded = content_height + 2 * style.padding;
    if padded < style.min_height {
        style.min_height as int
    } else {
        padded
    }
}

/// The size of a node's own box.
pub open spec fn estimated_size(text_len: nat, style: NodeStyle, image: Option<NodeImage>) -> Extent {
    let content = content_box(text_len, style, image);
    Extent {
        width: clamped_width(content.0, style) as nat,
        height: clamped_height(content.1, style) as nat,
    }
}

/// The size respects the style: the box is never lower than the minimum
/// height; without wrapping it is never narrower than the minimum width;
/// with wrapping it is never wider than the maximum width, unless the
/// minimum width is, and then it is as wide as that.
pub open spec fn respects_style(size: Extent, style: NodeStyle) -> bool {
    &&& size.height >= style.min_height
    &&& !style.text_wrapping ==> size.width >= style.min_width
    &&& style.text_wrapping ==> size.width <= style.max_width || size.width == style.min_width
    &&& style.text_wrapping && style.min_width <= style.max_width ==> style.min_width
        <= size.width <= style.max_width
}

/// The estimate respects the style, whatever the content.
pub proof fn lemma_estimate_respects_style(text_len: nat, style: NodeStyle, image: Option<NodeImage>)
    ensures
        respects_style(estimated_size(text_len, style, image), style),
{
}

/// [`ceil_div`] is the least integer that is not below the exact quotient.
pub proof fn lemma_ceil_div_bounds(a: int, b: int)
    requires
        b != 0,
    ensures
        b > 0 ==> (ceil_div(a, b) - 1) * b < a <= ceil_div(a, b) * b,
        b < 0 ==> (ceil_div(a, b) - 1) * b > a >= ceil_div(a, b) * b,
{
    if b > 0 {
        let q = (-a) / b;
        let r = (-a) % b;
        assert(-a == b * q + r && 0 <= r < b) by {
            vstd::arithmetic::div_mod::lemma_fundamental_div_mod(-a, b);
            vstd::arithmetic::div_mod::lemma_mod_bound(-a, b);
        }
        assert((-q - 1) * b < a <= (-q) * b) by (nonlinear_arith)
            requires
                -a == b * q + r,
                0 <= r < b,
        ;
    } else {
        let q = a / b;
        let r = a % b;
        assert(a == b * q + r && 0 <= r < -b) by {
            vstd::arithmetic::div_mod::lemma_fundamental_div_mod(a, b);
        }
        assert((q - 1) * b > a >= q * b) by (nonlinear_arith)
            requires
                a == b * q + r,
                0 <= r < -b,
        ;
    }
}

/// An integer that meets the bounds of [`lemma_ceil_div_bounds`] is the quotient.
proof fn lemma_ceil_div_unique(a: int, b: int, q: int)
    requires
        b != 0,
        b > 0 ==> (q - 1) * b < a <= q * b,
        b < 0 ==> (q - 1) * b > a >= q * b,
    ensures
        q == ceil_div(a, b),
{
    lemma_ceil_div_bounds(a, b);
    let c = ceil_div(a, b);
    assert(q == c) by (nonlinear_arith)
        requires
            b != 0,
            b > 0 ==> (q - 1) * b < a <= q * b,
            b < 0 ==> (q - 1) * b > a >= q * b,
            b > 0 ==> (c - 1) * b < a <= c * b,
            b < 0 ==> (c - 1) * b > a >= c * b,
    ;
}

/// `a / b`, rounded towards positive infinity.
fn rounded_up_quotient(a: i128, b: i128) -> (q: i128)
    requires
        b != 0,
        a > i128::MIN,
        b > i128::MIN,
    ensures
        q == ceil_div(a as int, b as int),
{
    let size_a = if a >= 0 { a } else { -a };
    let size_b = if b >= 0 { b } else { -b };
    let whole = size_a / size_b;
    let rest = size_a % size_b;
    proof {
        vstd::arithmetic::div_mod::lemma_fundamental_div_mod(size_a as int, size_b as int);
        vstd::arithmetic::div_mod::lemma_mod_bound(size_a as int, size_b as int);
        assert(0 <= whole <= size_a - rest) by (nonlinear_arith)
            requires
                size_a == size_b * whole + rest,
                0 <= rest < size_b,
                0 <= size_a,
        ;
    }
    let q = if (a >= 0) == (b > 0) {
        if rest != 0 {
            whole + 1
        } else {
            whole
        }
    } else {
        -whole
    };
    proof {
        let (ai, bi, qi, wi, ri) = (a as int, b as int, q as int, whole as int, rest as int);
        assert((bi > 0 ==> (qi - 1) * bi < ai <= qi * bi) && (bi < 0 ==> (qi - 1) * bi > ai >= qi
            * bi)) by (nonlinear_arith)
            requires
                bi != 0,
                (if ai >= 0 { ai } else { -ai }) == (if bi >= 0 { bi } else { -bi }) * wi + ri,
                0 <= ri < (if bi >= 0 { bi } else { -bi }),
                qi == (if (ai >= 0) == (bi > 0) {
                    if ri != 0 { wi + 1 } else { wi }
                } else {
                    -wi
                }),
        ;
        lemma_ceil_div_unique(ai, bi, qi);
    }
    q
}

/// Bound beyond which a text height cannot belong to a size that fits.
const FAR: i128 = 0x10_0000_0000_0000_0000_0000_0000;

/// `v`, moved to the nearest value between `-FAR` and `FAR`.
spec fn within_far(v: int) -> int {
    if v > FAR {
        FAR as int
    } else if v < -FAR {
        -FAR
    } else {
        v
    }
}

/// `a * b`, moved to the nearest value between `-FAR` and `FAR`.
fn product_within_far(a: i128, b: i128) -> (p: i128)
    ensures
        p == within_far(a * b),
{
    match a.checked_mul(b) {
        Some(v) => {
            if v > FAR {
                FAR
            } else if v < -FAR {
                -FAR
            } else {
                v
            }
        },
        None => {
            proof {
                assert(((a > 0) == (b > 0)) ==> a * b >= 0) by (nonlinear_arith);
                assert(((a > 0) != (b > 0)) ==> a * b <= 0) by (nonlinear_arith);
            }
            if (a > 0) == (b > 0) {
                FAR
            } else {
                -FAR
            }
        },
    }
}

/// Width of the text block, and its height moved to within `FAR` of zero.
fn measure_text(text_len: usize, style: &NodeStyle, offset_width: u32) -> (block: (i128, i128))
    ensures
        block.0 == text_block(text_len as nat, *style, offset_width as int).width,
        block.1 == within_far(text_block(text_len as nat, *style, offset_width as int).height),
        -0x10_0000_0000_0000_0000 <= block.0 <= 0x1_0000_0000_0000_0000_0000_0000,
{
    let glyph: i128 = style.font_size as i128 - 4;
    let line: i128 = style.font_size as i128 - 2 + INTERLINE as i128;
    assert(-0x10_0000_0000_0000_0000 <= text_len * glyph <= 0x1_0000_0000_0000_0000_0000_0000)
        by (nonlinear_arith)
        requires
            0 <= text_len <= 0xffff_ffff_ffff_ffff,
            -4 <= glyph <= 0xffff_ffff,
    ;
    let width: i128 = text_len as i128 * glyph;
    let height: i128 = if style.text_wrapping {
        let room: i128 = style.max_width as i128 - offset_width as i128;
        let lines = if room == 0 {
            text_len as i128
        } else {
            rounded_up_quotient(width, room)
        };
        product_within_far(lines, line)
    } else {
        line
    };
    (width, height)
}

/// The size of a block of `text_len` bytes of text, where each line leaves
/// `offset_width` to something else.
pub fn measure_text_block(text_len: usize, style: &NodeStyle, offset_width: u32) -> (size: Size)
    requires
        0 <= text_block(text_len as nat, *style, offset_width as int).width <= u32::MAX,
        0 <= text_block(text_len as nat, *style, offset_width as int).height <= u32::MAX,
    ensures
        size.width == text_block(text_len as nat, *style, offset_width as int).width,
        size.height == text_block(text_len as nat, *style, offset_width as int).height,
{
    let (width, height) = measure_text(text_len, style, offset_width);
    Size { width: width as u32, height: height as u32 }
}

/// The space that the image takes.
pub fn measure_image(image: &Option<NodeImage>, max_width: u32) -> (footprint: Size)
    ensures
        footprint@ == image_footprint(*image, max_width as nat),
{
    match image {
        None => Size { width: 0, height: 0 },
        Some(image) => {
            let width = match image.width {
                Some(w) => w,
                None => 0,
            };
            let height = match image.height {
                Some(h) => h,
                None => 0,
            };
            Size {
                width: if width <= max_width { width } else { max_width },
                height: if height <= max_width { height } else { max_width },
            }
        },
    }
}

/// The size of the box of a node with `text_len` bytes of text, or `None`
/// where that size does not fit a [`Size`].
pub fn try_estimate_size(
    text_len: usize,
    style: &NodeStyle,
    image: &Option<NodeImage>,
) -> (size: Option<Size>)
    ensures
        size is Some <==> estimated_size(text_len as nat, *style, *image).representable(),
        size matches Some(s) ==> s@ == estimated_size(text_len as nat, *style, *image),
        size matches Some(s) ==> respects_style(s@, *style),
{
    let picture = measure_image(image, style.max_width);
    let beside = match image {
        None => true,
        Some(image) => image.position.beside_text(),
    };
    let offset = if beside { picture.width } else { style.padding };
    let (text_width, text_height) = measure_text(text_len, style, offset);
    let padding = style.padding as i128;
    let (content_width, content_height) = if beside {
        (
            text_width + picture.width as i128 + padding,
            if text_height >= picture.height as i128 { text_height } else { picture.height as i128 },
        )
    } else {
        (
            if text_width >= picture.width as i128 { text_width } else { picture.width as i128 },
            text_height + picture.height as i128 + padding,
        )
    };
    let padded_width = content_width + 2 * padding;
    let width = if padded_width < style.min_width as i128 {
        style.min_width as i128
    } else if padded_width > style.max_width as i128 && style.text_wrapping {
        style.max_width as i128
    } else {
        padded_width
    };
    let padded_height = content_height + 2 * padding;
    let height = if padded_height < style.min_height as i128 {
        style.min_height as i128
    } else {
        padded_height
    };
    if width > u32::MAX as i128 || height > u32::MAX as i128 {
        None
    } else {
        Some(Size { width: width as u32, height: height as u32 })
    }
}

/// The size of the box of a node with `text_len` bytes of text.
pub fn estimate_size(text_len: usize, style: &NodeStyle, image: &Option<NodeImage>) -> (size: Size)
    requires
        estimated_size(text_len as nat, *style, *image).representable(),
    ensures
        size@ == estimated_size(text_len as nat, *style, *image),
        respects_style(size@, *style),
{
    try_estimate_size(text_len, style, image).unwrap()
}

} // verus!
