//! The layout of a plate image: its size, where each glyph goes, which
//! template and glyph files it uses, and how glyph pixels are painted.

use vstd::prelude::*;
use crate::plate_number::{is_digit, is_letter, letter, alnum};
use crate::text::{chars_of, contains_chars, decimal, decimal_string, has_infix, owned, push_char, slice_contains};

verus! {

broadcast use vstd::string::group_string_axioms;

/// How much larger than the standard 440×140 / 480×140 a plate is drawn.
pub const RENDER_SCALE: u32 = 3;

/// Width of the dark scene a plate is centred on.
pub const SCENE_W: u32 = 1280;

/// Height of the dark scene a plate is centred on.
pub const SCENE_H: u32 = 720;

/// Height of the standard plate templates.
pub const BASE_HEIGHT: u32 = 140;

/// Standard width of a plate of `length` characters.
pub open spec fn base_width(length: nat) -> nat {
    if length == 7 {
        440
    } else {
        480
    }
}

/// The drawn size (width, height) of a plate of `length` characters.
pub fn plate_size(length: usize) -> (r: (u32, u32))
    ensures
        r.0 == base_width(length as nat) * RENDER_SCALE,
        r.1 == BASE_HEIGHT * RENDER_SCALE,
{
    let base_w: u32 = if length == 7 {
        440
    } else {
        480
    };
    (base_w * RENDER_SCALE, BASE_HEIGHT * RENDER_SCALE)
}

/// Index of the glyph after which the wider gap of a plate falls: 1 for
/// police plates (`警`), 4 for embassy plates (`使`), 2 otherwise.
pub open spec fn split_index(s: Seq<char>) -> nat {
    if s.contains('警') {
        1
    } else if s.contains('使') {
        4
    } else {
        2
    }
}

/// Index of the glyph after which the wider gap of `plate` falls.
pub fn split_id(plate: &str) -> (r: usize)
    ensures
        r as nat == split_index(plate@),
{
    let chars = chars_of(plate);
    if slice_contains(chars.as_slice(), '警') {
        1
    } else if slice_contains(chars.as_slice(), '使') {
        4
    } else {
        2
    }
}

/// The gap before the glyph after the split, in template pixels.
pub open spec fn split_step(length: nat) -> int {
    if length == 7 {
        34
    } else {
        49
    }
}

/// The gap between other glyphs, in template pixels.
pub open spec fn font_step(length: nat) -> int {
    if length == 7 {
        12
    } else {
        9
    }
}

/// The width of glyph `i`, in template pixels: 45, or 43 after the first
/// glyph of an eight-character plate.
pub open spec fn glyph_width(length: nat, i: nat) -> int {
    if length == 8 && i > 0 {
        43
    } else {
        45
    }
}

/// The left edge of glyph `i` at scale `s`: 15 for the first glyph, then
/// each glyph follows the previous one's right edge after the split gap
/// (at `split`) or the ordinary gap.
pub open spec fn glyph_left(length: nat, split: nat, s: int, i: nat) -> int
    decreases i,
{
    if i == 0 {
        15 * s
    } else {
        let prev = (i - 1) as nat;
        glyph_left(length, split, s, prev) + glyph_width(length, prev) * s + (if i == split {
            split_step(length)
        } else {
            font_step(length)
        }) * s
    }
}

/// The right edge of glyph `i` at scale `s`.
pub open spec fn glyph_right(length: nat, split: nat, s: int, i: nat) -> int {
    glyph_left(length, split, s, i) + glyph_width(length, i) * s
}

/// Each glyph box is at least 43 units wide, and each glyph starts at least
/// 9 units after the previous one ends (units of `s`).
proof fn lemma_glyph_steps(length: nat, split: nat, s: int, i: nat)
    requires
        s >= 0,
    ensures
        0 <= glyph_left(length, split, s, i),
        glyph_left(length, split, s, i) + 43 * s <= glyph_right(length, split, s, i),
        glyph_right(length, split, s, i) <= glyph_left(length, split, s, i) + 45 * s,
        i > 0 ==> glyph_right(length, split, s, (i - 1) as nat) + 9 * s <= glyph_left(
            length,
            split,
            s,
            i,
        ),
    decreases i,
{
    let w = glyph_width(length, i);
    assert(43 * s <= w * s <= 45 * s) by (nonlinear_arith)
        requires
            s >= 0,
            43 <= w <= 45,
    ;
    if i > 0 {
        let prev = (i - 1) as nat;
        lemma_glyph_steps(length, split, s, prev);
        let st = if i == split {
            split_step(length)
        } else {
            font_step(length)
        };
        assert(9 * s <= st * s) by (nonlinear_arith)
            requires
                s >= 0,
                9 <= st,
        ;
    }
}

/// Right edges grow from glyph to glyph.
proof fn lemma_glyph_right_monotone(length: nat, split: nat, s: int, i: nat, j: nat)
    requires
        s >= 0,
        i <= j,
    ensures
        glyph_right(length, split, s, i) <= glyph_right(length, split, s, j),
    decreases j - i,
{
    if i < j {
        let prev = (j - 1) as nat;
        lemma_glyph_right_monotone(length, split, s, i, prev);
        lemma_glyph_steps(length, split, s, j);
    }
}

/// At scale `s`, every glyph edge is `s` times the edge at scale one.
pub proof fn lemma_boxes_scale(length: nat, split: nat, s: int, i: nat)
    ensures
        glyph_left(length, split, s, i) == s * glyph_left(length, split, 1, i),
        glyph_right(length, split, s, i) == s * glyph_right(length, split, 1, i),
    decreases i,
{
    let w = glyph_width(length, i);
    if i > 0 {
        let prev = (i - 1) as nat;
        lemma_boxes_scale(length, split, s, prev);
        let st = if i == split {
            split_step(length)
        } else {
            font_step(length)
        };
        let l1 = glyph_left(length, split, 1, prev);
        let wp = glyph_width(length, prev);
        assert(glyph_left(length, split, 1, i) == l1 + wp + st);
        assert(glyph_left(length, split, s, i) == s * l1 + wp * s + st * s);
        assert(s * l1 + wp * s + st * s == s * (l1 + wp + st)) by (nonlinear_arith);
    } else {
        assert(glyph_left(length, split, s, 0) == 15 * s);
        assert(glyph_left(length, split, 1, 0) == 15);
    }
    let l = glyph_left(length, split, 1, i);
    assert(glyph_right(length, split, 1, i) == l + w);
    assert(s * l + w * s == s * (l + w)) by (nonlinear_arith);
}

/// At a positive scale the glyph boxes are non-empty, start right of zero,
/// and stand left to right without touching.
pub proof fn lemma_boxes_ordered(length: nat, split: nat, s: int, i: nat)
    requires
        s >= 1,
    ensures
        0 < glyph_left(length, split, s, i) < glyph_right(length, split, s, i),
        i > 0 ==> glyph_right(length, split, s, (i - 1) as nat) < glyph_left(
            length,
            split,
            s,
            i,
        ),
    decreases i,
{
    lemma_glyph_steps(length, split, s, i);
    if i > 0 {
        lemma_boxes_ordered(length, split, s, (i - 1) as nat);
    }
}

/// Whether computing the glyph boxes stays within `i32`: the bottom edge
/// and the right edge of the last glyph fit (every other value computed
/// lies between zero and one of these).
pub open spec fn layout_fits(length: nat, split: nat, base_height: i32, scale: u32) -> bool {
    base_height != 140 || length == 0 || (115 * scale <= i32::MAX && glyph_right(
        length,
        split,
        scale as int,
        (length - 1) as nat,
    ) <= i32::MAX)
}

/// Whether [`location_data`] can compute the boxes of `length` glyphs split
/// after `split_id` on template `base_height` at `scale` within `i32`.
pub fn fits_layout(length: usize, split_id: usize, base_height: i32, scale: u32) -> (r: bool)
    ensures
        r == layout_fits(length as nat, split_id as nat, base_height, scale),
{
    if base_height != 140 || length == 0 {
        return true;
    }
    if scale as u64 * 115 > 0x7fff_ffffu64 {
        return false;
    }
    if scale == 0 {
        proof {
            lemma_boxes_scale(length as nat, split_id as nat, 0, (length - 1) as nat);
        }
        return true;
    }
    let ghost len = length as nat;
    let ghost sp = split_id as nat;
    let mut right: u64 = 60;
    let mut i: usize = 1;
    while i < length
        invariant
            1 <= i <= length,
            len == length,
            sp == split_id,
            right == glyph_right(len, sp, 1, (i - 1) as nat),
            right <= 0x7fff_ffffu64,
            scale >= 1,
            base_height == 140,
        decreases length - i,
    {
        let step: u64 = if i == split_id {
            if length == 7 {
                34
            } else {
                49
            }
        } else if length == 7 {
            12
        } else {
            9
        };
        let width: u64 = if length == 8 {
            43
        } else {
            45
        };
        let next = right + step + width;
        proof {
            lemma_glyph_steps(len, sp, 1, i as nat);
            assert(next == glyph_right(len, sp, 1, i as nat));
        }
        if next > 0x7fff_ffffu64 {
            proof {
                lemma_glyph_right_monotone(len, sp, 1, i as nat, (len - 1) as nat);
                lemma_boxes_scale(len, sp, scale as int, (len - 1) as nat);
                let g1 = glyph_right(len, sp, 1, (len - 1) as nat);
                lemma_glyph_steps(len, sp, 1, (len - 1) as nat);
                assert(scale as int * g1 >= g1) by (nonlinear_arith)
                    requires
                        scale >= 1,
                        g1 >= 0,
                ;
                assert(g1 >= next);
                assert(glyph_right(len, sp, scale as int, (len - 1) as nat) > i32::MAX);
            }
            return false;
        }
        right = next;
        i = i + 1;
    }
    proof {
        lemma_boxes_scale(len, sp, scale as int, (len - 1) as nat);
        assert(scale as u64 * right <= 0xffff_ffffu64 * 0x7fff_ffffu64) by (nonlinear_arith)
            requires
                scale <= 0xffff_ffffu64,
                right <= 0x7fff_ffffu64,
        ;
    }
    scale as u64 * right <= 0x7fff_ffffu64
}

/// The boxes `[left, top, right, bottom]` of the glyphs of a plate of
/// `length` characters. For the 140-pixel template the glyphs stand from 25
/// to 115 (scaled), one after another as [`glyph_left`] places them; for any
/// other template every box is zero.
pub fn location_data(length: usize, split_id: usize, base_height: i32, scale: u32) -> (r: Vec<
    [i32; 4],
>)
    requires
        layout_fits(length as nat, split_id as nat, base_height, scale),
    ensures
        r@.len() == length,
        forall|i: int|
            0 <= i < length ==> if base_height == 140 {
                &&& (#[trigger] r@[i])[0] == glyph_left(
                    length as nat,
                    split_id as nat,
                    scale as int,
                    i as nat,
                )
                &&& r@[i][1] == 25 * scale
                &&& r@[i][2] == glyph_right(length as nat, split_id as nat, scale as int, i as nat)
                &&& r@[i][3] == 115 * scale
            } else {
                #[trigger] r@[i] == [0i32, 0, 0, 0]
            },
{
    let mut out: Vec<[i32; 4]> = Vec::new();
    if base_height != 140 {
        let mut i: usize = 0;
        while i < length
            invariant
                i <= length,
                out@.len() == i,
                forall|j: int| 0 <= j < i ==> #[trigger] out@[j] == [0i32, 0, 0, 0],
            decreases length - i,
        {
            out.push([0, 0, 0, 0]);
            i = i + 1;
        }
        return out;
    }
    if length == 0 {
        return out;
    }
    let ghost len = length as nat;
    let ghost sp = split_id as nat;
    let ghost si = scale as int;
    let s = scale as i32;
    let step_split: i32 = if length == 7 {
        34
    } else {
        49
    };
    let step_font: i32 = if length == 7 {
        12
    } else {
        9
    };
    let mut prev_right: i32 = 0;
    let mut i: usize = 0;
    while i < length
        invariant
            0 < length,
            i <= length,
            base_height == 140,
            s == si,
            si == scale,
            len == length,
            sp == split_id,
            glyph_right(len, sp, si, (len - 1) as nat) <= i32::MAX,
            115 * si <= i32::MAX,
            step_split == split_step(len),
            step_font == font_step(len),
            i > 0 ==> prev_right == glyph_right(len, sp, si, (i - 1) as nat),
            out@.len() == i,
            forall|j: int|
                0 <= j < i ==> {
                    &&& (#[trigger] out@[j])[0] == glyph_left(len, sp, si, j as nat)
                    &&& out@[j][1] == 25 * si
                    &&& out@[j][2] == glyph_right(len, sp, si, j as nat)
                    &&& out@[j][3] == 115 * si
                },
        decreases length - i,
    {
        proof {
            lemma_glyph_steps(len, sp, si, i as nat);
            lemma_glyph_right_monotone(len, sp, si, i as nat, (len - 1) as nat);
            assert(25 * si <= 115 * si) by (nonlinear_arith)
                requires
                    si >= 0,
            ;
            assert(glyph_width(len, i as nat) * si <= 45 * si) by (nonlinear_arith)
                requires
                    si >= 0,
                    glyph_width(len, i as nat) <= 45,
            ;
            assert(glyph_width(len, i as nat) * si >= 0) by (nonlinear_arith)
                requires
                    si >= 0,
                    glyph_width(len, i as nat) >= 0,
            ;
        }
        let left: i32 = if i == 0 {
            15 * s
        } else if i == split_id {
            prev_right + step_split * s
        } else {
            prev_right + step_font * s
        };
        let width: i32 = if length == 8 && i > 0 {
            43
        } else {
            45
        };
        let right = left + width * s;
        out.push([left, 25 * s, right, 115 * s]);
        prev_right = right;
        i = i + 1;
    }
    out
}

/// Whether glyph `index` with character `ch` is painted red: `警`, `使`
/// and `领` are, and so is a letter opening the plate.
pub open spec fn red_glyph(index: nat, ch: char) -> bool {
    ch == '警' || ch == '使' || ch == '领' || (index == 0 && letter(ch))
}

/// Whether glyph `index` with character `ch` is painted red.
pub fn is_red_char(index: usize, ch: char) -> (r: bool)
    ensures
        r == red_glyph(index as nat, ch),
{
    (ch == '警' || ch == '使' || ch == '领') || (index == 0 && is_letter(ch))
}

/// The colour glyphs are painted in: red where [`red_glyph`] says, white on
/// templates whose key contains `blue` or `black`, black otherwise.
pub open spec fn glyph_color(bg_color: Seq<char>, is_red: bool) -> [u8; 3] {
    if is_red {
        [255u8, 0, 0]
    } else if has_infix(bg_color, "blue"@) || has_infix(bg_color, "black"@) {
        [255u8, 255, 255]
    } else {
        [0u8, 0, 0]
    }
}

/// The marks `警`, `使` and `领` are painted red wherever they stand; a
/// letter is painted red exactly when it opens the plate; no other
/// character is red. Red glyphs take pure red on every template.
pub proof fn lemma_red_glyphs(index: nat, ch: char, bg_color: Seq<char>)
    ensures
        ch == '警' || ch == '使' || ch == '领' ==> red_glyph(index, ch),
        letter(ch) ==> (red_glyph(index, ch) <==> index == 0),
        ch != '警' && ch != '使' && ch != '领' && !letter(ch) ==> !red_glyph(index, ch),
        red_glyph(index, ch) ==> glyph_color(bg_color, red_glyph(index, ch)) == [255u8, 0, 0],
{
}

/// The colour glyphs are painted in on template `bg_color`.
pub fn text_color(bg_color: &str, is_red: bool) -> (r: [u8; 3])
    ensures
        r == glyph_color(bg_color@, is_red),
{
    if is_red {
        return [255, 0, 0];
    }
    let bg = chars_of(bg_color);
    let blue = chars_of("blue");
    let black = chars_of("black");
    if contains_chars(bg.as_slice(), blue.as_slice()) || contains_chars(
        bg.as_slice(),
        black.as_slice(),
    ) {
        [255, 255, 255]
    } else {
        [0, 0, 0]
    }
}

/// The template file of colour `bg_color` and height `base_h`:
/// `{bg_color}_{base_h}.PNG`.
pub open spec fn model_file_name_spec(bg_color: Seq<char>, base_h: u32) -> Seq<char> {
    bg_color + "_"@ + decimal(base_h as nat) + ".PNG"@
}

/// The template file of colour `bg_color` and height `base_h`.
pub fn model_file_name(bg_color: &str, base_h: u32) -> (r: String)
    ensures
        r@ == model_file_name_spec(bg_color@, base_h),
{
    let mut s = owned(bg_color);
    s.append("_");
    let h = decimal_string(base_h as u64);
    s.append(h.as_str());
    s.append(".PNG");
    s
}

/// The name of the glyph image for `ch` on a plate of `plate_len`
/// characters: `green_{ch}` on eight-character plates, `{base_h}_{ch}`
/// otherwise.
pub open spec fn font_key_spec(plate_len: nat, ch: char, base_h: u32) -> Seq<char> {
    if plate_len == 8 {
        "green_"@.push(ch)
    } else {
        (decimal(base_h as nat) + "_"@).push(ch)
    }
}

/// The name of the glyph image for `ch` on `plate`.
pub fn font_key(plate: &str, ch: char, base_h: u32) -> (r: String)
    ensures
        r@ == font_key_spec(plate@.len(), ch, base_h),
{
    let n = chars_of(plate).len();
    let mut s = if n == 8 {
        owned("green_")
    } else {
        let mut t = decimal_string(base_h as u64);
        t.append("_");
        t
    };
    push_char(&mut s, ch);
    s
}

/// The part of `s` after its last `sep` (all of `s` when there is none),
/// as `s.rsplit(sep).next()` gives it.
pub open spec fn last_segment(s: Seq<char>, sep: char) -> Seq<char>
    decreases s.len(),
{
    if s.len() == 0 {
        s
    } else if s.last() == sep {
        seq![]
    } else {
        last_segment(s.drop_last(), sep).push(s.last())
    }
}

/// The part of `s` after its last `sep`.
fn last_segment_of(s: &[char], sep: char) -> (r: Vec<char>)
    ensures
        r@ == last_segment(s@, sep),
{
    let mut start = s.len();
    assert(s@.take(s@.len() as int) =~= s@);
    assert(s@.subrange(s@.len() as int, s@.len() as int) =~= Seq::<char>::empty());
    while start > 0 && s[start - 1] != sep
        invariant
            start <= s.len(),
            last_segment(s@, sep) == last_segment(s@.take(start as int), sep) + s@.subrange(
                start as int,
                s@.len() as int,
            ),
        decreases start,
    {
        let ghost t = s@.take(start as int);
        assert(t.drop_last() =~= s@.take(start - 1));
        assert(s@.subrange(start - 1, s@.len() as int) =~= seq![t.last()] + s@.subrange(
            start as int,
            s@.len() as int,
        ));
        assert(last_segment(t, sep) == last_segment(t.drop_last(), sep).push(t.last()));
        assert(last_segment(t.drop_last(), sep).push(t.last()) + s@.subrange(
            start as int,
            s@.len() as int,
        ) =~= last_segment(t.drop_last(), sep) + s@.subrange(start - 1, s@.len() as int));
        start = start - 1;
    }
    proof {
        assert(s@.take(s@.len() as int) =~= s@);
        assert(last_segment(s@.take(start as int), sep) =~= seq![]);
    }
    let mut out: Vec<char> = Vec::new();
    let mut i = start;
    while i < s.len()
        invariant
            start <= i <= s.len(),
            out@ == s@.subrange(start as int, i as int),
        decreases s.len() - i,
    {
        out.push(s[i]);
        assert(s@.subrange(start as int, i as int).push(s@[i as int]) =~= s@.subrange(
            start as int,
            i + 1,
        ));
        i = i + 1;
    }
    out
}

/// The size glyph images named `stem` are first brought to: (45, 90) when
/// the name contains `140`, (65, 110) when it contains `220`, (43, 90) when
/// the part after its last `_` is a single digit or plate letter, and none
/// otherwise.
pub open spec fn font_prescale_spec(stem: Seq<char>) -> Option<(u32, u32)> {
    if has_infix(stem, "140"@) {
        Some((45u32, 90u32))
    } else if has_infix(stem, "220"@) {
        Some((65u32, 110u32))
    } else {
        let seg = last_segment(stem, '_');
        if seg.len() == 1 && alnum(seg[0]) {
            Some((43u32, 90u32))
        } else {
            None
        }
    }
}

/// The size glyph images named `stem` are first brought to, if any.
pub fn font_prescale(stem: &str) -> (r: Option<(u32, u32)>)
    ensures
        r == font_prescale_spec(stem@),
{
    let s = chars_of(stem);
    let k140 = chars_of("140");
    if contains_chars(s.as_slice(), k140.as_slice()) {
        return Some((45, 90));
    }
    let k220 = chars_of("220");
    if contains_chars(s.as_slice(), k220.as_slice()) {
        return Some((65, 110));
    }
    let seg = last_segment_of(s.as_slice(), '_');
    if seg.len() == 1 && (is_digit(seg[0]) || is_letter(seg[0])) {
        Some((43, 90))
    } else {
        None
    }
}

/// What happens to the plate pixel under a glyph pixel.
#[derive(PartialEq, Eq, Structural, Clone, Copy, Debug)]
pub enum PixelAction {
    /// Light glyph pixel: the plate stays as it is.
    Keep,
    /// Dark glyph pixel: painted in the glyph colour.
    Paint,
    /// Edge pixel: mixed, `weight` fortieths glyph colour and the rest plate.
    Blend { weight: u8 },
}

/// What happens under a glyph pixel of grey value `px`: at 200 and above
/// nothing, below 160 solid paint, in between a mix weighted `200 - px`
/// fortieths towards the glyph colour.
pub open spec fn pixel_action_spec(px: u8) -> PixelAction {
    if px >= 200 {
        PixelAction::Keep
    } else if px < 160 {
        PixelAction::Paint
    } else {
        PixelAction::Blend { weight: (200 - px) as u8 }
    }
}

/// What happens under a glyph pixel of grey value `px`.
pub fn pixel_action(px: u8) -> (r: PixelAction)
    ensures
        r == pixel_action_spec(px),
{
    if px >= 200 {
        PixelAction::Keep
    } else if px < 160 {
        PixelAction::Paint
    } else {
        PixelAction::Blend { weight: 200 - px }
    }
}

} // verus!
