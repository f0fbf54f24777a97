//! Layout of the post-session statistics window: text metrics of the 8x8 bitmap font and the
//! window size that fits every statistics line and the footer hint.

use vstd::prelude::*;
use vstd::string::StrSliceExecFns;

verus! {

/// Left and right margin of the text, in pixels.
pub const MARGIN_X: i32 = 20;

/// Top margin of the text, in pixels.
pub const MARGIN_Y: i32 = 20;

/// Bitmap scale of the statistics lines.
pub const BODY_TEXT_SCALE: u32 = 2;

/// Bitmap scale of the footer hint.
pub const FOOTER_TEXT_SCALE: u32 = 1;

/// Vertical advance after a text line.
pub const LINE_STEP: i32 = 24;

/// Vertical advance after an empty line.
pub const EMPTY_LINE_STEP: i32 = 8;

/// Gap between the last line and the footer hint.
pub const FOOTER_TOP_GAP: i32 = 12;

/// Margin below the footer hint.
pub const BOTTOM_MARGIN: i32 = 20;

/// Heading of the statistics window.
pub const TITLE_TEXT: &'static str = "Session statistics";

/// Hint shown at the bottom of the statistics window.
pub const FOOTER_TEXT: &'static str = "Press Esc or close window to exit";

/// Glyph cell width of the bitmap font.
pub const GLYPH_W: i32 = 8;

/// Glyph cell height of the bitmap font.
pub const GLYPH_H: i32 = 8;

/// Scale actually drawn: a zero scale draws at scale 1.
pub open spec fn drawn_scale(scale: u32) -> int {
    if scale == 0 {
        1
    } else {
        scale as int
    }
}

/// Pixel width of `len` characters at `scale`: each glyph advances its width plus a one-unit gap.
pub open spec fn text_width(len: int, scale: u32) -> int {
    if len == 0 {
        0
    } else {
        len * (GLYPH_W * drawn_scale(scale) + drawn_scale(scale))
    }
}

/// The width of `len` characters at `scale` fits an `i32`.
pub open spec fn text_width_fits(len: int, scale: u32) -> bool {
    len == 0 || len * ((GLYPH_W + 1) * drawn_scale(scale)) <= i32::MAX
}

/// Pixel width of `text` at the given bitmap scale.
pub fn text_width_px(text: &str, scale: u32) -> (width: i32)
    requires
        text_width_fits(text@.len() as int, scale),
    ensures
        width == text_width(text@.len() as int, scale),
{
    if text.is_empty() {
        return 0;
    }
    let s: u32 = if scale == 0 {
        1
    } else {
        scale
    };
    let len = text.unicode_len();
    assert(9 * s <= i32::MAX && len <= i32::MAX) by (nonlinear_arith)
        requires
            len >= 1,
            s >= 1,
            len * (9 * s) <= i32::MAX,
    ;
    let advance: i32 = GLYPH_W * (s as i32) + (s as i32);
    (len as i32) * advance
}

/// Pixel height of a text line at the given bitmap scale.
pub fn text_height_px(scale: u32) -> (height: i32)
    requires
        GLYPH_H * drawn_scale(scale) <= i32::MAX,
    ensures
        height == GLYPH_H * drawn_scale(scale),
{
    let s: u32 = if scale == 0 {
        1
    } else {
        scale
    };
    GLYPH_H * (s as i32)
}

/// The widest of `init` and the body widths of the nonempty lines.
pub open spec fn widest_line(lines: Seq<String>, init: int) -> int
    decreases lines.len(),
{
    if lines.len() == 0 {
        init
    } else {
        let prev = widest_line(lines.drop_last(), init);
        let w = text_width(lines.last()@.len() as int, BODY_TEXT_SCALE);
        if lines.last()@.len() > 0 && w > prev {
            w
        } else {
            prev
        }
    }
}

/// Vertical advance of the line at `index`: the heading and text lines take a full step, empty
/// lines a short one.
pub open spec fn line_advance(index: int, line: String) -> int {
    if index == 0 {
        LINE_STEP as int
    } else if line@.len() == 0 {
        EMPTY_LINE_STEP as int
    } else {
        LINE_STEP as int
    }
}

/// Total vertical advance of the lines.
pub open spec fn lines_height(lines: Seq<String>) -> int
    decreases lines.len(),
{
    if lines.len() == 0 {
        0
    } else {
        lines_height(lines.drop_last()) + line_advance(lines.len() - 1, lines.last())
    }
}

/// Width of the statistics window: the widest of the heading, the lines and the footer, plus
/// both side margins.
pub open spec fn window_width(lines: Seq<String>) -> int {
    let body = widest_line(lines, text_width(TITLE_TEXT@.len() as int, BODY_TEXT_SCALE));
    let footer = text_width(FOOTER_TEXT@.len() as int, FOOTER_TEXT_SCALE);
    let widest = if footer > body {
        footer
    } else {
        body
    };
    widest + 2 * MARGIN_X
}

/// Height of the statistics window: top margin, the lines, the footer gap, the footer line and
/// the bottom margin.
pub open spec fn window_height(lines: Seq<String>) -> int {
    MARGIN_Y + lines_height(lines) + FOOTER_TOP_GAP + GLYPH_H * FOOTER_TEXT_SCALE + BOTTOM_MARGIN
}

/// The heading and footer are the literals they are declared as.
proof fn lemma_fixed_texts()
    ensures
        TITLE_TEXT@.len() == 18,
        FOOTER_TEXT@.len() == 33,
{
    reveal_strlit("Session statistics");
    reveal_strlit("Press Esc or close window to exit");
}

proof fn lemma_widest_line_bounds(lines: Seq<String>, init: int)
    requires
        forall|i: int|
            0 <= i < lines.len() ==> (#[trigger] lines[i])@.len() * 18 + 2 * MARGIN_X <= i32::MAX,
        0 <= init <= i32::MAX - 2 * MARGIN_X,
    ensures
        init <= widest_line(lines, init) <= i32::MAX - 2 * MARGIN_X,
    decreases lines.len(),
{
    if lines.len() > 0 {
        assert forall|i: int| 0 <= i < lines.len() - 1 implies (#[trigger] lines.drop_last()[i])@.len()
            * 18 + 2 * MARGIN_X <= i32::MAX by {
            assert(lines.drop_last()[i] == lines[i]);
        }
        lemma_widest_line_bounds(lines.drop_last(), init);
        assert(lines[lines.len() - 1] == lines.last());
    }
}

proof fn lemma_lines_height_bounds(lines: Seq<String>)
    ensures
        0 <= lines_height(lines) <= lines.len() * LINE_STEP,
    decreases lines.len(),
{
    if lines.len() > 0 {
        lemma_lines_height_bounds(lines.drop_last());
    }
}

/// Window size in pixels that fits all statistics lines and the footer hint.
pub fn stats_window_dimensions(lines: &[String]) -> (dims: (u32, u32))
    requires
        lines@.len() * LINE_STEP + MARGIN_Y + FOOTER_TOP_GAP + GLYPH_H + BOTTOM_MARGIN <= i32::MAX,
        forall|i: int|
            0 <= i < lines@.len() ==> (#[trigger] lines@[i])@.len() * 18 + 2 * MARGIN_X <= i32::MAX,
    ensures
        dims.0 == window_width(lines@),
        dims.1 == window_height(lines@),
{
    proof {
        lemma_fixed_texts();
    }
    let mut max_width = text_width_px(TITLE_TEXT, BODY_TEXT_SCALE);
    let ghost title = max_width as int;
    let mut i: usize = 0;
    while i < lines.len()
        invariant
            i <= lines@.len(),
            title == text_width(TITLE_TEXT@.len() as int, BODY_TEXT_SCALE),
            title == 324,
            max_width == widest_line(lines@.take(i as int), title),
            forall|j: int|
                0 <= j < lines@.len() ==> (#[trigger] lines@[j])@.len() * 18 + 2 * MARGIN_X
                    <= i32::MAX,
        decreases lines@.len() - i,
    {
        proof {
            assert(lines@.take(i + 1).drop_last() =~= lines@.take(i as int));
            assert(lines@.take(i + 1).last() == lines@[i as int]);
        }
        let line = lines[i].as_str();
        if !line.is_empty() {
            let w = text_width_px(line, BODY_TEXT_SCALE);
            if w > max_width {
                max_width = w;
            }
        }
        i = i + 1;
    }
    proof {
        assert(lines@.take(lines@.len() as int) =~= lines@);
        lemma_widest_line_bounds(lines@, title);
    }
    let footer = text_width_px(FOOTER_TEXT, FOOTER_TEXT_SCALE);
    if footer > max_width {
        max_width = footer;
    }
    let mut y: i32 = MARGIN_Y;
    let mut index: usize = 0;
    while index < lines.len()
        invariant
            index <= lines@.len(),
            lines@.len() * LINE_STEP + MARGIN_Y + FOOTER_TOP_GAP + GLYPH_H + BOTTOM_MARGIN <= i32::MAX,
            y == MARGIN_Y + lines_height(lines@.take(index as int)),
        decreases lines@.len() - index,
    {
        proof {
            assert(lines@.take(index + 1).drop_last() =~= lines@.take(index as int));
            assert(lines@.take(index + 1).last() == lines@[index as int]);
            lemma_lines_height_bounds(lines@.take(index as int));
        }
        if index == 0 {
            y = y + LINE_STEP;
        } else if lines[index].as_str().is_empty() {
            y = y + EMPTY_LINE_STEP;
        } else {
            y = y + LINE_STEP;
        }
        index = index + 1;
    }
    proof {
        assert(lines@.take(lines@.len() as int) =~= lines@);
        lemma_lines_height_bounds(lines@);
    }
    y = y + FOOTER_TOP_GAP + text_height_px(FOOTER_TEXT_SCALE) + BOTTOM_MARGIN;
    ((max_width + MARGIN_X * 2) as u32, y as u32)
}

proof fn lemma_widest_line_covers(lines: Seq<String>, init: int)
    ensures
        init <= widest_line(lines, init),
        forall|i: int|
            0 <= i < lines.len() && (#[trigger] lines[i])@.len() > 0 ==> text_width(
                lines[i]@.len() as int,
                BODY_TEXT_SCALE,
            ) <= widest_line(lines, init),
    decreases lines.len(),
{
    if lines.len() > 0 {
        lemma_widest_line_covers(lines.drop_last(), init);
        assert forall|i: int|
            0 <= i < lines.len() && (#[trigger] lines[i])@.len() > 0 implies text_width(
                lines[i]@.len() as int,
                BODY_TEXT_SCALE,
            ) <= widest_line(lines, init) by {
            if i < lines.len() - 1 {
                assert(lines.drop_last()[i] == lines[i]);
            }
        }
    }
}

/// The statistics window fits all its content: every nonempty line and the footer hint fit
/// between the side margins, and the heading, the lines, the footer gap and the footer line fit
/// above the bottom margin.
pub proof fn lemma_window_fits_content(lines: Seq<String>)
    ensures
        forall|i: int|
            0 <= i < lines.len() && (#[trigger] lines[i])@.len() > 0 ==> text_width(
                lines[i]@.len() as int,
                BODY_TEXT_SCALE,
            ) + 2 * MARGIN_X <= window_width(lines),
        text_width(TITLE_TEXT@.len() as int, BODY_TEXT_SCALE) + 2 * MARGIN_X <= window_width(lines),
        text_width(FOOTER_TEXT@.len() as int, FOOTER_TEXT_SCALE) + 2 * MARGIN_X <= window_width(lines),
        MARGIN_Y + lines_height(lines) + FOOTER_TOP_GAP + GLYPH_H * FOOTER_TEXT_SCALE + BOTTOM_MARGIN
            <= window_height(lines),
{
    lemma_widest_line_covers(lines, text_width(TITLE_TEXT@.len() as int, BODY_TEXT_SCALE));
}

} // verus!
