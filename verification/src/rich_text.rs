//! The layout engine: greedy word wrapping with per-character metrics,
//! line-level justification, bottom alignment to a shared baseline, padded
//! bordered chips, separators and a once-doubling bounding box.
//!
//! Every operation is specified by a pure transition on [`BuilderV`], the
//! mathematical model of the builder state.

use vstd::pervasive::VecAdditionalExecFns;
use vstd::prelude::*;

use crate::font::{char_width, font_wf, text_width, Font, FontKind, FontV};
use crate::font::{lemma_char_width_bounds, lemma_text_width_nonneg};
use crate::geom::{clip_add, clip_sub, in_wide_range, Point, Rect};
use crate::geom::{CHAR_WIDTH_MAX, COORD_LIMIT, DIM_MAX, LINE_THICKNESS, SIZE_MAX};

verus! {

/// Default font size of a fresh builder, in layout units.
pub const DEFAULT_FONT_SIZE: i64 = 10_000;

/// How a finalized line distributes its blocks horizontally.
#[derive(Clone, Copy, PartialEq, Eq, Structural, Debug)]
pub enum AlignStrategy {
    AlignLeft,
    AlignRight,
    JustifyEven,
}

/// A fatal layout failure; composing the current card stops, other cards are
/// unaffected.
#[derive(Debug)]
pub enum LayoutError {
    /// A single atomic token is wider than the whole box.
    UnfitToken { text: String, max_width: i64 },
    /// Content exceeds the box height even after one doubling.
    CardOverflow { name: String },
}

/// Model of a [`LayoutError`].
pub enum ErrV {
    UnfitToken { text: Seq<char>, max_width: int },
    CardOverflow { name: Seq<char> },
}

impl View for LayoutError {
    type V = ErrV;

    open spec fn view(&self) -> ErrV {
        match self {
            LayoutError::UnfitToken { text, max_width } => ErrV::UnfitToken {
                text: text@,
                max_width: *max_width as int,
            },
            LayoutError::CardOverflow { name } => ErrV::CardOverflow { name: name@ },
        }
    }
}

/// Model of a rectangle, in unbounded integers.
pub struct RectV {
    pub x: int,
    pub y: int,
    pub w: int,
    pub h: int,
}

/// Model of a [`Rect`].
pub open spec fn rect_v(r: Rect) -> RectV {
    RectV { x: r.x as int, y: r.y as int, w: r.w as int, h: r.h as int }
}

/// A run of text with its final rectangle, ready for rendering.
#[derive(Debug)]
pub struct TextChunk {
    pub text: String,
    pub rect: Rect,
    pub font: FontKind,
    pub font_size: i64,
}

/// Model of a [`TextChunk`].
#[verifier::ext_equal]
pub struct ChunkV {
    pub text: Seq<char>,
    pub rect: RectV,
    pub font: FontKind,
    pub size: int,
}

impl View for TextChunk {
    type V = ChunkV;

    open spec fn view(&self) -> ChunkV {
        ChunkV { text: self.text@, rect: rect_v(self.rect), font: self.font, size: self.font_size as int }
    }
}

/// One element of a line being laid out: a bare chunk, or an atomic padded
/// chip that may also draw a border.
#[derive(Debug)]
pub enum Block {
    Text(TextChunk),
    PaddedText { chunk: TextChunk, padding: i64, border: bool },
}

/// Model of a [`Block`].
#[verifier::ext_equal]
pub enum BlockV {
    Text(ChunkV),
    PaddedText { chunk: ChunkV, padding: int, border: bool },
}

impl View for Block {
    type V = BlockV;

    open spec fn view(&self) -> BlockV {
        match self {
            Block::Text(chunk) => BlockV::Text(chunk@),
            Block::PaddedText { chunk, padding, border } => BlockV::PaddedText {
                chunk: chunk@,
                padding: *padding as int,
                border: *border,
            },
        }
    }
}

/// A polyline to draw: open (a separator) or closed (a border).
#[derive(Debug)]
pub struct Polygon {
    pub points: Vec<Point>,
}

impl View for Polygon {
    type V = Seq<(int, int)>;

    open spec fn view(&self) -> Seq<(int, int)> {
        self.points@.map_values(|p: Point| (p.x as int, p.y as int))
    }
}

/// The finalized, immutable output of one card's layout.
#[derive(Debug)]
pub struct Scene {
    pub polygons: Vec<Polygon>,
    pub parts: Vec<TextChunk>,
}

/// Model of a [`Scene`].
#[verifier::ext_equal]
pub struct SceneV {
    pub polygons: Seq<Seq<(int, int)>>,
    pub parts: Seq<ChunkV>,
}

impl View for Scene {
    type V = SceneV;

    open spec fn view(&self) -> SceneV {
        SceneV {
            polygons: self.polygons@.map_values(|p: Polygon| p@),
            parts: self.parts@.map_values(|c: TextChunk| c@),
        }
    }
}

/// Model of the whole builder state.
#[verifier::ext_equal]
pub struct BuilderV {
    pub chunks: Seq<ChunkV>,
    pub polygons: Seq<Seq<(int, int)>>,
    pub line: Seq<BlockV>,
    pub bx: RectV,
    pub font: FontV,
    pub x: int,
    pub y: int,
    pub align: AlignStrategy,
    pub size: int,
    pub line_space: int,
    pub chunk_space: int,
}

/// The chunk inside a block.
pub open spec fn block_chunk(b: BlockV) -> ChunkV {
    match b {
        BlockV::Text(c) => c,
        BlockV::PaddedText { chunk, .. } => chunk,
    }
}

/// Outer width of a block (chip padding included).
pub open spec fn block_w(b: BlockV) -> int {
    match b {
        BlockV::Text(c) => c.rect.w,
        BlockV::PaddedText { chunk, padding, .. } => chunk.rect.w + 2 * padding,
    }
}

/// Outer height of a block (chip padding included).
pub open spec fn block_h(b: BlockV) -> int {
    match b {
        BlockV::Text(c) => c.rect.h,
        BlockV::PaddedText { chunk, padding, .. } => chunk.rect.h + 2 * padding,
    }
}

/// Sum of the outer widths of a line's blocks.
pub open spec fn sum_widths(line: Seq<BlockV>) -> int
    decreases line.len(),
{
    if line.len() == 0 {
        0
    } else {
        sum_widths(line.drop_last()) + block_w(line.last())
    }
}

/// Height of a line: its tallest block, or zero when empty.
pub open spec fn max_h(line: Seq<BlockV>) -> int
    decreases line.len(),
{
    if line.len() == 0 {
        0
    } else {
        let rest = max_h(line.drop_last());
        let h = block_h(line.last());
        if h > rest {
            h
        } else {
            rest
        }
    }
}

/// Every block of a well-formed line: nonnegative text extents, bounded
/// heights and paddings, outer width within the box width, and coordinates
/// still inside the saturation range.
pub open spec fn block_wf(b: BlockV, box_w: int) -> bool {
    let c = block_chunk(b);
    &&& 0 <= c.rect.w
    &&& 0 <= c.rect.h <= SIZE_MAX
    &&& block_w(b) <= box_w
    &&& 0 <= c.rect.x <= DIM_MAX + CHAR_WIDTH_MAX + SIZE_MAX
    &&& 0 <= c.rect.y <= COORD_LIMIT + SIZE_MAX
    &&& match b {
        BlockV::Text(_) => true,
        BlockV::PaddedText { padding, .. } => 0 <= padding <= SIZE_MAX,
    }
}

pub open spec fn line_wf(line: Seq<BlockV>, box_w: int) -> bool {
    forall|i: int| 0 <= i < line.len() ==> block_wf(#[trigger] line[i], box_w)
}

/// The builder invariant.
pub open spec fn builder_wf(b: BuilderV) -> bool {
    &&& font_wf(b.font)
    &&& 0 <= b.bx.w <= DIM_MAX
    &&& 0 <= b.bx.h <= 2 * DIM_MAX
    &&& -DIM_MAX <= b.bx.x <= DIM_MAX
    &&& -DIM_MAX <= b.bx.y <= DIM_MAX
    &&& 0 <= b.size <= SIZE_MAX
    &&& 0 <= b.line_space <= SIZE_MAX
    &&& 0 <= b.chunk_space <= CHAR_WIDTH_MAX
    &&& 0 <= b.x <= b.bx.w + CHAR_WIDTH_MAX
    &&& 0 <= b.y <= COORD_LIMIT
    &&& line_wf(b.line, b.bx.w)
    &&& sum_widths(b.line) <= b.x
    &&& sum_widths(b.line) <= b.bx.w
    &&& (b.line.len() == 0 ==> b.x == 0)
}

/// `b` bottom-aligned against the baseline `bottom`.
pub open spec fn set_block_y(b: BlockV, bottom: int) -> BlockV {
    match b {
        BlockV::Text(c) => BlockV::Text(ChunkV { rect: RectV { y: bottom - c.rect.h, ..c.rect }, ..c }),
        BlockV::PaddedText { chunk, padding, border } => BlockV::PaddedText {
            chunk: ChunkV {
                rect: RectV { y: bottom - chunk.rect.h - padding, ..chunk.rect },
                ..chunk
            },
            padding,
            border,
        },
    }
}

/// `b` moved so that its outer left edge sits at `x`.
pub open spec fn set_block_x(b: BlockV, x: int) -> BlockV {
    match b {
        BlockV::Text(c) => BlockV::Text(ChunkV { rect: RectV { x, ..c.rect }, ..c }),
        BlockV::PaddedText { chunk, padding, border } => BlockV::PaddedText {
            chunk: ChunkV { rect: RectV { x: x + padding, ..chunk.rect }, ..chunk },
            padding,
            border,
        },
    }
}

/// The outer left edge of a block as currently placed.
pub open spec fn block_left_edge(b: BlockV) -> int {
    match b {
        BlockV::Text(c) => c.rect.x,
        BlockV::PaddedText { chunk, padding, .. } => chunk.rect.x - padding,
    }
}

/// Every block bottom-aligned to the shared baseline `y + max_h(line)`.
pub open spec fn align_y_spec(line: Seq<BlockV>, y: int) -> Seq<BlockV> {
    Seq::new(line.len(), |i: int| set_block_y(line[i], y + max_h(line)))
}

/// Sum of the outer widths of the first `i` blocks.
pub open spec fn prefix_w(line: Seq<BlockV>, i: int) -> int {
    sum_widths(line.subrange(0, i))
}

/// Horizontal position of block `i` under even justification: the leftover
/// slack is distributed evenly over the `n - 1` gaps, and the line ends
/// exactly at the right edge of the box.
pub open spec fn justify_x(line: Seq<BlockV>, w: int, i: int) -> int {
    prefix_w(line, i) + i * (w - sum_widths(line)) / (line.len() - 1)
}

/// Even justification.  Lines of one or two blocks keep their left-packed
/// positions: a deliberate tie-break, not an omission.
pub open spec fn justify_spec(line: Seq<BlockV>, w: int) -> Seq<BlockV> {
    if line.len() <= 2 {
        line
    } else {
        Seq::new(line.len(), |i: int| set_block_x(line[i], justify_x(line, w, i)))
    }
}

/// Horizontal position of block `i` when packing from the right edge
/// backward, separated by the chunk spacing.
pub open spec fn right_pos(line: Seq<BlockV>, w: int, cs: int, i: int) -> int
    decreases line.len() - i,
{
    if i >= line.len() - 1 {
        clip_sub(w, block_w(line[i]))
    } else {
        clip_sub(clip_sub(right_pos(line, w, cs, i + 1), cs), block_w(line[i]))
    }
}

/// Right alignment: blocks packed against the right edge, order preserved.
pub open spec fn right_spec(line: Seq<BlockV>, w: int, cs: int) -> Seq<BlockV> {
    Seq::new(line.len(), |i: int| set_block_x(line[i], right_pos(line, w, cs, i)))
}

/// A finalized line: bottom-aligned, then horizontally arranged.
pub open spec fn placed_line(
    line: Seq<BlockV>,
    y: int,
    align: AlignStrategy,
    w: int,
    cs: int,
) -> Seq<BlockV> {
    let aligned = align_y_spec(line, y);
    match align {
        AlignStrategy::AlignLeft => aligned,
        AlignStrategy::AlignRight => right_spec(aligned, w, cs),
        AlignStrategy::JustifyEven => justify_spec(aligned, w),
    }
}

/// The chunks of a line, in order.
pub open spec fn chunks_seq(line: Seq<BlockV>) -> Seq<ChunkV> {
    line.map_values(|b: BlockV| block_chunk(b))
}

/// Outline of `r` inset by the line thickness: five points, closed.
pub open spec fn outline_points(r: RectV) -> Seq<(int, int)> {
    let x = r.x + LINE_THICKNESS;
    let y = r.y + LINE_THICKNESS;
    let w = r.w - 2 * LINE_THICKNESS;
    let h = r.h - 2 * LINE_THICKNESS;
    seq![(x, y), (x + w, y), (x + w, y + h), (x, y + h), (x, y)]
}

/// The border rectangle of a chip: its chunk rectangle dilated by the
/// padding.
pub open spec fn chip_border_rect(chunk: ChunkV, padding: int) -> RectV {
    RectV {
        x: chunk.rect.x - padding,
        y: chunk.rect.y - padding,
        w: chunk.rect.w + 2 * padding,
        h: chunk.rect.h + 2 * padding,
    }
}

/// The border outlines a finalized line contributes, in block order.
pub open spec fn border_polys(line: Seq<BlockV>) -> Seq<Seq<(int, int)>>
    decreases line.len(),
{
    if line.len() == 0 {
        Seq::empty()
    } else {
        border_polys(line.drop_last()) + match line.last() {
            BlockV::PaddedText { chunk, padding, border } => if border {
                seq![outline_points(chip_border_rect(chunk, padding))]
            } else {
                Seq::<Seq<(int, int)>>::empty()
            },
            _ => Seq::<Seq<(int, int)>>::empty(),
        }
    }
}

/// Finalizing a line: a no-op when the line is empty; otherwise the blocks
/// are bottom-aligned, horizontally arranged, moved into the scene together
/// with any chip borders, and the cursor advances one line.
pub open spec fn finish_line_spec(b: BuilderV) -> BuilderV {
    if b.line.len() == 0 {
        b
    } else {
        let placed = placed_line(b.line, b.y, b.align, b.bx.w, b.chunk_space);
        BuilderV {
            chunks: b.chunks + chunks_seq(placed),
            polygons: b.polygons + border_polys(placed),
            line: Seq::<BlockV>::empty(),
            x: 0,
            y: clip_add(b.y, max_h(b.line) + b.line_space),
            ..b
        }
    }
}

/// Pushing one outline polygon, inset by the line thickness.
pub open spec fn add_rect_spec(b: BuilderV, r: RectV) -> BuilderV {
    BuilderV { polygons: b.polygons.push(outline_points(r)), ..b }
}

/// The word separator: ASCII whitespace.
pub open spec fn is_space(c: char) -> bool {
    c == ' ' || c == '\t' || c == '\n' || c == '\r'
}

/// First position at or after `i` holding a non-space, or the end.
pub open spec fn skip_spaces(t: Seq<char>, i: int) -> int
    decreases t.len() - i,
{
    if i < 0 || i >= t.len() {
        t.len() as int
    } else if !is_space(t[i]) {
        i
    } else {
        skip_spaces(t, i + 1)
    }
}

/// First position at or after `i` holding a space, or the end.
pub open spec fn word_end(t: Seq<char>, i: int) -> int
    decreases t.len() - i,
{
    if i < 0 || i >= t.len() {
        t.len() as int
    } else if is_space(t[i]) {
        i
    } else {
        word_end(t, i + 1)
    }
}

/// End of the next word at or after `off`: spaces skipped, then the word.
pub open spec fn next_word_spec(t: Seq<char>, off: int) -> int {
    word_end(t, skip_spaces(t, off))
}

/// Position after the last non-space of `t`.
pub open spec fn rtrim_idx(t: Seq<char>) -> int
    decreases t.len(),
{
    if t.len() == 0 {
        0
    } else if is_space(t.last()) {
        rtrim_idx(t.drop_last())
    } else {
        t.len() as int
    }
}

/// The greedy chunk scan: starting from word end `off` with `best` the last
/// fitting candidate, extend the candidate prefix `t[lo..j]` word by word
/// while it still fits between `x` and the right edge `w`; the result is the
/// end of the widest fitting prefix, or `None` when not even one word fits.
pub open spec fn split_scan(
    f: FontV,
    size: int,
    t: Seq<char>,
    lo: int,
    hi: int,
    x: int,
    w: int,
    off: int,
    best: Option<int>,
) -> Option<int>
    decreases hi - off,
{
    if off >= hi {
        best
    } else {
        let j = next_word_spec(t, off);
        if j <= off || j > hi {
            best
        } else if x + text_width(f, size, t.subrange(lo, j)) <= w {
            split_scan(f, size, t, lo, hi, x, w, j, Some(j))
        } else {
            best
        }
    }
}

/// A laid-out text chunk as [`add_text`](SceneBuilder::add_text) places it:
/// at the cursor, as tall as the font size, as wide as its measured text.
pub open spec fn placed_chunk(b: BuilderV, t: Seq<char>) -> ChunkV {
    ChunkV {
        text: t,
        rect: RectV { x: b.x, y: b.y, w: text_width(b.font, b.size, t), h: b.size },
        font: b.font.kind,
        size: b.size,
    }
}

/// Appending one fitting chunk to the open line.
pub open spec fn push_chunk(b: BuilderV, t: Seq<char>) -> BuilderV {
    BuilderV {
        line: b.line.push(BlockV::Text(placed_chunk(b, t))),
        x: b.x + text_width(b.font, b.size, t) + b.chunk_space,
        ..b
    }
}

/// Wrapping text into the box, from `lo` (exclusive of trailing spaces after
/// `hi`): repeatedly place the widest fitting chunk; when nothing fits, break
/// the line and retry, or fail on an empty line with the unfit word.
pub open spec fn add_text_rec(b: BuilderV, t: Seq<char>, lo: int, hi: int) -> Result<
    BuilderV,
    ErrV,
>
    decreases hi - lo, b.line.len(),
{
    if lo >= hi {
        Ok(b)
    } else {
        let start = skip_spaces(t, lo);
        match split_scan(b.font, b.size, t, start, hi, b.x, b.bx.w, start, None) {
            Some(j) => if lo < j && start < j && j <= hi {
                add_text_rec(push_chunk(b, t.subrange(start, j)), t, j, hi)
            } else {
                Ok(b)
            },
            None => if b.line.len() == 0 {
                Err(
                    ErrV::UnfitToken {
                        text: t.subrange(lo, next_word_spec(t, lo)),
                        max_width: b.bx.w,
                    },
                )
            } else {
                add_text_rec(finish_line_spec(b), t, lo, hi)
            },
        }
    }
}

/// Wrapping a whole text: both ends trimmed, then wrapped word by word.
pub open spec fn add_text_spec(b: BuilderV, t: Seq<char>) -> Result<BuilderV, ErrV> {
    add_text_rec(b, t, skip_spaces(t, 0), rtrim_idx(t))
}

/// Placing one atomic chip: text plus padding on every side, bordered.  A
/// chip wider than the box is the unfit-token failure; one that merely does
/// not fit the remaining room of a non-empty line forces a line break first.
pub open spec fn add_boxed_text_spec(b: BuilderV, t: Seq<char>, padding: int) -> Result<
    BuilderV,
    ErrV,
> {
    let tw = text_width(b.font, b.size, t);
    let bw = tw + 2 * padding;
    if bw > b.bx.w {
        Err(ErrV::UnfitToken { text: t, max_width: b.bx.w })
    } else {
        let b1 = if bw + b.x > b.bx.w {
            finish_line_spec(b)
        } else {
            b
        };
        let chunk = ChunkV {
            text: t,
            rect: RectV { x: b1.x + padding, y: b1.y + padding, w: tw, h: b1.size },
            font: b1.font.kind,
            size: b1.size,
        };
        Ok(
            BuilderV {
                line: b1.line.push(BlockV::PaddedText { chunk, padding, border: true }),
                x: b1.x + bw + b1.chunk_space,
                ..b1
            },
        )
    }
}

/// A separator: the open line finalized, a vertical gap of two line spaces,
/// one open horizontal polygon across the box, one more line space.
pub open spec fn add_separator_spec(b: BuilderV) -> BuilderV {
    let b1 = finish_line_spec(b);
    let y1 = clip_add(b1.y, 2 * b1.line_space);
    let poly = seq![(b1.bx.x, b1.bx.y + y1), (b1.bx.x + b1.bx.w, b1.bx.y + y1)];
    BuilderV { polygons: b1.polygons.push(poly), y: clip_add(y1, b1.line_space), ..b1 }
}

/// Whether `c` separates words.
pub fn is_space_char(c: char) -> (r: bool)
    ensures
        r == is_space(c),
{
    c == ' ' || c == '\t' || c == '\n' || c == '\r'
}

/// First position at or after `from` holding a non-space, or the end.
fn skip_spaces_exec(s: &str, from: usize, n: usize) -> (r: usize)
    requires
        from <= n,
        n as int == s@.len(),
    ensures
        r as int == skip_spaces(s@, from as int),
        from <= r <= n,
{
    let mut i = from;
    while i < n && is_space_char(s.get_char(i))
        invariant
            from <= i <= n,
            n as int == s@.len(),
            skip_spaces(s@, from as int) == skip_spaces(s@, i as int),
        decreases n - i,
    {
        i = i + 1;
    }
    i
}

/// First position at or after `from` holding a space, or the end.
fn word_end_exec(s: &str, from: usize, n: usize) -> (r: usize)
    requires
        from <= n,
        n as int == s@.len(),
    ensures
        r as int == word_end(s@, from as int),
        from <= r <= n,
{
    let mut i = from;
    while i < n && !is_space_char(s.get_char(i))
        invariant
            from <= i <= n,
            n as int == s@.len(),
            word_end(s@, from as int) == word_end(s@, i as int),
        decreases n - i,
    {
        i = i + 1;
    }
    i
}

/// End of the next whitespace-delimited word at or after `offset`.
pub fn next_word(s: &str, offset: usize) -> (r: usize)
    requires
        offset as int <= s@.len(),
    ensures
        r as int == next_word_spec(s@, offset as int),
        offset <= r,
        r as int <= s@.len(),
{
    let n = s.unicode_len();
    let start = skip_spaces_exec(s, offset, n);
    word_end_exec(s, start, n)
}

/// Position after the last non-space of `s`.
fn rtrim_exec(s: &str, n: usize) -> (r: usize)
    requires
        n as int == s@.len(),
    ensures
        r as int == rtrim_idx(s@),
        r <= n,
{
    proof {
        assert(s@.subrange(0, n as int) =~= s@);
    }
    let mut j = n;
    while j > 0 && is_space_char(s.get_char(j - 1))
        invariant
            0 <= j <= n,
            n as int == s@.len(),
            rtrim_idx(s@) == rtrim_idx(s@.subrange(0, j as int)),
        decreases j,
    {
        proof {
            assert(s@.subrange(0, j as int).drop_last() =~= s@.subrange(0, j as int - 1));
            assert(s@.subrange(0, j as int).last() == s@[j as int - 1]);
        }
        j = j - 1;
    }
    proof {
        if j > 0 {
            assert(s@.subrange(0, j as int).last() == s@[j as int - 1]);
        }
    }
    j
}

/// `skip_spaces` stops at or before any non-space position.
pub proof fn lemma_skip_le_nonspace(t: Seq<char>, i: int, k: int)
    requires
        0 <= i <= k < t.len(),
        !is_space(t[k]),
    ensures
        skip_spaces(t, i) <= k,
    decreases k - i,
{
    if i < k && is_space(t[i]) {
        lemma_skip_le_nonspace(t, i + 1, k);
    }
}

/// The characters at and beyond the trimmed end are spaces; the one just
/// before it is not.
pub proof fn lemma_rtrim_props(t: Seq<char>)
    ensures
        0 <= rtrim_idx(t) <= t.len(),
        rtrim_idx(t) > 0 ==> !is_space(t[rtrim_idx(t) - 1]),
        forall|j: int| rtrim_idx(t) <= j < t.len() ==> is_space(#[trigger] t[j]),
    decreases t.len(),
{
    if t.len() > 0 && is_space(t.last()) {
        lemma_rtrim_props(t.drop_last());
        assert forall|j: int| rtrim_idx(t) <= j < t.len() implies is_space(#[trigger] t[j]) by {
            if j < t.len() - 1 {
                assert(t.drop_last()[j] == t[j]);
            }
        }
    }
}

/// A line's height is never negative.
pub proof fn lemma_max_h_nonneg(line: Seq<BlockV>)
    ensures
        max_h(line) >= 0,
    decreases line.len(),
{
    if line.len() > 0 {
        lemma_max_h_nonneg(line.drop_last());
    }
}

/// On a well-formed line the height is bounded.
pub proof fn lemma_max_h_bound(line: Seq<BlockV>, box_w: int)
    requires
        line_wf(line, box_w),
    ensures
        max_h(line) <= 3 * SIZE_MAX,
    decreases line.len(),
{
    if line.len() > 0 {
        assert(line_wf(line.drop_last(), box_w));
        lemma_max_h_bound(line.drop_last(), box_w);
        assert(block_wf(line.last(), box_w));
    }
}

/// On a well-formed line the width sum is nonnegative.
pub proof fn lemma_sum_widths_nonneg(line: Seq<BlockV>, box_w: int)
    requires
        line_wf(line, box_w),
    ensures
        sum_widths(line) >= 0,
    decreases line.len(),
{
    if line.len() > 0 {
        assert(line_wf(line.drop_last(), box_w));
        lemma_sum_widths_nonneg(line.drop_last(), box_w);
        assert(block_wf(line.last(), box_w));
    }
}

/// A prefix never outweighs the whole line.
pub proof fn lemma_prefix_le(line: Seq<BlockV>, box_w: int, i: int)
    requires
        line_wf(line, box_w),
        0 <= i <= line.len(),
    ensures
        prefix_w(line, i) <= sum_widths(line),
    decreases line.len() - i,
{
    if i == line.len() {
        assert(line.subrange(0, i) =~= line);
    } else {
        lemma_prefix_le(line, box_w, i + 1);
        assert(line.subrange(0, i + 1).drop_last() =~= line.subrange(0, i));
        assert(line.subrange(0, i + 1).last() == line[i]);
        assert(block_wf(line[i], box_w));
    }
}

/// Width sums agree on lines whose blocks have equal widths.
pub proof fn lemma_sum_widths_congruence(a: Seq<BlockV>, b: Seq<BlockV>)
    requires
        a.len() == b.len(),
        forall|i: int| 0 <= i < a.len() ==> block_w(#[trigger] a[i]) == block_w(b[i]),
    ensures
        sum_widths(a) == sum_widths(b),
    decreases a.len(),
{
    if a.len() > 0 {
        lemma_sum_widths_congruence(a.drop_last(), b.drop_last());
    }
}

/// Right-packed positions agree on lines whose blocks have equal widths.
pub proof fn lemma_right_pos_congruence(a: Seq<BlockV>, b: Seq<BlockV>, w: int, cs: int, i: int)
    requires
        a.len() == b.len(),
        0 <= i < a.len(),
        forall|j: int| 0 <= j < a.len() ==> block_w(#[trigger] a[j]) == block_w(b[j]),
    ensures
        right_pos(a, w, cs, i) == right_pos(b, w, cs, i),
    decreases a.len() - i,
{
    if i < a.len() - 1 {
        lemma_right_pos_congruence(a, b, w, cs, i + 1);
    }
}

/// Right-packed positions stay within the saturation range and never exceed
/// the right edge.
pub proof fn lemma_right_pos_bounds(line: Seq<BlockV>, box_w: int, w: int, cs: int, i: int)
    requires
        line_wf(line, box_w),
        0 <= w,
        0 <= cs,
        0 <= i < line.len(),
    ensures
        -COORD_LIMIT <= right_pos(line, w, cs, i) <= w,
    decreases line.len() - i,
{
    assert(block_wf(line[i], box_w));
    if i < line.len() - 1 {
        lemma_right_pos_bounds(line, box_w, w, cs, i + 1);
    }
}

/// Pointwise description of a finalized line: block `i` is the incoming
/// block, bottom-aligned, at the position its alignment mode assigns.
pub open spec fn final_x(line: Seq<BlockV>, align: AlignStrategy, w: int, cs: int, i: int) -> int {
    match align {
        AlignStrategy::AlignLeft => block_left_edge(line[i]),
        AlignStrategy::AlignRight => right_pos(line, w, cs, i),
        AlignStrategy::JustifyEven => if line.len() <= 2 {
            block_left_edge(line[i])
        } else {
            justify_x(line, w, i)
        },
    }
}

pub proof fn lemma_placed_pointwise(line: Seq<BlockV>, y: int, align: AlignStrategy, w: int, cs: int)
    ensures
        placed_line(line, y, align, w, cs).len() == line.len(),
        forall|i: int|
            0 <= i < line.len() ==> placed_line(line, y, align, w, cs)[i] == set_block_x(
                #[trigger] set_block_y(line[i], y + max_h(line)),
                final_x(line, align, w, cs, i),
            ),
{
    let bottom = y + max_h(line);
    let aligned = align_y_spec(line, y);
    assert forall|i: int| 0 <= i < line.len() implies placed_line(line, y, align, w, cs)[i]
        == set_block_x(#[trigger] set_block_y(line[i], bottom), final_x(line, align, w, cs, i)) by {
        assert(aligned[i] == set_block_y(line[i], bottom));
        assert(block_w(aligned[i]) == block_w(line[i]));
        assert(forall|j: int|
            0 <= j < line.len() ==> block_w(#[trigger] aligned[j]) == block_w(line[j]));
        match align {
            AlignStrategy::AlignLeft => {
                assert(set_block_x(set_block_y(line[i], bottom), block_left_edge(line[i]))
                    == aligned[i]);
            },
            AlignStrategy::AlignRight => {
                lemma_right_pos_congruence(aligned, line, w, cs, i);
            },
            AlignStrategy::JustifyEven => {
                if line.len() <= 2 {
                    assert(set_block_x(set_block_y(line[i], bottom), block_left_edge(line[i]))
                        == aligned[i]);
                } else {
                    lemma_sum_widths_congruence(aligned, line);
                    assert(aligned.subrange(0, i) =~= Seq::new(
                        i as nat,
                        |j: int| set_block_y(line[j], bottom),
                    ));
                    assert(line.subrange(0, i).len() == i);
                    lemma_sum_widths_congruence(aligned.subrange(0, i), line.subrange(0, i));
                }
            },
        }
    }
}

/// The outer bottom edge of a block.
pub open spec fn block_bottom(b: BlockV) -> int {
    match b {
        BlockV::Text(c) => c.rect.y + c.rect.h,
        BlockV::PaddedText { chunk, padding, .. } => chunk.rect.y + chunk.rect.h + padding,
    }
}

/// In any region without spaces the word runs to the end.
proof fn lemma_word_end_all_nonspace(t: Seq<char>, i: int)
    requires
        0 <= i <= t.len(),
        forall|k: int| i <= k < t.len() ==> !is_space(#[trigger] t[k]),
    ensures
        word_end(t, i) == t.len(),
    decreases t.len() - i,
{
    if i < t.len() {
        lemma_word_end_all_nonspace(t, i + 1);
    }
}

/// The quotient of a sum steps by at least the quotient of the addend and at
/// most one more.
proof fn lemma_floor_step(a: int, s: int, q: int)
    requires
        0 <= a,
        0 <= s,
        1 <= q,
    ensures
        s / q <= (a + s) / q - a / q <= s / q + 1,
{
    let fa = a / q;
    let ra = a % q;
    vstd::arithmetic::div_mod::lemma_fundamental_div_mod(a, q);
    assert(0 <= ra < q);
    vstd::arithmetic::div_mod::lemma_hoist_over_denominator(ra + s, fa, q as nat);
    assert(ra + s + fa * q == a + s);
    vstd::arithmetic::div_mod::lemma_div_is_ordered(s, ra + s, q);
    vstd::arithmetic::div_mod::lemma_div_is_ordered(ra + s, s + q - 1, q);
    vstd::arithmetic::div_mod::lemma_div_is_ordered(s + q - 1, s + q, q);
    vstd::arithmetic::div_mod::lemma_hoist_over_denominator(s, 1, q as nat);
    assert(s + 1 * q == s + q);
}

/// Justify-even law: on a line of more than two blocks whose widths fit the
/// box, the justified line spans the box width exactly — the first block
/// starts at the left edge, the last ends at the right edge, there is no
/// residual slack — and all inter-block gaps are equal to within one unit.
pub proof fn lemma_justify_even_fills_box(line: Seq<BlockV>, w: int)
    requires
        line_wf(line, w),
        line.len() > 2,
        sum_widths(line) <= w,
        0 <= w,
    ensures
        justify_spec(line, w).len() == line.len(),
        block_left_edge(justify_spec(line, w)[0]) == 0,
        block_left_edge(justify_spec(line, w)[line.len() - 1]) + block_w(
            justify_spec(line, w)[line.len() - 1],
        ) == w,
        forall|i: int|
            0 <= i < line.len() - 1 ==> (w - sum_widths(line)) / (line.len() - 1) <= #[trigger] (
            block_left_edge(justify_spec(line, w)[i + 1]) - (block_left_edge(
                justify_spec(line, w)[i],
            ) + block_w(justify_spec(line, w)[i]))) <= (w - sum_widths(line)) / (line.len() - 1)
                + 1,
{
    let out = justify_spec(line, w);
    let n = line.len() as int;
    let s = w - sum_widths(line);
    let q = n - 1;
    lemma_sum_widths_nonneg(line, w);
    assert forall|i: int| 0 <= i < n implies #[trigger] block_left_edge(out[i]) == justify_x(
        line,
        w,
        i,
    ) && block_w(out[i]) == block_w(line[i]) by {
        assert(out[i] == set_block_x(line[i], justify_x(line, w, i)));
    }
    // first block at the left edge
    assert(line.subrange(0, 0) =~= Seq::<BlockV>::empty());
    assert(0 * s == 0) by (nonlinear_arith);
    assert(justify_x(line, w, 0) == 0int + 0int / q);
    vstd::arithmetic::div_mod::lemma_div_of0(q);
    // last block ends at the right edge
    assert(line.subrange(0, n - 1) =~= line.drop_last());
    assert(sum_widths(line) == prefix_w(line, n - 1) + block_w(line[n - 1]));
    assert(q * s == s * q) by (nonlinear_arith);
    vstd::arithmetic::div_mod::lemma_div_multiples_vanish(s, q);
    assert(justify_x(line, w, n - 1) == prefix_w(line, n - 1) + s);
    // gaps
    assert forall|i: int| 0 <= i < n - 1 implies s / q <= #[trigger] (block_left_edge(out[i + 1])
        - (block_left_edge(out[i]) + block_w(out[i]))) <= s / q + 1 by {
        assert(line.subrange(0, i + 1).drop_last() =~= line.subrange(0, i));
        assert(line.subrange(0, i + 1).last() == line[i]);
        assert(prefix_w(line, i + 1) == prefix_w(line, i) + block_w(line[i]));
        assert((i + 1) * s == i * s + s) by (nonlinear_arith);
        assert(i * s >= 0) by (nonlinear_arith)
            requires
                0 <= i,
                0 <= s,
        ;
        lemma_floor_step(i * s, s, q);
    }
}

/// Justify-even no-op law: a line of one or two blocks keeps its left-packed
/// positions; no slack is redistributed.
pub proof fn lemma_justify_small_line_untouched(line: Seq<BlockV>, w: int)
    requires
        line.len() <= 2,
    ensures
        justify_spec(line, w) == line,
{
}

/// Bottom-alignment law: every block of a finalized line shares one
/// baseline; each block's outer bottom edge sits at the line's top plus the
/// line's height, whatever the alignment mode.
pub proof fn lemma_bottom_alignment(
    line: Seq<BlockV>,
    y: int,
    align: AlignStrategy,
    w: int,
    cs: int,
)
    ensures
        placed_line(line, y, align, w, cs).len() == line.len(),
        forall|i: int|
            0 <= i < line.len() ==> #[trigger] block_bottom(placed_line(line, y, align, w, cs)[i])
                == y + max_h(line),
{
    lemma_placed_pointwise(line, y, align, w, cs);
    assert forall|i: int| 0 <= i < line.len() implies #[trigger] block_bottom(
        placed_line(line, y, align, w, cs)[i],
    ) == y + max_h(line) by {
        assert(placed_line(line, y, align, w, cs)[i] == set_block_x(
            set_block_y(line[i], y + max_h(line)),
            final_x(line, align, w, cs, i),
        ));
    }
}

/// Single-word fit law: a word no wider than the box always fits on an empty
/// line; wrapping it succeeds and places exactly that word at the cursor.
pub proof fn lemma_single_word_fits(b: BuilderV, t: Seq<char>)
    requires
        builder_wf(b),
        b.line.len() == 0,
        t.len() > 0,
        forall|k: int| 0 <= k < t.len() ==> !is_space(#[trigger] t[k]),
        text_width(b.font, b.size, t) <= b.bx.w,
    ensures
        add_text_spec(b, t) == Ok::<BuilderV, ErrV>(push_chunk(b, t)),
{
    let n = t.len() as int;
    assert(rtrim_idx(t) == n);
    assert(skip_spaces(t, 0) == 0);
    lemma_word_end_all_nonspace(t, 0);
    assert(next_word_spec(t, 0) == n);
    assert(t.subrange(0, n) =~= t);
    assert(split_scan(b.font, b.size, t, 0, n, b.x, b.bx.w, n, Some(n)) == Some(n));
    assert(split_scan(b.font, b.size, t, 0, n, b.x, b.bx.w, 0, None) == Some(n));
    assert(add_text_rec(push_chunk(b, t), t, n, n) == Ok::<BuilderV, ErrV>(push_chunk(b, t)));
    assert(add_text_rec(b, t, 0, n) == Ok::<BuilderV, ErrV>(push_chunk(b, t)));
}

/// Oversized-word law: a word wider than the box raises the unfit-token
/// failure on an empty line, carrying the word and the box width; no content
/// is produced.
pub proof fn lemma_oversized_word_unfit(b: BuilderV, t: Seq<char>)
    requires
        builder_wf(b),
        b.line.len() == 0,
        t.len() > 0,
        forall|k: int| 0 <= k < t.len() ==> !is_space(#[trigger] t[k]),
        text_width(b.font, b.size, t) > b.bx.w,
    ensures
        add_text_spec(b, t) == Err::<BuilderV, ErrV>(
            ErrV::UnfitToken { text: t, max_width: b.bx.w },
        ),
{
    let n = t.len() as int;
    assert(rtrim_idx(t) == n);
    assert(skip_spaces(t, 0) == 0);
    lemma_word_end_all_nonspace(t, 0);
    assert(next_word_spec(t, 0) == n);
    assert(t.subrange(0, n) =~= t);
    assert(b.x == 0);
    assert(split_scan(b.font, b.size, t, 0, n, b.x, b.bx.w, 0, None) == None::<int>);
    assert(add_text_rec(b, t, 0, n) == Err::<BuilderV, ErrV>(
        ErrV::UnfitToken { text: t.subrange(0, next_word_spec(t, 0)), max_width: b.bx.w },
    ));
}

/// Builder for rich text layout inside a bounding box; coordinates are in
/// layout units, relative to the box origin.
pub struct SceneBuilder<'a> {
    chunks: Vec<TextChunk>,
    polygons: Vec<Polygon>,
    current_line: Vec<Block>,
    bounding_box: Rect,
    current_font: &'a Font,
    x_offset: i64,
    y_offset: i64,
    align: AlignStrategy,
    font_size: i64,
    line_space: i64,
    chunk_space: i64,
}

impl<'a> View for SceneBuilder<'a> {
    type V = BuilderV;

    closed spec fn view(&self) -> BuilderV {
        BuilderV {
            chunks: self.chunks@.map_values(|c: TextChunk| c@),
            polygons: self.polygons@.map_values(|p: Polygon| p@),
            line: self.current_line@.map_values(|b: Block| b@),
            bx: rect_v(self.bounding_box),
            font: (*self.current_font)@,
            x: self.x_offset as int,
            y: self.y_offset as int,
            align: self.align,
            size: self.font_size as int,
            line_space: self.line_space as int,
            chunk_space: self.chunk_space as int,
        }
    }
}

impl<'a> SceneBuilder<'a> {
    /// The builder invariant, established by [`SceneBuilder::new`] and kept
    /// by every operation.
    pub open spec fn wf(&self) -> bool {
        builder_wf(self@)
    }

    /// A fresh builder: empty content, cursor at the origin, left alignment,
    /// the default font size, no line spacing, and the default chunk spacing
    /// (the width of a space in the default font).
    pub fn new(default_font: &'a Font, bounding_box: Rect) -> (r: SceneBuilder<'a>)
        requires
            default_font.wf(),
            0 <= bounding_box.w <= DIM_MAX,
            0 <= bounding_box.h <= DIM_MAX,
            -DIM_MAX <= bounding_box.x <= DIM_MAX,
            -DIM_MAX <= bounding_box.y <= DIM_MAX,
        ensures
            r.wf(),
            r@ == (BuilderV {
                chunks: Seq::<ChunkV>::empty(),
                polygons: Seq::<Seq<(int, int)>>::empty(),
                line: Seq::<BlockV>::empty(),
                bx: rect_v(bounding_box),
                font: default_font@,
                x: 0,
                y: 0,
                align: AlignStrategy::AlignLeft,
                size: DEFAULT_FONT_SIZE as int,
                line_space: 0,
                chunk_space: char_width(default_font@, DEFAULT_FONT_SIZE as int, ' '),
            }),
    {
        let space = default_font.char_width_at(DEFAULT_FONT_SIZE, ' ');
        let r = SceneBuilder {
            chunks: Vec::new(),
            polygons: Vec::new(),
            current_line: Vec::new(),
            bounding_box,
            current_font: default_font,
            x_offset: 0,
            y_offset: 0,
            align: AlignStrategy::AlignLeft,
            font_size: DEFAULT_FONT_SIZE,
            line_space: 0,
            chunk_space: space,
        };
        proof {
            assert(r@.chunks =~= Seq::<ChunkV>::empty());
            assert(r@.polygons =~= Seq::<Seq<(int, int)>>::empty());
            assert(r@.line =~= Seq::<BlockV>::empty());
        }
        r
    }

    /// Consume the builder, yielding the scene.  An unfinished line is
    /// discarded; call [`SceneBuilder::finish_line`] first.
    pub fn scene(self) -> (r: Scene)
        ensures
            r@ == (SceneV { polygons: self@.polygons, parts: self@.chunks }),
    {
        let r = Scene { polygons: self.polygons, parts: self.chunks };
        proof {
            assert(r@.polygons =~= self@.polygons);
            assert(r@.parts =~= self@.chunks);
        }
        r
    }

    pub fn get_bounding_box(&self) -> (r: Rect)
        ensures
            rect_v(r) == self@.bx,
    {
        self.bounding_box
    }

    /// Double the box height.  Allowed once per card: the composer uses it to
    /// spill an overflowing card onto a double-height slot.
    pub fn double_box(&mut self)
        requires
            old(self).wf(),
            old(self)@.bx.h <= DIM_MAX,
        ensures
            final(self).wf(),
            final(self)@ == (BuilderV {
                bx: RectV { h: 2 * old(self)@.bx.h, ..old(self)@.bx },
                ..old(self)@
            }),
    {
        self.bounding_box = Rect {
            x: self.bounding_box.x,
            y: self.bounding_box.y,
            w: self.bounding_box.w,
            h: self.bounding_box.h * 2,
        };
    }

    /// Whether the vertical cursor has left the box.
    pub fn is_out_of_bounds(&self) -> (r: bool)
        ensures
            r == (self@.y >= self@.bx.h),
    {
        self.y_offset >= self.bounding_box.h
    }

    pub fn set_font(&mut self, font: &'a Font)
        requires
            old(self).wf(),
            font.wf(),
        ensures
            final(self).wf(),
            final(self)@ == (BuilderV { font: font@, ..old(self)@ }),
    {
        self.current_font = font;
    }

    pub fn get_font(&self) -> (r: &'a Font)
        requires
            self.wf(),
        ensures
            r@ == self@.font,
            r.wf(),
    {
        self.current_font
    }

    pub fn set_line_space(&mut self, line_space: i64)
        requires
            old(self).wf(),
            0 <= line_space <= SIZE_MAX,
        ensures
            final(self).wf(),
            final(self)@ == (BuilderV { line_space: line_space as int, ..old(self)@ }),
    {
        self.line_space = line_space;
    }

    pub fn set_font_size(&mut self, font_size: i64)
        requires
            old(self).wf(),
            0 <= font_size <= SIZE_MAX,
        ensures
            final(self).wf(),
            final(self)@ == (BuilderV { size: font_size as int, ..old(self)@ }),
    {
        self.font_size = font_size;
    }

    pub fn set_alignment(&mut self, align: AlignStrategy)
        requires
            old(self).wf(),
        ensures
            final(self).wf(),
            final(self)@ == (BuilderV { align, ..old(self)@ }),
    {
        self.align = align;
    }

    pub fn set_chunk_space(&mut self, space: i64)
        requires
            old(self).wf(),
            0 <= space <= SIZE_MAX,
        ensures
            final(self).wf(),
            final(self)@ == (BuilderV { chunk_space: space as int, ..old(self)@ }),
    {
        self.chunk_space = space;
    }

    /// Reset the chunk spacing to the width of a space in the current font
    /// and size.
    pub fn set_default_chunk_space(&mut self)
        requires
            old(self).wf(),
        ensures
            final(self).wf(),
            final(self)@ == (BuilderV {
                chunk_space: char_width(old(self)@.font, old(self)@.size, ' '),
                ..old(self)@
            }),
    {
        proof {
            lemma_char_width_bounds(self@.font, self@.size, ' ');
        }
        self.chunk_space = self.current_font.char_width_at(self.font_size, ' ');
    }

    /// Push one outline polygon for `rect`, inset by the line thickness.
    pub fn add_rect(&mut self, rect: Rect)
        requires
            old(self).wf(),
            rect.fields_in_range(),
        ensures
            final(self).wf(),
            final(self)@ == add_rect_spec(old(self)@, rect_v(rect)),
    {
        let r = rect.contract(LINE_THICKNESS);
        let mut points: Vec<Point> = Vec::new();
        points.push(Point { x: r.x, y: r.y });
        points.push(Point { x: r.x + r.w, y: r.y });
        points.push(Point { x: r.x + r.w, y: r.y + r.h });
        points.push(Point { x: r.x, y: r.y + r.h });
        points.push(Point { x: r.x, y: r.y });
        let poly = Polygon { points };
        proof {
            assert(poly@ =~= outline_points(rect_v(rect)));
        }
        self.polygons.push(poly);
        proof {
            assert(self@.polygons =~= old(self)@.polygons.push(outline_points(rect_v(rect))));
            assert(self@ =~= add_rect_spec(old(self)@, rect_v(rect)));
        }
    }

    /// The height of the open line.
    fn line_height(&self) -> (r: i64)
        requires
            self.wf(),
        ensures
            r as int == max_h(self@.line),
            0 <= r <= 3 * SIZE_MAX,
    {
        let ghost lv = self@.line;
        let mut acc: i64 = 0;
        let mut i: usize = 0;
        proof {
            assert(lv.subrange(0, 0) =~= Seq::<BlockV>::empty());
        }
        while i < self.current_line.len()
            invariant
                self.wf(),
                lv == self@.line,
                0 <= i <= self.current_line.len(),
                lv.len() == self.current_line.len(),
                acc as int == max_h(lv.subrange(0, i as int)),
                0 <= acc <= 3 * SIZE_MAX,
            decreases self.current_line.len() - i,
        {
            proof {
                assert(self@.line[i as int] == self.current_line@[i as int]@);
                assert(block_wf(lv[i as int], self@.bx.w));
            }
            let h: i64 = match &self.current_line[i] {
                Block::Text(chunk) => chunk.rect.h,
                Block::PaddedText { chunk, padding, .. } => chunk.rect.h + 2 * *padding,
            };
            if h > acc {
                acc = h;
            }
            proof {
                assert(lv.subrange(0, i as int + 1).drop_last() =~= lv.subrange(0, i as int));
                assert(lv.subrange(0, i as int + 1).last() == lv[i as int]);
            }
            i = i + 1;
        }
        proof {
            assert(lv.subrange(0, lv.len() as int) =~= lv);
        }
        acc
    }

    /// The final horizontal position of every block of the open line, per the
    /// current alignment mode.
    fn final_positions(&self) -> (xs: Vec<i64>)
        requires
            self.wf(),
        ensures
            xs@.len() == self@.line.len(),
            forall|i: int|
                0 <= i < xs@.len() ==> #[trigger] xs@[i] as int == final_x(
                    self@.line,
                    self@.align,
                    self@.bx.w,
                    self@.chunk_space,
                    i,
                ),
            forall|i: int|
                0 <= i < xs@.len() ==> -COORD_LIMIT <= #[trigger] xs@[i] <= DIM_MAX
                    + CHAR_WIDTH_MAX + SIZE_MAX,
    {
        let ghost lv = self@.line;
        let n = self.current_line.len();
        let justify_active = match self.align {
            AlignStrategy::JustifyEven => n > 2,
            _ => false,
        };
        match self.align {
            AlignStrategy::AlignRight => {
                let w = self.bounding_box.w;
                let mut xs: Vec<i64> = vec![0 as i64; n];
                let mut cursor: i64 = w;
                let mut idx: usize = n;
                while idx > 0
                    invariant
                        self.wf(),
                        lv == self@.line,
                        lv.len() == n,
                        n == self.current_line.len(),
                        w == self.bounding_box.w,
                        self@.align == AlignStrategy::AlignRight,
                        xs@.len() == n,
                        0 <= idx <= n,
                        forall|j: int|
                            idx <= j < n ==> #[trigger] xs@[j] as int == right_pos(
                                lv,
                                w as int,
                                self@.chunk_space,
                                j,
                            ),
                        forall|j: int|
                            idx <= j < n ==> -COORD_LIMIT <= #[trigger] xs@[j] <= w,
                        idx == n ==> cursor == w,
                        idx < n ==> cursor as int == clip_sub(
                            right_pos(lv, w as int, self@.chunk_space, idx as int),
                            self@.chunk_space,
                        ),
                        -COORD_LIMIT <= cursor <= w,
                    decreases idx,
                {
                    let i = idx - 1;
                    proof {
                        assert(self@.line[i as int] == self.current_line@[i as int]@);
                        assert(block_wf(lv[i as int], self@.bx.w));
                    }
                    let bw: i64 = match &self.current_line[i] {
                        Block::Text(chunk) => chunk.rect.w,
                        Block::PaddedText { chunk, padding, .. } => chunk.rect.w + 2 * *padding,
                    };
                    let pos = crate::geom::coord_sub(cursor, bw);
                    proof {
                        if i + 1 == n {
                            assert(right_pos(lv, w as int, self@.chunk_space, i as int)
                                == clip_sub(w as int, block_w(lv[i as int])));
                        }
                        lemma_right_pos_bounds(
                            lv,
                            self@.bx.w,
                            w as int,
                            self@.chunk_space,
                            i as int,
                        );
                    }
                    xs.set(i, pos);
                    cursor = crate::geom::coord_sub(pos, self.chunk_space);
                    idx = i;
                }
                xs
            },
            _ => {
                if justify_active {
                    let w = self.bounding_box.w;
                    // total block width of the line
                    let mut total: i64 = 0;
                    let mut i: usize = 0;
                    proof {
                        assert(lv.subrange(0, 0) =~= Seq::<BlockV>::empty());
                        lemma_sum_widths_nonneg(lv, self@.bx.w);
                    }
                    while i < n
                        invariant
                            self.wf(),
                            lv == self@.line,
                            lv.len() == n,
                            n == self.current_line.len(),
                            0 <= i <= n,
                            total as int == prefix_w(lv, i as int),
                            0 <= total,
                            total as int <= sum_widths(lv),
                        decreases n - i,
                    {
                        proof {
                            assert(self@.line[i as int] == self.current_line@[i as int]@);
                            assert(block_wf(lv[i as int], self@.bx.w));
                            lemma_prefix_le(lv, self@.bx.w, i as int + 1);
                        }
                        let bw: i64 = match &self.current_line[i] {
                            Block::Text(chunk) => chunk.rect.w,
                            Block::PaddedText { chunk, padding, .. } => chunk.rect.w + 2
                                * *padding,
                        };
                        proof {
                            assert(lv.subrange(0, i as int + 1).drop_last() =~= lv.subrange(
                                0,
                                i as int,
                            ));
                            assert(lv.subrange(0, i as int + 1).last() == lv[i as int]);
                            lemma_sum_widths_nonneg(lv.subrange(0, i as int + 1), self@.bx.w);
                        }
                        total = total + bw;
                        i = i + 1;
                    }
                    proof {
                        assert(lv.subrange(0, n as int) =~= lv);
                    }
                    let slack: i64 = w - total;
                    let mut xs: Vec<i64> = Vec::new();
                    let mut prefix: i64 = 0;
                    let mut i: usize = 0;
                    proof {
                        assert(lv.subrange(0, 0) =~= Seq::<BlockV>::empty());
                    }
                    while i < n
                        invariant
                            self.wf(),
                            lv == self@.line,
                            lv.len() == n,
                            n > 2,
                            n == self.current_line.len(),
                            w == self.bounding_box.w,
                            slack as int == w - sum_widths(lv),
                            0 <= slack <= w,
                            0 <= i <= n,
                            prefix as int == prefix_w(lv, i as int),
                            0 <= prefix,
                            prefix as int <= sum_widths(lv),
                            xs@.len() == i,
                            forall|j: int|
                                0 <= j < i ==> #[trigger] xs@[j] as int == prefix_w(lv, j) + j * (
                                w - sum_widths(lv)) / (n - 1),
                            forall|j: int| 0 <= j < i ==> 0 <= #[trigger] xs@[j] <= 2 * w,
                        decreases n - i,
                    {
                        proof {
                            assert((i as int) * (slack as int) >= 0 && (i as int) * (slack as int)
                                <= (n - 1) * (slack as int)) by (nonlinear_arith)
                                requires
                                    0 <= i as int <= n - 1,
                                    0 <= slack as int,
                            ;
                            assert((i as int) * (slack as int) <= 0x1_0000_0000_0000_0000
                                * 0x3B9A_CA00) by (nonlinear_arith)
                                requires
                                    0 <= i as int,
                                    (i as int) < 0x1_0000_0000_0000_0000,
                                    0 <= slack as int <= 0x3B9A_CA00,
                            ;
                        }
                        let q128: i128 = (i as i128) * (slack as i128) / ((n - 1) as i128);
                        proof {
                            assert((i as int) * (slack as int) / (n as int - 1) <= slack as int)
                                by (nonlinear_arith)
                                requires
                                    (i as int) * (slack as int) <= (n as int - 1) * (slack as int),
                                    0 <= slack as int,
                                    n as int - 1 >= 1,
                                    (i as int) * (slack as int) >= 0,
                            ;
                            assert((i as int) * (slack as int) / (n as int - 1) >= 0)
                                by (nonlinear_arith)
                                requires
                                    (i as int) * (slack as int) >= 0,
                                    n as int - 1 >= 1,
                            ;
                        }
                        let q: i64 = q128 as i64;
                        proof {
                            assert(self@.line[i as int] == self.current_line@[i as int]@);
                            assert(block_wf(lv[i as int], self@.bx.w));
                            lemma_prefix_le(lv, self@.bx.w, i as int + 1);
                            assert(lv.subrange(0, i as int + 1).drop_last() =~= lv.subrange(
                                0,
                                i as int,
                            ));
                            assert(lv.subrange(0, i as int + 1).last() == lv[i as int]);
                            lemma_sum_widths_nonneg(lv.subrange(0, i as int + 1), self@.bx.w);
                        }
                        let bw: i64 = match &self.current_line[i] {
                            Block::Text(chunk) => chunk.rect.w,
                            Block::PaddedText { chunk, padding, .. } => chunk.rect.w + 2
                                * *padding,
                        };
                        xs.push(prefix + q);
                        prefix = prefix + bw;
                        i = i + 1;
                    }
                    xs
                } else {
                    // left-packed: keep each block's outer left edge
                    let mut xs: Vec<i64> = Vec::new();
                    let mut i: usize = 0;
                    while i < n
                        invariant
                            self.wf(),
                            lv == self@.line,
                            lv.len() == n,
                            n == self.current_line.len(),
                            0 <= i <= n,
                            xs@.len() == i,
                            forall|j: int|
                                0 <= j < i ==> #[trigger] xs@[j] as int == block_left_edge(lv[j]),
                            forall|j: int|
                                0 <= j < i ==> -SIZE_MAX <= #[trigger] xs@[j] <= DIM_MAX
                                    + CHAR_WIDTH_MAX + SIZE_MAX,
                        decreases n - i,
                    {
                        proof {
                            assert(self@.line[i as int] == self.current_line@[i as int]@);
                            assert(block_wf(lv[i as int], self@.bx.w));
                        }
                        let edge: i64 = match &self.current_line[i] {
                            Block::Text(chunk) => chunk.rect.x,
                            Block::PaddedText { chunk, padding, .. } => chunk.rect.x - *padding,
                        };
                        xs.push(edge);
                        i = i + 1;
                    }
                    xs
                }
            },
        }
    }

    /// Append text with greedy word wrapping: repeatedly place the widest
    /// prefix of whole words that fits the remaining room, breaking the line
    /// and retrying when nothing fits, and failing with the unfit word when
    /// not even one word fits an empty line.
    pub fn add_text(&mut self, text: &str) -> (r: Result<(), LayoutError>)
        requires
            old(self).wf(),
        ensures
            final(self).wf(),
            match r {
                Ok(_) => add_text_spec(old(self)@, text@) == Ok::<BuilderV, ErrV>(final(self)@),
                Err(e) => add_text_spec(old(self)@, text@) == Err::<BuilderV, ErrV>(e@),
            },
    {
        let ghost b0 = self@;
        let ghost t = text@;
        let n = text.unicode_len();
        let hi = rtrim_exec(text, n);
        let mut lo = skip_spaces_exec(text, 0, n);
        proof {
            lemma_rtrim_props(t);
        }
        while lo < hi
            invariant
                self.wf(),
                n as int == t.len(),
                t == text@,
                b0 == old(self)@,
                lo <= n,
                hi as int == rtrim_idx(t),
                hi <= n,
                add_text_rec(self@, t, lo as int, hi as int) == add_text_spec(b0, t),
            decreases hi - lo, self.current_line.len(),
        {
            proof {
                lemma_rtrim_props(t);
                assert(!is_space(t[hi as int - 1]));
                lemma_skip_le_nonspace(t, lo as int, hi as int - 1);
            }
            let start = skip_spaces_exec(text, lo, n);
            let ghost scan0 = split_scan(
                self@.font,
                self@.size,
                t,
                start as int,
                hi as int,
                self@.x,
                self@.bx.w,
                start as int,
                None,
            );
            let mut off = start;
            let mut best: Option<(usize, i64)> = None;
            let mut done = false;
            while !done && off < hi
                invariant
                    self.wf(),
                    n as int == t.len(),
                    t == text@,
                    start <= off <= hi <= n,
                    match best {
                        Some((e, bw)) => start < e <= hi && bw as int == text_width(
                            self@.font,
                            self@.size,
                            t.subrange(start as int, e as int),
                        ) && self@.x + bw <= self@.bx.w,
                        None => true,
                    },
                    if done {
                        scan0 == match best {
                            Some((e, _)) => Some(e as int),
                            None => None::<int>,
                        }
                    } else {
                        split_scan(
                            self@.font,
                            self@.size,
                            t,
                            start as int,
                            hi as int,
                            self@.x,
                            self@.bx.w,
                            off as int,
                            match best {
                                Some((e, _)) => Some(e as int),
                                None => None::<int>,
                            },
                        ) == scan0
                    },
                decreases (if done {
                    0int
                } else {
                    1int
                }), hi - off,
            {
                let j = next_word(text, off);
                if j <= off || j > hi {
                    done = true;
                } else {
                    match self.current_font.measure_fit(
                        self.font_size,
                        text,
                        start,
                        j,
                        self.x_offset,
                        self.bounding_box.w,
                    ) {
                        Some(wd) => {
                            best = Some((j, wd));
                            off = j;
                        },
                        None => {
                            done = true;
                        },
                    }
                }
            }
            match best {
                Some((j, wd)) => {
                    proof {
                        assert(scan0 == Some(j as int));
                    }
                    let ghost pre = self@;
                    let chunk_text = text.substring_char(start, j).to_owned();
                    let rect = Rect {
                        x: self.x_offset,
                        y: self.y_offset,
                        w: wd,
                        h: self.font_size,
                    };
                    let fk = self.current_font.kind();
                    let fsz = self.font_size;
                    let block = Block::Text(
                        TextChunk { text: chunk_text, rect, font: fk, font_size: fsz },
                    );
                    proof {
                        assert(block@ == BlockV::Text(
                            placed_chunk(pre, t.subrange(start as int, j as int)),
                        ));
                    }
                    self.current_line.push(block);
                    self.x_offset = self.x_offset + wd + self.chunk_space;
                    lo = j;
                    proof {
                        let sub = t.subrange(start as int, j as int);
                        lemma_text_width_nonneg(pre.font, pre.size, sub);
                        assert(self@.line =~= pre.line.push(
                            BlockV::Text(placed_chunk(pre, sub)),
                        ));
                        assert(self@ =~= push_chunk(pre, sub));
                        assert(self@.line.drop_last() =~= pre.line);
                        assert(sum_widths(self@.line) == sum_widths(pre.line) + block_w(
                            self@.line.last(),
                        ));
                        assert forall|k: int| 0 <= k < self@.line.len() implies block_wf(
                            #[trigger] self@.line[k],
                            self@.bx.w,
                        ) by {
                            if k < pre.line.len() {
                                assert(self@.line[k] == pre.line[k]);
                                assert(block_wf(pre.line[k], pre.bx.w));
                            }
                        }
                        assert(self.wf());
                    }
                },
                None => {
                    proof {
                        assert(scan0 == None::<int>);
                    }
                    if self.current_line.len() == 0 {
                        let we = next_word(text, lo);
                        let word = text.substring_char(lo, we).to_owned();
                        let err = LayoutError::UnfitToken {
                            text: word,
                            max_width: self.bounding_box.w,
                        };
                        proof {
                            assert(err@ == (ErrV::UnfitToken {
                                text: t.subrange(lo as int, next_word_spec(t, lo as int)),
                                max_width: self@.bx.w,
                            }));
                            assert(add_text_rec(self@, t, lo as int, hi as int) == Err::<
                                BuilderV,
                                ErrV,
                            >(err@));
                        }
                        return Err(err);
                    } else {
                        self.finish_line();
                    }
                },
            }
        }
        proof {
            assert(add_text_rec(self@, t, lo as int, hi as int) == Ok::<BuilderV, ErrV>(self@));
        }
        Ok(())
    }

    /// Place one atomic chip: the text with `padding` on every side and a
    /// border.  A chip wider than the whole box is an unfit token; one that
    /// does not fit the remaining room of a non-empty line forces a line
    /// break first.
    pub fn add_boxed_text(&mut self, text: &str, padding: i64) -> (r: Result<(), LayoutError>)
        requires
            old(self).wf(),
            0 <= padding <= SIZE_MAX,
        ensures
            final(self).wf(),
            match r {
                Ok(_) => add_boxed_text_spec(old(self)@, text@, padding as int) == Ok::<
                    BuilderV,
                    ErrV,
                >(final(self)@),
                Err(e) => add_boxed_text_spec(old(self)@, text@, padding as int) == Err::<
                    BuilderV,
                    ErrV,
                >(e@),
            },
    {
        let ghost b0 = self@;
        let ghost t = text@;
        let n = text.unicode_len();
        proof {
            assert(t.subrange(0, n as int) =~= t);
        }
        let tw = match self.current_font.measure_fit(
            self.font_size,
            text,
            0,
            n,
            2 * padding,
            self.bounding_box.w,
        ) {
            Some(tw) => tw,
            None => {
                let err = LayoutError::UnfitToken {
                    text: text.to_owned(),
                    max_width: self.bounding_box.w,
                };
                return Err(err);
            },
        };
        let bw = tw + 2 * padding;
        if bw + self.x_offset > self.bounding_box.w {
            self.finish_line();
        }
        let ghost b1 = self@;
        let rect = Rect {
            x: self.x_offset + padding,
            y: self.y_offset + padding,
            w: tw,
            h: self.font_size,
        };
        let chunk = TextChunk {
            text: text.to_owned(),
            rect,
            font: self.current_font.kind(),
            font_size: self.font_size,
        };
        let block = Block::PaddedText { chunk, padding, border: true };
        self.current_line.push(block);
        self.x_offset = self.x_offset + bw + self.chunk_space;
        proof {
            lemma_text_width_nonneg(b0.font, b0.size, t);
            let chv = ChunkV {
                text: t,
                rect: RectV { x: b1.x + padding, y: b1.y + padding, w: tw as int, h: b1.size },
                font: b1.font.kind,
                size: b1.size,
            };
            let blv = BlockV::PaddedText { chunk: chv, padding: padding as int, border: true };
            assert(self@.line =~= b1.line.push(blv));
            assert(self@ =~= (BuilderV {
                line: b1.line.push(blv),
                x: b1.x + (tw + 2 * padding) + b1.chunk_space,
                ..b1
            }));
            assert(add_boxed_text_spec(b0, t, padding as int) == Ok::<BuilderV, ErrV>(self@));
            assert(self@.line.drop_last() =~= b1.line);
            assert(sum_widths(self@.line) == sum_widths(b1.line) + block_w(self@.line.last()));
            assert forall|k: int| 0 <= k < self@.line.len() implies block_wf(
                #[trigger] self@.line[k],
                self@.bx.w,
            ) by {
                if k < b1.line.len() {
                    assert(self@.line[k] == b1.line[k]);
                    assert(block_wf(b1.line[k], b1.bx.w));
                }
            }
            assert(self.wf());
        }
        Ok(())
    }

    /// A separator: finish the open line, leave a gap of two line spaces,
    /// draw one open horizontal polygon across the box, then one more line
    /// space.
    pub fn add_separator_line(&mut self)
        requires
            old(self).wf(),
        ensures
            final(self).wf(),
            final(self)@ == add_separator_spec(old(self)@),
    {
        self.finish_line();
        let ghost b1 = self@;
        self.y_offset = crate::geom::coord_add(self.y_offset, 2 * self.line_space);
        let mut points: Vec<Point> = Vec::new();
        points.push(Point { x: self.bounding_box.x, y: self.bounding_box.y + self.y_offset });
        points.push(
            Point {
                x: self.bounding_box.x + self.bounding_box.w,
                y: self.bounding_box.y + self.y_offset,
            },
        );
        let poly = Polygon { points };
        proof {
            assert(poly@ =~= seq![
                (b1.bx.x, b1.bx.y + clip_add(b1.y, 2 * b1.line_space)),
                (b1.bx.x + b1.bx.w, b1.bx.y + clip_add(b1.y, 2 * b1.line_space)),
            ]);
        }
        self.polygons.push(poly);
        self.y_offset = crate::geom::coord_add(self.y_offset, self.line_space);
        proof {
            assert(self@.polygons =~= add_separator_spec(old(self)@).polygons);
            assert(self@ =~= add_separator_spec(old(self)@));
        }
    }

    /// Finalize the open line: bottom-align every block to the shared
    /// baseline, arrange the blocks per the alignment mode, move them into
    /// the scene (chips contribute their borders), and advance the cursor.
    /// A no-op when the line is empty.
    pub fn finish_line(&mut self)
        requires
            old(self).wf(),
        ensures
            final(self).wf(),
            final(self)@ == finish_line_spec(old(self)@),
    {
        if self.current_line.len() == 0 {
            return ;
        }
        let ghost b0 = self@;
        let ghost placed = placed_line(b0.line, b0.y, b0.align, b0.bx.w, b0.chunk_space);
        proof {
            lemma_placed_pointwise(b0.line, b0.y, b0.align, b0.bx.w, b0.chunk_space);
            lemma_max_h_nonneg(b0.line);
            lemma_max_h_bound(b0.line, b0.bx.w);
        }
        let lh = self.line_height();
        let bottom: i64 = self.y_offset + lh;
        let xs = self.final_positions();
        let n = self.current_line.len();
        let ghost mid = self@;
        let mut i: usize = 0;
        proof {
            assert(placed.subrange(0, 0) =~= Seq::<BlockV>::empty());
            assert(chunks_seq(placed.subrange(0, 0)) =~= Seq::<ChunkV>::empty());
            assert(b0.chunks + chunks_seq(placed.subrange(0, 0)) =~= b0.chunks);
            assert(b0.polygons + border_polys(placed.subrange(0, 0)) =~= b0.polygons);
        }
        while i < n
            invariant
                n == self.current_line.len(),
                0 <= i <= n,
                xs@.len() == n,
                bottom as int == b0.y + max_h(b0.line),
                builder_wf(b0),
                0 <= max_h(b0.line) <= 3 * SIZE_MAX,
                self.wf(),
                self@.line == b0.line,
                self@.bx == b0.bx,
                self@.font == b0.font,
                self@.x == b0.x,
                self@.y == b0.y,
                self@.align == b0.align,
                self@.size == b0.size,
                self@.line_space == b0.line_space,
                self@.chunk_space == b0.chunk_space,
                placed == placed_line(b0.line, b0.y, b0.align, b0.bx.w, b0.chunk_space),
                placed.len() == n,
                forall|j: int|
                    0 <= j < n ==> placed[j] == set_block_x(
                        #[trigger] set_block_y(b0.line[j], b0.y + max_h(b0.line)),
                        final_x(b0.line, b0.align, b0.bx.w, b0.chunk_space, j),
                    ),
                forall|j: int|
                    0 <= j < n ==> #[trigger] xs@[j] as int == final_x(
                        b0.line,
                        b0.align,
                        b0.bx.w,
                        b0.chunk_space,
                        j,
                    ),
                forall|j: int|
                    0 <= j < n ==> -COORD_LIMIT <= #[trigger] xs@[j] <= DIM_MAX + CHAR_WIDTH_MAX
                        + SIZE_MAX,
                self@.chunks =~= b0.chunks + chunks_seq(placed.subrange(0, i as int)),
                self@.polygons =~= b0.polygons + border_polys(placed.subrange(0, i as int)),
            decreases n - i,
        {
            proof {
                assert(self@.line[i as int] == self.current_line@[i as int]@);
                assert(block_wf(b0.line[i as int], b0.bx.w));
            }
            let x_i = xs[i];
            // Pull the block's data out before mutating the scene.
            let (text, rect0, font, size, pad): (String, Rect, FontKind, i64, Option<(i64, bool)>) =
                match &self.current_line[i] {
                Block::Text(chunk) => (
                    chunk.text.clone(),
                    chunk.rect,
                    chunk.font,
                    chunk.font_size,
                    None,
                ),
                Block::PaddedText { chunk, padding, border } => (
                    chunk.text.clone(),
                    chunk.rect,
                    chunk.font,
                    chunk.font_size,
                    Some((*padding, *border)),
                ),
            };
            let new_rect: Rect = match pad {
                None => Rect { x: x_i, y: bottom - rect0.h, w: rect0.w, h: rect0.h },
                Some((padding, _)) => Rect {
                    x: x_i + padding,
                    y: bottom - rect0.h - padding,
                    w: rect0.w,
                    h: rect0.h,
                },
            };
            let chunk = TextChunk { text, rect: new_rect, font, font_size: size };
            proof {
                assert(chunk@ == block_chunk(placed[i as int]));
            }
            self.chunks.push(chunk);
            proof {
                assert(placed.subrange(0, i as int + 1).drop_last() =~= placed.subrange(
                    0,
                    i as int,
                ));
                assert(placed.subrange(0, i as int + 1).last() == placed[i as int]);
                assert(chunks_seq(placed.subrange(0, i as int + 1)) =~= chunks_seq(
                    placed.subrange(0, i as int),
                ).push(block_chunk(placed[i as int])));
                assert(self@.chunks =~= (b0.chunks + chunks_seq(placed.subrange(0, i as int))).push(
                    block_chunk(placed[i as int]),
                ));
                assert((b0.chunks + chunks_seq(placed.subrange(0, i as int))).push(
                    block_chunk(placed[i as int]),
                ) =~= b0.chunks + chunks_seq(placed.subrange(0, i as int + 1)));
            }
            if let Some((padding, border)) = pad {
                if border {
                    proof {
                        assert(b0.line[i as int] is PaddedText);
                        assert(0 <= padding <= SIZE_MAX);
                        assert(in_wide_range(new_rect.x as int));
                        assert(in_wide_range(new_rect.y as int));
                        assert(in_wide_range(new_rect.w as int));
                        assert(in_wide_range(new_rect.h as int));
                        assert(in_wide_range(padding as int));
                        assert(self.wf());
                    }
                    let border_rect = new_rect.dilate(padding);
                    self.add_rect(border_rect);
                    proof {
                        assert(rect_v(border_rect) == chip_border_rect(
                            block_chunk(placed[i as int]),
                            padding as int,
                        ));
                    }
                }
            }
            proof {
                assert(self@.polygons =~= b0.polygons + border_polys(
                    placed.subrange(0, i as int + 1),
                ));
            }
            i = i + 1;
        }
        proof {
            assert(placed.subrange(0, n as int) =~= placed);
        }
        self.current_line = Vec::new();
        self.x_offset = 0;
        let step: i64 = lh + self.line_space;
        self.y_offset = crate::geom::coord_add(self.y_offset, step);
        proof {
            assert(self@.line =~= Seq::<BlockV>::empty());
            assert(self@ =~= finish_line_spec(b0));
        }
    }
}

} // verus!
