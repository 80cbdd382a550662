//! Card composition and page packing: one scene per spell, composed section
//! by section inside a fixed card box, then packed into column-major page
//! grids.
//!
//! The reference configuration measures in thousandths of a typographic
//! point; the card is 61 by 86 points-equivalent millimetres of inner space.

use vstd::prelude::*;

use crate::font::{char_width, Font, FontV};
use crate::geom::Rect;
use crate::markdown::{add_markdown_spec, apply_event_spec, MdConfig, MdConfigV, MixedEventV};
use crate::rich_text::{
    add_boxed_text_spec, add_rect_spec, add_separator_spec, add_text_rec, add_text_spec,
    finish_line_spec, push_chunk, rtrim_idx, skip_spaces, split_scan, AlignStrategy, BuilderV,
    ErrV, LayoutError, RectV, Scene, SceneBuilder, SceneV, DEFAULT_FONT_SIZE,
};
use crate::spell::{actions_glyph, number_glyph, Actions, ActionsV, PropertyV, Spell, SpellV};
use crate::strutil::{u8_digits, u8_to_string};

verus! {

/// Inner card width: 61 mm.
pub const CARD_WIDTH_INNER: i64 = 172_913;

/// Inner card height: 86 mm.
pub const CARD_HEIGHT_INNER: i64 = 243_780;

/// Line spacing of the header: 1 mm.
pub const HEADER_LINE_SPACE: i64 = 2_835;

/// Line spacing of the body: 0.5 mm.
pub const LINE_SPACE: i64 = 1_417;

/// Padding inside a trait chip: 0.8 mm.
pub const TRAIT_PADDING: i64 = 2_268;

/// Spacing between trait chips: 0.3 mm.
pub const TRAIT_CHUNK_SPACE: i64 = 850;

/// How far the card frame sits outside the content box: 1 mm plus 1 pt.
pub const FRAME_OUTSET: i64 = 3_835;

/// Font size of the spell name and level.
pub const NAME_FONT_SIZE: i64 = 11_000;

/// Font size of action-count glyphs.
pub const ACTION_FONT_SIZE: i64 = 14_000;

/// Font size of chips, properties and body text.
pub const GENERAL_TEXT_FONT_SIZE: i64 = 7_700;

/// Slots per grid column.
pub const GRID_HEIGHT: usize = 3;

/// Columns per page.
pub const GRID_WIDTH: usize = 3;

/// The fonts a card is composed with.
#[derive(Clone, Copy)]
pub struct FontConfig<'a> {
    pub md_config: MdConfig<'a>,
    pub action_count_font: &'a Font,
}

/// Model of a [`FontConfig`].
pub struct FontConfigV {
    pub md: MdConfigV,
    pub action: FontV,
}

impl<'a> View for FontConfig<'a> {
    type V = FontConfigV;

    open spec fn view(&self) -> FontConfigV {
        FontConfigV { md: self.md_config@, action: (*self.action_count_font)@ }
    }
}

impl<'a> FontConfig<'a> {
    pub open spec fn wf(&self) -> bool {
        self.md_config.wf() && crate::font::font_wf(self@.action)
    }
}

/// The four owned font tables a document renders with.
pub struct OwnedFontConfig {
    text: Font,
    bold: Font,
    italic: Font,
    action_count: Font,
}

impl OwnedFontConfig {
    /// Bundle the four font tables.
    pub fn new(text: Font, bold: Font, italic: Font, action_count: Font) -> (r: OwnedFontConfig)
        requires
            text.wf(),
            bold.wf(),
            italic.wf(),
            action_count.wf(),
        ensures
            r.wf(),
            r.text_model() == text@,
            r.bold_model() == bold@,
            r.italic_model() == italic@,
            r.action_model() == action_count@,
    {
        OwnedFontConfig { text, bold, italic, action_count }
    }

    pub closed spec fn text_model(&self) -> FontV {
        self.text@
    }

    pub closed spec fn bold_model(&self) -> FontV {
        self.bold@
    }

    pub closed spec fn italic_model(&self) -> FontV {
        self.italic@
    }

    pub closed spec fn action_model(&self) -> FontV {
        self.action_count@
    }

    pub closed spec fn wf(&self) -> bool {
        self.text.wf() && self.bold.wf() && self.italic.wf() && self.action_count.wf()
    }

    /// Borrow the bundle as a [`FontConfig`].
    pub fn config(&self) -> (r: FontConfig<'_>)
        requires
            self.wf(),
        ensures
            r.wf(),
            r@.md.text == self.text_model(),
            r@.md.bold == self.bold_model(),
            r@.md.italic == self.italic_model(),
            r@.action == self.action_model(),
    {
        FontConfig {
            md_config: MdConfig {
                text_font: &self.text,
                bold_font: &self.bold,
                italic_font: &self.italic,
            },
            action_count_font: &self.action_count,
        }
    }
}

/// A rectangle grown outward by `d` on every side.
pub open spec fn rectv_dilate(r: RectV, d: int) -> RectV {
    RectV { x: r.x - d, y: r.y - d, w: r.w + 2 * d, h: r.h + 2 * d }
}

/// The glyph text of an optional glyph: the glyph, or nothing.
pub open spec fn glyph_text(o: Option<Seq<char>>) -> Seq<char> {
    match o {
        Some(g) => g,
        None => Seq::empty(),
    }
}

/// A fresh card builder: the inner card box with the plain text font.
pub open spec fn initial_builder(cfg: FontConfigV) -> BuilderV {
    BuilderV {
        chunks: Seq::empty(),
        polygons: Seq::empty(),
        line: Seq::empty(),
        bx: RectV { x: 0, y: 0, w: CARD_WIDTH_INNER as int, h: CARD_HEIGHT_INNER as int },
        font: cfg.md.text,
        x: 0,
        y: 0,
        align: AlignStrategy::AlignLeft,
        size: DEFAULT_FONT_SIZE as int,
        line_space: 0,
        chunk_space: char_width(cfg.md.text, DEFAULT_FONT_SIZE as int, ' '),
    }
}

/// The action-count steps of the header: a range renders as glyph, "to",
/// glyph; a cost with a single glyph renders as that glyph; anything else
/// renders nothing.
pub open spec fn actions_steps(b: BuilderV, cfg: FontConfigV, a: ActionsV) -> Result<
    BuilderV,
    ErrV,
> {
    match a {
        ActionsV::Range(from, to) => {
            let b1 = BuilderV { font: cfg.action, ..BuilderV { size: ACTION_FONT_SIZE as int, ..b } };
            match add_text_spec(b1, glyph_text(number_glyph(from))) {
                Err(e) => Err(e),
                Ok(b2) => {
                    let b3 = BuilderV {
                        size: NAME_FONT_SIZE as int,
                        ..BuilderV { font: cfg.md.text, ..b2 }
                    };
                    match add_text_spec(b3, "to"@) {
                        Err(e) => Err(e),
                        Ok(b4) => {
                            let b5 = BuilderV {
                                size: ACTION_FONT_SIZE as int,
                                ..BuilderV { font: cfg.action, ..b4 }
                            };
                            match add_text_spec(b5, glyph_text(number_glyph(to))) {
                                Err(e) => Err(e),
                                Ok(b6) => Ok(BuilderV { font: cfg.md.text, ..b6 }),
                            }
                        },
                    }
                },
            }
        },
        _ => {
            if actions_glyph(a) is Some {
                let b1 = BuilderV {
                    font: cfg.action,
                    ..BuilderV { size: ACTION_FONT_SIZE as int, ..b }
                };
                match add_text_spec(b1, actions_glyph(a)->0) {
                    Err(e) => Err(e),
                    Ok(b2) => Ok(BuilderV { font: cfg.md.text, ..b2 }),
                }
            } else {
                Ok(b)
            }
        },
    }
}

/// The header: name, action glyphs and level on one justified line.
pub open spec fn header_spec(b0: BuilderV, cfg: FontConfigV, s: SpellV) -> Result<
    BuilderV,
    ErrV,
> {
    let b = BuilderV {
        size: NAME_FONT_SIZE as int,
        ..BuilderV {
            align: AlignStrategy::JustifyEven,
            ..BuilderV { line_space: HEADER_LINE_SPACE as int, ..b0 }
        }
    };
    match add_text_spec(b, s.name) {
        Err(e) => Err(e),
        Ok(b) => match actions_steps(b, cfg, s.actions) {
            Err(e) => Err(e),
            Ok(b) => {
                let b = BuilderV { size: NAME_FONT_SIZE as int, ..b };
                match add_text_spec(b, u8_digits(s.level)) {
                    Err(e) => Err(e),
                    Ok(b) => Ok(finish_line_spec(b)),
                }
            },
        },
    }
}

/// The trait chips from `i` on, placed one by one.
pub open spec fn chips_spec(b: BuilderV, traits: Seq<Seq<char>>, i: int) -> Result<BuilderV, ErrV>
    decreases traits.len() - i,
{
    if i < 0 || i >= traits.len() {
        Ok(b)
    } else {
        match add_boxed_text_spec(b, traits[i], TRAIT_PADDING as int) {
            Err(e) => Err(e),
            Ok(b2) => chips_spec(b2, traits, i + 1),
        }
    }
}

/// The property lines from `i` on: label in bold, value in the plain font,
/// one line each.
pub open spec fn props_spec(
    b: BuilderV,
    cfg: FontConfigV,
    props: Seq<PropertyV>,
    i: int,
) -> Result<BuilderV, ErrV>
    decreases props.len() - i,
{
    if i < 0 || i >= props.len() {
        Ok(b)
    } else {
        let b1 = BuilderV { font: cfg.md.bold, ..b };
        match add_text_spec(b1, props[i].name) {
            Err(e) => Err(e),
            Ok(b2) => {
                let b3 = BuilderV { font: cfg.md.text, ..b2 };
                match add_text_spec(b3, props[i].value) {
                    Err(e) => Err(e),
                    Ok(b4) => props_spec(finish_line_spec(b4), cfg, props, i + 1),
                }
            },
        }
    }
}

/// The end of a card: if the content overflows the box, the box doubles once
/// and the card takes a double slot; the frame is drawn around the (possibly
/// doubled) box; content overflowing even the doubled box is a hard failure
/// carrying the spell's name, and no scene is produced.
pub open spec fn compose_finish(b: BuilderV, name: Seq<char>) -> Result<(SceneV, bool), ErrV> {
    let is_double = b.y >= b.bx.h;
    let b1 = if is_double {
        BuilderV { bx: RectV { h: 2 * b.bx.h, ..b.bx }, ..b }
    } else {
        b
    };
    let b2 = add_rect_spec(b1, rectv_dilate(b1.bx, FRAME_OUTSET as int));
    if b2.y >= b2.bx.h {
        Err(ErrV::CardOverflow { name })
    } else {
        Ok((SceneV { polygons: b2.polygons, parts: b2.chunks }, is_double))
    }
}

/// One whole card: header, trait chips, property lines, a separator, the
/// description, an optional separator plus heightened text, then the
/// doubling policy and the frame.
pub open spec fn compose_spec(cfg: FontConfigV, s: SpellV) -> Result<(SceneV, bool), ErrV> {
    match header_spec(initial_builder(cfg), cfg, s) {
        Err(e) => Err(e),
        Ok(b) => {
            let b = BuilderV {
                align: AlignStrategy::AlignLeft,
                ..BuilderV {
                    chunk_space: TRAIT_CHUNK_SPACE as int,
                    ..BuilderV {
                        size: GENERAL_TEXT_FONT_SIZE as int,
                        ..BuilderV { line_space: LINE_SPACE as int, ..b }
                    }
                }
            };
            match chips_spec(b, s.traits, 0) {
                Err(e) => Err(e),
                Ok(b) => {
                    let b = finish_line_spec(
                        BuilderV { chunk_space: char_width(b.font, b.size, ' '), ..b },
                    );
                    match props_spec(b, cfg, s.properties, 0) {
                        Err(e) => Err(e),
                        Ok(b) => {
                            let b = add_separator_spec(b);
                            match add_markdown_spec(b, cfg.md, s.description) {
                                Err(e) => Err(e),
                                Ok(b) => {
                                    let after = match s.heightened {
                                        Some(h) => {
                                            match add_markdown_spec(
                                                add_separator_spec(b),
                                                cfg.md,
                                                h,
                                            ) {
                                                Err(e) => Err(e),
                                                Ok(b2) => Ok(finish_line_spec(b2)),
                                            }
                                        },
                                        None => Ok(b),
                                    };
                                    match after {
                                        Err(e) => Err(e),
                                        Ok(b) => compose_finish(finish_line_spec(b), s.name),
                                    }
                                },
                            }
                        },
                    }
                },
            }
        },
    }
}

/// Doubling law: a card whose content fits the box is a normal card; one
/// whose content fits only the doubled box is a double card; one whose
/// content overflows even the doubled box fails with the card-overflow
/// error, and no scene is produced.  The box doubles at most once: the
/// outcome is decided entirely by where the cursor ended relative to the
/// single and doubled heights.
pub proof fn lemma_doubling_policy(b: BuilderV, name: Seq<char>)
    requires
        0 <= b.bx.h,
    ensures
        b.y < b.bx.h ==> compose_finish(b, name) is Ok && compose_finish(b, name)->Ok_0.1
            == false,
        b.bx.h <= b.y < 2 * b.bx.h ==> compose_finish(b, name) is Ok && compose_finish(
            b,
            name,
        )->Ok_0.1 == true,
        b.y >= 2 * b.bx.h ==> compose_finish(b, name) == Err::<(SceneV, bool), ErrV>(
            ErrV::CardOverflow { name },
        ),
{
}

/// One cell of a page grid.
pub enum PageCell {
    Filled(Scene),
    Empty,
}

/// Model of a [`PageCell`].
pub enum CellV {
    Filled(SceneV),
    Empty,
}

impl View for PageCell {
    type V = CellV;

    open spec fn view(&self) -> CellV {
        match self {
            PageCell::Filled(s) => CellV::Filled(s@),
            PageCell::Empty => CellV::Empty,
        }
    }
}

/// The model of one grid column.
pub open spec fn column_view(col: Vec<PageCell>) -> Seq<CellV> {
    col@.map_values(|c: PageCell| c@)
}

/// The model of a list of grid columns.
pub open spec fn columns_view(cols: Seq<Vec<PageCell>>) -> Seq<Seq<CellV>> {
    cols.map_values(|col: Vec<PageCell>| column_view(col))
}

/// A partial column filled up to `h` slots with empty cells.
pub open spec fn complete_column(pad: Seq<CellV>, h: int) -> Seq<CellV> {
    pad + Seq::new(
        (if h >= pad.len() {
            h - pad.len()
        } else {
            0
        }) as nat,
        |i: int| CellV::Empty,
    )
}

/// The greedy column-major packer and its slot accounting.  Cards are drawn
/// from the backs of the two queues.  Whenever at least two slots remain in
/// the current column and a double-height card remains, it is placed,
/// consuming two vertically adjacent slots of that column (the cell below
/// the card stays empty: the card covers it); otherwise a normal card
/// consumes one slot.  A full column is emitted and a fresh one begins; when
/// only doubles remain but the column lacks the headroom, the column is
/// closed early.  The second component counts the slots consumed: two per
/// double, one per normal.
pub open spec fn pack_rec(
    d: Seq<SceneV>,
    n: Seq<SceneV>,
    h: int,
    pad: Seq<CellV>,
    idx: int,
) -> (Seq<Seq<CellV>>, int)
    decreases d.len() + n.len(), idx,
{
    if d.len() == 0 && n.len() == 0 {
        (
            if idx > 0 {
                seq![complete_column(pad, h)]
            } else {
                Seq::<Seq<CellV>>::empty()
            },
            0,
        )
    } else if idx + 2 <= h && d.len() > 0 {
        let pad2 = pad.push(CellV::Filled(d.last())).push(CellV::Empty);
        if idx + 2 == h {
            let rest = pack_rec(d.drop_last(), n, h, Seq::empty(), 0);
            (seq![pad2] + rest.0, rest.1 + 2)
        } else {
            let rest = pack_rec(d.drop_last(), n, h, pad2, idx + 2);
            (rest.0, rest.1 + 2)
        }
    } else if n.len() > 0 {
        let pad2 = pad.push(CellV::Filled(n.last()));
        if idx + 1 == h {
            let rest = pack_rec(d, n.drop_last(), h, Seq::empty(), 0);
            (seq![pad2] + rest.0, rest.1 + 1)
        } else {
            let rest = pack_rec(d, n.drop_last(), h, pad2, idx + 1);
            (rest.0, rest.1 + 1)
        }
    } else if idx > 0 {
        let rest = pack_rec(d, n, h, Seq::empty(), 0);
        (seq![complete_column(pad, h)] + rest.0, rest.1)
    } else {
        (Seq::<Seq<CellV>>::empty(), 0)
    }
}

/// Filled cells of one column.
pub open spec fn filled_count(col: Seq<CellV>) -> int
    decreases col.len(),
{
    if col.len() == 0 {
        0
    } else {
        filled_count(col.drop_last()) + (if col.last() is Filled {
            1int
        } else {
            0
        })
    }
}

/// Filled cells of a list of columns.
pub open spec fn filled_count_cols(cols: Seq<Seq<CellV>>) -> int
    decreases cols.len(),
{
    if cols.len() == 0 {
        0
    } else {
        filled_count_cols(cols.drop_last()) + filled_count(cols.last())
    }
}

proof fn lemma_filled_count_complete(pad: Seq<CellV>, h: int)
    ensures
        filled_count(complete_column(pad, h)) == filled_count(pad),
        pad.len() <= h ==> complete_column(pad, h).len() == h,
    decreases (if h >= pad.len() {
        h - pad.len()
    } else {
        0
    }),
{
    if h > pad.len() {
        assert(complete_column(pad, h).drop_last() =~= complete_column(pad, h - 1));
        assert(complete_column(pad, h).last() == CellV::Empty);
        lemma_filled_count_complete(pad, h - 1);
    } else {
        assert(complete_column(pad, h) =~= pad);
    }
}

proof fn lemma_filled_count_push(pad: Seq<CellV>, c: CellV)
    ensures
        filled_count(pad.push(c)) == filled_count(pad) + (if c is Filled {
            1int
        } else {
            0
        }),
{
    assert(pad.push(c).drop_last() =~= pad);
    assert(pad.push(c).last() == c);
}

/// Packing conservation law: over a whole packer run the slots consumed are
/// exactly one per normal card and two per double card, every emitted column
/// has exactly the grid height, and every card placed appears in exactly one
/// cell (a double card also covers the empty cell directly below its own, in
/// the same column: it is only ever placed when two slots of one column
/// remain, so it never spans a column boundary).
pub proof fn lemma_packing_conservation(
    d: Seq<SceneV>,
    n: Seq<SceneV>,
    h: int,
    pad: Seq<CellV>,
    idx: int,
)
    requires
        2 <= h,
        0 <= idx,
        idx < h,
        pad.len() == idx,
    ensures
        pack_rec(d, n, h, pad, idx).1 == 2 * d.len() + n.len(),
        forall|c: int|
            0 <= c < pack_rec(d, n, h, pad, idx).0.len() ==> (#[trigger] pack_rec(
                d,
                n,
                h,
                pad,
                idx,
            ).0[c]).len() == h,
        filled_count_cols(pack_rec(d, n, h, pad, idx).0) == d.len() + n.len() + filled_count(pad),
    decreases d.len() + n.len(), idx,
{
    reveal_with_fuel(filled_count_cols, 3);
    let result = pack_rec(d, n, h, pad, idx);
    if d.len() == 0 && n.len() == 0 {
        lemma_filled_count_complete(pad, h);
        if idx > 0 {
            assert(result.0.drop_last() =~= Seq::<Seq<CellV>>::empty());
        }
    } else if idx + 2 <= h && d.len() > 0 {
        let pad2 = pad.push(CellV::Filled(d.last())).push(CellV::Empty);
        lemma_filled_count_push(pad, CellV::Filled(d.last()));
        lemma_filled_count_push(pad.push(CellV::Filled(d.last())), CellV::Empty);
        if idx + 2 == h {
            let rest = pack_rec(d.drop_last(), n, h, Seq::empty(), 0);
            lemma_packing_conservation(d.drop_last(), n, h, Seq::empty(), 0);
            assert(result.0 =~= seq![pad2] + rest.0);
            lemma_filled_cols_prepend(pad2, rest.0);
        } else {
            lemma_packing_conservation(d.drop_last(), n, h, pad2, idx + 2);
        }
    } else if n.len() > 0 {
        let pad2 = pad.push(CellV::Filled(n.last()));
        lemma_filled_count_push(pad, CellV::Filled(n.last()));
        if idx + 1 == h {
            let rest = pack_rec(d, n.drop_last(), h, Seq::empty(), 0);
            lemma_packing_conservation(d, n.drop_last(), h, Seq::empty(), 0);
            assert(result.0 =~= seq![pad2] + rest.0);
            lemma_filled_cols_prepend(pad2, rest.0);
        } else {
            lemma_packing_conservation(d, n.drop_last(), h, pad2, idx + 1);
        }
    } else {
        // only doubles remain without headroom; close the column
        assert(idx > 0);
        let rest = pack_rec(d, n, h, Seq::empty(), 0);
        lemma_packing_conservation(d, n, h, Seq::empty(), 0);
        lemma_filled_count_complete(pad, h);
        assert(result.0 =~= seq![complete_column(pad, h)] + rest.0);
        lemma_filled_cols_prepend(complete_column(pad, h), rest.0);
    }
}

/// Filled cells distribute over prepending one column.
proof fn lemma_filled_cols_prepend(col: Seq<CellV>, cols: Seq<Seq<CellV>>)
    ensures
        filled_count_cols(seq![col] + cols) == filled_count(col) + filled_count_cols(cols),
    decreases cols.len(),
{
    reveal_with_fuel(filled_count_cols, 3);
    if cols.len() == 0 {
        assert(seq![col] + cols =~= seq![col]);
        assert(seq![col].drop_last() =~= Seq::<Seq<CellV>>::empty());
    } else {
        assert((seq![col] + cols).drop_last() =~= seq![col] + cols.drop_last());
        assert((seq![col] + cols).last() == cols.last());
        lemma_filled_cols_prepend(col, cols.drop_last());
    }
}

/// Wrapping text never moves the bounding box.
pub proof fn lemma_add_text_rec_keeps_bx(b: BuilderV, t: Seq<char>, lo: int, hi: int)
    ensures
        match add_text_rec(b, t, lo, hi) {
            Ok(b2) => b2.bx == b.bx,
            Err(_) => true,
        },
    decreases hi - lo, b.line.len(),
{
    if lo < hi {
        let start = skip_spaces(t, lo);
        match split_scan(b.font, b.size, t, start, hi, b.x, b.bx.w, start, None) {
            Some(j) => {
                if lo < j && start < j && j <= hi {
                    lemma_add_text_rec_keeps_bx(push_chunk(b, t.subrange(start, j)), t, j, hi);
                }
            },
            None => {
                if b.line.len() > 0 {
                    lemma_add_text_rec_keeps_bx(finish_line_spec(b), t, lo, hi);
                }
            },
        }
    }
}

/// Applying style events never moves the bounding box.
pub proof fn lemma_apply_events_keeps_bx(
    b: BuilderV,
    cfg: MdConfigV,
    stack: Seq<FontV>,
    evs: Seq<MixedEventV>,
    i: int,
)
    ensures
        match crate::markdown::apply_events_spec(b, cfg, stack, evs, i) {
            Ok(b2) => b2.bx == b.bx,
            Err(_) => true,
        },
    decreases evs.len() - i,
{
    if 0 <= i < evs.len() {
        match apply_event_spec(b, cfg, stack, evs[i]) {
            Ok((b2, stack2)) => {
                match evs[i] {
                    MixedEventV::Text(s) => {
                        lemma_add_text_rec_keeps_bx(b, s, skip_spaces(s, 0), rtrim_idx(s));
                    },
                    _ => {},
                }
                lemma_apply_events_keeps_bx(b2, cfg, stack2, evs, i + 1);
            },
            Err(_) => {},
        }
    }
}

/// Appending markdown never moves the bounding box.
pub proof fn lemma_add_markdown_keeps_bx(b: BuilderV, cfg: MdConfigV, t: Seq<char>)
    ensures
        match add_markdown_spec(b, cfg, t) {
            Ok(b2) => b2.bx == b.bx,
            Err(_) => true,
        },
{
    lemma_apply_events_keeps_bx(
        b,
        cfg,
        Seq::empty(),
        crate::markdown::style_events_spec(t),
        0,
    );
}

/// Placing chips never moves the bounding box.
pub proof fn lemma_chips_keeps_bx(b: BuilderV, traits: Seq<Seq<char>>, i: int)
    ensures
        match chips_spec(b, traits, i) {
            Ok(b2) => b2.bx == b.bx,
            Err(_) => true,
        },
    decreases traits.len() - i,
{
    if 0 <= i < traits.len() {
        match add_boxed_text_spec(b, traits[i], TRAIT_PADDING as int) {
            Ok(b2) => {
                lemma_chips_keeps_bx(b2, traits, i + 1);
            },
            Err(_) => {},
        }
    }
}

/// Property lines never move the bounding box.
pub proof fn lemma_props_keeps_bx(b: BuilderV, cfg: FontConfigV, props: Seq<PropertyV>, i: int)
    ensures
        match props_spec(b, cfg, props, i) {
            Ok(b2) => b2.bx == b.bx,
            Err(_) => true,
        },
    decreases props.len() - i,
{
    if 0 <= i < props.len() {
        let b1 = BuilderV { font: cfg.md.bold, ..b };
        match add_text_spec(b1, props[i].name) {
            Err(_) => {},
            Ok(b2) => {
                lemma_add_text_rec_keeps_bx(
                    b1,
                    props[i].name,
                    skip_spaces(props[i].name, 0),
                    rtrim_idx(props[i].name),
                );
                let b3 = BuilderV { font: cfg.md.text, ..b2 };
                match add_text_spec(b3, props[i].value) {
                    Err(_) => {},
                    Ok(b4) => {
                        lemma_add_text_rec_keeps_bx(
                            b3,
                            props[i].value,
                            skip_spaces(props[i].value, 0),
                            rtrim_idx(props[i].value),
                        );
                        lemma_props_keeps_bx(finish_line_spec(b4), cfg, props, i + 1);
                    },
                }
            },
        }
    }
}

/// The header of the card, as [`header_spec`] describes.
fn compose_header<'a>(
    builder: &mut SceneBuilder<'a>,
    config: &FontConfig<'a>,
    spell: &Spell,
) -> (r: Result<(), LayoutError>)
    requires
        old(builder).wf(),
        config.wf(),
    ensures
        final(builder).wf(),
        match r {
            Ok(_) => header_spec(old(builder)@, config@, spell@) == Ok::<BuilderV, ErrV>(
                final(builder)@,
            ),
            Err(e) => header_spec(old(builder)@, config@, spell@) == Err::<BuilderV, ErrV>(e@),
        },
{
    builder.set_line_space(HEADER_LINE_SPACE);
    builder.set_alignment(AlignStrategy::JustifyEven);
    builder.set_font_size(NAME_FONT_SIZE);
    match builder.add_text(spell.name.as_str()) {
        Ok(_) => {},
        Err(e) => {
            return Err(e);
        },
    }
    match &spell.actions {
        Actions::Range(from, to) => {
            builder.set_font_size(ACTION_FONT_SIZE);
            builder.set_font(config.action_count_font);
            let from_glyph = match Actions::number_as_str(*from) {
                Some(g) => g,
                None => "",
            };
            proof {
                reveal_strlit("");
                assert(""@ =~= Seq::<char>::empty());
            }
            match builder.add_text(from_glyph) {
                Ok(_) => {},
                Err(e) => {
                    return Err(e);
                },
            }
            builder.set_font(config.md_config.text_font);
            builder.set_font_size(NAME_FONT_SIZE);
            match builder.add_text("to") {
                Ok(_) => {},
                Err(e) => {
                    return Err(e);
                },
            }
            builder.set_font(config.action_count_font);
            builder.set_font_size(ACTION_FONT_SIZE);
            let to_glyph = match Actions::number_as_str(*to) {
                Some(g) => g,
                None => "",
            };
            proof {
                reveal_strlit("");
                assert(""@ =~= Seq::<char>::empty());
            }
            match builder.add_text(to_glyph) {
                Ok(_) => {},
                Err(e) => {
                    return Err(e);
                },
            }
            builder.set_font(config.md_config.text_font);
        },
        _ => {
            match spell.actions.as_str() {
                Some(glyph) => {
                    builder.set_font_size(ACTION_FONT_SIZE);
                    builder.set_font(config.action_count_font);
                    match builder.add_text(glyph) {
                        Ok(_) => {},
                        Err(e) => {
                            return Err(e);
                        },
                    }
                    builder.set_font(config.md_config.text_font);
                },
                None => {},
            }
        },
    }
    builder.set_font_size(NAME_FONT_SIZE);
    let level = u8_to_string(spell.level);
    match builder.add_text(level.as_str()) {
        Ok(_) => {},
        Err(e) => {
            return Err(e);
        },
    }
    builder.finish_line();
    Ok(())
}

/// The trait-chip row, as [`chips_spec`] describes.
fn compose_chips<'a>(builder: &mut SceneBuilder<'a>, spell: &Spell) -> (r: Result<
    (),
    LayoutError,
>)
    requires
        old(builder).wf(),
    ensures
        final(builder).wf(),
        match r {
            Ok(_) => chips_spec(old(builder)@, spell@.traits, 0) == Ok::<BuilderV, ErrV>(
                final(builder)@,
            ),
            Err(e) => chips_spec(old(builder)@, spell@.traits, 0) == Err::<BuilderV, ErrV>(e@),
        },
{
    let ghost b0 = builder@;
    let ghost traitsv = spell@.traits;
    let mut i: usize = 0;
    while i < spell.traits.len()
        invariant
            builder.wf(),
            traitsv == spell@.traits,
            b0 == old(builder)@,
            traitsv.len() == spell.traits@.len(),
            0 <= i <= spell.traits@.len(),
            chips_spec(builder@, traitsv, i as int) == chips_spec(b0, traitsv, 0),
        decreases spell.traits@.len() - i,
    {
        proof {
            assert(traitsv[i as int] == spell.traits@[i as int]@);
        }
        match builder.add_boxed_text(spell.traits[i].as_str(), TRAIT_PADDING) {
            Ok(_) => {},
            Err(e) => {
                return Err(e);
            },
        }
        i = i + 1;
    }
    Ok(())
}

/// The property lines, as [`props_spec`] describes.
fn compose_props<'a>(
    builder: &mut SceneBuilder<'a>,
    config: &FontConfig<'a>,
    spell: &Spell,
) -> (r: Result<(), LayoutError>)
    requires
        old(builder).wf(),
        config.wf(),
    ensures
        final(builder).wf(),
        match r {
            Ok(_) => props_spec(old(builder)@, config@, spell@.properties, 0) == Ok::<
                BuilderV,
                ErrV,
            >(final(builder)@),
            Err(e) => props_spec(old(builder)@, config@, spell@.properties, 0) == Err::<
                BuilderV,
                ErrV,
            >(e@),
        },
{
    let ghost b0 = builder@;
    let ghost propsv = spell@.properties;
    let mut i: usize = 0;
    while i < spell.properties.len()
        invariant
            builder.wf(),
            config.wf(),
            propsv == spell@.properties,
            b0 == old(builder)@,
            propsv.len() == spell.properties@.len(),
            0 <= i <= spell.properties@.len(),
            props_spec(builder@, config@, propsv, i as int) == props_spec(b0, config@, propsv, 0),
        decreases spell.properties@.len() - i,
    {
        proof {
            assert(propsv[i as int] == spell.properties@[i as int]@);
        }
        builder.set_font(config.md_config.bold_font);
        match builder.add_text(spell.properties[i].name.as_str()) {
            Ok(_) => {},
            Err(e) => {
                return Err(e);
            },
        }
        builder.set_font(config.md_config.text_font);
        match builder.add_text(spell.properties[i].value.as_str()) {
            Ok(_) => {},
            Err(e) => {
                return Err(e);
            },
        }
        builder.finish_line();
        i = i + 1;
    }
    Ok(())
}

/// Compose one spell's card, as [`compose_spec`] describes: the scene plus
/// whether it needs a double-height slot, or the failure that stopped it.
#[verifier::rlimit(100)]
pub fn build_spell_scene<'a>(config: &FontConfig<'a>, spell: &Spell) -> (r: Result<
    (Scene, bool),
    LayoutError,
>)
    requires
        config.wf(),
    ensures
        match r {
            Ok((scene, is_double)) => compose_spec(config@, spell@) == Ok::<(SceneV, bool), ErrV>(
                (scene@, is_double),
            ),
            Err(e) => compose_spec(config@, spell@) == Err::<(SceneV, bool), ErrV>(e@),
        },
{
    let bbox = Rect::new(0, 0, CARD_WIDTH_INNER, CARD_HEIGHT_INNER);
    let mut builder = SceneBuilder::new(config.md_config.text_font, bbox);
    proof {
        assert(builder@ == initial_builder(config@));
    }
    match compose_header(&mut builder, config, spell) {
        Ok(_) => {},
        Err(e) => {
            return Err(e);
        },
    }
    builder.set_line_space(LINE_SPACE);
    builder.set_font_size(GENERAL_TEXT_FONT_SIZE);
    builder.set_chunk_space(TRAIT_CHUNK_SPACE);
    builder.set_alignment(AlignStrategy::AlignLeft);
    match compose_chips(&mut builder, spell) {
        Ok(_) => {},
        Err(e) => {
            return Err(e);
        },
    }
    builder.set_default_chunk_space();
    builder.finish_line();
    match compose_props(&mut builder, config, spell) {
        Ok(_) => {},
        Err(e) => {
            return Err(e);
        },
    }
    builder.add_separator_line();
    match builder.add_markdown(&config.md_config, spell.description.as_str()) {
        Ok(_) => {},
        Err(e) => {
            return Err(e);
        },
    }
    match &spell.heightened {
        Some(heightened) => {
            builder.add_separator_line();
            match builder.add_markdown(&config.md_config, heightened.as_str()) {
                Ok(_) => {},
                Err(e) => {
                    return Err(e);
                },
            }
            builder.finish_line();
        },
        None => {},
    }
    builder.finish_line();
    proof {
        lemma_compose_steps_keep_bx(config@, spell@);
    }
    let is_double = builder.is_out_of_bounds();
    if is_double {
        builder.double_box();
    }
    let frame = builder.get_bounding_box().dilate(FRAME_OUTSET);
    builder.add_rect(frame);
    if builder.is_out_of_bounds() {
        let err = LayoutError::CardOverflow { name: spell.name.clone() };
        return Err(err);
    }
    let scene = builder.scene();
    Ok((scene, is_double))
}

/// Every section of a successful composition leaves the bounding box where
/// the builder started: the inner card box.
proof fn lemma_compose_steps_keep_bx(cfg: FontConfigV, s: SpellV)
    ensures
        ({
            let b0 = initial_builder(cfg);
            match header_spec(b0, cfg, s) {
                Err(_) => true,
                Ok(b) => {
                    let b = BuilderV {
                        align: AlignStrategy::AlignLeft,
                        ..BuilderV {
                            chunk_space: TRAIT_CHUNK_SPACE as int,
                            ..BuilderV {
                                size: GENERAL_TEXT_FONT_SIZE as int,
                                ..BuilderV { line_space: LINE_SPACE as int, ..b }
                            }
                        }
                    };
                    match chips_spec(b, s.traits, 0) {
                        Err(_) => true,
                        Ok(b) => {
                            let b = finish_line_spec(
                                BuilderV { chunk_space: char_width(b.font, b.size, ' '), ..b },
                            );
                            match props_spec(b, cfg, s.properties, 0) {
                                Err(_) => true,
                                Ok(b) => {
                                    let b = add_separator_spec(b);
                                    match add_markdown_spec(b, cfg.md, s.description) {
                                        Err(_) => true,
                                        Ok(b) => {
                                            let after = match s.heightened {
                                                Some(h) => {
                                                    match add_markdown_spec(
                                                        add_separator_spec(b),
                                                        cfg.md,
                                                        h,
                                                    ) {
                                                        Err(e) => Err(e),
                                                        Ok(b2) => Ok(finish_line_spec(b2)),
                                                    }
                                                },
                                                None => Ok(b),
                                            };
                                            match after {
                                                Err(_) => true,
                                                Ok(b) => finish_line_spec(b).bx == b0.bx,
                                            }
                                        },
                                    }
                                },
                            }
                        },
                    }
                },
            }
        }),
{
    let b0 = initial_builder(cfg);
    lemma_header_keeps_bx(b0, cfg, s);
    match header_spec(b0, cfg, s) {
        Err(_) => {},
        Ok(b) => {
            let b = BuilderV {
                align: AlignStrategy::AlignLeft,
                ..BuilderV {
                    chunk_space: TRAIT_CHUNK_SPACE as int,
                    ..BuilderV {
                        size: GENERAL_TEXT_FONT_SIZE as int,
                        ..BuilderV { line_space: LINE_SPACE as int, ..b }
                    }
                }
            };
            lemma_chips_keeps_bx(b, s.traits, 0);
            match chips_spec(b, s.traits, 0) {
                Err(_) => {},
                Ok(b) => {
                    let b = finish_line_spec(
                        BuilderV { chunk_space: char_width(b.font, b.size, ' '), ..b },
                    );
                    lemma_props_keeps_bx(b, cfg, s.properties, 0);
                    match props_spec(b, cfg, s.properties, 0) {
                        Err(_) => {},
                        Ok(b) => {
                            let b = add_separator_spec(b);
                            lemma_add_markdown_keeps_bx(b, cfg.md, s.description);
                            match add_markdown_spec(b, cfg.md, s.description) {
                                Err(_) => {},
                                Ok(b) => {
                                    match s.heightened {
                                        Some(h) => {
                                            lemma_add_markdown_keeps_bx(
                                                add_separator_spec(b),
                                                cfg.md,
                                                h,
                                            );
                                        },
                                        None => {},
                                    }
                                },
                            }
                        },
                    }
                },
            }
        },
    }
}

/// The header never moves the bounding box.
proof fn lemma_header_keeps_bx(b0: BuilderV, cfg: FontConfigV, s: SpellV)
    ensures
        match header_spec(b0, cfg, s) {
            Ok(b2) => b2.bx == b0.bx,
            Err(_) => true,
        },
{
    let b = BuilderV {
        size: NAME_FONT_SIZE as int,
        ..BuilderV {
            align: AlignStrategy::JustifyEven,
            ..BuilderV { line_space: HEADER_LINE_SPACE as int, ..b0 }
        }
    };
    lemma_add_text_spec_keeps_bx(b, s.name);
    match add_text_spec(b, s.name) {
        Err(_) => {},
        Ok(b) => {
            lemma_actions_keeps_bx(b, cfg, s.actions);
            match actions_steps(b, cfg, s.actions) {
                Err(_) => {},
                Ok(b) => {
                    let b = BuilderV { size: NAME_FONT_SIZE as int, ..b };
                    lemma_add_text_spec_keeps_bx(b, u8_digits(s.level));
                },
            }
        },
    }
}

proof fn lemma_add_text_spec_keeps_bx(b: BuilderV, t: Seq<char>)
    ensures
        match add_text_spec(b, t) {
            Ok(b2) => b2.bx == b.bx,
            Err(_) => true,
        },
{
    lemma_add_text_rec_keeps_bx(b, t, skip_spaces(t, 0), rtrim_idx(t));
}

proof fn lemma_actions_keeps_bx(b: BuilderV, cfg: FontConfigV, a: ActionsV)
    ensures
        match actions_steps(b, cfg, a) {
            Ok(b2) => b2.bx == b.bx,
            Err(_) => true,
        },
{
    match a {
        ActionsV::Range(from, to) => {
            let b1 = BuilderV { font: cfg.action, ..BuilderV { size: ACTION_FONT_SIZE as int, ..b } };
            lemma_add_text_spec_keeps_bx(b1, glyph_text(number_glyph(from)));
            match add_text_spec(b1, glyph_text(number_glyph(from))) {
                Err(_) => {},
                Ok(b2) => {
                    let b3 = BuilderV {
                        size: NAME_FONT_SIZE as int,
                        ..BuilderV { font: cfg.md.text, ..b2 }
                    };
                    lemma_add_text_spec_keeps_bx(b3, "to"@);
                    match add_text_spec(b3, "to"@) {
                        Err(_) => {},
                        Ok(b4) => {
                            let b5 = BuilderV {
                                size: ACTION_FONT_SIZE as int,
                                ..BuilderV { font: cfg.action, ..b4 }
                            };
                            lemma_add_text_spec_keeps_bx(b5, glyph_text(number_glyph(to)));
                        },
                    }
                },
            }
        },
        _ => {
            if actions_glyph(a) is Some {
                let b1 = BuilderV {
                    font: cfg.action,
                    ..BuilderV { size: ACTION_FONT_SIZE as int, ..b }
                };
                lemma_add_text_spec_keeps_bx(b1, actions_glyph(a)->0);
            }
        },
    }
}

/// Pack composed cards into grid columns, as [`pack_rec`] describes: doubles
/// and normals are drawn from the backs of their queues, a double is placed
/// whenever two slots of the current column remain, and each full column is
/// emitted in order.
pub fn pack_cards(doubles: Vec<Scene>, normal: Vec<Scene>) -> (r: Vec<Vec<PageCell>>)
    ensures
        columns_view(r@) == pack_rec(
            doubles@.map_values(|s: Scene| s@),
            normal@.map_values(|s: Scene| s@),
            GRID_HEIGHT as int,
            Seq::empty(),
            0,
        ).0,
{
    let ghost d0 = doubles@.map_values(|s: Scene| s@);
    let ghost n0 = normal@.map_values(|s: Scene| s@);
    let mut doubles = doubles;
    let mut normal = normal;
    let mut out: Vec<Vec<PageCell>> = Vec::new();
    let mut pad: Vec<PageCell> = Vec::new();
    let mut idx: usize = 0;
    proof {
        assert(columns_view(out@) =~= Seq::<Seq<CellV>>::empty());
        assert(column_view(pad) =~= Seq::<CellV>::empty());
    }
    while doubles.len() > 0 || normal.len() > 0
        invariant
            0 <= idx <= GRID_HEIGHT,
            idx < GRID_HEIGHT,
            pad@.len() == idx,
            columns_view(out@) + pack_rec(
                doubles@.map_values(|s: Scene| s@),
                normal@.map_values(|s: Scene| s@),
                GRID_HEIGHT as int,
                column_view(pad),
                idx as int,
            ).0 =~= pack_rec(d0, n0, GRID_HEIGHT as int, Seq::empty(), 0).0,
        decreases doubles@.len() + normal@.len(), idx,
    {
        let ghost dcur = doubles@.map_values(|s: Scene| s@);
        let ghost ncur = normal@.map_values(|s: Scene| s@);
        let ghost padv = column_view(pad);
        if idx + 2 <= GRID_HEIGHT && doubles.len() > 0 {
            let scene = match doubles.pop() {
                Some(s) => s,
                None => vstd::pervasive::unreached(),
            };
            proof {
                assert(doubles@.map_values(|s: Scene| s@) =~= dcur.drop_last());
                assert(scene@ == dcur.last());
            }
            pad.push(PageCell::Filled(scene));
            pad.push(PageCell::Empty);
            idx = idx + 2;
            proof {
                assert(column_view(pad) =~= padv.push(CellV::Filled(dcur.last())).push(
                    CellV::Empty,
                ));
            }
        } else if normal.len() > 0 {
            let scene = match normal.pop() {
                Some(s) => s,
                None => vstd::pervasive::unreached(),
            };
            proof {
                assert(normal@.map_values(|s: Scene| s@) =~= ncur.drop_last());
                assert(scene@ == ncur.last());
            }
            pad.push(PageCell::Filled(scene));
            idx = idx + 1;
            proof {
                assert(column_view(pad) =~= padv.push(CellV::Filled(ncur.last())));
            }
        } else {
            // only doubles remain and the column lacks headroom: close it
            while idx < GRID_HEIGHT
                invariant
                    idx <= GRID_HEIGHT,
                    pad@.len() == idx,
                    column_view(pad) =~= complete_column(padv, idx as int),
                decreases GRID_HEIGHT - idx,
            {
                pad.push(PageCell::Empty);
                proof {
                    assert(complete_column(padv, idx as int).push(CellV::Empty)
                        =~= complete_column(padv, idx as int + 1));
                    assert(column_view(pad) =~= complete_column(padv, idx as int + 1));
                }
                idx = idx + 1;
            }
            proof {
                assert(column_view(pad) =~= complete_column(padv, GRID_HEIGHT as int));
            }
            out.push(pad);
            pad = Vec::new();
            idx = 0;
            proof {
                assert(column_view(pad) =~= Seq::<CellV>::empty());
                assert(columns_view(out@) =~= columns_view(out@.drop_last()).push(
                    complete_column(padv, GRID_HEIGHT as int),
                ));
                assert(columns_view(out@) + pack_rec(
                    dcur,
                    ncur,
                    GRID_HEIGHT as int,
                    Seq::empty(),
                    0,
                ).0 =~= pack_rec(d0, n0, GRID_HEIGHT as int, Seq::empty(), 0).0);
            }
            continue ;
        }
        if idx == GRID_HEIGHT {
            let ghost padv2 = column_view(pad);
            out.push(pad);
            pad = Vec::new();
            idx = 0;
            proof {
                assert(column_view(pad) =~= Seq::<CellV>::empty());
                assert(columns_view(out@) =~= columns_view(out@.drop_last()).push(padv2));
            }
        }
        proof {
            assert(columns_view(out@) + pack_rec(
                doubles@.map_values(|s: Scene| s@),
                normal@.map_values(|s: Scene| s@),
                GRID_HEIGHT as int,
                column_view(pad),
                idx as int,
            ).0 =~= pack_rec(d0, n0, GRID_HEIGHT as int, Seq::empty(), 0).0);
        }
    }
    if idx > 0 {
        let ghost padv = column_view(pad);
        let ghost dcur = doubles@.map_values(|s: Scene| s@);
        let ghost ncur = normal@.map_values(|s: Scene| s@);
        let mut pad = pad;
        let mut fill = idx;
        while fill < GRID_HEIGHT
            invariant
                fill <= GRID_HEIGHT,
                pad@.len() == fill,
                column_view(pad) =~= complete_column(padv, fill as int),
            decreases GRID_HEIGHT - fill,
        {
            pad.push(PageCell::Empty);
            proof {
                assert(complete_column(padv, fill as int).push(CellV::Empty) =~= complete_column(
                    padv,
                    fill as int + 1,
                ));
                assert(column_view(pad) =~= complete_column(padv, fill as int + 1));
            }
            fill = fill + 1;
        }
        proof {
            assert(dcur =~= Seq::<SceneV>::empty());
            assert(ncur =~= Seq::<SceneV>::empty());
        }
        out.push(pad);
        proof {
            assert(columns_view(out@) =~= columns_view(out@.drop_last()).push(
                complete_column(padv, GRID_HEIGHT as int),
            ));
            assert(columns_view(out@) =~= pack_rec(d0, n0, GRID_HEIGHT as int, Seq::empty(), 0).0);
        }
    } else {
        proof {
            assert(columns_view(out@) =~= pack_rec(d0, n0, GRID_HEIGHT as int, Seq::empty(), 0).0);
        }
    }
    out
}

/// The scenes and failures of a run of spells: doubles and normals
/// partitioned in order, failures collected for the caller to log; one bad
/// record never aborts the batch.
pub open spec fn partition_spec(cfg: FontConfigV, spells: Seq<SpellV>) -> (
    Seq<SceneV>,
    Seq<SceneV>,
    Seq<ErrV>,
)
    decreases spells.len(),
{
    if spells.len() == 0 {
        (Seq::<SceneV>::empty(), Seq::<SceneV>::empty(), Seq::<ErrV>::empty())
    } else {
        let prev = partition_spec(cfg, spells.drop_last());
        match compose_spec(cfg, spells.last()) {
            Ok((scene, is_double)) => if is_double {
                (prev.0.push(scene), prev.1, prev.2)
            } else {
                (prev.0, prev.1.push(scene), prev.2)
            },
            Err(e) => (prev.0, prev.1, prev.2.push(e)),
        }
    }
}

/// Compose every spell and pack the cards into grid columns.  Failed cards
/// are skipped and their failures returned alongside, in input order.
#[verifier::rlimit(100)]
pub fn build_pages<'a>(config: &FontConfig<'a>, spells: &Vec<Spell>) -> (r: (
    Vec<Vec<PageCell>>,
    Vec<LayoutError>,
))
    requires
        config.wf(),
    ensures
        ({
            let parts = partition_spec(config@, spells@.map_values(|s: Spell| s@));
            &&& columns_view(r.0@) == pack_rec(
                parts.0,
                parts.1,
                GRID_HEIGHT as int,
                Seq::empty(),
                0,
            ).0
            &&& r.1@.map_values(|e: LayoutError| e@) == parts.2
        }),
{
    let ghost spellsv = spells@.map_values(|s: Spell| s@);
    let mut doubles: Vec<Scene> = Vec::new();
    let mut normal: Vec<Scene> = Vec::new();
    let mut errors: Vec<LayoutError> = Vec::new();
    let mut i: usize = 0;
    proof {
        assert(spellsv.subrange(0, 0) =~= Seq::<SpellV>::empty());
        assert(doubles@.map_values(|s: Scene| s@) =~= Seq::<SceneV>::empty());
        assert(normal@.map_values(|s: Scene| s@) =~= Seq::<SceneV>::empty());
        assert(errors@.map_values(|e: LayoutError| e@) =~= Seq::<ErrV>::empty());
    }
    while i < spells.len()
        invariant
            config.wf(),
            spellsv == spells@.map_values(|s: Spell| s@),
            spellsv.len() == spells@.len(),
            0 <= i <= spells@.len(),
            partition_spec(config@, spellsv.subrange(0, i as int)) == (
                doubles@.map_values(|s: Scene| s@),
                normal@.map_values(|s: Scene| s@),
                errors@.map_values(|e: LayoutError| e@),
            ),
        decreases spells@.len() - i,
    {
        proof {
            assert(spellsv.subrange(0, i as int + 1).drop_last() =~= spellsv.subrange(0, i as int));
            assert(spellsv.subrange(0, i as int + 1).last() == spellsv[i as int]);
            assert(spellsv[i as int] == spells@[i as int]@);
        }
        match build_spell_scene(config, &spells[i]) {
            Ok((scene, is_double)) => {
                if is_double {
                    doubles.push(scene);
                    proof {
                        assert(doubles@.map_values(|s: Scene| s@) =~= partition_spec(
                            config@,
                            spellsv.subrange(0, i as int + 1),
                        ).0);
                    }
                } else {
                    normal.push(scene);
                    proof {
                        assert(normal@.map_values(|s: Scene| s@) =~= partition_spec(
                            config@,
                            spellsv.subrange(0, i as int + 1),
                        ).1);
                    }
                }
            },
            Err(e) => {
                errors.push(e);
                proof {
                    assert(errors@.map_values(|e: LayoutError| e@) =~= partition_spec(
                        config@,
                        spellsv.subrange(0, i as int + 1),
                    ).2);
                }
            },
        }
        proof {
            assert(partition_spec(config@, spellsv.subrange(0, i as int + 1)) == (
                doubles@.map_values(|s: Scene| s@),
                normal@.map_values(|s: Scene| s@),
                errors@.map_values(|e: LayoutError| e@),
            ));
        }
        i = i + 1;
    }
    proof {
        assert(spellsv.subrange(0, spells@.len() as int) =~= spellsv);
    }
    let columns = pack_cards(doubles, normal);
    (columns, errors)
}

} // verus!
