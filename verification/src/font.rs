//! Font metrics as plain values: per-character advance widths in font units
//! plus a units-per-em divisor.  The engine scales an advance to layout units
//! as `advance * size / units_per_em` (integer division).  Loading metrics
//! out of a font file is the caller's concern; the engine only reads tables.

use vstd::prelude::*;

use crate::geom::{ADVANCE_MAX, CHAR_WIDTH_MAX, DIM_MAX, SIZE_MAX};

verus! {

/// The roles a font can play on a card; also selects the backing font file.
#[derive(Clone, Copy, PartialEq, Eq, Structural, Debug)]
pub enum FontKind {
    Text,
    Bold,
    Italic,
    ActionCount,
}

impl FontKind {
    /// The font file backing this role.
    pub open spec fn spec_path(self) -> Seq<char> {
        match self {
            FontKind::Text | FontKind::Italic => "static/Helvetica.ttf"@,
            FontKind::Bold => "static/Helvetica-Bold.ttf"@,
            FontKind::ActionCount => "static/Pathfinder2eActions.ttf"@,
        }
    }

    pub fn path(self) -> (r: &'static str)
        ensures
            r@ == self.spec_path(),
    {
        match self {
            FontKind::Text | FontKind::Italic => "static/Helvetica.ttf",
            FontKind::Bold => "static/Helvetica-Bold.ttf",
            FontKind::ActionCount => "static/Pathfinder2eActions.ttf",
        }
    }
}

/// Builds a renderer-specific font reference for a [`FontKind`].  The layout
/// engine itself never calls this; it exists for callers that pair metric
/// tables with backend font handles.
pub trait FontProvider: Sized {
    type Init;

    fn build_font(provider_source: &mut Self::Init, font: FontKind) -> Option<Self>;
}

impl FontProvider for () {
    type Init = ();

    fn build_font(_provider_source: &mut (), _font: FontKind) -> Option<()> {
        Some(())
    }
}

/// Mathematical model of a font: its role, divisor and advance table.
pub struct FontV {
    pub kind: FontKind,
    pub units_per_em: int,
    pub advances: Seq<(char, int)>,
}

/// First matching entry of the advance table, if any.
pub open spec fn adv_lookup(advances: Seq<(char, int)>, c: char) -> Option<int>
    decreases advances.len(),
{
    if advances.len() == 0 {
        None
    } else if advances[0].0 == c {
        Some(advances[0].1)
    } else {
        adv_lookup(advances.drop_first(), c)
    }
}

/// A well-formed font model: positive divisor, bounded advances.
pub open spec fn font_wf(f: FontV) -> bool {
    &&& 1 <= f.units_per_em <= ADVANCE_MAX
    &&& forall|i: int| 0 <= i < f.advances.len() ==> 0 <= (#[trigger] f.advances[i]).1 <= ADVANCE_MAX
}

/// Width of one character at `size`: the scaled advance, or zero when the
/// glyph is missing (the silent-degrade policy for missing metrics).
pub open spec fn char_width(f: FontV, size: int, c: char) -> int {
    match adv_lookup(f.advances, c) {
        Some(a) => a * size / f.units_per_em,
        None => 0,
    }
}

/// Width of a run of text: the sum of its character widths.
pub open spec fn text_width(f: FontV, size: int, t: Seq<char>) -> int
    decreases t.len(),
{
    if t.len() == 0 {
        0
    } else {
        char_width(f, size, t[0]) + text_width(f, size, t.drop_first())
    }
}

pub proof fn lemma_adv_lookup_bounds(advances: Seq<(char, int)>, c: char)
    requires
        forall|i: int| 0 <= i < advances.len() ==> 0 <= (#[trigger] advances[i]).1 <= ADVANCE_MAX,
    ensures
        match adv_lookup(advances, c) {
            Some(a) => 0 <= a <= ADVANCE_MAX,
            None => true,
        },
    decreases advances.len(),
{
    if advances.len() > 0 && advances[0].0 != c {
        lemma_adv_lookup_bounds(advances.drop_first(), c);
    }
}

/// A character width is nonnegative and bounded.
pub proof fn lemma_char_width_bounds(f: FontV, size: int, c: char)
    requires
        font_wf(f),
        0 <= size <= SIZE_MAX,
    ensures
        0 <= char_width(f, size, c) <= CHAR_WIDTH_MAX,
{
    lemma_adv_lookup_bounds(f.advances, c);
    match adv_lookup(f.advances, c) {
        Some(a) => {
            assert(0 <= a * size <= CHAR_WIDTH_MAX) by (nonlinear_arith)
                requires
                    0 <= a <= ADVANCE_MAX,
                    0 <= size <= SIZE_MAX,
            ;
            assert(0 <= a * size / f.units_per_em <= a * size) by (nonlinear_arith)
                requires
                    0 <= a * size,
                    1 <= f.units_per_em,
            ;
        },
        None => {},
    }
}

/// Text width distributes over concatenation.
pub proof fn lemma_text_width_concat(f: FontV, size: int, a: Seq<char>, b: Seq<char>)
    ensures
        text_width(f, size, a + b) == text_width(f, size, a) + text_width(f, size, b),
    decreases a.len(),
{
    if a.len() == 0 {
        assert(a + b =~= b);
    } else {
        assert((a + b).drop_first() =~= a.drop_first() + b);
        lemma_text_width_concat(f, size, a.drop_first(), b);
    }
}

/// Text width is nonnegative.
pub proof fn lemma_text_width_nonneg(f: FontV, size: int, t: Seq<char>)
    requires
        font_wf(f),
        0 <= size <= SIZE_MAX,
    ensures
        0 <= text_width(f, size, t),
    decreases t.len(),
{
    if t.len() > 0 {
        lemma_char_width_bounds(f, size, t[0]);
        lemma_text_width_nonneg(f, size, t.drop_first());
    }
}

/// Appending one character adds exactly its width.
pub proof fn lemma_text_width_snoc(f: FontV, size: int, t: Seq<char>, c: char)
    ensures
        text_width(f, size, t.push(c)) == text_width(f, size, t) + char_width(f, size, c),
{
    reveal_with_fuel(text_width, 2);
    assert(t.push(c) =~= t + seq![c]);
    lemma_text_width_concat(f, size, t, seq![c]);
    assert(seq![c].drop_first() =~= Seq::<char>::empty());
    assert(seq![c][0] == c);
    assert(text_width(f, size, seq![c]) == char_width(f, size, c));
}

/// A font metrics table.  Missing characters measure as zero width.
pub struct Font {
    kind: FontKind,
    units_per_em: i64,
    advances: Vec<(char, i64)>,
}

impl View for Font {
    type V = FontV;

    closed spec fn view(&self) -> FontV {
        FontV {
            kind: self.kind,
            units_per_em: self.units_per_em as int,
            advances: self.advances@.map_values(|p: (char, i64)| (p.0, p.1 as int)),
        }
    }
}

impl Font {
    /// The model is well formed.
    pub open spec fn wf(&self) -> bool {
        font_wf(self@)
    }

    /// Build a metrics table.  When the same character occurs twice, the
    /// first entry wins.
    pub fn new(kind: FontKind, units_per_em: i64, advances: Vec<(char, i64)>) -> (r: Font)
        requires
            1 <= units_per_em <= ADVANCE_MAX,
            forall|i: int|
                0 <= i < advances@.len() ==> 0 <= (#[trigger] advances@[i]).1 <= ADVANCE_MAX,
        ensures
            r.wf(),
            r@.kind == kind,
            r@.units_per_em == units_per_em as int,
            r@.advances.len() == advances@.len(),
            forall|i: int|
                0 <= i < advances@.len() ==> r@.advances[i] == ((#[trigger] advances@[i]).0,
                advances@[i].1 as int),
    {
        let r = Font { kind, units_per_em, advances };
        proof {
            assert forall|i: int| 0 <= i < r@.advances.len() implies 0 <= (
            #[trigger] r@.advances[i]).1 <= ADVANCE_MAX by {
                assert(r@.advances[i] == (r.advances@[i].0, r.advances@[i].1 as int));
            }
        }
        r
    }

    pub fn kind(&self) -> (r: FontKind)
        ensures
            r == self@.kind,
    {
        self.kind
    }

    /// The raw advance of `c` in font units, if the table has it.
    pub fn char_advance_units(&self, c: char) -> (r: Option<i64>)
        ensures
            match r {
                Some(a) => adv_lookup(self@.advances, c) == Some(a as int),
                None => adv_lookup(self@.advances, c) is None,
            },
    {
        let ghost all = self@.advances;
        proof {
            assert(all.skip(0) =~= all);
        }
        let mut i: usize = 0;
        while i < self.advances.len()
            invariant
                0 <= i <= self.advances.len(),
                all == self@.advances,
                all.len() == self.advances.len(),
                forall|j: int| 0 <= j < all.len() ==> all[j] == (
                (#[trigger] self.advances@[j]).0, self.advances@[j].1 as int),
                adv_lookup(all, c) == adv_lookup(all.skip(i as int), c),
            decreases self.advances.len() - i,
        {
            let (entry_c, entry_a) = self.advances[i];
            proof {
                assert(all.skip(i as int)[0] == all[i as int]);
            }
            if entry_c == c {
                return Some(entry_a);
            }
            proof {
                assert(all.skip(i as int).drop_first() =~= all.skip(i as int + 1));
            }
            i = i + 1;
        }
        proof {
            assert(all.skip(i as int) =~= Seq::<(char, int)>::empty());
        }
        None
    }

    /// The width of `c` in layout units at `size`.
    pub fn char_width_at(&self, size: i64, c: char) -> (r: i64)
        requires
            self.wf(),
            0 <= size <= SIZE_MAX,
        ensures
            r as int == char_width(self@, size as int, c),
            0 <= r <= CHAR_WIDTH_MAX,
    {
        proof {
            lemma_char_width_bounds(self@, size as int, c);
        }
        match self.char_advance_units(c) {
            Some(a) => {
                proof {
                    lemma_adv_lookup_bounds(self@.advances, c);
                    assert(0 <= a as int * size as int <= CHAR_WIDTH_MAX) by (nonlinear_arith)
                        requires
                            0 <= a as int <= ADVANCE_MAX,
                            0 <= size as int <= SIZE_MAX,
                    ;
                }
                (a * size) / self.units_per_em
            },
            None => 0,
        }
    }

    /// Measure `s[lo..hi]` at `size` against a horizontal budget: returns the
    /// exact width when a run starting at `x` would end at or before `w_max`,
    /// and `None` when it would not.  The scan stops early once the budget is
    /// exceeded, so it never overflows however long the text is.
    pub fn measure_fit(&self, size: i64, s: &str, lo: usize, hi: usize, x: i64, w_max: i64) -> (r:
        Option<i64>)
        requires
            self.wf(),
            0 <= size <= SIZE_MAX,
            lo <= hi <= s@.len(),
            0 <= x <= DIM_MAX + CHAR_WIDTH_MAX,
            0 <= w_max <= DIM_MAX,
        ensures
            match r {
                Some(w) => w as int == text_width(self@, size as int, s@.subrange(
                    lo as int,
                    hi as int,
                )) && x + w <= w_max,
                None => x + text_width(self@, size as int, s@.subrange(lo as int, hi as int))
                    > w_max,
            },
    {
        let ghost whole = s@.subrange(lo as int, hi as int);
        proof {
            lemma_text_width_nonneg(self@, size as int, whole);
        }
        if x > w_max {
            return None;
        }
        let mut acc: i64 = 0;
        let mut i: usize = lo;
        while i < hi
            invariant
                self.wf(),
                0 <= size <= SIZE_MAX,
                lo <= i <= hi <= s@.len(),
                0 <= x <= DIM_MAX + CHAR_WIDTH_MAX,
                0 <= w_max <= DIM_MAX,
                whole == s@.subrange(lo as int, hi as int),
                acc as int == text_width(self@, size as int, s@.subrange(lo as int, i as int)),
                0 <= acc,
                x + acc <= w_max,
            decreases hi - i,
        {
            let c = s.get_char(i);
            let cw = self.char_width_at(size, c);
            proof {
                lemma_text_width_snoc(
                    self@,
                    size as int,
                    s@.subrange(lo as int, i as int),
                    s@[i as int],
                );
                assert(s@.subrange(lo as int, i as int).push(s@[i as int]) =~= s@.subrange(
                    lo as int,
                    i as int + 1,
                ));
            }
            let next: i64 = acc + cw;
            if x + next > w_max {
                proof {
                    lemma_text_width_concat(
                        self@,
                        size as int,
                        s@.subrange(lo as int, i as int + 1),
                        s@.subrange(i as int + 1, hi as int),
                    );
                    assert(s@.subrange(lo as int, i as int + 1) + s@.subrange(
                        i as int + 1,
                        hi as int,
                    ) =~= whole);
                    lemma_text_width_nonneg(
                        self@,
                        size as int,
                        s@.subrange(i as int + 1, hi as int),
                    );
                }
                return None;
            }
            acc = next;
            i = i + 1;
        }
        Some(acc)
    }
}

} // verus!
