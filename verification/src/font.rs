//! Font data as the layout engine sees it: fixed-point metrics, a glyph
//! table, the advance fallback rule, and the width/position queries.

use vstd::prelude::*;
use crate::{MAX_ADVANCE, MAX_METRIC, MAX_TEXT_LEN, WHITESPACE_FALLBACK_ADVANCE};
use crate::geometry::GlyphMeshData;

verus! {

/// True of the characters with the Unicode `White_Space` property.
/// Whitespace consumes advance but never requests glyph geometry.
pub open spec fn spec_is_whitespace(c: char) -> bool {
    let u = c as u32;
    ||| 0x9 <= u <= 0xD
    ||| u == 0x20
    ||| u == 0x85
    ||| u == 0xA0
    ||| u == 0x1680
    ||| 0x2000 <= u <= 0x200A
    ||| u == 0x2028
    ||| u == 0x2029
    ||| u == 0x202F
    ||| u == 0x205F
    ||| u == 0x3000
}

/// Decides whether a character is whitespace, by the Unicode `White_Space`
/// list of code points.
pub fn is_whitespace_char(c: char) -> (r: bool)
    ensures
        r == spec_is_whitespace(c),
{
    let u = c as u32;
    (0x9 <= u && u <= 0xD)
        || u == 0x20
        || u == 0x85
        || u == 0xA0
        || u == 0x1680
        || (0x2000 <= u && u <= 0x200A)
        || u == 0x2028
        || u == 0x2029
        || u == 0x202F
        || u == 0x205F
        || u == 0x3000
}

/// One character's entry in a font: its advance width and, where the font
/// has a usable outline for it, the tessellated local mesh. Whitespace and
/// failed tessellations carry `None`.
#[derive(Clone, Debug)]
pub struct GlyphEntry {
    pub character: char,
    pub advance: i64,
    pub mesh: Option<GlyphMeshData>,
}

impl GlyphEntry {
    /// A well-formed entry: a non-negative bounded advance and, if present,
    /// a well-formed mesh.
    pub open spec fn wf(self) -> bool {
        &&& 0 <= self.advance <= MAX_ADVANCE
        &&& match self.mesh {
                Some(m) => m.wf(),
                None => true,
            }
    }
}

/// A parsed font as the layout engine reads it: font-wide vertical metrics
/// and a glyph table. The table lists every character the font has a glyph
/// for (among those a layout pass may meet); a character not listed is one
/// the font reports no glyph for.
#[derive(Clone, Debug)]
pub struct GlyphFont {
    pub ascender: i64,
    pub descender: i64,
    pub line_gap: i64,
    pub glyphs: Vec<GlyphEntry>,
}

/// The first entry of the table for a character, if any.
pub open spec fn glyph_at(glyphs: Seq<GlyphEntry>, c: char) -> Option<GlyphEntry>
    decreases glyphs.len(),
{
    if glyphs.len() == 0 {
        None
    } else if glyphs[0].character == c {
        Some(glyphs[0])
    } else {
        glyph_at(glyphs.drop_first(), c)
    }
}

impl GlyphFont {
    /// A well-formed font: bounded metrics, every glyph entry well formed.
    pub open spec fn wf(self) -> bool {
        &&& -MAX_METRIC <= self.ascender <= MAX_METRIC
        &&& -MAX_METRIC <= self.descender <= MAX_METRIC
        &&& -MAX_METRIC <= self.line_gap <= MAX_METRIC
        &&& forall|k: int| 0 <= k < self.glyphs@.len() ==> (#[trigger] self.glyphs@[k]).wf()
    }

    /// Vertical distance between the baselines of consecutive lines:
    /// ascender - descender + line gap.
    pub open spec fn spec_line_height(self) -> int {
        self.ascender - self.descender + self.line_gap
    }

    /// The font's line height in milli-units.
    pub fn line_height(&self) -> (h: i64)
        requires
            self.wf(),
        ensures
            h == self.spec_line_height(),
    {
        self.ascender - self.descender + self.line_gap
    }

    /// The glyph table entry for a character: the index of its first match.
    pub fn find_glyph(&self, c: char) -> (r: Option<usize>)
        ensures
            match r {
                Some(i) => i < self.glyphs@.len()
                    && glyph_at(self.glyphs@, c) == Some(self.glyphs@[i as int]),
                None => glyph_at(self.glyphs@, c) is None,
            },
    {
        let n = self.glyphs.len();
        let mut i: usize = 0;
        proof {
            assert(self.glyphs@.skip(0) =~= self.glyphs@);
        }
        while i < n
            invariant
                i <= n,
                n == self.glyphs@.len(),
                glyph_at(self.glyphs@, c) == glyph_at(self.glyphs@.skip(i as int), c),
            decreases n - i,
        {
            proof {
                assert(self.glyphs@.skip(i as int)[0] == self.glyphs@[i as int]);
                assert(self.glyphs@.skip(i as int).drop_first()
                    =~= self.glyphs@.skip(i as int + 1));
            }
            if self.glyphs[i].character == c {
                return Some(i);
            }
            i = i + 1;
        }
        proof {
            assert(self.glyphs@.skip(n as int) =~= Seq::<GlyphEntry>::empty());
        }
        None
    }
}

/// What a metrics query reports of one glyph: its advance width and whether
/// the font has a drawable outline for it.
#[derive(Clone, Copy, PartialEq, Eq, Structural, Debug)]
pub struct GlyphMetrics {
    pub advance: i64,
    pub has_outline: bool,
}

impl GlyphFont {
    /// The metrics of one character's glyph, or `None` if the font reports
    /// no glyph for it.
    pub fn glyph_metrics(&self, c: char) -> (r: Option<GlyphMetrics>)
        ensures
            r == match glyph_at(self.glyphs@, c) {
                Some(g) => Some(GlyphMetrics { advance: g.advance, has_outline: g.mesh is Some }),
                None => None::<GlyphMetrics>,
            },
    {
        match self.find_glyph(c) {
            Some(i) => {
                let g = &self.glyphs[i];
                Some(GlyphMetrics { advance: g.advance, has_outline: g.mesh.is_some() })
            },
            None => None,
        }
    }
}

/// The advance a character consumes in this font. A character the font has
/// a glyph for consumes that glyph's advance; a missing whitespace character
/// falls back to [`WHITESPACE_FALLBACK_ADVANCE`]; a missing non-whitespace
/// character consumes nothing.
pub open spec fn advance_of(font: GlyphFont, c: char) -> int {
    match glyph_at(font.glyphs@, c) {
        Some(g) => g.advance as int,
        None => if spec_is_whitespace(c) {
            WHITESPACE_FALLBACK_ADVANCE as int
        } else {
            0
        },
    }
}

/// Every advance of a well-formed font is non-negative and bounded.
pub proof fn lemma_advance_bounds(font: GlyphFont, c: char)
    requires
        font.wf(),
    ensures
        0 <= advance_of(font, c) <= MAX_ADVANCE,
{
    lemma_glyph_at_wf(font.glyphs@, c);
}

/// A hit in a table of well-formed entries is well formed.
pub proof fn lemma_glyph_at_wf(glyphs: Seq<GlyphEntry>, c: char)
    requires
        forall|k: int| 0 <= k < glyphs.len() ==> (#[trigger] glyphs[k]).wf(),
    ensures
        match glyph_at(glyphs, c) {
            Some(g) => g.wf(),
            None => true,
        },
    decreases glyphs.len(),
{
    if glyphs.len() > 0 && glyphs[0].character != c {
        assert(forall|k: int| 0 <= k < glyphs.drop_first().len()
            ==> (#[trigger] glyphs.drop_first()[k]).wf()) by {
            assert(forall|k: int| 0 <= k < glyphs.drop_first().len()
                ==> glyphs.drop_first()[k] == glyphs[k + 1]);
        }
        lemma_glyph_at_wf(glyphs.drop_first(), c);
    }
}

/// The advance of one character of a well-formed font.
pub fn advance(font: &GlyphFont, c: char) -> (a: i64)
    requires
        font.wf(),
    ensures
        a == advance_of(*font, c),
        0 <= a <= MAX_ADVANCE,
{
    proof {
        lemma_advance_bounds(*font, c);
    }
    match font.find_glyph(c) {
        Some(i) => font.glyphs[i].advance,
        None => {
            if is_whitespace_char(c) {
                WHITESPACE_FALLBACK_ADVANCE
            } else {
                0
            }
        },
    }
}

/// Total advance of the first `j` characters of `text` in this font.
pub open spec fn width_prefix(font: GlyphFont, text: Seq<char>, j: int) -> int
    decreases j,
{
    if j <= 0 {
        0
    } else {
        width_prefix(font, text, j - 1) + advance_of(font, text[j - 1])
    }
}

/// Total advance of a whole character sequence in this font.
pub open spec fn text_width(font: GlyphFont, text: Seq<char>) -> int {
    width_prefix(font, text, text.len() as int)
}

/// Prefix widths of a well-formed font grow monotonically and stay within
/// `j * MAX_ADVANCE`.
pub proof fn lemma_width_prefix_bounds(font: GlyphFont, text: Seq<char>, j: int)
    requires
        font.wf(),
        0 <= j <= text.len(),
    ensures
        0 <= width_prefix(font, text, j) <= j * MAX_ADVANCE,
        forall|i: int| 0 <= i <= j
            ==> #[trigger] width_prefix(font, text, i) <= width_prefix(font, text, j),
    decreases j,
{
    if j > 0 {
        lemma_width_prefix_bounds(font, text, j - 1);
        lemma_advance_bounds(font, text[j - 1]);
        assert((j - 1) * MAX_ADVANCE + MAX_ADVANCE == j * MAX_ADVANCE) by (nonlinear_arith);
    }
}

/// Measures a character sequence in a font: its total width, and one
/// `(character index, x offset)` pair per character, offsets being the sums
/// of the advances before each character. Offsets never decrease; for a
/// non-empty text the first pair is exactly `(0, 0)`.
pub fn measure(font: &GlyphFont, text: &Vec<char>) -> (r: (i64, Vec<(usize, i64)>))
    requires
        font.wf(),
        text@.len() <= MAX_TEXT_LEN,
    ensures
        r.0 == text_width(*font, text@),
        r.1@.len() == text@.len(),
        forall|j: int| 0 <= j < text@.len() ==> {
            let p = #[trigger] r.1@[j];
            p.0 == j && p.1 == width_prefix(*font, text@, j)
        },
        forall|i: int, j: int| 0 <= i <= j < text@.len()
            ==> r.1@[i].1 <= r.1@[j].1,
        text@.len() > 0 ==> r.1@[0] == (0usize, 0i64),
{
    let n = text.len();
    let mut positions: Vec<(usize, i64)> = Vec::new();
    let mut width: i64 = 0;
    let mut j: usize = 0;
    while j < n
        invariant
            j <= n,
            n == text@.len(),
            n <= MAX_TEXT_LEN,
            font.wf(),
            width == width_prefix(*font, text@, j as int),
            positions@.len() == j,
            forall|k: int| 0 <= k < j ==> {
                let p = #[trigger] positions@[k];
                p.0 == k && p.1 == width_prefix(*font, text@, k)
            },
        decreases n - j,
    {
        proof {
            lemma_width_prefix_bounds(*font, text@, j as int);
            lemma_advance_bounds(*font, text@[j as int]);
            assert((j as int) * MAX_ADVANCE <= MAX_TEXT_LEN * MAX_ADVANCE)
                by (nonlinear_arith)
                requires 0 <= j as int <= MAX_TEXT_LEN;
        }
        positions.push((j, width));
        let a = advance(font, text[j]);
        width = width + a;
        j = j + 1;
    }
    proof {
        lemma_width_prefix_bounds(*font, text@, n as int);
        assert forall|i: int, k: int| 0 <= i <= k < n implies
            positions@[i].1 <= positions@[k].1 by {
            lemma_width_prefix_bounds(*font, text@, k);
        }
    }
    (width, positions)
}

} // verus!
