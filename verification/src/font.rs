use vstd::prelude::*;

use std::ops::Range;

use crate::error::{AgeError, AgeResult};
use crate::packer::{
    bitmap_bytes, bitmap_entries, can_pack, has_bitmap, lemma_bitmap_bytes_prefix, packs_into, PackerInfo,
    TexturePacker,
};

verus! {

/// A range of code points, `from` included and `to` excluded.
#[derive(Debug, Clone, Copy, PartialEq, Eq, Structural)]
pub struct CharSet {
    pub from: i32,
    pub to: i32,
}

impl CharSet {
    /// The code points of the range.
    pub fn new(range: Range<i32>) -> (c: Self)
        ensures
            c.from == range.start,
            c.to == range.end,
    {
        Self { from: range.start, to: range.end }
    }

    /// The ASCII code points, 0 to 127.
    pub fn ascii() -> (c: Self)
        ensures
            c.from == 0,
            c.to == 128,
    {
        Self::new(0..128)
    }

    /// The characters that the bounds number, each bound read as an
    /// unsigned number; an error where either numbers no character.
    pub fn bounds(&self) -> (r: AgeResult<(char, char)>)
        ensures
            r is Ok <==> is_scalar(self.from as u32) && is_scalar(self.to as u32),
            r matches Ok((a, b)) ==> a as u32 == self.from as u32 && b as u32 == self.to as u32,
            r matches Err(e) ==> e.message_spec() == invalid_codepoint_message() && !e.has_source(),
    {
        match (char_from_u32(self.from as u32), char_from_u32(self.to as u32)) {
            (Some(a), Some(b)) => Ok((a, b)),
            _ => {
                let msg = "invalid codepoint";
                proof {
                    reveal_strlit("invalid codepoint");
                }
                Err(AgeError::new(msg))
            },
        }
    }
}

/// Whether `v` numbers a character: a Unicode scalar value.
pub open spec fn is_scalar(v: u32) -> bool {
    v < 0xD800 || (0xE000 <= v && v <= 0x10FFFF)
}

/// The message of the error for a charset whose bounds are no characters.
pub open spec fn invalid_codepoint_message() -> Seq<char> {
    seq!['i', 'n', 'v', 'a', 'l', 'i', 'd', ' ', 'c', 'o', 'd', 'e', 'p', 'o', 'i', 'n', 't']
}

/// `char::from_u32`: the character numbered `v`, where there is one. As
/// std documents it, that is exactly where `v` is a Unicode scalar value.
#[verifier::external_body]
fn char_from_u32(v: u32) -> (r: Option<char>)
    ensures
        r is Some <==> is_scalar(v),
        r matches Some(c) ==> c as u32 == v && c == v as char,
{
    char::from_u32(v)
}

/// Declares the font type of the `fontdue` crate, held by a font of this
/// library.
#[verifier::external_type_specification]
#[verifier::external_body]
pub struct ExFontdueFont(fontdue::Font);

/// What `fontdue` says of the bytes when it parses them as a font with its
/// default settings: `None` where it parses them, else its error message.
pub uninterp spec fn fontdue_parse_error(data: Seq<u8>) -> Option<Seq<char>>;

/// Parses the bytes with `fontdue::Font::from_bytes` and the default
/// `FontSettings`. Trusted: the parse succeeds, or fails with its message,
/// as `fontdue_parse_error` names it, a function of the bytes alone.
#[verifier::external_body]
fn parse_font(data: &[u8]) -> (r: Result<fontdue::Font, &'static str>)
    ensures
        match r {
            Ok(_) => fontdue_parse_error(data@) is None,
            Err(msg) => fontdue_parse_error(data@) == Some(msg@),
        },
{
    fontdue::Font::from_bytes(data, fontdue::FontSettings::default())
}

/// A font, parsed from the bytes of a font file.
pub struct ParsedFont {
    font: fontdue::Font,
    source: Ghost<Option<Seq<u8>>>,
}

impl ParsedFont {
    /// The bytes the font was parsed from, where `from_bytes` parsed it.
    pub closed spec fn source_spec(&self) -> Option<Seq<u8>> {
        self.source@
    }

    /// Parses the bytes of a font file; the error carries the parser's
    /// message.
    pub fn from_bytes(data: &[u8]) -> (r: AgeResult<Self>)
        ensures
            r is Ok <==> fontdue_parse_error(data@) is None,
            r matches Ok(f) ==> f.source_spec() == Some(data@),
            r matches Err(e) ==> fontdue_parse_error(data@) == Some(e.message_spec()) && !e.has_source(),
    {
        let parsed = parse_font(data);
        match Self::from_parsed(parsed) {
            Ok(f) => {
                let mut f = f;
                f.source = Ghost(Some(data@));
                Ok(f)
            },
            Err(e) => Err(e),
        }
    }

    /// The font that the parser gave, or the engine error with the parser's
    /// message. Nothing is known of the bytes such a font came from.
    pub fn from_parsed(parsed: Result<fontdue::Font, &'static str>) -> (r: AgeResult<Self>)
        ensures
            parsed is Ok <==> r is Ok,
            parsed matches Ok(font) ==> (r matches Ok(f) && f.fontdue_spec() == font && f.source_spec() is None),
            parsed matches Err(msg) ==> (r matches Err(e) && e.message_spec() == msg@ && !e.has_source()),
    {
        match parsed {
            Ok(font) => Ok(ParsedFont { font, source: Ghost(None) }),
            Err(msg) => Err(AgeError::new(msg)),
        }
    }

    /// The parsed font of the `fontdue` crate, for rasterizing its glyphs.
    pub fn fontdue(&self) -> (f: &fontdue::Font)
        ensures
            *f == self.fontdue_spec(),
    {
        &self.font
    }

    /// The parsed font of the `fontdue` crate.
    pub closed spec fn fontdue_spec(&self) -> fontdue::Font {
        self.font
    }

    /// The characters from `from` up to, not including, `to` that the font
    /// has a glyph for, in increasing order: the font is asked about each
    /// character of the range, and `select_chars` keeps those it has.
    pub fn glyph_chars(&self, from: char, to: char) -> (r: Vec<char>)
        ensures
            exists|has: Seq<bool>|
                has.len() == span(from, to) && r@ == selected(from as u32 as int, range_end(from, to), has),
            self.source_spec() matches Some(d) ==> r@ == selected(
                from as u32 as int,
                range_end(from, to),
                glyph_flags(d, from as u32 as int, span(from, to)),
            ),
            increasing(r@),
            forall|k: int| 0 <= k < r@.len() ==> (from as u32) <= (#[trigger] r@[k] as u32) < (to as u32),
    {
        let mut has: Vec<bool> = Vec::new();
        let end = to as u32;
        let start = from as u32;
        let mut v = start;
        while v < end
            invariant
                start == from as u32,
                end == to as u32,
                start <= v,
                v <= end || v == start,
                has@.len() == v - start,
                self.source_spec() matches Some(d) ==> has@ == glyph_flags(d, start as int, v - start),
            decreases end - v,
        {
            let ghost old_has = has@;
            let flag = match char_from_u32(v) {
                Some(c) => font_has_glyph(self, c),
                None => false,
            };
            has.push(flag);
            proof {
                if let Some(d) = self.source_spec() {
                    assert(has@ =~= glyph_flags(d, start as int, v + 1 - start));
                }
            }
            v = v + 1;
        }
        proof {
            if let Some(d) = self.source_spec() {
                assert(has@ =~= glyph_flags(d, start as int, span(from, to)));
            }
        }
        select_chars(from, to, has.as_slice())
    }
}

/// Whether the font that `fontdue` parses from the bytes, with its default
/// settings, maps the character to a glyph.
pub uninterp spec fn fontdue_has_glyph(data: Seq<u8>, c: char) -> bool;

/// For each of the `n` numbers from `start` on, whether it numbers a
/// character that the font parsed from `data` has a glyph for.
pub open spec fn glyph_flags(data: Seq<u8>, start: int, n: int) -> Seq<bool> {
    Seq::new(n as nat, |k: int| is_scalar((start + k) as u32) && fontdue_has_glyph(data, (start + k) as char))
}

/// The number of character numbers from `from` up to, not including, `to`.
pub open spec fn span(from: char, to: char) -> int {
    if (from as u32) < (to as u32) {
        (to as u32) - (from as u32)
    } else {
        0
    }
}

/// The end of the range of numbers from `from`: `to`, or `from` where `to`
/// comes before it.
pub open spec fn range_end(from: char, to: char) -> int {
    from as u32 + span(from, to)
}

/// The characters numbered from `from` up to, not including, `v` whose flag
/// `has[n - from]` is set, in order; numbers that are no character are
/// skipped.
pub open spec fn selected(from: int, v: int, has: Seq<bool>) -> Seq<char>
    decreases v - from,
{
    if v <= from {
        Seq::empty()
    } else {
        let prev = selected(from, v - 1, has);
        if is_scalar((v - 1) as u32) && has[v - 1 - from] {
            prev.push((v - 1) as char)
        } else {
            prev
        }
    }
}

/// The characters from `from` up to, not including, `to` whose flag is
/// set: `has[k]` is the flag of the character numbered `from + k`, and the
/// numbers that are no character are skipped.
pub fn select_chars(from: char, to: char, has: &[bool]) -> (r: Vec<char>)
    requires
        has@.len() == span(from, to),
    ensures
        r@ == selected(from as u32 as int, range_end(from, to), has@),
        increasing(r@),
        forall|k: int| 0 <= k < r@.len() ==> (from as u32) <= (#[trigger] r@[k] as u32) < (to as u32),
{
    let mut r: Vec<char> = Vec::new();
    let end = to as u32;
    let start = from as u32;
    if start >= end {
        return r;
    }
    let mut v = start;
    while v < end
        invariant
            start == from as u32,
            end == to as u32,
            start <= v <= end,
            has@.len() == end - start,
            r@ == selected(start as int, v as int, has@),
            increasing(r@),
            forall|k: int| 0 <= k < r@.len() ==> (from as u32) <= (#[trigger] r@[k] as u32) < v,
        decreases end - v,
    {
        if let Some(c) = char_from_u32(v) {
            if has[(v - start) as usize] {
                r.push(c);
            }
        }
        v = v + 1;
    }
    r
}

/// Whether the characters are in strictly increasing order.
pub open spec fn increasing(cs: Seq<char>) -> bool {
    forall|i: int, j: int| 0 <= i < j < cs.len() ==> (#[trigger] cs[i] as u32) < (#[trigger] cs[j] as u32)
}

/// `fontdue::Font::has_glyph`: whether the font maps the character to a
/// glyph. Trusted: for a font that `from_bytes` parsed from the bytes `d`,
/// the answer is `fontdue_has_glyph(d, c)`, a function of the bytes and the
/// character alone; of a font from `from_parsed`, nothing is claimed.
#[verifier::external_body]
fn font_has_glyph(font: &ParsedFont, c: char) -> (b: bool)
    ensures
        font.source_spec() matches Some(d) ==> b == fontdue_has_glyph(d, c),
{
    font.font.has_glyph(c)
}

/// The bitmap of a glyph: its character, its size in pixels, and one byte of
/// coverage for each pixel.
pub struct GlyphBitmap {
    pub codepoint: char,
    pub width: u32,
    pub height: u32,
    pub bitmap: Vec<u8>,
}

/// The glyph bitmaps as `(id, width, height, bytes)`, as a packer takes them.
pub open spec fn glyph_items(glyphs: Seq<GlyphBitmap>) -> Seq<(char, u32, u32, Seq<u8>)> {
    glyphs.map_values(|g: GlyphBitmap| (g.codepoint, g.width, g.height, g.bitmap@))
}

/// The page size for glyphs: the packer's default, or the device's largest
/// texture where that is smaller.
pub open spec fn glyph_page_size(max_texture_dimension: u32) -> u32 {
    if PackerInfo::MAX_SIZE <= max_texture_dimension {
        PackerInfo::MAX_SIZE
    } else {
        max_texture_dimension
    }
}

/// The glyph page size is the smaller of the packer's default page size and
/// the device's largest texture: no larger than either, and one of them.
pub proof fn lemma_glyph_page_size(max_texture_dimension: u32)
    ensures
        glyph_page_size(max_texture_dimension) <= 512,
        glyph_page_size(max_texture_dimension) <= PackerInfo::MAX_SIZE,
        glyph_page_size(max_texture_dimension) <= max_texture_dimension,
        glyph_page_size(max_texture_dimension) == PackerInfo::MAX_SIZE || glyph_page_size(max_texture_dimension)
            == max_texture_dimension,
{
}

/// How glyphs are packed: the default padding and spacing, one byte per
/// pixel, on pages of `size`.
pub open spec fn glyph_packer_info(size: u32) -> PackerInfo {
    PackerInfo { row_padding: 1, spacing: 1, max_size: size, bytes_per_entry: 1 }
}

/// Packs the glyph bitmaps, in order, onto pages of one byte per pixel, each
/// as large as the packer's default or the device's largest texture,
/// whichever is smaller. A bitmap wider than its page's row goes on into
/// the next pixel row. `None` where some bitmap cannot be packed (its last
/// byte would fall past its page, or it has fewer bytes than pixels, or the
/// first one is too tall for a page with its row padding).
pub fn pack_glyphs(max_texture_dimension: u32, glyphs: &[GlyphBitmap]) -> (r: Option<TexturePacker<char>>)
    requires
        forall|i: int|
            0 <= i < glyphs@.len() && (#[trigger] glyphs@[i]).bitmap@.len() > 0 ==> 0 < glyphs@[i].width as int
                * glyphs@[i].height as int <= u32::MAX,
    ensures
        ({
            let info = glyph_packer_info(glyph_page_size(max_texture_dimension));
            let items = glyph_items(glyphs@);
            &&& r is Some <==> can_pack(info, bitmap_entries(items), bitmap_bytes(items))
            &&& r matches Some(p) ==> packs_into(
                info,
                has_bitmap(items),
                bitmap_entries(items),
                bitmap_bytes(items),
                &p,
            )
        }),
{
    let size = if PackerInfo::MAX_SIZE <= max_texture_dimension {
        PackerInfo::MAX_SIZE
    } else {
        max_texture_dimension
    };
    let defaults = PackerInfo::default();
    let info = PackerInfo { max_size: size, bytes_per_entry: 1, ..defaults };
    assert(size as int * size as int <= 512 * 512) by (nonlinear_arith)
        requires
            size <= 512,
    ;
    let ghost items = glyph_items(glyphs@);
    let mut packer = TexturePacker::new(&info);
    let n = glyphs.len();
    let mut i: usize = 0;
    while i < n
        invariant
            0 <= i <= n,
            n == glyphs@.len(),
            items == glyph_items(glyphs@),
            forall|k: int|
                0 <= k < glyphs@.len() && (#[trigger] glyphs@[k]).bitmap@.len() > 0 ==> 0 < glyphs@[k].width as int
                    * glyphs@[k].height as int <= u32::MAX,
            packer.wf(),
            packer.info_spec() == info,
            info == glyph_packer_info(size),
            packer.entries_spec() == bitmap_entries(items.take(i as int)),
            packer.buf_spec() == bitmap_bytes(items.take(i as int)),
            packer.is_dirty() == has_bitmap(items.take(i as int)),
        decreases n - i,
    {
        let g = &glyphs[i];
        proof {
            assert(items.take(i + 1).drop_last() =~= items.take(i as int));
            assert(items.take(i + 1).last() == items[i as int]);
            lemma_bitmap_bytes_prefix(items, i + 1);
        }
        packer.add(g.codepoint, g.width, g.height, g.bitmap.as_slice());
        i = i + 1;
    }
    proof {
        assert(items.take(n as int) =~= items);
    }
    if !packer.is_packable() {
        return None;
    }
    packer.pack();
    Some(packer)
}

} // verus!
verus! {

/// The kerning between two characters: how much closer (or further) `b`
/// sits after `a`.
#[derive(Debug, Clone, Copy)]
pub struct Kerning<V> {
    pub a: char,
    pub b: char,
    pub value: V,
}

/// Whether the pair `(a, b)` comes before `(c, d)`, first character first.
pub open spec fn pair_lt(a: char, b: char, c: char, d: char) -> bool {
    (a as u32) < (c as u32) || (a == c && (b as u32) < (d as u32))
}

/// A pair of characters, `a` followed by `b`.
#[derive(Debug, Clone, Copy, PartialEq, Eq, Structural)]
pub struct CharPair {
    pub a: char,
    pub b: char,
}

impl CharPair {
    /// The pair of `a` followed by `b`.
    pub fn new(a: char, b: char) -> (p: Self)
        ensures
            p.a == a,
            p.b == b,
    {
        CharPair { a, b }
    }
}

/// Whether the pairs are sorted, first character first, each pair once.
pub open spec fn pairs_sorted(ps: Seq<CharPair>) -> bool {
    forall|i: int, j: int| 0 <= i < j < ps.len() ==> pair_lt(#[trigger] ps[i].a, ps[i].b, #[trigger] ps[j].a, ps[j].b)
}

/// The pairs of `a` with each of the characters, in their order.
pub open spec fn pair_row(a: char, cs: Seq<char>) -> Seq<(char, char)> {
    Seq::new(cs.len(), |j: int| (a, cs[j]))
}

/// The pairs as `(a, b)` tuples.
pub open spec fn pair_tuples(ps: Seq<CharPair>) -> Seq<(char, char)> {
    ps.map_values(|p: CharPair| (p.a, p.b))
}

/// The rows of pairs of the first `i` characters with all of them, one row
/// after the other.
pub open spec fn pair_rows(cs: Seq<char>, i: int) -> Seq<(char, char)>
    decreases i,
{
    if i <= 0 {
        Seq::empty()
    } else {
        pair_rows(cs, i - 1) + pair_row(cs[i - 1], cs)
    }
}

/// Every pair of the characters, a loop over the first character around a
/// loop over the second: the pairs whose kerning a font is asked for. Over
/// characters in increasing order, the pairs come sorted, as the kerning
/// search needs them.
pub fn kerning_pairs(chars: &[char]) -> (r: Vec<CharPair>)
    ensures
        pair_tuples(r@) == pair_rows(chars@, chars@.len() as int),
        forall|k: int| 0 <= k < r@.len() ==> chars@.contains((#[trigger] r@[k]).a) && chars@.contains(r@[k].b),
        forall|i: int, j: int|
            0 <= i < chars@.len() && 0 <= j < chars@.len() ==> r@.contains(CharPair { a: #[trigger] chars@[i], b: #[trigger] chars@[j] }),
        increasing(chars@) ==> pairs_sorted(r@),
{
    let n = chars.len();
    let mut r: Vec<CharPair> = Vec::new();
    let mut i: usize = 0;
    while i < n
        invariant
            0 <= i <= n,
            n == chars@.len(),
            pair_tuples(r@) == pair_rows(chars@, i as int),
            forall|k: int| 0 <= k < r@.len() ==> chars@.contains((#[trigger] r@[k]).a) && chars@.contains(r@[k].b),
            forall|a: int, b: int|
                0 <= a < i && 0 <= b < n ==> r@.contains(CharPair { a: #[trigger] chars@[a], b: #[trigger] chars@[b] }),
            increasing(chars@) ==> pairs_sorted(r@),
            increasing(chars@) && i < n ==> forall|k: int|
                0 <= k < r@.len() ==> ((#[trigger] r@[k]).a as u32) < (chars@[i as int] as u32),
        decreases n - i,
    {
        let mut j: usize = 0;
        while j < n
            invariant
                0 <= i < n,
                0 <= j <= n,
                n == chars@.len(),
                pair_tuples(r@) == pair_rows(chars@, i as int) + pair_row(chars@[i as int], chars@).take(j as int),
                forall|k: int| 0 <= k < r@.len() ==> chars@.contains((#[trigger] r@[k]).a) && chars@.contains(r@[k].b),
                forall|a: int, b: int|
                    0 <= a < i && 0 <= b < n ==> r@.contains(CharPair { a: #[trigger] chars@[a], b: #[trigger] chars@[b] }),
                forall|b: int| 0 <= b < j ==> r@.contains(CharPair { a: chars@[i as int], b: #[trigger] chars@[b] }),
                increasing(chars@) ==> pairs_sorted(r@),
                increasing(chars@) ==> forall|k: int|
                    0 <= k < r@.len() ==> ((#[trigger] r@[k]).a as u32) <= (chars@[i as int] as u32),
                increasing(chars@) && j < n ==> forall|k: int|
                    0 <= k < r@.len() ==> pair_lt((#[trigger] r@[k]).a, r@[k].b, chars@[i as int], chars@[j as int]),
            decreases n - j,
        {
            let ghost old_r = r@;
            let p = CharPair::new(chars[i], chars[j]);
            r.push(p);
            proof {
                let row = pair_row(chars@[i as int], chars@);
                assert(row[j as int] == (p.a, p.b));
                assert(pair_tuples(r@) =~= pair_tuples(old_r).push((p.a, p.b)));
                assert(pair_rows(chars@, i as int) + row.take(j + 1) =~= pair_tuples(old_r).push((p.a, p.b)));
                assert(r@[old_r.len() as int] == p);
                assert(chars@.contains(p.a)) by {
                    assert(chars@[i as int] == p.a);
                }
                assert(chars@.contains(p.b)) by {
                    assert(chars@[j as int] == p.b);
                }
                assert forall|k: int| 0 <= k < r@.len() implies chars@.contains((#[trigger] r@[k]).a) && chars@.contains(
                    r@[k].b,
                ) by {
                    if k < old_r.len() {
                        assert(r@[k] == old_r[k]);
                    }
                }
                assert forall|a: int, b: int| 0 <= a < i && 0 <= b < n implies r@.contains(
                    CharPair { a: #[trigger] chars@[a], b: #[trigger] chars@[b] },
                ) by {
                    assert(old_r.contains(CharPair { a: chars@[a], b: chars@[b] }));
                    let k = choose|k: int| 0 <= k < old_r.len() && old_r[k] == CharPair { a: chars@[a], b: chars@[b] };
                    assert(r@[k] == old_r[k]);
                }
                assert forall|b: int| 0 <= b < j + 1 implies r@.contains(CharPair { a: chars@[i as int], b: #[trigger] chars@[b] }) by {
                    if b < j {
                        assert(old_r.contains(CharPair { a: chars@[i as int], b: chars@[b] }));
                        let k = choose|k: int| 0 <= k < old_r.len() && old_r[k] == CharPair { a: chars@[i as int], b: chars@[b] };
                        assert(r@[k] == old_r[k]);
                    } else {
                        assert(r@[old_r.len() as int] == CharPair { a: chars@[i as int], b: chars@[b] });
                    }
                }
                if increasing(chars@) {
                    assert forall|x: int, y: int| 0 <= x < y < r@.len() implies pair_lt(
                        #[trigger] r@[x].a,
                        r@[x].b,
                        #[trigger] r@[y].a,
                        r@[y].b,
                    ) by {
                        if y < old_r.len() {
                            assert(r@[x] == old_r[x] && r@[y] == old_r[y]);
                        } else {
                            assert(r@[x] == old_r[x]);
                        }
                    }
                    assert forall|k: int| 0 <= k < r@.len() implies ((#[trigger] r@[k]).a as u32) <= (
                    chars@[i as int] as u32) by {
                        if k < old_r.len() {
                            assert(r@[k] == old_r[k]);
                        }
                    }
                    if j + 1 < n {
                        assert forall|k: int| 0 <= k < r@.len() implies pair_lt(
                            (#[trigger] r@[k]).a,
                            r@[k].b,
                            chars@[i as int],
                            chars@[j + 1],
                        ) by {
                            assert((chars@[j as int] as u32) < (chars@[j + 1] as u32));
                            if k < old_r.len() {
                                assert(r@[k] == old_r[k]);
                            }
                        }
                    }
                }
            }
            j = j + 1;
        }
        proof {
            if increasing(chars@) && i + 1 < n {
                assert forall|k: int| 0 <= k < r@.len() implies ((#[trigger] r@[k]).a as u32) < (chars@[i + 1] as u32) by {
                    assert((chars@[i as int] as u32) < (chars@[i + 1] as u32));
                }
            }
        }
        i = i + 1;
    }
    r
}

/// Whether the kernings are sorted by their pair of characters, each pair
/// once.
pub open spec fn kernings_sorted<V>(ks: Seq<Kerning<V>>) -> bool {
    forall|i: int, j: int| 0 <= i < j < ks.len() ==> pair_lt(#[trigger] ks[i].a, ks[i].b, #[trigger] ks[j].a, ks[j].b)
}

/// Whether `ks` are the kernings of the pairs that have a value, in the
/// pairs' order: the `k`-th of them is that of pair `idx[k]`.
pub open spec fn kept_at<V>(pairs: Seq<CharPair>, values: Seq<Option<V>>, ks: Seq<Kerning<V>>, idx: Seq<int>) -> bool {
    &&& idx.len() == ks.len()
    &&& forall|k: int, l: int| 0 <= k < l < idx.len() ==> #[trigger] idx[k] < #[trigger] idx[l]
    &&& forall|k: int|
        0 <= k < idx.len() ==> 0 <= #[trigger] idx[k] < pairs.len() && ks[k].a == pairs[idx[k]].a && ks[k].b
            == pairs[idx[k]].b && values[idx[k]] == Some(ks[k].value)
    &&& forall|x: int|
        0 <= x < pairs.len() && (#[trigger] values[x]) is Some ==> exists|k: int| 0 <= k < idx.len() && idx[k] == x
}

/// The kernings of the pairs whose value the font gave, in the pairs'
/// order; kernings of sorted pairs come sorted.
pub fn collect_kernings<V: Copy>(pairs: &[CharPair], values: &[Option<V>]) -> (r: Vec<Kerning<V>>)
    requires
        pairs@.len() == values@.len(),
    ensures
        exists|idx: Seq<int>| kept_at(pairs@, values@, r@, idx),
        pairs_sorted(pairs@) ==> kernings_sorted(r@),
{
    let n = pairs.len();
    let mut r: Vec<Kerning<V>> = Vec::new();
    let ghost mut idx: Seq<int> = Seq::empty();
    let mut i: usize = 0;
    while i < n
        invariant
            0 <= i <= n,
            n == pairs@.len(),
            n == values@.len(),
            idx.len() == r@.len(),
            forall|k: int, l: int| 0 <= k < l < idx.len() ==> #[trigger] idx[k] < #[trigger] idx[l],
            forall|k: int|
                0 <= k < idx.len() ==> 0 <= #[trigger] idx[k] < i && r@[k].a == pairs@[idx[k]].a && r@[k].b
                    == pairs@[idx[k]].b && values@[idx[k]] == Some(r@[k].value),
            forall|x: int|
                0 <= x < i && (#[trigger] values@[x]) is Some ==> exists|k: int| 0 <= k < idx.len() && idx[k] == x,
        decreases n - i,
    {
        match values[i] {
            Some(v) => {
                let pair = pairs[i];
                let ghost old_r = r@;
                let ghost old_idx = idx;
                let kern = Kerning { a: pair.a, b: pair.b, value: v };
                r.push(kern);
                proof {
                    idx = idx.push(i as int);
                    assert forall|k: int| 0 <= k < idx.len() implies 0 <= #[trigger] idx[k] < i + 1 && r@[k].a
                        == pairs@[idx[k]].a && r@[k].b == pairs@[idx[k]].b && values@[idx[k]] == Some(
                        r@[k].value,
                    ) by {
                        if k < old_idx.len() {
                            assert(idx[k] == old_idx[k]);
                            assert(r@[k] == old_r[k]);
                        }
                    }
                    assert forall|x: int| 0 <= x < i + 1 && (#[trigger] values@[x]) is Some implies exists|k: int|
                        0 <= k < idx.len() && idx[k] == x by {
                        if x < i {
                            let k = choose|k: int| 0 <= k < old_idx.len() && old_idx[k] == x;
                            assert(idx[k] == old_idx[k]);
                        } else {
                            assert(idx[old_idx.len() as int] == x);
                        }
                    }
                }
            },
            None => {},
        }
        i = i + 1;
    }
    proof {
        assert(kept_at(pairs@, values@, r@, idx));
        if pairs_sorted(pairs@) {
            assert forall|k: int, l: int| 0 <= k < l < r@.len() implies pair_lt(
                #[trigger] r@[k].a,
                r@[k].b,
                #[trigger] r@[l].a,
                r@[l].b,
            ) by {
                assert(idx[k] < idx[l]);
                assert(pair_lt(pairs@[idx[k]].a, pairs@[idx[k]].b, pairs@[idx[l]].a, pairs@[idx[l]].b));
            }
        }
    }
    r
}

/// Looks up the kerning of `(a, b)` by binary search over kernings sorted by
/// their pair; the pair must not come before the first kerning (the search
/// would step below the first index).
pub fn find_kerning<V: Copy>(kernings: &[Kerning<V>], a: char, b: char) -> (r: Option<V>)
    requires
        kernings_sorted(kernings@),
        kernings@.len() > 0 ==> !pair_lt(a, b, kernings@[0].a, kernings@[0].b),
    ensures
        match r {
            Some(v) => exists|i: int|
                0 <= i < kernings@.len() && kernings@[i].a == a && kernings@[i].b == b && #[trigger] kernings@[i].value
                    == v,
            None => forall|i: int| 0 <= i < kernings@.len() ==> !(#[trigger] kernings@[i].a == a && kernings@[i].b == b),
        },
{
    if kernings.len() == 0 {
        return None;
    }
    let mut lower: usize = 0;
    let mut higher: usize = kernings.len() - 1;
    while lower <= higher
        invariant
            kernings_sorted(kernings@),
            kernings@.len() > 0,
            !pair_lt(a, b, kernings@[0].a, kernings@[0].b),
            lower <= kernings@.len(),
            higher < kernings@.len(),
            forall|i: int| 0 <= i < lower ==> pair_lt(#[trigger] kernings@[i].a, kernings@[i].b, a, b),
            forall|i: int| higher < i < kernings@.len() ==> pair_lt(a, b, #[trigger] kernings@[i].a, kernings@[i].b),
        decreases higher + 1 - lower,
    {
        let mid = lower + (higher - lower) / 2;
        let k = &kernings[mid];
        if k.a == a && k.b == b {
            return Some(k.value);
        }
        if (k.a == a && (k.b as u32) < (b as u32)) || (k.a as u32) < (a as u32) {
            lower = mid + 1;
        } else {
            proof {
                assert(pair_lt(a, b, k.a, k.b));
                if mid == 0 {
                    assert(!pair_lt(a, b, kernings@[0].a, kernings@[0].b));
                }
            }
            higher = mid - 1;
        }
        proof {
            assert forall|i: int| 0 <= i < lower implies pair_lt(#[trigger] kernings@[i].a, kernings@[i].b, a, b) by {
                if i < mid {
                    assert(pair_lt(kernings@[i].a, kernings@[i].b, kernings@[mid as int].a, kernings@[mid as int].b));
                }
            }
            assert forall|i: int| higher < i < kernings@.len() implies pair_lt(a, b, #[trigger] kernings@[i].a, kernings@[i].b) by {
                if i > mid {
                    assert(pair_lt(kernings@[mid as int].a, kernings@[mid as int].b, kernings@[i].a, kernings@[i].b));
                }
            }
        }
    }
    proof {
        assert forall|i: int| 0 <= i < kernings@.len() implies !(#[trigger] kernings@[i].a == a && kernings@[i].b == b) by {
            if i < lower {
                assert(pair_lt(kernings@[i].a, kernings@[i].b, a, b));
            } else {
                assert(pair_lt(a, b, kernings@[i].a, kernings@[i].b));
            }
        }
    }
    None
}

} // verus!
