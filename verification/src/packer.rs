use vstd::prelude::*;

use crate::image::Image;

verus! {

/// How a texture packer lays out its pages.
#[derive(Debug, Clone, Copy)]
pub struct PackerInfo {
    /// Extra rows of pixels below each row of entries.
    pub row_padding: u32,
    /// Pixels left free on each side of an entry.
    pub spacing: u32,
    /// Width and height of a page, in pixels.
    pub max_size: u32,
    /// Bytes of each pixel.
    pub bytes_per_entry: u32,
}

impl PackerInfo {
    /// The default size of a page.
    pub const MAX_SIZE: u32 = 512u32;
}

impl core::default::Default for PackerInfo {
    fn default() -> (info: Self)
        ensures
            info.row_padding == 1,
            info.spacing == 1,
            info.max_size == PackerInfo::MAX_SIZE,
            info.bytes_per_entry == 4,
    {
        PackerInfo { row_padding: 1, spacing: 1, max_size: PackerInfo::MAX_SIZE, bytes_per_entry: 4 }
    }
}

/// A point of a page, in pixels.
#[derive(Debug, Clone, Copy, PartialEq, Eq, Structural)]
pub struct PixelPos {
    pub x: u32,
    pub y: u32,
}

/// Where an entry stands on its page: its top left corner and its size, in
/// pixels.
#[derive(Debug, Clone, Copy, PartialEq, Eq, Structural)]
pub struct TexRect {
    pub position: PixelPos,
    pub size: PixelPos,
}

/// A bitmap added to the packer, and where packing placed it.
#[derive(Debug)]
pub struct Entry<T> {
    /// What the caller named the bitmap by.
    pub id: T,
    /// The width of the bitmap, in pixels.
    pub width: u32,
    /// The height of the bitmap, in pixels.
    pub height: u32,
    /// The bytes of each pixel, as worked out from the bitmap's length.
    pub bytes_per_pixel: u32,
    /// Where the bitmap's bytes start in the packer's buffer.
    pub from: usize,
    /// Where the bitmap's bytes end in the packer's buffer.
    pub to: usize,
    /// The page the bitmap was placed on.
    pub page: usize,
    /// Where on its page the bitmap was placed.
    pub tex_rect: TexRect,
}

impl<T> Entry<T> {
    /// The width of the bitmap, in pixels.
    pub open spec fn width_spec(&self) -> u32 {
        self.width
    }

    /// The height of the bitmap, in pixels.
    pub open spec fn height_spec(&self) -> u32 {
        self.height
    }

    /// The bytes of each pixel, as worked out from the bitmap's length.
    pub open spec fn bpp_spec(&self) -> u32 {
        self.bytes_per_pixel
    }

    /// Where the bitmap's bytes start in the packer's buffer.
    pub open spec fn from_spec(&self) -> usize {
        self.from
    }

    /// Where the bitmap's bytes end in the packer's buffer.
    pub open spec fn to_spec(&self) -> usize {
        self.to
    }
}

/// A row of entries on a page.
#[derive(Debug, Clone, Copy)]
struct Row {
    page: usize,
    top: usize,
    width: usize,
    height: usize,
}

/// The mathematical value of a row.
pub struct RowSpec {
    pub page: int,
    pub top: int,
    pub width: int,
    pub height: int,
}

impl View for Row {
    type V = RowSpec;

    closed spec fn view(&self) -> RowSpec {
        RowSpec { page: self.page as int, top: self.top as int, width: self.width as int, height: self.height as int }
    }
}

/// The rows of a layout, and the last page that it opened.
pub struct Layout {
    pub rows: Seq<RowSpec>,
    pub last_page: int,
}

/// Where an entry was placed: its page, its top left corner, and the index
/// of the row it went into.
pub struct Placement {
    pub page: int,
    pub x: int,
    pub y: int,
    pub row: int,
}

/// The values of a sequence of rows.
spec fn rows_view(rows: Seq<Row>) -> Seq<RowSpec> {
    rows.map_values(|r: Row| r@)
}

/// Whether an entry of the given padded size fits at the end of the row.
pub open spec fn row_fits(r: RowSpec, w: int, h: int, max: int) -> bool {
    h <= r.height && r.width + w <= max
}

/// The first row, from index `k` on, that an entry of the given padded size
/// fits into.
pub open spec fn first_row_from(rows: Seq<RowSpec>, k: int, w: int, h: int, max: int) -> Option<int>
    decreases rows.len() - k,
{
    if k < 0 || k >= rows.len() {
        None
    } else if row_fits(rows[k], w, h, max) {
        Some(k)
    } else {
        first_row_from(rows, k + 1, w, h, max)
    }
}

/// The height taken on a page by its rows: the sum of their heights.
pub open spec fn page_top(rows: Seq<RowSpec>, page: int) -> int
    decreases rows.len(),
{
    if rows.len() == 0 {
        0
    } else {
        page_top(rows.drop_last(), page) + if rows.last().page == page {
            rows.last().height
        } else {
            0
        }
    }
}

/// The first page, from `p` up to `last`, with room below its rows for a new
/// row of the given height.
pub open spec fn first_page_from(rows: Seq<RowSpec>, p: int, last: int, rh: int, max: int) -> Option<int>
    decreases last + 1 - p,
{
    if p < 0 || p > last {
        None
    } else if page_top(rows, p) + rh <= max {
        Some(p)
    } else {
        first_page_from(rows, p + 1, last, rh, max)
    }
}

/// The layout with a row for an entry of the given padded size, and the index
/// of that row: the first row it fits into, or else a new row on the first
/// page with room for it, or else a new row on a new page.
pub open spec fn insert_row(l: Layout, w: int, h: int, pad: int, max: int) -> (Layout, int) {
    match first_row_from(l.rows, 0, w, h, max) {
        Some(i) => (l, i),
        None => {
            let rh = h + pad;
            match first_page_from(l.rows, 0, l.last_page, rh, max) {
                Some(p) => (
                    Layout {
                        rows: l.rows.push(RowSpec { page: p, top: page_top(l.rows, p), width: 0, height: rh }),
                        last_page: l.last_page,
                    },
                    l.rows.len() as int,
                ),
                None => (
                    Layout {
                        rows: l.rows.push(RowSpec { page: l.last_page + 1, top: 0, width: 0, height: rh }),
                        last_page: l.last_page + 1,
                    },
                    l.rows.len() as int,
                ),
            }
        },
    }
}

/// Places an entry of the given size: the layout afterwards, and where the
/// entry went.
pub open spec fn step(l: Layout, w: int, h: int, info: PackerInfo) -> (Layout, Placement) {
    let s = info.spacing as int;
    let ww = w + 2 * s;
    let hh = h + 2 * s;
    let (l1, i) = insert_row(l, ww, hh, info.row_padding as int, info.max_size as int);
    let r = l1.rows[i];
    (
        Layout {
            rows: l1.rows.update(i, RowSpec { page: r.page, top: r.top, width: r.width + ww, height: r.height }),
            last_page: l1.last_page,
        },
        Placement { page: r.page, x: r.width + s, y: r.top + s, row: i },
    )
}

/// The layout after placing the first `n` entries, and where each went.
pub open spec fn layout<T>(entries: Seq<Entry<T>>, info: PackerInfo, n: int) -> (Layout, Seq<Placement>)
    decreases n,
{
    if n <= 0 {
        (Layout { rows: Seq::empty(), last_page: 0 }, Seq::empty())
    } else {
        let (l, ps) = layout(entries, info, n - 1);
        let (l2, p) = step(l, entries[n - 1].width_spec() as int, entries[n - 1].height_spec() as int, info);
        (l2, ps.push(p))
    }
}


/// Whether every row value is what packing can leave in it: rows on the
/// layout's pages, no wider than the extent `ext`, either at the top of a
/// page or ending inside it, and no page fuller than the extent and its
/// padding.
pub open spec fn layout_ok(l: Layout, max: int, ext: int, pad: int) -> bool {
    &&& 0 <= l.last_page <= l.rows.len()
    &&& forall|i: int| 0 <= i < l.rows.len() ==> 0 <= #[trigger] l.rows[i].page <= l.last_page
    &&& forall|i: int| 0 <= i < l.rows.len() ==> 0 <= #[trigger] l.rows[i].width <= ext
    &&& forall|i: int| 0 <= i < l.rows.len() ==> 0 <= #[trigger] l.rows[i].top <= max
    &&& forall|i: int| 0 <= i < l.rows.len() ==> 0 <= #[trigger] l.rows[i].height <= ext + pad
    &&& forall|i: int|
        0 <= i < l.rows.len() ==> (#[trigger] l.rows[i].top == 0 || l.rows[i].top + l.rows[i].height <= max)
    &&& forall|p: int| page_top(l.rows, p) <= ext + pad
}

proof fn lemma_page_top_nonneg(rows: Seq<RowSpec>, p: int)
    requires
        forall|i: int| 0 <= i < rows.len() ==> #[trigger] rows[i].height >= 0,
    ensures
        page_top(rows, p) >= 0,
    decreases rows.len(),
{
    if rows.len() > 0 {
        lemma_page_top_nonneg(rows.drop_last(), p);
    }
}

proof fn lemma_page_top_push(rows: Seq<RowSpec>, r: RowSpec, p: int)
    ensures
        page_top(rows.push(r), p) == page_top(rows, p) + if r.page == p { r.height } else { 0 },
{
    assert(rows.push(r).drop_last() =~= rows);
}

proof fn lemma_page_top_prefix(rows: Seq<RowSpec>, i: int, p: int)
    requires
        0 <= i <= rows.len(),
        forall|j: int| 0 <= j < rows.len() ==> #[trigger] rows[j].height >= 0,
    ensures
        page_top(rows.subrange(0, i), p) <= page_top(rows, p),
    decreases rows.len(),
{
    if i < rows.len() {
        let d = rows.drop_last();
        assert(rows.subrange(0, i) =~= d.subrange(0, i));
        lemma_page_top_prefix(d, i, p);
    } else {
        assert(rows.subrange(0, i) =~= rows);
    }
}

proof fn lemma_page_top_update(rows: Seq<RowSpec>, i: int, r: RowSpec, p: int)
    requires
        0 <= i < rows.len(),
        r.page == rows[i].page,
        r.height == rows[i].height,
    ensures
        page_top(rows.update(i, r), p) == page_top(rows, p),
    decreases rows.len(),
{
    let u = rows.update(i, r);
    if i == rows.len() - 1 {
        assert(u.drop_last() =~= rows.drop_last());
    } else {
        assert(u.drop_last() =~= rows.drop_last().update(i, r));
        lemma_page_top_update(rows.drop_last(), i, r, p);
    }
}

proof fn lemma_page_top_absent(rows: Seq<RowSpec>, p: int)
    requires
        forall|i: int| 0 <= i < rows.len() ==> #[trigger] rows[i].page != p,
    ensures
        page_top(rows, p) == 0,
    decreases rows.len(),
{
    if rows.len() > 0 {
        lemma_page_top_absent(rows.drop_last(), p);
    }
}

proof fn lemma_first_row_from(rows: Seq<RowSpec>, k: int, w: int, h: int, max: int)
    requires
        0 <= k,
    ensures
        match first_row_from(rows, k, w, h, max) {
            Some(i) => k <= i < rows.len() && row_fits(rows[i], w, h, max) && forall|j: int|
                k <= j < i ==> !row_fits(#[trigger] rows[j], w, h, max),
            None => forall|j: int| k <= j < rows.len() ==> !row_fits(#[trigger] rows[j], w, h, max),
        },
    decreases rows.len() - k,
{
    if k < rows.len() && !row_fits(rows[k], w, h, max) {
        lemma_first_row_from(rows, k + 1, w, h, max);
    }
}

/// Packing puts an entry into the first row with room for it: where some
/// row of the layout is at least as tall as the entry with its spacing
/// above and below, and has room left for its width with the spacing on
/// both sides, the entry goes into the row of least index that has, right
/// after what that row holds, and no row is added; only where no row has
/// room is a new row added for it, and the entry starts it.
pub proof fn lemma_step_first_fitting_row(l: Layout, w: int, h: int, info: PackerInfo)
    ensures
        ({
            let (l2, p) = step(l, w, h, info);
            let s = info.spacing as int;
            let max = info.max_size as int;
            &&& (exists|j: int|
                0 <= j < l.rows.len() && h + 2 * s <= (#[trigger] l.rows[j]).height && l.rows[j].width + w + 2 * s
                    <= max) ==> {
                &&& 0 <= p.row < l.rows.len()
                &&& h + 2 * s <= l.rows[p.row].height
                &&& l.rows[p.row].width + w + 2 * s <= max
                &&& forall|j: int|
                    0 <= j < p.row ==> !(h + 2 * s <= (#[trigger] l.rows[j]).height && l.rows[j].width + w + 2 * s
                        <= max)
                &&& p.page == l.rows[p.row].page
                &&& p.x == l.rows[p.row].width + s
                &&& p.y == l.rows[p.row].top + s
                &&& l2.rows.len() == l.rows.len()
                &&& l2.rows[p.row].width == l.rows[p.row].width + w + 2 * s
            }
            &&& !(exists|j: int|
                0 <= j < l.rows.len() && h + 2 * s <= (#[trigger] l.rows[j]).height && l.rows[j].width + w + 2 * s
                    <= max) ==> {
                &&& p.row == l.rows.len()
                &&& l2.rows.len() == l.rows.len() + 1
                &&& p.x == s
            }
        }),
{
    let s = info.spacing as int;
    let max = info.max_size as int;
    lemma_first_row_from(l.rows, 0, w + 2 * s, h + 2 * s, max);
    match first_row_from(l.rows, 0, w + 2 * s, h + 2 * s, max) {
        Some(i) => {},
        None => {
            assert(!(exists|j: int|
                0 <= j < l.rows.len() && h + 2 * s <= (#[trigger] l.rows[j]).height && l.rows[j].width + w + 2 * s
                    <= max)) by {
                assert forall|j: int| 0 <= j < l.rows.len() implies !(h + 2 * s <= (#[trigger] l.rows[j]).height
                    && l.rows[j].width + w + 2 * s <= max) by {
                    assert(!row_fits(l.rows[j], w + 2 * s, h + 2 * s, max));
                }
            }
        },
    }
}

proof fn lemma_first_page_from(rows: Seq<RowSpec>, p: int, last: int, rh: int, max: int)
    requires
        0 <= p,
    ensures
        match first_page_from(rows, p, last, rh, max) {
            Some(q) => p <= q <= last && page_top(rows, q) + rh <= max,
            None => true,
        },
    decreases last + 1 - p,
{
    if p <= last && !(page_top(rows, p) + rh <= max) {
        lemma_first_page_from(rows, p + 1, last, rh, max);
    }
}

/// The first row that an entry of the given padded size fits into.
fn find_suitable_row(width: usize, height: usize, max_size: usize, rows: &Vec<Row>) -> (r: Option<usize>)
    requires
        forall|i: int| 0 <= i < rows@.len() ==> #[trigger] rows@[i].width + width <= usize::MAX,
    ensures
        match r {
            Some(i) => first_row_from(rows_view(rows@), 0, width as int, height as int, max_size as int) == Some(i as int),
            None => first_row_from(rows_view(rows@), 0, width as int, height as int, max_size as int) is None,
        },
{
    let ghost rv = rows_view(rows@);
    let mut i: usize = 0;
    while i < rows.len()
        invariant
            0 <= i <= rows@.len(),
            rv == rows_view(rows@),
            forall|j: int| 0 <= j < rows@.len() ==> #[trigger] rows@[j].width + width <= usize::MAX,
            first_row_from(rv, 0, width as int, height as int, max_size as int)
                == first_row_from(rv, i as int, width as int, height as int, max_size as int),
        decreases rows@.len() - i,
    {
        assert(rv[i as int] == rows@[i as int]@);
        if height <= rows[i].height && rows[i].width + width <= max_size {
            return Some(i);
        }
        i = i + 1;
    }
    None
}

/// The sum of the heights of the rows on the page.
fn page_height(rows: &Vec<Row>, page: usize) -> (top: usize)
    requires
        page_top(rows_view(rows@), page as int) <= usize::MAX,
    ensures
        top == page_top(rows_view(rows@), page as int),
{
    let ghost rv = rows_view(rows@);
    let mut top: usize = 0;
    let mut i: usize = 0;
    while i < rows.len()
        invariant
            0 <= i <= rows@.len(),
            rv == rows_view(rows@),
            page_top(rv, page as int) <= usize::MAX,
            top == page_top(rv.subrange(0, i as int), page as int),
        decreases rows@.len() - i,
    {
        let ghost sub = rv.subrange(0, i as int + 1);
        assert(sub.drop_last() =~= rv.subrange(0, i as int));
        assert(sub.last() == rows@[i as int]@);
        proof {
            lemma_page_top_prefix(rv, i as int + 1, page as int);
        }
        if rows[i].page == page {
            top = top + rows[i].height;
        }
        i = i + 1;
    }
    assert(rv.subrange(0, rows@.len() as int) =~= rv);
    top
}

/// The first page, up to `last_page`, with room for a new row of the given
/// height, and the height already taken on it.
fn find_suitable_page(last_page: usize, row_height: usize, rows: &Vec<Row>, max_size: usize) -> (r: Option<
    (usize, usize),
>)
    requires
        last_page < usize::MAX,
        forall|p: int| #[trigger] page_top(rows_view(rows@), p) + row_height <= usize::MAX,
        forall|i: int| 0 <= i < rows@.len() ==> #[trigger] rows@[i].height >= 0,
    ensures
        match r {
            Some((p, top)) => first_page_from(rows_view(rows@), 0, last_page as int, row_height as int, max_size as int)
                == Some(p as int) && top == page_top(rows_view(rows@), p as int),
            None => first_page_from(rows_view(rows@), 0, last_page as int, row_height as int, max_size as int) is None,
        },
{
    let ghost rv = rows_view(rows@);
    let mut page: usize = 0;
    while page <= last_page
        invariant
            0 <= page <= last_page + 1,
            last_page < usize::MAX,
            rv == rows_view(rows@),
            forall|p: int| #[trigger] page_top(rv, p) + row_height <= usize::MAX,
            first_page_from(rv, 0, last_page as int, row_height as int, max_size as int)
                == first_page_from(rv, page as int, last_page as int, row_height as int, max_size as int),
        decreases last_page + 1 - page,
    {
        proof {
            assert forall|j: int| 0 <= j < rv.len() implies #[trigger] rv[j].height >= 0 by {
                assert(rv[j] == rows@[j]@);
            }
            lemma_page_top_nonneg(rv, page as int);
        }
        assert(page_top(rv, page as int) + row_height <= usize::MAX);
        let top = page_height(rows, page);
        if top + row_height <= max_size {
            return Some((page, top));
        }
        page = page + 1;
    }
    None
}


/// Whether the padded sizes and the machine's `usize` leave room for every
/// sum that placing an entry computes.
pub open spec fn sizes_fit(w: int, h: int, max: int, pad: int) -> bool {
    &&& 0 <= w <= max
    &&& 0 <= h <= max
    &&& 0 <= pad
    &&& 2 * (max + pad) <= usize::MAX
}

/// The index of a row for an entry of the given padded size: the first row
/// it fits into, or else a new row on the first page with room for it, or
/// else a new row on a new page.
fn get_or_insert_row(
    rows: &mut Vec<Row>,
    width: usize,
    height: usize,
    row_padding: usize,
    max_size: usize,
    last_page: &mut usize,
    Ghost(ext): Ghost<int>,
) -> (idx: usize)
    requires
        max_size <= ext,
        layout_ok(
            Layout { rows: rows_view(old(rows)@), last_page: *old(last_page) as int },
            max_size as int,
            ext,
            row_padding as int,
        ),
        sizes_fit(width as int, height as int, ext, row_padding as int),
        old(rows)@.len() + 1 < usize::MAX,
    ensures
        ({
            let (l, i) = insert_row(
                Layout { rows: rows_view(old(rows)@), last_page: *old(last_page) as int },
                width as int,
                height as int,
                row_padding as int,
                max_size as int,
            );
            &&& rows_view(final(rows)@) == l.rows
            &&& *final(last_page) == l.last_page
            &&& idx == i
        }),
{
    let ghost rv = rows_view(rows@);
    let ghost max = ext;
    let ghost pad = row_padding as int;
    proof {
        assert forall|i: int| 0 <= i < rows@.len() implies #[trigger] rows@[i].width + width <= usize::MAX by {
            assert(rv[i] == rows@[i]@);
            assert(0 <= rv[i].width <= max);
        }
    }
    match find_suitable_row(width, height, max_size, rows) {
        Some(index) => index,
        None => {
            let row_height = height + row_padding;
            proof {
                assert forall|p: int| #[trigger] page_top(rows_view(rows@), p) + row_height <= usize::MAX by {
                    assert(page_top(rv, p) <= max + pad);
                }
            }
            let (page, top) = match find_suitable_page(*last_page, row_height, rows, max_size) {
                Some((page, top)) => (page, top),
                None => {
                    *last_page = *last_page + 1;
                    (*last_page, 0)
                },
            };
            rows.push(Row { page, top, width: 0, height: row_height });
            proof {
                assert(rows_view(rows@) =~= rv.push(RowSpec { page: page as int, top: top as int, width: 0, height: row_height as int }));
            }
            rows.len() - 1
        },
    }
}

/// Placing an entry whose padded size is within the extent keeps the layout
/// valid, and puts the entry on a page that is open or the next one: at least
/// `spacing` pixels in from its top and left edges, and inside the page in
/// each direction in which it fits the page with the spacing before it.
proof fn lemma_step_ok(l: Layout, w: int, h: int, info: PackerInfo, ext: int)
    requires
        layout_ok(l, info.max_size as int, ext, info.row_padding as int),
        0 <= w,
        0 <= h,
        w + 2 * info.spacing <= ext,
        h + 2 * info.spacing <= ext,
        info.max_size <= ext,
    ensures
        ({
            let (l2, p) = step(l, w, h, info);
            &&& layout_ok(l2, info.max_size as int, ext, info.row_padding as int)
            &&& l2.rows.len() <= l.rows.len() + 1
            &&& ((p.page == l.last_page + 1 && l2.last_page == l.last_page + 1) || (0 <= p.page <= l.last_page
                && l2.last_page == l.last_page))
            &&& ({
                let (l1, k) = insert_row(
                    l,
                    w + 2 * info.spacing,
                    h + 2 * info.spacing,
                    info.row_padding as int,
                    info.max_size as int,
                );
                &&& 0 <= k < l1.rows.len()
                &&& l1.rows.len() <= l.rows.len() + 1
                &&& layout_ok(l1, info.max_size as int, ext, info.row_padding as int)
                &&& l1.rows[k].width + w + 2 * info.spacing <= ext
            })
            &&& info.spacing <= p.x
            &&& info.spacing <= p.y
            &&& w + info.spacing <= info.max_size ==> p.x + w <= info.max_size
            &&& h + info.spacing <= info.max_size ==> p.y + h <= info.max_size
            &&& p.x <= info.max_size + info.spacing
            &&& p.y <= info.max_size + info.spacing
        }),
{
    let max = info.max_size as int;
    let pad = info.row_padding as int;
    let s = info.spacing as int;
    let ww = w + 2 * s;
    let hh = h + 2 * s;
    let rh = hh + pad;
    let (l1, i) = insert_row(l, ww, hh, pad, max);
    assert forall|j: int| 0 <= j < l.rows.len() implies #[trigger] l.rows[j].height >= 0 by {}
    match first_row_from(l.rows, 0, ww, hh, max) {
        Some(k) => {
            lemma_first_row_from(l.rows, 0, ww, hh, max);
        },
        None => {
            lemma_first_page_from(l.rows, 0, l.last_page, rh, max);
            match first_page_from(l.rows, 0, l.last_page, rh, max) {
                Some(q) => {
                    lemma_page_top_nonneg(l.rows, q);
                    let r = RowSpec { page: q, top: page_top(l.rows, q), width: 0, height: rh };
                    assert forall|p: int| page_top(l1.rows, p) <= ext + pad by {
                        lemma_page_top_push(l.rows, r, p);
                    }
                },
                None => {
                    let r = RowSpec { page: l.last_page + 1, top: 0, width: 0, height: rh };
                    assert forall|p: int| page_top(l1.rows, p) <= ext + pad by {
                        lemma_page_top_push(l.rows, r, p);
                        if p == l.last_page + 1 {
                            lemma_page_top_absent(l.rows, p);
                        }
                    }
                },
            }
        },
    }
    assert(layout_ok(l1, max, ext, pad));
    let r = l1.rows[i];
    let r2 = RowSpec { page: r.page, top: r.top, width: r.width + ww, height: r.height };
    let (l2, p) = step(l, w, h, info);
    assert forall|q: int| page_top(l2.rows, q) <= ext + pad by {
        lemma_page_top_update(l1.rows, i, r2, q);
    }
}


/// Whether byte `k` of a page whose rows are `iw` bytes wide lies in the
/// block of `h` rows of `dw` bytes whose top left byte is at `p`.
pub open spec fn covers(k: int, iw: int, dw: int, h: int, px: int, py: int) -> bool {
    &&& py <= k / iw < py + h
    &&& px <= k % iw < px + dw
}

/// The index, in the block's own bytes, of page byte `k`.
pub open spec fn block_index(k: int, iw: int, dw: int, px: int, py: int) -> int {
    (k / iw - py) * dw + (k % iw - px)
}

/// The page bytes `pixels` with the block of `h` rows of `dw` bytes, read
/// from `data` at `from` on, copied in at column `px` of row `py`, where the
/// block's rows lie within the page's rows of `iw` bytes.
pub open spec fn rect_blit(pixels: Seq<u8>, data: Seq<u8>, from: int, iw: int, dw: int, h: int, px: int, py: int) -> Seq<u8> {
    Seq::new(
        pixels.len(),
        |k: int|
            if covers(k, iw, dw, h, px, py) {
                data[from + block_index(k, iw, dw, px, py)]
            } else {
                pixels[k]
            },
    )
}

/// The page bytes `pixels` after copying `h` rows of `dw` bytes, read from
/// `data` at `from` on, row `y` to the bytes from `(py + y) * iw + px` on:
/// rows `iw` bytes wide, each copied row a run of bytes that goes on into
/// the next page row where it is too long for its own, later rows written
/// over earlier ones.
pub open spec fn blit(pixels: Seq<u8>, data: Seq<u8>, from: int, iw: int, dw: int, h: int, px: int, py: int) -> Seq<u8>
    decreases h,
{
    if h <= 0 {
        pixels
    } else {
        let prev = blit(pixels, data, from, iw, dw, h - 1, px, py);
        let a = (py + h - 1) * iw + px;
        let b = from + (h - 1) * dw;
        Seq::new(prev.len(), |k: int| if a <= k < a + dw { data[b + (k - a)] } else { prev[k] })
    }
}

/// Copying keeps the number of bytes.
proof fn lemma_blit_len(pixels: Seq<u8>, data: Seq<u8>, from: int, iw: int, dw: int, h: int, px: int, py: int)
    ensures
        blit(pixels, data, from, iw, dw, h, px, py).len() == pixels.len(),
    decreases h,
{
    if h > 0 {
        lemma_blit_len(pixels, data, from, iw, dw, h - 1, px, py);
    }
}

/// Copying no rows, or rows of no bytes, leaves the bytes as they are.
proof fn lemma_blit_empty(pixels: Seq<u8>, data: Seq<u8>, from: int, iw: int, dw: int, h: int, px: int, py: int)
    requires
        dw <= 0 || h <= 0,
    ensures
        blit(pixels, data, from, iw, dw, h, px, py) == pixels,
    decreases h,
{
    if h > 0 {
        lemma_blit_empty(pixels, data, from, iw, dw, h - 1, px, py);
        let prev = blit(pixels, data, from, iw, dw, h - 1, px, py);
        let a = (py + h - 1) * iw + px;
        let b = from + (h - 1) * dw;
        assert(Seq::new(prev.len(), |k: int| if a <= k < a + dw { data[b + (k - a)] } else { prev[k] }) =~= prev);
    }
}

/// Where the block's rows lie within the page's rows, copying row after
/// row gives the block.
proof fn lemma_blit_rect(pixels: Seq<u8>, data: Seq<u8>, from: int, iw: int, dw: int, h: int, px: int, py: int)
    requires
        iw > 0,
        0 <= px,
        0 <= py,
        0 <= dw,
        px + dw <= iw,
        0 <= h,
    ensures
        blit(pixels, data, from, iw, dw, h, px, py) == rect_blit(pixels, data, from, iw, dw, h, px, py),
    decreases h,
{
    if h > 0 {
        lemma_blit_rect(pixels, data, from, iw, dw, h - 1, px, py);
        let prev = rect_blit(pixels, data, from, iw, dw, h - 1, px, py);
        let a = (py + h - 1) * iw + px;
        let b = from + (h - 1) * dw;
        let cur = Seq::new(prev.len(), |k: int| if a <= k < a + dw { data[b + (k - a)] } else { prev[k] });
        let goal = rect_blit(pixels, data, from, iw, dw, h, px, py);
        assert forall|k: int| 0 <= k < pixels.len() implies #[trigger] cur[k] == goal[k] by {
            vstd::arithmetic::div_mod::lemma_fundamental_div_mod(k, iw);
            let r = k / iw;
            let c = k % iw;
            assert(k == iw * r + c);
            assert(0 <= c < iw);
            if a <= k < a + dw {
                let t = k - a;
                vstd::arithmetic::div_mod::lemma_fundamental_div_mod_converse(k, iw, py + h - 1, px + t);
                assert(r == py + h - 1 && c == px + t);
                assert(covers(k, iw, dw, h, px, py));
                assert(block_index(k, iw, dw, px, py) == (h - 1) * dw + t) by (nonlinear_arith)
                    requires
                        block_index(k, iw, dw, px, py) == (k / iw - py) * dw + (k % iw - px),
                        k / iw == py + h - 1,
                        k % iw == px + t,
                ;
            } else {
                if r == py + h - 1 && px <= c < px + dw {
                    assert(k == (py + h - 1) * iw + c) by (nonlinear_arith)
                        requires
                            k == iw * r + c,
                            r == py + h - 1,
                    ;
                    assert(false);
                }
                assert(covers(k, iw, dw, h, px, py) == covers(k, iw, dw, h - 1, px, py));
            }
        }
        assert(cur =~= goal);
    }
}

/// Copies `height` rows of `data_width` bytes from `buf`, starting at
/// `from`, into the image, row `y` to the bytes from `(py + y) *
/// image_width + px` on.
fn blit_entry(
    image: &mut Image,
    buf: &Vec<u8>,
    from: usize,
    px: usize,
    py: usize,
    height: usize,
    image_width: usize,
    data_width: usize,
)
    requires
        height > 0,
        data_width > 0,
        image_width > 0,
        (py + height - 1) * image_width + px + data_width <= old(image)@.pixels.len(),
        old(image)@.pixels.len() <= usize::MAX,
        from + height * data_width <= buf@.len(),
        from + height * data_width <= usize::MAX,
    ensures
        final(image)@.width == old(image)@.width,
        final(image)@.height == old(image)@.height,
        final(image)@.pixels == blit(
            old(image)@.pixels,
            buf@,
            from as int,
            image_width as int,
            data_width as int,
            height as int,
            px as int,
            py as int,
        ),
{
    let ghost pixels0 = image@.pixels;
    let ghost iw = image_width as int;
    let ghost dw = data_width as int;
    let ghost len = pixels0.len();
    proof {
        lemma_mul_le(1, image_width as int, py as int + height as int - 1);
    }
    let mut y: usize = 0;
    while y < height
        invariant
            0 <= y <= height,
            data_width > 0,
            image_width > 0,
            py + height - 1 <= len,
            (py + height - 1) * image_width + px + data_width <= len,
            len <= usize::MAX,
            from + height * data_width <= buf@.len(),
            from + height * data_width <= usize::MAX,
            image@.width == old(image)@.width,
            image@.height == old(image)@.height,
            pixels0 == old(image)@.pixels,
            len == pixels0.len(),
            iw == image_width as int,
            dw == data_width as int,
            image@.pixels == blit(pixels0, buf@, from as int, iw, dw, y as int, px as int, py as int),
        decreases height - y,
    {
        proof {
            lemma_blit_len(pixels0, buf@, from as int, iw, dw, y as int, px as int, py as int);
            lemma_mul_le(py as int + y as int, py as int + height as int - 1, image_width as int);
            lemma_mul_le(y as int + 1, height as int, data_width as int);
        }
        assert((y + 1) * data_width == y * data_width + data_width) by (nonlinear_arith);
        assert((py + y) * image_width + px + data_width <= len);
        assert(from + y * data_width + data_width <= from + height * data_width);
        let row = py + y;
        assert(row * image_width <= len);
        let off = row * image_width;
        let a = off + px;
        assert(y * data_width <= height * data_width);
        let b = from + y * data_width;
        let ghost prev = image@.pixels;
        let mut x: usize = 0;
        while x < data_width
            invariant
                0 <= y < height,
                0 <= x <= data_width,
                a == (py + y) * image_width + px,
                b == from + y * data_width,
                a + data_width <= len,
                b + data_width <= buf@.len(),
                b + data_width <= usize::MAX,
                prev.len() == len,
                len <= usize::MAX,
                image@.width == old(image)@.width,
                image@.height == old(image)@.height,
                image@.pixels == Seq::new(
                    prev.len(),
                    |k: int| if a <= k < a + x { buf@[b + (k - a)] } else { prev[k] },
                ),
            decreases data_width - x,
        {
            let ghost before = image@.pixels;
            image.set(a + x, buf[b + x]);
            proof {
                assert(image@.pixels =~= Seq::new(
                    prev.len(),
                    |k: int| if a <= k < a + (x + 1) { buf@[b + (k - a)] } else { prev[k] },
                ));
            }
            x = x + 1;
        }
        proof {
            assert(image@.pixels =~= blit(pixels0, buf@, from as int, iw, dw, y as int + 1, px as int, py as int));
        }
        y = y + 1;
    }
}

proof fn lemma_mul_le(a: int, b: int, c: int)
    requires
        0 <= a <= b,
        0 <= c,
    ensures
        a * c <= b * c,
        c * a <= c * b,
{
    assert(a * c <= b * c) by (nonlinear_arith)
        requires
            0 <= a <= b,
            0 <= c,
    ;
    assert(c * a <= c * b) by (nonlinear_arith)
        requires
            0 <= a <= b,
            0 <= c,
    ;
}

/// Reinterprets a byte slice with `bytemuck::cast_slice`. Trusted: casting
/// bytes to bytes hands back the same bytes (the crate's documentation: the
/// slice is reinterpreted, not copied or changed).
#[verifier::external_body]
fn cast_bytes(bytes: &[u8]) -> (r: &[u8])
    ensures
        r@ == bytes@,
{
    bytemuck::cast_slice::<u8, u8>(bytes)
}

/// The page bytes with an entry's bitmap copied in at its placement: rows of
/// `max_size * bytes_per_entry` bytes, the bitmap's rows `width *
/// bytes_per_entry` bytes wide.
pub open spec fn entry_blit<T>(pixels: Seq<u8>, e: Entry<T>, p: Placement, buf: Seq<u8>, info: PackerInfo) -> Seq<u8> {
    blit(
        pixels,
        buf,
        e.from_spec() as int,
        info.max_size as int * info.bytes_per_entry as int,
        e.width_spec() as int * info.bytes_per_entry as int,
        e.height_spec() as int,
        p.x,
        p.y,
    )
}

/// The bytes of the pages after packing the first `n` entries: a page of
/// zero bytes is opened for an entry placed past the last page, and each
/// entry's bitmap is copied onto its page, later entries over earlier ones.
pub open spec fn pages_after<T>(entries: Seq<Entry<T>>, buf: Seq<u8>, info: PackerInfo, n: int) -> Seq<Seq<u8>>
    decreases n,
{
    if n <= 0 {
        Seq::empty()
    } else {
        let prev = pages_after(entries, buf, info, n - 1);
        let e = entries[n - 1];
        let p = layout(entries, info, n).1[n - 1];
        let base = if p.page >= prev.len() {
            prev.push(
                Seq::new(
                    (info.max_size as int * info.max_size as int * e.bpp_spec() as int) as nat,
                    |k: int| 0u8,
                ),
            )
        } else {
            prev
        };
        base.update(p.page, entry_blit(base[p.page], e, p, buf, info))
    }
}

/// The layout of `n` entries places each of them, in order, and keeps the
/// placements of the first entries as later ones are added.
proof fn lemma_layout_prefix<T>(entries: Seq<Entry<T>>, info: PackerInfo, n: int, m: int)
    requires
        0 <= n <= m,
    ensures
        layout(entries, info, m).1.len() == m,
        forall|j: int| 0 <= j < n ==> #[trigger] layout(entries, info, m).1[j] == layout(entries, info, n).1[j],
    decreases m,
{
    if m > 0 {
        if n < m {
            lemma_layout_prefix(entries, info, n, m - 1);
        } else {
            lemma_layout_prefix(entries, info, n - 1, m - 1);
        }
    }
}

/// The last page of the layout of packable entries holds one of them.
proof fn lemma_last_page_used<T>(entries: Seq<Entry<T>>, buf: Seq<u8>, info: PackerInfo, n: int)
    requires
        0 < n <= entries.len(),
        forall|j: int| 0 <= j < entries.len() ==> entry_fits(#[trigger] entries[j], info),
        entries[0].height_spec() + 2 * info.spacing + info.row_padding <= info.max_size,
    ensures
        exists|j: int| 0 <= j < n && (#[trigger] layout(entries, info, n).1[j]).page == layout(entries, info, n).0.last_page,
    decreases n,
{
    let (l, ps) = layout(entries, info, n - 1);
    let (l2, p) = step(l, entries[n - 1].width_spec() as int, entries[n - 1].height_spec() as int, info);
    lemma_layout_prefix(entries, info, n - 1, n);
    if n == 1 {
        assert(l.rows =~= Seq::<RowSpec>::empty());
        assert(page_top(l.rows, 0) == 0);
        assert(layout(entries, info, n).1[0] == p);
    } else {
        lemma_layout_inv(entries, buf, info, n - 1);
        lemma_extent(entries, info);
        assert(entries[n - 1].width_spec() + 2 * info.spacing <= extent(entries, info));
        lemma_step_ok(l, entries[n - 1].width_spec() as int, entries[n - 1].height_spec() as int, info, extent(entries, info));
        assert(layout(entries, info, n).1[n - 1] == p);
        if p.page != l.last_page + 1 {
            lemma_last_page_used(entries, buf, info, n - 1);
            let j = choose|j: int| 0 <= j < n - 1 && (#[trigger] layout(entries, info, n - 1).1[j]).page == l.last_page;
            assert(layout(entries, info, n).1[j] == layout(entries, info, n - 1).1[j]);
        }
    }
}

/// Whether an entry's bytes are all there: at least its pixels times the
/// packer's pixel size.
pub open spec fn entry_fits<T>(e: Entry<T>, info: PackerInfo) -> bool {
    e.to_spec() - e.from_spec() >= e.width_spec() as int * e.height_spec() as int * info.bytes_per_entry as int
}

/// A width and height, with the spacing on both sides, that no entry's
/// exceeds, nor the page's: the widest a row or the tallest a row can get.
pub open spec fn extent<T>(entries: Seq<Entry<T>>, info: PackerInfo) -> int
    decreases entries.len(),
{
    if entries.len() == 0 {
        info.max_size + 2 * info.spacing
    } else {
        let prev = extent(entries.drop_last(), info);
        let e = entries.last();
        let w = e.width_spec() + 2 * info.spacing;
        let h = e.height_spec() + 2 * info.spacing;
        let m = if w > h {
            w
        } else {
            h
        };
        if m > prev {
            m
        } else {
            prev
        }
    }
}

/// No entry, with its spacing, and no page is larger than the extent.
proof fn lemma_extent<T>(entries: Seq<Entry<T>>, info: PackerInfo)
    ensures
        info.max_size + 2 * info.spacing <= extent(entries, info),
        forall|j: int|
            0 <= j < entries.len() ==> (#[trigger] entries[j]).width_spec() + 2 * info.spacing <= extent(entries, info)
                && entries[j].height_spec() + 2 * info.spacing <= extent(entries, info),
    decreases entries.len(),
{
    if entries.len() > 0 {
        lemma_extent(entries.drop_last(), info);
        assert forall|j: int| 0 <= j < entries.len() implies (#[trigger] entries[j]).width_spec() + 2 * info.spacing
            <= extent(entries, info) && entries[j].height_spec() + 2 * info.spacing <= extent(entries, info) by {
            if j < entries.len() - 1 {
                assert(entries[j] == entries.drop_last()[j]);
            }
        }
    }
}

/// The extent depends on the entries' sizes alone.
proof fn lemma_extent_same<T>(a: Seq<Entry<T>>, b: Seq<Entry<T>>, info: PackerInfo)
    requires
        a.len() == b.len(),
        forall|j: int|
            0 <= j < a.len() ==> #[trigger] b[j].width == a[j].width && b[j].height == a[j].height,
    ensures
        extent(a, info) == extent(b, info),
    decreases a.len(),
{
    if a.len() > 0 {
        assert forall|j: int| 0 <= j < a.drop_last().len() implies #[trigger] b.drop_last()[j].width
            == a.drop_last()[j].width && b.drop_last()[j].height == a.drop_last()[j].height by {
            assert(b[j].width == a[j].width && b[j].height == a[j].height);
        }
        lemma_extent_same(a.drop_last(), b.drop_last(), info);
        assert(b[a.len() - 1].width == a[a.len() - 1].width && b[a.len() - 1].height == a[a.len() - 1].height);
    }
}

/// Whether `b` is entry `a` placed at `p`.
pub open spec fn placed_at<T>(a: Entry<T>, b: Entry<T>, p: Placement) -> bool {
    &&& b.id == a.id
    &&& b.width_spec() == a.width_spec()
    &&& b.height_spec() == a.height_spec()
    &&& b.bpp_spec() == a.bpp_spec()
    &&& b.from_spec() == a.from_spec()
    &&& b.to_spec() == a.to_spec()
    &&& b.page == p.page
    &&& b.tex_rect.position.x == p.x
    &&& b.tex_rect.position.y == p.y
    &&& b.tex_rect.size.x == a.width_spec()
    &&& b.tex_rect.size.y == a.height_spec()
}

/// Whether two placed bitmaps, of sizes `(wa, ha)` and `(wb, hb)`, lie
/// apart: with a margin of `s` around each, they do not overlap.
pub open spec fn apart(a: Placement, wa: int, ha: int, b: Placement, wb: int, hb: int, s: int) -> bool {
    ||| a.x + wa + s <= b.x - s
    ||| b.x + wb + s <= a.x - s
    ||| a.y + ha + s <= b.y - s
    ||| b.y + hb + s <= a.y - s
}

/// What holds of the layout of the first `n` entries: the rows are valid;
/// rows of a page are stacked one below the other; each entry lies, with its
/// margin, inside the filled part of its row and inside its page; entries of
/// a row follow one another from left to right.
pub open spec fn layout_inv<T>(entries: Seq<Entry<T>>, info: PackerInfo, n: int) -> bool {
    let (l, ps) = layout(entries, info, n);
    let s = info.spacing as int;
    let max = info.max_size as int;
    &&& layout_ok(l, max, extent(entries, info), info.row_padding as int)
    &&& ps.len() == n
    &&& forall|a: int, b: int|
        0 <= a < b < l.rows.len() && #[trigger] l.rows[a].page == #[trigger] l.rows[b].page ==> l.rows[a].top
            + l.rows[a].height <= l.rows[b].top
    &&& forall|a: int|
        0 <= a < l.rows.len() ==> #[trigger] l.rows[a].top + l.rows[a].height <= page_top(l.rows, l.rows[a].page)
    &&& forall|j: int|
        0 <= j < n ==> {
            let p = #[trigger] ps[j];
            let w = entries[j].width_spec() as int;
            let h = entries[j].height_spec() as int;
            &&& 0 <= p.row < l.rows.len()
            &&& l.rows[p.row].page == p.page
            &&& 0 <= p.page <= l.last_page
            &&& p.y == l.rows[p.row].top + s
            &&& h + 2 * s <= l.rows[p.row].height
            &&& s <= p.x
            &&& p.x + w + s <= l.rows[p.row].width
            &&& w + s <= max ==> p.x + w <= max
            &&& h + s <= max ==> p.y + h <= max
        }
    &&& forall|j: int, k: int|
        0 <= j < k < n && (#[trigger] ps[j]).row == (#[trigger] ps[k]).row ==> ps[j].x + entries[j].width_spec() + s
            <= ps[k].x - s
}

/// The layout of every prefix of packable entries keeps `layout_inv`, and
/// the pages packing opens are the pages the layout uses.
proof fn lemma_layout_inv<T>(entries: Seq<Entry<T>>, buf: Seq<u8>, info: PackerInfo, n: int)
    requires
        0 <= n <= entries.len(),
        forall|j: int| 0 <= j < entries.len() ==> entry_fits(#[trigger] entries[j], info),
        entries.len() > 0 ==> entries[0].height_spec() + 2 * info.spacing + info.row_padding <= info.max_size,
    ensures
        layout_inv(entries, info, n),
        n == 0 ==> pages_after(entries, buf, info, n).len() == 0,
        n > 0 ==> pages_after(entries, buf, info, n).len() == layout(entries, info, n).0.last_page + 1,
    decreases n,
{
    let s = info.spacing as int;
    let max = info.max_size as int;
    let pad = info.row_padding as int;
    let ext = extent(entries, info);
    lemma_extent(entries, info);
    if n == 0 {
        let (l, ps) = layout(entries, info, 0);
        assert(l.rows.len() == 0);
        assert(layout_ok(l, max, ext, pad)) by {
            assert forall|p: int| page_top(l.rows, p) <= ext + pad by {}
        }
    } else {
        lemma_layout_inv(entries, buf, info, n - 1);
        let (l, ps) = layout(entries, info, n - 1);
        let e = entries[n - 1];
        let w = e.width_spec() as int;
        let h = e.height_spec() as int;
        assert(e.width_spec() + 2 * info.spacing <= ext && e.height_spec() + 2 * info.spacing <= ext);
        lemma_step_ok(l, w, h, info, ext);
        let ww = w + 2 * s;
        let hh = h + 2 * s;
        let rh = hh + pad;
        let (l1, k) = insert_row(l, ww, hh, pad, max);
        let r = l1.rows[k];
        let (l2, p) = step(l, w, h, info);
        let ps2 = ps.push(p);
        assert(layout(entries, info, n) == (l2, ps2));
        assert forall|j: int| 0 <= j < l.rows.len() implies #[trigger] l.rows[j].height >= 0 by {}
        // The row the entry went into, and what the layout was before.
        if first_row_from(l.rows, 0, ww, hh, max) is Some {
            lemma_first_row_from(l.rows, 0, ww, hh, max);
            assert(l1 == l);
            assert(row_fits(l.rows[k], ww, hh, max));
        } else {
            lemma_first_page_from(l.rows, 0, l.last_page, rh, max);
            assert(k == l.rows.len());
            let nr = l1.rows[k];
            assert(l1.rows == l.rows.push(nr));
            assert forall|a: int| 0 <= a < l1.rows.len() implies #[trigger] l1.rows[a].top + l1.rows[a].height
                <= page_top(l1.rows, l1.rows[a].page) by {
                lemma_page_top_push(l.rows, nr, l1.rows[a].page);
                if a < l.rows.len() {
                    assert(l1.rows[a] == l.rows[a]);
                } else {
                    assert(a == k);
                    if first_page_from(l.rows, 0, l.last_page, rh, max) is None {
                        assert forall|i: int| 0 <= i < l.rows.len() implies #[trigger] l.rows[i].page != nr.page by {
                            assert(l.rows[i].page <= l.last_page);
                        }
                        lemma_page_top_absent(l.rows, nr.page);
                    }
                }
            }
            assert forall|a: int, b: int|
                0 <= a < b < l1.rows.len() && #[trigger] l1.rows[a].page == #[trigger] l1.rows[b].page implies l1.rows[a].top
                + l1.rows[a].height <= l1.rows[b].top by {
                if b == k {
                    assert(l1.rows[a] == l.rows[a]);
                    if first_page_from(l.rows, 0, l.last_page, rh, max) is None {
                        assert(l.rows[a].page <= l.last_page);
                    }
                } else {
                    assert(l1.rows[a] == l.rows[a]);
                    assert(l1.rows[b] == l.rows[b]);
                }
            }
        }
        // Widening the row keeps the pages' heights and the rows' stacking.
        let r2 = RowSpec { page: r.page, top: r.top, width: r.width + ww, height: r.height };
        assert(l2.rows == l1.rows.update(k, r2));
        assert forall|a: int| 0 <= a < l2.rows.len() implies #[trigger] l2.rows[a].top + l2.rows[a].height
            <= page_top(l2.rows, l2.rows[a].page) by {
            lemma_page_top_update(l1.rows, k, r2, l2.rows[a].page);
            if first_row_from(l.rows, 0, ww, hh, max) is Some {
            }
        }
        assert forall|a: int, b: int|
            0 <= a < b < l2.rows.len() && #[trigger] l2.rows[a].page == #[trigger] l2.rows[b].page implies l2.rows[a].top
            + l2.rows[a].height <= l2.rows[b].top by {
            assert(l1.rows[a].page == l2.rows[a].page && l1.rows[b].page == l2.rows[b].page);
        }
        assert forall|j: int| 0 <= j < n implies {
            let q = #[trigger] ps2[j];
            let wj = entries[j].width_spec() as int;
            let hj = entries[j].height_spec() as int;
            &&& 0 <= q.row < l2.rows.len()
            &&& l2.rows[q.row].page == q.page
            &&& 0 <= q.page <= l2.last_page
            &&& q.y == l2.rows[q.row].top + s
            &&& hj + 2 * s <= l2.rows[q.row].height
            &&& s <= q.x
            &&& q.x + wj + s <= l2.rows[q.row].width
            &&& wj + s <= max ==> q.x + wj <= max
            &&& hj + s <= max ==> q.y + hj <= max
        } by {
            if j < n - 1 {
                let q = ps[j];
                assert(ps2[j] == q);
                assert(l1.rows[q.row] == l.rows[q.row]);
                let rr = l.rows[q.row];
                assert(rr.top == 0 || rr.top + rr.height <= max);
                assert(entry_fits(entries[j], info));
            } else {
                assert(ps2[j] == p);
                if first_row_from(l.rows, 0, ww, hh, max) is Some {
                    assert(r.top == 0 || r.top + r.height <= max);
                } else {
                    assert(r.height == rh);
                }
            }
        }
        assert forall|j: int, jj: int|
            0 <= j < jj < n && (#[trigger] ps2[j]).row == (#[trigger] ps2[jj]).row implies ps2[j].x
            + entries[j].width_spec() + s <= ps2[jj].x - s by {
            if jj < n - 1 {
                assert(ps2[j] == ps[j] && ps2[jj] == ps[jj]);
            } else {
                assert(ps2[j] == ps[j]);
                assert(ps[j].row == k);
                assert(l1.rows[k] == l.rows[k]);
            }
        }
        // The pages: a page is opened exactly when the entry goes past the
        // last one.
        let prev = pages_after(entries, buf, info, n - 1);
        assert(layout(entries, info, n).1[n - 1] == p);
        if n == 1 {
            assert(l.rows.len() == 0);
            assert(first_row_from(l.rows, 0, ww, hh, max) is None);
            assert(page_top(l.rows, 0) == 0);
            assert(first_page_from(l.rows, 0, 0, rh, max) == Some(0int));
            assert(p.page == 0);
        }
    }
}

/// Packing places every entry inside its page, on a page it made, and keeps
/// the entries of a page apart: with a margin of `spacing` pixels around
/// each, no two of them overlap.
pub proof fn lemma_layout_apart<T>(entries: Seq<Entry<T>>, buf: Seq<u8>, info: PackerInfo)
    requires
        forall|j: int| 0 <= j < entries.len() ==> entry_fits(#[trigger] entries[j], info),
        entries.len() > 0 ==> entries[0].height_spec() + 2 * info.spacing + info.row_padding <= info.max_size,
    ensures
        ({
            let n = entries.len() as int;
            let ps = layout(entries, info, n).1;
            let s = info.spacing as int;
            &&& ps.len() == n
            &&& forall|j: int|
                0 <= j < n ==> {
                    let p = #[trigger] ps[j];
                    &&& 0 <= p.page < pages_after(entries, buf, info, n).len()
                    &&& s <= p.x
                    &&& s <= p.y
                    &&& entries[j].width_spec() + s <= info.max_size ==> p.x + entries[j].width_spec() <= info.max_size
                    &&& entries[j].height_spec() + s <= info.max_size ==> p.y + entries[j].height_spec() <= info.max_size
                }
            &&& forall|j: int, k: int|
                0 <= j < k < n && (#[trigger] ps[j]).page == (#[trigger] ps[k]).page ==> apart(
                    ps[j],
                    entries[j].width_spec() as int,
                    entries[j].height_spec() as int,
                    ps[k],
                    entries[k].width_spec() as int,
                    entries[k].height_spec() as int,
                    s,
                )
        }),
{
    let n = entries.len() as int;
    lemma_layout_inv(entries, buf, info, n);
    let (l, ps) = layout(entries, info, n);
    let s = info.spacing as int;
    assert forall|j: int| 0 <= j < n implies s <= (#[trigger] ps[j]).y by {
        let q = ps[j];
        assert(l.rows[q.row].top >= 0);
    }
    assert forall|j: int, k: int|
        0 <= j < k < n && (#[trigger] ps[j]).page == (#[trigger] ps[k]).page implies apart(
        ps[j],
        entries[j].width_spec() as int,
        entries[j].height_spec() as int,
        ps[k],
        entries[k].width_spec() as int,
        entries[k].height_spec() as int,
        s,
    ) by {
        let a = ps[j].row;
        let b = ps[k].row;
        if a == b {
        } else if a < b {
            assert(l.rows[a].page == l.rows[b].page);
            assert(l.rows[a].top + l.rows[a].height <= l.rows[b].top);
        } else {
            assert(l.rows[b].page == l.rows[a].page);
            assert(l.rows[b].top + l.rows[b].height <= l.rows[a].top);
        }
    }
}

/// Two entries that the layout of the first `m` entries put on the same
/// page lie apart.
proof fn lemma_apart_at<T>(entries: Seq<Entry<T>>, buf: Seq<u8>, info: PackerInfo, m: int, j: int, k: int)
    requires
        0 <= j < k < m <= entries.len(),
        forall|i: int| 0 <= i < entries.len() ==> entry_fits(#[trigger] entries[i], info),
        entries.len() > 0 ==> entries[0].height_spec() + 2 * info.spacing + info.row_padding <= info.max_size,
        layout(entries, info, m).1[j].page == layout(entries, info, m).1[k].page,
    ensures
        apart(
            layout(entries, info, m).1[j],
            entries[j].width_spec() as int,
            entries[j].height_spec() as int,
            layout(entries, info, m).1[k],
            entries[k].width_spec() as int,
            entries[k].height_spec() as int,
            info.spacing as int,
        ),
{
    lemma_layout_inv(entries, buf, info, m);
    let (l, ps) = layout(entries, info, m);
    let a = ps[j].row;
    let b = ps[k].row;
    assert(ps[j] == layout(entries, info, m).1[j]);
    assert(ps[k] == layout(entries, info, m).1[k]);
    if a == b {
    } else if a < b {
        assert(l.rows[a].page == l.rows[b].page);
        assert(l.rows[a].top + l.rows[a].height <= l.rows[b].top);
    } else {
        assert(l.rows[b].page == l.rows[a].page);
        assert(l.rows[b].top + l.rows[b].height <= l.rows[a].top);
    }
}

/// Whether the page bytes hold the bitmap of entry `e` placed at `p`: one
/// byte per pixel, rows `max_size` bytes wide.
pub open spec fn holds_bitmap<T>(page: Seq<u8>, e: Entry<T>, p: Placement, buf: Seq<u8>, info: PackerInfo) -> bool {
    forall|yy: int, xx: int|
        0 <= yy < e.height_spec() && 0 <= xx < e.width_spec() ==> #[trigger] page[(p.y + yy) * info.max_size
            + p.x + xx] == buf[e.from_spec() + yy * e.width_spec() + xx]
}

/// With one byte per pixel, and entries that each fit a page with the
/// spacing before them and have a pixel size of at least one byte, every
/// page made by packing the first `n` entries has `max_size * max_size`
/// bytes, and every entry's bitmap can be read back from its page where the
/// layout placed it.
proof fn lemma_pages_hold_bitmaps<T>(entries: Seq<Entry<T>>, buf: Seq<u8>, info: PackerInfo, n: int)
    requires
        0 <= n <= entries.len(),
        info.bytes_per_entry == 1,
        forall|i: int| 0 <= i < entries.len() ==> entry_fits(#[trigger] entries[i], info),
        forall|i: int|
            0 <= i < entries.len() ==> (#[trigger] entries[i]).width_spec() + info.spacing <= info.max_size
                && entries[i].height_spec() + info.spacing <= info.max_size && entries[i].bpp_spec() >= 1,
        entries.len() > 0 ==> entries[0].height_spec() + 2 * info.spacing + info.row_padding <= info.max_size,
    ensures
        forall|q: int|
            0 <= q < pages_after(entries, buf, info, n).len() ==> (#[trigger] pages_after(entries, buf, info, n)[q]).len()
                >= info.max_size * info.max_size,
        forall|j: int|
            0 <= j < n ==> holds_bitmap(
                pages_after(entries, buf, info, n)[layout(entries, info, n).1[j].page],
                entries[j],
                #[trigger] layout(entries, info, n).1[j],
                buf,
                info,
            ),
    decreases n,
{
    if n > 0 {
        lemma_pages_hold_bitmaps(entries, buf, info, n - 1);
        lemma_layout_inv(entries, buf, info, n);
        lemma_layout_inv(entries, buf, info, n - 1);
        lemma_layout_prefix(entries, info, n - 1, n);
        let max = info.max_size as int;
        let prev = pages_after(entries, buf, info, n - 1);
        let new = pages_after(entries, buf, info, n);
        let e = entries[n - 1];
        let ps = layout(entries, info, n).1;
        let p = ps[n - 1];
        assert(entry_fits(e, info));
        let base = if p.page >= prev.len() {
            prev.push(Seq::new((max * max * e.bpp_spec() as int) as nat, |k: int| 0u8))
        } else {
            prev
        };
        assert(e.width_spec() + info.spacing <= info.max_size && e.height_spec() + info.spacing <= info.max_size
            && e.bpp_spec() >= 1);
        if max > 0 {
            lemma_blit_rect(
                base[p.page],
                buf,
                e.from_spec() as int,
                info.max_size as int * info.bytes_per_entry as int,
                e.width_spec() as int * info.bytes_per_entry as int,
                e.height_spec() as int,
                p.x,
                p.y,
            );
        }
        assert(new == base.update(p.page, entry_blit(base[p.page], e, p, buf, info)));
        assert(0 <= p.page < new.len());
        lemma_mul_le(1, e.bpp_spec() as int, max * max);
        assert forall|q: int| 0 <= q < new.len() implies (#[trigger] new[q]).len() >= max * max by {
            if q != p.page {
                assert(new[q] == base[q]);
            }
        }
        assert forall|j: int| 0 <= j < n implies holds_bitmap(new[ps[j].page], entries[j], #[trigger] ps[j], buf, info) by {
            let pj = ps[j];
            let ej = entries[j];
            assert(entry_fits(ej, info));
            if j == n - 1 {
                assert forall|yy: int, xx: int|
                    0 <= yy < ej.height_spec() && 0 <= xx < ej.width_spec() implies #[trigger] new[pj.page][(pj.y
                    + yy) * max + pj.x + xx] == buf[ej.from_spec() + yy * ej.width_spec() + xx] by {
                    let k = (pj.y + yy) * max + pj.x + xx;
                    vstd::arithmetic::div_mod::lemma_fundamental_div_mod_converse(k, max, pj.y + yy, pj.x + xx);
                    assert(k < max * max) by (nonlinear_arith)
                        requires
                            k == (pj.y + yy) * max + pj.x + xx,
                            0 <= pj.y + yy < max,
                            0 <= pj.x + xx < max,
                    ;
                    assert(0 <= k);
                }
            } else {
                assert(pj == layout(entries, info, n - 1).1[j]);
                assert(holds_bitmap(prev[pj.page], ej, pj, buf, info));
                assert(0 <= pj.page < prev.len());
                if pj.page != p.page {
                    assert(new[pj.page] == prev[pj.page]);
                } else {
                    lemma_apart_at(entries, buf, info, n, j, n - 1);
                    assert forall|yy: int, xx: int|
                        0 <= yy < ej.height_spec() && 0 <= xx < ej.width_spec() implies #[trigger] new[pj.page][(pj.y
                        + yy) * max + pj.x + xx] == buf[ej.from_spec() + yy * ej.width_spec() + xx] by {
                        let k = (pj.y + yy) * max + pj.x + xx;
                        vstd::arithmetic::div_mod::lemma_fundamental_div_mod_converse(k, max, pj.y + yy, pj.x + xx);
                        assert(k < max * max) by (nonlinear_arith)
                            requires
                                k == (pj.y + yy) * max + pj.x + xx,
                                0 <= pj.y + yy < max,
                                0 <= pj.x + xx < max,
                        ;
                        assert(0 <= k);
                        assert(!covers(k, max, e.width_spec() as int, e.height_spec() as int, p.x, p.y));
                        assert(prev[pj.page][k] == buf[ej.from_spec() + yy * ej.width_spec() + xx]);
                    }
                }
            }
        }
    }
}

/// The layout depends on the entries' sizes alone.
#[verifier::spinoff_prover]
proof fn lemma_layout_same<T>(a: Seq<Entry<T>>, b: Seq<Entry<T>>, info: PackerInfo, n: int)
    requires
        0 <= n <= a.len(),
        a.len() == b.len(),
        forall|j: int|
            0 <= j < a.len() ==> #[trigger] b[j].width == a[j].width && b[j].height == a[j].height,
    ensures
        layout(a, info, n) == layout(b, info, n),
    decreases n,
{
    if n > 0 {
        assert forall|j: int| 0 <= j < a.len() implies #[trigger] b[j].width == a[j].width && b[j].height
            == a[j].height by {
            assert(b[j].width == a[j].width);
        }
        lemma_layout_same(a, b, info, n - 1);
        assert(b[n - 1].width == a[n - 1].width && b[n - 1].height == a[n - 1].height);
    }
}

/// The pages depend on the entries' sizes, pixel sizes and bytes alone.
proof fn lemma_pages_same<T>(a: Seq<Entry<T>>, b: Seq<Entry<T>>, buf: Seq<u8>, info: PackerInfo, n: int)
    requires
        0 <= n <= a.len(),
        a.len() == b.len(),
        forall|j: int|
            0 <= j < a.len() ==> #[trigger] b[j].width == a[j].width && b[j].height == a[j].height
                && b[j].bytes_per_pixel == a[j].bytes_per_pixel && b[j].from == a[j].from && b[j].to == a[j].to,
    ensures
        pages_after(a, buf, info, n) == pages_after(b, buf, info, n),
    decreases n,
{
    if n > 0 {
        lemma_pages_same(a, b, buf, info, n - 1);
        assert forall|j: int| 0 <= j < a.len() implies #[trigger] b[j].width == a[j].width && b[j].height
            == a[j].height by {
            assert(b[j].width == a[j].width);
        }
        lemma_layout_same(a, b, info, n);
        assert(b[n - 1].width == a[n - 1].width && b[n - 1].height == a[n - 1].height);
        let p = layout(a, info, n).1[n - 1];
        let prev = pages_after(a, buf, info, n - 1);
        let base = if p.page >= prev.len() {
            prev.push(
                Seq::new(
                    (info.max_size as int * info.max_size as int * a[n - 1].bpp_spec() as int) as nat,
                    |k: int| 0u8,
                ),
            )
        } else {
            prev
        };
        assert(entry_blit(base[p.page], a[n - 1], p, buf, info) == entry_blit(base[p.page], b[n - 1], p, buf, info));
    }
}

/// The bytes of the page that entry `j` is copied onto: as packing the
/// entries before it left that page, or, where the entry opens it, a page of
/// the entry's own pixel size.
pub open spec fn page_len_for<T>(entries: Seq<Entry<T>>, buf: Seq<u8>, info: PackerInfo, j: int) -> int {
    let p = layout(entries, info, j + 1).1[j];
    let prev = pages_after(entries, buf, info, j);
    if p.page >= prev.len() {
        info.max_size as int * info.max_size as int * entries[j].bpp_spec() as int
    } else {
        prev[p.page].len() as int
    }
}

/// Whether packing can copy entry `j`: a page it opens has a size that a
/// `u32` counts, its rows of bytes are counted in a `usize`, and the last
/// byte it writes lies inside its page (a row too long for the page's row
/// goes on into the next one).
pub open spec fn copy_ok<T>(entries: Seq<Entry<T>>, buf: Seq<u8>, info: PackerInfo, j: int) -> bool {
    let p = layout(entries, info, j + 1).1[j];
    let prev = pages_after(entries, buf, info, j);
    let e = entries[j];
    let dw = e.width_spec() as int * info.bytes_per_entry as int;
    &&& p.page >= prev.len() ==> info.max_size as int * info.max_size as int * e.bpp_spec() as int <= u32::MAX
    &&& dw <= usize::MAX
    &&& e.height_spec() > 0 && dw > 0 ==> (p.y + e.height_spec() - 1) * (info.max_size as int
        * info.bytes_per_entry as int) + p.x + dw <= page_len_for(entries, buf, info, j)
}

/// Whether packing can place and copy every entry of `entries`, whose bytes
/// are `buf`: a page's bytes can be counted in a `u32`, each entry's bytes
/// lie in the buffer and are all there, the first entry fits a page with its
/// row padding, each entry can be copied onto its page, and the machine's
/// integers hold every sum that packing computes.
pub open spec fn can_pack<T>(info: PackerInfo, entries: Seq<Entry<T>>, buf: Seq<u8>) -> bool {
    &&& info.max_size as int * info.max_size as int <= u32::MAX
    &&& info.max_size as int * info.max_size as int * info.bytes_per_entry as int <= u32::MAX
    &&& forall|i: int| 0 <= i < entries.len() ==> #[trigger] entries[i].from <= entries[i].to <= buf.len()
    &&& forall|i: int| 0 <= i < entries.len() ==> entry_fits(#[trigger] entries[i], info)
    &&& entries.len() > 0 ==> entries[0].height + 2 * info.spacing + info.row_padding <= info.max_size
    &&& 2 * info.spacing <= u32::MAX
    &&& 2 * (extent(entries, info) + info.row_padding as int) <= usize::MAX
    &&& entries.len() + 2 < usize::MAX
    &&& forall|j: int| 0 <= j < entries.len() ==> #[trigger] copy_ok(entries, buf, info, j)
}

/// Whether `new` is what packing makes of a packer with settings `info`,
/// flag `dirty`, entries `entries` and bytes `buf`: the same settings, flag,
/// bytes and entries, each entry placed where the layout puts it, and the
/// pages holding the copied bitmaps.
pub open spec fn packs_into<T>(
    info: PackerInfo,
    dirty: bool,
    entries: Seq<Entry<T>>,
    buf: Seq<u8>,
    new: &TexturePacker<T>,
) -> bool {
    let n = entries.len() as int;
    let (l, ps) = layout(entries, info, n);
    let pages = pages_after(entries, buf, info, n);
    &&& new.info_spec() == info
    &&& new.is_dirty() == dirty
    &&& new.buf_spec() == buf
    &&& new.wf()
    &&& new.entries_spec().len() == n
    &&& forall|j: int| 0 <= j < n ==> placed_at(entries[j], #[trigger] new.entries_spec()[j], ps[j])
    &&& new.pages_spec().len() == pages.len()
    &&& forall|q: int|
        0 <= q < pages.len() ==> (#[trigger] new.pages_spec()[q])@.pixels == pages[q] && new.pages_spec()[q]@.width
            == info.max_size && new.pages_spec()[q]@.height == info.max_size
}

/// The bytes of the bitmaps `(id, width, height, bytes)`, one after the
/// other.
pub open spec fn bitmap_bytes<T>(items: Seq<(T, u32, u32, Seq<u8>)>) -> Seq<u8>
    decreases items.len(),
{
    if items.len() == 0 {
        Seq::empty()
    } else {
        bitmap_bytes(items.drop_last()) + items.last().3
    }
}

/// The entries that adding the bitmaps `(id, width, height, bytes)` in turn
/// to an empty packer makes: one for each bitmap that has bytes.
pub open spec fn bitmap_entries<T>(items: Seq<(T, u32, u32, Seq<u8>)>) -> Seq<Entry<T>>
    decreases items.len(),
{
    if items.len() == 0 {
        Seq::empty()
    } else {
        let prev = bitmap_entries(items.drop_last());
        let (id, w, h, data) = items.last();
        if data.len() == 0 {
            prev
        } else {
            prev.push(
                TexturePacker::<T>::added_entry(id, w, h, data.len() as int, bitmap_bytes(items.drop_last()).len() as int),
            )
        }
    }
}

/// Whether one of the bitmaps has bytes.
pub open spec fn has_bitmap<T>(items: Seq<(T, u32, u32, Seq<u8>)>) -> bool
    decreases items.len(),
{
    if items.len() == 0 {
        false
    } else {
        has_bitmap(items.drop_last()) || items.last().3.len() > 0
    }
}

/// A prefix of the bitmaps has no more bytes than all of them.
pub proof fn lemma_bitmap_bytes_prefix<T>(items: Seq<(T, u32, u32, Seq<u8>)>, k: int)
    requires
        0 <= k <= items.len(),
    ensures
        bitmap_bytes(items.take(k)).len() <= bitmap_bytes(items).len(),
    decreases items.len(),
{
    if k == items.len() {
        assert(items.take(k) =~= items);
    } else {
        assert(items.drop_last().take(k) =~= items.take(k));
        lemma_bitmap_bytes_prefix(items.drop_last(), k);
    }
}

/// Packs bitmaps into square pages, row by row: each bitmap goes to the end
/// of the first row that has room for it, or else into a new row on the
/// first page with room for one, or else onto a new page. The bytes of a
/// bitmap row that is too long for the rest of its page row run on into the
/// next page row.
pub struct TexturePacker<T> {
    info: PackerInfo,
    dirty: bool,
    entries: Vec<Entry<T>>,
    buf: Vec<u8>,
    pages: Vec<Image>,
}

impl<T> TexturePacker<T> {
    /// How the packer lays out its pages.
    pub closed spec fn info_spec(&self) -> PackerInfo {
        self.info
    }

    /// The entries, in the order they were added.
    pub closed spec fn entries_spec(&self) -> Seq<Entry<T>> {
        self.entries@
    }

    /// The bytes of all bitmaps added, one after the other.
    pub closed spec fn buf_spec(&self) -> Seq<u8> {
        self.buf@
    }

    /// The pages made by the last packing.
    pub closed spec fn pages_spec(&self) -> Seq<Image> {
        self.pages@
    }

    /// Whether entries were added since the last clearing.
    pub closed spec fn is_dirty(&self) -> bool {
        self.dirty
    }

    /// The packer's invariant: a page's bytes can be counted in a `u32`, and
    /// each entry's bytes lie in the buffer.
    pub closed spec fn wf(&self) -> bool {
        &&& self.info.max_size as int * self.info.max_size as int <= u32::MAX
        &&& self.info.max_size as int * self.info.max_size as int * self.info.bytes_per_entry as int <= u32::MAX
        &&& forall|i: int|
            0 <= i < self.entries@.len() ==> #[trigger] self.entries@[i].from <= self.entries@[i].to
                <= self.buf@.len()
    }

    /// Whether packing can place and copy every entry: see `can_pack`.
    pub open spec fn packable(&self) -> bool {
        can_pack(self.info_spec(), self.entries_spec(), self.buf_spec())
    }

    /// Whether `new` is this packer after packing: see `packs_into`.
    pub open spec fn packed(&self, new: &Self) -> bool {
        packs_into(self.info_spec(), self.is_dirty(), self.entries_spec(), self.buf_spec(), new)
    }


    /// A packer with no entries and no pages.
    pub fn new(info: &PackerInfo) -> (packer: Self)
        requires
            info.max_size as int * info.max_size as int <= u32::MAX,
            info.max_size as int * info.max_size as int * info.bytes_per_entry as int <= u32::MAX,
        ensures
            packer.wf(),
            packer.info_spec() == *info,
            !packer.is_dirty(),
            packer.entries_spec().len() == 0,
            packer.buf_spec().len() == 0,
            packer.pages_spec().len() == 0,
    {
        let size = info.max_size * info.max_size;
        TexturePacker {
            info: *info,
            dirty: false,
            entries: Vec::with_capacity((size / 32) as usize),
            buf: Vec::with_capacity((size * info.bytes_per_entry) as usize),
            pages: Vec::new(),
        }
    }

    /// The entry that `add` makes of a bitmap of `len` bytes whose bytes
    /// start at `from` in the buffer: its pixel size is worked out from the
    /// length, and it is not placed yet.
    pub open spec fn added_entry(id: T, width: u32, height: u32, len: int, from: int) -> Entry<T> {
        Entry {
            id,
            width,
            height,
            bytes_per_pixel: ((len as u32) / (width * height) as u32) as u32,
            from: from as usize,
            to: (from + len) as usize,
            page: 0,
            tex_rect: TexRect { position: PixelPos { x: 0, y: 0 }, size: PixelPos { x: 0, y: 0 } },
        }
    }

    /// Adds a bitmap of `width` by `height` pixels; an empty bitmap is not
    /// added. Its pixel size is its length divided by its number of pixels.
    #[verifier::spinoff_prover]
    pub fn add(&mut self, id: T, width: u32, height: u32, data: &[u8])
        requires
            old(self).wf(),
            data@.len() > 0 ==> 0 < width as int * height as int <= u32::MAX,
        ensures
            final(self).wf(),
            final(self).info_spec() == old(self).info_spec(),
            final(self).pages_spec() == old(self).pages_spec(),
            data@.len() == 0 ==> final(self).entries_spec() == old(self).entries_spec() && final(self).buf_spec()
                == old(self).buf_spec() && final(self).is_dirty() == old(self).is_dirty(),
            data@.len() > 0 ==> final(self).entries_spec() == old(self).entries_spec().push(
                Self::added_entry(id, width, height, data@.len() as int, old(self).buf_spec().len() as int),
            ) && final(self).buf_spec() == old(self).buf_spec() + data@ && final(self).is_dirty(),
    {
        let len = crate::bytes::slice_len(data);
        if len == 0 {
            return;
        }
        let start = crate::bytes::slice_len(self.buf.as_slice());
        self.dirty = true;
        let entry = Entry {
            id,
            width,
            height,
            bytes_per_pixel: len as u32 / (width * height),
            from: start,
            to: start + len,
            page: 0,
            tex_rect: TexRect { position: PixelPos { x: 0, y: 0 }, size: PixelPos { x: 0, y: 0 } },
        };
        self.entries.push(entry);
        crate::bytes::append_bytes(&mut self.buf, data);
        proof {
            assert(start == old(self).buf@.len());
            assert(self.buf@.len() == start + len);
            assert forall|i: int| 0 <= i < self.entries@.len() implies #[trigger] self.entries@[i].from
                <= self.entries@[i].to <= self.buf@.len() by {
                if i < old(self).entries@.len() {
                    assert(self.entries@[i] == old(self).entries@[i]);
                    assert(old(self).entries@[i].from <= old(self).entries@[i].to <= old(self).buf@.len());
                } else {
                    assert(self.entries@[i].from == start && self.entries@[i].to == start + len);
                }
            }
        }
    }

    /// The pages made by the last packing.
    pub fn pages(&self) -> (pages: &[Image])
        ensures
            pages@ == self.pages_spec(),
    {
        self.pages.as_slice()
    }

    /// The entries, in the order they were added.
    pub fn entries(&self) -> (entries: &[Entry<T>])
        ensures
            entries@ == self.entries_spec(),
    {
        self.entries.as_slice()
    }

    /// Removes all entries, their bytes and the pages.
    pub fn clear(&mut self)
        ensures
            old(self).wf() ==> final(self).wf(),
            final(self).info_spec() == old(self).info_spec(),
            !final(self).is_dirty(),
            final(self).entries_spec().len() == 0,
            final(self).buf_spec().len() == 0,
            final(self).pages_spec().len() == 0,
    {
        self.dirty = false;
        self.entries.clear();
        self.buf.clear();
        self.pages.clear();
    }

    /// Whether `pack` can run on this packer: the check that callers make
    /// before packing entries of unknown sizes. It lays the entries out as
    /// packing does, and follows the byte count of each page.
    pub fn is_packable(&self) -> (b: bool)
        requires
            self.wf(),
        ensures
            b == self.packable(),
    {
        let ghost e0 = self.entries@;
        let ghost buf0 = self.buf@;
        let info = self.info;
        let n = self.entries.len();
        let s = info.spacing;
        let max = info.max_size;
        let pad = info.row_padding;
        let bpe = info.bytes_per_entry;
        if 2 * (s as u64) > 0xffff_ffff {
            return false;
        }
        if n >= usize::MAX - 2 {
            return false;
        }
        if n > 0 && self.entries[0].height as u64 + 2 * s as u64 + pad as u64 > max as u64 {
            return false;
        }
        let mut ext: u64 = max as u64 + 2 * s as u64;
        let mut k: usize = 0;
        while k < n
            invariant
                0 <= k <= n,
                n == e0.len(),
                e0 == self.entries@,
                info == self.info,
                s == info.spacing,
                max == info.max_size,
                2 * info.spacing <= u32::MAX,
                ext as int == extent(e0.take(k as int), info),
                ext <= 0xffff_ffff + 0xffff_ffff,
            decreases n - k,
        {
            let w: u64 = self.entries[k].width as u64 + 2 * s as u64;
            let h: u64 = self.entries[k].height as u64 + 2 * s as u64;
            let m: u64 = if w > h {
                w
            } else {
                h
            };
            proof {
                assert(e0.take(k as int + 1).drop_last() =~= e0.take(k as int));
                assert(e0.take(k as int + 1).last() == e0[k as int]);
            }
            if m > ext {
                ext = m;
            }
            k = k + 1;
        }
        proof {
            assert(e0.take(n as int) =~= e0);
            lemma_extent(e0, info);
        }
        if 2 * (ext as u128 + pad as u128) > usize::MAX as u128 {
            return false;
        }
        let ghost xt = extent(e0, info);
        let mut rows: Vec<Row> = Vec::new();
        let mut lens: Vec<usize> = Vec::new();
        let mut last_page: usize = 0;
        let mut i: usize = 0;
        assert(max as int <= 65536) by (nonlinear_arith)
            requires
                max as int * max as int <= u32::MAX,
                max >= 0,
        ;
        while i < n
            invariant
                0 <= i <= n,
                n == e0.len(),
                e0 == self.entries@,
                buf0 == self.buf@,
                info == self.info,
                s == info.spacing,
                max == info.max_size,
                pad == info.row_padding,
                bpe == info.bytes_per_entry,
                self.wf(),
                max <= 65536,
                n > 0 ==> e0[0].height_spec() + 2 * info.spacing + info.row_padding <= info.max_size,
                2 * info.spacing <= u32::MAX,
                2 * (xt + info.row_padding as int) <= usize::MAX,
                xt == extent(e0, info),
                n + 2 < usize::MAX,
                forall|j: int| 0 <= j < i ==> entry_fits(#[trigger] e0[j], info),
                forall|j: int| 0 <= j < i ==> #[trigger] copy_ok(e0, buf0, info, j),
                rows_view(rows@) == layout(e0, info, i as int).0.rows,
                last_page == layout(e0, info, i as int).0.last_page,
                layout_ok(layout(e0, info, i as int).0, max as int, xt, pad as int),
                rows@.len() <= i,
                layout(e0, info, i as int).1.len() == i,
                i == 0 ==> lens@.len() == 0 && last_page == 0 && rows@.len() == 0,
                i > 0 ==> lens@.len() == last_page + 1,
                lens@.len() == pages_after(e0, buf0, info, i as int).len(),
                forall|q: int|
                    0 <= q < lens@.len() ==> #[trigger] lens@[q] == pages_after(e0, buf0, info, i as int)[q].len()
                        && lens@[q] <= u32::MAX,
            decreases n - i,
        {
            let ghost l = layout(e0, info, i as int).0;
            let ew = self.entries[i].width;
            let eh = self.entries[i].height;
            let ebpp = self.entries[i].bytes_per_pixel;
            let efrom = self.entries[i].from;
            let eto = self.entries[i].to;
            assert(ew as int * eh as int <= 0xffff_ffff_ffff_ffff) by (nonlinear_arith)
                requires
                    ew <= 0xffff_ffff,
                    eh <= 0xffff_ffff,
            ;
            assert(ew as int * eh as int * bpe as int <= 0xffff_ffff_ffff_ffff_ffff_ffff) by (nonlinear_arith)
                requires
                    ew as int * eh as int <= 0xffff_ffff_ffff_ffff,
                    bpe <= 0xffff_ffff,
            ;
            if ((eto - efrom) as u128) < ew as u128 * eh as u128 * bpe as u128 {
                assert(!entry_fits(e0[i as int], info));
                return false;
            }
            proof {
                lemma_extent(e0, info);
                assert(e0[i as int].width_spec() + 2 * info.spacing <= xt);
                assert(e0[i as int].height_spec() + 2 * info.spacing <= xt);
                lemma_step_ok(l, ew as int, eh as int, info, xt);
                if i == 0 {
                    let rh = eh as int + 2 * s as int + pad as int;
                    assert(l.rows.len() == 0);
                    assert(first_row_from(l.rows, 0, ew as int + 2 * s as int, eh as int + 2 * s as int, max as int) is None);
                    assert(page_top(l.rows, 0) == 0);
                    assert(first_page_from(l.rows, 0, 0, rh, max as int) == Some(0int));
                }
            }
            let width: usize = ew as usize + (s * 2) as usize;
            let height: usize = eh as usize + (s * 2) as usize;
            let idx = get_or_insert_row(
                &mut rows,
                width,
                height,
                pad as usize,
                max as usize,
                &mut last_page,
                Ghost(xt),
            );
            let r = rows[idx];
            assert(rows_view(rows@)[idx as int] == r@);
            let page = r.page;
            let x = r.width + s as usize;
            let y = r.top + s as usize;
            let ghost pl = Placement { page: page as int, x: x as int, y: y as int, row: idx as int };
            let ghost (l2, p2) = step(l, ew as int, eh as int, info);
            assert(pl == p2);
            rows.set(idx, Row { page: r.page, top: r.top, width: r.width + width, height: r.height });
            proof {
                assert(rows_view(rows@) =~= l2.rows);
                lemma_layout_prefix(e0, info, i as int, i as int + 1);
            }
            let ghost prev = pages_after(e0, buf0, info, i as int);
            assert(i == 0 ==> pl.page == 0);
            assert(pl.page <= prev.len());
            assert(layout(e0, info, i as int + 1).1[i as int] == pl);
            assert(max as int * max as int * ebpp as int <= 0xffff_ffff_ffff_ffff) by (nonlinear_arith)
                requires
                    max <= 65536,
                    ebpp <= 0xffff_ffff,
            ;
            let opens = page >= lens.len();
            let plen: u128 = if opens {
                max as u128 * max as u128 * ebpp as u128
            } else {
                lens[page] as u128
            };
            assert(plen == page_len_for(e0, buf0, info, i as int));
            if opens && plen > 0xffff_ffff {
                assert(!copy_ok(e0, buf0, info, i as int));
                return false;
            }
            assert(ew as int * bpe as int <= 0xffff_ffff_ffff_ffff) by (nonlinear_arith)
                requires
                    ew <= 0xffff_ffff,
                    bpe <= 0xffff_ffff,
            ;
            let dw: u128 = ew as u128 * bpe as u128;
            if dw > usize::MAX as u128 {
                assert(!copy_ok(e0, buf0, info, i as int));
                return false;
            }
            if eh > 0 && dw > 0 {
                assert(y as int <= max as int + s as int);
                assert(x as int <= max as int + s as int);
                assert(max as int * bpe as int <= 0x1_0000_0000_0000) by (nonlinear_arith)
                    requires
                        max <= 65536,
                        bpe <= 0xffff_ffff,
                ;
                let mb: u128 = max as u128 * bpe as u128;
                let last: u128 = y as u128 + eh as u128 - 1;
                assert(last * mb <= 0x1_0000_0000_0000 * 0x4_0000_0000) by (nonlinear_arith)
                    requires
                        last <= 0x4_0000_0000,
                        mb <= 0x1_0000_0000_0000,
                ;
                if last * mb + x as u128 + dw > plen {
                    assert(!copy_ok(e0, buf0, info, i as int));
                    return false;
                }
            }
            if opens {
                lens.push(plen as usize);
            }
            proof {
                let nxt = pages_after(e0, buf0, info, i as int + 1);
                let e = e0[i as int];
                let base = if pl.page >= prev.len() {
                    prev.push(Seq::new((max as int * max as int * e.bpp_spec() as int) as nat, |k: int| 0u8))
                } else {
                    prev
                };
                assert(nxt == base.update(pl.page, entry_blit(base[pl.page], e, pl, buf0, info)));
                lemma_blit_len(
                    base[pl.page],
                    buf0,
                    e.from_spec() as int,
                    max as int * bpe as int,
                    e.width_spec() as int * bpe as int,
                    e.height_spec() as int,
                    pl.x,
                    pl.y,
                );
                assert(copy_ok(e0, buf0, info, i as int));
                assert forall|q: int| 0 <= q < lens@.len() implies #[trigger] lens@[q] == nxt[q].len()
                    && lens@[q] <= u32::MAX by {
                    if q != pl.page {
                        assert(nxt[q] == base[q]);
                    }
                }
            }
            i = i + 1;
        }
        true
    }

    /// Packing places each entry on a page that it made, at least `spacing`
    /// pixels in from its top and left edges, and inside the page in each
    /// direction in which the entry fits the page with the spacing before
    /// it; and it keeps the entries of a page apart: with a margin of
    /// `spacing` pixels around each, no two overlap.
    pub proof fn lemma_packed_apart(before: &Self, after: &Self)
        requires
            before.packable(),
            before.packed(after),
        ensures
            ({
                let es = after.entries_spec();
                let s = after.info_spec().spacing as int;
                let max = after.info_spec().max_size as int;
                &&& forall|j: int|
                    0 <= j < es.len() ==> {
                        let r = (#[trigger] es[j]).tex_rect;
                        &&& es[j].page < after.pages_spec().len()
                        &&& s <= r.position.x
                        &&& s <= r.position.y
                        &&& r.size.x + s <= max ==> r.position.x + r.size.x <= max
                        &&& r.size.y + s <= max ==> r.position.y + r.size.y <= max
                    }
                &&& forall|j: int, k: int|
                    0 <= j < k < es.len() && (#[trigger] es[j]).page == (#[trigger] es[k]).page ==> {
                        let a = es[j].tex_rect;
                        let b = es[k].tex_rect;
                        ||| a.position.x + a.size.x + s <= b.position.x - s
                        ||| b.position.x + b.size.x + s <= a.position.x - s
                        ||| a.position.y + a.size.y + s <= b.position.y - s
                        ||| b.position.y + b.size.y + s <= a.position.y - s
                    }
            }),
    {
        lemma_layout_apart(before.entries@, before.buf@, before.info);
        let ps = layout(before.entries@, before.info, before.entries@.len() as int).1;
        assert forall|j: int| 0 <= j < after.entries@.len() implies placed_at(
            before.entries@[j],
            #[trigger] after.entries@[j],
            ps[j],
        ) by {}
    }

    /// Packing keeps the entries, in order and with their ids and sizes, and
    /// opens exactly the pages its entries use: none for no entries, else
    /// one more than the highest page an entry went to.
    pub proof fn lemma_packed_pages(before: &Self, after: &Self)
        requires
            before.packable(),
            before.packed(after),
        ensures
            after.entries_spec().len() == before.entries_spec().len(),
            forall|j: int|
                0 <= j < after.entries_spec().len() ==> (#[trigger] after.entries_spec()[j]).id
                    == before.entries_spec()[j].id && after.entries_spec()[j].width == before.entries_spec()[j].width
                    && after.entries_spec()[j].height == before.entries_spec()[j].height,
            after.entries_spec().len() == 0 ==> after.pages_spec().len() == 0,
            after.entries_spec().len() > 0 ==> (forall|j: int|
                0 <= j < after.entries_spec().len() ==> (#[trigger] after.entries_spec()[j]).page + 1
                    <= after.pages_spec().len()) && exists|j: int|
                0 <= j < after.entries_spec().len() && (#[trigger] after.entries_spec()[j]).page + 1
                    == after.pages_spec().len(),
    {
        let es = before.entries@;
        let n = es.len() as int;
        lemma_layout_inv(es, before.buf@, before.info, n);
        let ps = layout(es, before.info, n).1;
        assert forall|j: int| 0 <= j < n implies placed_at(es[j], #[trigger] after.entries@[j], ps[j]) by {}
        if n > 0 {
            lemma_last_page_used(es, before.buf@, before.info, n);
            let j = choose|j: int| 0 <= j < n && (#[trigger] layout(es, before.info, n).1[j]).page == layout(es, before.info, n).0.last_page;
            assert(placed_at(es[j], after.entries@[j], ps[j]));
        }
    }

    /// Whether byte `(xx, yy)` of entry `j`'s bitmap can be read back from
    /// its page at its place: rows of `max_size` bytes, one byte per pixel.
    pub open spec fn reads_back(&self, j: int, yy: int, xx: int) -> bool {
        let e = self.entries_spec()[j];
        let r = e.tex_rect;
        let k = (r.position.y + yy) * self.info_spec().max_size + r.position.x + xx;
        &&& e.page < self.pages_spec().len()
        &&& k < self.pages_spec()[e.page as int]@.pixels.len()
        &&& self.pages_spec()[e.page as int]@.pixels[k] == self.buf_spec()[e.from + yy * e.width + xx]
    }

    /// With one byte per pixel, where every bitmap fits a page with the
    /// spacing before it and has a pixel size of at least one byte, packing
    /// writes every entry's bitmap onto its page where it placed it: each of
    /// its bytes can be read back there. (A bitmap wider than that runs on
    /// into the next pixel rows, over its own bytes and its neighbours'.)
    pub proof fn lemma_packed_read_back(before: &Self, after: &Self)
        requires
            before.packable(),
            before.packed(after),
            before.info_spec().bytes_per_entry == 1,
            forall|j: int|
                0 <= j < before.entries_spec().len() ==> (#[trigger] before.entries_spec()[j]).width
                    + before.info_spec().spacing <= before.info_spec().max_size && before.entries_spec()[j].height
                    + before.info_spec().spacing <= before.info_spec().max_size
                    && before.entries_spec()[j].bytes_per_pixel >= 1,
        ensures
            forall|j: int, yy: int, xx: int|
                0 <= j < after.entries_spec().len() && 0 <= yy < after.entries_spec()[j].height && 0 <= xx
                    < after.entries_spec()[j].width ==> #[trigger] after.reads_back(j, yy, xx),
    {
        let n = before.entries@.len() as int;
        let info = before.info;
        lemma_pages_hold_bitmaps(before.entries@, before.buf@, info, n);
        lemma_layout_apart(before.entries@, before.buf@, info);
        let ps = layout(before.entries@, info, n).1;
        let pages = pages_after(before.entries@, before.buf@, info, n);
        assert forall|j: int, yy: int, xx: int|
            0 <= j < after.entries_spec().len() && 0 <= yy < after.entries_spec()[j].height && 0 <= xx
                < after.entries_spec()[j].width implies #[trigger] after.reads_back(j, yy, xx) by {
            let e0 = before.entries@[j];
            let pj = ps[j];
            assert(placed_at(e0, after.entries@[j], pj));
            assert(holds_bitmap(pages[pj.page], e0, pj, before.buf@, info));
            let max = info.max_size as int;
            assert(e0.width + info.spacing <= max && e0.height + info.spacing <= max);
            assert(pj.x + e0.width <= max && pj.y + e0.height <= max);
            assert((pj.y + yy) * max + pj.x + xx < max * max) by (nonlinear_arith)
                requires
                    0 <= pj.y + yy < max,
                    0 <= pj.x + xx < max,
            ;
        }
    }

    /// After packing, the packer can be packed again, and packing again
    /// changes nothing: the same placements and the same page bytes.
    pub proof fn lemma_pack_twice(first: &Self, second: &Self, third: &Self)
        requires
            first.packable(),
            first.packed(second),
        ensures
            second.packable(),
            second.packed(third) ==> third.entries_spec() == second.entries_spec() && third.pages_spec().len()
                == second.pages_spec().len() && forall|q: int|
                0 <= q < third.pages_spec().len() ==> (#[trigger] third.pages_spec()[q])@ == second.pages_spec()[q]@,
    {
        let n = first.entries@.len() as int;
        let e1 = first.entries@;
        let e2 = second.entries@;
        let info = first.info;
        let ps = layout(e1, info, n).1;
        assert forall|j: int| 0 <= j < n implies #[trigger] e2[j].width == e1[j].width && e2[j].height
            == e1[j].height && e2[j].bytes_per_pixel == e1[j].bytes_per_pixel && e2[j].from == e1[j].from
            && e2[j].to == e1[j].to by {
            assert(placed_at(e1[j], e2[j], ps[j]));
        }
        assert forall|j: int| 0 <= j < e2.len() implies entry_fits(#[trigger] e2[j], info) by {
            assert(entry_fits(e1[j], info));
        }
        if n > 0 {
            assert(e2[0].height == e1[0].height);
        }
        lemma_layout_same(e1, e2, info, n);
        lemma_pages_same(e1, e2, first.buf@, info, n);
        lemma_extent_same(e1, e2, info);
        assert forall|j: int| 0 <= j < n implies #[trigger] copy_ok(e2, first.buf@, info, j) by {
            assert(copy_ok(e1, first.buf@, info, j));
            lemma_layout_same(e1, e2, info, j + 1);
            lemma_pages_same(e1, e2, first.buf@, info, j);
            assert(page_len_for(e1, first.buf@, info, j) == page_len_for(e2, first.buf@, info, j));
        }
        assert forall|j: int| 0 <= j < n implies #[trigger] e2[j].from <= e2[j].to <= first.buf@.len() by {
            assert(e1[j].from <= e1[j].to <= first.buf@.len());
        }
        if second.packed(third) {
            let e3 = third.entries@;
            assert forall|j: int| 0 <= j < n implies #[trigger] e3[j] == e2[j] by {
                assert(placed_at(e1[j], e2[j], ps[j]));
                assert(placed_at(e2[j], e3[j], ps[j]));
            }
            assert(e3 =~= e2);
        }
    }

    /// Packing reads only the settings, the flag, the entries and the bytes:
    /// two packers that agree on them can both be packed or neither, and pack
    /// into the same packers. So adding an empty bitmap, which changes none
    /// of them, changes no later packing.
    pub proof fn lemma_same_packing(a: &Self, b: &Self, c: &Self)
        requires
            a.info_spec() == b.info_spec(),
            a.is_dirty() == b.is_dirty(),
            a.entries_spec() == b.entries_spec(),
            a.buf_spec() == b.buf_spec(),
        ensures
            a.packable() == b.packable(),
            a.packed(c) == b.packed(c),
    {
    }

    /// Packs all entries anew: places each bitmap and copies it onto its page.
    pub fn pack(&mut self)
        requires
            old(self).packable(),
        ensures
            old(self).packed(final(self)),
    {
        let ghost e0 = self.entries@;
        let ghost buf0 = self.buf@;
        let ghost info = self.info;
        let n = self.entries.len();
        self.pages.clear();
        let mut rows: Vec<Row> = Vec::new();
        let mut last_page: usize = 0;
        let mut i: usize = 0;
        let s = self.info.spacing;
        let max = self.info.max_size;
        let pad = self.info.row_padding;
        let bpe = self.info.bytes_per_entry;
        while i < n
            invariant
                0 <= i <= n,
                n == e0.len(),
                info == self.info,
                s == info.spacing,
                max == info.max_size,
                pad == info.row_padding,
                bpe == info.bytes_per_entry,
                buf0 == self.buf@,
                self.dirty == old(self).dirty,
                e0 == old(self).entries@,
                buf0 == old(self).buf@,
                info == old(self).info,
                forall|j: int| 0 <= j < n ==> entry_fits(#[trigger] e0[j], info),
                n > 0 ==> e0[0].height_spec() + 2 * info.spacing + info.row_padding <= info.max_size,
                2 * info.spacing <= u32::MAX,
                2 * (extent(e0, info) + info.row_padding as int) <= usize::MAX,
                forall|j: int| 0 <= j < n ==> #[trigger] copy_ok(e0, buf0, info, j),
                n + 2 < usize::MAX,
                info.max_size as int * info.max_size as int * info.bytes_per_entry as int <= u32::MAX,
                info.max_size as int * info.max_size as int <= u32::MAX,
                forall|j: int| 0 <= j < n ==> #[trigger] e0[j].from <= e0[j].to <= buf0.len(),
                self.entries@.len() == n,
                forall|j: int| 0 <= j < i ==> placed_at(e0[j], #[trigger] self.entries@[j], layout(e0, info, i as int).1[j]),
                forall|j: int| i <= j < n ==> #[trigger] self.entries@[j] == e0[j],
                rows_view(rows@) == layout(e0, info, i as int).0.rows,
                last_page == layout(e0, info, i as int).0.last_page,
                layout_ok(layout(e0, info, i as int).0, max as int, extent(e0, info), pad as int),
                rows@.len() <= i,
                layout(e0, info, i as int).1.len() == i,
                i == 0 ==> self.pages@.len() == 0 && last_page == 0 && rows@.len() == 0,
                i > 0 ==> self.pages@.len() == last_page + 1,
                self.pages@.len() == pages_after(e0, buf0, info, i as int).len(),
                forall|q: int|
                    0 <= q < self.pages@.len() ==> (#[trigger] self.pages@[q])@.pixels == pages_after(e0, buf0, info, i as int)[q]
                        && self.pages@[q]@.width == max && self.pages@[q]@.height == max
                        && self.pages@[q]@.pixels.len() <= u32::MAX
                        && (max == 0 ==> self.pages@[q]@.pixels.len() == 0),
            decreases n - i,
        {
            let ghost l = layout(e0, info, i as int).0;
            let ew = self.entries[i].width;
            let eh = self.entries[i].height;
            let efrom = self.entries[i].from;
            let ebpp = self.entries[i].bytes_per_pixel;
            assert(entry_fits(e0[i as int], info));
            proof {
                lemma_extent(e0, info);
                assert(e0[i as int].width_spec() + 2 * info.spacing <= extent(e0, info));
                assert(e0[i as int].height_spec() + 2 * info.spacing <= extent(e0, info));
            }
            let width: usize = ew as usize + (s * 2) as usize;
            let height: usize = eh as usize + (s * 2) as usize;
            let ghost old_last = last_page as int;
            proof {
                lemma_extent(e0, info);
                assert(e0[i as int].width_spec() + 2 * info.spacing <= extent(e0, info));
                lemma_step_ok(l, ew as int, eh as int, info, extent(e0, info));
                assert(max as int <= 65536) by (nonlinear_arith)
                    requires
                        max as int * max as int <= u32::MAX,
                        max >= 0,
                ;
                if i == 0 {
                    let rh = eh as int + 2 * s as int + pad as int;
                    assert(l.rows.len() == 0);
                    assert(first_row_from(l.rows, 0, ew as int + 2 * s as int, eh as int + 2 * s as int, max as int) is None);
                    assert(page_top(l.rows, 0) == 0);
                    assert(first_page_from(l.rows, 0, 0, rh, max as int) == Some(0int));
                }
            }
            let idx = get_or_insert_row(
                &mut rows,
                width,
                height,
                pad as usize,
                max as usize,
                &mut last_page,
                Ghost(extent(e0, info)),
            );
            let ghost l1 = insert_row(l, width as int, height as int, pad as int, max as int).0;
            let r = rows[idx];
            assert(rows_view(rows@)[idx as int] == r@);
            let page = r.page;
            let x = r.width + s as usize;
            let y = r.top + s as usize;
            let ghost pl = Placement { page: page as int, x: x as int, y: y as int, row: idx as int };
            let ghost (l2, p2) = step(l, ew as int, eh as int, info);
            assert(pl == p2);
            assert(x as int <= u32::MAX && y as int <= u32::MAX);
            self.entries[i].page = page;
            self.entries[i].tex_rect = TexRect {
                position: PixelPos { x: x as u32, y: y as u32 },
                size: PixelPos { x: ew, y: eh },
            };
            rows.set(idx, Row { page: r.page, top: r.top, width: r.width + width, height: r.height });
            proof {
                assert(rows_view(rows@) =~= l2.rows);
                lemma_layout_prefix(e0, info, i as int, i as int + 1);
            }
            let ghost prev = pages_after(e0, buf0, info, i as int);
            let ghost e = e0[i as int];
            assert(i == 0 ==> pl.page == 0);
            assert(pl.page <= prev.len());
            assert(copy_ok(e0, buf0, info, i as int));
            assert(layout(e0, info, i as int + 1).1[i as int] == pl);
            if page >= self.pages.len() {
                let size = max;
                proof {
                    lemma_mul_le(0, size as int, size as int);
                    lemma_mul_le(0, ebpp as int, size as int * size as int);
                }
                let zeros = vec![0u8; (size * size * ebpp) as usize];
                let ghost zs = Seq::new((max as int * max as int * ebpp as int) as nat, |k: int| 0u8);
                assert(zeros@ =~= zs);
                self.pages.push(Image::from_pixels(size, size, cast_bytes(&zeros)));
                assert(self.pages@[page as int]@.pixels == zs);
            }
            let ghost base = if pl.page >= prev.len() { prev.push(Seq::new((max as int * max as int * ebpp as int) as nat, |k: int| 0u8)) } else { prev };
            assert(self.pages@.len() == base.len());
            assert(forall|q: int| 0 <= q < base.len() ==> (#[trigger] self.pages@[q])@.pixels == base[q]);
            assert(base[page as int].len() == page_len_for(e0, buf0, info, i as int));
            proof {
                if pl.page >= prev.len() {
                    assert(max as int * max as int * e.bpp_spec() as int <= u32::MAX);
                    assert(base[page as int].len() == max as int * max as int * ebpp as int);
                } else {
                    assert(base[page as int] == self.pages@[page as int]@.pixels);
                }
            }
            assert(base[page as int].len() <= u32::MAX);
            proof {
                if max == 0 {
                    if pl.page >= prev.len() {
                        assert(max as int * max as int * ebpp as int == 0) by (nonlinear_arith)
                            requires
                                max == 0,
                        ;
                    }
                    assert(base[page as int].len() == 0);
                }
            }
            proof {
                if max >= 1 {
                    lemma_mul_le(1, max as int, max as int * bpe as int);
                    assert(max as int * (max as int * bpe as int) == max as int * max as int * bpe as int) by (nonlinear_arith);
                } else {
                    assert(max as int * bpe as int == 0) by (nonlinear_arith)
                        requires
                            max == 0,
                    ;
                }
            }
            let image_width = max as usize * bpe as usize;
            let data_width = ew as usize * bpe as usize;
            if data_width > 0 && eh > 0 {
                proof {
                    if max == 0 {
                        assert(base[page as int].len() == 0);
                        assert(false);
                    }
                    assert(bpe >= 1) by (nonlinear_arith)
                        requires
                            ew as int * bpe as int > 0,
                            bpe >= 0,
                    ;
                    lemma_mul_le(1, max as int, bpe as int);
                    assert(eh as int * (ew as int * bpe as int) == ew as int * eh as int * bpe as int) by (nonlinear_arith);
                    assert(e.height_spec() > 0 && e.width_spec() as int * info.bytes_per_entry as int > 0);
                    assert((y as int + eh as int - 1) * (max as int * bpe as int) + x as int + data_width as int
                        <= page_len_for(e0, buf0, info, i as int));
                    assert(self.pages@[page as int]@.pixels.len() == base[page as int].len());
                    assert(efrom as int + eh as int * data_width as int <= e.to_spec());
                    assert(e.to_spec() <= buf0.len());
                }
                blit_entry(&mut self.pages[page], &self.buf, efrom, x, y, eh as usize, image_width, data_width);
            } else {
                proof {
                    lemma_blit_empty(base[page as int], buf0, efrom as int, image_width as int, data_width as int, eh as int, x as int, y as int);
                }
            }
            proof {
                lemma_blit_len(base[page as int], buf0, efrom as int, image_width as int, data_width as int, eh as int, x as int, y as int);
            }
            proof {
                let ghost nxt = pages_after(e0, buf0, info, i as int + 1);
                assert(layout(e0, info, i as int + 1).1[i as int] == pl);
                assert(nxt == base.update(page as int, entry_blit(base[page as int], e, pl, buf0, info)));
                assert forall|q: int| 0 <= q < self.pages@.len() implies (#[trigger] self.pages@[q])@.pixels == nxt[q]
                    && self.pages@[q]@.width == max && self.pages@[q]@.height == max
                    && self.pages@[q]@.pixels.len() <= u32::MAX && (max == 0 ==> self.pages@[q]@.pixels.len() == 0) by {
                    if q != page as int {
                        assert(self.pages@[q]@.pixels == base[q]);
                    }
                }
            }
            i = i + 1;
        }
        proof {
            assert forall|j: int| 0 <= j < self.entries@.len() implies #[trigger] self.entries@[j].from
                <= self.entries@[j].to <= self.buf@.len() by {
                assert(placed_at(e0[j], self.entries@[j], layout(e0, info, n as int).1[j]));
                assert(e0[j].from <= e0[j].to <= buf0.len());
            }
        }
    }
}

} // verus!
