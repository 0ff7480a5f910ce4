//! The glyph atlas: packing of glyph bitmaps into pages of one byte per texel, and which parts of
//! the pages have to be uploaded.

use crate::builtin_font;
use crate::canvas;
use std::collections::HashMap;
use vstd::prelude::*;

verus! {

broadcast use vstd::std_specs::hash::group_hash_axioms;

/// The largest side of a page, so that the places of texels can be held in 32 bits.
pub const MAX_PAGE_SIDE: u32 = 0x8000;

/// The largest side of a bitmap, so that its pixels can be counted in 32 bits.
pub const MAX_GLYPH_SIDE: u32 = 0xffff;

/// Cached information about a rasterized glyph in the atlas.
#[derive(Debug, Clone, Copy, PartialEq, Eq, Structural)]
pub struct GlyphInfo {
    /// Atlas page containing this glyph.
    pub atlas_idx: u16,
    /// Top-left position in the atlas texture (texels).
    pub atlas_x: u32,
    pub atlas_y: u32,
    /// Bitmap size (texels).
    pub width: u32,
    pub height: u32,
    /// Offset from the cell's top-left to the glyph bitmap's top-left (pixels).
    pub offset_x: i32,
    pub offset_y: i32,
}

/// One CPU-side atlas page and its row-packing state.
#[derive(Debug)]
pub struct AtlasPage {
    /// R8 pixel data (one byte per texel = coverage alpha).
    pub data: Vec<u8>,
    /// True when `data` has been modified since the last GPU upload.
    pub dirty: bool,
    /// Dirty region (Y range in texel rows) for incremental upload.
    pub dirty_y_min: u32,
    pub dirty_y_max: u32,
    /// Where the next bitmap goes, and the height of the row it stands in.
    pub pack_x: u32,
    pub pack_y: u32,
    pub row_height: u32,
}

/// The texel at column `x` and row `y` of a page.
pub open spec fn texel(data: Seq<u8>, width: int, x: int, y: int) -> u8 {
    data[y * width + x]
}

impl AtlasPage {
    /// The packing state is sound and the bytes fill the page.
    pub open spec fn wf(self, width: int, height: int) -> bool {
        &&& self.data@.len() == width * height
        &&& self.pack_x <= width + 1
        &&& self.pack_y <= height + 1
        &&& self.pack_x == 0 ==> self.row_height == 0
        &&& self.pack_x > 0 ==> self.pack_y + self.row_height <= height
        &&& self.dirty_y_max <= height
        &&& self.dirty ==> self.dirty_y_min < self.dirty_y_max
        &&& !self.dirty ==> self.dirty_y_min >= self.dirty_y_max
    }

    /// The page with a new row begun where a bitmap of width `w` no longer fits in the current
    /// one.
    pub open spec fn opened(self, width: int, w: int) -> AtlasPage {
        if self.pack_x + w > width {
            AtlasPage {
                pack_x: 0,
                pack_y: (self.pack_y + self.row_height + 1) as u32,
                row_height: 0,
                ..self
            }
        } else {
            self
        }
    }

    /// A bitmap of height `h` fits where the page packs next.
    pub open spec fn has_room(self, height: int, h: int) -> bool {
        self.pack_y + h <= height
    }

    /// The page with a bitmap's place taken, and a texel's gap behind it.
    pub open spec fn placed(self, w: int, h: int) -> AtlasPage {
        AtlasPage {
            pack_x: (self.pack_x + w + 1) as u32,
            row_height: if self.row_height >= h {
                self.row_height
            } else {
                h as u32
            },
            ..self
        }
    }

    /// Fresh bytes, all of them to be uploaded, and nothing packed.
    pub fn new(width: u32, height: u32) -> (r: AtlasPage)
        requires
            1 <= width <= MAX_PAGE_SIDE,
            1 <= height <= MAX_PAGE_SIDE,
        ensures
            r.data@ == Seq::new((width * height) as nat, |i: int| 0u8),
            r.dirty,
            r.dirty_y_min == 0,
            r.dirty_y_max == height,
            r.pack_x == 0,
            r.pack_y == 0,
            r.row_height == 0,
            r.wf(width as int, height as int),
    {
        assert(width * height <= 0x4000_0000) by (nonlinear_arith)
            requires
                1 <= width <= 0x8000,
                1 <= height <= 0x8000,
        ;
        let mut data: Vec<u8> = Vec::new();
        crate::lines::resize(&mut data, (width * height) as usize, 0);
        assert(data@ =~= Seq::new((width * height) as nat, |i: int| 0u8));
        AtlasPage {
            data,
            dirty: true,
            dirty_y_min: 0,
            dirty_y_max: height,
            pack_x: 0,
            pack_y: 0,
            row_height: 0,
        }
    }

    /// Begins a new row where a bitmap of width `w` no longer fits in the current one.
    fn open_row(&mut self, width: u32, w: u32)
        requires
            old(self).pack_x + w <= u32::MAX,
            old(self).pack_y + old(self).row_height + 1 <= u32::MAX,
        ensures
            *final(self) == old(self).opened(width as int, w as int),
    {
        if self.pack_x + w > width {
            self.pack_x = 0;
            self.pack_y = self.pack_y + self.row_height + 1;
            self.row_height = 0;
        }
    }

    /// Takes a bitmap's place.
    fn place(&mut self, w: u32, h: u32)
        requires
            old(self).pack_x + w + 1 <= u32::MAX,
        ensures
            *final(self) == old(self).placed(w as int, h as int),
    {
        self.pack_x = self.pack_x + w + 1;
        if self.row_height < h {
            self.row_height = h;
        }
    }
}

/// A rectangle of texels.
pub ghost struct Rect {
    pub x: int,
    pub y: int,
    pub w: int,
    pub h: int,
}

impl Rect {
    /// The rectangle holds a texel.
    pub open spec fn holds(self, x: int, y: int) -> bool {
        self.x <= x < self.x + self.w && self.y <= y < self.y + self.h
    }

    /// The rectangle lies behind the packing point of a page: in an earlier row, or to the left in
    /// the current one.
    pub open spec fn behind(self, p: AtlasPage) -> bool {
        ||| self.y + self.h < p.pack_y
        ||| self.y == p.pack_y && self.x + self.w < p.pack_x && self.h <= p.row_height
    }
}

/// The place that a page gives to a bitmap of the given size.
pub open spec fn place_in(p: AtlasPage, width: int, w: int, h: int) -> Rect {
    let q = p.opened(width, w);
    Rect { x: q.pack_x as int, y: q.pack_y as int, w, h }
}

/// Bitmaps never overlap: what lies behind the packing point shares no texel with the place given
/// next, and afterwards both lie behind the packing point.
pub proof fn law_places_disjoint(
    p: AtlasPage,
    width: int,
    height: int,
    w: int,
    h: int,
    earlier: Rect,
    x: int,
    y: int,
)
    requires
        1 <= width <= MAX_PAGE_SIDE,
        1 <= height <= MAX_PAGE_SIDE,
        p.wf(width, height),
        1 <= w <= width,
        1 <= h <= height,
        p.opened(width, w).has_room(height, h),
        earlier.behind(p),
    ensures
        !(earlier.holds(x, y) && place_in(p, width, w, h).holds(x, y)),
        earlier.behind(p.opened(width, w).placed(w, h)),
        place_in(p, width, w, h).behind(p.opened(width, w).placed(w, h)),
{
}

/// The place given to a bitmap lies inside the page.
pub proof fn law_place_inside(p: AtlasPage, width: int, height: int, w: int, h: int)
    requires
        p.wf(width, height),
        1 <= width <= MAX_PAGE_SIDE,
        1 <= height <= MAX_PAGE_SIDE,
        1 <= w <= width,
        p.opened(width, w).has_room(height, h),
    ensures
        ({
            let r = place_in(p, width, w, h);
            0 <= r.x && r.x + r.w <= width && 0 <= r.y && r.y + r.h <= height
        }),
{
}

/// The pages after a request for a place: those before `idx` have begun a new row if they had to,
/// the one at `idx` has given the place, the others are as they were.
pub open spec fn pages_after(
    before: Seq<AtlasPage>,
    idx: int,
    width: int,
    w: int,
    h: int,
) -> Seq<AtlasPage> {
    Seq::new(
        before.len(),
        |i: int|
            if i < idx {
                before[i].opened(width, w)
            } else if i == idx {
                before[i].opened(width, w).placed(w, h)
            } else {
                before[i]
            },
    )
}

/// The first page with room for a bitmap is the one at `idx`; with no such page, `idx` is the
/// number of pages.
pub open spec fn first_with_room(
    pages: Seq<AtlasPage>,
    idx: int,
    width: int,
    height: int,
    w: int,
    h: int,
) -> bool {
    &&& 0 <= idx <= pages.len()
    &&& forall|i: int|
        0 <= i < idx ==> !(#[trigger] pages[i]).opened(width, w).has_room(height, h)
    &&& idx < pages.len() ==> pages[idx].opened(width, w).has_room(height, h)
}

/// What a request for a place gives: nothing for a bitmap larger than a page, else a place on the
/// first page with room, else one at the corner of a new page, unless there are too many pages.
pub open spec fn allocated(
    before: Seq<AtlasPage>,
    after: Seq<AtlasPage>,
    width: int,
    height: int,
    w: int,
    h: int,
    r: Option<(u16, u32, u32)>,
) -> bool {
    if w > width || h > height {
        r is None && after == before
    } else {
        exists|idx: int| #[trigger]
            first_with_room(before, idx, width, height, w, h) && {
                if idx < before.len() {
                    let place = place_in(before[idx], width, w, h);
                    &&& r == Some((idx as u16, place.x as u32, place.y as u32))
                    &&& after == pages_after(before, idx, width, w, h)
                } else if before.len() > u16::MAX {
                    r is None && after == pages_after(before, idx, width, w, h)
                } else {
                    &&& r == Some((before.len() as u16, 0u32, 0u32))
                    &&& after.len() == before.len() + 1
                    &&& after.drop_last() == pages_after(before, idx, width, w, h)
                    &&& fresh_with(after.last(), width, height, w, h)
                }
            }
    }
}

/// A new page whose first place is taken.
pub open spec fn fresh_with(p: AtlasPage, width: int, height: int, w: int, h: int) -> bool {
    &&& p.data@ == Seq::new((width * height) as nat, |i: int| 0u8)
    &&& p.dirty
    &&& p.dirty_y_min == 0
    &&& p.dirty_y_max == height
    &&& p.pack_x == w + 1
    &&& p.pack_y == 0
    &&& p.row_height == h
}

/// The pages pack at the same points; what they hold may differ.
pub open spec fn same_packing(a: Seq<AtlasPage>, b: Seq<AtlasPage>) -> bool {
    &&& a.len() == b.len()
    &&& forall|i: int|
        0 <= i < a.len() ==> {
            &&& (#[trigger] a[i]).pack_x == b[i].pack_x
            &&& a[i].pack_y == b[i].pack_y
            &&& a[i].row_height == b[i].row_height
        }
}

/// A request for a place, with the pages before and after it.
pub ghost struct Request {
    pub before: Seq<AtlasPage>,
    pub after: Seq<AtlasPage>,
    pub w: int,
    pub h: int,
    pub place: Option<(u16, u32, u32)>,
}

impl Request {
    /// The request was made of well-formed pages and answered as requests are.
    pub open spec fn wf(self, width: int, height: int) -> bool {
        &&& self.before.len() <= 0x1_0000
        &&& forall|i: int|
            0 <= i < self.before.len() ==> (#[trigger] self.before[i]).wf(width, height)
        &&& 1 <= self.w
        &&& 1 <= self.h
        &&& allocated(self.before, self.after, width, height, self.w, self.h, self.place)
    }

    /// The rectangle that the request was given.
    pub open spec fn rect(self) -> Rect {
        let (_, x, y) = self.place.unwrap();
        Rect { x: x as int, y: y as int, w: self.w, h: self.h }
    }

    /// The page that the request was given a place on.
    pub open spec fn page(self) -> int {
        self.place.unwrap().0 as int
    }
}

/// Requests made of one cache, one after the other: between two of them no page packs.
pub open spec fn in_turn(requests: Seq<Request>, width: int, height: int) -> bool {
    &&& forall|k: int| 0 <= k < requests.len() ==> (#[trigger] requests[k]).wf(width, height)
    &&& forall|k: int|
        0 < k < requests.len() ==> same_packing(
            requests[k - 1].after,
            (#[trigger] requests[k]).before,
        )
}

/// What was given lies on a page, inside it and behind its packing point.
proof fn lemma_given_place(q: Request, width: int, height: int)
    requires
        1 <= width <= MAX_PAGE_SIDE,
        1 <= height <= MAX_PAGE_SIDE,
        q.wf(width, height),
        q.place is Some,
    ensures
        0 <= q.page() < q.after.len(),
        q.rect().x >= 0 && q.rect().x + q.w <= width,
        q.rect().y >= 0 && q.rect().y + q.h <= height,
        q.rect().behind(q.after[q.page()]),
{
    let idx = choose|idx: int| #[trigger]
        first_with_room(q.before, idx, width, height, q.w, q.h) && {
            if idx < q.before.len() {
                let at = place_in(q.before[idx], width, q.w, q.h);
                &&& q.place == Some((idx as u16, at.x as u32, at.y as u32))
                &&& q.after == pages_after(q.before, idx, width, q.w, q.h)
            } else if q.before.len() > u16::MAX {
                q.place is None && q.after == pages_after(q.before, idx, width, q.w, q.h)
            } else {
                &&& q.place == Some((q.before.len() as u16, 0u32, 0u32))
                &&& q.after.len() == q.before.len() + 1
                &&& q.after.drop_last() == pages_after(q.before, idx, width, q.w, q.h)
                &&& fresh_with(q.after.last(), width, height, q.w, q.h)
            }
        };
    if idx < q.before.len() {
        assert(q.before[idx].wf(width, height));
        law_place_inside(q.before[idx], width, height, q.w, q.h);
    }
}

/// What lies behind the packing point of a page stays there, and a place given on that page
/// shares no texel with it.
proof fn lemma_request_keeps(
    q: Request,
    width: int,
    height: int,
    page: int,
    earlier: Rect,
    x: int,
    y: int,
)
    requires
        1 <= width <= MAX_PAGE_SIDE,
        1 <= height <= MAX_PAGE_SIDE,
        q.wf(width, height),
        0 <= page < q.before.len(),
        earlier.behind(q.before[page]),
    ensures
        page < q.after.len(),
        earlier.behind(q.after[page]),
        q.place is Some && q.page() == page ==> !(earlier.holds(x, y) && q.rect().holds(x, y)),
{
    if q.w <= width && q.h <= height {
        let idx = choose|idx: int| #[trigger]
            first_with_room(q.before, idx, width, height, q.w, q.h) && {
                if idx < q.before.len() {
                    let at = place_in(q.before[idx], width, q.w, q.h);
                    &&& q.place == Some((idx as u16, at.x as u32, at.y as u32))
                    &&& q.after == pages_after(q.before, idx, width, q.w, q.h)
                } else if q.before.len() > u16::MAX {
                    q.place is None && q.after == pages_after(q.before, idx, width, q.w, q.h)
                } else {
                    &&& q.place == Some((q.before.len() as u16, 0u32, 0u32))
                    &&& q.after.len() == q.before.len() + 1
                    &&& q.after.drop_last() == pages_after(q.before, idx, width, q.w, q.h)
                    &&& fresh_with(q.after.last(), width, height, q.w, q.h)
                }
            };
        assert(q.before[page].wf(width, height));
        let asked = pages_after(q.before, idx, width, q.w, q.h);
        assert(q.after[page] == asked[page]) by {
            if idx == q.before.len() && q.before.len() <= u16::MAX {
                assert(q.after.drop_last()[page] == q.after[page]);
            }
        }
        if page == idx {
            law_places_disjoint(q.before[page], width, height, q.w, q.h, earlier, x, y);
            law_place_inside(q.before[page], width, height, q.w, q.h);
        }
    }
}

/// What request `i` was given lies behind the packing point after request `k`.
proof fn lemma_stays_behind(requests: Seq<Request>, width: int, height: int, i: int, k: int)
    requires
        1 <= width <= MAX_PAGE_SIDE,
        1 <= height <= MAX_PAGE_SIDE,
        in_turn(requests, width, height),
        0 <= i <= k < requests.len(),
        requests[i].place is Some,
    ensures
        0 <= requests[i].page() < requests[k].after.len(),
        requests[i].rect().behind(requests[k].after[requests[i].page()]),
    decreases k - i,
{
    assert(requests[i].wf(width, height));
    if i == k {
        lemma_given_place(requests[i], width, height);
    } else {
        lemma_stays_behind(requests, width, height, i, k - 1);
        let page = requests[i].page();
        assert(requests[k].wf(width, height));
        assert(same_packing(requests[k - 1].after, requests[k].before));
        assert(requests[k - 1].after[page].pack_x == requests[k].before[page].pack_x);
        lemma_request_keeps(requests[k], width, height, page, requests[i].rect(), 0, 0);
    }
}

/// Of the places that one cache gives, however many requests lie between, each lies inside its
/// page, and no two on one page share a texel.
pub proof fn law_no_two_places_overlap(
    requests: Seq<Request>,
    width: int,
    height: int,
    i: int,
    j: int,
    x: int,
    y: int,
)
    requires
        1 <= width <= MAX_PAGE_SIDE,
        1 <= height <= MAX_PAGE_SIDE,
        in_turn(requests, width, height),
        0 <= i < j < requests.len(),
        requests[i].place is Some,
        requests[j].place is Some,
    ensures
        0 <= requests[i].page() < requests[i].after.len(),
        requests[i].rect().x + requests[i].w <= width,
        requests[i].rect().y + requests[i].h <= height,
        0 <= requests[j].page() < requests[j].after.len(),
        requests[j].rect().x + requests[j].w <= width,
        requests[j].rect().y + requests[j].h <= height,
        requests[i].page() == requests[j].page() ==> !(requests[i].rect().holds(x, y)
            && requests[j].rect().holds(x, y)),
{
    assert(requests[i].wf(width, height));
    assert(requests[j].wf(width, height));
    lemma_given_place(requests[i], width, height);
    lemma_given_place(requests[j], width, height);
    lemma_stays_behind(requests, width, height, i, j - 1);
    let page = requests[i].page();
    assert(same_packing(requests[j - 1].after, requests[j].before));
    assert(requests[j - 1].after[page].pack_x == requests[j].before[page].pack_x);
    lemma_request_keeps(requests[j], width, height, page, requests[i].rect(), x, y);
}

/// CPU-side glyph cache: glyphs by character, and the pages that hold their bitmaps.
#[derive(Debug)]
pub struct GlyphCache {
    pub atlas_width: u32,
    pub atlas_height: u32,
    pub pages: Vec<AtlasPage>,
    /// The cell's size in whole pixels, for glyphs that fill it.
    pub cell_width: u32,
    pub cell_height: u32,
    /// Glyphs by code point. `None` means the char was tried but has no glyph.
    pub entries: HashMap<u32, Option<GlyphInfo>>,
}

impl GlyphCache {
    pub open spec fn wf(self) -> bool {
        &&& 1 <= self.atlas_width <= MAX_PAGE_SIDE
        &&& 1 <= self.atlas_height <= MAX_PAGE_SIDE
        &&& 1 <= self.cell_width <= MAX_GLYPH_SIDE
        &&& 1 <= self.cell_height <= MAX_GLYPH_SIDE
        &&& self.pages@.len() <= 0x1_0000
        &&& forall|i: int|
            0 <= i < self.pages@.len() ==> (#[trigger] self.pages@[i]).wf(
                self.atlas_width as int,
                self.atlas_height as int,
            )
    }

    /// Nothing but the pages differs.
    pub open spec fn same_but_pages(self, other: GlyphCache) -> bool {
        &&& self.atlas_width == other.atlas_width
        &&& self.atlas_height == other.atlas_height
        &&& self.cell_width == other.cell_width
        &&& self.cell_height == other.cell_height
        &&& self.entries == other.entries
    }

    /// A cache with one fresh page of 4096 by 4096 texels and no glyphs.
    pub fn new(cell_width: u32, cell_height: u32) -> (r: GlyphCache)
        requires
            1 <= cell_width <= MAX_GLYPH_SIDE,
            1 <= cell_height <= MAX_GLYPH_SIDE,
        ensures
            r.wf(),
            r.atlas_width == 4096,
            r.atlas_height == 4096,
            r.cell_width == cell_width,
            r.cell_height == cell_height,
            r.pages@.len() == 1,
            r.pages@[0].data@ == Seq::new((4096 * 4096) as nat, |i: int| 0u8),
            r.pages@[0].pack_x == 0,
            r.pages@[0].pack_y == 0,
            r.pages@[0].row_height == 0,
            r.pages@[0].dirty,
            r.pages@[0].dirty_y_min == 0,
            r.pages@[0].dirty_y_max == 4096,
            r.entries@ == Map::<u32, Option<GlyphInfo>>::empty(),
    {
        let mut pages: Vec<AtlasPage> = Vec::new();
        pages.push(AtlasPage::new(4096, 4096));
        GlyphCache {
            atlas_width: 4096,
            atlas_height: 4096,
            pages,
            cell_width,
            cell_height,
            entries: HashMap::new(),
        }
    }

    /// Gives a place to a bitmap of the given size.
    pub fn allocate_atlas_rect(&mut self, w: u32, h: u32) -> (r: Option<(u16, u32, u32)>)
        requires
            old(self).wf(),
            w >= 1,
            h >= 1,
        ensures
            final(self).wf(),
            final(self).same_but_pages(*old(self)),
            allocated(
                old(self).pages@,
                final(self).pages@,
                old(self).atlas_width as int,
                old(self).atlas_height as int,
                w as int,
                h as int,
                r,
            ),
            r matches Some((idx, x, y)) ==> idx < final(self).pages@.len() && x + w
                <= old(self).atlas_width && y + h <= old(self).atlas_height,
    {
        if w > self.atlas_width || h > self.atlas_height {
            return None;
        }
        let ghost before = self.pages@;
        let ghost aw = self.atlas_width as int;
        let ghost ah = self.atlas_height as int;
        let mut idx: usize = 0;
        while idx < self.pages.len()
            invariant
                self.wf(),
                self.same_but_pages(*old(self)),
                aw == self.atlas_width,
                ah == self.atlas_height,
                before == old(self).pages@,
                1 <= w <= aw,
                1 <= h <= ah,
                idx <= self.pages@.len() == before.len(),
                forall|i: int| 0 <= i < idx ==> self.pages@[i] == before[i].opened(aw, w as int),
                forall|i: int| idx <= i < before.len() ==> self.pages@[i] == before[i],
                forall|i: int|
                    0 <= i < idx ==> !(#[trigger] before[i]).opened(aw, w as int).has_room(
                        ah,
                        h as int,
                    ),
            decreases self.pages@.len() - idx,
        {
            assert(before[idx as int] == self.pages@[idx as int]);
            assert(self.pages@[idx as int].wf(aw, ah));
            let width: u32 = self.atlas_width;
            self.pages[idx].open_row(width, w);
            let x: u32 = self.pages[idx].pack_x;
            let y: u32 = self.pages[idx].pack_y;
            if y + h <= self.atlas_height {
                self.pages[idx].place(w, h);
                proof {
                    assert(self.pages@ =~= pages_after(before, idx as int, aw, w as int, h as int));
                    assert(first_with_room(before, idx as int, aw, ah, w as int, h as int));
                }
                return Some((idx as u16, x, y));
            }
            idx = idx + 1;
        }
        proof {
            assert(first_with_room(before, idx as int, aw, ah, w as int, h as int));
            assert(self.pages@ =~= pages_after(before, idx as int, aw, w as int, h as int));
        }
        if self.pages.len() > 0xffff {
            return None;
        }
        let mut page = AtlasPage::new(self.atlas_width, self.atlas_height);
        page.place(w, h);
        let ghost opened = self.pages@;
        self.pages.push(page);
        assert(self.pages@.drop_last() =~= opened);
        Some(((self.pages.len() - 1) as u16, 0, 0))
    }
}

proof fn lemma_texel_inside(width: int, height: int, x: int, y: int)
    requires
        0 <= x < width,
        0 <= y < height,
    ensures
        0 <= y * width + x < width * height,
{
    assert(0 <= y * width + x < width * height) by (nonlinear_arith)
        requires
            0 <= x < width,
            0 <= y < height,
    ;
}

proof fn lemma_texel_unique(width: int, x1: int, y1: int, x2: int, y2: int)
    requires
        0 <= x1 < width,
        0 <= x2 < width,
        y1 * width + x1 == y2 * width + x2,
    ensures
        x1 == x2,
        y1 == y2,
{
    if y1 < y2 {
        assert(y1 * width + width <= y2 * width) by (nonlinear_arith)
            requires
                y1 + 1 <= y2,
                width > 0,
        ;
    } else if y2 < y1 {
        assert(y2 * width + width <= y1 * width) by (nonlinear_arith)
            requires
                y2 + 1 <= y1,
                width > 0,
        ;
    }
}

/// The bytes of a page after a bitmap was copied into a rectangle of it: the bitmap's pixels
/// inside, everything as before outside.
pub open spec fn stamped(
    before: Seq<u8>,
    after: Seq<u8>,
    width: int,
    height: int,
    r: Rect,
    pixels: Seq<u8>,
) -> bool {
    &&& after.len() == before.len()
    &&& forall|x: int, y: int|
        0 <= x < width && 0 <= y < height ==> #[trigger] texel(after, width, x, y) == if r.holds(
            x,
            y,
        ) {
            texel(pixels, r.w, x - r.x, y - r.y)
        } else {
            texel(before, width, x, y)
        }
}

/// Copies one row of a bitmap.
fn copy_row(
    data: &mut Vec<u8>,
    Ghost(width): Ghost<int>,
    Ghost(height): Ghost<int>,
    Ghost(x0): Ghost<int>,
    Ghost(y0): Ghost<int>,
    dst: usize,
    src: usize,
    w: usize,
    pixels: &[u8],
)
    requires
        old(data)@.len() == width * height,
        0 <= x0,
        x0 + w <= width,
        0 <= y0 < height,
        dst == y0 * width + x0,
        src + w <= pixels@.len(),
    ensures
        stamped(
            old(data)@,
            final(data)@,
            width,
            height,
            (Rect { x: x0, y: y0, w: w as int, h: 1 }),
            pixels@.subrange(src as int, src + w),
        ),
{
    let ghost before = data@;
    let ghost row = pixels@.subrange(src as int, src + w);
    proof {
        if w > 0 {
            lemma_texel_inside(width, height, x0 + w - 1, y0);
        }
    }
    let pixel_count: usize = pixels.len();
    let texel_count: usize = data.len();
    let mut i: usize = 0;
    while i < w
        invariant
            i <= w,
            pixel_count == pixels@.len(),
            texel_count == data@.len(),
            before.len() == width * height,
            data@.len() == before.len(),
            0 <= x0,
            x0 + w <= width,
            0 <= y0 < height,
            dst == y0 * width + x0,
            w > 0 ==> dst + w <= data@.len(),
            src + w <= pixels@.len(),
            row == pixels@.subrange(src as int, src + w),
            forall|k: int|
                0 <= k < data@.len() ==> #[trigger] data@[k] == if dst <= k < dst + i {
                    row[k - dst]
                } else {
                    before[k]
                },
        decreases w - i,
    {
        let v: u8 = pixels[src + i];
        data.set(dst + i, v);
        i = i + 1;
    }
    proof {
        let r = Rect { x: x0, y: y0, w: w as int, h: 1 };
        assert forall|x: int, y: int| 0 <= x < width && 0 <= y < height implies #[trigger] texel(
            data@,
            width,
            x,
            y,
        ) == if r.holds(x, y) {
            texel(row, r.w, x - r.x, y - r.y)
        } else {
            texel(before, width, x, y)
        } by {
            lemma_texel_inside(width, height, x, y);
            let k = y * width + x;
            if dst <= k < dst + w {
                lemma_texel_unique(width, x, y, x0 + (k - dst), y0);
                assert((y - r.y) * r.w == 0) by (nonlinear_arith)
                    requires
                        y == r.y,
                ;
            } else if r.holds(x, y) {
                assert(y == y0);
            }
        }
    }
}

/// Copies a bitmap, row by row, into a rectangle of a page.
fn blit(data: &mut Vec<u8>, width: u32, height: u32, x0: u32, y0: u32, w: u32, h: u32, pixels: &[u8])
    requires
        1 <= width <= MAX_PAGE_SIDE,
        1 <= height <= MAX_PAGE_SIDE,
        old(data)@.len() == width * height,
        x0 + w <= width,
        y0 + h <= height,
        w * h <= pixels@.len(),
    ensures
        stamped(
            old(data)@,
            final(data)@,
            width as int,
            height as int,
            (Rect { x: x0 as int, y: y0 as int, w: w as int, h: h as int }),
            pixels@,
        ),
{
    let ghost before = data@;
    let ghost r = Rect { x: x0 as int, y: y0 as int, w: w as int, h: h as int };
    let ghost aw = width as int;
    let mut row: u32 = 0;
    while row < h
        invariant
            row <= h,
            1 <= width <= MAX_PAGE_SIDE,
            1 <= height <= MAX_PAGE_SIDE,
            aw == width,
            before.len() == width * height,
            data@.len() == before.len(),
            x0 + w <= width,
            y0 + h <= height,
            w * h <= pixels@.len(),
            r == (Rect { x: x0 as int, y: y0 as int, w: w as int, h: h as int }),
            stamped(
                before,
                data@,
                aw,
                height as int,
                (Rect { x: x0 as int, y: y0 as int, w: w as int, h: row as int }),
                pixels@,
            ),
        decreases h - row,
    {
        let ghost mid = data@;
        proof {
            assert((y0 + row) * aw + x0 <= 0x4000_0000 && row * w <= 0x4000_0000 && row * w + w <= w
                * h) by (nonlinear_arith)
                requires
                    0 <= y0 + row < 0x8000,
                    1 <= aw <= 0x8000,
                    0 <= x0 <= aw,
                    0 <= row < h <= 0x8000,
                    0 <= w <= 0x8000,
            ;
        }
        let dst: usize = ((y0 + row) * width + x0) as usize;
        let src: usize = (row * w) as usize;
        copy_row(
            data,
            Ghost(aw),
            Ghost(height as int),
            Ghost(x0 as int),
            Ghost(y0 + row),
            dst,
            src,
            w as usize,
            pixels,
        );
        proof {
            let line = pixels@.subrange(src as int, src + w);
            let r1 = Rect { x: x0 as int, y: y0 as int, w: w as int, h: row as int };
            let r2 = Rect { x: x0 as int, y: y0 as int, w: w as int, h: row + 1 };
            let rl = Rect { x: x0 as int, y: y0 + row, w: w as int, h: 1 };
            assert forall|x: int, y: int| 0 <= x < aw && 0 <= y < height implies #[trigger] texel(
                data@,
                aw,
                x,
                y,
            ) == if r2.holds(x, y) {
                texel(pixels@, r2.w, x - r2.x, y - r2.y)
            } else {
                texel(before, aw, x, y)
            } by {
                assert(texel(mid, aw, x, y) == if r1.holds(x, y) {
                    texel(pixels@, r1.w, x - r1.x, y - r1.y)
                } else {
                    texel(before, aw, x, y)
                });
                if rl.holds(x, y) {
                    assert(y - r2.y == row);
                    assert((y - rl.y) * rl.w == 0) by (nonlinear_arith)
                        requires
                            y == rl.y,
                    ;
                    assert(texel(line, rl.w, x - rl.x, y - rl.y) == line[x - x0]);
                    assert(line[x - x0] == pixels@[src + (x - x0)]);
                }
            }
        }
        row = row + 1;
    }
}

/// One byte for three: the average of each pixel's three parts.
pub open spec fn averaged(rgb: Seq<u8>, n: nat) -> Seq<u8> {
    Seq::new(n, |i: int| ((rgb[3 * i] + rgb[3 * i + 1] + rgb[3 * i + 2]) / 3) as u8)
}

/// Averages the three parts of each of `n` pixels.
pub fn average_rgb(rgb: &[u8], n: usize) -> (r: Vec<u8>)
    requires
        3 * n <= rgb@.len(),
    ensures
        r@ == averaged(rgb@, n as nat),
{
    let mut out: Vec<u8> = Vec::new();
    let len: usize = rgb.len();
    let mut i: usize = 0;
    while i < n
        invariant
            i <= n,
            len == rgb@.len(),
            3 * n <= rgb@.len(),
            out@ == averaged(rgb@, n as nat).take(i as int),
        decreases n - i,
    {
        let sum: u16 = rgb[3 * i] as u16 + rgb[3 * i + 1] as u16 + rgb[3 * i + 2] as u16;
        out.push((sum / 3) as u8);
        i = i + 1;
        assert(out@ =~= averaged(rgb@, n as nat).take(i as int));
    }
    assert(out@ =~= averaged(rgb@, n as nat));
    out
}

/// A page with a bitmap stamped into a rectangle of it: its bytes, and the rows to upload.
pub open spec fn page_stamped(
    before: AtlasPage,
    after: AtlasPage,
    width: int,
    height: int,
    r: Rect,
    pixels: Seq<u8>,
) -> bool {
    &&& stamped(before.data@, after.data@, width, height, r, pixels)
    &&& after.dirty
    &&& after.dirty_y_min == crate::grid::min(before.dirty_y_min as int, r.y)
    &&& after.dirty_y_max == crate::grid::max(before.dirty_y_max as int, r.y + r.h)
    &&& after.pack_x == before.pack_x
    &&& after.pack_y == before.pack_y
    &&& after.row_height == before.row_height
}

/// What packing a bitmap gives: nothing for an empty one, for one with too few pixels, or where
/// there is no place; else the glyph, with the bitmap stamped into the place given.
pub open spec fn packed(
    before: Seq<AtlasPage>,
    after: Seq<AtlasPage>,
    width: int,
    height: int,
    b: Bitmap,
    r: Option<GlyphInfo>,
) -> bool {
    if b.w == 0 || b.h == 0 || b.pixels.len() < b.w * b.h {
        r is None && after == before
    } else {
        exists|mid: Seq<AtlasPage>, place: Option<(u16, u32, u32)>| #[trigger]
            allocated(before, mid, width, height, b.w, b.h, place) && match place {
                None => r is None && after == mid,
                Some((idx, x, y)) => {
                    &&& r == Some(
                        GlyphInfo {
                            atlas_idx: idx,
                            atlas_x: x,
                            atlas_y: y,
                            width: b.w as u32,
                            height: b.h as u32,
                            offset_x: b.offset_x as i32,
                            offset_y: b.offset_y as i32,
                        },
                    )
                    &&& idx < mid.len() == after.len()
                    &&& forall|i: int| 0 <= i < mid.len() && i != idx ==> after[i] == mid[i]
                    &&& page_stamped(
                        mid[idx as int],
                        after[idx as int],
                        width,
                        height,
                        Rect { x: x as int, y: y as int, w: b.w, h: b.h },
                        b.pixels,
                    )
                },
            }
    }
}

/// A glyph's bitmap: one byte per pixel, row by row, and its offset in the cell.
pub ghost struct Bitmap {
    pub w: int,
    pub h: int,
    pub offset_x: int,
    pub offset_y: int,
    pub pixels: Seq<u8>,
}

impl GlyphCache {
    /// Copies a bitmap into a page and marks the rows for upload.
    fn stamp(&mut self, idx: usize, x: u32, y: u32, w: u32, h: u32, pixels: &[u8])
        requires
            old(self).wf(),
            idx < old(self).pages@.len(),
            x + w <= old(self).atlas_width,
            y + h <= old(self).atlas_height,
            h >= 1,
            w * h <= pixels@.len(),
        ensures
            final(self).wf(),
            final(self).same_but_pages(*old(self)),
            final(self).pages@.len() == old(self).pages@.len(),
            forall|i: int|
                0 <= i < old(self).pages@.len() && i != idx ==> final(self).pages@[i]
                    == old(self).pages@[i],
            page_stamped(
                old(self).pages@[idx as int],
                final(self).pages@[idx as int],
                old(self).atlas_width as int,
                old(self).atlas_height as int,
                (Rect { x: x as int, y: y as int, w: w as int, h: h as int }),
                pixels@,
            ),
    {
        let width: u32 = self.atlas_width;
        let height: u32 = self.atlas_height;
        assert(self.pages@[idx as int].wf(width as int, height as int));
        let page = &mut self.pages[idx];
        blit(&mut page.data, width, height, x, y, w, h, pixels);
        page.dirty = true;
        if y < page.dirty_y_min {
            page.dirty_y_min = y;
        }
        if y + h > page.dirty_y_max {
            page.dirty_y_max = y + h;
        }
    }

    /// Pack a pre-rasterized R8 bitmap (one alpha byte per pixel, row-major)
    /// into the atlas. Returns the resulting [`GlyphInfo`].
    pub fn pack_r8(
        &mut self,
        w: u32,
        h: u32,
        offset_x: i32,
        offset_y: i32,
        pixels: &[u8],
    ) -> (r: Option<GlyphInfo>)
        requires
            old(self).wf(),
            w * h <= u32::MAX,
        ensures
            final(self).wf(),
            final(self).same_but_pages(*old(self)),
            packed(
                old(self).pages@,
                final(self).pages@,
                old(self).atlas_width as int,
                old(self).atlas_height as int,
                (Bitmap {
                    w: w as int,
                    h: h as int,
                    offset_x: offset_x as int,
                    offset_y: offset_y as int,
                    pixels: pixels@,
                }),
                r,
            ),
    {
        if w == 0 || h == 0 || pixels.len() < (w * h) as usize {
            return None;
        }
        match self.allocate_atlas_rect(w, h) {
            None => None,
            Some((idx, x, y)) => {
                self.stamp(idx as usize, x, y, w, h, pixels);
                Some(
                    GlyphInfo {
                        atlas_idx: idx,
                        atlas_x: x,
                        atlas_y: y,
                        width: w,
                        height: h,
                        offset_x,
                        offset_y,
                    },
                )
            },
        }
    }
}

/// A bitmap that was packed stands in the page as it was given, and stays there: packing another
/// one changes no texel of a rectangle that lies behind the packing point, and it lies behind the
/// packing point afterwards.
pub proof fn law_packing_keeps_glyphs(
    before: Seq<AtlasPage>,
    after: Seq<AtlasPage>,
    width: int,
    height: int,
    b: Bitmap,
    r: Option<GlyphInfo>,
    page: int,
    earlier: Rect,
    x: int,
    y: int,
)
    requires
        1 <= width <= MAX_PAGE_SIDE,
        1 <= height <= MAX_PAGE_SIDE,
        before.len() <= 0x1_0000,
        forall|i: int| 0 <= i < before.len() ==> (#[trigger] before[i]).wf(width, height),
        packed(before, after, width, height, b, r),
        0 <= b.w,
        0 <= b.h,
        0 <= page < before.len(),
        earlier.behind(before[page]),
        0 <= x < width,
        0 <= y < height,
        earlier.holds(x, y),
    ensures
        page < after.len(),
        earlier.behind(after[page]),
        texel(after[page].data@, width, x, y) == texel(before[page].data@, width, x, y),
{
    if b.w == 0 || b.h == 0 || b.pixels.len() < b.w * b.h {
    } else {
        let (mid, place) = choose|mid: Seq<AtlasPage>, place: Option<(u16, u32, u32)>| #[trigger]
            allocated(before, mid, width, height, b.w, b.h, place) && match place {
                None => r is None && after == mid,
                Some((idx, px, py)) => {
                    &&& r == Some(
                        GlyphInfo {
                            atlas_idx: idx,
                            atlas_x: px,
                            atlas_y: py,
                            width: b.w as u32,
                            height: b.h as u32,
                            offset_x: b.offset_x as i32,
                            offset_y: b.offset_y as i32,
                        },
                    )
                    &&& idx < mid.len() == after.len()
                    &&& forall|i: int| 0 <= i < mid.len() && i != idx ==> after[i] == mid[i]
                    &&& page_stamped(
                        mid[idx as int],
                        after[idx as int],
                        width,
                        height,
                        Rect { x: px as int, y: py as int, w: b.w, h: b.h },
                        b.pixels,
                    )
                },
            };
        if b.w > width || b.h > height {
        } else {
            let idx = choose|idx: int| #[trigger]
                first_with_room(before, idx, width, height, b.w, b.h) && {
                    if idx < before.len() {
                        let at = place_in(before[idx], width, b.w, b.h);
                        &&& place == Some((idx as u16, at.x as u32, at.y as u32))
                        &&& mid == pages_after(before, idx, width, b.w, b.h)
                    } else if before.len() > u16::MAX {
                        place is None && mid == pages_after(before, idx, width, b.w, b.h)
                    } else {
                        &&& place == Some((before.len() as u16, 0u32, 0u32))
                        &&& mid.len() == before.len() + 1
                        &&& mid.drop_last() == pages_after(before, idx, width, b.w, b.h)
                        &&& fresh_with(mid.last(), width, height, b.w, b.h)
                    }
                };
            assert(before[page].wf(width, height));
            let after_request = pages_after(before, idx, width, b.w, b.h);
            assert(mid[page] == after_request[page]) by {
                if idx == before.len() && before.len() <= u16::MAX {
                    assert(mid.drop_last()[page] == mid[page]);
                }
            }
            assert(mid[page].data == before[page].data);
            assert(earlier.behind(mid[page]));
            if page == idx {
                law_places_disjoint(before[page], width, height, b.w, b.h, earlier, x, y);
                law_place_inside(before[page], width, height, b.w, b.h);
            }
        }
    }
}

/// A glyph's texels are its bitmap's pixels.
pub proof fn law_glyph_reads_back(
    before: Seq<AtlasPage>,
    after: Seq<AtlasPage>,
    width: int,
    height: int,
    b: Bitmap,
    g: GlyphInfo,
    x: int,
    y: int,
)
    requires
        1 <= width <= MAX_PAGE_SIDE,
        1 <= height <= MAX_PAGE_SIDE,
        packed(before, after, width, height, b, Some(g)),
        0 <= x < b.w,
        0 <= y < b.h,
        g.atlas_x + x < width,
        g.atlas_y + y < height,
    ensures
        texel(after[g.atlas_idx as int].data@, width, g.atlas_x + x, g.atlas_y + y) == texel(
            b.pixels,
            b.w,
            x,
            y,
        ),
{
}

/// A part of a page to upload: the rows `y_min..y_max`, which are the bytes from `offset` on.
#[derive(Debug, Clone, Copy, PartialEq, Eq, Structural)]
pub struct PageUpload {
    pub page: usize,
    pub y_min: u32,
    pub y_max: u32,
    pub offset: usize,
    pub size: usize,
}

/// The uploads that the first `n` pages need, in order.
pub open spec fn uploads(pages: Seq<AtlasPage>, width: int, n: nat) -> Seq<PageUpload>
    decreases n,
{
    if n == 0 {
        Seq::empty()
    } else {
        let before = uploads(pages, width, (n - 1) as nat);
        let p = pages[n - 1];
        if p.dirty {
            before.push(
                PageUpload {
                    page: (n - 1) as usize,
                    y_min: p.dirty_y_min,
                    y_max: p.dirty_y_max,
                    offset: (p.dirty_y_min * width) as usize,
                    size: ((p.dirty_y_max - p.dirty_y_min) * width) as usize,
                },
            )
        } else {
            before
        }
    }
}

/// A page whose changes have been handed out.
pub open spec fn cleaned(p: AtlasPage) -> AtlasPage {
    if p.dirty {
        AtlasPage { dirty: false, dirty_y_min: u32::MAX, dirty_y_max: 0, ..p }
    } else {
        p
    }
}

/// A picture of a glyph as a font engine hands it out.
#[derive(Debug)]
pub struct Raster {
    pub width: u32,
    pub height: u32,
    pub offset_x: i32,
    pub offset_y: i32,
    /// Three bytes per pixel in place of one.
    pub subpixel: bool,
    pub data: Vec<u8>,
}

impl Raster {
    /// There are enough bytes, and the pixels can be counted.
    pub open spec fn wf(self) -> bool {
        &&& self.width * self.height <= u32::MAX
        &&& if self.subpixel {
            3 * (self.width * self.height) <= self.data@.len()
        } else {
            self.width * self.height <= self.data@.len()
        }
    }

    /// The picture with one byte per pixel.
    pub open spec fn bitmap(self) -> Bitmap {
        Bitmap {
            w: self.width as int,
            h: self.height as int,
            offset_x: self.offset_x as int,
            offset_y: self.offset_y as int,
            pixels: if self.subpixel {
                averaged(self.data@, (self.width * self.height) as nat)
            } else {
                self.data@
            },
        }
    }
}

/// The bitmap of a character that is drawn without a font.
pub open spec fn builtin_bitmap(c: char, w: int, h: int) -> Bitmap {
    Bitmap {
        w,
        h,
        offset_x: 0,
        offset_y: 0,
        pixels: canvas::flat(builtin_font::glyph_rows(c, w, h)),
    }
}

impl GlyphCache {
    /// Whether some page has to be uploaded.
    pub fn has_dirty_pages(&self) -> (r: bool)
        ensures
            r == exists|i: int| 0 <= i < self.pages@.len() && (#[trigger] self.pages@[i]).dirty,
    {
        let mut i: usize = 0;
        while i < self.pages.len()
            invariant
                i <= self.pages@.len(),
                forall|j: int| 0 <= j < i ==> !(#[trigger] self.pages@[j]).dirty,
            decreases self.pages@.len() - i,
        {
            if self.pages[i].dirty {
                return true;
            }
            i = i + 1;
        }
        false
    }

    /// Hands out what has to be uploaded and counts it as uploaded.
    pub fn take_uploads(&mut self) -> (r: Vec<PageUpload>)
        requires
            old(self).wf(),
        ensures
            final(self).wf(),
            final(self).same_but_pages(*old(self)),
            r@ == uploads(old(self).pages@, old(self).atlas_width as int, old(self).pages@.len()),
            final(self).pages@ == old(self).pages@.map_values(|p: AtlasPage| cleaned(p)),
    {
        let ghost before = self.pages@;
        let ghost width = self.atlas_width as int;
        let mut out: Vec<PageUpload> = Vec::new();
        let mut i: usize = 0;
        while i < self.pages.len()
            invariant
                self.wf(),
                self.same_but_pages(*old(self)),
                width == self.atlas_width,
                before == old(self).pages@,
                i <= self.pages@.len() == before.len(),
                out@ == uploads(before, width, i as nat),
                forall|j: int| 0 <= j < i ==> self.pages@[j] == cleaned(before[j]),
                forall|j: int| i <= j < before.len() ==> self.pages@[j] == before[j],
            decreases self.pages@.len() - i,
        {
            assert(self.pages@[i as int].wf(width, self.atlas_height as int));
            if self.pages[i].dirty {
                let y_min: u32 = self.pages[i].dirty_y_min;
                let y_max: u32 = self.pages[i].dirty_y_max;
                proof {
                    assert(y_min * width <= 0x4000_0000 && (y_max - y_min) * width <= 0x4000_0000)
                        by (nonlinear_arith)
                        requires
                            0 <= y_min < y_max <= 0x8000,
                            1 <= width <= 0x8000,
                    ;
                }
                let offset: usize = (y_min * self.atlas_width) as usize;
                let size: usize = ((y_max - y_min) * self.atlas_width) as usize;
                out.push(PageUpload { page: i, y_min, y_max, offset, size });
                self.pages[i].dirty = false;
                self.pages[i].dirty_y_min = u32::MAX;
                self.pages[i].dirty_y_max = 0;
            }
            i = i + 1;
        }
        assert(self.pages@ =~= before.map_values(|p: AtlasPage| cleaned(p)));
        out
    }

    /// The glyph of a character, if it has been settled: `Some(None)` for one without a glyph.
    pub fn lookup(&self, c: char) -> (r: Option<Option<GlyphInfo>>)
        ensures
            r == if self.entries@.contains_key(c as u32) {
                Some(self.entries@[c as u32])
            } else {
                None
            },
    {
        match self.entries.get(&(c as u32)) {
            Some(g) => Some(*g),
            None => None,
        }
    }

    /// Settles a character that needs no font: one that is known, the space, which has no glyph,
    /// and those that are drawn to fill the cell. Returns whether the character is settled.
    pub fn settle(&mut self, c: char) -> (settled: bool)
        requires
            old(self).wf(),
        ensures
            final(self).wf(),
            settled == (old(self).entries@.contains_key(c as u32) || c == ' '
                || builtin_font::builtin(c)),
            !settled || old(self).entries@.contains_key(c as u32) ==> *final(self) == *old(self),
            settled && !old(self).entries@.contains_key(c as u32) ==> {
                &&& final(self).atlas_width == old(self).atlas_width
                &&& final(self).atlas_height == old(self).atlas_height
                &&& final(self).cell_width == old(self).cell_width
                &&& final(self).cell_height == old(self).cell_height
                &&& final(self).entries@ == old(self).entries@.insert(
                    c as u32,
                    final(self).entries@[c as u32],
                )
                &&& if c == ' ' {
                    final(self).pages@ == old(self).pages@ && final(self).entries@[c as u32] is None
                } else {
                    packed(
                        old(self).pages@,
                        final(self).pages@,
                        old(self).atlas_width as int,
                        old(self).atlas_height as int,
                        builtin_bitmap(c, old(self).cell_width as int, old(self).cell_height as int),
                        final(self).entries@[c as u32],
                    )
                }
            },
    {
        let key: u32 = c as u32;
        if self.entries.contains_key(&key) {
            return true;
        }
        if c == ' ' {
            self.entries.insert(key, None);
            return true;
        }
        match builtin_font::builtin_glyph(c, self.cell_width, self.cell_height) {
            Some(g) => {
                proof {
                    assert(g.width * g.height <= u32::MAX) by (nonlinear_arith)
                        requires
                            g.width <= 0xffff,
                            g.height <= 0xffff,
                    ;
                }
                let info: Option<GlyphInfo> = self.pack_r8(
                    g.width,
                    g.height,
                    g.offset_x,
                    g.offset_y,
                    g.data.as_slice(),
                );
                self.entries.insert(key, info);
                true
            },
            None => false,
        }
    }

    /// Settles a character with the picture that a font engine made of it; without one the
    /// character has no glyph. Returns the glyph.
    pub fn insert_raster(&mut self, c: char, raster: Option<&Raster>) -> (r: Option<GlyphInfo>)
        requires
            old(self).wf(),
            raster matches Some(p) ==> p.wf(),
        ensures
            final(self).wf(),
            final(self).atlas_width == old(self).atlas_width,
            final(self).atlas_height == old(self).atlas_height,
            final(self).cell_width == old(self).cell_width,
            final(self).cell_height == old(self).cell_height,
            final(self).entries@ == old(self).entries@.insert(c as u32, r),
            match raster {
                Some(p) => packed(
                    old(self).pages@,
                    final(self).pages@,
                    old(self).atlas_width as int,
                    old(self).atlas_height as int,
                    p.bitmap(),
                    r,
                ),
                None => r is None && final(self).pages@ == old(self).pages@,
            },
    {
        let info: Option<GlyphInfo> = match raster {
            None => None,
            Some(p) => {
                if p.subpixel {
                    let gray: Vec<u8> = average_rgb(
                        p.data.as_slice(),
                        (p.width * p.height) as usize,
                    );
                    self.pack_r8(p.width, p.height, p.offset_x, p.offset_y, gray.as_slice())
                } else {
                    self.pack_r8(p.width, p.height, p.offset_x, p.offset_y, p.data.as_slice())
                }
            },
        };
        self.entries.insert(c as u32, info);
        info
    }
}

/// Once the uploads have been handed out, nothing is left to upload.
pub proof fn law_uploads_clean(pages: Seq<AtlasPage>, i: int)
    requires
        0 <= i < pages.len(),
    ensures
        !pages.map_values(|p: AtlasPage| cleaned(p))[i].dirty,
{
}

} // verus!
