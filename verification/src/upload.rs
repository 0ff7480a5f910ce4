//! What goes to the graphics card: the part of the instances that has changed, the draw calls, the
//! size of the buffer, and how the window's surface is set up and recovered.

use vstd::prelude::*;

verus! {

/// Which instances have to be uploaded.
#[derive(Debug, Clone, Copy, PartialEq, Eq, Structural)]
pub enum InstanceUpload {
    /// All: there are more or fewer than before.
    Whole,
    /// None: they are the same.
    Nothing,
    /// Those from `first` up to `last`.
    Window { first: usize, last: usize },
}

/// The instance at place `i` in a row of bytes.
pub open spec fn instance(bytes: Seq<u8>, stride: int, i: int) -> Seq<u8> {
    bytes.subrange(i * stride, i * stride + stride)
}

proof fn lemma_instance_inside(n: int, stride: int, i: int)
    requires
        0 <= i < n,
        0 <= stride,
    ensures
        0 <= i * stride,
        i * stride + stride <= n * stride,
{
    assert(0 <= i * stride && i * stride + stride <= n * stride) by (nonlinear_arith)
        requires
            0 <= i < n,
            0 <= stride,
    ;
}

fn same_instance(a: &[u8], b: &[u8], stride: usize, i: usize, Ghost(n): Ghost<int>) -> (r: bool)
    requires
        a@.len() == n * stride,
        b@.len() == n * stride,
        i < n,
    ensures
        r == (instance(a@, stride as int, i as int) == instance(b@, stride as int, i as int)),
{
    proof {
        lemma_instance_inside(n, stride as int, i as int);
    }
    let len: usize = a.len();
    let base: usize = i * stride;
    let mut k: usize = 0;
    while k < stride
        invariant
            k <= stride,
            len == a@.len(),
            base == i * stride,
            base + stride <= a@.len(),
            a@.len() == b@.len(),
            forall|j: int| base <= j < base + k ==> #[trigger] a@[j] == b@[j],
        decreases stride - k,
    {
        if a[base + k] != b[base + k] {
            assert(instance(a@, stride as int, i as int)[k as int] != instance(
                b@,
                stride as int,
                i as int,
            )[k as int]);
            return false;
        }
        k = k + 1;
    }
    assert(instance(a@, stride as int, i as int) =~= instance(b@, stride as int, i as int));
    true
}

/// Finds which instances have to be uploaded: the shortest run that holds every one that differs.
/// `prev` and `new` are the bytes of `prev_count` and `new_count` instances of `stride` bytes.
pub fn changed_window(
    prev: &[u8],
    prev_count: usize,
    new: &[u8],
    new_count: usize,
    stride: usize,
) -> (r: InstanceUpload)
    requires
        prev@.len() == prev_count * stride,
        new@.len() == new_count * stride,
    ensures
        r is Whole <==> prev_count != new_count,
        r is Nothing <==> prev_count == new_count && forall|i: int|
            0 <= i < new_count ==> #[trigger] instance(new@, stride as int, i) == instance(
                prev@,
                stride as int,
                i,
            ),
        r matches InstanceUpload::Window { first, last } ==> {
            &&& first < last <= new_count
            &&& instance(new@, stride as int, first as int) != instance(
                prev@,
                stride as int,
                first as int,
            )
            &&& instance(new@, stride as int, last - 1) != instance(prev@, stride as int, last - 1)
            &&& forall|i: int|
                (0 <= i < first || last <= i < new_count) ==> #[trigger] instance(
                    new@,
                    stride as int,
                    i,
                ) == instance(prev@, stride as int, i)
        },
{
    if prev_count != new_count {
        return InstanceUpload::Whole;
    }
    let mut first: usize = 0;
    while first < new_count && same_instance(new, prev, stride, first, Ghost(new_count as int))
        invariant
            first <= new_count,
            prev_count == new_count,
            prev@.len() == prev_count * stride,
            new@.len() == new_count * stride,
            forall|i: int|
                0 <= i < first ==> #[trigger] instance(new@, stride as int, i) == instance(
                    prev@,
                    stride as int,
                    i,
                ),
        decreases new_count - first,
    {
        first = first + 1;
    }
    if first == new_count {
        return InstanceUpload::Nothing;
    }
    let mut last: usize = new_count;
    while last > first && same_instance(new, prev, stride, last - 1, Ghost(new_count as int))
        invariant
            first < new_count,
            first < last <= new_count,
            prev_count == new_count,
            prev@.len() == prev_count * stride,
            new@.len() == new_count * stride,
            instance(new@, stride as int, first as int) != instance(
                prev@,
                stride as int,
                first as int,
            ),
            forall|i: int|
                last <= i < new_count ==> #[trigger] instance(new@, stride as int, i) == instance(
                    prev@,
                    stride as int,
                    i,
                ),
        decreases last,
    {
        last = last - 1;
    }
    InstanceUpload::Window { first, last }
}

/// After the window has been uploaded, the card holds the new instances: the old bytes with the
/// window's bytes replaced are the new ones.
pub proof fn law_window_suffices(
    prev: Seq<u8>,
    new: Seq<u8>,
    count: int,
    stride: int,
    first: int,
    last: int,
)
    requires
        stride >= 1,
        0 <= first <= last <= count,
        prev.len() == count * stride,
        new.len() == count * stride,
        forall|i: int|
            (0 <= i < first || last <= i < count) ==> #[trigger] instance(new, stride, i)
                == instance(prev, stride, i),
    ensures
        prev.take(first * stride) + new.subrange(first * stride, last * stride) + prev.skip(
            last * stride,
        ) == new,
{
    assert(0 <= first * stride <= last * stride <= count * stride) by (nonlinear_arith)
        requires
            stride >= 1,
            0 <= first <= last <= count,
    ;
    assert forall|k: int|
        (0 <= k < first * stride || last * stride <= k < count * stride) implies prev[k] == new[k] by {
        let i = k / stride;
        let j = k % stride;
        vstd::arithmetic::div_mod::lemma_fundamental_div_mod(k, stride);
        assert(0 <= j < stride);
        assert(k == i * stride + j) by (nonlinear_arith)
            requires
                k == stride * i + j,
        ;
        assert(0 <= i < count && (k < first * stride ==> i < first) && (k >= last * stride ==> i
            >= last)) by (nonlinear_arith)
            requires
                k == i * stride + j,
                0 <= j < stride,
                0 <= k < count * stride,
        ;
        lemma_instance_inside(count, stride, i);
        assert(instance(new, stride, i) == instance(prev, stride, i));
        assert(instance(new, stride, i)[j] == new[k]);
        assert(instance(prev, stride, i)[j] == prev[k]);
    }
    assert(prev.take(first * stride) + new.subrange(first * stride, last * stride) + prev.skip(
        last * stride,
    ) =~= new);
}

/// Instances that are drawn in one call, because their glyphs are on the same page.
#[derive(Debug, Clone, Copy, PartialEq, Eq, Structural)]
pub struct Batch {
    /// The page to bind.
    pub page: usize,
    pub start: usize,
    pub end: usize,
}

/// The page to bind for a glyph's page: the last one where that does not exist.
pub open spec fn bound_page(page: usize, page_count: usize) -> usize {
    if page < page_count {
        page
    } else if page_count == 0 {
        0
    } else {
        (page_count - 1) as usize
    }
}

/// The batches cover the first `n` instances without gaps, and each holds a run of one page.
pub open spec fn tiles(batches: Seq<Batch>, pages: Seq<u16>, page_count: usize, n: int) -> bool {
    &&& batches.len() == 0 ==> n == 0
    &&& batches.len() > 0 ==> batches[0].start == 0 && batches.last().end == n
    &&& forall|b: int| 0 <= b < batches.len() ==> is_run(#[trigger] batches[b], pages, page_count)
    &&& forall|b: int|
        1 <= b < batches.len() ==> (#[trigger] batches[b]).start == batches[b - 1].end
            && pages[batches[b].start as int] != pages[batches[b].start - 1]
}

/// A batch holds a run of one page.
pub open spec fn is_run(b: Batch, pages: Seq<u16>, page_count: usize) -> bool {
    &&& b.start < b.end <= pages.len()
    &&& b.page == bound_page(pages[b.start as int] as usize, page_count)
    &&& forall|i: int| b.start <= i < b.end ==> #[trigger] pages[i] == pages[b.start as int]
}

/// Gathers instances that follow one another and whose glyphs are on the same page.
pub fn batches(pages: &Vec<u16>, page_count: usize) -> (r: Vec<Batch>)
    ensures
        tiles(r@, pages@, page_count, pages@.len() as int),
{
    let mut out: Vec<Batch> = Vec::new();
    let mut start: usize = 0;
    while start < pages.len()
        invariant
            start <= pages@.len(),
            tiles(out@, pages@, page_count, start as int),
            0 < start < pages@.len() ==> pages@[start as int] != pages@[start - 1],
        decreases pages@.len() - start,
    {
        let page: u16 = pages[start];
        let mut end: usize = start + 1;
        while end < pages.len() && pages[end] == page
            invariant
                start < end <= pages@.len(),
                page == pages@[start as int],
                forall|i: int| start <= i < end ==> #[trigger] pages@[i] == page,
            decreases pages@.len() - end,
        {
            end = end + 1;
        }
        let bound: usize = if (page as usize) < page_count {
            page as usize
        } else if page_count == 0 {
            0
        } else {
            page_count - 1
        };
        let ghost before = out@;
        out.push(Batch { page: bound, start, end });
        proof {
            assert forall|b: int| 0 <= b < out@.len() implies is_run(
                #[trigger] out@[b],
                pages@,
                page_count,
            ) by {
                if b < before.len() {
                    assert(out@[b] == before[b]);
                }
            }
            assert forall|b: int| 1 <= b < out@.len() implies (#[trigger] out@[b]).start
                == out@[b - 1].end && pages@[out@[b].start as int] != pages@[out@[b].start - 1] by {
                if b < before.len() {
                    assert(out@[b] == before[b]);
                    assert(out@[b - 1] == before[b - 1]);
                } else {
                    assert(out@[b - 1] == before.last());
                }
            }
        }
        start = end;
    }
    out
}

/// The size that a buffer for `capacity` instances has to grow to in order to hold `needed`, if it
/// has to.
pub fn grown_capacity(needed: usize, capacity: usize) -> (r: Option<usize>)
    requires
        needed + 1024 <= usize::MAX,
    ensures
        r == if needed > capacity {
            Some((needed + 1024) as usize)
        } else {
            None
        },
{
    if needed > capacity {
        Some(needed + 1024)
    } else {
        None
    }
}

/// The cells of the first `n` panes, with their gutters in log mode.
pub open spec fn pane_cells(sizes: Seq<(usize, usize)>, log_mode: bool, n: nat) -> int
    decreases n,
{
    if n == 0 {
        0
    } else {
        let (rows, cols) = sizes[n - 1];
        pane_cells(sizes, log_mode, (n - 1) as nat) + rows * cols + if log_mode {
            rows * 20
        } else {
            0
        }
    }
}

proof fn lemma_cells_grow(sizes: Seq<(usize, usize)>, log_mode: bool, n: nat)
    requires
        n <= sizes.len(),
    ensures
        0 <= pane_cells(sizes, log_mode, n) <= pane_cells(sizes, log_mode, sizes.len()),
    decreases sizes.len() - n,
{
    if n < sizes.len() {
        lemma_cells_grow(sizes, log_mode, n + 1);
        lemma_cells_positive(sizes, log_mode, n);
        let (rows, cols) = sizes[n as int];
        assert(rows * cols >= 0) by (nonlinear_arith);
    } else {
        lemma_cells_positive(sizes, log_mode, n);
    }
}

proof fn lemma_cells_positive(sizes: Seq<(usize, usize)>, log_mode: bool, n: nat)
    ensures
        0 <= pane_cells(sizes, log_mode, n),
    decreases n,
{
    if n > 0 {
        lemma_cells_positive(sizes, log_mode, (n - 1) as nat);
        let (rows, cols) = sizes[n - 1];
        assert(rows * cols >= 0) by (nonlinear_arith);
    }
}

/// Estimates how many instances a frame needs: every cell of every pane, the gutters in log mode,
/// and some to spare. `sizes` holds each pane's rows and columns.
pub fn estimate_instances(sizes: &Vec<(usize, usize)>, log_mode: bool) -> (r: usize)
    requires
        pane_cells(sizes@, log_mode, sizes@.len()) + 512 <= usize::MAX,
    ensures
        r == pane_cells(sizes@, log_mode, sizes@.len()) + 512,
{
    let mut sum: usize = 0;
    let mut i: usize = 0;
    while i < sizes.len()
        invariant
            i <= sizes@.len(),
            pane_cells(sizes@, log_mode, sizes@.len()) + 512 <= usize::MAX,
            sum == pane_cells(sizes@, log_mode, i as nat),
        decreases sizes@.len() - i,
    {
        let (rows, cols): (usize, usize) = sizes[i];
        proof {
            lemma_cells_grow(sizes@, log_mode, (i + 1) as nat);
            assert(rows * cols >= 0) by (nonlinear_arith);
        }
        let extra: usize = if log_mode {
            rows * 20
        } else {
            0
        };
        sum = sum + rows * cols + extra;
        i = i + 1;
    }
    sum + 512
}

/// The surface format to use among those that the card offers: the first that is sRGB, else the
/// first. `srgb` says of each format whether it is.
pub fn choose_format(srgb: &Vec<bool>) -> (r: usize)
    ensures
        ({
            ||| r < srgb@.len() && srgb@[r as int] && forall|i: int| 0 <= i < r ==> !srgb@[i]
            ||| r == 0 && forall|i: int| 0 <= i < srgb@.len() ==> !srgb@[i]
        }),
{
    let mut i: usize = 0;
    while i < srgb.len()
        invariant
            i <= srgb@.len(),
            forall|j: int| 0 <= j < i ==> !srgb@[j],
        decreases srgb@.len() - i,
    {
        if srgb[i] {
            return i;
        }
        i = i + 1;
    }
    0
}

/// The size of a surface for a window of the given size: at least one pixel each way.
pub fn surface_size(width: u32, height: u32) -> (r: (u32, u32))
    ensures
        r.0 == crate::grid::max(width as int, 1),
        r.1 == crate::grid::max(height as int, 1),
{
    let w: u32 = if width >= 1 {
        width
    } else {
        1
    };
    let h: u32 = if height >= 1 {
        height
    } else {
        1
    };
    (w, h)
}

/// Whether a new window size is taken over: one without area is not.
pub fn accepts_size(width: u32, height: u32) -> (r: bool)
    ensures
        r == (width > 0 && height > 0),
{
    width != 0 && height != 0
}

/// How the request for the next image of the surface came out.
#[derive(Debug, Clone, Copy, PartialEq, Eq, Structural)]
pub enum Acquired {
    Image,
    Lost,
    Outdated,
    OutOfMemory,
    Timeout,
    Other,
}

/// What to do next.
#[derive(Debug, Clone, Copy, PartialEq, Eq, Structural)]
pub enum FrameStep {
    /// Draw into the image.
    Draw,
    /// Set the surface up again and leave this frame out.
    Reconfigure,
    /// Leave this frame out.
    Skip,
    /// Give up.
    Fail,
}

/// Decides what to do with the outcome of a request for an image.
pub fn frame_step(a: Acquired) -> (r: FrameStep)
    ensures
        r == match a {
            Acquired::Image => FrameStep::Draw,
            Acquired::Lost | Acquired::Outdated => FrameStep::Reconfigure,
            Acquired::Timeout => FrameStep::Skip,
            Acquired::OutOfMemory | Acquired::Other => FrameStep::Fail,
        },
{
    match a {
        Acquired::Image => FrameStep::Draw,
        Acquired::Lost => FrameStep::Reconfigure,
        Acquired::Outdated => FrameStep::Reconfigure,
        Acquired::Timeout => FrameStep::Skip,
        Acquired::OutOfMemory => FrameStep::Fail,
        Acquired::Other => FrameStep::Fail,
    }
}

/// Whether a key press goes past the panels to the terminal: Tab and Escape do, unless a text field
/// has the focus.
pub fn key_for_terminal(tab_or_escape: bool, text_field_focused: bool) -> (r: bool)
    ensures
        r == (tab_or_escape && !text_field_focused),
{
    tab_or_escape && !text_field_focused
}

} // verus!
