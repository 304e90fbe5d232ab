use crate::flags::{Buffer, Primitive};
use crate::frame::{cleared_colors, cleared_depths, linear_index, pixel_in_frame, FrameBuffers};
use crate::geometry::{DrawError, GeometryStore, IndBufId, PosBufId};
use crate::line::{draw_line, line_len, line_point};
use vstd::prelude::*;

verus! {

/// Number of multi-sample buffer pairs a rasterizer keeps.
pub const MSAA_COUNT: u32 = 1;

/// A half-open pixel rectangle `[x0, x1) x [y0, y1)`.
#[derive(Clone, Copy, Debug, PartialEq, Eq, Structural)]
pub struct PixelBox {
    pub x0: i32,
    pub x1: i32,
    pub y0: i32,
    pub y1: i32,
}

pub open spec fn min3(a: int, b: int, c: int) -> int {
    if a <= b && a <= c {
        a
    } else if b <= c {
        b
    } else {
        c
    }
}

pub open spec fn max3(a: int, b: int, c: int) -> int {
    if a >= b && a >= c {
        a
    } else if b >= c {
        b
    } else {
        c
    }
}

pub open spec fn clamp(v: int, lo: int, hi: int) -> int {
    if v < lo {
        lo
    } else if v > hi {
        hi
    } else {
        v
    }
}

fn min_i64(a: i64, b: i64) -> (r: i64)
    ensures
        r == if a <= b {
            a
        } else {
            b
        },
{
    if a <= b {
        a
    } else {
        b
    }
}

fn max_i64(a: i64, b: i64) -> (r: i64)
    ensures
        r == if a >= b {
            a
        } else {
            b
        },
{
    if a >= b {
        a
    } else {
        b
    }
}

/// The pixels that can hold a triangle whose corners lie in pixel columns
/// `xs` and scanlines `ys`: from the smallest to the largest corner
/// coordinate, clipped to `[0, width] x [0, height]`.
pub fn bounding_box(width: u32, height: u32, xs: [i32; 3], ys: [i32; 3]) -> (r: PixelBox)
    ensures
        r.x0 == clamp(min3(xs[0] as int, xs[1] as int, xs[2] as int), 0, width as int),
        r.x1 == clamp(max3(xs[0] as int, xs[1] as int, xs[2] as int), 0, width as int),
        r.y0 == clamp(min3(ys[0] as int, ys[1] as int, ys[2] as int), 0, height as int),
        r.y1 == clamp(max3(ys[0] as int, ys[1] as int, ys[2] as int), 0, height as int),
{
    let w = width as i64;
    let h = height as i64;
    let x_lo = min_i64(min_i64(xs[0] as i64, xs[1] as i64), xs[2] as i64);
    let x_hi = max_i64(max_i64(xs[0] as i64, xs[1] as i64), xs[2] as i64);
    let y_lo = min_i64(min_i64(ys[0] as i64, ys[1] as i64), ys[2] as i64);
    let y_hi = max_i64(max_i64(ys[0] as i64, ys[1] as i64), ys[2] as i64);
    PixelBox {
        x0: max_i64(min_i64(x_lo, w), 0) as i32,
        x1: min_i64(max_i64(x_hi, 0), w) as i32,
        y0: max_i64(min_i64(y_lo, h), 0) as i32,
        y1: min_i64(max_i64(y_hi, 0), h) as i32,
    }
}

/// Whether a point lies inside a triangle, given for each edge the sign
/// (-1, 0 or 1) of the cross product of the point's offset with the edge:
/// inside when all three signed areas are non-negative or all are
/// non-positive, so either winding order is accepted and a point on an edge
/// counts as inside.
pub fn edge_signs_agree(signs: [i8; 3]) -> (r: bool)
    ensures
        r == ((signs[0] >= 0 && signs[1] >= 0 && signs[2] >= 0) || (signs[0] <= 0 && signs[1]
            <= 0 && signs[2] <= 0)),
{
    let mut non_negative = true;
    let mut non_positive = true;
    let mut i: usize = 0;
    while i < 3
        invariant
            i <= 3,
            non_negative == forall|j: int| 0 <= j < i ==> signs[j] >= 0,
            non_positive == forall|j: int| 0 <= j < i ==> signs[j] <= 0,
        decreases 3 - i,
    {
        if signs[i] < 0 {
            non_negative = false;
        }
        if signs[i] > 0 {
            non_positive = false;
        }
        i = i + 1;
    }
    assert((signs[0] >= 0 && signs[1] >= 0 && signs[2] >= 0) == forall|j: int|
        0 <= j < 3 ==> signs[j] >= 0);
    assert((signs[0] <= 0 && signs[1] <= 0 && signs[2] <= 0) == forall|j: int|
        0 <= j < 3 ==> signs[j] <= 0);
    non_negative || non_positive
}

/// Whether `(row, col)` lies in the closed rectangle `[0, width] x [0, height]`;
/// a pixel write outside it is dropped without error.
pub open spec fn in_soft_box(width: int, height: int, row: int, col: int) -> bool {
    0 <= row <= width && 0 <= col <= height
}

/// Whether one of the first `count` pixels of the line from `begin` to `end`
/// lies in the frame at linear index `idx`.
pub open spec fn line_hits(
    begin: (i32, i32),
    end: (i32, i32),
    width: int,
    height: int,
    count: int,
    idx: int,
) -> bool {
    exists|k: int|
        #![trigger line_point(begin.0 as int, begin.1 as int, end.0 as int, end.1 as int, k)]
        0 <= k < count && {
            let p = line_point(begin.0 as int, begin.1 as int, end.0 as int, end.1 as int, k);
            pixel_in_frame(width, height, p.0, p.1) && linear_index(width, height, p.0, p.1)
                == idx
        }
}

/// The number of pixels on the line from `begin` to `end`.
pub open spec fn pixels_on_line(begin: (i32, i32), end: (i32, i32)) -> int {
    line_len(begin.0 as int, begin.1 as int, end.0 as int, end.1 as int)
}

/// Whether every pixel of the line that is not dropped by the soft clip lies
/// in the frame.
pub open spec fn line_fits(begin: (i32, i32), end: (i32, i32), width: int, height: int) -> bool {
    forall|k: int|
        #![trigger line_point(begin.0 as int, begin.1 as int, end.0 as int, end.1 as int, k)]
        0 <= k < pixels_on_line(begin, end) ==> {
            let p = line_point(begin.0 as int, begin.1 as int, end.0 as int, end.1 as int, k);
            in_soft_box(width, height, p.0, p.1) ==> pixel_in_frame(width, height, p.0, p.1)
        }
}

/// `base` with every pixel hit by the first `count` pixels of the line set to `color`.
pub open spec fn painted<C>(
    base: Seq<C>,
    begin: (i32, i32),
    end: (i32, i32),
    width: int,
    height: int,
    count: int,
    color: C,
) -> Seq<C> {
    Seq::new(
        base.len(),
        |idx: int|
            if line_hits(begin, end, width, height, count, idx) {
                color
            } else {
                base[idx]
            },
    )
}

proof fn lemma_hits_step(
    begin: (i32, i32),
    end: (i32, i32),
    width: int,
    height: int,
    k: int,
    idx: int,
)
    requires
        0 <= k,
    ensures
        ({
            let p = line_point(begin.0 as int, begin.1 as int, end.0 as int, end.1 as int, k);
            line_hits(begin, end, width, height, k + 1, idx) == (line_hits(
                begin,
                end,
                width,
                height,
                k,
                idx,
            ) || (pixel_in_frame(width, height, p.0, p.1) && linear_index(width, height, p.0, p.1)
                == idx))
        }),
{
    let p = line_point(begin.0 as int, begin.1 as int, end.0 as int, end.1 as int, k);
    if line_hits(begin, end, width, height, k + 1, idx) {
        let j = choose|j: int|
            #![trigger line_point(begin.0 as int, begin.1 as int, end.0 as int, end.1 as int, j)]
            0 <= j < k + 1 && {
                let q = line_point(begin.0 as int, begin.1 as int, end.0 as int, end.1 as int, j);
                pixel_in_frame(width, height, q.0, q.1) && linear_index(width, height, q.0, q.1)
                    == idx
            };
        if j < k {
            assert(line_hits(begin, end, width, height, k, idx));
        }
    }
}

/// The values of every buffer slot at pixel `idx`: the samples first, the
/// merged slot last.
pub open spec fn slot_values<T>(bufs: Seq<Seq<T>>, idx: int) -> Seq<T> {
    Seq::new(bufs.len(), |s: int| bufs[s][idx])
}

/// What sample `s` of pixel `(x, y)` holds after shading: the fragment
/// function saw the stored depth and either rejected the sample, which keeps
/// its color and depth, or returned the color and depth now stored.
pub open spec fn sample_outcome<C, D, Frag: Fn(i32, i32, usize, D) -> Option<(C, D)>>(
    fragment: Frag,
    x: i32,
    y: i32,
    s: int,
    before_c: C,
    before_d: D,
    after_c: C,
    after_d: D,
) -> bool {
    ||| call_ensures(fragment, (x, y, s as usize, before_d), None) && after_c == before_c
        && after_d == before_d
    ||| call_ensures(fragment, (x, y, s as usize, before_d), Some((after_c, after_d)))
}

/// A pixel after shading: every sample slot went through the fragment
/// function in turn, then the merged slot received what the merge function
/// made of the sample slots.
pub open spec fn shaded<C, D, Frag, Mrg>(
    fragment: Frag,
    merge: Mrg,
    x: i32,
    y: i32,
    before_c: Seq<C>,
    before_d: Seq<D>,
    after_c: Seq<C>,
    after_d: Seq<D>,
) -> bool where
    Frag: Fn(i32, i32, usize, D) -> Option<(C, D)>,
    Mrg: Fn(&Vec<C>, &Vec<D>) -> (C, D),
 {
    let m = MSAA_COUNT as int;
    &&& before_c.len() == m + 1
    &&& before_d.len() == m + 1
    &&& after_c.len() == m + 1
    &&& after_d.len() == m + 1
    &&& forall|s: int|
        0 <= s < m ==> #[trigger] sample_outcome(
            fragment,
            x,
            y,
            s,
            before_c[s],
            before_d[s],
            after_c[s],
            after_d[s],
        )
    &&& exists|cs: Vec<C>, ds: Vec<D>|
        cs@ == after_c.take(m) && ds@ == after_d.take(m) && #[trigger] call_ensures(
            merge,
            (&cs, &ds),
            (after_c[m], after_d[m]),
        )
}

/// Pixel `(x, y)` of the box after a fill: when the coverage test rejected
/// it, it is unchanged, else it was shaded.
pub open spec fn pixel_outcome<C, D, Cov, Frag, Mrg>(
    covered: Cov,
    fragment: Frag,
    merge: Mrg,
    x: i32,
    y: i32,
    before_c: Seq<C>,
    before_d: Seq<D>,
    after_c: Seq<C>,
    after_d: Seq<D>,
) -> bool where
    Cov: Fn(i32, i32) -> bool,
    Frag: Fn(i32, i32, usize, D) -> Option<(C, D)>,
    Mrg: Fn(&Vec<C>, &Vec<D>) -> (C, D),
 {
    ||| call_ensures(covered, (x, y), false) && after_c == before_c && after_d == before_d
    ||| call_ensures(covered, (x, y), true) && shaded(
        fragment,
        merge,
        x,
        y,
        before_c,
        before_d,
        after_c,
        after_d,
    )
}

/// Whether pixel `(x, y)` lies in the half-open box.
pub open spec fn in_box(b: PixelBox, x: int, y: int) -> bool {
    b.x0 <= x < b.x1 && b.y0 <= y < b.y1
}

/// Whether some pixel of the box lies in the frame at linear index `idx`.
pub open spec fn box_hits(b: PixelBox, width: int, height: int, idx: int) -> bool {
    exists|x: int, y: int|
        #![trigger linear_index(width, height, x, y)]
        in_box(b, x, y) && pixel_in_frame(width, height, x, y) && linear_index(width, height, x, y)
            == idx
}

/// Distinct pixels of the frame have distinct linear indices.
pub proof fn lemma_linear_index_injective(width: int, height: int, x1: int, y1: int, x2: int, y2: int)
    requires
        pixel_in_frame(width, height, x1, y1),
        pixel_in_frame(width, height, x2, y2),
        linear_index(width, height, x1, y1) == linear_index(width, height, x2, y2),
    ensures
        x1 == x2 && y1 == y2,
{
    assert(y1 == y2) by (nonlinear_arith)
        requires
            0 <= x1 < width,
            0 <= x2 < width,
            (height - y1) * width + x1 == (height - y2) * width + x2,
    ;
}

/// Pixel `(x, y)` of a box after a fill that went from the buffers
/// `before_*` to `after_*`: a pixel of the frame ended as `pixel_outcome`
/// says; one outside the frame was rejected by the coverage test.
pub open spec fn pixel_filled<C, D, Cov, Frag, Mrg>(
    covered: Cov,
    fragment: Frag,
    merge: Mrg,
    before_c: Seq<Seq<C>>,
    before_d: Seq<Seq<D>>,
    after_c: Seq<Seq<C>>,
    after_d: Seq<Seq<D>>,
    width: int,
    height: int,
    x: i32,
    y: i32,
) -> bool where
    Cov: Fn(i32, i32) -> bool,
    Frag: Fn(i32, i32, usize, D) -> Option<(C, D)>,
    Mrg: Fn(&Vec<C>, &Vec<D>) -> (C, D),
 {
    if pixel_in_frame(width, height, x as int, y as int) {
        let i = linear_index(width, height, x as int, y as int);
        pixel_outcome(
            covered,
            fragment,
            merge,
            x,
            y,
            slot_values(before_c, i),
            slot_values(before_d, i),
            slot_values(after_c, i),
            slot_values(after_d, i),
        )
    } else {
        call_ensures(covered, (x, y), false)
    }
}

/// Whether the scan of the box, column by column and within a column
/// scanline by scanline, has passed pixel `(x, y)` on reaching `(cx, cy)`.
pub open spec fn scanned(b: PixelBox, cx: int, cy: int, x: int, y: int) -> bool {
    in_box(b, x, y) && (x < cx || (x == cx && y < cy))
}

/// Whether a scanned pixel of the frame has linear index `idx`.
pub open spec fn scanned_hits(b: PixelBox, width: int, height: int, cx: int, cy: int, idx: int) -> bool {
    exists|x: int, y: int|
        #![trigger linear_index(width, height, x, y)]
        scanned(b, cx, cy, x, y) && pixel_in_frame(width, height, x, y) && linear_index(
            width,
            height,
            x,
            y,
        ) == idx
}

proof fn lemma_scan_step(b: PixelBox, width: int, height: int, cx: int, cy: int, idx: int)
    requires
        in_box(b, cx, cy),
    ensures
        scanned_hits(b, width, height, cx, cy + 1, idx) == (scanned_hits(
            b,
            width,
            height,
            cx,
            cy,
            idx,
        ) || (pixel_in_frame(width, height, cx, cy) && linear_index(width, height, cx, cy)
            == idx)),
{
    if scanned_hits(b, width, height, cx, cy + 1, idx) {
        let (x, y) = choose|x: int, y: int|
            #![trigger linear_index(width, height, x, y)]
            scanned(b, cx, cy + 1, x, y) && pixel_in_frame(width, height, x, y) && linear_index(
                width,
                height,
                x,
                y,
            ) == idx;
        if !(x == cx && y == cy) {
            assert(scanned(b, cx, cy, x, y));
        }
    }
    if scanned_hits(b, width, height, cx, cy, idx) {
        let (x, y) = choose|x: int, y: int|
            #![trigger linear_index(width, height, x, y)]
            scanned(b, cx, cy, x, y) && pixel_in_frame(width, height, x, y) && linear_index(
                width,
                height,
                x,
                y,
            ) == idx;
        assert(scanned(b, cx, cy + 1, x, y));
    }
    if pixel_in_frame(width, height, cx, cy) && linear_index(width, height, cx, cy) == idx {
        assert(scanned(b, cx, cy + 1, cx, cy));
    }
}

proof fn lemma_scan_column(b: PixelBox, width: int, height: int, cx: int, idx: int)
    ensures
        scanned_hits(b, width, height, cx, b.y1 as int, idx) == scanned_hits(
            b,
            width,
            height,
            cx + 1,
            b.y0 as int,
            idx,
        ),
{
    assert forall|x: int, y: int| scanned(b, cx, b.y1 as int, x, y) == scanned(b, cx + 1, b.y0 as int, x, y) by {}
    if scanned_hits(b, width, height, cx, b.y1 as int, idx) {
        let (x, y) = choose|x: int, y: int|
            #![trigger linear_index(width, height, x, y)]
            scanned(b, cx, b.y1 as int, x, y) && pixel_in_frame(width, height, x, y) && linear_index(
                width,
                height,
                x,
                y,
            ) == idx;
        assert(scanned(b, cx + 1, b.y0 as int, x, y));
    }
    if scanned_hits(b, width, height, cx + 1, b.y0 as int, idx) {
        let (x, y) = choose|x: int, y: int|
            #![trigger linear_index(width, height, x, y)]
            scanned(b, cx + 1, b.y0 as int, x, y) && pixel_in_frame(width, height, x, y) && linear_index(
                width,
                height,
                x,
                y,
            ) == idx;
        assert(scanned(b, cx, b.y1 as int, x, y));
    }
}

proof fn lemma_scan_fresh(b: PixelBox, width: int, height: int, cx: int, cy: int)
    requires
        pixel_in_frame(width, height, cx, cy),
    ensures
        !scanned_hits(b, width, height, cx, cy, linear_index(width, height, cx, cy)),
{
    if scanned_hits(b, width, height, cx, cy, linear_index(width, height, cx, cy)) {
        let (x, y) = choose|x: int, y: int|
            #![trigger linear_index(width, height, x, y)]
            scanned(b, cx, cy, x, y) && pixel_in_frame(width, height, x, y) && linear_index(
                width,
                height,
                x,
                y,
            ) == linear_index(width, height, cx, cy);
        lemma_linear_index_injective(width, height, x, y, cx, cy);
    }
}

/// Geometry buffers and frame state of one rasterizer, over vertex type `V`,
/// color type `C` and depth type `D`.
pub struct Rasterizer<V, C, D> {
    store: GeometryStore<V>,
    frame: FrameBuffers<C, D>,
}

impl<V, C: Copy, D: Copy> Rasterizer<V, C, D> {
    pub closed spec fn store(&self) -> GeometryStore<V> {
        self.store
    }

    pub closed spec fn frame(&self) -> FrameBuffers<C, D> {
        self.frame
    }

    pub open spec fn wf(&self) -> bool {
        &&& self.store().wf()
        &&& self.frame().wf()
        &&& self.frame().spec_samples() == MSAA_COUNT
    }

    pub open spec fn spec_width(&self) -> int {
        self.frame().spec_width() as int
    }

    pub open spec fn spec_height(&self) -> int {
        self.frame().spec_height() as int
    }

    /// The color buffer that holds the merged samples.
    pub open spec fn merged_colors(&self) -> Seq<C> {
        self.frame().colors()[self.frame().merged_slot()]
    }

    /// A rasterizer with a `width` by `height` frame whose color slots hold
    /// `color` and whose depth slots hold `depth`, and no geometry.
    pub fn new(width: u32, height: u32, color: C, depth: D) -> (r: Self)
        requires
            width * height <= usize::MAX,
        ensures
            r.wf(),
            r.spec_width() == width,
            r.spec_height() == height,
            r.store().handles() == Seq::<u32>::empty(),
            r.store().position_buffers() == Map::<u32, Seq<V>>::empty(),
            r.store().index_buffers() == Map::<u32, Seq<[u32; 3]>>::empty(),
            forall|s: int, i: int|
                0 <= s <= MSAA_COUNT && 0 <= i < width * height ==> #[trigger] r.frame().colors()[s][i]
                    == color && r.frame().depths()[s][i] == depth,
    {
        Rasterizer {
            store: GeometryStore::new(),
            frame: FrameBuffers::new(width, height, MSAA_COUNT, color, depth),
        }
    }

    pub fn width(&self) -> (r: u32)
        requires
            self.wf(),
        ensures
            r == self.spec_width(),
    {
        self.frame.width()
    }

    pub fn height(&self) -> (r: u32)
        requires
            self.wf(),
        ensures
            r == self.spec_height(),
    {
        self.frame.height()
    }

    /// Whether another buffer can be loaded.
    pub fn has_free_handle(&self) -> (r: bool)
        requires
            self.wf(),
        ensures
            r == (self.store().handles().len() < u32::MAX),
    {
        self.store.has_free_handle()
    }

    /// Stores a vertex buffer under a new handle.
    pub fn load_position(&mut self, positions: Vec<V>) -> (r: PosBufId)
        requires
            old(self).wf(),
            old(self).store().handles().len() < u32::MAX,
        ensures
            final(self).wf(),
            final(self).frame() == old(self).frame(),
            r.spec_id() == old(self).store().handles().len(),
            !old(self).store().handles().contains(r.spec_id()),
            !old(self).store().position_buffers().contains_key(r.spec_id()),
            !old(self).store().index_buffers().contains_key(r.spec_id()),
            final(self).store().handles() == old(self).store().handles().push(r.spec_id()),
            final(self).store().position_buffers() == old(self).store().position_buffers().insert(
                r.spec_id(),
                positions@,
            ),
            final(self).store().index_buffers() == old(self).store().index_buffers(),
    {
        self.store.load_position(positions)
    }

    /// Stores an index buffer under a new handle.
    pub fn load_indices(&mut self, indices: Vec<[u32; 3]>) -> (r: IndBufId)
        requires
            old(self).wf(),
            old(self).store().handles().len() < u32::MAX,
        ensures
            final(self).wf(),
            final(self).frame() == old(self).frame(),
            r.spec_id() == old(self).store().handles().len(),
            !old(self).store().handles().contains(r.spec_id()),
            !old(self).store().position_buffers().contains_key(r.spec_id()),
            !old(self).store().index_buffers().contains_key(r.spec_id()),
            final(self).store().handles() == old(self).store().handles().push(r.spec_id()),
            final(self).store().index_buffers() == old(self).store().index_buffers().insert(
                r.spec_id(),
                indices@,
            ),
            final(self).store().position_buffers() == old(self).store().position_buffers(),
    {
        self.store.load_indices(indices)
    }

    /// Resets the buffers that `flags` selects, in every sample slot and in
    /// the merged slot.
    pub fn clear(&mut self, flags: Buffer, color: C, depth: D)
        requires
            old(self).wf(),
        ensures
            final(self).wf(),
            final(self).store() == old(self).store(),
            final(self).spec_width() == old(self).spec_width(),
            final(self).spec_height() == old(self).spec_height(),
            final(self).frame().colors() == cleared_colors(old(self).frame().colors(), flags, color),
            final(self).frame().depths() == cleared_depths(old(self).frame().depths(), flags, depth),
    {
        self.frame.clear(flags, color, depth);
    }

    /// The linear index of pixel `(row, col)`.
    pub fn get_index(&self, row: i32, col: i32) -> (r: Result<usize, DrawError>)
        requires
            self.wf(),
        ensures
            match r {
                Ok(idx) => pixel_in_frame(self.spec_width(), self.spec_height(), row as int, col as int)
                    && idx == linear_index(self.spec_width(), self.spec_height(), row as int, col as int),
                Err(e) => !pixel_in_frame(self.spec_width(), self.spec_height(), row as int, col as int)
                    && e == DrawError::PixelOutOfRange,
            },
    {
        self.frame.get_index(row, col)
    }

    /// Paints the merged color of pixel `point`. A point outside
    /// `[0, width] x [0, height]` is dropped; one inside that rectangle but
    /// outside the frame fails.
    pub fn set_pixel(&mut self, point: (i32, i32), color: C) -> (r: Result<(), DrawError>)
        requires
            old(self).wf(),
        ensures
            final(self).wf(),
            final(self).store() == old(self).store(),
            final(self).spec_width() == old(self).spec_width(),
            final(self).spec_height() == old(self).spec_height(),
            final(self).frame().depths() == old(self).frame().depths(),
            ({
                let (w, h) = (old(self).spec_width(), old(self).spec_height());
                let (x, y) = (point.0 as int, point.1 as int);
                if !in_soft_box(w, h, x, y) {
                    r == Ok::<(), DrawError>(()) && final(self).frame() == old(self).frame()
                } else if !pixel_in_frame(w, h, x, y) {
                    r == Err::<(), DrawError>(DrawError::PixelOutOfRange) && final(self).frame()
                        == old(self).frame()
                } else {
                    r == Ok::<(), DrawError>(()) && final(self).frame().colors() == old(
                        self,
                    ).frame().colors().update(
                        old(self).frame().merged_slot(),
                        old(self).merged_colors().update(linear_index(w, h, x, y), color),
                    )
                }
            }),
    {
        let w = self.frame.width() as i64;
        let h = self.frame.height() as i64;
        let x = point.0 as i64;
        let y = point.1 as i64;
        if x < 0 || x > w || y < 0 || y > h {
            return Ok(());
        }
        let idx = self.frame.get_index(point.0, point.1)?;
        let merged = self.frame.samples() as usize;
        self.frame.write_color(merged, idx, color);
        Ok(())
    }

    /// Paints the merged color of every pixel on the line from `begin` to
    /// `end`, in order, and stops at the first pixel that fails.
    pub fn draw_line(&mut self, begin: (i32, i32), end: (i32, i32), color: C) -> (r: Result<
        (),
        DrawError,
    >)
        requires
            old(self).wf(),
        ensures
            final(self).wf(),
            final(self).store() == old(self).store(),
            final(self).spec_width() == old(self).spec_width(),
            final(self).spec_height() == old(self).spec_height(),
            final(self).frame().depths() == old(self).frame().depths(),
            r is Ok <==> line_fits(begin, end, old(self).spec_width(), old(self).spec_height()),
            r is Err ==> r == Err::<(), DrawError>(DrawError::PixelOutOfRange),
            r is Err ==> exists|k: int|
                0 <= k < pixels_on_line(begin, end) && {
                    let p = #[trigger] line_point(
                        begin.0 as int,
                        begin.1 as int,
                        end.0 as int,
                        end.1 as int,
                        k,
                    );
                    in_soft_box(old(self).spec_width(), old(self).spec_height(), p.0, p.1)
                        && !pixel_in_frame(old(self).spec_width(), old(self).spec_height(), p.0, p.1)
                        && final(self).frame().colors() == old(self).frame().colors().update(
                        old(self).frame().merged_slot(),
                        painted(
                            old(self).merged_colors(),
                            begin,
                            end,
                            old(self).spec_width(),
                            old(self).spec_height(),
                            k,
                            color,
                        ),
                    )
                },
            r is Ok ==> final(self).frame().colors() == old(self).frame().colors().update(
                old(self).frame().merged_slot(),
                painted(
                    old(self).merged_colors(),
                    begin,
                    end,
                    old(self).spec_width(),
                    old(self).spec_height(),
                    pixels_on_line(begin, end),
                    color,
                ),
            ),
    {
        let ghost pre = *self;
        let ghost w = pre.spec_width();
        let ghost h = pre.spec_height();
        let ghost m = pre.frame().merged_slot();
        let pts = draw_line(begin, end);
        let mut k: usize = 0;
        proof {
            assert(pre.merged_colors().len() == pre.frame().pixel_count());
            assert(painted(pre.merged_colors(), begin, end, w, h, 0, color) =~= pre.merged_colors());
            assert(pre.frame().colors().update(m, pre.merged_colors()) =~= pre.frame().colors());
        }
        while k < pts.len()
            invariant
                self.wf(),
                pre == *old(self),
                pre.wf(),
                self.store() == pre.store(),
                self.spec_width() == w,
                self.spec_height() == h,
                w == pre.spec_width(),
                h == pre.spec_height(),
                m == pre.frame().merged_slot(),
                self.frame().merged_slot() == m,
                self.frame().depths() == pre.frame().depths(),
                pts@.len() == pixels_on_line(begin, end),
                forall|j: int|
                    #![trigger pts@[j]]
                    0 <= j < pts@.len() ==> {
                        let p = line_point(begin.0 as int, begin.1 as int, end.0 as int, end.1 as int, j);
                        pts@[j].0 == p.0 && pts@[j].1 == p.1
                    },
                k <= pts@.len(),
                forall|j: int|
                    #![trigger line_point(begin.0 as int, begin.1 as int, end.0 as int, end.1 as int, j)]
                    0 <= j < k ==> {
                        let p = line_point(begin.0 as int, begin.1 as int, end.0 as int, end.1 as int, j);
                        in_soft_box(w, h, p.0, p.1) ==> pixel_in_frame(w, h, p.0, p.1)
                    },
                self.frame().colors() == pre.frame().colors().update(
                    m,
                    painted(pre.merged_colors(), begin, end, w, h, k as int, color),
                ),
            decreases pts@.len() - k,
        {
            let p = pts[k];
            let ghost lp = line_point(begin.0 as int, begin.1 as int, end.0 as int, end.1 as int, k as int);
            assert(p.0 == lp.0 && p.1 == lp.1);
            let res = self.set_pixel(p, color);
            match res {
                Ok(()) => {},
                Err(e) => {
                    proof {
                        assert(!line_fits(begin, end, w, h));
                        assert(0 <= k < pixels_on_line(begin, end));
                    }
                    return Err(e);
                },
            }
            proof {
                let next = painted(pre.merged_colors(), begin, end, w, h, k as int + 1, color);
                let cur = painted(pre.merged_colors(), begin, end, w, h, k as int, color);
                assert forall|idx: int| 0 <= idx < next.len() implies #[trigger] next[idx] == (if pixel_in_frame(w, h, lp.0, lp.1) && linear_index(w, h, lp.0, lp.1) == idx {
                    color
                } else {
                    cur[idx]
                }) by {
                    lemma_hits_step(begin, end, w, h, k as int, idx);
                }
                if in_soft_box(w, h, lp.0, lp.1) {
                    assert(next =~= cur.update(linear_index(w, h, lp.0, lp.1), color));
                    assert(self.frame().colors() =~= pre.frame().colors().update(m, next));
                } else {
                    assert(next =~= cur);
                }
            }
            k = k + 1;
        }
        Ok(())
    }

    /// Outlines a triangle with corner pixels `v`: the edges from the third
    /// corner to the first, from the first to the second and from the second
    /// to the third, drawn in that order.
    pub fn rasterize_wireframe(&mut self, v: [(i32, i32); 3], color: C) -> (r: Result<
        (),
        DrawError,
    >)
        requires
            old(self).wf(),
        ensures
            final(self).wf(),
            final(self).store() == old(self).store(),
            final(self).spec_width() == old(self).spec_width(),
            final(self).spec_height() == old(self).spec_height(),
            final(self).frame().depths() == old(self).frame().depths(),
            ({
                let (w, h) = (old(self).spec_width(), old(self).spec_height());
                &&& r is Ok <==> (line_fits(v[2], v[0], w, h) && line_fits(v[0], v[1], w, h)
                    && line_fits(v[1], v[2], w, h))
                &&& r is Err ==> r == Err::<(), DrawError>(DrawError::PixelOutOfRange)
                &&& r is Ok ==> {
                    let once = painted(
                        old(self).merged_colors(),
                        v[2],
                        v[0],
                        w,
                        h,
                        pixels_on_line(v[2], v[0]),
                        color,
                    );
                    let twice = painted(once, v[0], v[1], w, h, pixels_on_line(v[0], v[1]), color);
                    let all = painted(twice, v[1], v[2], w, h, pixels_on_line(v[1], v[2]), color);
                    final(self).frame().colors() == old(self).frame().colors().update(
                        old(self).frame().merged_slot(),
                        all,
                    )
                }
            }),
    {
        let ghost pre = *self;
        self.draw_line(v[2], v[0], color)?;
        let ghost one = *self;
        self.draw_line(v[0], v[1], color)?;
        let ghost two = *self;
        self.draw_line(v[1], v[2], color)?;
        proof {
            let m = pre.frame().merged_slot();
            assert(one.merged_colors() == one.frame().colors()[m]);
            assert(two.merged_colors() == two.frame().colors()[m]);
            assert(self.frame().colors() =~= two.frame().colors().update(m, self.frame().colors()[m]));
            assert(two.frame().colors() =~= one.frame().colors().update(m, two.frame().colors()[m]));
            assert(one.frame().colors() =~= pre.frame().colors().update(m, one.frame().colors()[m]));
        }
        Ok(())
    }

    /// The vertex and index buffers of a draw call, after the checks that
    /// precede any drawing: the primitive must be a triangle and both handles
    /// must name loaded buffers.
    pub fn draw_buffers(&self, pos_id: PosBufId, ind_id: IndBufId, primitive: Primitive) -> (r:
        Result<(&Vec<V>, &Vec<[u32; 3]>), DrawError>)
        requires
            self.wf(),
        ensures
            primitive != Primitive::TRIANGLE ==> r == Err::<(&Vec<V>, &Vec<[u32; 3]>), DrawError>(
                DrawError::UnsupportedPrimitive,
            ),
            primitive == Primitive::TRIANGLE && !self.store().position_buffers().contains_key(
                pos_id.spec_id(),
            ) ==> r == Err::<(&Vec<V>, &Vec<[u32; 3]>), DrawError>(DrawError::InvalidHandle),
            primitive == Primitive::TRIANGLE && self.store().position_buffers().contains_key(
                pos_id.spec_id(),
            ) && !self.store().index_buffers().contains_key(ind_id.spec_id()) ==> r == Err::<
                (&Vec<V>, &Vec<[u32; 3]>),
                DrawError,
            >(DrawError::InvalidHandle),
            r is Ok <==> (primitive == Primitive::TRIANGLE && self.store().position_buffers().contains_key(
                pos_id.spec_id(),
            ) && self.store().index_buffers().contains_key(ind_id.spec_id())),
            r matches Ok((p, i)) ==> p@ == self.store().position_buffers()[pos_id.spec_id()]
                && i@ == self.store().index_buffers()[ind_id.spec_id()],
    {
        if primitive != Primitive::TRIANGLE {
            return Err(DrawError::UnsupportedPrimitive);
        }
        let p = self.store.positions(pos_id)?;
        let i = self.store.indices(ind_id)?;
        Ok((p, i))
    }

    /// Shades pixel `idx` at `(x, y)`: each sample slot in turn is handed
    /// to `fragment` with its stored depth and takes the color and depth it
    /// returns, unless it returns `None`; then the merged slot takes what
    /// `merge` makes of the sample colors and depths.
    fn fill_pixel<Frag, Mrg>(&mut self, x: i32, y: i32, idx: usize, fragment: &Frag, merge: &Mrg)
        where
            Frag: Fn(i32, i32, usize, D) -> Option<(C, D)>,
            Mrg: Fn(&Vec<C>, &Vec<D>) -> (C, D),
        requires
            old(self).wf(),
            idx < old(self).frame().pixel_count(),
            forall|s: usize, d: D| #[trigger] fragment.requires((x, y, s, d)),
            forall|cs: &Vec<C>, ds: &Vec<D>| #[trigger] merge.requires((cs, ds)),
        ensures
            final(self).wf(),
            final(self).store() == old(self).store(),
            final(self).frame().spec_width() == old(self).frame().spec_width(),
            final(self).frame().spec_height() == old(self).frame().spec_height(),
            forall|s: int, i: int|
                0 <= s <= MSAA_COUNT && 0 <= i < old(self).frame().pixel_count() && i != idx
                    ==> #[trigger] final(self).frame().colors()[s][i] == old(self).frame().colors()[s][i],
            forall|s: int, i: int|
                0 <= s <= MSAA_COUNT && 0 <= i < old(self).frame().pixel_count() && i != idx
                    ==> #[trigger] final(self).frame().depths()[s][i] == old(self).frame().depths()[s][i],
            shaded(
                *fragment,
                *merge,
                x,
                y,
                slot_values(old(self).frame().colors(), idx as int),
                slot_values(old(self).frame().depths(), idx as int),
                slot_values(final(self).frame().colors(), idx as int),
                slot_values(final(self).frame().depths(), idx as int),
            ),
    {
        let ghost pre = *self;
        let m = MSAA_COUNT as usize;
        let mut s: usize = 0;
        while s < m
            invariant
                pre == *old(self),
                self.wf(),
                pre.wf(),
                m == MSAA_COUNT,
                s <= m,
                idx < pre.frame().pixel_count(),
                forall|s: usize, d: D| #[trigger] fragment.requires((x, y, s, d)),
                self.store() == pre.store(),
                self.frame().spec_width() == pre.frame().spec_width(),
                self.frame().spec_height() == pre.frame().spec_height(),
                forall|t: int, i: int|
                    0 <= t <= MSAA_COUNT && 0 <= i < pre.frame().pixel_count() && (i != idx || t >= s)
                        ==> #[trigger] self.frame().colors()[t][i] == pre.frame().colors()[t][i],
                forall|t: int, i: int|
                    0 <= t <= MSAA_COUNT && 0 <= i < pre.frame().pixel_count() && (i != idx || t >= s)
                        ==> #[trigger] self.frame().depths()[t][i] == pre.frame().depths()[t][i],
                forall|t: int|
                    0 <= t < s ==> #[trigger] sample_outcome(
                        *fragment,
                        x,
                        y,
                        t,
                        pre.frame().colors()[t][idx as int],
                        pre.frame().depths()[t][idx as int],
                        self.frame().colors()[t][idx as int],
                        self.frame().depths()[t][idx as int],
                    ),
            decreases m - s,
        {
            let stored = self.frame.depth(s, idx);
            let shaded = fragment(x, y, s, stored);
            let ghost before = *self;
            assert(stored == pre.frame().depths()[s as int][idx as int]);
            assert(self.frame().colors()[s as int][idx as int] == pre.frame().colors()[s as int][idx as int]);
            assert(call_ensures(*fragment, (x, y, s, stored), shaded));
            match shaded {
                Some((c, d)) => {
                    self.frame.write(s, idx, c, d);
                },
                None => {},
            }
            proof {
                assert forall|t: int, i: int|
                    0 <= t <= MSAA_COUNT && 0 <= i < pre.frame().pixel_count() && (i != idx || t >= s + 1)
                        implies #[trigger] self.frame().colors()[t][i] == pre.frame().colors()[t][i] by {
                    assert(before.frame().colors()[t][i] == pre.frame().colors()[t][i]);
                }
                assert forall|t: int, i: int|
                    0 <= t <= MSAA_COUNT && 0 <= i < pre.frame().pixel_count() && (i != idx || t >= s + 1)
                        implies #[trigger] self.frame().depths()[t][i] == pre.frame().depths()[t][i] by {
                    assert(before.frame().depths()[t][i] == pre.frame().depths()[t][i]);
                }
                assert forall|t: int| 0 <= t < s implies #[trigger] self.frame().colors()[t][idx as int]
                    == before.frame().colors()[t][idx as int]
                    && self.frame().depths()[t][idx as int] == before.frame().depths()[t][idx as int] by {
                }
                assert(sample_outcome(
                    *fragment,
                    x,
                    y,
                    s as int,
                    pre.frame().colors()[s as int][idx as int],
                    pre.frame().depths()[s as int][idx as int],
                    self.frame().colors()[s as int][idx as int],
                    self.frame().depths()[s as int][idx as int],
                ));
            }
            s = s + 1;
        }
        let mut cs: Vec<C> = Vec::new();
        let mut ds: Vec<D> = Vec::new();
        let mut t: usize = 0;
        while t < m
            invariant
                self.wf(),
                m == MSAA_COUNT,
                t <= m,
                idx < self.frame().pixel_count(),
                cs@ == slot_values(self.frame().colors(), idx as int).take(t as int),
                ds@ == slot_values(self.frame().depths(), idx as int).take(t as int),
            decreases m - t,
        {
            cs.push(self.frame.color(t, idx));
            ds.push(self.frame.depth(t, idx));
            t = t + 1;
            assert(cs@ =~= slot_values(self.frame().colors(), idx as int).take(t as int));
            assert(ds@ =~= slot_values(self.frame().depths(), idx as int).take(t as int));
        }
        let merged = merge(&cs, &ds);
        let ghost mid = *self;
        self.frame.write(m, idx, merged.0, merged.1);
        proof {
            let bc = slot_values(pre.frame().colors(), idx as int);
            let bd = slot_values(pre.frame().depths(), idx as int);
            let ac = slot_values(self.frame().colors(), idx as int);
            let ad = slot_values(self.frame().depths(), idx as int);
            assert(ac.take(m as int) =~= slot_values(mid.frame().colors(), idx as int).take(m as int));
            assert(ad.take(m as int) =~= slot_values(mid.frame().depths(), idx as int).take(m as int));
            assert(call_ensures(*merge, (&cs, &ds), (ac[m as int], ad[m as int])));
            assert forall|t: int| 0 <= t < m implies #[trigger] sample_outcome(
                *fragment,
                x,
                y,
                t,
                bc[t],
                bd[t],
                ac[t],
                ad[t],
            ) by {
                assert(sample_outcome(
                    *fragment,
                    x,
                    y,
                    t,
                    pre.frame().colors()[t][idx as int],
                    pre.frame().depths()[t][idx as int],
                    mid.frame().colors()[t][idx as int],
                    mid.frame().depths()[t][idx as int],
                ));
            }
        }
    }

    /// Fills a triangle whose pixels lie in `bbox`. The box is scanned
    /// column by column and, within a column, scanline by scanline; a pixel
    /// that `covered` accepts must lie in the frame (the call fails at the
    /// first one that does not) and is shaded: each sample slot goes through
    /// `fragment`, which sees the stored depth and returns the new color and
    /// depth or `None` to keep the sample, then the merged slot takes what
    /// `merge` makes of the samples. Pixels outside the box never change.
    pub fn fill_triangle<Cov, Frag, Mrg>(
        &mut self,
        bbox: PixelBox,
        covered: Cov,
        fragment: Frag,
        merge: Mrg,
    ) -> (r: Result<(), DrawError>) where
        Cov: Fn(i32, i32) -> bool,
        Frag: Fn(i32, i32, usize, D) -> Option<(C, D)>,
        Mrg: Fn(&Vec<C>, &Vec<D>) -> (C, D),

        requires
            old(self).wf(),
            forall|x: i32, y: i32| #[trigger] covered.requires((x, y)),
            forall|x: i32, y: i32, s: usize, d: D| #[trigger] fragment.requires((x, y, s, d)),
            forall|cs: &Vec<C>, ds: &Vec<D>| #[trigger] merge.requires((cs, ds)),
        ensures
            final(self).wf(),
            final(self).store() == old(self).store(),
            final(self).spec_width() == old(self).spec_width(),
            final(self).spec_height() == old(self).spec_height(),
            forall|s: int, i: int|
                0 <= s <= MSAA_COUNT && 0 <= i < old(self).frame().pixel_count() && !box_hits(
                    bbox,
                    old(self).spec_width(),
                    old(self).spec_height(),
                    i,
                ) ==> #[trigger] final(self).frame().colors()[s][i] == old(self).frame().colors()[s][i],
            forall|s: int, i: int|
                0 <= s <= MSAA_COUNT && 0 <= i < old(self).frame().pixel_count() && !box_hits(
                    bbox,
                    old(self).spec_width(),
                    old(self).spec_height(),
                    i,
                ) ==> #[trigger] final(self).frame().depths()[s][i] == old(self).frame().depths()[s][i],
            r is Err ==> r == Err::<(), DrawError>(DrawError::PixelOutOfRange) && exists|x: i32, y: i32|
                #[trigger] call_ensures(covered, (x, y), true) && in_box(bbox, x as int, y as int)
                    && !pixel_in_frame(
                    old(self).spec_width(),
                    old(self).spec_height(),
                    x as int,
                    y as int,
                ) && (forall|x2: i32, y2: i32|
                    scanned(bbox, x as int, y as int, x2 as int, y2 as int) ==> #[trigger] pixel_filled(
                        covered,
                        fragment,
                        merge,
                        old(self).frame().colors(),
                        old(self).frame().depths(),
                        final(self).frame().colors(),
                        final(self).frame().depths(),
                        old(self).spec_width(),
                        old(self).spec_height(),
                        x2,
                        y2,
                    )) && (forall|s: int, i: int|
                    0 <= s <= MSAA_COUNT && 0 <= i < old(self).frame().pixel_count() && !scanned_hits(
                        bbox,
                        old(self).spec_width(),
                        old(self).spec_height(),
                        x as int,
                        y as int,
                        i,
                    ) ==> #[trigger] final(self).frame().colors()[s][i] == old(self).frame().colors()[s][i]
                        && final(self).frame().depths()[s][i] == old(self).frame().depths()[s][i]),
            r is Ok ==> forall|x: i32, y: i32|
                in_box(bbox, x as int, y as int) ==> #[trigger] pixel_filled(
                    covered,
                    fragment,
                    merge,
                    old(self).frame().colors(),
                    old(self).frame().depths(),
                    final(self).frame().colors(),
                    final(self).frame().depths(),
                    old(self).spec_width(),
                    old(self).spec_height(),
                    x,
                    y,
                ),
    {
        let ghost pre = *self;
        let ghost w = pre.spec_width();
        let ghost h = pre.spec_height();
        let ghost n = pre.frame().pixel_count() as int;
        let mut x = bbox.x0;
        while x < bbox.x1
            invariant
                pre == *old(self),
                pre.wf(),
                self.wf(),
                w == pre.spec_width(),
                h == pre.spec_height(),
                n == pre.frame().pixel_count(),
                self.store() == pre.store(),
                self.spec_width() == w,
                self.spec_height() == h,
                self.frame().pixel_count() == n,
                bbox.x0 <= bbox.x1 ==> bbox.x0 <= x <= bbox.x1,
                bbox.x0 > bbox.x1 ==> x == bbox.x0,
                forall|x: i32, y: i32| #[trigger] covered.requires((x, y)),
                forall|x: i32, y: i32, s: usize, d: D| #[trigger] fragment.requires((x, y, s, d)),
                forall|cs: &Vec<C>, ds: &Vec<D>| #[trigger] merge.requires((cs, ds)),
                forall|s: int, i: int|
                    0 <= s <= MSAA_COUNT && 0 <= i < n && !scanned_hits(bbox, w, h, x as int, bbox.y0 as int, i)
                        ==> #[trigger] self.frame().colors()[s][i] == pre.frame().colors()[s][i],
                forall|s: int, i: int|
                    0 <= s <= MSAA_COUNT && 0 <= i < n && !scanned_hits(bbox, w, h, x as int, bbox.y0 as int, i)
                        ==> #[trigger] self.frame().depths()[s][i] == pre.frame().depths()[s][i],
                forall|x2: i32, y2: i32|
                    scanned(bbox, x as int, bbox.y0 as int, x2 as int, y2 as int) ==> #[trigger] pixel_filled(
                        covered,
                        fragment,
                        merge,
                        pre.frame().colors(),
                        pre.frame().depths(),
                        self.frame().colors(),
                        self.frame().depths(),
                        w,
                        h,
                        x2,
                        y2,
                    ),
            decreases bbox.x1 - x,
        {
            let mut y = bbox.y0;
            while y < bbox.y1
                invariant
                    pre == *old(self),
                    pre.wf(),
                    self.wf(),
                    w == pre.spec_width(),
                    h == pre.spec_height(),
                    n == pre.frame().pixel_count(),
                    self.store() == pre.store(),
                    self.spec_width() == w,
                    self.spec_height() == h,
                    self.frame().pixel_count() == n,
                    bbox.x0 <= x < bbox.x1,
                    bbox.y0 <= bbox.y1 ==> bbox.y0 <= y <= bbox.y1,
                    bbox.y0 > bbox.y1 ==> y == bbox.y0,
                    forall|x: i32, y: i32| #[trigger] covered.requires((x, y)),
                    forall|x: i32, y: i32, s: usize, d: D| #[trigger] fragment.requires((x, y, s, d)),
                    forall|cs: &Vec<C>, ds: &Vec<D>| #[trigger] merge.requires((cs, ds)),
                    forall|s: int, i: int|
                        0 <= s <= MSAA_COUNT && 0 <= i < n && !scanned_hits(bbox, w, h, x as int, y as int, i)
                            ==> #[trigger] self.frame().colors()[s][i] == pre.frame().colors()[s][i],
                    forall|s: int, i: int|
                        0 <= s <= MSAA_COUNT && 0 <= i < n && !scanned_hits(bbox, w, h, x as int, y as int, i)
                            ==> #[trigger] self.frame().depths()[s][i] == pre.frame().depths()[s][i],
                    forall|x2: i32, y2: i32|
                        scanned(bbox, x as int, y as int, x2 as int, y2 as int) ==> #[trigger] pixel_filled(
                            covered,
                            fragment,
                            merge,
                            pre.frame().colors(),
                            pre.frame().depths(),
                            self.frame().colors(),
                            self.frame().depths(),
                            w,
                            h,
                            x2,
                            y2,
                        ),
                decreases bbox.y1 - y,
            {
                let ghost before = *self;
                proof {
                    assert forall|i: int| 0 <= i < n implies scanned_hits(bbox, w, h, x as int, y as int + 1, i)
                        == (scanned_hits(bbox, w, h, x as int, y as int, i) || (pixel_in_frame(w, h, x as int, y as int)
                        && linear_index(w, h, x as int, y as int) == i)) by {
                        lemma_scan_step(bbox, w, h, x as int, y as int, i);
                    }
                }
                let inside = covered(x, y);
                if inside {
                    let idx = match self.get_index(x, y) {
                        Ok(idx) => idx,
                        Err(e) => {
                            proof {
                                assert forall|s: int, i: int|
                                    0 <= s <= MSAA_COUNT && 0 <= i < n && !box_hits(bbox, w, h, i)
                                    implies self.frame().colors()[s][i] == pre.frame().colors()[s][i]
                                    && self.frame().depths()[s][i] == pre.frame().depths()[s][i] by {
                                    if scanned_hits(bbox, w, h, x as int, y as int, i) {
                                        let (xa, ya) = choose|xa: int, ya: int|
                                            #![trigger linear_index(w, h, xa, ya)]
                                            scanned(bbox, x as int, y as int, xa, ya) && pixel_in_frame(w, h, xa, ya)
                                                && linear_index(w, h, xa, ya) == i;
                                        assert(in_box(bbox, xa, ya));
                                    }
                                }
                                assert(call_ensures(covered, (x, y), true));
                                assert forall|s: int, i: int|
                                    0 <= s <= MSAA_COUNT && 0 <= i < n && !scanned_hits(bbox, w, h, x as int, y as int, i)
                                    implies #[trigger] self.frame().colors()[s][i] == pre.frame().colors()[s][i]
                                    && self.frame().depths()[s][i] == pre.frame().depths()[s][i] by {}
                            }
                            return Err(e);
                        },
                    };
                    proof {
                        lemma_scan_fresh(bbox, w, h, x as int, y as int);
                        assert(slot_values(before.frame().colors(), idx as int) =~= slot_values(pre.frame().colors(), idx as int));
                        assert(slot_values(before.frame().depths(), idx as int) =~= slot_values(pre.frame().depths(), idx as int));
                    }
                    self.fill_pixel(x, y, idx, &fragment, &merge);
                    proof {
                        assert forall|x2: i32, y2: i32|
                            scanned(bbox, x as int, y as int + 1, x2 as int, y2 as int) implies #[trigger] pixel_filled(
                                covered,
                                fragment,
                                merge,
                                pre.frame().colors(),
                                pre.frame().depths(),
                                self.frame().colors(),
                                self.frame().depths(),
                                w,
                                h,
                                x2,
                                y2,
                            ) by {
                            if x2 == x && y2 == y {
                                assert(call_ensures(covered, (x, y), true));
                            } else {
                                assert(scanned(bbox, x as int, y as int, x2 as int, y2 as int));
                                assert(pixel_filled(covered, fragment, merge, pre.frame().colors(), pre.frame().depths(),
                                    before.frame().colors(), before.frame().depths(), w, h, x2, y2));
                                if pixel_in_frame(w, h, x2 as int, y2 as int) {
                                    let i2 = linear_index(w, h, x2 as int, y2 as int);
                                    if i2 == idx as int {
                                        lemma_linear_index_injective(w, h, x2 as int, y2 as int, x as int, y as int);
                                    }
                                    assert(slot_values(self.frame().colors(), i2) =~= slot_values(before.frame().colors(), i2));
                                    assert(slot_values(self.frame().depths(), i2) =~= slot_values(before.frame().depths(), i2));
                                }
                            }
                        }
                    }
                } else {
                    proof {
                        assert forall|x2: i32, y2: i32|
                            scanned(bbox, x as int, y as int + 1, x2 as int, y2 as int) implies #[trigger] pixel_filled(
                                covered,
                                fragment,
                                merge,
                                pre.frame().colors(),
                                pre.frame().depths(),
                                self.frame().colors(),
                                self.frame().depths(),
                                w,
                                h,
                                x2,
                                y2,
                            ) by {
                            if x2 == x && y2 == y {
                                if pixel_in_frame(w, h, x as int, y as int) {
                                    let i = linear_index(w, h, x as int, y as int);
                                    lemma_scan_fresh(bbox, w, h, x as int, y as int);
                                    assert(slot_values(self.frame().colors(), i) =~= slot_values(pre.frame().colors(), i));
                                    assert(slot_values(self.frame().depths(), i) =~= slot_values(pre.frame().depths(), i));
                                }
                            } else {
                                assert(scanned(bbox, x as int, y as int, x2 as int, y2 as int));
                            }
                        }
                    }
                }
                y = y + 1;
            }
            proof {
                assert forall|i: int| 0 <= i < n implies scanned_hits(bbox, w, h, x as int, y as int, i)
                    == scanned_hits(bbox, w, h, x as int + 1, bbox.y0 as int, i) by {
                    if bbox.y0 <= bbox.y1 {
                        lemma_scan_column(bbox, w, h, x as int, i);
                    } else {
                        assert forall|xa: int, ya: int| !scanned(bbox, x as int, y as int, xa, ya)
                            && !scanned(bbox, x as int + 1, bbox.y0 as int, xa, ya) by {}
                    }
                }
                assert forall|x2: i32, y2: i32|
                    scanned(bbox, x as int + 1, bbox.y0 as int, x2 as int, y2 as int) implies
                    scanned(bbox, x as int, y as int, x2 as int, y2 as int) by {}
            }
            x = x + 1;
        }
        proof {
            assert forall|i: int| 0 <= i < n implies scanned_hits(bbox, w, h, x as int, bbox.y0 as int, i)
                == box_hits(bbox, w, h, i) by {
                if box_hits(bbox, w, h, i) {
                    let (xa, ya) = choose|xa: int, ya: int|
                        #![trigger linear_index(w, h, xa, ya)]
                        in_box(bbox, xa, ya) && pixel_in_frame(w, h, xa, ya) && linear_index(w, h, xa, ya) == i;
                    assert(scanned(bbox, x as int, bbox.y0 as int, xa, ya));
                }
                if scanned_hits(bbox, w, h, x as int, bbox.y0 as int, i) {
                    let (xa, ya) = choose|xa: int, ya: int|
                        #![trigger linear_index(w, h, xa, ya)]
                        scanned(bbox, x as int, bbox.y0 as int, xa, ya) && pixel_in_frame(w, h, xa, ya)
                            && linear_index(w, h, xa, ya) == i;
                    assert(in_box(bbox, xa, ya));
                }
            }
            assert forall|x2: i32, y2: i32| in_box(bbox, x2 as int, y2 as int) implies
                scanned(bbox, x as int, bbox.y0 as int, x2 as int, y2 as int) by {}
        }
        Ok(())
    }

    /// The number of multi-sample buffer pairs.
    pub fn sample_count(&self) -> (r: u32)
        requires
            self.wf(),
        ensures
            r == MSAA_COUNT,
    {
        self.frame.samples()
    }

    /// The color in buffer `slot` (a sample, or the merged one last) at pixel `idx`.
    pub fn color(&self, slot: usize, idx: usize) -> (r: C)
        requires
            self.wf(),
            slot <= MSAA_COUNT,
            idx < self.frame().pixel_count(),
        ensures
            r == self.frame().colors()[slot as int][idx as int],
    {
        self.frame.color(slot, idx)
    }

    /// The depth in buffer `slot` (a sample, or the merged one last) at pixel `idx`.
    pub fn depth(&self, slot: usize, idx: usize) -> (r: D)
        requires
            self.wf(),
            slot <= MSAA_COUNT,
            idx < self.frame().pixel_count(),
        ensures
            r == self.frame().depths()[slot as int][idx as int],
    {
        self.frame.depth(slot, idx)
    }

    /// Stores a shaded color and its depth in buffer pair `slot` (a sample,
    /// or the merged one last) at pixel `idx`.
    pub fn write_sample(&mut self, slot: usize, idx: usize, color: C, depth: D)
        requires
            old(self).wf(),
            slot <= MSAA_COUNT,
            idx < old(self).frame().pixel_count(),
        ensures
            final(self).wf(),
            final(self).store() == old(self).store(),
            final(self).spec_width() == old(self).spec_width(),
            final(self).spec_height() == old(self).spec_height(),
            final(self).frame().colors() == old(self).frame().colors().update(
                slot as int,
                old(self).frame().colors()[slot as int].update(idx as int, color),
            ),
            final(self).frame().depths() == old(self).frame().depths().update(
                slot as int,
                old(self).frame().depths()[slot as int].update(idx as int, depth),
            ),
    {
        self.frame.write(slot, idx, color, depth);
    }

    /// The merged color buffer, the one to display.
    pub fn frame_buffer(&self) -> (r: &Vec<C>)
        requires
            self.wf(),
        ensures
            r@ == self.merged_colors(),
    {
        self.frame.color_buffer(MSAA_COUNT as usize)
    }

    /// The merged depth buffer.
    pub fn depth_buffer(&self) -> (r: &Vec<D>)
        requires
            self.wf(),
        ensures
            r@ == self.frame().depths()[self.frame().merged_slot()],
    {
        self.frame.depth_buffer(MSAA_COUNT as usize)
    }
}

} // verus!
