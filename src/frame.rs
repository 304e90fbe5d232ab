use crate::flags::Buffer;
use crate::geometry::DrawError;
use vstd::prelude::*;

verus! {

/// The linear position of pixel `(row, col)` in a `width` by `height` buffer:
/// rows run along a scanline and the vertical axis is flipped.
pub open spec fn linear_index(width: int, height: int, row: int, col: int) -> int {
    (height - col) * width + row
}

/// Whether `(row, col)` addresses a slot of a `width` by `height` buffer.
pub open spec fn pixel_in_frame(width: int, height: int, row: int, col: int) -> bool {
    &&& 0 <= row < width
    &&& 0 <= col < height
    &&& linear_index(width, height, row, col) < width * height
}

/// Every slot of every buffer in `bufs` set to `v`.
pub open spec fn filled<T>(bufs: Seq<Seq<T>>, v: T) -> Seq<Seq<T>> {
    bufs.map_values(|b: Seq<T>| Seq::new(b.len(), |i: int| v))
}

/// The color buffers after a clear with `flags`.
pub open spec fn cleared_colors<C>(bufs: Seq<Seq<C>>, flags: Buffer, color: C) -> Seq<Seq<C>> {
    if flags.spec_has_color() {
        filled(bufs, color)
    } else {
        bufs
    }
}

/// The depth buffers after a clear with `flags`.
pub open spec fn cleared_depths<D>(bufs: Seq<Seq<D>>, flags: Buffer, depth: D) -> Seq<Seq<D>> {
    if flags.spec_has_depth() {
        filled(bufs, depth)
    } else {
        bufs
    }
}

/// `samples` color/depth buffer pairs for multi-sampling, plus one pair that
/// holds the merged result, all of `width * height` pixels.
pub struct FrameBuffers<C, D> {
    width: u32,
    height: u32,
    samples: u32,
    colors: Vec<Vec<C>>,
    depths: Vec<Vec<D>>,
}

fn filled_vec<T: Copy>(n: usize, v: T) -> (r: Vec<T>)
    ensures
        r@ == Seq::new(n as nat, |i: int| v),
{
    let mut r: Vec<T> = Vec::new();
    let mut i: usize = 0;
    while i < n
        invariant
            i <= n,
            r@ == Seq::new(i as nat, |j: int| v),
        decreases n - i,
    {
        r.push(v);
        i = i + 1;
        assert(r@ =~= Seq::new(i as nat, |j: int| v));
    }
    r
}

impl<C: Copy, D: Copy> FrameBuffers<C, D> {
    pub closed spec fn spec_width(&self) -> nat {
        self.width as nat
    }

    pub closed spec fn spec_height(&self) -> nat {
        self.height as nat
    }

    /// The number of multi-sample buffer pairs (the merged pair not counted).
    pub closed spec fn spec_samples(&self) -> nat {
        self.samples as nat
    }

    /// The color buffers: the samples first, the merged one last.
    pub closed spec fn colors(&self) -> Seq<Seq<C>> {
        self.colors@.map_values(|v: Vec<C>| v@)
    }

    /// The depth buffers: the samples first, the merged one last.
    pub closed spec fn depths(&self) -> Seq<Seq<D>> {
        self.depths@.map_values(|v: Vec<D>| v@)
    }

    pub open spec fn pixel_count(&self) -> nat {
        self.spec_width() * self.spec_height()
    }

    /// The slot of the merged buffer pair.
    pub open spec fn merged_slot(&self) -> int {
        self.spec_samples() as int
    }

    pub open spec fn wf(&self) -> bool {
        &&& self.pixel_count() <= usize::MAX
        &&& self.spec_samples() >= 1
        &&& self.spec_samples() < u32::MAX
        &&& self.colors().len() == self.spec_samples() + 1
        &&& self.depths().len() == self.spec_samples() + 1
        &&& forall|s: int|
            0 <= s < self.colors().len() ==> (#[trigger] self.colors()[s]).len()
                == self.pixel_count()
        &&& forall|s: int|
            0 <= s < self.depths().len() ==> (#[trigger] self.depths()[s]).len()
                == self.pixel_count()
    }

    /// Buffers of `width * height` pixels, `samples` pairs plus the merged
    /// pair, every color slot set to `color` and every depth slot to `depth`.
    pub fn new(width: u32, height: u32, samples: u32, color: C, depth: D) -> (r: Self)
        requires
            width * height <= usize::MAX,
            1 <= samples < u32::MAX,
        ensures
            r.wf(),
            r.spec_width() == width,
            r.spec_height() == height,
            r.spec_samples() == samples,
            forall|s: int, i: int|
                0 <= s <= samples && 0 <= i < width * height ==> #[trigger] r.colors()[s][i]
                    == color && r.depths()[s][i] == depth,
    {
        let n = width as usize * height as usize;
        let mut colors: Vec<Vec<C>> = Vec::new();
        let mut depths: Vec<Vec<D>> = Vec::new();
        let mut s: u32 = 0;
        while s <= samples
            invariant
                s <= samples + 1,
                samples < u32::MAX,
                n == width * height,
                colors@.len() == s,
                depths@.len() == s,
                forall|k: int| 0 <= k < s ==> (#[trigger] colors@[k])@ == Seq::new(n as nat, |i: int| color),
                forall|k: int| 0 <= k < s ==> (#[trigger] depths@[k])@ == Seq::new(n as nat, |i: int| depth),
            decreases samples + 1 - s,
        {
            colors.push(filled_vec(n, color));
            depths.push(filled_vec(n, depth));
            s = s + 1;
        }
        FrameBuffers { width, height, samples, colors, depths }
    }

    pub fn width(&self) -> (r: u32)
        ensures
            r == self.spec_width(),
    {
        self.width
    }

    pub fn height(&self) -> (r: u32)
        ensures
            r == self.spec_height(),
    {
        self.height
    }

    /// The number of multi-sample buffer pairs.
    pub fn samples(&self) -> (r: u32)
        ensures
            r == self.spec_samples(),
    {
        self.samples
    }

    /// The linear index of pixel `(row, col)`; fails on a coordinate outside
    /// the frame.
    pub fn get_index(&self, row: i32, col: i32) -> (r: Result<usize, DrawError>)
        requires
            self.wf(),
        ensures
            match r {
                Ok(idx) => pixel_in_frame(
                    self.spec_width() as int,
                    self.spec_height() as int,
                    row as int,
                    col as int,
                ) && idx == linear_index(
                    self.spec_width() as int,
                    self.spec_height() as int,
                    row as int,
                    col as int,
                ),
                Err(e) => !pixel_in_frame(
                    self.spec_width() as int,
                    self.spec_height() as int,
                    row as int,
                    col as int,
                ) && e == DrawError::PixelOutOfRange,
            },
    {
        let w = self.width as i64;
        let h = self.height as i64;
        let row = row as i64;
        let col = col as i64;
        if row < 0 || row >= w || col < 0 || col >= h {
            return Err(DrawError::PixelOutOfRange);
        }
        if col == 0 {
            assert(linear_index(w as int, h as int, row as int, 0) >= w * h) by (nonlinear_arith)
                requires
                    0 <= row,
            ;
            return Err(DrawError::PixelOutOfRange);
        }
        assert((h - col) * w + row < w * h && (h - col) * w <= w * h) by (nonlinear_arith)
            requires
                1 <= col < h,
                0 <= row < w,
        ;
        Ok(((h - col) as usize) * (w as usize) + row as usize)
    }

    /// Resets the buffers that `flags` selects, in every sample slot and in
    /// the merged slot.
    pub fn clear(&mut self, flags: Buffer, color: C, depth: D)
        requires
            old(self).wf(),
        ensures
            final(self).wf(),
            final(self).spec_width() == old(self).spec_width(),
            final(self).spec_height() == old(self).spec_height(),
            final(self).spec_samples() == old(self).spec_samples(),
            final(self).colors() == cleared_colors(old(self).colors(), flags, color),
            final(self).depths() == cleared_depths(old(self).depths(), flags, depth),
    {
        let ghost pre = *self;
        let n = self.width as usize * self.height as usize;
        let with_color = flags.has_color();
        let with_depth = flags.has_depth();
        let mut s: usize = 0;
        while s <= self.samples as usize
            invariant
                pre.wf(),
                n == pre.pixel_count(),
                self.width == pre.width,
                self.height == pre.height,
                self.samples == pre.samples,
                with_color == flags.spec_has_color(),
                with_depth == flags.spec_has_depth(),
                s <= self.samples + 1,
                self.colors@.len() == pre.colors@.len(),
                self.depths@.len() == pre.depths@.len(),
                forall|k: int|
                    0 <= k < self.colors@.len() ==> (#[trigger] self.colors@[k])@ == if k < s {
                        cleared_colors(pre.colors(), flags, color)[k]
                    } else {
                        pre.colors()[k]
                    },
                forall|k: int|
                    0 <= k < self.depths@.len() ==> (#[trigger] self.depths@[k])@ == if k < s {
                        cleared_depths(pre.depths(), flags, depth)[k]
                    } else {
                        pre.depths()[k]
                    },
            decreases self.samples + 1 - s,
        {
            if with_color {
                self.colors[s] = filled_vec(n, color);
            }
            if with_depth {
                self.depths[s] = filled_vec(n, depth);
            }
            s = s + 1;
        }
        assert(self.colors() =~= cleared_colors(pre.colors(), flags, color));
        assert(self.depths() =~= cleared_depths(pre.depths(), flags, depth));
    }

    /// The color in buffer `slot` at pixel `idx`.
    pub fn color(&self, slot: usize, idx: usize) -> (r: C)
        requires
            self.wf(),
            slot <= self.spec_samples(),
            idx < self.pixel_count(),
        ensures
            r == self.colors()[slot as int][idx as int],
    {
        assert(self.colors()[slot as int].len() == self.pixel_count());
        self.colors[slot][idx]
    }

    /// The depth in buffer `slot` at pixel `idx`.
    pub fn depth(&self, slot: usize, idx: usize) -> (r: D)
        requires
            self.wf(),
            slot <= self.spec_samples(),
            idx < self.pixel_count(),
        ensures
            r == self.depths()[slot as int][idx as int],
    {
        assert(self.depths()[slot as int].len() == self.pixel_count());
        self.depths[slot][idx]
    }

    /// The whole color buffer of `slot`.
    pub fn color_buffer(&self, slot: usize) -> (r: &Vec<C>)
        requires
            self.wf(),
            slot <= self.spec_samples(),
        ensures
            r@ == self.colors()[slot as int],
    {
        &self.colors[slot]
    }

    /// The whole depth buffer of `slot`.
    pub fn depth_buffer(&self, slot: usize) -> (r: &Vec<D>)
        requires
            self.wf(),
            slot <= self.spec_samples(),
        ensures
            r@ == self.depths()[slot as int],
    {
        &self.depths[slot]
    }

    /// Stores `color` in buffer `slot` at pixel `idx`; depths are untouched.
    pub fn write_color(&mut self, slot: usize, idx: usize, color: C)
        requires
            old(self).wf(),
            slot <= old(self).spec_samples(),
            idx < old(self).pixel_count(),
        ensures
            final(self).wf(),
            final(self).spec_width() == old(self).spec_width(),
            final(self).spec_height() == old(self).spec_height(),
            final(self).spec_samples() == old(self).spec_samples(),
            final(self).colors() == old(self).colors().update(
                slot as int,
                old(self).colors()[slot as int].update(idx as int, color),
            ),
            final(self).depths() == old(self).depths(),
    {
        let ghost pre = *self;
        assert(pre.colors()[slot as int].len() == pre.pixel_count());
        assert(pre.depths()[slot as int].len() == pre.pixel_count());
        self.colors[slot][idx] = color;
        assert(self.colors() =~= pre.colors().update(
            slot as int,
            pre.colors()[slot as int].update(idx as int, color),
        ));
        assert(self.depths() =~= pre.depths());
    }

    /// Stores `color` and `depth` in buffer pair `slot` at pixel `idx`.
    pub fn write(&mut self, slot: usize, idx: usize, color: C, depth: D)
        requires
            old(self).wf(),
            slot <= old(self).spec_samples(),
            idx < old(self).pixel_count(),
        ensures
            final(self).wf(),
            final(self).spec_width() == old(self).spec_width(),
            final(self).spec_height() == old(self).spec_height(),
            final(self).spec_samples() == old(self).spec_samples(),
            final(self).colors() == old(self).colors().update(
                slot as int,
                old(self).colors()[slot as int].update(idx as int, color),
            ),
            final(self).depths() == old(self).depths().update(
                slot as int,
                old(self).depths()[slot as int].update(idx as int, depth),
            ),
    {
        let ghost pre = *self;
        assert(pre.colors()[slot as int].len() == pre.pixel_count());
        assert(pre.depths()[slot as int].len() == pre.pixel_count());
        self.colors[slot][idx] = color;
        self.depths[slot][idx] = depth;
        assert(self.colors() =~= pre.colors().update(
            slot as int,
            pre.colors()[slot as int].update(idx as int, color),
        ));
        assert(self.depths() =~= pre.depths().update(
            slot as int,
            pre.depths()[slot as int].update(idx as int, depth),
        ));
    }
}

/// Clearing is idempotent: a second clear with the same flags and values
/// leaves every buffer as the first one left it.
pub proof fn lemma_clear_idempotent<C, D>(
    colors: Seq<Seq<C>>,
    depths: Seq<Seq<D>>,
    flags: Buffer,
    color: C,
    depth: D,
)
    ensures
        cleared_colors(cleared_colors(colors, flags, color), flags, color) == cleared_colors(
            colors,
            flags,
            color,
        ),
        cleared_depths(cleared_depths(depths, flags, depth), flags, depth) == cleared_depths(
            depths,
            flags,
            depth,
        ),
{
    let c1 = cleared_colors(colors, flags, color);
    let d1 = cleared_depths(depths, flags, depth);
    assert(cleared_colors(c1, flags, color) =~= c1);
    assert(cleared_depths(d1, flags, depth) =~= d1);
}

} // verus!
