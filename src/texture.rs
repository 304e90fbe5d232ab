use vstd::prelude::*;

verus! {

/// The remainder of `a / n` with the sign of `a` (integer division rounding
/// toward zero).
pub open spec fn trunc_rem(a: int, n: int) -> int {
    if a >= 0 {
        a % n
    } else {
        -((-a) % n)
    }
}

/// Clamps `a` into `[0, n - 1]`.
pub open spec fn clamp_index(a: int, n: int) -> int {
    if a < 0 {
        0
    } else if a >= n {
        n - 1
    } else {
        a
    }
}

/// A texture image: `rows * cols` texels in row-major order, three channel
/// bytes each, blue first.
pub struct Texture {
    rows: i32,
    cols: i32,
    texels: Vec<[u8; 3]>,
}

impl Texture {
    pub closed spec fn spec_rows(&self) -> int {
        self.rows as int
    }

    pub closed spec fn spec_cols(&self) -> int {
        self.cols as int
    }

    /// The texels, row by row.
    pub closed spec fn texels(&self) -> Seq<[u8; 3]> {
        self.texels@
    }

    pub open spec fn wf(&self) -> bool {
        &&& 0 <= self.spec_rows()
        &&& 0 <= self.spec_cols()
        &&& self.texels().len() == self.spec_rows() * self.spec_cols()
        &&& self.texels().len() <= usize::MAX
    }

    /// The texel at `(row, col)`, if that lies in the image.
    pub open spec fn texel_at(&self, row: int, col: int) -> Option<[u8; 3]> {
        if 0 <= row < self.spec_rows() && 0 <= col < self.spec_cols() {
            Some(self.texels()[row * self.spec_cols() + col])
        } else {
            None
        }
    }

    /// An image without texels.
    pub fn empty() -> (r: Texture)
        ensures
            r.wf(),
            r.spec_rows() == 0,
            r.spec_cols() == 0,
    {
        Texture { rows: 0, cols: 0, texels: Vec::new() }
    }

    /// The image of `rows` rows of `cols` texels, given row by row; `None`
    /// when the texel count does not match.
    pub fn new(rows: i32, cols: i32, texels: Vec<[u8; 3]>) -> (r: Option<Texture>)
        ensures
            r is Some <==> (0 <= rows && 0 <= cols && texels@.len() == rows * cols),
            r matches Some(t) ==> t.wf() && t.spec_rows() == rows && t.spec_cols() == cols
                && t.texels() == texels@,
    {
        if rows < 0 || cols < 0 {
            return None;
        }
        assert(rows as u64 * cols as u64 <= 0x4000_0000_0000_0000u64) by (nonlinear_arith)
            requires
                0 <= rows <= i32::MAX,
                0 <= cols <= i32::MAX,
        ;
        let n = rows as u64 * cols as u64;
        if texels.len() as u64 != n {
            return None;
        }
        Some(Texture { rows, cols, texels })
    }

    pub fn rows(&self) -> (r: i32)
        ensures
            r == self.spec_rows(),
    {
        self.rows
    }

    pub fn cols(&self) -> (r: i32)
        ensures
            r == self.spec_cols(),
    {
        self.cols
    }

    /// Whether the image has no texels.
    pub fn is_empty(&self) -> (r: bool)
        requires
            self.wf(),
        ensures
            r == (self.texels().len() == 0),
    {
        self.texels.len() == 0
    }

    /// The texel at `(row, col)`, or `None` outside the image.
    pub fn at_2d(&self, row: i32, col: i32) -> (r: Option<[u8; 3]>)
        requires
            self.wf(),
        ensures
            r == self.texel_at(row as int, col as int),
    {
        if row < 0 || row >= self.rows || col < 0 || col >= self.cols {
            return None;
        }
        proof {
            assert(row * self.spec_cols() + col < self.spec_rows() * self.spec_cols())
                by (nonlinear_arith)
                requires
                    0 <= row < self.spec_rows(),
                    0 <= col < self.spec_cols(),
            ;
            assert(0 <= row * self.spec_cols()) by (nonlinear_arith)
                requires
                    0 <= row,
                    0 <= self.spec_cols(),
            ;
        }
        let idx = row as usize * self.cols as usize + col as usize;
        Some(self.texels[idx])
    }

    /// Nearest-neighbour lookup with wrapped addressing: `(u, v)` is reduced
    /// by the image size (remainder with the sign of the dividend) before the
    /// lookup. `None` for an empty image or a reduced coordinate that is
    /// still outside it.
    pub fn wrapped_texel(&self, u: i32, v: i32) -> (r: Option<[u8; 3]>)
        requires
            self.wf(),
        ensures
            self.spec_rows() == 0 || self.spec_cols() == 0 ==> r is None,
            self.spec_rows() > 0 && self.spec_cols() > 0 ==> r == self.texel_at(
                trunc_rem(u as int, self.spec_rows()),
                trunc_rem(v as int, self.spec_cols()),
            ),
    {
        if self.rows == 0 || self.cols == 0 {
            return None;
        }
        let a = rem_toward_zero(u, self.rows);
        let b = rem_toward_zero(v, self.cols);
        self.at_2d(a, b)
    }

    /// Nearest-neighbour lookup with clamped addressing: `(u, v)` is moved to
    /// the nearest texel of the image. `None` for an empty image.
    pub fn clamped_texel(&self, u: i32, v: i32) -> (r: Option<[u8; 3]>)
        requires
            self.wf(),
        ensures
            self.spec_rows() == 0 || self.spec_cols() == 0 ==> r is None,
            self.spec_rows() > 0 && self.spec_cols() > 0 ==> r == self.texel_at(
                clamp_index(u as int, self.spec_rows()),
                clamp_index(v as int, self.spec_cols()),
            ),
    {
        if self.rows == 0 || self.cols == 0 {
            return None;
        }
        let a = if u < 0 {
            0
        } else if u >= self.rows {
            self.rows - 1
        } else {
            u
        };
        let b = if v < 0 {
            0
        } else if v >= self.cols {
            self.cols - 1
        } else {
            v
        };
        self.at_2d(a, b)
    }
}

fn rem_toward_zero(a: i32, n: i32) -> (r: i32)
    requires
        n > 0,
    ensures
        r == trunc_rem(a as int, n as int),
{
    let a64 = a as i64;
    let n64 = n as i64;
    if a64 >= 0 {
        (a64 % n64) as i32
    } else {
        let m = (-a64) % n64;
        (-m) as i32
    }
}

} // verus!
