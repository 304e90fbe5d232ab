use vstd::prelude::*;

verus! {

/// A set of frame-state buffers, as bit flags that combine with `|` and `&`.
#[derive(Clone, Copy, Debug, Default)]
pub struct Buffer(pub u32);

impl Buffer {
    /// The color buffers.
    pub fn color() -> (r: Buffer)
        ensures
            r.0 == 1,
    {
        Buffer(1)
    }

    /// The depth buffers.
    pub fn depth() -> (r: Buffer)
        ensures
            r.0 == 2,
    {
        Buffer(2)
    }

    /// Whether the color buffers are selected.
    pub open spec fn spec_has_color(self) -> bool {
        self.0 & 1 != 0
    }

    /// Whether the depth buffers are selected.
    pub open spec fn spec_has_depth(self) -> bool {
        self.0 & 2 != 0
    }

    pub fn has_color(self) -> (r: bool)
        ensures
            r == self.spec_has_color(),
    {
        self.0 & 1 != 0
    }

    pub fn has_depth(self) -> (r: bool)
        ensures
            r == self.spec_has_depth(),
    {
        self.0 & 2 != 0
    }
}

impl std::ops::BitOr for Buffer {
    type Output = Buffer;

    fn bitor(self, rhs: Buffer) -> (r: Buffer)
        ensures
            r.0 == self.0 | rhs.0,
    {
        Buffer(self.0 | rhs.0)
    }
}

impl std::ops::BitAnd for Buffer {
    type Output = Buffer;

    fn bitand(self, rhs: Buffer) -> (r: Buffer)
        ensures
            r.0 == self.0 & rhs.0,
    {
        Buffer(self.0 & rhs.0)
    }
}

impl vstd::std_specs::ops::BitOrSpecImpl for Buffer {
    open spec fn obeys_bitor_spec() -> bool {
        true
    }

    open spec fn bitor_req(self, rhs: Buffer) -> bool {
        true
    }

    open spec fn bitor_spec(self, rhs: Buffer) -> Buffer {
        Buffer(self.0 | rhs.0)
    }
}

impl vstd::std_specs::ops::BitAndSpecImpl for Buffer {
    open spec fn obeys_bitand_spec() -> bool {
        true
    }

    open spec fn bitand_req(self, rhs: Buffer) -> bool {
        true
    }

    open spec fn bitand_spec(self, rhs: Buffer) -> Buffer {
        Buffer(self.0 & rhs.0)
    }
}

/// The kind of primitive a draw call assembles from its index buffer.
#[allow(non_camel_case_types)]
#[derive(Clone, Copy, Debug, PartialEq, Eq, Structural)]
pub enum Primitive {
    LINE,
    TRIANGLE,
}

} // verus!
