use std::collections::HashMap;
use vstd::prelude::*;

verus! {

broadcast use vstd::std_specs::hash::group_hash_axioms;

/// Handle of a loaded position (vertex) buffer.
#[derive(Clone, Copy, Debug, PartialEq, Eq, Hash, Structural)]
pub struct PosBufId(u32);

/// Handle of a loaded index buffer.
#[derive(Clone, Copy, Debug, PartialEq, Eq, Hash, Structural)]
pub struct IndBufId(u32);

impl PosBufId {
    pub closed spec fn spec_id(self) -> u32 {
        self.0
    }

    pub fn id(self) -> (r: u32)
        ensures
            r == self.spec_id(),
    {
        self.0
    }
}

impl IndBufId {
    pub closed spec fn spec_id(self) -> u32 {
        self.0
    }

    pub fn id(self) -> (r: u32)
        ensures
            r == self.spec_id(),
    {
        self.0
    }
}

/// Why a draw call or a pixel write stops.
#[derive(Clone, Copy, Debug, PartialEq, Eq, Structural)]
pub enum DrawError {
    /// A handle that this rasterizer never issued for that kind of buffer.
    InvalidHandle,
    /// A triangle corner that names no vertex of the position buffer.
    IndexOutOfRange,
    /// A primitive kind that the draw call does not assemble.
    UnsupportedPrimitive,
    /// A pixel coordinate outside the frame.
    PixelOutOfRange,
}

/// Owns the loaded vertex and index buffers and issues their handles from
/// one counter shared by both kinds.
pub struct GeometryStore<V> {
    positions: HashMap<u32, Vec<V>>,
    indices: HashMap<u32, Vec<[u32; 3]>>,
    next_id: u32,
    issued: Ghost<Seq<u32>>,
}

impl<V> GeometryStore<V> {
    /// Every handle issued so far, in the order of issue.
    pub closed spec fn handles(&self) -> Seq<u32> {
        self.issued@
    }

    /// The loaded vertex buffers, by handle.
    pub closed spec fn position_buffers(&self) -> Map<u32, Seq<V>> {
        self.positions@.map_values(|v: Vec<V>| v@)
    }

    /// The loaded index buffers, by handle.
    pub closed spec fn index_buffers(&self) -> Map<u32, Seq<[u32; 3]>> {
        self.indices@.map_values(|v: Vec<[u32; 3]>| v@)
    }

    pub closed spec fn wf(&self) -> bool {
        &&& self.next_id == self.issued@.len()
        &&& forall|i: int| 0 <= i < self.issued@.len() ==> #[trigger] self.issued@[i] == i
        &&& forall|k: u32| #[trigger] self.positions@.contains_key(k) ==> k < self.next_id
        &&& forall|k: u32| #[trigger] self.indices@.contains_key(k) ==> k < self.next_id
    }

    pub fn new() -> (r: Self)
        ensures
            r.wf(),
            r.handles() == Seq::<u32>::empty(),
            r.position_buffers() == Map::<u32, Seq<V>>::empty(),
            r.index_buffers() == Map::<u32, Seq<[u32; 3]>>::empty(),
    {
        let r = GeometryStore {
            positions: HashMap::new(),
            indices: HashMap::new(),
            next_id: 0,
            issued: Ghost(Seq::empty()),
        };
        assert(r.position_buffers() =~= Map::empty());
        assert(r.index_buffers() =~= Map::empty());
        r
    }

    /// Whether another handle can be issued.
    pub fn has_free_handle(&self) -> (r: bool)
        requires
            self.wf(),
        ensures
            r == (self.handles().len() < u32::MAX),
    {
        self.next_id < u32::MAX
    }

    fn get_next_id(&mut self) -> (r: u32)
        requires
            old(self).wf(),
            old(self).handles().len() < u32::MAX,
        ensures
            r == old(self).handles().len(),
            final(self).handles() == old(self).handles().push(r),
            final(self).next_id == old(self).next_id + 1,
            final(self).positions == old(self).positions,
            final(self).indices == old(self).indices,
    {
        let id = self.next_id;
        self.next_id = self.next_id + 1;
        self.issued = Ghost(self.issued@.push(id));
        id
    }

    /// Stores a vertex buffer under a new handle.
    pub fn load_position(&mut self, positions: Vec<V>) -> (r: PosBufId)
        requires
            old(self).wf(),
            old(self).handles().len() < u32::MAX,
        ensures
            final(self).wf(),
            r.spec_id() == old(self).handles().len(),
            !old(self).handles().contains(r.spec_id()),
            !old(self).position_buffers().contains_key(r.spec_id()),
            !old(self).index_buffers().contains_key(r.spec_id()),
            final(self).handles() == old(self).handles().push(r.spec_id()),
            final(self).position_buffers() == old(self).position_buffers().insert(
                r.spec_id(),
                positions@,
            ),
            final(self).index_buffers() == old(self).index_buffers(),
    {
        let ghost pre = *self;
        let id = self.get_next_id();
        assert(!pre.handles().contains(id)) by {
            if pre.handles().contains(id) {
                let i = pre.handles().index_of(id);
                assert(pre.issued@[i] == i);
            }
        }
        let ghost view = positions@;
        self.positions.insert(id, positions);
        assert(self.position_buffers() =~= pre.position_buffers().insert(id, view));
        assert(self.index_buffers() =~= pre.index_buffers());
        PosBufId(id)
    }

    /// Stores an index buffer (one corner triple per triangle) under a new handle.
    pub fn load_indices(&mut self, indices: Vec<[u32; 3]>) -> (r: IndBufId)
        requires
            old(self).wf(),
            old(self).handles().len() < u32::MAX,
        ensures
            final(self).wf(),
            r.spec_id() == old(self).handles().len(),
            !old(self).handles().contains(r.spec_id()),
            !old(self).position_buffers().contains_key(r.spec_id()),
            !old(self).index_buffers().contains_key(r.spec_id()),
            final(self).handles() == old(self).handles().push(r.spec_id()),
            final(self).index_buffers() == old(self).index_buffers().insert(
                r.spec_id(),
                indices@,
            ),
            final(self).position_buffers() == old(self).position_buffers(),
    {
        let ghost pre = *self;
        let id = self.get_next_id();
        assert(!pre.handles().contains(id)) by {
            if pre.handles().contains(id) {
                let i = pre.handles().index_of(id);
                assert(pre.issued@[i] == i);
            }
        }
        let ghost view = indices@;
        self.indices.insert(id, indices);
        assert(self.index_buffers() =~= pre.index_buffers().insert(id, view));
        assert(self.position_buffers() =~= pre.position_buffers());
        IndBufId(id)
    }

    /// The vertex buffer loaded under `id`.
    pub fn positions(&self, id: PosBufId) -> (r: Result<&Vec<V>, DrawError>)
        ensures
            match r {
                Ok(v) => self.position_buffers().contains_key(id.spec_id())
                    && v@ == self.position_buffers()[id.spec_id()],
                Err(e) => !self.position_buffers().contains_key(id.spec_id())
                    && e == DrawError::InvalidHandle,
            },
    {
        match self.positions.get(&id.0) {
            Some(v) => Ok(v),
            None => Err(DrawError::InvalidHandle),
        }
    }

    /// The index buffer loaded under `id`.
    pub fn indices(&self, id: IndBufId) -> (r: Result<&Vec<[u32; 3]>, DrawError>)
        ensures
            match r {
                Ok(v) => self.index_buffers().contains_key(id.spec_id())
                    && v@ == self.index_buffers()[id.spec_id()],
                Err(e) => !self.index_buffers().contains_key(id.spec_id())
                    && e == DrawError::InvalidHandle,
            },
    {
        match self.indices.get(&id.0) {
            Some(v) => Ok(v),
            None => Err(DrawError::InvalidHandle),
        }
    }
}

/// Handles are never reused: whatever sequence of loads produced the store,
/// the handles it returned are pairwise distinct.
pub proof fn lemma_handles_unique<V>(s: &GeometryStore<V>)
    requires
        s.wf(),
    ensures
        forall|i: int, j: int|
            0 <= i < s.handles().len() && 0 <= j < s.handles().len() && i != j ==> s.handles()[i]
                != s.handles()[j],
{
}

/// Whether every corner of `tri` names one of `vertex_count` vertices.
pub open spec fn corners_in_range(vertex_count: nat, tri: [u32; 3]) -> bool {
    forall|i: int| 0 <= i < 3 ==> (#[trigger] tri[i] as nat) < vertex_count
}

/// The vertex positions that the corners of `tri` name, checked against the
/// length of the vertex buffer.
pub fn corner_indices(vertex_count: usize, tri: [u32; 3]) -> (r: Result<[usize; 3], DrawError>)
    ensures
        match r {
            Ok(c) => corners_in_range(vertex_count as nat, tri) && forall|i: int|
                0 <= i < 3 ==> #[trigger] c[i] == tri[i] as usize,
            Err(e) => !corners_in_range(vertex_count as nat, tri) && e
                == DrawError::IndexOutOfRange,
        },
{
    let a = tri[0] as usize;
    let b = tri[1] as usize;
    let c = tri[2] as usize;
    if a < vertex_count && b < vertex_count && c < vertex_count {
        let r = [a, b, c];
        assert(forall|i: int| 0 <= i < 3 ==> #[trigger] r[i] == tri[i] as usize);
        Ok(r)
    } else {
        Err(DrawError::IndexOutOfRange)
    }
}

} // verus!
