use vstd::prelude::*;

verus! {

/// A face of a model, read from a model file: the indices of its vertices.
pub struct RawFace {
    pub indices: Vec<u32>,
}

impl RawFace {
    /// The face with `offset` added to every index, for when the model's
    /// vertices are placed after `offset` others in a shared buffer.
    pub fn index_offset(self, offset: u32) -> (f: RawFace)
        requires
            forall|i: int| 0 <= i < self.indices@.len() ==> self.indices@[i] + offset <= u32::MAX,
        ensures
            f.indices@.len() == self.indices@.len(),
            forall|i: int|
                0 <= i < self.indices@.len() ==> #[trigger] f.indices@[i] == self.indices@[i]
                    + offset,
    {
        let mut face = self;
        let ghost start = face.indices@;
        let mut i: usize = 0;
        while i < face.indices.len()
            invariant
                0 <= i <= face.indices@.len(),
                face.indices@.len() == start.len(),
                forall|j: int| 0 <= j < start.len() ==> start[j] + offset <= u32::MAX,
                forall|j: int| 0 <= j < i ==> #[trigger] face.indices@[j] == start[j] + offset,
                forall|j: int| i <= j < start.len() ==> #[trigger] face.indices@[j] == start[j],
            decreases start.len() - i,
        {
            let v = face.indices[i] + offset;
            face.indices.set(i, v);
            i = i + 1;
        }
        face
    }
}

} // verus!
