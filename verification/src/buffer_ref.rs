//! Naming of open buffers.
use vstd::prelude::*;

verus! {

/// Which buffer is meant: the unnamed scratch buffer or the one that belongs
/// to a file path.
#[derive(Debug, Clone)]
pub enum BufferRef<S = String> {
    Scratch,
    File(S),
}

impl View for BufferRef {
    type V = BufferRef<Seq<char>>;

    open spec fn view(&self) -> BufferRef<Seq<char>> {
        match self {
            BufferRef::Scratch => BufferRef::Scratch,
            BufferRef::File(p) => BufferRef::File(p@),
        }
    }
}

impl BufferRef {
    /// Whether two references name the same buffer.
    pub fn same(&self, other: &BufferRef) -> (r: bool)
        ensures
            r == (self@ == other@),
    {
        match (self, other) {
            (BufferRef::Scratch, BufferRef::Scratch) => true,
            (BufferRef::File(a), BufferRef::File(b)) => crate::text::same_str(a.as_str(), b.as_str()),
            _ => false,
        }
    }

    /// A copy of the reference.
    pub fn copy(&self) -> (r: BufferRef)
        ensures
            r@ == self@,
    {
        match self {
            BufferRef::Scratch => BufferRef::Scratch,
            BufferRef::File(p) => BufferRef::File(p.clone()),
        }
    }
}

} // verus!
