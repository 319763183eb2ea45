//! A writable memory map, with a record of the bytes it was last seen to hold.
//!
//! memmap2 makes it undefined behaviour for a mapped file to be changed other
//! than through the map itself (the `Safety` section of `MmapMut`). So the bytes
//! of a map stay what the last access through it left them, and the record kept
//! here is what later accesses find. Only this module reads or sets the record.

use memmap2::MmapMut;
use vstd::prelude::*;

verus! {

/// A memory map and the bytes it held when last accessed, once it has been.
pub struct Mapping {
    map: MmapMut,
    seen: Ghost<Option<Seq<u8>>>,
}

impl Mapping {
    /// The memory map.
    pub closed spec fn map(&self) -> MmapMut {
        self.map
    }

    /// The bytes that the map held when last accessed (`None` before any access).
    pub closed spec fn seen(&self) -> Option<Seq<u8>> {
        self.seen@
    }

    /// Takes `map` and looks at its bytes once, so that they are on record.
    pub fn new(map: MmapMut) -> (m: Self)
        ensures
            m.map() == map,
            m.seen() is Some,
    {
        let mut m = Mapping { map, seen: Ghost(None) };
        let _ = mapped_bytes_mut(&mut m);
        m
    }

    /// Gives the memory map back.
    pub fn into_map(self) -> (map: MmapMut)
        ensures
            map == self.map(),
    {
        self.map
    }
}

/// `MmapMut::deref`: the mapped bytes; once on record, they are the bytes on record.
#[verifier::external_body]
pub(crate) fn mapped_bytes(m: &Mapping) -> (res: &[u8])
    ensures
        m.seen() matches Some(b) ==> res@ == b,
{
    &m.map
}

/// `MmapMut::deref_mut`: the mapped bytes, for writing; once on record, they are
/// the bytes on record, and what the writes through them leave is put on record.
/// It does not panic: it builds the slice from the map's pointer and length.
#[verifier::external_body]
pub(crate) fn mapped_bytes_mut(m: &mut Mapping) -> (res: &mut [u8])
    ensures
        old(m).seen() matches Some(b) ==> res@ == b,
        final(m).seen() == Some(final(res)@),
        final(m).map() == old(m).map(),
    no_unwind
{
    &mut m.map
}

} // verus!
