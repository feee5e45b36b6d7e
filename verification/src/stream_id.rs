//! [`StreamKey`]: the owned byte key that names one event stream.
use vstd::prelude::*;
use crate::value::copy_bytes;

verus! {

/// An owned stream key: the stream id's bytes, compared byte for byte.
#[derive(Debug, Clone, PartialEq, Eq, Hash)]
pub struct StreamKey {
    bytes: Vec<u8>,
}

impl View for StreamKey {
    type V = Seq<u8>;

    closed spec fn view(&self) -> Seq<u8> {
        self.bytes@
    }
}

impl StreamKey {
    /// A key holding a copy of `bytes`.
    pub fn from_slice(bytes: &[u8]) -> (r: StreamKey)
        ensures
            r@ == bytes@,
    {
        StreamKey { bytes: copy_bytes(bytes) }
    }

    /// The key's bytes.
    pub fn as_bytes(&self) -> (r: &[u8])
        ensures
            r@ == self@,
    {
        self.bytes.as_slice()
    }

    /// A copy of this key (same bytes).
    pub fn duplicate(&self) -> (r: StreamKey)
        ensures
            r@ == self@,
    {
        StreamKey { bytes: copy_bytes(self.bytes.as_slice()) }
    }
}

} // verus!
