//! Bridged byte streams: what a bridge counts, and a stream made of two halves.
use vstd::prelude::*;

verus! {

/// Bytes that a bridge carried in each direction.
#[derive(Debug, Clone, Copy, PartialEq, Eq, Structural)]
pub struct BridgeStats {
    pub a_to_b: u64,
    pub b_to_a: u64,
}

impl Default for BridgeStats {
    fn default() -> (r: Self)
        ensures
            r.a_to_b == 0,
            r.b_to_a == 0,
    {
        BridgeStats { a_to_b: 0, b_to_a: 0 }
    }
}

/// A bi-directional stream made of a separate reader and writer.
#[derive(Debug)]
pub struct BiStream<R, W> {
    pub reader: R,
    pub writer: W,
}

impl<R, W> BiStream<R, W> {
    /// Joins the two halves.
    pub fn new(reader: R, writer: W) -> (s: Self)
        ensures
            s.reader == reader,
            s.writer == writer,
    {
        BiStream { reader, writer }
    }
}

} // verus!
