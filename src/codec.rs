//! Compression codecs for the payload of a block.
use vstd::prelude::*;

verus! {

/// What libflate's DEFLATE encoder makes of `data`.
pub uninterp spec fn deflate_of(data: Seq<u8>) -> Seq<u8>;

/// Relies on libflate::deflate::Encoder (new, write_all, finish): the raw
/// DEFLATE stream of `data`, which depends on the bytes alone. The encoder
/// reports an error only when its inner writer does, and here that writer is
/// a `Vec`, which never fails.
#[verifier::external_body]
fn deflate(data: &[u8]) -> (r: Option<Vec<u8>>)
    ensures
        r is Some,
        r matches Some(c) ==> c@ == deflate_of(data@),
{
    let mut encoder = libflate::deflate::Encoder::new(Vec::new());
    match std::io::Write::write_all(&mut encoder, data) {
        Ok(()) => encoder.finish().into_result().ok(),
        Err(_) => None,
    }
}

/// A compression strategy for block payloads, fixed for a writer's lifetime.
#[derive(Clone, Copy, Debug, PartialEq, Eq, Structural)]
pub enum Codec {
    /// Payloads are stored as they are.
    Null,
    /// Payloads are compressed as one raw DEFLATE stream.
    Deflate,
}

impl Codec {
    /// The codec's name as it stands in a container's metadata.
    pub open spec fn name_spec(self) -> Seq<u8> {
        match self {
            // "null"
            Codec::Null => seq![110u8, 117, 108, 108],
            // "deflate"
            Codec::Deflate => seq![100u8, 101, 102, 108, 97, 116, 101],
        }
    }

    /// The payload that the codec makes of `data`.
    pub open spec fn compressed(self, data: Seq<u8>) -> Seq<u8> {
        match self {
            Codec::Null => data,
            Codec::Deflate => deflate_of(data),
        }
    }

    pub fn name(&self) -> (r: Vec<u8>)
        ensures
            r@ == self.name_spec(),
    {
        let r = match self {
            Codec::Null => vec![110u8, 117, 108, 108],
            Codec::Deflate => vec![100u8, 101, 102, 108, 97, 116, 101],
        };
        assert(r@ =~= self.name_spec());
        r
    }

    /// Compresses `data` as one unit; no codec here fails.
    pub fn compress(&self, data: Vec<u8>) -> (r: Vec<u8>)
        ensures
            r@ == self.compressed(data@),
    {
        match self {
            Codec::Null => data,
            Codec::Deflate => deflate(data.as_slice()).unwrap(),
        }
    }
}

} // verus!
