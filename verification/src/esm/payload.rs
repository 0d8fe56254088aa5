//! The payload of a record: raw, or compressed behind a declared length.
use vstd::prelude::*;

use flate2::read::ZlibDecoder;
use std::io::Read;

use crate::esm::header::RecordHeader;
use crate::esm::stream::{available, le_u32_at, ByteReader};
use crate::esm::EsmError;

verus! {

/// What the zlib decoder of `flate2` inflates the stream `data` to, or `None`
/// where it reports an error.
pub uninterp spec fn zlib_inflated(data: Seq<u8>) -> Option<Seq<u8>>;

/// Runs `flate2::read::ZlibDecoder` over `data` until the decoder reports the
/// end of its output. The result is named, not described: it is `None` where
/// the decoder reports an error.
#[verifier::external_body]
fn inflate(data: &Vec<u8>) -> (r: Option<Vec<u8>>)
    ensures
        match r {
            Some(out) => zlib_inflated(data@) == Some(out@),
            None => zlib_inflated(data@) is None,
        },
{
    let mut out = Vec::new();
    match ZlibDecoder::new(data.as_slice()).read_to_end(&mut out) {
        Ok(_) => Some(out),
        Err(_) => None,
    }
}

/// An inflated payload is accepted where inflating succeeded and gave exactly
/// the declared number of bytes.
pub open spec fn accepted(inflated: Option<Seq<u8>>, declared: u32) -> bool {
    inflated is Some && inflated.unwrap().len() == declared
}

/// Holds the outcome of inflating against the length that the record declared.
pub fn check_inflated(inflated: Option<Vec<u8>>, declared: u32) -> (r: Result<Vec<u8>, EsmError>)
    ensures
        match r {
            Ok(out) => inflated == Some(out) && out@.len() == declared,
            Err(e) => e == EsmError::Decompress && !(inflated is Some && inflated.unwrap()@.len()
                == declared),
        },
{
    match inflated {
        Some(out) => {
            if out.len() == declared as usize {
                Ok(out)
            } else {
                Err(EsmError::Decompress)
            }
        },
        None => Err(EsmError::Decompress),
    }
}

/// The field stream of a record whose payload of `data_size` bytes starts at
/// `pos`. A compressed payload is a little-endian declared length followed by
/// a zlib stream that must inflate to exactly that many bytes.
pub open spec fn payload_at(data: Seq<u8>, pos: int, data_size: u32, compressed: bool) -> Result<
    Seq<u8>,
    EsmError,
> {
    if !available(data, pos, data_size as int) {
        Err(EsmError::Truncated)
    } else if !compressed {
        Ok(data.subrange(pos, pos + data_size))
    } else if data_size < 4 {
        Err(EsmError::Truncated)
    } else {
        let inflated = zlib_inflated(data.subrange(pos + 4, pos + data_size));
        if accepted(inflated, le_u32_at(data, pos)) {
            Ok(inflated.unwrap())
        } else {
            Err(EsmError::Decompress)
        }
    }
}

/// A compressed payload is accepted only with exactly its declared length:
/// what `payload_at` gives for it has that length and is what the stream
/// inflates to, and a stream that inflates to another length, or to nothing,
/// is refused.
pub proof fn lemma_declared_length(data: Seq<u8>, pos: int, data_size: u32)
    requires
        available(data, pos, data_size as int),
        data_size >= 4,
    ensures
        match payload_at(data, pos, data_size, true) {
            Ok(out) => out.len() == le_u32_at(data, pos) && zlib_inflated(
                data.subrange(pos + 4, pos + data_size),
            ) == Some(out),
            Err(e) => e == EsmError::Decompress && !accepted(
                zlib_inflated(data.subrange(pos + 4, pos + data_size)),
                le_u32_at(data, pos),
            ),
        },
{
}

impl RecordHeader {
    /// Reads the payload that this header declares and returns its field
    /// stream, inflated where the record is flagged as compressed. The stream
    /// ends up behind the payload, unless it is too short to hold it.
    pub fn read_payload(&self, reader: &mut ByteReader) -> (r: Result<Vec<u8>, EsmError>)
        ensures
            final(reader).data == old(reader).data,
            match r {
                Ok(out) => payload_at(
                    old(reader).data@,
                    old(reader).pos as int,
                    self.data_size,
                    self.is_compressed(),
                ) == Ok::<Seq<u8>, EsmError>(out@) && final(reader).pos == old(reader).pos
                    + self.data_size,
                Err(e) => payload_at(
                    old(reader).data@,
                    old(reader).pos as int,
                    self.data_size,
                    self.is_compressed(),
                ) == Err::<Seq<u8>, EsmError>(e) && final(reader).pos == if e
                    == EsmError::Truncated {
                    old(reader).pos as int
                } else {
                    old(reader).pos + self.data_size
                },
            },
    {
        if !reader.can_read(self.data_size as usize) {
            return Err(EsmError::Truncated);
        }
        if !self.is_compressed() {
            return reader.read_exact(self.data_size as usize);
        }
        if self.data_size < 4 {
            return Err(EsmError::Truncated);
        }
        let declared = reader.read_u32()?;
        let packed = reader.read_exact((self.data_size - 4) as usize)?;
        check_inflated(inflate(&packed), declared)
    }
}

} // verus!
