use vstd::prelude::*;
use vstd::slice::{slice_subrange, slice_to_vec};
use vstd::utf8::{decode_utf8, valid_utf8};

use crate::chunk_type::{lemma_type_len, utf8_text, ChunkType};
use crate::error::PngError;

verus! {

broadcast use lemma_type_len;

/// What a chunk is: its four type bytes and its data bytes.
pub type ChunkView = (Seq<u8>, Seq<u8>);

/// CRC-32/ISO-HDLC (the zlib and gzip checksum) of a byte sequence.
pub uninterp spec fn crc32_of(b: Seq<u8>) -> u32;

/// Relies on the `crc` crate: `Crc::<u32>::checksum` with the
/// `CRC_32_ISO_HDLC` algorithm, which depends on the bytes alone.
#[verifier::external_body]
fn crc32_checksum(bytes: &[u8]) -> (r: u32)
    ensures
        r == crc32_of(bytes@),
{
    crc::Crc::<u32>::new(&crc::CRC_32_ISO_HDLC).checksum(bytes)
}

/// The four big-endian bytes of `n`.
pub open spec fn be32(n: u32) -> Seq<u8> {
    seq![(n >> 24u32) as u8, (n >> 16u32) as u8, (n >> 8u32) as u8, n as u8]
}

/// The number that four big-endian bytes stand for.
pub open spec fn be32_value(b: Seq<u8>) -> u32 {
    ((b[0] as u32) << 24u32) | ((b[1] as u32) << 16u32) | ((b[2] as u32) << 8u32) | (b[3] as u32)
}

/// Reading back the big-endian bytes of a number gives the number.
pub proof fn lemma_be32_round_trip(n: u32)
    ensures
        be32_value(be32(n)) == n,
{
    let b = be32(n);
    assert(b[0] == (n >> 24u32) as u8 && b[1] == (n >> 16u32) as u8);
    assert(b[2] == (n >> 8u32) as u8 && b[3] == n as u8);
    assert((((((n >> 24u32) as u8) as u32) << 24u32) | ((((n >> 16u32) as u8) as u32) << 16u32)
        | ((((n >> 8u32) as u8) as u32) << 8u32) | ((n as u8) as u32)) == n) by (bit_vector);
}

/// The checksum of a chunk: CRC-32 over its type bytes followed by its data.
pub open spec fn checksum_of(c: ChunkView) -> u32 {
    crc32_of(c.0 + c.1)
}

/// A chunk as written: length, type, data, checksum.
pub open spec fn record_bytes(c: ChunkView) -> Seq<u8> {
    be32(c.1.len() as u32) + c.0 + c.1 + be32(checksum_of(c))
}

/// What a whole record (length, type, data, checksum) reads as.
pub open spec fn parse_record(b: Seq<u8>) -> Result<ChunkView, PngError> {
    if b.len() < 12 || be32_value(b.subrange(0, 4)) != b.len() - 12 {
        Err(PngError::Truncated)
    } else {
        let t = b.subrange(4, 8);
        let d = b.subrange(8, b.len() - 4);
        if crc32_of(t + d) != be32_value(b.subrange(b.len() - 4, b.len() as int)) {
            Err(PngError::ChecksumMismatch)
        } else {
            Ok((t, d))
        }
    }
}

/// A record with the given type, data and stored checksum reads back as that
/// type and data exactly when the stored checksum is the CRC-32 of type and
/// data; otherwise it is refused as a checksum mismatch.
pub proof fn lemma_checksum_decides(t: Seq<u8>, d: Seq<u8>, stored: u32)
    requires
        t.len() == 4,
        d.len() <= u32::MAX,
    ensures
        parse_record(be32(d.len() as u32) + t + d + be32(stored)) == if stored == crc32_of(t + d) {
            Ok::<ChunkView, PngError>((t, d))
        } else {
            Err(PngError::ChecksumMismatch)
        },
{
    let b = be32(d.len() as u32) + t + d + be32(stored);
    assert(b.subrange(0, 4) =~= be32(d.len() as u32));
    lemma_be32_round_trip(d.len() as u32);
    assert(b.subrange(4, 8) =~= t);
    assert(b.subrange(8, b.len() - 4) =~= d);
    assert(b.subrange(b.len() - 4, b.len() as int) =~= be32(stored));
    lemma_be32_round_trip(stored);
}

/// A chunk's own record reads back as that chunk.
pub proof fn lemma_record_round_trip(c: ChunkView)
    requires
        c.0.len() == 4,
        c.1.len() <= u32::MAX,
    ensures
        parse_record(record_bytes(c)) == Ok::<ChunkView, PngError>(c),
{
    lemma_checksum_decides(c.0, c.1, checksum_of(c));
}

fn be32_bytes(n: u32) -> (r: [u8; 4])
    ensures
        r@ == be32(n),
{
    let r = [(n >> 24) as u8, (n >> 16) as u8, (n >> 8) as u8, n as u8];
    assert(r@ =~= be32(n));
    r
}

pub(crate) fn read_be32(b: &[u8], at: usize) -> (r: u32)
    requires
        at + 4 <= b@.len(),
    ensures
        r == be32_value(b@.subrange(at as int, at + 4)),
{
    ((b[at] as u32) << 24) | ((b[at + 1] as u32) << 16) | ((b[at + 2] as u32) << 8) | (b[at
        + 3] as u32)
}

pub(crate) fn append_bytes(out: &mut Vec<u8>, b: &[u8])
    ensures
        final(out)@ == old(out)@ + b@,
{
    let mut i: usize = 0;
    while i < b.len()
        invariant
            i <= b@.len(),
            out@ == old(out)@ + b@.subrange(0, i as int),
        decreases b@.len() - i,
    {
        out.push(b[i]);
        i = i + 1;
        assert(out@ =~= old(out)@ + b@.subrange(0, i as int));
    }
    assert(b@.subrange(0, i as int) =~= b@);
}

/// One chunk: a type code and the data it carries.
#[derive(Debug)]
pub struct Chunk {
    chunk_type: ChunkType,
    chunk_data: Vec<u8>,
}

impl View for Chunk {
    type V = ChunkView;

    closed spec fn view(&self) -> ChunkView {
        (self.chunk_type@, self.chunk_data@)
    }
}

impl Chunk {
    /// The data length always fits the four-byte length field.
    #[verifier::type_invariant]
    spec fn inv(&self) -> bool {
        self.chunk_data@.len() <= u32::MAX
    }

    pub fn new(chunk_type: ChunkType, data: Vec<u8>) -> (r: Chunk)
        requires
            data@.len() <= u32::MAX,
        ensures
            r@ == (chunk_type@, data@),
    {
        Chunk { chunk_type, chunk_data: data }
    }

    pub fn length(&self) -> (r: u32)
        ensures
            r == self@.1.len(),
    {
        proof {
            use_type_invariant(self);
        }
        self.chunk_data.len() as u32
    }

    pub fn chunk_type(&self) -> (r: &ChunkType)
        ensures
            r@ == self@.0,
    {
        &self.chunk_type
    }

    pub fn data(&self) -> (r: &[u8])
        ensures
            r@ == self@.1,
    {
        self.chunk_data.as_slice()
    }

    pub fn crc(&self) -> (r: u32)
        ensures
            r == checksum_of(self@),
    {
        let type_bytes = self.chunk_type.bytes();
        let mut covered: Vec<u8> = Vec::new();
        append_bytes(&mut covered, type_bytes.as_slice());
        append_bytes(&mut covered, self.chunk_data.as_slice());
        crc32_checksum(covered.as_slice())
    }

    /// The data as UTF-8 text.
    pub fn data_as_string(&self) -> (r: Result<String, PngError>)
        ensures
            r is Ok <==> valid_utf8(self@.1),
            r matches Ok(s) ==> s@ == decode_utf8(self@.1),
            r matches Err(e) ==> e == PngError::EncodingError,
    {
        match utf8_text(self.chunk_data.as_slice()) {
            Some(text) => Ok(text.to_owned()),
            None => Err(PngError::EncodingError),
        }
    }

    /// The chunk as written in a file.
    pub fn as_bytes(&self) -> (r: Vec<u8>)
        ensures
            r@ == record_bytes(self@),
    {
        let length = be32_bytes(self.length());
        let type_bytes = self.chunk_type.bytes();
        let crc = be32_bytes(self.crc());
        let mut out: Vec<u8> = Vec::new();
        append_bytes(&mut out, length.as_slice());
        append_bytes(&mut out, type_bytes.as_slice());
        append_bytes(&mut out, self.chunk_data.as_slice());
        append_bytes(&mut out, crc.as_slice());
        out
    }

    /// Reads one whole record: length, type, data and checksum. The length
    /// field must agree with the number of data bytes in `value`.
    pub fn try_from(value: &[u8]) -> (r: Result<Chunk, PngError>)
        ensures
            parse_record(value@) == match r {
                Ok(c) => Ok(c@),
                Err(e) => Err::<ChunkView, PngError>(e),
            },
    {
        let n = value.len();
        if n < 12 {
            return Err(PngError::Truncated);
        }
        let declared = read_be32(value, 0);
        if declared as u64 != (n - 12) as u64 {
            return Err(PngError::Truncated);
        }
        let chunk_type = match ChunkType::try_from([value[4], value[5], value[6], value[7]]) {
            Ok(t) => t,
            Err(e) => return Err(e),
        };
        let stored = read_be32(value, n - 4);
        let covered = slice_subrange(value, 4, n - 4);
        let data = slice_subrange(value, 8, n - 4);
        proof {
            assert(chunk_type@ =~= value@.subrange(4, 8));
            assert(covered@ =~= value@.subrange(4, 8) + data@);
        }
        if crc32_checksum(covered) != stored {
            return Err(PngError::ChecksumMismatch);
        }
        Ok(Chunk::new(chunk_type, slice_to_vec(data)))
    }
}

impl Clone for Chunk {
    fn clone(&self) -> (r: Chunk)
        ensures
            r@ == self@,
    {
        proof {
            use_type_invariant(self);
        }
        let data = slice_to_vec(self.chunk_data.as_slice());
        Chunk { chunk_type: self.chunk_type, chunk_data: data }
    }
}

impl<'a> TryFrom<&'a [u8]> for Chunk {
    type Error = PngError;

    fn try_from(value: &'a [u8]) -> (r: Result<Chunk, PngError>) {
        Chunk::try_from(value)
    }
}

/// What the conversion yields is stated on `Chunk::try_from`; nothing is
/// claimed through the trait.
impl<'a> vstd::std_specs::convert::TryFromSpecImpl<&'a [u8]> for Chunk {
    open spec fn obeys_try_from_spec() -> bool {
        false
    }

    open spec fn try_from_spec(v: &'a [u8]) -> Result<Chunk, PngError> {
        Err(PngError::Truncated)
    }
}

} // verus!
