//! One container record of a PNG file: a type tag, a payload, and a CRC-32
//! checksum over both, with byte-exact serialization and checked parsing.
//!
//! Wire format: `length:u32-BE | type:4 bytes | data:length bytes | crc:u32-BE`.

use vstd::prelude::*;
use vstd::slice::slice_subrange;
use vstd::slice::slice_to_vec;
use vstd::utf8::encode_utf8;
use vstd::utf8::valid_utf8;

use crate::chunk_type::spec_tag_text;
use crate::chunk_type::ChunkType;
use crate::crc::crc32;
use crate::crc::spec_crc32;
use crate::error::PngError;
use crate::text::lemma_ascii_bytes_valid_utf8;
use crate::text::lemma_decimal_ascii;
use crate::text::push_decimal;
use crate::text::spec_decimal;
use crate::text::vec_to_utf8_string;
use crate::wire::push_u32_be;
use crate::wire::spec_u32_from_be;
use crate::wire::spec_u32_to_be;
use crate::wire::u32_from_be;

verus! {

broadcast use crate::chunk_type::lemma_chunk_type_view_len;

/// The mathematical content of a chunk: its 4 tag bytes and its payload.
pub ghost struct ChunkModel {
    pub ty: Seq<u8>,
    pub data: Seq<u8>,
}

/// Well-formedness of a chunk model: a 4-byte tag, and a payload whose
/// length fits the 32-bit length field of the wire format.
pub open spec fn spec_chunk_wf(m: ChunkModel) -> bool {
    &&& m.ty.len() == 4
    &&& m.data.len() <= 0xFFFF_FFFF
}

/// The checksum a chunk carries: CRC-32 over its tag bytes then its payload.
pub open spec fn spec_chunk_crc(m: ChunkModel) -> u32 {
    spec_crc32(m.ty + m.data)
}

/// The serialized form of a chunk.
pub open spec fn spec_chunk_bytes(m: ChunkModel) -> Seq<u8> {
    spec_u32_to_be(m.data.len() as u32) + m.ty + m.data + spec_u32_to_be(spec_chunk_crc(m))
}

/// What parsing a chunk from the front of `b` yields: the declared number of
/// data bytes must be present and the stored checksum must match the one
/// recomputed over tag and payload.
pub open spec fn spec_parse_chunk(b: Seq<u8>) -> Result<ChunkModel, PngError> {
    if b.len() < 4 {
        Err(PngError::UnexpectedEof)
    } else {
        let l = spec_u32_from_be(b[0], b[1], b[2], b[3]) as int;
        if b.len() < 12 + l {
            Err(PngError::UnexpectedEof)
        } else {
            let m = ChunkModel { ty: b.subrange(4, 8), data: b.subrange(8, 8 + l) };
            let stored = spec_u32_from_be(b[8 + l], b[9 + l], b[10 + l], b[11 + l]);
            if stored != spec_chunk_crc(m) {
                Err(PngError::CrcMismatch)
            } else {
                Ok(m)
            }
        }
    }
}

/// One PNG container record. The checksum is never stored: it is recomputed
/// from the tag and the payload on demand, so the two can never fall out of
/// step.
#[derive(Debug)]
pub struct Chunk {
    chunk_type: ChunkType,
    data: Vec<u8>,
}

impl View for Chunk {
    type V = ChunkModel;

    closed spec fn view(&self) -> ChunkModel {
        ChunkModel { ty: self.chunk_type@, data: self.data@ }
    }
}

impl Chunk {
    /// Every chunk that can be built is well-formed.
    #[verifier::type_invariant]
    pub(crate) open spec fn type_wf(self) -> bool {
        spec_chunk_wf(self@)
    }

    /// Builds a chunk from a tag and an owned payload. The payload length is
    /// bounded by what the 32-bit length field of the wire format can carry.
    pub fn new(chunk_type: ChunkType, data: Vec<u8>) -> (r: Chunk)
        requires
            data@.len() <= 0xFFFF_FFFF,
        ensures
            r@ == (ChunkModel { ty: chunk_type@, data: data@ }),
    {
        Chunk { chunk_type, data }
    }

    /// The chunk's type tag.
    pub fn chunk_type(&self) -> (r: &ChunkType)
        ensures
            r@ == self@.ty,
    {
        &self.chunk_type
    }

    /// The payload.
    pub fn data(&self) -> (r: &Vec<u8>)
        ensures
            r@ == self@.data,
    {
        &self.data
    }

    /// The payload's byte count.
    pub fn length(&self) -> (r: u32)
        ensures
            r == self@.data.len(),
    {
        proof {
            use_type_invariant(self);
        }
        self.data.len() as u32
    }

    /// The CRC-32 checksum over the 4 tag bytes followed by the payload.
    pub fn crc(&self) -> (r: u32)
        ensures
            r == spec_chunk_crc(self@),
    {
        let tb = self.chunk_type.bytes();
        let mut buf: Vec<u8> = Vec::new();
        buf.push(tb[0]);
        buf.push(tb[1]);
        buf.push(tb[2]);
        buf.push(tb[3]);
        let mut i: usize = 0;
        while i < self.data.len()
            invariant
                i <= self.data@.len(),
                buf@ == self@.ty + self@.data.subrange(0, i as int),
            decreases self.data@.len() - i,
        {
            buf.push(self.data[i]);
            proof {
                assert(buf@ =~= self@.ty + self@.data.subrange(0, i + 1));
            }
            i = i + 1;
        }
        proof {
            assert(buf@ =~= self@.ty + self@.data);
        }
        crc32(buf.as_slice())
    }

    /// Serializes the chunk in its wire format: big-endian length, tag,
    /// payload, big-endian checksum.
    pub fn as_bytes(&self) -> (r: Vec<u8>)
        ensures
            r@ == spec_chunk_bytes(self@),
            spec_chunk_wf(self@),
    {
        proof {
            use_type_invariant(self);
        }
        let mut out: Vec<u8> = Vec::new();
        let len = self.length();
        push_u32_be(&mut out, len);
        let tb = self.chunk_type.bytes();
        out.push(tb[0]);
        out.push(tb[1]);
        out.push(tb[2]);
        out.push(tb[3]);
        proof {
            assert(out@ =~= spec_u32_to_be(self@.data.len() as u32) + self@.ty);
        }
        let mut i: usize = 0;
        while i < self.data.len()
            invariant
                i <= self.data@.len(),
                out@ == spec_u32_to_be(self@.data.len() as u32) + self@.ty + self@.data.subrange(
                    0,
                    i as int,
                ),
            decreases self.data@.len() - i,
        {
            out.push(self.data[i]);
            proof {
                assert(out@ =~= spec_u32_to_be(self@.data.len() as u32) + self@.ty
                    + self@.data.subrange(0, i + 1));
            }
            i = i + 1;
        }
        let c = self.crc();
        push_u32_be(&mut out, c);
        proof {
            assert(self@.data.subrange(0, self@.data.len() as int) =~= self@.data);
            assert(out@ =~= spec_chunk_bytes(self@));
        }
        out
    }

    /// Decodes the payload as UTF-8 text; fails with `Utf8Error` when the
    /// payload is not valid UTF-8.
    pub fn data_as_string(&self) -> (r: Result<String, PngError>)
        ensures
            match r {
                Ok(s) => valid_utf8(self@.data) && encode_utf8(s@) == self@.data,
                Err(e) => e == PngError::Utf8Error && !valid_utf8(self@.data),
            },
    {
        let copy = slice_to_vec(self.data.as_slice());
        match vec_to_utf8_string(copy) {
            Some(s) => Ok(s),
            None => Err(PngError::Utf8Error),
        }
    }

    /// Parses a chunk from the front of `bytes`; bytes after the record are
    /// ignored. Fails with `UnexpectedEof` when fewer bytes are present than
    /// the header declares, and with `CrcMismatch` when the stored checksum
    /// differs from the recomputed one.
    pub fn try_from(bytes: &[u8]) -> (r: Result<Chunk, PngError>)
        ensures
            match r {
                Ok(c) => spec_parse_chunk(bytes@) == Ok::<ChunkModel, PngError>(c@),
                Err(e) => spec_parse_chunk(bytes@) == Err::<ChunkModel, PngError>(e),
            },
    {
        proof {
            assert(bytes@.skip(0) =~= bytes@);
        }
        match parse_chunk_at(bytes, 0) {
            Ok((c, _used)) => Ok(c),
            Err(e) => Err(e),
        }
    }
}

/// The bytes of the label ` length=`.
pub open spec fn spec_length_label() -> Seq<u8> {
    seq![0x20u8, 0x6Cu8, 0x65u8, 0x6Eu8, 0x67u8, 0x74u8, 0x68u8, 0x3Du8]
}

/// The bytes of the label ` crc=`.
pub open spec fn spec_crc_label() -> Seq<u8> {
    seq![0x20u8, 0x63u8, 0x72u8, 0x63u8, 0x3Du8]
}

/// The summary line of a chunk: its tag text, then its data length and its
/// checksum in decimal.
pub open spec fn spec_summary_bytes(m: ChunkModel) -> Seq<u8> {
    spec_tag_text(m.ty) + spec_length_label() + spec_decimal(m.data.len()) + spec_crc_label()
        + spec_decimal(spec_chunk_crc(m) as nat)
}

impl Chunk {
    /// A human-readable one-line summary: the tag text, the payload length
    /// and the checksum.
    pub fn summary(&self) -> (r: String)
        ensures
            encode_utf8(r@) == spec_summary_bytes(self@),
    {
        proof {
            use_type_invariant(self);
        }
        let mut out: Vec<u8> = self.chunk_type.as_text_bytes();
        proof {
            assert(out@ =~= spec_tag_text(self@.ty));
        }
        out.push(0x20);
        out.push(0x6C);
        out.push(0x65);
        out.push(0x6E);
        out.push(0x67);
        out.push(0x74);
        out.push(0x68);
        out.push(0x3D);
        proof {
            assert(out@ =~= spec_tag_text(self@.ty) + spec_length_label());
        }
        push_decimal(&mut out, self.length());
        out.push(0x20);
        out.push(0x63);
        out.push(0x72);
        out.push(0x63);
        out.push(0x3D);
        proof {
            assert(out@ =~= spec_tag_text(self@.ty) + spec_length_label() + spec_decimal(
                self@.data.len(),
            ) + spec_crc_label());
        }
        let c = self.crc();
        push_decimal(&mut out, c);
        proof {
            assert(out@ =~= spec_summary_bytes(self@));
        }
        let ghost ob = out@;
        proof {
            lemma_decimal_ascii(self@.data.len());
            lemma_decimal_ascii(spec_chunk_crc(self@) as nat);
            let a = spec_tag_text(self@.ty);
            let b = spec_length_label();
            let cs = spec_decimal(self@.data.len());
            let ds = spec_crc_label();
            let es = spec_decimal(spec_chunk_crc(self@) as nat);
            assert forall|k: int| 0 <= k < ob.len() implies #[trigger] ob[k] <= 0x7F by {
                if k < 4 {
                    assert(ob[k] == a[k]);
                } else if k < 12 {
                    assert(ob[k] == b[k - 4]);
                } else if k < 12 + cs.len() {
                    assert(ob[k] == cs[k - 12]);
                } else if k < 17 + cs.len() {
                    assert(ob[k] == ds[k - 12 - cs.len()]);
                } else {
                    assert(ob[k] == es[k - 17 - cs.len()]);
                }
            }
            lemma_ascii_bytes_valid_utf8(ob);
        }
        match vec_to_utf8_string(out) {
            Some(s) => s,
            None => {
                proof {
                    assert(false);
                }
                String::new()
            },
        }
    }
}

/// Parses the chunk that starts at `pos` in `bytes` and reports how many
/// bytes it occupied.
pub(crate) fn parse_chunk_at(bytes: &[u8], pos: usize) -> (r: Result<(Chunk, usize), PngError>)
    requires
        pos <= bytes@.len(),
    ensures
        match r {
            Ok((c, used)) => {
                &&& spec_parse_chunk(bytes@.skip(pos as int)) == Ok::<ChunkModel, PngError>(c@)
                &&& used == 12 + c@.data.len()
                &&& pos + used <= bytes@.len()
            },
            Err(e) => spec_parse_chunk(bytes@.skip(pos as int)) == Err::<ChunkModel, PngError>(e),
        },
{
    let ghost b = bytes@.skip(pos as int);
    let n = bytes.len();
    if n - pos < 4 {
        return Err(PngError::UnexpectedEof);
    }
    let l = u32_from_be(bytes[pos], bytes[pos + 1], bytes[pos + 2], bytes[pos + 3]);
    proof {
        assert(b[0] == bytes@[pos as int] && b[1] == bytes@[pos + 1] && b[2] == bytes@[pos + 2]
            && b[3] == bytes@[pos + 3]);
    }
    let l_us = l as usize;
    if n - pos < 12 || n - pos - 12 < l_us {
        return Err(PngError::UnexpectedEof);
    }
    let ty_start = pos + 4;
    let data_start = pos + 8;
    let data_end = pos + 8 + l_us;
    let chunk_type = ChunkType::from_bytes(
        [bytes[ty_start], bytes[ty_start + 1], bytes[ty_start + 2], bytes[ty_start + 3]],
    );
    proof {
        assert(chunk_type@ =~= b.subrange(4, 8));
    }
    let mut data: Vec<u8> = Vec::new();
    let mut i: usize = 0;
    while i < l_us
        invariant
            i <= l_us,
            pos + 12 + l_us <= bytes@.len() <= usize::MAX,
            data_start == pos + 8,
            data@ == bytes@.subrange(data_start as int, data_start + i),
        decreases l_us - i,
    {
        data.push(bytes[data_start + i]);
        proof {
            assert(data@ =~= bytes@.subrange(data_start as int, data_start + i + 1));
        }
        i = i + 1;
    }
    proof {
        assert(data@ =~= b.subrange(8, 8 + l as int));
    }
    let body = slice_subrange(bytes, ty_start, data_end);
    let actual = crc32(body);
    proof {
        assert(body@ =~= chunk_type@ + data@);
    }
    let stored = u32_from_be(
        bytes[data_end],
        bytes[data_end + 1],
        bytes[data_end + 2],
        bytes[data_end + 3],
    );
    proof {
        assert(b[8 + l as int] == bytes@[data_end as int] && b[9 + l as int] == bytes@[data_end + 1]
            && b[10 + l as int] == bytes@[data_end + 2] && b[11 + l as int] == bytes@[data_end
            + 3]);
    }
    if actual != stored {
        return Err(PngError::CrcMismatch);
    }
    let c = Chunk { chunk_type, data };
    Ok((c, 12 + l_us))
}

/// Serializing a well-formed chunk and parsing the result yields the chunk
/// back: the round trip is exact.
pub proof fn lemma_chunk_round_trip(m: ChunkModel)
    requires
        spec_chunk_wf(m),
    ensures
        spec_chunk_bytes(m).len() == 12 + m.data.len(),
        spec_parse_chunk(spec_chunk_bytes(m)) == Ok::<ChunkModel, PngError>(m),
{
    lemma_chunk_parse_prefix(m, Seq::empty());
    assert(spec_chunk_bytes(m) + Seq::<u8>::empty() =~= spec_chunk_bytes(m));
}

/// A well-formed chunk's wire form parses back to the chunk even when more
/// bytes follow it: a parse reads exactly the record's `12 + length` bytes.
pub proof fn lemma_chunk_parse_prefix(m: ChunkModel, tail: Seq<u8>)
    requires
        spec_chunk_wf(m),
    ensures
        spec_chunk_bytes(m).len() == 12 + m.data.len(),
        spec_parse_chunk(spec_chunk_bytes(m) + tail) == Ok::<ChunkModel, PngError>(m),
{
    let b = spec_chunk_bytes(m) + tail;
    let len_w = m.data.len() as u32;
    crate::wire::lemma_u32_be_round_trip(len_w);
    assert(b[0] == spec_u32_to_be(len_w)[0] && b[1] == spec_u32_to_be(len_w)[1] && b[2]
        == spec_u32_to_be(len_w)[2] && b[3] == spec_u32_to_be(len_w)[3]);
    let l = spec_u32_from_be(b[0], b[1], b[2], b[3]) as int;
    assert(l == m.data.len());
    assert(spec_chunk_bytes(m).len() == 12 + l);
    assert(b.len() == 12 + l + tail.len());
    assert(b.subrange(4, 8) =~= m.ty);
    assert(b.subrange(8, 8 + l) =~= m.data);
    let crc_w = spec_chunk_crc(m);
    crate::wire::lemma_u32_be_round_trip(crc_w);
    assert(b[8 + l] == spec_u32_to_be(crc_w)[0] && b[9 + l] == spec_u32_to_be(crc_w)[1] && b[10
        + l] == spec_u32_to_be(crc_w)[2] && b[11 + l] == spec_u32_to_be(crc_w)[3]);
    assert(spec_u32_from_be(b[8 + l], b[9 + l], b[10 + l], b[11 + l]) == spec_chunk_crc(m));
    let parsed = ChunkModel { ty: b.subrange(4, 8), data: b.subrange(8, 8 + l) };
    assert(parsed == m);
}

/// CRC-32 catches every corruption of a single byte in the tag or data
/// region: parsing the serialized chunk with any one of those bytes changed
/// fails with `CrcMismatch`.
pub proof fn lemma_corrupt_byte_is_crc_mismatch(m: ChunkModel, p: int, v: u8)
    requires
        spec_chunk_wf(m),
        4 <= p < 8 + m.data.len(),
        v != spec_chunk_bytes(m)[p],
    ensures
        spec_parse_chunk(spec_chunk_bytes(m).update(p, v)) == Err::<ChunkModel, PngError>(
            PngError::CrcMismatch,
        ),
{
    let b0 = spec_chunk_bytes(m);
    let b = b0.update(p, v);
    let len_w = m.data.len() as u32;
    crate::wire::lemma_u32_be_round_trip(len_w);
    assert(b[0] == b0[0] && b[1] == b0[1] && b[2] == b0[2] && b[3] == b0[3]);
    assert(b0[0] == spec_u32_to_be(len_w)[0] && b0[1] == spec_u32_to_be(len_w)[1] && b0[2]
        == spec_u32_to_be(len_w)[2] && b0[3] == spec_u32_to_be(len_w)[3]);
    let l = spec_u32_from_be(b[0], b[1], b[2], b[3]) as int;
    assert(l == m.data.len());
    assert(b0.len() == 12 + l);
    assert(b.len() == 12 + l);
    let crc_w = spec_chunk_crc(m);
    crate::wire::lemma_u32_be_round_trip(crc_w);
    assert(b[8 + l] == b0[8 + l] && b[9 + l] == b0[9 + l] && b[10 + l] == b0[10 + l] && b[11 + l]
        == b0[11 + l]);
    assert(b0[8 + l] == spec_u32_to_be(crc_w)[0] && b0[9 + l] == spec_u32_to_be(crc_w)[1] && b0[10
        + l] == spec_u32_to_be(crc_w)[2] && b0[11 + l] == spec_u32_to_be(crc_w)[3]);
    assert(spec_u32_from_be(b[8 + l], b[9 + l], b[10 + l], b[11 + l]) == crc_w);
    let body0 = m.ty + m.data;
    assert(body0 =~= b0.subrange(4, 8 + l));
    let ty1 = b.subrange(4, 8);
    let data1 = b.subrange(8, 8 + l);
    let q = p - 4;
    assert(body0[q] == b0[p]);
    assert(ty1 + data1 =~= body0.update(q, v));
    let prefix = body0.subrange(0, q);
    let suffix = body0.subrange(q + 1, body0.len() as int);
    assert(body0 =~= prefix + seq![body0[q]] + suffix);
    assert(body0.update(q, v) =~= prefix + seq![v] + suffix);
    crate::crc::lemma_crc32_single_byte_error(prefix, body0[q], v, suffix);
    assert(spec_crc32(ty1 + data1) != crc_w);
}

} // verus!
