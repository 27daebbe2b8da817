//! The whole-file container: a fixed 8-byte signature followed by an ordered
//! sequence of chunks, with byte-exact parsing and serialization, appending,
//! and first-match removal and lookup by type string.

use vstd::prelude::*;
use vstd::string::StringSliceAdditionalSpecFns;

use crate::chunk::parse_chunk_at;
use crate::chunk::spec_chunk_bytes;
use crate::chunk::spec_chunk_wf;
use crate::chunk::spec_parse_chunk;
use crate::chunk::Chunk;
use crate::chunk::ChunkModel;
use crate::error::PngError;

verus! {

broadcast use crate::chunk_type::lemma_chunk_type_view_len;

/// The fixed 8-byte prefix that identifies a byte stream as a PNG file.
pub open spec fn spec_signature() -> Seq<u8> {
    seq![0x89u8, 0x50u8, 0x4Eu8, 0x47u8, 0x0Du8, 0x0Au8, 0x1Au8, 0x0Au8]
}

/// The fixed 8-byte prefix, as a value callers can write out.
pub fn signature() -> (r: [u8; 8])
    ensures
        r@ == spec_signature(),
{
    let r: [u8; 8] = [0x89, 0x50, 0x4E, 0x47, 0x0D, 0x0A, 0x1A, 0x0A];
    proof {
        assert(r@ =~= spec_signature());
    }
    r
}

/// Well-formedness of a chunk sequence: every chunk is well-formed.
pub open spec fn spec_png_wf(s: Seq<ChunkModel>) -> bool {
    forall|i: int| 0 <= i < s.len() ==> spec_chunk_wf(#[trigger] s[i])
}

/// The concatenated wire forms of a sequence of chunks.
pub open spec fn spec_chunks_bytes(s: Seq<ChunkModel>) -> Seq<u8>
    decreases s.len(),
{
    if s.len() == 0 {
        Seq::empty()
    } else {
        spec_chunk_bytes(s[0]) + spec_chunks_bytes(s.drop_first())
    }
}

/// The complete serialized file: signature, then every chunk in order.
pub open spec fn spec_png_bytes(s: Seq<ChunkModel>) -> Seq<u8> {
    spec_signature() + spec_chunks_bytes(s)
}

/// What parsing a chunk sequence from `b` yields: chunks are read back to
/// back until no bytes remain; any chunk-level failure propagates.
pub open spec fn spec_parse_chunks(b: Seq<u8>) -> Result<Seq<ChunkModel>, PngError>
    decreases b.len(),
{
    if b.len() == 0 {
        Ok(Seq::empty())
    } else {
        match spec_parse_chunk(b) {
            Err(e) => Err(e),
            Ok(m) => match spec_parse_chunks(b.skip(12 + m.data.len() as int)) {
                Err(e) => Err(e),
                Ok(rest) => Ok(seq![m] + rest),
            },
        }
    }
}

/// What parsing a whole file yields: the signature must match exactly, and
/// the rest of the input must parse as a chunk sequence.
pub open spec fn spec_parse_png(b: Seq<u8>) -> Result<Seq<ChunkModel>, PngError> {
    if b.len() < 8 || b.subrange(0, 8) != spec_signature() {
        Err(PngError::InvalidSignature)
    } else {
        spec_parse_chunks(b.skip(8))
    }
}

/// Whether a chunk's type tag equals the target tag bytes.
pub open spec fn spec_matches(m: ChunkModel, t: Seq<u8>) -> bool {
    m.ty == t
}

/// The index of the first chunk whose tag equals `t`, or `s.len()` when
/// none does.
pub open spec fn spec_first_match_idx(s: Seq<ChunkModel>, t: Seq<u8>) -> int
    decreases s.len(),
{
    if s.len() == 0 {
        0
    } else if spec_matches(s[0], t) {
        0
    } else {
        1 + spec_first_match_idx(s.drop_first(), t)
    }
}

/// What removing the first chunk with tag `t` yields: the shortened
/// sequence and the removed chunk, or nothing when no chunk matches.
pub open spec fn spec_remove_first(s: Seq<ChunkModel>, t: Seq<u8>) -> Option<
    (Seq<ChunkModel>, ChunkModel),
> {
    let i = spec_first_match_idx(s, t);
    if i == s.len() {
        None
    } else {
        Some((s.remove(i), s[i]))
    }
}

/// What looking up the first chunk with tag `t` yields.
pub open spec fn spec_find_first(s: Seq<ChunkModel>, t: Seq<u8>) -> Option<ChunkModel> {
    let i = spec_first_match_idx(s, t);
    if i == s.len() {
        None
    } else {
        Some(s[i])
    }
}

/// The models of a sequence of chunks.
pub open spec fn spec_models(v: Seq<Chunk>) -> Seq<ChunkModel> {
    Seq::new(v.len(), |i: int| v[i]@)
}

/// `spec_first_match_idx` points at the first match: it lies in
/// `0 ..= s.len()`, everything before it mismatches, and it matches unless
/// it equals `s.len()`.
pub proof fn lemma_first_match_idx_props(s: Seq<ChunkModel>, t: Seq<u8>)
    ensures
        0 <= spec_first_match_idx(s, t) <= s.len(),
        spec_first_match_idx(s, t) < s.len() ==> spec_matches(s[spec_first_match_idx(s, t)], t),
        forall|j: int| 0 <= j < spec_first_match_idx(s, t) ==> !spec_matches(#[trigger] s[j], t),
    decreases s.len(),
{
    if s.len() != 0 && !spec_matches(s[0], t) {
        let s2 = s.drop_first();
        lemma_first_match_idx_props(s2, t);
        let i2 = spec_first_match_idx(s2, t);
        if i2 < s2.len() {
            assert(s2[i2] == s[1 + i2]);
        }
        assert forall|j: int| 0 <= j < 1 + i2 implies !spec_matches(#[trigger] s[j], t) by {
            if j > 0 {
                assert(s2[j - 1] == s[j]);
                assert(!spec_matches(s2[j - 1], t));
            }
        }
    }
}

/// The whole-file container: an ordered sequence of chunks, serialized
/// behind the fixed signature.
#[derive(Debug)]
pub struct Png {
    chunks: Vec<Chunk>,
}

impl View for Png {
    type V = Seq<ChunkModel>;

    closed spec fn view(&self) -> Seq<ChunkModel> {
        spec_models(self.chunks@)
    }
}

impl Png {
    /// Starts a container with the given chunk sequence, in order.
    pub fn from_chunks(chunks: Vec<Chunk>) -> (r: Png)
        ensures
            r@ == spec_models(chunks@),
    {
        Png { chunks }
    }

    /// The chunks, in their current order.
    pub fn chunks(&self) -> (r: &Vec<Chunk>)
        ensures
            spec_models(r@) == self@,
    {
        &self.chunks
    }

    /// Appends a chunk at the end of the sequence.
    pub fn append_chunk(&mut self, chunk: Chunk)
        ensures
            final(self)@ == old(self)@.push(chunk@),
    {
        self.chunks.push(chunk);
        proof {
            assert(spec_models(self.chunks@) =~= old(self)@.push(chunk@));
        }
    }

    /// Removes and returns the first chunk whose type's textual form equals
    /// `chunk_type`; fails with `ChunkNotFound`, leaving the container
    /// unchanged, when no chunk matches.
    pub fn remove_chunk(&mut self, chunk_type: &str) -> (r: Result<Chunk, PngError>)
        ensures
            match r {
                Ok(c) => spec_remove_first(old(self)@, chunk_type.spec_bytes()) == Some(
                    (final(self)@, c@),
                ),
                Err(e) => {
                    &&& e == PngError::ChunkNotFound
                    &&& final(self)@ == old(self)@
                    &&& spec_remove_first(old(self)@, chunk_type.spec_bytes()) is None
                },
            },
    {
        let ghost t = chunk_type.spec_bytes();
        let target = chunk_type.as_bytes();
        let mut i: usize = 0;
        while i < self.chunks.len()
            invariant
                i <= self.chunks@.len(),
                self == old(self),
                target@ == t,
                t == chunk_type.spec_bytes(),
                forall|j: int| 0 <= j < i ==> !spec_matches(#[trigger] self@[j], t),
            decreases self.chunks@.len() - i,
        {
            if type_matches(&self.chunks[i], target) {
                proof {
                    assert(self@[i as int] == self.chunks@[i as int]@);
                    lemma_first_match_idx_props(self@, t);
                    let fi = spec_first_match_idx(self@, t);
                    if i < fi {
                        assert(!spec_matches(self@[i as int], t));
                    }
                    if fi < i {
                        assert(spec_matches(self@[fi], t));
                        assert(!spec_matches(self@[fi], t));
                    }
                    assert(fi == i);
                }
                let c = self.chunks.remove(i);
                proof {
                    assert(spec_models(self.chunks@) =~= spec_models(old(self).chunks@).remove(
                        i as int,
                    ));
                    assert(old(self)@[i as int] == c@);
                }
                return Ok(c);
            }
            i = i + 1;
        }
        proof {
            lemma_first_match_idx_props(self@, t);
            let fi = spec_first_match_idx(self@, t);
            if fi < self@.len() {
                assert(spec_matches(self@[fi], t));
                assert(!spec_matches(self@[fi], t));
            }
        }
        Err(PngError::ChunkNotFound)
    }

    /// Returns the first chunk whose type's textual form equals
    /// `chunk_type`, or nothing when no chunk matches.
    pub fn chunk_by_type(&self, chunk_type: &str) -> (r: Option<&Chunk>)
        ensures
            match r {
                Some(c) => spec_find_first(self@, chunk_type.spec_bytes()) == Some(c@),
                None => spec_find_first(self@, chunk_type.spec_bytes()) is None,
            },
    {
        let ghost t = chunk_type.spec_bytes();
        let target = chunk_type.as_bytes();
        let mut i: usize = 0;
        while i < self.chunks.len()
            invariant
                i <= self.chunks@.len(),
                target@ == t,
                t == chunk_type.spec_bytes(),
                forall|j: int| 0 <= j < i ==> !spec_matches(#[trigger] self@[j], t),
            decreases self.chunks@.len() - i,
        {
            if type_matches(&self.chunks[i], target) {
                proof {
                    assert(self@[i as int] == self.chunks@[i as int]@);
                    lemma_first_match_idx_props(self@, t);
                    let fi = spec_first_match_idx(self@, t);
                    if i < fi {
                        assert(!spec_matches(self@[i as int], t));
                    }
                    if fi < i {
                        assert(spec_matches(self@[fi], t));
                        assert(!spec_matches(self@[fi], t));
                    }
                    assert(fi == i);
                }
                return Some(&self.chunks[i]);
            }
            i = i + 1;
        }
        proof {
            lemma_first_match_idx_props(self@, t);
            let fi = spec_first_match_idx(self@, t);
            if fi < self@.len() {
                assert(spec_matches(self@[fi], t));
                assert(!spec_matches(self@[fi], t));
            }
        }
        None
    }

    /// Serializes the container: the signature, then every chunk's wire
    /// form in sequence order.
    pub fn as_bytes(&self) -> (r: Vec<u8>)
        ensures
            r@ == spec_png_bytes(self@),
            spec_png_wf(self@),
    {
        let mut out: Vec<u8> = Vec::new();
        out.push(0x89);
        out.push(0x50);
        out.push(0x4E);
        out.push(0x47);
        out.push(0x0D);
        out.push(0x0A);
        out.push(0x1A);
        out.push(0x0A);
        proof {
            assert(out@ =~= spec_signature());
            assert(self@.subrange(0, 0) =~= Seq::<ChunkModel>::empty());
        }
        let mut i: usize = 0;
        while i < self.chunks.len()
            invariant
                i <= self.chunks@.len(),
                out@ == spec_signature() + spec_chunks_bytes(self@.subrange(0, i as int)),
                forall|j: int| 0 <= j < i ==> spec_chunk_wf(#[trigger] self@[j]),
            decreases self.chunks@.len() - i,
        {
            let ci = &self.chunks[i];
            proof {
                use_type_invariant(ci);
            }
            let mut cb = ci.as_bytes();
            out.append(&mut cb);
            proof {
                lemma_chunks_bytes_snoc(self@.subrange(0, i as int), self@[i as int]);
                assert(self@.subrange(0, i as int).push(self@[i as int]) =~= self@.subrange(
                    0,
                    i + 1,
                ));
            }
            i = i + 1;
        }
        proof {
            assert(self@.subrange(0, self@.len() as int) =~= self@);
        }
        out
    }

    /// Parses a whole file. Fails with `InvalidSignature` when the input is
    /// shorter than 8 bytes or its first 8 bytes differ from the signature;
    /// afterwards, chunks are parsed back to back until no bytes remain, and
    /// any chunk-level failure propagates.
    pub fn try_from(bytes: &[u8]) -> (r: Result<Png, PngError>)
        ensures
            match r {
                Ok(p) => spec_parse_png(bytes@) == Ok::<Seq<ChunkModel>, PngError>(p@),
                Err(e) => spec_parse_png(bytes@) == Err::<Seq<ChunkModel>, PngError>(e),
            },
    {
        let n = bytes.len();
        if n < 8 {
            return Err(PngError::InvalidSignature);
        }
        if !(bytes[0] == 0x89 && bytes[1] == 0x50 && bytes[2] == 0x4E && bytes[3] == 0x47
            && bytes[4] == 0x0D && bytes[5] == 0x0A && bytes[6] == 0x1A && bytes[7] == 0x0A) {
            proof {
                assert(bytes@.subrange(0, 8) != spec_signature()) by {
                    if bytes@.subrange(0, 8) == spec_signature() {
                        assert(forall|k: int|
                            0 <= k < 8 ==> bytes@.subrange(0, 8)[k] == #[trigger] bytes@[k]);
                    }
                };
            }
            return Err(PngError::InvalidSignature);
        }
        proof {
            assert(bytes@.subrange(0, 8) =~= spec_signature());
        }
        let mut chunks: Vec<Chunk> = Vec::new();
        let mut pos: usize = 8;
        proof {
            assert(spec_models(chunks@) =~= Seq::<ChunkModel>::empty());
            match spec_parse_chunks(bytes@.skip(8)) {
                Ok(rest) => {
                    assert(Seq::<ChunkModel>::empty() + rest =~= rest);
                },
                Err(_) => {},
            }
        }
        while pos < n
            invariant
                8 <= pos <= n,
                n == bytes@.len() <= usize::MAX,
                bytes@.subrange(0, 8) == spec_signature(),
                spec_continues(bytes@, spec_models(chunks@), pos as int),
            decreases n - pos,
        {
            match parse_chunk_at(bytes, pos) {
                Err(e) => {
                    proof {
                        lemma_parse_chunks_err(bytes@, spec_models(chunks@), pos as int, e);
                    }
                    return Err(e);
                },
                Ok((c, used)) => {
                    proof {
                        lemma_parse_chunks_step(bytes@, spec_models(chunks@), pos as int, c@);
                        assert(spec_models(chunks@).push(c@) =~= spec_models(chunks@.push(c)));
                    }
                    chunks.push(c);
                    pos = pos + used;
                },
            }
        }
        proof {
            assert(bytes@.skip(pos as int) =~= Seq::<u8>::empty());
            assert(spec_models(chunks@) + Seq::<ChunkModel>::empty() =~= spec_models(chunks@));
        }
        Ok(Png { chunks })
    }
}

/// Whether the chunk sequence already parsed at `pos`, together with
/// whatever parses from `pos` on, accounts exactly for the file's chunk
/// region.
pub open spec fn spec_continues(all: Seq<u8>, done: Seq<ChunkModel>, pos: int) -> bool {
    match spec_parse_chunks(all.skip(pos)) {
        Ok(rest) => spec_parse_chunks(all.skip(8)) == Ok::<Seq<ChunkModel>, PngError>(done + rest),
        Err(e) => spec_parse_chunks(all.skip(8)) == Err::<Seq<ChunkModel>, PngError>(e),
    }
}

/// A chunk-level parse failure at `pos` is a failure of the whole chunk
/// region.
proof fn lemma_parse_chunks_err(all: Seq<u8>, done: Seq<ChunkModel>, pos: int, e: PngError)
    requires
        8 <= pos < all.len(),
        spec_continues(all, done, pos),
        spec_parse_chunk(all.skip(pos)) == Err::<ChunkModel, PngError>(e),
    ensures
        spec_parse_chunks(all.skip(8)) == Err::<Seq<ChunkModel>, PngError>(e),
{
}

/// One parsed chunk extends the accounted-for prefix by one record.
proof fn lemma_parse_chunks_step(all: Seq<u8>, done: Seq<ChunkModel>, pos: int, m: ChunkModel)
    requires
        8 <= pos < all.len(),
        pos + 12 + m.data.len() <= all.len(),
        spec_continues(all, done, pos),
        spec_parse_chunk(all.skip(pos)) == Ok::<ChunkModel, PngError>(m),
    ensures
        spec_continues(all, done.push(m), pos + 12 + m.data.len()),
{
    let used = 12 + m.data.len() as int;
    assert(all.skip(pos).skip(used) =~= all.skip(pos + used));
    match spec_parse_chunks(all.skip(pos + used)) {
        Ok(rest) => {
            assert(spec_parse_chunks(all.skip(pos)) == Ok::<Seq<ChunkModel>, PngError>(
                seq![m] + rest,
            ));
            assert(done + (seq![m] + rest) =~= done.push(m) + rest);
        },
        Err(_) => {},
    }
}

/// Whether the chunk's type tag equals the target bytes.
fn type_matches(c: &Chunk, target: &[u8]) -> (r: bool)
    ensures
        r == spec_matches(c@, target@),
{
    let tb = c.chunk_type().bytes();
    if target.len() != 4 {
        proof {
            assert(c@.ty.len() == 4);
        }
        return false;
    }
    let r = tb[0] == target[0] && tb[1] == target[1] && tb[2] == target[2] && tb[3] == target[3];
    proof {
        if r {
            assert(c@.ty =~= target@);
        } else if c@.ty == target@ {
            assert(forall|k: int| 0 <= k < 4 ==> c@.ty[k] == #[trigger] target@[k]);
        }
    }
    r
}

/// Parsing the concatenated wire forms of well-formed chunks yields exactly
/// those chunks, in order.
#[verifier::spinoff_prover]
#[verifier::rlimit(30)]
proof fn lemma_parse_chunks_round_trip(s: Seq<ChunkModel>)
    requires
        spec_png_wf(s),
    ensures
        spec_parse_chunks(spec_chunks_bytes(s)) == Ok::<Seq<ChunkModel>, PngError>(s),
    decreases s.len(),
{
    if s.len() == 0 {
        assert(spec_chunks_bytes(s) =~= Seq::<u8>::empty());
        assert(s =~= Seq::<ChunkModel>::empty());
    } else {
        let m = s[0];
        let rest = s.drop_first();
        assert(spec_chunk_wf(s[0]));
        assert(spec_png_wf(rest)) by {
            assert forall|j: int| 0 <= j < rest.len() implies spec_chunk_wf(#[trigger] rest[j]) by {
                assert(rest[j] == s[j + 1]);
                assert(spec_chunk_wf(s[j + 1]));
            }
        };
        crate::chunk::lemma_chunk_parse_prefix(m, spec_chunks_bytes(rest));
        let b = spec_chunks_bytes(s);
        assert(b == spec_chunk_bytes(m) + spec_chunks_bytes(rest));
        assert(b.skip(12 + m.data.len() as int) =~= spec_chunks_bytes(rest));
        lemma_parse_chunks_round_trip(rest);
        assert(seq![m] + rest =~= s);
    }
}

/// Serializing a container of well-formed chunks and parsing the result
/// yields the same chunk sequence, byte for byte: the whole-file round trip
/// is exact.
pub proof fn lemma_png_round_trip(s: Seq<ChunkModel>)
    requires
        spec_png_wf(s),
    ensures
        spec_parse_png(spec_png_bytes(s)) == Ok::<Seq<ChunkModel>, PngError>(s),
{
    let b = spec_png_bytes(s);
    assert(b.subrange(0, 8) =~= spec_signature());
    assert(b.skip(8) =~= spec_chunks_bytes(s));
    lemma_parse_chunks_round_trip(s);
}

/// When a chunk at position `i` matches and nothing before it does, `i` is
/// the first match.
proof fn lemma_first_match_at(s: Seq<ChunkModel>, t: Seq<u8>, i: int)
    requires
        0 <= i < s.len(),
        spec_matches(s[i], t),
        forall|j: int| 0 <= j < i ==> !spec_matches(#[trigger] s[j], t),
    ensures
        spec_first_match_idx(s, t) == i,
{
    lemma_first_match_idx_props(s, t);
    let fi = spec_first_match_idx(s, t);
    if i < fi {
        assert(!spec_matches(s[i], t));
    }
    if fi < i {
        assert(spec_matches(s[fi], t));
        assert(!spec_matches(s[fi], t));
    }
}

/// Appending a chunk whose type the container does not yet hold and then
/// removing by that exact type yields the container back, and hands out the
/// appended chunk. (When an earlier chunk already carries the same type,
/// removal takes that earlier chunk instead, so the law excludes it.)
pub proof fn lemma_append_then_remove(s: Seq<ChunkModel>, c: ChunkModel)
    requires
        forall|j: int| 0 <= j < s.len() ==> !spec_matches(#[trigger] s[j], c.ty),
    ensures
        spec_remove_first(s.push(c), c.ty) == Some((s, c)),
{
    let q = s.push(c);
    assert(q[s.len() as int] == c);
    assert forall|j: int| 0 <= j < s.len() implies !spec_matches(#[trigger] q[j], c.ty) by {
        assert(q[j] == s[j]);
    }
    lemma_first_match_at(q, c.ty, s.len() as int);
    assert(q.remove(s.len() as int) =~= s);
}

/// Removing a type of which the container holds no chunk finds nothing.
pub proof fn lemma_remove_missing(s: Seq<ChunkModel>, t: Seq<u8>)
    requires
        forall|j: int| 0 <= j < s.len() ==> !spec_matches(#[trigger] s[j], t),
    ensures
        spec_remove_first(s, t) is None,
{
    lemma_first_match_idx_props(s, t);
    let fi = spec_first_match_idx(s, t);
    if fi < s.len() {
        assert(spec_matches(s[fi], t));
        assert(!spec_matches(s[fi], t));
    }
}

/// Removal takes the first match: after appending two chunks of one type in
/// the order `a` then `b` to a container that held none of that type,
/// removing by that type removes `a` and leaves `b` in place.
pub proof fn lemma_first_match_removal(s: Seq<ChunkModel>, a: ChunkModel, b: ChunkModel)
    requires
        a.ty == b.ty,
        forall|j: int| 0 <= j < s.len() ==> !spec_matches(#[trigger] s[j], a.ty),
    ensures
        spec_remove_first(s.push(a).push(b), a.ty) == Some((s.push(b), a)),
{
    let q = s.push(a).push(b);
    assert(q[s.len() as int] == a);
    assert forall|j: int| 0 <= j < s.len() implies !spec_matches(#[trigger] q[j], a.ty) by {
        assert(q[j] == s[j]);
    }
    lemma_first_match_at(q, a.ty, s.len() as int);
    assert(q.remove(s.len() as int) =~= s.push(b));
}

/// Appending one chunk to a sequence appends its wire form to the
/// serialized bytes.
proof fn lemma_chunks_bytes_snoc(s: Seq<ChunkModel>, m: ChunkModel)
    ensures
        spec_chunks_bytes(s.push(m)) == spec_chunks_bytes(s) + spec_chunk_bytes(m),
    decreases s.len(),
{
    if s.len() == 0 {
        assert(s.push(m)[0] == m);
        assert(s.push(m).drop_first() =~= Seq::<ChunkModel>::empty());
        assert(spec_chunks_bytes(Seq::<ChunkModel>::empty()) == Seq::<u8>::empty());
        assert(spec_chunks_bytes(s.push(m)) == spec_chunk_bytes(m) + Seq::<u8>::empty());
        assert(spec_chunk_bytes(m) + Seq::<u8>::empty() =~= spec_chunk_bytes(m));
        assert(Seq::<u8>::empty() + spec_chunk_bytes(m) =~= spec_chunk_bytes(m));
    } else {
        assert(s.push(m).drop_first() =~= s.drop_first().push(m));
        assert(s.push(m)[0] == s[0]);
        lemma_chunks_bytes_snoc(s.drop_first(), m);
        assert(spec_chunk_bytes(s[0]) + (spec_chunks_bytes(s.drop_first()) + spec_chunk_bytes(m))
            =~= (spec_chunk_bytes(s[0]) + spec_chunks_bytes(s.drop_first())) + spec_chunk_bytes(
            m,
        ));
    }
}

} // verus!
