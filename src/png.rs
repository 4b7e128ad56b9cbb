//! Containers: the signature followed by chunks, back to back.
use vstd::prelude::*;

use crate::chunk::{
    Chunk, ChunkView, chunk_error, chunk_fails, lemma_serialized_chunk_parses, parsed_chunk,
};
use crate::chunk_type::type_is_valid;
use crate::codec::{be32, from_be32, lemma_be32_round_trip, push_all, read_be32};
use crate::error::PngError;
use vstd::string::StringSliceAdditionalSpecFns;

verus! {

broadcast use crate::codec::lemma_be32_len;

/// The eight bytes every container starts with.
pub open spec fn signature() -> Seq<u8> {
    seq![137u8, 80u8, 78u8, 71u8, 13u8, 10u8, 26u8, 10u8]
}

/// The size of the chunk that starts `r`, as its length field gives it.
pub open spec fn span(r: Seq<u8>) -> int {
    12 + from_be32(r.subrange(0, 4))
}

/// Whether `r` ends inside its first chunk.
pub open spec fn cut_short(r: Seq<u8>) -> bool {
    r.len() < 12 || r.len() < span(r)
}

/// Whether the chunk bytes `r` are rejected.
pub open spec fn chunks_fail(r: Seq<u8>) -> bool
    decreases r.len(),
{
    if r.len() == 0 {
        false
    } else if cut_short(r) {
        true
    } else if chunk_fails(r.subrange(0, span(r))) {
        true
    } else {
        chunks_fail(r.subrange(span(r), r.len() as int))
    }
}

/// The error reported for the chunk bytes `r`: that of the first chunk that fails.
pub open spec fn chunks_error(r: Seq<u8>, e: PngError) -> bool
    decreases r.len(),
{
    if r.len() == 0 {
        false
    } else if cut_short(r) {
        e == PngError::UnexpectedEnd
    } else if chunk_fails(r.subrange(0, span(r))) {
        chunk_error(r.subrange(0, span(r)), e)
    } else {
        chunks_error(r.subrange(span(r), r.len() as int), e)
    }
}

/// The chunks read from the accepted chunk bytes `r`, in order.
pub open spec fn chunks_of(r: Seq<u8>) -> Seq<ChunkView>
    decreases r.len(),
{
    if r.len() == 0 || cut_short(r) {
        Seq::empty()
    } else {
        seq![parsed_chunk(r.subrange(0, span(r)))] + chunks_of(r.subrange(span(r), r.len() as int))
    }
}

/// Whether `b` starts with the signature.
pub open spec fn has_signature(b: Seq<u8>) -> bool {
    b.len() >= 8 && b.subrange(0, 8) == signature()
}

/// Whether `b` is accepted as a container.
pub open spec fn png_accepts(b: Seq<u8>) -> bool {
    has_signature(b) && !chunks_fail(b.subrange(8, b.len() as int))
}

/// The error reported for the rejected container bytes `b`.
pub open spec fn png_error(b: Seq<u8>, e: PngError) -> bool {
    if !has_signature(b) {
        e == PngError::InvalidHeader
    } else {
        chunks_error(b.subrange(8, b.len() as int), e)
    }
}

/// The chunks read from the accepted container bytes `b`.
pub open spec fn png_chunks(b: Seq<u8>) -> Seq<ChunkView> {
    chunks_of(b.subrange(8, b.len() as int))
}

/// The bytes of the chunks `cs`, one after another.
pub open spec fn serialize_all(cs: Seq<ChunkView>) -> Seq<u8>
    decreases cs.len(),
{
    if cs.len() == 0 {
        Seq::empty()
    } else {
        serialize_all(cs.drop_last()) + cs.last().serialize()
    }
}

/// Some chunk of `cs` has type `t`.
pub open spec fn has_type(cs: Seq<ChunkView>, t: Seq<u8>) -> bool {
    exists|i: int| 0 <= i < cs.len() && (#[trigger] cs[i]).chunk_type == t
}

/// `i` is the index of the first chunk of `cs` with type `t`.
pub open spec fn is_first_of_type(cs: Seq<ChunkView>, t: Seq<u8>, i: int) -> bool {
    &&& 0 <= i < cs.len()
    &&& cs[i].chunk_type == t
    &&& forall|j: int| 0 <= j < i ==> (#[trigger] cs[j]).chunk_type != t
}

/// What each chunk of `v` holds, in order.
pub open spec fn views(v: Seq<Chunk>) -> Seq<ChunkView> {
    v.map_values(|c: Chunk| c@)
}

proof fn lemma_serialize_all_front(cs: Seq<ChunkView>)
    requires
        cs.len() > 0,
    ensures
        serialize_all(cs) == cs[0].serialize() + serialize_all(cs.drop_first()),
    decreases cs.len(),
{
    if cs.len() == 1 {
        assert(cs.drop_first() =~= Seq::<ChunkView>::empty());
        assert(cs.drop_last() =~= Seq::<ChunkView>::empty());
        assert(serialize_all(cs) =~= cs[0].serialize() + serialize_all(cs.drop_first()));
    } else {
        lemma_serialize_all_front(cs.drop_last());
        assert(cs.drop_first().drop_last() =~= cs.drop_last().drop_first());
        assert(cs.drop_last()[0] == cs[0]);
        assert(cs.drop_first().last() == cs.last());
        assert(serialize_all(cs) =~= cs[0].serialize() + serialize_all(cs.drop_first()));
    }
}

proof fn lemma_split_first(c: ChunkView, rest: Seq<u8>)
    requires
        c.wf(),
        type_is_valid(c.chunk_type),
    ensures
        (c.serialize() + rest).len() > 0,
        !cut_short(c.serialize() + rest),
        span(c.serialize() + rest) == c.serialize().len(),
        (c.serialize() + rest).subrange(0, span(c.serialize() + rest)) == c.serialize(),
        (c.serialize() + rest).subrange(span(c.serialize() + rest), (c.serialize() + rest).len() as int)
            == rest,
        !chunk_fails(c.serialize()),
        parsed_chunk(c.serialize()) == c,
{
    let b = c.serialize() + rest;
    lemma_serialized_chunk_parses(c);
    lemma_be32_round_trip(c.length);
    assert(b.subrange(0, 4) =~= be32(c.length));
    assert(b.subrange(0, span(b)) =~= c.serialize());
    assert(b.subrange(span(b), b.len() as int) =~= rest);
}

/// The bytes of well-formed chunks of valid types, one after another, are
/// accepted and read back as the same chunks in the same order.
pub proof fn lemma_chunks_round_trip(cs: Seq<ChunkView>)
    requires
        forall|i: int| 0 <= i < cs.len() ==> (#[trigger] cs[i]).wf() && type_is_valid(cs[i].chunk_type),
    ensures
        !chunks_fail(serialize_all(cs)),
        chunks_of(serialize_all(cs)) == cs,
    decreases cs.len(),
{
    if cs.len() == 0 {
        assert(chunks_of(serialize_all(cs)) =~= cs);
    } else {
        let tail = cs.drop_first();
        lemma_serialize_all_front(cs);
        assert(cs[0].wf() && type_is_valid(cs[0].chunk_type));
        lemma_split_first(cs[0], serialize_all(tail));
        assert forall|i: int| 0 <= i < tail.len() implies (#[trigger] tail[i]).wf()
            && type_is_valid(tail[i].chunk_type) by {
            assert(tail[i] == cs[i + 1]);
        }
        lemma_chunks_round_trip(tail);
        assert(seq![cs[0]] + tail =~= cs);
    }
}

/// Round trip of a container: the signature followed by the bytes of
/// well-formed chunks of valid types is accepted, and reads back as the same
/// chunks in the same order.
pub proof fn lemma_png_round_trip(cs: Seq<ChunkView>)
    requires
        forall|i: int| 0 <= i < cs.len() ==> (#[trigger] cs[i]).wf() && type_is_valid(cs[i].chunk_type),
    ensures
        png_accepts(signature() + serialize_all(cs)),
        png_chunks(signature() + serialize_all(cs)) == cs,
{
    let b = signature() + serialize_all(cs);
    assert(b.subrange(0, 8) =~= signature());
    assert(b.subrange(8, b.len() as int) =~= serialize_all(cs));
    lemma_chunks_round_trip(cs);
}

/// Lookup and removal: once a chunk `c` is appended to chunks none of which has
/// its type, it is the first chunk of that type; removing the first chunk of
/// that type gives back the old chunks, among which no chunk has that type.
pub proof fn lemma_append_find_remove(cs: Seq<ChunkView>, c: ChunkView)
    requires
        !has_type(cs, c.chunk_type),
    ensures
        has_type(cs.push(c), c.chunk_type),
        forall|i: int| is_first_of_type(cs.push(c), c.chunk_type, i) <==> i == cs.len(),
        cs.push(c).remove(cs.len() as int) == cs,
        !has_type(cs.push(c).remove(cs.len() as int), c.chunk_type),
{
    let cs2 = cs.push(c);
    assert(cs2[cs.len() as int] == c);
    assert forall|i: int| is_first_of_type(cs2, c.chunk_type, i) <==> i == cs.len() by {
        if 0 <= i < cs.len() {
            assert(cs2[i] == cs[i]);
        }
        if i == cs.len() {
            assert forall|j: int| 0 <= j < i implies (#[trigger] cs2[j]).chunk_type != c.chunk_type by {
                assert(cs2[j] == cs[j]);
            }
        }
    }
    assert(cs2.remove(cs.len() as int) =~= cs);
}

fn starts_with_signature(b: &[u8]) -> (r: bool)
    ensures
        r == has_signature(b@),
{
    if b.len() < 8 {
        return false;
    }
    let r = b[0] == 137 && b[1] == 80 && b[2] == 78 && b[3] == 71 && b[4] == 13 && b[5] == 10 && b[6]
        == 26 && b[7] == 10;
    if r {
        assert(b@.subrange(0, 8) =~= signature());
    } else {
        assert(b@.subrange(0, 8)[0] == b@[0]);
        assert(b@.subrange(0, 8) != signature()) by {
            if b@.subrange(0, 8) == signature() {
                assert(b@.subrange(0, 8)[1] == b@[1]);
                assert(b@.subrange(0, 8)[2] == b@[2]);
                assert(b@.subrange(0, 8)[3] == b@[3]);
                assert(b@.subrange(0, 8)[4] == b@[4]);
                assert(b@.subrange(0, 8)[5] == b@[5]);
                assert(b@.subrange(0, 8)[6] == b@[6]);
                assert(b@.subrange(0, 8)[7] == b@[7]);
            }
        }
    }
    r
}

/// A container: the signature and an ordered list of chunks.
pub struct Png {
    chunks: Vec<Chunk>,
}

impl View for Png {
    type V = Seq<ChunkView>;

    closed spec fn view(&self) -> Seq<ChunkView> {
        views(self.chunks@)
    }
}

impl Png {
    /// The signature's bytes.
    pub fn standard_header() -> (r: Vec<u8>)
        ensures
            r@ == signature(),
    {
        let r = vec![137u8, 80u8, 78u8, 71u8, 13u8, 10u8, 26u8, 10u8];
        assert(r@ =~= signature());
        r
    }

    /// A container holding `chunks` in order.
    pub fn from_chunks(chunks: Vec<Chunk>) -> (r: Png)
        ensures
            r@ == views(chunks@),
    {
        Png { chunks }
    }

    /// Reads a container: the signature, then chunks until the bytes end.
    pub fn try_from(bytes: &[u8]) -> (r: Result<Png, PngError>)
        ensures
            r is Ok <==> png_accepts(bytes@),
            r matches Ok(p) ==> p@ == png_chunks(bytes@),
            r matches Err(e) ==> png_error(bytes@, e),
    {
        if !starts_with_signature(bytes) {
            return Err(PngError::InvalidHeader);
        }
        let n = bytes.len();
        let ghost all = bytes@.subrange(8, n as int);
        let mut chunks: Vec<Chunk> = Vec::new();
        let mut pos: usize = 8;
        assert(bytes@.subrange(pos as int, n as int) =~= all);
        while pos < n
            invariant
                n == bytes@.len(),
                has_signature(bytes@),
                8 <= pos <= n,
                all == bytes@.subrange(8, n as int),
                chunks_fail(all) == chunks_fail(bytes@.subrange(pos as int, n as int)),
                forall|e: PngError|
                    chunks_error(all, e) == #[trigger] chunks_error(
                        bytes@.subrange(pos as int, n as int),
                        e,
                    ),
                !chunks_fail(all) ==> chunks_of(all) == views(chunks@) + chunks_of(
                    bytes@.subrange(pos as int, n as int),
                ),
            decreases n - pos,
        {
            let ghost rest = bytes@.subrange(pos as int, n as int);
            if n - pos < 12 {
                assert(chunks_error(rest, PngError::UnexpectedEnd));
                return Err(PngError::UnexpectedEnd);
            }
            let len = read_be32(bytes, pos);
            assert(bytes@.subrange(pos as int, pos + 4) =~= rest.subrange(0, 4));
            if n - pos - 12 < len as usize {
                assert(chunks_error(rest, PngError::UnexpectedEnd));
                return Err(PngError::UnexpectedEnd);
            }
            let end = pos + 12 + len as usize;
            assert(span(rest) == end - pos);
            assert(bytes@.subrange(pos as int, end as int) =~= rest.subrange(0, span(rest)));
            assert(bytes@.subrange(end as int, n as int) =~= rest.subrange(span(rest), rest.len() as int));
            match Chunk::try_from(&bytes[pos..end]) {
                Err(e) => {
                    assert(chunks_error(rest, e));
                    return Err(e);
                },
                Ok(c) => {
                    let ghost before = chunks@;
                    let ghost next = bytes@.subrange(end as int, n as int);
                    assert forall|e: PngError|
                        chunks_error(rest, e) == #[trigger] chunks_error(next, e) by {}
                    chunks.push(c);
                    assert(views(chunks@) =~= views(before).push(c@));
                    pos = end;
                },
            }
        }
        assert(bytes@.subrange(pos as int, n as int).len() == 0);
        assert(views(chunks@) + Seq::<ChunkView>::empty() =~= views(chunks@));
        Ok(Png { chunks })
    }

    /// Adds `chunk` after all others.
    pub fn append_chunk(&mut self, chunk: Chunk)
        ensures
            final(self)@ == old(self)@.push(chunk@),
    {
        self.chunks.push(chunk);
        assert(views(self.chunks@) =~= views(old(self).chunks@).push(chunk@));
    }

    /// Index of the first chunk whose type's bytes are those of `t`.
    fn position(&self, t: &str) -> (r: Option<usize>)
        ensures
            r is None <==> !has_type(self@, t.spec_bytes()),
            r matches Some(i) ==> is_first_of_type(self@, t.spec_bytes(), i as int),
    {
        let tb = t.as_bytes();
        let mut i: usize = 0;
        while i < self.chunks.len()
            invariant
                tb@ == t.spec_bytes(),
                0 <= i <= self@.len(),
                self@.len() == self.chunks@.len(),
                forall|j: int| 0 <= j < i ==> (#[trigger] self@[j]).chunk_type != t.spec_bytes(),
            decreases self.chunks@.len() - i,
        {
            let ct = self.chunks[i].chunk_type().bytes();
            assert(self@[i as int] == self.chunks@[i as int]@);
            if tb.len() == 4 && ct[0] == tb[0] && ct[1] == tb[1] && ct[2] == tb[2] && ct[3] == tb[3] {
                assert(self@[i as int].chunk_type =~= tb@);
                return Some(i);
            }
            assert(self@[i as int].chunk_type != tb@) by {
                if self@[i as int].chunk_type == tb@ {
                    assert(ct@[0] == tb@[0] && ct@[1] == tb@[1] && ct@[2] == tb@[2] && ct@[3] == tb@[3]);
                }
            }
            i = i + 1;
        }
        None
    }

    /// The first chunk whose type reads as `chunk_type`, if any.
    pub fn chunk_by_type(&self, chunk_type: &str) -> (r: Option<&Chunk>)
        ensures
            r is None <==> !has_type(self@, chunk_type.spec_bytes()),
            r matches Some(c) ==> exists|i: int|
                is_first_of_type(self@, chunk_type.spec_bytes(), i) && c@ == #[trigger] self@[i],
    {
        match self.position(chunk_type) {
            None => None,
            Some(i) => {
                assert(self@[i as int] == self.chunks@[i as int]@);
                Some(&self.chunks[i])
            },
        }
    }

    /// Removes and returns the first chunk whose type reads as `chunk_type`;
    /// the others keep their order.
    pub fn remove_chunk(&mut self, chunk_type: &str) -> (r: Result<Chunk, PngError>)
        ensures
            r is Ok <==> has_type(old(self)@, chunk_type.spec_bytes()),
            r matches Ok(c) ==> exists|i: int|
                is_first_of_type(old(self)@, chunk_type.spec_bytes(), i) && c@ == #[trigger] old(
                    self,
                )@[i] && final(self)@ == old(self)@.remove(i),
            r is Err ==> r == Err::<Chunk, PngError>(PngError::ChunkTypeDontExist) && final(self)@ == old(
                self,
            )@,
    {
        match self.position(chunk_type) {
            None => Err(PngError::ChunkTypeDontExist),
            Some(i) => {
                let ghost before = self.chunks@;
                let c = self.chunks.remove(i);
                assert(views(self.chunks@) =~= views(before).remove(i as int));
                assert(c@ == views(before)[i as int]);
                Ok(c)
            },
        }
    }

    /// The chunks, in order.
    pub fn chunks(&self) -> (r: &[Chunk])
        ensures
            views(r@) == self@,
    {
        self.chunks.as_slice()
    }

    /// The container's bytes: the signature, then each chunk's bytes in order.
    pub fn as_bytes(&self) -> (r: Vec<u8>)
        ensures
            r@ == signature() + serialize_all(self@),
    {
        let mut out = Png::standard_header();
        let mut i: usize = 0;
        while i < self.chunks.len()
            invariant
                0 <= i <= self@.len(),
                self@.len() == self.chunks@.len(),
                out@ == signature() + serialize_all(self@.subrange(0, i as int)),
            decreases self.chunks@.len() - i,
        {
            let b = self.chunks[i].as_bytes();
            push_all(&mut out, b.as_slice());
            assert(self@.subrange(0, i + 1).drop_last() =~= self@.subrange(0, i as int));
            assert(self@[i as int] == self.chunks@[i as int]@);
            i = i + 1;
        }
        assert(self@.subrange(0, i as int) =~= self@);
        out
    }
}

} // verus!
