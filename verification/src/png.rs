//! The ordered chunk container: a fixed signature followed by a chunk
//! stream, with insertion before the terminal marker, lookup and removal by
//! type, and byte-exact serialization.

use vstd::prelude::*;

use crate::chunk::{
    lemma_ser_parses_at, spec_chunk_at, spec_chunk_size, spec_parse_err_at, spec_parse_ok_at, Chunk,
    ChunkView,
};
use crate::chunk_type::ChunkType;
use crate::errors::PngError;

verus! {

/// The fixed 8-byte signature that opens every container.
pub open spec fn spec_signature() -> Seq<u8> {
    seq![137u8, 80u8, 78u8, 71u8, 13u8, 10u8, 26u8, 10u8]
}

/// The type code of the terminal marker chunk, which ends a chunk stream.
pub open spec fn spec_terminal_type() -> Seq<u8> {
    seq![73u8, 69u8, 78u8, 68u8]
}

/// Every chunk of the sequence is well-formed.
pub open spec fn spec_all_wf(cs: Seq<ChunkView>) -> bool {
    forall|i: int| 0 <= i < cs.len() ==> (#[trigger] cs[i]).wf()
}

/// The serialization of a chunk sequence: each chunk's bytes in order.
pub open spec fn spec_chunks_bytes(cs: Seq<ChunkView>) -> Seq<u8>
    decreases cs.len(),
{
    if cs.len() == 0 {
        Seq::empty()
    } else {
        cs[0].ser() + spec_chunks_bytes(cs.drop_first())
    }
}

/// The serialization of a whole container: signature, then every chunk.
pub open spec fn spec_png_bytes(cs: Seq<ChunkView>) -> Seq<u8> {
    spec_signature() + spec_chunks_bytes(cs)
}

/// Whether the buffer starts with the fixed signature.
pub open spec fn spec_has_signature(s: Seq<u8>) -> bool {
    s.len() >= 8 && s.subrange(0, 8) == spec_signature()
}

/// Whether chunks parse back to back from `pos` to the end of the buffer.
pub open spec fn spec_stream_ok(s: Seq<u8>, pos: int) -> bool
    decreases s.len() - pos,
{
    if pos == s.len() {
        true
    } else if !spec_parse_ok_at(s, pos) {
        false
    } else {
        spec_stream_ok(s, pos + spec_chunk_size(s, pos))
    }
}

/// The chunks parsed back to back from `pos`, meaningful when the stream
/// parses.
pub open spec fn spec_stream_chunks(s: Seq<u8>, pos: int) -> Seq<ChunkView>
    decreases s.len() - pos,
{
    if pos == s.len() {
        Seq::empty()
    } else if !spec_parse_ok_at(s, pos) {
        Seq::empty()
    } else {
        seq![spec_chunk_at(s, pos)] + spec_stream_chunks(s, pos + spec_chunk_size(s, pos))
    }
}

/// The failure of the first chunk that does not parse, meaningful when the
/// stream does not parse.
pub open spec fn spec_stream_err(s: Seq<u8>, pos: int) -> PngError
    recommends
        !spec_stream_ok(s, pos),
    decreases s.len() - pos,
{
    if pos == s.len() {
        PngError::UnexpectedEof
    } else if !spec_parse_ok_at(s, pos) {
        spec_parse_err_at(s, pos)
    } else {
        spec_stream_err(s, pos + spec_chunk_size(s, pos))
    }
}

/// Whether the whole buffer is a container: signature, then a chunk stream
/// that exhausts it.
pub open spec fn spec_png_ok(s: Seq<u8>) -> bool {
    spec_has_signature(s) && spec_stream_ok(s, 8)
}

/// The container's chunks, meaningful when the buffer parses.
pub open spec fn spec_png_chunks(s: Seq<u8>) -> Seq<ChunkView> {
    spec_stream_chunks(s, 8)
}

/// The failure a buffer is rejected with: the signature first, then the
/// first bad chunk.
pub open spec fn spec_png_err(s: Seq<u8>) -> PngError
    recommends
        !spec_png_ok(s),
{
    if !spec_has_signature(s) {
        PngError::SignatureMismatch
    } else {
        spec_stream_err(s, 8)
    }
}

/// The position of the first chunk with the given type, scanning in order.
pub open spec fn spec_find(cs: Seq<ChunkView>, t: Seq<u8>) -> Option<int>
    decreases cs.len(),
{
    if cs.len() == 0 {
        None
    } else if cs[0].ctype == t {
        Some(0int)
    } else {
        match spec_find(cs.drop_first(), t) {
            Some(i) => Some(i + 1),
            None => None,
        }
    }
}

/// A scan that saw no match up to the end finds none.
proof fn lemma_find_none(cs: Seq<ChunkView>, t: Seq<u8>)
    requires
        forall|j: int| 0 <= j < cs.len() ==> (#[trigger] cs[j]).ctype != t,
    ensures
        spec_find(cs, t) is None,
    decreases cs.len(),
{
    if cs.len() != 0 {
        lemma_find_none(cs.drop_first(), t);
    }
}

/// A scan that saw no match before `i` and a match at `i` finds `i`.
proof fn lemma_find_some(cs: Seq<ChunkView>, t: Seq<u8>, i: int)
    requires
        0 <= i < cs.len(),
        cs[i].ctype == t,
        forall|j: int| 0 <= j < i ==> (#[trigger] cs[j]).ctype != t,
    ensures
        spec_find(cs, t) == Some(i),
    decreases cs.len(),
{
    if i > 0 {
        lemma_find_some(cs.drop_first(), t, i - 1);
    }
}

/// What `spec_find` means: it returns a position exactly when a match
/// exists, and then the first one.
pub proof fn lemma_find_first_match(cs: Seq<ChunkView>, t: Seq<u8>)
    ensures
        spec_find(cs, t) is Some <==> exists|i: int| 0 <= i < cs.len() && (#[trigger] cs[i]).ctype
            == t,
        spec_find(cs, t) is Some ==> {
            let i = spec_find(cs, t)->Some_0;
            &&& 0 <= i < cs.len()
            &&& cs[i].ctype == t
            &&& forall|j: int| 0 <= j < i ==> (#[trigger] cs[j]).ctype != t
        },
    decreases cs.len(),
{
    if cs.len() != 0 {
        lemma_find_first_match(cs.drop_first(), t);
        if cs[0].ctype != t {
            let rest = cs.drop_first();
            if spec_find(rest, t) is Some {
                let k = spec_find(rest, t)->Some_0;
                assert(cs[k + 1].ctype == t);
                assert forall|j: int| 0 <= j < k + 1 implies (#[trigger] cs[j]).ctype != t by {
                    if j > 0 {
                        assert(cs[j] == rest[j - 1]);
                    }
                }
            } else {
                if exists|i: int| 0 <= i < cs.len() && (#[trigger] cs[i]).ctype == t {
                    let i = choose|i: int| 0 <= i < cs.len() && (#[trigger] cs[i]).ctype == t;
                    assert(rest[i - 1].ctype == t);
                }
            }
        }
    }
}

/// An ordered container: the fixed signature followed by its chunks.
#[derive(Debug)]
pub struct Png {
    chunks: Vec<Chunk>,
}

impl View for Png {
    type V = Seq<ChunkView>;

    closed spec fn view(&self) -> Seq<ChunkView> {
        self.chunks@.map_values(|c: Chunk| c@)
    }
}

impl Png {
    /// Every chunk held is well-formed.
    pub open spec fn wf(&self) -> bool {
        spec_all_wf(self@)
    }

    /// Wraps an already-built chunk sequence as a container.
    pub fn from_chunks(chunks: Vec<Chunk>) -> (r: Png)
        ensures
            r@ == chunks@.map_values(|c: Chunk| c@),
    {
        Png { chunks }
    }

    /// The chunks, in container order.
    pub fn chunks(&self) -> (r: &Vec<Chunk>)
        ensures
            r@.map_values(|c: Chunk| c@) == self@,
    {
        &self.chunks
    }

    /// Decodes a whole buffer: the signature, then chunks until the buffer
    /// is exhausted. Any failure rejects the whole buffer.
    pub fn parse(bytes: &Vec<u8>) -> (r: Result<Png, PngError>)
        ensures
            r is Ok <==> spec_png_ok(bytes@),
            r is Ok ==> r->Ok_0@ == spec_png_chunks(bytes@) && r->Ok_0.wf(),
            r is Err ==> r->Err_0 == spec_png_err(bytes@),
    {
        let ghost s = bytes@;
        let n = bytes.len();
        if n < 8 {
            return Err(PngError::SignatureMismatch);
        }
        if !(bytes[0] == 137 && bytes[1] == 80 && bytes[2] == 78 && bytes[3] == 71 && bytes[4]
            == 13 && bytes[5] == 10 && bytes[6] == 26 && bytes[7] == 10) {
            proof {
                if spec_has_signature(s) {
                    assert(forall|k: int|
                        0 <= k < 8 ==> s[k] == #[trigger] s.subrange(0, 8)[k]);
                }
            }
            return Err(PngError::SignatureMismatch);
        }
        proof {
            assert(s.subrange(0, 8) =~= spec_signature());
        }
        let mut chunks: Vec<Chunk> = Vec::new();
        let mut pos: usize = 8;
        while pos < n
            invariant
                8 <= pos <= n,
                n == s.len(),
                s == bytes@,
                spec_has_signature(s),
                spec_stream_ok(s, 8) <==> spec_stream_ok(s, pos as int),
                spec_stream_ok(s, pos as int) ==> spec_stream_chunks(s, 8) == chunks@.map_values(
                    |c: Chunk| c@,
                ) + spec_stream_chunks(s, pos as int),
                !spec_stream_ok(s, pos as int) ==> spec_stream_err(s, 8) == spec_stream_err(
                    s,
                    pos as int,
                ),
                spec_all_wf(chunks@.map_values(|c: Chunk| c@)),
            decreases n - pos,
        {
            let ghost gpos = pos as int;
            let ghost prefix = chunks@.map_values(|c: Chunk| c@);
            match Chunk::parse_at(bytes, pos) {
                Ok(c) => {
                    let data_len = c.length();
                    proof {
                        assert(spec_chunk_size(s, gpos) == 12 + data_len);
                        assert(spec_stream_ok(s, gpos) == spec_stream_ok(
                            s,
                            gpos + spec_chunk_size(s, gpos),
                        ));
                        if spec_stream_ok(s, gpos) {
                            assert(spec_stream_chunks(s, gpos) == seq![spec_chunk_at(s, gpos)]
                                + spec_stream_chunks(s, gpos + spec_chunk_size(s, gpos)));
                        } else {
                            assert(spec_stream_err(s, gpos) == spec_stream_err(
                                s,
                                gpos + spec_chunk_size(s, gpos),
                            ));
                        }
                    }
                    chunks.push(c);
                    proof {
                        assert(chunks@.map_values(|c: Chunk| c@) =~= prefix.push(c@));
                        if spec_stream_ok(s, gpos) {
                            assert(prefix + (seq![c@] + spec_stream_chunks(
                                s,
                                gpos + spec_chunk_size(s, gpos),
                            )) =~= prefix.push(c@) + spec_stream_chunks(
                                s,
                                gpos + spec_chunk_size(s, gpos),
                            ));
                        }
                    }
                    pos = pos + 12 + (data_len as usize);
                },
                Err(e) => {
                    proof {
                        assert(!spec_stream_ok(s, gpos));
                        assert(spec_stream_err(s, gpos) == spec_parse_err_at(s, gpos));
                    }
                    return Err(e);
                },
            }
        }
        proof {
            assert(spec_stream_ok(s, pos as int));
            assert(spec_stream_chunks(s, pos as int) =~= Seq::<ChunkView>::empty());
            assert(chunks@.map_values(|c: Chunk| c@) + Seq::<ChunkView>::empty()
                =~= chunks@.map_values(|c: Chunk| c@));
        }
        Ok(Png { chunks })
    }

    /// Serializes the container back to bytes: the signature, then every
    /// chunk in order.
    pub fn as_bytes(&self) -> (r: Vec<u8>)
        ensures
            r@ == spec_png_bytes(self@),
    {
        let ghost cs = self@;
        let mut out: Vec<u8> = Vec::new();
        out.push(137);
        out.push(80);
        out.push(78);
        out.push(71);
        out.push(13);
        out.push(10);
        out.push(26);
        out.push(10);
        assert(out@ =~= spec_signature() + spec_chunks_bytes(cs.take(0)));
        let mut i: usize = 0;
        while i < self.chunks.len()
            invariant
                i <= self.chunks@.len(),
                cs == self@,
                cs.len() == self.chunks@.len(),
                out@ == spec_signature() + spec_chunks_bytes(cs.take(i as int)),
            decreases self.chunks@.len() - i,
        {
            let mut cb = self.chunks[i].as_bytes();
            proof {
                assert(cs[i as int] == self.chunks@[i as int]@);
                lemma_chunks_bytes_push(cs.take(i as int), cs[i as int]);
                assert(cs.take(i as int).push(cs[i as int]) =~= cs.take(i as int + 1));
            }
            out.append(&mut cb);
            i += 1;
        }
        assert(cs.take(cs.len() as int) =~= cs);
        out
    }

    /// Whether this chunk is the terminal marker.
    fn is_terminal(c: &Chunk) -> (r: bool)
        ensures
            r == (c@.ctype == spec_terminal_type()),
    {
        let tb = c.chunk_type().bytes();
        let r = tb[0] == 73 && tb[1] == 69 && tb[2] == 78 && tb[3] == 68;
        proof {
            if r {
                assert(c@.ctype =~= spec_terminal_type());
            } else {
                if c@.ctype == spec_terminal_type() {
                    assert(tb@[0] == 73 && tb@[1] == 69 && tb@[2] == 78 && tb@[3] == 68);
                }
            }
        }
        r
    }

    /// Inserts the chunk immediately before the terminal marker when one is
    /// present, else at the end.
    pub fn append_chunk(&mut self, chunk: Chunk)
        ensures
            match spec_find(old(self)@, spec_terminal_type()) {
                Some(i) => final(self)@ == old(self)@.insert(i, chunk@),
                None => final(self)@ == old(self)@.push(chunk@),
            },
    {
        let ghost cs = self@;
        let n = self.chunks.len();
        let mut i: usize = 0;
        while i < n
            invariant
                i <= n,
                n == self.chunks@.len(),
                cs == self@,
                cs == old(self)@,
                forall|j: int| 0 <= j < i ==> (#[trigger] cs[j]).ctype != spec_terminal_type(),
            decreases n - i,
        {
            let term = Self::is_terminal(&self.chunks[i]);
            assert(cs[i as int] == self.chunks@[i as int]@);
            if term {
                proof {
                    lemma_find_some(cs, spec_terminal_type(), i as int);
                }
                let ghost pre = self.chunks@;
                self.chunks.insert(i, chunk);
                proof {
                    pre.insert_ensures(i as int, chunk);
                    cs.insert_ensures(i as int, chunk@);
                    assert(self@ =~= cs.insert(i as int, chunk@)) by {
                        assert forall|k: int| 0 <= k < self@.len() implies self@[k] == cs.insert(
                            i as int,
                            chunk@,
                        )[k] by {
                            if k < i as int {
                                assert(self.chunks@[k] == pre[k]);
                            } else if k > i as int {
                                assert(self.chunks@[k] == pre[k - 1]);
                                assert(cs.insert(i as int, chunk@)[(k - 1) + 1] == cs[k - 1]);
                            }
                        }
                    }
                }
                return;
            }
            i += 1;
        }
        proof {
            lemma_find_none(cs, spec_terminal_type());
        }
        self.chunks.push(chunk);
        proof {
            assert(self@ =~= cs.push(chunk@));
        }
    }

    /// The first chunk with the given type, or nothing when none matches;
    /// absence is a normal outcome, not a failure.
    pub fn chunk_by_type(&self, chunk_type: ChunkType) -> (r: Option<&Chunk>)
        ensures
            r is Some <==> spec_find(self@, chunk_type@) is Some,
            r is Some ==> r->Some_0@ == self@[spec_find(self@, chunk_type@)->Some_0],
    {
        let ghost cs = self@;
        let n = self.chunks.len();
        let mut i: usize = 0;
        while i < n
            invariant
                i <= n,
                n == self.chunks@.len(),
                cs == self@,
                forall|j: int| 0 <= j < i ==> (#[trigger] cs[j]).ctype != chunk_type@,
            decreases n - i,
        {
            let found = *self.chunks[i].chunk_type() == chunk_type;
            assert(cs[i as int] == self.chunks@[i as int]@);
            if found {
                proof {
                    lemma_find_some(cs, chunk_type@, i as int);
                }
                return Some(&self.chunks[i]);
            }
            i += 1;
        }
        proof {
            lemma_find_none(cs, chunk_type@);
        }
        None
    }

    /// Removes and returns the first chunk with the given type; reports a
    /// not-found condition, leaving the container unchanged, when none
    /// matches.
    pub fn remove_chunk(&mut self, chunk_type: ChunkType) -> (r: Result<Chunk, PngError>)
        ensures
            match spec_find(old(self)@, chunk_type@) {
                Some(i) => r is Ok && r->Ok_0@ == old(self)@[i]
                    && final(self)@ == old(self)@.remove(i),
                None => r == Result::<Chunk, PngError>::Err(PngError::ChunkNotFound)
                    && final(self)@ == old(self)@,
            },
    {
        let ghost cs = self@;
        let n = self.chunks.len();
        let mut i: usize = 0;
        while i < n
            invariant
                i <= n,
                n == self.chunks@.len(),
                cs == self@,
                cs == old(self)@,
                forall|j: int| 0 <= j < i ==> (#[trigger] cs[j]).ctype != chunk_type@,
            decreases n - i,
        {
            let found = *self.chunks[i].chunk_type() == chunk_type;
            assert(cs[i as int] == self.chunks@[i as int]@);
            if found {
                proof {
                    lemma_find_some(cs, chunk_type@, i as int);
                }
                let ghost pre = self.chunks@;
                let removed = self.chunks.remove(i);
                proof {
                    pre.remove_ensures(i as int);
                    cs.remove_ensures(i as int);
                    assert(self@ =~= cs.remove(i as int)) by {
                        assert forall|k: int| 0 <= k < self@.len() implies self@[k] == cs.remove(
                            i as int,
                        )[k] by {
                            if k < i as int {
                                assert(self.chunks@[k] == pre[k]);
                            } else {
                                assert(self.chunks@[k] == pre[k + 1]);
                            }
                        }
                    }
                }
                return Ok(removed);
            }
            i += 1;
        }
        proof {
            lemma_find_none(cs, chunk_type@);
        }
        Err(PngError::ChunkNotFound)
    }
}

/// Serializing one more chunk appends its bytes.
proof fn lemma_chunks_bytes_push(cs: Seq<ChunkView>, c: ChunkView)
    ensures
        spec_chunks_bytes(cs.push(c)) == spec_chunks_bytes(cs) + c.ser(),
    decreases cs.len(),
{
    if cs.len() == 0 {
        assert(cs.push(c).drop_first() =~= Seq::<ChunkView>::empty());
        assert(cs.push(c)[0] == c);
        assert(spec_chunks_bytes(cs.push(c)) == c.ser() + spec_chunks_bytes(
            cs.push(c).drop_first(),
        ));
        assert(spec_chunks_bytes(cs.push(c).drop_first()) == Seq::<u8>::empty());
        assert(c.ser() + Seq::<u8>::empty() =~= Seq::<u8>::empty() + c.ser());
    } else {
        assert(cs.push(c).drop_first() =~= cs.drop_first().push(c));
        lemma_chunks_bytes_push(cs.drop_first(), c);
        assert(cs.push(c)[0] == cs[0]);
        assert(cs[0].ser() + (spec_chunks_bytes(cs.drop_first()) + c.ser()) =~= (cs[0].ser()
            + spec_chunks_bytes(cs.drop_first())) + c.ser());
    }
}

/// A serialized chunk sequence filling the rest of a buffer parses back to
/// the same sequence.
proof fn lemma_stream_round_trip(s: Seq<u8>, pos: int, cs: Seq<ChunkView>)
    requires
        spec_all_wf(cs),
        0 <= pos <= s.len(),
        s.subrange(pos, s.len() as int) == spec_chunks_bytes(cs),
    ensures
        spec_stream_ok(s, pos),
        spec_stream_chunks(s, pos) == cs,
    decreases cs.len(),
{
    if cs.len() == 0 {
        assert(s.subrange(pos, s.len() as int).len() == s.len() - pos);
        assert(s.len() - pos == 0);
        assert(spec_stream_chunks(s, pos) =~= cs);
    } else {
        let c = cs[0];
        let rest = cs.drop_first();
        let tail = spec_chunks_bytes(rest);
        let size = c.ser().len() as int;
        assert(c.wf());
        assert(spec_chunks_bytes(cs) == c.ser() + tail);
        assert(forall|k: int|
            0 <= k < s.len() - pos ==> s[pos + k] == #[trigger] s.subrange(pos, s.len() as int)[k]);
        assert(pos + size + tail.len() == s.len());
        assert(s.subrange(pos, pos + size) =~= c.ser()) by {
            assert forall|k: int| 0 <= k < size implies s.subrange(pos, pos + size)[k]
                == c.ser()[k] by {
                assert(s.subrange(pos, pos + size)[k] == s[pos + k]);
                assert(s[pos + k] == (c.ser() + tail)[k]);
                assert((c.ser() + tail)[k] == c.ser()[k]);
            }
        }
        lemma_ser_parses_at(s, pos, c);
        assert(s.subrange(pos + size, s.len() as int) =~= tail) by {
            assert forall|k: int|
                0 <= k < tail.len() implies s.subrange(pos + size, s.len() as int)[k]
                == tail[k] by {
                assert(s.subrange(pos + size, s.len() as int)[k] == s[pos + size + k]);
                assert(s[pos + size + k] == (c.ser() + tail)[size + k]);
                assert((c.ser() + tail)[size + k] == tail[k]);
            }
        }
        assert(spec_all_wf(rest));
        lemma_stream_round_trip(s, pos + size, rest);
        assert(spec_chunk_size(s, pos) == size);
        assert(spec_stream_chunks(s, pos) =~= cs);
    }
}

/// Round trip of a whole container: the serialization of any sequence of
/// well-formed chunks parses back to exactly that sequence, in order.
pub proof fn lemma_png_round_trip(cs: Seq<ChunkView>)
    requires
        spec_all_wf(cs),
    ensures
        spec_png_ok(spec_png_bytes(cs)),
        spec_png_chunks(spec_png_bytes(cs)) == cs,
{
    let s = spec_png_bytes(cs);
    assert(s.subrange(0, 8) =~= spec_signature());
    assert(s.subrange(8, s.len() as int) =~= spec_chunks_bytes(cs));
    lemma_stream_round_trip(s, 8, cs);
}

} // verus!
