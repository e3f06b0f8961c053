//! Length-prefixed, type-tagged, checksummed chunks: the binary records a
//! container is made of.

use vstd::prelude::*;
use vstd::string::StringExecFns;
use vstd::utf8::{decode_utf8, valid_utf8};

use crate::be_bytes::{
    lemma_u32_from_to_be_bytes, lemma_u32_to_from_be_bytes, push_u32_be_bytes, spec_u32_from_be_bytes,
    spec_u32_to_be_bytes, u32_from_be_bytes,
};
use crate::checksum::{checksum_ieee, crc32_of};
use crate::chunk_type::{spec_valid_type_bytes, ChunkType};
use crate::errors::PngError;
use crate::text::utf8_to_string;

verus! {

/// A payload may hold at most 2^31 - 1 bytes.
pub const MAXIMUM_LENGTH: u32 = 0x7fff_ffff;

/// The mathematical content of a chunk: its declared length, the four type
/// bytes, the payload bytes and the stored checksum.
#[verifier::ext_equal]
pub ghost struct ChunkView {
    pub length: u32,
    pub ctype: Seq<u8>,
    pub data: Seq<u8>,
    pub crc: u32,
}

impl ChunkView {
    /// The invariant of every well-formed chunk: four letter type bytes, a
    /// length that matches the payload and stays below the bound, and a
    /// checksum over type and payload.
    pub open spec fn wf(&self) -> bool {
        &&& self.ctype.len() == 4
        &&& spec_valid_type_bytes(self.ctype)
        &&& self.data.len() == self.length
        &&& self.length <= MAXIMUM_LENGTH
        &&& self.crc == crc32_of(self.ctype + self.data)
    }

    /// The fixed byte layout: 4-byte big-endian length, 4 type bytes, the
    /// payload, 4-byte big-endian checksum.
    pub open spec fn ser(&self) -> Seq<u8> {
        spec_u32_to_be_bytes(self.length) + self.ctype + self.data + spec_u32_to_be_bytes(self.crc)
    }
}

/// A chunk of the container format.
#[derive(Debug)]
pub struct Chunk {
    length: u32,
    chunk_type: ChunkType,
    chunk_data: Vec<u8>,
    crc: u32,
}

impl View for Chunk {
    type V = ChunkView;

    closed spec fn view(&self) -> ChunkView {
        ChunkView {
            length: self.length,
            ctype: self.chunk_type@,
            data: self.chunk_data@,
            crc: self.crc,
        }
    }
}

/// The length field declared at `pos`.
pub open spec fn spec_declared_len(s: Seq<u8>, pos: int) -> u32 {
    spec_u32_from_be_bytes(s.subrange(pos, pos + 4))
}

/// The whole serialized size of the chunk declared at `pos`.
pub open spec fn spec_chunk_size(s: Seq<u8>, pos: int) -> int {
    12 + spec_declared_len(s, pos)
}

/// Whether a whole, well-checksummed chunk stands at `pos`.
pub open spec fn spec_parse_ok_at(s: Seq<u8>, pos: int) -> bool {
    let len = spec_declared_len(s, pos) as int;
    &&& pos + 8 <= s.len()
    &&& spec_declared_len(s, pos) <= MAXIMUM_LENGTH
    &&& spec_valid_type_bytes(s.subrange(pos + 4, pos + 8))
    &&& pos + 12 + len <= s.len()
    &&& spec_u32_from_be_bytes(s.subrange(pos + 8 + len, pos + 12 + len)) == crc32_of(
        s.subrange(pos + 4, pos + 8 + len),
    )
}

/// The chunk read at `pos`, meaningful when `spec_parse_ok_at` holds there.
pub open spec fn spec_chunk_at(s: Seq<u8>, pos: int) -> ChunkView {
    let len = spec_declared_len(s, pos) as int;
    ChunkView {
        length: spec_declared_len(s, pos),
        ctype: s.subrange(pos + 4, pos + 8),
        data: s.subrange(pos + 8, pos + 8 + len),
        crc: spec_u32_from_be_bytes(s.subrange(pos + 8 + len, pos + 12 + len)),
    }
}

/// The failure reported for the chunk at `pos`, in the order the reads
/// happen: length first, its bound next, then the type, then payload and
/// checksum bytes, the checksum comparison last.
pub open spec fn spec_parse_err_at(s: Seq<u8>, pos: int) -> PngError {
    let len = spec_declared_len(s, pos) as int;
    if pos + 4 > s.len() {
        PngError::UnexpectedEof
    } else if spec_declared_len(s, pos) > MAXIMUM_LENGTH {
        PngError::LengthTooLong
    } else if pos + 8 > s.len() {
        PngError::UnexpectedEof
    } else if !spec_valid_type_bytes(s.subrange(pos + 4, pos + 8)) {
        PngError::InvalidChunkType
    } else if pos + 12 + len > s.len() {
        PngError::UnexpectedEof
    } else {
        PngError::ChecksumMismatch {
            expected: crc32_of(s.subrange(pos + 4, pos + 8 + len)),
            found: spec_u32_from_be_bytes(s.subrange(pos + 8 + len, pos + 12 + len)),
        }
    }
}

/// A chunk's one-line rendering: the type characters, a tab, then the
/// payload decoded as text, or a placeholder where it is not valid text.
pub open spec fn spec_display_line(c: ChunkView) -> Seq<char> {
    c.ctype.map_values(|b: u8| b as char) + "\t"@ + (if valid_utf8(c.data) {
        decode_utf8(c.data)
    } else {
        "[data]"@
    })
}

impl Chunk {
    /// Builds a chunk from a validated type and an owned payload, computing
    /// length and checksum.
    pub fn new(chunk_type: ChunkType, chunk_data: Vec<u8>) -> (r: Chunk)
        requires
            chunk_type.wf(),
            chunk_data@.len() <= MAXIMUM_LENGTH,
        ensures
            r@.wf(),
            r@.ctype == chunk_type@,
            r@.data == chunk_data@,
            r@.length == chunk_data@.len(),
            r@.crc == crc32_of(chunk_type@ + chunk_data@),
    {
        let length = chunk_data.len() as u32;
        let mut buf: Vec<u8> = Vec::new();
        let tb = chunk_type.bytes();
        buf.push(tb[0]);
        buf.push(tb[1]);
        buf.push(tb[2]);
        buf.push(tb[3]);
        assert(buf@ =~= chunk_type@ + chunk_data@.take(0));
        let mut i: usize = 0;
        while i < chunk_data.len()
            invariant
                i <= chunk_data@.len(),
                buf@ == chunk_type@ + chunk_data@.take(i as int),
            decreases chunk_data@.len() - i,
        {
            buf.push(chunk_data[i]);
            assert(buf@ =~= chunk_type@ + chunk_data@.take(i as int + 1));
            i += 1;
        }
        assert(buf@ =~= chunk_type@ + chunk_data@);
        let crc = checksum_ieee(&buf);
        Chunk { length, chunk_type, chunk_data, crc }
    }

    /// The length of the payload in bytes.
    pub fn length(&self) -> (r: u32)
        ensures
            r == self@.length,
    {
        self.length
    }

    /// The chunk's type code.
    pub fn chunk_type(&self) -> (r: &ChunkType)
        ensures
            r@ == self@.ctype,
    {
        &self.chunk_type
    }

    /// The payload bytes.
    pub fn data(&self) -> (r: &[u8])
        ensures
            r@ == self@.data,
    {
        self.chunk_data.as_slice()
    }

    /// The stored checksum.
    pub fn crc(&self) -> (r: u32)
        ensures
            r == self@.crc,
    {
        self.crc
    }

    /// The payload decoded as UTF-8 text; fails on payloads that are not
    /// valid text.
    pub fn data_as_string(&self) -> (r: Result<String, PngError>)
        ensures
            r is Ok <==> valid_utf8(self@.data),
            r is Ok ==> r->Ok_0@ == decode_utf8(self@.data),
            r is Err ==> r == Result::<String, PngError>::Err(PngError::InvalidUtf8),
    {
        match utf8_to_string(&self.chunk_data) {
            Some(s) => Ok(s),
            None => Err(PngError::InvalidUtf8),
        }
    }

    /// The chunk rendered as one line of text: the type code, a tab, then
    /// the payload as text, or a placeholder where the payload is not text.
    pub fn display_string(&self) -> (r: String)
        requires
            self@.wf(),
        ensures
            r@ == spec_display_line(self@),
    {
        let mut out = self.chunk_type.as_string();
        out.append("\t");
        match self.data_as_string() {
            Ok(s) => {
                out.append(s.as_str());
            },
            Err(_) => {
                out.append("[data]");
            },
        }
        out
    }

    /// The chunk in its fixed byte layout.
    pub fn as_bytes(&self) -> (r: Vec<u8>)
        ensures
            r@ == self@.ser(),
    {
        let mut out: Vec<u8> = Vec::new();
        push_u32_be_bytes(&mut out, self.length);
        let tb = self.chunk_type.bytes();
        out.push(tb[0]);
        out.push(tb[1]);
        out.push(tb[2]);
        out.push(tb[3]);
        assert(out@ =~= spec_u32_to_be_bytes(self@.length) + self@.ctype + self@.data.take(0));
        let mut i: usize = 0;
        while i < self.chunk_data.len()
            invariant
                i <= self.chunk_data@.len(),
                out@ == spec_u32_to_be_bytes(self@.length) + self@.ctype + self@.data.take(
                    i as int,
                ),
            decreases self.chunk_data@.len() - i,
        {
            out.push(self.chunk_data[i]);
            assert(out@ =~= spec_u32_to_be_bytes(self@.length) + self@.ctype + self@.data.take(
                i as int + 1,
            ));
            i += 1;
        }
        push_u32_be_bytes(&mut out, self.crc);
        assert(out@ =~= self@.ser());
        out
    }

    /// Decodes one chunk from the start of the buffer; bytes past the chunk
    /// are ignored.
    pub fn parse(bytes: &Vec<u8>) -> (r: Result<Chunk, PngError>)
        ensures
            r is Ok <==> spec_parse_ok_at(bytes@, 0),
            r is Ok ==> r->Ok_0@ == spec_chunk_at(bytes@, 0) && r->Ok_0@.wf(),
            r is Err ==> r->Err_0 == spec_parse_err_at(bytes@, 0),
    {
        Self::parse_at(bytes, 0)
    }

    /// Decodes one chunk at `pos`: length, type, payload, checksum, in that
    /// order, verifying the checksum over type and payload.
    pub fn parse_at(bytes: &Vec<u8>, pos: usize) -> (r: Result<Chunk, PngError>)
        requires
            pos <= bytes@.len(),
        ensures
            r is Ok <==> spec_parse_ok_at(bytes@, pos as int),
            r is Ok ==> r->Ok_0@ == spec_chunk_at(bytes@, pos as int) && r->Ok_0@.wf(),
            r is Err ==> r->Err_0 == spec_parse_err_at(bytes@, pos as int),
    {
        let ghost s = bytes@;
        let ghost gpos = pos as int;
        let n = bytes.len();
        if n - pos < 4 {
            return Err(PngError::UnexpectedEof);
        }
        let length = u32_from_be_bytes(bytes[pos], bytes[pos + 1], bytes[pos + 2], bytes[pos + 3]);
        proof {
            assert(s.subrange(gpos, gpos + 4) =~= seq![
                s[gpos],
                s[gpos + 1],
                s[gpos + 2],
                s[gpos + 3],
            ]);
        }
        assert(length == spec_declared_len(s, gpos));
        if length > MAXIMUM_LENGTH {
            return Err(PngError::LengthTooLong);
        }
        if n - pos < 8 {
            return Err(PngError::UnexpectedEof);
        }
        let t: [u8; 4] = [bytes[pos + 4], bytes[pos + 5], bytes[pos + 6], bytes[pos + 7]];
        proof {
            assert(t@ =~= s.subrange(gpos + 4, gpos + 8));
        }
        let chunk_type = match ChunkType::try_from(t) {
            Ok(ct) => ct,
            Err(_) => {
                return Err(PngError::InvalidChunkType);
            },
        };
        let len_us = length as usize;
        if n - pos - 8 < len_us + 4 {
            return Err(PngError::UnexpectedEof);
        }
        let mut data: Vec<u8> = Vec::new();
        let mut i: usize = 0;
        while i < len_us
            invariant
                i <= len_us,
                s == bytes@,
                gpos == pos as int,
                n == s.len(),
                pos + 12 + len_us <= n,
                data@ == s.subrange(gpos + 8, gpos + 8 + i as int),
            decreases len_us - i,
        {
            data.push(bytes[pos + 8 + i]);
            assert(data@ =~= s.subrange(gpos + 8, gpos + 8 + i as int + 1));
            i += 1;
        }
        let stored = u32_from_be_bytes(
            bytes[pos + 8 + len_us],
            bytes[pos + 9 + len_us],
            bytes[pos + 10 + len_us],
            bytes[pos + 11 + len_us],
        );
        proof {
            let base = gpos + 8 + len_us as int;
            assert(s.subrange(base, base + 4) =~= seq![
                s[base],
                s[base + 1],
                s[base + 2],
                s[base + 3],
            ]);
        }
        let mut buf: Vec<u8> = Vec::new();
        let mut j: usize = pos + 4;
        while j < pos + 8 + len_us
            invariant
                pos + 4 <= j <= pos + 8 + len_us,
                s == bytes@,
                gpos == pos as int,
                n == s.len(),
                pos + 12 + len_us <= n,
                buf@ == s.subrange(gpos + 4, j as int),
            decreases pos + 8 + len_us - j,
        {
            buf.push(bytes[j]);
            assert(buf@ =~= s.subrange(gpos + 4, j as int + 1));
            j += 1;
        }
        let expected = checksum_ieee(&buf);
        if expected != stored {
            return Err(PngError::ChecksumMismatch { expected, found: stored });
        }
        let chunk = Chunk { length, chunk_type, chunk_data: data, crc: stored };
        proof {
            assert(spec_parse_ok_at(s, gpos));
            assert(chunk@ =~= spec_chunk_at(s, gpos));
            assert(chunk_type@ + chunk.chunk_data@ =~= s.subrange(gpos + 4, gpos + 8 + len_us as int));
            assert(chunk@.wf());
        }
        Ok(chunk)
    }
}

/// Which piece of a chunk's layout each serialized byte belongs to.
proof fn lemma_ser_index(c: ChunkView, k: int)
    requires
        c.ctype.len() == 4,
        0 <= k < c.ser().len(),
    ensures
        c.ser().len() == 12 + c.data.len(),
        0 <= k < 4 ==> c.ser()[k] == spec_u32_to_be_bytes(c.length)[k],
        4 <= k < 8 ==> c.ser()[k] == c.ctype[k - 4],
        8 <= k < 8 + c.data.len() ==> c.ser()[k] == c.data[k - 8],
        8 + c.data.len() <= k < 12 + c.data.len() ==> c.ser()[k] == spec_u32_to_be_bytes(c.crc)[k
            - 8 - c.data.len()],
{
    let a = spec_u32_to_be_bytes(c.length);
    let b = c.ctype;
    let d = c.data;
    let e = spec_u32_to_be_bytes(c.crc);
    let n = d.len() as int;
    assert(a.len() == 4 && b.len() == 4 && e.len() == 4);
    assert(c.ser() == a + b + d + e);
    assert((a + b).len() == 8 && (a + b + d).len() == 8 + n);
    if k < 8 + n {
        assert((a + b + d + e)[k] == (a + b + d)[k]);
        if k < 8 {
            assert((a + b + d)[k] == (a + b)[k]);
            if k < 4 {
                assert((a + b)[k] == a[k]);
            } else {
                assert((a + b)[k] == b[k - 4]);
            }
        } else {
            assert((a + b + d)[k] == d[k - 8]);
        }
    } else {
        assert((a + b + d + e)[k] == e[k - 8 - n]);
    }
}

/// Any well-formed chunk whose serialization stands at `pos` in a buffer
/// parses successfully there, back to the same chunk.
pub proof fn lemma_ser_parses_at(s: Seq<u8>, pos: int, c: ChunkView)
    requires
        c.wf(),
        0 <= pos,
        pos + c.ser().len() <= s.len(),
        s.subrange(pos, pos + c.ser().len() as int) == c.ser(),
    ensures
        spec_parse_ok_at(s, pos),
        spec_chunk_at(s, pos) == c,
        spec_chunk_size(s, pos) == 12 + c.length,
{
    let n = c.data.len() as int;
    let a = spec_u32_to_be_bytes(c.length);
    let b = c.ctype;
    let d = c.data;
    let e = spec_u32_to_be_bytes(c.crc);
    let ser = c.ser();
    assert(a.len() == 4 && b.len() == 4 && e.len() == 4);
    assert(ser.len() == 12 + n);
    assert forall|k: int| 0 <= k < 12 + n implies s[pos + k] == #[trigger] ser[k] by {
        assert(s.subrange(pos, pos + 12 + n)[k] == s[pos + k]);
    }
    assert(s.subrange(pos, pos + 4) =~= a) by {
        assert forall|k: int| 0 <= k < 4 implies s.subrange(pos, pos + 4)[k] == a[k] by {
            lemma_ser_index(c, k);
        }
    }
    assert(s.subrange(pos + 4, pos + 8) =~= b) by {
        assert forall|k: int| 0 <= k < 4 implies s.subrange(pos + 4, pos + 8)[k] == b[k] by {
            lemma_ser_index(c, k + 4);
        }
    }
    assert(s.subrange(pos + 8, pos + 8 + n) =~= d) by {
        assert forall|k: int| 0 <= k < n implies s.subrange(pos + 8, pos + 8 + n)[k] == d[k] by {
            lemma_ser_index(c, k + 8);
        }
    }
    assert(s.subrange(pos + 8 + n, pos + 12 + n) =~= e) by {
        assert forall|k: int| 0 <= k < 4 implies s.subrange(pos + 8 + n, pos + 12 + n)[k]
            == e[k] by {
            lemma_ser_index(c, k + 8 + n);
        }
    }
    assert(s.subrange(pos + 4, pos + 8 + n) =~= b + d) by {
        assert forall|k: int| 0 <= k < 4 + n implies s.subrange(pos + 4, pos + 8 + n)[k] == (b
            + d)[k] by {
            lemma_ser_index(c, k + 4);
        }
    }
    lemma_u32_from_to_be_bytes(c.length);
    lemma_u32_from_to_be_bytes(c.crc);
    assert(spec_declared_len(s, pos) == c.length);
    assert(spec_parse_ok_at(s, pos));
    assert(spec_chunk_at(s, pos) =~= c);
}

/// Round trip of a single chunk: the serialization of any well-formed chunk
/// parses successfully, and yields that chunk back.
pub proof fn lemma_chunk_round_trip(c: ChunkView)
    requires
        c.wf(),
    ensures
        spec_parse_ok_at(c.ser(), 0),
        spec_chunk_at(c.ser(), 0) == c,
{
    assert(c.ser().subrange(0, c.ser().len() as int) =~= c.ser());
    lemma_ser_parses_at(c.ser(), 0, c);
}

/// A serialized chunk whose trailing checksum field is altered in any way no
/// longer parses: the failure is a checksum mismatch carrying both values.
pub proof fn lemma_corrupt_crc_rejected(c: ChunkView, s: Seq<u8>)
    requires
        c.wf(),
        s.len() == c.ser().len(),
        s.subrange(0, s.len() - 4) == c.ser().subrange(0, c.ser().len() - 4),
        s.subrange(s.len() - 4, s.len() as int) != spec_u32_to_be_bytes(c.crc),
    ensures
        !spec_parse_ok_at(s, 0),
        spec_parse_err_at(s, 0) == (PngError::ChecksumMismatch {
            expected: c.crc,
            found: spec_u32_from_be_bytes(s.subrange(s.len() - 4, s.len() as int)),
        }),
{
    let n = c.data.len() as int;
    let a = spec_u32_to_be_bytes(c.length);
    let b = c.ctype;
    let d = c.data;
    let ser = c.ser();
    assert(a.len() == 4 && b.len() == 4);
    assert(ser.len() == 12 + n);
    assert forall|k: int| 0 <= k < 8 + n implies s[k] == #[trigger] ser[k] by {
        assert(s.subrange(0, s.len() - 4)[k] == s[k]);
        assert(ser.subrange(0, ser.len() - 4)[k] == ser[k]);
    }
    assert(s.subrange(0, 4) =~= a) by {
        assert forall|k: int| 0 <= k < 4 implies s.subrange(0, 4)[k] == a[k] by {
            lemma_ser_index(c, k);
        }
    }
    assert(s.subrange(4, 8 + n) =~= b + d) by {
        assert forall|k: int| 0 <= k < 4 + n implies s.subrange(4, 8 + n)[k] == (b + d)[k] by {
            lemma_ser_index(c, k + 4);
        }
    }
    assert(spec_valid_type_bytes(s.subrange(4, 8))) by {
        assert forall|k: int| 0 <= k < 4 implies crate::chunk_type::is_ascii_letter(
            #[trigger] s.subrange(4, 8)[k],
        ) by {
            lemma_ser_index(c, k + 4);
            assert(s.subrange(4, 8)[k] == b[k]);
        }
    }
    lemma_u32_from_to_be_bytes(c.length);
    assert(spec_declared_len(s, 0) == c.length);
    let tail = s.subrange(8 + n, 12 + n);
    assert(tail =~= s.subrange(s.len() - 4, s.len() as int));
    let stored = spec_u32_from_be_bytes(tail);
    lemma_u32_to_from_be_bytes(tail);
    assert(stored != c.crc);
    assert(crc32_of(s.subrange(4, 8 + n)) == c.crc);
}

/// A declared payload length beyond the 31-bit bound fails parsing with the
/// length error, whatever follows the length field.
pub proof fn lemma_overlong_length_rejected(s: Seq<u8>)
    requires
        4 <= s.len(),
        spec_declared_len(s, 0) > MAXIMUM_LENGTH,
    ensures
        !spec_parse_ok_at(s, 0),
        spec_parse_err_at(s, 0) == PngError::LengthTooLong,
{
}

} // verus!
