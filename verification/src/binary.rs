//! Binary parsing of `canvas.fig`, the inner payload of a `.fig` file.
//!
//! Layout:
//! ```text
//! [prelude: 8B][version: u32 LE][chunk0_len][chunk0]...[chunkN_len][chunkN]
//! ```
//! Chunk 0 is the Kiwi schema (raw deflate). Chunk 1 is the message
//! (raw deflate, or zstd when it starts with the zstd magic number).

use vstd::prelude::*;
use vstd::slice::{slice_subrange, slice_to_vec};
use std::io::Read;
use crate::error::{CanvasError, ParseError};

verus! {

/// What raw-deflate decoding (RFC 1951, no zlib header) of `data` yields:
/// the decoded bytes, or the text of the error the decoder reports.
pub uninterp spec fn raw_inflate(data: Seq<u8>) -> Result<Seq<u8>, Seq<char>>;

/// What zstd frame decoding of `data` yields: the decoded bytes, or the text
/// of the error the decoder reports.
pub uninterp spec fn zstd_decode(data: Seq<u8>) -> Result<Seq<u8>, Seq<char>>;

/// `String::from_utf8_lossy` of `bytes`: invalid sequences become U+FFFD.
pub uninterp spec fn utf8_lossy(bytes: Seq<u8>) -> Seq<char>;

/// Reads `data` to the end through `flate2::read::DeflateDecoder`; a failure
/// is handed back as the `io::Error`'s text. The output and the text are a
/// function of `data` alone; which inputs fail is not stated beyond the name.
#[verifier::external_body]
fn inflate_raw_call(data: &[u8]) -> (r: Result<Vec<u8>, String>)
    ensures
        match raw_inflate(data@) {
            Ok(d) => r matches Ok(v) && v@ == d,
            Err(m) => r matches Err(t) && t@ == m,
        },
{
    let mut out = Vec::new();
    match flate2::read::DeflateDecoder::new(data).read_to_end(&mut out) {
        Ok(_) => Ok(out),
        Err(e) => Err(e.to_string()),
    }
}

/// `zstd::stream::decode_all` over an in-memory reader of `data`; a failure
/// is handed back as the `io::Error`'s text.
#[verifier::external_body]
fn zstd_decode_call(data: &[u8]) -> (r: Result<Vec<u8>, String>)
    ensures
        match zstd_decode(data@) {
            Ok(d) => r matches Ok(v) && v@ == d,
            Err(m) => r matches Err(t) && t@ == m,
        },
{
    zstd::stream::decode_all(std::io::Cursor::new(data)).map_err(|e| e.to_string())
}

/// `String::from_utf8_lossy(bytes)`, owned. On valid UTF-8 it is the decoding.
#[verifier::external_body]
pub(crate) fn from_utf8_lossy(bytes: &[u8]) -> (s: String)
    ensures
        s@ == utf8_lossy(bytes@),
        vstd::utf8::valid_utf8(bytes@) ==> s@ == vstd::utf8::decode_utf8(bytes@),
{
    String::from_utf8_lossy(bytes).into_owned()
}

/// The unsigned little-endian 32-bit number at `i..i+4` of `s`.
pub open spec fn le_u32(s: Seq<u8>, i: int) -> int {
    s[i] as int + 256 * (s[i + 1] as int) + 65536 * (s[i + 2] as int) + 16777216 * (s[i + 3] as int)
}

/// The chunks that follow position `pos`: a little-endian u32 length and that
/// many bytes, repeated while a length field fits and its chunk is complete.
pub open spec fn chunks_from(data: Seq<u8>, pos: int) -> Seq<Seq<u8>>
    decreases data.len() - pos,
{
    if 0 <= pos && pos + 4 <= data.len() {
        let n = le_u32(data, pos);
        if pos + 4 + n > data.len() {
            Seq::empty()
        } else {
            seq![data.subrange(pos + 4, pos + 4 + n)] + chunks_from(data, pos + 4 + n)
        }
    } else {
        Seq::empty()
    }
}

/// The chunks of a `canvas.fig` payload: those after the 12-byte header.
pub open spec fn canvas_chunks(data: Seq<u8>) -> Seq<Seq<u8>> {
    chunks_from(data, 12)
}

pub struct DecompressedCanvasFig {
    pub prelude: String,
    pub version: u32,
    pub schema_bytes: Vec<u8>,
    pub message_bytes: Vec<u8>,
}

/// True when `data` begins with the zstd frame magic `28 B5 2F FD`.
pub open spec fn has_zstd_magic(data: Seq<u8>) -> bool {
    data.len() >= 4 && data[0] == 0x28u8 && data[1] == 0xB5u8 && data[2] == 0x2Fu8 && data[3] == 0xFDu8
}

/// The message chunk decompressed: zstd when it carries the zstd magic, raw
/// deflate otherwise.
pub open spec fn message_decompressed(data: Seq<u8>) -> Result<Seq<u8>, Seq<char>> {
    if has_zstd_magic(data) { zstd_decode(data) } else { raw_inflate(data) }
}

/// The outcome `parse_canvas_fig` gives on `data`, with the decoders' results
/// standing in for the decoders.
pub open spec fn canvas_outcome_ok(data: Seq<u8>) -> bool {
    &&& data.len() >= 12
    &&& canvas_chunks(data).len() >= 2
    &&& raw_inflate(canvas_chunks(data)[0]) is Ok
    &&& message_decompressed(canvas_chunks(data)[1]) is Ok
}

/// `e` is the error `parse_canvas_fig` gives on `data` when it fails: a
/// too-short header, too few chunks, or a decoder failure on the schema chunk
/// (raw deflate) or else on the message chunk (zstd or raw deflate), with
/// the decoder's error text.
pub open spec fn canvas_failure(data: Seq<u8>, e: ParseError) -> bool {
    if data.len() < 12 {
        e == ParseError::Other(CanvasError::TooSmall)
    } else if canvas_chunks(data).len() < 2 {
        e == ParseError::Other(CanvasError::TooFewChunks(canvas_chunks(data).len() as usize))
    } else if raw_inflate(canvas_chunks(data)[0]) is Err {
        e matches ParseError::Deflate(t) && t@ == raw_inflate(canvas_chunks(data)[0])->Err_0
    } else if has_zstd_magic(canvas_chunks(data)[1]) {
        e matches ParseError::Zstd(t) && t@ == message_decompressed(canvas_chunks(data)[1])->Err_0
    } else {
        e matches ParseError::Deflate(t) && t@ == message_decompressed(canvas_chunks(data)[1])->Err_0
    }
}

fn read_le_u32(data: &[u8], i: usize) -> (r: u32)
    requires
        i + 4 <= data@.len(),
    ensures
        r as int == le_u32(data@, i as int),
{
    (data[i] as u32) + 256 * (data[i + 1] as u32) + 65536 * (data[i + 2] as u32) + 16777216 * (data[i + 3] as u32)
}

fn decompress_deflate_raw(data: &[u8]) -> (r: Result<Vec<u8>, ParseError>)
    ensures
        match raw_inflate(data@) {
            Ok(d) => r matches Ok(v) && v@ == d,
            Err(m) => r matches Err(ParseError::Deflate(t)) && t@ == m,
        },
{
    match inflate_raw_call(data) {
        Ok(v) => Ok(v),
        Err(t) => Err(ParseError::Deflate(t)),
    }
}

fn decompress_message(data: &[u8]) -> (r: Result<Vec<u8>, ParseError>)
    ensures
        match message_decompressed(data@) {
            Ok(d) => r matches Ok(v) && v@ == d,
            Err(m) => if has_zstd_magic(data@) {
                r matches Err(ParseError::Zstd(t)) && t@ == m
            } else {
                r matches Err(ParseError::Deflate(t)) && t@ == m
            },
        },
{
    if data.len() >= 4 && data[0] == 0x28u8 && data[1] == 0xB5u8 && data[2] == 0x2Fu8 && data[3] == 0xFDu8 {
        match zstd_decode_call(data) {
            Ok(v) => Ok(v),
            Err(t) => Err(ParseError::Zstd(t)),
        }
    } else {
        decompress_deflate_raw(data)
    }
}

/// Split the chunk area of `data` (from byte 12 on) into its chunks.
fn split_chunks(data: &[u8]) -> (chunks: Vec<Vec<u8>>)
    requires
        data@.len() >= 12,
    ensures
        chunks@.len() == canvas_chunks(data@).len(),
        forall|i: int| 0 <= i < chunks@.len() ==> #[trigger] chunks@[i]@ == canvas_chunks(data@)[i],
{
    let mut pos: usize = 12;
    let mut chunks: Vec<Vec<u8>> = Vec::new();
    let ghost all = canvas_chunks(data@);
    while data.len() - pos >= 4
        invariant_except_break
            12 <= pos <= data@.len(),
            all == chunks@.map_values(|c: Vec<u8>| c@) + chunks_from(data@, pos as int),
        ensures
            all == chunks@.map_values(|c: Vec<u8>| c@),
        decreases data@.len() - pos,
    {
        let chunk_len = read_le_u32(data, pos) as usize;
        let start = pos + 4;
        if chunk_len > data.len() - start {
            assert(chunks_from(data@, pos as int) =~= Seq::<Seq<u8>>::empty());
            assert(all =~= chunks@.map_values(|c: Vec<u8>| c@));
            break;
        }
        let chunk = slice_to_vec(slice_subrange(data, start, start + chunk_len));
        let ghost before = chunks@.map_values(|c: Vec<u8>| c@);
        chunks.push(chunk);
        assert(chunks@.map_values(|c: Vec<u8>| c@) =~= before.push(chunk@));
        assert(chunks_from(data@, pos as int) == seq![chunk@] + chunks_from(data@, (start + chunk_len) as int));
        assert(all =~= chunks@.map_values(|c: Vec<u8>| c@) + chunks_from(data@, (start + chunk_len) as int));
        pos = start + chunk_len;
    }
    proof {
        if data.len() - pos < 4 {
            assert(chunks_from(data@, pos as int) =~= Seq::<Seq<u8>>::empty());
            assert(all =~= chunks@.map_values(|c: Vec<u8>| c@));
        }
        assert forall|i: int| 0 <= i < chunks@.len() implies #[trigger] chunks@[i]@ == all[i] by {
            assert(chunks@.map_values(|c: Vec<u8>| c@)[i] == chunks@[i]@);
        }
    }
    chunks
}

/// Parse `canvas.fig`: check the header, split the chunks, decompress the
/// schema (chunk 0) and the message (chunk 1).
pub fn parse_canvas_fig(data: &[u8]) -> (r: Result<DecompressedCanvasFig, ParseError>)
    ensures
        data@.len() < 12 ==> r == Err::<DecompressedCanvasFig, ParseError>(ParseError::Other(CanvasError::TooSmall)),
        data@.len() >= 12 && canvas_chunks(data@).len() < 2 ==> r == Err::<DecompressedCanvasFig, ParseError>(
            ParseError::Other(CanvasError::TooFewChunks(canvas_chunks(data@).len() as usize))),
        r is Ok <==> canvas_outcome_ok(data@),
        r matches Err(e) ==> canvas_failure(data@, e),
        r matches Ok(c) ==> {
            &&& c.prelude@ == utf8_lossy(data@.subrange(0, 8))
            &&& c.version as int == le_u32(data@, 8)
            &&& c.schema_bytes@ == raw_inflate(canvas_chunks(data@)[0])->Ok_0
            &&& c.message_bytes@ == message_decompressed(canvas_chunks(data@)[1])->Ok_0
        },
{
    if data.len() < 12 {
        return Err(ParseError::Other(CanvasError::TooSmall));
    }
    let prelude = from_utf8_lossy(slice_subrange(data, 0, 8));
    let version = read_le_u32(data, 8);
    let chunks = split_chunks(data);
    if chunks.len() < 2 {
        return Err(ParseError::Other(CanvasError::TooFewChunks(chunks.len())));
    }
    let schema_bytes = decompress_deflate_raw(chunks[0].as_slice())?;
    let message_bytes = decompress_message(chunks[1].as_slice())?;
    Ok(DecompressedCanvasFig { prelude, version, schema_bytes, message_bytes })
}

/// The chunks found from `pos` on are found again, in the same places, when
/// more bytes follow the data.
proof fn lemma_chunks_prefix(data: Seq<u8>, tail: Seq<u8>, pos: int)
    ensures
        chunks_from(data, pos).len() <= chunks_from(data + tail, pos).len(),
        forall|i: int| 0 <= i < chunks_from(data, pos).len()
            ==> #[trigger] chunks_from(data + tail, pos)[i] == chunks_from(data, pos)[i],
    decreases data.len() - pos,
{
    let d2 = data + tail;
    if 0 <= pos && pos + 4 <= data.len() {
        assert(le_u32(d2, pos) == le_u32(data, pos));
        let n = le_u32(data, pos);
        if pos + 4 + n <= data.len() {
            assert(d2.subrange(pos + 4, pos + 4 + n) =~= data.subrange(pos + 4, pos + 4 + n));
            lemma_chunks_prefix(data, tail, pos + 4 + n);
            let a = chunks_from(data, pos + 4 + n);
            let b = chunks_from(d2, pos + 4 + n);
            assert forall|i: int| 0 <= i < chunks_from(data, pos).len()
                implies #[trigger] chunks_from(d2, pos)[i] == chunks_from(data, pos)[i] by {
                if i > 0 {
                    assert(chunks_from(data, pos)[i] == a[i - 1]);
                    assert(chunks_from(d2, pos)[i] == b[i - 1]);
                }
            }
        }
    }
}

/// Bytes after the first two complete chunks do not change what
/// `parse_canvas_fig` gives: the header, the schema chunk and the message
/// chunk are the same, and so is every outcome.
pub proof fn law_canvas_ignores_trailing_bytes(data: Seq<u8>, tail: Seq<u8>)
    requires
        data.len() >= 12,
        canvas_chunks(data).len() >= 2,
    ensures
        (data + tail).len() >= 12,
        canvas_chunks(data + tail).len() >= 2,
        canvas_chunks(data + tail)[0] == canvas_chunks(data)[0],
        canvas_chunks(data + tail)[1] == canvas_chunks(data)[1],
        (data + tail).subrange(0, 8) == data.subrange(0, 8),
        le_u32(data + tail, 8) == le_u32(data, 8),
        canvas_outcome_ok(data + tail) == canvas_outcome_ok(data),
        forall|e: ParseError| canvas_failure(data + tail, e) == canvas_failure(data, e),
{
    let d2 = data + tail;
    lemma_chunks_prefix(data, tail, 12);
    assert(canvas_chunks(d2)[0] == canvas_chunks(data)[0]);
    assert(canvas_chunks(d2)[1] == canvas_chunks(data)[1]);
    assert(d2.subrange(0, 8) =~= data.subrange(0, 8));
}

} // verus!
