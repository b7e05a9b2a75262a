//! Parser for Figma `.fig` files: the container layout, the Kiwi wire format,
//! schema-directed message decoding, baked geometry blobs and the document tree.
//!
//! Single-precision numbers never appear as floats here: a value that is an
//! `f32` on the wire is carried as its IEEE-754 bit pattern (`u32`).

pub mod types;
pub mod text;
pub mod error;
pub mod binary;
pub mod wire;
pub mod schema;
pub mod fastkiwi;
pub mod geometry;
pub mod nodes;
pub mod document;
pub mod tree;
pub mod meta;
pub mod kiwi;
pub mod archive;
pub mod svg;
pub mod session;
pub mod scene;

use vstd::prelude::*;
use crate::archive::{fault_error, FigArchive, images_view, read_archive, scan_entries, zip_entry_count};
use crate::binary::{canvas_chunks, canvas_failure, canvas_outcome_ok, le_u32, message_decompressed, parse_canvas_fig, raw_inflate, utf8_lossy};
use crate::document::entry_names;
use crate::error::ParseError;
use crate::kiwi::{decode_and_extract, extract_outcome};
use crate::meta::{meta_of, read_meta};
use crate::types::FigDocument;

verus! {

/// The result of parsing a container's parts: the meta JSON's error, the
/// canvas payload's error, or the outcome of decoding its two chunks.
pub open spec fn parts_outcome(
    canvas: Seq<u8>,
    meta_json: Seq<u8>,
    thumbnail: Seq<u8>,
    image_names: Seq<Seq<char>>,
    r: Result<FigDocument, ParseError>,
) -> bool {
    match meta_of(meta_json) {
        Err(t) => (r matches Err(ParseError::MetaJson(s)) && s@ == t),
        Ok(m) => if !canvas_outcome_ok(canvas) {
            (r matches Err(e) && canvas_failure(canvas, e))
        } else {
            extract_outcome(
                raw_inflate(canvas_chunks(canvas)[0])->Ok_0,
                message_decompressed(canvas_chunks(canvas)[1])->Ok_0,
                m,
                thumbnail,
                image_names,
                utf8_lossy(canvas.subrange(0, 8)),
                le_u32(canvas, 8) as u32,
                r,
            )
        },
    }
}

/// Parse the parts of an opened container into a document.
pub fn parse_archive(archive: FigArchive) -> (r: Result<FigDocument, ParseError>)
    ensures
        parts_outcome(
            archive.canvas_fig@,
            archive.meta_json@,
            archive.thumbnail@,
            entry_names(archive.images@),
            r,
        ),
{
    let meta = read_meta(archive.meta_json.as_slice())?;
    let decompressed = parse_canvas_fig(archive.canvas_fig.as_slice())?;
    decode_and_extract(
        decompressed.schema_bytes.as_slice(),
        decompressed.message_bytes.as_slice(),
        &meta,
        archive.thumbnail.as_slice(),
        &archive.images,
        decompressed.prelude.as_str(),
        decompressed.version,
    )
}

/// Parse a `.fig` file held in memory.
pub fn parse_bytes(data: &[u8]) -> (r: Result<FigDocument, ParseError>)
    ensures
        match zip_entry_count(data@) {
            Err(t) => (r matches Err(ParseError::Zip(s)) && s@ == t),
            Ok(n) => match scan_entries(data@, n as nat) {
                Err(f) => (r matches Err(e) && fault_error(f, e)),
                Ok(p) => match p.canvas {
                    None => (r matches Err(ParseError::MissingEntry(m)) && m@ == "canvas.fig"@),
                    Some(c) => parts_outcome(
                        c,
                        p.meta,
                        p.thumbnail,
                        p.images.map_values(|e: (Seq<char>, Seq<u8>)| e.0),
                        r,
                    ),
                },
            },
        },
{
    let archive = read_archive(data)?;
    proof {
        assert(entry_names(archive.images@) =~= images_view(archive.images@).map_values(
            |e: (Seq<char>, Seq<u8>)| e.0,
        ));
    }
    parse_archive(archive)
}

} // verus!
