//! Kiwi decoding of the two payloads of `canvas.fig`, straight into the
//! document.

use vstd::prelude::*;
use crate::document::{build_document, entry_names, is_built_document};
use crate::error::{KiwiError, ParseError};
use crate::fastkiwi::{decode_message, decode_root};
use crate::meta::{MetaFields, MetaView};
use crate::schema::{Schema, kiwi_schema_decoded};
use crate::types::FigDocument;

verus! {

/// The result of decoding a schema and a message and building the document:
/// the schema decoder's rejection, a schema too large to name its types, the
/// message decoder's error, or the document built from the decoded message.
pub open spec fn extract_outcome(
    schema_bytes: Seq<u8>,
    message_bytes: Seq<u8>,
    meta: MetaView,
    thumbnail: Seq<u8>,
    image_names: Seq<Seq<char>>,
    prelude: Seq<char>,
    version: u32,
    r: Result<FigDocument, ParseError>,
) -> bool {
    match kiwi_schema_decoded(schema_bytes) {
        None => r == Err::<FigDocument, ParseError>(ParseError::SchemaDecode(KiwiError::SchemaRejected)),
        Some(defs) => if defs.len() > i32::MAX {
            r == Err::<FigDocument, ParseError>(ParseError::SchemaDecode(KiwiError::TooManyDefinitions))
        } else {
            match decode_message(defs, message_bytes) {
                Err(e) => (r matches Err(ParseError::SchemaDecode(k)) && k@ == e),
                Ok(root) => (r matches Ok(doc) && is_built_document(
                    doc,
                    root,
                    defs.len() as usize,
                    meta,
                    thumbnail,
                    image_names,
                    prelude,
                    version,
                )),
            }
        },
    }
}

/// Decode the schema and the message, then build the document from the
/// decoded root message.
pub fn decode_and_extract(
    schema_bytes: &[u8],
    message_bytes: &[u8],
    meta: &MetaFields,
    thumbnail: &[u8],
    images: &Vec<(String, Vec<u8>)>,
    prelude: &str,
    version: u32,
) -> (r: Result<FigDocument, ParseError>)
    ensures
        extract_outcome(schema_bytes@, message_bytes@, meta@, thumbnail@, entry_names(images@), prelude@, version, r),
{
    let schema = match Schema::decode(schema_bytes) {
        Ok(s) => s,
        Err(e) => return Err(ParseError::SchemaDecode(e)),
    };
    let schema_def_count = schema.def_count();
    if schema_def_count > 0x7fff_ffff {
        return Err(ParseError::SchemaDecode(KiwiError::TooManyDefinitions));
    }
    match decode_root(&schema, message_bytes) {
        Ok(root) => build_document(&root, schema_def_count, meta, thumbnail, images, prelude, version),
        Err(e) => Err(ParseError::SchemaDecode(e)),
    }
}

} // verus!
