//! Error types for the `.fig` parsing pipeline.
//!
//! Variants carry the facts of the failure as plain values; `message`
//! renders the wording that is shown for each.

use vstd::prelude::*;
use crate::session::{dec_text, push_dec};
use crate::text::{owned, push_str};

verus! {

/// Why Kiwi schema or message decoding stopped.
#[derive(Debug, Clone, PartialEq, Eq)]
pub enum KiwiError {
    /// The schema bytes were rejected by the schema decoder.
    SchemaRejected,
    /// The message ended inside a value.
    UnexpectedEnd,
    /// A bool byte other than 0 or 1.
    InvalidBool,
    /// A var-float whose first byte is not zero but has fewer than three bytes after it.
    TruncatedFloat,
    /// A string without its terminating zero byte.
    UnterminatedString,
    /// A byte array longer than what is left of the message.
    TruncatedByteArray,
    /// A primitive read was asked for a type id that is not primitive.
    NonPrimitiveId(i32),
    /// A primitive skip was asked for a type id that is not primitive.
    BadSkipId(i32),
    /// A primitive array skip was asked for a type id that is not primitive.
    BadSkipArrayId(i32),
    /// A message field id that the message definition does not declare, met while skipping.
    UnknownFieldWhileSkipping { id: u32, message: String },
    /// An enum value that the enum definition does not declare.
    UnknownEnumValue { value: u32, def_name: String },
    /// A message field id that the message definition does not declare.
    UnknownField { id: u32, message: String },
    /// The schema has no definitions at all.
    NoRootType,
    /// A type id that names no definition of the schema.
    BadTypeId(i32),
    /// Struct definitions nest into each other at one position without
    /// consuming a byte: decoding would never end.
    EndlessNesting,
    /// The schema has more definitions than a type id (`i32`) can name.
    TooManyDefinitions,
}

/// The mathematical content of a `KiwiError`.
pub enum KErr {
    SchemaRejected,
    UnexpectedEnd,
    InvalidBool,
    TruncatedFloat,
    UnterminatedString,
    TruncatedByteArray,
    NonPrimitiveId(i32),
    BadSkipId(i32),
    BadSkipArrayId(i32),
    UnknownFieldWhileSkipping { id: u32, message: Seq<char> },
    UnknownEnumValue { value: u32, def_name: Seq<char> },
    UnknownField { id: u32, message: Seq<char> },
    NoRootType,
    BadTypeId(i32),
    EndlessNesting,
    TooManyDefinitions,
}

impl View for KiwiError {
    type V = KErr;

    open spec fn view(&self) -> KErr {
        match self {
            KiwiError::SchemaRejected => KErr::SchemaRejected,
            KiwiError::UnexpectedEnd => KErr::UnexpectedEnd,
            KiwiError::InvalidBool => KErr::InvalidBool,
            KiwiError::TruncatedFloat => KErr::TruncatedFloat,
            KiwiError::UnterminatedString => KErr::UnterminatedString,
            KiwiError::TruncatedByteArray => KErr::TruncatedByteArray,
            KiwiError::NonPrimitiveId(t) => KErr::NonPrimitiveId(*t),
            KiwiError::BadSkipId(t) => KErr::BadSkipId(*t),
            KiwiError::BadSkipArrayId(t) => KErr::BadSkipArrayId(*t),
            KiwiError::UnknownFieldWhileSkipping { id, message } => KErr::UnknownFieldWhileSkipping { id: *id, message: message@ },
            KiwiError::UnknownEnumValue { value, def_name } => KErr::UnknownEnumValue { value: *value, def_name: def_name@ },
            KiwiError::UnknownField { id, message } => KErr::UnknownField { id: *id, message: message@ },
            KiwiError::NoRootType => KErr::NoRootType,
            KiwiError::BadTypeId(t) => KErr::BadTypeId(*t),
            KiwiError::EndlessNesting => KErr::EndlessNesting,
            KiwiError::TooManyDefinitions => KErr::TooManyDefinitions,
        }
    }
}

/// Failures of the container layer (outside the Kiwi payload).
#[derive(Debug, Clone, PartialEq, Eq)]
pub enum CanvasError {
    /// `canvas.fig` is shorter than its 12-byte header.
    TooSmall,
    /// Fewer than two complete chunks follow the header.
    TooFewChunks(usize),
}

/// Errors that can occur while parsing a `.fig` file.
#[derive(Debug, Clone, PartialEq, Eq)]
pub enum ParseError {
    Zip(String),
    Io(String),
    SchemaDecode(KiwiError),
    MessageDecode(String),
    InvalidPrelude(String),
    Zstd(String),
    Deflate(String),
    MissingEntry(String),
    MetaJson(String),
    Other(CanvasError),
}

/// A signed number in decimal, with a leading `-` when negative.
pub open spec fn signed_text(i: int) -> Seq<char> {
    if i < 0 { seq!['-'] + dec_text((-i) as nat) } else { dec_text(i as nat) }
}

fn push_signed(out: &mut String, i: i32)
    ensures
        final(out)@ == old(out)@ + signed_text(i as int),
{
    if i < 0 {
        push_str(out, "-");
        push_dec(out, (-(i as i64)) as u64);
        proof {
            reveal_strlit("-");
            assert(final(out)@ =~= old(out)@ + signed_text(i as int));
        }
    } else {
        push_dec(out, i as u64);
    }
}

/// The wording of a Kiwi decoding failure.
pub open spec fn kiwi_message_text(e: KErr) -> Seq<char> {
    match e {
        KErr::SchemaRejected => "failed to decode kiwi schema"@,
        KErr::UnexpectedEnd => "unexpected end of kiwi message"@,
        KErr::InvalidBool => "invalid bool byte"@,
        KErr::TruncatedFloat => "truncated float"@,
        KErr::UnterminatedString => "unterminated string"@,
        KErr::TruncatedByteArray => "truncated byte array"@,
        KErr::NonPrimitiveId(t) => "read_primitive called with non-primitive id "@ + signed_text(t as int),
        KErr::BadSkipId(t) => "skip_primitive: bad id "@ + signed_text(t as int),
        KErr::BadSkipArrayId(t) => "skip_primitive array: bad id "@ + signed_text(t as int),
        KErr::UnknownFieldWhileSkipping { id, message } =>
            "unknown field id "@ + dec_text(id as nat) + " while skipping message "@ + message,
        KErr::UnknownEnumValue { value, def_name } =>
            "unknown enum value "@ + dec_text(value as nat) + " for "@ + def_name,
        KErr::UnknownField { id, message } =>
            "unknown field id "@ + dec_text(id as nat) + " in message "@ + message,
        KErr::NoRootType => "No root type found in schema"@,
        KErr::BadTypeId(t) => "type id "@ + signed_text(t as int) + " names no definition"@,
        KErr::EndlessNesting => "struct definitions nest without end"@,
        KErr::TooManyDefinitions => "schema has more definitions than a type id can name"@,
    }
}

/// The wording of a parse failure.
pub open spec fn parse_message_text(e: ParseError) -> Seq<char> {
    match e {
        ParseError::Zip(m) => "Failed to open ZIP archive: "@ + m@,
        ParseError::Io(m) => "I/O error: "@ + m@,
        ParseError::SchemaDecode(k) => "Schema decode failed: "@ + kiwi_message_text(k@),
        ParseError::MessageDecode(m) => "Message decode failed: "@ + m@,
        ParseError::InvalidPrelude(p) => "Invalid or missing prelude: expected 'fig-kiwi', got '"@ + p@ + "'"@,
        ParseError::Zstd(m) => "Zstandard decompression failed: "@ + m@,
        ParseError::Deflate(m) => "Deflate decompression failed: "@ + m@,
        ParseError::MissingEntry(m) => "Missing required ZIP entry: "@ + m@,
        ParseError::MetaJson(m) => "JSON parse error in meta.json: "@ + m@,
        ParseError::Other(CanvasError::TooSmall) => "canvas.fig too small (< 12 bytes)"@,
        ParseError::Other(CanvasError::TooFewChunks(n)) => "Expected at least 2 chunks, got "@ + dec_text(n as nat),
    }
}

impl KiwiError {
    /// The message shown for this failure.
    pub fn message(&self) -> (r: String)
        ensures
            r@ == kiwi_message_text(self@),
    {
        match self {
            KiwiError::SchemaRejected => owned("failed to decode kiwi schema"),
            KiwiError::UnexpectedEnd => owned("unexpected end of kiwi message"),
            KiwiError::InvalidBool => owned("invalid bool byte"),
            KiwiError::TruncatedFloat => owned("truncated float"),
            KiwiError::UnterminatedString => owned("unterminated string"),
            KiwiError::TruncatedByteArray => owned("truncated byte array"),
            KiwiError::NonPrimitiveId(t) => {
                let mut out = owned("read_primitive called with non-primitive id ");
                push_signed(&mut out, *t);
                out
            },
            KiwiError::BadSkipId(t) => {
                let mut out = owned("skip_primitive: bad id ");
                push_signed(&mut out, *t);
                out
            },
            KiwiError::BadSkipArrayId(t) => {
                let mut out = owned("skip_primitive array: bad id ");
                push_signed(&mut out, *t);
                out
            },
            KiwiError::UnknownFieldWhileSkipping { id, message } => {
                let mut out = owned("unknown field id ");
                push_dec(&mut out, *id as u64);
                push_str(&mut out, " while skipping message ");
                push_str(&mut out, message.as_str());
                out
            },
            KiwiError::UnknownEnumValue { value, def_name } => {
                let mut out = owned("unknown enum value ");
                push_dec(&mut out, *value as u64);
                push_str(&mut out, " for ");
                push_str(&mut out, def_name.as_str());
                out
            },
            KiwiError::UnknownField { id, message } => {
                let mut out = owned("unknown field id ");
                push_dec(&mut out, *id as u64);
                push_str(&mut out, " in message ");
                push_str(&mut out, message.as_str());
                out
            },
            KiwiError::NoRootType => owned("No root type found in schema"),
            KiwiError::BadTypeId(t) => {
                let mut out = owned("type id ");
                push_signed(&mut out, *t);
                push_str(&mut out, " names no definition");
                out
            },
            KiwiError::EndlessNesting => owned("struct definitions nest without end"),
            KiwiError::TooManyDefinitions => owned("schema has more definitions than a type id can name"),
        }
    }
}

fn prefixed(prefix: &str, m: &String) -> (r: String)
    ensures
        r@ == prefix@ + m@,
{
    let mut out = owned(prefix);
    push_str(&mut out, m.as_str());
    out
}

impl ParseError {
    /// The message shown for this failure.
    pub fn message(&self) -> (r: String)
        ensures
            r@ == parse_message_text(*self),
    {
        match self {
            ParseError::Zip(m) => prefixed("Failed to open ZIP archive: ", m),
            ParseError::Io(m) => prefixed("I/O error: ", m),
            ParseError::SchemaDecode(k) => {
                let km = k.message();
                prefixed("Schema decode failed: ", &km)
            },
            ParseError::MessageDecode(m) => prefixed("Message decode failed: ", m),
            ParseError::InvalidPrelude(p) => {
                let mut out = prefixed("Invalid or missing prelude: expected 'fig-kiwi', got '", p);
                push_str(&mut out, "'");
                out
            },
            ParseError::Zstd(m) => prefixed("Zstandard decompression failed: ", m),
            ParseError::Deflate(m) => prefixed("Deflate decompression failed: ", m),
            ParseError::MissingEntry(m) => prefixed("Missing required ZIP entry: ", m),
            ParseError::MetaJson(m) => prefixed("JSON parse error in meta.json: ", m),
            ParseError::Other(CanvasError::TooSmall) => owned("canvas.fig too small (< 12 bytes)"),
            ParseError::Other(CanvasError::TooFewChunks(n)) => {
                let mut out = owned("Expected at least 2 chunks, got ");
                push_dec(&mut out, *n as u64);
                out
            },
        }
    }
}

} // verus!
