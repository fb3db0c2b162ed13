//! The ways in which reading an MCAP file can fail.

use vstd::prelude::*;

verus! {

/// `std::io::Error`, which the reader passes on and never looks into.
#[verifier::external_type_specification]
#[verifier::external_body]
pub struct ExIoError(std::io::Error);

/// `core::str::Utf8Error`, which the reader passes on and never looks into.
#[verifier::external_type_specification]
#[verifier::external_body]
pub struct ExUtf8Error(core::str::Utf8Error);

/// What is wrong with the contents of a record, and where in the record.
#[derive(Debug)]
pub enum ParseError {
    /// The record ends inside the field that starts at `pos`.
    UnexpectedEnd { pos: u64 },
    /// The text that starts at `pos` is not UTF-8.
    Utf8 { pos: u64, err: core::str::Utf8Error },
}

#[allow(inconsistent_fields)]
#[derive(Debug)]
pub enum McapError {
    /// The base reader was asked for while the named reader stood in its place.
    AccessBaseReader(&'static str),
    /// The start or the end of the stream is not the MCAP magic.
    BadMagic,
    /// The stream ended inside a record's opcode and length.
    UnexpectedEof,
    /// A record says that it is shorter than what it has to hold.
    RecordTooShort { opcode: u8, len: u64, expected: u64 },
    /// A chunk says that it is longer than the record that it stands in.
    BadChunkLength { header: u64, available: u64 },
    /// A chunk is compressed in a way that the reader does not know.
    UnsupportedCompression(String),
    /// A record of another kind stands where one of the expected kind should.
    UnexpectedRecord { expected: u8, recieved: u8 },
    /// The contents of a record make no sense.
    Parse(ParseError),
    /// The input failed.
    Io(std::io::Error),
}

pub type McapResult<T> = Result<T, McapError>;

/// An error as specifications see it: texts are sequences of characters.
#[allow(inconsistent_fields)]
pub enum ErrorView {
    AccessBaseReader(Seq<char>),
    BadMagic,
    UnexpectedEof,
    RecordTooShort { opcode: u8, len: u64, expected: u64 },
    BadChunkLength { header: u64, available: u64 },
    UnsupportedCompression(Seq<char>),
    UnexpectedRecord { expected: u8, recieved: u8 },
    UnexpectedEnd { pos: u64 },
    Utf8 { pos: u64, err: core::str::Utf8Error },
    Io(std::io::Error),
}

impl View for McapError {
    type V = ErrorView;

    open spec fn view(&self) -> ErrorView {
        match *self {
            McapError::AccessBaseReader(name) => ErrorView::AccessBaseReader(name@),
            McapError::BadMagic => ErrorView::BadMagic,
            McapError::UnexpectedEof => ErrorView::UnexpectedEof,
            McapError::RecordTooShort { opcode, len, expected } => ErrorView::RecordTooShort {
                opcode,
                len,
                expected,
            },
            McapError::BadChunkLength { header, available } => ErrorView::BadChunkLength {
                header,
                available,
            },
            McapError::UnsupportedCompression(name) => ErrorView::UnsupportedCompression(name@),
            McapError::UnexpectedRecord { expected, recieved } => ErrorView::UnexpectedRecord {
                expected,
                recieved,
            },
            McapError::Parse(ParseError::UnexpectedEnd { pos }) => ErrorView::UnexpectedEnd { pos },
            McapError::Parse(ParseError::Utf8 { pos, err }) => ErrorView::Utf8 { pos, err },
            McapError::Io(err) => ErrorView::Io(err),
        }
    }
}

} // verus!
