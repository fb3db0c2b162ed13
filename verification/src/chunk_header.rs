//! The header of a chunk record, read piece by piece.
//!
//! The header stands at the start of a chunk record:
//!
//! ```text
//! message start time    8 bytes
//! message end time      8 bytes
//! uncompressed size     8 bytes
//! uncompressed CRC      4 bytes
//! compression length    4 bytes
//! compression           as many bytes as the length says
//! compressed size       8 bytes
//! ```
//!
//! How much there is to read is known only once the compression length is known, so the header
//! comes in three pieces, and each piece is looked at before the next one is asked for.

use crate::codec::{le_u32, le_u64, u32_at, u64_at, utf8_error};
use crate::error::{ErrorView, McapError, McapResult, ParseError};
use crate::records::{op, ChunkHeader};
use vstd::prelude::*;
use vstd::utf8::{decode_utf8, valid_utf8};

verus! {

/// The length of a chunk header whose compression is the empty text.
pub const MIN_LEN: u64 = 40;

/// The length of the first piece, which is also where the compression starts.
pub const FIXED_LEN: u64 = 32;

/// The length of the last piece.
pub const SIZE_LEN: u64 = 8;

/// What the first piece of a chunk header says.
#[derive(Debug, Clone, Copy)]
pub struct FixedPart {
    pub message_start_time: u64,
    pub message_end_time: u64,
    pub uncompressed_size: u64,
    pub uncompressed_crc: u32,
    pub compression_len: u32,
}

/// The piece of a chunk header that is to be read next, and what the pieces before it said.
#[derive(Debug)]
pub enum Piece<S = String> {
    Fixed,
    Compression { fixed: FixedPart },
    /// A compression that is too long for the record. The buffer is made as long as the compression
    /// says, but nothing is read.
    Overlong { compression_len: u32 },
    Size { fixed: FixedPart, compression: S },
}

impl View for Piece {
    type V = Piece<Seq<char>>;

    open spec fn view(&self) -> Piece<Seq<char>> {
        match *self {
            Piece::Fixed => Piece::Fixed,
            Piece::Compression { fixed } => Piece::Compression { fixed },
            Piece::Overlong { compression_len } => Piece::Overlong { compression_len },
            Piece::Size { fixed, compression } => Piece::Size { fixed, compression: compression@ },
        }
    }
}

impl<S> Piece<S> {
    /// The number of bytes in the piece.
    pub open spec fn spec_len(&self) -> u64 {
        match *self {
            Piece::Fixed => FIXED_LEN,
            Piece::Compression { fixed } => fixed.compression_len as u64,
            Piece::Overlong { compression_len } => compression_len as u64,
            Piece::Size { .. } => SIZE_LEN,
        }
    }

    /// The number of bytes in the piece.
    #[verifier::when_used_as_spec(spec_len)]
    pub fn len(&self) -> (len: u64)
        ensures
            len == self.spec_len(),
    {
        match self {
            Piece::Fixed => FIXED_LEN,
            Piece::Compression { fixed } => fixed.compression_len as u64,
            Piece::Overlong { compression_len } => *compression_len as u64,
            Piece::Size { .. } => SIZE_LEN,
        }
    }

    /// Whether the record is long enough for what was read of the header so far, but for a
    /// compression that is too long.
    pub open spec fn fits(self, record_len: u64) -> bool {
        match self {
            Piece::Fixed => record_len >= MIN_LEN,
            Piece::Compression { fixed } => record_len >= MIN_LEN + fixed.compression_len,
            Piece::Overlong { compression_len } => {
                MIN_LEN <= record_len < MIN_LEN + compression_len
            },
            Piece::Size { fixed, .. } => record_len >= MIN_LEN + fixed.compression_len,
        }
    }
}

/// What comes after a piece: another one, or the whole header.
#[derive(Debug)]
pub enum Progress<S = String> {
    Next(Piece<S>),
    Complete(ChunkHeader<S>),
}

impl View for Progress {
    type V = Progress<Seq<char>>;

    open spec fn view(&self) -> Progress<Seq<char>> {
        match *self {
            Progress::Next(piece) => Progress::Next(piece@),
            Progress::Complete(header) => Progress::Complete(header@),
        }
    }
}

/// What the first piece of a chunk header says if it consists of `bytes`.
pub open spec fn fixed_part(bytes: Seq<u8>) -> FixedPart {
    FixedPart {
        message_start_time: le_u64(bytes.subrange(0, 8)),
        message_end_time: le_u64(bytes.subrange(8, 16)),
        uncompressed_size: le_u64(bytes.subrange(16, 24)),
        uncompressed_crc: le_u32(bytes.subrange(24, 28)),
        compression_len: le_u32(bytes.subrange(28, 32)),
    }
}

/// The header that `fixed`, `compression` and the compressed size make up.
pub open spec fn assembled(
    fixed: FixedPart,
    compression: Seq<char>,
    compressed_size: u64,
) -> ChunkHeader<Seq<char>> {
    ChunkHeader {
        message_start_time: fixed.message_start_time,
        message_end_time: fixed.message_end_time,
        uncompressed_size: fixed.uncompressed_size,
        uncompressed_crc: fixed.uncompressed_crc,
        compression,
        compressed_size,
    }
}

/// What comes first in the header of a chunk record with `record_len` bytes: such a record is too
/// short if it cannot hold even the shortest header.
pub open spec fn first_piece(record_len: u64) -> Result<Piece<Seq<char>>, ErrorView> {
    if record_len < MIN_LEN {
        Err(ErrorView::RecordTooShort { opcode: op::CHUNK, len: record_len, expected: MIN_LEN })
    } else {
        Ok(Piece::Fixed)
    }
}

/// What comes after `piece` if it consists of `bytes`.
///
/// The record has to be long enough for the compression, the compression has to be UTF-8, and the
/// chunk may not be longer than what the header leaves of the record. A record that is too short
/// for the compression is refused after the buffer was made as long as the compression.
pub open spec fn after_piece(
    record_len: u64,
    piece: Piece<Seq<char>>,
    bytes: Seq<u8>,
) -> Result<Progress<Seq<char>>, ErrorView> {
    match piece {
        Piece::Fixed => {
            let fixed = fixed_part(bytes);
            if record_len < MIN_LEN + fixed.compression_len {
                Ok(Progress::Next(Piece::Overlong { compression_len: fixed.compression_len }))
            } else {
                Ok(Progress::Next(Piece::Compression { fixed }))
            }
        },
        Piece::Overlong { compression_len } => {
            let expected = (MIN_LEN + compression_len) as u64;
            Err(ErrorView::RecordTooShort { opcode: op::CHUNK, len: record_len, expected })
        },
        Piece::Compression { fixed } => {
            if valid_utf8(bytes) {
                Ok(Progress::Next(Piece::Size { fixed, compression: decode_utf8(bytes) }))
            } else {
                Err(ErrorView::Utf8 { pos: FIXED_LEN, err: utf8_error(bytes) })
            }
        },
        Piece::Size { fixed, compression } => {
            let compressed_size = le_u64(bytes);
            let available = (record_len - MIN_LEN - fixed.compression_len) as u64;
            if available < compressed_size {
                Err(ErrorView::BadChunkLength { header: compressed_size, available })
            } else {
                Ok(Progress::Complete(assembled(fixed, compression, compressed_size)))
            }
        },
    }
}

/// `result` as specifications see it.
pub open spec fn piece_view(result: McapResult<Piece>) -> Result<Piece<Seq<char>>, ErrorView> {
    match result {
        Ok(piece) => Ok(piece@),
        Err(err) => Err(err@),
    }
}

/// `result` as specifications see it.
pub open spec fn progress_view(result: McapResult<Progress>) -> Result<
    Progress<Seq<char>>,
    ErrorView,
> {
    match result {
        Ok(progress) => Ok(progress@),
        Err(err) => Err(err@),
    }
}

/// Starts to read the header of a chunk record with `record_len` bytes.
pub fn read_chunk_header(record_len: u64) -> (first: McapResult<Piece>)
    ensures
        piece_view(first) == first_piece(record_len),
        first matches Ok(piece) ==> piece@.fits(record_len),
{
    if record_len < MIN_LEN {
        return Err(
            McapError::RecordTooShort { opcode: op::CHUNK, len: record_len, expected: MIN_LEN },
        );
    }
    Ok(Piece::Fixed)
}

impl Piece {
    /// Goes on with the header of a chunk record with `record_len` bytes, now that the piece was
    /// read and consists of `bytes`.
    pub fn advance(self, record_len: u64, bytes: &[u8]) -> (progress: McapResult<Progress>)
        requires
            self@.fits(record_len),
            !(self is Overlong) ==> bytes@.len() == self@.len(),
        ensures
            progress_view(progress) == after_piece(record_len, self@, bytes@),
            progress matches Ok(Progress::Next(piece)) ==> piece@.fits(record_len),
    {
        match self {
            Piece::Fixed => {
                let fixed = FixedPart {
                    message_start_time: u64_at(bytes, 0),
                    message_end_time: u64_at(bytes, 8),
                    uncompressed_size: u64_at(bytes, 16),
                    uncompressed_crc: u32_at(bytes, 24),
                    compression_len: u32_at(bytes, 28),
                };
                if record_len < MIN_LEN + fixed.compression_len as u64 {
                    let compression_len = fixed.compression_len;
                    return Ok(Progress::Next(Piece::Overlong { compression_len }));
                }
                Ok(Progress::Next(Piece::Compression { fixed }))
            },
            Piece::Overlong { compression_len } => {
                let expected: u64 = MIN_LEN + compression_len as u64;
                Err(McapError::RecordTooShort { opcode: op::CHUNK, len: record_len, expected })
            },
            Piece::Compression { fixed } => {
                match core::str::from_utf8(bytes) {
                    Ok(text) => {
                        let compression = text.to_owned();
                        Ok(Progress::Next(Piece::Size { fixed, compression }))
                    },
                    Err(err) => Err(McapError::Parse(ParseError::Utf8 { pos: FIXED_LEN, err })),
                }
            },
            Piece::Size { fixed, compression } => {
                let compressed_size = u64_at(bytes, 0);
                assert(bytes@.subrange(0, 8) =~= bytes@);
                let available: u64 = record_len - MIN_LEN - fixed.compression_len as u64;
                if available < compressed_size {
                    return Err(
                        McapError::BadChunkLength { header: compressed_size, available },
                    );
                }
                Ok(
                    Progress::Complete(
                        ChunkHeader {
                            message_start_time: fixed.message_start_time,
                            message_end_time: fixed.message_end_time,
                            uncompressed_size: fixed.uncompressed_size,
                            uncompressed_crc: fixed.uncompressed_crc,
                            compression,
                            compressed_size,
                        },
                    ),
                )
            },
        }
    }
}

} // verus!
