//! Reading an MCAP file record by record.
//!
//! A host reads one record like this: it calls [`RecordReader::next_record`] and then does what the
//! [`Step`] that it got says, until that is [`Step::Done`].
//!
//! - [`Step::Await`]: perform the read that the [`Pending`] asks for, on the reader that
//!   [`RecordReader::reader_and_scratch`] gives, and call [`RecordReader::resume`].
//! - [`Step::OpenChunk`]: build the reader of the chunk on top of the base reader, and call
//!   [`RecordReader::chunk_opened`].
//! - [`Step::CloseChunk`]: get the base reader back out of the reader of the chunk, and call
//!   [`RecordReader::chunk_closed`].

use crate::chunk_header::{
    after_piece, first_piece, read_chunk_header, Piece, Progress, MIN_LEN,
};
use crate::codec::{le_u64, u64_at};
use crate::error::{ErrorView, McapError, McapResult};
use crate::parse::{parse_record, parsed};
use crate::records::{op, ChunkHeader, Footer, Record, RecordView};
use crate::MAGIC;
use vstd::pervasive::unreached;
use vstd::prelude::*;

verus! {

/// The length of the reader's own buffer.
pub const SCRATCH_LEN: usize = 1024;

/// The length of the opcode and the length field that every record starts with.
pub const RECORD_HEADER_LEN: u64 = 9;

/// The length of the footer section of the file in bytes, including the magic bytes.
pub const FOOTER_LEN_BYTES: usize = 1 + 8 + 8 + 8 + 4 + 8;

/// The length of the magic.
pub const MAGIC_LEN: u64 = 8;

#[derive(Debug, Clone, Copy)]
pub struct RecordReaderOptions {
    /// If true, the reader will not expect the MCAP magic at the start of the stream.
    pub skip_start_magic: bool,
    /// If true, the reader will not expect the MCAP magic at the end of the stream.
    pub skip_end_magic: bool,
    /// If true, the reader will yield entire chunk records. Otherwise, the reader will decompress
    /// and read into the chunk, yielding the records inside.
    pub emit_chunks: bool,
}

impl Default for RecordReaderOptions {
    fn default() -> (options: Self)
        ensures
            !options.skip_start_magic,
            !options.skip_end_magic,
            !options.emit_chunks,
    {
        RecordReaderOptions { skip_start_magic: false, skip_end_magic: false, emit_chunks: false }
    }
}

/// Whether `bytes` are the magic.
fn is_magic(bytes: &[u8]) -> (found: bool)
    ensures
        found == (bytes@ == MAGIC@),
{
    if bytes.len() != MAGIC.len() {
        return false;
    }
    let mut i: usize = 0;
    while i < MAGIC.len()
        invariant
            i <= MAGIC@.len(),
            bytes@.len() == MAGIC@.len(),
            forall|j: int| 0 <= j < i ==> bytes@[j] == MAGIC@[j],
        decreases MAGIC@.len() - i,
    {
        if bytes[i] != MAGIC[i] {
            return false;
        }
        i += 1;
    }
    assert(bytes@ =~= MAGIC@);
    true
}

/// A way in which the bytes of a chunk are compressed.
#[derive(Debug, Clone, Copy, PartialEq, Eq, Structural)]
pub enum Compression {
    Zstd,
    Lz4,
}

/// How the bytes of a chunk are compressed if its header names the compression `name`: `Some(None)`
/// if they are not, `None` if the name is unknown.
pub open spec fn compression_named(name: Seq<char>) -> Option<Option<Compression>> {
    if name == "zstd"@ {
        Some(Some(Compression::Zstd))
    } else if name == "lz4"@ {
        Some(Some(Compression::Lz4))
    } else if name == ""@ {
        Some(None)
    } else {
        None
    }
}

fn find_compression(name: &String) -> (compression: Option<Option<Compression>>)
    ensures
        compression == compression_named(name@),
{
    if *name == "zstd".to_owned() {
        Some(Some(Compression::Zstd))
    } else if *name == "lz4".to_owned() {
        Some(Some(Compression::Lz4))
    } else if *name == "".to_owned() {
        Some(None)
    } else {
        None
    }
}

/// The reader that the next bytes come from: the base reader `R`, or the reader of the current
/// chunk, which has the base reader inside it.
#[derive(Debug)]
pub enum ReaderState<R, T, Z, L> {
    Base(R),
    UncompressedChunk(T),
    ZstdChunk(Z),
    Lz4Chunk(L),
    /// No reader, because it was handed out and did not come back.
    Empty,
}

/// Which reader the next bytes come from.
pub enum Source {
    Base,
    UncompressedChunk,
    ZstdChunk,
    Lz4Chunk,
    Empty,
}

impl Source {
    pub open spec fn name(self) -> Seq<char> {
        match self {
            Source::Base => "Base"@,
            Source::UncompressedChunk => "UncompressedChunk"@,
            Source::ZstdChunk => "ZstdChunk"@,
            Source::Lz4Chunk => "Lz4Chunk"@,
            Source::Empty => "Empty"@,
        }
    }

    /// The reader of a chunk with the given compression.
    pub open spec fn of_chunk(compression: Option<Compression>) -> Source {
        match compression {
            None => Source::UncompressedChunk,
            Some(Compression::Zstd) => Source::ZstdChunk,
            Some(Compression::Lz4) => Source::Lz4Chunk,
        }
    }
}

impl<R, T, Z, L> ReaderState<R, T, Z, L> {
    pub open spec fn source(&self) -> Source {
        match *self {
            ReaderState::Base(_) => Source::Base,
            ReaderState::UncompressedChunk(_) => Source::UncompressedChunk,
            ReaderState::ZstdChunk(_) => Source::ZstdChunk,
            ReaderState::Lz4Chunk(_) => Source::Lz4Chunk,
            ReaderState::Empty => Source::Empty,
        }
    }

    pub fn name(&self) -> (name: &'static str)
        ensures
            name@ == self.source().name(),
    {
        match self {
            ReaderState::Base(_) => "Base",
            ReaderState::UncompressedChunk(_) => "UncompressedChunk",
            ReaderState::ZstdChunk(_) => "ZstdChunk",
            ReaderState::Lz4Chunk(_) => "Lz4Chunk",
            ReaderState::Empty => "Empty",
        }
    }

    /// The base reader, if it is at hand. If it is inside the reader of a chunk, that reader comes
    /// back, for the host to get the base reader out of it.
    pub fn into_inner(self) -> (inner: Result<R, Self>)
        requires
            !(self is Empty),
        ensures
            match self {
                ReaderState::Base(reader) => inner == Ok::<R, Self>(reader),
                _ => inner == Err::<R, Self>(self),
            },
    {
        match self {
            ReaderState::Base(reader) => Ok(reader),
            chunk => Err(chunk),
        }
    }
}

/// A read that the reader waits for, and what it has to remember meanwhile.
#[derive(Debug)]
pub enum Pending<S = String> {
    /// The magic at the start of the stream.
    StartMagic,
    /// The magic at the end of the stream.
    EndMagic,
    /// The opcode and the length of a record, of which the first `have` bytes are in the scratch
    /// buffer.
    RecordHeader { have: u64 },
    /// The opcode and the length of a record in a chunk, of which the first `have` bytes are in the
    /// scratch buffer.
    ChunkRecordHeader { have: u64 },
    /// A piece of the header of a chunk record with `record_len` bytes.
    ChunkHeader { record_len: u64, piece: Piece<S> },
    /// The `len` bytes of a record.
    Body { opcode: u8, len: u64 },
    /// `len` bytes after a chunk that are of no use.
    Discard { len: u64 },
}

impl View for Pending {
    type V = Pending<Seq<char>>;

    open spec fn view(&self) -> Pending<Seq<char>> {
        match *self {
            Pending::StartMagic => Pending::StartMagic,
            Pending::EndMagic => Pending::EndMagic,
            Pending::RecordHeader { have } => Pending::RecordHeader { have },
            Pending::ChunkRecordHeader { have } => Pending::ChunkRecordHeader { have },
            Pending::ChunkHeader { record_len, piece } => Pending::ChunkHeader {
                record_len,
                piece: piece@,
            },
            Pending::Body { opcode, len } => Pending::Body { opcode, len },
            Pending::Discard { len } => Pending::Discard { len },
        }
    }
}

/// The read that a host has to perform.
#[derive(Debug, Clone, Copy, PartialEq, Eq, Structural)]
pub enum Request {
    /// Fill the first `len` bytes of the scratch buffer.
    FillScratch { len: u64 },
    /// Read once into the `len` bytes of the scratch buffer that start at `from`. Fewer bytes are
    /// fine, and none mean that the input has ended.
    ReadScratch { from: u64, len: u64 },
    /// Make the caller's buffer `len` bytes long and fill it.
    FillData { len: u64 },
    /// Make the caller's buffer `len` bytes long, and read nothing.
    SizeData { len: u64 },
}

/// How many of a record's first bytes are missing if there are `have` of them.
pub open spec fn spec_head_left(have: u64) -> u64 {
    if have < RECORD_HEADER_LEN {
        (RECORD_HEADER_LEN - have) as u64
    } else {
        0
    }
}

#[verifier::when_used_as_spec(spec_head_left)]
fn head_left(have: u64) -> (left: u64)
    ensures
        left == spec_head_left(have),
{
    if have < RECORD_HEADER_LEN {
        RECORD_HEADER_LEN - have
    } else {
        0
    }
}

impl<S> Pending<S> {
    pub open spec fn spec_request(&self) -> Request {
        match *self {
            Pending::StartMagic => Request::FillScratch { len: MAGIC_LEN },
            Pending::EndMagic => Request::FillScratch { len: MAGIC_LEN },
            Pending::RecordHeader { have } => Request::ReadScratch {
                from: have,
                len: spec_head_left(have),
            },
            Pending::ChunkRecordHeader { have } => Request::ReadScratch {
                from: have,
                len: spec_head_left(have),
            },
            Pending::ChunkHeader { piece: Piece::Overlong { compression_len }, .. } =>
                Request::SizeData { len: compression_len as u64 },
            Pending::ChunkHeader { piece, .. } => Request::FillData { len: piece.len() },
            Pending::Body { len, .. } => Request::FillData { len },
            Pending::Discard { len } => Request::FillScratch { len },
        }
    }

    /// The read to perform.
    #[verifier::when_used_as_spec(spec_request)]
    pub fn request(&self) -> (request: Request)
        ensures
            request == self.spec_request(),
    {
        match self {
            Pending::StartMagic => Request::FillScratch { len: MAGIC_LEN },
            Pending::EndMagic => Request::FillScratch { len: MAGIC_LEN },
            Pending::RecordHeader { have } => Request::ReadScratch {
                from: *have,
                len: head_left(*have),
            },
            Pending::ChunkRecordHeader { have } => Request::ReadScratch {
                from: *have,
                len: head_left(*have),
            },
            Pending::ChunkHeader { piece: Piece::Overlong { compression_len }, .. } =>
                Request::SizeData { len: *compression_len as u64 },
            Pending::ChunkHeader { piece, .. } => Request::FillData { len: piece.len() },
            Pending::Body { len, .. } => Request::FillData { len: *len },
            Pending::Discard { len } => Request::FillScratch { len: *len },
        }
    }
}

/// How a chunk is to be opened.
#[derive(Debug, Clone, Copy)]
pub struct ChunkOpening {
    pub compression: Option<Compression>,
    /// The number of bytes that the chunk takes up in the stream.
    pub compressed_size: u64,
    /// The number of bytes of the chunk record that come after the chunk.
    pub trailing: u64,
}

/// What a host has to do next.
#[derive(Debug)]
pub enum Step<R, T, Z, L> {
    /// Perform a read.
    Await(Pending),
    /// Put the reader of a chunk in front of the base reader.
    OpenChunk(R, ChunkOpening),
    /// Get the base reader back out of the reader of a chunk.
    CloseChunk(ReaderState<R, T, Z, L>),
    /// Nothing: the record was read, or there is none, or it cannot be read.
    Done(Option<McapResult<u8>>),
}

/// A [`Step`] as specifications see it, without the readers.
pub enum StepView {
    Await(Pending<Seq<char>>),
    OpenChunk(ChunkOpening),
    CloseChunk,
    Done(Option<Result<u8, ErrorView>>),
}

/// The outcome of reading a record as specifications see it.
pub open spec fn outcome_view(outcome: Option<McapResult<u8>>) -> Option<Result<u8, ErrorView>> {
    match outcome {
        None => None,
        Some(Ok(opcode)) => Some(Ok(opcode)),
        Some(Err(err)) => Some(Err(err@)),
    }
}

impl<R, T, Z, L> View for Step<R, T, Z, L> {
    type V = StepView;

    open spec fn view(&self) -> StepView {
        match *self {
            Step::Await(pending) => StepView::Await(pending@),
            Step::OpenChunk(_, opening) => StepView::OpenChunk(opening),
            Step::CloseChunk(_) => StepView::CloseChunk,
            Step::Done(outcome) => StepView::Done(outcome_view(outcome)),
        }
    }
}

/// The state of a [`RecordReader`] as specifications see it, without the readers.
#[verifier::ext_equal]
pub struct ReaderView {
    pub source: Source,
    pub options: RecordReaderOptions,
    pub start_magic_seen: bool,
    pub footer_seen: bool,
    pub to_discard_after_chunk: u64,
    pub scratch: Seq<u8>,
}

/// A step that ends with an error.
pub open spec fn fail(err: ErrorView) -> StepView {
    StepView::Done(Some(Err(err)))
}

impl ReaderView {
    /// The state of a reader that nothing has been read with.
    pub open spec fn initial(options: RecordReaderOptions) -> ReaderView {
        ReaderView {
            source: Source::Base,
            options,
            start_magic_seen: false,
            footer_seen: false,
            to_discard_after_chunk: 0,
            scratch: Seq::new(SCRATCH_LEN as nat, |i: int| 0u8),
        }
    }

    pub open spec fn wf(self) -> bool {
        self.scratch.len() == SCRATCH_LEN
    }

    /// Whether the bytes in front of the scratch buffer are the magic.
    pub open spec fn has_magic(self) -> bool {
        self.scratch.take(MAGIC_LEN as int) == MAGIC@
    }

    /// The opcode of the record whose first bytes are in the scratch buffer.
    pub open spec fn opcode(self) -> u8 {
        self.scratch[0]
    }

    /// The length of the record whose first bytes are in the scratch buffer.
    pub open spec fn record_len(self) -> u64 {
        le_u64(self.scratch.subrange(1, 9))
    }

    /// The read that comes where a record, or the magic at the end, can start.
    pub open spec fn at_boundary(self) -> Pending<Seq<char>> {
        if self.footer_seen && !self.options.skip_end_magic {
            Pending::EndMagic
        } else {
            Pending::RecordHeader { have: 0 }
        }
    }

    /// The read that the next record starts with.
    pub open spec fn first_read(self) -> Pending<Seq<char>> {
        if self.source is Base {
            if !self.start_magic_seen && !self.options.skip_start_magic {
                Pending::StartMagic
            } else {
                self.at_boundary()
            }
        } else {
            Pending::ChunkRecordHeader { have: 0 }
        }
    }

    /// Whether `pending` can be under way in this state.
    pub open spec fn awaits(self, pending: Pending<Seq<char>>) -> bool {
        &&& self.wf()
        &&& match pending {
            Pending::StartMagic => self.source is Base,
            Pending::EndMagic => self.source is Base,
            Pending::RecordHeader { have } => self.source is Base && have < RECORD_HEADER_LEN,
            Pending::ChunkRecordHeader { have } => {
                &&& !(self.source is Base)
                &&& !(self.source is Empty)
                &&& have < RECORD_HEADER_LEN
            },
            Pending::ChunkHeader { record_len, piece } => self.source is Base && piece.fits(
                record_len,
            ),
            Pending::Body { .. } => !(self.source is Empty),
            Pending::Discard { len } => {
                &&& self.source is Base
                &&& 0 < len <= SCRATCH_LEN
                &&& len <= self.to_discard_after_chunk
            },
        }
    }

    /// What happens after another `n` of a record's first bytes have been read from the base
    /// reader, which had given `have` of them before.
    pub open spec fn after_record_header(self, have: u64, n: usize) -> (ReaderView, StepView) {
        if n == 0 && have == 0 && self.options.skip_end_magic {
            (self, StepView::Done(None))
        } else if n == 0 {
            (self, fail(ErrorView::UnexpectedEof))
        } else if have + n < RECORD_HEADER_LEN {
            (self, StepView::Await(Pending::RecordHeader { have: (have + n) as u64 }))
        } else {
            let next = ReaderView {
                footer_seen: self.footer_seen || self.opcode() == op::FOOTER,
                ..self
            };
            let len = self.record_len();
            if self.opcode() == op::CHUNK && !self.options.emit_chunks {
                match first_piece(len) {
                    Ok(piece) => (
                        next,
                        StepView::Await(Pending::ChunkHeader { record_len: len, piece }),
                    ),
                    Err(err) => (next, fail(err)),
                }
            } else {
                (next, StepView::Await(Pending::Body { opcode: self.opcode(), len }))
            }
        }
    }

    /// What happens after another `n` of a record's first bytes have been read from a chunk, which
    /// had given `have` of them before.
    pub open spec fn after_chunk_record_header(self, have: u64, n: usize) -> (
        ReaderView,
        StepView,
    ) {
        if n == 0 && have == 0 {
            (ReaderView { source: Source::Empty, ..self }, StepView::CloseChunk)
        } else if n == 0 {
            (self, fail(ErrorView::UnexpectedEof))
        } else if have + n < RECORD_HEADER_LEN {
            (self, StepView::Await(Pending::ChunkRecordHeader { have: (have + n) as u64 }))
        } else {
            (
                self,
                StepView::Await(Pending::Body { opcode: self.opcode(), len: self.record_len() }),
            )
        }
    }

    /// What happens after the header of a chunk record with `record_len` bytes has been read.
    pub open spec fn after_chunk_header(
        self,
        record_len: u64,
        compression_len: u32,
        header: ChunkHeader<Seq<char>>,
    ) -> (ReaderView, StepView) {
        match compression_named(header.compression) {
            Some(compression) => {
                let used = MIN_LEN + compression_len + header.compressed_size;
                let opening = ChunkOpening {
                    compression,
                    compressed_size: header.compressed_size,
                    trailing: (record_len - used) as u64,
                };
                (ReaderView { source: Source::Empty, ..self }, StepView::OpenChunk(opening))
            },
            None => (self, fail(ErrorView::UnsupportedCompression(header.compression))),
        }
    }

    /// What happens after `pending` has been read: `n` bytes, and what is in the caller's buffer is
    /// `data`.
    pub open spec fn after_read(
        self,
        pending: Pending<Seq<char>>,
        data: Seq<u8>,
        n: usize,
    ) -> (ReaderView, StepView) {
        match pending {
            Pending::StartMagic => {
                if self.has_magic() {
                    let next = ReaderView { start_magic_seen: true, ..self };
                    (next, StepView::Await(next.at_boundary()))
                } else {
                    (self, fail(ErrorView::BadMagic))
                }
            },
            Pending::EndMagic => {
                if self.has_magic() {
                    (self, StepView::Done(None))
                } else {
                    (self, fail(ErrorView::BadMagic))
                }
            },
            Pending::RecordHeader { have } => self.after_record_header(have, n),
            Pending::ChunkRecordHeader { have } => self.after_chunk_record_header(have, n),
            Pending::ChunkHeader { record_len, piece } => match after_piece(
                record_len,
                piece,
                data,
            ) {
                Ok(Progress::Next(piece)) => (
                    self,
                    StepView::Await(Pending::ChunkHeader { record_len, piece }),
                ),
                Ok(Progress::Complete(header)) => self.after_chunk_header(
                    record_len,
                    piece->Size_fixed.compression_len,
                    header,
                ),
                Err(err) => (self, fail(err)),
            },
            Pending::Body { opcode, .. } => (self, StepView::Done(Some(Ok(opcode)))),
            Pending::Discard { len } => ReaderView {
                to_discard_after_chunk: (self.to_discard_after_chunk - len) as u64,
                ..self
            }.discarding(),
        }
    }

    /// What happens while there may be bytes left of a chunk record whose chunk has been closed.
    pub open spec fn discarding(self) -> (ReaderView, StepView) {
        let left = self.to_discard_after_chunk;
        if left > 0 {
            let len = if left > SCRATCH_LEN {
                SCRATCH_LEN as u64
            } else {
                left
            };
            (self, StepView::Await(Pending::Discard { len }))
        } else {
            (self, StepView::Await(self.first_read()))
        }
    }

    /// What happens after a chunk has been opened.
    pub open spec fn after_opening(self, opening: ChunkOpening) -> (ReaderView, StepView) {
        let next = ReaderView {
            source: Source::of_chunk(opening.compression),
            to_discard_after_chunk: opening.trailing,
            ..self
        };
        (next, StepView::Await(next.first_read()))
    }

    /// What happens after a chunk has been closed.
    pub open spec fn after_closing(self) -> (ReaderView, StepView) {
        ReaderView { source: Source::Base, ..self }.discarding()
    }
}

/// A record that was parsed, as specifications see it.
pub open spec fn read_record_view(result: McapResult<Option<Record>>) -> Result<
    Option<RecordView>,
    ErrorView,
> {
    match result {
        Ok(Some(record)) => Ok(Some(record@)),
        Ok(None) => Ok(None),
        Err(err) => Err(err@),
    }
}

/// The record that was read if reading the raw record ended with `outcome` and left `data` in the
/// caller's buffer.
pub open spec fn record_read(outcome: Option<Result<u8, ErrorView>>, data: Seq<u8>) -> Result<
    Option<RecordView>,
    ErrorView,
> {
    match outcome {
        None => Ok(None),
        Some(Err(err)) => Err(err),
        Some(Ok(opcode)) => match parsed(opcode, data) {
            Ok(record) => Ok(Some(record)),
            Err(err) => Err(err),
        },
    }
}

/// The footer in the last bytes of a file: a record, which has to be a footer, and the magic.
pub open spec fn footer_in(buf: Seq<u8>) -> Result<Footer, ErrorView> {
    let body_end = FOOTER_LEN_BYTES - MAGIC_LEN;
    if buf.skip(body_end) != MAGIC@ {
        Err(ErrorView::BadMagic)
    } else {
        match parsed(buf[0], buf.subrange(RECORD_HEADER_LEN as int, body_end)) {
            Ok(Record::Footer(footer)) => Ok(footer),
            Ok(_) => Err(
                ErrorView::UnexpectedRecord { expected: op::FOOTER, recieved: buf[0] },
            ),
            Err(err) => Err(err),
        }
    }
}

/// `result` as specifications see it.
pub open spec fn footer_view(result: McapResult<Footer>) -> Result<Footer, ErrorView> {
    match result {
        Ok(footer) => Ok(footer),
        Err(err) => Err(err@),
    }
}

/// Takes the footer out of the last bytes of a file.
pub fn read_footer(buf: &[u8; FOOTER_LEN_BYTES]) -> (footer: McapResult<Footer>)
    ensures
        footer_view(footer) == footer_in(buf@),
{
    let bytes = buf.as_slice();
    let body_end = FOOTER_LEN_BYTES - MAGIC.len();
    let magic = &bytes[body_end..FOOTER_LEN_BYTES];
    assert(magic@ =~= buf@.skip(body_end as int));
    if !is_magic(magic) {
        return Err(McapError::BadMagic);
    }
    match parse_record(bytes[0], &bytes[RECORD_HEADER_LEN as usize..body_end]) {
        Ok(Record::Footer(footer)) => Ok(footer),
        Ok(record) => Err(
            McapError::UnexpectedRecord { expected: op::FOOTER, recieved: record.opcode() },
        ),
        Err(err) => Err(err),
    }
}

/// Reads an MCAP file record by record. The host copies the raw contents of each record into a
/// buffer of the caller's.
#[derive(Debug)]
pub struct RecordReader<R, T, Z, L> {
    reader: ReaderState<R, T, Z, L>,
    options: RecordReaderOptions,
    start_magic_seen: bool,
    footer_seen: bool,
    to_discard_after_chunk: u64,
    scratch: Vec<u8>,
}

impl<R, T, Z, L> View for RecordReader<R, T, Z, L> {
    type V = ReaderView;

    closed spec fn view(&self) -> ReaderView {
        ReaderView {
            source: self.reader.source(),
            options: self.options,
            start_magic_seen: self.start_magic_seen,
            footer_seen: self.footer_seen,
            to_discard_after_chunk: self.to_discard_after_chunk,
            scratch: self.scratch@,
        }
    }
}

impl<R, T, Z, L> RecordReader<R, T, Z, L> {
    /// The reader that the next bytes come from.
    pub closed spec fn reader(&self) -> ReaderState<R, T, Z, L> {
        self.reader
    }

    /// The state and the reader tell the same about where the next bytes come from.
    pub proof fn lemma_source(&self)
        ensures
            self@.source == self.reader().source(),
    {
    }

    pub fn new(reader: R) -> (new: Self)
        ensures
            new.reader() == ReaderState::<R, T, Z, L>::Base(reader),
            new@ == ReaderView::initial(
                RecordReaderOptions {
                    skip_start_magic: false,
                    skip_end_magic: false,
                    emit_chunks: false,
                },
            ),
    {
        Self::new_with_options(reader, &RecordReaderOptions::default())
    }

    pub fn new_with_options(reader: R, options: &RecordReaderOptions) -> (new: Self)
        ensures
            new.reader() == ReaderState::<R, T, Z, L>::Base(reader),
            new@ == ReaderView::initial(*options),
    {
        let new = RecordReader {
            reader: ReaderState::Base(reader),
            options: *options,
            start_magic_seen: false,
            footer_seen: false,
            to_discard_after_chunk: 0,
            scratch: vec![0; SCRATCH_LEN],
        };
        assert(new@ =~= ReaderView::initial(*options));
        new
    }

    /// The reader that the next bytes come from, with the base reader somewhere inside it.
    pub fn into_inner(self) -> (reader: ReaderState<R, T, Z, L>)
        ensures
            reader == self.reader(),
    {
        self.reader
    }

    /// Return a mutable reference to the underlying reader R if it is available.
    ///
    /// This method will return an error if the reader is currently being used to decode or
    /// decompress a chunk.
    pub fn as_base_reader_mut(&mut self) -> (base: McapResult<&mut R>)
        ensures
            match base {
                Ok(reader) => {
                    &&& old(self).reader() == ReaderState::<R, T, Z, L>::Base(*reader)
                    &&& final(self).reader() == ReaderState::<R, T, Z, L>::Base(*final(reader))
                    &&& final(self)@ == old(self)@
                },
                Err(err) => {
                    &&& !(old(self).reader() is Base)
                    &&& err@ == ErrorView::AccessBaseReader(old(self)@.source.name())
                    &&& *final(self) == *old(self)
                },
            },
    {
        match &mut self.reader {
            ReaderState::Base(reader) => Ok(reader),
            other => Err(McapError::AccessBaseReader(other.name())),
        }
    }

    /// The reader that a read is to be performed on, and the scratch buffer.
    pub fn reader_and_scratch(&mut self) -> (parts: (&mut ReaderState<R, T, Z, L>, &mut [u8]))
        ensures
            *parts.0 == old(self).reader(),
            parts.1@ == old(self)@.scratch,
            final(self).reader() == *final(parts.0),
            final(self)@ == (ReaderView {
                source: final(parts.0).source(),
                scratch: final(parts.1)@,
                ..old(self)@
            }),
    {
        (&mut self.reader, self.scratch.as_mut_slice())
    }

    /// The outcome of reading a record as an owned [`Record`]. `outcome` is what reading the raw
    /// record ended with, and `data` what it left in the caller's buffer.
    pub fn read_record(outcome: Option<McapResult<u8>>, data: &[u8]) -> (record: McapResult<
        Option<Record>,
    >)
        ensures
            read_record_view(record) == record_read(outcome_view(outcome), data@),
    {
        match outcome {
            None => Ok(None),
            Some(Err(err)) => Err(err),
            Some(Ok(opcode)) => match parse_record(opcode, data) {
                Ok(record) => Ok(Some(record)),
                Err(err) => Err(err),
            },
        }
    }

    /// Starts to read the footer from the end of the file: the host has to move the base reader to
    /// the place that is as far from the end as the number says, fill [`FOOTER_LEN_BYTES`] bytes,
    /// and hand them to [`read_footer`].
    pub fn seek_and_read_footer(&mut self) -> (base: McapResult<(&mut R, i64)>)
        ensures
            match base {
                Ok((reader, from_end)) => {
                    &&& old(self).reader() == ReaderState::<R, T, Z, L>::Base(*reader)
                    &&& final(self).reader() == ReaderState::<R, T, Z, L>::Base(*final(reader))
                    &&& final(self)@ == old(self)@
                    &&& from_end == -FOOTER_LEN_BYTES
                },
                Err(err) => {
                    &&& !(old(self).reader() is Base)
                    &&& err@ == ErrorView::AccessBaseReader(old(self)@.source.name())
                    &&& *final(self) == *old(self)
                },
            },
    {
        match self.as_base_reader_mut() {
            Ok(reader) => Ok((reader, -(FOOTER_LEN_BYTES as i64))),
            Err(err) => Err(err),
        }
    }

    /// Starts to read the next record.
    pub fn next_record(&mut self) -> (step: Step<R, T, Z, L>)
        requires
            old(self)@.wf(),
            !(old(self)@.source is Empty),
        ensures
            *final(self) == *old(self),
            step@ == StepView::Await(old(self)@.first_read()),
            final(self)@.awaits(old(self)@.first_read()),
    {
        Step::Await(self.next_record_inner())
    }

    /// Goes on after a read. `data` is the caller's buffer, and `read` the number of bytes that
    /// were read, or the error that the input gave.
    pub fn resume(
        &mut self,
        pending: Pending,
        data: &[u8],
        read: std::io::Result<usize>,
    ) -> (step: Step<R, T, Z, L>)
        requires
            old(self)@.awaits(pending@),
            read matches Ok(n) ==> (pending@.request() matches Request::ReadScratch { len, .. }
                ==> n <= len),
            read is Ok ==> (pending@ matches Pending::ChunkHeader { piece, .. } ==> piece
                is Overlong || data@.len() == piece.len()),
        ensures
            match read {
                Ok(n) => (final(self)@, step@) == old(self)@.after_read(pending@, data@, n),
                Err(err) => {
                    &&& *final(self) == *old(self)
                    &&& step@ == fail(ErrorView::Io(err))
                },
            },
            match step {
                Step::OpenChunk(base, _) => {
                    &&& old(self).reader() == ReaderState::<R, T, Z, L>::Base(base)
                    &&& final(self).reader() is Empty
                },
                Step::CloseChunk(chunk) => {
                    &&& old(self).reader() == chunk
                    &&& final(self).reader() is Empty
                },
                _ => final(self).reader() == old(self).reader(),
            },
            step matches Step::Await(next) ==> final(self)@.awaits(next@),
    {
        let n = match read {
            Ok(n) => n,
            Err(err) => return Step::Done(Some(Err(McapError::Io(err)))),
        };
        match pending {
            Pending::StartMagic => {
                if !self.scratch_has_magic() {
                    return Step::Done(Some(Err(McapError::BadMagic)));
                }
                self.start_magic_seen = true;
                Step::Await(self.record_or_end())
            },
            Pending::EndMagic => {
                if !self.scratch_has_magic() {
                    return Step::Done(Some(Err(McapError::BadMagic)));
                }
                Step::Done(None)
            },
            Pending::RecordHeader { have } => self.record_header_read(have, n),
            Pending::ChunkRecordHeader { have } => self.chunk_record_header_read(have, n),
            Pending::ChunkHeader { record_len, piece } => self.chunk_header_read(
                record_len,
                piece,
                data,
            ),
            Pending::Body { opcode, .. } => Step::Done(Some(Ok(opcode))),
            Pending::Discard { len } => {
                self.to_discard_after_chunk = self.to_discard_after_chunk - len;
                Step::Await(self.discard_or_record())
            },
        }
    }

    /// Goes on after a chunk was to be opened. `chunk` is the reader of the chunk.
    pub fn chunk_opened(
        &mut self,
        opening: ChunkOpening,
        chunk: McapResult<ReaderState<R, T, Z, L>>,
    ) -> (step: Step<R, T, Z, L>)
        requires
            old(self)@.wf(),
            chunk matches Ok(reader) ==> reader.source() == Source::of_chunk(opening.compression),
        ensures
            match chunk {
                Ok(reader) => {
                    &&& final(self).reader() == reader
                    &&& (final(self)@, step@) == old(self)@.after_opening(opening)
                },
                Err(err) => {
                    &&& *final(self) == *old(self)
                    &&& step@ == fail(err@)
                },
            },
            step matches Step::Await(next) ==> final(self)@.awaits(next@),
    {
        match chunk {
            Ok(reader) => {
                self.reader = reader;
                self.to_discard_after_chunk = opening.trailing;
                Step::Await(self.next_record_inner())
            },
            Err(err) => Step::Done(Some(Err(err))),
        }
    }

    /// Goes on after a chunk was to be closed. `base` is the base reader.
    pub fn chunk_closed(&mut self, base: McapResult<R>) -> (step: Step<R, T, Z, L>)
        requires
            old(self)@.wf(),
        ensures
            match base {
                Ok(reader) => {
                    &&& final(self).reader() == ReaderState::<R, T, Z, L>::Base(reader)
                    &&& (final(self)@, step@) == old(self)@.after_closing()
                },
                Err(err) => {
                    &&& *final(self) == *old(self)
                    &&& step@ == fail(err@)
                },
            },
            step matches Step::Await(next) ==> final(self)@.awaits(next@),
    {
        match base {
            Ok(reader) => {
                self.reader = ReaderState::Base(reader);
                Step::Await(self.discard_or_record())
            },
            Err(err) => Step::Done(Some(Err(err))),
        }
    }

    /// The read that the next record starts with.
    pub fn next_record_inner(&self) -> (pending: Pending)
        requires
            self@.wf(),
            !(self@.source is Empty),
        ensures
            pending@ == self@.first_read(),
            self@.awaits(pending@),
    {
        match &self.reader {
            ReaderState::Base(_) => {
                if !self.start_magic_seen && !self.options.skip_start_magic {
                    Pending::StartMagic
                } else {
                    self.record_or_end()
                }
            },
            _ => Pending::ChunkRecordHeader { have: 0 },
        }
    }

    /// The read that comes where a record, or the magic at the end, can start.
    fn record_or_end(&self) -> (pending: Pending)
        requires
            self@.wf(),
            self@.source is Base,
        ensures
            pending@ == self@.at_boundary(),
            self@.awaits(pending@),
    {
        if self.footer_seen && !self.options.skip_end_magic {
            Pending::EndMagic
        } else {
            Pending::RecordHeader { have: 0 }
        }
    }

    /// The read that comes after a chunk, or after bytes that came after a chunk.
    fn discard_or_record(&self) -> (pending: Pending)
        requires
            self@.wf(),
            self@.source is Base,
        ensures
            (self@, StepView::Await(pending@)) == self@.discarding(),
            self@.awaits(pending@),
    {
        if self.to_discard_after_chunk > 0 {
            let room = self.scratch.len() as u64;
            let len = if self.to_discard_after_chunk > room {
                room
            } else {
                self.to_discard_after_chunk
            };
            Pending::Discard { len }
        } else {
            self.next_record_inner()
        }
    }

    /// Whether the scratch buffer starts with the magic.
    fn scratch_has_magic(&self) -> (found: bool)
        requires
            self@.wf(),
        ensures
            found == self@.has_magic(),
    {
        let start = &self.scratch[0..MAGIC.len()];
        assert(start@ =~= self@.scratch.take(MAGIC_LEN as int));
        is_magic(start)
    }

    fn record_header_read(&mut self, have: u64, n: usize) -> (step: Step<R, T, Z, L>)
        requires
            old(self)@.awaits(Pending::RecordHeader { have }),
            have + n <= RECORD_HEADER_LEN,
        ensures
            (final(self)@, step@) == old(self)@.after_record_header(have, n),
            final(self).reader() == old(self).reader(),
            !(step is OpenChunk) && !(step is CloseChunk),
            step matches Step::Await(next) ==> final(self)@.awaits(next@),
    {
        if n == 0 {
            if have == 0 && self.options.skip_end_magic {
                return Step::Done(None);
            }
            return Step::Done(Some(Err(McapError::UnexpectedEof)));
        }
        let have: u64 = have + n as u64;
        if have < RECORD_HEADER_LEN {
            return Step::Await(Pending::RecordHeader { have });
        }
        let opcode = self.scratch[0];
        if opcode == op::FOOTER {
            self.footer_seen = true;
        }
        let record_len = u64_at(self.scratch.as_slice(), 1);
        if opcode == op::CHUNK && !self.options.emit_chunks {
            return match read_chunk_header(record_len) {
                Ok(piece) => Step::Await(Pending::ChunkHeader { record_len, piece }),
                Err(err) => Step::Done(Some(Err(err))),
            };
        }
        Step::Await(Pending::Body { opcode, len: record_len })
    }

    fn chunk_record_header_read(&mut self, have: u64, n: usize) -> (step: Step<R, T, Z, L>)
        requires
            old(self)@.awaits(Pending::ChunkRecordHeader { have }),
            have + n <= RECORD_HEADER_LEN,
        ensures
            (final(self)@, step@) == old(self)@.after_chunk_record_header(have, n),
            match step {
                Step::OpenChunk(..) => false,
                Step::CloseChunk(chunk) => {
                    &&& old(self).reader() == chunk
                    &&& final(self).reader() is Empty
                },
                _ => final(self).reader() == old(self).reader(),
            },
            step matches Step::Await(next) ==> final(self)@.awaits(next@),
    {
        if n == 0 {
            if have > 0 {
                return Step::Done(Some(Err(McapError::UnexpectedEof)));
            }
            let mut reader = ReaderState::Empty;
            std::mem::swap(&mut reader, &mut self.reader);
            return Step::CloseChunk(reader);
        }
        let have: u64 = have + n as u64;
        if have < RECORD_HEADER_LEN {
            return Step::Await(Pending::ChunkRecordHeader { have });
        }
        let opcode = self.scratch[0];
        let record_len = u64_at(self.scratch.as_slice(), 1);
        Step::Await(Pending::Body { opcode, len: record_len })
    }

    fn chunk_header_read(&mut self, record_len: u64, piece: Piece, data: &[u8]) -> (step: Step<
        R,
        T,
        Z,
        L,
    >)
        requires
            old(self)@.awaits(Pending::ChunkHeader { record_len, piece: piece@ }),
            piece@ is Overlong || data@.len() == piece@.len(),
        ensures
            (final(self)@, step@) == old(self)@.after_read(
                Pending::ChunkHeader { record_len, piece: piece@ },
                data@,
                0,
            ),
            match step {
                Step::OpenChunk(base, _) => {
                    &&& old(self).reader() == ReaderState::<R, T, Z, L>::Base(base)
                    &&& final(self).reader() is Empty
                },
                Step::CloseChunk(_) => false,
                _ => final(self).reader() == old(self).reader(),
            },
            step matches Step::Await(next) ==> final(self)@.awaits(next@),
    {
        let compression_len: u32 = match &piece {
            Piece::Size { fixed, .. } => fixed.compression_len,
            _ => 0,
        };
        let header = match piece.advance(record_len, data) {
            Ok(Progress::Next(piece)) => {
                return Step::Await(Pending::ChunkHeader { record_len, piece });
            },
            Ok(Progress::Complete(header)) => header,
            Err(err) => return Step::Done(Some(Err(err))),
        };
        let compression = match find_compression(&header.compression) {
            Some(compression) => compression,
            None => {
                return Step::Done(
                    Some(Err(McapError::UnsupportedCompression(header.compression))),
                );
            },
        };
        let trailing: u64 = record_len - (MIN_LEN + compression_len as u64
            + header.compressed_size);
        let opening = ChunkOpening {
            compression,
            compressed_size: header.compressed_size,
            trailing,
        };
        let mut reader = ReaderState::Empty;
        std::mem::swap(&mut reader, &mut self.reader);
        match reader.into_inner() {
            Ok(base) => Step::OpenChunk(base, opening),
            Err(_) => unreached(),
        }
    }
}

} // verus!
