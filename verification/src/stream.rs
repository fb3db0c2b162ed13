//! What the reader makes of whole streams.
//!
//! The specifications in [`crate::read`] say what the reader does at each step. Here they are put
//! together with a model of a host and its input. The input gives its bytes in pieces of any size
//! and then ends, and a read that has to fill a buffer fails if the input ends before. The host has
//! memory for every buffer that it is asked for, and its decompressors find nothing wrong with the
//! chunks that they are given and use them up.

use crate::chunk_header::Piece;
use crate::codec::le_bytes;
use crate::encode::put_chunk_header;
use crate::error::ErrorView;
use crate::read::{
    compression_named, Compression, Pending, ReaderView, RecordReaderOptions, Request, Source,
    StepView,
};
use crate::records::{op, ChunkHeader};
use crate::MAGIC;
use vstd::prelude::*;
use vstd::utf8::encode_utf8;

verus! {

/// What a decompressor makes of the bytes of a chunk.
pub type Decoder = spec_fn(Compression, Seq<u8>) -> Seq<u8>;

/// How a host performs what the reader asks for.
pub struct Host {
    pub decoder: Decoder,
    /// How many bytes a read would like to give, by the number of reads before it. A read gives at
    /// least one byte if there is one, and at most what it is asked for and what there is.
    pub pace: spec_fn(nat) -> nat,
    /// The error of a read that has to fill a buffer if the input ends before.
    pub eof: std::io::Error,
}

/// An input, and the caller's buffer.
#[verifier::ext_equal]
pub struct Stream {
    /// What the base reader has still to give.
    pub base: Seq<u8>,
    /// What the reader of the current chunk has still to give.
    pub chunk: Seq<u8>,
    /// The caller's buffer.
    pub data: Seq<u8>,
    /// The number of reads so far that may give fewer bytes than they are asked for.
    pub reads: nat,
}

/// The contents of a chunk that is stored as `stored`.
pub open spec fn decoded(
    decoder: Decoder,
    compression: Option<Compression>,
    stored: Seq<u8>,
) -> Seq<u8> {
    match compression {
        None => stored,
        Some(compression) => decoder(compression, stored),
    }
}

/// A reader in the middle of reading a record from a stream.
#[verifier::ext_equal]
pub struct Config {
    pub reader: ReaderView,
    pub stream: Stream,
    pub step: StepView,
}

impl Stream {
    /// What there is to read from `source`.
    pub open spec fn available(self, source: Source) -> Seq<u8> {
        if source is Base {
            self.base
        } else {
            self.chunk
        }
    }

    /// The stream after `n` bytes have been read from `source`.
    pub open spec fn skip(self, source: Source, n: int) -> Stream {
        if source is Base {
            Stream { base: self.base.skip(n), ..self }
        } else {
            Stream { chunk: self.chunk.skip(n), ..self }
        }
    }
}

pub open spec fn min(a: int, b: int) -> int {
    if a < b {
        a
    } else {
        b
    }
}

/// A buffer after `bytes` have been read into it, from `from` on.
pub open spec fn overwritten(buffer: Seq<u8>, from: int, bytes: Seq<u8>) -> Seq<u8> {
    buffer.take(from) + bytes + buffer.skip(from + bytes.len())
}

/// A buffer after it has been made `len` bytes long.
pub open spec fn resized(buffer: Seq<u8>, len: nat) -> Seq<u8> {
    Seq::new(
        len,
        |i: int|
            if i < buffer.len() {
                buffer[i]
            } else {
                0
            },
    )
}

impl Host {
    /// How many of `available` bytes the next read gives if it is asked for `len`.
    pub open spec fn given(self, reads: nat, len: int, available: int) -> int {
        let most = min(len, available);
        if most <= 0 {
            0
        } else if (self.pace)(reads) == 0 {
            1
        } else {
            min((self.pace)(reads) as int, most)
        }
    }

    /// The reader and the stream after a read, and how the read went.
    pub open spec fn after_request(self, reader: ReaderView, stream: Stream, request: Request) -> (
        ReaderView,
        Stream,
        Result<usize, std::io::Error>,
    ) {
        let available = stream.available(reader.source);
        match request {
            Request::FillScratch { len } => {
                let n = min(len as int, available.len() as int);
                let scratch = overwritten(reader.scratch, 0, available.take(n));
                (
                    ReaderView { scratch, ..reader },
                    stream.skip(reader.source, n),
                    if n < len {
                        Err(self.eof)
                    } else {
                        Ok(n as usize)
                    },
                )
            },
            Request::ReadScratch { from, len } => {
                let n = self.given(stream.reads, len as int, available.len() as int);
                let scratch = overwritten(reader.scratch, from as int, available.take(n));
                (
                    ReaderView { scratch, ..reader },
                    Stream { reads: stream.reads + 1, ..stream.skip(reader.source, n) },
                    Ok(n as usize),
                )
            },
            Request::SizeData { len } => (
                reader,
                Stream { data: resized(stream.data, len as nat), ..stream },
                Ok(0),
            ),
            Request::FillData { len } => {
                let n = min(len as int, available.len() as int);
                let data = overwritten(resized(stream.data, len as nat), 0, available.take(n));
                (
                    reader,
                    Stream { data, ..stream.skip(reader.source, n) },
                    if n < len {
                        Err(self.eof)
                    } else {
                        Ok(n as usize)
                    },
                )
            },
        }
    }
}

/// The reader and the stream after the host has done what the step says.
pub open spec fn advance(host: Host, config: Config) -> Config {
    let Config { reader, stream, step } = config;
    match step {
        StepView::Await(pending) => {
            let (reader, stream, read) = host.after_request(reader, stream, pending.request());
            let (reader, step) = match read {
                Ok(n) => reader.after_read(pending, stream.data, n),
                Err(err) => (reader, StepView::Done(Some(Err(ErrorView::Io(err))))),
            };
            Config { reader, stream, step }
        },
        StepView::OpenChunk(opening) => {
            let (reader, step) = reader.after_opening(opening);
            let size = min(opening.compressed_size as int, stream.base.len() as int);
            let chunk = decoded(host.decoder, opening.compression, stream.base.take(size));
            let stream = Stream { base: stream.base.skip(size), chunk, ..stream };
            Config { reader, stream, step }
        },
        StepView::CloseChunk => {
            let (reader, step) = reader.after_closing();
            Config { reader, stream, step }
        },
        StepView::Done(_) => config,
    }
}

/// Whether the step is one that can come up in the state of the reader.
pub open spec fn fitting(config: Config) -> bool {
    &&& config.reader.wf()
    &&& match config.step {
        StepView::Await(pending) => config.reader.awaits(pending),
        StepView::OpenChunk(_) => config.reader.source is Empty,
        StepView::CloseChunk => config.reader.source is Empty,
        StepView::Done(_) => !(config.reader.source is Empty),
    }
}

/// How many kinds of step can follow at most before the base reader has to give bytes.
pub open spec fn patience(step: StepView) -> nat {
    match step {
        StepView::Await(Pending::ChunkHeader { piece: Piece::Compression { .. }, .. }) => 6,
        StepView::OpenChunk(_) => 5,
        StepView::Await(Pending::ChunkRecordHeader { .. }) => 4,
        StepView::CloseChunk => 3,
        StepView::Await(Pending::Body { .. }) => 1,
        StepView::Await(_) => 2,
        StepView::Done(_) => 0,
    }
}

/// The end of the record that is being read.
#[verifier::opaque]
pub open spec fn run(host: Host, config: Config) -> Config
    decreases
            config.stream.base.len(),
            patience(config.step),
            config.stream.chunk.len(),
    when fitting(config)
{
    if config.step is Done {
        config
    } else {
        run(host, advance(host, config))
    }
}

/// A reader that is about to read the next record.
pub open spec fn starting(reader: ReaderView, stream: Stream) -> Config {
    Config { reader, stream, step: StepView::Await(reader.first_read()) }
}

/// A reader that nothing has been read with.
pub open spec fn fresh(options: RecordReaderOptions, stream: Stream) -> Config {
    starting(ReaderView::initial(options), stream)
}

/// What reading the next record leads to. The outcome is in the last step, and what was read in the
/// caller's buffer.
pub open spec fn call(host: Host, config: Config) -> Config {
    run(host, starting(config.reader, config.stream))
}

/// What reading `n` records, one after the other, leads to.
pub open spec fn calls(host: Host, config: Config, n: nat) -> Config
    decreases n,
{
    if n == 0 {
        config
    } else {
        call(host, calls(host, config, (n - 1) as nat))
    }
}

impl Config {
    /// Whether the magic at the start was read, or does not have to be.
    pub open spec fn started(self) -> bool {
        self.reader.start_magic_seen || self.reader.options.skip_start_magic
    }

    /// Whether a record can be read next.
    pub open spec fn ready(self) -> bool {
        self.reader.wf() && !(self.reader.source is Empty)
    }

    /// Whether a record that stands in the file by itself, or the end of the stream, comes next.
    pub open spec fn at_record(self) -> bool {
        &&& self.reader.wf()
        &&& self.reader.source is Base
        &&& self.reader.first_read() is RecordHeader
    }

    /// Whether reading ended with a record.
    pub open spec fn yielded(self, record: RawRecord) -> bool {
        &&& self.step == StepView::Done(Some(Ok(record.0)))
        &&& self.stream.data == record.1
    }

    /// Whether reading ended with an error.
    pub open spec fn failed(self, err: ErrorView) -> bool {
        self.step == StepView::Done(Some(Err(err)))
    }

    /// Whether reading ended because there are no more records.
    pub open spec fn ended(self) -> bool {
        self.step == StepView::Done(None)
    }
}

/// Whether two hosts differ only in how many bytes their reads give.
pub open spec fn same_but_for_pace(a: Host, b: Host) -> bool {
    a.decoder == b.decoder && a.eof == b.eof
}

/// Whether two readers, each on its stream, differ at most in what nothing depends on any more: how
/// the bytes came, what is in the scratch buffer, what a chunk left that is closed, what is in the
/// caller's buffer if no record was read into it, and whether the magic at the start was read or
/// did not have to be.
pub open spec fn alike(a: Config, b: Config) -> bool {
    &&& a.step == b.step
    &&& a.reader.source == b.reader.source
    &&& a.reader.options.emit_chunks == b.reader.options.emit_chunks
    &&& a.reader.options.skip_end_magic == b.reader.options.skip_end_magic
    &&& a.started() == b.started()
    &&& !a.reader.options.skip_end_magic ==> a.reader.footer_seen == b.reader.footer_seen
    &&& a.stream.base == b.stream.base
    &&& a.reader.source is Base || a.reader.source is Empty || a.stream.chunk == b.stream.chunk
    &&& a.reader.to_discard_after_chunk == b.reader.to_discard_after_chunk || match a.step {
        StepView::Await(Pending::Discard { .. }) => false,
        StepView::OpenChunk(_) => true,
        _ => a.reader.source is Base,
    }
    &&& (a.step matches StepView::Done(Some(Ok(_)))) ==> a.stream.data == b.stream.data
}

/// Whether one of the first `n` records was a footer that stands in the file by itself.
pub open spec fn footer_among(host: Host, from: Config, n: nat) -> bool {
    exists|k: nat|
        0 < k <= n && (#[trigger] calls(host, from, k)).step == StepView::Done(
            Some(Ok(op::FOOTER)),
        ) && calls(host, from, k).reader.source is Base
}

/// A record: its opcode and its contents.
pub type RawRecord = (u8, Seq<u8>);

/// Whether reading record after record gives `records`, and what comes next is what comes next in
/// `to`.
pub open spec fn yields(host: Host, from: Config, records: Seq<RawRecord>, to: Config) -> bool {
    &&& forall|k: nat|
        0 < k <= records.len() ==> (#[trigger] calls(host, from, k)).yielded(records[k - 1])
    &&& call(host, calls(host, from, records.len())) == call(host, to)
}

/// Whether reading record after record gives exactly `records` and then the end.
pub open spec fn reads(host: Host, from: Config, records: Seq<RawRecord>) -> bool {
    &&& forall|k: nat|
        0 < k <= records.len() ==> (#[trigger] calls(host, from, k)).yielded(records[k - 1])
    &&& call(host, calls(host, from, records.len())).ended()
}

/// The bytes of a record.
pub open spec fn record_bytes(record: RawRecord) -> Seq<u8> {
    seq![record.0] + le_bytes(record.1.len(), 8) + record.1
}

/// The bytes of records that follow each other.
pub open spec fn records_bytes(records: Seq<RawRecord>) -> Seq<u8>
    decreases records.len(),
{
    if records.len() == 0 {
        seq![]
    } else {
        record_bytes(records[0]) + records_bytes(records.skip(1))
    }
}

/// The bytes of a chunk header.
pub open spec fn chunk_header_bytes(header: ChunkHeader<Seq<char>>) -> Seq<u8> {
    put_chunk_header(header, seq![])
}

/// What a file is made of, between the magic and the footer.
pub enum Item {
    /// A record that stands in the file by itself.
    Single(RawRecord),
    /// A chunk record: the header, the chunk as it is stored, whatever else is in the record, and
    /// the records in the chunk.
    Chunk {
        header: ChunkHeader<Seq<char>>,
        stored: Seq<u8>,
        trailing: Seq<u8>,
        records: Seq<RawRecord>,
    },
}

/// Whether the length of a record can be written down.
pub open spec fn has_length(record: RawRecord) -> bool {
    record.1.len() <= u64::MAX
}

/// Whether a record can stand in a file ahead of other records.
pub open spec fn leading(record: RawRecord, options: RecordReaderOptions) -> bool {
    has_length(record) && (record.0 == op::FOOTER ==> options.skip_end_magic)
}

impl Item {
    /// The record that the item is stored as.
    pub open spec fn record(self) -> RawRecord {
        match self {
            Item::Single(record) => record,
            Item::Chunk { header, stored, trailing, .. } => (
                op::CHUNK,
                chunk_header_bytes(header) + stored + trailing,
            ),
        }
    }

    /// The records that a reader gets out of the item.
    pub open spec fn contents(self) -> Seq<RawRecord> {
        match self {
            Item::Single(record) => seq![record],
            Item::Chunk { records, .. } => records,
        }
    }

    /// Whether the item can stand in a file that is read with `options`.
    ///
    /// A chunk record is a chunk, unless chunk records are to be yielded as they are. The footer
    /// comes last where the magic is expected after it.
    pub open spec fn ok(self, decoder: Decoder, options: RecordReaderOptions) -> bool {
        &&& has_length(self.record())
        &&& match self {
            Item::Single(record) => {
                &&& record.0 == op::CHUNK ==> options.emit_chunks
                &&& record.0 == op::FOOTER ==> options.skip_end_magic
            },
            Item::Chunk { header, stored, records, .. } => {
                &&& !options.emit_chunks
                &&& compression_named(header.compression) is Some
                &&& encode_utf8(header.compression).len() <= u32::MAX
                &&& header.compressed_size == stored.len()
                &&& decoded(decoder, compression_named(header.compression).unwrap(), stored)
                    == records_bytes(records)
                &&& forall|i: int|
                    0 <= i < records.len() ==> has_length(#[trigger] records[i])
            },
        }
    }
}

/// Whether all the items can stand in a file that is read with `options`.
pub open spec fn items_ok(
    decoder: Decoder,
    options: RecordReaderOptions,
    items: Seq<Item>,
) -> bool {
    forall|i: int| 0 <= i < items.len() ==> (#[trigger] items[i]).ok(decoder, options)
}

/// The bytes of items that follow each other.
pub open spec fn items_bytes(items: Seq<Item>) -> Seq<u8>
    decreases items.len(),
{
    if items.len() == 0 {
        seq![]
    } else {
        record_bytes(items[0].record()) + items_bytes(items.skip(1))
    }
}

/// The records that a reader gets out of the items.
pub open spec fn items_contents(items: Seq<Item>) -> Seq<RawRecord>
    decreases items.len(),
{
    if items.len() == 0 {
        seq![]
    } else {
        items[0].contents() + items_contents(items.skip(1))
    }
}

/// What is in front of the items.
pub open spec fn start_bytes(options: RecordReaderOptions) -> Seq<u8> {
    if options.skip_start_magic {
        seq![]
    } else {
        MAGIC@
    }
}

/// What comes after the items: the end of the stream, or a footer and the magic, and then whatever
/// the stream holds.
pub open spec fn end_bytes(
    options: RecordReaderOptions,
    footer: Seq<u8>,
    rest: Seq<u8>,
) -> Seq<u8> {
    if options.skip_end_magic {
        seq![]
    } else {
        record_bytes((op::FOOTER, footer)) + MAGIC@ + rest
    }
}

/// The records that come after those of the items.
pub open spec fn end_contents(options: RecordReaderOptions, footer: Seq<u8>) -> Seq<RawRecord> {
    if options.skip_end_magic {
        seq![]
    } else {
        seq![(op::FOOTER, footer)]
    }
}

} // verus!
