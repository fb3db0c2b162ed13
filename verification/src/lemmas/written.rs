//! What is read of a stream that was written down.

use crate::chunk_header::{after_piece, fixed_part, FixedPart, Piece, Progress, MIN_LEN};
use crate::codec::{law_le_round_trip, le_bytes, le_u32, le_u64, lemma_le_bytes_len};
use crate::error::ErrorView;
use crate::lemmas::head::{
    after_head, head_bytes, in_head, lemma_filled, lemma_scratch_start, lemma_settled, settled,
    with_head,
};
use crate::lemmas::run::{
    lemma_reads_add, lemma_run_done, lemma_step, lemma_yields_add, lemma_yields_none,
    lemma_yields_one,
};
use crate::read::{
    compression_named, Pending, ReaderView, RecordReaderOptions, Request, Source, StepView,
    SCRATCH_LEN,
};
use crate::records::{op, ChunkHeader};
use crate::stream::{
    advance, call, calls, chunk_header_bytes, decoded, end_bytes, end_contents, fitting, fresh,
    has_length, items_bytes, items_contents, items_ok, min, reads, record_bytes, records_bytes, run,
    start_bytes, starting, yields, Config, Host, Item, RawRecord, Stream,
};
use crate::MAGIC;
use vstd::arithmetic::power::pow;
use vstd::prelude::*;
use vstd::utf8::encode_utf8;

verus! {

pub(crate) proof fn lemma_u64_round_trip(value: u64)
    ensures
        le_bytes(value as nat, 8).len() == 8,
        le_u64(le_bytes(value as nat, 8)) == value,
{
    reveal_with_fuel(pow, 9);
    assert(pow(256, 8) == 0x1_0000_0000_0000_0000);
    law_le_round_trip(value as nat, 8);
    lemma_le_bytes_len(value as nat, 8);
}

pub(crate) proof fn lemma_u32_round_trip(value: u32)
    ensures
        le_bytes(value as nat, 4).len() == 4,
        le_u32(le_bytes(value as nat, 4)) == value,
{
    reveal_with_fuel(pow, 5);
    assert(pow(256, 4) == 0x1_0000_0000);
    law_le_round_trip(value as nat, 4);
    lemma_le_bytes_len(value as nat, 4);
}

/// The empty text has no bytes.
pub(crate) proof fn lemma_no_text_no_bytes()
    ensures
        encode_utf8(Seq::<char>::empty()) == Seq::<u8>::empty(),
{
    reveal_with_fuel(encode_utf8, 2);
}

/// The opcode and the length of a record are found in its first bytes.
pub(crate) proof fn lemma_head(host: Host, from: Config, record: RawRecord, rest: Seq<u8>) -> (to: (
    ReaderView,
    Stream,
))
    requires
        fitting(from),
        in_head(from.step),
        head_bytes(from.step) == 0,
        from.stream.available(from.reader.source) == record_bytes(record) + rest,
        has_length(record),
    ensures
        ({
            let (reader, step) = after_head(to.0, 0, 9);
            let next = Config { reader, stream: to.1, step };
            &&& run(host, from) == run(host, next)
            &&& fitting(next)
        }),
        to.0 == (ReaderView { scratch: to.0.scratch, ..from.reader }),
        to.0.wf(),
        to.0.opcode() == record.0,
        to.0.record_len() == record.1.len(),
        to.1.available(from.reader.source) == record.1 + rest,
        from.reader.source is Base ==> to.1.chunk == from.stream.chunk,
        !(from.reader.source is Base) ==> to.1.base == from.stream.base,
        to.1.data == from.stream.data,
{
    let available = from.stream.available(from.reader.source);
    let len = record.1.len() as u64;
    lemma_u64_round_trip(len);
    let reads = lemma_settled(host, from);
    let next = settled(from, reads);
    let scratch = with_head(from, 9).scratch;
    assert(scratch.subrange(1, 9) =~= le_bytes(len as nat, 8));
    assert(available.skip(9) =~= record.1 + rest);
    (with_head(from, 9), next.stream)
}

/// The contents of a record are what its length says.
pub(crate) proof fn lemma_fill_data(
    host: Host,
    reader: ReaderView,
    stream: Stream,
    body: Seq<u8>,
    rest: Seq<u8>,
)
    requires
        stream.available(reader.source) == body + rest,
        body.len() <= u64::MAX,
    ensures
        host.after_request(reader, stream, Request::FillData { len: body.len() as u64 }) == (
            reader,
            if reader.source is Base {
                Stream { base: rest, data: body, ..stream }
            } else {
                Stream { chunk: rest, data: body, ..stream }
            },
            Ok::<usize, std::io::Error>(body.len() as usize),
        ),
{
    let len = body.len() as int;
    assert((body + rest).take(len) =~= body);
    assert((body + rest).skip(len) =~= rest);
    lemma_filled(stream.data, body);
}

/// A record that stands in the file by itself is read.
pub(crate) proof fn lemma_single(host: Host, from: Config, record: RawRecord, rest: Seq<u8>)
    requires
        from.at_record(),
        from.stream.base == record_bytes(record) + rest,
        has_length(record),
        record.0 == op::CHUNK ==> from.reader.options.emit_chunks,
    ensures
        ({
            let to = call(host, from);
            &&& to.yielded(record)
            &&& to.stream.base == rest
            &&& to.reader == ReaderView {
                footer_seen: from.reader.footer_seen || record.0 == op::FOOTER,
                scratch: to.reader.scratch,
                ..from.reader
            }
            &&& to.reader.wf()
        }),
{
    let c0 = starting(from.reader, from.stream);
    let (reader, stream) = lemma_head(host, c0, record, rest);
    let (next, step) = after_head(reader, 0, 9);
    let c1 = Config { reader: next, stream, step };
    assert(step == StepView::Await(Pending::Body { opcode: record.0, len: record.1.len() as u64 }));
    lemma_fill_data(host, next, stream, record.1, rest);
    lemma_step(host, c1);
    lemma_run_done(host, advance(host, c1));
}

/// A record in a chunk is read.
pub(crate) proof fn lemma_in_chunk(host: Host, from: Config, record: RawRecord, rest: Seq<u8>)
    requires
        from.ready(),
        !(from.reader.source is Base),
        from.stream.chunk == record_bytes(record) + rest,
        has_length(record),
    ensures
        ({
            let to = call(host, from);
            &&& to.yielded(record)
            &&& to.stream.chunk == rest
            &&& to.stream.base == from.stream.base
            &&& to.reader == ReaderView { scratch: to.reader.scratch, ..from.reader }
            &&& to.reader.wf()
        }),
{
    let c0 = starting(from.reader, from.stream);
    let (reader, stream) = lemma_head(host, c0, record, rest);
    let (next, step) = after_head(reader, 0, 9);
    let c1 = Config { reader: next, stream, step };
    assert(step == StepView::Await(Pending::Body { opcode: record.0, len: record.1.len() as u64 }));
    lemma_fill_data(host, next, stream, record.1, rest);
    lemma_step(host, c1);
    lemma_run_done(host, advance(host, c1));
}

/// The three pieces of a chunk header, and what they say.
pub(crate) proof fn lemma_pieces(
    header: ChunkHeader<Seq<char>>,
    record_len: u64,
) -> (fixed: FixedPart)
    requires
        encode_utf8(header.compression).len() <= u32::MAX,
        chunk_header_bytes(header).len() <= record_len,
    ensures
        fixed == (FixedPart {
            message_start_time: header.message_start_time,
            message_end_time: header.message_end_time,
            uncompressed_size: header.uncompressed_size,
            uncompressed_crc: header.uncompressed_crc,
            compression_len: encode_utf8(header.compression).len() as u32,
        }),
        ({
            let bytes = chunk_header_bytes(header);
            let n = encode_utf8(header.compression).len() as int;
            &&& bytes.len() == MIN_LEN + n
            &&& after_piece(record_len, Piece::Fixed, bytes.take(32)) == Ok::<
                Progress<Seq<char>>,
                ErrorView,
            >(Progress::Next(Piece::Compression { fixed }))
            &&& after_piece(
                record_len,
                Piece::Compression { fixed },
                bytes.subrange(32, 32 + n),
            ) == Ok::<Progress<Seq<char>>, ErrorView>(
                Progress::Next(Piece::Size { fixed, compression: header.compression }),
            )
            &&& after_piece(
                record_len,
                Piece::Size { fixed, compression: header.compression },
                bytes.skip(32 + n),
            ) == if bytes.len() + header.compressed_size <= record_len {
                Ok(Progress::Complete(header))
            } else {
                Err(
                    ErrorView::BadChunkLength {
                        header: header.compressed_size,
                        available: (record_len - bytes.len()) as u64,
                    },
                )
            }
        }),
{
    let compression = encode_utf8(header.compression);
    let n = compression.len() as int;
    let bytes = chunk_header_bytes(header);
    lemma_u64_round_trip(header.message_start_time);
    lemma_u64_round_trip(header.message_end_time);
    lemma_u64_round_trip(header.uncompressed_size);
    lemma_u32_round_trip(header.uncompressed_crc);
    lemma_u32_round_trip(n as u32);
    lemma_u64_round_trip(header.compressed_size);
    assert(bytes =~= le_bytes(header.message_start_time as nat, 8) + le_bytes(
        header.message_end_time as nat,
        8,
    ) + le_bytes(header.uncompressed_size as nat, 8) + le_bytes(
        header.uncompressed_crc as nat,
        4,
    ) + le_bytes(n as nat, 4) + compression + le_bytes(header.compressed_size as nat, 8));
    let first = bytes.take(32);
    assert(first.subrange(0, 8) =~= le_bytes(header.message_start_time as nat, 8));
    assert(first.subrange(8, 16) =~= le_bytes(header.message_end_time as nat, 8));
    assert(first.subrange(16, 24) =~= le_bytes(header.uncompressed_size as nat, 8));
    assert(first.subrange(24, 28) =~= le_bytes(header.uncompressed_crc as nat, 4));
    assert(first.subrange(28, 32) =~= le_bytes(n as nat, 4));
    assert(bytes.subrange(32, 32 + n) =~= compression);
    assert(bytes.skip(32 + n) =~= le_bytes(header.compressed_size as nat, 8));
    vstd::utf8::encode_utf8_valid_utf8(header.compression);
    vstd::utf8::encode_utf8_decode_utf8(header.compression);
    fixed_part(first)
}

/// What happens after a chunk header has been read, which is refused if the chunk does not fit into
/// the record.
pub open spec fn after_whole_header(
    reader: ReaderView,
    record_len: u64,
    header: ChunkHeader<Seq<char>>,
) -> (ReaderView, StepView) {
    let available = (record_len - chunk_header_bytes(header).len()) as u64;
    if header.compressed_size <= available {
        reader.after_chunk_header(
            record_len,
            encode_utf8(header.compression).len() as u32,
            header,
        )
    } else {
        let err = ErrorView::BadChunkLength { header: header.compressed_size, available };
        (reader, StepView::Done(Some(Err(err))))
    }
}

/// A piece of a chunk header leads to the next one.
proof fn lemma_piece(
    host: Host,
    reader: ReaderView,
    stream: Stream,
    record_len: u64,
    piece: Piece<Seq<char>>,
    next: Piece<Seq<char>>,
    bytes: Seq<u8>,
    rest: Seq<u8>,
)
    requires
        reader.source is Base,
        stream.base == bytes + rest,
        bytes.len() == piece.len(),
        after_piece(record_len, piece, bytes) == Ok::<Progress<Seq<char>>, ErrorView>(
            Progress::Next(next),
        ),
    ensures
        advance(
            host,
            Config {
                reader,
                stream,
                step: StepView::Await(Pending::ChunkHeader { record_len, piece }),
            },
        ) == (Config {
            reader,
            stream: Stream { base: rest, data: bytes, ..stream },
            step: StepView::Await(Pending::ChunkHeader { record_len, piece: next }),
        }),
{
    lemma_fill_data(host, reader, stream, bytes, rest);
}

/// The pieces of a chunk header lead to what the header says.
#[verifier::rlimit(30)]
proof fn lemma_chunk_header(
    host: Host,
    reader: ReaderView,
    stream: Stream,
    header: ChunkHeader<Seq<char>>,
    record_len: u64,
    after: Seq<u8>,
) -> (to: Stream)
    requires
        reader.wf(),
        reader.source is Base,
        stream.base == chunk_header_bytes(header) + after,
        encode_utf8(header.compression).len() <= u32::MAX,
        chunk_header_bytes(header).len() <= record_len,
    ensures
        ({
            let (to_reader, step) = after_whole_header(reader, record_len, header);
            let next = Config { reader: to_reader, stream: to, step };
            &&& run(
                host,
                Config {
                    reader,
                    stream,
                    step: StepView::Await(Pending::ChunkHeader { record_len, piece: Piece::Fixed }),
                },
            ) == run(host, next)
            &&& fitting(next)
        }),
        to.base == after,
{
    let n = encode_utf8(header.compression).len() as int;
    let fixed = lemma_pieces(header, record_len);
    let bytes = chunk_header_bytes(header);
    let first = bytes.take(32);
    let name = bytes.subrange(32, 32 + n);
    let size = bytes.skip(32 + n);
    assert(bytes + after =~= first + (name + (size + after)));

    let c1 = Config {
        reader,
        stream,
        step: StepView::Await(Pending::ChunkHeader { record_len, piece: Piece::Fixed }),
    };
    let second = Piece::Compression { fixed };
    let third = Piece::Size { fixed, compression: header.compression };
    lemma_piece(
        host,
        reader,
        stream,
        record_len,
        Piece::Fixed,
        second,
        first,
        name + (size + after),
    );
    lemma_step(host, c1);
    let c2 = advance(host, c1);
    lemma_piece(host, reader, c2.stream, record_len, second, third, name, size + after);
    lemma_step(host, c2);
    let c3 = advance(host, c2);
    lemma_fill_data(host, reader, c3.stream, size, after);
    lemma_step(host, c3);
    advance(host, c3).stream
}

/// A chunk record is read up to the chunk.
pub(crate) proof fn lemma_chunk_record(
    host: Host,
    from: Config,
    header: ChunkHeader<Seq<char>>,
    record_len: u64,
    rest: Seq<u8>,
) -> (to: (ReaderView, Stream))
    requires
        from.at_record(),
        !from.reader.options.emit_chunks,
        from.stream.base == seq![op::CHUNK] + le_bytes(record_len as nat, 8) + (chunk_header_bytes(
            header,
        ) + rest),
        chunk_header_bytes(header).len() <= record_len,
        encode_utf8(header.compression).len() <= u32::MAX,
    ensures
        ({
            let (reader, step) = after_whole_header(to.0, record_len, header);
            let next = Config { reader, stream: to.1, step };
            &&& call(host, from) == run(host, next)
            &&& fitting(next)
        }),
        to.0 == (ReaderView { scratch: to.0.scratch, ..from.reader }),
        to.0.wf(),
        to.1.base == rest,
{
    let bytes = chunk_header_bytes(header);
    lemma_pieces(header, record_len);
    lemma_u64_round_trip(record_len);
    let c0 = starting(from.reader, from.stream);
    let available = c0.stream.base;
    let reads = lemma_settled(host, c0);
    let c1 = settled(c0, reads);
    let scratch = with_head(c0, 9).scratch;
    assert(scratch.subrange(1, 9) =~= le_bytes(record_len as nat, 8));
    assert(available.skip(9) =~= bytes + rest);
    assert(c1.step == StepView::Await(Pending::ChunkHeader { record_len, piece: Piece::Fixed }));
    let stream = lemma_chunk_header(host, c1.reader, c1.stream, header, record_len, rest);
    (c1.reader, stream)
}

/// A chunk record leads into the chunk, or into as much of it as there is.
pub(crate) proof fn lemma_enter_chunk(
    host: Host,
    from: Config,
    header: ChunkHeader<Seq<char>>,
    record_len: u64,
    rest: Seq<u8>,
) -> (to: Config)
    requires
        from.at_record(),
        !from.reader.options.emit_chunks,
        from.stream.base == seq![op::CHUNK] + le_bytes(record_len as nat, 8) + (chunk_header_bytes(
            header,
        ) + rest),
        chunk_header_bytes(header).len() + header.compressed_size <= record_len,
        encode_utf8(header.compression).len() <= u32::MAX,
        compression_named(header.compression) is Some,
    ensures
        call(host, from) == call(host, to),
        to.ready(),
        ({
            let compression = compression_named(header.compression).unwrap();
            let size = min(header.compressed_size as int, rest.len() as int);
            let used = chunk_header_bytes(header).len() + header.compressed_size;
            &&& to.reader == ReaderView {
                source: Source::of_chunk(compression),
                to_discard_after_chunk: (record_len - used) as u64,
                scratch: to.reader.scratch,
                ..from.reader
            }
            &&& to.stream.base == rest.skip(size)
            &&& to.stream.chunk == decoded(host.decoder, compression, rest.take(size))
        }),
{
    let (reader, stream) = lemma_chunk_record(host, from, header, record_len, rest);
    lemma_pieces(header, record_len);
    let (next, step) = after_whole_header(reader, record_len, header);
    let c1 = Config { reader: next, stream, step };
    assert(step is OpenChunk);
    lemma_step(host, c1);
    advance(host, c1)
}

/// The bytes after a chunk are skipped.
proof fn lemma_discard(
    host: Host,
    reader: ReaderView,
    stream: Stream,
    trailing: Seq<u8>,
    rest: Seq<u8>,
) -> (to: Config)
    requires
        reader.wf(),
        reader.source is Base,
        reader.to_discard_after_chunk == trailing.len(),
        stream.base == trailing + rest,
    ensures
        run(host, Config { reader, stream, step: reader.discarding().1 }) == call(host, to),
        to.reader == (ReaderView {
            to_discard_after_chunk: 0,
            scratch: to.reader.scratch,
            ..reader
        }),
        to.reader.wf(),
        to.stream == (Stream { base: rest, ..stream }),
    decreases trailing.len(),
{
    let c0 = Config { reader, stream, step: reader.discarding().1 };
    if trailing.len() == 0 {
        assert(stream.base =~= rest);
        c0
    } else {
        let len = min(SCRATCH_LEN as int, trailing.len() as int);
        lemma_step(host, c0);
        let c1 = advance(host, c0);
        assert(stream.base.skip(len) =~= trailing.skip(len) + rest);
        lemma_discard(host, c1.reader, c1.stream, trailing.skip(len), rest)
    }
}

/// The end of a chunk leads to what comes after the chunk record.
pub(crate) proof fn lemma_leave_chunk(
    host: Host,
    from: Config,
    trailing: Seq<u8>,
    rest: Seq<u8>,
) -> (to: Config)
    requires
        from.ready(),
        !(from.reader.source is Base),
        from.reader.to_discard_after_chunk == trailing.len(),
        from.stream.chunk.len() == 0,
        from.stream.base == trailing + rest,
    ensures
        call(host, from) == call(host, to),
        to.reader == (ReaderView {
            source: Source::Base,
            to_discard_after_chunk: 0,
            scratch: to.reader.scratch,
            ..from.reader
        }),
        to.reader.wf(),
        to.stream.base == rest,
        to.stream.data == from.stream.data,
{
    let c0 = starting(from.reader, from.stream);
    lemma_step(host, c0);
    let c1 = advance(host, c0);
    assert(c1.step is CloseChunk);
    lemma_step(host, c1);
    let c2 = advance(host, c1);
    lemma_discard(host, c2.reader, c2.stream, trailing, rest)
}

/// The records in a chunk are read.
pub(crate) proof fn lemma_chunk_records(
    host: Host,
    from: Config,
    records: Seq<RawRecord>,
    rest: Seq<u8>,
) -> (to: Config)
    requires
        from.ready(),
        !(from.reader.source is Base),
        from.stream.chunk == records_bytes(records) + rest,
        forall|i: int| 0 <= i < records.len() ==> has_length(#[trigger] records[i]),
    ensures
        yields(host, from, records, to),
        to.ready(),
        to.reader == (ReaderView { scratch: to.reader.scratch, ..from.reader }),
        to.stream.chunk == rest,
        to.stream.base == from.stream.base,
    decreases records.len(),
{
    if records.len() == 0 {
        assert(from.stream.chunk =~= rest);
        lemma_yields_none(host, from, from);
        assert(records =~= seq![]);
        from
    } else {
        let record = records[0];
        let others = records.skip(1);
        let after = records_bytes(others) + rest;
        assert(has_length(record));
        assert forall|i: int| 0 <= i < others.len() implies has_length(#[trigger] others[i]) by {
            assert(others[i] == records[i + 1]);
        }
        assert(from.stream.chunk =~= record_bytes(record) + after);
        lemma_in_chunk(host, from, record, after);
        let next = call(host, from);
        lemma_yields_one(host, from, record);
        let to = lemma_chunk_records(host, next, others, rest);
        lemma_yields_add(host, from, seq![record], next, others, to);
        assert(records =~= seq![record] + others);
        to
    }
}

/// Records that stand in the file by themselves are read.
pub(crate) proof fn lemma_plain_records(
    host: Host,
    from: Config,
    records: Seq<RawRecord>,
    rest: Seq<u8>,
) -> (to: Config)
    requires
        from.at_record(),
        from.stream.base == records_bytes(records) + rest,
        forall|i: int|
            0 <= i < records.len() ==> {
                &&& has_length(#[trigger] records[i])
                &&& records[i].0 != op::CHUNK
                &&& records[i].0 != op::FOOTER
            },
    ensures
        yields(host, from, records, to),
        to.at_record(),
        to.reader.options == from.reader.options,
        to.stream.base == rest,
    decreases records.len(),
{
    if records.len() == 0 {
        assert(from.stream.base =~= rest);
        lemma_yields_none(host, from, from);
        assert(records =~= seq![]);
        from
    } else {
        let record = records[0];
        let others = records.skip(1);
        let after = records_bytes(others) + rest;
        assert(has_length(record));
        assert forall|i: int| 0 <= i < others.len() implies {
            &&& has_length(#[trigger] others[i])
            &&& others[i].0 != op::CHUNK
            &&& others[i].0 != op::FOOTER
        } by {
            assert(others[i] == records[i + 1]);
        }
        assert(from.stream.base =~= record_bytes(record) + after);
        lemma_single(host, from, record, after);
        let next = call(host, from);
        lemma_yields_one(host, from, record);
        let to = lemma_plain_records(host, next, others, rest);
        lemma_yields_add(host, from, seq![record], next, others, to);
        assert(records =~= seq![record] + others);
        to
    }
}

/// An item is read.
proof fn lemma_item(host: Host, from: Config, item: Item, rest: Seq<u8>) -> (to: Config)
    requires
        from.at_record(),
        item.ok(host.decoder, from.reader.options),
        from.stream.base == record_bytes(item.record()) + rest,
    ensures
        yields(host, from, item.contents(), to),
        to.at_record(),
        to.reader.options == from.reader.options,
        to.stream.base == rest,
{
    match item {
        Item::Single(record) => {
            lemma_single(host, from, record, rest);
            lemma_yields_one(host, from, record);
            call(host, from)
        },
        Item::Chunk { header, stored, trailing, records } => {
            let bytes = chunk_header_bytes(header);
            let record_len = item.record().1.len() as u64;
            let after = stored + (trailing + rest);
            assert(from.stream.base =~= seq![op::CHUNK] + le_bytes(record_len as nat, 8) + (bytes
                + after));
            let inside = lemma_enter_chunk(host, from, header, record_len, after);
            assert(after.take(stored.len() as int) =~= stored);
            assert(after.skip(stored.len() as int) =~= trailing + rest);
            lemma_yields_none(host, from, inside);
            assert(inside.stream.chunk =~= records_bytes(records) + Seq::<u8>::empty());
            let end = lemma_chunk_records(host, inside, records, seq![]);
            let to = lemma_leave_chunk(host, end, trailing, rest);
            lemma_yields_none(host, end, to);
            lemma_yields_add(host, from, seq![], inside, records, end);
            lemma_yields_add(host, from, seq![] + records, end, seq![], to);
            assert(seq![] + records + seq![] =~= records);
            to
        },
    }
}

/// What is read of items.
pub(crate) proof fn lemma_items(
    host: Host,
    from: Config,
    items: Seq<Item>,
    rest: Seq<u8>,
) -> (to: Config)
    requires
        from.at_record(),
        items_ok(host.decoder, from.reader.options, items),
        from.stream.base == items_bytes(items) + rest,
    ensures
        yields(host, from, items_contents(items), to),
        to.at_record(),
        to.reader.options == from.reader.options,
        to.stream.base == rest,
    decreases items.len(),
{
    if items.len() == 0 {
        assert(from.stream.base =~= rest);
        lemma_yields_none(host, from, from);
        from
    } else {
        let item = items[0];
        let others = items.skip(1);
        let options = from.reader.options;
        let after = items_bytes(others) + rest;
        assert(item.ok(host.decoder, options));
        assert forall|i: int| 0 <= i < others.len() implies (#[trigger] others[i]).ok(
            host.decoder,
            options,
        ) by {
            assert(others[i] == items[i + 1]);
        }
        assert(from.stream.base =~= record_bytes(item.record()) + after);
        let next = lemma_item(host, from, item, after);
        let to = lemma_items(host, next, others, rest);
        lemma_yields_add(host, from, item.contents(), next, items_contents(others), to);
        to
    }
}

/// The magic at the start leads to what comes after it.
pub(crate) proof fn lemma_start(
    host: Host,
    options: RecordReaderOptions,
    stream: Stream,
    after: Seq<u8>,
) -> (to: Config)
    requires
        stream.base == start_bytes(options) + after,
    ensures
        call(host, fresh(options, stream)) == call(host, to),
        to.at_record(),
        to.reader.options == options,
        to.stream.base == after,
        to.stream.data == stream.data,
        !to.reader.footer_seen,
{
    let c0 = fresh(options, stream);
    if options.skip_start_magic {
        assert(stream.base =~= after);
        c0
    } else {
        lemma_scratch_start(c0.reader.scratch, MAGIC@);
        assert(stream.base.take(8) =~= MAGIC@);
        assert(stream.base.skip(8) =~= after);
        lemma_step(host, c0);
        advance(host, c0)
    }
}

/// The footer and the magic after it, or the end of the stream, are the end.
pub(crate) proof fn lemma_end(host: Host, from: Config, footer: Seq<u8>, rest: Seq<u8>)
    requires
        from.at_record(),
        footer.len() <= u64::MAX,
        from.stream.base == end_bytes(from.reader.options, footer, rest),
    ensures
        reads(host, from, end_contents(from.reader.options, footer)),
{
    if from.reader.options.skip_end_magic {
        let c0 = starting(from.reader, from.stream);
        lemma_step(host, c0);
        lemma_run_done(host, advance(host, c0));
        assert(calls(host, from, 0) == from);
    } else {
        let record = (op::FOOTER, footer);
        assert(from.stream.base =~= record_bytes(record) + (MAGIC@ + rest));
        lemma_single(host, from, record, MAGIC@ + rest);
        let next = call(host, from);
        let c0 = starting(next.reader, next.stream);
        assert((MAGIC@ + rest).take(8) =~= MAGIC@);
        lemma_scratch_start(c0.reader.scratch, MAGIC@);
        lemma_step(host, c0);
        lemma_run_done(host, advance(host, c0));
        lemma_yields_one(host, from, record);
        assert(calls(host, next, 0) == next);
        assert(reads(host, next, seq![]));
        lemma_reads_add(host, from, seq![record], next, seq![]);
        assert(seq![record] + Seq::<RawRecord>::empty() =~= seq![record]);
    }
}

/// The names of the compressions have few bytes.
pub(crate) proof fn lemma_names_are_short()
    ensures
        encode_utf8("zstd"@).len() <= u32::MAX,
        encode_utf8("lz4"@).len() <= u32::MAX,
        encode_utf8(""@).len() <= u32::MAX,
{
    reveal_strlit("zstd");
    reveal_strlit("lz4");
    reveal_strlit("");
    lemma_encoded_len("zstd"@);
    lemma_encoded_len("lz4"@);
    lemma_encoded_len(""@);
}

/// A character has four bytes at most.
proof fn lemma_encoded_len(text: Seq<char>)
    ensures
        encode_utf8(text).len() <= 4 * text.len(),
    decreases text.len(),
{
    if text.len() > 0 {
        lemma_encoded_len(text.drop_first());
    }
}

/// A stream that ends inside what is skipped after a chunk does not get further.
pub(crate) proof fn lemma_torn_discard(host: Host, from: Config)
    requires
        from.reader.wf(),
        from.reader.source is Base,
        from.step == from.reader.discarding().1,
        from.stream.base.len() < from.reader.to_discard_after_chunk,
    ensures
        run(host, from).failed(ErrorView::Io(host.eof)),
        run(host, from).stream.base.len() == 0,
        run(host, from).reader.source is Base,
    decreases from.stream.base.len(),
{
    lemma_step(host, from);
    let next = advance(host, from);
    if next.step is Done {
        lemma_run_done(host, next);
    } else {
        lemma_torn_discard(host, next);
    }
}

} // verus!
