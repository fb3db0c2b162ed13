//! Laws of the reader.

use crate::chunk_header::{
    after_piece, first_piece, fixed_part, Piece, Progress, FIXED_LEN, MIN_LEN,
};
use crate::codec::{le_bytes, le_u32, le_u64, utf8_error};
use crate::cursor::Cur;
use crate::encode::{law_record_is_read_back, put_footer};
use crate::error::ErrorView;
use crate::lemmas::alike::{lemma_alike_calls, lemma_alike_run};
use crate::lemmas::footer::{
    lemma_end_magic, lemma_footer_calls, lemma_footer_run, lemma_placed_calls,
};
use crate::lemmas::head::{after_head, lemma_scratch_start, lemma_settled, settled, with_head};
use crate::lemmas::run::{
    lemma_calls_add, lemma_calls_end, lemma_calls_same, lemma_calls_shift, lemma_end_run,
    lemma_outside_run, lemma_reads_add, lemma_run_done, lemma_run_ends, lemma_step,
    lemma_yields_add, lemma_yields_none,
};
use crate::lemmas::twins::{lemma_twins_run, twins, TwinCall, Twins};
use crate::lemmas::written::{
    after_whole_header, lemma_chunk_record, lemma_chunk_records, lemma_end, lemma_enter_chunk,
    lemma_fill_data, lemma_head, lemma_in_chunk, lemma_items, lemma_leave_chunk,
    lemma_names_are_short, lemma_no_text_no_bytes, lemma_pieces, lemma_plain_records, lemma_single,
    lemma_start, lemma_torn_discard, lemma_u32_round_trip, lemma_u64_round_trip,
};
use crate::parse::parsed;
use crate::read::{
    footer_in, ChunkOpening, Compression, Pending, ReaderView, RecordReaderOptions, Source,
    StepView, FOOTER_LEN_BYTES, MAGIC_LEN, RECORD_HEADER_LEN,
};
use crate::records::{op, ChunkHeader, Footer, Record};
use crate::stream::{
    advance, alike, call, calls, chunk_header_bytes, end_bytes, end_contents, footer_among, fresh,
    has_length, items_bytes, items_contents, items_ok, leading, reads, record_bytes, records_bytes,
    resized, same_but_for_pace, start_bytes, starting, Config, Host, Item, RawRecord, Stream,
};
use crate::MAGIC;
use vstd::prelude::*;
use vstd::utf8::{decode_utf8, encode_utf8, valid_utf8};

verus! {

/// A reader gives back what a file was made of: every record that stands in the file by itself, in
/// order, with the records of each chunk in the chunk's place, then the footer, and then the end.
/// It makes no difference in which pieces the bytes come.
///
/// The file starts and ends with the magic, unless the options say otherwise. A file that is read
/// without regard to the magic at its end ends with the stream, and a footer in it is a record like
/// any other.
pub proof fn law_file_is_read_back(
    host: Host,
    options: RecordReaderOptions,
    items: Seq<Item>,
    footer: Seq<u8>,
    rest: Seq<u8>,
    stream: Stream,
)
    requires
        items_ok(host.decoder, options, items),
        footer.len() <= u64::MAX,
        stream.base == start_bytes(options) + items_bytes(items) + end_bytes(
            options,
            footer,
            rest,
        ),
    ensures
        reads(
            host,
            fresh(options, stream),
            items_contents(items) + end_contents(options, footer),
        ),
{
    let from = fresh(options, stream);
    let end = end_bytes(options, footer, rest);
    assert(stream.base =~= start_bytes(options) + (items_bytes(items) + end));
    let first = lemma_start(host, options, stream, items_bytes(items) + end);
    lemma_yields_none(host, from, first);
    let last = lemma_items(host, first, items, end);
    lemma_yields_add(host, from, seq![], first, items_contents(items), last);
    lemma_end(host, last, footer, rest);
    assert(seq![] + items_contents(items) =~= items_contents(items));
    lemma_reads_add(host, from, items_contents(items), last, end_contents(options, footer));
}

/// Reading a record ends with an outcome, whatever the stream holds, and the next record can be
/// read then.
pub proof fn law_reading_ends(host: Host, from: Config)
    requires
        from.ready(),
    ensures
        call(host, from).step is Done,
        call(host, from).ready(),
{
    lemma_run_ends(host, starting(from.reader, from.stream));
}

/// What is read depends on the bytes alone, not on how many of them a read gives, nor on what is in
/// the scratch buffer: after any number of records, two readers on the same bytes have come to the
/// same outcome, with the same bytes in the caller's buffer and the same bytes to go.
pub proof fn law_only_the_bytes_matter(host1: Host, host2: Host, a: Config, b: Config, n: nat)
    requires
        same_but_for_pace(host1, host2),
        a.ready(),
        b.reader == (ReaderView { scratch: b.reader.scratch, ..a.reader }),
        b.reader.wf(),
        b.stream == (Stream { reads: b.stream.reads, ..a.stream }),
        n > 0,
    ensures
        ({
            let x = calls(host1, a, n);
            let y = calls(host2, b, n);
            &&& alike(x, y)
            &&& x.step == y.step
            &&& x.stream.data == y.stream.data
            &&& x.stream.base == y.stream.base
        }),
{
    lemma_alike_calls(host1, host2, a, b, n);
}

/// A record can be read again: a reader that got a record, and whose base reader is moved back to
/// where it was before, gets the same record and comes to the same place. Only after the footer
/// does a reader want something else, namely the magic.
pub proof fn law_record_can_be_read_again(host1: Host, host2: Host, from: Config, back: Stream)
    requires
        same_but_for_pace(host1, host2),
        from.ready(),
        from.reader.source is Base,
        from.reader.start_magic_seen || from.reader.options.skip_start_magic,
        call(host1, from).step matches StepView::Done(Some(Ok(opcode))) && (opcode != op::FOOTER
            || from.reader.options.skip_end_magic),
        call(host1, from).reader.source is Base,
        back.base == from.stream.base,
    ensures
        ({
            let first = call(host1, from);
            let second = call(host2, Config { stream: back, ..first });
            &&& second.step == first.step
            &&& second.stream.data == first.stream.data
            &&& second.stream.base == first.stream.base
            &&& second.reader.source is Base
        }),
{
    let first = call(host1, from);
    let again = Config { stream: back, ..first };
    let c0 = starting(from.reader, from.stream);
    lemma_run_ends(host1, c0);
    if !from.reader.options.skip_end_magic {
        if from.reader.footer_seen {
            lemma_end_magic(host1, from);
        } else {
            lemma_footer_run(host1, c0);
        }
    }
    lemma_alike_run(host1, host2, c0, starting(again.reader, again.stream));
}

/// A chunk that is not compressed is transparent: a reader in front of the chunk record and a
/// reader in front of the records themselves, with the same bytes after them, come to the same
/// outcomes, for ever. Once the records are through, the readers are alike.
///
/// The records may not be chunk records or footers, which mean something else outside a chunk.
pub proof fn law_plain_chunk_is_transparent(
    host: Host,
    a: Config,
    b: Config,
    header: ChunkHeader<Seq<char>>,
    records: Seq<RawRecord>,
    trailing: Seq<u8>,
    rest: Seq<u8>,
    n: nat,
)
    requires
        a.at_record(),
        b.at_record(),
        a.reader.options.skip_end_magic == b.reader.options.skip_end_magic,
        !a.reader.options.emit_chunks,
        !b.reader.options.emit_chunks,
        forall|i: int|
            0 <= i < records.len() ==> {
                &&& has_length(#[trigger] records[i])
                &&& records[i].0 != op::CHUNK
                &&& records[i].0 != op::FOOTER
            },
        header.compression == ""@,
        header.compressed_size == records_bytes(records).len(),
        ({
            let body = chunk_header_bytes(header) + records_bytes(records) + trailing;
            let record = (op::CHUNK, body);
            has_length(record) && a.stream.base == record_bytes(record) + rest
        }),
        b.stream.base == records_bytes(records) + rest,
        n > 0,
    ensures
        calls(host, a, n).step == calls(host, b, n).step,
        calls(host, a, n).step is Done,
        (calls(host, a, n).step matches StepView::Done(Some(Ok(_)))) ==> calls(
            host,
            a,
            n,
        ).stream.data == calls(host, b, n).stream.data,
        n > records.len() ==> alike(calls(host, a, n), calls(host, b, n)),
{
    let stored = records_bytes(records);
    let bytes = chunk_header_bytes(header);
    let record_len = (bytes + stored + trailing).len() as u64;
    let after = stored + (trailing + rest);
    let empty = Seq::<u8>::empty();
    reveal_strlit("");
    reveal_strlit("zstd");
    reveal_strlit("lz4");
    lemma_no_text_no_bytes();
    assert(header.compression =~= Seq::<char>::empty());
    assert(a.stream.base =~= seq![op::CHUNK] + le_bytes(record_len as nat, 8) + (bytes + after));
    let inside = lemma_enter_chunk(host, a, header, record_len, after);
    assert(after.take(stored.len() as int) =~= stored);
    assert(after.skip(stored.len() as int) =~= trailing + rest);
    assert(inside.stream.chunk =~= stored + empty);
    let end = lemma_chunk_records(host, inside, records, empty);
    let x = lemma_leave_chunk(host, end, trailing, rest);
    lemma_yields_none(host, a, inside);
    lemma_yields_none(host, end, x);
    lemma_yields_add(host, a, seq![], inside, records, end);
    lemma_yields_add(host, a, seq![] + records, end, seq![], x);
    assert(seq![] + records + seq![] =~= records);
    let y = lemma_plain_records(host, b, records, rest);
    lemma_calls_end(host, a, n);
    let len = records.len();
    if n > len {
        let k = (n - len) as nat;
        lemma_calls_add(host, a, len, k);
        lemma_calls_add(host, b, len, k);
        lemma_calls_same(host, calls(host, a, len), x, k);
        lemma_calls_same(host, calls(host, b, len), y, k);
        lemma_alike_calls(host, host, x, y, k);
    }
}

/// A chunk that is not compressed is transparent to readers that have some records to read before
/// they come to it.
proof fn lemma_plain_chunk_ahead(
    host: Host,
    a: Config,
    b: Config,
    part: Seq<u8>,
    before: Seq<RawRecord>,
    header: ChunkHeader<Seq<char>>,
    records: Seq<RawRecord>,
    rest: Seq<u8>,
    n: nat,
)
    requires
        twins(
            starting(a.reader, a.stream),
            starting(b.reader, b.stream),
            part,
            before,
            record_bytes((op::CHUNK, chunk_header_bytes(header) + records_bytes(records))) + rest,
            records_bytes(records) + rest,
        ),
        !a.reader.options.emit_chunks,
        forall|i: int|
            0 <= i < records.len() ==> {
                &&& has_length(#[trigger] records[i])
                &&& records[i].0 != op::CHUNK
                &&& records[i].0 != op::FOOTER
            },
        header.compression == ""@,
        header.compressed_size == records_bytes(records).len(),
        has_length((op::CHUNK, chunk_header_bytes(header) + records_bytes(records))),
        n > 0,
        forall|k: nat|
            0 < k < n ==> ((#[trigger] calls(host, a, k)).step matches StepView::Done(
                Some(Ok(_)),
            )),
    ensures
        ({
            let x = calls(host, a, n);
            let y = calls(host, b, n);
            &&& x.step == y.step
            &&& (x.step matches StepView::Done(Some(Ok(_)))) ==> x.stream.data == y.stream.data
        }),
    decreases n,
{
    let body = chunk_header_bytes(header) + records_bytes(records);
    let x = record_bytes((op::CHUNK, body)) + rest;
    let y = records_bytes(records) + rest;
    let c1 = starting(a.reader, a.stream);
    let c2 = starting(b.reader, b.stream);
    let a2 = call(host, a);
    let b2 = call(host, b);
    assert(calls(host, a, 0) == a && calls(host, b, 0) == b);
    assert(calls(host, a, 1) == a2 && calls(host, b, 1) == b2);
    assert(body + Seq::<u8>::empty() =~= body);
    match lemma_twins_run(host, c1, c2, part, before, x, y) {
        TwinCall::Parted { a: a3, b: b3 } => {
            lemma_calls_same(host, a, a3, n);
            lemma_calls_same(host, b, b3, n);
            law_plain_chunk_is_transparent(host, a3, b3, header, records, seq![], rest, n);
        },
        TwinCall::Same { next: Twins::On { part, records: before } } => {
            if n > 1 {
                let k = (n - 1) as nat;
                assert(twins(
                    starting(a2.reader, a2.stream),
                    starting(b2.reader, b2.stream),
                    part,
                    before,
                    x,
                    y,
                ));
                assert forall|j: nat| 0 < j < k implies ((#[trigger] calls(
                    host,
                    a2,
                    j,
                )).step matches StepView::Done(Some(Ok(_)))) by {
                    lemma_calls_shift(host, a, j + 1);
                    assert(calls(host, a, j + 1) == calls(host, a2, j));
                }
                lemma_plain_chunk_ahead(host, a2, b2, part, before, header, records, rest, k);
                lemma_calls_shift(host, a, n);
                lemma_calls_shift(host, b, n);
            }
        },
        TwinCall::Same { next: Twins::Refused } => {},
    }
}

/// A chunk that is not compressed is transparent wherever it stands in a file: readers on two files
/// that are the same but for the chunk record around some records get the same records, and then
/// come to the same end or the same error. What stands before the chunk may be any records, if the
/// footer is not among them where it would be the last one.
pub proof fn law_plain_chunk_in_a_file_is_transparent(
    host: Host,
    options: RecordReaderOptions,
    before: Seq<RawRecord>,
    header: ChunkHeader<Seq<char>>,
    records: Seq<RawRecord>,
    rest: Seq<u8>,
    stream1: Stream,
    stream2: Stream,
    n: nat,
)
    requires
        !options.emit_chunks,
        forall|i: int| 0 <= i < before.len() ==> leading(#[trigger] before[i], options),
        forall|i: int|
            0 <= i < records.len() ==> {
                &&& has_length(#[trigger] records[i])
                &&& records[i].0 != op::CHUNK
                &&& records[i].0 != op::FOOTER
            },
        header.compression == ""@,
        header.compressed_size == records_bytes(records).len(),
        has_length((op::CHUNK, chunk_header_bytes(header) + records_bytes(records))),
        stream1.base == start_bytes(options) + records_bytes(before) + record_bytes(
            (op::CHUNK, chunk_header_bytes(header) + records_bytes(records)),
        ) + rest,
        stream2.base == start_bytes(options) + records_bytes(before) + records_bytes(records)
            + rest,
        n > 0,
        forall|k: nat|
            0 < k < n ==> ((#[trigger] calls(
                host,
                fresh(options, stream1),
                k,
            )).step matches StepView::Done(Some(Ok(_)))),
    ensures
        ({
            let x = calls(host, fresh(options, stream1), n);
            let y = calls(host, fresh(options, stream2), n);
            &&& x.step == y.step
            &&& (x.step matches StepView::Done(Some(Ok(_)))) ==> x.stream.data == y.stream.data
        }),
{
    let from1 = fresh(options, stream1);
    let from2 = fresh(options, stream2);
    let body = chunk_header_bytes(header) + records_bytes(records);
    let x = record_bytes((op::CHUNK, body)) + rest;
    let y = records_bytes(records) + rest;
    let near = records_bytes(before);
    assert(stream1.base =~= start_bytes(options) + (near + x));
    assert(stream2.base =~= start_bytes(options) + (near + y));
    let a = lemma_start(host, options, stream1, near + x);
    let b = lemma_start(host, options, stream2, near + y);
    assert(seq![] + near =~= near);
    assert(twins(
        starting(a.reader, a.stream),
        starting(b.reader, b.stream),
        seq![],
        before,
        x,
        y,
    ));
    assert forall|k: nat| 0 < k < n implies ((#[trigger] calls(
        host,
        a,
        k,
    )).step matches StepView::Done(Some(Ok(_)))) by {
        lemma_calls_same(host, from1, a, k);
        assert(calls(host, from1, k) == calls(host, a, k));
    }
    lemma_plain_chunk_ahead(host, a, b, seq![], before, header, records, rest, n);
    lemma_calls_same(host, from1, a, n);
    lemma_calls_same(host, from2, b, n);
}

/// A chunk that is not compressed and that the stream cuts short between two records gives the
/// records that are there. What comes then is the end of the stream: it is refused, unless the
/// chunk takes up the rest of its record and the magic at the end is not expected.
pub proof fn law_cut_chunk_gives_what_is_there(
    host: Host,
    from: Config,
    header: ChunkHeader<Seq<char>>,
    record_len: u64,
    records: Seq<RawRecord>,
)
    requires
        from.at_record(),
        !from.reader.options.emit_chunks,
        header.compression == ""@,
        chunk_header_bytes(header).len() + header.compressed_size <= record_len,
        records_bytes(records).len() <= header.compressed_size,
        forall|i: int| 0 <= i < records.len() ==> has_length(#[trigger] records[i]),
        from.stream.base == seq![op::CHUNK] + le_bytes(record_len as nat, 8) + (chunk_header_bytes(
            header,
        ) + records_bytes(records)),
    ensures
        forall|k: nat|
            0 < k <= records.len() ==> (#[trigger] calls(host, from, k)).yielded(records[k - 1]),
        call(host, calls(host, from, records.len())).step == if record_len > chunk_header_bytes(
            header,
        ).len() + header.compressed_size {
            StepView::Done(Some(Err(ErrorView::Io(host.eof))))
        } else if from.reader.options.skip_end_magic {
            StepView::Done(None)
        } else {
            StepView::Done(Some(Err(ErrorView::UnexpectedEof)))
        },
{
    let stored = records_bytes(records);
    let empty = Seq::<u8>::empty();
    reveal_strlit("");
    reveal_strlit("zstd");
    reveal_strlit("lz4");
    lemma_no_text_no_bytes();
    assert(header.compression =~= Seq::<char>::empty());
    let inside = lemma_enter_chunk(host, from, header, record_len, stored);
    assert(stored.take(stored.len() as int) =~= stored);
    assert(stored.skip(stored.len() as int) =~= empty);
    assert(inside.stream.chunk =~= stored + empty);
    lemma_yields_none(host, from, inside);
    let end = lemma_chunk_records(host, inside, records, empty);
    lemma_yields_add(host, from, seq![], inside, records, end);
    assert(seq![] + records =~= records);

    let c0 = starting(end.reader, end.stream);
    lemma_step(host, c0);
    let c1 = advance(host, c0);
    assert(c1.step is CloseChunk);
    lemma_step(host, c1);
    let c2 = advance(host, c1);
    lemma_step(host, c2);
    lemma_run_done(host, advance(host, c2));
}

/// A stream that does not start with the magic is refused, and the reader still waits for it.
pub proof fn law_wrong_start_is_refused(
    host: Host,
    options: RecordReaderOptions,
    stream: Stream,
)
    requires
        !options.skip_start_magic,
        stream.base.len() >= MAGIC_LEN,
        stream.base.take(MAGIC_LEN as int) != MAGIC@,
    ensures
        call(host, fresh(options, stream)).failed(ErrorView::BadMagic),
        call(host, fresh(options, stream)).reader.first_read() is StartMagic,
{
    let c0 = fresh(options, stream);
    lemma_scratch_start(c0.reader.scratch, stream.base.take(8));
    lemma_step(host, c0);
    lemma_run_done(host, advance(host, c0));
}

/// A stream that is too short for the magic at the start is refused, and used up.
pub proof fn law_short_start_is_refused(host: Host, options: RecordReaderOptions, stream: Stream)
    requires
        !options.skip_start_magic,
        stream.base.len() < 8,
    ensures
        call(host, fresh(options, stream)).failed(ErrorView::Io(host.eof)),
        call(host, fresh(options, stream)).stream.base.len() == 0,
{
    let c0 = fresh(options, stream);
    lemma_step(host, c0);
    lemma_run_done(host, advance(host, c0));
}

/// Where the magic at the end is due, the magic ends the records, eight other bytes are refused,
/// and so are fewer bytes. The caller's buffer stays as it is, and the magic is due again.
pub proof fn law_end_magic_decides(host: Host, from: Config)
    requires
        from.ready(),
        from.reader.first_read() is EndMagic,
    ensures
        ({
            let to = call(host, from);
            let bytes = from.stream.base;
            let whole = bytes.len() >= MAGIC_LEN;
            &&& to.ended() <==> whole && bytes.take(MAGIC_LEN as int) == MAGIC@
            &&& to.failed(ErrorView::BadMagic) <==> whole && bytes.take(MAGIC_LEN as int) != MAGIC@
            &&& to.failed(ErrorView::Io(host.eof)) <==> !whole
            &&& to.stream.data == from.stream.data
            &&& to.reader.first_read() is EndMagic
            &&& to.ready()
        }),
{
    lemma_end_magic(host, from);
}

/// Where the magic at the end is due, no record ever comes again.
pub proof fn law_no_record_after_the_footer(host: Host, from: Config, n: nat)
    requires
        from.ready(),
        from.reader.first_read() is EndMagic,
        n > 0,
    ensures
        !(calls(host, from, n).step matches StepView::Done(Some(Ok(_)))),
        calls(host, from, n).stream.data == from.stream.data,
        calls(host, from, n).reader.first_read() is EndMagic,
        calls(host, from, n).ready(),
    decreases n,
{
    if n > 1 {
        law_no_record_after_the_footer(host, from, (n - 1) as nat);
    } else {
        assert(calls(host, from, 0) == from);
    }
    lemma_end_magic(host, calls(host, from, (n - 1) as nat));
}

/// Where the magic at the end is expected, the end comes only after a footer that stands in the
/// file by itself, and only with the magic: the last call takes up the magic and nothing else, and
/// leaves the caller's buffer as it is.
pub proof fn law_end_comes_after_the_footer(
    host: Host,
    options: RecordReaderOptions,
    stream: Stream,
    n: nat,
)
    requires
        !options.skip_end_magic,
        call(host, calls(host, fresh(options, stream), n)).ended(),
    ensures
        footer_among(host, fresh(options, stream), n),
        ({
            let before = calls(host, fresh(options, stream), n);
            let after = call(host, before);
            &&& before.stream.base == MAGIC@ + after.stream.base
            &&& after.stream.data == before.stream.data
        }),
{
    let before = calls(host, fresh(options, stream), n);
    lemma_footer_calls(host, options, stream, n);
    if before.reader.footer_seen {
        lemma_end_magic(host, before);
        let bytes = before.stream.base;
        assert(bytes =~= bytes.take(8) + bytes.skip(8));
    } else {
        lemma_footer_run(host, starting(before.reader, before.stream));
    }
}

/// A footer in a chunk is a record like any other: as long as no footer stood in the file by
/// itself, the next record comes.
pub proof fn law_footer_in_a_chunk_ends_nothing(
    host: Host,
    options: RecordReaderOptions,
    stream: Stream,
    n: nat,
    record: RawRecord,
    rest: Seq<u8>,
)
    requires
        !options.skip_end_magic,
        !footer_among(host, fresh(options, stream), n),
        ({
            let before = calls(host, fresh(options, stream), n);
            &&& before.reader.source is Base
            &&& before.reader.start_magic_seen || options.skip_start_magic
            &&& before.stream.base == record_bytes(record) + rest
        }),
        has_length(record),
        record.0 == op::CHUNK ==> options.emit_chunks,
    ensures
        !calls(host, fresh(options, stream), n).reader.footer_seen,
        call(host, calls(host, fresh(options, stream), n)).yielded(record),
{
    let before = calls(host, fresh(options, stream), n);
    lemma_footer_calls(host, options, stream, n);
    assert(before.stream.base.len() > 0);
    lemma_single(host, before, record, rest);
}

/// A stream that ends where a record has to start, or a stream or a chunk that ends inside the
/// first bytes of a record, is refused. A stream may end between records only if the magic at its
/// end is not expected.
pub proof fn law_torn_stream_is_refused(host: Host, from: Config)
    requires
        from.ready(),
        from.reader.first_read() is RecordHeader || from.reader.first_read() is ChunkRecordHeader,
        from.stream.available(from.reader.source).len() < RECORD_HEADER_LEN,
        from.stream.available(from.reader.source).len() == 0 ==> from.reader.source is Base
            && !from.reader.options.skip_end_magic,
    ensures
        call(host, from).failed(ErrorView::UnexpectedEof),
{
    let c0 = starting(from.reader, from.stream);
    let reads = lemma_settled(host, c0);
    lemma_run_done(host, settled(c0, reads));
}

/// A stream or a chunk that ends inside the contents of a record is refused, and used up.
pub proof fn law_torn_record_is_refused(
    host: Host,
    from: Config,
    opcode: u8,
    len: u64,
    part: Seq<u8>,
)
    requires
        from.ready(),
        from.reader.first_read() is RecordHeader || from.reader.first_read() is ChunkRecordHeader,
        from.stream.available(from.reader.source) == seq![opcode] + le_bytes(len as nat, 8) + part,
        part.len() < len,
        from.reader.source is Base && opcode == op::CHUNK ==> from.reader.options.emit_chunks,
    ensures
        call(host, from).failed(ErrorView::Io(host.eof)),
        call(host, from).reader.source == from.reader.source,
        call(host, from).stream.available(from.reader.source).len() == 0,
{
    let c0 = starting(from.reader, from.stream);
    let available = from.stream.available(from.reader.source);
    lemma_u64_round_trip(len);
    let reads = lemma_settled(host, c0);
    let c1 = settled(c0, reads);
    assert(with_head(c0, 9).scratch.subrange(1, 9) =~= le_bytes(len as nat, 8));
    assert(available.skip(9) =~= part);
    assert(c1.step == StepView::Await(Pending::Body { opcode, len }));
    lemma_step(host, c1);
    lemma_run_done(host, advance(host, c1));
}

/// A chunk whose compression has any name but `zstd`, `lz4` or the empty one is refused by that
/// name, and the reader keeps the base reader.
pub proof fn law_unknown_compression_is_refused(
    host: Host,
    from: Config,
    header: ChunkHeader<Seq<char>>,
    stored: Seq<u8>,
    rest: Seq<u8>,
)
    requires
        from.at_record(),
        !from.reader.options.emit_chunks,
        from.stream.base == record_bytes((op::CHUNK, chunk_header_bytes(header) + stored)) + rest,
        has_length((op::CHUNK, chunk_header_bytes(header) + stored)),
        header.compression != "zstd"@,
        header.compression != "lz4"@,
        header.compression != ""@,
        encode_utf8(header.compression).len() <= u32::MAX,
        header.compressed_size <= stored.len(),
    ensures
        call(host, from).failed(ErrorView::UnsupportedCompression(header.compression)),
        call(host, from).reader.source is Base,
        call(host, from).stream.base == stored + rest,
{
    let bytes = chunk_header_bytes(header);
    let record_len = (bytes + stored).len() as u64;
    assert(from.stream.base =~= seq![op::CHUNK] + le_bytes(record_len as nat, 8) + (bytes + (stored
        + rest)));
    let (reader, stream) = lemma_chunk_record(host, from, header, record_len, stored + rest);
    let (next, step) = after_whole_header(reader, record_len, header);
    lemma_run_done(host, Config { reader: next, stream, step });
}

/// A chunk is opened by the name of its compression: `zstd` and `lz4` choose the decompressor, with
/// the empty name the bytes of the chunk are the records, and with any other name it is not opened.
pub proof fn law_chunks_are_opened_by_name(
    reader: ReaderView,
    record_len: u64,
    compression_len: u32,
    header: ChunkHeader<Seq<char>>,
    opening: ChunkOpening,
)
    requires
        reader.after_chunk_header(record_len, compression_len, header).1 == StepView::OpenChunk(
            opening,
        ),
    ensures
        opening.compressed_size == header.compressed_size,
        match opening.compression {
            Some(Compression::Zstd) => header.compression == "zstd"@,
            Some(Compression::Lz4) => header.compression == "lz4"@,
            None => header.compression == ""@,
        },
        match opening.compression {
            Some(Compression::Zstd) => reader.after_opening(opening).0.source is ZstdChunk,
            Some(Compression::Lz4) => reader.after_opening(opening).0.source is Lz4Chunk,
            None => reader.after_opening(opening).0.source is UncompressedChunk,
        },
{
}

/// The records of a chunk are those that the decompressor gives that the name of its compression
/// stands for, or the bytes of the chunk itself if the name is empty, and they are read one after
/// the other from there.
pub proof fn law_chunk_is_decompressed_by_name(
    host: Host,
    from: Config,
    compression: Option<Compression>,
    header: ChunkHeader<Seq<char>>,
    stored: Seq<u8>,
    trailing: Seq<u8>,
    records: Seq<RawRecord>,
    rest: Seq<u8>,
)
    requires
        from.at_record(),
        !from.reader.options.emit_chunks,
        match compression {
            Some(Compression::Zstd) => {
                &&& header.compression == "zstd"@
                &&& (host.decoder)(Compression::Zstd, stored) == records_bytes(records)
            },
            Some(Compression::Lz4) => {
                &&& header.compression == "lz4"@
                &&& (host.decoder)(Compression::Lz4, stored) == records_bytes(records)
            },
            None => header.compression == ""@ && stored == records_bytes(records),
        },
        header.compressed_size == stored.len(),
        forall|i: int| 0 <= i < records.len() ==> has_length(#[trigger] records[i]),
        ({
            let body = chunk_header_bytes(header) + stored + trailing;
            let record = (op::CHUNK, body);
            has_length(record) && from.stream.base == record_bytes(record) + rest
        }),
    ensures
        forall|k: nat|
            0 < k <= records.len() ==> (#[trigger] calls(host, from, k)).yielded(records[k - 1]),
        records.len() > 0 ==> match compression {
            Some(Compression::Zstd) => call(host, from).reader.source is ZstdChunk,
            Some(Compression::Lz4) => call(host, from).reader.source is Lz4Chunk,
            None => call(host, from).reader.source is UncompressedChunk,
        },
{
    reveal_strlit("zstd");
    reveal_strlit("lz4");
    reveal_strlit("");
    lemma_names_are_short();
    let bytes = chunk_header_bytes(header);
    let record_len = (bytes + stored + trailing).len() as u64;
    let after = stored + (trailing + rest);
    let empty = Seq::<u8>::empty();
    assert(from.stream.base =~= seq![op::CHUNK] + le_bytes(record_len as nat, 8) + (bytes + after));
    let inside = lemma_enter_chunk(host, from, header, record_len, after);
    assert(after.take(stored.len() as int) =~= stored);
    assert(inside.stream.chunk =~= records_bytes(records) + empty);
    lemma_yields_none(host, from, inside);
    let end = lemma_chunk_records(host, inside, records, empty);
    lemma_yields_add(host, from, seq![], inside, records, end);
    assert(seq![] + records =~= records);
    if records.len() > 0 {
        let others = records_bytes(records.skip(1));
        assert(has_length(records[0]));
        lemma_in_chunk(host, inside, records[0], others);
    }
}

/// A chunk whose compression is not UTF-8 is refused for it, with the compression used up.
pub proof fn law_bad_compression_is_refused(
    host: Host,
    from: Config,
    first: Seq<u8>,
    name: Seq<u8>,
    record_len: u64,
    rest: Seq<u8>,
)
    requires
        from.at_record(),
        !from.reader.options.emit_chunks,
        first.len() == 32,
        le_u32(first.subrange(28, 32)) == name.len(),
        record_len >= 40 + name.len(),
        !valid_utf8(name),
        from.stream.base == seq![op::CHUNK] + le_bytes(record_len as nat, 8) + first + name + rest,
    ensures
        call(host, from).failed(ErrorView::Utf8 { pos: 32, err: utf8_error(name) }),
        call(host, from).stream.base == rest,
        call(host, from).reader.source is Base,
{
    let c0 = starting(from.reader, from.stream);
    lemma_u64_round_trip(record_len);
    let reads = lemma_settled(host, c0);
    let c1 = settled(c0, reads);
    assert(with_head(c0, 9).scratch.subrange(1, 9) =~= le_bytes(record_len as nat, 8));
    assert(c0.stream.base.skip(9) =~= first + (name + rest));
    assert(c1.step == StepView::Await(Pending::ChunkHeader { record_len, piece: Piece::Fixed }));
    lemma_fill_data(host, c1.reader, c1.stream, first, name + rest);
    lemma_step(host, c1);
    let c2 = advance(host, c1);
    lemma_fill_data(host, c2.reader, c2.stream, name, rest);
    lemma_step(host, c2);
    lemma_run_done(host, advance(host, c2));
}

/// A stream that ends inside a chunk header is refused, and used up.
#[verifier::rlimit(80)]
pub proof fn law_torn_chunk_header_is_refused(
    host: Host,
    from: Config,
    header: ChunkHeader<Seq<char>>,
    record_len: u64,
    len: int,
)
    requires
        from.at_record(),
        !from.reader.options.emit_chunks,
        encode_utf8(header.compression).len() <= u32::MAX,
        0 <= len < chunk_header_bytes(header).len() <= record_len,
        from.stream.base == seq![op::CHUNK] + le_bytes(record_len as nat, 8) + chunk_header_bytes(
            header,
        ).take(len),
    ensures
        call(host, from).failed(ErrorView::Io(host.eof)),
        call(host, from).stream.base.len() == 0,
        call(host, from).reader.source is Base,
{
    let bytes = chunk_header_bytes(header);
    let part = bytes.take(len);
    let n = encode_utf8(header.compression).len() as int;
    let fixed = lemma_pieces(header, record_len);
    let c0 = starting(from.reader, from.stream);
    lemma_u64_round_trip(record_len);
    let reads = lemma_settled(host, c0);
    let c1 = settled(c0, reads);
    assert(with_head(c0, 9).scratch.subrange(1, 9) =~= le_bytes(record_len as nat, 8));
    assert(c0.stream.base.skip(9) =~= part);
    assert(c1.step == StepView::Await(Pending::ChunkHeader { record_len, piece: Piece::Fixed }));
    lemma_step(host, c1);
    let c2 = advance(host, c1);
    if len < 32 {
        lemma_run_done(host, c2);
    } else {
        assert(part =~= bytes.take(32) + part.skip(32));
        lemma_fill_data(host, c1.reader, c1.stream, bytes.take(32), part.skip(32));
        assert(c2.step == StepView::Await(
            Pending::ChunkHeader { record_len, piece: Piece::Compression { fixed } },
        ));
        lemma_step(host, c2);
        let c3 = advance(host, c2);
        if len < 32 + n {
            lemma_run_done(host, c3);
        } else {
            let name = bytes.subrange(32, 32 + n);
            assert(part.skip(32) =~= name + part.skip(32 + n));
            lemma_fill_data(host, c2.reader, c2.stream, name, part.skip(32 + n));
            lemma_step(host, c3);
            lemma_run_done(host, advance(host, c3));
        }
    }
}

/// A stream that ends inside what is skipped after a chunk is refused, and used up.
pub proof fn law_torn_chunk_record_is_refused(host: Host, from: Config)
    requires
        from.ready(),
        !(from.reader.source is Base),
        from.stream.chunk.len() == 0,
        from.stream.base.len() < from.reader.to_discard_after_chunk,
    ensures
        call(host, from).failed(ErrorView::Io(host.eof)),
        call(host, from).stream.base.len() == 0,
        call(host, from).reader.source is Base,
{
    let c0 = starting(from.reader, from.stream);
    lemma_step(host, c0);
    let c1 = advance(host, c0);
    lemma_step(host, c1);
    lemma_torn_discard(host, advance(host, c1));
}

/// The next record is yielded as it stands in the file or in the chunk, and nothing else changes in
/// the reader but that a footer was seen, if it is one and stands in the file by itself.
pub proof fn law_next_record_is_yielded(
    host: Host,
    from: Config,
    record: RawRecord,
    rest: Seq<u8>,
)
    requires
        from.at_record() || (from.ready() && !(from.reader.source is Base)),
        has_length(record),
        from.at_record() && record.0 == op::CHUNK ==> from.reader.options.emit_chunks,
        from.stream.available(from.reader.source) == record_bytes(record) + rest,
    ensures
        ({
            let to = call(host, from);
            let base = from.reader.source is Base;
            &&& to.yielded(record)
            &&& to.stream.available(from.reader.source) == rest
            &&& !base ==> to.stream.base == from.stream.base
            &&& to.reader == ReaderView {
                footer_seen: from.reader.footer_seen || (base && record.0 == op::FOOTER),
                scratch: to.reader.scratch,
                ..from.reader
            }
        }),
{
    if from.reader.source is Base {
        lemma_single(host, from, record, rest);
    } else {
        lemma_in_chunk(host, from, record, rest);
    }
}

/// The end of a chunk leads to what comes after the chunk record, as if the chunk had not been.
pub proof fn law_chunk_is_left_at_its_end(
    host: Host,
    from: Config,
    after: Config,
    trailing: Seq<u8>,
    rest: Seq<u8>,
)
    requires
        from.ready(),
        !(from.reader.source is Base),
        from.stream.chunk.len() == 0,
        from.reader.to_discard_after_chunk == trailing.len(),
        from.stream.base == trailing + rest,
        after.reader == (ReaderView { source: Source::Base, ..from.reader }),
        after.stream == (Stream { base: rest, ..from.stream }),
    ensures
        alike(call(host, from), call(host, after)),
        call(host, from).stream.data == call(host, after).stream.data,
{
    let to = lemma_leave_chunk(host, from, trailing, rest);
    lemma_alike_run(
        host,
        host,
        starting(to.reader, to.stream),
        starting(after.reader, after.stream),
    );
}

/// A chunk record that is too short for a chunk header is refused.
pub proof fn law_short_chunk_record_is_refused(
    host: Host,
    from: Config,
    body: Seq<u8>,
    rest: Seq<u8>,
)
    requires
        from.at_record(),
        !from.reader.options.emit_chunks,
        from.stream.base == record_bytes((op::CHUNK, body)) + rest,
        body.len() < MIN_LEN,
    ensures
        call(host, from).failed(
            ErrorView::RecordTooShort {
                opcode: op::CHUNK,
                len: body.len() as u64,
                expected: MIN_LEN,
            },
        ),
        call(host, from).reader.source is Base,
        call(host, from).stream.base == body + rest,
{
    let c0 = starting(from.reader, from.stream);
    let (reader, stream) = lemma_head(host, c0, (op::CHUNK, body), rest);
    let (next, step) = after_head(reader, 0, 9);
    lemma_run_done(host, Config { reader: next, stream, step });
}

/// A chunk record that is too short for the compression that its header announces is refused after
/// the first piece of the header, with the caller's buffer as long as the compression.
pub proof fn law_overlong_compression_is_refused(
    host: Host,
    from: Config,
    first: Seq<u8>,
    record_len: u64,
    rest: Seq<u8>,
)
    requires
        from.at_record(),
        !from.reader.options.emit_chunks,
        first.len() == FIXED_LEN,
        40 <= record_len < 40 + le_u32(first.subrange(28, 32)),
        from.stream.base == seq![op::CHUNK] + le_bytes(record_len as nat, 8) + first + rest,
    ensures
        ({
            let to = call(host, from);
            let len = le_u32(first.subrange(28, 32));
            &&& to.failed(
                ErrorView::RecordTooShort {
                    opcode: op::CHUNK,
                    len: record_len,
                    expected: (40 + len) as u64,
                },
            )
            &&& to.stream.data == resized(first, len as nat)
            &&& to.stream.base == rest
            &&& to.reader.source is Base
        }),
{
    let c0 = starting(from.reader, from.stream);
    lemma_u64_round_trip(record_len);
    let reads = lemma_settled(host, c0);
    let c1 = settled(c0, reads);
    assert(with_head(c0, 9).scratch.subrange(1, 9) =~= le_bytes(record_len as nat, 8));
    assert(c0.stream.base.skip(9) =~= first + rest);
    assert(c1.step == StepView::Await(Pending::ChunkHeader { record_len, piece: Piece::Fixed }));
    lemma_fill_data(host, c1.reader, c1.stream, first, rest);
    lemma_step(host, c1);
    let c2 = advance(host, c1);
    lemma_step(host, c2);
    lemma_run_done(host, advance(host, c2));
}

/// A chunk that is longer than what its header leaves of the record is refused, whatever its
/// compression.
pub proof fn law_long_chunk_is_refused(
    host: Host,
    from: Config,
    header: ChunkHeader<Seq<char>>,
    stored: Seq<u8>,
    rest: Seq<u8>,
)
    requires
        from.at_record(),
        !from.reader.options.emit_chunks,
        from.stream.base == record_bytes((op::CHUNK, chunk_header_bytes(header) + stored)) + rest,
        has_length((op::CHUNK, chunk_header_bytes(header) + stored)),
        encode_utf8(header.compression).len() <= u32::MAX,
        header.compressed_size > stored.len(),
    ensures
        call(host, from).failed(
            ErrorView::BadChunkLength {
                header: header.compressed_size,
                available: stored.len() as u64,
            },
        ),
        call(host, from).reader.source is Base,
        call(host, from).stream.base == stored + rest,
{
    let bytes = chunk_header_bytes(header);
    let record_len = (bytes + stored).len() as u64;
    assert(from.stream.base =~= seq![op::CHUNK] + le_bytes(record_len as nat, 8) + (bytes + (stored
        + rest)));
    let (reader, stream) = lemma_chunk_record(host, from, header, record_len, stored + rest);
    let (next, step) = after_whole_header(reader, record_len, header);
    lemma_run_done(host, Config { reader: next, stream, step });
}

/// The header of a chunk record, the chunk, and what is skipped after the chunk make up the whole
/// record.
pub proof fn law_chunk_record_is_used_up(
    reader: ReaderView,
    record_len: u64,
    piece: Piece<Seq<char>>,
    data: Seq<u8>,
    n: usize,
)
    requires
        reader.awaits(Pending::ChunkHeader { record_len, piece }),
    ensures
        reader.after_read(
            Pending::ChunkHeader { record_len, piece },
            data,
            n,
        ).1 matches StepView::OpenChunk(opening) ==> {
            &&& piece matches Piece::Size { fixed, .. }
            &&& MIN_LEN + fixed.compression_len + opening.compressed_size + opening.trailing
                == record_len
        },
{
}

/// What a read changes in the reader: the options stay, what was seen stays seen, and the reader
/// that the bytes come from is given up only to open or to close a chunk.
pub proof fn law_progress_is_kept(
    reader: ReaderView,
    pending: Pending<Seq<char>>,
    data: Seq<u8>,
    n: usize,
)
    requires
        reader.awaits(pending),
    ensures
        ({
            let (next, step) = reader.after_read(pending, data, n);
            &&& next.options == reader.options
            &&& reader.start_magic_seen ==> next.start_magic_seen
            &&& reader.footer_seen ==> next.footer_seen
            &&& next.to_discard_after_chunk <= reader.to_discard_after_chunk
            &&& next.scratch == reader.scratch
            &&& if step is OpenChunk || step is CloseChunk {
                next.source is Empty
            } else {
                next.source == reader.source
            }
            &&& step is OpenChunk ==> reader.source is Base
            &&& step is CloseChunk ==> !(reader.source is Base)
        }),
{
}

/// A reader that is to yield chunk records as they are never looks into one: whatever the stream
/// holds, the base reader is at hand after every record.
pub proof fn law_chunks_can_be_left_alone(host: Host, from: Config, n: nat)
    requires
        from.ready(),
        from.reader.source is Base,
        from.reader.options.emit_chunks,
    ensures
        calls(host, from, n).reader.source is Base,
        calls(host, from, n).ready(),
    decreases n,
{
    lemma_calls_end(host, from, n);
    if n > 0 {
        let k = (n - 1) as nat;
        let before = calls(host, from, k);
        law_chunks_can_be_left_alone(host, from, k);
        lemma_calls_end(host, from, k);
        lemma_outside_run(host, starting(before.reader, before.stream));
    }
}

/// The magic at the start can be skipped: a reader that does not expect it, on some bytes, and a
/// reader that does, on the magic and then the same bytes, come to the same outcomes with the same
/// bytes in the caller's buffer, after any number of records.
pub proof fn law_start_magic_can_be_skipped(
    host1: Host,
    host2: Host,
    options: RecordReaderOptions,
    stream1: Stream,
    stream2: Stream,
    n: nat,
)
    requires
        same_but_for_pace(host1, host2),
        stream2.base == MAGIC@ + stream1.base,
        stream2.data == stream1.data,
        n > 0,
    ensures
        ({
            let a = fresh(RecordReaderOptions { skip_start_magic: true, ..options }, stream1);
            let b = fresh(RecordReaderOptions { skip_start_magic: false, ..options }, stream2);
            let x = calls(host1, a, n);
            let y = calls(host2, b, n);
            &&& x.step == y.step
            &&& x.stream.data == y.stream.data
            &&& x.stream.base == y.stream.base
            &&& alike(x, y)
        }),
{
    let expecting = RecordReaderOptions { skip_start_magic: false, ..options };
    let a = fresh(RecordReaderOptions { skip_start_magic: true, ..options }, stream1);
    let b = fresh(expecting, stream2);
    let past = lemma_start(host2, expecting, stream2, stream1.base);
    lemma_calls_same(host2, b, past, n);
    lemma_alike_calls(host1, host2, a, past, n);
}

/// The magic at the end can be skipped: the end of the stream is the end then, where a record could
/// start, and nothing else is.
pub proof fn law_end_magic_can_be_skipped(host: Host, from: Config)
    requires
        from.ready(),
        from.reader.options.skip_end_magic,
    ensures
        call(host, from).ended() ==> {
            &&& call(host, from).stream.base.len() == 0
            &&& call(host, from).reader.source is Base
        },
        from.at_record() && from.stream.base.len() == 0 ==> {
            &&& call(host, from).ended()
            &&& call(host, from).stream.data == from.stream.data
        },
{
    let c0 = starting(from.reader, from.stream);
    lemma_end_run(host, c0);
    if from.at_record() && from.stream.base.len() == 0 {
        lemma_step(host, c0);
        lemma_run_done(host, advance(host, c0));
    }
}

/// The footer of a file is found in the last bytes of the file, whatever comes before them.
pub proof fn law_footer_is_found(before: Seq<u8>, footer: Footer)
    ensures
        ({
            let file = before + record_bytes((op::FOOTER, put_footer(footer, seq![]))) + MAGIC@;
            footer_in(file.skip(file.len() - FOOTER_LEN_BYTES)) == Ok::<Footer, ErrorView>(footer)
        }),
{
    let body = put_footer(footer, seq![]);
    lemma_u64_round_trip(footer.summary_start);
    lemma_u64_round_trip(footer.summary_offset_start);
    lemma_u32_round_trip(footer.summary_crc);
    assert(body.len() == 20);
    lemma_u64_round_trip(20);
    let file = before + record_bytes((op::FOOTER, body)) + MAGIC@;
    let buf = file.skip(file.len() - FOOTER_LEN_BYTES);
    assert(buf.skip(29) =~= MAGIC@);
    assert(buf.subrange(9, 29) =~= body);
    law_record_is_read_back(Record::Footer(footer), seq![]);
}

/// The footer is whatever the last bytes of a file say if they are marked as a footer and end with
/// the magic: no such bytes are refused.
pub proof fn law_footer_is_never_refused(buf: Seq<u8>)
    requires
        buf.len() == FOOTER_LEN_BYTES,
        buf[0] == op::FOOTER,
        buf.skip(29) == MAGIC@,
    ensures
        footer_in(buf) == Ok::<Footer, ErrorView>(
            Footer {
                summary_start: le_u64(buf.subrange(9, 17)),
                summary_offset_start: le_u64(buf.subrange(17, 25)),
                summary_crc: le_u32(buf.subrange(25, 29)),
            },
        ),
{
    let body = buf.subrange(9, 29);
    assert(body.subrange(0, 8) =~= buf.subrange(9, 17));
    assert(body.subrange(8, 16) =~= buf.subrange(17, 25));
    assert(body.subrange(16, 20) =~= buf.subrange(25, 29));
}

/// The footer at the end of a file is the last record that is read in order: if a file was read to
/// the end, which came with the last bytes of the file, and the last record has the length of a
/// footer, then it is the footer that the last bytes of the file give.
#[verifier::rlimit(30)]
pub proof fn law_footer_is_the_last_record(
    host: Host,
    options: RecordReaderOptions,
    stream: Stream,
    records: Seq<RawRecord>,
)
    requires
        !options.skip_end_magic,
        reads(host, fresh(options, stream), records),
        calls(host, fresh(options, stream), records.len() + 1).stream.base.len() == 0,
        records.last().1.len() == FOOTER_LEN_BYTES - RECORD_HEADER_LEN - MAGIC_LEN,
    ensures
        records.len() > 0,
        records.last().0 == op::FOOTER,
        stream.base.len() >= FOOTER_LEN_BYTES,
        parsed(op::FOOTER, records.last().1) matches Ok(Record::Footer(footer)) && footer_in(
            stream.base.skip(stream.base.len() - FOOTER_LEN_BYTES),
        ) == Ok::<Footer, ErrorView>(footer),
{
    let from = fresh(options, stream);
    let file = stream.base;
    let n = records.len();
    let last = calls(host, from, n);
    law_end_comes_after_the_footer(host, options, stream, n);
    let k = choose|k: nat|
        0 < k <= n && (#[trigger] calls(host, from, k)).step == StepView::Done(
            Some(Ok(op::FOOTER)),
        ) && calls(host, from, k).reader.source is Base;
    lemma_footer_calls(host, options, stream, k);
    if k < n {
        lemma_end_magic(host, calls(host, from, k));
        assert(calls(host, from, k + 1).yielded(records[k as int]));
    }
    assert(calls(host, from, n).yielded(records[n - 1]));
    lemma_placed_calls(host, from, n);
    assert(last.stream.base =~= MAGIC@);
    let at = file.len() - 8;
    let buf = file.skip(file.len() - FOOTER_LEN_BYTES);
    assert(buf[0] == op::FOOTER);
    assert(buf.subrange(9, 29) =~= file.subrange(at - 20, at));
    assert(buf.skip(29) =~= file.skip(at));
    law_footer_is_never_refused(buf);
}

/// Whether the header of a chunk record that consists of `body` comes out as `header` when it is
/// read piece by piece.
pub open spec fn pieces_give(body: Seq<u8>, header: ChunkHeader<Seq<char>>) -> bool {
    let len = body.len() as u64;
    let fixed = fixed_part(body.take(32));
    let n = fixed.compression_len as int;
    let name = body.subrange(32, 32 + n);
    &&& first_piece(len) is Ok
    &&& after_piece(len, Piece::Fixed, body.take(32)) == Ok::<Progress<Seq<char>>, ErrorView>(
        Progress::Next(Piece::Compression { fixed }),
    )
    &&& after_piece(len, Piece::Compression { fixed }, name) is Ok
    &&& after_piece(
        len,
        Piece::Size { fixed, compression: decode_utf8(name) },
        body.subrange(32 + n, 40 + n),
    ) == Ok::<Progress<Seq<char>>, ErrorView>(Progress::Complete(header))
}

/// It makes no difference for the header of a chunk whether the chunk is opened or its record is
/// yielded whole and then parsed.
pub proof fn law_chunk_header_is_read_either_way(body: Seq<u8>, header: ChunkHeader<Seq<char>>)
    requires
        body.len() <= u64::MAX,
    ensures
        pieces_give(body, header) <==> (parsed(op::CHUNK, body) matches Ok(
            Record::Chunk { header: found, .. },
        ) && found == header),
{
    let c0 = Cur::start(body);
    let first = body.take(32);
    let fixed = fixed_part(first);
    let n = fixed.compression_len as int;
    if body.len() >= MIN_LEN {
        assert(first.subrange(0, 8) =~= body.subrange(0, 8));
        assert(first.subrange(8, 16) =~= body.subrange(8, 16));
        assert(first.subrange(16, 24) =~= body.subrange(16, 24));
        assert(first.subrange(24, 28) =~= body.subrange(24, 28));
        assert(first.subrange(28, 32) =~= body.subrange(28, 32));
        let c1 = c0.u64().1.u64().1.u64().1.u32().1;
        assert(c1 == (Cur { at: 28, ..c0 }));
        assert(c1.u32().0 == fixed.compression_len);
        assert(c1.text().1.err is None <==> 32 + n <= body.len() && valid_utf8(
            body.subrange(32, 32 + n),
        ));
    } else {
        assert(c0.chunk_header().1.err is Some);
    }
}

} // verus!
