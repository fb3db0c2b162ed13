//! Laws of the values that are made of what was read.

use crate::codec::{le_u16, le_u32, le_u64};
use crate::cursor::Cur;
use crate::decode::{
    holds, law_record_stands_in_its_contents, law_refused_contents_are_wrong, wrong_with,
};
use crate::encode::{
    law_record_is_read_back, lemma_chunk_header, ok_record, put_chunk_header, put_footer,
    put_record,
};
use crate::error::ErrorView;
use crate::lemmas::written::{lemma_in_chunk, lemma_single};
use crate::parse::parsed;
use crate::read::{footer_in, record_read};
use crate::records::{op, ChunkHeader, Footer, Record, RecordView};
use crate::stream::{call, has_length, record_bytes, Config, Host};
use crate::MAGIC;
use vstd::prelude::*;
use vstd::utf8::{decode_utf8, encode_utf8};

verus! {

/// A record that was written down and whose raw contents were read is that record as a value.
pub proof fn law_value_is_read_back(record: RecordView, rest: Seq<u8>)
    requires
        ok_record(record),
        record is Message || record is Unknown ==> rest.len() == 0,
    ensures
        record_read(Some(Ok(record.opcode())), put_record(record, rest)) == Ok::<
            Option<RecordView>,
            ErrorView,
        >(Some(record)),
{
    law_record_is_read_back(record, rest);
}

/// The value of a raw record is a record with its opcode that stands in its contents, and there is
/// a value unless something is wrong with the contents.
pub proof fn law_value_stands_in_the_data(opcode: u8, data: Seq<u8>)
    requires
        data.len() <= u64::MAX,
    ensures
        match record_read(Some(Ok(opcode)), data) {
            Ok(Some(record)) => {
                &&& record.opcode() == opcode
                &&& ok_record(record)
                &&& exists|rest: Seq<u8>| holds(data, record, rest)
            },
            Ok(None) => false,
            Err(err) => wrong_with(opcode, data, err),
        },
{
    law_record_stands_in_its_contents(opcode, data);
    law_refused_contents_are_wrong(opcode, data);
}

/// Reading a record as a value makes of the raw record what parsing makes of it.
pub proof fn law_value_is_what_parsing_gives(
    opcode: u8,
    data: Seq<u8>,
    record: RecordView,
    err: ErrorView,
)
    ensures
        record_read(Some(Ok(opcode)), data) == Ok::<Option<RecordView>, ErrorView>(Some(record))
            <==> parsed(opcode, data) == Ok::<RecordView, ErrorView>(record),
        record_read(Some(Ok(opcode)), data) == Err::<Option<RecordView>, ErrorView>(err)
            <==> parsed(opcode, data) == Err::<RecordView, ErrorView>(err),
{
}

/// Reading a record as a value fails as reading the raw record failed, and comes to the end exactly
/// if reading the raw record did.
pub proof fn law_failures_are_passed_on(
    outcome: Option<Result<u8, ErrorView>>,
    data: Seq<u8>,
    err: ErrorView,
)
    ensures
        record_read(Some(Err(err)), data) == Err::<Option<RecordView>, ErrorView>(err),
        record_read(outcome, data) == Ok::<Option<RecordView>, ErrorView>(None) <==> outcome
            is None,
{
}

/// The record that reading as a value gives if reading the raw record led to `config`.
pub open spec fn value_of(config: Config) -> Result<Option<RecordView>, ErrorView> {
    record_read(config.step->Done_0, config.stream.data)
}

/// A record that was written into a file, by itself or in a chunk, is read as the value that it
/// was.
pub proof fn law_record_in_a_file_is_read_as_a_value(
    host: Host,
    from: Config,
    record: RecordView,
    rest: Seq<u8>,
)
    requires
        ok_record(record),
        from.at_record() || (from.ready() && !(from.reader.source is Base)),
        from.at_record() && record is Chunk ==> from.reader.options.emit_chunks,
        has_length((record.opcode(), put_record(record, seq![]))),
        from.stream.available(from.reader.source) == record_bytes(
            (record.opcode(), put_record(record, seq![])),
        ) + rest,
    ensures
        value_of(call(host, from)) == Ok::<Option<RecordView>, ErrorView>(Some(record)),
        call(host, from).stream.available(from.reader.source) == rest,
{
    let raw = (record.opcode(), put_record(record, seq![]));
    law_value_is_read_back(record, seq![]);
    if from.reader.source is Base {
        lemma_single(host, from, raw, rest);
    } else {
        lemma_in_chunk(host, from, raw, rest);
    }
}

/// The last bytes of a file that do not end with the magic give no footer, whatever else they hold.
pub proof fn law_footer_needs_the_magic(buf: Seq<u8>)
    requires
        buf.len() == 37,
        buf.skip(29) != MAGIC@,
    ensures
        footer_in(buf) == Err::<Footer, ErrorView>(ErrorView::BadMagic),
{
}

/// A footer is made only of bytes that are a footer: the opcode, what is written for the footer
/// where its contents are, and the magic.
pub proof fn law_footer_stands_in_the_last_bytes(buf: Seq<u8>)
    requires
        buf.len() == 37,
    ensures
        footer_in(buf) matches Ok(footer) ==> {
            &&& buf[0] == op::FOOTER
            &&& buf.subrange(9, 29) == put_footer(footer, seq![])
            &&& buf.skip(29) == MAGIC@
        },
{
    if let Ok(footer) = footer_in(buf) {
        let body = buf.subrange(9, 29);
        law_record_stands_in_its_contents(buf[0], body);
        let record = Record::Footer(footer);
        let rest = choose|rest: Seq<u8>| holds(body, record, rest);
        lemma_footer_len(footer, rest);
        assert(rest =~= seq![]);
    }
}

proof fn lemma_footer_len(footer: Footer, rest: Seq<u8>)
    ensures
        put_footer(footer, rest).len() == 20 + rest.len(),
{
    broadcast use crate::codec::lemma_le_bytes_len;

}

/// The last bytes of a file that end with the magic but hold another record give that record away,
/// or what is wrong with it.
pub proof fn law_other_records_are_no_footer(buf: Seq<u8>)
    requires
        buf.len() == 37,
        buf.skip(29) == MAGIC@,
        buf[0] != op::FOOTER,
    ensures
        match parsed(buf[0], buf.subrange(9, 29)) {
            Ok(_) => footer_in(buf) == Err::<Footer, ErrorView>(
                ErrorView::UnexpectedRecord { expected: op::FOOTER, recieved: buf[0] },
            ),
            Err(err) => footer_in(buf) == Err::<Footer, ErrorView>(err),
        },
{
    law_record_stands_in_its_contents(buf[0], buf.subrange(9, 29));
}

/// A chunk record whose header says more than what comes after the header is refused for it, with
/// both numbers.
pub proof fn law_cut_chunk_is_refused(header: ChunkHeader<Seq<char>>, rest: Seq<u8>)
    requires
        encode_utf8(header.compression).len() <= u32::MAX,
        rest.len() < header.compressed_size,
    ensures
        parsed(op::CHUNK, put_chunk_header(header, rest)) == Err::<RecordView, ErrorView>(
            ErrorView::BadChunkLength {
                header: header.compressed_size,
                available: rest.len() as u64,
            },
        ),
{
    let bytes = put_chunk_header(header, rest);
    let start = Cur::start(bytes);
    assert(bytes.skip(0) =~= bytes);
    lemma_chunk_header(start, header, rest);
    let next = start.chunk_header().1;
    assert(next.bytes.skip(next.at).len() == next.left());
}

/// A message is its channel, its sequence number, the time of its log and the time of its
/// publication, in this order, and then the message to the end of the record.
pub proof fn law_message_layout(body: Seq<u8>)
    ensures
        parsed(op::MESSAGE, body) is Ok <==> body.len() >= 22,
        parsed(op::MESSAGE, body) matches Ok(record) ==> {
            &&& record matches Record::Message { header, data }
            &&& header.channel_id == le_u16(body.subrange(0, 2))
            &&& header.sequence == le_u32(body.subrange(2, 6))
            &&& header.log_time == le_u64(body.subrange(6, 14))
            &&& header.publish_time == le_u64(body.subrange(14, 22))
            &&& data == body.skip(22)
        },
{
    if body.len() >= 22 {
        assert(body.subrange(22, body.len() as int) =~= body.skip(22));
    }
}

/// The end of the data is a checksum.
pub proof fn law_data_end_layout(body: Seq<u8>)
    ensures
        parsed(op::DATA_END, body) is Ok <==> body.len() >= 4,
        parsed(op::DATA_END, body) matches Ok(record) ==> {
            &&& record matches Record::DataEnd(end)
            &&& end.data_section_crc == le_u32(body.subrange(0, 4))
        },
{
}

/// A summary offset is the opcode of the group, where the group starts, and how long it is.
pub proof fn law_summary_offset_layout(body: Seq<u8>)
    ensures
        parsed(op::SUMMARY_OFFSET, body) is Ok <==> body.len() >= 17,
        parsed(op::SUMMARY_OFFSET, body) matches Ok(record) ==> {
            &&& record matches Record::SummaryOffset(offset)
            &&& offset.group_opcode == body[0]
            &&& offset.group_start == le_u64(body.subrange(1, 9))
            &&& offset.group_length == le_u64(body.subrange(9, 17))
        },
{
}

/// A chunk record is told by its fields: four numbers, the name of the compression with its length
/// in front, the size of the chunk, and the chunk.
pub proof fn law_chunk_layout(body: Seq<u8>)
    ensures
        parsed(op::CHUNK, body) matches Ok(record) ==> {
            let n = le_u32(body.subrange(28, 32));
            &&& record matches Record::Chunk { header, data }
            &&& body.len() >= 40 + n + header.compressed_size
            &&& header.message_start_time == le_u64(body.subrange(0, 8))
            &&& header.message_end_time == le_u64(body.subrange(8, 16))
            &&& header.uncompressed_size == le_u64(body.subrange(16, 24))
            &&& header.uncompressed_crc == le_u32(body.subrange(24, 28))
            &&& header.compression == decode_utf8(body.subrange(32, 32 + n))
            &&& header.compressed_size == le_u64(body.subrange(32 + n, 40 + n))
            &&& data == body.subrange(40 + n, 40 + n + header.compressed_size)
        },
{
}

/// A record with an opcode that is not known is all of its contents.
pub proof fn law_unknown_records_are_kept(opcode: u8, body: Seq<u8>)
    requires
        opcode == 0 || opcode > 15,
    ensures
        parsed(opcode, body) == Ok::<RecordView, ErrorView>(
            Record::Unknown { opcode, data: body },
        ),
{
    assert(body.subrange(0, body.len() as int) =~= body);
}

} // verus!
