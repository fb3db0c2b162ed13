//! How records are written down, and that they are read back.
//!
//! Each function here gives the bytes of something followed by `rest`.

use crate::codec::{law_le_round_trip, le_bytes, lemma_le_bytes_len};
use crate::cursor::Cur;
use crate::error::ErrorView;
use crate::parse::parsed;
use crate::records::{
    op, AttachmentHeader, AttachmentIndex, Channel, ChunkHeader, ChunkIndex, DataEnd, Footer,
    Header, MessageHeader, MessageIndex, Metadata, MetadataIndex, Record, RecordView,
    SchemaHeader, Statistics, SummaryOffset, Text, TextPairs,
};
use vstd::arithmetic::power::pow;
use vstd::prelude::*;
use vstd::utf8::encode_utf8;

verus! {

pub open spec fn put_u8(value: u8, rest: Seq<u8>) -> Seq<u8> {
    seq![value] + rest
}

pub open spec fn put_u16(value: u16, rest: Seq<u8>) -> Seq<u8> {
    le_bytes(value as nat, 2) + rest
}

pub open spec fn put_u32(value: u32, rest: Seq<u8>) -> Seq<u8> {
    le_bytes(value as nat, 4) + rest
}

pub open spec fn put_u64(value: u64, rest: Seq<u8>) -> Seq<u8> {
    le_bytes(value as nat, 8) + rest
}

/// Bytes, with their number in front.
pub open spec fn put_bytes32(bytes: Seq<u8>, rest: Seq<u8>) -> Seq<u8> {
    put_u32(bytes.len() as u32, bytes + rest)
}

/// Bytes, with their number in front.
pub open spec fn put_bytes64(bytes: Seq<u8>, rest: Seq<u8>) -> Seq<u8> {
    put_u64(bytes.len() as u64, bytes + rest)
}

pub open spec fn put_text(text: Text, rest: Seq<u8>) -> Seq<u8> {
    put_bytes32(encode_utf8(text), rest)
}

pub open spec fn all_text_pairs_bytes(pairs: TextPairs) -> Seq<u8>
    decreases pairs.len(),
{
    if pairs.len() == 0 {
        seq![]
    } else {
        put_text(pairs[0].0, put_text(pairs[0].1, all_text_pairs_bytes(pairs.skip(1))))
    }
}

pub open spec fn all_by_channel_bytes(pairs: Seq<(u16, u64)>) -> Seq<u8>
    decreases pairs.len(),
{
    if pairs.len() == 0 {
        seq![]
    } else {
        put_u16(pairs[0].0, put_u64(pairs[0].1, all_by_channel_bytes(pairs.skip(1))))
    }
}

pub open spec fn all_index_entries_bytes(pairs: Seq<(u64, u64)>) -> Seq<u8>
    decreases pairs.len(),
{
    if pairs.len() == 0 {
        seq![]
    } else {
        put_u64(pairs[0].0, put_u64(pairs[0].1, all_index_entries_bytes(pairs.skip(1))))
    }
}

pub open spec fn put_text_pairs(pairs: TextPairs, rest: Seq<u8>) -> Seq<u8> {
    put_bytes32(all_text_pairs_bytes(pairs), rest)
}

pub open spec fn put_by_channel(pairs: Seq<(u16, u64)>, rest: Seq<u8>) -> Seq<u8> {
    put_bytes32(all_by_channel_bytes(pairs), rest)
}

pub open spec fn put_index_entries(pairs: Seq<(u64, u64)>, rest: Seq<u8>) -> Seq<u8> {
    put_bytes32(all_index_entries_bytes(pairs), rest)
}

pub open spec fn put_header(value: Header<Text>, rest: Seq<u8>) -> Seq<u8> {
    put_text(value.profile, put_text(value.library, rest))
}

pub open spec fn put_footer(value: Footer, rest: Seq<u8>) -> Seq<u8> {
    put_u64(value.summary_start,
    put_u64(value.summary_offset_start,
    put_u32(value.summary_crc, rest)))
}

pub open spec fn put_schema_header(value: SchemaHeader<Text>, rest: Seq<u8>) -> Seq<u8> {
    put_u16(value.id, put_text(value.name, put_text(value.encoding, rest)))
}

pub open spec fn put_channel(value: Channel<Text, TextPairs>, rest: Seq<u8>) -> Seq<u8> {
    put_u16(value.id,
    put_u16(value.schema_id,
    put_text(value.topic,
    put_text(value.message_encoding,
    put_text_pairs(value.metadata, rest)))))
}

pub open spec fn put_message_header(value: MessageHeader, rest: Seq<u8>) -> Seq<u8> {
    put_u16(value.channel_id,
    put_u32(value.sequence,
    put_u64(value.log_time,
    put_u64(value.publish_time, rest))))
}

pub open spec fn put_chunk_header(value: ChunkHeader<Text>, rest: Seq<u8>) -> Seq<u8> {
    put_u64(value.message_start_time,
    put_u64(value.message_end_time,
    put_u64(value.uncompressed_size,
    put_u32(value.uncompressed_crc,
    put_text(value.compression,
    put_u64(value.compressed_size, rest))))))
}

pub open spec fn put_message_index(value: MessageIndex<Seq<(u64, u64)>>, rest: Seq<u8>) -> Seq<u8> {
    put_u16(value.channel_id, put_index_entries(value.records, rest))
}

pub open spec fn put_chunk_index(
    value: ChunkIndex<Text, Seq<(u16, u64)>>,
    rest: Seq<u8>,
) -> Seq<u8> {
    put_u64(value.message_start_time,
    put_u64(value.message_end_time,
    put_u64(value.chunk_start_offset,
    put_u64(value.chunk_length,
    put_by_channel(value.message_index_offsets,
    put_u64(value.message_index_length,
    put_text(value.compression,
    put_u64(value.compressed_size,
    put_u64(value.uncompressed_size, rest)))))))))
}

pub open spec fn put_attachment_header(value: AttachmentHeader<Text>, rest: Seq<u8>) -> Seq<u8> {
    put_u64(value.log_time,
    put_u64(value.create_time,
    put_text(value.name,
    put_text(value.media_type, rest))))
}

pub open spec fn put_attachment_index(value: AttachmentIndex<Text>, rest: Seq<u8>) -> Seq<u8> {
    put_u64(value.offset,
    put_u64(value.length,
    put_u64(value.log_time,
    put_u64(value.create_time,
    put_u64(value.data_size,
    put_text(value.name,
    put_text(value.media_type, rest)))))))
}

pub open spec fn put_statistics(value: Statistics<Seq<(u16, u64)>>, rest: Seq<u8>) -> Seq<u8> {
    put_u64(value.message_count,
    put_u16(value.schema_count,
    put_u32(value.channel_count,
    put_u32(value.attachment_count,
    put_u32(value.metadata_count,
    put_u32(value.chunk_count,
    put_u64(value.message_start_time,
    put_u64(value.message_end_time,
    put_by_channel(value.channel_message_counts, rest)))))))))
}

pub open spec fn put_metadata(value: Metadata<Text, TextPairs>, rest: Seq<u8>) -> Seq<u8> {
    put_text(value.name, put_text_pairs(value.metadata, rest))
}

pub open spec fn put_metadata_index(value: MetadataIndex<Text>, rest: Seq<u8>) -> Seq<u8> {
    put_u64(value.offset, put_u64(value.length, put_text(value.name, rest)))
}

pub open spec fn put_summary_offset(value: SummaryOffset, rest: Seq<u8>) -> Seq<u8> {
    put_u8(value.group_opcode,
    put_u64(value.group_start,
    put_u64(value.group_length, rest)))
}

pub open spec fn put_data_end(value: DataEnd, rest: Seq<u8>) -> Seq<u8> {
    put_u32(value.data_section_crc, rest)
}

/// Whether the number of bytes can be written down in four bytes.
pub open spec fn short(bytes: Seq<u8>) -> bool {
    bytes.len() <= u32::MAX
}

pub open spec fn ok_text(text: Text) -> bool {
    short(encode_utf8(text))
}

pub open spec fn ok_text_pair(pair: (Text, Text)) -> bool {
    ok_text(pair.0) && ok_text(pair.1)
}

pub open spec fn ok_text_pairs(pairs: TextPairs) -> bool {
    &&& short(all_text_pairs_bytes(pairs))
    &&& forall|i: int| 0 <= i < pairs.len() ==> ok_text_pair(#[trigger] pairs[i])
}

pub open spec fn ok_header(value: Header<Text>) -> bool {
    &&& ok_text(value.profile)
    &&& ok_text(value.library)
}

pub open spec fn ok_schema_header(value: SchemaHeader<Text>) -> bool {
    &&& ok_text(value.name)
    &&& ok_text(value.encoding)
}

pub open spec fn ok_channel(value: Channel<Text, TextPairs>) -> bool {
    &&& ok_text(value.topic)
    &&& ok_text(value.message_encoding)
    &&& ok_text_pairs(value.metadata)
}

pub open spec fn ok_chunk_header(value: ChunkHeader<Text>) -> bool {
    &&& ok_text(value.compression)
}

pub open spec fn ok_message_index(value: MessageIndex<Seq<(u64, u64)>>) -> bool {
    &&& short(all_index_entries_bytes(value.records))
}

pub open spec fn ok_chunk_index(value: ChunkIndex<Text, Seq<(u16, u64)>>) -> bool {
    &&& short(all_by_channel_bytes(value.message_index_offsets))
    &&& ok_text(value.compression)
}

pub open spec fn ok_attachment_header(value: AttachmentHeader<Text>) -> bool {
    &&& ok_text(value.name)
    &&& ok_text(value.media_type)
}

pub open spec fn ok_attachment_index(value: AttachmentIndex<Text>) -> bool {
    &&& ok_text(value.name)
    &&& ok_text(value.media_type)
}

pub open spec fn ok_statistics(value: Statistics<Seq<(u16, u64)>>) -> bool {
    &&& short(all_by_channel_bytes(value.channel_message_counts))
}

pub open spec fn ok_metadata(value: Metadata<Text, TextPairs>) -> bool {
    &&& ok_text(value.name)
    &&& ok_text_pairs(value.metadata)
}

pub open spec fn ok_metadata_index(value: MetadataIndex<Text>) -> bool {
    &&& ok_text(value.name)
}

/// The contents of a record, followed by `rest`. What a message, or a record of an unknown kind,
/// consists of is not marked off, so that `rest` would be part of it.
pub open spec fn put_record(record: RecordView, rest: Seq<u8>) -> Seq<u8> {
    match record {
        Record::Header(value) => put_header(value, rest),
        Record::Footer(value) => put_footer(value, rest),
        Record::Schema { header, data } => put_schema_header(header, put_bytes32(data, rest)),
        Record::Channel(value) => put_channel(value, rest),
        Record::Message { header, data } => put_message_header(header, data + rest),
        Record::Chunk { header, data } => put_chunk_header(header, data + rest),
        Record::MessageIndex(value) => put_message_index(value, rest),
        Record::ChunkIndex(value) => put_chunk_index(value, rest),
        Record::Attachment { header, data, crc } => put_attachment_header(
            header,
            put_bytes64(data, put_u32(crc, rest)),
        ),
        Record::AttachmentIndex(value) => put_attachment_index(value, rest),
        Record::Statistics(value) => put_statistics(value, rest),
        Record::Metadata(value) => put_metadata(value, rest),
        Record::MetadataIndex(value) => put_metadata_index(value, rest),
        Record::SummaryOffset(value) => put_summary_offset(value, rest),
        Record::DataEnd(value) => put_data_end(value, rest),
        Record::Unknown { data, .. } => data + rest,
    }
}

/// Whether an opcode is that of a kind of record that is known.
pub open spec fn known(opcode: u8) -> bool {
    op::HEADER <= opcode <= op::DATA_END
}

/// Whether a record can be written down: whether its texts, lists and bytes are not too long for
/// their lengths, and a chunk has the length that its header says.
pub open spec fn ok_record(record: RecordView) -> bool {
    match record {
        Record::Header(value) => ok_header(value),
        Record::Footer(_) => true,
        Record::Schema { header, data } => ok_schema_header(header) && short(data),
        Record::Channel(value) => ok_channel(value),
        Record::Message { .. } => true,
        Record::Chunk { header, data } => {
            ok_chunk_header(header) && header.compressed_size == data.len()
        },
        Record::MessageIndex(value) => ok_message_index(value),
        Record::ChunkIndex(value) => ok_chunk_index(value),
        Record::Attachment { header, data, .. } => {
            ok_attachment_header(header) && data.len() <= u64::MAX
        },
        Record::AttachmentIndex(value) => ok_attachment_index(value),
        Record::Statistics(value) => ok_statistics(value),
        Record::Metadata(value) => ok_metadata(value),
        Record::MetadataIndex(value) => ok_metadata_index(value),
        Record::SummaryOffset(_) => true,
        Record::DataEnd(_) => true,
        Record::Unknown { opcode, .. } => !known(opcode),
    }
}

/// Whether a cursor is in front of `bytes`, and nothing has gone wrong.
pub open spec fn before(cursor: Cur, bytes: Seq<u8>) -> bool {
    &&& cursor.err is None
    &&& 0 <= cursor.at <= cursor.bytes.len()
    &&& cursor.bytes.skip(cursor.at) == bytes
}

proof fn lemma_take(cursor: Cur, bytes: Seq<u8>, rest: Seq<u8>)
    requires
        before(cursor, bytes + rest),
    ensures
        cursor.take(bytes.len() as int).0 == bytes,
        cursor.take(bytes.len() as int).1 == (Cur { at: cursor.at + bytes.len(), ..cursor }),
        before(cursor.take(bytes.len() as int).1, rest),
{
    let n = bytes.len() as int;
    let all = cursor.bytes.skip(cursor.at);
    assert(all.len() == n + rest.len());
    assert(cursor.bytes.subrange(cursor.at, cursor.at + n) =~= all.take(n));
    assert(all.take(n) =~= bytes);
    assert(cursor.bytes.skip(cursor.at + n) =~= all.skip(n));
    assert(all.skip(n) =~= rest);
}

proof fn lemma_u8(cursor: Cur, value: u8, rest: Seq<u8>)
    requires
        before(cursor, put_u8(value, rest)),
    ensures
        cursor.u8().0 == value,
        before(cursor.u8().1, rest),
{
    lemma_take(cursor, seq![value], rest);
}

proof fn lemma_u16(cursor: Cur, value: u16, rest: Seq<u8>)
    requires
        before(cursor, put_u16(value, rest)),
    ensures
        cursor.u16().0 == value,
        cursor.u16().1 == (Cur { at: cursor.at + 2, ..cursor }),
        before(cursor.u16().1, rest),
{
    reveal_with_fuel(pow, 3);
    assert(pow(256, 2) == 0x1_0000);
    law_le_round_trip(value as nat, 2);
    lemma_le_bytes_len(value as nat, 2);
    lemma_take(cursor, le_bytes(value as nat, 2), rest);
}

proof fn lemma_u32(cursor: Cur, value: u32, rest: Seq<u8>)
    requires
        before(cursor, put_u32(value, rest)),
    ensures
        cursor.u32().0 == value,
        cursor.u32().1 == (Cur { at: cursor.at + 4, ..cursor }),
        before(cursor.u32().1, rest),
{
    reveal_with_fuel(pow, 5);
    assert(pow(256, 4) == 0x1_0000_0000);
    law_le_round_trip(value as nat, 4);
    lemma_le_bytes_len(value as nat, 4);
    lemma_take(cursor, le_bytes(value as nat, 4), rest);
}

proof fn lemma_u64(cursor: Cur, value: u64, rest: Seq<u8>)
    requires
        before(cursor, put_u64(value, rest)),
    ensures
        cursor.u64().0 == value,
        cursor.u64().1 == (Cur { at: cursor.at + 8, ..cursor }),
        before(cursor.u64().1, rest),
{
    reveal_with_fuel(pow, 9);
    assert(pow(256, 8) == 0x1_0000_0000_0000_0000);
    law_le_round_trip(value as nat, 8);
    lemma_le_bytes_len(value as nat, 8);
    lemma_take(cursor, le_bytes(value as nat, 8), rest);
}

proof fn lemma_bytes32(cursor: Cur, bytes: Seq<u8>, rest: Seq<u8>)
    requires
        before(cursor, put_bytes32(bytes, rest)),
        bytes.len() <= u32::MAX,
    ensures
        cursor.bytes32().0 == bytes,
        before(cursor.bytes32().1, rest),
{
    lemma_u32(cursor, bytes.len() as u32, bytes + rest);
    lemma_take(cursor.u32().1, bytes, rest);
}

proof fn lemma_bytes64(cursor: Cur, bytes: Seq<u8>, rest: Seq<u8>)
    requires
        before(cursor, put_bytes64(bytes, rest)),
        bytes.len() <= u64::MAX,
    ensures
        cursor.bytes64().0 == bytes,
        before(cursor.bytes64().1, rest),
{
    lemma_u64(cursor, bytes.len() as u64, bytes + rest);
    lemma_take(cursor.u64().1, bytes, rest);
}

proof fn lemma_text(cursor: Cur, text: Text, rest: Seq<u8>)
    requires
        before(cursor, put_text(text, rest)),
        ok_text(text),
    ensures
        cursor.text().0 == text,
        before(cursor.text().1, rest),
        cursor.text().1 == (Cur { at: cursor.at + 4 + encode_utf8(text).len(), ..cursor }),
{
    let bytes = encode_utf8(text);
    lemma_u32(cursor, bytes.len() as u32, bytes + rest);
    lemma_take(cursor.u32().1, bytes, rest);
    vstd::utf8::encode_utf8_valid_utf8(text);
    vstd::utf8::encode_utf8_decode_utf8(text);
}

/// The cursor of a list is in front of the bytes of the list, and there is nothing behind them.
proof fn lemma_list(cursor: Cur, bytes: Seq<u8>, rest: Seq<u8>)
    requires
        before(cursor, put_bytes32(bytes, rest)),
        short(bytes),
    ensures
        before(cursor.list().0, bytes),
        before(cursor.list().1, rest),
{
    let start = cursor.u32().1;
    let list = cursor.list().0;
    lemma_u32(cursor, bytes.len() as u32, bytes + rest);
    lemma_take(start, bytes, rest);
    assert(list.bytes.skip(list.at) =~= start.bytes.subrange(
        start.at,
        start.at + bytes.len(),
    ));
}

proof fn lemma_all_text_pairs(cursor: Cur, pairs: TextPairs)
    requires
        before(cursor, all_text_pairs_bytes(pairs)),
        forall|i: int| 0 <= i < pairs.len() ==> ok_text_pair(#[trigger] pairs[i]),
    ensures
        cursor.all_text_pairs().0 == pairs,
        cursor.all_text_pairs().1.err is None,
    decreases pairs.len(),
{
    if pairs.len() == 0 {
        assert(cursor.bytes.skip(cursor.at).len() == 0);
        assert(pairs =~= seq![]);
    } else {
        let others = pairs.skip(1);
        assert(ok_text_pair(pairs[0]));
        assert forall|i: int| 0 <= i < others.len() implies ok_text_pair(#[trigger] others[i]) by {
            assert(others[i] == pairs[i + 1]);
        }
        let last = all_text_pairs_bytes(others);
        lemma_text(cursor, pairs[0].0, put_text(pairs[0].1, last));
        let middle = cursor.text().1;
        lemma_text(middle, pairs[0].1, last);
        let next = middle.text().1;
        lemma_all_text_pairs(next, others);
        assert(pairs =~= seq![pairs[0]] + others);
        assert(cursor.bytes.skip(cursor.at).len() == cursor.left());
    }
}

proof fn lemma_text_pairs(cursor: Cur, pairs: TextPairs, rest: Seq<u8>)
    requires
        before(cursor, put_text_pairs(pairs, rest)),
        ok_text_pairs(pairs),
    ensures
        cursor.text_pairs().0 == pairs,
        before(cursor.text_pairs().1, rest),
{
    lemma_list(cursor, all_text_pairs_bytes(pairs), rest);
    lemma_all_text_pairs(cursor.list().0, pairs);
}

proof fn lemma_all_by_channel(cursor: Cur, pairs: Seq<(u16, u64)>)
    requires
        before(cursor, all_by_channel_bytes(pairs)),
    ensures
        cursor.all_by_channel().0 == pairs,
        cursor.all_by_channel().1.err is None,
    decreases pairs.len(),
{
    if pairs.len() == 0 {
        assert(cursor.bytes.skip(cursor.at).len() == 0);
        assert(pairs =~= seq![]);
    } else {
        let others = pairs.skip(1);
        let last = all_by_channel_bytes(others);
        lemma_u16(cursor, pairs[0].0, put_u64(pairs[0].1, last));
        let middle = cursor.u16().1;
        lemma_u64(middle, pairs[0].1, last);
        let next = middle.u64().1;
        lemma_all_by_channel(next, others);
        assert(pairs =~= seq![pairs[0]] + others);
        assert(cursor.bytes.skip(cursor.at).len() == cursor.left());
    }
}

proof fn lemma_by_channel(cursor: Cur, pairs: Seq<(u16, u64)>, rest: Seq<u8>)
    requires
        before(cursor, put_by_channel(pairs, rest)),
        short(all_by_channel_bytes(pairs)),
    ensures
        cursor.by_channel().0 == pairs,
        before(cursor.by_channel().1, rest),
{
    lemma_list(cursor, all_by_channel_bytes(pairs), rest);
    lemma_all_by_channel(cursor.list().0, pairs);
}

proof fn lemma_all_index_entries(cursor: Cur, pairs: Seq<(u64, u64)>)
    requires
        before(cursor, all_index_entries_bytes(pairs)),
    ensures
        cursor.all_index_entries().0 == pairs,
        cursor.all_index_entries().1.err is None,
    decreases pairs.len(),
{
    if pairs.len() == 0 {
        assert(cursor.bytes.skip(cursor.at).len() == 0);
        assert(pairs =~= seq![]);
    } else {
        let others = pairs.skip(1);
        let last = all_index_entries_bytes(others);
        lemma_u64(cursor, pairs[0].0, put_u64(pairs[0].1, last));
        let middle = cursor.u64().1;
        lemma_u64(middle, pairs[0].1, last);
        let next = middle.u64().1;
        lemma_all_index_entries(next, others);
        assert(pairs =~= seq![pairs[0]] + others);
        assert(cursor.bytes.skip(cursor.at).len() == cursor.left());
    }
}

proof fn lemma_index_entries(cursor: Cur, pairs: Seq<(u64, u64)>, rest: Seq<u8>)
    requires
        before(cursor, put_index_entries(pairs, rest)),
        short(all_index_entries_bytes(pairs)),
    ensures
        cursor.index_entries().0 == pairs,
        before(cursor.index_entries().1, rest),
{
    lemma_list(cursor, all_index_entries_bytes(pairs), rest);
    lemma_all_index_entries(cursor.list().0, pairs);
}

proof fn lemma_header(cursor: Cur, value: Header<Text>, rest: Seq<u8>)
    requires
        before(cursor, put_header(value, rest)),
        ok_header(value),
    ensures
        cursor.header().0 == value,
        before(cursor.header().1, rest),
{
    let r1 = put_text(value.library, rest);
    lemma_text(cursor, value.profile, r1);
    let c1 = cursor.text().1;
    lemma_text(c1, value.library, rest);
}

proof fn lemma_footer(cursor: Cur, value: Footer, rest: Seq<u8>)
    requires
        before(cursor, put_footer(value, rest)),
    ensures
        cursor.footer().0 == value,
        before(cursor.footer().1, rest),
{
    let r2 = put_u32(value.summary_crc, rest);
    let r1 = put_u64(value.summary_offset_start, r2);
    lemma_u64(cursor, value.summary_start, r1);
    let c1 = cursor.u64().1;
    lemma_u64(c1, value.summary_offset_start, r2);
    let c2 = c1.u64().1;
    lemma_u32(c2, value.summary_crc, rest);
}

proof fn lemma_schema_header(cursor: Cur, value: SchemaHeader<Text>, rest: Seq<u8>)
    requires
        before(cursor, put_schema_header(value, rest)),
        ok_schema_header(value),
    ensures
        cursor.schema_header().0 == value,
        before(cursor.schema_header().1, rest),
{
    let r2 = put_text(value.encoding, rest);
    let r1 = put_text(value.name, r2);
    lemma_u16(cursor, value.id, r1);
    let c1 = cursor.u16().1;
    lemma_text(c1, value.name, r2);
    let c2 = c1.text().1;
    lemma_text(c2, value.encoding, rest);
}

proof fn lemma_channel(cursor: Cur, value: Channel<Text, TextPairs>, rest: Seq<u8>)
    requires
        before(cursor, put_channel(value, rest)),
        ok_channel(value),
    ensures
        cursor.channel().0 == value,
        before(cursor.channel().1, rest),
{
    let r4 = put_text_pairs(value.metadata, rest);
    let r3 = put_text(value.message_encoding, r4);
    let r2 = put_text(value.topic, r3);
    let r1 = put_u16(value.schema_id, r2);
    lemma_u16(cursor, value.id, r1);
    let c1 = cursor.u16().1;
    lemma_u16(c1, value.schema_id, r2);
    let c2 = c1.u16().1;
    lemma_text(c2, value.topic, r3);
    let c3 = c2.text().1;
    lemma_text(c3, value.message_encoding, r4);
    let c4 = c3.text().1;
    lemma_text_pairs(c4, value.metadata, rest);
}

proof fn lemma_message_header(cursor: Cur, value: MessageHeader, rest: Seq<u8>)
    requires
        before(cursor, put_message_header(value, rest)),
    ensures
        cursor.message_header().0 == value,
        before(cursor.message_header().1, rest),
{
    let r3 = put_u64(value.publish_time, rest);
    let r2 = put_u64(value.log_time, r3);
    let r1 = put_u32(value.sequence, r2);
    lemma_u16(cursor, value.channel_id, r1);
    let c1 = cursor.u16().1;
    lemma_u32(c1, value.sequence, r2);
    let c2 = c1.u32().1;
    lemma_u64(c2, value.log_time, r3);
    let c3 = c2.u64().1;
    lemma_u64(c3, value.publish_time, rest);
}

pub(crate) proof fn lemma_chunk_header(cursor: Cur, value: ChunkHeader<Text>, rest: Seq<u8>)
    requires
        before(cursor, put_chunk_header(value, rest)),
        ok_chunk_header(value),
    ensures
        cursor.chunk_header().0 == value,
        before(cursor.chunk_header().1, rest),
{
    let r5 = put_u64(value.compressed_size, rest);
    let r4 = put_text(value.compression, r5);
    let r3 = put_u32(value.uncompressed_crc, r4);
    let r2 = put_u64(value.uncompressed_size, r3);
    let r1 = put_u64(value.message_end_time, r2);
    lemma_u64(cursor, value.message_start_time, r1);
    let c1 = cursor.u64().1;
    lemma_u64(c1, value.message_end_time, r2);
    let c2 = c1.u64().1;
    lemma_u64(c2, value.uncompressed_size, r3);
    let c3 = c2.u64().1;
    lemma_u32(c3, value.uncompressed_crc, r4);
    let c4 = c3.u32().1;
    lemma_text(c4, value.compression, r5);
    let c5 = c4.text().1;
    lemma_u64(c5, value.compressed_size, rest);
}

proof fn lemma_message_index(cursor: Cur, value: MessageIndex<Seq<(u64, u64)>>, rest: Seq<u8>)
    requires
        before(cursor, put_message_index(value, rest)),
        ok_message_index(value),
    ensures
        cursor.message_index().0 == value,
        before(cursor.message_index().1, rest),
{
    let r1 = put_index_entries(value.records, rest);
    lemma_u16(cursor, value.channel_id, r1);
    let c1 = cursor.u16().1;
    lemma_index_entries(c1, value.records, rest);
}

proof fn lemma_chunk_index(cursor: Cur, value: ChunkIndex<Text, Seq<(u16, u64)>>, rest: Seq<u8>)
    requires
        before(cursor, put_chunk_index(value, rest)),
        ok_chunk_index(value),
    ensures
        cursor.chunk_index().0 == value,
        before(cursor.chunk_index().1, rest),
{
    let r8 = put_u64(value.uncompressed_size, rest);
    let r7 = put_u64(value.compressed_size, r8);
    let r6 = put_text(value.compression, r7);
    let r5 = put_u64(value.message_index_length, r6);
    let r4 = put_by_channel(value.message_index_offsets, r5);
    let r3 = put_u64(value.chunk_length, r4);
    let r2 = put_u64(value.chunk_start_offset, r3);
    let r1 = put_u64(value.message_end_time, r2);
    lemma_u64(cursor, value.message_start_time, r1);
    let c1 = cursor.u64().1;
    lemma_u64(c1, value.message_end_time, r2);
    let c2 = c1.u64().1;
    lemma_u64(c2, value.chunk_start_offset, r3);
    let c3 = c2.u64().1;
    lemma_u64(c3, value.chunk_length, r4);
    let c4 = c3.u64().1;
    lemma_by_channel(c4, value.message_index_offsets, r5);
    let c5 = c4.by_channel().1;
    lemma_u64(c5, value.message_index_length, r6);
    let c6 = c5.u64().1;
    lemma_text(c6, value.compression, r7);
    let c7 = c6.text().1;
    lemma_u64(c7, value.compressed_size, r8);
    let c8 = c7.u64().1;
    lemma_u64(c8, value.uncompressed_size, rest);
}

proof fn lemma_attachment_header(cursor: Cur, value: AttachmentHeader<Text>, rest: Seq<u8>)
    requires
        before(cursor, put_attachment_header(value, rest)),
        ok_attachment_header(value),
    ensures
        cursor.attachment_header().0 == value,
        before(cursor.attachment_header().1, rest),
{
    let r3 = put_text(value.media_type, rest);
    let r2 = put_text(value.name, r3);
    let r1 = put_u64(value.create_time, r2);
    lemma_u64(cursor, value.log_time, r1);
    let c1 = cursor.u64().1;
    lemma_u64(c1, value.create_time, r2);
    let c2 = c1.u64().1;
    lemma_text(c2, value.name, r3);
    let c3 = c2.text().1;
    lemma_text(c3, value.media_type, rest);
}

proof fn lemma_attachment_index(cursor: Cur, value: AttachmentIndex<Text>, rest: Seq<u8>)
    requires
        before(cursor, put_attachment_index(value, rest)),
        ok_attachment_index(value),
    ensures
        cursor.attachment_index().0 == value,
        before(cursor.attachment_index().1, rest),
{
    let r6 = put_text(value.media_type, rest);
    let r5 = put_text(value.name, r6);
    let r4 = put_u64(value.data_size, r5);
    let r3 = put_u64(value.create_time, r4);
    let r2 = put_u64(value.log_time, r3);
    let r1 = put_u64(value.length, r2);
    lemma_u64(cursor, value.offset, r1);
    let c1 = cursor.u64().1;
    lemma_u64(c1, value.length, r2);
    let c2 = c1.u64().1;
    lemma_u64(c2, value.log_time, r3);
    let c3 = c2.u64().1;
    lemma_u64(c3, value.create_time, r4);
    let c4 = c3.u64().1;
    lemma_u64(c4, value.data_size, r5);
    let c5 = c4.u64().1;
    lemma_text(c5, value.name, r6);
    let c6 = c5.text().1;
    lemma_text(c6, value.media_type, rest);
}

proof fn lemma_statistics(cursor: Cur, value: Statistics<Seq<(u16, u64)>>, rest: Seq<u8>)
    requires
        before(cursor, put_statistics(value, rest)),
        ok_statistics(value),
    ensures
        cursor.statistics().0 == value,
        before(cursor.statistics().1, rest),
{
    let r8 = put_by_channel(value.channel_message_counts, rest);
    let r7 = put_u64(value.message_end_time, r8);
    let r6 = put_u64(value.message_start_time, r7);
    let r5 = put_u32(value.chunk_count, r6);
    let r4 = put_u32(value.metadata_count, r5);
    let r3 = put_u32(value.attachment_count, r4);
    let r2 = put_u32(value.channel_count, r3);
    let r1 = put_u16(value.schema_count, r2);
    lemma_u64(cursor, value.message_count, r1);
    let c1 = cursor.u64().1;
    lemma_u16(c1, value.schema_count, r2);
    let c2 = c1.u16().1;
    lemma_u32(c2, value.channel_count, r3);
    let c3 = c2.u32().1;
    lemma_u32(c3, value.attachment_count, r4);
    let c4 = c3.u32().1;
    lemma_u32(c4, value.metadata_count, r5);
    let c5 = c4.u32().1;
    lemma_u32(c5, value.chunk_count, r6);
    let c6 = c5.u32().1;
    lemma_u64(c6, value.message_start_time, r7);
    let c7 = c6.u64().1;
    lemma_u64(c7, value.message_end_time, r8);
    let c8 = c7.u64().1;
    lemma_by_channel(c8, value.channel_message_counts, rest);
}

proof fn lemma_metadata(cursor: Cur, value: Metadata<Text, TextPairs>, rest: Seq<u8>)
    requires
        before(cursor, put_metadata(value, rest)),
        ok_metadata(value),
    ensures
        cursor.metadata().0 == value,
        before(cursor.metadata().1, rest),
{
    let r1 = put_text_pairs(value.metadata, rest);
    lemma_text(cursor, value.name, r1);
    let c1 = cursor.text().1;
    lemma_text_pairs(c1, value.metadata, rest);
}

proof fn lemma_metadata_index(cursor: Cur, value: MetadataIndex<Text>, rest: Seq<u8>)
    requires
        before(cursor, put_metadata_index(value, rest)),
        ok_metadata_index(value),
    ensures
        cursor.metadata_index().0 == value,
        before(cursor.metadata_index().1, rest),
{
    let r2 = put_text(value.name, rest);
    let r1 = put_u64(value.length, r2);
    lemma_u64(cursor, value.offset, r1);
    let c1 = cursor.u64().1;
    lemma_u64(c1, value.length, r2);
    let c2 = c1.u64().1;
    lemma_text(c2, value.name, rest);
}

proof fn lemma_summary_offset(cursor: Cur, value: SummaryOffset, rest: Seq<u8>)
    requires
        before(cursor, put_summary_offset(value, rest)),
    ensures
        cursor.summary_offset().0 == value,
        before(cursor.summary_offset().1, rest),
{
    let r2 = put_u64(value.group_length, rest);
    let r1 = put_u64(value.group_start, r2);
    lemma_u8(cursor, value.group_opcode, r1);
    let c1 = cursor.u8().1;
    lemma_u64(c1, value.group_start, r2);
    let c2 = c1.u64().1;
    lemma_u64(c2, value.group_length, rest);
}

proof fn lemma_data_end(cursor: Cur, value: DataEnd, rest: Seq<u8>)
    requires
        before(cursor, put_data_end(value, rest)),
    ensures
        cursor.data_end().0 == value,
        before(cursor.data_end().1, rest),
{
    lemma_u32(cursor, value.data_section_crc, rest);
}

/// A record that was written down is read back, whatever comes after it. Only what comes after a
/// message, or after a record of an unknown kind, cannot be told from it.
pub proof fn law_record_is_read_back(record: RecordView, rest: Seq<u8>)
    requires
        ok_record(record),
        record is Message || record is Unknown ==> rest.len() == 0,
    ensures
        parsed(record.opcode(), put_record(record, rest)) == Ok::<RecordView, ErrorView>(record),
{
    let bytes = put_record(record, rest);
    let start = Cur::start(bytes);
    assert(bytes.skip(0) =~= bytes);
    match record {
        Record::Header(value) => lemma_header(start, value, rest),
        Record::Footer(value) => lemma_footer(start, value, rest),
        Record::Schema { header, data } => {
            lemma_schema_header(start, header, put_bytes32(data, rest));
            lemma_bytes32(start.schema_header().1, data, rest);
        },
        Record::Channel(value) => lemma_channel(start, value, rest),
        Record::Message { header, data } => {
            assert(data + rest =~= data);
            lemma_message_header(start, header, data);
            let next = start.message_header().1;
            assert(next.bytes.skip(next.at).len() == next.left());
            assert(data + Seq::<u8>::empty() =~= data);
            lemma_take(next, data, seq![]);
        },
        Record::Chunk { header, data } => {
            lemma_chunk_header(start, header, data + rest);
            let next = start.chunk_header().1;
            assert(next.bytes.skip(next.at).len() == next.left());
            lemma_take(next, data, rest);
        },
        Record::MessageIndex(value) => lemma_message_index(start, value, rest),
        Record::ChunkIndex(value) => lemma_chunk_index(start, value, rest),
        Record::Attachment { header, data, crc } => {
            let after = put_u32(crc, rest);
            lemma_attachment_header(start, header, put_bytes64(data, after));
            let next = start.attachment_header().1;
            lemma_bytes64(next, data, after);
            lemma_u32(next.bytes64().1, crc, rest);
        },
        Record::AttachmentIndex(value) => lemma_attachment_index(start, value, rest),
        Record::Statistics(value) => lemma_statistics(start, value, rest),
        Record::Metadata(value) => lemma_metadata(start, value, rest),
        Record::MetadataIndex(value) => lemma_metadata_index(start, value, rest),
        Record::SummaryOffset(value) => lemma_summary_offset(start, value, rest),
        Record::DataEnd(value) => lemma_data_end(start, value, rest),
        Record::Unknown { data, .. } => {
            assert(data + rest =~= data);
            assert(data + Seq::<u8>::empty() =~= data);
            lemma_take(start, data, seq![]);
        },
    }
}

} // verus!
