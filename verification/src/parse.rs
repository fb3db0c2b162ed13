//! What the contents of a record mean.
//!
//! The fields of a record follow each other without gaps. Bytes after the last field are ignored:
//! later versions of the format may put further fields there.

use crate::cursor::{Cur, Cursor};
use crate::error::{ErrorView, McapError, McapResult};
use crate::records::{
    op, AttachmentHeader, AttachmentIndex, Channel, ChunkHeader, ChunkIndex, DataEnd, Footer,
    Header, MessageHeader, MessageIndex, Metadata, MetadataIndex, Record, RecordView,
    SchemaHeader, Statistics, SummaryOffset, Text, TextPairs,
};
use vstd::prelude::*;
use vstd::slice::slice_to_vec;

verus! {

impl Cur {
    pub open spec fn header(self) -> (Header<Text>, Cur) {
        let (profile, next) = self.text();
        let (library, next) = next.text();
        (Header { profile, library }, next)
    }

    pub open spec fn footer(self) -> (Footer, Cur) {
        let (summary_start, next) = self.u64();
        let (summary_offset_start, next) = next.u64();
        let (summary_crc, next) = next.u32();
        (Footer { summary_start, summary_offset_start, summary_crc }, next)
    }

    pub open spec fn schema_header(self) -> (SchemaHeader<Text>, Cur) {
        let (id, next) = self.u16();
        let (name, next) = next.text();
        let (encoding, next) = next.text();
        (SchemaHeader { id, name, encoding }, next)
    }

    pub open spec fn channel(self) -> (Channel<Text, TextPairs>, Cur) {
        let (id, next) = self.u16();
        let (schema_id, next) = next.u16();
        let (topic, next) = next.text();
        let (message_encoding, next) = next.text();
        let (metadata, next) = next.text_pairs();
        (Channel { id, schema_id, topic, message_encoding, metadata }, next)
    }

    pub open spec fn message_header(self) -> (MessageHeader, Cur) {
        let (channel_id, next) = self.u16();
        let (sequence, next) = next.u32();
        let (log_time, next) = next.u64();
        let (publish_time, next) = next.u64();
        (MessageHeader { channel_id, sequence, log_time, publish_time }, next)
    }

    pub open spec fn chunk_header(self) -> (ChunkHeader<Text>, Cur) {
        let (message_start_time, next) = self.u64();
        let (message_end_time, next) = next.u64();
        let (uncompressed_size, next) = next.u64();
        let (uncompressed_crc, next) = next.u32();
        let (compression, next) = next.text();
        let (compressed_size, next) = next.u64();
        let value = ChunkHeader {
            message_start_time,
            message_end_time,
            uncompressed_size,
            uncompressed_crc,
            compression,
            compressed_size,
        };
        (value, next)
    }

    pub open spec fn message_index(self) -> (MessageIndex<Seq<(u64, u64)>>, Cur) {
        let (channel_id, next) = self.u16();
        let (records, next) = next.index_entries();
        (MessageIndex { channel_id, records }, next)
    }

    pub open spec fn chunk_index(self) -> (ChunkIndex<Text, Seq<(u16, u64)>>, Cur) {
        let (message_start_time, next) = self.u64();
        let (message_end_time, next) = next.u64();
        let (chunk_start_offset, next) = next.u64();
        let (chunk_length, next) = next.u64();
        let (message_index_offsets, next) = next.by_channel();
        let (message_index_length, next) = next.u64();
        let (compression, next) = next.text();
        let (compressed_size, next) = next.u64();
        let (uncompressed_size, next) = next.u64();
        let value = ChunkIndex {
            message_start_time,
            message_end_time,
            chunk_start_offset,
            chunk_length,
            message_index_offsets,
            message_index_length,
            compression,
            compressed_size,
            uncompressed_size,
        };
        (value, next)
    }

    pub open spec fn attachment_header(self) -> (AttachmentHeader<Text>, Cur) {
        let (log_time, next) = self.u64();
        let (create_time, next) = next.u64();
        let (name, next) = next.text();
        let (media_type, next) = next.text();
        (AttachmentHeader { log_time, create_time, name, media_type }, next)
    }

    pub open spec fn attachment_index(self) -> (AttachmentIndex<Text>, Cur) {
        let (offset, next) = self.u64();
        let (length, next) = next.u64();
        let (log_time, next) = next.u64();
        let (create_time, next) = next.u64();
        let (data_size, next) = next.u64();
        let (name, next) = next.text();
        let (media_type, next) = next.text();
        let value = AttachmentIndex {
            offset,
            length,
            log_time,
            create_time,
            data_size,
            name,
            media_type,
        };
        (value, next)
    }

    pub open spec fn statistics(self) -> (Statistics<Seq<(u16, u64)>>, Cur) {
        let (message_count, next) = self.u64();
        let (schema_count, next) = next.u16();
        let (channel_count, next) = next.u32();
        let (attachment_count, next) = next.u32();
        let (metadata_count, next) = next.u32();
        let (chunk_count, next) = next.u32();
        let (message_start_time, next) = next.u64();
        let (message_end_time, next) = next.u64();
        let (channel_message_counts, next) = next.by_channel();
        let value = Statistics {
            message_count,
            schema_count,
            channel_count,
            attachment_count,
            metadata_count,
            chunk_count,
            message_start_time,
            message_end_time,
            channel_message_counts,
        };
        (value, next)
    }

    pub open spec fn metadata(self) -> (Metadata<Text, TextPairs>, Cur) {
        let (name, next) = self.text();
        let (metadata, next) = next.text_pairs();
        (Metadata { name, metadata }, next)
    }

    pub open spec fn metadata_index(self) -> (MetadataIndex<Text>, Cur) {
        let (offset, next) = self.u64();
        let (length, next) = next.u64();
        let (name, next) = next.text();
        (MetadataIndex { offset, length, name }, next)
    }

    pub open spec fn summary_offset(self) -> (SummaryOffset, Cur) {
        let (group_opcode, next) = self.u8();
        let (group_start, next) = next.u64();
        let (group_length, next) = next.u64();
        (SummaryOffset { group_opcode, group_start, group_length }, next)
    }

    pub open spec fn data_end(self) -> (DataEnd, Cur) {
        let (data_section_crc, next) = self.u32();
        (DataEnd { data_section_crc }, next)
    }

    /// Raw bytes: their number in four bytes, and then the bytes.
    pub open spec fn bytes32(self) -> (Seq<u8>, Cur) {
        let (len, next) = self.u32();
        next.take(len as int)
    }

    /// Raw bytes: their number in eight bytes, and then the bytes.
    pub open spec fn bytes64(self) -> (Seq<u8>, Cur) {
        let (len, next) = self.u64();
        next.take(len as int)
    }

    /// The bytes of a chunk, as many as its header says.
    pub open spec fn chunk(self, size: u64) -> (Seq<u8>, Cur) {
        if self.err is None && size > self.left() {
            (
                seq![],
                self.fail(
                    ErrorView::BadChunkLength { header: size, available: self.left() as u64 },
                ),
            )
        } else {
            self.take(size as int)
        }
    }

    /// A record with the given opcode.
    pub open spec fn record(self, opcode: u8) -> (RecordView, Cur) {
        if opcode == op::HEADER {
            let (header, next) = self.header();
            (Record::Header(header), next)
        } else if opcode == op::FOOTER {
            let (footer, next) = self.footer();
            (Record::Footer(footer), next)
        } else if opcode == op::SCHEMA {
            let (header, next) = self.schema_header();
            let (data, next) = next.bytes32();
            (Record::Schema { header, data }, next)
        } else if opcode == op::CHANNEL {
            let (channel, next) = self.channel();
            (Record::Channel(channel), next)
        } else if opcode == op::MESSAGE {
            let (header, next) = self.message_header();
            let (data, next) = next.rest();
            (Record::Message { header, data }, next)
        } else if opcode == op::CHUNK {
            let (header, next) = self.chunk_header();
            let (data, next) = next.chunk(header.compressed_size);
            (Record::Chunk { header, data }, next)
        } else if opcode == op::MESSAGE_INDEX {
            let (index, next) = self.message_index();
            (Record::MessageIndex(index), next)
        } else if opcode == op::CHUNK_INDEX {
            let (index, next) = self.chunk_index();
            (Record::ChunkIndex(index), next)
        } else if opcode == op::ATTACHMENT {
            let (header, next) = self.attachment_header();
            let (data, next) = next.bytes64();
            let (crc, next) = next.u32();
            (Record::Attachment { header, data, crc }, next)
        } else if opcode == op::ATTACHMENT_INDEX {
            let (index, next) = self.attachment_index();
            (Record::AttachmentIndex(index), next)
        } else if opcode == op::STATISTICS {
            let (statistics, next) = self.statistics();
            (Record::Statistics(statistics), next)
        } else if opcode == op::METADATA {
            let (metadata, next) = self.metadata();
            (Record::Metadata(metadata), next)
        } else if opcode == op::METADATA_INDEX {
            let (index, next) = self.metadata_index();
            (Record::MetadataIndex(index), next)
        } else if opcode == op::SUMMARY_OFFSET {
            let (offset, next) = self.summary_offset();
            (Record::SummaryOffset(offset), next)
        } else if opcode == op::DATA_END {
            let (end, next) = self.data_end();
            (Record::DataEnd(end), next)
        } else {
            let (data, next) = self.rest();
            (Record::Unknown { opcode, data }, next)
        }
    }
}

/// The record with the given opcode and contents, or what is wrong with it.
pub open spec fn parsed(opcode: u8, body: Seq<u8>) -> Result<RecordView, ErrorView> {
    let (record, end) = Cur::start(body).record(opcode);
    match end.err {
        None => Ok(record),
        Some(err) => Err(err),
    }
}

/// `result` as specifications see it.
pub open spec fn record_view(result: McapResult<Record>) -> Result<RecordView, ErrorView> {
    match result {
        Ok(record) => Ok(record@),
        Err(err) => Err(err@),
    }
}

impl<'a> Cursor<'a> {
    fn header(&mut self) -> (value: Header)
        requires
            old(self)@.wf(),
        ensures
            (value@, final(self)@) == old(self)@.header(),
            final(self)@.wf(),
    {
        let profile = self.text();
        let library = self.text();
        Header { profile, library }
    }

    fn footer(&mut self) -> (value: Footer)
        requires
            old(self)@.wf(),
        ensures
            (value, final(self)@) == old(self)@.footer(),
            final(self)@.wf(),
    {
        let summary_start = self.u64();
        let summary_offset_start = self.u64();
        let summary_crc = self.u32();
        Footer { summary_start, summary_offset_start, summary_crc }
    }

    fn schema_header(&mut self) -> (value: SchemaHeader)
        requires
            old(self)@.wf(),
        ensures
            (value@, final(self)@) == old(self)@.schema_header(),
            final(self)@.wf(),
    {
        let id = self.u16();
        let name = self.text();
        let encoding = self.text();
        SchemaHeader { id, name, encoding }
    }

    fn channel(&mut self) -> (value: Channel)
        requires
            old(self)@.wf(),
        ensures
            (value@, final(self)@) == old(self)@.channel(),
            final(self)@.wf(),
    {
        let id = self.u16();
        let schema_id = self.u16();
        let topic = self.text();
        let message_encoding = self.text();
        let metadata = self.text_pairs();
        Channel { id, schema_id, topic, message_encoding, metadata }
    }

    fn message_header(&mut self) -> (value: MessageHeader)
        requires
            old(self)@.wf(),
        ensures
            (value, final(self)@) == old(self)@.message_header(),
            final(self)@.wf(),
    {
        let channel_id = self.u16();
        let sequence = self.u32();
        let log_time = self.u64();
        let publish_time = self.u64();
        MessageHeader { channel_id, sequence, log_time, publish_time }
    }

    fn chunk_header(&mut self) -> (value: ChunkHeader)
        requires
            old(self)@.wf(),
        ensures
            (value@, final(self)@) == old(self)@.chunk_header(),
            final(self)@.wf(),
    {
        let message_start_time = self.u64();
        let message_end_time = self.u64();
        let uncompressed_size = self.u64();
        let uncompressed_crc = self.u32();
        let compression = self.text();
        let compressed_size = self.u64();
        ChunkHeader {
            message_start_time,
            message_end_time,
            uncompressed_size,
            uncompressed_crc,
            compression,
            compressed_size,
        }
    }

    fn message_index(&mut self) -> (value: MessageIndex)
        requires
            old(self)@.wf(),
        ensures
            (value@, final(self)@) == old(self)@.message_index(),
            final(self)@.wf(),
    {
        let channel_id = self.u16();
        let records = self.index_entries();
        MessageIndex { channel_id, records }
    }

    fn chunk_index(&mut self) -> (value: ChunkIndex)
        requires
            old(self)@.wf(),
        ensures
            (value@, final(self)@) == old(self)@.chunk_index(),
            final(self)@.wf(),
    {
        let message_start_time = self.u64();
        let message_end_time = self.u64();
        let chunk_start_offset = self.u64();
        let chunk_length = self.u64();
        let message_index_offsets = self.by_channel();
        let message_index_length = self.u64();
        let compression = self.text();
        let compressed_size = self.u64();
        let uncompressed_size = self.u64();
        ChunkIndex {
            message_start_time,
            message_end_time,
            chunk_start_offset,
            chunk_length,
            message_index_offsets,
            message_index_length,
            compression,
            compressed_size,
            uncompressed_size,
        }
    }

    fn attachment_header(&mut self) -> (value: AttachmentHeader)
        requires
            old(self)@.wf(),
        ensures
            (value@, final(self)@) == old(self)@.attachment_header(),
            final(self)@.wf(),
    {
        let log_time = self.u64();
        let create_time = self.u64();
        let name = self.text();
        let media_type = self.text();
        AttachmentHeader { log_time, create_time, name, media_type }
    }

    fn attachment_index(&mut self) -> (value: AttachmentIndex)
        requires
            old(self)@.wf(),
        ensures
            (value@, final(self)@) == old(self)@.attachment_index(),
            final(self)@.wf(),
    {
        let offset = self.u64();
        let length = self.u64();
        let log_time = self.u64();
        let create_time = self.u64();
        let data_size = self.u64();
        let name = self.text();
        let media_type = self.text();
        AttachmentIndex { offset, length, log_time, create_time, data_size, name, media_type }
    }

    fn statistics(&mut self) -> (value: Statistics)
        requires
            old(self)@.wf(),
        ensures
            (value@, final(self)@) == old(self)@.statistics(),
            final(self)@.wf(),
    {
        let message_count = self.u64();
        let schema_count = self.u16();
        let channel_count = self.u32();
        let attachment_count = self.u32();
        let metadata_count = self.u32();
        let chunk_count = self.u32();
        let message_start_time = self.u64();
        let message_end_time = self.u64();
        let channel_message_counts = self.by_channel();
        Statistics {
            message_count,
            schema_count,
            channel_count,
            attachment_count,
            metadata_count,
            chunk_count,
            message_start_time,
            message_end_time,
            channel_message_counts,
        }
    }

    fn metadata(&mut self) -> (value: Metadata)
        requires
            old(self)@.wf(),
        ensures
            (value@, final(self)@) == old(self)@.metadata(),
            final(self)@.wf(),
    {
        let name = self.text();
        let metadata = self.text_pairs();
        Metadata { name, metadata }
    }

    fn metadata_index(&mut self) -> (value: MetadataIndex)
        requires
            old(self)@.wf(),
        ensures
            (value@, final(self)@) == old(self)@.metadata_index(),
            final(self)@.wf(),
    {
        let offset = self.u64();
        let length = self.u64();
        let name = self.text();
        MetadataIndex { offset, length, name }
    }

    fn summary_offset(&mut self) -> (value: SummaryOffset)
        requires
            old(self)@.wf(),
        ensures
            (value, final(self)@) == old(self)@.summary_offset(),
            final(self)@.wf(),
    {
        let group_opcode = self.u8();
        let group_start = self.u64();
        let group_length = self.u64();
        SummaryOffset { group_opcode, group_start, group_length }
    }

    fn data_end(&mut self) -> (value: DataEnd)
        requires
            old(self)@.wf(),
        ensures
            (value, final(self)@) == old(self)@.data_end(),
            final(self)@.wf(),
    {
        let data_section_crc = self.u32();
        DataEnd { data_section_crc }
    }

    fn bytes32(&mut self) -> (bytes: Vec<u8>)
        requires
            old(self)@.wf(),
        ensures
            (bytes@, final(self)@) == old(self)@.bytes32(),
            final(self)@.wf(),
    {
        let len = self.u32();
        slice_to_vec(self.take(len as u64))
    }

    fn bytes64(&mut self) -> (bytes: Vec<u8>)
        requires
            old(self)@.wf(),
        ensures
            (bytes@, final(self)@) == old(self)@.bytes64(),
            final(self)@.wf(),
    {
        let len = self.u64();
        slice_to_vec(self.take(len))
    }

    fn chunk(&mut self, size: u64) -> (bytes: Vec<u8>)
        requires
            old(self)@.wf(),
        ensures
            (bytes@, final(self)@) == old(self)@.chunk(size),
            final(self)@.wf(),
    {
        let available = self.left();
        if !self.failed() && size > available {
            self.fail(McapError::BadChunkLength { header: size, available });
            let none: Vec<u8> = Vec::new();
            assert(none@ =~= seq![]);
            return none;
        }
        slice_to_vec(self.take(size))
    }

    #[verifier::rlimit(40)]
    fn record(&mut self, opcode: u8) -> (record: Record)
        requires
            old(self)@.wf(),
        ensures
            (record@, final(self)@) == old(self)@.record(opcode),
            final(self)@.wf(),
    {
        if opcode == op::HEADER {
            Record::Header(self.header())
        } else if opcode == op::FOOTER {
            Record::Footer(self.footer())
        } else if opcode == op::SCHEMA {
            let header = self.schema_header();
            let data = self.bytes32();
            Record::Schema { header, data }
        } else if opcode == op::CHANNEL {
            Record::Channel(self.channel())
        } else if opcode == op::MESSAGE {
            let header = self.message_header();
            let data = slice_to_vec(self.rest());
            Record::Message { header, data }
        } else if opcode == op::CHUNK {
            let header = self.chunk_header();
            let data = self.chunk(header.compressed_size);
            Record::Chunk { header, data }
        } else if opcode == op::MESSAGE_INDEX {
            Record::MessageIndex(self.message_index())
        } else if opcode == op::CHUNK_INDEX {
            Record::ChunkIndex(self.chunk_index())
        } else if opcode == op::ATTACHMENT {
            let header = self.attachment_header();
            let data = self.bytes64();
            let crc = self.u32();
            Record::Attachment { header, data, crc }
        } else if opcode == op::ATTACHMENT_INDEX {
            Record::AttachmentIndex(self.attachment_index())
        } else if opcode == op::STATISTICS {
            Record::Statistics(self.statistics())
        } else if opcode == op::METADATA {
            Record::Metadata(self.metadata())
        } else if opcode == op::METADATA_INDEX {
            Record::MetadataIndex(self.metadata_index())
        } else if opcode == op::SUMMARY_OFFSET {
            Record::SummaryOffset(self.summary_offset())
        } else if opcode == op::DATA_END {
            Record::DataEnd(self.data_end())
        } else {
            let data = slice_to_vec(self.rest());
            Record::Unknown { opcode, data }
        }
    }
}

/// Parses the record with the given opcode and contents.
pub fn parse_record(opcode: u8, body: &[u8]) -> (record: McapResult<Record>)
    ensures
        record_view(record) == parsed(opcode, body@),
        record matches Ok(record) ==> record@.opcode() == opcode,
{
    let mut cursor = Cursor::start(body);
    let record = cursor.record(opcode);
    match cursor.finish() {
        None => Ok(record),
        Some(err) => Err(err),
    }
}

} // verus!
