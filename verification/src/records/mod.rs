//! The records of an MCAP file.
//!
//! The type parameters tell the records that were read from the records that specifications speak
//! of. `S` is the type of a text, `B` of raw bytes, `M` of texts that are found by texts, `I` of
//! the entries of a message index, and `K` of numbers that are found by the id of a channel:
//! `String` and `Vec` in the former, `Seq` in the latter.

pub mod op;

use vstd::prelude::*;

verus! {

/// What a file says of itself.
#[derive(Debug, PartialEq, Eq)]
pub struct Header<S = String> {
    pub profile: S,
    pub library: S,
}

/// Where the summary of a file is.
#[derive(Debug, Clone, Copy, PartialEq, Eq)]
pub struct Footer {
    pub summary_start: u64,
    pub summary_offset_start: u64,
    pub summary_crc: u32,
}

/// What a schema record says of the schema, ahead of the schema itself.
#[derive(Debug, PartialEq, Eq)]
pub struct SchemaHeader<S = String> {
    pub id: u16,
    pub name: S,
    pub encoding: S,
}

/// A stream of messages on one topic.
#[derive(Debug, PartialEq, Eq)]
pub struct Channel<S = String, M = Vec<(String, String)>> {
    pub id: u16,
    pub schema_id: u16,
    pub topic: S,
    pub message_encoding: S,
    pub metadata: M,
}

/// What a message record says of the message, ahead of the message itself.
#[derive(Debug, Clone, Copy, PartialEq, Eq)]
pub struct MessageHeader {
    pub channel_id: u16,
    pub sequence: u32,
    pub log_time: u64,
    pub publish_time: u64,
}

/// What a chunk record says of the chunk, ahead of the chunk itself.
#[derive(Debug, PartialEq, Eq)]
pub struct ChunkHeader<S = String> {
    pub message_start_time: u64,
    pub message_end_time: u64,
    pub uncompressed_size: u64,
    pub uncompressed_crc: u32,
    pub compression: S,
    pub compressed_size: u64,
}

/// Where the messages of a channel are in a chunk: a time and an offset for each.
#[derive(Debug, PartialEq, Eq)]
pub struct MessageIndex<I = Vec<(u64, u64)>> {
    pub channel_id: u16,
    pub records: I,
}

/// Where a chunk is, and where the message indexes after it are, by the id of the channel.
#[derive(Debug, PartialEq, Eq)]
pub struct ChunkIndex<S = String, K = Vec<(u16, u64)>> {
    pub message_start_time: u64,
    pub message_end_time: u64,
    pub chunk_start_offset: u64,
    pub chunk_length: u64,
    pub message_index_offsets: K,
    pub message_index_length: u64,
    pub compression: S,
    pub compressed_size: u64,
    pub uncompressed_size: u64,
}

/// What an attachment record says of the attachment, ahead of the attachment itself.
#[derive(Debug, PartialEq, Eq)]
pub struct AttachmentHeader<S = String> {
    pub log_time: u64,
    pub create_time: u64,
    pub name: S,
    pub media_type: S,
}

/// Where an attachment is.
#[derive(Debug, PartialEq, Eq)]
pub struct AttachmentIndex<S = String> {
    pub offset: u64,
    pub length: u64,
    pub log_time: u64,
    pub create_time: u64,
    pub data_size: u64,
    pub name: S,
    pub media_type: S,
}

/// What there is in a file, and the number of messages by the id of the channel.
#[derive(Debug, PartialEq, Eq)]
pub struct Statistics<K = Vec<(u16, u64)>> {
    pub message_count: u64,
    pub schema_count: u16,
    pub channel_count: u32,
    pub attachment_count: u32,
    pub metadata_count: u32,
    pub chunk_count: u32,
    pub message_start_time: u64,
    pub message_end_time: u64,
    pub channel_message_counts: K,
}

/// Texts that are found by texts, under a name.
#[derive(Debug, PartialEq, Eq)]
pub struct Metadata<S = String, M = Vec<(String, String)>> {
    pub name: S,
    pub metadata: M,
}

/// Where a metadata record is.
#[derive(Debug, PartialEq, Eq)]
pub struct MetadataIndex<S = String> {
    pub offset: u64,
    pub length: u64,
    pub name: S,
}

/// Where the records with one opcode are in the summary.
#[derive(Debug, Clone, Copy, PartialEq, Eq)]
pub struct SummaryOffset {
    pub group_opcode: u8,
    pub group_start: u64,
    pub group_length: u64,
}

/// The end of the data in a file.
#[derive(Debug, Clone, Copy, PartialEq, Eq)]
pub struct DataEnd {
    pub data_section_crc: u32,
}

/// A record of any kind.
#[allow(inconsistent_fields)]
#[derive(Debug, PartialEq, Eq)]
pub enum Record<
    S = String,
    B = Vec<u8>,
    M = Vec<(String, String)>,
    I = Vec<(u64, u64)>,
    K = Vec<(u16, u64)>,
> {
    Header(Header<S>),
    Footer(Footer),
    Schema { header: SchemaHeader<S>, data: B },
    Channel(Channel<S, M>),
    Message { header: MessageHeader, data: B },
    Chunk { header: ChunkHeader<S>, data: B },
    MessageIndex(MessageIndex<I>),
    ChunkIndex(ChunkIndex<S, K>),
    Attachment { header: AttachmentHeader<S>, data: B, crc: u32 },
    AttachmentIndex(AttachmentIndex<S>),
    Statistics(Statistics<K>),
    Metadata(Metadata<S, M>),
    MetadataIndex(MetadataIndex<S>),
    SummaryOffset(SummaryOffset),
    DataEnd(DataEnd),
    /// A record of a kind that is not known.
    Unknown { opcode: u8, data: B },
}

/// A text as specifications see it.
pub type Text = Seq<char>;

/// Texts by texts as specifications see them.
pub type TextPairs = Seq<(Seq<char>, Seq<char>)>;

/// A record as specifications see it.
pub type RecordView = Record<Text, Seq<u8>, TextPairs, Seq<(u64, u64)>, Seq<(u16, u64)>>;

/// Texts by texts as specifications see them.
pub open spec fn text_pairs(pairs: Vec<(String, String)>) -> TextPairs {
    pairs@.map_values(|pair: (String, String)| (pair.0@, pair.1@))
}

impl View for Header {
    type V = Header<Text>;

    open spec fn view(&self) -> Header<Text> {
        Header { profile: self.profile@, library: self.library@ }
    }
}

impl View for SchemaHeader {
    type V = SchemaHeader<Text>;

    open spec fn view(&self) -> SchemaHeader<Text> {
        SchemaHeader { id: self.id, name: self.name@, encoding: self.encoding@ }
    }
}

impl View for Channel {
    type V = Channel<Text, TextPairs>;

    open spec fn view(&self) -> Channel<Text, TextPairs> {
        Channel {
            id: self.id,
            schema_id: self.schema_id,
            topic: self.topic@,
            message_encoding: self.message_encoding@,
            metadata: text_pairs(self.metadata),
        }
    }
}

impl View for ChunkHeader {
    type V = ChunkHeader<Text>;

    open spec fn view(&self) -> ChunkHeader<Text> {
        ChunkHeader {
            message_start_time: self.message_start_time,
            message_end_time: self.message_end_time,
            uncompressed_size: self.uncompressed_size,
            uncompressed_crc: self.uncompressed_crc,
            compression: self.compression@,
            compressed_size: self.compressed_size,
        }
    }
}

impl View for MessageIndex {
    type V = MessageIndex<Seq<(u64, u64)>>;

    open spec fn view(&self) -> MessageIndex<Seq<(u64, u64)>> {
        MessageIndex { channel_id: self.channel_id, records: self.records@ }
    }
}

impl View for ChunkIndex {
    type V = ChunkIndex<Text, Seq<(u16, u64)>>;

    open spec fn view(&self) -> ChunkIndex<Text, Seq<(u16, u64)>> {
        ChunkIndex {
            message_start_time: self.message_start_time,
            message_end_time: self.message_end_time,
            chunk_start_offset: self.chunk_start_offset,
            chunk_length: self.chunk_length,
            message_index_offsets: self.message_index_offsets@,
            message_index_length: self.message_index_length,
            compression: self.compression@,
            compressed_size: self.compressed_size,
            uncompressed_size: self.uncompressed_size,
        }
    }
}

impl View for AttachmentHeader {
    type V = AttachmentHeader<Text>;

    open spec fn view(&self) -> AttachmentHeader<Text> {
        AttachmentHeader {
            log_time: self.log_time,
            create_time: self.create_time,
            name: self.name@,
            media_type: self.media_type@,
        }
    }
}

impl View for AttachmentIndex {
    type V = AttachmentIndex<Text>;

    open spec fn view(&self) -> AttachmentIndex<Text> {
        AttachmentIndex {
            offset: self.offset,
            length: self.length,
            log_time: self.log_time,
            create_time: self.create_time,
            data_size: self.data_size,
            name: self.name@,
            media_type: self.media_type@,
        }
    }
}

impl View for Statistics {
    type V = Statistics<Seq<(u16, u64)>>;

    open spec fn view(&self) -> Statistics<Seq<(u16, u64)>> {
        Statistics {
            message_count: self.message_count,
            schema_count: self.schema_count,
            channel_count: self.channel_count,
            attachment_count: self.attachment_count,
            metadata_count: self.metadata_count,
            chunk_count: self.chunk_count,
            message_start_time: self.message_start_time,
            message_end_time: self.message_end_time,
            channel_message_counts: self.channel_message_counts@,
        }
    }
}

impl View for Metadata {
    type V = Metadata<Text, TextPairs>;

    open spec fn view(&self) -> Metadata<Text, TextPairs> {
        Metadata { name: self.name@, metadata: text_pairs(self.metadata) }
    }
}

impl View for MetadataIndex {
    type V = MetadataIndex<Text>;

    open spec fn view(&self) -> MetadataIndex<Text> {
        MetadataIndex { offset: self.offset, length: self.length, name: self.name@ }
    }
}

impl View for Record {
    type V = RecordView;

    open spec fn view(&self) -> RecordView {
        match *self {
            Record::Header(header) => Record::Header(header@),
            Record::Footer(footer) => Record::Footer(footer),
            Record::Schema { header, data } => Record::Schema { header: header@, data: data@ },
            Record::Channel(channel) => Record::Channel(channel@),
            Record::Message { header, data } => Record::Message { header, data: data@ },
            Record::Chunk { header, data } => Record::Chunk { header: header@, data: data@ },
            Record::MessageIndex(index) => Record::MessageIndex(index@),
            Record::ChunkIndex(index) => Record::ChunkIndex(index@),
            Record::Attachment { header, data, crc } => Record::Attachment {
                header: header@,
                data: data@,
                crc,
            },
            Record::AttachmentIndex(index) => Record::AttachmentIndex(index@),
            Record::Statistics(statistics) => Record::Statistics(statistics@),
            Record::Metadata(metadata) => Record::Metadata(metadata@),
            Record::MetadataIndex(index) => Record::MetadataIndex(index@),
            Record::SummaryOffset(offset) => Record::SummaryOffset(offset),
            Record::DataEnd(end) => Record::DataEnd(end),
            Record::Unknown { opcode, data } => Record::Unknown { opcode, data: data@ },
        }
    }
}

impl<S, B, M, I, K> Record<S, B, M, I, K> {
    pub open spec fn spec_opcode(&self) -> u8 {
        match *self {
            Record::Header(_) => op::HEADER,
            Record::Footer(_) => op::FOOTER,
            Record::Schema { .. } => op::SCHEMA,
            Record::Channel(_) => op::CHANNEL,
            Record::Message { .. } => op::MESSAGE,
            Record::Chunk { .. } => op::CHUNK,
            Record::MessageIndex(_) => op::MESSAGE_INDEX,
            Record::ChunkIndex(_) => op::CHUNK_INDEX,
            Record::Attachment { .. } => op::ATTACHMENT,
            Record::AttachmentIndex(_) => op::ATTACHMENT_INDEX,
            Record::Statistics(_) => op::STATISTICS,
            Record::Metadata(_) => op::METADATA,
            Record::MetadataIndex(_) => op::METADATA_INDEX,
            Record::SummaryOffset(_) => op::SUMMARY_OFFSET,
            Record::DataEnd(_) => op::DATA_END,
            Record::Unknown { opcode, .. } => opcode,
        }
    }

    /// The opcode that the record is stored under.
    #[verifier::when_used_as_spec(spec_opcode)]
    pub fn opcode(&self) -> (opcode: u8)
        ensures
            opcode == self.spec_opcode(),
    {
        match self {
            Record::Header(_) => op::HEADER,
            Record::Footer(_) => op::FOOTER,
            Record::Schema { .. } => op::SCHEMA,
            Record::Channel(_) => op::CHANNEL,
            Record::Message { .. } => op::MESSAGE,
            Record::Chunk { .. } => op::CHUNK,
            Record::MessageIndex(_) => op::MESSAGE_INDEX,
            Record::ChunkIndex(_) => op::CHUNK_INDEX,
            Record::Attachment { .. } => op::ATTACHMENT,
            Record::AttachmentIndex(_) => op::ATTACHMENT_INDEX,
            Record::Statistics(_) => op::STATISTICS,
            Record::Metadata(_) => op::METADATA,
            Record::MetadataIndex(_) => op::METADATA_INDEX,
            Record::SummaryOffset(_) => op::SUMMARY_OFFSET,
            Record::DataEnd(_) => op::DATA_END,
            Record::Unknown { opcode, .. } => *opcode,
        }
    }
}

} // verus!
