//! Laws of what specifications see: they see every value as it is.
//!
//! Contracts speak of views. The laws here say that a view keeps the kind of a value and every
//! field of it, so that what holds of the view holds of the value.

use crate::chunk_header::{piece_view, progress_view, Piece, Progress};
use crate::error::{ErrorView, McapError, McapResult, ParseError};
use crate::parse::record_view;
use crate::read::{
    footer_view, outcome_view, read_record_view, Pending, ReaderState, Source, Step, StepView,
};
use crate::records::{
    text_pairs, AttachmentHeader, AttachmentIndex, Channel, ChunkHeader, ChunkIndex, Footer,
    Header, MessageIndex, Metadata, MetadataIndex, Record, SchemaHeader, Statistics,
};
use crate::MAGIC;
use vstd::prelude::*;

verus! {

/// The magic is `0x89`, `MCAP0`, and the end of a line.
pub proof fn law_magic_is_a_line()
    ensures
        MAGIC@.len() == 8,
        MAGIC@[0] == 0x89,
        MAGIC@.subrange(1, 6).map_values(|byte: u8| byte as char) == "MCAP0"@,
        MAGIC@[6] == 0x0D,
        MAGIC@[7] == 0x0A,
{
    reveal_strlit("MCAP0");
    assert(MAGIC@.subrange(1, 6).map_values(|byte: u8| byte as char) =~= "MCAP0"@);
}

/// An error is seen as an error of the same kind, with the same fields.
pub proof fn law_errors_are_seen_as_they_are(err: McapError)
    ensures
        match err@ {
            ErrorView::AccessBaseReader(seen) => err matches McapError::AccessBaseReader(name)
                && name@ == seen,
            ErrorView::BadMagic => err is BadMagic,
            ErrorView::UnexpectedEof => err is UnexpectedEof,
            ErrorView::RecordTooShort { opcode, len, expected } => err
                == McapError::RecordTooShort { opcode, len, expected },
            ErrorView::BadChunkLength { header, available } => err == McapError::BadChunkLength {
                header,
                available,
            },
            ErrorView::UnsupportedCompression(seen) => {
                err matches McapError::UnsupportedCompression(name) && name@ == seen
            },
            ErrorView::UnexpectedRecord { expected, recieved } => err
                == McapError::UnexpectedRecord { expected, recieved },
            ErrorView::UnexpectedEnd { pos } => err == McapError::Parse(
                ParseError::UnexpectedEnd { pos },
            ),
            ErrorView::Utf8 { pos, err: why } => err == McapError::Parse(
                ParseError::Utf8 { pos, err: why },
            ),
            ErrorView::Io(why) => err == McapError::Io(why),
        },
{
}

/// Pairs of texts are seen as pairs of texts, each in its place.
pub proof fn law_pairs_are_seen_as_they_are(pairs: Vec<(String, String)>, i: int)
    ensures
        text_pairs(pairs).len() == pairs@.len(),
        0 <= i < pairs@.len() ==> text_pairs(pairs)[i].0 == pairs@[i].0@ && text_pairs(pairs)[i].1
            == pairs@[i].1@,
{
}

/// Every field is seen as it is.
pub proof fn law_header_is_seen_as_it_is(header: Header)
    ensures
        header@.profile == header.profile@,
        header@.library == header.library@,
{
}

/// Every field is seen as it is.
pub proof fn law_schema_header_is_seen_as_it_is(header: SchemaHeader)
    ensures
        header@.id == header.id,
        header@.name == header.name@,
        header@.encoding == header.encoding@,
{
}

/// Every field is seen as it is.
pub proof fn law_channel_is_seen_as_it_is(channel: Channel)
    ensures
        channel@.id == channel.id,
        channel@.schema_id == channel.schema_id,
        channel@.topic == channel.topic@,
        channel@.message_encoding == channel.message_encoding@,
        channel@.metadata == text_pairs(channel.metadata),
{
}

/// Every field is seen as it is.
pub proof fn law_chunk_header_is_seen_as_it_is(header: ChunkHeader)
    ensures
        header@.message_start_time == header.message_start_time,
        header@.message_end_time == header.message_end_time,
        header@.uncompressed_size == header.uncompressed_size,
        header@.uncompressed_crc == header.uncompressed_crc,
        header@.compression == header.compression@,
        header@.compressed_size == header.compressed_size,
{
}

/// Every field is seen as it is.
pub proof fn law_message_index_is_seen_as_it_is(index: MessageIndex)
    ensures
        index@.channel_id == index.channel_id,
        index@.records == index.records@,
{
}

/// Every field is seen as it is.
pub proof fn law_chunk_index_is_seen_as_it_is(index: ChunkIndex)
    ensures
        index@.message_start_time == index.message_start_time,
        index@.message_end_time == index.message_end_time,
        index@.chunk_start_offset == index.chunk_start_offset,
        index@.chunk_length == index.chunk_length,
        index@.message_index_offsets == index.message_index_offsets@,
        index@.message_index_length == index.message_index_length,
        index@.compression == index.compression@,
        index@.compressed_size == index.compressed_size,
        index@.uncompressed_size == index.uncompressed_size,
{
}

/// Every field is seen as it is.
pub proof fn law_attachment_header_is_seen_as_it_is(header: AttachmentHeader)
    ensures
        header@.log_time == header.log_time,
        header@.create_time == header.create_time,
        header@.name == header.name@,
        header@.media_type == header.media_type@,
{
}

/// Every field is seen as it is.
pub proof fn law_attachment_index_is_seen_as_it_is(index: AttachmentIndex)
    ensures
        index@.offset == index.offset,
        index@.length == index.length,
        index@.log_time == index.log_time,
        index@.create_time == index.create_time,
        index@.data_size == index.data_size,
        index@.name == index.name@,
        index@.media_type == index.media_type@,
{
}

/// Every field is seen as it is.
pub proof fn law_statistics_is_seen_as_it_is(statistics: Statistics)
    ensures
        statistics@.message_count == statistics.message_count,
        statistics@.schema_count == statistics.schema_count,
        statistics@.channel_count == statistics.channel_count,
        statistics@.attachment_count == statistics.attachment_count,
        statistics@.metadata_count == statistics.metadata_count,
        statistics@.chunk_count == statistics.chunk_count,
        statistics@.message_start_time == statistics.message_start_time,
        statistics@.message_end_time == statistics.message_end_time,
        statistics@.channel_message_counts == statistics.channel_message_counts@,
{
}

/// Every field is seen as it is.
pub proof fn law_metadata_is_seen_as_it_is(metadata: Metadata)
    ensures
        metadata@.name == metadata.name@,
        metadata@.metadata == text_pairs(metadata.metadata),
{
}

/// Every field is seen as it is.
pub proof fn law_metadata_index_is_seen_as_it_is(index: MetadataIndex)
    ensures
        index@.offset == index.offset,
        index@.length == index.length,
        index@.name == index.name@,
{
}

/// A record is seen as a record of the same kind, with the same parts and under the same opcode.
pub proof fn law_records_are_seen_as_they_are(record: Record)
    ensures
        record@.opcode() == record.opcode(),
        match record {
            Record::Header(header) => record@ matches Record::Header(seen) && seen == header@,
            Record::Footer(footer) => record@ matches Record::Footer(seen) && seen == footer,
            Record::Schema { header, data } => {
                &&& record@ matches Record::Schema { header: seen, data: bytes }
                &&& seen == header@
                &&& bytes == data@
            },
            Record::Channel(channel) => record@ matches Record::Channel(seen) && seen == channel@,
            Record::Message { header, data } => {
                &&& record@ matches Record::Message { header: seen, data: bytes }
                &&& seen == header
                &&& bytes == data@
            },
            Record::Chunk { header, data } => {
                &&& record@ matches Record::Chunk { header: seen, data: bytes }
                &&& seen == header@
                &&& bytes == data@
            },
            Record::MessageIndex(index) => {
                record@ matches Record::MessageIndex(seen) && seen == index@
            },
            Record::ChunkIndex(index) => record@ matches Record::ChunkIndex(seen) && seen == index@,
            Record::Attachment { header, data, crc } => {
                &&& record@ matches Record::Attachment { header: seen, data: bytes, crc: sum }
                &&& seen == header@
                &&& bytes == data@
                &&& sum == crc
            },
            Record::AttachmentIndex(index) => {
                record@ matches Record::AttachmentIndex(seen) && seen == index@
            },
            Record::Statistics(statistics) => {
                record@ matches Record::Statistics(seen) && seen == statistics@
            },
            Record::Metadata(metadata) => {
                record@ matches Record::Metadata(seen) && seen == metadata@
            },
            Record::MetadataIndex(index) => {
                record@ matches Record::MetadataIndex(seen) && seen == index@
            },
            Record::SummaryOffset(offset) => {
                record@ matches Record::SummaryOffset(seen) && seen == offset
            },
            Record::DataEnd(end) => record@ matches Record::DataEnd(seen) && seen == end,
            Record::Unknown { opcode, data } => {
                &&& record@ matches Record::Unknown { opcode: seen, data: bytes }
                &&& seen == opcode
                &&& bytes == data@
            },
        },
{
}

/// The kinds of record go by their opcodes, from the header to the end of the data.
pub proof fn law_kinds_go_by_opcode(record: Record)
    ensures
        record is Header ==> record.opcode() == 1,
        record is Footer ==> record.opcode() == 2,
        record is Schema ==> record.opcode() == 3,
        record is Channel ==> record.opcode() == 4,
        record is Message ==> record.opcode() == 5,
        record is Chunk ==> record.opcode() == 6,
        record is MessageIndex ==> record.opcode() == 7,
        record is ChunkIndex ==> record.opcode() == 8,
        record is Attachment ==> record.opcode() == 9,
        record is AttachmentIndex ==> record.opcode() == 10,
        record is Statistics ==> record.opcode() == 11,
        record is Metadata ==> record.opcode() == 12,
        record is MetadataIndex ==> record.opcode() == 13,
        record is SummaryOffset ==> record.opcode() == 14,
        record is DataEnd ==> record.opcode() == 15,
        record matches Record::Unknown { opcode, .. } ==> record.opcode() == opcode,
{
}

/// A result is seen as what it is: a value as a value, an error as that error, and the end as the
/// end.
pub proof fn law_results_are_seen_as_they_are(
    outcome: Option<McapResult<u8>>,
    record: McapResult<Record>,
    read: McapResult<Option<Record>>,
    footer: McapResult<Footer>,
    piece: McapResult<Piece>,
    progress: McapResult<Progress>,
)
    ensures
        outcome is None <==> outcome_view(outcome) is None,
        outcome matches Some(Ok(opcode)) ==> outcome_view(outcome) == Some(
            Ok::<u8, ErrorView>(opcode),
        ),
        outcome matches Some(Err(err)) ==> outcome_view(outcome) == Some(
            Err::<u8, ErrorView>(err@),
        ),
        record matches Ok(value) ==> record_view(record) is Ok && record_view(record)->Ok_0
            == value@,
        record matches Err(err) ==> record_view(record) is Err && record_view(record)->Err_0
            == err@,
        read matches Ok(None) <==> (read_record_view(read) matches Ok(None)),
        read matches Ok(Some(value)) ==> (read_record_view(read) matches Ok(Some(seen)) && seen
            == value@),
        read matches Err(err) ==> (read_record_view(read) matches Err(seen) && seen == err@),
        footer matches Ok(value) ==> (footer_view(footer) matches Ok(seen) && seen == value),
        footer matches Err(err) ==> (footer_view(footer) matches Err(seen) && seen == err@),
        piece matches Ok(value) ==> (piece_view(piece) matches Ok(seen) && seen == value@),
        piece matches Err(err) ==> (piece_view(piece) matches Err(seen) && seen == err@),
        progress matches Ok(value) ==> (progress_view(progress) matches Ok(seen) && seen == value@),
        progress matches Err(err) ==> (progress_view(progress) matches Err(seen) && seen == err@),
{
}

/// A piece of a chunk header is seen as that piece, and with it what was read before.
pub proof fn law_pieces_are_seen_as_they_are(piece: Piece, progress: Progress)
    ensures
        piece@.len() == piece.len(),
        match piece {
            Piece::Fixed => piece@ is Fixed,
            Piece::Compression { fixed } => {
                piece@ matches Piece::Compression { fixed: seen } && seen == fixed
            },
            Piece::Overlong { compression_len } => {
                piece@ matches Piece::Overlong { compression_len: seen } && seen == compression_len
            },
            Piece::Size { fixed, compression } => {
                &&& piece@ matches Piece::Size { fixed: seen, compression: name }
                &&& seen == fixed
                &&& name == compression@
            },
        },
        match progress {
            Progress::Next(piece) => progress@ matches Progress::Next(seen) && seen == piece@,
            Progress::Complete(header) => {
                progress@ matches Progress::Complete(seen) && seen == header@
            },
        },
{
}

/// A read that is waited for is seen as that read.
pub proof fn law_reads_are_seen_as_they_are(pending: Pending)
    ensures
        pending@.request() == pending.request(),
        match pending {
            Pending::StartMagic => pending@ is StartMagic,
            Pending::EndMagic => pending@ is EndMagic,
            Pending::RecordHeader { have } => {
                pending@ matches Pending::RecordHeader { have: seen } && seen == have
            },
            Pending::ChunkRecordHeader { have } => {
                pending@ matches Pending::ChunkRecordHeader { have: seen } && seen == have
            },
            Pending::ChunkHeader { record_len, piece } => {
                &&& pending@ matches Pending::ChunkHeader { record_len: len, piece: seen }
                &&& len == record_len
                &&& seen == piece@
            },
            Pending::Body { opcode, len } => {
                &&& pending@ matches Pending::Body { opcode: seen, len: bytes }
                &&& seen == opcode
                &&& bytes == len
            },
            Pending::Discard { len } => {
                pending@ matches Pending::Discard { len: seen } && seen == len
            },
        },
{
}

/// A step is seen as that step.
pub proof fn law_steps_are_seen_as_they_are<R, T, Z, L>(step: Step<R, T, Z, L>)
    ensures
        match step {
            Step::Await(pending) => step@ matches StepView::Await(seen) && seen == pending@,
            Step::OpenChunk(_, opening) => step@ == StepView::OpenChunk(opening),
            Step::CloseChunk(_) => step@ is CloseChunk,
            Step::Done(outcome) => step@ == StepView::Done(outcome_view(outcome)),
        },
{
}

/// A reader is seen as the kind of reader that it is.
pub proof fn law_readers_are_seen_as_they_are<R, T, Z, L>(state: ReaderState<R, T, Z, L>)
    ensures
        state is Base <==> state.source() is Base,
        state is UncompressedChunk <==> state.source() is UncompressedChunk,
        state is ZstdChunk <==> state.source() is ZstdChunk,
        state is Lz4Chunk <==> state.source() is Lz4Chunk,
        state is Empty <==> state.source() is Empty,
{
}

/// Every reader has a name of its own, which tells where the bytes come from.
pub proof fn law_readers_have_names(a: Source, b: Source)
    ensures
        a.name() == b.name() ==> a == b,
        a is Base ==> a.name() == "Base"@,
        a is UncompressedChunk ==> a.name() == "UncompressedChunk"@,
        a is ZstdChunk ==> a.name() == "ZstdChunk"@,
        a is Lz4Chunk ==> a.name() == "Lz4Chunk"@,
        a is Empty ==> a.name() == "Empty"@,
{
    reveal_strlit("Base");
    reveal_strlit("UncompressedChunk");
    reveal_strlit("ZstdChunk");
    reveal_strlit("Lz4Chunk");
    reveal_strlit("Empty");
    assert("Base"@.len() == 4);
    assert("Empty"@.len() == 5);
    assert("Lz4Chunk"@.len() == 8);
    assert("ZstdChunk"@.len() == 9);
    assert("UncompressedChunk"@.len() == 17);
}

} // verus!
