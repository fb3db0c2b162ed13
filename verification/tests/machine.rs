//! The reader step by step, with inputs that stand for nothing.

use std::io::{Error, ErrorKind};

use mcap::chunk_header::{read_chunk_header, Piece, Progress};
use mcap::error::ParseError;
use mcap::read::{
    ChunkOpening, Compression, Pending, ReaderState, RecordReader, RecordReaderOptions, Request,
    Step, SCRATCH_LEN,
};
use mcap::records::op;
use mcap::{McapError, MAGIC};

type State = ReaderState<&'static str, u8, u16, u32>;
type Reader = RecordReader<&'static str, u8, u16, u32>;
type Next = Step<&'static str, u8, u16, u32>;

fn bare() -> Reader {
    let options =
        RecordReaderOptions { skip_start_magic: true, skip_end_magic: true, emit_chunks: false };
    Reader::new_with_options("input", &options)
}

fn pending(step: Next) -> Pending {
    match step {
        Step::Await(pending) => pending,
        other => panic!("{:?}", other),
    }
}

fn error(step: Next) -> McapError {
    match step {
        Step::Done(Some(Err(err))) => err,
        other => panic!("{:?}", other),
    }
}

/// Answers a request for the scratch buffer.
fn answer(reader: &mut Reader, pending: Pending, bytes: &[u8]) -> Next {
    let from = match pending.request() {
        Request::ReadScratch { from, .. } => from as usize,
        _ => 0,
    };
    reader.reader_and_scratch().1[from..from + bytes.len()].copy_from_slice(bytes);
    reader.resume(pending, &[], Ok(bytes.len()))
}

fn record_header(opcode: u8, len: u64) -> Vec<u8> {
    let mut bytes = vec![opcode];
    bytes.extend(len.to_le_bytes());
    bytes
}

fn fixed(compression_len: u32) -> Vec<u8> {
    let mut bytes = vec![0; 28];
    bytes.extend(compression_len.to_le_bytes());
    bytes
}

/// A reader that was asked to open a chunk of `size` bytes in a record of `record_len` bytes.
fn opening(record_len: u64, compression: &str, size: u64) -> (Reader, &'static str, ChunkOpening) {
    let mut reader = bare();
    let first = pending(reader.next_record());
    let second = pending(answer(&mut reader, first, &record_header(op::CHUNK, record_len)));
    assert_eq!(second.request(), Request::FillData { len: 32 });
    let name = compression.as_bytes();
    let third = pending(reader.resume(second, &fixed(name.len() as u32), Ok(32)));
    assert_eq!(third.request(), Request::FillData { len: name.len() as u64 });
    let fourth = pending(reader.resume(third, name, Ok(name.len())));
    assert_eq!(fourth.request(), Request::FillData { len: 8 });
    match reader.resume(fourth, &size.to_le_bytes(), Ok(8)) {
        Step::OpenChunk(base, opening) => (reader, base, opening),
        other => panic!("{:?}", other),
    }
}

#[test]
fn the_magic_comes_first_and_last() {
    let mut reader = Reader::new("input");
    let start = pending(reader.next_record());
    assert_eq!(start.request(), Request::FillScratch { len: 8 });
    let header = pending(answer(&mut reader, start, &MAGIC));
    assert_eq!(header.request(), Request::ReadScratch { from: 0, len: 9 });
    let footer = pending(answer(&mut reader, header, &record_header(op::FOOTER, 20)));
    assert_eq!(footer.request(), Request::FillData { len: 20 });
    assert!(matches!(
        reader.resume(footer, &[0; 20], Ok(20)),
        Step::Done(Some(Ok(op::FOOTER)))
    ));

    let end = pending(reader.next_record());
    assert_eq!(end.request(), Request::FillScratch { len: 8 });
    assert!(matches!(error(answer(&mut reader, end, b"not this")), McapError::BadMagic));
    let end = pending(reader.next_record());
    assert!(matches!(answer(&mut reader, end, &MAGIC), Step::Done(None)));
}

#[test]
fn the_length_of_a_record_is_eight_bytes() {
    let mut reader = bare();
    let header = pending(reader.next_record());
    let len = 0x8877_6655_4433_2211;
    let body = pending(answer(&mut reader, header, &record_header(op::MESSAGE, len)));
    assert_eq!(body.request(), Request::FillData { len });
}

#[test]
fn a_failed_read_is_passed_on_and_changes_nothing() {
    let mut reader = Reader::new("input");
    let start = pending(reader.next_record());
    let failed = reader.resume(start, &[], Err(Error::new(ErrorKind::BrokenPipe, "gone")));
    match error(failed) {
        McapError::Io(err) => assert_eq!(err.kind(), ErrorKind::BrokenPipe),
        other => panic!("{:?}", other),
    }
    assert!(matches!(pending(reader.next_record()), Pending::StartMagic));
    assert_eq!(*reader.as_base_reader_mut().unwrap(), "input");
}

#[test]
fn what_a_chunk_leaves_of_its_record_is_skipped() {
    let (mut reader, base, opening) = opening(40 + 3000, "", 500);
    assert_eq!(base, "input");
    assert_eq!(opening.compression, None);
    assert_eq!((opening.compressed_size, opening.trailing), (500, 2500));

    let in_chunk = pending(reader.chunk_opened(opening, Ok(State::UncompressedChunk(1))));
    assert!(matches!(in_chunk, Pending::ChunkRecordHeader { have: 0 }));
    match answer(&mut reader, in_chunk, &[]) {
        Step::CloseChunk(State::UncompressedChunk(1)) => {}
        other => panic!("{:?}", other),
    }
    let mut next = pending(reader.chunk_closed(Ok("again")));
    for len in [SCRATCH_LEN, SCRATCH_LEN, 2500 - 2 * SCRATCH_LEN] {
        assert_eq!(next.request(), Request::FillScratch { len: len as u64 });
        next = pending(answer(&mut reader, next, &vec![0; len]));
    }
    assert!(matches!(next, Pending::RecordHeader { have: 0 }));
    assert_eq!(*reader.as_base_reader_mut().unwrap(), "again");
}

#[test]
fn a_chunk_is_opened_by_the_name_of_its_compression() {
    let (_, _, zstd) = opening(50, "zstd", 6);
    assert_eq!(zstd.compression, Some(Compression::Zstd));
    assert_eq!((zstd.compressed_size, zstd.trailing), (6, 0));
    let (_, _, lz4) = opening(50, "lz4", 0);
    assert_eq!(lz4.compression, Some(Compression::Lz4));
    assert_eq!((lz4.compressed_size, lz4.trailing), (0, 7));
}

#[test]
fn a_reader_that_does_not_come_back_is_missed() {
    let (mut reader, _, at) = opening(44, "zstd", 0);
    let failed = reader.chunk_opened(at, Err(McapError::Io(ErrorKind::InvalidData.into())));
    assert!(matches!(error(failed), McapError::Io(_)));
    match reader.as_base_reader_mut() {
        Err(McapError::AccessBaseReader(name)) => assert_eq!(name, "Empty"),
        other => panic!("{:?}", other),
    }

    let (mut reader, _, at) = opening(44, "zstd", 0);
    let in_chunk = pending(reader.chunk_opened(at, Ok(State::ZstdChunk(5))));
    match answer(&mut reader, in_chunk, &[]) {
        Step::CloseChunk(State::ZstdChunk(5)) => {}
        other => panic!("{:?}", other),
    }
    let failed = reader.chunk_closed(Err(McapError::Io(ErrorKind::InvalidData.into())));
    assert!(matches!(error(failed), McapError::Io(_)));
    assert_eq!(reader.into_inner().name(), "Empty");
}

#[test]
fn states_have_names_and_give_the_base_reader_back() {
    assert_eq!(State::Base("r").name(), "Base");
    assert_eq!(State::UncompressedChunk(1).name(), "UncompressedChunk");
    assert_eq!(State::ZstdChunk(2).name(), "ZstdChunk");
    assert_eq!(State::Lz4Chunk(3).name(), "Lz4Chunk");
    assert_eq!(State::Empty.name(), "Empty");

    assert!(matches!(State::Base("r").into_inner(), Ok("r")));
    assert!(matches!(
        State::UncompressedChunk(1).into_inner(),
        Err(State::UncompressedChunk(1))
    ));
    assert!(matches!(State::ZstdChunk(2).into_inner(), Err(State::ZstdChunk(2))));
    assert!(matches!(State::Lz4Chunk(3).into_inner(), Err(State::Lz4Chunk(3))));
}

#[test]
fn a_chunk_header_comes_in_three_pieces() {
    let mut first = Vec::new();
    first.extend(1u64.to_le_bytes());
    first.extend(2u64.to_le_bytes());
    first.extend(3u64.to_le_bytes());
    first.extend(4u32.to_le_bytes());
    first.extend(2u32.to_le_bytes());

    let piece = read_chunk_header(60).unwrap();
    assert_eq!(piece.len(), 32);
    let piece = match piece.advance(60, &first).unwrap() {
        Progress::Next(piece) => piece,
        other => panic!("{:?}", other),
    };
    assert_eq!(piece.len(), 2);
    let piece = match piece.advance(60, b"xy").unwrap() {
        Progress::Next(piece) => piece,
        other => panic!("{:?}", other),
    };
    assert_eq!(piece.len(), 8);
    match piece.advance(60, &18u64.to_le_bytes()).unwrap() {
        Progress::Complete(header) => {
            assert_eq!((header.message_start_time, header.message_end_time), (1, 2));
            assert_eq!((header.uncompressed_size, header.uncompressed_crc), (3, 4));
            assert_eq!((header.compression.as_str(), header.compressed_size), ("xy", 18));
        }
        other => panic!("{:?}", other),
    }
}

#[test]
fn chunk_headers_are_refused_where_they_go_wrong() {
    match read_chunk_header(39) {
        Err(McapError::RecordTooShort { opcode, len, expected }) => {
            assert_eq!((opcode, len, expected), (op::CHUNK, 39, 40));
        }
        other => panic!("{:?}", other),
    }
    assert!(read_chunk_header(40).is_ok());
    for compression_len in [1, u32::MAX] {
        let second = match Piece::Fixed.advance(40, &fixed(compression_len)) {
            Ok(Progress::Next(piece)) => piece,
            other => panic!("{:?}", other),
        };
        assert!(matches!(second, Piece::Overlong { .. }));
        assert_eq!(second.len(), compression_len as u64);
        match second.advance(40, &[]) {
            Err(McapError::RecordTooShort { opcode, len, expected }) => {
                assert_eq!((opcode, len, expected), (op::CHUNK, 40, 40 + compression_len as u64));
            }
            other => panic!("{:?}", other),
        }
    }
    let second = match Piece::Fixed.advance(42, &fixed(1)) {
        Ok(Progress::Next(piece)) => piece,
        other => panic!("{:?}", other),
    };
    assert!(matches!(
        second.advance(42, &[0xC0]),
        Err(McapError::Parse(ParseError::Utf8 { pos: 32, .. }))
    ));
    let third = match Piece::Fixed.advance(40, &fixed(0)) {
        Ok(Progress::Next(piece)) => match piece.advance(40, &[]) {
            Ok(Progress::Next(piece)) => piece,
            other => panic!("{:?}", other),
        },
        other => panic!("{:?}", other),
    };
    match third.advance(40, &1u64.to_le_bytes()) {
        Err(McapError::BadChunkLength { header, available }) => {
            assert_eq!((header, available), (1, 0));
        }
        other => panic!("{:?}", other),
    }
}

#[test]
fn a_record_header_may_come_in_pieces() {
    let mut reader = bare();
    let bytes = record_header(op::MESSAGE, 0x0102_0304_0506_0708);
    let mut next = pending(reader.next_record());
    for (from, to) in [(0, 1), (1, 4), (4, 8)] {
        assert_eq!(
            next.request(),
            Request::ReadScratch { from: from as u64, len: 9 - from as u64 }
        );
        next = pending(answer(&mut reader, next, &bytes[from..to]));
    }
    assert!(matches!(next, Pending::RecordHeader { have: 8 }));
    let body = pending(answer(&mut reader, next, &bytes[8..]));
    assert_eq!(body.request(), Request::FillData { len: 0x0102_0304_0506_0708 });
}

#[test]
fn an_input_that_ends_in_a_record_header_is_refused() {
    let mut reader = bare();
    let first = pending(reader.next_record());
    let second = pending(answer(&mut reader, first, &[op::MESSAGE, 0]));
    assert!(matches!(error(answer(&mut reader, second, &[])), McapError::UnexpectedEof));
    let first = pending(reader.next_record());
    assert!(matches!(answer(&mut reader, first, &[]), Step::Done(None)));

    let (mut reader, _, at) = opening(60, "", 20);
    let first = pending(reader.chunk_opened(at, Ok(State::UncompressedChunk(1))));
    let second = pending(answer(&mut reader, first, &[op::MESSAGE]));
    assert!(matches!(second, Pending::ChunkRecordHeader { have: 1 }));
    assert!(matches!(error(answer(&mut reader, second, &[])), McapError::UnexpectedEof));
    assert_eq!(reader.into_inner().name(), "UncompressedChunk");
}

#[test]
fn the_buffer_is_sized_before_a_compression_is_refused() {
    let mut reader = bare();
    let first = pending(reader.next_record());
    let second = pending(answer(&mut reader, first, &record_header(op::CHUNK, 44)));
    let third = pending(reader.resume(second, &fixed(5), Ok(32)));
    assert_eq!(third.request(), Request::SizeData { len: 5 });
    match error(reader.resume(third, &[0; 5], Ok(0))) {
        McapError::RecordTooShort { opcode, len, expected } => {
            assert_eq!((opcode, len, expected), (op::CHUNK, 44, 45));
        }
        other => panic!("{:?}", other),
    }
    assert!(matches!(reader.next_record_inner(), Pending::RecordHeader { have: 0 }));
}
