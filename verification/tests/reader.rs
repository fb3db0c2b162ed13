//! Whole files, read with tokio's readers and the real decompressors.

use std::io::{Cursor, SeekFrom};
use std::pin::Pin;
use std::task::{Context, Poll};

use async_compression::tokio::bufread::{Lz4Decoder, ZstdDecoder};
use async_compression::tokio::write::{Lz4Encoder, ZstdEncoder};
use tokio::io::{
    AsyncRead, AsyncReadExt, AsyncSeek, AsyncSeekExt, AsyncWriteExt, BufReader, ReadBuf, Take,
};

use mcap::error::ParseError;
use mcap::read::{
    read_footer, Compression, ReaderState, RecordReader, RecordReaderOptions, Request, Step,
    FOOTER_LEN_BYTES,
};
use mcap::records::{op, Footer, Record};
use mcap::{parse_record, McapError, McapResult, MAGIC};

/// A file that gives at most `most` bytes per read.
#[derive(Debug)]
struct Input {
    file: Cursor<Vec<u8>>,
    most: usize,
}

impl Input {
    fn new(file: Vec<u8>) -> Input {
        Input::slow(file, usize::MAX)
    }

    fn slow(file: Vec<u8>, most: usize) -> Input {
        Input { file: Cursor::new(file), most }
    }
}

impl AsyncRead for Input {
    fn poll_read(
        self: Pin<&mut Self>,
        _: &mut Context<'_>,
        buf: &mut ReadBuf<'_>,
    ) -> Poll<std::io::Result<()>> {
        let input = self.get_mut();
        let mut part = vec![0; buf.remaining().min(input.most)];
        let n = std::io::Read::read(&mut input.file, &mut part)?;
        buf.put_slice(&part[..n]);
        Poll::Ready(Ok(()))
    }
}

impl AsyncSeek for Input {
    fn start_seek(self: Pin<&mut Self>, position: SeekFrom) -> std::io::Result<()> {
        std::io::Seek::seek(&mut self.get_mut().file, position)?;
        Ok(())
    }

    fn poll_complete(self: Pin<&mut Self>, _: &mut Context<'_>) -> Poll<std::io::Result<u64>> {
        Poll::Ready(Ok(self.file.position()))
    }
}

type Zstd = ZstdDecoder<BufReader<Take<Input>>>;
type Lz4 = Lz4Decoder<BufReader<Take<Input>>>;
type Reader = RecordReader<Input, Take<Input>, Zstd, Lz4>;
type State = ReaderState<Input, Take<Input>, Zstd, Lz4>;

fn block_on<F: std::future::Future>(future: F) -> F::Output {
    tokio::runtime::Builder::new_current_thread().build().unwrap().block_on(future)
}

async fn read_exact(state: &mut State, buf: &mut [u8]) -> std::io::Result<usize> {
    match state {
        ReaderState::Base(r) => r.read_exact(buf).await,
        ReaderState::UncompressedChunk(r) => r.read_exact(buf).await,
        ReaderState::ZstdChunk(r) => r.read_exact(buf).await,
        ReaderState::Lz4Chunk(r) => r.read_exact(buf).await,
        ReaderState::Empty => panic!("no reader"),
    }
}

async fn read(state: &mut State, buf: &mut [u8]) -> std::io::Result<usize> {
    match state {
        ReaderState::Base(r) => r.read(buf).await,
        ReaderState::UncompressedChunk(r) => r.read(buf).await,
        ReaderState::ZstdChunk(r) => r.read(buf).await,
        ReaderState::Lz4Chunk(r) => r.read(buf).await,
        ReaderState::Empty => panic!("no reader"),
    }
}

async fn next_record(reader: &mut Reader, data: &mut Vec<u8>) -> Option<McapResult<u8>> {
    let mut step = reader.next_record();
    loop {
        step = match step {
            Step::Await(pending) => {
                let (state, scratch) = reader.reader_and_scratch();
                let done = match pending.request() {
                    Request::FillScratch { len } => {
                        read_exact(state, &mut scratch[..len as usize]).await
                    }
                    Request::ReadScratch { from, len } => {
                        read(state, &mut scratch[from as usize..(from + len) as usize]).await
                    }
                    Request::FillData { len } => {
                        data.resize(len as usize, 0);
                        read_exact(state, &mut data[..]).await
                    }
                    Request::SizeData { len } => {
                        data.resize(len as usize, 0);
                        Ok(0)
                    }
                };
                reader.resume(pending, data, done)
            }
            Step::OpenChunk(base, opening) => {
                let chunk = base.take(opening.compressed_size);
                let state = match opening.compression {
                    None => ReaderState::UncompressedChunk(chunk),
                    Some(Compression::Zstd) => {
                        ReaderState::ZstdChunk(ZstdDecoder::new(BufReader::new(chunk)))
                    }
                    Some(Compression::Lz4) => {
                        ReaderState::Lz4Chunk(Lz4Decoder::new(BufReader::new(chunk)))
                    }
                };
                reader.chunk_opened(opening, Ok(state))
            }
            Step::CloseChunk(state) => {
                let base = match state.into_inner() {
                    Ok(base) => base,
                    Err(ReaderState::UncompressedChunk(r)) => r.into_inner(),
                    Err(ReaderState::ZstdChunk(r)) => r.into_inner().into_inner().into_inner(),
                    Err(ReaderState::Lz4Chunk(r)) => r.into_inner().into_inner().into_inner(),
                    Err(_) => panic!("no reader"),
                };
                reader.chunk_closed(Ok(base))
            }
            Step::Done(outcome) => return outcome,
        };
    }
}

fn next(reader: &mut Reader, data: &mut Vec<u8>) -> Option<McapResult<u8>> {
    block_on(next_record(reader, data))
}

fn record(opcode: u8, body: &[u8]) -> Vec<u8> {
    let mut bytes = vec![opcode];
    bytes.extend((body.len() as u64).to_le_bytes());
    bytes.extend(body);
    bytes
}

fn text(s: &str) -> Vec<u8> {
    let mut bytes = (s.len() as u32).to_le_bytes().to_vec();
    bytes.extend(s.as_bytes());
    bytes
}

fn chunk_body(name: &str, stored: &[u8], trailing: &[u8]) -> Vec<u8> {
    let mut body = Vec::new();
    body.extend(1u64.to_le_bytes());
    body.extend(2u64.to_le_bytes());
    body.extend(3u64.to_le_bytes());
    body.extend(4u32.to_le_bytes());
    body.extend(text(name));
    body.extend((stored.len() as u64).to_le_bytes());
    body.extend(stored);
    body.extend(trailing);
    body
}

fn compressed(compression: Option<Compression>, bytes: &[u8]) -> Vec<u8> {
    block_on(async {
        match compression {
            None => bytes.to_vec(),
            Some(Compression::Zstd) => {
                let mut encoder = ZstdEncoder::new(Vec::new());
                encoder.write_all(bytes).await.unwrap();
                encoder.shutdown().await.unwrap();
                encoder.into_inner()
            }
            Some(Compression::Lz4) => {
                let mut encoder = Lz4Encoder::new(Vec::new());
                encoder.write_all(bytes).await.unwrap();
                encoder.shutdown().await.unwrap();
                encoder.into_inner()
            }
        }
    })
}

fn name_of(compression: Option<Compression>) -> &'static str {
    match compression {
        None => "",
        Some(Compression::Zstd) => "zstd",
        Some(Compression::Lz4) => "lz4",
    }
}

fn channel_body() -> Vec<u8> {
    let mut body = vec![0, 0, 0, 0];
    body.extend(text("chat"));
    body.extend(text("json"));
    body.extend(0u32.to_le_bytes());
    body
}

fn message_body() -> Vec<u8> {
    let mut body = vec![0, 0];
    body.extend(0u32.to_le_bytes());
    body.extend(0u64.to_le_bytes());
    body.extend(0u64.to_le_bytes());
    body.extend([0, 1, 2]);
    body
}

fn footer_body(start: u64, offset_start: u64, crc: u32) -> Vec<u8> {
    let mut body = start.to_le_bytes().to_vec();
    body.extend(offset_start.to_le_bytes());
    body.extend(crc.to_le_bytes());
    body
}

fn file_with_summary(compression: Option<Compression>) -> Vec<u8> {
    let mut inner = record(op::CHANNEL, &channel_body());
    inner.extend(record(op::MESSAGE, &message_body()));
    let stored = compressed(compression, &inner);

    let mut header = text("");
    header.extend(text("mcap-test"));
    let mut message_index = vec![0, 0];
    message_index.extend(16u32.to_le_bytes());
    message_index.extend(0u64.to_le_bytes());
    message_index.extend(35u64.to_le_bytes());
    let mut chunk_index = Vec::new();
    for n in [0u64, 0, 40, 100] {
        chunk_index.extend(n.to_le_bytes());
    }
    chunk_index.extend(10u32.to_le_bytes());
    chunk_index.extend(0u16.to_le_bytes());
    chunk_index.extend(140u64.to_le_bytes());
    chunk_index.extend(31u64.to_le_bytes());
    chunk_index.extend(text(name_of(compression)));
    chunk_index.extend((stored.len() as u64).to_le_bytes());
    chunk_index.extend((inner.len() as u64).to_le_bytes());
    let mut statistics = 1u64.to_le_bytes().to_vec();
    statistics.extend(0u16.to_le_bytes());
    for n in [1u32, 0, 0, 1] {
        statistics.extend(n.to_le_bytes());
    }
    statistics.extend(0u64.to_le_bytes());
    statistics.extend(0u64.to_le_bytes());
    statistics.extend(10u32.to_le_bytes());
    statistics.extend(0u16.to_le_bytes());
    statistics.extend(1u64.to_le_bytes());

    let mut file = MAGIC.to_vec();
    file.extend(record(op::HEADER, &header));
    file.extend(record(op::CHUNK, &chunk_body(name_of(compression), &stored, &[])));
    file.extend(record(op::MESSAGE_INDEX, &message_index));
    file.extend(record(op::DATA_END, &[0; 4]));
    file.extend(record(op::CHANNEL, &channel_body()));
    file.extend(record(op::CHUNK_INDEX, &chunk_index));
    file.extend(record(op::STATISTICS, &statistics));
    for opcode in [op::CHANNEL, op::CHUNK_INDEX, op::STATISTICS] {
        let mut offset = vec![opcode];
        offset.extend(200u64.to_le_bytes());
        offset.extend(50u64.to_le_bytes());
        file.extend(record(op::SUMMARY_OFFSET, &offset));
    }
    file.extend(record(op::FOOTER, &footer_body(200, 300, 0)));
    file.extend(MAGIC);
    file
}

/// Everything that is read from `input`, up to the end or the first error.
fn read_input(
    input: Input,
    options: &RecordReaderOptions,
) -> (Vec<(u8, Vec<u8>)>, Option<McapError>) {
    let mut reader = Reader::new_with_options(input, options);
    let mut data = Vec::new();
    let mut records = Vec::new();
    while let Some(outcome) = next(&mut reader, &mut data) {
        match outcome {
            Ok(opcode) => records.push((opcode, data.clone())),
            Err(err) => return (records, Some(err)),
        }
    }
    (records, None)
}

/// Everything that is read from `file`, in whatever pieces it comes.
fn read_all(
    file: Vec<u8>,
    options: &RecordReaderOptions,
) -> (Vec<(u8, Vec<u8>)>, Option<McapError>) {
    let (records, err) = read_input(Input::new(file.clone()), options);
    for most in [1, 2, 5, 8] {
        let (again, same) = read_input(Input::slow(file.clone(), most), options);
        assert_eq!(records, again);
        assert_eq!(format!("{:?}", err), format!("{:?}", same));
    }
    (records, err)
}

fn options(
    skip_start_magic: bool,
    skip_end_magic: bool,
    emit_chunks: bool,
) -> RecordReaderOptions {
    RecordReaderOptions { skip_start_magic, skip_end_magic, emit_chunks }
}

#[test]
fn test_record_reader() {
    for compression in [None, Some(Compression::Zstd), Some(Compression::Lz4)] {
        let mut reader = Reader::new(Input::new(file_with_summary(compression)));
        let mut record = Vec::new();
        let mut opcodes: Vec<u8> = Vec::new();
        while let Some(opcode) = next(&mut reader, &mut record) {
            let opcode = opcode.unwrap();
            opcodes.push(opcode);
            parse_record(opcode, &record).unwrap();
        }
        assert_eq!(
            opcodes.as_slice(),
            [
                op::HEADER,
                op::CHANNEL,
                op::MESSAGE,
                op::MESSAGE_INDEX,
                op::DATA_END,
                op::CHANNEL,
                op::CHUNK_INDEX,
                op::STATISTICS,
                op::SUMMARY_OFFSET,
                op::SUMMARY_OFFSET,
                op::SUMMARY_OFFSET,
                op::FOOTER,
            ],
            "reads opcodes from MCAP compressed with {:?}",
            compression
        );
    }
}

#[test]
fn records_are_read_as_values() {
    let mut reader = Reader::new(Input::new(file_with_summary(Some(Compression::Zstd))));
    let mut found = Vec::new();
    loop {
        let mut data = Vec::new();
        let outcome = next(&mut reader, &mut data);
        match Reader::read_record(outcome, &data).unwrap() {
            Some(record) => found.push(record),
            None => break,
        }
    }
    assert_eq!(found.len(), 12);
    match &found[1] {
        Record::Channel(channel) => {
            assert_eq!(channel.topic, "chat");
            assert_eq!(channel.message_encoding, "json");
            assert!(channel.metadata.is_empty());
        }
        other => panic!("{:?}", other),
    }
    match &found[2] {
        Record::Message { header, data } => {
            assert_eq!(header.log_time, 0);
            assert_eq!(data, &[0, 1, 2]);
        }
        other => panic!("{:?}", other),
    }
    match &found[11] {
        Record::Footer(footer) => assert_eq!(footer.summary_offset_start, 300),
        other => panic!("{:?}", other),
    }
}

#[test]
fn read_record_passes_errors_on() {
    assert!(matches!(Reader::read_record(None, &[1]), Ok(None)));
    assert!(matches!(
        Reader::read_record(Some(Err(McapError::BadMagic)), &[]),
        Err(McapError::BadMagic)
    ));
    assert!(matches!(
        Reader::read_record(Some(Ok(op::DATA_END)), &[1, 2]),
        Err(McapError::Parse(ParseError::UnexpectedEnd { pos: 0 }))
    ));
}

#[test]
fn chunk_records_are_yielded_whole() {
    let file = file_with_summary(Some(Compression::Lz4));
    let (records, err) = read_all(file, &options(false, false, true));
    assert!(err.is_none());
    let opcodes: Vec<u8> = records.iter().map(|r| r.0).collect();
    assert_eq!(
        opcodes,
        [
            op::HEADER,
            op::CHUNK,
            op::MESSAGE_INDEX,
            op::DATA_END,
            op::CHANNEL,
            op::CHUNK_INDEX,
            op::STATISTICS,
            op::SUMMARY_OFFSET,
            op::SUMMARY_OFFSET,
            op::SUMMARY_OFFSET,
            op::FOOTER,
        ]
    );
    match parse_record(op::CHUNK, &records[1].1).unwrap() {
        Record::Chunk { header, data } => {
            assert_eq!(header.compression, "lz4");
            assert_eq!(header.compressed_size, data.len() as u64);
            assert_eq!(header.message_end_time, 2);
        }
        other => panic!("{:?}", other),
    }
}

#[test]
fn file_is_read_back() {
    let inner = [(op::MESSAGE, vec![7; 30]), (op::FOOTER, vec![]), (op::CHUNK, vec![1, 2])];
    let stored: Vec<u8> = inner.iter().flat_map(|r| record(r.0, &r.1)).collect();
    let trailing = vec![0xAA; 3000];
    let mut file = MAGIC.to_vec();
    file.extend(record(op::HEADER, b"first"));
    file.extend(record(op::CHUNK, &chunk_body("", &stored, &trailing)));
    file.extend(record(op::CHUNK, &chunk_body("", &[], &[9])));
    file.extend(record(0x80, &[]));
    file.extend(record(op::FOOTER, b"last"));
    file.extend(MAGIC);
    file.extend(b"not looked at");
    let (records, err) = read_all(file, &options(false, false, false));
    assert!(err.is_none());
    let mut expected = vec![(op::HEADER, b"first".to_vec())];
    expected.extend(inner);
    expected.push((0x80, vec![]));
    expected.push((op::FOOTER, b"last".to_vec()));
    assert_eq!(records, expected);
}

#[test]
fn magic_can_be_skipped() {
    let mut bare = record(op::FOOTER, b"footer");
    bare.extend(record(op::HEADER, b"header"));
    let (records, err) = read_all(bare.clone(), &options(true, true, false));
    assert!(err.is_none());
    assert_eq!(records, [(op::FOOTER, b"footer".to_vec()), (op::HEADER, b"header".to_vec())]);

    let (records, err) = read_all(bare.clone(), &options(true, false, false));
    assert_eq!(records.len(), 1);
    assert!(matches!(err, Some(McapError::BadMagic)));

    let (records, err) = read_all(bare, &options(false, true, false));
    assert!(records.is_empty());
    assert!(matches!(err, Some(McapError::BadMagic)));
}

#[test]
fn wrong_start_is_refused_again_and_again() {
    let mut file = b"not magic here  ".to_vec();
    file.extend(MAGIC);
    let mut reader = Reader::new(Input::new(file));
    let mut data = Vec::new();
    assert!(matches!(next(&mut reader, &mut data), Some(Err(McapError::BadMagic))));
    assert!(matches!(next(&mut reader, &mut data), Some(Err(McapError::BadMagic))));
    assert!(matches!(next(&mut reader, &mut data), Some(Err(McapError::UnexpectedEof))));
}

#[test]
fn torn_stream_is_refused() {
    let mut file = MAGIC.to_vec();
    file.extend(record(op::HEADER, b"header"));
    let whole = file.len();

    let (records, err) = read_all(file.clone(), &options(false, false, false));
    assert_eq!(records.len(), 1);
    assert!(matches!(err, Some(McapError::UnexpectedEof)));

    file.extend([op::CHANNEL, 1, 0]);
    let (records, err) = read_all(file.clone(), &options(false, true, false));
    assert_eq!(records.len(), 1);
    assert!(matches!(err, Some(McapError::UnexpectedEof)));

    file.truncate(whole - 1);
    let (records, err) = read_all(file.clone(), &options(false, true, false));
    assert!(records.is_empty());
    match err {
        Some(McapError::Io(err)) => assert_eq!(err.kind(), std::io::ErrorKind::UnexpectedEof),
        other => panic!("{:?}", other),
    }

    file.truncate(5);
    let (records, err) = read_all(file, &options(false, false, false));
    assert!(records.is_empty());
    assert!(matches!(err, Some(McapError::Io(_))));
}

#[test]
fn torn_chunk_is_refused() {
    let mut file = MAGIC.to_vec();
    file.extend(record(op::CHUNK, &chunk_body("", &[op::MESSAGE, 0, 0, 0], &[])));
    let (records, err) = read_all(file, &options(false, false, false));
    assert!(records.is_empty());
    assert!(matches!(err, Some(McapError::UnexpectedEof)));
}

#[test]
fn bad_chunk_headers_are_refused() {
    let plain = options(true, true, false);

    let short = record(op::CHUNK, &[0; 39]);
    match read_all(short, &plain).1 {
        Some(McapError::RecordTooShort { opcode, len, expected }) => {
            assert_eq!((opcode, len, expected), (op::CHUNK, 39, 40));
        }
        other => panic!("{:?}", other),
    }

    let mut body = vec![0; 28];
    body.extend(5u32.to_le_bytes());
    body.extend([b'x'; 12]);
    match read_all(record(op::CHUNK, &body), &plain).1 {
        Some(McapError::RecordTooShort { opcode, len, expected }) => {
            assert_eq!((opcode, len, expected), (op::CHUNK, 44, 45));
        }
        other => panic!("{:?}", other),
    }

    let mut body = vec![0; 28];
    body.extend(2u32.to_le_bytes());
    body.extend([b'z', 0xFE]);
    body.extend(0u64.to_le_bytes());
    match read_all(record(op::CHUNK, &body), &plain).1 {
        Some(McapError::Parse(ParseError::Utf8 { pos, err })) => {
            assert_eq!(pos, 32);
            assert_eq!((err.valid_up_to(), err.error_len()), (1, Some(1)));
        }
        other => panic!("{:?}", other),
    }

    let mut body = chunk_body("zstd", &[1, 2, 3], &[4]);
    body[36] = 5;
    match read_all(record(op::CHUNK, &body), &plain).1 {
        Some(McapError::BadChunkLength { header, available }) => {
            assert_eq!((header, available), (5, 4));
        }
        other => panic!("{:?}", other),
    }
}

#[test]
fn unknown_compression_is_refused() {
    let mut file = record(op::CHUNK, &chunk_body("gzip", &record(op::HEADER, b"in"), &[]));
    file.extend(record(op::HEADER, b"after"));
    let mut reader = Reader::new_with_options(Input::new(file), &options(true, true, false));
    let mut data = Vec::new();
    match next(&mut reader, &mut data) {
        Some(Err(McapError::UnsupportedCompression(name))) => assert_eq!(name, "gzip"),
        other => panic!("{:?}", other),
    }
    assert!(reader.as_base_reader_mut().is_ok());
    assert!(matches!(next(&mut reader, &mut data), Some(Ok(op::HEADER))));
    assert_eq!(data, b"in");
}

#[test]
fn base_reader_is_out_of_reach_in_a_chunk() {
    for (compression, name) in [
        (None, "UncompressedChunk"),
        (Some(Compression::Zstd), "ZstdChunk"),
        (Some(Compression::Lz4), "Lz4Chunk"),
    ] {
        let stored = compressed(compression, &record(op::HEADER, b"x"));
        let file = record(op::CHUNK, &chunk_body(name_of(compression), &stored, &[]));
        let mut reader =
            Reader::new_with_options(Input::new(file), &options(true, true, false));
        assert_eq!(reader.as_base_reader_mut().unwrap().file.position(), 0);
        let mut data = Vec::new();
        assert!(matches!(next(&mut reader, &mut data), Some(Ok(op::HEADER))));
        match reader.as_base_reader_mut() {
            Err(McapError::AccessBaseReader(found)) => assert_eq!(found, name),
            other => panic!("{:?}", other),
        }
        match reader.seek_and_read_footer() {
            Err(McapError::AccessBaseReader(found)) => assert_eq!(found, name),
            other => panic!("{:?}", other),
        }
        assert!(next(&mut reader, &mut data).is_none());
        assert!(reader.as_base_reader_mut().is_ok());
        let state = reader.into_inner();
        assert_eq!(state.name(), "Base");
        assert!(state.into_inner().is_ok());
    }
}

#[test]
fn footer_is_found_at_the_end() {
    let mut reader = Reader::new(Input::new(file_with_summary(None)));
    let (base, from_end) = reader.seek_and_read_footer().unwrap();
    assert_eq!(from_end, -37);
    let mut buf = [0; FOOTER_LEN_BYTES];
    block_on(async {
        base.seek(SeekFrom::End(from_end)).await.unwrap();
        base.read_exact(&mut buf).await.unwrap();
    });
    assert_eq!(
        read_footer(&buf).unwrap(),
        Footer { summary_start: 200, summary_offset_start: 300, summary_crc: 0 }
    );
}

#[test]
fn wrong_footers_are_refused() {
    let mut buf = [0; FOOTER_LEN_BYTES];
    assert!(matches!(read_footer(&buf), Err(McapError::BadMagic)));

    buf[29..].copy_from_slice(&MAGIC);
    buf[0] = op::FOOTER;
    buf[9] = 5;
    buf[25] = 0x78;
    assert_eq!(
        read_footer(&buf).unwrap(),
        Footer { summary_start: 5, summary_offset_start: 0, summary_crc: 0x78 }
    );

    buf[0] = op::DATA_END;
    match read_footer(&buf) {
        Err(McapError::UnexpectedRecord { expected, recieved }) => {
            assert_eq!((expected, recieved), (op::FOOTER, op::DATA_END));
        }
        other => panic!("{:?}", other),
    }

    buf[0] = op::STATISTICS;
    assert!(matches!(
        read_footer(&buf),
        Err(McapError::Parse(ParseError::UnexpectedEnd { .. }))
    ));
}

#[test]
fn default_options_expect_everything() {
    let found = RecordReaderOptions::default();
    assert!(!found.skip_start_magic && !found.skip_end_magic && !found.emit_chunks);
}

#[test]
fn bytes_may_come_one_at_a_time() {
    for compression in [None, Some(Compression::Zstd), Some(Compression::Lz4)] {
        let file = file_with_summary(compression);
        let plain = options(false, false, false);
        let (records, err) = read_input(Input::slow(file.clone(), 1), &plain);
        assert!(err.is_none());
        assert_eq!(records.len(), 12);
        assert_eq!(records[1], (op::CHANNEL, channel_body()));
        assert_eq!(records[2], (op::MESSAGE, message_body()));
        assert_eq!(records, read_input(Input::new(file), &plain).0);
    }
}

#[test]
fn plain_chunks_are_transparent() {
    let inner: Vec<u8> = [record(op::MESSAGE, &[1; 3]), record(0x90, &[]), record(op::SCHEMA, b"s")]
        .concat();
    let refused = record(op::CHUNK, &[0; 39]);
    assert_eq!(
        format!("{:?}", read_all(refused.clone(), &options(true, true, false)).1),
        format!("{:?}", read_all([refused, inner.clone()].concat(), &options(true, true, false)).1)
    );
    let before = record(op::HEADER, b"before");
    for after in [
        vec![],
        vec![1, 2, 3],
        record(op::CHANNEL, b"after"),
        [record(op::FOOTER, b"end"), MAGIC.to_vec()].concat(),
        record(op::CHUNK, &[0; 39]),
    ] {
        for skip_end_magic in [false, true] {
            let given = options(true, skip_end_magic, false);
            for trailing in [vec![], vec![7; 2000]] {
                let chunk = record(op::CHUNK, &chunk_body("", &inner, &trailing));
                let wrapped = [before.clone(), chunk, after.clone()].concat();
                let bare = [before.clone(), inner.clone(), after.clone()].concat();
                let (records1, err1) = read_all(wrapped, &given);
                let (records2, err2) = read_all(bare, &given);
                assert_eq!(records1, records2);
                assert_eq!(format!("{:?}", err1), format!("{:?}", err2));
            }
        }
    }
}

#[test]
fn cut_chunks_give_what_is_there() {
    let inner = [record(op::MESSAGE, &[1; 3]), record(op::HEADER, b"in")].concat();
    let mut body = chunk_body("", &inner, &[]);
    body[32] = 100;
    let mut file = vec![op::CHUNK];
    file.extend(140u64.to_le_bytes());
    file.extend(&body);
    let expected = [(op::MESSAGE, vec![1; 3]), (op::HEADER, b"in".to_vec())];

    let (records, err) = read_all(file.clone(), &options(true, true, false));
    assert_eq!(records, expected);
    assert!(err.is_none());
    let (records, err) = read_all(file.clone(), &options(true, false, false));
    assert_eq!(records, expected);
    assert!(matches!(err, Some(McapError::UnexpectedEof)));

    file[1] = 141;
    let (records, err) = read_all(file, &options(true, true, false));
    assert_eq!(records, expected);
    assert!(matches!(err, Some(McapError::Io(_))));
}

#[test]
fn the_end_comes_only_with_the_magic() {
    let footer = record(op::FOOTER, b"end");
    let plain = options(true, false, false);
    assert!(matches!(read_all(vec![], &plain).1, Some(McapError::UnexpectedEof)));
    assert!(matches!(read_all(footer.clone(), &plain).1, Some(McapError::Io(_))));
    let short = [footer.clone(), MAGIC[..7].to_vec()].concat();
    assert!(matches!(read_all(short, &plain).1, Some(McapError::Io(_))));
    let wrong = [footer.clone(), b"12345678".to_vec()].concat();
    assert!(matches!(read_all(wrong, &plain).1, Some(McapError::BadMagic)));

    let file = [footer, MAGIC.to_vec()].concat();
    let mut reader = Reader::new_with_options(Input::new(file), &plain);
    let mut data = Vec::new();
    assert!(matches!(next(&mut reader, &mut data), Some(Ok(op::FOOTER))));
    assert_eq!(reader.as_base_reader_mut().unwrap().file.position(), 12);
    assert!(next(&mut reader, &mut data).is_none());
    assert_eq!(reader.as_base_reader_mut().unwrap().file.position(), 20);
    assert_eq!(data, b"end");
    assert!(matches!(next(&mut reader, &mut data), Some(Err(McapError::Io(_)))));
    assert_eq!(data, b"end");
}

#[test]
fn footers_in_chunks_end_nothing() {
    let inner = [record(op::FOOTER, b"inner"), record(op::MESSAGE, b"m")].concat();
    let mut file = record(op::CHUNK, &chunk_body("", &inner, &[]));
    file.extend(record(op::DATA_END, b"after"));
    file.extend(record(op::FOOTER, b"outer"));
    file.extend(MAGIC);
    let (records, err) = read_all(file, &options(true, false, false));
    assert!(err.is_none());
    assert_eq!(
        records,
        [
            (op::FOOTER, b"inner".to_vec()),
            (op::MESSAGE, b"m".to_vec()),
            (op::DATA_END, b"after".to_vec()),
            (op::FOOTER, b"outer".to_vec()),
        ]
    );
}

#[test]
fn a_record_can_be_read_again() {
    let mut file = MAGIC.to_vec();
    file.extend(record(op::HEADER, b"first"));
    file.extend(record(op::CHUNK, &chunk_body("", &[], &[0; 10])));
    file.extend(record(op::DATA_END, b"second"));
    let mut reader = Reader::new(Input::slow(file, 3));
    let mut data = Vec::new();
    assert!(matches!(next(&mut reader, &mut data), Some(Ok(op::HEADER))));
    let before = reader.as_base_reader_mut().unwrap().file.position();
    assert!(matches!(next(&mut reader, &mut data), Some(Ok(op::DATA_END))));
    let after = reader.as_base_reader_mut().unwrap().file.position();

    let base = reader.as_base_reader_mut().unwrap();
    block_on(base.seek(SeekFrom::Start(before))).unwrap();
    let mut again = vec![1; 50];
    assert!(matches!(next(&mut reader, &mut again), Some(Ok(op::DATA_END))));
    assert_eq!(again, data);
    assert_eq!(reader.as_base_reader_mut().unwrap().file.position(), after);
}

#[test]
fn the_footer_is_the_last_record() {
    let file = file_with_summary(Some(Compression::Zstd));
    let (records, err) = read_all(file.clone(), &options(false, false, false));
    assert!(err.is_none());
    let (opcode, body) = records.last().unwrap();
    let buf: [u8; FOOTER_LEN_BYTES] = file[file.len() - FOOTER_LEN_BYTES..].try_into().unwrap();
    assert_eq!(
        Record::Footer(read_footer(&buf).unwrap()),
        parse_record(*opcode, body).unwrap()
    );
}

#[test]
fn the_buffer_is_as_long_as_a_compression_that_does_not_fit() {
    for len in [1000u32, 9] {
        let mut body: Vec<u8> = (1..29).collect();
        body.extend(len.to_le_bytes());
        body.extend([0xEE; 8]);
        let mut reader = Reader::new_with_options(
            Input::slow(record(op::CHUNK, &body), 3),
            &options(true, true, false),
        );
        let mut data = vec![0xAA; 5000];
        match next(&mut reader, &mut data) {
            Some(Err(McapError::RecordTooShort { opcode, len: found, expected })) => {
                assert_eq!((opcode, found, expected), (op::CHUNK, 40, 40 + len as u64));
            }
            other => panic!("{:?}", other),
        }
        let mut expected = body[..32].to_vec();
        expected.resize(len as usize, 0);
        assert_eq!(data, expected);
        assert_eq!(reader.as_base_reader_mut().unwrap().file.position(), 9 + 32);
    }
}

#[test]
fn the_start_magic_can_be_skipped() {
    for bytes in [
        vec![],
        vec![1, 2, 3],
        MAGIC.to_vec(),
        file_with_summary(Some(Compression::Lz4))[8..].to_vec(),
        record(op::CHUNK, &[0; 39]),
    ] {
        let whole = [MAGIC.to_vec(), bytes.clone()].concat();
        for (skip_end_magic, emit_chunks) in [(false, false), (true, false), (false, true)] {
            let skipping = options(true, skip_end_magic, emit_chunks);
            let expecting = options(false, skip_end_magic, emit_chunks);
            let (records1, err1) = read_all(bytes.clone(), &skipping);
            let (records2, err2) = read_all(whole.clone(), &expecting);
            assert_eq!(records1, records2);
            assert_eq!(format!("{:?}", err1), format!("{:?}", err2));
        }
    }
}

#[test]
fn the_base_reader_stays_at_hand_if_chunks_are_left_alone() {
    let mut file = file_with_summary(Some(Compression::Zstd));
    file.truncate(file.len() - 8);
    file.extend(record(op::CHUNK, &[1, 2, 3]));
    file.extend(b"torn");
    let mut reader = Reader::new_with_options(Input::new(file), &options(false, true, true));
    let mut data = Vec::new();
    for _ in 0..20 {
        let _ = next(&mut reader, &mut data);
        assert!(reader.as_base_reader_mut().is_ok());
    }
}

#[test]
fn without_the_end_magic_the_stream_ends_the_records() {
    let footer = record(op::FOOTER, b"f");
    let (records, err) = read_all(footer.clone(), &options(true, true, false));
    assert_eq!((records.len(), err.is_none()), (1, true));
    let with_magic = [footer, MAGIC.to_vec()].concat();
    let (records, err) = read_all(with_magic, &options(true, true, false));
    assert_eq!(records.len(), 1);
    assert!(matches!(err, Some(McapError::UnexpectedEof)));
}
