//! The contents of records.

use mcap::error::ParseError;
use mcap::records::{
    op, AttachmentHeader, AttachmentIndex, Channel, ChunkHeader, ChunkIndex, DataEnd, Footer,
    Header, MessageHeader, MessageIndex, Metadata, MetadataIndex, Record, SchemaHeader, Statistics,
    SummaryOffset,
};
use mcap::{parse_record, McapError};

/// The contents of a record, field by field.
#[derive(Default)]
struct Body(Vec<u8>);

impl Body {
    fn raw(mut self, bytes: &[u8]) -> Body {
        self.0.extend(bytes);
        self
    }

    fn u16(self, value: u16) -> Body {
        self.raw(&value.to_le_bytes())
    }

    fn u32(self, value: u32) -> Body {
        self.raw(&value.to_le_bytes())
    }

    fn u64(self, value: u64) -> Body {
        self.raw(&value.to_le_bytes())
    }

    fn text(self, text: &str) -> Body {
        self.u32(text.len() as u32).raw(text.as_bytes())
    }

    fn list(self, entries: Body) -> Body {
        self.u32(entries.0.len() as u32).raw(&entries.0)
    }
}

fn body() -> Body {
    Body::default()
}

/// One record of every kind, and its contents.
fn samples() -> Vec<(Record, Vec<u8>)> {
    let samples = vec![
        (
            Record::Header(Header { profile: "ros1".to_owned(), library: "grüße".to_owned() }),
            body().text("ros1").text("grüße"),
        ),
        (
            Record::Footer(Footer {
                summary_start: 0x0102_0304_0506_0708,
                summary_offset_start: u64::MAX,
                summary_crc: 0xA1B2_C3D4,
            }),
            body().u64(0x0102_0304_0506_0708).u64(u64::MAX).u32(0xA1B2_C3D4),
        ),
        (
            Record::Schema {
                header: SchemaHeader {
                    id: 0x1234,
                    name: "point".to_owned(),
                    encoding: "ros1msg".to_owned(),
                },
                data: vec![1, 2, 3],
            },
            body().u16(0x1234).text("point").text("ros1msg").u32(3).raw(&[1, 2, 3]),
        ),
        (
            Record::Channel(Channel {
                id: 1,
                schema_id: 2,
                topic: "chat".to_owned(),
                message_encoding: "json".to_owned(),
                metadata: vec![
                    ("b".to_owned(), "2".to_owned()),
                    ("a".to_owned(), String::new()),
                ],
            }),
            body()
                .u16(1)
                .u16(2)
                .text("chat")
                .text("json")
                .list(body().text("b").text("2").text("a").text("")),
        ),
        (
            Record::Message {
                header: MessageHeader { channel_id: 1, sequence: 2, log_time: 3, publish_time: 4 },
                data: vec![9, 8, 7],
            },
            body().u16(1).u32(2).u64(3).u64(4).raw(&[9, 8, 7]),
        ),
        (
            Record::Chunk {
                header: ChunkHeader {
                    message_start_time: 1,
                    message_end_time: 2,
                    uncompressed_size: 3,
                    uncompressed_crc: 4,
                    compression: "lz4".to_owned(),
                    compressed_size: 2,
                },
                data: vec![5, 6],
            },
            body().u64(1).u64(2).u64(3).u32(4).text("lz4").u64(2).raw(&[5, 6]),
        ),
        (
            Record::MessageIndex(MessageIndex { channel_id: 7, records: vec![(5, 6), (3, 4)] }),
            body().u16(7).list(body().u64(5).u64(6).u64(3).u64(4)),
        ),
        (
            Record::ChunkIndex(ChunkIndex {
                message_start_time: 1,
                message_end_time: 2,
                chunk_start_offset: 3,
                chunk_length: 4,
                message_index_offsets: vec![(5, 6)],
                message_index_length: 7,
                compression: "zstd".to_owned(),
                compressed_size: 8,
                uncompressed_size: 9,
            }),
            body()
                .u64(1)
                .u64(2)
                .u64(3)
                .u64(4)
                .list(body().u16(5).u64(6))
                .u64(7)
                .text("zstd")
                .u64(8)
                .u64(9),
        ),
        (
            Record::Attachment {
                header: AttachmentHeader {
                    log_time: 1,
                    create_time: 2,
                    name: "notes".to_owned(),
                    media_type: "text/plain".to_owned(),
                },
                data: vec![3, 4],
                crc: 5,
            },
            body().u64(1).u64(2).text("notes").text("text/plain").u64(2).raw(&[3, 4]).u32(5),
        ),
        (
            Record::AttachmentIndex(AttachmentIndex {
                offset: 1,
                length: 2,
                log_time: 3,
                create_time: 4,
                data_size: 5,
                name: "notes".to_owned(),
                media_type: "text/plain".to_owned(),
            }),
            body().u64(1).u64(2).u64(3).u64(4).u64(5).text("notes").text("text/plain"),
        ),
        (
            Record::Statistics(Statistics {
                message_count: 1,
                schema_count: 2,
                channel_count: 3,
                attachment_count: 4,
                metadata_count: 5,
                chunk_count: 6,
                message_start_time: 7,
                message_end_time: 8,
                channel_message_counts: vec![(9, 10), (11, 12)],
            }),
            body()
                .u64(1)
                .u16(2)
                .u32(3)
                .u32(4)
                .u32(5)
                .u32(6)
                .u64(7)
                .u64(8)
                .list(body().u16(9).u64(10).u16(11).u64(12)),
        ),
        (
            Record::Metadata(Metadata {
                name: "robot".to_owned(),
                metadata: vec![("legs".to_owned(), "4".to_owned())],
            }),
            body().text("robot").list(body().text("legs").text("4")),
        ),
        (
            Record::MetadataIndex(MetadataIndex { offset: 1, length: 2, name: "robot".to_owned() }),
            body().u64(1).u64(2).text("robot"),
        ),
        (
            Record::SummaryOffset(SummaryOffset {
                group_opcode: op::CHANNEL,
                group_start: 1,
                group_length: 2,
            }),
            body().raw(&[op::CHANNEL]).u64(1).u64(2),
        ),
        (Record::DataEnd(DataEnd { data_section_crc: 0x0403_0201 }), body().raw(&[1, 2, 3, 4])),
        (Record::Unknown { opcode: 0x80, data: vec![1, 2] }, body().raw(&[1, 2])),
    ];
    samples.into_iter().map(|(record, body)| (record, body.0)).collect()
}

#[test]
fn records_are_read_back() {
    let samples = samples();
    for (record, body) in &samples {
        assert_eq!(&parse_record(record.opcode(), body).unwrap(), record);
    }
    let opcodes: Vec<u8> = samples.iter().map(|(record, _)| record.opcode()).collect();
    assert_eq!(opcodes, [1, 2, 3, 4, 5, 6, 7, 8, 9, 10, 11, 12, 13, 14, 15, 0x80]);
}

#[test]
fn bytes_after_the_last_field_are_ignored() {
    for (record, mut body) in samples() {
        if matches!(record, Record::Message { .. } | Record::Unknown { .. }) {
            continue;
        }
        body.extend([0xEE; 5]);
        assert_eq!(parse_record(record.opcode(), &body).unwrap(), record);
    }
}

#[test]
fn a_message_takes_all_that_is_left() {
    let head = body().u16(1).u32(2).u64(3).u64(4);
    match parse_record(op::MESSAGE, &head.raw(&[5; 100]).0).unwrap() {
        Record::Message { data, .. } => assert_eq!(data, [5; 100]),
        other => panic!("{:?}", other),
    }
    match parse_record(0, &[]).unwrap() {
        Record::Unknown { opcode, data } => assert_eq!((opcode, data), (0, vec![])),
        other => panic!("{:?}", other),
    }
}

#[test]
fn torn_records_are_refused() {
    for (record, body) in samples() {
        if matches!(record, Record::Message { .. } | Record::Unknown { .. }) {
            continue;
        }
        for len in 0..body.len() {
            let found = parse_record(record.opcode(), &body[..len]);
            let in_chunk = matches!(record, Record::Chunk { .. }) && len >= body.len() - 2;
            match found {
                Err(McapError::Parse(ParseError::UnexpectedEnd { pos })) => {
                    assert!(!in_chunk && pos <= len as u64);
                }
                Err(McapError::BadChunkLength { .. }) => assert!(in_chunk),
                other => panic!("{:?}", other),
            }
        }
    }
}

#[test]
fn the_first_thing_that_is_wrong_counts() {
    let torn = body().text("ros1").u32(9).raw(b"short");
    assert!(matches!(
        parse_record(op::HEADER, &torn.0),
        Err(McapError::Parse(ParseError::UnexpectedEnd { pos: 12 }))
    ));

    let not_text = body().u32(2).raw(&[0xFF, 0xFF]).u32(9).raw(b"short");
    match parse_record(op::HEADER, &not_text.0) {
        Err(McapError::Parse(ParseError::Utf8 { pos, err })) => {
            assert_eq!(pos, 4);
            assert_eq!(err.valid_up_to(), 0);
        }
        other => panic!("{:?}", other),
    }
}

#[test]
fn an_entry_may_not_cross_the_end_of_its_list() {
    let crossing = body().u16(7).u32(24).u64(5).u64(6).u64(3).u64(4);
    assert!(matches!(
        parse_record(op::MESSAGE_INDEX, &crossing.0),
        Err(McapError::Parse(ParseError::UnexpectedEnd { pos: 30 }))
    ));

    let crossing = body().text("robot").u32(9).text("legs").text("4");
    assert!(matches!(
        parse_record(op::METADATA, &crossing.0),
        Err(McapError::Parse(ParseError::UnexpectedEnd { pos: 21 }))
    ));

    let not_text = body().text("robot").list(body().text("legs").u32(1).raw(&[0x80]));
    assert!(matches!(
        parse_record(op::METADATA, &not_text.0),
        Err(McapError::Parse(ParseError::Utf8 { pos: 25, .. }))
    ));
}

#[test]
fn a_chunk_may_not_be_longer_than_its_record() {
    let long = body().u64(1).u64(2).u64(3).u32(4).text("").u64(9).raw(&[5; 8]);
    match parse_record(op::CHUNK, &long.0) {
        Err(McapError::BadChunkLength { header, available }) => {
            assert_eq!((header, available), (9, 8));
        }
        other => panic!("{:?}", other),
    }
}
