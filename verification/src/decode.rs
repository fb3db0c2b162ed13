//! What is read of a record is what stands in it, and what is refused is wrong.

use crate::codec::{
    law_le_digits, le_u32, le_u64, lemma_le_bound, lemma_le_bytes_len, utf8_error,
};
use crate::cursor::Cur;
use crate::encode::{
    all_by_channel_bytes, all_index_entries_bytes, all_text_pairs_bytes, known,
    law_record_is_read_back, ok_attachment_header, ok_attachment_index, ok_channel,
    ok_chunk_header, ok_chunk_index, ok_header, ok_message_index, ok_metadata, ok_metadata_index,
    ok_record, ok_schema_header, ok_statistics, ok_text_pair, put_attachment_header,
    put_attachment_index, put_by_channel, put_bytes32, put_bytes64, put_channel, put_chunk_header,
    put_chunk_index, put_data_end, put_footer, put_header, put_index_entries, put_message_header,
    put_message_index, put_metadata, put_metadata_index, put_record, put_schema_header,
    put_statistics, put_summary_offset, put_text, put_text_pairs, put_u16, put_u32, put_u64, put_u8,
};
use crate::error::ErrorView;
use crate::parse::parsed;
use crate::records::{op, ChunkHeader, Record, RecordView, Text, TextPairs};
use vstd::arithmetic::power::pow;
use vstd::prelude::*;
use vstd::utf8::{decode_utf8_encode_utf8, encode_utf8, valid_utf8};

verus! {

/// Whether bytes that are not UTF-8 stand at `pos`, with their number in front, and `err` is what
/// is wrong with them.
pub open spec fn bad_text_at(bytes: Seq<u8>, pos: u64, err: core::str::Utf8Error) -> bool {
    let len = le_u32(bytes.subrange(pos - 4, pos as int));
    &&& 4 <= pos
    &&& pos + len <= bytes.len()
    &&& !valid_utf8(bytes.subrange(pos as int, pos + len))
    &&& err == utf8_error(bytes.subrange(pos as int, pos + len))
}

/// Whether a field that starts at `pos` may have `n` bytes: a number, or as many bytes as the
/// number in front of it says.
pub open spec fn wanted(bytes: Seq<u8>, pos: int, n: int) -> bool {
    ||| n == 1 || n == 2 || n == 4 || n == 8
    ||| pos >= 4 && n == le_u32(bytes.subrange(pos - 4, pos))
    ||| pos >= 8 && n == le_u64(bytes.subrange(pos - 8, pos))
}

/// Whether a field that starts at `pos` goes beyond `end`.
pub open spec fn goes_beyond(bytes: Seq<u8>, pos: int, end: int) -> bool {
    exists|n: int| #[trigger] wanted(bytes, pos, n) && pos + n > end
}

/// Whether a list that starts at `at`, with the number of its bytes, ends at `end`.
pub open spec fn list_between(bytes: Seq<u8>, at: int, end: int) -> bool {
    &&& 0 <= at <= at + 4 <= end <= bytes.len()
    &&& at + 4 + le_u32(bytes.subrange(at, at + 4)) == end
}

/// Whether a field that starts at `pos` goes beyond the end of the record, or of a list in it.
pub open spec fn ends_inside(bytes: Seq<u8>, pos: int) -> bool {
    ||| 0 <= pos <= bytes.len() && goes_beyond(bytes, pos, bytes.len() as int)
    ||| exists|at: int, end: int|
        {
            &&& #[trigger] list_between(bytes, at, end)
            &&& at + 4 <= pos <= end
            &&& goes_beyond(bytes, pos, end)
        }
}

/// Whether the cursor is in its bytes.
spec fn inside(cursor: Cur) -> bool {
    0 <= cursor.at <= cursor.bytes.len() <= u64::MAX
}

/// What is in front of the cursor.
spec fn ahead(cursor: Cur) -> Seq<u8> {
    cursor.bytes.skip(cursor.at)
}

/// Whether what went wrong is wrong.
spec fn told(cursor: Cur) -> bool {
    match cursor.err {
        None => true,
        Some(ErrorView::UnexpectedEnd { pos }) => ends_inside(cursor.bytes, pos as int),
        Some(ErrorView::Utf8 { pos, err }) => bad_text_at(cursor.bytes, pos, err),
        Some(_) => false,
    }
}

/// Whether `next` comes after `cursor`.
spec fn follows(cursor: Cur, next: Cur) -> bool {
    &&& inside(next)
    &&& next.bytes == cursor.bytes
    &&& cursor.at <= next.at
    &&& told(cursor) ==> told(next)
    &&& cursor.err is None ==> (next.err matches Some(ErrorView::UnexpectedEnd { pos })
        ==> cursor.at <= pos)
    &&& next.err is None ==> cursor.err is None
}

proof fn lemma_take(cursor: Cur, n: int)
    requires
        inside(cursor),
        0 <= n,
        wanted(cursor.bytes, cursor.at, n) || n <= cursor.left(),
    ensures
        follows(cursor, cursor.take(n).1),
        cursor.take(n).1.err is None ==> {
            &&& cursor.take(n).0.len() == n
            &&& cursor.take(n).1.at == cursor.at + n
            &&& ahead(cursor) == cursor.take(n).0 + ahead(cursor.take(n).1)
        },
{
    let (bytes, next) = cursor.take(n);
    if cursor.err is None {
        if n > cursor.left() {
            assert(goes_beyond(cursor.bytes, cursor.at, cursor.bytes.len() as int));
        } else {
            assert(ahead(cursor) =~= bytes + ahead(next));
        }
    }
}

broadcast proof fn lemma_u8(cursor: Cur)
    requires
        inside(cursor),
    ensures
        ({
            let (value, next) = #[trigger] cursor.u8();
            &&& follows(cursor, next)
            &&& next.err is None ==> {
                &&& ahead(cursor) == put_u8(value, ahead(next))
            }
        }),
{
    lemma_take(cursor, 1);
    let bytes = cursor.take(1).0;
    if cursor.take(1).1.err is None {
        assert(bytes =~= seq![bytes[0]]);
    }
}

broadcast proof fn lemma_u16(cursor: Cur)
    requires
        inside(cursor),
    ensures
        ({
            let (value, next) = #[trigger] cursor.u16();
            &&& follows(cursor, next)
            &&& next.err is None ==> {
                &&& next.at == cursor.at + 2
                &&& ahead(cursor) == put_u16(value, ahead(next))
            }
        }),
{
    lemma_take(cursor, 2);
    let bytes = cursor.take(2).0;
    if cursor.take(2).1.err is None {
        reveal_with_fuel(pow, 3);
        lemma_le_bound(bytes);
        law_le_digits(bytes);
    }
}

broadcast proof fn lemma_u32(cursor: Cur)
    requires
        inside(cursor),
    ensures
        ({
            let (value, next) = #[trigger] cursor.u32();
            &&& follows(cursor, next)
            &&& next.err is None ==> {
                &&& next.at == cursor.at + 4
                &&& value == le_u32(cursor.bytes.subrange(cursor.at, cursor.at + 4))
                &&& ahead(cursor) == put_u32(value, ahead(next))
            }
        }),
{
    lemma_take(cursor, 4);
    let bytes = cursor.take(4).0;
    if cursor.take(4).1.err is None {
        reveal_with_fuel(pow, 5);
        lemma_le_bound(bytes);
        law_le_digits(bytes);
    }
}

broadcast proof fn lemma_u64(cursor: Cur)
    requires
        inside(cursor),
    ensures
        ({
            let (value, next) = #[trigger] cursor.u64();
            &&& follows(cursor, next)
            &&& next.err is None ==> {
                &&& next.at == cursor.at + 8
                &&& value == le_u64(cursor.bytes.subrange(cursor.at, cursor.at + 8))
                &&& ahead(cursor) == put_u64(value, ahead(next))
            }
        }),
{
    lemma_take(cursor, 8);
    let bytes = cursor.take(8).0;
    if cursor.take(8).1.err is None {
        reveal_with_fuel(pow, 9);
        lemma_le_bound(bytes);
        law_le_digits(bytes);
    }
}

broadcast proof fn lemma_text(cursor: Cur)
    requires
        inside(cursor),
    ensures
        ({
            let (value, next) = #[trigger] cursor.text();
            &&& follows(cursor, next)
            &&& next.err is None ==> {
                &&& cursor.at < next.at
                &&& ahead(cursor) == put_text(value, ahead(next))
                &&& encode_utf8(value).len() <= u32::MAX
            }
        }),
{
    lemma_u32(cursor);
    let (len, start) = cursor.u32();
    if start.err is None {
        lemma_take(start, len as int);
        let (bytes, next) = start.take(len as int);
        if next.err is None {
            if valid_utf8(bytes) {
                decode_utf8_encode_utf8(bytes);
            }
        }
    }
}

broadcast proof fn lemma_bytes32(cursor: Cur)
    requires
        inside(cursor),
    ensures
        ({
            let (value, next) = #[trigger] cursor.bytes32();
            &&& follows(cursor, next)
            &&& next.err is None ==> {
                &&& ahead(cursor) == put_bytes32(value, ahead(next))
                &&& value.len() <= u32::MAX
            }
        }),
{
    lemma_u32(cursor);
    let (len, start) = cursor.u32();
    if start.err is None {
        lemma_take(start, len as int);
    }
}

broadcast proof fn lemma_bytes64(cursor: Cur)
    requires
        inside(cursor),
    ensures
        ({
            let (value, next) = #[trigger] cursor.bytes64();
            &&& follows(cursor, next)
            &&& next.err is None ==> {
                &&& ahead(cursor) == put_bytes64(value, ahead(next))
                &&& value.len() <= u64::MAX
            }
        }),
{
    lemma_u64(cursor);
    let (len, start) = cursor.u64();
    if start.err is None {
        lemma_take(start, len as int);
    }
}

/// The cursor of a list is in front of the bytes of the list.
proof fn lemma_list(cursor: Cur)
    requires
        inside(cursor),
    ensures
        ({
            let (list, next) = cursor.list();
            &&& follows(cursor, next)
            &&& inside(list)
            &&& list.bytes == cursor.bytes.take(next.at)
            &&& list.err == next.err
            &&& next.err is None ==> {
                &&& list.at == cursor.at + 4
                &&& list_between(cursor.bytes, cursor.at, next.at)
                &&& ahead(list).len() <= u32::MAX
                &&& ahead(cursor) == put_bytes32(ahead(list), ahead(next))
            }
        }),
{
    lemma_u32(cursor);
    let (len, start) = cursor.u32();
    let (list, next) = cursor.list();
    if start.err is None {
        lemma_take(start, len as int);
        if next.err is None {
            assert(ahead(list) =~= start.take(len as int).0);
        }
    }
}

/// A field that ends inside a list in a record ends inside the list in the whole record.
proof fn lemma_ends_inside_list(bytes: Seq<u8>, at: int, end: int, pos: int)
    requires
        list_between(bytes, at, end),
        at + 4 <= pos,
        ends_inside(bytes.take(end), pos),
    ensures
        ends_inside(bytes, pos),
{
    let part = bytes.take(end);
    assert forall|n: int| wanted(part, pos, n) && pos <= end implies wanted(bytes, pos, n) by {
        if pos >= 4 {
            assert(part.subrange(pos - 4, pos) =~= bytes.subrange(pos - 4, pos));
        }
        if pos >= 8 {
            assert(part.subrange(pos - 8, pos) =~= bytes.subrange(pos - 8, pos));
        }
    }
    if goes_beyond(part, pos, end) && pos <= end {
        let n = choose|n: int| #[trigger] wanted(part, pos, n) && pos + n > end;
        assert(wanted(bytes, pos, n));
        assert(goes_beyond(bytes, pos, end));
    } else {
        let (a, e) = choose|a: int, e: int|
            {
                &&& #[trigger] list_between(part, a, e)
                &&& a + 4 <= pos <= e
                &&& goes_beyond(part, pos, e)
            };
        let n = choose|n: int| #[trigger] wanted(part, pos, n) && pos + n > e;
        assert(wanted(bytes, pos, n));
        assert(part.subrange(a, a + 4) =~= bytes.subrange(a, a + 4));
        assert(list_between(bytes, a, e));
        assert(goes_beyond(bytes, pos, e));
    }
}

/// What is wrong in a list is wrong in the record.
proof fn lemma_told_list(cursor: Cur, end: Cur)
    requires
        inside(cursor),
        told(cursor),
        end.bytes == cursor.list().0.bytes,
        cursor.list().1.err is Some ==> end.err == cursor.list().1.err,
        cursor.list().1.err is None ==> follows(cursor.list().0, end),
    ensures
        told(cursor.list().1.after_list(end)),
{
    lemma_list(cursor);
    let (list, next) = cursor.list();
    if next.err is None {
        let bytes = cursor.bytes;
        let part = list.bytes;
        match end.err {
            Some(ErrorView::UnexpectedEnd { pos }) => {
                lemma_ends_inside_list(bytes, cursor.at, next.at, pos as int);
            },
            Some(ErrorView::Utf8 { pos, .. }) => {
                let len = le_u32(part.subrange(pos - 4, pos as int));
                assert(part.subrange(pos - 4, pos as int) =~= bytes.subrange(pos - 4, pos as int));
                assert(part.subrange(pos as int, pos + len) =~= bytes.subrange(
                    pos as int,
                    pos + len,
                ));
            },
            _ => {},
        }
    }
}

proof fn lemma_all_text_pairs(cursor: Cur)
    requires
        inside(cursor),
    ensures
        ({
            let (pairs, next) = cursor.all_text_pairs();
            &&& follows(cursor, next)
            &&& next.err is None ==> {
                &&& ahead(cursor) == all_text_pairs_bytes(pairs)
                &&& forall|i: int| 0 <= i < pairs.len() ==> ok_text_pair(#[trigger] pairs[i])
            }
        }),
    decreases cursor.left(),
{
    broadcast use {lemma_u16, lemma_u64, lemma_text};

    let (key, middle) = cursor.text();
    let (value, next) = middle.text();
    if cursor.err is None {
        if cursor.left() <= 0 {
            assert(ahead(cursor) =~= seq![]);
        } else if next.err is None {
            lemma_all_text_pairs(next);
            let others = next.all_text_pairs().0;
            let pairs = seq![(key, value)] + others;
            assert(pairs.skip(1) =~= others);
        }
    }
}

broadcast proof fn lemma_text_pairs(cursor: Cur)
    requires
        inside(cursor),
    ensures
        ({
            let (value, next) = #[trigger] cursor.text_pairs();
            &&& follows(cursor, next)
            &&& next.err is None ==> {
                &&& ahead(cursor) == put_text_pairs(value, ahead(next))
                &&& all_text_pairs_bytes(value).len() <= u32::MAX
                &&& forall|i: int| 0 <= i < value.len() ==> ok_text_pair(#[trigger] value[i])
            }
        }),
{
    lemma_list(cursor);
    let (list, next) = cursor.list();
    lemma_all_text_pairs(list);
    let (pairs, end) = list.all_text_pairs();
    if told(cursor) {
        lemma_told_list(cursor, end);
    }
}

proof fn lemma_all_by_channel(cursor: Cur)
    requires
        inside(cursor),
    ensures
        ({
            let (pairs, next) = cursor.all_by_channel();
            &&& follows(cursor, next)
            &&& next.err is None ==> {
                &&& ahead(cursor) == all_by_channel_bytes(pairs)
            }
        }),
    decreases cursor.left(),
{
    broadcast use {lemma_u16, lemma_u64, lemma_text};

    let (key, middle) = cursor.u16();
    let (value, next) = middle.u64();
    if cursor.err is None {
        if cursor.left() <= 0 {
            assert(ahead(cursor) =~= seq![]);
        } else if next.err is None {
            lemma_all_by_channel(next);
            let others = next.all_by_channel().0;
            let pairs = seq![(key, value)] + others;
            assert(pairs.skip(1) =~= others);
        }
    }
}

broadcast proof fn lemma_by_channel(cursor: Cur)
    requires
        inside(cursor),
    ensures
        ({
            let (value, next) = #[trigger] cursor.by_channel();
            &&& follows(cursor, next)
            &&& next.err is None ==> {
                &&& ahead(cursor) == put_by_channel(value, ahead(next))
                &&& all_by_channel_bytes(value).len() <= u32::MAX
            }
        }),
{
    lemma_list(cursor);
    let (list, next) = cursor.list();
    lemma_all_by_channel(list);
    let (pairs, end) = list.all_by_channel();
    if told(cursor) {
        lemma_told_list(cursor, end);
    }
}

proof fn lemma_all_index_entries(cursor: Cur)
    requires
        inside(cursor),
    ensures
        ({
            let (pairs, next) = cursor.all_index_entries();
            &&& follows(cursor, next)
            &&& next.err is None ==> {
                &&& ahead(cursor) == all_index_entries_bytes(pairs)
            }
        }),
    decreases cursor.left(),
{
    broadcast use {lemma_u16, lemma_u64, lemma_text};

    let (key, middle) = cursor.u64();
    let (value, next) = middle.u64();
    if cursor.err is None {
        if cursor.left() <= 0 {
            assert(ahead(cursor) =~= seq![]);
        } else if next.err is None {
            lemma_all_index_entries(next);
            let others = next.all_index_entries().0;
            let pairs = seq![(key, value)] + others;
            assert(pairs.skip(1) =~= others);
        }
    }
}

broadcast proof fn lemma_index_entries(cursor: Cur)
    requires
        inside(cursor),
    ensures
        ({
            let (value, next) = #[trigger] cursor.index_entries();
            &&& follows(cursor, next)
            &&& next.err is None ==> {
                &&& ahead(cursor) == put_index_entries(value, ahead(next))
                &&& all_index_entries_bytes(value).len() <= u32::MAX
            }
        }),
{
    lemma_list(cursor);
    let (list, next) = cursor.list();
    lemma_all_index_entries(list);
    let (pairs, end) = list.all_index_entries();
    if told(cursor) {
        lemma_told_list(cursor, end);
    }
}

proof fn lemma_header(cursor: Cur)
    requires
        inside(cursor),
    ensures
        ({
            let (value, next) = cursor.header();
            &&& follows(cursor, next)
            &&& next.err is None ==> {
                &&& ahead(cursor) == put_header(value, ahead(next))
                &&& ok_header(value)
            }
        }),
{
    broadcast use lemma_text;

}

proof fn lemma_footer(cursor: Cur)
    requires
        inside(cursor),
    ensures
        ({
            let (value, next) = cursor.footer();
            &&& follows(cursor, next)
            &&& next.err is None ==> {
                &&& ahead(cursor) == put_footer(value, ahead(next))
            }
        }),
{
    broadcast use {lemma_u32, lemma_u64};

}

proof fn lemma_schema_header(cursor: Cur)
    requires
        inside(cursor),
    ensures
        ({
            let (value, next) = cursor.schema_header();
            &&& follows(cursor, next)
            &&& next.err is None ==> {
                &&& ahead(cursor) == put_schema_header(value, ahead(next))
                &&& ok_schema_header(value)
            }
        }),
{
    broadcast use {lemma_u16, lemma_text};

}

proof fn lemma_channel(cursor: Cur)
    requires
        inside(cursor),
    ensures
        ({
            let (value, next) = cursor.channel();
            &&& follows(cursor, next)
            &&& next.err is None ==> {
                &&& ahead(cursor) == put_channel(value, ahead(next))
                &&& ok_channel(value)
            }
        }),
{
    broadcast use {lemma_u16, lemma_text, lemma_text_pairs};

}

proof fn lemma_message_header(cursor: Cur)
    requires
        inside(cursor),
    ensures
        ({
            let (value, next) = cursor.message_header();
            &&& follows(cursor, next)
            &&& next.err is None ==> {
                &&& ahead(cursor) == put_message_header(value, ahead(next))
            }
        }),
{
    broadcast use {lemma_u16, lemma_u32, lemma_u64};

}

proof fn lemma_chunk_header(cursor: Cur)
    requires
        inside(cursor),
    ensures
        ({
            let (value, next) = cursor.chunk_header();
            &&& follows(cursor, next)
            &&& next.err is None ==> {
                &&& ahead(cursor) == put_chunk_header(value, ahead(next))
                &&& ok_chunk_header(value)
            }
        }),
{
    broadcast use {lemma_u32, lemma_u64, lemma_text};

}

proof fn lemma_message_index(cursor: Cur)
    requires
        inside(cursor),
    ensures
        ({
            let (value, next) = cursor.message_index();
            &&& follows(cursor, next)
            &&& next.err is None ==> {
                &&& ahead(cursor) == put_message_index(value, ahead(next))
                &&& ok_message_index(value)
            }
        }),
{
    broadcast use {lemma_u16, lemma_index_entries};

}

proof fn lemma_chunk_index(cursor: Cur)
    requires
        inside(cursor),
    ensures
        ({
            let (value, next) = cursor.chunk_index();
            &&& follows(cursor, next)
            &&& next.err is None ==> {
                &&& ahead(cursor) == put_chunk_index(value, ahead(next))
                &&& ok_chunk_index(value)
            }
        }),
{
    broadcast use {lemma_u64, lemma_text, lemma_by_channel};

}

proof fn lemma_attachment_header(cursor: Cur)
    requires
        inside(cursor),
    ensures
        ({
            let (value, next) = cursor.attachment_header();
            &&& follows(cursor, next)
            &&& next.err is None ==> {
                &&& ahead(cursor) == put_attachment_header(value, ahead(next))
                &&& ok_attachment_header(value)
            }
        }),
{
    broadcast use {lemma_u64, lemma_text};

}

proof fn lemma_attachment_index(cursor: Cur)
    requires
        inside(cursor),
    ensures
        ({
            let (value, next) = cursor.attachment_index();
            &&& follows(cursor, next)
            &&& next.err is None ==> {
                &&& ahead(cursor) == put_attachment_index(value, ahead(next))
                &&& ok_attachment_index(value)
            }
        }),
{
    broadcast use {lemma_u64, lemma_text};

}

proof fn lemma_statistics(cursor: Cur)
    requires
        inside(cursor),
    ensures
        ({
            let (value, next) = cursor.statistics();
            &&& follows(cursor, next)
            &&& next.err is None ==> {
                &&& ahead(cursor) == put_statistics(value, ahead(next))
                &&& ok_statistics(value)
            }
        }),
{
    broadcast use {lemma_u16, lemma_u32, lemma_u64, lemma_by_channel};

}

proof fn lemma_metadata(cursor: Cur)
    requires
        inside(cursor),
    ensures
        ({
            let (value, next) = cursor.metadata();
            &&& follows(cursor, next)
            &&& next.err is None ==> {
                &&& ahead(cursor) == put_metadata(value, ahead(next))
                &&& ok_metadata(value)
            }
        }),
{
    broadcast use {lemma_text, lemma_text_pairs};

}

proof fn lemma_metadata_index(cursor: Cur)
    requires
        inside(cursor),
    ensures
        ({
            let (value, next) = cursor.metadata_index();
            &&& follows(cursor, next)
            &&& next.err is None ==> {
                &&& ahead(cursor) == put_metadata_index(value, ahead(next))
                &&& ok_metadata_index(value)
            }
        }),
{
    broadcast use {lemma_u64, lemma_text};

}

proof fn lemma_summary_offset(cursor: Cur)
    requires
        inside(cursor),
    ensures
        ({
            let (value, next) = cursor.summary_offset();
            &&& follows(cursor, next)
            &&& next.err is None ==> {
                &&& ahead(cursor) == put_summary_offset(value, ahead(next))
            }
        }),
{
    broadcast use {lemma_u8, lemma_u64};

}

proof fn lemma_data_end(cursor: Cur)
    requires
        inside(cursor),
    ensures
        ({
            let (value, next) = cursor.data_end();
            &&& follows(cursor, next)
            &&& next.err is None ==> {
                &&& ahead(cursor) == put_data_end(value, ahead(next))
            }
        }),
{
    broadcast use lemma_u32;

}

/// The bytes of a chunk are there, or the header says too much.
proof fn lemma_chunk(cursor: Cur, size: u64)
    requires
        inside(cursor),
        told(cursor),
    ensures
        ({
            let (data, next) = cursor.chunk(size);
            &&& next.err is None ==> {
                &&& cursor.err is None
                &&& data.len() == size
                &&& ahead(cursor) == data + ahead(next)
            }
            &&& next.err matches Some(ErrorView::BadChunkLength { header, available }) ==> {
                &&& cursor.err is None
                &&& header == size
                &&& available == ahead(cursor).len()
                &&& available < header
            }
            &&& !(next.err matches Some(ErrorView::BadChunkLength { .. })) ==> told(next)
            &&& next.bytes == cursor.bytes
        }),
{
    if size <= cursor.left() {
        lemma_take(cursor, size as int);
    }
}

/// Whether the bytes that come after a chunk header are fewer than the header says.
pub open spec fn chunk_cut(
    body: Seq<u8>,
    header: ChunkHeader<Text>,
    size: u64,
    available: u64,
) -> bool {
    exists|rest: Seq<u8>|
        {
            &&& body == #[trigger] put_chunk_header(header, rest)
            &&& header.compressed_size == size
            &&& rest.len() == available
            &&& available < size
        }
}

/// Whether `rest` comes after the record in the contents of a record. Nothing comes after a message
/// or a record of an unknown kind, which take up all that is there.
pub open spec fn holds(body: Seq<u8>, record: RecordView, rest: Seq<u8>) -> bool {
    &&& body == put_record(record, rest)
    &&& record is Message || record is Unknown ==> rest.len() == 0
}

/// Whether what is said to be wrong with the contents of a record is wrong with them.
pub open spec fn wrong_with(opcode: u8, body: Seq<u8>, err: ErrorView) -> bool {
    match err {
        ErrorView::UnexpectedEnd { pos } => ends_inside(body, pos as int),
        ErrorView::Utf8 { pos, err } => bad_text_at(body, pos, err),
        ErrorView::BadChunkLength { header: size, available } => {
            &&& opcode == op::CHUNK
            &&& exists|header: ChunkHeader<Text>| chunk_cut(body, header, size, available)
        },
        _ => false,
    }
}

/// Whether `record` is right for the contents `body` if nothing went wrong at `end`, and otherwise
/// what went wrong is wrong.
#[verifier::opaque]
spec fn rightly(opcode: u8, body: Seq<u8>, record: RecordView, end: Cur) -> bool {
    match end.err {
        None => {
            &&& record.opcode() == opcode
            &&& ok_record(record)
            &&& exists|rest: Seq<u8>| holds(body, record, rest)
        },
        Some(err) => wrong_with(opcode, body, err),
    }
}

proof fn lemma_right(opcode: u8, body: Seq<u8>, record: RecordView, end: Cur)
    requires
        end.bytes == body,
        told(end),
        end.err is None ==> {
            &&& record.opcode() == opcode
            &&& ok_record(record)
            &&& holds(body, record, ahead(end))
        },
    ensures
        rightly(opcode, body, record, end),
{
    reveal(rightly);
}

#[verifier::rlimit(60)]
proof fn lemma_rightly_header(body: Seq<u8>)
    requires
        body.len() <= u64::MAX,
    ensures
        ({
            let (value, end) = Cur::start(body).header();
            rightly(op::HEADER, body, Record::Header(value), end)
        }),
{
    let start = Cur::start(body);
    let (value, end) = start.header();
    assert(ahead(start) =~= body);
    lemma_header(start);
    lemma_right(op::HEADER, body, Record::Header(value), end);
}

#[verifier::rlimit(60)]
proof fn lemma_rightly_footer(body: Seq<u8>)
    requires
        body.len() <= u64::MAX,
    ensures
        ({
            let (value, end) = Cur::start(body).footer();
            rightly(op::FOOTER, body, Record::Footer(value), end)
        }),
{
    let start = Cur::start(body);
    let (value, end) = start.footer();
    assert(ahead(start) =~= body);
    lemma_footer(start);
    lemma_right(op::FOOTER, body, Record::Footer(value), end);
}

#[verifier::rlimit(60)]
proof fn lemma_rightly_channel(body: Seq<u8>)
    requires
        body.len() <= u64::MAX,
    ensures
        ({
            let (value, end) = Cur::start(body).channel();
            rightly(op::CHANNEL, body, Record::Channel(value), end)
        }),
{
    let start = Cur::start(body);
    let (value, end) = start.channel();
    assert(ahead(start) =~= body);
    lemma_channel(start);
    lemma_right(op::CHANNEL, body, Record::Channel(value), end);
}

#[verifier::rlimit(60)]
proof fn lemma_rightly_message_index(body: Seq<u8>)
    requires
        body.len() <= u64::MAX,
    ensures
        ({
            let (value, end) = Cur::start(body).message_index();
            rightly(op::MESSAGE_INDEX, body, Record::MessageIndex(value), end)
        }),
{
    let start = Cur::start(body);
    let (value, end) = start.message_index();
    assert(ahead(start) =~= body);
    lemma_message_index(start);
    lemma_right(op::MESSAGE_INDEX, body, Record::MessageIndex(value), end);
}

#[verifier::rlimit(60)]
proof fn lemma_rightly_chunk_index(body: Seq<u8>)
    requires
        body.len() <= u64::MAX,
    ensures
        ({
            let (value, end) = Cur::start(body).chunk_index();
            rightly(op::CHUNK_INDEX, body, Record::ChunkIndex(value), end)
        }),
{
    let start = Cur::start(body);
    let (value, end) = start.chunk_index();
    assert(ahead(start) =~= body);
    lemma_chunk_index(start);
    lemma_right(op::CHUNK_INDEX, body, Record::ChunkIndex(value), end);
}

#[verifier::rlimit(60)]
proof fn lemma_rightly_attachment_index(body: Seq<u8>)
    requires
        body.len() <= u64::MAX,
    ensures
        ({
            let (value, end) = Cur::start(body).attachment_index();
            rightly(op::ATTACHMENT_INDEX, body, Record::AttachmentIndex(value), end)
        }),
{
    let start = Cur::start(body);
    let (value, end) = start.attachment_index();
    assert(ahead(start) =~= body);
    lemma_attachment_index(start);
    lemma_right(op::ATTACHMENT_INDEX, body, Record::AttachmentIndex(value), end);
}

#[verifier::rlimit(60)]
proof fn lemma_rightly_statistics(body: Seq<u8>)
    requires
        body.len() <= u64::MAX,
    ensures
        ({
            let (value, end) = Cur::start(body).statistics();
            rightly(op::STATISTICS, body, Record::Statistics(value), end)
        }),
{
    let start = Cur::start(body);
    let (value, end) = start.statistics();
    assert(ahead(start) =~= body);
    lemma_statistics(start);
    lemma_right(op::STATISTICS, body, Record::Statistics(value), end);
}

#[verifier::rlimit(60)]
proof fn lemma_rightly_metadata(body: Seq<u8>)
    requires
        body.len() <= u64::MAX,
    ensures
        ({
            let (value, end) = Cur::start(body).metadata();
            rightly(op::METADATA, body, Record::Metadata(value), end)
        }),
{
    let start = Cur::start(body);
    let (value, end) = start.metadata();
    assert(ahead(start) =~= body);
    lemma_metadata(start);
    lemma_right(op::METADATA, body, Record::Metadata(value), end);
}

#[verifier::rlimit(60)]
proof fn lemma_rightly_metadata_index(body: Seq<u8>)
    requires
        body.len() <= u64::MAX,
    ensures
        ({
            let (value, end) = Cur::start(body).metadata_index();
            rightly(op::METADATA_INDEX, body, Record::MetadataIndex(value), end)
        }),
{
    let start = Cur::start(body);
    let (value, end) = start.metadata_index();
    assert(ahead(start) =~= body);
    lemma_metadata_index(start);
    lemma_right(op::METADATA_INDEX, body, Record::MetadataIndex(value), end);
}

#[verifier::rlimit(60)]
proof fn lemma_rightly_summary_offset(body: Seq<u8>)
    requires
        body.len() <= u64::MAX,
    ensures
        ({
            let (value, end) = Cur::start(body).summary_offset();
            rightly(op::SUMMARY_OFFSET, body, Record::SummaryOffset(value), end)
        }),
{
    let start = Cur::start(body);
    let (value, end) = start.summary_offset();
    assert(ahead(start) =~= body);
    lemma_summary_offset(start);
    lemma_right(op::SUMMARY_OFFSET, body, Record::SummaryOffset(value), end);
}

#[verifier::rlimit(60)]
proof fn lemma_rightly_data_end(body: Seq<u8>)
    requires
        body.len() <= u64::MAX,
    ensures
        ({
            let (value, end) = Cur::start(body).data_end();
            rightly(op::DATA_END, body, Record::DataEnd(value), end)
        }),
{
    let start = Cur::start(body);
    let (value, end) = start.data_end();
    assert(ahead(start) =~= body);
    lemma_data_end(start);
    lemma_right(op::DATA_END, body, Record::DataEnd(value), end);
}

#[verifier::rlimit(60)]
proof fn lemma_rightly_schema(body: Seq<u8>)
    requires
        body.len() <= u64::MAX,
    ensures
        ({
            let start = Cur::start(body);
            let (header, next) = start.schema_header();
            let (data, end) = next.bytes32();
            rightly(op::SCHEMA, body, Record::Schema { header, data }, end)
        }),
{
    let start = Cur::start(body);
    let (header, next) = start.schema_header();
    let (data, end) = next.bytes32();
    assert(ahead(start) =~= body);
    lemma_schema_header(start);
    lemma_bytes32(next);
    lemma_right(op::SCHEMA, body, Record::Schema { header, data }, end);
}

#[verifier::rlimit(60)]
proof fn lemma_rightly_message(body: Seq<u8>)
    requires
        body.len() <= u64::MAX,
    ensures
        ({
            let start = Cur::start(body);
            let (header, next) = start.message_header();
            let (data, end) = next.rest();
            rightly(op::MESSAGE, body, Record::Message { header, data }, end)
        }),
{
    let start = Cur::start(body);
    let (header, next) = start.message_header();
    let (data, end) = next.rest();
    assert(ahead(start) =~= body);
    lemma_message_header(start);
    lemma_take(next, next.left());
    if end.err is None {
        assert(ahead(end) =~= seq![]);
    }
    lemma_right(op::MESSAGE, body, Record::Message { header, data }, end);
}

#[verifier::rlimit(60)]
proof fn lemma_rightly_chunk(body: Seq<u8>)
    requires
        body.len() <= u64::MAX,
    ensures
        ({
            let start = Cur::start(body);
            let (header, next) = start.chunk_header();
            let (data, end) = next.chunk(header.compressed_size);
            rightly(op::CHUNK, body, Record::Chunk { header, data }, end)
        }),
{
    let start = Cur::start(body);
    let (header, next) = start.chunk_header();
    let (data, end) = next.chunk(header.compressed_size);
    assert(ahead(start) =~= body);
    lemma_chunk_header(start);
    lemma_chunk(next, header.compressed_size);
    if let Some(ErrorView::BadChunkLength { header: size, available }) = end.err {
        assert(body == put_chunk_header(header, ahead(next)));
        assert(chunk_cut(body, header, size, available));
        reveal(rightly);
    } else {
        lemma_right(op::CHUNK, body, Record::Chunk { header, data }, end);
    }
}

#[verifier::rlimit(60)]
proof fn lemma_rightly_attachment(body: Seq<u8>)
    requires
        body.len() <= u64::MAX,
    ensures
        ({
            let start = Cur::start(body);
            let (header, next) = start.attachment_header();
            let (data, next) = next.bytes64();
            let (crc, end) = next.u32();
            rightly(op::ATTACHMENT, body, Record::Attachment { header, data, crc }, end)
        }),
{
    let start = Cur::start(body);
    let (header, next) = start.attachment_header();
    let (data, next) = next.bytes64();
    let (crc, end) = next.u32();
    assert(ahead(start) =~= body);
    lemma_attachment_header(start);
    lemma_bytes64(start.attachment_header().1);
    lemma_u32(next);
    lemma_right(op::ATTACHMENT, body, Record::Attachment { header, data, crc }, end);
}

#[verifier::rlimit(60)]
proof fn lemma_rightly_unknown(opcode: u8, body: Seq<u8>)
    requires
        body.len() <= u64::MAX,
        !known(opcode),
    ensures
        ({
            let (data, end) = Cur::start(body).rest();
            rightly(opcode, body, Record::Unknown { opcode, data }, end)
        }),
{
    let start = Cur::start(body);
    let (data, end) = start.rest();
    assert(ahead(start) =~= body);
    lemma_take(start, start.left());
    assert(ahead(end) =~= seq![]);
    lemma_right(opcode, body, Record::Unknown { opcode, data }, end);
}

#[verifier::rlimit(60)]
proof fn lemma_rightly(opcode: u8, body: Seq<u8>)
    requires
        body.len() <= u64::MAX,
    ensures
        ({
            let (record, end) = Cur::start(body).record(opcode);
            rightly(opcode, body, record, end)
        }),
{
    if opcode == op::HEADER {
        lemma_rightly_header(body);
    } else if opcode == op::FOOTER {
        lemma_rightly_footer(body);
    } else if opcode == op::CHANNEL {
        lemma_rightly_channel(body);
    } else if opcode == op::MESSAGE_INDEX {
        lemma_rightly_message_index(body);
    } else if opcode == op::CHUNK_INDEX {
        lemma_rightly_chunk_index(body);
    } else if opcode == op::ATTACHMENT_INDEX {
        lemma_rightly_attachment_index(body);
    } else if opcode == op::STATISTICS {
        lemma_rightly_statistics(body);
    } else if opcode == op::METADATA {
        lemma_rightly_metadata(body);
    } else if opcode == op::METADATA_INDEX {
        lemma_rightly_metadata_index(body);
    } else if opcode == op::SUMMARY_OFFSET {
        lemma_rightly_summary_offset(body);
    } else if opcode == op::DATA_END {
        lemma_rightly_data_end(body);
    } else if opcode == op::SCHEMA {
        lemma_rightly_schema(body);
    } else if opcode == op::MESSAGE {
        lemma_rightly_message(body);
    } else if opcode == op::CHUNK {
        lemma_rightly_chunk(body);
    } else if opcode == op::ATTACHMENT {
        lemma_rightly_attachment(body);
    } else {
        lemma_rightly_unknown(opcode, body);
    }
}

/// A record is made only of contents that hold it: it has the opcode that was asked for, it is one
/// that can be written down, and the contents are what is written for it, with something after it
/// at most.
pub proof fn law_record_stands_in_its_contents(opcode: u8, body: Seq<u8>)
    requires
        body.len() <= u64::MAX,
    ensures
        parsed(opcode, body) matches Ok(record) ==> {
            &&& record.opcode() == opcode
            &&& ok_record(record)
            &&& exists|rest: Seq<u8>| holds(body, record, rest)
        },
{
    reveal(rightly);
    lemma_rightly(opcode, body);
}

/// Contents are refused only for something that is wrong with them: a field that goes beyond the
/// end of the record or of a list in it, a text that is not UTF-8, or a chunk that is shorter than
/// its header says.
pub proof fn law_refused_contents_are_wrong(opcode: u8, body: Seq<u8>)
    requires
        body.len() <= u64::MAX,
    ensures
        parsed(opcode, body) matches Err(err) ==> wrong_with(opcode, body, err),
{
    reveal(rightly);
    lemma_rightly(opcode, body);
}

/// Contents are refused exactly if they hold no record with the opcode.
pub proof fn law_contents_without_a_record_are_refused(opcode: u8, body: Seq<u8>)
    requires
        body.len() <= u64::MAX,
    ensures
        parsed(opcode, body) is Err <==> !(exists|record: RecordView, rest: Seq<u8>|
            #[trigger] holds(body, record, rest) && record.opcode() == opcode && ok_record(record)),
{
    reveal(rightly);
    lemma_rightly(opcode, body);
    if exists|record: RecordView, rest: Seq<u8>|
        #[trigger] holds(body, record, rest) && record.opcode() == opcode && ok_record(record) {
        let (record, rest) = choose|record: RecordView, rest: Seq<u8>|
            #[trigger] holds(body, record, rest) && record.opcode() == opcode && ok_record(record);
        law_record_is_read_back(record, rest);
    }
}

broadcast proof fn lemma_put_u8(value: u8, a: Seq<u8>, b: Seq<u8>)
    ensures
        #[trigger] (put_u8(value, a) + b) == put_u8(value, a + b),
{
    assert(put_u8(value, a) + b =~= put_u8(value, a + b));
}

broadcast proof fn lemma_put_u16(value: u16, a: Seq<u8>, b: Seq<u8>)
    ensures
        #[trigger] (put_u16(value, a) + b) == put_u16(value, a + b),
{
    assert(put_u16(value, a) + b =~= put_u16(value, a + b));
}

broadcast proof fn lemma_put_u32(value: u32, a: Seq<u8>, b: Seq<u8>)
    ensures
        #[trigger] (put_u32(value, a) + b) == put_u32(value, a + b),
{
    assert(put_u32(value, a) + b =~= put_u32(value, a + b));
}

broadcast proof fn lemma_put_u64(value: u64, a: Seq<u8>, b: Seq<u8>)
    ensures
        #[trigger] (put_u64(value, a) + b) == put_u64(value, a + b),
{
    assert(put_u64(value, a) + b =~= put_u64(value, a + b));
}

broadcast proof fn lemma_put_bytes32(value: Seq<u8>, a: Seq<u8>, b: Seq<u8>)
    ensures
        #[trigger] (put_bytes32(value, a) + b) == put_bytes32(value, a + b),
{
    assert(put_bytes32(value, a) + b =~= put_bytes32(value, a + b));
}

broadcast proof fn lemma_put_bytes64(value: Seq<u8>, a: Seq<u8>, b: Seq<u8>)
    ensures
        #[trigger] (put_bytes64(value, a) + b) == put_bytes64(value, a + b),
{
    assert(put_bytes64(value, a) + b =~= put_bytes64(value, a + b));
}

broadcast proof fn lemma_put_text(value: Text, a: Seq<u8>, b: Seq<u8>)
    ensures
        #[trigger] (put_text(value, a) + b) == put_text(value, a + b),
{
    assert(put_text(value, a) + b =~= put_text(value, a + b));
}

broadcast proof fn lemma_put_text_pairs(value: TextPairs, a: Seq<u8>, b: Seq<u8>)
    ensures
        #[trigger] (put_text_pairs(value, a) + b) == put_text_pairs(value, a + b),
{
    assert(put_text_pairs(value, a) + b =~= put_text_pairs(value, a + b));
}

broadcast proof fn lemma_put_by_channel(value: Seq<(u16, u64)>, a: Seq<u8>, b: Seq<u8>)
    ensures
        #[trigger] (put_by_channel(value, a) + b) == put_by_channel(value, a + b),
{
    assert(put_by_channel(value, a) + b =~= put_by_channel(value, a + b));
}

broadcast proof fn lemma_put_index_entries(value: Seq<(u64, u64)>, a: Seq<u8>, b: Seq<u8>)
    ensures
        #[trigger] (put_index_entries(value, a) + b) == put_index_entries(value, a + b),
{
    assert(put_index_entries(value, a) + b =~= put_index_entries(value, a + b));
}

/// What comes after a record can be written after it.
proof fn lemma_put_after(record: RecordView, a: Seq<u8>, b: Seq<u8>)
    ensures
        put_record(record, a) + b == put_record(record, a + b),
{
    broadcast use {
        lemma_put_u8,
        lemma_put_u16,
        lemma_put_u32,
        lemma_put_u64,
        lemma_put_bytes32,
        lemma_put_bytes64,
        lemma_put_text,
        lemma_put_text_pairs,
        lemma_put_by_channel,
        lemma_put_index_entries,
    };

    match record {
        Record::Message { data, .. } => assert((data + a) + b =~= data + (a + b)),
        Record::Chunk { data, .. } => assert((data + a) + b =~= data + (a + b)),
        Record::Unknown { data, .. } => assert((data + a) + b =~= data + (a + b)),
        _ => {},
    }
}

/// What is written for two records tells them apart.
proof fn lemma_same_record(record: RecordView, other: RecordView, rest: Seq<u8>)
    requires
        ok_record(record),
        ok_record(other),
        record.opcode() == other.opcode(),
        known(record.opcode()),
        record.opcode() != op::MESSAGE,
        put_record(other, rest) == put_record(record, seq![]),
    ensures
        other == record,
{
    law_record_is_read_back(other, rest);
    law_record_is_read_back(record, seq![]);
}

proof fn lemma_message_len(record: RecordView, rest: Seq<u8>)
    requires
        record.opcode() == op::MESSAGE,
        ok_record(record),
    ensures
        put_record(record, rest).len() >= 22,
{
    broadcast use lemma_le_bytes_len;

    if let Record::Message { header, data } = record {
        assert(put_message_header(header, data + rest).len() == 22 + (data + rest).len());
    }
}

/// A record that is cut short is refused. Of a message only the header counts, because all that is
/// left after it is the message.
#[verifier::rlimit(60)]
pub proof fn law_cut_record_is_refused(record: RecordView, len: int)
    requires
        ok_record(record),
        !(record is Unknown),
        put_record(record, seq![]).len() <= u64::MAX,
        0 <= len < put_record(record, seq![]).len(),
        record is Message ==> len < 2 + 4 + 8 + 8,
    ensures
        parsed(record.opcode(), put_record(record, seq![]).take(len)) is Err,
{
    let whole = put_record(record, seq![]);
    let part = whole.take(len);
    let rest = whole.skip(len);
    law_record_stands_in_its_contents(record.opcode(), part);
    if let Ok(other) = parsed(record.opcode(), part) {
        let after = choose|after: Seq<u8>| holds(part, other, after);
        if record is Message {
            lemma_message_len(other, after);
        } else {
            assert(part + rest =~= whole);
            lemma_put_after(other, after, rest);
            lemma_same_record(record, other, after + rest);
            lemma_put_after(record, seq![], after);
            assert(seq![] + after =~= after);
        }
    }
}

} // verus!
