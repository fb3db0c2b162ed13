//! A record's first bytes, which may come in any number of reads.

use crate::lemmas::run::{lemma_step, nearer};
use crate::read::{Pending, ReaderView, StepView, RECORD_HEADER_LEN};
use crate::stream::{advance, fitting, min, overwritten, reads, resized, run, Config, Host, Stream};
use vstd::prelude::*;

verus! {

proof fn lemma_overwritten_twice(buffer: Seq<u8>, from: int, bytes: Seq<u8>, n: int, m: int)
    requires
        0 <= from,
        0 <= n <= m <= bytes.len(),
        from + m <= buffer.len(),
    ensures
        overwritten(
            overwritten(buffer, from, bytes.take(n)),
            from + n,
            bytes.skip(n).take(m - n),
        ) == overwritten(buffer, from, bytes.take(m)),
{
    let once = overwritten(buffer, from, bytes.take(n));
    assert(overwritten(once, from + n, bytes.skip(n).take(m - n)) =~= overwritten(
        buffer,
        from,
        bytes.take(m),
    ));
}

/// A buffer that was filled holds what it was filled with.
pub(crate) proof fn lemma_filled(buffer: Seq<u8>, bytes: Seq<u8>)
    ensures
        overwritten(resized(buffer, bytes.len()), 0, bytes) == bytes,
{
    assert(overwritten(resized(buffer, bytes.len()), 0, bytes) =~= bytes);
}

/// The start of a buffer that was read into holds what was read.
pub(crate) proof fn lemma_scratch_start(buffer: Seq<u8>, bytes: Seq<u8>)
    requires
        bytes.len() <= buffer.len(),
    ensures
        overwritten(buffer, 0, bytes).len() == buffer.len(),
        overwritten(buffer, 0, bytes).take(bytes.len() as int) == bytes,
{
    assert(overwritten(buffer, 0, bytes).take(bytes.len() as int) =~= bytes);
}

/// Whether the step is the read of a record's first bytes.
pub open spec fn in_head(step: StepView) -> bool {
    step matches StepView::Await(pending) && (pending is RecordHeader
        || pending is ChunkRecordHeader)
}

/// How many of a record's first bytes there are.
pub open spec fn head_bytes(step: StepView) -> int {
    match step {
        StepView::Await(Pending::RecordHeader { have }) => have as int,
        StepView::Await(Pending::ChunkRecordHeader { have }) => have as int,
        _ => 0,
    }
}

/// What happens after another `n` of a record's first bytes, if there were `have` before.
pub open spec fn after_head(reader: ReaderView, have: int, n: int) -> (ReaderView, StepView) {
    if reader.source is Base {
        reader.after_record_header(have as u64, n as usize)
    } else {
        reader.after_chunk_record_header(have as u64, n as usize)
    }
}

/// The reader with another `n` of a record's first bytes in its scratch buffer.
pub open spec fn with_head(config: Config, n: int) -> ReaderView {
    let reader = config.reader;
    let bytes = config.stream.available(reader.source).take(n);
    ReaderView { scratch: overwritten(reader.scratch, head_bytes(config.step), bytes), ..reader }
}

/// The reader and the stream after a record's first bytes have been read, or as many of them as
/// there are.
pub open spec fn settled(config: Config, reads: nat) -> Config {
    let source = config.reader.source;
    let have = head_bytes(config.step);
    let n = min(RECORD_HEADER_LEN - have, config.stream.available(source).len() as int);
    let (reader, step) = if have + n == RECORD_HEADER_LEN {
        after_head(with_head(config, n), have, n)
    } else {
        after_head(with_head(config, n), have + n, 0)
    };
    Config { reader, stream: Stream { reads, ..config.stream.skip(source, n) }, step }
}

/// A read gives some of a record's first bytes.
pub(crate) proof fn lemma_head_advance(host: Host, from: Config)
    requires
        fitting(from),
        in_head(from.step),
    ensures
        ({
            let source = from.reader.source;
            let have = head_bytes(from.step);
            let n = host.given(
                from.stream.reads,
                RECORD_HEADER_LEN - have,
                from.stream.available(source).len() as int,
            );
            let (reader, step) = after_head(with_head(from, n), have, n);
            advance(host, from) == Config {
                reader,
                stream: Stream { reads: from.stream.reads + 1, ..from.stream.skip(source, n) },
                step,
            }
        }),
{
}

pub(crate) proof fn lemma_settled_fits(from: Config, reads: nat)
    requires
        fitting(from),
        in_head(from.step),
    ensures
        fitting(settled(from, reads)),
        !in_head(settled(from, reads).step),
        nearer(settled(from, reads), from),
{
    let have = head_bytes(from.step);
    let available = from.stream.available(from.reader.source);
    let n = min(RECORD_HEADER_LEN - have, available.len() as int);
    assert(with_head(from, n).wf());
}

/// Some of a record's first bytes and then the others are all of them.
proof fn lemma_settled_split(from: Config, to: Config, n: int, reads: nat)
    requires
        fitting(from),
        in_head(from.step),
        0 < n <= from.stream.available(from.reader.source).len(),
        head_bytes(from.step) + n < RECORD_HEADER_LEN,
        to.reader == with_head(from, n),
        head_bytes(to.step) == head_bytes(from.step) + n,
        to.stream.base == from.stream.skip(from.reader.source, n).base,
        to.stream.chunk == from.stream.skip(from.reader.source, n).chunk,
        to.stream.data == from.stream.data,
    ensures
        settled(to, reads) == settled(from, reads),
{
    let have = head_bytes(from.step);
    let scratch = from.reader.scratch;
    let available = from.stream.available(from.reader.source);
    let m = min(RECORD_HEADER_LEN - have, available.len() as int);
    lemma_overwritten_twice(scratch, have, available, n, m);
    assert(to.stream.available(from.reader.source) == available.skip(n));
    assert(with_head(to, m - n) == with_head(from, m));
    assert(available.skip(n).skip(m - n) =~= available.skip(m));
}

/// It makes no difference in how many reads a record's first bytes come.
pub(crate) proof fn lemma_settled(host: Host, from: Config) -> (reads: nat)
    requires
        fitting(from),
        in_head(from.step),
    ensures
        run(host, from) == run(host, settled(from, reads)),
        fitting(settled(from, reads)),
        !in_head(settled(from, reads).step),
        nearer(settled(from, reads), from),
    decreases RECORD_HEADER_LEN - head_bytes(from.step),
{
    let next = advance(host, from);
    let have = head_bytes(from.step);
    let available = from.stream.available(from.reader.source);
    let n = host.given(
        from.stream.reads,
        RECORD_HEADER_LEN - have,
        available.len() as int,
    );
    lemma_step(host, from);
    lemma_head_advance(host, from);
    let reads = if n == 0 || have + n == RECORD_HEADER_LEN {
        from.stream.reads + 1
    } else {
        let reads = lemma_settled(host, next);
        lemma_settled_split(from, next, n, reads);
        reads
    };
    lemma_settled_fits(from, reads);
    reads
}

} // verus!
