//! Streams that start with the same records.

use crate::chunk_header::Piece;
use crate::codec::le_bytes;
use crate::lemmas::alike::{lemma_alike_settled, lemma_alike_step, lemma_next_head};
use crate::lemmas::head::{
    head_bytes, in_head, lemma_settled, lemma_settled_fits, settled, with_head,
};
use crate::lemmas::run::{lemma_run_done, lemma_run_ends, lemma_step, nearer};
use crate::lemmas::written::lemma_u64_round_trip;
use crate::read::{Pending, RecordReaderOptions, Request, StepView};
use crate::stream::{
    advance, alike, call, fitting, leading, patience, records_bytes, run, starting, Config, Host,
    RawRecord, Stream,
};
use vstd::prelude::*;

verus! {

/// The same reader with other bytes to come from the base reader.
pub open spec fn rebased(config: Config, base: Seq<u8>) -> Config {
    Config { stream: Stream { base, ..config.stream }, ..config }
}

/// How many bytes a step takes from the base reader, if it is not the read of a record's first
/// bytes.
pub open spec fn takes(config: Config) -> int {
    match config.step {
        StepView::Await(pending) => if config.reader.source is Base {
            match pending.request() {
                Request::FillScratch { len } => len as int,
                Request::ReadScratch { .. } => 0,
                Request::FillData { len } => len as int,
                Request::SizeData { .. } => 0,
            }
        } else {
            0
        },
        StepView::OpenChunk(opening) => opening.compressed_size as int,
        _ => 0,
    }
}

/// What comes after the bytes that a step takes makes no difference to it.
#[verifier::rlimit(30)]
proof fn lemma_rebased(host: Host, from: Config, near: Seq<u8>, x: Seq<u8>, y: Seq<u8>)
    requires
        fitting(from),
        !in_head(from.step),
        from.stream.base == near + x,
        takes(from) <= near.len(),
    ensures
        advance(host, from).stream.base == near.skip(takes(from)) + x,
        advance(host, rebased(from, near + y)) == rebased(
            advance(host, from),
            near.skip(takes(from)) + y,
        ),
{
    let n = takes(from);
    assert((near + x).take(n) =~= near.take(n));
    assert((near + y).take(n) =~= near.take(n));
    assert((near + x).skip(n) =~= near.skip(n) + x);
    assert((near + y).skip(n) =~= near.skip(n) + y);
}

/// How many bytes of the current record the base reader has still to give.
pub open spec fn owed(config: Config) -> int {
    let left = config.reader.to_discard_after_chunk as int;
    match config.step {
        StepView::Await(Pending::ChunkHeader { record_len, piece }) => match piece {
            Piece::Fixed => record_len as int,
            Piece::Compression { .. } => record_len - 32,
            Piece::Overlong { .. } => record_len - 32,
            Piece::Size { fixed, .. } => record_len - 32 - fixed.compression_len,
        },
        StepView::Await(Pending::Body { len, .. }) => if config.reader.source is Base {
            len as int
        } else {
            left
        },
        StepView::Await(Pending::Discard { .. }) => left,
        StepView::OpenChunk(opening) => opening.compressed_size + opening.trailing,
        StepView::CloseChunk => left,
        _ => if config.reader.source is Base {
            0
        } else {
            left
        },
    }
}

/// Whether the reader is past the magic at the start, and the magic at the end is not due.
pub open spec fn underway(config: Config) -> bool {
    let options = config.reader.options;
    &&& config.reader.start_magic_seen || options.skip_start_magic
    &&& !config.reader.footer_seen || options.skip_end_magic
    &&& match config.step {
        StepView::Await(Pending::StartMagic) => false,
        StepView::Await(Pending::EndMagic) => false,
        StepView::Done(Some(Ok(_))) => true,
        StepView::Done(_) => false,
        _ => true,
    }
}

/// A step takes its bytes from what the base reader owes of the current record.
proof fn lemma_owed(host: Host, from: Config)
    requires
        fitting(from),
        underway(from),
        !in_head(from.step),
        !(from.step is Done),
        from.stream.base.len() >= owed(from),
    ensures
        0 <= takes(from) <= owed(from),
        ({
            let to = advance(host, from);
            ||| to.step matches StepView::Done(Some(Err(_)))
            ||| underway(to) && owed(to) == owed(from) - takes(from)
        }),
{
    match from.step {
        StepView::Await(Pending::ChunkHeader { record_len, piece }) => {
            match piece {
                Piece::Fixed => {},
                Piece::Compression { .. } => {},
                Piece::Overlong { .. } => {},
                Piece::Size { .. } => {},
            }
        },
        StepView::Await(Pending::Body { .. }) => {},
        StepView::Await(Pending::Discard { .. }) => {},
        StepView::OpenChunk(_) => {},
        StepView::CloseChunk => {},
        _ => {},
    }
}

proof fn lemma_advance_keeps_options(host: Host, from: Config)
    ensures
        advance(host, from).reader.options == from.reader.options,
{
}

/// Whether two readers are alike but for what comes after the current record and `records`, which
/// is `x` for one and `y` for the other.
pub open spec fn twins(
    a: Config,
    b: Config,
    part: Seq<u8>,
    records: Seq<RawRecord>,
    x: Seq<u8>,
    y: Seq<u8>,
) -> bool {
    let options = a.reader.options;
    let near = part + records_bytes(records);
    &&& fitting(a)
    &&& fitting(b)
    &&& head_bytes(a.step) == 0
    &&& underway(a)
    &&& alike(rebased(a, b.stream.base), b)
    &&& part.len() == owed(a)
    &&& forall|i: int| 0 <= i < records.len() ==> leading(#[trigger] records[i], options)
    &&& a.stream.base == near + x
    &&& b.stream.base == near + y
}

/// The next state of twins, or the end of the records that they have in common, or an error.
pub enum Twins {
    On { part: Seq<u8>, records: Seq<RawRecord> },
    Refused,
}

/// Whether `a` and `b` are what `next` says.
pub open spec fn twins_are(a: Config, b: Config, next: Twins, x: Seq<u8>, y: Seq<u8>) -> bool {
    match next {
        Twins::On { part, records } => twins(a, b, part, records, x, y),
        Twins::Refused => {
            &&& fitting(a)
            &&& fitting(b)
            &&& a.step == b.step
            &&& a.step matches StepView::Done(Some(Err(_)))
        },
    }
}

proof fn lemma_twins_on(
    options: RecordReaderOptions,
    a: Config,
    b: Config,
    part: Seq<u8>,
    records: Seq<RawRecord>,
    x: Seq<u8>,
    y: Seq<u8>,
    n: int,
) -> (next: Twins)
    requires
        fitting(a),
        fitting(b),
        head_bytes(a.step) == 0,
        a.reader.options == options,
        0 <= n <= part.len(),
        a.stream.base == (part + records_bytes(records)).skip(n) + x,
        alike(rebased(a, (part + records_bytes(records)).skip(n) + y), b),
        a.step matches StepView::Done(Some(Err(_))) || (underway(a) && owed(a) == part.len() - n),
        forall|i: int| 0 <= i < records.len() ==> leading(#[trigger] records[i], options),
    ensures
        twins_are(a, b, next, x, y),
{
    let near = part + records_bytes(records);
    assert(near.skip(n) =~= part.skip(n) + records_bytes(records));
    if a.step matches StepView::Done(Some(Err(_))) {
        Twins::Refused
    } else {
        Twins::On { part: part.skip(n), records }
    }
}

proof fn lemma_twins_step(
    host: Host,
    a: Config,
    b: Config,
    part: Seq<u8>,
    records: Seq<RawRecord>,
    x: Seq<u8>,
    y: Seq<u8>,
) -> (next: Twins)
    requires
        twins(a, b, part, records, x, y),
        !in_head(a.step),
        !(a.step is Done),
    ensures
        twins_are(advance(host, a), advance(host, b), next, x, y),
{
    let near = part + records_bytes(records);
    let n = takes(a);
    let a2 = advance(host, a);
    let b2 = advance(host, b);
    assert(fitting(a2) && fitting(b2)) by {
        lemma_step(host, a);
        lemma_step(host, b);
    }
    assert(head_bytes(a2.step) == 0) by {
        lemma_next_head(host, a);
    }
    assert(a2.reader.options == a.reader.options) by {
        lemma_advance_keeps_options(host, a);
    }
    lemma_owed(host, a);
    lemma_rebased(host, a, near, x, y);
    lemma_alike_step(host, rebased(a, near + y), b);
    lemma_twins_on(a.reader.options, a2, b2, part, records, x, y, n)
}

proof fn lemma_twins_head(
    host: Host,
    a: Config,
    b: Config,
    part: Seq<u8>,
    records: Seq<RawRecord>,
    x: Seq<u8>,
    y: Seq<u8>,
    reads1: nat,
    reads2: nat,
) -> (next: Twins)
    requires
        twins(a, b, part, records, x, y),
        in_head(a.step),
        a.reader.source is Base ==> records.len() > 0,
    ensures
        twins_are(settled(a, reads1), settled(b, reads2), next, x, y),
{
    let near = part + records_bytes(records);
    let other = rebased(a, b.stream.base);
    let a2 = settled(a, reads1);
    let b2 = settled(b, reads2);
    lemma_settled_fits(a, reads1);
    lemma_settled_fits(b, reads2);
    lemma_alike_settled(other, b, reads1, reads2);
    if a.reader.source is Base {
        let record = records[0];
        let others = records.skip(1);
        let len = record.1.len() as u64;
        assert(leading(record, a.reader.options));
        assert forall|i: int| 0 <= i < others.len() implies leading(
            #[trigger] others[i],
            a.reader.options,
        ) by {
            assert(others[i] == records[i + 1]);
        }
        lemma_u64_round_trip(len);
        assert(part =~= seq![]);
        let head = seq![record.0] + le_bytes(len as nat, 8);
        let tail = record.1 + records_bytes(others);
        assert(near =~= head + tail);
        assert(a.stream.base.take(9) =~= head);
        assert(b.stream.base.take(9) =~= head);
        assert(a.stream.base.skip(9) =~= tail + x);
        assert(b.stream.base.skip(9) =~= tail + y);
        assert(with_head(a, 9) == with_head(other, 9));
        assert(rebased(a2, b2.stream.base) == settled(other, reads1));
        assert(with_head(a, 9).scratch.subrange(1, 9) =~= le_bytes(len as nat, 8));
        assert(with_head(a, 9).scratch[0] == record.0);
        if a2.step matches StepView::Done(Some(Err(_))) {
            Twins::Refused
        } else {
            Twins::On { part: record.1, records: others }
        }
    } else {
        assert(rebased(a2, b2.stream.base) == settled(other, reads1));
        if a2.step matches StepView::Done(Some(Err(_))) {
            Twins::Refused
        } else {
            Twins::On { part, records }
        }
    }
}

/// The next step of twins, or all the steps in which a record's first bytes come.
proof fn lemma_twins_next(
    host: Host,
    a: Config,
    b: Config,
    part: Seq<u8>,
    records: Seq<RawRecord>,
    x: Seq<u8>,
    y: Seq<u8>,
) -> (to: (Config, Config, Twins))
    requires
        twins(a, b, part, records, x, y),
        !(a.step is Done),
        in_head(a.step) && a.reader.source is Base ==> records.len() > 0,
    ensures
        run(host, a) == run(host, to.0),
        run(host, b) == run(host, to.1),
        nearer(to.0, a),
        to.0.reader.options == a.reader.options,
        twins_are(to.0, to.1, to.2, x, y),
{
    if in_head(a.step) {
        let reads1 = lemma_settled(host, a);
        let reads2 = lemma_settled(host, b);
        let next = lemma_twins_head(host, a, b, part, records, x, y, reads1, reads2);
        (settled(a, reads1), settled(b, reads2), next)
    } else {
        lemma_step(host, a);
        lemma_step(host, b);
        lemma_advance_keeps_options(host, a);
        let next = lemma_twins_step(host, a, b, part, records, x, y);
        (advance(host, a), advance(host, b), next)
    }
}

/// Twins that have no more records in common are in front of what comes then.
proof fn lemma_twins_part(
    a: Config,
    b: Config,
    part: Seq<u8>,
    records: Seq<RawRecord>,
    x: Seq<u8>,
    y: Seq<u8>,
)
    requires
        twins(a, b, part, records, x, y),
        in_head(a.step),
        a.reader.source is Base,
        records.len() == 0,
    ensures
        a == starting(a.reader, a.stream),
        b == starting(b.reader, b.stream),
        a.at_record(),
        b.at_record(),
        a.stream.base == x,
        b.stream.base == y,
{
    assert(a.stream.base =~= x);
    assert(b.stream.base =~= y);
}

/// How reading a record goes for twins.
pub enum TwinCall {
    /// The records that they have in common are used up.
    Parted { a: Config, b: Config },
    /// Both have the same outcome.
    Same { next: Twins },
}

/// Twins come to the same outcome, or to the end of what they have in common.
pub(crate) proof fn lemma_twins_run(
    host: Host,
    a: Config,
    b: Config,
    part: Seq<u8>,
    records: Seq<RawRecord>,
    x: Seq<u8>,
    y: Seq<u8>,
) -> (result: TwinCall)
    requires
        twins(a, b, part, records, x, y),
    ensures
        match result {
            TwinCall::Parted { a: a2, b: b2 } => {
                &&& run(host, a) == call(host, a2)
                &&& run(host, b) == call(host, b2)
                &&& a2.at_record()
                &&& b2.at_record()
                &&& a2.reader.options == a.reader.options
                &&& b2.reader.options.emit_chunks == a.reader.options.emit_chunks
                &&& b2.reader.options.skip_end_magic == a.reader.options.skip_end_magic
                &&& a2.stream.base == x
                &&& b2.stream.base == y
            },
            TwinCall::Same { next } => {
                &&& twins_are(run(host, a), run(host, b), next, x, y)
                &&& run(host, a).step is Done
                &&& run(host, a).reader.options == a.reader.options
            },
        },
    decreases a.stream.base.len(), patience(a.step), a.stream.chunk.len(),
{
    if a.step is Done {
        lemma_run_done(host, a);
        lemma_run_done(host, b);
        TwinCall::Same { next: Twins::On { part, records } }
    } else if in_head(a.step) && a.reader.source is Base && records.len() == 0 {
        lemma_twins_part(a, b, part, records, x, y);
        TwinCall::Parted { a, b }
    } else {
        let (a2, b2, next) = lemma_twins_next(host, a, b, part, records, x, y);
        lemma_run_ends(host, a);
        match next {
            Twins::On { part, records } => lemma_twins_run(host, a2, b2, part, records, x, y),
            Twins::Refused => {
                lemma_run_done(host, a2);
                lemma_run_done(host, b2);
                TwinCall::Same { next }
            },
        }
    }
}

} // verus!
