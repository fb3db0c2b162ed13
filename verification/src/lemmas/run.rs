//! Steps, runs and calls: that they end, and what follows what.

use crate::chunk_header::Piece;
use crate::read::{Pending, StepView};
use crate::stream::{
    advance, call, calls, fitting, patience, reads, run, starting, yields, Config, Host, RawRecord,
};
use vstd::prelude::*;

verus! {

/// Whether `to` has fewer bytes of the base reader to go through, or fewer kinds of step before
/// that, or fewer bytes of the chunk.
pub open spec fn nearer(to: Config, from: Config) -> bool {
    ||| to.stream.base.len() < from.stream.base.len()
    ||| {
        &&& to.stream.base.len() == from.stream.base.len()
        &&& patience(to.step) < patience(from.step)
    }
    ||| {
        &&& to.stream.base.len() == from.stream.base.len()
        &&& patience(to.step) == patience(from.step)
        &&& to.stream.chunk.len() < from.stream.chunk.len()
    }
}

#[verifier::rlimit(30)]
proof fn lemma_await(host: Host, from: Config)
    requires
        fitting(from),
        from.step is Await,
    ensures
        fitting(advance(host, from)),
        nearer(advance(host, from), from),
{
    let pending = from.step->Await_0;
    let (reader, stream, read) = host.after_request(from.reader, from.stream, pending.request());
    assert(reader.wf());
    match pending {
        Pending::StartMagic => {},
        Pending::EndMagic => {},
        Pending::RecordHeader { .. } => {},
        Pending::ChunkRecordHeader { .. } => {},
        Pending::ChunkHeader { record_len, piece } => {
            assert(reader == from.reader);
            match piece {
                Piece::Fixed => {},
                Piece::Compression { .. } => {},
                Piece::Overlong { .. } => {},
                Piece::Size { .. } => {},
            }
        },
        Pending::Body { .. } => {},
        Pending::Discard { .. } => {},
    }
}

/// A step leads on, and the end of the record comes nearer.
pub(crate) proof fn lemma_step(host: Host, from: Config)
    requires
        fitting(from),
        !(from.step is Done),
    ensures
        run(host, from) == run(host, advance(host, from)),
        fitting(advance(host, from)),
        nearer(advance(host, from), from),
{
    reveal(run);
    if from.step is Await {
        lemma_await(host, from);
    }
}

/// A record that was read has been read.
pub(crate) proof fn lemma_run_done(host: Host, config: Config)
    requires
        fitting(config),
        config.step is Done,
    ensures
        run(host, config) == config,
{
    reveal(run);
}

/// Reading a record ends with an outcome.
pub(crate) proof fn lemma_run_ends(host: Host, from: Config)
    requires
        fitting(from),
    ensures
        run(host, from).step is Done,
        fitting(run(host, from)),
        run(host, from).reader.options == from.reader.options,
        from.reader.start_magic_seen ==> run(host, from).reader.start_magic_seen,
        from.reader.footer_seen ==> run(host, from).reader.footer_seen,
    decreases from.stream.base.len(), patience(from.step), from.stream.chunk.len(),
{
    if !(from.step is Done) {
        lemma_step(host, from);
        lemma_run_ends(host, advance(host, from));
    } else {
        lemma_run_done(host, from);
    }
}

/// A reader that leaves chunks alone keeps the base reader.
pub(crate) proof fn lemma_outside_run(host: Host, from: Config)
    requires
        fitting(from),
        from.reader.source is Base,
        from.reader.options.emit_chunks,
        from.step matches StepView::Await(pending) ==> {
            &&& !(pending is ChunkHeader)
            &&& !(pending is Discard)
        },
    ensures
        run(host, from).reader.source is Base,
    decreases from.stream.base.len(), patience(from.step), from.stream.chunk.len(),
{
    if from.step is Done {
        lemma_run_done(host, from);
    } else {
        lemma_step(host, from);
        lemma_outside_run(host, advance(host, from));
    }
}

/// Without the magic, the end is where the stream ends.
pub(crate) proof fn lemma_end_run(host: Host, from: Config)
    requires
        fitting(from),
        from.reader.options.skip_end_magic,
        from.step matches StepView::Await(pending) ==> !(pending is EndMagic),
        from.ended() ==> from.stream.base.len() == 0 && from.reader.source is Base,
    ensures
        run(host, from).ended() ==> {
            &&& run(host, from).stream.base.len() == 0
            &&& run(host, from).reader.source is Base
        },
    decreases from.stream.base.len(), patience(from.step), from.stream.chunk.len(),
{
    if from.step is Done {
        lemma_run_done(host, from);
    } else {
        lemma_step(host, from);
        lemma_end_run(host, advance(host, from));
    }
}

pub(crate) proof fn lemma_calls_end(host: Host, from: Config, n: nat)
    requires
        from.ready(),
    ensures
        calls(host, from, n).ready(),
        n > 0 ==> calls(host, from, n).step is Done,
        calls(host, from, n).reader.options == from.reader.options,
        from.reader.start_magic_seen ==> calls(host, from, n).reader.start_magic_seen,
        from.reader.footer_seen ==> calls(host, from, n).reader.footer_seen,
    decreases n,
{
    if n > 0 {
        let before = calls(host, from, (n - 1) as nat);
        lemma_calls_end(host, from, (n - 1) as nat);
        lemma_run_ends(host, starting(before.reader, before.stream));
    }
}

/// The first call can be told from the others.
pub(crate) proof fn lemma_calls_shift(host: Host, from: Config, n: nat)
    requires
        n > 0,
    ensures
        calls(host, from, n) == calls(host, call(host, from), (n - 1) as nat),
    decreases n,
{
    if n > 1 {
        lemma_calls_shift(host, from, (n - 1) as nat);
    } else {
        assert(calls(host, from, 0) == from);
        assert(calls(host, from, 1) == call(host, from));
        assert(calls(host, call(host, from), 0) == call(host, from));
    }
}

/// What comes after `a` calls and then `b` calls comes after all of them.
pub(crate) proof fn lemma_calls_add(host: Host, from: Config, a: nat, b: nat)
    ensures
        calls(host, from, a + b) == calls(host, calls(host, from, a), b),
    decreases b,
{
    if b > 0 {
        lemma_calls_add(host, from, a, (b - 1) as nat);
    }
}

/// What the next record is decides what the others are.
pub(crate) proof fn lemma_calls_same(host: Host, a: Config, b: Config, n: nat)
    requires
        call(host, a) == call(host, b),
        n > 0,
    ensures
        calls(host, a, n) == calls(host, b, n),
{
    lemma_calls_shift(host, a, n);
    lemma_calls_shift(host, b, n);
}

pub(crate) proof fn lemma_yields_none(host: Host, from: Config, to: Config)
    requires
        call(host, from) == call(host, to),
    ensures
        yields(host, from, seq![], to),
{
    assert(calls(host, from, 0) == from);
}

pub(crate) proof fn lemma_yields_one(host: Host, from: Config, record: RawRecord)
    requires
        call(host, from).yielded(record),
    ensures
        yields(host, from, seq![record], call(host, from)),
{
    assert(calls(host, from, 0) == from);
    assert(calls(host, from, 1) == call(host, from));
}

/// Records that follow records.
pub(crate) proof fn lemma_yields_add(
    host: Host,
    from: Config,
    records1: Seq<RawRecord>,
    mid: Config,
    records2: Seq<RawRecord>,
    to: Config,
)
    requires
        yields(host, from, records1, mid),
        yields(host, mid, records2, to),
    ensures
        yields(host, from, records1 + records2, to),
{
    let n = records1.len();
    let all = records1 + records2;
    let last = calls(host, from, n);
    assert forall|k: nat| 0 < k <= all.len() implies (#[trigger] calls(host, from, k)).yielded(
        all[k - 1],
    ) by {
        if k > n {
            lemma_calls_add(host, from, n, (k - n) as nat);
            lemma_calls_same(host, last, mid, (k - n) as nat);
        }
    }
    let m = records2.len();
    lemma_calls_add(host, from, n, m);
    if m > 0 {
        lemma_calls_same(host, last, mid, m);
    } else {
        assert(calls(host, last, 0) == last);
        assert(calls(host, mid, 0) == mid);
    }
}

/// Records that are all there is after records.
pub(crate) proof fn lemma_reads_add(
    host: Host,
    from: Config,
    records1: Seq<RawRecord>,
    mid: Config,
    records2: Seq<RawRecord>,
)
    requires
        yields(host, from, records1, mid),
        reads(host, mid, records2),
    ensures
        reads(host, from, records1 + records2),
{
    let end = calls(host, mid, records2.len());
    assert(yields(host, mid, records2, end));
    lemma_yields_add(host, from, records1, mid, records2, end);
}

} // verus!
