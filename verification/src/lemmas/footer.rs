//! The footer and the magic at the end, in any stream.

use crate::error::ErrorView;
use crate::lemmas::head::{
    head_bytes, lemma_filled, lemma_head_advance, lemma_scratch_start, with_head,
};
use crate::lemmas::run::{lemma_calls_end, lemma_run_done, lemma_step};
use crate::read::{Pending, ReaderView, RecordReaderOptions, StepView, RECORD_HEADER_LEN};
use crate::records::op;
use crate::stream::{
    advance, call, calls, fitting, footer_among, fresh, min, patience, run, starting, Config, Host,
    Stream,
};
use crate::MAGIC;
use vstd::prelude::*;

verus! {

/// Whether nothing but a footer that stands in the file by itself makes the reader expect the
/// magic at the end.
pub open spec fn footer_told(config: Config) -> bool {
    let Config { reader, stream, step } = config;
    let started = reader.start_magic_seen || reader.options.skip_start_magic;
    &&& !(reader.source is Base) ==> started && !reader.footer_seen
    &&& reader.footer_seen ==> started
    &&& match step {
        StepView::Await(Pending::StartMagic) => !reader.footer_seen,
        StepView::Await(Pending::EndMagic) => false,
        StepView::Await(Pending::Body { opcode, .. }) => {
            &&& started
            &&& reader.footer_seen == (reader.source is Base && opcode == op::FOOTER)
        },
        StepView::Done(None) => false,
        StepView::Done(Some(Ok(opcode))) => {
            &&& started
            &&& reader.footer_seen == (reader.source is Base && opcode == op::FOOTER)
        },
        StepView::Done(Some(Err(_))) => reader.footer_seen ==> stream.base.len() == 0,
        _ => started && !reader.footer_seen,
    }
}

pub(crate) proof fn lemma_footer_run(host: Host, from: Config)
    requires
        fitting(from),
        !from.reader.options.skip_end_magic,
        footer_told(from),
    ensures
        footer_told(run(host, from)),
    decreases from.stream.base.len(), patience(from.step), from.stream.chunk.len(),
{
    if from.step is Done {
        lemma_run_done(host, from);
    } else {
        lemma_step(host, from);
        assert(footer_told(advance(host, from)));
        lemma_footer_run(host, advance(host, from));
    }
}

/// The magic at the end, or what stands in its place.
pub(crate) proof fn lemma_end_magic(host: Host, from: Config)
    requires
        from.ready(),
        from.reader.first_read() is EndMagic,
    ensures
        ({
            let to = call(host, from);
            let bytes = from.stream.base;
            &&& to.reader == ReaderView { scratch: to.reader.scratch, ..from.reader }
            &&& to.reader.wf()
            &&& to.stream.data == from.stream.data
            &&& to.stream.base == bytes.skip(min(8, bytes.len() as int))
            &&& to.step == if bytes.len() < 8 {
                StepView::Done(Some(Err(ErrorView::Io(host.eof))))
            } else if bytes.take(8) == MAGIC@ {
                StepView::Done(None)
            } else {
                StepView::Done(Some(Err(ErrorView::BadMagic)))
            }
        }),
{
    let c0 = starting(from.reader, from.stream);
    lemma_step(host, c0);
    if from.stream.base.len() >= 8 {
        lemma_scratch_start(from.reader.scratch, from.stream.base.take(8));
    }
    lemma_run_done(host, advance(host, c0));
}

/// What is known of the footer after some records.
pub(crate) proof fn lemma_footer_calls(
    host: Host,
    options: RecordReaderOptions,
    stream: Stream,
    n: nat,
)
    requires
        !options.skip_end_magic,
    ensures
        ({
            let from = fresh(options, stream);
            let to = calls(host, from, n);
            let started = to.reader.start_magic_seen || options.skip_start_magic;
            &&& to.ready()
            &&& to.reader.options == options
            &&& !(to.reader.source is Base) ==> started && !to.reader.footer_seen
            &&& to.reader.footer_seen ==> started && (to.stream.base.len() == 0 || footer_among(
                host,
                from,
                n,
            ))
            &&& n > 0 && to.reader.source is Base && to.step == StepView::Done(
                Some(Ok(op::FOOTER)),
            ) ==> to.reader.footer_seen
        }),
    decreases n,
{
    let from = fresh(options, stream);
    lemma_calls_end(host, from, n);
    if n > 0 {
        let k = (n - 1) as nat;
        let before = calls(host, from, k);
        let to = calls(host, from, n);
        lemma_footer_calls(host, options, stream, k);
        if before.reader.footer_seen {
            lemma_end_magic(host, before);
            if footer_among(host, from, k) {
                let j = choose|j: nat|
                    0 < j <= k && (#[trigger] calls(host, from, j)).step == StepView::Done(
                        Some(Ok(op::FOOTER)),
                    ) && calls(host, from, j).reader.source is Base;
                assert(0 < j <= n);
            }
        } else {
            lemma_footer_run(host, starting(before.reader, before.stream));
        }
    } else {
        assert(calls(host, from, 0) == from);
    }
}

/// Where the reader is in a file, and where it found what it holds.
pub open spec fn placed(file: Seq<u8>, config: Config) -> bool {
    let Config { reader, stream, step } = config;
    let at = file.len() - stream.base.len();
    &&& at >= 0
    &&& stream.base == file.skip(at)
    &&& match step {
        StepView::Await(Pending::RecordHeader { have }) => {
            &&& have <= at
            &&& file.subrange(at - have, at) == reader.scratch.take(have as int)
        },
        StepView::Await(Pending::Body { opcode, .. }) => reader.source is Base ==> {
            &&& 9 <= at
            &&& file[at - 9] == opcode
        },
        StepView::Done(Some(Ok(opcode))) => reader.source is Base ==> {
            let len = stream.data.len();
            &&& 9 + len <= at
            &&& file[at - len - 9] == opcode
            &&& file.subrange(at - len, at) == stream.data
        },
        _ => true,
    }
}

proof fn lemma_placed_head(host: Host, file: Seq<u8>, from: Config)
    requires
        fitting(from),
        placed(file, from),
        from.step matches StepView::Await(pending) && pending is RecordHeader,
    ensures
        placed(file, advance(host, from)),
{
    lemma_head_advance(host, from);
    let have = head_bytes(from.step);
    let base = from.stream.base;
    let at = file.len() - base.len();
    let n = host.given(from.stream.reads, RECORD_HEADER_LEN - have, base.len() as int);
    let next = with_head(from, n);
    assert(base.skip(n) =~= file.skip(at + n));
    assert(next.scratch.take(have + n) =~= from.reader.scratch.take(have) + base.take(n));
    assert(file.subrange(at - have, at + n) =~= file.subrange(at - have, at) + base.take(n));
    if have + n == RECORD_HEADER_LEN {
        assert(next.scratch.take(9)[0] == next.scratch[0]);
        assert(file.subrange(at - have, at + n)[0] == file[at - have]);
    }
}

proof fn lemma_placed_advance(host: Host, file: Seq<u8>, from: Config)
    requires
        fitting(from),
        placed(file, from),
        !(from.step is Done),
    ensures
        placed(file, advance(host, from)),
{
    let base = from.stream.base;
    let at = file.len() - base.len();
    assert forall|n: int| 0 <= n <= base.len() implies #[trigger] base.skip(n) == file.skip(
        at + n,
    ) by {
        assert(base.skip(n) =~= file.skip(at + n));
    }
    let to = advance(host, from);
    let spot = file.len() - to.stream.base.len();
    assert(file.subrange(spot, spot) =~= to.reader.scratch.take(0));
    match from.step {
        StepView::Await(Pending::RecordHeader { .. }) => {
            lemma_placed_head(host, file, from);
        },
        StepView::Await(Pending::Body { len, .. }) => {
            if from.reader.source is Base && base.len() >= len {
                lemma_filled(from.stream.data, base.take(len as int));
                assert(file.subrange(at, at + len) =~= base.take(len as int));
            }
        },
        _ => {},
    }
}

proof fn lemma_placed_run(host: Host, file: Seq<u8>, from: Config)
    requires
        fitting(from),
        placed(file, from),
    ensures
        placed(file, run(host, from)),
    decreases from.stream.base.len(), patience(from.step), from.stream.chunk.len(),
{
    if from.step is Done {
        lemma_run_done(host, from);
    } else {
        lemma_step(host, from);
        lemma_placed_advance(host, file, from);
        lemma_placed_run(host, file, advance(host, from));
    }
}

/// Every record that stands in the file by itself is found where the reader is.
pub(crate) proof fn lemma_placed_calls(host: Host, from: Config, n: nat)
    requires
        from.ready(),
        n > 0,
    ensures
        placed(from.stream.base, calls(host, from, n)),
    decreases n,
{
    let file = from.stream.base;
    let k = (n - 1) as nat;
    let before = calls(host, from, k);
    lemma_calls_end(host, from, k);
    if k > 0 {
        lemma_placed_calls(host, from, k);
    } else {
        assert(before == from);
        assert(file.skip(0) =~= file);
    }
    let c0 = starting(before.reader, before.stream);
    let at = file.len() - before.stream.base.len();
    assert(file.subrange(at, at) =~= before.reader.scratch.take(0));
    lemma_placed_run(host, file, c0);
}

} // verus!
