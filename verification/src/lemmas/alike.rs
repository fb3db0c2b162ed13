//! Readers that are alike.

use crate::lemmas::head::{
    head_bytes, in_head, lemma_filled, lemma_scratch_start, lemma_settled, settled, with_head,
};
use crate::lemmas::run::{lemma_calls_end, lemma_run_done, lemma_step};
use crate::read::Pending;
use crate::records::ChunkHeader;
use crate::stream::{
    advance, alike, calls, fitting, patience, run, same_but_for_pace, starting, Config, Host,
};
use vstd::prelude::*;

verus! {

#[verifier::rlimit(30)]
proof fn lemma_alike_await(host1: Host, host2: Host, a: Config, b: Config)
    requires
        same_but_for_pace(host1, host2),
        fitting(a),
        fitting(b),
        alike(a, b),
        a.step is Await,
        !in_head(a.step),
    ensures
        alike(advance(host1, a), advance(host2, b)),
        a.stream.data == b.stream.data ==> advance(host1, a).stream.data == advance(
            host2,
            b,
        ).stream.data,
{
    let pending = a.step->Await_0;
    let available = a.stream.available(a.reader.source);
    match pending {
        Pending::StartMagic => {
            if available.len() >= 8 {
                lemma_scratch_start(a.reader.scratch, available.take(8));
                lemma_scratch_start(b.reader.scratch, available.take(8));
            }
        },
        Pending::EndMagic => {
            if available.len() >= 8 {
                lemma_scratch_start(a.reader.scratch, available.take(8));
                lemma_scratch_start(b.reader.scratch, available.take(8));
            }
        },
        Pending::ChunkHeader { piece, .. } => {
            let len = piece.len() as int;
            if available.len() >= len {
                lemma_filled(a.stream.data, available.take(len));
                lemma_filled(b.stream.data, available.take(len));
            }
        },
        Pending::Body { len, .. } => {
            if available.len() >= len {
                lemma_filled(a.stream.data, available.take(len as int));
                lemma_filled(b.stream.data, available.take(len as int));
            }
        },
        _ => {},
    }
}

pub(crate) proof fn lemma_alike_settled(a: Config, b: Config, reads1: nat, reads2: nat)
    requires
        fitting(a),
        fitting(b),
        alike(a, b),
        in_head(a.step),
        head_bytes(a.step) == 0,
    ensures
        alike(settled(a, reads1), settled(b, reads2)),
        settled(a, reads1).stream.data == a.stream.data,
        settled(b, reads2).stream.data == b.stream.data,
{
    let available = a.stream.available(a.reader.source);
    if available.len() >= 9 {
        let bytes = available.take(9);
        lemma_scratch_start(a.reader.scratch, bytes);
        lemma_scratch_start(b.reader.scratch, bytes);
        let one = with_head(a, 9).scratch;
        let two = with_head(b, 9).scratch;
        assert(one[0] == one.take(9)[0]);
        assert(two[0] == two.take(9)[0]);
        assert(one.subrange(1, 9) =~= one.take(9).subrange(1, 9));
        assert(two.subrange(1, 9) =~= two.take(9).subrange(1, 9));
    }
}

/// A record's first bytes are read from the first one on.
pub(crate) proof fn lemma_next_head(host: Host, from: Config)
    requires
        !in_head(from.step),
    ensures
        head_bytes(advance(host, from).step) == 0,
{
}

/// Alike readers take alike steps.
pub(crate) proof fn lemma_alike_step(host: Host, a: Config, b: Config)
    requires
        fitting(a),
        fitting(b),
        alike(a, b),
        !in_head(a.step),
        !(a.step is Done),
    ensures
        alike(advance(host, a), advance(host, b)),
{
    if a.step is Await {
        lemma_alike_await(host, host, a, b);
    }
}

/// Readers that are alike stay alike, whatever the paces of their hosts.
pub(crate) proof fn lemma_alike_run(host1: Host, host2: Host, a: Config, b: Config)
    requires
        same_but_for_pace(host1, host2),
        fitting(a),
        fitting(b),
        alike(a, b),
        head_bytes(a.step) == 0,
    ensures
        alike(run(host1, a), run(host2, b)),
        a.stream.data == b.stream.data ==> run(host1, a).stream.data == run(
            host2,
            b,
        ).stream.data,
    decreases a.stream.base.len(), patience(a.step), a.stream.chunk.len(),
{
    if a.step is Done {
        lemma_run_done(host1, a);
        lemma_run_done(host2, b);
    } else if in_head(a.step) {
        let reads1 = lemma_settled(host1, a);
        let reads2 = lemma_settled(host2, b);
        lemma_alike_settled(a, b, reads1, reads2);
        lemma_alike_run(host1, host2, settled(a, reads1), settled(b, reads2));
    } else {
        lemma_step(host1, a);
        lemma_step(host2, b);
        if a.step is Await {
            lemma_alike_await(host1, host2, a, b);
        }
        lemma_next_head(host1, a);
        lemma_alike_run(host1, host2, advance(host1, a), advance(host2, b));
    }
}

/// Readers that are alike go on alike.
pub(crate) proof fn lemma_alike_calls(host1: Host, host2: Host, a: Config, b: Config, n: nat)
    requires
        same_but_for_pace(host1, host2),
        a.ready(),
        b.ready(),
        alike(starting(a.reader, a.stream), starting(b.reader, b.stream)),
        n > 0,
    ensures
        alike(calls(host1, a, n), calls(host2, b, n)),
        a.stream.data == b.stream.data ==> calls(host1, a, n).stream.data == calls(
            host2,
            b,
            n,
        ).stream.data,
    decreases n,
{
    let k = (n - 1) as nat;
    let x = calls(host1, a, k);
    let y = calls(host2, b, k);
    if k > 0 {
        lemma_alike_calls(host1, host2, a, b, k);
    } else {
        assert(x == a && y == b);
    }
    lemma_calls_end(host1, a, k);
    lemma_calls_end(host2, b, k);
    lemma_alike_run(host1, host2, starting(x.reader, x.stream), starting(y.reader, y.stream));
}

} // verus!
