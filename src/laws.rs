//! Properties of channels over any number of calls, stated on the table
//! model that the operations' contracts use.
use crate::channel::{
    after_close, after_read, after_write, flush_result, read_bytes, read_len, slot, write_result,
    ChannelError,
};
use vstd::prelude::*;

verus! {

/// The bytes of `ws`, one write after another.
pub open spec fn concat(ws: Seq<Seq<u8>>) -> Seq<u8>
    decreases ws.len(),
{
    if ws.len() == 0 {
        Seq::empty()
    } else {
        concat(ws.drop_last()) + ws.last()
    }
}

/// The table after writing each of `ws` to channel `id`, in order.
pub open spec fn after_writes(s: Seq<Option<Seq<u8>>>, id: nat, ws: Seq<Seq<u8>>) -> Seq<
    Option<Seq<u8>>,
>
    decreases ws.len(),
{
    if ws.len() == 0 {
        s
    } else {
        after_write(after_writes(s, id, ws.drop_last()), id, ws.last())
    }
}

/// The table after reads from channel `id` with room for each of `caps`
/// bytes, in order.
pub open spec fn after_reads(s: Seq<Option<Seq<u8>>>, id: nat, caps: Seq<nat>) -> Seq<
    Option<Seq<u8>>,
>
    decreases caps.len(),
{
    if caps.len() == 0 {
        s
    } else {
        after_read(after_reads(s, id, caps.drop_last()), id, caps.last())
    }
}

/// The bytes that those reads hand out, one read after another.
pub open spec fn drained(s: Seq<Option<Seq<u8>>>, id: nat, caps: Seq<nat>) -> Seq<u8>
    decreases caps.len(),
{
    if caps.len() == 0 {
        Seq::empty()
    } else {
        drained(s, id, caps.drop_last()) + read_bytes(
            after_reads(s, id, caps.drop_last()),
            id,
            caps.last(),
        )
    }
}

/// Writes to an open channel append their bytes to its queue, in order.
pub proof fn lemma_writes_append(s: Seq<Option<Seq<u8>>>, id: nat, ws: Seq<Seq<u8>>, q: Seq<u8>)
    requires
        slot(s, id) == Some(q),
    ensures
        slot(after_writes(s, id, ws), id) == Some(q + concat(ws)),
    decreases ws.len(),
{
    if ws.len() == 0 {
        assert(q + concat(ws) =~= q);
    } else {
        lemma_writes_append(s, id, ws.drop_last(), q);
        assert(q + concat(ws.drop_last()) + ws.last() =~= q + concat(ws));
    }
}

/// Round trip: whatever a fresh channel was sent, over any number of writes,
/// comes back whole and in order from one read with room for all of it, and
/// leaves the queue empty.
pub proof fn lemma_round_trip(s: Seq<Option<Seq<u8>>>, id: nat, ws: Seq<Seq<u8>>, cap: nat)
    requires
        slot(s, id) == Some(Seq::<u8>::empty()),
        cap >= concat(ws).len(),
    ensures
        read_len(after_writes(s, id, ws), id, cap) == concat(ws).len(),
        read_bytes(after_writes(s, id, ws), id, cap) == concat(ws),
        slot(after_read(after_writes(s, id, ws), id, cap), id) == Some(Seq::<u8>::empty()),
{
    lemma_writes_append(s, id, ws, Seq::empty());
    let q = Seq::<u8>::empty() + concat(ws);
    assert(q =~= concat(ws));
    assert(q.take(q.len() as int) =~= q);
    assert(q.skip(q.len() as int) =~= Seq::<u8>::empty());
}

/// Once the reader is closed, a write of any bytes fails with `BrokenPipe`
/// and leaves the whole table as it was: nothing is kept anywhere.
pub proof fn lemma_write_after_close(s: Seq<Option<Seq<u8>>>, id: nat, bytes: Seq<u8>)
    ensures
        write_result(after_close(s, id), id, bytes) == Err::<usize, ChannelError>(
            ChannelError::BrokenPipe,
        ),
        after_write(after_close(s, id), id, bytes) == after_close(s, id),
{
}

/// A drained queue stays drained: a read of any size hands out nothing and
/// changes nothing, so every later read returns zero too.
pub proof fn lemma_drained_reads_nothing(s: Seq<Option<Seq<u8>>>, id: nat, cap: nat)
    requires
        slot(s, id) == Some(Seq::<u8>::empty()),
    ensures
        read_len(s, id, cap) == 0,
        read_bytes(s, id, cap) == Seq::<u8>::empty(),
        after_read(s, id, cap) == s,
{
    assert(Seq::<u8>::empty().take(0) =~= Seq::<u8>::empty());
    assert(s.update(id as int, Some(Seq::<u8>::empty().skip(0))) =~= s);
}

/// Flush succeeds while the reader is open, whatever is queued, and fails
/// with `BrokenPipe` once it is closed.
pub proof fn lemma_flush(s: Seq<Option<Seq<u8>>>, id: nat, q: Seq<u8>)
    requires
        slot(s, id) == Some(q),
    ensures
        flush_result(s, id) == Ok::<(), ChannelError>(()),
        flush_result(after_close(s, id), id) == Err::<(), ChannelError>(ChannelError::BrokenPipe),
{
}

/// Reads with no write between them hand out a prefix of the queue, each
/// byte at most once and in order, and leave the rest queued. Once all of it
/// has been handed out, a further read of any size returns zero.
pub proof fn lemma_drain(s: Seq<Option<Seq<u8>>>, id: nat, caps: Seq<nat>, q: Seq<u8>, cap: nat)
    requires
        slot(s, id) == Some(q),
    ensures
        drained(s, id, caps).len() <= q.len(),
        drained(s, id, caps) == q.take(drained(s, id, caps).len() as int),
        slot(after_reads(s, id, caps), id) == Some(q.skip(drained(s, id, caps).len() as int)),
        drained(s, id, caps).len() == q.len() ==> read_len(after_reads(s, id, caps), id, cap) == 0,
    decreases caps.len(),
{
    if caps.len() == 0 {
        assert(q.skip(0) =~= q);
    } else {
        let pre = caps.drop_last();
        lemma_drain(s, id, pre, q, cap);
        let d = drained(s, id, pre).len() as int;
        let t = after_reads(s, id, pre);
        let n = read_len(t, id, caps.last()) as int;
        assert(d + n <= q.len());
        assert(q.skip(d).take(n) =~= q.subrange(d, d + n));
        assert(q.take(d) + q.subrange(d, d + n) =~= q.take(d + n));
        assert(q.skip(d).skip(n) =~= q.skip(d + n));
    }
}

/// A closed reader stays closed: no write, read, close or new channel ever
/// gives a slot back its queue.
pub proof fn lemma_closed_stays_closed(
    s: Seq<Option<Seq<u8>>>,
    id: nat,
    other: nat,
    bytes: Seq<u8>,
    cap: nat,
)
    requires
        id < s.len(),
        slot(s, id) is None,
    ensures
        slot(after_write(s, other, bytes), id) is None,
        slot(after_read(s, other, cap), id) is None,
        slot(after_close(s, other), id) is None,
        slot(s.push(Some(Seq::<u8>::empty())), id) is None,
{
}

} // verus!
