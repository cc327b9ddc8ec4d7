use std::collections::VecDeque;
use vstd::prelude::*;

verus! {

/// The one error of a channel: its reader has been closed.
#[derive(Debug, Clone, Copy, PartialEq, Eq, Structural)]
pub enum ChannelError {
    BrokenPipe,
}

/// The table of byte queues, one slot per channel ever created.
///
/// A slot holds the queue while the channel's reader is open and `None`
/// once the reader has been closed. Slots are never reused.
pub struct Channels {
    queues: Vec<Option<VecDeque<u8>>>,
}

/// Read half of a channel: the handle that owns the channel's queue.
pub struct ReadChannel {
    id: usize,
}

/// Write half of a channel: a handle that can append to the queue while
/// the reader is open, and observe that it has gone.
pub struct WriteChannel {
    id: usize,
}

/// A slot as the model sees it: the bytes of its queue, front first.
spec fn queue_view(q: Option<VecDeque<u8>>) -> Option<Seq<u8>> {
    match q {
        Some(d) => Some(d@),
        None => None,
    }
}

impl View for Channels {
    type V = Seq<Option<Seq<u8>>>;

    closed spec fn view(&self) -> Seq<Option<Seq<u8>>> {
        self.queues@.map_values(|q: Option<VecDeque<u8>>| queue_view(q))
    }
}

impl View for ReadChannel {
    type V = nat;

    closed spec fn view(&self) -> nat {
        self.id as nat
    }
}

impl View for WriteChannel {
    type V = nat;

    closed spec fn view(&self) -> nat {
        self.id as nat
    }
}

/// The queue of channel `id` in table state `s`: `None` once its reader has
/// been closed, or where no such channel was created.
pub open spec fn slot(s: Seq<Option<Seq<u8>>>, id: nat) -> Option<Seq<u8>> {
    if id < s.len() {
        s[id as int]
    } else {
        None
    }
}

/// How many bytes a read with room for `cap` bytes takes from channel `id`:
/// all that is queued, up to `cap`; none once the reader is closed.
pub open spec fn read_len(s: Seq<Option<Seq<u8>>>, id: nat, cap: nat) -> nat {
    match slot(s, id) {
        Some(q) => if q.len() < cap { q.len() } else { cap },
        None => 0,
    }
}

/// The bytes such a read hands out: the front of the queue, in order.
pub open spec fn read_bytes(s: Seq<Option<Seq<u8>>>, id: nat, cap: nat) -> Seq<u8> {
    match slot(s, id) {
        Some(q) => q.take(read_len(s, id, cap) as int),
        None => Seq::empty(),
    }
}

/// The table after such a read: the bytes handed out leave the queue.
pub open spec fn after_read(s: Seq<Option<Seq<u8>>>, id: nat, cap: nat) -> Seq<
    Option<Seq<u8>>,
> {
    match slot(s, id) {
        Some(q) => s.update(id as int, Some(q.skip(read_len(s, id, cap) as int))),
        None => s,
    }
}

/// The table after a write of `bytes` to channel `id`: appended at the back
/// while the reader is open, unchanged otherwise.
pub open spec fn after_write(s: Seq<Option<Seq<u8>>>, id: nat, bytes: Seq<u8>) -> Seq<
    Option<Seq<u8>>,
> {
    match slot(s, id) {
        Some(q) => s.update(id as int, Some(q + bytes)),
        None => s,
    }
}

/// What a write of `bytes` to channel `id` returns: their number while the
/// reader is open, `BrokenPipe` once it is closed.
pub open spec fn write_result(s: Seq<Option<Seq<u8>>>, id: nat, bytes: Seq<u8>) -> Result<
    usize,
    ChannelError,
> {
    match slot(s, id) {
        Some(_) => Ok(bytes.len() as usize),
        None => Err(ChannelError::BrokenPipe),
    }
}

/// What a flush of channel `id` returns: success while the reader is open,
/// `BrokenPipe` once it is closed.
pub open spec fn flush_result(s: Seq<Option<Seq<u8>>>, id: nat) -> Result<(), ChannelError> {
    match slot(s, id) {
        Some(_) => Ok(()),
        None => Err(ChannelError::BrokenPipe),
    }
}

/// The table after the reader of channel `id` is closed: its queue is gone.
pub open spec fn after_close(s: Seq<Option<Seq<u8>>>, id: nat) -> Seq<Option<Seq<u8>>> {
    if id < s.len() {
        s.update(id as int, None)
    } else {
        s
    }
}

impl Channels {
    /// An empty table.
    pub fn new() -> (r: Channels)
        ensures
            r@ == Seq::<Option<Seq<u8>>>::empty(),
    {
        let r = Channels { queues: Vec::new() };
        assert(r@ =~= Seq::<Option<Seq<u8>>>::empty());
        r
    }
}

/// Creates a channel: a new empty queue in `chans`, with its reader and its
/// writer. The new slot comes after every existing one.
pub fn new_io_channel(chans: &mut Channels) -> (r: (ReadChannel, WriteChannel))
    ensures
        final(chans)@ == old(chans)@.push(Some(Seq::<u8>::empty())),
        r.0@ == old(chans)@.len(),
        r.1@ == old(chans)@.len(),
{
    let id: usize = chans.queues.len();
    chans.queues.push(Some(VecDeque::new()));
    assert(final(chans)@ =~= old(chans)@.push(Some(Seq::<u8>::empty())));
    (ReadChannel { id }, WriteChannel { id })
}

impl ReadChannel {
    /// Moves up to `buf.len()` bytes from the front of the queue into the
    /// front of `buf`, and returns how many. Never fails: an empty queue, or
    /// one whose writer is gone, gives `Ok(0)`.
    pub fn read(&mut self, chans: &mut Channels, buf: &mut [u8]) -> (r: Result<usize, ChannelError>)
        ensures
            *final(self) == *old(self),
            r == Ok::<usize, ChannelError>(read_len(old(chans)@, old(self)@, old(buf)@.len()) as usize),
            final(buf)@ == read_bytes(old(chans)@, old(self)@, old(buf)@.len()) + old(buf)@.skip(
                read_len(old(chans)@, old(self)@, old(buf)@.len()) as int,
            ),
            final(chans)@ == after_read(old(chans)@, old(self)@, old(buf)@.len()),
    {
        let id = self.id;
        if id >= chans.queues.len() {
            assert(buf@.skip(0) =~= buf@);
            return Ok(0);
        }
        let ghost s0 = chans@;
        let ghost b0 = buf@;
        let taken = chans.queues[id].take();
        match taken {
            None => {
                proof {
                    assert(chans@ =~= s0);
                    assert(buf@.skip(0) =~= buf@);
                }
                Ok(0)
            },
            Some(mut q) => {
                let ghost q0 = q@;
                let n: usize = if q.len() < buf.len() { q.len() } else { buf.len() };
                let mut i: usize = 0;
                while i < n
                    invariant
                        n <= q0.len(),
                        n <= b0.len(),
                        i <= n,
                        buf@.len() == b0.len(),
                        q@ == q0.skip(i as int),
                        forall|k: int| 0 <= k < i ==> buf@[k] == q0[k],
                        forall|k: int| i <= k < b0.len() ==> buf@[k] == b0[k],
                    decreases n - i,
                {
                    match q.pop_front() {
                        Some(x) => {
                            buf[i] = x;
                        },
                        None => {},
                    }
                    i = i + 1;
                }
                chans.queues.set(id, Some(q));
                proof {
                    assert(buf@ =~= q0.take(n as int) + b0.skip(n as int));
                    assert(chans@ =~= s0.update(id as int, Some(q0.skip(n as int))));
                }
                Ok(n)
            },
        }
    }

    /// Closes the reader: its queue is freed, and from now on the writer of
    /// the same channel fails with `BrokenPipe`.
    pub fn close(self, chans: &mut Channels)
        ensures
            final(chans)@ == after_close(old(chans)@, self@),
    {
        if self.id < chans.queues.len() {
            chans.queues.set(self.id, None);
            assert(chans@ =~= old(chans)@.update(self.id as int, None));
        }
    }
}

impl WriteChannel {
    /// Appends all of `bytes` to the back of the queue and returns their
    /// number, or fails with `BrokenPipe`, writing nothing, once the reader
    /// is closed.
    pub fn write(&mut self, chans: &mut Channels, bytes: &[u8]) -> (r: Result<usize, ChannelError>)
        ensures
            *final(self) == *old(self),
            final(chans)@ == after_write(old(chans)@, old(self)@, bytes@),
            r == write_result(old(chans)@, old(self)@, bytes@),
    {
        let id = self.id;
        if id >= chans.queues.len() {
            return Err(ChannelError::BrokenPipe);
        }
        let ghost s0 = chans@;
        let taken = chans.queues[id].take();
        match taken {
            None => {
                assert(chans@ =~= s0);
                Err(ChannelError::BrokenPipe)
            },
            Some(mut q) => {
                let ghost q0 = q@;
                let mut i: usize = 0;
                while i < bytes.len()
                    invariant
                        i <= bytes@.len(),
                        q@ == q0 + bytes@.take(i as int),
                    decreases bytes@.len() - i,
                {
                    q.push_back(bytes[i]);
                    i = i + 1;
                    assert(bytes@.take(i as int) =~= bytes@.take(i - 1) + seq![bytes@[i - 1]]);
                }
                assert(bytes@.take(i as int) =~= bytes@);
                chans.queues.set(id, Some(q));
                assert(chans@ =~= s0.update(id as int, Some(q0 + bytes@)));
                Ok(bytes.len())
            },
        }
    }

    /// Succeeds while the reader is open, whatever is queued; fails with
    /// `BrokenPipe` once it is closed. There is nothing buffered to push.
    pub fn flush(&mut self, chans: &Channels) -> (r: Result<(), ChannelError>)
        ensures
            *final(self) == *old(self),
            r == flush_result(chans@, old(self)@),
    {
        if self.id < chans.queues.len() {
            match &chans.queues[self.id] {
                Some(_) => Ok(()),
                None => Err(ChannelError::BrokenPipe),
            }
        } else {
            Err(ChannelError::BrokenPipe)
        }
    }
}

} // verus!
