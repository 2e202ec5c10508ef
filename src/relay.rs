use vstd::prelude::*;

use crate::target::ProxyError;

verus! {

/// Copies `b[from..to]` into a new vector.
fn copy_range(b: &[u8], from: usize, to: usize) -> (r: Vec<u8>)
    requires
        from <= to <= b@.len(),
    ensures
        r@ == b@.subrange(from as int, to as int),
{
    let mut out: Vec<u8> = Vec::new();
    let mut i: usize = from;
    while i < to
        invariant
            from <= i <= to,
            to <= b@.len(),
            out@ == b@.subrange(from as int, i as int),
        decreases to - i,
    {
        out.push(b[i]);
        i = i + 1;
        assert(out@ =~= b@.subrange(from as int, i as int));
    }
    out
}

// ---------------------------------------------------------------- response side

/// The pull side of a relayed response body: at most one upstream chunk is
/// held, with the position of the next byte to hand out.
pub struct StreamCursor {
    current_chunk: Option<Vec<u8>>,
    chunk_pos: usize,
}

/// What one read of the cursor gives.
#[derive(Debug)]
pub enum PullStep {
    /// Bytes for the reader's buffer.
    Filled(Vec<u8>),
    /// The held chunk is used up: the next upstream chunk is wanted.
    NeedChunk,
}

/// The bytes that one read with `room` free bytes hands out of `pending`.
pub open spec fn read_amount(pending: Seq<u8>, room: nat) -> nat {
    if room < pending.len() {
        room
    } else {
        pending.len()
    }
}

/// The bytes that a reader with `room` free bytes per read receives from a
/// cursor holding `pending`, while upstream still has `chunks` to give.
pub open spec fn relay_output(pending: Seq<u8>, chunks: Seq<Seq<u8>>, room: nat) -> Seq<u8>
    decreases chunks.len(), pending.len(),
{
    if room == 0 {
        Seq::empty()
    } else if pending.len() > 0 {
        let n = read_amount(pending, room);
        pending.take(n as int) + relay_output(pending.skip(n as int), chunks, room)
    } else if chunks.len() > 0 {
        relay_output(chunks[0], chunks.drop_first(), room)
    } else {
        Seq::empty()
    }
}

impl StreamCursor {
    pub closed spec fn wf(&self) -> bool {
        self.current_chunk matches Some(c) ==> self.chunk_pos <= c@.len()
    }

    /// The bytes of the held chunk that are still to be read.
    pub closed spec fn pending(&self) -> Seq<u8> {
        match self.current_chunk {
            Some(c) => c@.skip(self.chunk_pos as int),
            None => Seq::empty(),
        }
    }

    /// A cursor that holds nothing yet.
    pub fn new() -> (r: StreamCursor)
        ensures
            r.wf(),
            r.pending() == Seq::<u8>::empty(),
    {
        StreamCursor { current_chunk: None, chunk_pos: 0 }
    }

    /// One read into a buffer with `room` free bytes: the next bytes of the
    /// held chunk, as many as fit; or, once it is used up, a request for the
    /// next upstream chunk.
    pub fn poll_read(&mut self, room: usize) -> (r: PullStep)
        requires
            old(self).wf(),
        ensures
            final(self).wf(),
            old(self).pending().len() > 0 ==> (r matches PullStep::Filled(b) && b@ == old(self).pending().take(read_amount(old(self).pending(), room as nat) as int) && final(self).pending() == old(self).pending().skip(b@.len() as int)),
            old(self).pending().len() == 0 ==> (r is NeedChunk && final(self).pending() == Seq::<u8>::empty()),
    {
        let taken = self.current_chunk.take();
        match taken {
            Some(chunk) => {
                let len = chunk.len();
                if self.chunk_pos < len {
                    let left = len - self.chunk_pos;
                    let n = if room < left {
                        room
                    } else {
                        left
                    };
                    let end = self.chunk_pos + n;
                    let out = copy_range(chunk.as_slice(), self.chunk_pos, end);
                    proof {
                        assert(out@ =~= old(self).pending().take(n as int));
                        assert(chunk@.skip(end as int) =~= old(self).pending().skip(n as int));
                    }
                    self.chunk_pos = end;
                    self.current_chunk = Some(chunk);
                    PullStep::Filled(out)
                } else {
                    self.chunk_pos = 0;
                    PullStep::NeedChunk
                }
            },
            None => {
                self.chunk_pos = 0;
                PullStep::NeedChunk
            },
        }
    }

    /// Takes the next upstream chunk; it is read from its first byte.
    pub fn accept_chunk(&mut self, chunk: Vec<u8>)
        ensures
            final(self).wf(),
            final(self).pending() == chunk@,
    {
        self.current_chunk = Some(chunk);
        self.chunk_pos = 0;
        assert(chunk@.skip(0) =~= chunk@);
    }
}

/// Whatever the chunk sizes and however small the reader's buffer (but not
/// empty), the reader receives exactly the upstream bytes, in order, with
/// nothing lost or repeated.
pub proof fn lemma_relay_reproduces(pending: Seq<u8>, chunks: Seq<Seq<u8>>, room: nat)
    requires
        room > 0,
    ensures
        relay_output(pending, chunks, room) == pending + chunks.flatten(),
    decreases chunks.len(), pending.len(),
{
    if pending.len() > 0 {
        let n = read_amount(pending, room);
        lemma_relay_reproduces(pending.skip(n as int), chunks, room);
        assert(pending.take(n as int) + (pending.skip(n as int) + chunks.flatten()) =~= pending
            + chunks.flatten());
    } else if chunks.len() > 0 {
        lemma_relay_reproduces(chunks[0], chunks.drop_first(), room);
        assert(pending + chunks.flatten() =~= chunks.flatten());
    } else {
        assert(pending + chunks.flatten() =~= Seq::<u8>::empty());
    }
}

pub open spec fn chunk_views(chunks: Seq<Vec<u8>>) -> Seq<Seq<u8>> {
    chunks.map_values(|c: Vec<u8>| c@)
}

/// Reads a whole upstream body through a cursor, `room` bytes at most per
/// read, feeding the chunks in order whenever the cursor asks for one.
pub fn relay_all(chunks: Vec<Vec<u8>>, room: usize) -> (r: Vec<u8>)
    requires
        room > 0,
    ensures
        r@ == relay_output(Seq::empty(), chunk_views(chunks@), room as nat),
        r@ == chunk_views(chunks@).flatten(),
{
    let ghost all = chunk_views(chunks@);
    let mut cursor = StreamCursor::new();
    let mut out: Vec<u8> = Vec::new();
    let mut next: usize = 0;
    proof {
        assert(all.skip(0) =~= all);
    }
    while true
        invariant
            cursor.wf(),
            next <= chunks@.len(),
            room > 0,
            all == chunk_views(chunks@),
            relay_output(Seq::empty(), all, room as nat) == out@ + relay_output(
                cursor.pending(),
                all.skip(next as int),
                room as nat,
            ),
        ensures
            relay_output(Seq::empty(), all, room as nat) == out@,
        decreases chunks@.len() - next, cursor.pending().len(),
    {
        let ghost before = cursor.pending();
        match cursor.poll_read(room) {
            PullStep::Filled(b) => {
                proof {
                    assert(out@ + b@ + relay_output(cursor.pending(), all.skip(next as int), room as nat)
                        =~= out@ + (b@ + relay_output(cursor.pending(), all.skip(next as int), room as nat)));
                }
                let mut i: usize = 0;
                let ghost out0 = out@;
                while i < b.len()
                    invariant
                        i <= b@.len(),
                        out@ == out0 + b@.take(i as int),
                    decreases b@.len() - i,
                {
                    out.push(b[i]);
                    i = i + 1;
                    assert(out@ =~= out0 + b@.take(i as int));
                }
                assert(b@.take(b@.len() as int) =~= b@);
            },
            PullStep::NeedChunk => {
                if next == chunks.len() {
                    assert(all.skip(next as int) =~= Seq::<Seq<u8>>::empty());
                    assert(out@ + Seq::<u8>::empty() =~= out@);
                    break;
                }
                let c = chunks[next].clone();
                proof {
                    assert(all.skip(next as int).drop_first() =~= all.skip(next + 1));
                    assert(out@ + Seq::<u8>::empty() =~= out@);
                }
                cursor.accept_chunk(c);
                next = next + 1;
            },
        }
    }
    proof {
        lemma_relay_reproduces(Seq::empty(), all, room as nat);
        assert(Seq::<u8>::empty() + all.flatten() =~= all.flatten());
    }
    out
}

// ---------------------------------------------------------------- request side

/// A request body gathered chunk by chunk before anything is sent, never
/// longer than its limit.
pub struct BodyBuffer {
    data: Vec<u8>,
    limit: usize,
}

/// The body that absorbing `chunks` in order gathers under `limit`, or
/// `None` once one chunk would take it over the limit.
pub open spec fn collected(limit: nat, chunks: Seq<Seq<u8>>) -> Option<Seq<u8>>
    decreases chunks.len(),
{
    if chunks.len() == 0 {
        Some(Seq::empty())
    } else {
        match collected(limit, chunks.drop_last()) {
            Some(b) => if b.len() + chunks.last().len() <= limit {
                Some(b + chunks.last())
            } else {
                None
            },
            None => None,
        }
    }
}

impl BodyBuffer {
    pub closed spec fn wf(&self) -> bool {
        self.data@.len() <= self.limit
    }

    /// The bytes gathered so far.
    pub closed spec fn bytes(&self) -> Seq<u8> {
        self.data@
    }

    pub closed spec fn spec_limit(&self) -> nat {
        self.limit as nat
    }

    /// An empty body that may grow to `limit` bytes.
    pub fn new(limit: usize) -> (r: BodyBuffer)
        ensures
            r.wf(),
            r.bytes() == Seq::<u8>::empty(),
            r.spec_limit() == limit,
    {
        BodyBuffer { data: Vec::new(), limit }
    }

    /// Adds the next chunk of the body, or refuses the body as too large
    /// when the chunk would take it over the limit.
    pub fn absorb(&mut self, chunk: &[u8]) -> (r: Result<(), ProxyError>)
        requires
            old(self).wf(),
        ensures
            final(self).wf(),
            final(self).spec_limit() == old(self).spec_limit(),
            r is Ok <==> old(self).bytes().len() + chunk@.len() <= old(self).spec_limit(),
            r is Ok ==> final(self).bytes() == old(self).bytes() + chunk@,
            r is Err ==> final(self).bytes() == old(self).bytes(),
            r matches Err(e) ==> e == ProxyError::PayloadTooLarge,
    {
        if chunk.len() > self.limit - self.data.len() {
            return Err(ProxyError::PayloadTooLarge);
        }
        let mut i: usize = 0;
        let ghost d0 = self.data@;
        while i < chunk.len()
            invariant
                i <= chunk@.len(),
                self.limit == old(self).limit,
                d0 == old(self).data@,
                d0.len() + chunk@.len() <= self.limit,
                self.data@ == d0 + chunk@.take(i as int),
            decreases chunk@.len() - i,
        {
            self.data.push(chunk[i]);
            i = i + 1;
            assert(self.data@ =~= d0 + chunk@.take(i as int));
        }
        assert(chunk@.take(chunk@.len() as int) =~= chunk@);
        Ok(())
    }

    /// The gathered body.
    pub fn into_bytes(self) -> (r: Vec<u8>)
        ensures
            r@ == self.bytes(),
    {
        self.data
    }
}

/// Absorbing chunks in order keeps the whole body exactly when it fits the
/// limit, and refuses it exactly when it does not.
pub proof fn lemma_body_limit(limit: nat, chunks: Seq<Seq<u8>>)
    ensures
        collected(limit, chunks) == if chunks.flatten().len() <= limit {
            Some(chunks.flatten())
        } else {
            None::<Seq<u8>>
        },
    decreases chunks.len(),
{
    if chunks.len() > 0 {
        let init = chunks.drop_last();
        lemma_body_limit(limit, init);
        assert(init.push(chunks.last()) =~= chunks);
        init.lemma_flatten_push(chunks.last());
        if init.flatten().len() > limit {
            assert(chunks.flatten().len() > limit);
        }
    }
}

} // verus!
