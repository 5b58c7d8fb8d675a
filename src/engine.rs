use vstd::prelude::*;
use crate::model::DownloadError;

verus! {

/// Length in bytes of the opaque region that precedes the audio payload.
pub const HEADER_LEN: usize = 167;

/// Largest number of bytes that one read, and so one chunk, can hold.
pub const CHUNK_LEN: usize = 65536;

/// Where the relay of one file stands.
#[derive(Clone, Copy, Debug, PartialEq, Eq, Structural)]
pub enum EngineState {
    /// The header has still to be read and discarded.
    HeaderSkip,
    /// Payload is being read and handed out chunk by chunk.
    Streaming,
    /// The source ended cleanly.
    Done,
    /// The relay stopped on an error; nothing more is read.
    Failed(DownloadError),
}

impl EngineState {
    /// Reads are still to be made.
    pub open spec fn is_active(self) -> bool {
        self is HeaderSkip || self is Streaming
    }
}

/// What one read from the decrypting reader came to.
pub enum ReadOutcome {
    /// The read put `n` bytes at the front of `buf`; `n == 0` is the end of
    /// the source.
    Filled { buf: Vec<u8>, n: usize },
    /// The source ended before the buffer could be filled completely.
    UnexpectedEnd,
    /// The read failed.
    Failed,
}

/// A read as the relay sees it: the bytes it yielded, or how it failed.
pub ghost enum ReadEvent {
    Bytes(Seq<u8>),
    Ended,
    Error,
}

impl ReadOutcome {
    pub open spec fn event(&self) -> ReadEvent {
        match self {
            ReadOutcome::Filled { buf, n } => ReadEvent::Bytes(buf@.subrange(0, *n as int)),
            ReadOutcome::UnexpectedEnd => ReadEvent::Ended,
            ReadOutcome::Failed => ReadEvent::Error,
        }
    }
}

/// One step of the relay: the next state, and the chunks handed out (none or one).
pub open spec fn feed(st: EngineState, ev: ReadEvent) -> (EngineState, Seq<Seq<u8>>) {
    match st {
        EngineState::HeaderSkip => match ev {
            ReadEvent::Bytes(b) => if b.len() == HEADER_LEN {
                (EngineState::Streaming, Seq::empty())
            } else {
                (EngineState::Failed(DownloadError::TruncatedHeader), Seq::empty())
            },
            ReadEvent::Ended => (EngineState::Failed(DownloadError::TruncatedHeader), Seq::empty()),
            ReadEvent::Error => (EngineState::Failed(DownloadError::StreamReadFailed), Seq::empty()),
        },
        EngineState::Streaming => match ev {
            ReadEvent::Bytes(b) => if b.len() == 0 {
                (EngineState::Done, Seq::empty())
            } else {
                (EngineState::Streaming, seq![b])
            },
            _ => (EngineState::Failed(DownloadError::StreamReadFailed), Seq::empty()),
        },
        _ => (st, Seq::empty()),
    }
}

/// The state reached, and every chunk handed out in order, after the reads
/// `evs` of a fresh relay.
pub open spec fn run(evs: Seq<ReadEvent>) -> (EngineState, Seq<Seq<u8>>)
    decreases evs.len(),
{
    if evs.len() == 0 {
        (EngineState::HeaderSkip, Seq::empty())
    } else {
        let prev = run(evs.drop_last());
        let step = feed(prev.0, evs.last());
        (step.0, prev.1 + step.1)
    }
}

/// The reads that yield the byte strings `reads`, one each.
pub open spec fn data_events(reads: Seq<Seq<u8>>) -> Seq<ReadEvent> {
    reads.map_values(|b: Seq<u8>| ReadEvent::Bytes(b))
}

/// `reads` could be what successive reads of the payload yielded: none empty,
/// none longer than a chunk.
pub open spec fn valid_reads(reads: Seq<Seq<u8>>) -> bool {
    forall|i: int| 0 <= i < reads.len() ==> 0 < #[trigger] reads[i].len() <= CHUNK_LEN
}

/// Relays the decrypted content of one encrypted file: discards the header,
/// then hands out each read as a chunk until the source ends or a read fails.
pub struct RelayEngine {
    state: EngineState,
}

impl View for RelayEngine {
    type V = EngineState;

    closed spec fn view(&self) -> EngineState {
        self.state
    }
}

impl RelayEngine {
    /// A relay that has read nothing yet.
    pub fn new() -> (r: RelayEngine)
        ensures
            r@ == EngineState::HeaderSkip,
    {
        RelayEngine { state: EngineState::HeaderSkip }
    }

    pub fn state(&self) -> (r: EngineState)
        ensures
            r == self@,
    {
        self.state
    }

    /// No more reads are to be made.
    pub fn is_finished(&self) -> (r: bool)
        ensures
            r == !self@.is_active(),
    {
        match self.state {
            EngineState::HeaderSkip => false,
            EngineState::Streaming => false,
            _ => true,
        }
    }

    /// A fresh zeroed buffer for the next read: the whole header while it is
    /// being skipped, one chunk's worth afterwards.
    pub fn read_buffer(&self) -> (buf: Vec<u8>)
        requires
            self@.is_active(),
        ensures
            buf@.len() == (if self@ is HeaderSkip { HEADER_LEN } else { CHUNK_LEN }),
            forall|i: int| 0 <= i < buf@.len() ==> #[trigger] buf@[i] == 0,
    {
        let len: usize = if self.is_header_pending() { HEADER_LEN } else { CHUNK_LEN };
        let mut buf: Vec<u8> = Vec::with_capacity(len);
        let mut i: usize = 0;
        while i < len
            invariant
                i <= len,
                buf@.len() == i,
                forall|j: int| 0 <= j < i ==> #[trigger] buf@[j] == 0,
            decreases len - i,
        {
            buf.push(0u8);
            i = i + 1;
        }
        buf
    }

    fn is_header_pending(&self) -> (r: bool)
        ensures
            r == (self@ is HeaderSkip),
    {
        match self.state {
            EngineState::HeaderSkip => true,
            _ => false,
        }
    }

    /// Takes the outcome of the read asked for and moves on. Returns the chunk
    /// to hand to the consumer, if the read yielded one, and the error that
    /// stopped the relay, if it stopped on one.
    pub fn on_read(&mut self, outcome: ReadOutcome) -> (r: Result<Option<Vec<u8>>, DownloadError>)
        requires
            old(self)@.is_active(),
            outcome matches ReadOutcome::Filled { buf, n } ==> n <= buf@.len(),
        ensures
            final(self)@ == feed(old(self)@, outcome.event()).0,
            match r {
                Ok(Some(c)) => feed(old(self)@, outcome.event()).1 == seq![c@],
                Ok(None) => feed(old(self)@, outcome.event()).1.len() == 0,
                Err(e) => feed(old(self)@, outcome.event()).1.len() == 0 && final(self)@ == EngineState::Failed(e),
            },
            final(self)@ matches EngineState::Failed(e) ==> r == Err::<Option<Vec<u8>>, DownloadError>(e),
    {
        let header = self.is_header_pending();
        match outcome {
            ReadOutcome::Filled { buf, n } => {
                let ghost b = buf@.subrange(0, n as int);
                if header {
                    if n == HEADER_LEN {
                        self.state = EngineState::Streaming;
                        Ok(None)
                    } else {
                        self.state = EngineState::Failed(DownloadError::TruncatedHeader);
                        Err(DownloadError::TruncatedHeader)
                    }
                } else if n == 0 {
                    self.state = EngineState::Done;
                    Ok(None)
                } else {
                    let mut chunk = buf;
                    chunk.truncate(n);
                    assert(chunk@ == b);
                    Ok(Some(chunk))
                }
            },
            ReadOutcome::UnexpectedEnd => {
                let e = if header { DownloadError::TruncatedHeader } else { DownloadError::StreamReadFailed };
                self.state = EngineState::Failed(e);
                Err(e)
            },
            ReadOutcome::Failed => {
                self.state = EngineState::Failed(DownloadError::StreamReadFailed);
                Err(DownloadError::StreamReadFailed)
            },
        }
    }
}

proof fn lemma_run_push(evs: Seq<ReadEvent>, e: ReadEvent)
    ensures
        run(evs.push(e)) == (feed(run(evs).0, e).0, run(evs).1 + feed(run(evs).0, e).1),
{
    assert(evs.push(e).drop_last() =~= evs);
}

/// Once the relay has stopped, further reads change nothing.
proof fn lemma_run_stopped(evs: Seq<ReadEvent>, rest: Seq<ReadEvent>)
    requires
        !run(evs).0.is_active(),
    ensures
        run(evs + rest) == run(evs),
    decreases rest.len(),
{
    if rest.len() == 0 {
        assert(evs + rest =~= evs);
    } else {
        lemma_run_stopped(evs, rest.drop_last());
        assert((evs + rest) =~= (evs + rest.drop_last()).push(rest.last()));
        lemma_run_push(evs + rest.drop_last(), rest.last());
        assert(run(evs).1 + Seq::<Seq<u8>>::empty() =~= run(evs).1);
    }
}

/// After a complete header and the payload reads `reads`, the relay is still
/// streaming and has handed out exactly `reads`.
proof fn lemma_run_streaming(header: Seq<u8>, reads: Seq<Seq<u8>>)
    requires
        header.len() == HEADER_LEN,
        valid_reads(reads),
    ensures
        run(seq![ReadEvent::Bytes(header)] + data_events(reads)) == (EngineState::Streaming, reads),
    decreases reads.len(),
{
    let evs = seq![ReadEvent::Bytes(header)] + data_events(reads);
    if reads.len() == 0 {
        assert(evs =~= Seq::<ReadEvent>::empty().push(ReadEvent::Bytes(header)));
        lemma_run_push(Seq::empty(), ReadEvent::Bytes(header));
        assert(reads =~= Seq::<Seq<u8>>::empty());
        assert(run(evs).1 =~= Seq::<Seq<u8>>::empty());
    } else {
        let prev = reads.drop_last();
        assert(valid_reads(prev)) by {
            assert forall|i: int| 0 <= i < prev.len() implies 0 < #[trigger] prev[i].len() <= CHUNK_LEN by {
                assert(prev[i] == reads[i]);
            }
        }
        lemma_run_streaming(header, prev);
        let pevs = seq![ReadEvent::Bytes(header)] + data_events(prev);
        assert(evs =~= pevs.push(ReadEvent::Bytes(reads.last())));
        lemma_run_push(pevs, ReadEvent::Bytes(reads.last()));
        assert(reads.last().len() > 0);
        assert(prev + seq![reads.last()] =~= reads);
    }
}

proof fn lemma_flatten_empty(reads: Seq<Seq<u8>>)
    requires
        valid_reads(reads),
        reads.flatten().len() == 0,
    ensures
        reads.len() == 0,
{
    if reads.len() > 0 {
        assert(reads.flatten() == reads.first() + reads.drop_first().flatten());
        assert(reads[0].len() > 0);
    }
}

/// A source that yields a complete header and then the payload in the reads
/// `reads` is relayed in full: the relay ends in `Done`, its chunks are those
/// reads in order, so that together they are the plaintext, each holds between
/// one and `CHUNK_LEN` bytes, and an empty payload gives no chunk at all.
pub proof fn lemma_relay_complete(header: Seq<u8>, reads: Seq<Seq<u8>>, plaintext: Seq<u8>)
    requires
        header.len() == HEADER_LEN,
        valid_reads(reads),
        reads.flatten() == plaintext,
    ensures
        run(seq![ReadEvent::Bytes(header)] + data_events(reads) + seq![ReadEvent::Bytes(Seq::empty())])
            == (EngineState::Done, reads),
        reads.flatten() == plaintext,
        forall|i: int| 0 <= i < reads.len() ==> 0 < #[trigger] reads[i].len() <= CHUNK_LEN,
        plaintext.len() == 0 ==> reads.len() == 0,
{
    let pevs = seq![ReadEvent::Bytes(header)] + data_events(reads);
    lemma_run_streaming(header, reads);
    assert(pevs + seq![ReadEvent::Bytes(Seq::empty())] =~= pevs.push(ReadEvent::Bytes(Seq::empty())));
    lemma_run_push(pevs, ReadEvent::Bytes(Seq::empty()));
    assert(reads + Seq::<Seq<u8>>::empty() =~= reads);
    if plaintext.len() == 0 {
        lemma_flatten_empty(reads);
    }
}

/// A source that ends, or yields fewer bytes than the header, on the first
/// read fails with `TruncatedHeader` and hands out no chunk, whatever comes
/// after.
pub proof fn lemma_relay_truncated_header(first: ReadEvent, rest: Seq<ReadEvent>)
    requires
        first is Ended || (first matches ReadEvent::Bytes(b) && b.len() < HEADER_LEN),
    ensures
        run(seq![first] + rest) == (EngineState::Failed(DownloadError::TruncatedHeader), Seq::<Seq<u8>>::empty()),
{
    let evs = seq![first];
    assert(evs =~= Seq::<ReadEvent>::empty().push(first));
    lemma_run_push(Seq::empty(), first);
    assert(run(evs).1 =~= Seq::<Seq<u8>>::empty());
    lemma_run_stopped(evs, rest);
}

/// When the read of chunk `reads.len()` fails, exactly the chunks read before
/// it have been handed out, the relay fails with `StreamReadFailed`, and
/// nothing that follows is handed out.
pub proof fn lemma_relay_read_failure(header: Seq<u8>, reads: Seq<Seq<u8>>, failure: ReadEvent, rest: Seq<ReadEvent>)
    requires
        header.len() == HEADER_LEN,
        valid_reads(reads),
        failure is Ended || failure is Error,
    ensures
        run(seq![ReadEvent::Bytes(header)] + data_events(reads) + seq![failure] + rest)
            == (EngineState::Failed(DownloadError::StreamReadFailed), reads),
{
    let pevs = seq![ReadEvent::Bytes(header)] + data_events(reads);
    lemma_run_streaming(header, reads);
    let fevs = pevs + seq![failure];
    assert(fevs =~= pevs.push(failure));
    lemma_run_push(pevs, failure);
    assert(reads + Seq::<Seq<u8>>::empty() =~= reads);
    lemma_run_stopped(fevs, rest);
}

} // verus!
