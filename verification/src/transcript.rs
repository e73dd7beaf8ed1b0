//! The bytes of one session, by direction.

use crate::error::RedactionError;
use crate::range_set::{in_byte_ranges, ByteRange, ByteRangeSet};
use vstd::prelude::*;

verus! {

/// One of the two directions of a session, seen from the prover.
#[derive(Clone, Copy, Debug, PartialEq, Eq, Structural)]
pub enum Direction {
    Sent,
    Received,
}

/// The record of a session while bytes still flow. Bytes are only ever added
/// at the end of a direction.
pub struct TranscriptRecorder {
    sent: Vec<u8>,
    received: Vec<u8>,
}

/// The record of a session whose exchange is over. Nothing changes it any
/// more, and only in this state can it be read.
#[derive(Clone, Debug)]
pub struct Transcript {
    sent: Vec<u8>,
    received: Vec<u8>,
}

/// Appends `bytes` to `buffer`.
fn append(buffer: &mut Vec<u8>, bytes: &[u8])
    ensures
        final(buffer)@ == old(buffer)@ + bytes@,
{
    let mut i: usize = 0;
    while i < bytes.len()
        invariant
            0 <= i <= bytes@.len(),
            buffer@ == old(buffer)@ + bytes@.take(i as int),
        decreases bytes.len() - i,
    {
        buffer.push(bytes[i]);
        assert(bytes@.take(i + 1) =~= bytes@.take(i as int).push(bytes@[i as int]));
        assert(buffer@ =~= old(buffer)@ + bytes@.take(i + 1));
        i += 1;
    }
    assert(bytes@.take(bytes@.len() as int) =~= bytes@);
}

impl TranscriptRecorder {
    /// The bytes sent so far.
    pub closed spec fn sent(&self) -> Seq<u8> {
        self.sent@
    }

    /// The bytes received so far.
    pub closed spec fn received(&self) -> Seq<u8> {
        self.received@
    }

    /// A record without any byte.
    pub fn new() -> (recorder: TranscriptRecorder)
        ensures
            recorder.sent() == Seq::<u8>::empty(),
            recorder.received() == Seq::<u8>::empty(),
    {
        TranscriptRecorder { sent: Vec::new(), received: Vec::new() }
    }

    /// Adds `bytes` at the end of one direction and leaves the other alone.
    pub fn record(&mut self, direction: Direction, bytes: &[u8])
        ensures
            final(self).sent() == if direction == Direction::Sent {
                old(self).sent() + bytes@
            } else {
                old(self).sent()
            },
            final(self).received() == if direction == Direction::Received {
                old(self).received() + bytes@
            } else {
                old(self).received()
            },
    {
        match direction {
            Direction::Sent => append(&mut self.sent, bytes),
            Direction::Received => append(&mut self.received, bytes),
        }
    }

    /// Ends the recording: the transcript of everything recorded.
    pub fn freeze(self) -> (transcript: Transcript)
        ensures
            transcript.sent_bytes() == self.sent(),
            transcript.received_bytes() == self.received(),
    {
        Transcript { sent: self.sent, received: self.received }
    }
}

impl Transcript {
    /// The bytes that were sent.
    pub closed spec fn sent_bytes(&self) -> Seq<u8> {
        self.sent@
    }

    /// The bytes that were received.
    pub closed spec fn received_bytes(&self) -> Seq<u8> {
        self.received@
    }

    /// The transcript of a finished exchange.
    pub fn new(sent: Vec<u8>, received: Vec<u8>) -> (transcript: Transcript)
        ensures
            transcript.sent_bytes() == sent@,
            transcript.received_bytes() == received@,
    {
        Transcript { sent, received }
    }

    /// The bytes that were sent.
    pub fn sent(&self) -> (bytes: &[u8])
        ensures
            bytes@ == self.sent_bytes(),
    {
        self.sent.as_slice()
    }

    /// The bytes that were received.
    pub fn received(&self) -> (bytes: &[u8])
        ensures
            bytes@ == self.received_bytes(),
    {
        self.received.as_slice()
    }
}

/// One direction of a session as a verifier holds it: the bytes, and which
/// of their positions the prover revealed. What stands at the other positions
/// says nothing.
pub struct RevealedBytes {
    bytes: Vec<u8>,
    revealed: ByteRangeSet,
}

/// Both directions of a session as a verifier holds them.
pub struct RevealedTranscript {
    pub sent: RevealedBytes,
    pub received: RevealedBytes,
}

impl RevealedBytes {
    /// The bytes of the direction.
    pub closed spec fn bytes(&self) -> Seq<u8> {
        self.bytes@
    }

    /// The positions that were revealed.
    pub closed spec fn revealed(&self) -> Set<int> {
        self.revealed@
    }

    /// The revealed positions are positions of the bytes.
    #[verifier::type_invariant]
    pub closed spec fn wf(&self) -> bool {
        self.revealed.spec_buffer_len() == self.bytes@.len()
    }

    /// The bytes of a direction with the positions of `ranges` revealed, or
    /// `InvalidRange` where one of the ranges does not lie in the bytes.
    pub fn new(bytes: Vec<u8>, ranges: &Vec<ByteRange>) -> (result: Result<
        RevealedBytes,
        RedactionError,
    >)
        ensures
            result is Ok <==> forall|i: int|
                0 <= i < ranges@.len() ==> (#[trigger] ranges@[i]).fits(bytes@.len() as usize),
            result matches Err(e) ==> e == RedactionError::InvalidRange,
            result matches Ok(shown) ==> shown.bytes() == bytes@ && shown.wf() && forall|x: int|
                shown.revealed().contains(x) <==> in_byte_ranges(ranges@, x),
    {
        let mut revealed = ByteRangeSet::new(bytes.len());
        let mut i: usize = 0;
        while i < ranges.len()
            invariant
                0 <= i <= ranges@.len(),
                revealed.spec_buffer_len() == bytes@.len(),
                forall|k: int| 0 <= k < i ==> (#[trigger] ranges@[k]).fits(bytes@.len() as usize),
                forall|x: int| revealed@.contains(x) <==> in_byte_ranges(ranges@.take(i as int), x),
            decreases ranges.len() - i,
        {
            let ghost before = revealed@;
            if revealed.insert(ranges[i]).is_err() {
                return Err(RedactionError::InvalidRange);
            }
            proof {
                let done = ranges@.take(i as int);
                let more = ranges@.take(i + 1);
                assert forall|x: int| revealed@.contains(x) <==> in_byte_ranges(more, x) by {
                    if in_byte_ranges(done, x) {
                        let k = choose|k: int|
                            0 <= k < done.len() && (#[trigger] done[k]).start <= x < done[k].end;
                        assert(more[k] == done[k]);
                    }
                    if ranges@[i as int].start <= x < ranges@[i as int].end {
                        assert(more[i as int] == ranges@[i as int]);
                    }
                    if in_byte_ranges(more, x) {
                        let k = choose|k: int|
                            0 <= k < more.len() && (#[trigger] more[k]).start <= x < more[k].end;
                        if k < i {
                            assert(done[k] == more[k]);
                        }
                    }
                }
            }
            i += 1;
        }
        proof {
            assert(ranges@.take(i as int) =~= ranges@);
        }
        Ok(RevealedBytes { bytes, revealed })
    }

    /// The bytes of the direction.
    pub fn as_bytes(&self) -> (bytes: &[u8])
        ensures
            bytes@ == self.bytes(),
    {
        self.bytes.as_slice()
    }

    /// The set of positions that were revealed, over the bytes of the
    /// direction.
    pub fn revealed_set(&self) -> (set: &ByteRangeSet)
        ensures
            set@ == self.revealed(),
            set.spec_buffer_len() == self.bytes().len(),
            set.wf(),
    {
        proof {
            use_type_invariant(self);
            use_type_invariant(&self.revealed);
        }
        &self.revealed
    }
}

} // verus!
