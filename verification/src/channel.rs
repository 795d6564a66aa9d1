//! One blocking round trip over the shared region: a request goes out, the
//! caller sleeps on slot 0 of the synchronisation cell, and on waking reads
//! the length of the reply from that slot and the reply behind it.

use vstd::prelude::*;
use crate::constants::{to_unsigned, unsigned};

verus! {

/// Where the reply starts in the shared region: behind slot 0.
pub const REPLY_OFFSET: usize = 4;

/// The size of the buffer into which replies are copied.
pub const REPLY_BUF_LEN: usize = 10000;

/// What the wait on slot 0 reported.
#[derive(Debug, Clone, Copy, PartialEq, Eq, Structural)]
pub enum WaitOutcome {
    /// The host notified the slot.
    Notified,
    /// The slot was filled before the wait began.
    NotEqual,
    /// The wait gave up before any notification.
    TimedOut,
    /// The wait itself could not be made.
    Failed,
}

/// Why a round trip handed no reply to its caller. None of these is an answer
/// of the device; the native surface reports them all under one code.
#[derive(Debug, Clone, Copy, PartialEq, Eq, Structural)]
pub enum TransportError {
    /// No reply has arrived yet.
    NotArrived,
    /// The wait could not be made.
    Wait,
    /// The length in slot 0 reaches past the shared region or past the
    /// reply buffer.
    Overrun,
    /// The bytes of the reply are no reply of the expected shape.
    Malformed,
}

/// The caller's end of one synchronisation cell. It carries the rule of the
/// protocol: one request at a time.
#[derive(Debug, Clone, Copy, PartialEq, Eq, Structural)]
pub struct Channel {
    pub awaiting: bool,
}

/// The length that slot 0 holds: its 32 bits read without a sign.
pub open spec fn reply_len(slot0: i32) -> int {
    unsigned(slot0)
}

/// The outcome of a round trip, from what the wait reported, what slot 0
/// held on waking, and the sizes of the shared region and the reply buffer.
/// A slot that was notified holds a reply whatever its length: length 0 is a
/// reply without payload, while a reply that has not arrived is reported as
/// such.
pub open spec fn call_result(
    outcome: WaitOutcome,
    slot0: i32,
    region_len: int,
    buf_len: int,
) -> Result<usize, TransportError> {
    match outcome {
        WaitOutcome::Failed => Err(TransportError::Wait),
        WaitOutcome::TimedOut => Err(TransportError::NotArrived),
        _ => if REPLY_OFFSET + reply_len(slot0) <= region_len && reply_len(slot0) <= buf_len {
            Ok(reply_len(slot0) as usize)
        } else {
            Err(TransportError::Overrun)
        },
    }
}

impl Channel {
    /// A channel with no request under way.
    pub fn new() -> (chan: Self)
        ensures
            !chan.awaiting,
    {
        Channel { awaiting: false }
    }

    /// Records that a request goes out. Another one before its reply was
    /// taken is against the protocol.
    pub fn post(&mut self)
        requires
            !old(self).awaiting,
        ensures
            final(self).awaiting,
    {
        self.awaiting = true;
    }
}

/// A buffer for replies, of the size that the bridge works with.
pub fn reply_buf() -> (buf: Vec<u8>)
    ensures
        buf@.len() == REPLY_BUF_LEN,
        forall|i: int| 0 <= i < buf@.len() ==> buf@[i] == 0,
{
    vec![0u8; REPLY_BUF_LEN]
}

/// Ends a round trip: takes what the wait reported, the value found in slot
/// 0 and the bytes of the shared region, and copies the reply to the front of
/// `buf`. The reply is the `reply_len` bytes of the region behind slot 0,
/// exactly. Whenever anything but `NotArrived` is reported the round trip is
/// over: slot 0 is reset to 0, which is the value that the caller then
/// stores in the shared cell, and the channel is free for the next request.
pub fn call(
    chan: &mut Channel,
    outcome: WaitOutcome,
    slot0: &mut i32,
    region: &[u8],
    buf: &mut Vec<u8>,
) -> (r: Result<usize, TransportError>)
    requires
        old(chan).awaiting,
    ensures
        r == call_result(outcome, *old(slot0), region@.len() as int, old(buf)@.len() as int),
        final(chan).awaiting <==> r == Err::<usize, TransportError>(TransportError::NotArrived),
        *final(slot0) == (if final(chan).awaiting {
            *old(slot0)
        } else {
            0i32
        }),
        r matches Ok(len) ==> final(buf)@ == region@.subrange(
            REPLY_OFFSET as int,
            REPLY_OFFSET + len,
        ) + old(buf)@.subrange(len as int, old(buf)@.len() as int),
        r is Err ==> final(buf)@ == old(buf)@,
{
    match outcome {
        WaitOutcome::Failed => {
            chan.awaiting = false;
            *slot0 = 0;
            return Err(TransportError::Wait);
        },
        WaitOutcome::TimedOut => {
            return Err(TransportError::NotArrived);
        },
        _ => {},
    }
    chan.awaiting = false;
    let len32: u32 = to_unsigned(*slot0);
    *slot0 = 0;
    let len: usize = len32 as usize;
    if region.len() < REPLY_OFFSET || len > region.len() - REPLY_OFFSET || len > buf.len() {
        return Err(TransportError::Overrun);
    }
    let mut i: usize = 0;
    while i < len
        invariant
            i <= len,
            len <= buf@.len(),
            REPLY_OFFSET + len <= region@.len() <= usize::MAX,
            buf@.len() == old(buf)@.len(),
            buf@ == region@.subrange(REPLY_OFFSET as int, REPLY_OFFSET + i) + old(buf)@.subrange(
                i as int,
                old(buf)@.len() as int,
            ),
        decreases len - i,
    {
        buf[i] = region[REPLY_OFFSET + i];
        i = i + 1;
    }
    Ok(len)
}

/// What a round trip hands to its caller once the bytes of the reply have
/// been decoded: the reply, or, where the bytes were no reply of the shape
/// awaited, a failure of the transport. Such a failure is never one of the
/// errors that a well-formed reply can carry.
pub fn decoded<R>(reply: Option<R>) -> (r: Result<R, TransportError>)
    ensures
        r == (match reply {
            Some(reply) => Ok::<R, TransportError>(reply),
            None => Err::<R, TransportError>(TransportError::Malformed),
        }),
{
    match reply {
        Some(reply) => Ok(reply),
        None => Err(TransportError::Malformed),
    }
}

/// A notified slot that holds 0 is a reply without payload, and is told
/// apart from a reply that has not arrived.
pub proof fn lemma_empty_reply_is_a_reply(outcome: WaitOutcome, region_len: int, buf_len: int)
    requires
        REPLY_OFFSET <= region_len,
        0 <= buf_len,
    ensures
        outcome is Notified || outcome is NotEqual ==> call_result(outcome, 0, region_len, buf_len)
            == Ok::<usize, TransportError>(0),
        forall|slot0: i32|
            call_result(WaitOutcome::TimedOut, slot0, region_len, buf_len) == Err::<
                usize,
                TransportError,
            >(TransportError::NotArrived),
{
}

} // verus!
