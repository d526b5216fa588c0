//! Assisted-GNSS upload: a bounded queue of opaque messages sent to the
//! receiver one at a time, each acknowledged (ACK or NACK) or retried on timeout.
use vstd::prelude::*;
use crate::system_info::GpsState;

verus! {

pub const AGNSS_TRIGGER_DELAY_MS: u64 = 10_000;

pub const T_AGNSS_MESSAGE_SEND_TIMEOUT_MS: u64 = 1;

pub const T_AGNSS_TOTAL_TIMEOUT_MS: u64 = 600_000;

pub const MAX_AGNSS_MESSAGE_RETRY: u8 = 3;

pub const MAX_AGNSS_MESSAGES: usize = 70;

pub const MAX_AGNSS_MESSAGE_SIZE: usize = 568;

/// Copies a byte string.
fn copy_bytes(data: &[u8]) -> (r: Vec<u8>)
    ensures
        r@ == data@,
{
    let mut out: Vec<u8> = Vec::new();
    let mut i: usize = 0;
    while i < data.len()
        invariant
            i <= data@.len(),
            out@ == data@.subrange(0, i as int),
        decreases data@.len() - i,
    {
        out.push(data[i]);
        i = i + 1;
    }
    assert(out@ =~= data@);
    out
}

/// One opaque assisted-data message.
pub struct AgnssMessage {
    data: Vec<u8>,
}

impl View for AgnssMessage {
    type V = Seq<u8>;

    closed spec fn view(&self) -> Seq<u8> {
        self.data@
    }
}

impl AgnssMessage {
    pub fn empty() -> (r: Self)
        ensures
            r@ == Seq::<u8>::empty(),
    {
        AgnssMessage { data: Vec::new() }
    }

    /// The message holding `data`, or `None` when it is longer than the bound.
    pub fn from_slice(data: &[u8]) -> (r: Option<Self>)
        ensures
            r is None <==> data@.len() > MAX_AGNSS_MESSAGE_SIZE,
            r matches Some(m) ==> m@ == data@,
    {
        if data.len() > MAX_AGNSS_MESSAGE_SIZE {
            return None;
        }
        Some(AgnssMessage { data: copy_bytes(data) })
    }

    pub fn as_slice(&self) -> (r: &[u8])
        ensures
            r@ == self@,
    {
        self.data.as_slice()
    }

    pub fn len(&self) -> (r: usize)
        ensures
            r == self@.len(),
    {
        self.data.len()
    }

    /// A copy of this message.
    pub fn duplicate(&self) -> (r: Self)
        ensures
            r@ == self@,
    {
        AgnssMessage { data: copy_bytes(self.data.as_slice()) }
    }
}

#[derive(Clone, Copy, Debug, PartialEq, Eq, Structural)]
pub enum AgnssQueueError {
    TooManyMessages,
    MessageTooLarge,
}

/// What the state machine does next while uploading.
pub enum AgnssOutcome {
    /// Write this message to the receiver.
    Send(AgnssMessage),
    /// The batch is finished.
    Complete,
}

/// Acknowledgement seen from the receiver since the last poll.
#[derive(Clone, Copy, Debug, PartialEq, Eq, Structural)]
pub enum AgnssAck {
    NoReply,
    Ack,
    Nack,
}

/// The queued messages, in order, at most `MAX_AGNSS_MESSAGES` of at most
/// `MAX_AGNSS_MESSAGE_SIZE` bytes each.
pub struct AgnssQueue {
    messages: Vec<AgnssMessage>,
}

impl View for AgnssQueue {
    type V = Seq<Seq<u8>>;

    closed spec fn view(&self) -> Seq<Seq<u8>> {
        self.messages@.map_values(|m: AgnssMessage| m@)
    }
}

impl AgnssQueue {
    pub open spec fn wf(&self) -> bool {
        &&& self@.len() <= MAX_AGNSS_MESSAGES
        &&& forall|i: int| 0 <= i < self@.len() ==> #[trigger] self@[i].len() <= MAX_AGNSS_MESSAGE_SIZE
    }

    pub fn new() -> (r: Self)
        ensures
            r.wf(),
            r@ == Seq::<Seq<u8>>::empty(),
    {
        let r = AgnssQueue { messages: Vec::new() };
        assert(r@ =~= Seq::<Seq<u8>>::empty());
        r
    }

    pub fn clear(&mut self)
        ensures
            final(self).wf(),
            final(self)@ == Seq::<Seq<u8>>::empty(),
    {
        self.messages = Vec::new();
        assert(self@ =~= Seq::<Seq<u8>>::empty());
    }

    pub fn is_empty(&self) -> (r: bool)
        ensures
            r == (self@.len() == 0),
    {
        self.messages.len() == 0
    }

    pub fn len(&self) -> (r: usize)
        ensures
            r == self@.len(),
    {
        self.messages.len()
    }

    /// Appends a message; refuses it when the queue is full or it is too long.
    pub fn push(&mut self, data: &[u8]) -> (r: Result<(), AgnssQueueError>)
        requires
            old(self).wf(),
        ensures
            final(self).wf(),
            r == (if old(self)@.len() >= MAX_AGNSS_MESSAGES {
                Err::<(), AgnssQueueError>(AgnssQueueError::TooManyMessages)
            } else if data@.len() > MAX_AGNSS_MESSAGE_SIZE {
                Err(AgnssQueueError::MessageTooLarge)
            } else {
                Ok(())
            }),
            r is Ok ==> final(self)@ == old(self)@.push(data@),
            r is Err ==> final(self)@ == old(self)@,
    {
        if self.messages.len() >= MAX_AGNSS_MESSAGES {
            return Err(AgnssQueueError::TooManyMessages);
        }
        match AgnssMessage::from_slice(data) {
            Some(msg) => {
                self.messages.push(msg);
                assert(self@ =~= old(self)@.push(data@));
                Ok(())
            },
            None => Err(AgnssQueueError::MessageTooLarge),
        }
    }

    /// A copy of message `index`, or `None` past the end.
    pub fn get_copy(&self, index: usize) -> (r: Option<AgnssMessage>)
        ensures
            r is None <==> index >= self@.len(),
            r matches Some(m) ==> m@ == self@[index as int],
    {
        if index < self.messages.len() {
            Some(self.messages[index].duplicate())
        } else {
            None
        }
    }
}

/// The upload's progress: the batch, whether it waits to be sent, the message
/// being sent and its retries, the two timers, and the state to return to.
pub struct AgnssState {
    pub queue: AgnssQueue,
    pub request_pending: bool,
    pub force_trigger: bool,
    pub current_index: usize,
    pub current_retry: u8,
    pub message_timer_start: Option<u64>,
    pub total_timer_start: Option<u64>,
    pub previous_state: GpsState,
}

/// `a - b` modulo `2^64`.
pub open spec fn elapsed(now: u64, start: u64) -> int {
    if now >= start {
        now - start
    } else {
        now - start + 0x1_0000_0000_0000_0000
    }
}

impl AgnssState {
    pub open spec fn wf(&self) -> bool {
        self.queue.wf()
    }

    pub fn new() -> (r: Self)
        ensures
            r.wf(),
            r.queue@.len() == 0,
            r.request_pending && !r.force_trigger,
            r.current_index == 0 && r.current_retry == 0,
            r.message_timer_start is None && r.total_timer_start is None,
            r.previous_state == GpsState::S2IdleGpsOff,
    {
        AgnssState {
            queue: AgnssQueue::new(),
            request_pending: true,
            force_trigger: false,
            current_index: 0,
            current_retry: 0,
            message_timer_start: None,
            total_timer_start: None,
            previous_state: GpsState::S2IdleGpsOff,
        }
    }

    /// Replaces the batch; on an error the queue is left empty and disarmed.
    pub fn set_agnss_message_queue(&mut self, messages: &[Vec<u8>]) -> (r: Result<
        (),
        AgnssQueueError,
    >)
        requires
            old(self).wf(),
        ensures
            final(self).wf(),
            !final(self).force_trigger,
            final(self).current_index == old(self).current_index,
            final(self).current_retry == old(self).current_retry,
            final(self).previous_state == old(self).previous_state,
            r is Ok <==> messages@.len() <= MAX_AGNSS_MESSAGES && forall|i: int|
                0 <= i < messages@.len() ==> #[trigger] messages@[i]@.len()
                    <= MAX_AGNSS_MESSAGE_SIZE,
            r == Err::<(), AgnssQueueError>(AgnssQueueError::MessageTooLarge) <==> exists|i: int|
                0 <= i < messages@.len() && i < MAX_AGNSS_MESSAGES && #[trigger] messages@[i]@.len()
                    > MAX_AGNSS_MESSAGE_SIZE,
            r == Err::<(), AgnssQueueError>(AgnssQueueError::TooManyMessages) <==> (
            messages@.len() > MAX_AGNSS_MESSAGES && forall|i: int|
                0 <= i < MAX_AGNSS_MESSAGES ==> #[trigger] messages@[i]@.len()
                    <= MAX_AGNSS_MESSAGE_SIZE),
            r is Ok ==> final(self).queue@ == messages@.map_values(|m: Vec<u8>| m@)
                && final(self).request_pending == (messages@.len() > 0),
            r is Err ==> final(self).queue@.len() == 0 && !final(self).request_pending,
    {
        self.queue.clear();
        let mut i: usize = 0;
        while i < messages.len()
            invariant
                self.wf(),
                i <= messages@.len(),
                !self.force_trigger || self.force_trigger == old(self).force_trigger,
                self.current_index == old(self).current_index,
                self.current_retry == old(self).current_retry,
                self.previous_state == old(self).previous_state,
                self.request_pending == old(self).request_pending,
                self.force_trigger == old(self).force_trigger,
                i <= MAX_AGNSS_MESSAGES,
                forall|j: int| 0 <= j < i ==> #[trigger] messages@[j]@.len() <= MAX_AGNSS_MESSAGE_SIZE,
                self.queue@ == messages@.subrange(0, i as int).map_values(|m: Vec<u8>| m@),
            decreases messages@.len() - i,
        {
            let pushed = self.queue.push(messages[i].as_slice());
            if pushed.is_err() {
                self.queue.clear();
                self.request_pending = false;
                self.force_trigger = false;
                proof {
                    if i >= MAX_AGNSS_MESSAGES {
                        assert(messages@.len() > MAX_AGNSS_MESSAGES);
                    }
                }
                return pushed;
            }
            proof {
                assert(messages@.subrange(0, i + 1).map_values(|m: Vec<u8>| m@) =~= messages@.subrange(
                    0,
                    i as int,
                ).map_values(|m: Vec<u8>| m@).push(messages@[i as int]@));
            }
            i = i + 1;
        }
        assert(messages@.subrange(0, i as int) =~= messages@);
        self.request_pending = !self.queue.is_empty();
        self.force_trigger = false;
        Ok(())
    }

    pub fn clear_processing(&mut self)
        ensures
            *final(self) == (AgnssState {
                current_index: 0,
                current_retry: 0,
                message_timer_start: None,
                total_timer_start: None,
                ..*old(self)
            }),
    {
        self.current_index = 0;
        self.current_retry = 0;
        self.message_timer_start = None;
        self.total_timer_start = None;
    }

    pub fn clear_all(&mut self)
        ensures
            final(self).wf(),
            final(self).queue@.len() == 0,
            !final(self).request_pending && !final(self).force_trigger,
            final(self).current_index == 0 && final(self).current_retry == 0,
            final(self).message_timer_start is None && final(self).total_timer_start is None,
            final(self).previous_state == old(self).previous_state,
    {
        self.queue.clear();
        self.request_pending = false;
        self.force_trigger = false;
        self.clear_processing();
    }

    /// A batch is waiting, the boot delay has passed and no upload is running.
    pub fn should_trigger(&self, now_ms: u64, state: GpsState) -> (r: bool)
        ensures
            r == (now_ms >= AGNSS_TRIGGER_DELAY_MS && (self.request_pending || self.force_trigger)
                && self.queue@.len() > 0 && state != GpsState::S5AgnssProcessing),
    {
        now_ms >= AGNSS_TRIGGER_DELAY_MS && (self.request_pending || self.force_trigger)
            && !self.queue.is_empty() && state != GpsState::S5AgnssProcessing
    }

    /// Starts an upload: remembers the state to return to and hands out the first message.
    pub fn start_processing(&mut self, now_ms: u64, previous_state: GpsState) -> (r: Option<
        AgnssMessage,
    >)
        requires
            old(self).wf(),
        ensures
            final(self).wf(),
            final(self).queue@ == old(self).queue@,
            old(self).queue@.len() == 0 ==> r is None && *final(self) == *old(self),
            old(self).queue@.len() > 0 ==> {
                &&& r matches Some(m) && m@ == old(self).queue@[0]
                &&& final(self).previous_state == previous_state
                &&& !final(self).request_pending && !final(self).force_trigger
                &&& final(self).current_index == 0 && final(self).current_retry == 0
                &&& final(self).message_timer_start is None
                &&& final(self).total_timer_start == Some(now_ms)
            },
    {
        if self.queue.is_empty() {
            return None;
        }
        self.previous_state = previous_state;
        self.request_pending = false;
        self.force_trigger = false;
        self.current_index = 0;
        self.current_retry = 0;
        self.message_timer_start = None;
        self.total_timer_start = Some(now_ms);
        self.queue.get_copy(self.current_index)
    }

    pub fn mark_message_sent(&mut self, now_ms: u64)
        ensures
            *final(self) == (AgnssState { message_timer_start: Some(now_ms), ..*old(self) }),
    {
        self.message_timer_start = Some(now_ms);
    }

    /// The receiver answered: move on to the next message, or finish.
    pub fn ack_next(&mut self) -> (r: AgnssOutcome)
        requires
            old(self).wf(),
        ensures
            final(self).wf(),
            final(self).queue@ == old(self).queue@,
            final(self).message_timer_start is None,
            final(self).current_retry == 0,
            final(self).current_index == (if old(self).current_index == usize::MAX {
                usize::MAX as int
            } else {
                old(self).current_index + 1
            }),
            final(self).total_timer_start == old(self).total_timer_start,
            final(self).previous_state == old(self).previous_state,
            final(self).request_pending == old(self).request_pending,
            final(self).force_trigger == old(self).force_trigger,
            r is Complete <==> final(self).current_index >= final(self).queue@.len(),
            r matches AgnssOutcome::Send(m) ==> m@ == final(self).queue@[final(self).current_index as int],
    {
        self.message_timer_start = None;
        self.current_index = if self.current_index == usize::MAX {
            usize::MAX
        } else {
            self.current_index + 1
        };
        self.current_retry = 0;
        if self.current_index >= self.queue.len() {
            AgnssOutcome::Complete
        } else {
            match self.queue.get_copy(self.current_index) {
                Some(m) => AgnssOutcome::Send(m),
                None => AgnssOutcome::Complete,
            }
        }
    }

    /// The message timed out: send it again, or after the third try abandon it
    /// and move on to the next message (finishing after the last).
    pub fn retry_or_fail(&mut self) -> (r: AgnssOutcome)
        requires
            old(self).wf(),
        ensures
            final(self).wf(),
            final(self).queue@ == old(self).queue@,
            final(self).total_timer_start == old(self).total_timer_start,
            final(self).previous_state == old(self).previous_state,
            final(self).request_pending == old(self).request_pending,
            final(self).force_trigger == old(self).force_trigger,
            ({
                let tries = if old(self).current_retry == 255 {
                    255
                } else {
                    old(self).current_retry + 1
                };
                if tries >= MAX_AGNSS_MESSAGE_RETRY {
                    let next = if old(self).current_index == usize::MAX {
                        usize::MAX as int
                    } else {
                        old(self).current_index + 1
                    };
                    &&& final(self).current_index == next
                    &&& final(self).current_retry == 0
                    &&& final(self).message_timer_start is None
                    &&& (r is Complete <==> next >= old(self).queue@.len())
                    &&& (r matches AgnssOutcome::Send(m) ==> m@ == old(self).queue@[next])
                } else {
                    &&& final(self).current_index == old(self).current_index
                    &&& final(self).current_retry == tries
                    &&& final(self).message_timer_start == old(self).message_timer_start
                    &&& (r is Complete <==> old(self).current_index >= old(self).queue@.len())
                    &&& (r matches AgnssOutcome::Send(m) ==> m@ == old(self).queue@[old(self).current_index as int])
                }
            }),
    {
        self.current_retry = if self.current_retry == 255 {
            255
        } else {
            self.current_retry + 1
        };
        if self.current_retry >= MAX_AGNSS_MESSAGE_RETRY {
            return self.ack_next();
        }
        match self.queue.get_copy(self.current_index) {
            Some(m) => AgnssOutcome::Send(m),
            None => AgnssOutcome::Complete,
        }
    }

    pub fn message_timeout(&self, now_ms: u64) -> (r: bool)
        ensures
            r == (self.message_timer_start matches Some(start) && elapsed(now_ms, start)
                >= T_AGNSS_MESSAGE_SEND_TIMEOUT_MS),
    {
        match self.message_timer_start {
            Some(start) => now_ms.wrapping_sub(start) >= T_AGNSS_MESSAGE_SEND_TIMEOUT_MS,
            None => false,
        }
    }

    pub fn total_timeout(&self, now_ms: u64) -> (r: bool)
        ensures
            r == (self.total_timer_start matches Some(start) && elapsed(now_ms, start)
                >= T_AGNSS_TOTAL_TIMEOUT_MS),
    {
        match self.total_timer_start {
            Some(start) => now_ms.wrapping_sub(start) >= T_AGNSS_TOTAL_TIMEOUT_MS,
            None => false,
        }
    }

    /// Ends the upload: clears everything and returns the state to go back to.
    pub fn finish_processing(&mut self) -> (r: GpsState)
        ensures
            r == old(self).previous_state,
            final(self).wf(),
            final(self).queue@.len() == 0,
            !final(self).request_pending && !final(self).force_trigger,
            final(self).current_index == 0 && final(self).current_retry == 0,
            final(self).message_timer_start is None && final(self).total_timer_start is None,
            final(self).previous_state == old(self).previous_state,
    {
        let previous_state = self.previous_state;
        self.clear_all();
        previous_state
    }

    /// Motion seen during an upload: return to tracking instead of idling.
    pub fn note_motion(&mut self)
        ensures
            *final(self) == (AgnssState {
                previous_state: if old(self).previous_state == GpsState::S2IdleGpsOff
                    || old(self).previous_state == GpsState::S4AnalyzingStillness {
                    GpsState::S3TrackingFixed
                } else {
                    old(self).previous_state
                },
                ..*old(self)
            }),
    {
        match self.previous_state {
            GpsState::S2IdleGpsOff | GpsState::S4AnalyzingStillness => {
                self.previous_state = GpsState::S3TrackingFixed;
            },
            _ => {},
        }
    }
}

} // verus!
