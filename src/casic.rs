//! Byte-fed framer for the receiver's binary CASIC protocol.
//!
//! A frame is `BA CE | len_lo len_hi | class | msg | payload | cksum (LE u32)`.
//! The checksum starts from `(msg << 24) | (class << 16) | len` and adds each
//! little-endian payload word with wrapping 32-bit addition.
use vstd::prelude::*;

verus! {

pub const CASIC_HEADER_1: u8 = 0xBA;

pub const CASIC_HEADER_2: u8 = 0xCE;

pub const CASIC_MAX_PAYLOAD_SIZE: usize = 256;

pub const CASIC_PACKET_TIMEOUT_MS: u64 = 30_000;

pub const CASIC_CLASS_ACK: u8 = 0x05;

pub const CASIC_CLASS_NACK: u8 = 0x05;

pub const CASIC_CLASS_MSG: u8 = 0x08;

pub const CASIC_ID_ACK: u8 = 0x01;

pub const CASIC_ID_NACK: u8 = 0x00;

pub const CASIC_ID_MSG_BDSEPH: u8 = 0x02;

pub const CASIC_ID_MSG_GPSEPH: u8 = 0x07;

#[derive(Clone, Copy, Debug, PartialEq, Eq, Structural)]
pub enum CasicParserState {
    Idle,
    Header1,
    Header2,
    LenMsb,
    ClassId,
    MsgId,
    Payload,
    Checksum1,
    Checksum2,
    Checksum3,
    Checksum4,
}

#[derive(Clone, Copy, Debug)]
pub struct CasicPacket {
    pub class_id: u8,
    pub msg_id: u8,
    pub payload_length: u16,
    pub payload: [u8; 256],
    pub checksum: u32,
    pub calculated_checksum: u32,
    pub valid: bool,
    pub timestamp_ms: u64,
}

/// The integer read from four bytes in little-endian order.
pub open spec fn le_word(b0: u8, b1: u8, b2: u8, b3: u8) -> int {
    b0 + 256 * b1 + 65536 * b2 + 16777216 * b3
}

/// The `i`-th little-endian 32-bit word of a payload.
pub open spec fn payload_word(p: Seq<u8>, i: int) -> int {
    le_word(p[4 * i], p[4 * i + 1], p[4 * i + 2], p[4 * i + 3])
}

/// The sum, over the integers, of the first `n` payload words.
pub open spec fn words_sum(p: Seq<u8>, n: nat) -> int
    decreases n,
{
    if n == 0 {
        0
    } else {
        words_sum(p, (n - 1) as nat) + payload_word(p, n - 1)
    }
}

/// The checksum that a frame with these fields must declare.
pub open spec fn casic_checksum(class_id: u8, msg_id: u8, len: u16, payload: Seq<u8>) -> u32 {
    ((16777216 * msg_id + 65536 * class_id + len + words_sum(payload, (len / 4) as nat))
        % 0x1_0000_0000) as u32
}

/// A packet as a value: the payload as a sequence.
pub struct PacketView {
    pub class_id: u8,
    pub msg_id: u8,
    pub payload_length: u16,
    pub payload: Seq<u8>,
    pub checksum: u32,
    pub calculated_checksum: u32,
    pub valid: bool,
    pub timestamp_ms: u64,
}

impl CasicPacket {
    pub open spec fn view(&self) -> PacketView {
        PacketView {
            class_id: self.class_id,
            msg_id: self.msg_id,
            payload_length: self.payload_length,
            payload: self.payload@,
            checksum: self.checksum,
            calculated_checksum: self.calculated_checksum,
            valid: self.valid,
            timestamp_ms: self.timestamp_ms,
        }
    }
}

/// The empty packet: every field zero, 256 zero payload bytes, not valid.
pub open spec fn empty_packet() -> PacketView {
    PacketView {
        class_id: 0,
        msg_id: 0,
        payload_length: 0,
        payload: Seq::new(256, |i: int| 0u8),
        checksum: 0,
        calculated_checksum: 0,
        valid: false,
        timestamp_ms: 0,
    }
}

impl Default for CasicPacket {
    fn default() -> (r: Self)
        ensures
            r.view() == empty_packet(),
    {
        let r = CasicPacket {
            class_id: 0,
            msg_id: 0,
            payload_length: 0,
            payload: [0u8; 256],
            checksum: 0,
            calculated_checksum: 0,
            valid: false,
            timestamp_ms: 0,
        };
        assert(r.payload@ =~= Seq::new(256, |i: int| 0u8));
        r
    }
}

/// Everything the framer holds: its phase, the frame being assembled, the
/// payload bytes received, the checksum bytes received, the time of the last
/// accepted byte, the new-data flag and the last valid frame.
pub struct ParserView {
    pub state: CasicParserState,
    pub current: PacketView,
    pub index: nat,
    pub cksum: Seq<u8>,
    pub changed_ms: u64,
    pub new_data: bool,
    pub last_valid: PacketView,
}

/// Back to `Idle`, dropping the frame in progress.
pub open spec fn reset_view(v: ParserView, now_ms: u64) -> ParserView {
    ParserView {
        state: CasicParserState::Idle,
        current: empty_packet(),
        index: 0,
        changed_ms: now_ms,
        ..v
    }
}

/// A frame in progress is abandoned after 30 s without a byte.
pub open spec fn view_timed_out(v: ParserView, now_ms: u64) -> bool {
    v.state != CasicParserState::Idle && now_ms > v.changed_ms && now_ms - v.changed_ms
        > CASIC_PACKET_TIMEOUT_MS
}

/// One byte read at `now_ms`: the next view, and whether a frame completed.
pub open spec fn frame_step(v0: ParserView, byte: u8, now_ms: u64) -> (ParserView, bool) {
    let v = if view_timed_out(v0, now_ms) {
        reset_view(v0, now_ms)
    } else {
        v0
    };
    let cur = v.current;
    match v.state {
        CasicParserState::Idle => if byte == CASIC_HEADER_1 {
            (ParserView { state: CasicParserState::Header1, changed_ms: now_ms, ..v }, false)
        } else {
            (v, false)
        },
        CasicParserState::Header1 => if byte == CASIC_HEADER_2 {
            (
                ParserView {
                    state: CasicParserState::Header2,
                    changed_ms: now_ms,
                    current: empty_packet(),
                    index: 0,
                    ..v
                },
                false,
            )
        } else if byte == CASIC_HEADER_1 {
            (ParserView { changed_ms: now_ms, ..v }, false)
        } else {
            (reset_view(v, now_ms), false)
        },
        CasicParserState::Header2 => (
            ParserView {
                state: CasicParserState::LenMsb,
                changed_ms: now_ms,
                current: PacketView { payload_length: byte as u16, ..cur },
                index: 0,
                ..v
            },
            false,
        ),
        CasicParserState::LenMsb => {
            let len = cur.payload_length % 256 + 256 * byte;
            if len > CASIC_MAX_PAYLOAD_SIZE {
                (reset_view(v, now_ms), false)
            } else {
                (
                    ParserView {
                        state: CasicParserState::ClassId,
                        changed_ms: now_ms,
                        current: PacketView { payload_length: len as u16, ..cur },
                        index: 0,
                        ..v
                    },
                    false,
                )
            }
        },
        CasicParserState::ClassId => (
            ParserView {
                state: CasicParserState::MsgId,
                changed_ms: now_ms,
                current: PacketView { class_id: byte, ..cur },
                ..v
            },
            false,
        ),
        CasicParserState::MsgId => (
            ParserView {
                state: if cur.payload_length == 0 {
                    CasicParserState::Checksum1
                } else {
                    CasicParserState::Payload
                },
                changed_ms: now_ms,
                current: PacketView { msg_id: byte, ..cur },
                index: 0,
                ..v
            },
            false,
        ),
        CasicParserState::Payload => (
            ParserView {
                state: if v.index + 1 >= cur.payload_length {
                    CasicParserState::Checksum1
                } else {
                    CasicParserState::Payload
                },
                changed_ms: now_ms,
                current: PacketView { payload: cur.payload.update(v.index as int, byte), ..cur },
                index: v.index + 1,
                ..v
            },
            false,
        ),
        CasicParserState::Checksum1 => (
            ParserView {
                state: CasicParserState::Checksum2,
                changed_ms: now_ms,
                cksum: v.cksum.update(0, byte),
                ..v
            },
            false,
        ),
        CasicParserState::Checksum2 => (
            ParserView {
                state: CasicParserState::Checksum3,
                changed_ms: now_ms,
                cksum: v.cksum.update(1, byte),
                ..v
            },
            false,
        ),
        CasicParserState::Checksum3 => (
            ParserView {
                state: CasicParserState::Checksum4,
                changed_ms: now_ms,
                cksum: v.cksum.update(2, byte),
                ..v
            },
            false,
        ),
        CasicParserState::Checksum4 => {
            let declared = le_word(v.cksum[0], v.cksum[1], v.cksum[2], byte) as u32;
            let sum = casic_checksum(cur.class_id, cur.msg_id, cur.payload_length, cur.payload);
            let done = PacketView {
                checksum: declared,
                calculated_checksum: sum,
                valid: true,
                timestamp_ms: now_ms,
                ..cur
            };
            let w = ParserView { cksum: v.cksum.update(3, byte), ..v };
            if declared == sum {
                (reset_view(ParserView { new_data: true, last_valid: done, ..w }, now_ms), true)
            } else {
                (reset_view(w, now_ms), true)
            }
        },
    }
}

/// The view after feeding `bytes` (each with its time) from `v`.
pub open spec fn feed(v: ParserView, bytes: Seq<(u8, u64)>) -> ParserView
    decreases bytes.len(),
{
    if bytes.len() == 0 {
        v
    } else {
        frame_step(feed(v, bytes.drop_last()), bytes.last().0, bytes.last().1).0
    }
}

pub struct CasicParser {
    state: CasicParserState,
    current: CasicPacket,
    last_valid: CasicPacket,
    payload_index: usize,
    checksum_bytes: [u8; 4],
    checksum_index: usize,
    state_change_ms: u64,
    new_data: bool,
}

impl CasicParser {
    pub closed spec fn view(&self) -> ParserView {
        ParserView {
            state: self.state,
            current: self.current.view(),
            index: self.payload_index as nat,
            cksum: self.checksum_bytes@,
            changed_ms: self.state_change_ms,
            new_data: self.new_data,
            last_valid: self.last_valid.view(),
        }
    }

    /// The parser's internal invariant.
    pub closed spec fn wf(&self) -> bool {
        &&& self.current.payload_length <= 256
        &&& self.payload_index <= self.current.payload_length
        &&& self.state == CasicParserState::Payload ==> self.payload_index
            < self.current.payload_length
        &&& self.checksum_index <= 4
    }

    pub open spec fn phase(&self) -> CasicParserState {
        self.view().state
    }

    /// Whether an unconsumed valid frame is waiting.
    pub open spec fn has_event(&self) -> bool {
        self.view().new_data
    }

    /// The most recent valid frame.
    pub open spec fn last_packet(&self) -> PacketView {
        self.view().last_valid
    }

    /// The view of a fresh parser.
    pub open spec fn initial_view(v: ParserView) -> bool {
        &&& v.state == CasicParserState::Idle
        &&& v.current == empty_packet()
        &&& v.index == 0
        &&& v.cksum.len() == 4
        &&& v.changed_ms == 0
        &&& !v.new_data
        &&& v.last_valid == empty_packet()
    }

    pub fn new() -> (r: Self)
        ensures
            r.wf(),
            Self::initial_view(r.view()),
    {
        CasicParser {
            state: CasicParserState::Idle,
            current: CasicPacket::default(),
            last_valid: CasicPacket::default(),
            payload_index: 0,
            checksum_bytes: [0u8; 4],
            checksum_index: 0,
            state_change_ms: 0,
            new_data: false,
        }
    }

    /// Feeds one byte received at `now_ms`; returns true when it completed a frame
    /// (valid or not).
    pub fn encode(&mut self, byte: u8, now_ms: u64) -> (r: bool)
        requires
            old(self).wf(),
        ensures
            final(self).wf(),
            (final(self).view(), r) == frame_step(old(self).view(), byte, now_ms),
    {
        if self.is_timeout(now_ms) {
            self.reset_parser(now_ms);
        }
        if self.state == CasicParserState::Idle && byte == CASIC_HEADER_1 {
            self.state = CasicParserState::Header1;
            self.state_change_ms = now_ms;
            return false;
        }
        if self.state != CasicParserState::Idle {
            return self.process_casic_byte(byte, now_ms);
        }
        false
    }

    pub fn is_new_casic_data(&self) -> (r: bool)
        ensures
            r == self.has_event(),
    {
        self.new_data
    }

    /// Consumes the event: the flag clears, nothing else changes.
    pub fn clear_casic_data(&mut self)
        requires
            old(self).wf(),
        ensures
            final(self).wf(),
            final(self).view() == (ParserView { new_data: false, ..old(self).view() }),
    {
        self.new_data = false;
    }

    pub fn last_casic_packet(&self) -> (r: CasicPacket)
        ensures
            r.view() == self.last_packet(),
    {
        self.last_valid
    }

    pub fn parser_state(&self) -> (r: CasicParserState)
        ensures
            r == self.phase(),
    {
        self.state
    }

    /// Abandons any frame in progress and forgets the last valid frame.
    pub fn reset(&mut self, now_ms: u64)
        ensures
            final(self).wf(),
            final(self).view() == (ParserView {
                new_data: false,
                last_valid: empty_packet(),
                ..reset_view(old(self).view(), now_ms)
            }),
    {
        self.reset_parser(now_ms);
        self.new_data = false;
        self.last_valid = CasicPacket::default();
    }

    pub fn has_new_ack(&self) -> (r: bool)
        ensures
            r == (self.has_event() && self.last_packet().class_id == CASIC_CLASS_ACK
                && self.last_packet().msg_id == CASIC_ID_ACK),
    {
        self.new_data && self.last_valid.class_id == CASIC_CLASS_ACK && self.last_valid.msg_id
            == CASIC_ID_ACK
    }

    pub fn has_new_nack(&self) -> (r: bool)
        ensures
            r == (self.has_event() && self.last_packet().class_id == CASIC_CLASS_NACK
                && self.last_packet().msg_id == CASIC_ID_NACK),
    {
        self.new_data && self.last_valid.class_id == CASIC_CLASS_NACK && self.last_valid.msg_id
            == CASIC_ID_NACK
    }

    pub fn has_new_ephemeris(&self) -> (r: bool)
        ensures
            r == (self.has_event() && self.last_packet().class_id == CASIC_CLASS_MSG && (
            self.last_packet().msg_id == CASIC_ID_MSG_GPSEPH || self.last_packet().msg_id
                == CASIC_ID_MSG_BDSEPH)),
    {
        self.new_data && self.last_valid.class_id == CASIC_CLASS_MSG && (self.last_valid.msg_id
            == CASIC_ID_MSG_GPSEPH || self.last_valid.msg_id == CASIC_ID_MSG_BDSEPH)
    }

    fn process_casic_byte(&mut self, byte: u8, now_ms: u64) -> (r: bool)
        requires
            old(self).wf(),
            old(self).state != CasicParserState::Idle,
            !view_timed_out(old(self).view(), now_ms),
        ensures
            final(self).wf(),
            (final(self).view(), r) == frame_step(old(self).view(), byte, now_ms),
    {
        match self.state {
            CasicParserState::Header1 => {
                if byte == CASIC_HEADER_2 {
                    self.state = CasicParserState::Header2;
                    self.state_change_ms = now_ms;
                    self.current = CasicPacket::default();
                    self.payload_index = 0;
                    self.checksum_index = 0;
                } else if byte == CASIC_HEADER_1 {
                    self.state_change_ms = now_ms;
                } else {
                    self.reset_parser(now_ms);
                }
            },
            CasicParserState::Header2 => {
                self.current.payload_length = byte as u16;
                self.payload_index = 0;
                self.state = CasicParserState::LenMsb;
                self.state_change_ms = now_ms;
            },
            CasicParserState::LenMsb => {
                let len: u16 = self.current.payload_length % 256 + (byte as u16) * 256;
                if len as usize > CASIC_MAX_PAYLOAD_SIZE {
                    self.reset_parser(now_ms);
                    return false;
                }
                self.current.payload_length = len;
                self.payload_index = 0;
                self.state = CasicParserState::ClassId;
                self.state_change_ms = now_ms;
            },
            CasicParserState::ClassId => {
                self.current.class_id = byte;
                self.state = CasicParserState::MsgId;
                self.state_change_ms = now_ms;
            },
            CasicParserState::MsgId => {
                self.current.msg_id = byte;
                self.payload_index = 0;
                self.state_change_ms = now_ms;
                if self.current.payload_length == 0 {
                    self.state = CasicParserState::Checksum1;
                } else {
                    self.state = CasicParserState::Payload;
                }
            },
            CasicParserState::Payload => {
                let i = self.payload_index;
                self.current.payload[i] = byte;
                self.payload_index = i + 1;
                self.state_change_ms = now_ms;
                if self.payload_index >= self.current.payload_length as usize {
                    self.state = CasicParserState::Checksum1;
                }
            },
            CasicParserState::Checksum1 => {
                self.checksum_bytes[0] = byte;
                self.checksum_index = 1;
                self.state = CasicParserState::Checksum2;
                self.state_change_ms = now_ms;
            },
            CasicParserState::Checksum2 => {
                self.checksum_bytes[1] = byte;
                self.checksum_index = 2;
                self.state = CasicParserState::Checksum3;
                self.state_change_ms = now_ms;
            },
            CasicParserState::Checksum3 => {
                self.checksum_bytes[2] = byte;
                self.checksum_index = 3;
                self.state = CasicParserState::Checksum4;
                self.state_change_ms = now_ms;
            },
            CasicParserState::Checksum4 => {
                self.checksum_bytes[3] = byte;
                self.checksum_index = 4;
                self.current.checksum = (self.checksum_bytes[0] as u32) + (
                self.checksum_bytes[1] as u32) * 256 + (self.checksum_bytes[2] as u32) * 65536 + (
                byte as u32) * 16777216;
                self.process_completed_packet(now_ms);
                self.reset_parser(now_ms);
                return true;
            },
            CasicParserState::Idle => {},
        }
        false
    }

    fn process_completed_packet(&mut self, now_ms: u64)
        requires
            old(self).wf(),
        ensures
            final(self).wf(),
            final(self).state == old(self).state,
            final(self).checksum_bytes == old(self).checksum_bytes,
            final(self).state_change_ms == old(self).state_change_ms,
            ({
                let p = old(self).current.view();
                let sum = casic_checksum(p.class_id, p.msg_id, p.payload_length, p.payload);
                if p.checksum == sum {
                    &&& final(self).new_data
                    &&& final(self).last_valid.view() == (PacketView {
                        calculated_checksum: sum,
                        valid: true,
                        timestamp_ms: now_ms,
                        ..p
                    })
                } else {
                    &&& final(self).new_data == old(self).new_data
                    &&& final(self).last_valid == old(self).last_valid
                }
            }),
    {
        self.current.calculated_checksum = self.calculate_checksum();
        self.current.valid = self.current.checksum == self.current.calculated_checksum;
        if self.current.valid {
            self.current.timestamp_ms = now_ms;
            self.last_valid = self.current;
            self.new_data = true;
        }
    }

    fn calculate_checksum(&self) -> (r: u32)
        requires
            self.wf(),
        ensures
            r == casic_checksum(
                self.current.class_id,
                self.current.msg_id,
                self.current.payload_length,
                self.current.payload@,
            ),
    {
        let len = self.current.payload_length;
        let mut checksum: u32 = (self.current.msg_id as u32) * 16777216 + (
        self.current.class_id as u32) * 65536 + (len as u32);
        let words: usize = (len as usize) / 4;
        let ghost p = self.current.payload@;
        let ghost base = 16777216 * self.current.msg_id + 65536 * self.current.class_id + len;
        let mut i: usize = 0;
        while i < words
            invariant
                words == len / 4,
                len <= 256,
                p == self.current.payload@,
                i <= words,
                checksum == (base + words_sum(p, i as nat)) % 0x1_0000_0000,
            decreases words - i,
        {
            let b = i * 4;
            let word: u32 = (self.current.payload[b] as u32) + (self.current.payload[b + 1] as u32)
                * 256 + (self.current.payload[b + 2] as u32) * 65536 + (self.current.payload[b
                + 3] as u32) * 16777216;
            assert(word == payload_word(p, i as int));
            let ghost prev = checksum;
            checksum = checksum.wrapping_add(word);
            proof {
                assert(words_sum(p, (i + 1) as nat) == words_sum(p, i as nat) + payload_word(
                    p,
                    i as int,
                ));
                vstd::arithmetic::div_mod::lemma_add_mod_noop(
                    base + words_sum(p, i as nat),
                    word as int,
                    0x1_0000_0000,
                );
                vstd::arithmetic::div_mod::lemma_small_mod(word as nat, 0x1_0000_0000);
            }
            i = i + 1;
        }
        assert(base + words_sum(p, words as nat) >= 0) by {
            lemma_words_sum_nonneg(p, words as nat);
        }
        checksum
    }

    fn reset_parser(&mut self, now_ms: u64)
        ensures
            final(self).wf(),
            final(self).view() == reset_view(old(self).view(), now_ms),
            final(self).checksum_bytes == old(self).checksum_bytes,
            final(self).new_data == old(self).new_data,
            final(self).last_valid == old(self).last_valid,
    {
        self.state = CasicParserState::Idle;
        self.payload_index = 0;
        self.checksum_index = 0;
        self.state_change_ms = now_ms;
        self.current = CasicPacket::default();
    }

    fn is_timeout(&self, now_ms: u64) -> (r: bool)
        ensures
            r == view_timed_out(self.view(), now_ms),
    {
        if self.state == CasicParserState::Idle {
            return false;
        }
        now_ms > self.state_change_ms && now_ms - self.state_change_ms > CASIC_PACKET_TIMEOUT_MS
    }
}

proof fn lemma_words_sum_nonneg(p: Seq<u8>, n: nat)
    ensures
        words_sum(p, n) >= 0,
    decreases n,
{
    if n > 0 {
        lemma_words_sum_nonneg(p, (n - 1) as nat);
    }
}

/// The framer is a function of its byte history: equal views fed the same
/// bytes stay equal.
pub proof fn lemma_framer_deterministic(v1: ParserView, v2: ParserView, bytes: Seq<(u8, u64)>)
    requires
        v1 == v2,
    ensures
        feed(v1, bytes) == feed(v2, bytes),
{
}

/// A byte raises the event, or changes the last valid frame, only when it ends
/// a frame whose declared checksum equals the computed one; that frame then
/// becomes the last valid frame.
pub proof fn lemma_event_needs_valid_frame(v: ParserView, byte: u8, now_ms: u64)
    requires
        v.cksum.len() == 4,
    ensures
        ({
            let (w, done) = frame_step(v, byte, now_ms);
            let u = if view_timed_out(v, now_ms) {
                reset_view(v, now_ms)
            } else {
                v
            };
            let c = u.current;
            let declared = le_word(u.cksum[0], u.cksum[1], u.cksum[2], byte) as u32;
            let ok = done && declared == casic_checksum(
                c.class_id,
                c.msg_id,
                c.payload_length,
                c.payload,
            );
            &&& done == (u.state == CasicParserState::Checksum4)
            &&& ok ==> w.new_data && w.last_valid.class_id == c.class_id && w.last_valid.msg_id
                == c.msg_id && w.last_valid.payload == c.payload && w.last_valid.valid
            &&& !ok ==> w.new_data == v.new_data && w.last_valid == v.last_valid
            &&& done ==> w.state == CasicParserState::Idle
        }),
{
}

/// Over any byte sequence in which no byte completes a frame, the event flag
/// and the last valid frame stay as they were: partial frames never raise an
/// event, and a consumed event stays consumed until a frame completes.
pub proof fn lemma_no_frame_no_event(v: ParserView, bytes: Seq<(u8, u64)>)
    requires
        v.cksum.len() == 4,
        forall|k: int|
            0 <= k < bytes.len() ==> !(#[trigger] frame_step(
                feed(v, bytes.subrange(0, k)),
                bytes[k].0,
                bytes[k].1,
            )).1,
    ensures
        feed(v, bytes).new_data == v.new_data,
        feed(v, bytes).last_valid == v.last_valid,
        feed(v, bytes).cksum.len() == 4,
    decreases bytes.len(),
{
    if bytes.len() > 0 {
        let init = bytes.drop_last();
        assert forall|k: int| 0 <= k < init.len() implies !(#[trigger] frame_step(
            feed(v, init.subrange(0, k)),
            init[k].0,
            init[k].1,
        )).1 by {
            assert(init.subrange(0, k) =~= bytes.subrange(0, k));
            assert(init[k] == bytes[k]);
        }
        lemma_no_frame_no_event(v, init);
        let k = bytes.len() - 1;
        assert(bytes.subrange(0, k) =~= init);
        let w = feed(v, init);
        lemma_event_needs_valid_frame(w, bytes.last().0, bytes.last().1);
    }
}

} // verus!
