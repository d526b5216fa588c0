//! Accumulates one NMEA sentence from `$` to the line feed, trailing carriage
//! return dropped; a sentence longer than the buffer is discarded.
use vstd::prelude::*;
use vstd::string::StringSliceAdditionalSpecFns;

verus! {

pub const NMEA_MAX_LEN: usize = 96;

pub struct NmeaBuffer {
    buf: Vec<u8>,
    in_sentence: bool,
}

/// Relies on `core::str::from_utf8`: on success the string holds exactly the
/// bytes; ASCII bytes are valid UTF-8, so they always succeed.
#[verifier::external_body]
fn str_from_utf8(b: &[u8]) -> (r: Option<&str>)
    ensures
        r matches Some(s) ==> s.spec_bytes() == b@,
        (forall|i: int| 0 <= i < b@.len() ==> b@[i] < 0x80) ==> r is Some,
{
    core::str::from_utf8(b).ok()
}

impl NmeaBuffer {
    /// The bytes of the sentence in progress (or of the last complete one).
    pub closed spec fn bytes(&self) -> Seq<u8> {
        self.buf@
    }

    pub closed spec fn in_sentence(&self) -> bool {
        self.in_sentence
    }

    pub closed spec fn wf(&self) -> bool {
        self.buf@.len() <= NMEA_MAX_LEN
    }

    pub fn new() -> (r: Self)
        ensures
            r.wf(),
            r.bytes().len() == 0,
            !r.in_sentence(),
    {
        NmeaBuffer { buf: Vec::new(), in_sentence: false }
    }

    pub fn reset(&mut self)
        ensures
            final(self).wf(),
            final(self).bytes().len() == 0,
            !final(self).in_sentence(),
    {
        self.buf = Vec::new();
        self.in_sentence = false;
    }

    /// Takes one byte; at the line feed that ends a sentence returns its length
    /// without a trailing carriage return.
    pub fn push(&mut self, byte: u8) -> (r: Option<usize>)
        requires
            old(self).wf(),
        ensures
            final(self).wf(),
            byte == 0x24 ==> r is None && final(self).in_sentence() && final(self).bytes()
                == seq![0x24u8],
            byte != 0x24 && !old(self).in_sentence() ==> r is None && final(self).bytes() == old(
                self,
            ).bytes() && !final(self).in_sentence(),
            byte != 0x24 && old(self).in_sentence() && byte == 0x0A ==> {
                let b = old(self).bytes();
                &&& !final(self).in_sentence()
                &&& final(self).bytes() == b
                &&& r == Some((if b.len() > 0 && b.last() == 0x0D {
                    b.len() - 1
                } else {
                    b.len() as int
                }) as usize)
            },
            byte != 0x24 && old(self).in_sentence() && byte != 0x0A ==> r is None && (if old(
                self,
            ).bytes().len() < NMEA_MAX_LEN {
                final(self).in_sentence() && final(self).bytes() == old(self).bytes().push(byte)
            } else {
                !final(self).in_sentence() && final(self).bytes().len() == 0
            }),
    {
        if byte == 0x24 {
            let mut v: Vec<u8> = Vec::new();
            v.push(byte);
            self.buf = v;
            self.in_sentence = true;
            assert(self.buf@ =~= seq![0x24u8]);
            return None;
        }
        if !self.in_sentence {
            return None;
        }
        if byte == 0x0A {
            let mut len = self.buf.len();
            if len > 0 && self.buf[len - 1] == 0x0D {
                len = len - 1;
            }
            self.in_sentence = false;
            return Some(len);
        }
        if self.buf.len() < NMEA_MAX_LEN {
            self.buf.push(byte);
        } else {
            self.in_sentence = false;
            self.buf = Vec::new();
        }
        None
    }

    /// The first `len` bytes as text, when they are valid UTF-8.
    pub fn as_str(&self, len: usize) -> (r: Option<&str>)
        requires
            len <= self.bytes().len(),
        ensures
            r matches Some(s) ==> s.spec_bytes() == self.bytes().subrange(0, len as int),
            (forall|i: int| 0 <= i < len ==> self.bytes()[i] < 0x80) ==> r is Some,
    {
        let b = vstd::slice::slice_subrange(self.buf.as_slice(), 0, len);
        str_from_utf8(b)
    }
}

/// The fix-quality gate: a position counts when the receiver reports a valid
/// fix with a date from 2025 on and at least four satellites, and either the
/// HDOP is at most 2.0 or the running mean speed is above 20 km/h.
pub fn location_valid(
    has_fix: bool,
    year: u16,
    satellites: u32,
    hdop_ok: bool,
    high_speed: bool,
) -> (r: bool)
    ensures
        r == (has_fix && year >= 2025 && satellites >= 4 && (hdop_ok || high_speed)),
{
    let date_time_valid = year >= 2025;
    let satellites_valid = satellites >= 4;
    if high_speed && satellites_valid {
        has_fix && date_time_valid && satellites_valid
    } else {
        has_fix && date_time_valid && hdop_ok && satellites_valid
    }
}

} // verus!
