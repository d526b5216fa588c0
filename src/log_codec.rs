//! Track-log records: a 17-byte full anchor (`0xFE`, timestamp, latitude and
//! longitude x 1e7, altitude x 10, each little-endian 32-bit) or a delta record
//! (header `0x10 | t<<3 | lat<<2 | lon<<1 | alt`, then each non-zero difference
//! as a zig-zag varint). Every `interval`-th record is an anchor.
use vstd::prelude::*;

verus! {

pub const FULL_BLOCK_INTERVAL: usize = 64;

pub const FULL_RECORD_LEN: usize = 17;

/// A fix in the log's integer units.
#[derive(Clone, Copy, Debug, PartialEq, Eq, Structural)]
pub struct GpxPointInternal {
    pub timestamp: u32,
    pub latitude_scaled_1e7: i32,
    pub longitude_scaled_1e7: i32,
    pub altitude_m_scaled_1e1: i32,
}

/// The four little-endian bytes of a value in `[0, 2^32)`.
pub open spec fn le32(v: int) -> Seq<u8> {
    seq![(v % 256) as u8, ((v / 256) % 256) as u8, ((v / 65536) % 256) as u8, ((v / 16777216) % 256) as u8]
}

/// The two's-complement bit pattern of an `i32`.
pub open spec fn bits32(v: i32) -> int {
    if v >= 0 {
        v as int
    } else {
        v + 0x1_0000_0000
    }
}

/// A 32-bit pattern read as a signed value.
pub open spec fn signed32(u: int) -> int {
    if u >= 0x8000_0000 {
        u - 0x1_0000_0000
    } else {
        u
    }
}

/// `a - b` on 32-bit patterns, read as signed (wrapping difference).
#[verifier::opaque]
pub open spec fn wdiff(a: int, b: int) -> int {
    signed32((a - b) % 0x1_0000_0000)
}

pub open spec fn zigzag(v: int) -> int {
    if v >= 0 {
        2 * v
    } else {
        -2 * v - 1
    }
}

/// Little-endian base-128 digits, high bit set on all but the last.
pub open spec fn varint(z: nat) -> Seq<u8>
    decreases z,
{
    if z < 128 {
        seq![z as u8]
    } else {
        seq![(z % 128 + 128) as u8] + varint(z / 128)
    }
}

/// The bytes of one delta field: nothing when the difference is zero.
#[verifier::opaque]
pub open spec fn field(d: int) -> Seq<u8> {
    if d == 0 {
        Seq::empty()
    } else {
        varint(zigzag(d) as nat)
    }
}

pub open spec fn full_record(p: GpxPointInternal) -> Seq<u8> {
    seq![0xFEu8] + le32(p.timestamp as int) + le32(bits32(p.latitude_scaled_1e7)) + le32(
        bits32(p.longitude_scaled_1e7),
    ) + le32(bits32(p.altitude_m_scaled_1e1))
}

pub open spec fn delta_header(dt: int, dla: int, dlo: int, dal: int) -> u8 {
    (0x10 + (if dt != 0 {
        8int
    } else {
        0
    }) + (if dla != 0 {
        4int
    } else {
        0
    }) + (if dlo != 0 {
        2int
    } else {
        0
    }) + (if dal != 0 {
        1int
    } else {
        0
    })) as u8
}

pub open spec fn delta_record(prev: GpxPointInternal, p: GpxPointInternal) -> Seq<u8> {
    let dt = wdiff(p.timestamp as int, prev.timestamp as int);
    let dla = wdiff(bits32(p.latitude_scaled_1e7), bits32(prev.latitude_scaled_1e7));
    let dlo = wdiff(bits32(p.longitude_scaled_1e7), bits32(prev.longitude_scaled_1e7));
    let dal = wdiff(bits32(p.altitude_m_scaled_1e1), bits32(prev.altitude_m_scaled_1e1));
    seq![delta_header(dt, dla, dlo, dal)] + field(dt) + field(dla) + field(dlo) + field(dal)
}

/// Whether the next record is an anchor, given the first-point flag and the
/// deltas written since the last anchor.
pub open spec fn next_is_full(first: bool, since: nat, interval: nat) -> bool {
    first || interval <= 1 || since + 1 >= interval
}

/// The encoder's anchor bookkeeping after `k` records from a fresh start.
pub open spec fn since_after(k: nat, interval: nat) -> nat
    decreases k,
{
    if k == 0 {
        0
    } else {
        let s = since_after((k - 1) as nat, interval);
        if next_is_full(k - 1 == 0, s, interval) {
            0
        } else {
            s + 1
        }
    }
}

/// Whether record `k` (from 0) of a fresh encoder is an anchor.
pub open spec fn record_is_full(k: nat, interval: nat) -> bool {
    next_is_full(k == 0, since_after(k, interval), interval)
}

/// `(x + 1) mod m` from `x mod m`.
proof fn lemma_mod_succ(x: int, m: int)
    requires
        x >= 0,
        m > 0,
    ensures
        (x + 1) % m == (if x % m + 1 == m {
            0
        } else {
            x % m + 1
        }),
{
    vstd::arithmetic::div_mod::lemma_fundamental_div_mod(x, m);
    vstd::arithmetic::div_mod::lemma_mod_bound(x, m);
    let q = x / m;
    let r = x % m;
    if r + 1 == m {
        assert(x + 1 == (q + 1) * m + 0) by (nonlinear_arith)
            requires
                x == m * q + r,
                r + 1 == m,
        ;
        vstd::arithmetic::div_mod::lemma_fundamental_div_mod_converse(x + 1, m, q + 1, 0);
    } else {
        assert(x + 1 == q * m + (r + 1)) by (nonlinear_arith)
            requires
                x == m * q + r,
        ;
        vstd::arithmetic::div_mod::lemma_fundamental_div_mod_converse(x + 1, m, q, r + 1);
    }
}

/// From a fresh encoder, record `k` is a full anchor exactly when `k` is a
/// multiple of the interval.
pub proof fn lemma_anchor_schedule(k: nat, interval: nat)
    requires
        interval >= 1,
    ensures
        k > 0 ==> since_after(k, interval) == (k - 1) % (interval as int),
        record_is_full(k, interval) == (k % interval == 0),
    decreases k,
{
    if k > 1 {
        lemma_anchor_schedule((k - 1) as nat, interval);
        lemma_mod_succ(k - 2, interval as int);
    }
    if k > 0 {
        lemma_mod_succ(k - 1, interval as int);
        vstd::arithmetic::div_mod::lemma_mod_bound(k - 1, interval as int);
        if k == 1 {
            vstd::arithmetic::div_mod::lemma_small_mod(0, interval);
        }
    } else {
        vstd::arithmetic::div_mod::lemma_small_mod(0, interval);
    }
}

/// The two's-complement bit pattern of an `i32`.
fn i32_bits(v: i32) -> (r: u32)
    ensures
        r as int == bits32(v),
{
    if v >= 0 {
        v as u32
    } else {
        ((v as i64) + 0x1_0000_0000) as u32
    }
}

/// The wrapping difference of two patterns, read as signed, is `wdiff`.
proof fn lemma_pattern_diff(a: int, b: int, d: u32)
    requires
        0 <= a < 0x1_0000_0000,
        0 <= b < 0x1_0000_0000,
        d as int == (if a >= b {
            a - b
        } else {
            a - b + 0x1_0000_0000
        }),
    ensures
        signed32(d as int) == wdiff(a, b),
        (d != 0) == (wdiff(a, b) != 0),
        d as int == (a - b) % 0x1_0000_0000,
{
    reveal(wdiff);
    if a >= b {
        vstd::arithmetic::div_mod::lemma_small_mod((a - b) as nat, 0x1_0000_0000);
    } else {
        vstd::arithmetic::div_mod::lemma_small_mod((a - b + 0x1_0000_0000) as nat, 0x1_0000_0000);
        vstd::arithmetic::div_mod::lemma_mod_add_multiples_vanish(a - b, 0x1_0000_0000);
    }
}

/// A varint has between one and five bytes for a 32-bit value.
pub proof fn lemma_varint_len(z: nat)
    ensures
        varint(z).len() >= 1,
        z < 128 ==> varint(z).len() == 1,
        z < 16384 ==> varint(z).len() <= 2,
        z < 2097152 ==> varint(z).len() <= 3,
        z < 268435456 ==> varint(z).len() <= 4,
        z < 0x8_0000_0000 ==> varint(z).len() <= 5,
    decreases z,
{
    if z >= 128 {
        lemma_varint_len(z / 128);
    }
}

pub struct GpsDataEncoder {
    buffer: Vec<u8>,
    previous_point: GpxPointInternal,
    full_block_interval: usize,
    points_since_last_full_block: usize,
    is_first_point: bool,
}

impl GpsDataEncoder {
    pub closed spec fn interval(&self) -> nat {
        self.full_block_interval as nat
    }

    pub closed spec fn since(&self) -> nat {
        self.points_since_last_full_block as nat
    }

    pub closed spec fn first(&self) -> bool {
        self.is_first_point
    }

    pub closed spec fn previous(&self) -> GpxPointInternal {
        self.previous_point
    }

    /// The bytes of the last record.
    pub closed spec fn record(&self) -> Seq<u8> {
        self.buffer@
    }

    pub closed spec fn wf(&self) -> bool {
        &&& self.full_block_interval >= 1
        &&& self.points_since_last_full_block < self.full_block_interval
        &&& self.buffer@.len() <= FULL_RECORD_LEN + 20
    }

    /// A fresh encoder; an interval of 0 counts as 1.
    pub fn new(full_block_interval: usize) -> (r: Self)
        ensures
            r.wf(),
            r.interval() == (if full_block_interval == 0 {
                1
            } else {
                full_block_interval as nat
            }),
            r.first(),
            r.since() == 0,
            r.record().len() == 0,
    {
        GpsDataEncoder {
            buffer: Vec::new(),
            previous_point: GpxPointInternal {
                timestamp: 0,
                latitude_scaled_1e7: 0,
                longitude_scaled_1e7: 0,
                altitude_m_scaled_1e1: 0,
            },
            full_block_interval: if full_block_interval == 0 {
                1
            } else {
                full_block_interval
            },
            points_since_last_full_block: 0,
            is_first_point: true,
        }
    }

    /// Starts a fresh session with the same interval.
    pub fn clear(&mut self)
        requires
            old(self).wf(),
        ensures
            final(self).wf(),
            final(self).interval() == old(self).interval(),
            final(self).first(),
            final(self).since() == 0,
            final(self).record().len() == 0,
    {
        *self = GpsDataEncoder::new(self.full_block_interval);
    }

    pub fn buffer(&self) -> (r: &[u8])
        ensures
            r@ == self.record(),
    {
        self.buffer.as_slice()
    }

    /// Encodes one point as an anchor or as a delta from the previous point;
    /// returns the record's length.
    pub fn encode(&mut self, point: GpxPointInternal) -> (r: usize)
        requires
            old(self).wf(),
        ensures
            final(self).wf(),
            final(self).interval() == old(self).interval(),
            final(self).previous() == point,
            !final(self).first(),
            r == final(self).record().len(),
            r <= FULL_RECORD_LEN + 20,
            next_is_full(old(self).first(), old(self).since(), old(self).interval()) ==> {
                &&& final(self).record() == full_record(point)
                &&& final(self).since() == 0
            },
            !next_is_full(old(self).first(), old(self).since(), old(self).interval()) ==> {
                &&& final(self).record() == delta_record(old(self).previous(), point)
                &&& final(self).since() == old(self).since() + 1
            },
    {
        self.buffer = Vec::new();
        let use_full = self.is_first_point || self.full_block_interval == 1
            || self.points_since_last_full_block >= self.full_block_interval - 1;
        if use_full {
            self.write_u8(0xFE);
            self.write_u32_le(point.timestamp);
            self.write_i32_le(point.latitude_scaled_1e7);
            self.write_i32_le(point.longitude_scaled_1e7);
            self.write_i32_le(point.altitude_m_scaled_1e1);
            self.points_since_last_full_block = 0;
            self.is_first_point = false;
            assert(self.buffer@ =~= full_record(point));
        } else {
            let prev = self.previous_point;
            let dt = point.timestamp.wrapping_sub(prev.timestamp);
            let dla = i32_bits(point.latitude_scaled_1e7).wrapping_sub(
                i32_bits(prev.latitude_scaled_1e7),
            );
            let dlo = i32_bits(point.longitude_scaled_1e7).wrapping_sub(
                i32_bits(prev.longitude_scaled_1e7),
            );
            let dal = i32_bits(point.altitude_m_scaled_1e1).wrapping_sub(
                i32_bits(prev.altitude_m_scaled_1e1),
            );
            let header: u8 = 0x10 + (if dt != 0 {
                8u8
            } else {
                0
            }) + (if dla != 0 {
                4u8
            } else {
                0
            }) + (if dlo != 0 {
                2u8
            } else {
                0
            }) + (if dal != 0 {
                1u8
            } else {
                0
            });
            self.write_u8(header);
            let ghost b0 = self.buffer@;
            if dt != 0 {
                self.write_varint_s32(dt);
            }
            let ghost b1 = self.buffer@;
            if dla != 0 {
                self.write_varint_s32(dla);
            }
            let ghost b2 = self.buffer@;
            if dlo != 0 {
                self.write_varint_s32(dlo);
            }
            let ghost b3 = self.buffer@;
            if dal != 0 {
                self.write_varint_s32(dal);
            }
            proof {
                reveal(field);
                lemma_pattern_diff(point.timestamp as int, prev.timestamp as int, dt);
                lemma_pattern_diff(
                    bits32(point.latitude_scaled_1e7),
                    bits32(prev.latitude_scaled_1e7),
                    dla,
                );
                lemma_pattern_diff(
                    bits32(point.longitude_scaled_1e7),
                    bits32(prev.longitude_scaled_1e7),
                    dlo,
                );
                lemma_pattern_diff(
                    bits32(point.altitude_m_scaled_1e1),
                    bits32(prev.altitude_m_scaled_1e1),
                    dal,
                );
                assert(self.buffer@ =~= delta_record(prev, point));
            }
            self.points_since_last_full_block = self.points_since_last_full_block + 1;
        }
        self.previous_point = point;
        self.buffer.len()
    }

    fn write_u8(&mut self, value: u8)
        requires
            old(self).buffer@.len() < FULL_RECORD_LEN + 20,
        ensures
            final(self).buffer@ == old(self).buffer@.push(value),
            final(self).previous_point == old(self).previous_point,
            final(self).full_block_interval == old(self).full_block_interval,
            final(self).points_since_last_full_block == old(self).points_since_last_full_block,
            final(self).is_first_point == old(self).is_first_point,
    {
        self.buffer.push(value);
    }

    fn write_u32_le(&mut self, value: u32)
        requires
            old(self).buffer@.len() + 4 <= FULL_RECORD_LEN + 20,
        ensures
            final(self).buffer@ == old(self).buffer@ + le32(value as int),
            final(self).previous_point == old(self).previous_point,
            final(self).full_block_interval == old(self).full_block_interval,
            final(self).points_since_last_full_block == old(self).points_since_last_full_block,
            final(self).is_first_point == old(self).is_first_point,
    {
        self.write_u8((value % 256) as u8);
        self.write_u8(((value / 256) % 256) as u8);
        self.write_u8(((value / 65536) % 256) as u8);
        self.write_u8(((value / 16777216) % 256) as u8);
        assert(self.buffer@ =~= old(self).buffer@ + le32(value as int));
    }

    fn write_i32_le(&mut self, value: i32)
        requires
            old(self).buffer@.len() + 4 <= FULL_RECORD_LEN + 20,
        ensures
            final(self).buffer@ == old(self).buffer@ + le32(bits32(value)),
            final(self).previous_point == old(self).previous_point,
            final(self).full_block_interval == old(self).full_block_interval,
            final(self).points_since_last_full_block == old(self).points_since_last_full_block,
            final(self).is_first_point == old(self).is_first_point,
    {
        self.write_u32_le(i32_bits(value));
    }

    /// Writes the zig-zag varint of the signed value whose pattern is `value`.
    fn write_varint_s32(&mut self, value: u32)
        requires
            old(self).buffer@.len() + 5 <= FULL_RECORD_LEN + 20,
        ensures
            final(self).buffer@ == old(self).buffer@ + varint(zigzag(signed32(value as int)) as nat),
            final(self).buffer@.len() <= old(self).buffer@.len() + 5,
            final(self).previous_point == old(self).previous_point,
            final(self).full_block_interval == old(self).full_block_interval,
            final(self).points_since_last_full_block == old(self).points_since_last_full_block,
            final(self).is_first_point == old(self).is_first_point,
    {
        let mut zz: u32 = if value < 0x8000_0000 {
            value * 2
        } else {
            (0xFFFF_FFFF - value) * 2 + 1
        };
        let ghost z0 = zz as nat;
        let ghost start = self.buffer@;
        proof {
            lemma_varint_len(z0);
        }
        while zz >= 0x80
            invariant
                start + varint(z0) == self.buffer@ + varint(zz as nat),
                self.buffer@.len() + varint(zz as nat).len() <= start.len() + 5,
                start.len() + 5 <= FULL_RECORD_LEN + 20,
                self.previous_point == old(self).previous_point,
                self.full_block_interval == old(self).full_block_interval,
                self.points_since_last_full_block == old(self).points_since_last_full_block,
                self.is_first_point == old(self).is_first_point,
            decreases zz,
        {
            let ghost before = self.buffer@;
            let ghost zold = zz as nat;
            proof {
                lemma_varint_len((zz / 128) as nat);
            }
            self.write_u8(((zz % 128) + 128) as u8);
            zz = zz / 128;
            proof {
                assert(varint(zold) == seq![(zold % 128 + 128) as u8] + varint(zz as nat));
                assert(start + varint(z0) =~= self.buffer@ + varint(zz as nat));
            }
        }
        self.write_u8(zz as u8);
        proof {
            assert(varint(zz as nat) == seq![zz as u8]);
            assert(self.buffer@ =~= start + varint(z0));
        }
    }
}

/// The varint at `pos`, read over at most `left` bytes: its value and the
/// position after it.
pub open spec fn parse_varint(s: Seq<u8>, pos: int, left: nat) -> Option<(int, int)>
    decreases left,
{
    if left == 0 || pos < 0 || pos >= s.len() {
        None
    } else if s[pos] < 128 {
        Some((s[pos] as int, pos + 1))
    } else {
        match parse_varint(s, pos + 1, (left - 1) as nat) {
            Some((v, e)) => Some((s[pos] - 128 + 128 * v, e)),
            None => None,
        }
    }
}

pub open spec fn unzigzag(z: int) -> int {
    if z % 2 == 0 {
        z / 2
    } else {
        -((z + 1) / 2)
    }
}

/// One delta field at `pos`: the difference and the position after it.
pub open spec fn parse_field(s: Seq<u8>, pos: int, present: bool) -> Option<(int, int)> {
    if !present {
        Some((0, pos))
    } else {
        match parse_varint(s, pos, 5) {
            Some((z, e)) => if z < 0x1_0000_0000 {
                Some((unzigzag(z), e))
            } else {
                None
            },
            None => None,
        }
    }
}

/// The 32-bit pattern `a + d`, wrapping.
pub open spec fn wadd(a: int, d: int) -> int {
    (a + d) % 0x1_0000_0000
}

/// The `u32` read little-endian at `pos`.
pub open spec fn le_at(s: Seq<u8>, pos: int) -> int {
    s[pos] + 256 * s[pos + 1] + 65536 * s[pos + 2] + 16777216 * s[pos + 3]
}

pub open spec fn point_of(ts: int, lat: int, lon: int, alt: int) -> GpxPointInternal {
    GpxPointInternal {
        timestamp: ts as u32,
        latitude_scaled_1e7: signed32(lat) as i32,
        longitude_scaled_1e7: signed32(lon) as i32,
        altitude_m_scaled_1e1: signed32(alt) as i32,
    }
}

/// What a record at the start of `s` decodes to, given the previous point.
pub open spec fn decode_spec(s: Seq<u8>, prev: GpxPointInternal) -> Option<(GpxPointInternal, int)> {
    if s.len() == 0 {
        None
    } else if s[0] == 0xFE {
        if s.len() < 17 {
            None
        } else {
            Some((point_of(le_at(s, 1), le_at(s, 5), le_at(s, 9), le_at(s, 13)), 17))
        }
    } else if s[0] / 16 != 1 {
        None
    } else {
        let h = s[0] as int;
        match parse_field(s, 1, (h / 8) % 2 == 1) {
            None => None,
            Some((dt, p1)) => match parse_field(s, p1, (h / 4) % 2 == 1) {
                None => None,
                Some((dla, p2)) => match parse_field(s, p2, (h / 2) % 2 == 1) {
                    None => None,
                    Some((dlo, p3)) => match parse_field(s, p3, h % 2 == 1) {
                        None => None,
                        Some((dal, p4)) => Some(
                            (
                                point_of(
                                    wadd(prev.timestamp as int, dt),
                                    wadd(bits32(prev.latitude_scaled_1e7), dla),
                                    wadd(bits32(prev.longitude_scaled_1e7), dlo),
                                    wadd(bits32(prev.altitude_m_scaled_1e1), dal),
                                ),
                                p4,
                            ),
                        ),
                    },
                },
            },
        }
    }
}

/// A parsed varint ends inside the bytes and is non-negative.
proof fn lemma_parse_varint_bounds(s: Seq<u8>, pos: int, left: nat)
    ensures
        parse_varint(s, pos, left) matches Some((v, e)) ==> pos < e <= s.len() && v >= 0,
    decreases left,
{
    if left > 0 && 0 <= pos < s.len() && s[pos] >= 128 {
        lemma_parse_varint_bounds(s, pos + 1, (left - 1) as nat);
    }
}

pub open spec fn pow128(i: nat) -> int
    decreases i,
{
    if i == 0 {
        1
    } else {
        128 * pow128((i - 1) as nat)
    }
}

/// Reads the varint at `pos` (at most five bytes).
fn read_varint(bytes: &[u8], pos: usize) -> (r: Option<(u64, usize)>)
    ensures
        match parse_varint(bytes@, pos as int, 5) {
            Some((v, e)) => r == Some((v as u64, e as usize)) && v < 0x8_0000_0000,
            None => r is None,
        },
{
    let len = bytes.len();
    let mut acc: u64 = 0;
    let mut mult: u64 = 1;
    let mut i: usize = 0;
    let mut p: usize = pos;
    while i < 5
        invariant
            len == bytes@.len(),
            i <= 5,
            p == pos + i,
            mult == pow128(i as nat),
            acc < mult,
            parse_varint(bytes@, pos as int, 5) == match parse_varint(bytes@, p as int, (5 - i) as nat) {
                Some((v, e)) => Some((acc + mult * v, e)),
                None => None::<(int, int)>,
            },
        decreases 5 - i,
    {
        proof {
            reveal_with_fuel(pow128, 6);
        }
        if p >= len {
            return None;
        }
        let b = bytes[p];
        if b < 128 {
            proof {
                assert(parse_varint(bytes@, p as int, (5 - i) as nat) == Some((b as int, p + 1)));
                assert(acc + mult * b < 0x8_0000_0000) by (nonlinear_arith)
                    requires
                        acc < mult,
                        mult <= 0x1000_0000,
                        b < 128,
                ;
            }
            return Some((acc + mult * (b as u64), p + 1));
        }
        proof {
            let rest = parse_varint(bytes@, p + 1, (4 - i) as nat);
            if let Some((v, e)) = rest {
                assert(acc + mult * (b - 128 + 128 * v) == (acc + mult * (b - 128)) + (mult * 128)
                    * v) by (nonlinear_arith);
            }
            assert(acc + mult * (b - 128) < mult * 128) by (nonlinear_arith)
                requires
                    acc < mult,
                    b < 256,
                    b >= 128,
            ;
        }
        acc = acc + mult * ((b - 128) as u64);
        mult = mult * 128;
        p = p + 1;
        i = i + 1;
    }
    None
}

/// The signed value of a 32-bit pattern.
fn i32_of_bits(u: u32) -> (r: i32)
    ensures
        r as int == signed32(u as int),
{
    if u < 0x8000_0000 {
        u as i32
    } else {
        ((u as i64) - 0x1_0000_0000) as i32
    }
}

/// The `u32` stored little-endian at `pos`.
fn read_u32_le(bytes: &[u8], pos: usize) -> (r: u32)
    requires
        pos + 4 <= bytes@.len(),
    ensures
        r as int == le_at(bytes@, pos as int),
{
    (bytes[pos] as u32) + (bytes[pos + 1] as u32) * 256 + (bytes[pos + 2] as u32) * 65536 + (
    bytes[pos + 3] as u32) * 16777216
}

/// One delta field: the difference as a 32-bit pattern, and the next position.
fn read_field(bytes: &[u8], pos: usize, present: bool) -> (r: Option<(u32, usize)>)
    ensures
        match parse_field(bytes@, pos as int, present) {
            Some((d, e)) => r matches Some((u, e2)) && u as int == d % 0x1_0000_0000 && e2 == e,
            None => r is None,
        },
{
    if !present {
        return Some((0, pos));
    }
    let _n = bytes.len();
    proof {
        lemma_parse_varint_bounds(bytes@, pos as int, 5);
    }
    match read_varint(bytes, pos) {
        None => None,
        Some((z, e)) => {
            if z >= 0x1_0000_0000 {
                return None;
            }
            if z % 2 == 0 {
                Some(((z / 2) as u32, e))
            } else {
                let m = (z + 1) / 2;
                proof {
                    vstd::arithmetic::div_mod::lemma_mod_add_multiples_vanish(-m, 0x1_0000_0000);
                    vstd::arithmetic::div_mod::lemma_small_mod(
                        (0x1_0000_0000 - m) as nat,
                        0x1_0000_0000,
                    );
                }
                Some(((0x1_0000_0000 - m) as u32, e))
            }
        },
    }
}

/// Decodes the record at the start of `bytes`, given the previous point:
/// the point and the record's length, or `None` when the bytes are not a record.
#[verifier::rlimit(60)]
#[verifier::spinoff_prover]
pub fn decode_record(bytes: &[u8], prev: GpxPointInternal) -> (r: Option<(GpxPointInternal, usize)>)
    ensures
        match decode_spec(bytes@, prev) {
            Some((q, n)) => r == Some((q, n as usize)),
            None => r is None,
        },
{
    let len = bytes.len();
    if len == 0 {
        return None;
    }
    let h = bytes[0];
    if h == 0xFE {
        if len < 17 {
            return None;
        }
        let ts = read_u32_le(bytes, 1);
        let lat = i32_of_bits(read_u32_le(bytes, 5));
        let lon = i32_of_bits(read_u32_le(bytes, 9));
        let alt = i32_of_bits(read_u32_le(bytes, 13));
        let q = GpxPointInternal {
            timestamp: ts,
            latitude_scaled_1e7: lat,
            longitude_scaled_1e7: lon,
            altitude_m_scaled_1e1: alt,
        };
        return Some((q, 17));
    }
    if h / 16 != 1 {
        return None;
    }
    let (dt, p1) = match read_field(bytes, 1, (h / 8) % 2 == 1) {
        Some(x) => x,
        None => return None,
    };
    let (dla, p2) = match read_field(bytes, p1, (h / 4) % 2 == 1) {
        Some(x) => x,
        None => return None,
    };
    let (dlo, p3) = match read_field(bytes, p2, (h / 2) % 2 == 1) {
        Some(x) => x,
        None => return None,
    };
    let (dal, p4) = match read_field(bytes, p3, h % 2 == 1) {
        Some(x) => x,
        None => return None,
    };
    let ts = prev.timestamp.wrapping_add(dt);
    let lat = i32_of_bits(i32_bits(prev.latitude_scaled_1e7).wrapping_add(dla));
    let lon = i32_of_bits(i32_bits(prev.longitude_scaled_1e7).wrapping_add(dlo));
    let alt = i32_of_bits(i32_bits(prev.altitude_m_scaled_1e1).wrapping_add(dal));
    proof {
        let spec_r = decode_spec(bytes@, prev);
        let (sdt, _) = parse_field(bytes@, 1, (h / 8) % 2 == 1)->Some_0;
        let (sdla, _) = parse_field(bytes@, p1 as int, (h / 4) % 2 == 1)->Some_0;
        let (sdlo, _) = parse_field(bytes@, p2 as int, (h / 2) % 2 == 1)->Some_0;
        let (sdal, _) = parse_field(bytes@, p3 as int, h % 2 == 1)->Some_0;
        lemma_wadd_pattern(prev.timestamp as int, sdt, dt as int);
        lemma_wadd_pattern(bits32(prev.latitude_scaled_1e7), sdla, dla as int);
        lemma_wadd_pattern(bits32(prev.longitude_scaled_1e7), sdlo, dlo as int);
        lemma_wadd_pattern(bits32(prev.altitude_m_scaled_1e1), sdal, dal as int);
    }
    let q = GpxPointInternal {
        timestamp: ts,
        latitude_scaled_1e7: lat,
        longitude_scaled_1e7: lon,
        altitude_m_scaled_1e1: alt,
    };
    Some((q, p4))
}

/// Adding a difference or its 32-bit pattern wraps to the same pattern.
proof fn lemma_wadd_pattern(a: int, d: int, u: int)
    requires
        0 <= a < 0x1_0000_0000,
        0 <= u < 0x1_0000_0000,
        u == d % 0x1_0000_0000,
    ensures
        wadd(a, d) == (if a + u >= 0x1_0000_0000 {
            a + u - 0x1_0000_0000
        } else {
            a + u
        }),
{
    vstd::arithmetic::div_mod::lemma_add_mod_noop(a, d, 0x1_0000_0000);
    vstd::arithmetic::div_mod::lemma_small_mod(a as nat, 0x1_0000_0000);
    if a + u >= 0x1_0000_0000 {
        vstd::arithmetic::div_mod::lemma_small_mod((a + u - 0x1_0000_0000) as nat, 0x1_0000_0000);
        vstd::arithmetic::div_mod::lemma_mod_add_multiples_vanish(a + u - 0x1_0000_0000, 0x1_0000_0000);
    } else {
        vstd::arithmetic::div_mod::lemma_small_mod((a + u) as nat, 0x1_0000_0000);
    }
}

/// The middle part of a concatenation.
proof fn lemma_middle(a: Seq<u8>, b: Seq<u8>, c: Seq<u8>)
    ensures
        (a + b + c).subrange(a.len() as int, (a.len() + b.len()) as int) == b,
{
    assert((a + b + c).subrange(a.len() as int, (a.len() + b.len()) as int) =~= b);
}

/// A varint is read back as the value it encodes.
proof fn lemma_varint_parse(s: Seq<u8>, pos: int, z: nat, left: nat)
    requires
        0 <= pos,
        pos + varint(z).len() <= s.len(),
        s.subrange(pos, pos + varint(z).len()) == varint(z),
        varint(z).len() <= left,
    ensures
        parse_varint(s, pos, left) == Some((z as int, pos + varint(z).len())),
    decreases z,
{
    let v = varint(z);
    assert(s[pos] == v[0]) by {
        assert(s.subrange(pos, pos + v.len())[0] == s[pos]);
    }
    if z >= 128 {
        let t = varint(z / 128);
        assert(v == seq![(z % 128 + 128) as u8] + t);
        assert(s.subrange(pos + 1, pos + 1 + t.len()) =~= t) by {
            assert forall|i: int| 0 <= i < t.len() implies s.subrange(pos + 1, pos + 1 + t.len())[i]
                == t[i] by {
                assert(s.subrange(pos, pos + v.len())[i + 1] == v[i + 1]);
            }
        }
        lemma_varint_parse(s, pos + 1, z / 128, (left - 1) as nat);
    }
}

/// Zig-zag coding of a 32-bit signed value is undone by `unzigzag`.
proof fn lemma_zigzag(d: int)
    requires
        -0x8000_0000 <= d < 0x8000_0000,
    ensures
        0 <= zigzag(d) < 0x1_0000_0000,
        unzigzag(zigzag(d)) == d,
        zigzag(d) == 0 <==> d == 0,
{
}

/// Adding back the wrapping difference gives the other pattern.
proof fn lemma_wadd_wdiff(a: int, b: int)
    requires
        0 <= a < 0x1_0000_0000,
        0 <= b < 0x1_0000_0000,
    ensures
        wadd(a, wdiff(b, a)) == b,
        -0x8000_0000 <= wdiff(b, a) < 0x8000_0000,
{
    reveal(wdiff);
    let u = (b - a) % 0x1_0000_0000;
    if b >= a {
        vstd::arithmetic::div_mod::lemma_small_mod((b - a) as nat, 0x1_0000_0000);
    } else {
        vstd::arithmetic::div_mod::lemma_small_mod((b - a + 0x1_0000_0000) as nat, 0x1_0000_0000);
        vstd::arithmetic::div_mod::lemma_mod_add_multiples_vanish(b - a, 0x1_0000_0000);
    }
    let d = wdiff(b, a);
    if a + d >= 0x1_0000_0000 {
        vstd::arithmetic::div_mod::lemma_small_mod((a + d - 0x1_0000_0000) as nat, 0x1_0000_0000);
        vstd::arithmetic::div_mod::lemma_mod_add_multiples_vanish(a + d - 0x1_0000_0000, 0x1_0000_0000);
    } else if a + d < 0 {
        vstd::arithmetic::div_mod::lemma_small_mod((a + d + 0x1_0000_0000) as nat, 0x1_0000_0000);
        vstd::arithmetic::div_mod::lemma_mod_add_multiples_vanish(a + d, 0x1_0000_0000);
    } else {
        vstd::arithmetic::div_mod::lemma_small_mod((a + d) as nat, 0x1_0000_0000);
    }
}

/// Four little-endian bytes read back as the value.
proof fn lemma_le32(v: int)
    requires
        0 <= v < 0x1_0000_0000,
    ensures
        le32(v)[0] + 256 * le32(v)[1] + 65536 * le32(v)[2] + 16777216 * le32(v)[3] == v,
{
    let q1 = v / 256;
    let q2 = q1 / 256;
    let q3 = q2 / 256;
    vstd::arithmetic::div_mod::lemma_fundamental_div_mod(v, 256);
    vstd::arithmetic::div_mod::lemma_fundamental_div_mod(q1, 256);
    vstd::arithmetic::div_mod::lemma_fundamental_div_mod(q2, 256);
    vstd::arithmetic::div_mod::lemma_div_denominator(v, 256, 256);
    vstd::arithmetic::div_mod::lemma_div_denominator(q1, 256, 256);
    vstd::arithmetic::div_mod::lemma_div_denominator(v, 65536, 256);
    vstd::arithmetic::div_mod::lemma_small_mod(q3 as nat, 256);
}

/// A delta field is read back as its difference, wherever it stands.
proof fn lemma_field_parse(pre: Seq<u8>, a: int, b: int, post: Seq<u8>)
    requires
        0 <= a < 0x1_0000_0000,
        0 <= b < 0x1_0000_0000,
    ensures
        ({
            let d = wdiff(b, a);
            parse_field(pre + field(d) + post, pre.len() as int, d != 0) == Some(
                (d, (pre.len() + field(d).len()) as int),
            )
        }),
{
    lemma_wadd_wdiff(a, b);
    lemma_field_parse_d(pre, wdiff(b, a), post);
}

proof fn lemma_field_parse_d(pre: Seq<u8>, d: int, post: Seq<u8>)
    requires
        -0x8000_0000 <= d < 0x8000_0000,
    ensures
        parse_field(pre + field(d) + post, pre.len() as int, d != 0) == Some(
            (d, (pre.len() + field(d).len()) as int),
        ),
{
    reveal(field);
    lemma_zigzag(d);
    if d != 0 {
        lemma_varint_len(zigzag(d) as nat);
        lemma_middle(pre, field(d), post);
        lemma_varint_parse(pre + field(d) + post, pre.len() as int, zigzag(d) as nat, 5);
    }
}

/// The header's low four bits say which differences are present.
proof fn lemma_header_bits(dt: int, dla: int, dlo: int, dal: int)
    ensures
        delta_header(dt, dla, dlo, dal) / 16 == 1,
        delta_header(dt, dla, dlo, dal) != 0xFE,
        ((delta_header(dt, dla, dlo, dal) as int / 8) % 2 == 1) == (dt != 0),
        ((delta_header(dt, dla, dlo, dal) as int / 4) % 2 == 1) == (dla != 0),
        ((delta_header(dt, dla, dlo, dal) as int / 2) % 2 == 1) == (dlo != 0),
        (delta_header(dt, dla, dlo, dal) as int % 2 == 1) == (dal != 0),
{
}

/// An anchor decodes to its point.
proof fn lemma_round_trip_full(prev: GpxPointInternal, p: GpxPointInternal, rest: Seq<u8>)
    ensures
        decode_spec(full_record(p) + rest, prev) == Some((p, 17int)),
{
    let fr = full_record(p) + rest;
    lemma_le32(p.timestamp as int);
    lemma_le32(bits32(p.latitude_scaled_1e7));
    lemma_le32(bits32(p.longitude_scaled_1e7));
    lemma_le32(bits32(p.altitude_m_scaled_1e1));
    assert(le_at(fr, 1) == p.timestamp);
    assert(le_at(fr, 5) == bits32(p.latitude_scaled_1e7));
    assert(le_at(fr, 9) == bits32(p.longitude_scaled_1e7));
    assert(le_at(fr, 13) == bits32(p.altitude_m_scaled_1e1));
    assert(point_of(le_at(fr, 1), le_at(fr, 5), le_at(fr, 9), le_at(fr, 13)) == p);
}

/// The point rebuilt from the previous one and the wrapping differences.
proof fn lemma_rebuild(prev: GpxPointInternal, p: GpxPointInternal)
    ensures
        point_of(
            wadd(prev.timestamp as int, wdiff(p.timestamp as int, prev.timestamp as int)),
            wadd(
                bits32(prev.latitude_scaled_1e7),
                wdiff(bits32(p.latitude_scaled_1e7), bits32(prev.latitude_scaled_1e7)),
            ),
            wadd(
                bits32(prev.longitude_scaled_1e7),
                wdiff(bits32(p.longitude_scaled_1e7), bits32(prev.longitude_scaled_1e7)),
            ),
            wadd(
                bits32(prev.altitude_m_scaled_1e1),
                wdiff(bits32(p.altitude_m_scaled_1e1), bits32(prev.altitude_m_scaled_1e1)),
            ),
        ) == p,
{
    lemma_wadd_wdiff(prev.timestamp as int, p.timestamp as int);
    lemma_wadd_wdiff(bits32(prev.latitude_scaled_1e7), bits32(p.latitude_scaled_1e7));
    lemma_wadd_wdiff(bits32(prev.longitude_scaled_1e7), bits32(p.longitude_scaled_1e7));
    lemma_wadd_wdiff(bits32(prev.altitude_m_scaled_1e1), bits32(p.altitude_m_scaled_1e1));
}

/// A delta record decodes field by field.
proof fn lemma_decode_delta_steps(
    s: Seq<u8>,
    prev: GpxPointInternal,
    dt: int,
    dla: int,
    dlo: int,
    dal: int,
    p1: int,
    p2: int,
    p3: int,
    p4: int,
)
    requires
        s.len() > 0,
        s[0] != 0xFE,
        s[0] / 16 == 1,
        parse_field(s, 1, (s[0] as int / 8) % 2 == 1) == Some((dt, p1)),
        parse_field(s, p1, (s[0] as int / 4) % 2 == 1) == Some((dla, p2)),
        parse_field(s, p2, (s[0] as int / 2) % 2 == 1) == Some((dlo, p3)),
        parse_field(s, p3, s[0] as int % 2 == 1) == Some((dal, p4)),
    ensures
        decode_spec(s, prev) == Some(
            (
                point_of(
                    wadd(prev.timestamp as int, dt),
                    wadd(bits32(prev.latitude_scaled_1e7), dla),
                    wadd(bits32(prev.longitude_scaled_1e7), dlo),
                    wadd(bits32(prev.altitude_m_scaled_1e1), dal),
                ),
                p4,
            ),
        ),
{
}

/// Decoding what the encoder writes gives back the point: an anchor on its
/// own, a delta record given the point before it, whatever bytes follow.
pub proof fn lemma_round_trip(prev: GpxPointInternal, p: GpxPointInternal, rest: Seq<u8>)
    ensures
        decode_spec(full_record(p) + rest, prev) == Some((p, 17int)),
        decode_spec(delta_record(prev, p) + rest, prev) == Some(
            (p, delta_record(prev, p).len() as int),
        ),
{
    lemma_round_trip_full(prev, p, rest);
    lemma_round_trip_delta(prev, p, rest);
}

/// A delta record decodes to its point given the point before it.
#[verifier::rlimit(100)]
#[verifier::spinoff_prover]
proof fn lemma_round_trip_delta(prev: GpxPointInternal, p: GpxPointInternal, rest: Seq<u8>)
    ensures
        decode_spec(delta_record(prev, p) + rest, prev) == Some(
            (p, delta_record(prev, p).len() as int),
        ),
{
    let dt = wdiff(p.timestamp as int, prev.timestamp as int);
    let dla = wdiff(bits32(p.latitude_scaled_1e7), bits32(prev.latitude_scaled_1e7));
    let dlo = wdiff(bits32(p.longitude_scaled_1e7), bits32(prev.longitude_scaled_1e7));
    let dal = wdiff(bits32(p.altitude_m_scaled_1e1), bits32(prev.altitude_m_scaled_1e1));
    lemma_rebuild(prev, p);
    let h = delta_header(dt, dla, dlo, dal);
    lemma_header_bits(dt, dla, dlo, dal);
    let f0 = seq![h];
    let f1 = field(dt);
    let f2 = field(dla);
    let f3 = field(dlo);
    let f4 = field(dal);
    let s = delta_record(prev, p) + rest;
    assert(s =~= f0 + f1 + (f2 + f3 + f4 + rest));
    lemma_field_parse(f0, prev.timestamp as int, p.timestamp as int, f2 + f3 + f4 + rest);
    assert(s =~= (f0 + f1) + f2 + (f3 + f4 + rest));
    lemma_field_parse(f0 + f1, bits32(prev.latitude_scaled_1e7), bits32(p.latitude_scaled_1e7), f3 + f4 + rest);
    assert(s =~= (f0 + f1 + f2) + f3 + (f4 + rest));
    lemma_field_parse(f0 + f1 + f2, bits32(prev.longitude_scaled_1e7), bits32(p.longitude_scaled_1e7), f4 + rest);
    assert(s =~= (f0 + f1 + f2 + f3) + f4 + rest);
    lemma_field_parse(f0 + f1 + f2 + f3, bits32(prev.altitude_m_scaled_1e1), bits32(p.altitude_m_scaled_1e1), rest);
    assert(s[0] == h);
    lemma_decode_delta_steps(
        s,
        prev,
        dt,
        dla,
        dlo,
        dal,
        (1 + f1.len()) as int,
        (1 + f1.len() + f2.len()) as int,
        (1 + f1.len() + f2.len() + f3.len()) as int,
        (1 + f1.len() + f2.len() + f3.len() + f4.len()) as int,
    );
}

/// Encoding follows the anchor schedule call after call: if the encoder is in
/// the state reached after `k` records from a fresh start, the record it writes
/// next is an anchor exactly when `k` is a multiple of the interval, and it
/// then is in the state reached after `k + 1` records.
pub proof fn lemma_encode_step_schedule(k: nat, interval: nat, first: bool, since: nat)
    requires
        interval >= 1,
        first == (k == 0),
        since == since_after(k, interval),
    ensures
        next_is_full(first, since, interval) == (k % interval == 0),
        (if next_is_full(first, since, interval) {
            0
        } else {
            since + 1
        }) == since_after(k + 1, interval),
        !((k + 1) == 0),
{
    lemma_anchor_schedule(k, interval);
    assert(since_after(k + 1, interval) == (if next_is_full(k == 0, since_after(k, interval), interval) {
        0
    } else {
        since_after(k, interval) + 1
    }));
}

} // verus!
