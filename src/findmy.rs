//! Apple Find My rolling keys: the ANSI X9.63 key derivation (SHA-256), the
//! symmetric-key chain, the P-224 private-key update `d_i = d_0 u_i + v_i`
//! (mod q), and the advertisement built from the public key.
use p224::elliptic_curve::ops::Reduce;
use p224::elliptic_curve::sec1::ToEncodedPoint;
use p224::elliptic_curve::PrimeField;
use vstd::prelude::*;
use crate::digest::{sha256, sha256_of};
use crate::secp160r1::be_prefix;
use crate::eid::AdvertiserEvent;

verus! {

/// Keys rotate every 15 minutes.
pub const KEY_ROTATION_SECS: u64 = 900;

/// The order `q` of the P-224 group,
/// `0xffffffffffffffffffffffffffff16a2e0b8f03e13dd29455c5c2a3d`.
pub open spec fn q_val() -> int {
    (0xffff_ffff_ffff_ffff_ffff_ffff_ffff as int) * (0x1_0000_0000_0000_0000_0000_0000_0000 as int)
        + (0x16a2_e0b8_f03e_13dd_2945_5c5c_2a3d as int)
}

/// The order is the value of its 28 big-endian bytes, just below `2^224`.
pub proof fn lemma_q_val()
    ensures
        q_val() == 0xffff_ffff_ffff_ffff_ffff_ffff_ffff * 0x1_0000_0000_0000_0000_0000_0000_0000
            + 0x16a2_e0b8_f03e_13dd_2945_5c5c_2a3d,
        q_val() > 0x8000_0000_0000_0000_0000_0000_0000 * 0x1_0000_0000_0000_0000_0000_0000_0000,
        q_val() < 0x1_0000_0000_0000_0000_0000_0000_0000 * 0x1_0000_0000_0000_0000_0000_0000_0000,
{
}

/// The value of a 28-byte big-endian scalar.
pub open spec fn scalar_of(b: Seq<u8>) -> int {
    be_prefix(b, 28)
}

/// The big-endian x-coordinate of `d * G` on P-224.
pub uninterp spec fn p224_base_x(d: Seq<u8>) -> Seq<u8>;

/// Relies on `<p224::Scalar as Reduce<U224>>::reduce_bytes`: the 224-bit
/// big-endian input less the order `q` when it is not below it, that is, the
/// input modulo `q` (the input is below `2^224 < 2q`, as `q > 2^223`).
#[verifier::external_body]
fn p224_reduce(b: &[u8; 28]) -> (r: [u8; 28])
    ensures
        scalar_of(r@) == scalar_of(b@) % q_val(),
{
    let s = p224::Scalar::reduce_bytes(&p224::FieldBytes::from(*b));
    let mut out = [0u8; 28];
    out.copy_from_slice(&s.to_repr());
    out
}

/// Relies on `p224::Scalar` multiplication: the product modulo `q` of two
/// canonical scalars.
#[verifier::external_body]
fn p224_mul(a: &[u8; 28], b: &[u8; 28]) -> (r: [u8; 28])
    requires
        scalar_of(a@) < q_val(),
        scalar_of(b@) < q_val(),
    ensures
        scalar_of(r@) == (scalar_of(a@) * scalar_of(b@)) % q_val(),
{
    let x = p224::Scalar::from_repr(p224::FieldBytes::from(*a)).unwrap();
    let y = p224::Scalar::from_repr(p224::FieldBytes::from(*b)).unwrap();
    let mut out = [0u8; 28];
    out.copy_from_slice(&(x * y).to_repr());
    out
}

/// Relies on `p224::Scalar` addition: the sum modulo `q` of two canonical scalars.
#[verifier::external_body]
fn p224_add(a: &[u8; 28], b: &[u8; 28]) -> (r: [u8; 28])
    requires
        scalar_of(a@) < q_val(),
        scalar_of(b@) < q_val(),
    ensures
        scalar_of(r@) == (scalar_of(a@) + scalar_of(b@)) % q_val(),
{
    let x = p224::Scalar::from_repr(p224::FieldBytes::from(*a)).unwrap();
    let y = p224::Scalar::from_repr(p224::FieldBytes::from(*b)).unwrap();
    let mut out = [0u8; 28];
    out.copy_from_slice(&(x + y).to_repr());
    out
}

/// Relies on `p224::ProjectivePoint::GENERATOR * d` and its uncompressed SEC1
/// encoding: the x-coordinate of `d * G`, finite for a non-zero canonical `d`.
#[verifier::external_body]
fn p224_public_x(d: &[u8; 28]) -> (r: [u8; 28])
    requires
        0 < scalar_of(d@) < q_val(),
    ensures
        r@ == p224_base_x(d@),
{
    let s = p224::Scalar::from_repr(p224::FieldBytes::from(*d)).unwrap();
    let p = (p224::ProjectivePoint::GENERATOR * s).to_affine();
    let mut out = [0u8; 28];
    out.copy_from_slice(p.to_encoded_point(false).x().unwrap());
    out
}

/// The four big-endian bytes of a block counter.
pub open spec fn be32(c: nat) -> Seq<u8> {
    seq![((c / 16777216) % 256) as u8, ((c / 65536) % 256) as u8, ((c / 256) % 256) as u8, (c % 256) as u8]
}

/// Block `c` of the X9.63 stream: `SHA256(input || c_be32 || info)`.
pub open spec fn kdf_block(input: Seq<u8>, info: Seq<u8>, c: nat) -> Seq<u8> {
    sha256_of(input + be32(c) + info)
}

/// Blocks `1..=k` of the X9.63 stream, concatenated.
pub open spec fn kdf_stream(input: Seq<u8>, info: Seq<u8>, k: nat) -> Seq<u8>
    decreases k,
{
    if k == 0 {
        Seq::empty()
    } else {
        kdf_stream(input, info, (k - 1) as nat) + kdf_block(input, info, k)
    }
}

/// ANSI X9.63 with SHA-256: the first `n` bytes of the stream.
pub open spec fn x963_kdf(input: Seq<u8>, info: Seq<u8>, n: nat) -> Seq<u8> {
    kdf_stream(input, info, ((n + 31) / 32) as nat).subrange(0, n as int)
}

pub open spec fn update_label() -> Seq<u8> {
    seq![0x75u8, 0x70, 0x64, 0x61, 0x74, 0x65]
}

pub open spec fn diversify_label() -> Seq<u8> {
    seq![0x64u8, 0x69, 0x76, 0x65, 0x72, 0x73, 0x69, 0x66, 0x79]
}

/// `SK` after `k` updates of `sk`.
pub open spec fn sk_after(sk: Seq<u8>, k: nat) -> Seq<u8>
    decreases k,
{
    if k == 0 {
        sk
    } else {
        x963_kdf(sk_after(sk, (k - 1) as nat), update_label(), 32)
    }
}

fn bytes_to_vec(bytes: &[u8]) -> (r: Vec<u8>)
    ensures
        r@ == bytes@,
{
    let mut v: Vec<u8> = Vec::new();
    let mut i: usize = 0;
    while i < bytes.len()
        invariant
            i <= bytes@.len(),
            v@ == bytes@.subrange(0, i as int),
        decreases bytes@.len() - i,
    {
        v.push(bytes[i]);
        i = i + 1;
    }
    assert(v@ =~= bytes@);
    v
}

fn update_info() -> (r: Vec<u8>)
    ensures
        r@ == update_label(),
{
    let mut v: Vec<u8> = Vec::new();
    v.push(0x75);
    v.push(0x70);
    v.push(0x64);
    v.push(0x61);
    v.push(0x74);
    v.push(0x65);
    assert(v@ =~= update_label());
    v
}

fn diversify_info() -> (r: Vec<u8>)
    ensures
        r@ == diversify_label(),
{
    let mut v: Vec<u8> = Vec::new();
    v.push(0x64);
    v.push(0x69);
    v.push(0x76);
    v.push(0x65);
    v.push(0x72);
    v.push(0x73);
    v.push(0x69);
    v.push(0x66);
    v.push(0x79);
    assert(v@ =~= diversify_label());
    v
}

/// ANSI X9.63 key derivation with SHA-256.
pub fn kdf(input: &[u8], shared_info: &[u8], bytes_to_return: usize) -> (r: Vec<u8>)
    requires
        bytes_to_return <= 32 * 0xFFFF_FFFEint,
    ensures
        r@ == x963_kdf(input@, shared_info@, bytes_to_return as nat),
        r@.len() == bytes_to_return,
{
    let mut out: Vec<u8> = Vec::new();
    let mut counter: u32 = 1;
    while out.len() < bytes_to_return
        invariant
            bytes_to_return <= 32 * 0xFFFF_FFFEint,
            1 <= counter,
            out@.len() == 32 * (counter - 1),
            32 * (counter - 1) < bytes_to_return + 32,
            out@ == kdf_stream(input@, shared_info@, (counter - 1) as nat),
        decreases bytes_to_return + 32 - out@.len(),
    {
        let mut msg = bytes_to_vec(input);
        msg.push((counter / 16777216) as u8);
        msg.push(((counter / 65536) % 256) as u8);
        msg.push(((counter / 256) % 256) as u8);
        msg.push((counter % 256) as u8);
        let mut j: usize = 0;
        let ghost head = msg@;
        while j < shared_info.len()
            invariant
                j <= shared_info@.len(),
                msg@ == head + shared_info@.subrange(0, j as int),
            decreases shared_info@.len() - j,
        {
            msg.push(shared_info[j]);
            j = j + 1;
            assert(msg@ =~= head + shared_info@.subrange(0, j as int));
        }
        proof {
            assert(shared_info@.subrange(0, j as int) =~= shared_info@);
            assert(head =~= input@ + be32(counter as nat));
        }
        let block = sha256(msg.as_slice());
        let mut k: usize = 0;
        let ghost before = out@;
        while k < 32
            invariant
                k <= 32,
                out@ == before + block@.subrange(0, k as int),
            decreases 32 - k,
        {
            out.push(block[k]);
            k = k + 1;
            assert(out@ =~= before + block@.subrange(0, k as int));
        }
        proof {
            assert(block@.subrange(0, 32) =~= block@);
        }
        counter = counter + 1;
    }
    proof {
        assert((counter - 1) as nat == ((bytes_to_return + 31) / 32) as nat);
    }
    let mut r: Vec<u8> = Vec::new();
    let mut i: usize = 0;
    while i < bytes_to_return
        invariant
            i <= bytes_to_return,
            bytes_to_return <= out@.len(),
            r@ == out@.subrange(0, i as int),
        decreases bytes_to_return - i,
    {
        r.push(out[i]);
        i = i + 1;
    }
    r
}

/// The symmetric key `target - start` updates after `start_sk` (none when
/// `target <= start`).
pub fn advance_sk(start_sk: &[u8; 32], start_counter: u32, target_counter: u32) -> (r: [u8; 32])
    ensures
        r@ == sk_after(start_sk@, (if target_counter > start_counter {
            target_counter - start_counter
        } else {
            0
        }) as nat),
{
    let mut sk = *start_sk;
    let mut c = start_counter;
    let info = update_info();
    while c < target_counter
        invariant
            start_counter <= c,
            c <= target_counter || c == start_counter,
            info@ == update_label(),
            sk@ == sk_after(start_sk@, (c - start_counter) as nat),
        decreases target_counter - c,
    {
        let derived = kdf(&sk, info.as_slice(), 32);
        sk = copy32(&derived);
        c = c + 1;
    }
    sk
}

fn copy32(v: &Vec<u8>) -> (r: [u8; 32])
    requires
        v@.len() == 32,
    ensures
        r@ == v@,
{
    let mut out = [0u8; 32];
    let mut i: usize = 0;
    while i < 32
        invariant
            i <= 32,
            v@.len() == 32,
            forall|j: int| 0 <= j < i ==> out@[j] == v@[j],
        decreases 32 - i,
    {
        out[i] = v[i];
        i = i + 1;
    }
    assert(out@ =~= v@);
    out
}

/// The symmetric-key cache: `SK_counter`, valid when filled.
pub struct SkCache {
    pub sk: [u8; 32],
    pub counter: u32,
    pub valid: bool,
}

impl SkCache {
    /// The cache holds `SK_counter` of the chain that starts at `sk0`.
    pub open spec fn consistent(&self, sk0: Seq<u8>) -> bool {
        self.valid ==> self.sk@ == sk_after(sk0, self.counter as nat)
    }

    pub fn new() -> (r: Self)
        ensures
            !r.valid,
    {
        SkCache { sk: [0u8; 32], counter: 0, valid: false }
    }
}

/// The first 28 bytes of a 36-byte half, reduced modulo q, 1 when that is 0.
pub open spec fn nonzero_scalar(half: Seq<u8>, reduced: Seq<u8>) -> bool {
    &&& scalar_of(reduced) < q_val()
    &&& if scalar_of(half) % q_val() == 0 {
        scalar_of(reduced) == 1
    } else {
        scalar_of(reduced) == scalar_of(half) % q_val()
    }
}

fn first_28(b: &[u8], from: usize) -> (r: [u8; 28])
    requires
        from + 28 <= b@.len(),
    ensures
        r@ == b@.subrange(from as int, from + 28),
{
    let _n = b.len();
    let mut out = [0u8; 28];
    let mut i: usize = 0;
    while i < 28
        invariant
            i <= 28,
            from + 28 <= b@.len(),
            b@.len() <= usize::MAX,
            forall|j: int| 0 <= j < i ==> out@[j] == b@[from + j],
        decreases 28 - i,
    {
        out[i] = b[from + i];
        i = i + 1;
    }
    assert(out@ =~= b@.subrange(from as int, from + 28));
    out
}

fn is_zero_28(b: &[u8; 28]) -> (r: bool)
    ensures
        r == (scalar_of(b@) == 0),
{
    let mut i: usize = 0;
    while i < 28
        invariant
            i <= 28,
            be_prefix(b@, i as int) == 0,
        decreases 28 - i,
    {
        if b[i] != 0 {
            proof {
                lemma_be_prefix_mono(b@, i as int + 1, 28);
            }
            return false;
        }
        i = i + 1;
    }
    true
}

/// A big-endian number does not shrink when more bytes follow.
proof fn lemma_be_prefix_mono(s: Seq<u8>, i: int, k: int)
    requires
        0 <= i <= k,
    ensures
        be_prefix(s, k) >= be_prefix(s, i),
        be_prefix(s, i) >= 0,
    decreases k,
{
    if k > i {
        lemma_be_prefix_mono(s, i, k - 1);
    } else if i > 0 {
        lemma_be_prefix_mono(s, i - 1, i - 1);
    }
}

/// Reduces the first 28 bytes of `b[from..]` modulo q, replacing 0 by 1.
fn scalar_nonzero(b: &[u8], from: usize) -> (r: [u8; 28])
    requires
        from + 28 <= b@.len(),
    ensures
        nonzero_scalar(b@.subrange(from as int, from + 28), r@),
{
    let raw = first_28(b, from);
    let s = p224_reduce(&raw);
    if is_zero_28(&s) {
        let mut one = [0u8; 28];
        one[27] = 1;
        proof {
            assert forall|i: int| 0 <= i <= 27 implies be_prefix(one@, i) == 0 by {
                lemma_zero_prefix(one@, i);
            }
            assert(be_prefix(one@, 28) == be_prefix(one@, 27) * 256 + one@[27]);
        }
        one
    } else {
        s
    }
}

proof fn lemma_zero_prefix(s: Seq<u8>, i: int)
    requires
        0 <= i <= s.len(),
        forall|j: int| 0 <= j < i ==> s[j] == 0,
    ensures
        be_prefix(s, i) == 0,
    decreases i,
{
    if i > 0 {
        lemma_zero_prefix(s, i - 1);
    }
}

/// `d` (28 bytes) is the private scalar of slot `counter`: with `(u, v)` the
/// 72-byte diversification of `SK_counter`, `d = d_0 u' + v'` modulo q, where
/// `d_0` is the private key and `u'`, `v'` the reduced halves (1 for 0).
pub open spec fn slot_scalar(master: Seq<u8>, sk0: Seq<u8>, counter: u32, d: Seq<u8>) -> bool {
    let div = x963_kdf(sk_after(sk0, counter as nat), diversify_label(), 72);
    &&& d.len() == 28
    &&& exists|d0: Seq<u8>, u: Seq<u8>, v: Seq<u8>|
        #![trigger scalar_of(d0), nonzero_scalar(div.subrange(0, 28), u), nonzero_scalar(div.subrange(36, 64), v)]
        {
            &&& scalar_of(d0) == scalar_of(master) % q_val()
            &&& nonzero_scalar(div.subrange(0, 28), u)
            &&& nonzero_scalar(div.subrange(36, 64), v)
            &&& scalar_of(d) == (scalar_of(d0) * scalar_of(u) + scalar_of(v)) % q_val()
        }
}

/// The public-key x-coordinate of rolling key `counter`: `SK_counter` is taken
/// from the cache when it is not ahead, else from `SK_0`; `(u, v)` is the
/// 72-byte diversification of it; `d = d_0 u' + v'` modulo q. `None` when `d`
/// is 0 (no public key). The cache then holds `SK_counter`.
pub fn derive_key_at(
    cache: &mut SkCache,
    master_private: &[u8; 28],
    sk0: &[u8; 32],
    counter: u32,
) -> (r: Option<[u8; 28]>)
    requires
        old(cache).consistent(sk0@),
    ensures
        final(cache).consistent(sk0@),
        final(cache).valid && final(cache).counter == counter,
        exists|d: Seq<u8>|
            #[trigger] slot_scalar(master_private@, sk0@, counter, d) && (scalar_of(d) == 0
                ==> r is None) && (scalar_of(d) != 0 ==> (r matches Some(x) && x@ == p224_base_x(d))),
{
    let sk = if cache.valid && cache.counter <= counter {
        let s = advance_sk(&cache.sk, cache.counter, counter);
        proof {
            lemma_sk_after_add(sk0@, old(cache).counter as nat, (counter - old(cache).counter) as nat);
        }
        s
    } else {
        advance_sk(sk0, 0, counter)
    };
    cache.sk = sk;
    cache.counter = counter;
    cache.valid = true;
    let info = diversify_info();
    let diversified = kdf(&sk, info.as_slice(), 72);
    let d0 = p224_reduce(master_private);
    let u = scalar_nonzero(diversified.as_slice(), 0);
    let v = scalar_nonzero(diversified.as_slice(), 36);
    let du = p224_mul(&d0, &u);
    let d = p224_add(&du, &v);
    proof {
        let div = x963_kdf(sk_after(sk0@, counter as nat), diversify_label(), 72);
        assert(diversified@ == div);
        let x = scalar_of(d0@) * scalar_of(u@);
        vstd::arithmetic::div_mod::lemma_add_mod_noop(x, scalar_of(v@), q_val());
        vstd::arithmetic::div_mod::lemma_small_mod(scalar_of(v@) as nat, q_val() as nat);
        lemma_be_prefix_mono(d@, 0, 28);
        lemma_be_prefix_mono(du@, 0, 28);
        lemma_be_prefix_mono(v@, 0, 28);
        assert(scalar_of(d@) == (scalar_of(d0@) * scalar_of(u@) + scalar_of(v@)) % q_val());
        assert(scalar_of(d0@) == scalar_of(master_private@) % q_val());
        assert(nonzero_scalar(div.subrange(0, 28), u@));
        assert(nonzero_scalar(div.subrange(36, 64), v@));
        assert(slot_scalar(master_private@, sk0@, counter, d@));
    }
    if is_zero_28(&d) {
        return None;
    }
    let x = p224_public_x(&d);
    Some(x)
}

/// Updating `a` times and then `b` times is updating `a + b` times.
proof fn lemma_sk_after_add(sk: Seq<u8>, a: nat, b: nat)
    ensures
        sk_after(sk_after(sk, a), b) == sk_after(sk, a + b),
    decreases b,
{
    if b > 0 {
        lemma_sk_after_add(sk, a, (b - 1) as nat);
    }
}

/// Status byte for the battery: full above 80 %, medium above 30 %, low above
/// 10 %, else critical.
pub fn battery_to_status(battery_percent: u8) -> (r: u8)
    ensures
        r == (if battery_percent > 80 {
            0x10u8
        } else if battery_percent > 30 {
            0x50u8
        } else if battery_percent > 10 {
            0x90u8
        } else {
            0xD0u8
        }),
{
    if battery_percent > 80 {
        0x10
    } else if battery_percent > 30 {
        0x50
    } else if battery_percent > 10 {
        0x90
    } else {
        0xD0
    }
}

/// The 31-byte Apple offline-finding advertisement.
pub open spec fn findmy_payload(x: Seq<u8>, status: u8) -> Seq<u8> {
    seq![0x1eu8, 0xff, 0x4c, 0x00, 0x12, 0x19, status] + x.subrange(6, 28) + seq![
        x[0] / 64,
        0x00u8,
    ]
}

pub fn build_adv_payload(public_key_x: &[u8; 28], status: u8) -> (r: [u8; 31])
    ensures
        r@ == findmy_payload(public_key_x@, status),
{
    let mut payload = [0u8; 31];
    payload[0] = 0x1e;
    payload[1] = 0xff;
    payload[2] = 0x4c;
    payload[3] = 0x00;
    payload[4] = 0x12;
    payload[5] = 0x19;
    payload[6] = status;
    let mut i: usize = 0;
    while i < 22
        invariant
            i <= 22,
            payload[0] == 0x1e && payload[1] == 0xff && payload[2] == 0x4c,
            payload[3] == 0x00 && payload[4] == 0x12 && payload[5] == 0x19,
            payload[6] == status,
            payload[30] == 0,
            forall|j: int| 0 <= j < i ==> #[trigger] payload[7 + j] == public_key_x[6 + j],
        decreases 22 - i,
    {
        payload[7 + i] = public_key_x[6 + i];
        i = i + 1;
    }
    payload[29] = public_key_x[0] / 64;
    payload[30] = 0x00;
    assert forall|k: int| 7 <= k < 29 implies payload@[k] == public_key_x@[k - 1] by {
        assert(payload[7 + (k - 7)] == public_key_x[6 + (k - 7)]);
    }
    assert(payload@ =~= findmy_payload(public_key_x@, status));
    payload
}

/// The random static address, least significant byte first: `x[5..0]` with the
/// top two bits of `x[0]` set.
pub fn build_ble_address(public_key_x: &[u8; 28]) -> (r: [u8; 6])
    ensures
        r@ == seq![public_key_x[5], public_key_x[4], public_key_x[3], public_key_x[2], public_key_x[1], (public_key_x[0] % 64 + 192) as u8],
{
    let mut addr = [0u8; 6];
    addr[0] = public_key_x[5];
    addr[1] = public_key_x[4];
    addr[2] = public_key_x[3];
    addr[3] = public_key_x[2];
    addr[4] = public_key_x[1];
    addr[5] = public_key_x[0] % 64 + 192;
    assert(addr@ =~= seq![public_key_x[5], public_key_x[4], public_key_x[3], public_key_x[2], public_key_x[1], (public_key_x[0] % 64 + 192) as u8]);
    addr
}

/// The key counter: 15-minute slots since the epoch's slot; `None` before the epoch.
pub fn counter_from_unix(unix_ts: u64, epoch: u64) -> (r: Option<u32>)
    ensures
        r is None <==> unix_ts < epoch,
        r matches Some(c) ==> c == ((unix_ts / 900 - epoch / 900) as u32),
{
    if unix_ts < epoch {
        return None;
    }
    let epoch_slot = epoch / KEY_ROTATION_SECS;
    let now_slot = unix_ts / KEY_ROTATION_SECS;
    Some((now_slot - epoch_slot) as u32)
}

/// Seconds to the next 15-minute boundary; `None` before the epoch.
pub fn secs_until_next_rotation_from_unix(unix_ts: u64, epoch: u64) -> (r: Option<u64>)
    ensures
        r is None <==> unix_ts < epoch,
        r matches Some(s) ==> s == 900 - unix_ts % 900 && 0 < s <= 900 && (unix_ts + s) % 900
            == 0,
{
    if unix_ts < epoch {
        return None;
    }
    let into_slot = unix_ts % KEY_ROTATION_SECS;
    Some(KEY_ROTATION_SECS - into_slot)
}

/// The epoch stored little-endian in bytes 60..68 of the 68-byte key blob.
pub fn epoch_secs(keys: &[u8; 68]) -> (r: u64)
    ensures
        r == keys[60] + 256 * keys[61] + 65536 * keys[62] + 16777216 * keys[63] + 0x1_0000_0000 * (
        keys[64] + 256 * keys[65] + 65536 * keys[66] + 16777216 * keys[67]),
{
    let lo: u64 = keys[60] as u64 + 256 * (keys[61] as u64) + 65536 * (keys[62] as u64)
        + 16777216 * (keys[63] as u64);
    let hi: u64 = keys[64] as u64 + 256 * (keys[65] as u64) + 65536 * (keys[66] as u64)
        + 16777216 * (keys[67] as u64);
    lo + 0x1_0000_0000 * hi
}

/// What the advertiser is doing, for the display.
#[derive(Clone, Copy, Debug, PartialEq, Eq, Structural)]
pub enum FindMyDiagState {
    Disabled,
    WaitingGpsTime,
    WaitingBleIdle,
    AddressReady,
    Advertising,
    SetAddrFailed,
    AdvConfigureFailed,
    AdvStartFailed,
}

impl FindMyDiagState {
    pub open spec fn code(self) -> u8 {
        match self {
            FindMyDiagState::Disabled => 0,
            FindMyDiagState::WaitingGpsTime => 1,
            FindMyDiagState::WaitingBleIdle => 2,
            FindMyDiagState::AddressReady => 3,
            FindMyDiagState::Advertising => 4,
            FindMyDiagState::SetAddrFailed => 5,
            FindMyDiagState::AdvConfigureFailed => 6,
            FindMyDiagState::AdvStartFailed => 7,
        }
    }

    /// The state stored as `raw`, or `None` for an unknown code.
    pub fn from_raw(raw: u8) -> (r: Option<Self>)
        ensures
            r is None <==> raw > 7,
            r matches Some(s) ==> s.code() == raw,
    {
        match raw {
            0 => Some(FindMyDiagState::Disabled),
            1 => Some(FindMyDiagState::WaitingGpsTime),
            2 => Some(FindMyDiagState::WaitingBleIdle),
            3 => Some(FindMyDiagState::AddressReady),
            4 => Some(FindMyDiagState::Advertising),
            5 => Some(FindMyDiagState::SetAddrFailed),
            6 => Some(FindMyDiagState::AdvConfigureFailed),
            7 => Some(FindMyDiagState::AdvStartFailed),
            _ => None,
        }
    }
}

/// Whether the advertiser may run, and what it reports.
pub struct AdvertiserControl {
    pub enabled: bool,
    pub diag: FindMyDiagState,
}

impl AdvertiserControl {
    pub fn new() -> (r: Self)
        ensures
            !r.enabled && r.diag == FindMyDiagState::Disabled,
    {
        AdvertiserControl { enabled: false, diag: FindMyDiagState::Disabled }
    }

    /// Enabling waits for GPS time; disabling reports disabled.
    pub fn set_enabled(&mut self, enabled: bool)
        ensures
            final(self).enabled == enabled,
            final(self).diag == (if enabled {
                FindMyDiagState::WaitingGpsTime
            } else {
                FindMyDiagState::Disabled
            }),
    {
        self.enabled = enabled;
        self.diag = if enabled {
            FindMyDiagState::WaitingGpsTime
        } else {
            FindMyDiagState::Disabled
        };
    }

    pub fn is_enabled(&self) -> (r: bool)
        ensures
            r == self.enabled,
    {
        self.enabled
    }

    pub fn set_diag_state(&mut self, state: FindMyDiagState)
        ensures
            final(self).diag == state,
            final(self).enabled == old(self).enabled,
    {
        self.diag = state;
    }

    pub fn diag_state(&self) -> (r: FindMyDiagState)
        ensures
            r == self.diag,
    {
        self.diag
    }
}

/// What the Find My task does next.
pub enum FindMyAction {
    Wait { secs: u64 },
    Acquire,
    /// Release the resource, then wait.
    Release { then_wait_secs: u64 },
    /// Advertise `payload` from `address` for `secs` seconds; first store
    /// `persist` (the symmetric key and its counter) on the card when present.
    Advertise {
        key_x: [u8; 28],
        payload: [u8; 31],
        address: [u8; 6],
        secs: u64,
        persist: Option<([u8; 32], u32)>,
    },
    /// Stop advertising, restore the address and release the resource.
    StopAndRelease,
}

/// The Find My task's state between steps: the switch, the key cache and the
/// counter last written to the card.
pub struct FindMySession {
    pub control: AdvertiserControl,
    pub cache: SkCache,
    pub persisted_counter: Option<u32>,
    pub advertising: bool,
}

/// The private key, the initial symmetric key and the epoch of the 68-byte blob.
pub open spec fn blob_private(keys: Seq<u8>) -> Seq<u8> {
    keys.subrange(0, 28)
}

pub open spec fn blob_sk0(keys: Seq<u8>) -> Seq<u8> {
    keys.subrange(28, 60)
}

fn copy_28(b: &[u8; 68]) -> (r: [u8; 28])
    ensures
        r@ == b@.subrange(0, 28),
{
    let mut out = [0u8; 28];
    let mut i: usize = 0;
    while i < 28
        invariant
            i <= 28,
            forall|j: int| 0 <= j < i ==> out@[j] == b@[j],
        decreases 28 - i,
    {
        out[i] = b[i];
        i = i + 1;
    }
    assert(out@ =~= b@.subrange(0, 28));
    out
}

fn copy_32_at_28(b: &[u8; 68]) -> (r: [u8; 32])
    ensures
        r@ == b@.subrange(28, 60),
{
    let mut out = [0u8; 32];
    let mut i: usize = 0;
    while i < 32
        invariant
            i <= 32,
            forall|j: int| 0 <= j < i ==> out@[j] == b@[28 + j],
        decreases 32 - i,
    {
        out[i] = b[28 + i];
        i = i + 1;
    }
    assert(out@ =~= b@.subrange(28, 60));
    out
}

impl FindMySession {
    pub open spec fn wf(&self, keys: Seq<u8>) -> bool {
        self.cache.consistent(blob_sk0(keys))
    }

    pub fn new() -> (r: Self)
        ensures
            !r.control.enabled && !r.advertising && !r.cache.valid,
            r.persisted_counter is None,
    {
        FindMySession {
            control: AdvertiserControl::new(),
            cache: SkCache::new(),
            persisted_counter: None,
            advertising: false,
        }
    }
}

/// One decision of the Find My task: wait while disabled or without time, ask
/// for the resource, and once granted derive the slot's key and advertise it
/// until the slot ends; the key cache is stored after each rotation to a later
/// counter, so the stored counter never decreases.
pub fn findmy_step(s: &mut FindMySession, keys: &[u8; 68], ev: AdvertiserEvent) -> (r: FindMyAction)
    requires
        old(s).wf(keys@),
    ensures
        final(s).wf(keys@),
        final(s).control.enabled == old(s).control.enabled,
        old(s).persisted_counter matches Some(p) ==> (final(s).persisted_counter matches Some(q)
            && p <= q),
        match ev {
            AdvertiserEvent::Poll { unix_ts } => if !old(s).control.enabled {
                r == (FindMyAction::Wait { secs: 1 }) && final(s).control.diag
                    == FindMyDiagState::Disabled
            } else if unix_ts is None {
                r == (FindMyAction::Wait { secs: 5 }) && final(s).control.diag
                    == FindMyDiagState::WaitingGpsTime
            } else {
                r is Acquire && final(s).control.diag == FindMyDiagState::WaitingBleIdle
            },
            AdvertiserEvent::Granted { unix_ts, battery_percent } => if !old(s).control.enabled {
                r == (FindMyAction::Release { then_wait_secs: 0 }) && !final(s).advertising
            } else {
                match unix_ts {
                    None => r == (FindMyAction::Release { then_wait_secs: 10 }) && !final(s).advertising,
                    Some(ts) => {
                        let epoch = keys@[60] + 256 * keys@[61] + 65536 * keys@[62] + 16777216
                            * keys@[63] + 0x1_0000_0000 * (keys@[64] + 256 * keys@[65] + 65536
                            * keys@[66] + 16777216 * keys@[67]);
                        if ts < epoch {
                            r == (FindMyAction::Release { then_wait_secs: 10 }) && final(s).control.diag == FindMyDiagState::WaitingGpsTime
                        } else {
                            let c = (ts / 900 - epoch / 900) as u32;
                            &&& final(s).cache.valid && final(s).cache.counter == c
                            &&& (r matches FindMyAction::Advertise {
                                key_x,
                                payload,
                                address,
                                secs,
                                persist,
                            } ==> {
                                &&& payload@ == findmy_payload(
                                    key_x@,
                                    if battery_percent > 80 {
                                        0x10u8
                                    } else if battery_percent > 30 {
                                        0x50u8
                                    } else if battery_percent > 10 {
                                        0x90u8
                                    } else {
                                        0xD0u8
                                    },
                                )
                                &&& address@ == seq![key_x@[5], key_x@[4], key_x@[3], key_x@[2], key_x@[1], (key_x@[0] % 64 + 192) as u8]
                                &&& secs == 900 - ts % 900 + 1
                                &&& final(s).advertising
                                &&& (persist matches Some((sk, pc)) ==> pc == c && sk@
                                    == sk_after(blob_sk0(keys@), c as nat))
                                &&& (persist is Some <==> (old(s).persisted_counter matches Some(p)
                                    ==> p < c))
                            })
                            &&& (r is Advertise || r == (FindMyAction::Release {
                                then_wait_secs: 5,
                            }))
                            &&& exists|d: Seq<u8>|
                                #[trigger] slot_scalar(blob_private(keys@), blob_sk0(keys@), c, d)
                                    && (r is Advertise <==> scalar_of(d) != 0) && (r matches FindMyAction::Advertise { key_x, .. } ==> key_x@ == p224_base_x(d))
                        }
                    },
                }
            },
            AdvertiserEvent::Stop => r is StopAndRelease && !final(s).advertising,
            AdvertiserEvent::RadioFailed => r == (FindMyAction::Release { then_wait_secs: 5 })
                && !final(s).advertising && final(s).control.diag
                == FindMyDiagState::AdvStartFailed,
        },
{
    match ev {
        AdvertiserEvent::Poll { unix_ts } => {
            if !s.control.enabled {
                s.control.set_diag_state(FindMyDiagState::Disabled);
                return FindMyAction::Wait { secs: 1 };
            }
            if unix_ts.is_none() {
                s.control.set_diag_state(FindMyDiagState::WaitingGpsTime);
                return FindMyAction::Wait { secs: 5 };
            }
            s.control.set_diag_state(FindMyDiagState::WaitingBleIdle);
            FindMyAction::Acquire
        },
        AdvertiserEvent::Granted { unix_ts, battery_percent } => {
            if !s.control.enabled {
                s.control.set_diag_state(FindMyDiagState::Disabled);
                s.advertising = false;
                return FindMyAction::Release { then_wait_secs: 0 };
            }
            let ts = match unix_ts {
                None => {
                    s.control.set_diag_state(FindMyDiagState::WaitingGpsTime);
                    s.advertising = false;
                    return FindMyAction::Release { then_wait_secs: 10 };
                },
                Some(t) => t,
            };
            let epoch = epoch_secs(keys);
            let counter = match counter_from_unix(ts, epoch) {
                None => {
                    s.control.set_diag_state(FindMyDiagState::WaitingGpsTime);
                    s.advertising = false;
                    return FindMyAction::Release { then_wait_secs: 10 };
                },
                Some(c) => c,
            };
            let master = copy_28(keys);
            let sk0 = copy_32_at_28(keys);
            let key = derive_key_at(&mut s.cache, &master, &sk0, counter);
            let ghost dw = choose|d: Seq<u8>|
                slot_scalar(master@, sk0@, counter, d) && (scalar_of(d) == 0 ==> key is None) && (
                scalar_of(d) != 0 ==> (key matches Some(x) && x@ == p224_base_x(d)));
            proof {
                assert(master@ == blob_private(keys@));
                assert(sk0@ == blob_sk0(keys@));
                assert(slot_scalar(blob_private(keys@), blob_sk0(keys@), counter, dw));
            }
            let key_x = match key {
                None => {
                    s.control.set_diag_state(FindMyDiagState::AdvConfigureFailed);
                    s.advertising = false;
                    return FindMyAction::Release { then_wait_secs: 5 };
                },
                Some(x) => x,
            };
            let persist = match s.persisted_counter {
                Some(p) => if p < counter {
                    Some((s.cache.sk, counter))
                } else {
                    None
                },
                None => Some((s.cache.sk, counter)),
            };
            if persist.is_some() {
                s.persisted_counter = Some(counter);
            }
            let payload = build_adv_payload(&key_x, battery_to_status(battery_percent));
            let address = build_ble_address(&key_x);
            let secs = match secs_until_next_rotation_from_unix(ts, epoch) {
                Some(x) => x + 1,
                None => 901,
            };
            s.advertising = true;
            s.control.set_diag_state(FindMyDiagState::Advertising);
            FindMyAction::Advertise { key_x, payload, address, secs, persist }
        },
        AdvertiserEvent::Stop => {
            s.advertising = false;
            FindMyAction::StopAndRelease
        },
        AdvertiserEvent::RadioFailed => {
            s.advertising = false;
            s.control.set_diag_state(FindMyDiagState::AdvStartFailed);
            FindMyAction::Release { then_wait_secs: 5 }
        },
    }
}

} // verus!
