//! Google FMDN ephemeral identifiers: the AES input block, the rotation
//! schedule, the battery flags and the Eddystone advertisement.
use aes::cipher::{BlockEncrypt, KeyInit};
use vstd::prelude::*;
use crate::secp160r1::{
    be_prefix, fmul, double_and_add, n_val, p_val, reduce_256_mod_n, scalar_mul_generator, Jac, U192,
};
use vstd::arithmetic::power::pow;
use crate::digest::{sha256, sha256_of};

verus! {

/// Identifiers rotate on boundaries of `2^K` seconds.
pub const K: u8 = 10;

pub const EID_ROTATION_SECS: u64 = 1024;

/// The timestamp with its low `K` bits cleared, on its low 32 bits.
pub open spec fn masked_ts(unix_ts: u64) -> int {
    (unix_ts as int % 0x1_0000_0000) / 1024 * 1024
}

/// Byte `k` (0 = most significant) of a 32-bit value, big-endian.
pub open spec fn be_byte(v: int, k: int) -> u8 {
    ((v / pow256(3 - k)) % 256) as u8
}

pub open spec fn pow256(e: int) -> int {
    if e == 0 {
        1
    } else if e == 1 {
        256
    } else if e == 2 {
        65536
    } else {
        16777216
    }
}

/// The 32-byte block that is encrypted with the identity key.
pub open spec fn aes_input_block(unix_ts: u64) -> Seq<u8> {
    let m = masked_ts(unix_ts);
    Seq::new(
        32,
        |i: int|
            if i < 11 {
                0xFFu8
            } else if i == 11 || i == 27 {
                10u8
            } else if 12 <= i < 16 {
                be_byte(m, i - 12)
            } else if 28 <= i {
                be_byte(m, i - 28)
            } else {
                0u8
            },
    )
}

/// The 29-byte Eddystone service-data advertisement.
pub open spec fn fmdn_payload(eid: Seq<u8>, hashed_flags: u8, utp_mode: bool) -> Seq<u8> {
    seq![0x02u8, 0x01, 0x06, 0x19, 0x16, 0xAA, 0xFE, if utp_mode {
        0x41u8
    } else {
        0x40u8
    }] + eid + seq![hashed_flags]
}

/// Battery level in bits 5-6: normal above 30 %, low above 10 %, else critical.
pub open spec fn battery_flags(percent: u8) -> u8 {
    if percent > 30 {
        0x20
    } else if percent > 10 {
        0x40
    } else {
        0x60
    }
}

pub fn build_aes_input(unix_ts: u64) -> (r: [u8; 32])
    ensures
        r@ == aes_input_block(unix_ts),
{
    let masked: u32 = ((unix_ts % 0x1_0000_0000) as u32) / 1024 * 1024;
    let b0: u8 = (masked / 16777216) as u8;
    let b1: u8 = ((masked / 65536) % 256) as u8;
    let b2: u8 = ((masked / 256) % 256) as u8;
    let b3: u8 = (masked % 256) as u8;
    let mut block = [0u8; 32];
    let mut i: usize = 0;
    while i < 11
        invariant
            i <= 11,
            forall|j: int| 0 <= j < i ==> block[j] == 0xFF,
            forall|j: int| 11 <= j < 32 ==> block[j] == 0,
        decreases 11 - i,
    {
        block[i] = 0xFF;
        i = i + 1;
    }
    block[11] = K;
    block[12] = b0;
    block[13] = b1;
    block[14] = b2;
    block[15] = b3;
    block[27] = K;
    block[28] = b0;
    block[29] = b1;
    block[30] = b2;
    block[31] = b3;
    assert(masked == masked_ts(unix_ts));
    assert(block@ =~= aes_input_block(unix_ts));
    block
}

pub fn build_adv_payload(eid: &[u8; 20], hashed_flags: u8, utp_mode: bool) -> (r: [u8; 29])
    ensures
        r@ == fmdn_payload(eid@, hashed_flags, utp_mode),
{
    let mut payload = [0u8; 29];
    payload[0] = 0x02;
    payload[1] = 0x01;
    payload[2] = 0x06;
    payload[3] = 0x19;
    payload[4] = 0x16;
    payload[5] = 0xAA;
    payload[6] = 0xFE;
    payload[7] = if utp_mode {
        0x41
    } else {
        0x40
    };
    let mut i: usize = 0;
    while i < 20
        invariant
            i <= 20,
            forall|j: int| 0 <= j < i ==> payload[8 + j] == eid[j],
            payload[0] == 0x02 && payload[1] == 0x01 && payload[2] == 0x06,
            payload[3] == 0x19 && payload[4] == 0x16 && payload[5] == 0xAA,
            payload[6] == 0xFE && payload[7] == (if utp_mode {
                0x41u8
            } else {
                0x40u8
            }),
        decreases 20 - i,
    {
        payload[8 + i] = eid[i];
        i = i + 1;
    }
    payload[28] = hashed_flags;
    assert(payload@ =~= fmdn_payload(eid@, hashed_flags, utp_mode));
    payload
}

pub fn battery_to_flags(battery_percent: u8) -> (r: u8)
    ensures
        r == battery_flags(battery_percent),
{
    let level: u8 = if battery_percent > 30 {
        1
    } else if battery_percent > 10 {
        2
    } else {
        3
    };
    level * 32
}

/// Seconds until the next rotation boundary; a boundary itself counts a full slot.
pub fn secs_until_next_rotation(unix_ts: u64) -> (r: u64)
    ensures
        r == EID_ROTATION_SECS - unix_ts % EID_ROTATION_SECS,
        0 < r <= EID_ROTATION_SECS,
        (unix_ts + r) % (EID_ROTATION_SECS as int) == 0,
{
    let into_slot = unix_ts % EID_ROTATION_SECS;
    EID_ROTATION_SECS - into_slot
}

/// The AES-256 encryption of one 16-byte block under a 32-byte key.
pub uninterp spec fn aes256_block(key: Seq<u8>, block: Seq<u8>) -> Seq<u8>;

/// Relies on `aes::Aes256` (`KeyInit::new`, `BlockEncrypt::encrypt_block`):
/// one block encrypted under a 256-bit key, a function of the key and block alone.
#[verifier::external_body]
fn aes256_encrypt_block(key: &[u8; 32], block: &[u8; 16]) -> (r: [u8; 16])
    ensures
        r@ == aes256_block(key@, block@),
{
    let cipher = aes::Aes256::new(key.into());
    let mut b = aes::Block::from(*block);
    cipher.encrypt_block(&mut b);
    let mut out = [0u8; 16];
    out.copy_from_slice(&b);
    out
}

/// The identifier for one rotation slot.
#[derive(Clone, Copy, Debug)]
pub struct EidData {
    /// Big-endian x-coordinate of `R = r * G`.
    pub eid: [u8; 20],
    pub hashed_flags: u8,
    pub masked_ts: u32,
}

/// `r'`: the input block encrypted with the identity key, one half at a time.
pub open spec fn eid_cipher_output(eik: Seq<u8>, unix_ts: u64) -> Seq<u8> {
    let b = aes_input_block(unix_ts);
    aes256_block(eik, b.subrange(0, 16)) + aes256_block(eik, b.subrange(16, 32))
}

/// The affine x-coordinate `X / Z^2` of a finite Jacobian point.
pub open spec fn affine_x(q: Jac) -> int {
    let zi = pow(q.2, (p_val() - 2) as nat) % p_val();
    fmul(q.0, fmul(zi, zi))
}

/// `r` is the identifier data of the slot holding `unix_ts`: `r' = AES(eik,
/// block)`, `k = r' mod n`, the EID is the x-coordinate of `k * G` (zeros at
/// infinity), and the flags byte is `SHA256(k)[0] ^ battery_flags`.
pub open spec fn eid_for(eik: Seq<u8>, unix_ts: u64, battery_flags: u8, r: EidData) -> bool {
    &&& r.masked_ts == masked_ts(unix_ts)
    &&& exists|k: U192|
        {
            &&& k.value() == be_prefix(eid_cipher_output(eik, unix_ts), 32) % n_val()
            &&& double_and_add(k).2 == 0 ==> r.eid@ == Seq::new(20, |j: int| 0u8)
            &&& double_and_add(k).2 != 0 ==> be_prefix(r.eid@, 20) == affine_x(double_and_add(k))
            &&& r.hashed_flags == sha256_of(Seq::new(20, |j: int| k.be_byte(j + 4)))[0]
                ^ battery_flags
        }
}

/// Computes the identifier, its hashed flags and the masked timestamp of the
/// slot that holds `unix_ts`.
pub fn compute_eid(eik: &[u8; 32], unix_ts: u64, battery_flags: u8) -> (r: EidData)
    ensures
        eid_for(eik@, unix_ts, battery_flags, r),
{
    let aes_input = build_aes_input(unix_ts);
    let mut half0 = [0u8; 16];
    let mut half1 = [0u8; 16];
    let mut i: usize = 0;
    while i < 16
        invariant
            i <= 16,
            forall|j: int| 0 <= j < i ==> half0[j] == aes_input[j] && half1[j] == aes_input[j
                + 16],
        decreases 16 - i,
    {
        half0[i] = aes_input[i];
        half1[i] = aes_input[i + 16];
        i = i + 1;
    }
    assert(half0@ =~= aes_input@.subrange(0, 16));
    assert(half1@ =~= aes_input@.subrange(16, 32));
    let block0 = aes256_encrypt_block(eik, &half0);
    let block1 = aes256_encrypt_block(eik, &half1);
    let mut r_prime = [0u8; 32];
    let mut i: usize = 0;
    while i < 16
        invariant
            i <= 16,
            forall|j: int| 0 <= j < i ==> r_prime[j] == block0[j] && r_prime[j + 16] == block1[j],
        decreases 16 - i,
    {
        r_prime[i] = block0[i];
        r_prime[i + 16] = block1[i];
        i = i + 1;
    }
    assert(r_prime@ =~= block0@ + block1@);
    let r = reduce_256_mod_n(&r_prime);
    let r_point = scalar_mul_generator(&r);
    let eid = match r_point.to_affine() {
        Some(affine) => affine.x.to_be_bytes(),
        None => [0u8; 20],
    };
    let mut r_bytes = [0u8; 20];
    r.to_be_bytes_padded(&mut r_bytes);
    let r_hash = sha256(&r_bytes);
    let hashed_flags = r_hash[0] ^ battery_flags;
    let masked: u32 = ((unix_ts % 0x1_0000_0000) as u32) / 1024 * 1024;
    proof {
        assert(r_bytes@ =~= Seq::new(20, |j: int| r.be_byte(j + 4)));
        if double_and_add(r).2 == 0 {
            assert(eid@ =~= Seq::new(20, |j: int| 0u8));
        }
    }
    EidData { eid, hashed_flags, masked_ts: masked }
}

/// What the advertiser is doing, for the display.
#[derive(Clone, Copy, Debug, PartialEq, Eq, Structural)]
pub enum FmdnDiagState {
    Disabled,
    WaitingGpsTime,
    WaitingBleIdle,
    EidReady,
    Advertising,
    SetAddrFailed,
    AdvConfigureFailed,
    AdvStartFailed,
}

impl FmdnDiagState {
    pub open spec fn code(self) -> u8 {
        match self {
            FmdnDiagState::Disabled => 0,
            FmdnDiagState::WaitingGpsTime => 1,
            FmdnDiagState::WaitingBleIdle => 2,
            FmdnDiagState::EidReady => 3,
            FmdnDiagState::Advertising => 4,
            FmdnDiagState::SetAddrFailed => 5,
            FmdnDiagState::AdvConfigureFailed => 6,
            FmdnDiagState::AdvStartFailed => 7,
        }
    }

    /// The state stored as `raw`, or `None` for an unknown code.
    pub fn from_raw(raw: u8) -> (r: Option<Self>)
        ensures
            r is None <==> raw > 7,
            r matches Some(s) ==> s.code() == raw,
    {
        match raw {
            0 => Some(FmdnDiagState::Disabled),
            1 => Some(FmdnDiagState::WaitingGpsTime),
            2 => Some(FmdnDiagState::WaitingBleIdle),
            3 => Some(FmdnDiagState::EidReady),
            4 => Some(FmdnDiagState::Advertising),
            5 => Some(FmdnDiagState::SetAddrFailed),
            6 => Some(FmdnDiagState::AdvConfigureFailed),
            7 => Some(FmdnDiagState::AdvStartFailed),
            _ => None,
        }
    }
}

/// Whether the advertiser may run, and what it reports.
pub struct AdvertiserControl {
    pub enabled: bool,
    pub diag: FmdnDiagState,
}

impl AdvertiserControl {
    pub fn new() -> (r: Self)
        ensures
            !r.enabled && r.diag == FmdnDiagState::Disabled,
    {
        AdvertiserControl { enabled: false, diag: FmdnDiagState::Disabled }
    }

    /// Enabling waits for GPS time; disabling reports disabled.
    pub fn set_enabled(&mut self, enabled: bool)
        ensures
            final(self).enabled == enabled,
            final(self).diag == (if enabled {
                FmdnDiagState::WaitingGpsTime
            } else {
                FmdnDiagState::Disabled
            }),
    {
        self.enabled = enabled;
        self.diag = if enabled {
            FmdnDiagState::WaitingGpsTime
        } else {
            FmdnDiagState::Disabled
        };
    }

    pub fn is_enabled(&self) -> (r: bool)
        ensures
            r == self.enabled,
    {
        self.enabled
    }

    pub fn set_diag_state(&mut self, state: FmdnDiagState)
        ensures
            final(self).diag == state,
            final(self).enabled == old(self).enabled,
    {
        self.diag = state;
    }

    pub fn diag_state(&self) -> (r: FmdnDiagState)
        ensures
            r == self.diag,
    {
        self.diag
    }
}

/// The random static address of a slot: the first six bytes of `SHA256(EID)`,
/// the top two bits of the last set.
pub open spec fn fmdn_address_of(eid: Seq<u8>) -> Seq<u8> {
    let h = sha256_of(eid);
    seq![h[0], h[1], h[2], h[3], h[4], (h[5] % 64 + 192) as u8]
}

pub fn fmdn_address(eid: &[u8; 20]) -> (r: [u8; 6])
    ensures
        r@ == fmdn_address_of(eid@),
{
    let h = sha256(eid);
    let mut a = [0u8; 6];
    a[0] = h[0];
    a[1] = h[1];
    a[2] = h[2];
    a[3] = h[3];
    a[4] = h[4];
    a[5] = h[5] % 64 + 192;
    assert(a@ =~= fmdn_address_of(eid@));
    a
}

/// What the advertiser task was told since its last step.
pub enum AdvertiserEvent {
    /// A periodic check, with the current Unix time when one is known.
    Poll { unix_ts: Option<u64> },
    /// The advertising resource was granted.
    Granted { unix_ts: Option<u64>, battery_percent: u8 },
    /// The holder was preempted, or the rotation boundary passed.
    Stop,
    /// The radio refused the address or the advertising set.
    RadioFailed,
}

/// What the FMDN task does next.
pub enum FmdnAction {
    Wait { secs: u64 },
    Acquire,
    /// Release the resource, then wait.
    Release { then_wait_secs: u64 },
    /// Advertise `payload` from `address` for `secs` seconds, holding the resource.
    Advertise { eid: EidData, payload: [u8; 29], address: [u8; 6], secs: u64 },
    /// Stop advertising, restore the address and release the resource.
    StopAndRelease,
}

/// The FMDN task's state between steps.
pub struct FmdnSession {
    pub control: AdvertiserControl,
    pub advertising: bool,
    pub masked_ts: u32,
}

impl FmdnSession {
    pub fn new() -> (r: Self)
        ensures
            !r.control.enabled && !r.advertising,
    {
        FmdnSession { control: AdvertiserControl::new(), advertising: false, masked_ts: 0 }
    }
}

/// One decision of the FMDN task: wait while disabled or without time, ask for
/// the resource, advertise the slot's identifier once granted until the slot
/// ends, and stop and release when preempted or at the boundary.
pub fn fmdn_step(s: &mut FmdnSession, eik: &[u8; 32], ev: AdvertiserEvent) -> (r: FmdnAction)
    ensures
        final(s).control.enabled == old(s).control.enabled,
        match ev {
            AdvertiserEvent::Poll { unix_ts } => if !old(s).control.enabled {
                r == (FmdnAction::Wait { secs: 1 }) && final(s).control.diag == FmdnDiagState::Disabled
            } else if unix_ts is None {
                r == (FmdnAction::Wait { secs: 5 }) && final(s).control.diag
                    == FmdnDiagState::WaitingGpsTime
            } else {
                r is Acquire && final(s).control.diag == FmdnDiagState::WaitingBleIdle
            },
            AdvertiserEvent::Granted { unix_ts, battery_percent } => if !old(s).control.enabled {
                r == (FmdnAction::Release { then_wait_secs: 0 }) && final(s).control.diag
                    == FmdnDiagState::Disabled && !final(s).advertising
            } else {
                match unix_ts {
                    None => r == (FmdnAction::Release { then_wait_secs: 10 }) && final(s).control.diag == FmdnDiagState::WaitingGpsTime && !final(s).advertising,
                    Some(ts) => (r matches FmdnAction::Advertise { eid, payload, address, secs }
                        && eid_for(eik@, ts, battery_flags(battery_percent), eid) && payload@
                        == fmdn_payload(eid.eid@, eid.hashed_flags, false) && address@
                        == fmdn_address_of(eid.eid@) && secs == EID_ROTATION_SECS - ts
                        % EID_ROTATION_SECS + 1 && final(s).advertising && final(s).masked_ts
                        == eid.masked_ts && final(s).control.diag == FmdnDiagState::Advertising),
                }
            },
            AdvertiserEvent::Stop => r is StopAndRelease && !final(s).advertising,
            AdvertiserEvent::RadioFailed => r == (FmdnAction::Release { then_wait_secs: 5 })
                && !final(s).advertising && final(s).control.diag
                == FmdnDiagState::AdvStartFailed,
        },
{
    match ev {
        AdvertiserEvent::Poll { unix_ts } => {
            if !s.control.enabled {
                s.control.set_diag_state(FmdnDiagState::Disabled);
                return FmdnAction::Wait { secs: 1 };
            }
            if unix_ts.is_none() {
                s.control.set_diag_state(FmdnDiagState::WaitingGpsTime);
                return FmdnAction::Wait { secs: 5 };
            }
            s.control.set_diag_state(FmdnDiagState::WaitingBleIdle);
            FmdnAction::Acquire
        },
        AdvertiserEvent::Granted { unix_ts, battery_percent } => {
            if !s.control.enabled {
                s.control.set_diag_state(FmdnDiagState::Disabled);
                s.advertising = false;
                return FmdnAction::Release { then_wait_secs: 0 };
            }
            match unix_ts {
                None => {
                    s.control.set_diag_state(FmdnDiagState::WaitingGpsTime);
                    s.advertising = false;
                    FmdnAction::Release { then_wait_secs: 10 }
                },
                Some(ts) => {
                    let flags = battery_to_flags(battery_percent);
                    let eid = compute_eid(eik, ts, flags);
                    let payload = build_adv_payload(&eid.eid, eid.hashed_flags, false);
                    let address = fmdn_address(&eid.eid);
                    s.masked_ts = eid.masked_ts;
                    s.advertising = true;
                    s.control.set_diag_state(FmdnDiagState::Advertising);
                    let secs = secs_until_next_rotation(ts) + 1;
                    FmdnAction::Advertise { eid, payload, address, secs }
                },
            }
        },
        AdvertiserEvent::Stop => {
            s.advertising = false;
            FmdnAction::StopAndRelease
        },
        AdvertiserEvent::RadioFailed => {
            s.advertising = false;
            s.control.set_diag_state(FmdnDiagState::AdvStartFailed);
            FmdnAction::Release { then_wait_secs: 5 }
        },
    }
}

} // verus!
