//! Decisions of the SD-card track log: which samples are logged, when the
//! daily file changes, when the write cache is flushed, and which old files
//! are deleted to stay within the size budget. The FAT volume is the caller's.
use vstd::prelude::*;
use crate::log_codec::{
    delta_record, full_record, next_is_full, GpsDataEncoder, GpxPointInternal, FULL_BLOCK_INTERVAL,
};
use crate::log_name::unix_to_date;
use crate::secp160r1::be_prefix;
use crate::timezone::{days_before_month, days_before_year};

verus! {

pub const CACHE_SIZE: usize = 4096;

pub const MAX_FILE_SIZE_BYTES: u64 = 1024 * 1024 * 1024;

/// Largest accepted disagreement between GPS time and the monotonic clock.
pub const MAX_TIME_JUMP_SECS: i64 = 3600;

/// A log file in the root directory: its 8.3 short name and its size.
#[derive(Clone, Copy, Debug)]
pub struct GpxFileInfo {
    pub name: [u8; 11],
    pub size: u32,
}

/// Short names of equal length order as the numbers their bytes spell.
pub open spec fn name_key(name: Seq<u8>) -> int {
    be_prefix(name, 11)
}

pub open spec fn size_sum(files: Seq<GpxFileInfo>, idx: Seq<usize>) -> int
    decreases idx.len(),
{
    if idx.len() == 0 {
        0
    } else {
        size_sum(files, idx.drop_last()) + files[idx.last() as int].size
    }
}

pub open spec fn all_indices(n: nat) -> Seq<usize> {
    Seq::new(n, |i: int| i as usize)
}

/// The ordering key of a short name.
fn short_name_key(name: &[u8; 11]) -> (r: u128)
    ensures
        r as int == name_key(name@),
{
    let mut k: u128 = 0;
    let mut i: usize = 0;
    while i < 11
        invariant
            i <= 11,
            k as int == be_prefix(name@, i as int),
            be_prefix(name@, i as int) < pow256(i as nat),
        decreases 11 - i,
    {
        proof {
            reveal_with_fuel(pow256, 12);
            assert(pow256(i as nat) <= 0x100_0000_0000_0000_0000_0000);
        }
        k = k * 256 + name[i] as u128;
        i = i + 1;
    }
    k
}

pub open spec fn pow256(i: nat) -> int
    decreases i,
{
    if i == 0 {
        1
    } else {
        256 * pow256((i - 1) as nat)
    }
}

/// The file with the smallest name (the oldest day); the first of equals.
pub fn find_oldest_index(files: &[GpxFileInfo]) -> (r: usize)
    requires
        files@.len() > 0,
    ensures
        r < files@.len(),
        forall|j: int| 0 <= j < files@.len() ==> name_key(files@[r as int].name@) <= name_key(
            #[trigger] files@[j].name@,
        ),
{
    let mut best: usize = 0;
    let mut best_key = short_name_key(&files[0].name);
    let mut i: usize = 1;
    while i < files.len()
        invariant
            1 <= i <= files@.len(),
            best < files@.len(),
            best_key as int == name_key(files@[best as int].name@),
            forall|j: int| 0 <= j < i ==> name_key(files@[best as int].name@) <= name_key(
                #[trigger] files@[j].name@,
            ),
        decreases files@.len() - i,
    {
        let k = short_name_key(&files[i].name);
        if k < best_key {
            best = i;
            best_key = k;
        }
        i = i + 1;
    }
    best
}

/// The files to delete, oldest first, until the rest fit in `budget` or none
/// is left.
pub fn plan_eviction(files: &[GpxFileInfo], budget: u64) -> (r: Vec<usize>)
    ensures
        forall|a: int| 0 <= a < r@.len() ==> (#[trigger] r@[a]) < files@.len(),
        forall|a: int, b: int| 0 <= a < b < r@.len() ==> r@[a] != r@[b],
        size_sum(files@, all_indices(files@.len())) - size_sum(files@, r@) <= budget
            || r@.len() == files@.len(),
        forall|a: int, j: int|
            #![trigger r@[a], files@[j]]
            0 <= a < r@.len() && 0 <= j < files@.len() && !r@.contains(j as usize) ==> name_key(
                files@[r@[a] as int].name@,
            ) <= name_key(files@[j].name@),
{
    let n = files.len();
    let mut total: u128 = 0;
    let mut i: usize = 0;
    while i < n
        invariant
            n == files@.len(),
            i <= n,
            total as int == size_sum(files@, all_indices(i as nat)),
            total <= i * 0x1_0000_0000,
        decreases n - i,
    {
        proof {
            assert(all_indices((i + 1) as nat).drop_last() =~= all_indices(i as nat));
        }
        total = total + files[i].size as u128;
        i = i + 1;
    }
    let mut deleted: Vec<usize> = Vec::new();
    let mut remaining: Vec<usize> = Vec::new();
    let mut j: usize = 0;
    while j < n
        invariant
            n == files@.len(),
            j <= n,
            remaining@ == all_indices(j as nat),
        decreases n - j,
    {
        remaining.push(j);
        j = j + 1;
        assert(remaining@ =~= all_indices(j as nat));
    }
    let ghost all = all_indices(n as nat);
    proof {
        assert forall|x: usize| x < n implies remaining@.contains(x) by {
            assert(remaining@[x as int] == x);
        }
    }
    while total > budget as u128 && remaining.len() > 0
        invariant
            n == files@.len(),
            all == all_indices(n as nat),
            total as int == (if size_sum(files@, all) - size_sum(files@, deleted@) >= 0 {
                size_sum(files@, all) - size_sum(files@, deleted@)
            } else {
                0
            }),
            deleted@.len() + remaining@.len() == n,
            forall|a: int| 0 <= a < remaining@.len() ==> (#[trigger] remaining@[a]) < n,
            forall|a: int| 0 <= a < deleted@.len() ==> (#[trigger] deleted@[a]) < n,
            forall|x: usize| x < n ==> (deleted@.contains(x) <==> !remaining@.contains(x)),
            forall|a: int, b: int| 0 <= a < b < remaining@.len() ==> remaining@[a] != remaining@[b],
            forall|a: int, b: int| 0 <= a < b < deleted@.len() ==> deleted@[a] != deleted@[b],
            forall|a: int, b: int|
                #![trigger deleted@[a], remaining@[b]]
                0 <= a < deleted@.len() && 0 <= b < remaining@.len() ==> name_key(
                    files@[deleted@[a] as int].name@,
                ) <= name_key(files@[remaining@[b] as int].name@),
        decreases remaining@.len(),
    {
        let mut best: usize = 0;
        let mut best_key = short_name_key(&files[remaining[0]].name);
        let mut q: usize = 1;
        while q < remaining.len()
            invariant
                n == files@.len(),
                1 <= q <= remaining@.len(),
                best < remaining@.len(),
                forall|a: int| 0 <= a < remaining@.len() ==> (#[trigger] remaining@[a]) < n,
                best_key as int == name_key(files@[remaining@[best as int] as int].name@),
                forall|b: int| 0 <= b < q ==> name_key(files@[remaining@[best as int] as int].name@)
                    <= name_key(files@[#[trigger] remaining@[b] as int].name@),
            decreases remaining@.len() - q,
        {
            let k = short_name_key(&files[remaining[q]].name);
            if k < best_key {
                best = q;
                best_key = k;
            }
            q = q + 1;
        }
        let victim = remaining[best];
        let ghost old_rem = remaining@;
        let ghost old_del = deleted@;
        remaining.remove(best);
        deleted.push(victim);
        proof {
            assert(deleted@.drop_last() =~= old_del);
            assert forall|x: usize| x < n implies (deleted@.contains(x) <==> !remaining@.contains(
                x,
            )) by {
                if x == victim {
                    assert(deleted@[deleted@.len() - 1] == x);
                    if remaining@.contains(x) {
                        let w = choose|w: int| 0 <= w < remaining@.len() && remaining@[w] == x;
                        if w < best {
                            assert(old_rem[w] == x && old_rem[best as int] == x);
                        } else {
                            assert(old_rem[w + 1] == x && old_rem[best as int] == x);
                        }
                    }
                } else {
                    if old_rem.contains(x) {
                        let w = choose|w: int| 0 <= w < old_rem.len() && old_rem[w] == x;
                        if w < best {
                            assert(remaining@[w] == x);
                        } else {
                            assert(remaining@[w - 1] == x);
                        }
                    }
                    if remaining@.contains(x) {
                        let w = choose|w: int| 0 <= w < remaining@.len() && remaining@[w] == x;
                        if w < best {
                            assert(old_rem[w] == x);
                        } else {
                            assert(old_rem[w + 1] == x);
                        }
                    }
                    if deleted@.contains(x) {
                        let w = choose|w: int| 0 <= w < deleted@.len() && deleted@[w] == x;
                        assert(old_del[w] == x);
                    }
                    if old_del.contains(x) {
                        let w = choose|w: int| 0 <= w < old_del.len() && old_del[w] == x;
                        assert(deleted@[w] == x);
                    }
                }
            }
            assert forall|a: int, b: int|
                #![trigger deleted@[a], remaining@[b]]
                0 <= a < deleted@.len() && 0 <= b < remaining@.len() implies name_key(
                files@[deleted@[a] as int].name@,
            ) <= name_key(files@[remaining@[b] as int].name@) by {
                let ob = if b < best {
                    b
                } else {
                    b + 1
                };
                assert(remaining@[b] == old_rem[ob]);
                if a < old_del.len() {
                    assert(deleted@[a] == old_del[a]);
                }
            }
            assert forall|a: int, b: int| 0 <= a < b < deleted@.len() implies deleted@[a]
                != deleted@[b] by {
                if b == deleted@.len() - 1 {
                    assert(old_del.contains(deleted@[a]));
                    assert(!old_rem.contains(deleted@[a]));
                    assert(old_rem[best as int] == victim);
                }
            }
        }
        total = total.saturating_sub(files[victim].size as u128);
    }
    proof {
        if remaining@.len() == 0 {
            assert(deleted@.len() == n);
        }
        assert forall|a: int, j: int|
            #![trigger deleted@[a], files@[j]]
            0 <= a < deleted@.len() && 0 <= j < files@.len() && !deleted@.contains(
                j as usize,
            ) implies name_key(files@[deleted@[a] as int].name@) <= name_key(
            files@[j].name@,
        ) by {
            assert(remaining@.contains(j as usize));
            let w = choose|w: int| 0 <= w < remaining@.len() && remaining@[w] == j as usize;
            assert(files@[remaining@[w] as int] == files@[j]);
        }
    }
    deleted
}

/// The date a timestamp falls on, as `YYYYMMDD`.
pub open spec fn day_code(y: u16, m: u8, d: u8) -> int {
    y * 10000 + m * 100 + d
}

/// The write path: the current day, the encoder session and the cache.
pub struct LogStore {
    current_date: u32,
    encoder: GpsDataEncoder,
    cache: Vec<u8>,
    last_timestamp: u32,
    last_mono_s: u32,
}

impl LogStore {
    /// `YYYYMMDD` of the open day, 0 before the first sample.
    pub closed spec fn date(&self) -> u32 {
        self.current_date
    }

    pub closed spec fn last_ts(&self) -> u32 {
        self.last_timestamp
    }

    pub closed spec fn last_mono(&self) -> u32 {
        self.last_mono_s
    }

    pub fn current_date(&self) -> (r: u32)
        ensures
            r == self.date(),
    {
        self.current_date
    }

    /// The next record starts a new codec session: it is a full anchor.
    pub closed spec fn fresh_session(&self) -> bool {
        self.encoder.first() && self.encoder.since() == 0
    }

    pub closed spec fn cached(&self) -> Seq<u8> {
        self.cache@
    }

    pub closed spec fn wf(&self) -> bool {
        self.cache@.len() <= CACHE_SIZE && self.encoder.wf()
    }

    pub fn new() -> (r: Self)
        ensures
            r.wf(),
            r.date() == 0 && r.last_ts() == 0 && r.last_mono() == 0,
            r.cached().len() == 0,
    {
        LogStore {
            current_date: 0,
            encoder: GpsDataEncoder::new(FULL_BLOCK_INTERVAL),
            cache: Vec::new(),
            last_timestamp: 0,
            last_mono_s: 0,
        }
    }

    /// Whether a sample stamped `ts` at monotonic second `now_s` is logged: never
    /// for a zero stamp, nor when GPS time moved more than an hour away from the
    /// monotonic clock since the last sample. An accepted sample becomes the last.
    pub fn accept_timestamp(&mut self, ts: u32, now_s: u32) -> (r: bool)
        requires
            old(self).wf(),
        ensures
            final(self).wf(),
            r == (ts != 0 && !(old(self).last_ts() != 0 && old(self).last_mono() != 0 && now_s
                >= old(self).last_mono() && ({
                let d = (ts - old(self).last_ts()) - (now_s - old(self).last_mono());
                d > 3600 || d < -3600
            }))),
            r ==> final(self).last_ts() == ts && final(self).last_mono() == now_s,
            !r ==> final(self).last_ts() == old(self).last_ts() && final(self).last_mono()
                == old(self).last_mono(),
            final(self).date() == old(self).date(),
            final(self).cached() == old(self).cached(),
    {
        if ts == 0 {
            return false;
        }
        if self.last_timestamp != 0 && self.last_mono_s != 0 {
            let gps_diff = ts as i64 - self.last_timestamp as i64;
            let mono_diff = now_s as i64 - self.last_mono_s as i64;
            if mono_diff >= 0 {
                let d = gps_diff - mono_diff;
                if d > MAX_TIME_JUMP_SECS || d < -MAX_TIME_JUMP_SECS {
                    return false;
                }
            }
        }
        self.last_timestamp = ts;
        self.last_mono_s = now_s;
        true
    }

    /// `YYYYMMDD` of the UTC day of `ts`.
    pub fn date_code(ts: u32) -> (r: u32)
        ensures
            exists|y: u16, m: u8, d: u8|
                {
                    &&& 1 <= m <= 12 && d >= 1
                    &&& ts / 86400 == days_before_year(y as int) + days_before_month(
                        y as int,
                        m as int,
                    ) + d - 1
                    &&& r == day_code(y, m, d)
                },
    {
        let (y, m, d) = unix_to_date(ts);
        let code = (y as u32) * 10000 + (m as u32) * 100 + (d as u32);
        assert(1 <= m <= 12 && d >= 1 && ts / 86400 == days_before_year(y as int)
            + days_before_month(y as int, m as int) + d - 1 && code == day_code(y, m, d));
        code
    }

    /// Whether the day `code` (from `date_code`) differs from the open log's, or
    /// no log is open.
    pub fn needs_rotation(&self, code: u32) -> (r: bool)
        ensures
            r == (self.date() == 0 || code != self.date()),
    {
        self.current_date == 0 || code != self.current_date
    }

    /// Starts the log of day `code`: a fresh encoder session, so the day's first
    /// record is an anchor. The caller has flushed and closed the old file.
    pub fn start_day(&mut self, code: u32)
        requires
            old(self).wf(),
            old(self).cached().len() == 0,
        ensures
            final(self).wf(),
            final(self).cached().len() == 0,
            final(self).fresh_session(),
            final(self).date() == code,
            final(self).last_ts() == old(self).last_ts(),
            final(self).last_mono() == old(self).last_mono(),
    {
        self.current_date = code;
        self.encoder.clear();
    }

    /// Encodes a point; returns the record's length and whether the cache must
    /// be flushed before the record fits.
    pub fn stage(&mut self, point: GpxPointInternal) -> (r: (usize, bool))
        requires
            old(self).wf(),
        ensures
            final(self).wf(),
            r.0 == final(self).staged().len(),
            r.1 == (old(self).cached().len() + r.0 > CACHE_SIZE),
            final(self).cached() == old(self).cached(),
            final(self).date() == old(self).date(),
            final(self).last_ts() == old(self).last_ts(),
            final(self).last_mono() == old(self).last_mono(),
            final(self).staged() == (if next_is_full(
                old(self).codec().first(),
                old(self).codec().since(),
                old(self).codec().interval(),
            ) {
                full_record(point)
            } else {
                delta_record(old(self).codec().previous(), point)
            }),
            final(self).codec().previous() == point,
    {
        let len = self.encoder.encode(point);
        (len, self.cache.len() + len > CACHE_SIZE)
    }

    /// The codec session that encodes the day's records.
    pub closed spec fn codec(&self) -> GpsDataEncoder {
        self.encoder
    }

    /// The last encoded record.
    pub closed spec fn staged(&self) -> Seq<u8> {
        self.encoder.record()
    }

    /// Appends the staged record to the cache; returns whether the cache is now
    /// full and must be flushed.
    pub fn commit(&mut self) -> (r: bool)
        requires
            old(self).wf(),
            old(self).cached().len() + old(self).staged().len() <= CACHE_SIZE,
        ensures
            final(self).wf(),
            final(self).cached() == old(self).cached() + old(self).staged(),
            r == (final(self).cached().len() >= CACHE_SIZE),
            final(self).date() == old(self).date(),
            final(self).staged() == old(self).staged(),
    {
        let rec = self.encoder.buffer();
        let mut i: usize = 0;
        let ghost start = self.cache@;
        while i < rec.len()
            invariant
                rec@ == self.encoder.record(),
                self.encoder.wf(),
                self.current_date == old(self).current_date,
                self.encoder.record() == old(self).encoder.record(),
                i <= rec@.len(),
                start.len() + rec@.len() <= CACHE_SIZE,
                self.cache@ == start + rec@.subrange(0, i as int),
            decreases rec@.len() - i,
        {
            self.cache.push(rec[i]);
            i = i + 1;
            assert(self.cache@ =~= start + rec@.subrange(0, i as int));
        }
        assert(rec@.subrange(0, i as int) =~= rec@);
        self.cache.len() >= CACHE_SIZE
    }

    /// The cached bytes, to be written to the day's file.
    pub fn cache(&self) -> (r: &[u8])
        ensures
            r@ == self.cached(),
    {
        self.cache.as_slice()
    }

    /// The caller wrote and synced the cache: it is empty again.
    pub fn flushed(&mut self)
        requires
            old(self).wf(),
        ensures
            final(self).wf(),
            final(self).cached().len() == 0,
            final(self).date() == old(self).date(),
            final(self).staged() == old(self).staged(),
            final(self).last_ts() == old(self).last_ts(),
    {
        self.cache = Vec::new();
    }

    /// The active log was deleted: unflushed bytes are dropped and the next
    /// record starts a fresh session.
    pub fn drop_active_log(&mut self)
        requires
            old(self).wf(),
        ensures
            final(self).wf(),
            final(self).cached().len() == 0,
            final(self).fresh_session(),
            final(self).date() == old(self).date(),
    {
        self.cache = Vec::new();
        self.encoder.clear();
    }
}

/// A directory entry as listed: its 8.3 name, whether it is a directory, its size.
#[derive(Clone, Copy, Debug)]
pub struct DirEntryInfo {
    pub name: [u8; 11],
    pub is_dir: bool,
    pub size: u32,
}

pub open spec fn upper(c: u8) -> u8 {
    if 0x61 <= c <= 0x7A {
        (c - 0x20) as u8
    } else {
        c
    }
}

/// A track log: a file whose extension is `GPZ` in any letter case.
pub open spec fn is_log_entry(e: DirEntryInfo) -> bool {
    !e.is_dir && upper(e.name[8]) == 0x47 && upper(e.name[9]) == 0x50 && upper(e.name[10]) == 0x5A
}

/// The track logs among `entries`, in order.
pub open spec fn log_files_of(entries: Seq<DirEntryInfo>) -> Seq<GpxFileInfo>
    decreases entries.len(),
{
    if entries.len() == 0 {
        Seq::empty()
    } else {
        let e = entries.last();
        log_files_of(entries.drop_last()) + if is_log_entry(e) {
            seq![GpxFileInfo { name: e.name, size: e.size }]
        } else {
            Seq::empty()
        }
    }
}

fn upper_byte(c: u8) -> (r: u8)
    ensures
        r == upper(c),
{
    if 0x61 <= c && c <= 0x7A {
        c - 0x20
    } else {
        c
    }
}

/// The track logs of a directory listing; directories and other files are
/// left out, so eviction never touches them.
pub fn log_files(entries: &[DirEntryInfo]) -> (r: Vec<GpxFileInfo>)
    ensures
        r@ == log_files_of(entries@),
{
    let mut out: Vec<GpxFileInfo> = Vec::new();
    let mut i: usize = 0;
    while i < entries.len()
        invariant
            i <= entries@.len(),
            out@ == log_files_of(entries@.subrange(0, i as int)),
        decreases entries@.len() - i,
    {
        let e = entries[i];
        proof {
            assert(entries@.subrange(0, i + 1).drop_last() =~= entries@.subrange(0, i as int));
        }
        if !e.is_dir && upper_byte(e.name[8]) == 0x47 && upper_byte(e.name[9]) == 0x50
            && upper_byte(e.name[10]) == 0x5A {
            out.push(GpxFileInfo { name: e.name, size: e.size });
        }
        i = i + 1;
    }
    assert(entries@.subrange(0, i as int) =~= entries@);
    out
}

/// What to do with a delete request.
pub enum DeletePlan {
    /// Refuse: a read handle is open or the path names no file.
    Refuse,
    /// Delete `name` in directory `dir` (root when empty); `is_active` when it
    /// is the open day's log, whose cached bytes and codec session then reset.
    Delete { dir: Vec<u8>, name: Vec<u8>, is_active: bool },
}

pub const MAX_PATH_LENGTH: usize = 64;

/// The first index at or after `i` that is not a slash.
pub open spec fn skip_slashes(p: Seq<u8>, i: int) -> int
    decreases p.len() - i,
{
    if i < 0 || i >= p.len() {
        p.len() as int
    } else if p[i] != 0x2F {
        i
    } else {
        skip_slashes(p, i + 1)
    }
}

/// The end of `p[..j]` with its trailing slashes removed.
pub open spec fn trim_end(p: Seq<u8>, j: int) -> int
    decreases j,
{
    if j <= 0 {
        0
    } else if p[j - 1] != 0x2F {
        j
    } else {
        trim_end(p, j - 1)
    }
}

/// The position of the last slash in `p[..j]`, or -1.
pub open spec fn last_slash(p: Seq<u8>, j: int) -> int
    decreases j,
{
    if j <= 0 {
        -1
    } else if p[j - 1] == 0x2F {
        j - 1
    } else {
        last_slash(p, j - 1)
    }
}

/// The path without leading and trailing slashes.
pub open spec fn trimmed(p: Seq<u8>) -> Seq<u8> {
    let s = skip_slashes(p, 0);
    let e = trim_end(p, p.len() as int);
    if s < e {
        p.subrange(s, e)
    } else {
        Seq::empty()
    }
}

pub open spec fn same_name(a: Seq<u8>, b: Seq<u8>) -> bool {
    a.len() == b.len() && forall|i: int| 0 <= i < a.len() ==> upper(a[i]) == upper(#[trigger] b[i])
}

proof fn lemma_skip_bound(p: Seq<u8>, i: int)
    requires
        0 <= i <= p.len(),
    ensures
        i <= skip_slashes(p, i) <= p.len(),
        skip_slashes(p, i) < p.len() ==> p[skip_slashes(p, i)] != 0x2F,
    decreases p.len() - i,
{
    if i < p.len() && p[i] == 0x2F {
        lemma_skip_bound(p, i + 1);
    }
}

proof fn lemma_trim_bound(p: Seq<u8>, j: int)
    requires
        0 <= j <= p.len(),
    ensures
        0 <= trim_end(p, j) <= j,
        trim_end(p, j) > 0 ==> p[trim_end(p, j) - 1] != 0x2F,
    decreases j,
{
    if j > 0 && p[j - 1] == 0x2F {
        lemma_trim_bound(p, j - 1);
    }
}

proof fn lemma_last_slash_bound(p: Seq<u8>, j: int)
    requires
        0 <= j <= p.len(),
    ensures
        -1 <= last_slash(p, j) < j,
    decreases j,
{
    if j > 0 && p[j - 1] != 0x2F {
        lemma_last_slash_bound(p, j - 1);
    }
}

fn sub_vec(b: &[u8], from: usize, to: usize) -> (r: Vec<u8>)
    requires
        from <= to <= b@.len(),
    ensures
        r@ == b@.subrange(from as int, to as int),
{
    let mut out: Vec<u8> = Vec::new();
    let mut i = from;
    while i < to
        invariant
            from <= i <= to,
            to <= b@.len(),
            out@ == b@.subrange(from as int, i as int),
        decreases to - i,
    {
        out.push(b[i]);
        i = i + 1;
        assert(out@ =~= b@.subrange(from as int, i as int));
    }
    out
}

/// Decides a delete request: refused while a read handle is open, for an empty
/// path or one of 64 bytes or more, or when only slashes remain; otherwise the
/// path without outer slashes is split at its last slash into directory and
/// name, and the name is the active log when it is in the root and equals the
/// active log's name in any letter case.
pub fn plan_delete(path: &[u8], handle_open: bool, active: &[u8; 12]) -> (r: DeletePlan)
    ensures
        (handle_open || path@.len() == 0 || path@.len() >= MAX_PATH_LENGTH || trimmed(
            path@,
        ).len() == 0) <==> r is Refuse,
        r matches DeletePlan::Delete { dir, name, is_active } ==> {
            let t = trimmed(path@);
            let k = last_slash(t, t.len() as int);
            &&& dir@ == (if k < 0 {
                Seq::<u8>::empty()
            } else {
                t.subrange(0, k)
            })
            &&& name@ == t.subrange(k + 1, t.len() as int)
            &&& is_active == (dir@.len() == 0 && same_name(name@, active@))
        },
{
    if handle_open || path.len() == 0 || path.len() >= MAX_PATH_LENGTH {
        return DeletePlan::Refuse;
    }
    let n = path.len();
    let mut s: usize = 0;
    while s < n && path[s] == 0x2F
        invariant
            s <= n,
            n == path@.len(),
            skip_slashes(path@, s as int) == skip_slashes(path@, 0),
        decreases n - s,
    {
        s = s + 1;
    }
    let mut e: usize = n;
    while e > 0 && path[e - 1] == 0x2F
        invariant
            e <= n,
            n == path@.len(),
            trim_end(path@, e as int) == trim_end(path@, n as int),
        decreases e,
    {
        e = e - 1;
    }
    proof {
        lemma_skip_bound(path@, 0);
        lemma_trim_bound(path@, n as int);
    }
    if s >= e {
        return DeletePlan::Refuse;
    }
    let t = sub_vec(path, s, e);
    let tl = t.len();
    let mut k: usize = tl;
    while k > 0 && t[k - 1] != 0x2F
        invariant
            k <= tl,
            tl == t@.len(),
            last_slash(t@, k as int) == last_slash(t@, tl as int),
        decreases k,
    {
        k = k - 1;
    }
    proof {
        lemma_last_slash_bound(t@, tl as int);
        lemma_skip_bound(path@, 0);
        lemma_trim_bound(path@, n as int);
    }
    let (dir, name) = if k == 0 {
        (Vec::new(), sub_vec(t.as_slice(), 0, tl))
    } else {
        (sub_vec(t.as_slice(), 0, k - 1), sub_vec(t.as_slice(), k, tl))
    };
    proof {
        if k == 0 {
            assert(dir@ =~= Seq::<u8>::empty());
            assert(t@.subrange(0, tl as int) =~= t@);
        }
    }
    let mut is_active = dir.len() == 0 && name.len() == 12;
    let mut i: usize = 0;
    while is_active && i < 12
        invariant
            i <= 12,
            is_active ==> name@.len() == 12 && dir@.len() == 0,
            is_active ==> forall|j: int| 0 <= j < i ==> upper(name@[j]) == upper(#[trigger] active@[j]),
            !is_active ==> !(dir@.len() == 0 && same_name(name@, active@)),
        decreases 12 - i,
    {
        if upper_byte(name[i]) != upper_byte(active[i]) {
            is_active = false;
        }
        i = i + 1;
    }
    DeletePlan::Delete { dir, name, is_active }
}

/// The directory listing in progress: its path and how many entries were given.
pub struct ListingCursor {
    pub path: Vec<u8>,
    pub in_progress: bool,
    pub index: usize,
}

fn same_bytes(a: &[u8], b: &[u8]) -> (r: bool)
    ensures
        r == (a@ == b@),
{
    if a.len() != b.len() {
        return false;
    }
    let mut i: usize = 0;
    while i < a.len()
        invariant
            a@.len() == b@.len(),
            i <= a@.len(),
            forall|j: int| 0 <= j < i ==> a@[j] == b@[j],
        decreases a@.len() - i,
    {
        if a[i] != b[i] {
            return false;
        }
        i = i + 1;
    }
    assert(a@ =~= b@);
    true
}

impl ListingCursor {
    pub fn new() -> (r: Self)
        ensures
            !r.in_progress && r.index == 0,
    {
        ListingCursor { path: Vec::new(), in_progress: false, index: 0 }
    }

    /// A list-dir request for `path`: a listing of another path, or none in
    /// progress, starts over at the first entry. Returns whether the directory
    /// must be (re)opened.
    pub fn start(&mut self, path: &[u8]) -> (r: bool)
        ensures
            r == (!old(self).in_progress || old(self).path@ != path@),
            final(self).in_progress,
            final(self).path@ == path@,
            r ==> final(self).index == 0,
            !r ==> final(self).index == old(self).index,
    {
        if self.in_progress && same_bytes(self.path.as_slice(), path) {
            return false;
        }
        self.path = sub_vec(path, 0, path.len());
        assert(path@.subrange(0, path@.len() as int) =~= path@);
        self.in_progress = true;
        self.index = 0;
        true
    }

    /// An entry was given: the next request asks for the one after it.
    pub fn advance(&mut self)
        ensures
            final(self).index == (if old(self).index == usize::MAX {
                usize::MAX as int
            } else {
                old(self).index + 1
            }),
            final(self).path@ == old(self).path@,
            final(self).in_progress == old(self).in_progress,
    {
        if self.index < usize::MAX {
            self.index = self.index + 1;
        }
    }

    /// The listing ended (done or failed).
    pub fn finish(&mut self)
        ensures
            !final(self).in_progress && final(self).index == 0,
    {
        self.in_progress = false;
        self.index = 0;
    }
}

/// The `.` and `..` entries of a subdirectory, which a listing skips.
pub open spec fn is_dot_entry(name: Seq<u8>) -> bool {
    name[0] == 0x2E && (name[1] == 0x20 || (name[1] == 0x2E && name[2] == 0x20))
}

/// How many listed (non-dot) entries come before position `k`.
pub open spec fn listed_before(entries: Seq<DirEntryInfo>, k: int) -> int
    decreases k,
{
    if k <= 0 {
        0
    } else {
        listed_before(entries, k - 1) + if is_dot_entry(entries[k - 1].name@) {
            0int
        } else {
            1
        }
    }
}

/// The position of the `n`-th listed entry (from 0), skipping `.` and `..`.
pub fn list_entry_at(entries: &[DirEntryInfo], n: usize) -> (r: Option<usize>)
    ensures
        r matches Some(k) ==> k < entries@.len() && !is_dot_entry(entries@[k as int].name@)
            && listed_before(entries@, k as int) == n,
        r is None ==> listed_before(entries@, entries@.len() as int) <= n,
{
    let mut seen: usize = 0;
    let mut k: usize = 0;
    while k < entries.len()
        invariant
            k <= entries@.len(),
            seen == listed_before(entries@, k as int),
            seen <= n,
            seen <= k,
        decreases entries@.len() - k,
    {
        let nm = entries[k].name;
        let dot = nm[0] == 0x2E && (nm[1] == 0x20 || (nm[1] == 0x2E && nm[2] == 0x20));
        if !dot {
            if seen == n {
                return Some(k);
            }
            seen = seen + 1;
        }
        k = k + 1;
    }
    None
}

} // verus!
