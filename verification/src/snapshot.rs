//! Snapshots of rule sets.
//!
//! A snapshot file starts with a header of 20 bytes: a magic number, the
//! version, the number of profiles and four bytes of padding. An index with the
//! offset and size of each profile follows, and then the profiles. Numbers are
//! little-endian.

use vstd::prelude::*;
use vstd::slice::slice_subrange;

use crate::bytes::push_bytes;
use crate::number::{decimal, write_decimal};
use crate::ruleset::{
    copy_rules, rule_configs_view, rule_profiles_view, Action, RuleConfig, RuleProfileView,
    RuleSetConfig,
};
use crate::text::{chars_of, ends_with, has_suffix, push_chars, push_text, string_of};

verus! {

/// The version of the snapshot format.
pub const SNAPSHOT_VERSION: u32 = 2;

/// The size of the header in bytes.
pub const HEADER_SIZE: usize = 20;

/// A profile in a snapshot.
#[derive(Debug)]
pub struct SnapshotProfile {
    pub id: String,
    pub default_action: Action,
    pub rules: Vec<RuleConfig>,
}

impl View for SnapshotProfile {
    type V = RuleProfileView;

    open spec fn view(&self) -> RuleProfileView {
        RuleProfileView {
            id: self.id@,
            default_action: self.default_action,
            rules: rule_configs_view(self.rules@),
        }
    }
}

/// A snapshot of a rule set.
#[derive(Debug)]
pub struct EngineSnapshot {
    pub profiles: Vec<SnapshotProfile>,
}

/// The models of a list of profiles.
pub open spec fn snapshot_view(v: Seq<SnapshotProfile>) -> Seq<RuleProfileView> {
    v.map_values(|p: SnapshotProfile| p@)
}

impl EngineSnapshot {
    /// A snapshot of the profiles of a configuration.
    pub fn from_app_config(cfg: &RuleSetConfig) -> (out: EngineSnapshot)
        ensures
            snapshot_view(out.profiles@) == rule_profiles_view(cfg.profiles@),
    {
        let mut profiles: Vec<SnapshotProfile> = Vec::new();
        for i in 0..cfg.profiles.len()
            invariant
                profiles@.len() == i,
                forall|j: int|
                    0 <= j < i ==> (#[trigger] profiles@[j])@ == cfg.profiles@[j]@,
        {
            let profile = &cfg.profiles[i];
            profiles.push(
                SnapshotProfile {
                    id: profile.id.clone(),
                    default_action: profile.default_action,
                    rules: copy_rules(&profile.rules),
                },
            );
        }
        assert(snapshot_view(profiles@) =~= rule_profiles_view(cfg.profiles@));
        EngineSnapshot { profiles }
    }

    /// The version of the snapshot format.
    pub fn version() -> (v: u32)
        ensures
            v == 2,
    {
        SNAPSHOT_VERSION
    }
}

/// A path that a snapshot may be written to: it ends with `.bin`.
pub fn is_snapshot_path(path: &str) -> (r: bool)
    ensures
        r == ends_with(path@, ".bin"@),
{
    let cs = chars_of(path);
    let suffix = chars_of(".bin");
    has_suffix(cs.as_slice(), suffix.as_slice())
}

// ---------------------------------------------------------------------------
// Little-endian numbers
// ---------------------------------------------------------------------------

/// The `k` bytes of a number, the lowest first.
pub open spec fn le_bytes(n: int, k: int) -> Seq<u8>
    decreases k,
{
    if k <= 0 {
        seq![]
    } else {
        seq![(n % 256) as u8] + le_bytes(n / 256, k - 1)
    }
}

/// The number whose bytes are `s`, the lowest first.
pub open spec fn le_value(s: Seq<u8>) -> int
    decreases s.len(),
{
    if s.len() == 0 {
        0
    } else {
        s[0] as int + 256 * le_value(s.skip(1))
    }
}

/// How many numbers `k` bytes can write.
pub open spec fn le_limit(k: int) -> int
    decreases k,
{
    if k <= 0 {
        1
    } else {
        256 * le_limit(k - 1)
    }
}

proof fn lemma_le_len(n: int, k: int)
    requires
        0 <= k,
    ensures
        le_bytes(n, k).len() == k,
    decreases k,
{
    if k > 0 {
        lemma_le_len(n / 256, k - 1);
    }
}

/// A number that fits comes back from its bytes.
pub proof fn lemma_le_round_trip(n: int, k: int)
    requires
        0 <= k,
        0 <= n < le_limit(k),
    ensures
        le_bytes(n, k).len() == k,
        le_value(le_bytes(n, k)) == n,
    decreases k,
{
    if k > 0 {
        lemma_le_round_trip(n / 256, k - 1);
        let s = le_bytes(n, k);
        assert(s.skip(1) =~= le_bytes(n / 256, k - 1));
        assert(s[0] == (n % 256) as u8);
    }
}

proof fn lemma_le_value_bound(s: Seq<u8>)
    ensures
        0 <= le_value(s) < le_limit(s.len() as int),
    decreases s.len(),
{
    if s.len() > 0 {
        lemma_le_value_bound(s.skip(1));
    }
}

proof fn lemma_le_limits()
    ensures
        le_limit(4) == 0x1_0000_0000,
        le_limit(8) == 0x1_0000_0000_0000_0000,
{
    reveal_with_fuel(le_limit, 9);
}

proof fn lemma_le_limit_grows(j: int, k: int)
    requires
        0 <= j <= k,
    ensures
        0 < le_limit(j) <= le_limit(k),
    decreases k,
{
    if k > 0 {
        lemma_le_limit_grows(if j < k {
            j
        } else {
            k - 1
        }, k - 1);
    }
}

/// Appends the `k` bytes of a number.
fn push_le(out: &mut Vec<u8>, n: u64, k: usize)
    ensures
        final(out)@ == old(out)@ + le_bytes(n as int, k as int),
{
    let ghost start = out@;
    let mut rest: u64 = n;
    assert(start + le_bytes(n as int, k as int) =~= out@ + le_bytes(rest as int, k as int));
    for i in 0..k
        invariant
            start + le_bytes(n as int, k as int) == out@ + le_bytes(rest as int, k - i),
    {
        let ghost before = out@;
        let low = (rest % 256) as u8;
        out.push(low);
        assert(before + (seq![low] + le_bytes(rest as int / 256, k - i - 1)) =~= out@ + le_bytes(
            rest as int / 256,
            k - i - 1,
        ));
        rest = rest / 256;
    }
    assert(out@ + le_bytes(rest as int, 0) =~= out@);
}

/// The number whose bytes are `s`.
fn read_le(s: &[u8]) -> (n: u64)
    requires
        s@.len() <= 8,
    ensures
        n == le_value(s@),
{
    let len = s.len();
    let mut n: u64 = 0;
    let mut i: usize = len;
    assert(s@.skip(len as int) =~= seq![]);
    while i > 0
        invariant
            i <= len == s@.len() <= 8,
            n == le_value(s@.skip(i as int)),
        decreases i,
    {
        i = i - 1;
        let ghost tail = s@.skip(i as int);
        assert(tail.skip(1) =~= s@.skip(i + 1));
        assert(tail[0] == s@[i as int]);
        proof {
            lemma_le_value_bound(tail);
            lemma_le_limit_grows(tail.len() as int, 8);
            lemma_le_limits();
        }
        n = n * 256 + s[i] as u64;
    }
    assert(s@.skip(0) =~= s@);
    n
}

// ---------------------------------------------------------------------------
// Writing
// ---------------------------------------------------------------------------

/// The bytes that a snapshot starts with: `FYWAF-FY`.
pub open spec fn magic() -> Seq<u8> {
    seq![0x46u8, 0x59, 0x57, 0x41, 0x46, 0x2d, 0x46, 0x59]
}

/// The header of a snapshot with so many profiles.
pub open spec fn header(count: int) -> Seq<u8> {
    magic() + le_bytes(SNAPSHOT_VERSION as int, 4) + le_bytes(count, 4) + le_bytes(0, 4)
}

/// The sizes of the first `n` profiles together.
pub open spec fn total_size(payloads: Seq<Seq<u8>>, n: int) -> int
    decreases n,
{
    if n <= 0 {
        0
    } else {
        total_size(payloads, n - 1) + payloads[n - 1].len()
    }
}

/// The first `n` profiles, one after the other.
pub open spec fn joined_payloads(payloads: Seq<Seq<u8>>, n: int) -> Seq<u8>
    decreases n,
{
    if n <= 0 {
        seq![]
    } else {
        joined_payloads(payloads, n - 1) + payloads[n - 1]
    }
}

/// Where the profile at place `i` starts.
pub open spec fn offset_of(payloads: Seq<Seq<u8>>, i: int) -> int {
    HEADER_SIZE + 16 * payloads.len() + total_size(payloads, i)
}

/// The index entries of the first `n` profiles.
pub open spec fn index_bytes(payloads: Seq<Seq<u8>>, n: int) -> Seq<u8>
    decreases n,
{
    if n <= 0 {
        seq![]
    } else {
        index_bytes(payloads, n - 1) + (le_bytes(offset_of(payloads, n - 1), 8) + le_bytes(
            payloads[n - 1].len() as int,
            8,
        ))
    }
}

/// The bytes of a snapshot.
pub open spec fn framed(payloads: Seq<Seq<u8>>) -> Seq<u8> {
    let n = payloads.len() as int;
    header(n) + index_bytes(payloads, n) + joined_payloads(payloads, n)
}

/// The models of a list of profiles in bytes.
pub open spec fn byte_lists(v: Seq<Vec<u8>>) -> Seq<Seq<u8>> {
    v.map_values(|p: Vec<u8>| p@)
}

/// The profiles fit: the format counts them with 32 bits and finds them with 64.
pub open spec fn frame_fits(payloads: Seq<Seq<u8>>) -> bool {
    payloads.len() <= u32::MAX && offset_of(payloads, payloads.len() as int) <= u64::MAX
}

proof fn lemma_total_grows(payloads: Seq<Seq<u8>>, m: int, n: int)
    requires
        0 <= m <= n,
    ensures
        0 <= total_size(payloads, m) <= total_size(payloads, n),
    decreases n,
{
    if m < n {
        lemma_total_grows(payloads, m, n - 1);
    } else if m > 0 {
        lemma_total_grows(payloads, m - 1, m - 1);
    }
}

fn push_magic(out: &mut Vec<u8>)
    ensures
        final(out)@ == old(out)@ + magic(),
{
    let ghost start = out@;
    out.push(0x46);
    out.push(0x59);
    out.push(0x57);
    out.push(0x41);
    out.push(0x46);
    out.push(0x2d);
    out.push(0x46);
    out.push(0x59);
    assert(out@ =~= start + magic());
}

/// The bytes of a snapshot whose profiles are the given bytes.
pub fn write_snapshot(payloads: &Vec<Vec<u8>>) -> (out: Vec<u8>)
    requires
        frame_fits(byte_lists(payloads@)),
    ensures
        out@ == framed(byte_lists(payloads@)),
{
    let ghost all = byte_lists(payloads@);
    let count = payloads.len();
    let ghost n = count as int;
    assert(all.len() == count);
    let mut out: Vec<u8> = Vec::new();
    push_magic(&mut out);
    push_le(&mut out, SNAPSHOT_VERSION as u64, 4);
    push_le(&mut out, count as u64, 4);
    push_le(&mut out, 0, 4);
    assert(out@ =~= header(n));
    let mut offset: u64 = 20 + 16 * (count as u64);
    assert(offset == offset_of(all, 0));
    assert(header(n) + index_bytes(all, 0) =~= header(n));
    for i in 0..count
        invariant
            all == byte_lists(payloads@),
            count == payloads@.len() == n,
            frame_fits(all),
            offset == offset_of(all, i as int),
            out@ == header(n) + index_bytes(all, i as int),
    {
        let size = payloads[i].len();
        assert(all[i as int] == payloads@[i as int]@);
        proof {
            lemma_total_grows(all, i + 1, n);
        }
        let ghost before = out@;
        push_le(&mut out, offset, 8);
        push_le(&mut out, size as u64, 8);
        assert(out@ =~= before + (le_bytes(offset as int, 8) + le_bytes(size as int, 8)));
        assert(out@ =~= header(n) + index_bytes(all, i + 1));
        offset = offset + size as u64;
    }
    let ghost front = out@;
    assert(front + joined_payloads(all, 0) =~= front);
    for i in 0..count
        invariant
            all == byte_lists(payloads@),
            count == payloads@.len() == n,
            out@ == front + joined_payloads(all, i as int),
    {
        assert(all[i as int] == payloads@[i as int]@);
        push_bytes(&mut out, payloads[i].as_slice());
        assert(out@ =~= front + joined_payloads(all, i + 1));
    }
    out
}

// ---------------------------------------------------------------------------
// Reading
// ---------------------------------------------------------------------------

/// What is wrong with a snapshot.
#[derive(Clone, Copy, Debug, PartialEq, Eq, Structural)]
pub enum SnapshotError {
    /// The file ends within the header.
    ShortHeader,
    /// The file does not start with the magic number.
    BadMagic,
    /// The file has another version.
    Version(u32),
    /// The file ends within the index.
    ShortIndex,
    /// No file has such an offset as the profile at this place.
    Seek(usize),
    /// The file ends within the profile at this place.
    ShortProfile(usize),
}

/// What is said of an error in the file at a path.
pub open spec fn snapshot_message(e: SnapshotError, path: Seq<char>) -> Seq<char> {
    match e {
        SnapshotError::ShortHeader => "failed to read snapshot header "@ + path,
        SnapshotError::BadMagic => "invalid snapshot "@ + path + ": bad magic header"@,
        SnapshotError::Version(v) => "unsupported snapshot "@ + path + ": version "@ + decimal(
            v as int,
        ) + " (expected 2)"@,
        SnapshotError::ShortIndex => "failed to read snapshot index "@ + path,
        SnapshotError::Seek(i) => "failed to seek to profile "@ + decimal(i as int) + " in "@
            + path,
        SnapshotError::ShortProfile(i) => "failed to read profile "@ + decimal(i as int) + " in "@
            + path,
    }
}

impl SnapshotError {
    /// What is said of the error in the file at a path.
    pub fn message(&self, path: &str) -> (out: String)
        ensures
            out@ == snapshot_message(*self, path@),
    {
        let mut out: Vec<char> = Vec::new();
        match self {
            SnapshotError::ShortHeader => {
                push_text(&mut out, "failed to read snapshot header ");
                push_text(&mut out, path);
            },
            SnapshotError::BadMagic => {
                push_text(&mut out, "invalid snapshot ");
                push_text(&mut out, path);
                push_text(&mut out, ": bad magic header");
            },
            SnapshotError::Version(v) => {
                push_text(&mut out, "unsupported snapshot ");
                push_text(&mut out, path);
                push_text(&mut out, ": version ");
                push_chars(&mut out, write_decimal(*v as u64).as_slice());
                push_text(&mut out, " (expected 2)");
            },
            SnapshotError::ShortIndex => {
                push_text(&mut out, "failed to read snapshot index ");
                push_text(&mut out, path);
            },
            SnapshotError::Seek(i) => {
                push_text(&mut out, "failed to seek to profile ");
                push_chars(&mut out, write_decimal(*i as u64).as_slice());
                push_text(&mut out, " in ");
                push_text(&mut out, path);
            },
            SnapshotError::ShortProfile(i) => {
                push_text(&mut out, "failed to read profile ");
                push_chars(&mut out, write_decimal(*i as u64).as_slice());
                push_text(&mut out, " in ");
                push_text(&mut out, path);
            },
        }
        assert(out@ =~= snapshot_message(*self, path@));
        string_of(out.as_slice())
    }
}

/// Where a profile starts in a snapshot, and how long it is.
#[derive(Clone, Copy, Debug, PartialEq, Eq, Structural)]
pub struct ProfileIndex {
    pub offset: u64,
    pub size: u64,
}

/// The number of profiles that the header of a snapshot gives.
pub open spec fn count_in(bytes: Seq<u8>) -> Result<int, SnapshotError> {
    if bytes.len() < HEADER_SIZE {
        Err(SnapshotError::ShortHeader)
    } else if bytes.subrange(0, 8) != magic() {
        Err(SnapshotError::BadMagic)
    } else if le_value(bytes.subrange(8, 12)) != SNAPSHOT_VERSION {
        Err(SnapshotError::Version(le_value(bytes.subrange(8, 12)) as u32))
    } else {
        Ok(le_value(bytes.subrange(12, 16)))
    }
}

/// The index entry at place `i`.
pub open spec fn entry_in(bytes: Seq<u8>, i: int) -> ProfileIndex {
    let at = HEADER_SIZE + 16 * i;
    ProfileIndex {
        offset: le_value(bytes.subrange(at, at + 8)) as u64,
        size: le_value(bytes.subrange(at + 8, at + 16)) as u64,
    }
}

/// The index of a snapshot.
pub open spec fn index_in(bytes: Seq<u8>) -> Result<Seq<ProfileIndex>, SnapshotError> {
    match count_in(bytes) {
        Ok(n) => if bytes.len() < HEADER_SIZE + 16 * n {
            Err(SnapshotError::ShortIndex)
        } else {
            Ok(Seq::new(n as nat, |i: int| entry_in(bytes, i)))
        },
        Err(e) => Err(e),
    }
}

/// The bytes of the profile at place `i`. A profile without bytes may start
/// behind the end of the file.
pub open spec fn payload_in(bytes: Seq<u8>, entry: ProfileIndex, i: usize) -> Result<
    Seq<u8>,
    SnapshotError,
> {
    if entry.offset > i64::MAX {
        Err(SnapshotError::Seek(i))
    } else if entry.size == 0 {
        Ok(seq![])
    } else if entry.offset + entry.size > bytes.len() {
        Err(SnapshotError::ShortProfile(i))
    } else {
        Ok(bytes.subrange(entry.offset as int, entry.offset + entry.size))
    }
}

fn starts_with_magic(bytes: &[u8]) -> (r: bool)
    requires
        bytes@.len() >= 8,
    ensures
        r == (bytes@.subrange(0, 8) == magic()),
{
    let r = bytes[0] == 0x46 && bytes[1] == 0x59 && bytes[2] == 0x57 && bytes[3] == 0x41 && bytes[4]
        == 0x46 && bytes[5] == 0x2d && bytes[6] == 0x46 && bytes[7] == 0x59;
    proof {
        let s = bytes@.subrange(0, 8);
        assert(s[0] == bytes@[0] && s[1] == bytes@[1] && s[2] == bytes@[2] && s[3] == bytes@[3]
            && s[4] == bytes@[4] && s[5] == bytes@[5] && s[6] == bytes@[6] && s[7] == bytes@[7]);
        let m = magic();
        assert(m[0] == 0x46 && m[1] == 0x59 && m[2] == 0x57 && m[3] == 0x41 && m[4] == 0x46 && m[5]
            == 0x2d && m[6] == 0x46 && m[7] == 0x59);
        if r {
            assert(s =~= m);
        }
    }
    r
}

/// The index of a snapshot, given all its bytes.
pub fn read_index(bytes: &[u8]) -> (r: Result<Vec<ProfileIndex>, SnapshotError>)
    ensures
        match index_in(bytes@) {
            Ok(index) => r is Ok && r->Ok_0@ == index,
            Err(e) => r == Err::<Vec<ProfileIndex>, _>(e),
        },
{
    let len = bytes.len();
    proof {
        lemma_le_limits();
        lemma_le_value_bound(bytes@.subrange(8, 12));
        lemma_le_value_bound(bytes@.subrange(12, 16));
    }
    if len < HEADER_SIZE {
        return Err(SnapshotError::ShortHeader);
    }
    if !starts_with_magic(bytes) {
        return Err(SnapshotError::BadMagic);
    }
    let version = read_le(slice_subrange(bytes, 8, 12));
    if version != SNAPSHOT_VERSION as u64 {
        return Err(SnapshotError::Version(version as u32));
    }
    let count = read_le(slice_subrange(bytes, 12, 16));
    if (len as u64) < 20 + 16 * count {
        return Err(SnapshotError::ShortIndex);
    }
    let mut index: Vec<ProfileIndex> = Vec::new();
    let n = count as usize;
    for i in 0..n
        invariant
            n == count,
            bytes@.len() >= 20 + 16 * count,
            bytes@.len() <= usize::MAX,
            index@.len() == i,
            forall|j: int| 0 <= j < i ==> #[trigger] index@[j] == entry_in(bytes@, j),
    {
        let at: usize = 20 + 16 * i;
        index.push(
            ProfileIndex {
                offset: read_le(slice_subrange(bytes, at, at + 8)),
                size: read_le(slice_subrange(bytes, at + 8, at + 16)),
            },
        );
    }
    assert(index@ =~= Seq::new(count as nat, |i: int| entry_in(bytes@, i)));
    Ok(index)
}

/// The bytes of the profile at place `i`, given all bytes of the snapshot.
pub fn read_payload(bytes: &[u8], entry: &ProfileIndex, i: usize) -> (r: Result<
    Vec<u8>,
    SnapshotError,
>)
    ensures
        match payload_in(bytes@, *entry, i) {
            Ok(payload) => r is Ok && r->Ok_0@ == payload,
            Err(e) => r == Err::<Vec<u8>, _>(e),
        },
{
    let len = bytes.len();
    let mut out: Vec<u8> = Vec::new();
    if entry.offset > 0x7fff_ffff_ffff_ffff {
        return Err(SnapshotError::Seek(i));
    }
    if entry.size == 0 {
        assert(out@ =~= seq![]);
        return Ok(out);
    }
    if entry.offset > len as u64 || entry.size > len as u64 - entry.offset {
        return Err(SnapshotError::ShortProfile(i));
    }
    let start = entry.offset as usize;
    let size = entry.size as usize;
    let part = slice_subrange(bytes, start, start + size);
    push_bytes(&mut out, part);
    assert(out@ =~= part@);
    Ok(out)
}

// ---------------------------------------------------------------------------
// Laws
// ---------------------------------------------------------------------------

proof fn lemma_header(n: int)
    requires
        0 <= n <= u32::MAX,
    ensures
        header(n).len() == HEADER_SIZE,
        header(n).subrange(0, 8) == magic(),
        le_value(header(n).subrange(8, 12)) == SNAPSHOT_VERSION,
        le_value(header(n).subrange(12, 16)) == n,
{
    lemma_le_limits();
    lemma_le_round_trip(SNAPSHOT_VERSION as int, 4);
    lemma_le_round_trip(n, 4);
    lemma_le_len(0, 4);
    let h = header(n);
    assert(magic().len() == 8);
    assert(h.subrange(0, 8) =~= magic());
    assert(h.subrange(8, 12) =~= le_bytes(SNAPSHOT_VERSION as int, 4));
    assert(h.subrange(12, 16) =~= le_bytes(n, 4));
}

proof fn lemma_index_entry(payloads: Seq<Seq<u8>>, n: int, i: int)
    requires
        0 <= i < n,
    ensures
        index_bytes(payloads, n).len() == 16 * n,
        index_bytes(payloads, n).subrange(16 * i, 16 * i + 8) == le_bytes(
            offset_of(payloads, i),
            8,
        ),
        index_bytes(payloads, n).subrange(16 * i + 8, 16 * i + 16) == le_bytes(
            payloads[i].len() as int,
            8,
        ),
    decreases n,
{
    let b = index_bytes(payloads, n);
    let head = index_bytes(payloads, n - 1);
    let offset = le_bytes(offset_of(payloads, n - 1), 8);
    let size = le_bytes(payloads[n - 1].len() as int, 8);
    lemma_le_len(offset_of(payloads, n - 1), 8);
    lemma_le_len(payloads[n - 1].len() as int, 8);
    if i < n - 1 {
        lemma_index_entry(payloads, n - 1, i);
        assert(b.subrange(16 * i, 16 * i + 8) =~= head.subrange(16 * i, 16 * i + 8));
        assert(b.subrange(16 * i + 8, 16 * i + 16) =~= head.subrange(16 * i + 8, 16 * i + 16));
    } else {
        if n > 1 {
            lemma_index_entry(payloads, n - 1, 0);
        }
        assert(b.subrange(16 * i, 16 * i + 8) =~= offset);
        assert(b.subrange(16 * i + 8, 16 * i + 16) =~= size);
    }
}

proof fn lemma_joined(payloads: Seq<Seq<u8>>, n: int, i: int)
    requires
        0 <= i < n,
    ensures
        joined_payloads(payloads, n).len() == total_size(payloads, n),
        0 <= total_size(payloads, i),
        total_size(payloads, i) + payloads[i].len() <= total_size(payloads, n),
        joined_payloads(payloads, n).subrange(
            total_size(payloads, i),
            total_size(payloads, i) + payloads[i].len(),
        ) == payloads[i],
    decreases n,
{
    let all = joined_payloads(payloads, n);
    let head = joined_payloads(payloads, n - 1);
    let from = total_size(payloads, i);
    let to = from + payloads[i].len();
    lemma_total_grows(payloads, i, n);
    if i < n - 1 {
        lemma_joined(payloads, n - 1, i);
        assert(all.subrange(from, to) =~= head.subrange(from, to));
    } else {
        if n > 1 {
            lemma_joined(payloads, n - 1, 0);
        }
        assert(all.subrange(from, to) =~= payloads[i]);
    }
}

/// What was written is what is read: the index of a snapshot has an entry for
/// each profile, and the profile at each place comes back as it was.
pub proof fn lemma_snapshot_round_trip(payloads: Seq<Seq<u8>>, i: usize)
    requires
        frame_fits(payloads),
        framed(payloads).len() <= i64::MAX,
        i < payloads.len(),
    ensures
        index_in(framed(payloads)) is Ok,
        index_in(framed(payloads))->Ok_0.len() == payloads.len(),
        payload_in(framed(payloads), index_in(framed(payloads))->Ok_0[i as int], i) == Ok::<
            _,
            SnapshotError,
        >(payloads[i as int]),
{
    let n = payloads.len() as int;
    let k = i as int;
    let bytes = framed(payloads);
    let h = header(n);
    let ix = index_bytes(payloads, n);
    let data = joined_payloads(payloads, n);
    lemma_header(n);
    lemma_index_entry(payloads, n, k);
    lemma_joined(payloads, n, k);
    lemma_le_limits();
    assert(bytes.subrange(0, 8) =~= h.subrange(0, 8));
    assert(bytes.subrange(8, 12) =~= h.subrange(8, 12));
    assert(bytes.subrange(12, 16) =~= h.subrange(12, 16));
    let at = HEADER_SIZE + 16 * k;
    assert(bytes.subrange(at, at + 8) =~= ix.subrange(16 * k, 16 * k + 8));
    assert(bytes.subrange(at + 8, at + 16) =~= ix.subrange(16 * k + 8, 16 * k + 16));
    lemma_total_grows(payloads, 0, k);
    lemma_le_round_trip(offset_of(payloads, k), 8);
    lemma_le_round_trip(payloads[k].len() as int, 8);
    let offset = offset_of(payloads, k);
    let size = payloads[k].len() as int;
    let from = total_size(payloads, k);
    assert(bytes.subrange(offset, offset + size) =~= data.subrange(from, from + size));
    assert(size == 0 ==> payloads[k] =~= seq![]);
}

/// A snapshot begins with eight bytes of ASCII that name the format, `FYWAF-FY`, then the
/// version 2, the number of profiles and a zero, four bytes each with the lowest first;
/// behind these twenty bytes stands the index, and behind it all profiles in order.
#[verifier::rlimit(40)]
pub proof fn lemma_layout(payloads: Seq<Seq<u8>>)
    requires
        frame_fits(payloads),
    ensures
        ({
            let b = framed(payloads);
            let n = payloads.len() as int;
            &&& b.subrange(0, 8) == seq![
                'F' as u8,
                'Y' as u8,
                'W' as u8,
                'A' as u8,
                'F' as u8,
                '-' as u8,
                'F' as u8,
                'Y' as u8,
            ]
            &&& b.subrange(8, 12) == seq![2u8, 0u8, 0u8, 0u8]
            &&& b[12] + 256 * b[13] + 65536 * b[14] + 16777216 * b[15] == n
            &&& b.subrange(16, 20) == seq![0u8, 0u8, 0u8, 0u8]
            &&& b.len() == 20 + 16 * n + joined_payloads(payloads, n).len()
            &&& b.skip(20 + 16 * n) == joined_payloads(payloads, n)
        }),
{
    let n = payloads.len() as int;
    let b = framed(payloads);
    lemma_header(n);
    lemma_index_len(payloads, n);
    reveal_with_fuel(le_bytes, 5);
    reveal_with_fuel(le_value, 5);
    let h = header(n);
    assert(le_bytes(2, 4) =~= seq![2u8, 0u8, 0u8, 0u8]);
    assert(le_bytes(0, 4) =~= seq![0u8, 0u8, 0u8, 0u8]);
    assert(b.subrange(0, 8) =~= magic());
    assert(magic() =~= seq![
        'F' as u8,
        'Y' as u8,
        'W' as u8,
        'A' as u8,
        'F' as u8,
        '-' as u8,
        'F' as u8,
        'Y' as u8,
    ]);
    assert(b.subrange(8, 12) =~= le_bytes(2, 4));
    let c = h.subrange(12, 16);
    assert(c[0] == b[12] && c[1] == b[13] && c[2] == b[14] && c[3] == b[15]);
    assert(c.skip(1)[0] == c[1]);
    assert(c.skip(1).skip(1)[0] == c[2]);
    assert(c.skip(1).skip(1).skip(1)[0] == c[3]);
    assert(c.skip(1).skip(1).skip(1).skip(1).len() == 0);
    assert(le_value(c) == n);
    assert(b.subrange(16, 20) =~= le_bytes(0, 4));
    assert(b.skip(20 + 16 * n) =~= joined_payloads(payloads, n));
}

proof fn lemma_index_len(payloads: Seq<Seq<u8>>, n: int)
    requires
        0 <= n,
    ensures
        index_bytes(payloads, n).len() == 16 * n,
    decreases n,
{
    if n > 0 {
        lemma_index_len(payloads, n - 1);
        lemma_le_len(offset_of(payloads, n - 1), 8);
        lemma_le_len(payloads[n - 1].len() as int, 8);
    }
}

/// What is no snapshot is refused: too few bytes for a header, another name, another
/// version, or too few bytes for the index.
pub proof fn lemma_refused_snapshots(bytes: Seq<u8>)
    ensures
        bytes.len() < 20 ==> index_in(bytes) == Err::<Seq<ProfileIndex>, _>(
            SnapshotError::ShortHeader,
        ),
        bytes.len() >= 20 && !(bytes[0] == 'F' as u8 && bytes[1] == 'Y' as u8 && bytes[2]
            == 'W' as u8 && bytes[3] == 'A' as u8 && bytes[4] == 'F' as u8 && bytes[5] == '-' as u8
            && bytes[6] == 'F' as u8 && bytes[7] == 'Y' as u8) ==> index_in(bytes) == Err::<
            Seq<ProfileIndex>,
            _,
        >(SnapshotError::BadMagic),
        bytes.len() >= 20 && bytes.subrange(0, 8) == magic() && le_value(bytes.subrange(8, 12))
            != 2 ==> (index_in(bytes) matches Err(SnapshotError::Version(_))),
        bytes.len() >= 20 && bytes.subrange(0, 8) == magic() && le_value(bytes.subrange(8, 12))
            == 2 && bytes.len() < 20 + 16 * le_value(bytes.subrange(12, 16)) ==> index_in(bytes)
            == Err::<Seq<ProfileIndex>, _>(SnapshotError::ShortIndex),
{
    if bytes.len() >= 20 && bytes.subrange(0, 8) == magic() {
        let m = bytes.subrange(0, 8);
        assert(m[0] == bytes[0] && m[1] == bytes[1] && m[2] == bytes[2] && m[3] == bytes[3] && m[4]
            == bytes[4] && m[5] == bytes[5] && m[6] == bytes[6] && m[7] == bytes[7]);
    }
}

/// A profile is read where its entry says, as many bytes as it says; one that reaches
/// behind the end is refused.
pub proof fn lemma_payload_place(bytes: Seq<u8>, entry: ProfileIndex, i: usize)
    requires
        entry.offset <= i64::MAX,
        entry.size > 0,
    ensures
        entry.offset + entry.size <= bytes.len() ==> payload_in(bytes, entry, i) == Ok::<
            _,
            SnapshotError,
        >(bytes.skip(entry.offset as int).take(entry.size as int)),
        entry.offset + entry.size > bytes.len() ==> payload_in(bytes, entry, i) == Err::<
            Seq<u8>,
            _,
        >(SnapshotError::ShortProfile(i)),
{
    if entry.offset + entry.size <= bytes.len() {
        assert(bytes.skip(entry.offset as int).take(entry.size as int) =~= bytes.subrange(
            entry.offset as int,
            entry.offset + entry.size,
        ));
    }
}

/// The profiles in a snapshot, under an encoding that gives each from its bytes;
/// nothing where they cannot all be read.
pub open spec fn profiles_in(
    bytes: Seq<u8>,
    decode: spec_fn(Seq<u8>) -> Option<RuleProfileView>,
) -> Option<Seq<RuleProfileView>> {
    match index_in(bytes) {
        Ok(index) => if forall|i: int|
            0 <= i < index.len() ==> (#[trigger] payload_in(bytes, index[i], i as usize) matches Ok(
                payload,
            ) && decode(payload) is Some) {
            Some(
                Seq::new(
                    index.len(),
                    |i: int| decode(payload_in(bytes, index[i], i as usize)->Ok_0)->0,
                ),
            )
        } else {
            None
        },
        Err(_) => None,
    }
}

/// Under every encoding that gives back what it was given, a snapshot reads back
/// as it was written: the same profiles, with the same ids, default actions and
/// rules, in the same order.
pub proof fn lemma_profiles_round_trip(
    profiles: Seq<RuleProfileView>,
    encode: spec_fn(RuleProfileView) -> Seq<u8>,
    decode: spec_fn(Seq<u8>) -> Option<RuleProfileView>,
)
    requires
        forall|i: int|
            0 <= i < profiles.len() ==> decode(encode(#[trigger] profiles[i])) == Some(profiles[i]),
        frame_fits(profiles.map_values(encode)),
        framed(profiles.map_values(encode)).len() <= i64::MAX,
    ensures
        profiles_in(framed(profiles.map_values(encode)), decode) == Some(profiles),
{
    let payloads = profiles.map_values(encode);
    let bytes = framed(payloads);
    if profiles.len() == 0 {
        assert(payloads =~= seq![]);
        lemma_empty_snapshot();
    } else {
        lemma_snapshot_round_trip(payloads, 0);
    }
    let index = index_in(bytes)->Ok_0;
    assert forall|i: int| 0 <= i < index.len() implies #[trigger] payload_in(
        bytes,
        index[i],
        i as usize,
    ) == Ok::<_, SnapshotError>(payloads[i]) by {
        lemma_snapshot_round_trip(payloads, i as usize);
    }
    assert forall|i: int| 0 <= i < index.len() implies decode(payloads[i]) == Some(
        #[trigger] profiles[i],
    ) by {
        assert(payloads[i] == encode(profiles[i]));
    }
    assert(profiles_in(bytes, decode)->0 =~= profiles);
}

/// A snapshot of no profiles reads as one.
pub proof fn lemma_empty_snapshot()
    ensures
        index_in(framed(seq![])) == Ok::<_, SnapshotError>(Seq::<ProfileIndex>::empty()),
{
    let none = Seq::<Seq<u8>>::empty();
    lemma_header(0);
    let bytes = framed(none);
    assert(bytes =~= header(0));
    assert(index_in(bytes)->Ok_0 =~= Seq::<ProfileIndex>::empty());
}

} // verus!
