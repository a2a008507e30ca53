//! Content hashes, and the cache that spares hashing a file again while its
//! size and modification time stay as they were.

use vstd::prelude::*;
use vstd::utf8::encode_utf8;
use std::time::SystemTime;
use crate::table::Table;

verus! {

/// A point on the system clock. Nothing of a value is visible here.
#[verifier::external_type_specification]
#[verifier::external_body]
pub struct ExSystemTime(SystemTime);

/// Length of a digest in hexadecimal.
pub const HASH_LEN: usize = 64;

/// The BLAKE3 digest of the bytes, in lowercase hexadecimal.
pub uninterp spec fn blake3_hex(data: Seq<u8>) -> Seq<char>;

/// A digit of lowercase hexadecimal.
pub open spec fn is_lower_hex(c: char) -> bool {
    ('0' <= c && c <= '9') || ('a' <= c && c <= 'f')
}

/// `blake3::hash`, shown by `Hash::to_hex`: the digest that `blake3_hex`
/// names, which has 64 digits of lowercase hexadecimal.
#[verifier::external_body]
pub(crate) fn blake3_digest(data: &[u8]) -> (out: String)
    ensures
        out@ == blake3_hex(data@),
        out@.len() == HASH_LEN,
        forall|i: int| 0 <= i < out@.len() ==> is_lower_hex(#[trigger] out@[i]),
{
    blake3::hash(data).to_hex().to_string()
}

/// The hash of a file's content.
pub fn hash_file(content: &[u8]) -> (out: String)
    ensures
        out@ == blake3_hex(content@),
        out@.len() == HASH_LEN,
        forall|i: int| 0 <= i < out@.len() ==> is_lower_hex(#[trigger] out@[i]),
{
    blake3_digest(content)
}

/// The hash of a symbolic link: that of its target's text, whatever the
/// target holds.
pub fn hash_symlink(target: &str) -> (out: String)
    ensures
        out@ == blake3_hex(encode_utf8(target@)),
        out@.len() == HASH_LEN,
        forall|i: int| 0 <= i < out@.len() ==> is_lower_hex(#[trigger] out@[i]),
{
    blake3_digest(target.as_bytes())
}

/// Where a time lies from the Unix epoch: the whole seconds of the
/// distance and the nanoseconds after them.
#[derive(Debug, Clone, Copy, PartialEq, Eq, Structural)]
pub enum EpochOffset {
    /// At the epoch or after it.
    After { secs: u64, nanos: u32 },
    /// Before the epoch.
    Before { secs: u64, nanos: u32 },
}

impl EpochOffset {
    /// The nanoseconds of the distance.
    pub open spec fn nanos(&self) -> u32 {
        match self {
            EpochOffset::After { secs, nanos } => *nanos,
            EpochOffset::Before { secs, nanos } => *nanos,
        }
    }
}

/// `SystemTime::duration_since` the Unix epoch: the distance in whole
/// seconds and nanoseconds, after the epoch where the call succeeds and
/// before it where it fails. The nanoseconds are less than a second.
#[verifier::external_body]
pub(crate) fn since_epoch(time: SystemTime) -> (out: EpochOffset)
    ensures
        out.nanos() < 1_000_000_000,
{
    match time.duration_since(std::time::UNIX_EPOCH) {
        Ok(d) => EpochOffset::After { secs: d.as_secs(), nanos: d.subsec_nanos() },
        Err(e) => EpochOffset::Before {
            secs: e.duration().as_secs(),
            nanos: e.duration().subsec_nanos(),
        },
    }
}

/// Nanoseconds in a second.
pub const NANOS_PER_SEC: u32 = 1_000_000_000;

/// The whole seconds at which a time lies or that lie next before it:
/// the seconds of a time after the epoch, and for a time before it the
/// seconds of the distance with a minus sign, one more where nanoseconds
/// are left over.
pub open spec fn floor_secs(offset: EpochOffset) -> int {
    match offset {
        EpochOffset::After { secs, nanos } => secs as int,
        EpochOffset::Before { secs, nanos } => if 0 < nanos < NANOS_PER_SEC {
            -(secs as int) - 1
        } else {
            -(secs as int)
        },
    }
}

/// The nanoseconds by which a time lies after its `floor_secs`.
pub open spec fn forward_nanos(offset: EpochOffset) -> u32 {
    match offset {
        EpochOffset::After { secs, nanos } => nanos,
        EpochOffset::Before { secs, nanos } => if 0 < nanos < NANOS_PER_SEC {
            (NANOS_PER_SEC - nanos) as u32
        } else {
            0
        },
    }
}

/// A number of seconds, or the nearest that 64 bits with a sign hold.
pub open spec fn clamped(secs: int) -> i64 {
    if secs > i64::MAX {
        i64::MAX
    } else if secs < i64::MIN {
        i64::MIN
    } else {
        secs as i64
    }
}

/// The seconds of a time since the epoch, rounded down, with their sign.
/// What 64 bits do not hold is cut off, not wrapped around.
pub open spec fn signed_secs(offset: EpochOffset) -> i64 {
    clamped(floor_secs(offset))
}

/// The seconds of the time fit in 64 bits, and its nanoseconds are part of
/// a second.
pub open spec fn is_exact(offset: EpochOffset) -> bool {
    &&& offset.nanos() < NANOS_PER_SEC
    &&& i64::MIN <= floor_secs(offset) <= i64::MAX
}

/// Where a time lies on the line of nanoseconds through the epoch.
pub open spec fn instant(offset: EpochOffset) -> int {
    match offset {
        EpochOffset::After { secs, nanos } => secs * NANOS_PER_SEC + nanos,
        EpochOffset::Before { secs, nanos } => -(secs * NANOS_PER_SEC + nanos),
    }
}

/// Seconds and nanoseconds tell times apart: two times have the same
/// seconds and nanoseconds exactly when they are the same time, be it
/// before the epoch or after it.
pub proof fn law_seconds_and_nanoseconds_tell_times_apart(a: EpochOffset, b: EpochOffset)
    requires
        is_exact(a),
        is_exact(b),
    ensures
        (signed_secs(a) == signed_secs(b) && forward_nanos(a) == forward_nanos(b)) <==> instant(a)
            == instant(b),
{
    assert(instant(a) == floor_secs(a) * NANOS_PER_SEC + forward_nanos(a));
    assert(instant(b) == floor_secs(b) * NANOS_PER_SEC + forward_nanos(b));
    assert(forward_nanos(a) < NANOS_PER_SEC);
    assert(forward_nanos(b) < NANOS_PER_SEC);
}

/// Seconds and nanoseconds of a time since the epoch: the seconds rounded
/// down, and the nanoseconds after them.
pub fn secs_nanos(offset: EpochOffset) -> (out: (i64, u32))
    ensures
        out.0 == signed_secs(offset),
        out.1 == forward_nanos(offset),
        offset.nanos() < NANOS_PER_SEC ==> out.1 < NANOS_PER_SEC,
{
    match offset {
        EpochOffset::After { secs, nanos } => {
            if secs > 0x7FFF_FFFF_FFFF_FFFF {
                (i64::MAX, nanos)
            } else {
                (secs as i64, nanos)
            }
        },
        EpochOffset::Before { secs, nanos } => {
            if 0 < nanos && nanos < NANOS_PER_SEC {
                if secs > 0x7FFF_FFFF_FFFF_FFFF {
                    (i64::MIN, NANOS_PER_SEC - nanos)
                } else {
                    (-(secs as i64) - 1, NANOS_PER_SEC - nanos)
                }
            } else if secs > 0x7FFF_FFFF_FFFF_FFFF {
                (i64::MIN, 0)
            } else {
                (-(secs as i64), 0)
            }
        },
    }
}

/// Where a time of the system clock lies from the Unix epoch.
pub fn epoch_offset(time: SystemTime) -> (out: EpochOffset)
    ensures
        out.nanos() < NANOS_PER_SEC,
{
    since_epoch(time)
}

/// Seconds and nanoseconds of a time since the Unix epoch.
pub fn system_time_to_secs_nanos(time: SystemTime) -> (out: (i64, u32))
    ensures
        out.1 < NANOS_PER_SEC,
{
    secs_nanos(since_epoch(time))
}

/// What the cache remembers of a file.
#[derive(Debug, Clone)]
pub struct CacheEntry {
    pub size: u64,
    pub mtime_secs: i64,
    pub mtime_nanos: u32,
    pub hash: String,
}

/// A memo from a file's path to its hash at a size and modification time.
#[derive(Debug)]
pub struct HashCache {
    pub entries: Table<CacheEntry>,
}

impl HashCache {
    /// The table of the cache is well formed.
    pub open spec fn wf(&self) -> bool {
        self.entries.wf()
    }

    /// The hash that the cache gives for a path at a size and a
    /// modification time: the remembered one where all three are as they
    /// were remembered, and none otherwise.
    pub open spec fn lookup(&self, path: Seq<char>, size: u64, mtime_secs: i64, mtime_nanos: u32) -> Option<
        Seq<char>,
    > {
        if self.entries.has(path) && self.entries.value_of(path).size == size
            && self.entries.value_of(path).mtime_secs == mtime_secs && self.entries.value_of(
            path,
        ).mtime_nanos == mtime_nanos {
            Some(self.entries.value_of(path).hash@)
        } else {
            None
        }
    }

    /// An empty cache.
    pub fn new() -> (out: Self)
        ensures
            out.wf(),
            out.entries.keys@.len() == 0,
            forall|p: Seq<char>, s: u64, t: i64, n: u32| out.lookup(p, s, t, n) is None,
    {
        let out = HashCache { entries: Table::new() };
        assert forall|p: Seq<char>, s: u64, t: i64, n: u32| out.lookup(p, s, t, n) is None by {
            assert(!out.entries@.dom().contains(p));
        }
        out
    }

    /// How many files the cache remembers.
    pub fn len(&self) -> (n: usize)
        ensures
            n == self.entries.keys@.len(),
    {
        self.entries.keys.len()
    }

    /// The remembered hash of the file, if its size and modification time
    /// are those that were remembered.
    pub fn get(&self, path: &str, size: u64, mtime_secs: i64, mtime_nanos: u32) -> (out: Option<
        String,
    >)
        requires
            self.wf(),
        ensures
            match out {
                Some(h) => self.lookup(path@, size, mtime_secs, mtime_nanos) == Some(h@),
                None => self.lookup(path@, size, mtime_secs, mtime_nanos) is None,
            },
    {
        match self.entries.get(path) {
            Some(entry) => {
                if entry.size == size && entry.mtime_secs == mtime_secs && entry.mtime_nanos
                    == mtime_nanos {
                    Some(entry.hash.clone())
                } else {
                    None
                }
            },
            None => None,
        }
    }

    /// Remembers the hash of a file at a size and modification time, in
    /// place of what was remembered of it.
    pub fn insert(&mut self, path: &str, size: u64, mtime_secs: i64, mtime_nanos: u32, hash: String)
        requires
            old(self).wf(),
        ensures
            final(self).wf(),
            forall|s: u64, t: i64, n: u32|
                #![trigger final(self).lookup(path@, s, t, n)]
                final(self).lookup(path@, s, t, n) == if s == size && t == mtime_secs && n
                    == mtime_nanos {
                    Some(hash@)
                } else {
                    None
                },
            forall|p: Seq<char>, s: u64, t: i64, n: u32|
                #![trigger final(self).lookup(p, s, t, n)]
                p != path@ ==> final(self).lookup(p, s, t, n) == old(self).lookup(p, s, t, n),
    {
        let entry = CacheEntry { size, mtime_secs, mtime_nanos, hash };
        self.entries.insert(path.to_string(), entry);
        proof {
            let after = *self;
            let before = *old(self);
            assert(after.entries@ == before.entries@.insert(path@, entry));
            assert forall|p: Seq<char>| after.entries.has(p) == after.entries@.dom().contains(p) by {}
            assert forall|p: Seq<char>| before.entries.has(p) == before.entries@.dom().contains(p) by {}
            assert forall|p: Seq<char>| after.entries.has(p) implies after.entries.value_of(p)
                == after.entries@[p] by {}
            assert forall|p: Seq<char>| before.entries.has(p) implies before.entries.value_of(p)
                == before.entries@[p] by {}
            assert forall|p: Seq<char>, s: u64, t: i64, n: u32|
                p != path@ implies after.lookup(p, s, t, n) == before.lookup(p, s, t, n) by {
                assert(after.entries.has(p) == after.entries@.dom().contains(p));
                assert(before.entries.has(p) == before.entries@.dom().contains(p));
                if after.entries.has(p) {
                    assert(after.entries.value_of(p) == after.entries@[p]);
                    assert(before.entries.value_of(p) == before.entries@[p]);
                }
            }
            assert(after.entries.has(path@) == after.entries@.dom().contains(path@));
            assert(after.entries.value_of(path@) == after.entries@[path@]);
        }
    }
}

/// A hit needs the size and the modification time that were remembered:
/// after the hash of a file was remembered, a lookup with another size or
/// another time gives nothing, and one with the same gives that hash.
pub proof fn law_cache_hit_is_exact(
    after: HashCache,
    path: Seq<char>,
    size: u64,
    mtime_secs: i64,
    mtime_nanos: u32,
    hash: Seq<char>,
    asked_size: u64,
    asked_secs: i64,
    asked_nanos: u32,
)
    requires
        after.lookup(path, size, mtime_secs, mtime_nanos) == Some(hash),
    ensures
        after.lookup(path, asked_size, asked_secs, asked_nanos) is Some <==> (asked_size == size
            && asked_secs == mtime_secs && asked_nanos == mtime_nanos),
{
}

} // verus!
