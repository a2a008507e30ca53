//! Building a snapshot: what is recorded of each selected path, how its
//! content reaches the store, and how the manifest is put together.

use vstd::prelude::*;
use vstd::utf8::encode_utf8;
use crate::clock::Timestamp;
use crate::config::Config;
use crate::file_hash::{blake3_hex, forward_nanos, hash_file, hash_symlink, instant, is_exact,
    law_seconds_and_nanoseconds_tell_times_apart, secs_nanos, signed_secs, EpochOffset, HashCache};
use crate::manifest::{DirectoryEntry, FileEntry, Manifest};
use crate::store::{held_after, step_for, Held, StoreStep};
use crate::text::clone_texts;

verus! {

/// What the file system says of a path, links not followed.
#[derive(Debug, Clone, Copy)]
pub struct FileMeta {
    pub is_symlink: bool,
    /// Size in bytes.
    pub size: u64,
    /// Permission bits.
    pub mode: u32,
    /// When the path was last modified.
    pub modified: EpochOffset,
}

/// The modification time that an entry records: seconds and nanoseconds
/// after the epoch, and the epoch itself for a time before it.
pub open spec fn recorded_mtime(modified: EpochOffset) -> (i64, u32) {
    match modified {
        EpochOffset::After { secs, nanos } => (signed_secs(modified), nanos),
        EpochOffset::Before { secs, nanos } => (0i64, 0u32),
    }
}

/// The modification time that an entry records for a time of the file system.
pub fn entry_mtime(modified: EpochOffset) -> (out: (i64, u32))
    ensures
        out == recorded_mtime(modified),
{
    match modified {
        EpochOffset::After { secs, nanos } => secs_nanos(modified),
        EpochOffset::Before { secs, nanos } => (0, 0),
    }
}

/// The entry of a directory.
pub fn directory_entry(mode: u32, modified: EpochOffset) -> (out: DirectoryEntry)
    ensures
        out.mode == mode,
        (out.mtime_secs, out.mtime_nanos) == recorded_mtime(modified),
{
    let (mtime_secs, mtime_nanos) = entry_mtime(modified);
    DirectoryEntry { mode, mtime_secs, mtime_nanos }
}

/// The entry of a symbolic link: its hash is that of the target's text,
/// and it has no size.
pub fn symlink_entry(meta: &FileMeta, target: &str) -> (out: FileEntry)
    ensures
        out.well_formed(),
        out.is_symlink,
        out.size == 0,
        out.symlink_target matches Some(t) && t@ == target@,
        out.hash@ == blake3_hex(encode_utf8(target@)),
        out.mode == meta.mode,
        (out.mtime_secs, out.mtime_nanos) == recorded_mtime(meta.modified),
{
    let (mtime_secs, mtime_nanos) = entry_mtime(meta.modified);
    FileEntry::symlink(hash_symlink(target), target.to_string(), meta.mode, mtime_secs, mtime_nanos)
}

/// The entry of a regular file with a known hash.
pub fn regular_entry(meta: &FileMeta, hash: String) -> (out: FileEntry)
    ensures
        out.well_formed(),
        !out.is_symlink,
        out.symlink_target is None,
        out.hash == hash,
        out.size == meta.size,
        out.mode == meta.mode,
        (out.mtime_secs, out.mtime_nanos) == recorded_mtime(meta.modified),
{
    let (mtime_secs, mtime_nanos) = entry_mtime(meta.modified);
    FileEntry::regular(hash, meta.size, meta.mode, mtime_secs, mtime_nanos)
}

/// The hash that the cache has for a file as the file system shows it.
pub open spec fn cached(cache: &HashCache, path: Seq<char>, meta: &FileMeta) -> Option<Seq<char>> {
    cache.lookup(path, meta.size, signed_secs(meta.modified), forward_nanos(meta.modified))
}

/// A changed file misses the cache: where the cache remembers a file at a
/// size and a modification time, it has a hash for the file exactly at
/// that size and that time, whichever side of the epoch the times lie on.
pub proof fn law_changed_file_misses_the_cache(
    cache: &HashCache,
    path: Seq<char>,
    remembered: &FileMeta,
    asked: &FileMeta,
)
    requires
        is_exact(remembered.modified),
        is_exact(asked.modified),
        cached(cache, path, remembered) is Some,
    ensures
        cached(cache, path, asked) is Some <==> (asked.size == remembered.size && instant(
            asked.modified,
        ) == instant(remembered.modified)),
{
    law_seconds_and_nanoseconds_tell_times_apart(remembered.modified, asked.modified);
}

/// The entry of a regular file whose hash the cache remembers: none where
/// the file's size or modification time is not the remembered one.
pub fn cached_entry(cache: &HashCache, path: &str, meta: &FileMeta) -> (out: Option<FileEntry>)
    requires
        cache.wf(),
    ensures
        match out {
            Some(e) => cached(cache, path@, meta) == Some(e.hash@) && e.well_formed()
                && !e.is_symlink && e.size == meta.size && e.mode == meta.mode && (
                e.mtime_secs,
                e.mtime_nanos,
            ) == recorded_mtime(meta.modified),
            None => cached(cache, path@, meta) is None,
        },
{
    let (secs, nanos) = secs_nanos(meta.modified);
    match cache.get(path, meta.size, secs, nanos) {
        Some(hash) => Some(regular_entry(meta, hash)),
        None => None,
    }
}

/// What a scan does for one selected path.
#[derive(Debug)]
pub enum ScanStep {
    /// The path is a symbolic link: its target is read, and the entry is
    /// that of the link.
    ReadLink,
    /// The cache remembers the file as it is: this is its entry.
    UseCached(FileEntry),
    /// The file is read and hashed.
    ReadAndHash,
}

/// Decides what a scan does for a path from what the file system says of
/// it. A link is never looked up in the cache; a file is read only where
/// the cache does not remember it at its size and modification time.
pub fn scan_step(cache: &HashCache, path: &str, meta: &FileMeta) -> (out: ScanStep)
    requires
        cache.wf(),
    ensures
        meta.is_symlink ==> out is ReadLink,
        !meta.is_symlink ==> match cached(cache, path@, meta) {
            Some(h) => (out matches ScanStep::UseCached(e) && e.hash@ == h && e.well_formed()
                && !e.is_symlink && e.size == meta.size && e.mode == meta.mode && (
            e.mtime_secs,
            e.mtime_nanos,
        ) == recorded_mtime(meta.modified)),
            None => out is ReadAndHash,
        },
{
    if meta.is_symlink {
        return ScanStep::ReadLink;
    }
    match cached_entry(cache, path, meta) {
        Some(entry) => ScanStep::UseCached(entry),
        None => ScanStep::ReadAndHash,
    }
}

/// The entry of a regular file from its content. The hash is remembered in
/// the cache under the file's size and modification time.
pub fn hashed_entry(cache: &mut HashCache, path: &str, meta: &FileMeta, content: &[u8]) -> (out:
    FileEntry)
    requires
        old(cache).wf(),
    ensures
        final(cache).wf(),
        out.well_formed(),
        !out.is_symlink,
        out.hash@ == blake3_hex(content@),
        out.size == meta.size,
        out.mode == meta.mode,
        (out.mtime_secs, out.mtime_nanos) == recorded_mtime(meta.modified),
        cached(final(cache), path@, meta) == Some(out.hash@),
        forall|p: Seq<char>, s: u64, t: i64, n: u32|
            #![trigger final(cache).lookup(p, s, t, n)]
            p != path@ ==> final(cache).lookup(p, s, t, n) == old(cache).lookup(p, s, t, n),
{
    let hash = hash_file(content);
    let (secs, nanos) = secs_nanos(meta.modified);
    cache.insert(path, meta.size, secs, nanos, hash.clone());
    regular_entry(meta, hash)
}

/// How many blobs a build wrote, and how many it found.
#[derive(Debug, Clone, Copy, PartialEq, Eq, Structural)]
pub struct BlobTally {
    pub new_blobs: usize,
    pub reused_blobs: usize,
}

impl BlobTally {
    /// A tally of nothing.
    pub fn new() -> (out: Self)
        ensures
            out.new_blobs == 0,
            out.reused_blobs == 0,
    {
        BlobTally { new_blobs: 0, reused_blobs: 0 }
    }

    /// Counts one insertion: a new blob where it wrote, a reused one where
    /// it did not.
    pub fn count(&mut self, inserted: bool)
        requires
            old(self).new_blobs + old(self).reused_blobs < usize::MAX,
        ensures
            final(self).new_blobs == old(self).new_blobs + if inserted {
                1int
            } else {
                0int
            },
            final(self).reused_blobs == old(self).reused_blobs + if inserted {
                0int
            } else {
                1int
            },
    {
        if inserted {
            self.new_blobs = self.new_blobs + 1;
        } else {
            self.reused_blobs = self.reused_blobs + 1;
        }
    }
}

/// How many of the insertions wrote.
pub open spec fn count_new(inserted: Seq<bool>) -> nat
    decreases inserted.len(),
{
    if inserted.len() == 0 {
        0
    } else {
        count_new(inserted.drop_last()) + if inserted.last() {
            1nat
        } else {
            0nat
        }
    }
}


/// The tally of a build from what each insertion said.
pub fn tally(inserted: &Vec<bool>) -> (out: BlobTally)
    ensures
        out.new_blobs == count_new(inserted@),
        out.new_blobs + out.reused_blobs == inserted@.len(),
{
    let mut out = BlobTally::new();
    let mut i: usize = 0;
    while i < inserted.len()
        invariant
            i <= inserted.len(),
            out.new_blobs == count_new(inserted@.subrange(0, i as int)),
            out.new_blobs + out.reused_blobs == i,
        decreases inserted.len() - i,
    {
        assert(inserted@.subrange(0, i + 1).drop_last() =~= inserted@.subrange(0, i as int));
        out.count(inserted[i]);
        i = i + 1;
    }
    assert(inserted@.subrange(0, inserted.len() as int) =~= inserted@);
    out
}

/// One selected path with its entry.
#[derive(Debug)]
pub struct ScanResult {
    pub relative_path: String,
    pub entry: FileEntry,
}

/// One captured directory with its entry.
#[derive(Debug)]
pub struct DirResult {
    pub relative_path: String,
    pub entry: DirectoryEntry,
}

/// The files of a manifest after the results were added in order.
pub open spec fn files_with(start: Map<Seq<char>, FileEntry>, results: Seq<ScanResult>) -> Map<
    Seq<char>,
    FileEntry,
>
    decreases results.len(),
{
    if results.len() == 0 {
        start
    } else {
        files_with(start, results.drop_last()).insert(
            results.last().relative_path@,
            results.last().entry,
        )
    }
}

/// The directories of a manifest after the results were added in order.
pub open spec fn directories_with(
    start: Map<Seq<char>, DirectoryEntry>,
    results: Seq<DirResult>,
) -> Map<Seq<char>, DirectoryEntry>
    decreases results.len(),
{
    if results.len() == 0 {
        start
    } else {
        directories_with(start, results.drop_last()).insert(
            results.last().relative_path@,
            results.last().entry,
        )
    }
}

/// Every result has a well-formed entry.
pub open spec fn results_well_formed(results: Seq<ScanResult>) -> bool {
    forall|i: int| 0 <= i < results.len() ==> (#[trigger] results[i]).entry.well_formed()
}

/// The manifest is the one that a build makes of a policy, the captured
/// directories and the scanned files. Nothing is said of the time at which
/// it was made.
pub open spec fn built_from(
    manifest: &Manifest,
    name: Seq<char>,
    config: &Config,
    directories: Seq<DirResult>,
    results: Seq<ScanResult>,
) -> bool {
    &&& manifest.wf()
    &&& manifest.name@ == name
    &&& manifest.tracked_directories@ == config.directories@
    &&& manifest.tracked_files@ == config.files@
    &&& manifest.ignored_patterns@ == config.ignore@
    &&& manifest.directories@ == directories_with(Map::empty(), directories)
    &&& manifest.files@ == files_with(Map::empty(), results)
    &&& manifest.toolchain_info is None
    &&& manifest.kibo_version@ == crate::manifest::KIBO_VERSION@
    &&& manifest.db_dump_filename is None
}

/// The size of the last of the results that is for `path`, if one is.
pub open spec fn last_size(results: Seq<ScanResult>, path: Seq<char>) -> Option<nat>
    decreases results.len(),
{
    if results.len() == 0 {
        None
    } else if results.last().relative_path@ == path {
        Some(results.last().entry.size as nat)
    } else {
        last_size(results.drop_last(), path)
    }
}

/// The total size of a manifest after the results were added: a path that
/// comes again counts with its last size only.
pub open spec fn total_after(results: Seq<ScanResult>) -> int
    decreases results.len(),
{
    if results.len() == 0 {
        0
    } else {
        let before = results.drop_last();
        total_after(before) - (match last_size(before, results.last().relative_path@) {
            Some(size) => size as int,
            None => 0,
        }) + results.last().entry.size
    }
}

/// The results can be added one after the other: at no point is the total
/// more than 64 bits hold.
pub open spec fn fits(results: Seq<ScanResult>) -> bool
    decreases results.len(),
{
    results.len() == 0 || (fits(results.drop_last()) && total_after(results) <= u64::MAX)
}

/// Why a manifest could not be put together.
#[derive(Debug, Clone, Copy, PartialEq, Eq, Structural)]
pub enum BuildError {
    /// The sizes of the files do not add up in 64 bits.
    TooLarge,
}

impl BuildError {
    /// What went wrong, in words.
    pub fn message(&self) -> (out: String)
        ensures
            out@ == TOO_LARGE@,
    {
        TOO_LARGE.to_string()
    }
}

/// What is said of a snapshot whose sizes do not add up.
pub const TOO_LARGE: &'static str =
    "Snapshot is too large: the sizes of its files do not fit in 64 bits";

/// Puts the manifest of a build together: the policy as it was, every
/// captured directory and every scanned file. A path that comes twice keeps
/// its last entry.
pub fn assemble(
    name: &str,
    created_at: Timestamp,
    config: &Config,
    directories: &Vec<DirResult>,
    results: &Vec<ScanResult>,
) -> (out: Result<Manifest, BuildError>)
    ensures
        out is Ok <==> fits(results@),
        out matches Ok(m) ==> built_from(&m, name@, config, directories@, results@)
            && m.created_at == created_at && m.total_size == total_after(results@) && (
        results_well_formed(results@) ==> m.entries_well_formed()),
{
    let mut manifest = Manifest::created(name.to_string(), created_at);
    manifest.set_tracked_paths(clone_texts(&config.directories), clone_texts(&config.files));
    manifest.set_ignored_patterns(clone_texts(&config.ignore));
    let mut d: usize = 0;
    while d < directories.len()
        invariant
            d <= directories.len(),
            manifest.wf(),
            manifest.entries_well_formed(),
            manifest.name@ == name@,
            manifest.created_at == created_at,
            manifest.tracked_directories@ == config.directories@,
            manifest.tracked_files@ == config.files@,
            manifest.ignored_patterns@ == config.ignore@,
            manifest.files@ == Map::<Seq<char>, FileEntry>::empty(),
            manifest.total_size == 0,
            manifest.file_count == 0,
            manifest.directories@ == directories_with(
                Map::empty(),
                directories@.subrange(0, d as int),
            ),
            manifest.toolchain_info is None,
            manifest.kibo_version@ == crate::manifest::KIBO_VERSION@,
            manifest.db_dump_filename is None,
        decreases directories.len() - d,
    {
        assert(directories@.subrange(0, d + 1).drop_last() =~= directories@.subrange(0, d as int));
        manifest.add_directory(directories[d].relative_path.clone(), directories[d].entry);
        d = d + 1;
    }
    assert(directories@.subrange(0, directories.len() as int) =~= directories@);
    let mut i: usize = 0;
    while i < results.len()
        invariant
            i <= results.len(),
            manifest.wf(),
            results_well_formed(results@) ==> manifest.entries_well_formed(),
            manifest.name@ == name@,
            manifest.created_at == created_at,
            manifest.tracked_directories@ == config.directories@,
            manifest.tracked_files@ == config.files@,
            manifest.ignored_patterns@ == config.ignore@,
            manifest.files@ == files_with(Map::empty(), results@.subrange(0, i as int)),
            manifest.total_size == total_after(results@.subrange(0, i as int)),
            fits(results@.subrange(0, i as int)),
            forall|p: Seq<char>|
                manifest.files.has(p) <==> last_size(results@.subrange(0, i as int), p) is Some,
            forall|p: Seq<char>|
                manifest.files.has(p) ==> last_size(results@.subrange(0, i as int), p) == Some(
                    manifest.files.value_of(p).size as nat,
                ),
            manifest.file_count <= i,
            manifest.directories@ == directories_with(Map::empty(), directories@),
            manifest.toolchain_info is None,
            manifest.kibo_version@ == crate::manifest::KIBO_VERSION@,
            manifest.db_dump_filename is None,
        decreases results.len() - i,
    {
        assert(results@.subrange(0, i + 1).drop_last() =~= results@.subrange(0, i as int));
        let ghost before = results@.subrange(0, i as int);
        let ghost upto = results@.subrange(0, i + 1);
        let ghost was = manifest;
        assert(upto.last() == results@[i as int]);
        let entry = results[i].entry.duplicate();
        let added = manifest.try_add_file(results[i].relative_path.clone(), entry);
        proof {
            let path = results@[i as int].relative_path@;
            assert(was.total_with(path, entry) == total_after(upto));
            assert(added == (total_after(upto) <= u64::MAX));
        }
        if !added {
            proof {
                if fits(results@) {
                    fits_is_for_every_part(results@, i + 1);
                }
            }
            return Err(BuildError::TooLarge);
        }
        proof {
            let path = results@[i as int].relative_path@;
            assert forall|p: Seq<char>| manifest.files.has(p) <==> last_size(upto, p) is Some by {
                if p != path {
                    assert(manifest.files.has(p) == was.files.has(p));
                }
            }
            assert forall|p: Seq<char>| manifest.files.has(p) implies last_size(upto, p) == Some(
                manifest.files.value_of(p).size as nat,
            ) by {
                if p != path {
                    assert(manifest.files.has(p) == was.files.has(p));
                    assert(manifest.files.value_of(p) == was.files.value_of(p));
                }
            }
        }
        i = i + 1;
    }
    assert(results@.subrange(0, results.len() as int) =~= results@);
    Ok(manifest)
}

/// Results that can be added can be added up to any point.
pub proof fn fits_is_for_every_part(results: Seq<ScanResult>, n: int)
    requires
        0 <= n <= results.len(),
        fits(results),
    ensures
        fits(results.subrange(0, n)),
    decreases results.len() - n,
{
    if n < results.len() {
        fits_is_for_every_part(results, n + 1);
        assert(results.subrange(0, n + 1).drop_last() =~= results.subrange(0, n));
    } else {
        assert(results.subrange(0, n) =~= results);
    }
}

/// Building is stable: two builds of the same policy, the same captured
/// directories and the same scanned files give manifests that differ in
/// nothing but the time at which they were made.
pub proof fn law_build_is_stable(
    first: &Manifest,
    second: &Manifest,
    name: Seq<char>,
    config: &Config,
    directories: Seq<DirResult>,
    results: Seq<ScanResult>,
)
    requires
        built_from(first, name, config, directories, results),
        built_from(second, name, config, directories, results),
    ensures
        first.name@ == second.name@,
        first.tracked_directories@ == second.tracked_directories@,
        first.tracked_files@ == second.tracked_files@,
        first.ignored_patterns@ == second.ignored_patterns@,
        first.directories@ == second.directories@,
        first.files@ == second.files@,
        first.file_count == second.file_count,
        first.toolchain_info == second.toolchain_info,
        first.kibo_version@ == second.kibo_version@,
        first.db_dump_filename == second.db_dump_filename,
{
    first.files.key_texts().unique_seq_to_set();
    second.files.key_texts().unique_seq_to_set();
    assert(first.files@.dom() =~= first.files.key_texts().to_set());
    assert(second.files@.dom() =~= second.files.key_texts().to_set());
}

/// The steps of a build for the hashes of its files, one after the other,
/// none of which failed.
pub open spec fn steps_for(
    held: Held,
    hashes: Seq<Seq<char>>,
    blobs: Seq<Option<Seq<u8>>>,
    steps: Seq<StoreStep>,
) -> bool
    decreases hashes.len(),
{
    if hashes.len() == 0 {
        steps.len() == 0 && blobs.len() == 0
    } else {
        &&& steps.len() == hashes.len()
        &&& blobs.len() == hashes.len()
        &&& step_for(held, hashes[0], blobs[0], steps[0])
        &&& !(steps[0] is Failed)
        &&& steps_for(
            held_after(held, hashes[0], steps[0]),
            hashes.drop_first(),
            blobs.drop_first(),
            steps.drop_first(),
        )
    }
}

/// The store after the steps of a build.
pub open spec fn held_after_all(held: Held, hashes: Seq<Seq<char>>, steps: Seq<StoreStep>) -> Held
    decreases hashes.len(),
{
    if hashes.len() == 0 || steps.len() != hashes.len() {
        held
    } else {
        held_after_all(
            held_after(held, hashes[0], steps[0]),
            hashes.drop_first(),
            steps.drop_first(),
        )
    }
}

/// A build loses no blob, and after it the store holds a blob for the hash
/// of every file of the snapshot.
pub proof fn law_build_stores_every_entry(
    held: Held,
    hashes: Seq<Seq<char>>,
    blobs: Seq<Option<Seq<u8>>>,
    steps: Seq<StoreStep>,
)
    requires
        steps_for(held, hashes, blobs, steps),
    ensures
        forall|h: Seq<char>| held.dom().contains(h) ==> held_after_all(held, hashes, steps).dom().contains(h),
        forall|i: int| 0 <= i < hashes.len() ==> held_after_all(held, hashes, steps).dom().contains(
            #[trigger] hashes[i],
        ),
    decreases hashes.len(),
{
    if hashes.len() > 0 {
        let next = held_after(held, hashes[0], steps[0]);
        law_build_stores_every_entry(next, hashes.drop_first(), blobs.drop_first(), steps.drop_first());
        let end = held_after_all(held, hashes, steps);
        assert(next.dom().contains(hashes[0]));
        assert forall|i: int| 0 <= i < hashes.len() implies end.dom().contains(#[trigger] hashes[i]) by {
            if i > 0 {
                assert(hashes.drop_first()[i - 1] == hashes[i]);
            }
        }
        assert forall|h: Seq<char>| held.dom().contains(h) implies end.dom().contains(h) by {
            assert(next.dom().contains(h));
        }
    }
}

/// A build that follows a build of the same files writes no blob.
pub proof fn law_rebuild_writes_nothing(
    held: Held,
    hashes: Seq<Seq<char>>,
    blobs: Seq<Option<Seq<u8>>>,
    first: Seq<StoreStep>,
    second: Seq<StoreStep>,
)
    requires
        steps_for(held, hashes, blobs, first),
        steps_for(held_after_all(held, hashes, first), hashes, blobs, second),
    ensures
        forall|i: int| 0 <= i < second.len() ==> !(#[trigger] second[i]).inserts(),
{
    law_build_stores_every_entry(held, hashes, blobs, first);
    steps_in_a_full_store(held_after_all(held, hashes, first), hashes, hashes, blobs, second);
}

/// Where the store holds every hash of a list, steps for hashes of that
/// list write nothing.
proof fn steps_in_a_full_store(
    held: Held,
    all: Seq<Seq<char>>,
    hashes: Seq<Seq<char>>,
    blobs: Seq<Option<Seq<u8>>>,
    steps: Seq<StoreStep>,
)
    requires
        forall|i: int| 0 <= i < all.len() ==> held.dom().contains(#[trigger] all[i]),
        forall|i: int| 0 <= i < hashes.len() ==> all.contains(#[trigger] hashes[i]),
        steps_for(held, hashes, blobs, steps),
    ensures
        forall|i: int| 0 <= i < steps.len() ==> !(#[trigger] steps[i]).inserts(),
    decreases hashes.len(),
{
    if hashes.len() > 0 {
        assert(all.contains(hashes[0]));
        let k = choose|k: int| 0 <= k < all.len() && all[k] == hashes[0];
        assert(held.dom().contains(all[k]));
        assert(steps[0] is Present);
        assert(held_after(held, hashes[0], steps[0]) == held);
        assert forall|i: int| 0 <= i < hashes.drop_first().len() implies all.contains(
            #[trigger] hashes.drop_first()[i],
        ) by {
            assert(hashes.drop_first()[i] == hashes[i + 1]);
        }
        steps_in_a_full_store(held, all, hashes.drop_first(), blobs.drop_first(), steps.drop_first());
        assert forall|i: int| 0 <= i < steps.len() implies !(#[trigger] steps[i]).inserts() by {
            if i > 0 {
                assert(steps.drop_first()[i - 1] == steps[i]);
            }
        }
    }
}

} // verus!
