//! The record of one snapshot: which paths it holds, with which content and
//! metadata, under which selection policy.

use vstd::prelude::*;
use crate::clock::{now, Timestamp};
use crate::ignore::{ignored, should_ignore};
use crate::paths::{get_manifests_dir, join, join_path, manifests_dir};
use crate::table::Table;
use crate::text::{chars_of, push_str, text_of, texts};

verus! {

/// Version of the tool, as manifests record it.
pub const KIBO_VERSION: &'static str = "0.1.0";

/// Extension of a manifest's file name.
pub const MANIFEST_EXTENSION: &'static str = ".json";

/// One file or symbolic link of a snapshot.
#[derive(Debug, Clone, PartialEq)]
pub struct FileEntry {
    /// Hex digest of the content, or of the target's text for a link.
    pub hash: String,
    /// Size in bytes; 0 for a link.
    pub size: u64,
    /// Permission bits.
    pub mode: u32,
    pub is_symlink: bool,
    /// The link's target: there exactly for a link.
    pub symlink_target: Option<String>,
    pub mtime_secs: i64,
    pub mtime_nanos: u32,
}

impl FileEntry {
    /// A link has a target and no size; a file has no target.
    pub open spec fn well_formed(&self) -> bool {
        &&& self.is_symlink <==> self.symlink_target is Some
        &&& self.is_symlink ==> self.size == 0
    }

    /// The entry of a regular file.
    pub fn regular(hash: String, size: u64, mode: u32, mtime_secs: i64, mtime_nanos: u32) -> (out:
        Self)
        ensures
            out == (FileEntry {
                hash,
                size,
                mode,
                is_symlink: false,
                symlink_target: None,
                mtime_secs,
                mtime_nanos,
            }),
            out.well_formed(),
    {
        FileEntry {
            hash,
            size,
            mode,
            is_symlink: false,
            symlink_target: None,
            mtime_secs,
            mtime_nanos,
        }
    }

    /// The entry of a symbolic link to `target`.
    pub fn symlink(hash: String, target: String, mode: u32, mtime_secs: i64, mtime_nanos: u32) -> (out:
        Self)
        ensures
            out == (FileEntry {
                hash,
                size: 0,
                mode,
                is_symlink: true,
                symlink_target: Some(target),
                mtime_secs,
                mtime_nanos,
            }),
            out.well_formed(),
    {
        FileEntry {
            hash,
            size: 0,
            mode,
            is_symlink: true,
            symlink_target: Some(target),
            mtime_secs,
            mtime_nanos,
        }
    }

    /// A copy of the entry.
    pub fn duplicate(&self) -> (out: Self)
        ensures
            out == *self,
    {
        let target = match &self.symlink_target {
            Some(t) => Some(t.clone()),
            None => None,
        };
        FileEntry {
            hash: self.hash.clone(),
            size: self.size,
            mode: self.mode,
            is_symlink: self.is_symlink,
            symlink_target: target,
            mtime_secs: self.mtime_secs,
            mtime_nanos: self.mtime_nanos,
        }
    }
}

/// One directory of a snapshot, kept so that an empty one can be made again.
#[derive(Debug, Clone, Copy, PartialEq, Eq)]
pub struct DirectoryEntry {
    pub mode: u32,
    pub mtime_secs: i64,
    pub mtime_nanos: u32,
}

/// The sizes of the entries, added up.
pub open spec fn total_of(entries: Seq<FileEntry>) -> nat
    decreases entries.len(),
{
    if entries.len() == 0 {
        0
    } else {
        total_of(entries.drop_last()) + entries.last().size as nat
    }
}

/// A new entry adds its size to the total.
pub proof fn total_of_push(entries: Seq<FileEntry>, entry: FileEntry)
    ensures
        total_of(entries.push(entry)) == total_of(entries) + entry.size,
{
    assert(entries.push(entry).drop_last() =~= entries);
}

/// An entry that takes another's place changes the total by the difference of
/// their sizes.
pub proof fn total_of_update(entries: Seq<FileEntry>, i: int, entry: FileEntry)
    requires
        0 <= i < entries.len(),
    ensures
        total_of(entries.update(i, entry)) == total_of(entries) - entries[i].size + entry.size,
    decreases entries.len(),
{
    let after = entries.update(i, entry);
    if i == entries.len() - 1 {
        assert(after.drop_last() =~= entries.drop_last());
    } else {
        total_of_update(entries.drop_last(), i, entry);
        assert(after.drop_last() =~= entries.drop_last().update(i, entry));
    }
}

/// No entry is larger than the total.
pub proof fn total_of_bounds(entries: Seq<FileEntry>, i: int)
    requires
        0 <= i < entries.len(),
    ensures
        entries[i].size <= total_of(entries),
    decreases entries.len(),
{
    if i < entries.len() - 1 {
        total_of_bounds(entries.drop_last(), i);
    }
}

/// The manifest of one snapshot.
#[derive(Debug)]
pub struct Manifest {
    pub name: String,
    pub created_at: Timestamp,
    /// Names of the tracked directories, matched by their last name anywhere.
    pub tracked_directories: Vec<String>,
    /// Patterns of the tracked files.
    pub tracked_files: Vec<String>,
    /// The ignore patterns that were in force when the snapshot was built.
    pub ignored_patterns: Vec<String>,
    pub directories: Table<DirectoryEntry>,
    pub files: Table<FileEntry>,
    pub total_size: u64,
    pub file_count: usize,
    pub toolchain_info: Option<String>,
    pub kibo_version: String,
    /// File name of a database dump that belongs to the snapshot.
    pub db_dump_filename: Option<String>,
}

impl Manifest {
    /// The tables are well formed, and the two counters say what the table
    /// of files holds.
    pub open spec fn wf(&self) -> bool {
        &&& self.files.wf()
        &&& self.directories.wf()
        &&& self.file_count == self.files.keys@.len()
        &&& self.total_size == total_of(self.files.values@)
    }

    /// Every entry of the manifest is well formed.
    pub open spec fn entries_well_formed(&self) -> bool {
        forall|i: int| 0 <= i < self.files.values@.len() ==> (#[trigger] self.files.values@[i]).well_formed()
    }

    /// An empty manifest that was made at `created_at`.
    pub fn created(name: String, created_at: Timestamp) -> (out: Self)
        ensures
            out.wf(),
            out.entries_well_formed(),
            out.name == name,
            out.created_at == created_at,
            out.tracked_directories@.len() == 0,
            out.tracked_files@.len() == 0,
            out.ignored_patterns@.len() == 0,
            out.directories@ == Map::<Seq<char>, DirectoryEntry>::empty(),
            out.files@ == Map::<Seq<char>, FileEntry>::empty(),
            out.files.keys@.len() == 0,
            out.directories.keys@.len() == 0,
            out.total_size == 0,
            out.file_count == 0,
            out.toolchain_info is None,
            out.kibo_version@ == KIBO_VERSION@,
            out.db_dump_filename is None,
    {
        Manifest {
            name,
            created_at,
            tracked_directories: Vec::new(),
            tracked_files: Vec::new(),
            ignored_patterns: Vec::new(),
            directories: Table::new(),
            files: Table::new(),
            total_size: 0,
            file_count: 0,
            toolchain_info: None,
            kibo_version: KIBO_VERSION.to_string(),
            db_dump_filename: None,
        }
    }

    /// An empty manifest, made now.
    pub fn new(name: String) -> (out: Self)
        ensures
            out.wf(),
            out.entries_well_formed(),
            out.name == name,
            out.tracked_directories@.len() == 0,
            out.tracked_files@.len() == 0,
            out.ignored_patterns@.len() == 0,
            out.files.keys@.len() == 0,
            out.directories.keys@.len() == 0,
            out.total_size == 0,
            out.file_count == 0,
            out.toolchain_info is None,
            out.kibo_version@ == KIBO_VERSION@,
            out.db_dump_filename is None,
    {
        Manifest::created(name, now())
    }

    /// Records what the snapshot tracks.
    pub fn set_tracked_paths(&mut self, directories: Vec<String>, files: Vec<String>)
        ensures
            *final(self) == (Manifest {
                tracked_directories: directories,
                tracked_files: files,
                ..*old(self)
            }),
    {
        self.tracked_directories = directories;
        self.tracked_files = files;
    }

    /// Records the ignore patterns that were in force.
    pub fn set_ignored_patterns(&mut self, ignored_patterns: Vec<String>)
        ensures
            *final(self) == (Manifest { ignored_patterns, ..*old(self) }),
    {
        self.ignored_patterns = ignored_patterns;
    }

    /// Puts the entry of a directory at `relative_path`, in place of one that
    /// was there.
    pub fn add_directory(&mut self, relative_path: String, entry: DirectoryEntry)
        requires
            old(self).wf(),
        ensures
            final(self).wf(),
            final(self).directories@ == old(self).directories@.insert(relative_path@, entry),
            *final(self) == (Manifest { directories: final(self).directories, ..*old(self) }),
    {
        self.directories.insert(relative_path, entry);
    }

    /// What the total size becomes when `entry` is put at `path`.
    pub open spec fn total_with(&self, path: Seq<char>, entry: FileEntry) -> int {
        if self.files.has(path) {
            self.total_size - self.files.value_of(path).size + entry.size
        } else {
            self.total_size + entry.size
        }
    }

    /// Whether `entry` can be put at `path`: the counters must still fit.
    pub open spec fn admits(&self, path: Seq<char>, entry: FileEntry) -> bool {
        &&& self.total_with(path, entry) <= u64::MAX
        &&& self.files.has(path) || self.file_count < usize::MAX
    }

    /// Puts `entry` at `relative_path`, in place of an entry that was there.
    pub fn add_file(&mut self, relative_path: String, entry: FileEntry)
        requires
            old(self).wf(),
            old(self).admits(relative_path@, entry),
        ensures
            final(self).wf(),
            final(self).files@ == old(self).files@.insert(relative_path@, entry),
            final(self).files.has(relative_path@),
            final(self).files.value_of(relative_path@) == entry,
            forall|k: Seq<char>|
                k != relative_path@ ==> (#[trigger] final(self).files.has(k)) == old(self).files.has(k),
            forall|k: Seq<char>|
                k != relative_path@ && old(self).files.has(k) ==> (#[trigger] final(self).files.value_of(k)) == old(self).files.value_of(k),
            final(self).total_size == old(self).total_with(relative_path@, entry),
            final(self).file_count == if old(self).files.has(relative_path@) {
                old(self).file_count as int
            } else {
                old(self).file_count + 1
            },
            old(self).entries_well_formed() && entry.well_formed() ==> final(self).entries_well_formed(),
            *final(self) == (Manifest {
                files: final(self).files,
                total_size: final(self).total_size,
                file_count: final(self).file_count,
                ..*old(self)
            }),
    {
        let size: u64 = entry.size;
        let at = self.files.position(relative_path.as_str());
        match at {
            Some(i) => {
                proof {
                    let j = self.files.key_texts().index_of(relative_path@);
                    assert(0 <= j < self.files.key_texts().len() && self.files.key_texts()[j]
                        == relative_path@);
                    assert(j == i);
                    total_of_update(self.files.values@, i as int, entry);
                    total_of_bounds(self.files.values@, i as int);
                }
                let before: u64 = self.files.value(i).size;
                self.total_size = self.total_size - before + size;
            },
            None => {
                proof {
                    total_of_push(self.files.values@, entry);
                }
                self.total_size = self.total_size + size;
                self.file_count = self.file_count + 1;
            },
        }
        self.files.insert(relative_path, entry);
    }

    /// Puts `entry` at `relative_path` if the counters still fit, and says
    /// whether it did.
    pub fn try_add_file(&mut self, relative_path: String, entry: FileEntry) -> (added: bool)
        requires
            old(self).wf(),
        ensures
            final(self).wf(),
            added == old(self).admits(relative_path@, entry),
            !added ==> *final(self) == *old(self),
            added ==> final(self).files@ == old(self).files@.insert(relative_path@, entry)
                && final(self).total_size == old(self).total_with(relative_path@, entry)
                && final(self).files.has(relative_path@) && final(self).files.value_of(
                relative_path@,
            ) == entry,
            forall|k: Seq<char>|
                k != relative_path@ ==> (#[trigger] final(self).files.has(k)) == old(self).files.has(k),
            forall|k: Seq<char>|
                k != relative_path@ && old(self).files.has(k) ==> (#[trigger] final(self).files.value_of(k)) == old(self).files.value_of(k),
            final(self).file_count == if added && !old(self).files.has(relative_path@) {
                old(self).file_count + 1
            } else {
                old(self).file_count as int
            },
            *final(self) == (Manifest {
                files: final(self).files,
                total_size: final(self).total_size,
                file_count: final(self).file_count,
                ..*old(self)
            }),
            old(self).entries_well_formed() && entry.well_formed() ==> final(self).entries_well_formed(),
    {
        let at = self.files.position(relative_path.as_str());
        let fits = match at {
            Some(i) => {
                proof {
                    let j = self.files.key_texts().index_of(relative_path@);
                    assert(0 <= j < self.files.key_texts().len() && self.files.key_texts()[j]
                        == relative_path@);
                    total_of_bounds(self.files.values@, i as int);
                }
                let rest: u64 = self.total_size - self.files.value(i).size;
                entry.size <= u64::MAX - rest
            },
            None => entry.size <= u64::MAX - self.total_size && self.file_count < usize::MAX,
        };
        if fits {
            self.add_file(relative_path, entry);
        }
        fits
    }

    /// The file name of the manifest of the snapshot `name`.
    pub open spec fn file_name(name: Seq<char>) -> Seq<char> {
        name + MANIFEST_EXTENSION@
    }

    /// Where the manifest of the snapshot `name` is kept.
    pub fn get_path(root: &str, name: &str) -> (out: String)
        ensures
            out@ == join_path(manifests_dir(root@), Self::file_name(name@)),
    {
        let dir = get_manifests_dir(root);
        let mut file: Vec<char> = chars_of(name);
        push_str(&mut file, MANIFEST_EXTENSION);
        let file_name = text_of(&file);
        join(dir.as_str(), file_name.as_str())
    }

    /// The total size as people read it.
    pub fn human_size(&self) -> (out: String)
        ensures
            out@ == crate::size::size_text(self.total_size as nat),
    {
        crate::size::format_size(self.total_size)
    }

    /// Whether the patterns recorded in the manifest ignore the path.
    pub fn should_ignore(&self, relative_path: &str) -> (out: bool)
        ensures
            out == ignored(texts(self.ignored_patterns@), relative_path@),
    {
        should_ignore(&self.ignored_patterns, relative_path)
    }
}

/// A time as a key that grows with it.
pub open spec fn time_key(at: Timestamp) -> u128 {
    ((at.secs + 0x8000_0000_0000_0000) * 0x1_0000_0000 + at.nanos) as u128
}

fn key_of(at: Timestamp) -> (out: u128)
    ensures
        out == time_key(at),
{
    let shifted: u128 = (at.secs as i128 + 0x8000_0000_0000_0000) as u128;
    shifted * 0x1_0000_0000 + at.nanos as u128
}

/// `order` lists the places of the manifests, the one that was made last
/// first; manifests of the same time keep the order in which they stood.
pub open spec fn is_newest_first(manifests: Seq<Manifest>, order: Seq<usize>) -> bool {
    &&& order.len() == manifests.len()
    &&& forall|i: int| 0 <= i < order.len() ==> (#[trigger] order[i]) < manifests.len()
    &&& forall|i: int, j: int|
        0 <= i < j < order.len() ==> listed_before(
            manifests,
            #[trigger] order[i] as int,
            #[trigger] order[j] as int,
        )
}

/// The manifest at `a` is listed before the one at `b`: it was made later,
/// or at the same time and stood first.
pub open spec fn listed_before(manifests: Seq<Manifest>, a: int, b: int) -> bool {
    manifests[a].created_at.is_after(&manifests[b].created_at) || (manifests[a].created_at
        == manifests[b].created_at && a < b)
}

/// The order in which snapshots are listed: newest first.
pub fn newest_first(manifests: &Vec<Manifest>) -> (out: Vec<usize>)
    ensures
        is_newest_first(manifests@, out@),
{
    let mut keys: Vec<u128> = Vec::new();
    let mut i: usize = 0;
    while i < manifests.len()
        invariant
            i <= manifests.len(),
            keys@.len() == i,
            forall|k: int| 0 <= k < i ==> keys@[k] == time_key(manifests@[k].created_at),
        decreases manifests.len() - i,
    {
        keys.push(key_of(manifests[i].created_at));
        i = i + 1;
    }
    let order = crate::order::descending(&keys);
    assert forall|a: int, b: int| 0 <= a < b < order@.len() implies listed_before(
        manifests@,
        #[trigger] order@[a] as int,
        #[trigger] order@[b] as int,
    ) by {
        let x = manifests@[order@[a] as int].created_at;
        let y = manifests@[order@[b] as int].created_at;
        assert(keys@[order@[a] as int] == time_key(x));
        assert(keys@[order@[b] as int] == time_key(y));
        assert(keys@[order@[a] as int] > keys@[order@[b] as int] || (keys@[order@[a] as int]
            == keys@[order@[b] as int] && order@[a] < order@[b]));
    }
    order
}

} // verus!
