//! Restoring a snapshot: what is removed, which directories are made, and
//! what is done for each file of the manifest.

use vstd::prelude::*;
use crate::ignore::{ignored, should_ignore};
use crate::manifest::{FileEntry, Manifest};
use crate::order::{ascending, descending, is_ascending, is_descending};
use crate::paths::{ancestors, ancestors_of, segments, split_path};
use crate::select::{distinct, distinct_holds_each_once, in_state_dir, is_in_state_dir, path_taken,
    text_set, PatternHit, WalkedDir};
use crate::table::Table;
use crate::text::{chars_of, contains_text, count_char, count_of, has_sub, push_decimal, push_str,
    sub_of_itself, sub_stays, subs_stay, text_of, texts};

verus! {

/// What a restore did, or in a dry run would do: how many files it went
/// through, and which paths it copied, left, linked and removed.
#[derive(Debug)]
pub struct LoadStats {
    pub files_loaded: usize,
    pub copies: usize,
    pub unchanged: usize,
    pub symlinks: usize,
    pub removed: usize,
    pub copied_files: Vec<String>,
    pub unchanged_files: Vec<String>,
    pub symlink_files: Vec<String>,
    pub removed_files: Vec<String>,
}

impl Default for LoadStats {
    fn default() -> (out: Self)
        ensures
            out.consistent(),
            out.files_loaded == 0,
            out.copies == 0,
            out.unchanged == 0,
            out.symlinks == 0,
            out.removed == 0,
    {
        LoadStats {
            files_loaded: 0,
            copies: 0,
            unchanged: 0,
            symlinks: 0,
            removed: 0,
            copied_files: Vec::new(),
            unchanged_files: Vec::new(),
            symlink_files: Vec::new(),
            removed_files: Vec::new(),
        }
    }
}

/// What a restore does for one file of the manifest.
#[derive(Debug, Clone, Copy, PartialEq, Eq, Structural)]
pub enum FileAction {
    /// The path holds the content of the entry: nothing is touched.
    Unchanged,
    /// Whatever is at the path is removed, and the link is made.
    RestoreSymlink,
    /// The blob is written to the path, and the entry's mode and
    /// modification time are set.
    CopyFile,
    /// The entry is a link without a target: nothing can be done.
    Skip,
}

impl FileAction {
    /// Whether the action changes the workspace.
    pub open spec fn mutates(&self) -> bool {
        *self == FileAction::RestoreSymlink || *self == FileAction::CopyFile
    }

    /// Whether the entry's mode and modification time are set after the
    /// action: only after a copy.
    pub open spec fn sets_metadata(&self) -> bool {
        *self == FileAction::CopyFile
    }

    /// Whether the entry's mode and modification time are set after the
    /// action.
    pub fn applies_metadata(&self) -> (out: bool)
        ensures
            out == self.sets_metadata(),
    {
        *self == FileAction::CopyFile
    }
}

/// The action for an entry, given the hash of what is at its path now: a
/// path that holds the entry's content is left alone.
pub open spec fn action_for(entry: FileEntry, existing: Option<Seq<char>>) -> FileAction {
    if entry.is_symlink {
        if entry.symlink_target is None {
            FileAction::Skip
        } else if existing == Some(entry.hash@) {
            FileAction::Unchanged
        } else {
            FileAction::RestoreSymlink
        }
    } else if existing == Some(entry.hash@) {
        FileAction::Unchanged
    } else {
        FileAction::CopyFile
    }
}

/// Decides what a restore does for one entry.
pub fn restore_action(entry: &FileEntry, existing: Option<&str>) -> (out: FileAction)
    ensures
        out == action_for(
            *entry,
            match existing {
                Some(h) => Some(h@),
                None => None,
            },
        ),
{
    let same = match existing {
        Some(h) => *h == *entry.hash.as_str(),
        None => false,
    };
    if entry.is_symlink {
        if entry.symlink_target.is_none() {
            FileAction::Skip
        } else if same {
            FileAction::Unchanged
        } else {
            FileAction::RestoreSymlink
        }
    } else if same {
        FileAction::Unchanged
    } else {
        FileAction::CopyFile
    }
}

/// The hash that was seen at the place `i`, if one was.
pub open spec fn seen_at(existing: Seq<Option<String>>, i: int) -> Option<Seq<char>> {
    if 0 <= i < existing.len() {
        match existing[i] {
            Some(h) => Some(h@),
            None => None,
        }
    } else {
        None
    }
}

/// The actions for the files of a manifest, in the order of its table,
/// given the hash that was seen at each path.
pub open spec fn actions_for(entries: Seq<FileEntry>, existing: Seq<Option<String>>) -> Seq<
    FileAction,
> {
    Seq::new(entries.len(), |i: int| action_for(entries[i], seen_at(existing, i)))
}

/// The paths whose action is `which`, in order.
pub open spec fn paths_with(paths: Seq<Seq<char>>, actions: Seq<FileAction>, which: FileAction) -> Seq<
    Seq<char>,
>
    decreases paths.len(),
{
    if paths.len() == 0 || actions.len() != paths.len() {
        Seq::empty()
    } else {
        let before = paths_with(paths.drop_last(), actions.drop_last(), which);
        if actions.last() == which {
            before.push(paths.last())
        } else {
            before
        }
    }
}

/// No more paths have an action than there are paths.
pub proof fn paths_with_bound(paths: Seq<Seq<char>>, actions: Seq<FileAction>, which: FileAction)
    ensures
        paths_with(paths, actions, which).len() <= paths.len(),
    decreases paths.len(),
{
    if paths.len() > 0 && actions.len() == paths.len() {
        paths_with_bound(paths.drop_last(), actions.drop_last(), which);
    }
}

/// Where no action is `which`, no path has it.
pub proof fn paths_with_none(paths: Seq<Seq<char>>, actions: Seq<FileAction>, which: FileAction)
    requires
        forall|i: int| 0 <= i < actions.len() ==> actions[i] != which,
    ensures
        paths_with(paths, actions, which).len() == 0,
    decreases paths.len(),
{
    if paths.len() > 0 && actions.len() == paths.len() {
        assert forall|i: int| 0 <= i < actions.drop_last().len() implies actions.drop_last()[i]
            != which by {
            assert(actions.drop_last()[i] == actions[i]);
        }
        paths_with_none(paths.drop_last(), actions.drop_last(), which);
    }
}

/// Where every action is `which`, every path has it.
pub proof fn paths_with_all(paths: Seq<Seq<char>>, actions: Seq<FileAction>, which: FileAction)
    requires
        actions.len() == paths.len(),
        forall|i: int| 0 <= i < actions.len() ==> actions[i] == which,
    ensures
        paths_with(paths, actions, which) == paths,
    decreases paths.len(),
{
    if paths.len() > 0 {
        assert forall|i: int| 0 <= i < actions.drop_last().len() implies actions.drop_last()[i]
            == which by {
            assert(actions.drop_last()[i] == actions[i]);
        }
        paths_with_all(paths.drop_last(), actions.drop_last(), which);
        assert(paths.drop_last().push(paths.last()) =~= paths);
    } else {
        assert(paths =~= Seq::empty());
    }
}

impl LoadStats {
    /// Each counter counts its list, and the files that were gone through
    /// are those that were copied, left or linked.
    pub open spec fn consistent(&self) -> bool {
        &&& self.copies == self.copied_files@.len()
        &&& self.unchanged == self.unchanged_files@.len()
        &&& self.symlinks == self.symlink_files@.len()
        &&& self.removed == self.removed_files@.len()
        &&& self.files_loaded == self.copies + self.unchanged + self.symlinks
    }

    /// The statistics say what the actions for the files of a manifest and
    /// the removal of the stale paths amount to.
    pub open spec fn reports(
        &self,
        paths: Seq<Seq<char>>,
        actions: Seq<FileAction>,
        stale: Seq<Seq<char>>,
    ) -> bool {
        &&& self.consistent()
        &&& texts(self.copied_files@) == paths_with(paths, actions, FileAction::CopyFile)
        &&& texts(self.unchanged_files@) == paths_with(paths, actions, FileAction::Unchanged)
        &&& texts(self.symlink_files@) == paths_with(paths, actions, FileAction::RestoreSymlink)
        &&& texts(self.removed_files@) == stale
    }
}

/// What a restore does for the files of a manifest, and what it reports.
#[derive(Debug)]
pub struct FilePlan {
    /// The action for each file, in the order of the manifest's table.
    pub actions: Vec<FileAction>,
    pub stats: LoadStats,
}

/// Decides the restore of the files of a manifest. `existing` holds, for
/// each file in the order of the manifest's table, the hash of what is at
/// its path now, if anything is; `stale` holds the paths that the cleanup
/// removes.
pub fn plan_files(manifest: &Manifest, existing: &Vec<Option<String>>, stale: Vec<String>) -> (out:
    FilePlan)
    requires
        manifest.wf(),
    ensures
        out.actions@ == actions_for(manifest.files.values@, existing@),
        out.stats.reports(manifest.files.key_texts(), out.actions@, texts(stale@)),
{
    let n: usize = manifest.files.len();
    let ghost paths = manifest.files.key_texts();
    let ghost wanted = actions_for(manifest.files.values@, existing@);
    let mut actions: Vec<FileAction> = Vec::new();
    let mut copied: Vec<String> = Vec::new();
    let mut unchanged: Vec<String> = Vec::new();
    let mut linked: Vec<String> = Vec::new();
    assert(texts(copied@) =~= Seq::<Seq<char>>::empty());
    assert(texts(unchanged@) =~= Seq::<Seq<char>>::empty());
    assert(texts(linked@) =~= Seq::<Seq<char>>::empty());
    let mut i: usize = 0;
    while i < n
        invariant
            i <= n,
            n == manifest.files.keys@.len(),
            manifest.wf(),
            paths == manifest.files.key_texts(),
            wanted == actions_for(manifest.files.values@, existing@),
            actions@ == wanted.subrange(0, i as int),
            texts(copied@) == paths_with(
                paths.subrange(0, i as int),
                actions@,
                FileAction::CopyFile,
            ),
            texts(unchanged@) == paths_with(
                paths.subrange(0, i as int),
                actions@,
                FileAction::Unchanged,
            ),
            texts(linked@) == paths_with(
                paths.subrange(0, i as int),
                actions@,
                FileAction::RestoreSymlink,
            ),
        decreases n - i,
    {
        let entry = manifest.files.value(i);
        let action = if i < existing.len() {
            match &existing[i] {
                Some(h) => restore_action(entry, Some(h.as_str())),
                None => restore_action(entry, None),
            }
        } else {
            restore_action(entry, None)
        };
        assert(action == wanted[i as int]);
        let ghost before = actions@;
        actions.push(action);
        proof {
            assert(actions@ =~= wanted.subrange(0, i + 1));
            assert(paths.subrange(0, i + 1).drop_last() =~= paths.subrange(0, i as int));
            assert(actions@.drop_last() =~= before);
            assert(paths.subrange(0, i + 1).last() == manifest.files.keys@[i as int]@);
        }
        let key = manifest.files.key(i);
        match action {
            FileAction::CopyFile => {
                let ghost prev = texts(copied@);
                copied.push(key.clone());
                assert(texts(copied@) =~= prev.push(key@));
            },
            FileAction::Unchanged => {
                let ghost prev = texts(unchanged@);
                unchanged.push(key.clone());
                assert(texts(unchanged@) =~= prev.push(key@));
            },
            FileAction::RestoreSymlink => {
                let ghost prev = texts(linked@);
                linked.push(key.clone());
                assert(texts(linked@) =~= prev.push(key@));
            },
            FileAction::Skip => {},
        }
        i = i + 1;
    }
    proof {
        assert(paths.subrange(0, n as int) =~= paths);
        assert(wanted.subrange(0, n as int) =~= wanted);
        paths_with_bound(paths, actions@, FileAction::CopyFile);
        paths_with_bound(paths, actions@, FileAction::Unchanged);
        paths_with_bound(paths, actions@, FileAction::RestoreSymlink);
        split_bound(paths, actions@);
    }
    let copies: usize = copied.len();
    let same: usize = unchanged.len();
    let links: usize = linked.len();
    let removed: usize = stale.len();
    let stats = LoadStats {
        files_loaded: copies + same + links,
        copies,
        unchanged: same,
        symlinks: links,
        removed,
        copied_files: copied,
        unchanged_files: unchanged,
        symlink_files: linked,
        removed_files: stale,
    };
    FilePlan { actions, stats }
}

/// The paths that are copied, left and linked are no more than the paths.
pub proof fn split_bound(paths: Seq<Seq<char>>, actions: Seq<FileAction>)
    ensures
        paths_with(paths, actions, FileAction::CopyFile).len() + paths_with(
            paths,
            actions,
            FileAction::Unchanged,
        ).len() + paths_with(paths, actions, FileAction::RestoreSymlink).len() <= paths.len(),
    decreases paths.len(),
{
    if paths.len() > 0 && actions.len() == paths.len() {
        split_bound(paths.drop_last(), actions.drop_last());
    }
}

/// The workspace holds, at the path of every file of the manifest, the
/// content that the manifest records.
pub open spec fn matches_workspace(manifest: &Manifest, existing: Seq<Option<String>>) -> bool {
    forall|i: int|
        0 <= i < manifest.files.values@.len() ==> seen_at(existing, i) == Some(
            (#[trigger] manifest.files.values@[i]).hash@,
        )
}

/// Restoring is a fixed point: where the workspace holds what the manifest
/// records and nothing stale, a restore touches no file. It copies nothing,
/// links nothing, removes nothing, and leaves every file as it is.
pub proof fn law_restore_is_a_fixed_point(
    manifest: &Manifest,
    existing: Seq<Option<String>>,
    stats: &LoadStats,
)
    requires
        manifest.wf(),
        manifest.entries_well_formed(),
        matches_workspace(manifest, existing),
        stats.reports(
            manifest.files.key_texts(),
            actions_for(manifest.files.values@, existing),
            Seq::empty(),
        ),
    ensures
        forall|i: int|
            0 <= i < manifest.files.values@.len() ==> !(#[trigger] actions_for(
                manifest.files.values@,
                existing,
            )[i]).mutates(),
        stats.copies == 0,
        stats.symlinks == 0,
        stats.removed == 0,
        stats.unchanged == manifest.file_count,
        stats.files_loaded == manifest.file_count,
{
    let paths = manifest.files.key_texts();
    let actions = actions_for(manifest.files.values@, existing);
    assert forall|i: int| 0 <= i < actions.len() implies actions[i] == FileAction::Unchanged by {
        assert(manifest.files.values@[i].well_formed());
        assert(seen_at(existing, i) == Some(manifest.files.values@[i].hash@));
    }
    paths_with_all(paths, actions, FileAction::Unchanged);
    paths_with_none(paths, actions, FileAction::CopyFile);
    paths_with_none(paths, actions, FileAction::RestoreSymlink);
    assert(texts(stats.removed_files@).len() == stats.removed_files@.len());
    assert(texts(stats.copied_files@).len() == stats.copied_files@.len());
    assert(texts(stats.symlink_files@).len() == stats.symlink_files@.len());
    assert(texts(stats.unchanged_files@).len() == stats.unchanged_files@.len());
}

/// An empty manifest is restored without a mutation: with no file and no
/// directory in it, and no tracked path in the workspace, a restore has
/// nothing to remove, nothing to make and nothing to write, and reports
/// nothing.
pub proof fn law_empty_manifest_restores_nothing(
    manifest: &Manifest,
    existing: Seq<Option<String>>,
    stats: &LoadStats,
    made: Seq<usize>,
)
    requires
        manifest.wf(),
        manifest.file_count == 0,
        manifest.directories.keys@.len() == 0,
        stats.reports(
            manifest.files.key_texts(),
            actions_for(manifest.files.values@, existing),
            stale_paths(
                Seq::empty(),
                Seq::empty(),
                manifest.files.key_texts(),
                texts(manifest.ignored_patterns@),
            ),
        ),
        is_ascending(separator_counts(manifest.directories.key_texts()), made),
    ensures
        actions_for(manifest.files.values@, existing).len() == 0,
        removable(
            Seq::empty(),
            all_ancestors(manifest.files.key_texts()),
            manifest.directories.key_texts(),
        ).len() == 0,
        made.len() == 0,
        stats.files_loaded == 0,
        stats.copies == 0,
        stats.unchanged == 0,
        stats.symlinks == 0,
        stats.removed == 0,
{
    assert(untracked(
        Seq::empty(),
        manifest.files.key_texts(),
        texts(manifest.ignored_patterns@),
    ) + stale_hits(
        Seq::empty(),
        manifest.files.key_texts(),
        texts(manifest.ignored_patterns@),
    ) =~= Seq::<Seq<char>>::empty());
    let paths = manifest.files.key_texts();
    let actions = actions_for(manifest.files.values@, existing);
    paths_with_bound(paths, actions, FileAction::CopyFile);
    paths_with_bound(paths, actions, FileAction::Unchanged);
    paths_with_bound(paths, actions, FileAction::RestoreSymlink);
    assert(texts(stats.removed_files@).len() == stats.removed_files@.len());
    assert(texts(stats.copied_files@).len() == stats.copied_files@.len());
    assert(texts(stats.symlink_files@).len() == stats.symlink_files@.len());
    assert(texts(stats.unchanged_files@).len() == stats.unchanged_files@.len());
}

/// How many of the missing paths an error names.
pub const SAMPLE_LEN: usize = 5;

/// A snapshot cannot be restored: blobs of its files are not in the store.
#[derive(Debug)]
pub struct IntegrityError {
    /// How many files have no blob.
    pub missing: usize,
    /// The first of their paths, at most five.
    pub sample: Vec<String>,
}

impl IntegrityError {
    /// What went wrong, in words: how many files have no blob, and the
    /// paths of the sample.
    pub fn message(&self) -> (out: String)
        ensures
            forall|k: int|
                0 <= k < self.sample@.len() ==> has_sub(out@, #[trigger] texts(self.sample@)[k]),
    {
        let ghost names = texts(self.sample@);
        let mut buf: Vec<char> = Vec::new();
        push_str(&mut buf, "Snapshot is incomplete: ");
        push_decimal(&mut buf, self.missing as u64);
        push_str(&mut buf, " files missing from store.\nSample: [");
        let mut i: usize = 0;
        while i < self.sample.len()
            invariant
                i <= self.sample.len(),
                names == texts(self.sample@),
                forall|k: int| 0 <= k < i ==> has_sub(buf@, #[trigger] names[k]),
            decreases self.sample.len() - i,
        {
            let ghost named = names.subrange(0, i as int);
            let ghost b0 = buf@;
            if i > 0 {
                push_str(&mut buf, ", ");
            }
            buf.push('"');
            let ghost b1 = buf@;
            push_str(&mut buf, self.sample[i].as_str());
            buf.push('"');
            proof {
                let name = names[i as int];
                assert(name == self.sample@[i as int]@);
                let tail = seq!['"'];
                assert(buf@ =~= b1 + name + tail);
                sub_of_itself(name);
                sub_stays(b1, name, tail, name);
                let more = if i > 0 {
                    ", "@ + tail + name + tail
                } else {
                    tail + name + tail
                };
                assert(buf@ =~= b0 + more);
                assert forall|k: int| 0 <= k < named.len() implies has_sub(b0, #[trigger] named[k]) by {
                    assert(named[k] == names[k]);
                }
                subs_stay(b0, more, named);
                assert forall|k: int| 0 <= k < i + 1 implies has_sub(buf@, #[trigger] names[k]) by {
                    if k < i {
                        assert(named[k] == names[k]);
                    }
                }
            }
            i = i + 1;
        }
        let ghost b2 = buf@;
        buf.push(']');
        if self.missing > SAMPLE_LEN {
            push_str(&mut buf, " ...");
        }
        proof {
            let more = if self.missing > SAMPLE_LEN {
                seq![']'] + " ..."@
            } else {
                seq![']']
            };
            assert(buf@ =~= b2 + more);
            subs_stay(b2, more, names);
        }
        text_of(&buf)
    }
}

/// Whether the blob of the file at the place `i` was found in the store.
pub open spec fn present_at(present: Seq<bool>, i: int) -> bool {
    0 <= i < present.len() && present[i]
}

/// The paths whose blob was not found, in order.
pub open spec fn missing_paths(paths: Seq<Seq<char>>, present: Seq<bool>) -> Seq<Seq<char>>
    decreases paths.len(),
{
    if paths.len() == 0 {
        Seq::empty()
    } else {
        let before = missing_paths(paths.drop_last(), present);
        if present_at(present, paths.len() - 1) {
            before
        } else {
            before.push(paths.last())
        }
    }
}

/// The first `n` of a sequence, all of it where it has no more.
pub open spec fn first_of(s: Seq<Seq<char>>, n: int) -> Seq<Seq<char>> {
    if s.len() <= n {
        s
    } else {
        s.subrange(0, n)
    }
}

/// Checks that the store holds a blob for every file of the manifest.
/// `present` says of each file, in the order of the manifest's table,
/// whether its blob was found. Nothing of the workspace is touched before
/// this check has passed.
pub fn verify_snapshot(manifest: &Manifest, present: &Vec<bool>) -> (out: Result<(), IntegrityError>)
    requires
        manifest.wf(),
    ensures
        match out {
            Ok(_) => missing_paths(manifest.files.key_texts(), present@).len() == 0,
            Err(e) => {
                &&& e.missing == missing_paths(manifest.files.key_texts(), present@).len()
                &&& e.missing > 0
                &&& texts(e.sample@) == first_of(
                    missing_paths(manifest.files.key_texts(), present@),
                    SAMPLE_LEN as int,
                )
            },
        },
{
    let n: usize = manifest.files.len();
    let ghost paths = manifest.files.key_texts();
    let mut missing: usize = 0;
    let mut sample: Vec<String> = Vec::new();
    assert(texts(sample@) =~= Seq::<Seq<char>>::empty());
    let mut i: usize = 0;
    while i < n
        invariant
            i <= n,
            n == manifest.files.keys@.len(),
            paths == manifest.files.key_texts(),
            missing == missing_paths(paths.subrange(0, i as int), present@).len(),
            missing <= i,
            texts(sample@) == first_of(
                missing_paths(paths.subrange(0, i as int), present@),
                SAMPLE_LEN as int,
            ),
        decreases n - i,
    {
        assert(paths.subrange(0, i + 1).drop_last() =~= paths.subrange(0, i as int));
        assert(paths.subrange(0, i + 1).last() == manifest.files.keys@[i as int]@);
        let found = i < present.len() && present[i];
        if !found {
            if missing < SAMPLE_LEN {
                let ghost prev = texts(sample@);
                sample.push(manifest.files.key(i).clone());
                assert(texts(sample@) =~= prev.push(manifest.files.keys@[i as int]@));
            } else {
                let ghost before = missing_paths(paths.subrange(0, i as int), present@);
                assert(before.push(manifest.files.keys@[i as int]@).subrange(0, SAMPLE_LEN as int)
                    =~= before.subrange(0, SAMPLE_LEN as int));
            }
            missing = missing + 1;
        }
        i = i + 1;
    }
    assert(paths.subrange(0, n as int) =~= paths);
    if missing > 0 {
        Err(IntegrityError { missing, sample })
    } else {
        Ok(())
    }
}

/// The paths of the directories that bear one of the names, in the order
/// of the walk.
pub open spec fn named_any(dirs: Seq<WalkedDir>, names: Seq<Seq<char>>) -> Seq<Seq<char>>
    decreases dirs.len(),
{
    if dirs.len() == 0 {
        Seq::empty()
    } else {
        let before = named_any(dirs.drop_last(), names);
        if names.contains(dirs.last().name@) {
            before.push(dirs.last().path@)
        } else {
            before
        }
    }
}

/// The tracked roots of a restore: the directories that a walk of the
/// workspace met and that bear a tracked name, each path once. The walk
/// is the one that a build makes.
pub fn restore_roots(names: &Vec<String>, dirs: &Vec<WalkedDir>) -> (out: Vec<String>)
    ensures
        texts(out@) == distinct(named_any(dirs@, texts(names@))),
        names@.len() == 0 ==> out@.len() == 0,
{
    let mut seen: Table<()> = Table::new();
    assert(seen.key_texts() =~= distinct(Seq::empty()));
    let mut i: usize = 0;
    while i < dirs.len()
        invariant
            seen.wf(),
            i <= dirs.len(),
            seen.key_texts() == distinct(named_any(dirs@.subrange(0, i as int), texts(names@))),
            names@.len() == 0 ==> seen.keys@.len() == 0,
        decreases dirs.len() - i,
    {
        assert(dirs@.subrange(0, i + 1).drop_last() =~= dirs@.subrange(0, i as int));
        assert(dirs@.subrange(0, i + 1).last() == dirs@[i as int]);
        if contains_text(names, dirs[i].name.as_str()) {
            crate::select::push_new(
                &mut seen,
                &dirs[i].path,
                Ghost(named_any(dirs@.subrange(0, i as int), texts(names@))),
            );
        }
        i = i + 1;
    }
    assert(dirs@.subrange(0, dirs.len() as int) =~= dirs@);
    seen.keys
}

/// A name of a path that counts: not empty and not the one dot.
pub open spec fn counts(name: Seq<char>) -> bool {
    name.len() > 0 && name != seq!['.']
}

fn name_counts(name: &str) -> (out: bool)
    ensures
        out == counts(name@),
{
    let chars = chars_of(name);
    if chars.len() == 0 {
        false
    } else if chars.len() == 1 && chars[0] == '.' {
        assert(chars@ =~= seq!['.']);
        false
    } else {
        assert(chars@ != seq!['.']) by {
            if chars@ == seq!['.'] {
                assert(chars@.len() == 1);
                assert(chars@[0] == '.');
            }
        }
        true
    }
}

/// The path walked name by name, from `acc` on, up to the first name that
/// is `name`: none where no name is.
pub open spec fn root_from(acc: Seq<char>, names: Seq<Seq<char>>, name: Seq<char>) -> Option<Seq<char>>
    decreases names.len(),
{
    if names.len() == 0 {
        None
    } else if !counts(names[0]) {
        root_from(acc, names.drop_first(), name)
    } else {
        let upto = if acc.len() == 0 {
            names[0]
        } else {
            acc + seq!['/'] + names[0]
        };
        if names[0] == name {
            Some(upto)
        } else {
            root_from(upto, names.drop_first(), name)
        }
    }
}

/// The tracked root that a file's path shows: the path up to the first of
/// its names that is the tracked name.
pub open spec fn inferred_root(path: Seq<char>, name: Seq<char>) -> Option<Seq<char>> {
    root_from(Seq::empty(), segments(path), name)
}

/// Finds the tracked root that a file's path shows for a tracked name.
pub fn root_of_path(path: &str, name: &str) -> (out: Option<String>)
    ensures
        match out {
            Some(r) => inferred_root(path@, name@) == Some(r@),
            None => inferred_root(path@, name@) is None,
        },
{
    let names = split_path(path);
    let ghost segs = segments(path@);
    let mut acc: Vec<char> = Vec::new();
    let mut i: usize = 0;
    assert(segs.skip(0) =~= segs);
    while i < names.len()
        invariant
            i <= names.len(),
            segs == segments(path@),
            texts(names@) == segs,
            inferred_root(path@, name@) == root_from(acc@, segs.skip(i as int), name@),
        decreases names.len() - i,
    {
        let ghost rest = segs.skip(i as int);
        assert(rest[0] == names@[i as int]@);
        assert(rest.drop_first() =~= segs.skip(i + 1));
        let part = names[i].as_str();
        if name_counts(part) {
            let ghost start = acc@;
            if acc.len() > 0 {
                acc.push('/');
            }
            push_str(&mut acc, part);
            assert(acc@ =~= if start.len() == 0 {
                rest[0]
            } else {
                start + seq!['/'] + rest[0]
            });
            if *part == *name {
                return Some(text_of(&acc));
            }
        }
        i = i + 1;
    }
    assert(segs.skip(names.len() as int).len() == 0);
    None
}

/// The tracked roots that one path shows, one for each tracked name that is
/// among its names, in the order of the tracked names.
pub open spec fn inferred_for(path: Seq<char>, names: Seq<Seq<char>>) -> Seq<Seq<char>>
    decreases names.len(),
{
    if names.len() == 0 {
        Seq::empty()
    } else {
        let before = inferred_for(path, names.drop_last());
        match inferred_root(path, names.last()) {
            Some(r) => before.push(r),
            None => before,
        }
    }
}

/// The tracked roots that the paths show.
pub open spec fn inferred_all(paths: Seq<Seq<char>>, names: Seq<Seq<char>>) -> Seq<Seq<char>>
    decreases paths.len(),
{
    if paths.len() == 0 {
        Seq::empty()
    } else {
        inferred_all(paths.drop_last(), names) + inferred_for(paths.last(), names)
    }
}

/// The directories that the cleanup of stale files walks: the tracked
/// roots that were found in the workspace, and those that the paths of the
/// manifest's files show, each once.
pub fn scan_roots(manifest: &Manifest, found: &Vec<String>) -> (out: Vec<String>)
    ensures
        texts(out@) == distinct(
            texts(found@) + inferred_all(
                manifest.files.key_texts(),
                texts(manifest.tracked_directories@),
            ),
        ),
{
    let ghost paths = manifest.files.key_texts();
    let ghost names = texts(manifest.tracked_directories@);
    let ghost f = texts(found@);
    let mut seen: Table<()> = Table::new();
    assert(seen.key_texts() =~= distinct(Seq::empty()));
    let mut i: usize = 0;
    while i < found.len()
        invariant
            seen.wf(),
            i <= found.len(),
            seen.key_texts() == distinct(texts(found@).subrange(0, i as int)),
        decreases found.len() - i,
    {
        crate::select::push_new(&mut seen, &found[i], Ghost(texts(found@).subrange(0, i as int)));
        assert(texts(found@).subrange(0, i as int).push(found@[i as int]@) =~= texts(
            found@,
        ).subrange(0, i + 1));
        i = i + 1;
    }
    assert(texts(found@).subrange(0, found.len() as int) =~= texts(found@));
    assert(f + inferred_all(paths.subrange(0, 0), names) =~= f);
    let mut k: usize = 0;
    while k < manifest.files.keys.len()
        invariant
            seen.wf(),
            k <= manifest.files.keys.len(),
            paths == manifest.files.key_texts(),
            names == texts(manifest.tracked_directories@),
            f == texts(found@),
            seen.key_texts() == distinct(f + inferred_all(paths.subrange(0, k as int), names)),
        decreases manifest.files.keys.len() - k,
    {
        assert(paths.subrange(0, k + 1).drop_last() =~= paths.subrange(0, k as int));
        assert(paths.subrange(0, k + 1).last() == manifest.files.keys@[k as int]@);
        let ghost base = f + inferred_all(paths.subrange(0, k as int), names);
        let ghost path = manifest.files.keys@[k as int]@;
        assert(base + inferred_for(path, names.subrange(0, 0)) =~= base);
        let mut t: usize = 0;
        while t < manifest.tracked_directories.len()
            invariant
                seen.wf(),
                t <= manifest.tracked_directories.len(),
                k < manifest.files.keys.len(),
                names == texts(manifest.tracked_directories@),
                path == manifest.files.keys@[k as int]@,
                seen.key_texts() == distinct(base + inferred_for(path, names.subrange(0, t as int))),
            decreases manifest.tracked_directories.len() - t,
        {
            assert(names.subrange(0, t + 1).drop_last() =~= names.subrange(0, t as int));
            assert(names.subrange(0, t + 1).last() == manifest.tracked_directories@[t as int]@);
            match root_of_path(
                manifest.files.keys[k].as_str(),
                manifest.tracked_directories[t].as_str(),
            ) {
                Some(r) => {
                    let ghost sofar = base + inferred_for(path, names.subrange(0, t as int));
                    crate::select::push_new(&mut seen, &r, Ghost(sofar));
                    assert(sofar.push(r@) =~= base + inferred_for(path, names.subrange(0, t + 1)));
                },
                None => {},
            }
            t = t + 1;
        }
        assert(names.subrange(0, manifest.tracked_directories.len() as int) =~= names);
        assert(base + inferred_for(path, names) =~= f + inferred_all(
            paths.subrange(0, k + 1),
            names,
        ));
        k = k + 1;
    }
    assert(paths.subrange(0, manifest.files.keys.len() as int) =~= paths);
    seen.keys
}

/// The paths that the manifest does not hold, but for what lies in the
/// state directory and what the recorded patterns ignore, in order.
pub open spec fn untracked(paths: Seq<Seq<char>>, held: Seq<Seq<char>>, ignore: Seq<Seq<char>>) -> Seq<
    Seq<char>,
>
    decreases paths.len(),
{
    if paths.len() == 0 {
        Seq::empty()
    } else {
        let before = untracked(paths.drop_last(), held, ignore);
        if !held.contains(paths.last()) && path_taken(paths.last(), ignore) {
            before.push(paths.last())
        } else {
            before
        }
    }
}

/// A hit of a tracked pattern is stale when it is a regular file that the
/// manifest does not hold, lies outside the state directory and is not
/// ignored by the patterns that the manifest records.
pub open spec fn hit_is_stale(hit: PatternHit, held: Seq<Seq<char>>, ignore: Seq<Seq<char>>) -> bool {
    hit.is_file && !held.contains(hit.path@) && !in_state_dir(hit.path@) && !ignored(
        ignore,
        hit.path@,
    )
}

/// The paths of the hits that are stale, in order.
pub open spec fn stale_hits(hits: Seq<PatternHit>, held: Seq<Seq<char>>, ignore: Seq<Seq<char>>) -> Seq<
    Seq<char>,
>
    decreases hits.len(),
{
    if hits.len() == 0 {
        Seq::empty()
    } else {
        let before = stale_hits(hits.drop_last(), held, ignore);
        if hit_is_stale(hits.last(), held, ignore) {
            before.push(hits.last().path@)
        } else {
            before
        }
    }
}

/// The stale paths of a workspace: of the files that the walks of the scan
/// roots met, and of the hits of the tracked patterns, those that the
/// manifest does not hold, that lie outside the state directory and that
/// the recorded patterns do not ignore. Each is named once.
pub open spec fn stale_paths(
    walked: Seq<Seq<char>>,
    hits: Seq<PatternHit>,
    held: Seq<Seq<char>>,
    ignore: Seq<Seq<char>>,
) -> Seq<Seq<char>> {
    distinct(untracked(walked, held, ignore) + stale_hits(hits, held, ignore))
}

/// Decides which paths the cleanup removes.
pub fn stale_files(manifest: &Manifest, walked: &Vec<String>, hits: &Vec<PatternHit>) -> (out: Vec<
    String,
>)
    requires
        manifest.wf(),
    ensures
        texts(out@) == stale_paths(
            texts(walked@),
            hits@,
            manifest.files.key_texts(),
            texts(manifest.ignored_patterns@),
        ),
        forall|k: int|
            0 <= k < out@.len() ==> !manifest.files.has(#[trigger] texts(out@)[k]) && path_taken(
                texts(out@)[k],
                texts(manifest.ignored_patterns@),
            ),
{
    let ghost held = manifest.files.key_texts();
    let ghost ig = texts(manifest.ignored_patterns@);
    let ghost w = texts(walked@);
    let mut seen: Table<()> = Table::new();
    assert(seen.key_texts() =~= distinct(Seq::empty()));
    let mut i: usize = 0;
    while i < walked.len()
        invariant
            seen.wf(),
            i <= walked.len(),
            manifest.wf(),
            held == manifest.files.key_texts(),
            ig == texts(manifest.ignored_patterns@),
            w == texts(walked@),
            seen.key_texts() == distinct(untracked(w.subrange(0, i as int), held, ig)),
        decreases walked.len() - i,
    {
        assert(w.subrange(0, i + 1).drop_last() =~= w.subrange(0, i as int));
        assert(w.subrange(0, i + 1).last() == walked@[i as int]@);
        if !manifest.files.contains_key(walked[i].as_str()) && !is_in_state_dir(
            walked[i].as_str(),
        ) && !manifest.should_ignore(walked[i].as_str()) {
            crate::select::push_new(
                &mut seen,
                &walked[i],
                Ghost(untracked(w.subrange(0, i as int), held, ig)),
            );
        }
        i = i + 1;
    }
    assert(w.subrange(0, walked.len() as int) =~= w);
    let ghost u = untracked(w, held, ig);
    assert(u + stale_hits(hits@.subrange(0, 0), held, ig) =~= u);
    let mut j: usize = 0;
    while j < hits.len()
        invariant
            seen.wf(),
            j <= hits.len(),
            manifest.wf(),
            held == manifest.files.key_texts(),
            ig == texts(manifest.ignored_patterns@),
            seen.key_texts() == distinct(u + stale_hits(hits@.subrange(0, j as int), held, ig)),
        decreases hits.len() - j,
    {
        assert(hits@.subrange(0, j + 1).drop_last() =~= hits@.subrange(0, j as int));
        let hit = &hits[j];
        if hit.is_file && !manifest.files.contains_key(hit.path.as_str()) && !is_in_state_dir(
            hit.path.as_str(),
        ) && !manifest.should_ignore(hit.path.as_str()) {
            let ghost sofar = u + stale_hits(hits@.subrange(0, j as int), held, ig);
            crate::select::push_new(&mut seen, &hit.path, Ghost(sofar));
            assert(sofar.push(hit.path@) =~= u + stale_hits(hits@.subrange(0, j + 1), held, ig));
        }
        j = j + 1;
    }
    assert(hits@.subrange(0, hits.len() as int) =~= hits@);
    proof {
        assert forall|k: int| 0 <= k < seen.keys@.len() implies !manifest.files.has(
            #[trigger] texts(seen.keys@)[k],
        ) && path_taken(texts(seen.keys@)[k], ig) by {
            let x = texts(seen.keys@)[k];
            assert(stale_paths(w, hits@, held, ig).contains(x));
            law_state_directory_is_never_cleaned(w, hits@, held, ig, x);
        }
    }
    seen.keys
}

/// What the untracked paths are: those of the paths that are not held,
/// lie outside the state directory and are not ignored.
pub proof fn untracked_are_not_held(paths: Seq<Seq<char>>, held: Seq<Seq<char>>, ignore: Seq<Seq<char>>)
    ensures
        forall|x: Seq<char>|
            #[trigger] untracked(paths, held, ignore).contains(x) ==> !held.contains(x)
                && paths.contains(x) && path_taken(x, ignore),
    decreases paths.len(),
{
    if paths.len() > 0 {
        untracked_are_not_held(paths.drop_last(), held, ignore);
        let before = untracked(paths.drop_last(), held, ignore);
        let all = untracked(paths, held, ignore);
        assert forall|x: Seq<char>| all.contains(x) implies !held.contains(x) && paths.contains(x)
            && path_taken(x, ignore) by {
            let k = choose|k: int| 0 <= k < all.len() && all[k] == x;
            if k < before.len() {
                assert(before[k] == x);
                assert(before.contains(x));
                assert(paths.drop_last().contains(x));
                let i = choose|i: int| 0 <= i < paths.drop_last().len() && paths.drop_last()[i] == x;
                assert(paths[i] == x);
            } else {
                assert(paths[paths.len() - 1] == x);
            }
        }
    }
}

/// What the stale hits are: paths of hits that are not held, lie outside
/// the state directory and are not ignored.
pub proof fn stale_hits_are_not_held(hits: Seq<PatternHit>, held: Seq<Seq<char>>, ignore: Seq<Seq<char>>)
    ensures
        forall|x: Seq<char>|
            #[trigger] stale_hits(hits, held, ignore).contains(x) ==> !held.contains(x)
                && path_taken(x, ignore),
    decreases hits.len(),
{
    if hits.len() > 0 {
        stale_hits_are_not_held(hits.drop_last(), held, ignore);
        let before = stale_hits(hits.drop_last(), held, ignore);
        let all = stale_hits(hits, held, ignore);
        assert forall|x: Seq<char>| all.contains(x) implies !held.contains(x) && path_taken(
            x,
            ignore,
        ) by {
            let k = choose|k: int| 0 <= k < all.len() && all[k] == x;
            if k < before.len() {
                assert(before[k] == x);
                assert(before.contains(x));
            }
        }
    }
}

/// The state directory is never cleaned: no stale path lies in the state
/// directory of the repository, is ignored by the recorded patterns or is
/// a file of the manifest, whatever the walks and the searches found.
pub proof fn law_state_directory_is_never_cleaned(
    walked: Seq<Seq<char>>,
    hits: Seq<PatternHit>,
    held: Seq<Seq<char>>,
    ignore: Seq<Seq<char>>,
    path: Seq<char>,
)
    requires
        stale_paths(walked, hits, held, ignore).contains(path),
    ensures
        !in_state_dir(path),
        !ignored(ignore, path),
        !held.contains(path),
{
    let all = untracked(walked, held, ignore) + stale_hits(hits, held, ignore);
    distinct_holds_each_once(all);
    untracked_are_not_held(walked, held, ignore);
    stale_hits_are_not_held(hits, held, ignore);
    assert(all.contains(path));
    let k = choose|k: int| 0 <= k < all.len() && all[k] == path;
    if k < untracked(walked, held, ignore).len() {
        assert(untracked(walked, held, ignore)[k] == path);
        assert(untracked(walked, held, ignore).contains(path));
        assert(path_taken(path, ignore));
    } else {
        assert(stale_hits(hits, held, ignore)[k - untracked(walked, held, ignore).len()] == path);
        assert(stale_hits(hits, held, ignore).contains(path));
        assert(path_taken(path, ignore));
    }
}

/// The cleanup never removes a file of the manifest.
pub proof fn law_no_tracked_file_is_stale(
    walked: Seq<Seq<char>>,
    hits: Seq<PatternHit>,
    held: Seq<Seq<char>>,
    ignore: Seq<Seq<char>>,
    path: Seq<char>,
)
    requires
        held.contains(path),
    ensures
        !stale_paths(walked, hits, held, ignore).contains(path),
{
    let all = untracked(walked, held, ignore) + stale_hits(hits, held, ignore);
    distinct_holds_each_once(all);
    untracked_are_not_held(walked, held, ignore);
    stale_hits_are_not_held(hits, held, ignore);
    if all.contains(path) {
        let k = choose|k: int| 0 <= k < all.len() && all[k] == path;
        if k < untracked(walked, held, ignore).len() {
            assert(untracked(walked, held, ignore)[k] == path);
            assert(untracked(walked, held, ignore).contains(path));
        } else {
            assert(stale_hits(hits, held, ignore)[k - untracked(walked, held, ignore).len()] == path);
            assert(stale_hits(hits, held, ignore).contains(path));
        }
    }
}

/// Where every file that the walks met and every hit of a pattern is a file
/// of the manifest, nothing is stale.
pub proof fn law_nothing_stale_in_a_built_workspace(
    walked: Seq<Seq<char>>,
    hits: Seq<PatternHit>,
    held: Seq<Seq<char>>,
    ignore: Seq<Seq<char>>,
)
    requires
        forall|i: int| 0 <= i < walked.len() ==> held.contains(#[trigger] walked[i]),
        forall|i: int| 0 <= i < hits.len() ==> held.contains((#[trigger] hits[i]).path@),
    ensures
        stale_paths(walked, hits, held, ignore).len() == 0,
{
    let all = untracked(walked, held, ignore) + stale_hits(hits, held, ignore);
    distinct_holds_each_once(all);
    untracked_are_not_held(walked, held, ignore);
    stale_hits_are_not_held(hits, held, ignore);
    if all.len() > 0 {
        let x = all[0];
        assert(all.contains(x));
        if 0 < untracked(walked, held, ignore).len() {
            assert(untracked(walked, held, ignore)[0] == x);
            assert(untracked(walked, held, ignore).contains(x));
        } else {
            assert(stale_hits(hits, held, ignore)[0] == x);
            assert(stale_hits(hits, held, ignore).contains(x));
        }
        assert(!held.contains(x));
        if untracked(walked, held, ignore).contains(x) {
            let i = choose|i: int| 0 <= i < walked.len() && walked[i] == x;
            assert(held.contains(walked[i]));
        } else {
            stale_hits_come_from_hits(hits, held, ignore, x);
        }
    }
}

proof fn stale_hits_come_from_hits(
    hits: Seq<PatternHit>,
    held: Seq<Seq<char>>,
    ignore: Seq<Seq<char>>,
    x: Seq<char>,
)
    requires
        stale_hits(hits, held, ignore).contains(x),
    ensures
        exists|i: int| 0 <= i < hits.len() && (#[trigger] hits[i]).path@ == x,
    decreases hits.len(),
{
    let all = stale_hits(hits, held, ignore);
    let k = choose|k: int| 0 <= k < all.len() && all[k] == x;
    if hits.len() > 0 {
        let before = stale_hits(hits.drop_last(), held, ignore);
        if k < before.len() {
            assert(before[k] == x);
            assert(before.contains(x));
            stale_hits_come_from_hits(hits.drop_last(), held, ignore, x);
            let i = choose|i: int| 0 <= i < hits.drop_last().len() && (#[trigger] hits.drop_last()[i]).path@ == x;
            assert(hits[i].path@ == x);
        } else {
            assert(hits[hits.len() - 1].path@ == x);
        }
    }
}

/// The directories above the paths, for each path those of `ancestors`.
pub open spec fn all_ancestors(paths: Seq<Seq<char>>) -> Seq<Seq<char>>
    decreases paths.len(),
{
    if paths.len() == 0 {
        Seq::empty()
    } else {
        all_ancestors(paths.drop_last()) + ancestors(paths.last())
    }
}

/// The directories that the files of the manifest need: every directory
/// above one of them, below the root of the repository. Each is named once.
pub fn required_dirs(manifest: &Manifest) -> (out: Vec<String>)
    ensures
        texts(out@) == distinct(all_ancestors(manifest.files.key_texts())),
        forall|x: Seq<char>|
            texts(out@).contains(x) <==> all_ancestors(manifest.files.key_texts()).contains(x),
{
    let ghost paths = manifest.files.key_texts();
    let mut seen: Table<()> = Table::new();
    assert(seen.key_texts() =~= distinct(Seq::empty()));
    let mut k: usize = 0;
    while k < manifest.files.keys.len()
        invariant
            seen.wf(),
            k <= manifest.files.keys.len(),
            paths == manifest.files.key_texts(),
            seen.key_texts() == distinct(all_ancestors(paths.subrange(0, k as int))),
        decreases manifest.files.keys.len() - k,
    {
        assert(paths.subrange(0, k + 1).drop_last() =~= paths.subrange(0, k as int));
        assert(paths.subrange(0, k + 1).last() == manifest.files.keys@[k as int]@);
        let above = ancestors_of(manifest.files.keys[k].as_str());
        let ghost base = all_ancestors(paths.subrange(0, k as int));
        assert(base + texts(above@).subrange(0, 0) =~= base);
        let mut a: usize = 0;
        while a < above.len()
            invariant
                seen.wf(),
                a <= above.len(),
                seen.key_texts() == distinct(base + texts(above@).subrange(0, a as int)),
            decreases above.len() - a,
        {
            let ghost sofar = base + texts(above@).subrange(0, a as int);
            crate::select::push_new(&mut seen, &above[a], Ghost(sofar));
            assert(sofar.push(above@[a as int]@) =~= base + texts(above@).subrange(0, a + 1));
            a = a + 1;
        }
        assert(texts(above@).subrange(0, above.len() as int) =~= texts(above@));
        k = k + 1;
    }
    assert(paths.subrange(0, manifest.files.keys.len() as int) =~= paths);
    proof {
        distinct_holds_each_once(all_ancestors(paths));
    }
    seen.keys
}

/// An empty directory may be removed unless it lies in the state
/// directory, a file of the manifest needs it, or the manifest records it.
pub open spec fn may_remove_dir(dir: Seq<char>, needed: Seq<Seq<char>>, recorded: Seq<Seq<char>>) -> bool {
    !in_state_dir(dir) && !needed.contains(dir) && !recorded.contains(dir)
}

/// The directories that may be removed, in order.
pub open spec fn removable(dirs: Seq<Seq<char>>, needed: Seq<Seq<char>>, recorded: Seq<Seq<char>>) -> Seq<
    Seq<char>,
>
    decreases dirs.len(),
{
    if dirs.len() == 0 {
        Seq::empty()
    } else {
        let before = removable(dirs.drop_last(), needed, recorded);
        if may_remove_dir(dirs.last(), needed, recorded) {
            before.push(dirs.last())
        } else {
            before
        }
    }
}

/// What may be removed is none of the directories that the files of the
/// manifest need, none that the manifest records, and nothing of the state
/// directory: a restore that follows a build leaves the directories of the
/// snapshot where they are, the empty ones too.
pub proof fn law_directories_of_the_snapshot_stay(
    dirs: Seq<Seq<char>>,
    needed: Seq<Seq<char>>,
    recorded: Seq<Seq<char>>,
    dir: Seq<char>,
)
    requires
        needed.contains(dir) || recorded.contains(dir) || in_state_dir(dir),
    ensures
        !removable(dirs, needed, recorded).contains(dir),
    decreases dirs.len(),
{
    if dirs.len() > 0 {
        law_directories_of_the_snapshot_stay(dirs.drop_last(), needed, recorded, dir);
        let before = removable(dirs.drop_last(), needed, recorded);
        let all = removable(dirs, needed, recorded);
        if all.contains(dir) {
            let k = choose|k: int| 0 <= k < all.len() && all[k] == dir;
            if k < before.len() {
                assert(before[k] == dir);
                assert(before.contains(dir));
            }
        }
    }
}

/// How many of the names count.
pub open spec fn count_names(names: Seq<Seq<char>>) -> nat
    decreases names.len(),
{
    if names.len() == 0 {
        0
    } else {
        count_names(names.drop_last()) + if counts(names.last()) {
            1nat
        } else {
            0nat
        }
    }
}

/// How deep a path lies: the number of its names.
pub open spec fn depth(path: Seq<char>) -> nat {
    count_names(segments(path))
}


/// Counts the names of a path.
pub fn depth_of(path: &str) -> (out: usize)
    ensures
        out == depth(path@),
{
    let names = split_path(path);
    let mut n: usize = 0;
    let mut i: usize = 0;
    while i < names.len()
        invariant
            i <= names.len(),
            n <= i,
            n == count_names(texts(names@).subrange(0, i as int)),
        decreases names.len() - i,
    {
        assert(texts(names@).subrange(0, i + 1).drop_last() =~= texts(names@).subrange(0, i as int));
        assert(texts(names@).subrange(0, i + 1).last() == names@[i as int]@);
        if name_counts(names[i].as_str()) {
            n = n + 1;
        }
        i = i + 1;
    }
    assert(texts(names@).subrange(0, names.len() as int) =~= texts(names@));
    n
}

/// The depths of the paths, as keys of an order.
pub open spec fn depths(paths: Seq<Seq<char>>) -> Seq<u128> {
    Seq::new(paths.len(), |i: int| depth(paths[i]) as u128)
}

/// The directories that the cleanup of empty directories looks at.
#[derive(Debug)]
pub struct DirCleanup {
    /// The directories that may be removed where they are empty, in the
    /// order of the walk.
    pub dirs: Vec<String>,
    /// The order in which they are tried: their places in `dirs`, deepest
    /// first.
    pub order: Vec<usize>,
}

/// Decides which of the directories that the walks of the tracked roots
/// met may be removed where they are empty, and in which order they are
/// tried: the deepest first, so that a directory is tried after all that
/// lie in it.
pub fn empty_dir_candidates(manifest: &Manifest, walked: &Vec<String>) -> (out: DirCleanup)
    requires
        manifest.wf(),
    ensures
        texts(out.dirs@) == removable(
            texts(walked@),
            all_ancestors(manifest.files.key_texts()),
            manifest.directories.key_texts(),
        ),
        is_descending(depths(texts(out.dirs@)), out.order@),
{
    let needed = text_set(&required_dirs(manifest));
    let ghost need = all_ancestors(manifest.files.key_texts());
    let ghost recorded = manifest.directories.key_texts();
    let ghost w = texts(walked@);
    let mut dirs: Vec<String> = Vec::new();
    let mut keys: Vec<u128> = Vec::new();
    assert(texts(dirs@) =~= Seq::<Seq<char>>::empty());
    let mut i: usize = 0;
    while i < walked.len()
        invariant
            i <= walked.len(),
            manifest.wf(),
            w == texts(walked@),
            need == all_ancestors(manifest.files.key_texts()),
            recorded == manifest.directories.key_texts(),
            needed.wf(),
            forall|x: Seq<char>| needed.has(x) <==> need.contains(x),
            texts(dirs@) == removable(w.subrange(0, i as int), need, recorded),
            keys@ == depths(texts(dirs@)),
        decreases walked.len() - i,
    {
        assert(w.subrange(0, i + 1).drop_last() =~= w.subrange(0, i as int));
        assert(w.subrange(0, i + 1).last() == walked@[i as int]@);
        let dir = walked[i].as_str();
        if !is_in_state_dir(dir) && !needed.contains_key(dir) && !manifest.directories.contains_key(
            dir,
        ) {
            let d: usize = depth_of(dir);
            let ghost prev = texts(dirs@);
            dirs.push(walked[i].clone());
            keys.push(d as u128);
            assert(texts(dirs@) =~= prev.push(walked@[i as int]@));
            assert(keys@ =~= depths(texts(dirs@)));
        }
        i = i + 1;
    }
    assert(w.subrange(0, walked.len() as int) =~= w);
    let order = descending(&keys);
    DirCleanup { dirs, order }
}

/// The numbers of separators in the paths, as keys of an order.
pub open spec fn separator_counts(paths: Seq<Seq<char>>) -> Seq<u128> {
    Seq::new(paths.len(), |i: int| count_of(paths[i], '/') as u128)
}

/// The order in which the directories of the manifest are made: their
/// places in the manifest's table, those with the fewest separators first,
/// so that a directory is made before those that lie in it.
pub fn directory_order(manifest: &Manifest) -> (out: Vec<usize>)
    ensures
        is_ascending(separator_counts(manifest.directories.key_texts()), out@),
{
    let ghost paths = manifest.directories.key_texts();
    let mut keys: Vec<u128> = Vec::new();
    let mut i: usize = 0;
    while i < manifest.directories.keys.len()
        invariant
            i <= manifest.directories.keys.len(),
            paths == manifest.directories.key_texts(),
            keys@ == separator_counts(paths.subrange(0, i as int)),
        decreases manifest.directories.keys.len() - i,
    {
        let chars = chars_of(manifest.directories.keys[i].as_str());
        let n: usize = count_char(&chars, '/');
        keys.push(n as u128);
        i = i + 1;
        assert(keys@ =~= separator_counts(paths.subrange(0, i as int)));
    }
    assert(paths.subrange(0, manifest.directories.keys.len() as int) =~= paths);
    ascending(&keys)
}

} // verus!
