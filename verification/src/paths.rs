//! Paths as text with `/` between the names, and the places of the
//! repository's persisted state.

use vstd::prelude::*;
use crate::text::{chars_of, text_of, push_all, texts};

verus! {

/// Name of the directory that holds the repository's state.
pub const KIBO_DIR: &'static str = ".kibo";

/// Name of the blob store below the state directory.
pub const STORE_DIR: &'static str = "store";

/// Name of the manifests' directory below the state directory.
pub const MANIFESTS_DIR: &'static str = "manifests";

/// Name of the persisted hash cache below the state directory.
pub const HASH_CACHE_FILE: &'static str = "hash_cache.json";

/// Name of the history log below the state directory.
pub const HISTORY_LOG_FILE: &'static str = "history.log";

/// Name of the configuration file at the repository's root.
pub const CONFIG_FILENAME: &'static str = ".kibo.toml";

/// Name of the directory of database dumps below the state directory.
pub const DB_SNAPSHOTS_DIR: &'static str = "db_snapshots";

/// `rel` below `base`: an absolute `rel` stands alone, and a separator is
/// put between the two unless `base` is empty or ends in one.
pub open spec fn join_path(base: Seq<char>, rel: Seq<char>) -> Seq<char> {
    if rel.len() > 0 && rel[0] == '/' {
        rel
    } else if base.len() == 0 || base.last() == '/' {
        base + rel
    } else {
        base + seq!['/'] + rel
    }
}

fn join_chars(base: &Vec<char>, rel: &Vec<char>) -> (out: Vec<char>)
    ensures
        out@ == join_path(base@, rel@),
{
    let mut out: Vec<char> = Vec::new();
    if rel.len() > 0 && rel[0] == '/' {
        push_all(&mut out, rel);
        assert(out@ =~= rel@);
    } else if base.len() == 0 || base[base.len() - 1] == '/' {
        push_all(&mut out, base);
        push_all(&mut out, rel);
        assert(out@ =~= base@ + rel@);
    } else {
        push_all(&mut out, base);
        out.push('/');
        push_all(&mut out, rel);
        assert(out@ =~= base@ + seq!['/'] + rel@);
    }
    out
}

/// Joins two paths as `join_path` says.
pub fn join(base: &str, rel: &str) -> (out: String)
    ensures
        out@ == join_path(base@, rel@),
{
    let b = chars_of(base);
    let r = chars_of(rel);
    let joined = join_chars(&b, &r);
    text_of(&joined)
}

/// The state directory below a root.
pub open spec fn kibo_dir(root: Seq<char>) -> Seq<char> {
    join_path(root, KIBO_DIR@)
}

/// The blob store below a root.
pub open spec fn store_dir(root: Seq<char>) -> Seq<char> {
    join_path(kibo_dir(root), STORE_DIR@)
}

/// The manifests' directory below a root.
pub open spec fn manifests_dir(root: Seq<char>) -> Seq<char> {
    join_path(kibo_dir(root), MANIFESTS_DIR@)
}

/// The persisted hash cache below a root.
pub open spec fn hash_cache_path(root: Seq<char>) -> Seq<char> {
    join_path(kibo_dir(root), HASH_CACHE_FILE@)
}

/// The history log below a root.
pub open spec fn history_log_path(root: Seq<char>) -> Seq<char> {
    join_path(kibo_dir(root), HISTORY_LOG_FILE@)
}

/// The directory of database dumps below a root.
pub open spec fn db_snapshots_dir(root: Seq<char>) -> Seq<char> {
    join_path(kibo_dir(root), DB_SNAPSHOTS_DIR@)
}

/// The state directory of the repository at `root`.
pub fn get_kibo_dir(root: &str) -> (out: String)
    ensures
        out@ == kibo_dir(root@),
{
    join(root, KIBO_DIR)
}

/// The blob store of the repository at `root`.
pub fn get_store_dir(root: &str) -> (out: String)
    ensures
        out@ == store_dir(root@),
{
    let k = get_kibo_dir(root);
    join(k.as_str(), STORE_DIR)
}

/// The manifests' directory of the repository at `root`.
pub fn get_manifests_dir(root: &str) -> (out: String)
    ensures
        out@ == manifests_dir(root@),
{
    let k = get_kibo_dir(root);
    join(k.as_str(), MANIFESTS_DIR)
}

/// The persisted hash cache of the repository at `root`.
pub fn get_hash_cache_path(root: &str) -> (out: String)
    ensures
        out@ == hash_cache_path(root@),
{
    let k = get_kibo_dir(root);
    join(k.as_str(), HASH_CACHE_FILE)
}

/// The history log of the repository at `root`.
pub fn get_history_log_path(root: &str) -> (out: String)
    ensures
        out@ == history_log_path(root@),
{
    let k = get_kibo_dir(root);
    join(k.as_str(), HISTORY_LOG_FILE)
}

/// The directory of database dumps of the repository at `root`.
pub fn get_db_snapshots_dir(root: &str) -> (out: String)
    ensures
        out@ == db_snapshots_dir(root@),
{
    let k = get_kibo_dir(root);
    join(k.as_str(), DB_SNAPSHOTS_DIR)
}

/// The state of a left-to-right scan for the names of a path: those that a
/// separator has ended, and the characters of the one that none has.
pub open spec fn scan_segments(s: Seq<char>) -> (Seq<Seq<char>>, Seq<char>)
    decreases s.len(),
{
    if s.len() == 0 {
        (Seq::empty(), Seq::empty())
    } else {
        let (done, name) = scan_segments(s.drop_last());
        if s.last() == '/' {
            (done.push(name), Seq::empty())
        } else {
            (done, name.push(s.last()))
        }
    }
}

/// What stands between the separators of a path, empty names included.
pub open spec fn segments(s: Seq<char>) -> Seq<Seq<char>> {
    let (done, name) = scan_segments(s);
    done.push(name)
}

/// No name of a path holds a separator.
pub proof fn law_names_hold_no_separator(s: Seq<char>)
    ensures
        !scan_segments(s).1.contains('/'),
        forall|k: int| 0 <= k < scan_segments(s).0.len() ==> !(#[trigger] scan_segments(s).0[k]).contains('/'),
        forall|k: int| 0 <= k < segments(s).len() ==> !(#[trigger] segments(s)[k]).contains('/'),
    decreases s.len(),
{
    if s.len() > 0 {
        law_names_hold_no_separator(s.drop_last());
        let (done, name) = scan_segments(s.drop_last());
        let (now_done, now_name) = scan_segments(s);
        assert forall|k: int| 0 <= k < now_done.len() implies !(#[trigger] now_done[k]).contains('/') by {
            if k < done.len() {
                assert(now_done[k] == done[k]);
            }
        }
        if s.last() != '/' {
            assert forall|i: int| 0 <= i < now_name.len() implies now_name[i] != '/' by {
                if i < name.len() {
                    assert(name.contains(name[i]));
                }
            }
        }
    }
    let (done, name) = scan_segments(s);
    assert forall|k: int| 0 <= k < segments(s).len() implies !(#[trigger] segments(s)[k]).contains('/') by {
        if k < done.len() {
            assert(segments(s)[k] == done[k]);
        }
    }
}

/// Splits a path at its separators.
pub fn split_path(path: &str) -> (out: Vec<String>)
    ensures
        texts(out@) == segments(path@),
{
    let chars = chars_of(path);
    let mut out: Vec<String> = Vec::new();
    let mut name: Vec<char> = Vec::new();
    let mut i: usize = 0;
    while i < chars.len()
        invariant
            i <= chars.len(),
            chars@ == path@,
            (texts(out@), name@) == scan_segments(path@.subrange(0, i as int)),
        decreases chars.len() - i,
    {
        assert(path@.subrange(0, i + 1).drop_last() =~= path@.subrange(0, i as int));
        let c = chars[i];
        if c == '/' {
            let ghost before = texts(out@);
            let n = text_of(&name);
            out.push(n);
            assert(texts(out@) =~= before.push(name@));
            name = Vec::new();
        } else {
            name.push(c);
        }
        i = i + 1;
    }
    assert(path@.subrange(0, chars.len() as int) =~= path@);
    let ghost before = texts(out@);
    let n = text_of(&name);
    out.push(n);
    assert(texts(out@) =~= before.push(name@));
    out
}

/// A name that can stand for a file or directory: not empty, and neither
/// the current nor the parent directory.
pub open spec fn is_plain_name(name: Seq<char>) -> bool {
    &&& name.len() > 0
    &&& name != seq!['.']
    &&& name != seq!['.', '.']
}

/// Whether a name is a plain one.
pub fn plain_name(name: &Vec<char>) -> (yes: bool)
    ensures
        yes == is_plain_name(name@),
{
    if name.len() == 0 {
        false
    } else if name.len() == 1 && name[0] == '.' {
        assert(name@ =~= seq!['.']);
        false
    } else if name.len() == 2 && name[0] == '.' && name[1] == '.' {
        assert(name@ =~= seq!['.', '.']);
        false
    } else {
        assert(name@ != seq!['.']) by {
            if name@ == seq!['.'] {
                assert(name@.len() == 1);
                assert(name@[0] == '.');
            }
        }
        assert(name@ != seq!['.', '.']) by {
            if name@ == seq!['.', '.'] {
                assert(name@.len() == 2);
                assert(name@[0] == '.');
                assert(name@[1] == '.');
            }
        }
        true
    }
}

/// One of the names of `path` is `name`, a plain one.
pub open spec fn has_component(path: Seq<char>, name: Seq<char>) -> bool {
    is_plain_name(name) && segments(path).contains(name)
}

/// The directories above `path`, outermost first: each part of it that ends
/// before a separator, but for the empty one.
pub open spec fn ancestors(path: Seq<char>) -> Seq<Seq<char>>
    decreases path.len(),
{
    if path.len() == 0 {
        Seq::empty()
    } else {
        let above = ancestors(path.drop_last());
        if path.last() == '/' && path.len() > 1 {
            above.push(path.drop_last())
        } else {
            above
        }
    }
}

/// Lists the directories above a path, outermost first.
pub fn ancestors_of(path: &str) -> (out: Vec<String>)
    ensures
        texts(out@) == ancestors(path@),
{
    let chars = chars_of(path);
    let mut out: Vec<String> = Vec::new();
    let mut upto: Vec<char> = Vec::new();
    let mut i: usize = 0;
    while i < chars.len()
        invariant
            i <= chars.len(),
            chars@ == path@,
            upto@ == path@.subrange(0, i as int),
            texts(out@) == ancestors(path@.subrange(0, i as int)),
        decreases chars.len() - i,
    {
        assert(path@.subrange(0, i + 1).drop_last() =~= path@.subrange(0, i as int));
        let c = chars[i];
        if c == '/' && i > 0 {
            let ghost before = texts(out@);
            let dir = text_of(&upto);
            out.push(dir);
            assert(texts(out@) =~= before.push(upto@));
        }
        upto.push(c);
        i = i + 1;
        assert(upto@ =~= path@.subrange(0, i as int));
    }
    assert(path@.subrange(0, chars.len() as int) =~= path@);
    out
}

/// The name of a staging file: a fixed beginning, the number of the
/// process and a number that differs from one moment to the next.
pub open spec fn staging_name(process: u32, moment: u64) -> Seq<char> {
    ".kibo_tmp_"@ + crate::text::decimal(process as nat) + seq!['_'] + crate::text::decimal(
        moment as nat,
    )
}

/// The name of the file in which a write is staged before it is renamed
/// into place.
pub fn temp_name(process: u32, moment: u64) -> (out: String)
    ensures
        out@ == staging_name(process, moment),
{
    let mut buf: Vec<char> = chars_of(".kibo_tmp_");
    crate::text::push_decimal(&mut buf, process as u64);
    buf.push('_');
    crate::text::push_decimal(&mut buf, moment);
    assert(buf@ =~= staging_name(process, moment));
    text_of(&buf)
}

} // verus!
