//! Which paths of a workspace a policy selects: the directories that bear a
//! tracked name, the files that match a tracked pattern, each path once.

use vstd::prelude::*;
use crate::ignore::{ignored, should_ignore};
use crate::paths::{segments, split_path, KIBO_DIR};
use crate::table::Table;
use crate::text::{chars_of, contains_sub, has_prefix, has_sub, push_all, push_str,
    text_of, texts};

verus! {

/// A directory that a walk of the workspace met.
#[derive(Debug)]
pub struct WalkedDir {
    /// Its last name.
    pub name: String,
    /// Its path below the root of the repository.
    pub path: String,
}

/// A walk that looks for tracked directories goes into an entry unless it
/// is named like the state directory or the policy ignores its path.
pub open spec fn scan_enters(name: Seq<char>, path: Seq<char>, ignore: Seq<Seq<char>>) -> bool {
    name != KIBO_DIR@ && !ignored(ignore, path)
}

/// Whether a walk of the workspace goes into the entry with this last name
/// and this path below the root. The state directory is never entered, at
/// whatever depth an entry of its name lies.
pub fn enters_scan(name: &str, relative_path: &str, ignore: &Vec<String>) -> (out: bool)
    ensures
        out == scan_enters(name@, relative_path@, texts(ignore@)),
        name@ == KIBO_DIR@ ==> !out,
{
    if *name == *KIBO_DIR {
        return false;
    }
    !should_ignore(ignore, relative_path)
}

/// The paths of the directories that bear the name, in the order of the
/// walk.
pub open spec fn roots_named(dirs: Seq<WalkedDir>, name: Seq<char>) -> Seq<Seq<char>>
    decreases dirs.len(),
{
    if dirs.len() == 0 {
        Seq::empty()
    } else {
        let before = roots_named(dirs.drop_last(), name);
        if dirs.last().name@ == name {
            before.push(dirs.last().path@)
        } else {
            before
        }
    }
}

/// The tracked roots: for each tracked name in turn, the directories that
/// bear it.
pub open spec fn roots_of(names: Seq<Seq<char>>, dirs: Seq<WalkedDir>) -> Seq<Seq<char>>
    decreases names.len(),
{
    if names.len() == 0 {
        Seq::empty()
    } else {
        roots_of(names.drop_last(), dirs) + roots_named(dirs, names.last())
    }
}

/// A tracked name that no directory bears selects nothing.
pub proof fn law_unmatched_name_selects_nothing(dirs: Seq<WalkedDir>, name: Seq<char>)
    requires
        forall|i: int| 0 <= i < dirs.len() ==> (#[trigger] dirs[i]).name@ != name,
    ensures
        roots_named(dirs, name).len() == 0,
    decreases dirs.len(),
{
    if dirs.len() > 0 {
        assert forall|i: int| 0 <= i < dirs.drop_last().len() implies (#[trigger] dirs.drop_last()[i]).name@
            != name by {
            assert(dirs.drop_last()[i] == dirs[i]);
        }
        law_unmatched_name_selects_nothing(dirs.drop_last(), name);
        assert(dirs.last() == dirs[dirs.len() - 1]);
    }
}

/// Finds the tracked roots among the directories that a walk met. A
/// directory counts by its last name, wherever it lies.
pub fn tracked_roots(names: &Vec<String>, dirs: &Vec<WalkedDir>) -> (out: Vec<String>)
    ensures
        texts(out@) == roots_of(texts(names@), dirs@),
{
    let mut out: Vec<String> = Vec::new();
    assert(texts(out@) =~= Seq::<Seq<char>>::empty());
    let mut t: usize = 0;
    while t < names.len()
        invariant
            t <= names.len(),
            texts(out@) == roots_of(texts(names@).subrange(0, t as int), dirs@),
        decreases names.len() - t,
    {
        let ghost upto = texts(names@).subrange(0, t + 1);
        assert(upto.drop_last() =~= texts(names@).subrange(0, t as int));
        assert(upto.last() == names@[t as int]@);
        let ghost base = texts(out@);
        let mut d: usize = 0;
        while d < dirs.len()
            invariant
                d <= dirs.len(),
                t < names.len(),
                texts(out@) == base + roots_named(dirs@.subrange(0, d as int), names@[t as int]@),
            decreases dirs.len() - d,
        {
            assert(dirs@.subrange(0, d + 1).drop_last() =~= dirs@.subrange(0, d as int));
            assert(dirs@.subrange(0, d + 1).last() == dirs@[d as int]);
            if *dirs[d].name.as_str() == *names[t].as_str() {
                let ghost prev = texts(out@);
                out.push(dirs[d].path.clone());
                assert(texts(out@) =~= prev.push(dirs@[d as int].path@));
                assert(texts(out@) =~= base + roots_named(
                    dirs@.subrange(0, d + 1),
                    names@[t as int]@,
                ));
            }
            d = d + 1;
        }
        assert(dirs@.subrange(0, dirs.len() as int) =~= dirs@);
        t = t + 1;
    }
    assert(texts(names@).subrange(0, names.len() as int) =~= texts(names@));
    out
}

/// The pattern that is handed to the search for a tracked pattern, below
/// the root. A pattern that opens with `./` is looked for below the root
/// itself and nowhere deeper; one that holds `**` is taken as it is; any
/// other is looked for at every depth.
pub open spec fn search_pattern(root: Seq<char>, pattern: Seq<char>) -> Seq<char> {
    if seq!['.', '/'].is_prefix_of(pattern) {
        root + seq!['/'] + pattern.subrange(2, pattern.len() as int)
    } else if has_sub(pattern, seq!['*', '*']) {
        if pattern.len() > 0 && pattern[0] == '/' {
            root + pattern
        } else {
            root + seq!['/'] + pattern
        }
    } else {
        if pattern.len() > 0 && pattern[0] == '/' {
            root + seq!['/', '*', '*'] + pattern
        } else {
            root + seq!['/', '*', '*', '/'] + pattern
        }
    }
}

/// Makes the pattern that is searched for a tracked pattern below `root`.
pub fn full_pattern(root: &str, pattern: &str) -> (out: String)
    ensures
        out@ == search_pattern(root@, pattern@),
{
    let p = chars_of(pattern);
    let mut anchor: Vec<char> = Vec::new();
    anchor.push('.');
    anchor.push('/');
    assert(anchor@ =~= seq!['.', '/']);
    let mut stars: Vec<char> = Vec::new();
    stars.push('*');
    stars.push('*');
    assert(stars@ =~= seq!['*', '*']);
    let mut buf: Vec<char> = chars_of(root);
    if has_prefix(&p, &anchor) {
        buf.push('/');
        let mut i: usize = 2;
        while i < p.len()
            invariant
                2 <= i <= p.len(),
                buf@ == root@ + seq!['/'] + p@.subrange(2, i as int),
            decreases p.len() - i,
        {
            buf.push(p[i]);
            i = i + 1;
            assert(buf@ =~= root@ + seq!['/'] + p@.subrange(2, i as int));
        }
    } else if contains_sub(&p, &stars) {
        if p.len() > 0 && p[0] == '/' {
            push_all(&mut buf, &p);
        } else {
            buf.push('/');
            push_all(&mut buf, &p);
            assert(buf@ =~= root@ + seq!['/'] + p@);
        }
    } else {
        if p.len() > 0 && p[0] == '/' {
            push_str(&mut buf, "/**");
            assert("/**"@ =~= seq!['/', '*', '*']) by {
                reveal_strlit("/**");
            }
            push_all(&mut buf, &p);
        } else {
            push_str(&mut buf, "/**/");
            assert("/**/"@ =~= seq!['/', '*', '*', '/']) by {
                reveal_strlit("/**/");
            }
            push_all(&mut buf, &p);
        }
    }
    text_of(&buf)
}

/// Each text once, where it stood first.
pub open spec fn distinct(s: Seq<Seq<char>>) -> Seq<Seq<char>>
    decreases s.len(),
{
    if s.len() == 0 {
        Seq::empty()
    } else {
        let before = distinct(s.drop_last());
        if before.contains(s.last()) {
            before
        } else {
            before.push(s.last())
        }
    }
}

/// `distinct` holds what the sequence holds, and nothing twice.
pub proof fn distinct_holds_each_once(s: Seq<Seq<char>>)
    ensures
        distinct(s).no_duplicates(),
        forall|x: Seq<char>| distinct(s).contains(x) <==> s.contains(x),
        distinct(s).len() <= s.len(),
    decreases s.len(),
{
    if s.len() > 0 {
        let front = s.drop_last();
        distinct_holds_each_once(front);
        let before = distinct(front);
        let all = distinct(s);
        assert forall|x: Seq<char>| all.contains(x) <==> s.contains(x) by {
            if s.contains(x) {
                let i = choose|i: int| 0 <= i < s.len() && s[i] == x;
                if i < front.len() {
                    assert(front[i] == x);
                    assert(front.contains(x));
                    assert(before.contains(x));
                    let k = choose|k: int| 0 <= k < before.len() && before[k] == x;
                    assert(all[k] == x);
                } else {
                    if before.contains(x) {
                    } else {
                        assert(all[all.len() - 1] == x);
                    }
                }
            }
            if all.contains(x) {
                let k = choose|k: int| 0 <= k < all.len() && all[k] == x;
                if k < before.len() {
                    assert(before[k] == x);
                    assert(before.contains(x));
                    assert(front.contains(x));
                    let i = choose|i: int| 0 <= i < front.len() && front[i] == x;
                    assert(s[i] == x);
                } else {
                    assert(s[s.len() - 1] == x);
                }
            }
        }
        assert(all.no_duplicates()) by {
            if !before.contains(s.last()) {
                assert forall|a: int, b: int| 0 <= a < all.len() && 0 <= b < all.len() && a
                    != b implies all[a] != all[b] by {
                    if a < before.len() && b < before.len() {
                        assert(all[a] == before[a] && all[b] == before[b]);
                    } else if a < before.len() {
                        assert(all[a] == before[a]);
                        assert(before.contains(all[a]));
                    } else if b < before.len() {
                        assert(all[b] == before[b]);
                        assert(before.contains(all[b]));
                    }
                }
            }
        }
    }
}

/// Two paths that differ as texts are both selected, whatever they lead to:
/// a path is passed over only where the same text was selected before.
pub proof fn law_selection_goes_by_the_text(s: Seq<Seq<char>>, i: int, j: int)
    requires
        0 <= i < s.len(),
        0 <= j < s.len(),
        s[i] != s[j],
    ensures
        distinct(s).contains(s[i]),
        distinct(s).contains(s[j]),
        distinct(s).index_of(s[i]) != distinct(s).index_of(s[j]),
{
    distinct_holds_each_once(s);
    assert(s.contains(s[i]));
    assert(s.contains(s[j]));
}

/// Puts the path into the set unless it is there.
pub(crate) fn push_new(seen: &mut Table<()>, path: &String, Ghost(s): Ghost<Seq<Seq<char>>>)
    requires
        old(seen).wf(),
        old(seen).key_texts() == distinct(s),
    ensures
        final(seen).wf(),
        final(seen).key_texts() == distinct(s.push(path@)),
{
    assert(s.push(path@).drop_last() =~= s);
    if !seen.contains_key(path.as_str()) {
        seen.insert(path.clone(), ());
    }
}

/// The texts of a list as a set.
pub(crate) fn text_set(list: &Vec<String>) -> (set: Table<()>)
    ensures
        set.wf(),
        set.key_texts() == distinct(texts(list@)),
        forall|x: Seq<char>| set.has(x) <==> texts(list@).contains(x),
{
    let mut seen: Table<()> = Table::new();
    assert(seen.key_texts() =~= distinct(Seq::empty()));
    let mut i: usize = 0;
    while i < list.len()
        invariant
            i <= list.len(),
            seen.wf(),
            seen.key_texts() == distinct(texts(list@).subrange(0, i as int)),
        decreases list.len() - i,
    {
        push_new(&mut seen, &list[i], Ghost(texts(list@).subrange(0, i as int)));
        assert(texts(list@).subrange(0, i as int).push(list@[i as int]@) =~= texts(list@).subrange(
            0,
            i + 1,
        ));
        i = i + 1;
    }
    assert(texts(list@).subrange(0, list.len() as int) =~= texts(list@));
    proof {
        distinct_holds_each_once(texts(list@));
    }
    seen
}

/// A path that a search for a tracked pattern found.
#[derive(Debug)]
pub struct PatternHit {
    /// The path below the root of the repository.
    pub path: String,
    pub is_dir: bool,
    /// Whether the path leads to a regular file.
    pub is_file: bool,
}

/// The path lies in the state directory of the repository.
pub open spec fn in_state_dir(path: Seq<char>) -> bool {
    segments(path)[0] == KIBO_DIR@
}

/// Whether a path below the root lies in the state directory.
pub fn is_in_state_dir(path: &str) -> (out: bool)
    ensures
        out == in_state_dir(path@),
{
    let names = split_path(path);
    assert(texts(names@).len() > 0);
    assert(texts(names@)[0] == names@[0]@);
    *names[0].as_str() == *KIBO_DIR
}

/// A build takes a hit unless it is a directory, lies in the state
/// directory, or is ignored.
pub open spec fn hit_selected(hit: PatternHit, ignore: Seq<Seq<char>>) -> bool {
    !hit.is_dir && !in_state_dir(hit.path@) && !ignored(ignore, hit.path@)
}

/// The paths of the hits that a build takes, in order.
pub open spec fn selected_hits(hits: Seq<PatternHit>, ignore: Seq<Seq<char>>) -> Seq<Seq<char>>
    decreases hits.len(),
{
    if hits.len() == 0 {
        Seq::empty()
    } else {
        let before = selected_hits(hits.drop_last(), ignore);
        if hit_selected(hits.last(), ignore) {
            before.push(hits.last().path@)
        } else {
            before
        }
    }
}

/// A build takes a path unless it lies in the state directory or the
/// policy ignores it.
pub open spec fn path_taken(path: Seq<char>, ignore: Seq<Seq<char>>) -> bool {
    !in_state_dir(path) && !ignored(ignore, path)
}

/// The paths that a build takes, in order.
pub open spec fn taken(paths: Seq<Seq<char>>, ignore: Seq<Seq<char>>) -> Seq<Seq<char>>
    decreases paths.len(),
{
    if paths.len() == 0 {
        Seq::empty()
    } else {
        let before = taken(paths.drop_last(), ignore);
        if path_taken(paths.last(), ignore) {
            before.push(paths.last())
        } else {
            before
        }
    }
}

/// What is taken of some paths is taken.
pub proof fn taken_paths_are_taken(paths: Seq<Seq<char>>, ignore: Seq<Seq<char>>)
    ensures
        forall|x: Seq<char>| #[trigger] taken(paths, ignore).contains(x) ==> path_taken(x, ignore),
    decreases paths.len(),
{
    if paths.len() > 0 {
        taken_paths_are_taken(paths.drop_last(), ignore);
        let before = taken(paths.drop_last(), ignore);
        let all = taken(paths, ignore);
        assert forall|x: Seq<char>| all.contains(x) implies path_taken(x, ignore) by {
            let k = choose|k: int| 0 <= k < all.len() && all[k] == x;
            if k < before.len() {
                assert(before[k] == x);
                assert(before.contains(x));
            }
        }
    }
}

/// The hits that a build takes are taken.
pub proof fn selected_hits_are_taken(hits: Seq<PatternHit>, ignore: Seq<Seq<char>>)
    ensures
        forall|x: Seq<char>|
            #[trigger] selected_hits(hits, ignore).contains(x) ==> path_taken(x, ignore),
    decreases hits.len(),
{
    if hits.len() > 0 {
        selected_hits_are_taken(hits.drop_last(), ignore);
        let before = selected_hits(hits.drop_last(), ignore);
        let all = selected_hits(hits, ignore);
        assert forall|x: Seq<char>| all.contains(x) implies path_taken(x, ignore) by {
            let k = choose|k: int| 0 <= k < all.len() && all[k] == x;
            if k < before.len() {
                assert(before[k] == x);
                assert(before.contains(x));
            }
        }
    }
}

/// What a build selects: of the files that the walks of the tracked roots
/// met, and of the hits of the tracked patterns, those that it takes, each
/// path once.
pub open spec fn selected_paths(
    walked: Seq<Seq<char>>,
    hits: Seq<PatternHit>,
    ignore: Seq<Seq<char>>,
) -> Seq<Seq<char>> {
    distinct(taken(walked, ignore) + selected_hits(hits, ignore))
}

/// The state directory is never captured, and nothing that the policy
/// ignores: no selected path lies in the state directory of the
/// repository or is ignored, whatever the walks and the searches found.
pub proof fn law_state_directory_is_never_selected(
    walked: Seq<Seq<char>>,
    hits: Seq<PatternHit>,
    ignore: Seq<Seq<char>>,
    path: Seq<char>,
)
    requires
        selected_paths(walked, hits, ignore).contains(path),
    ensures
        !in_state_dir(path),
        !ignored(ignore, path),
{
    let all = taken(walked, ignore) + selected_hits(hits, ignore);
    distinct_holds_each_once(all);
    taken_paths_are_taken(walked, ignore);
    selected_hits_are_taken(hits, ignore);
    assert(all.contains(path));
    let k = choose|k: int| 0 <= k < all.len() && all[k] == path;
    if k < taken(walked, ignore).len() {
        assert(taken(walked, ignore)[k] == path);
        assert(taken(walked, ignore).contains(path));
        assert(path_taken(path, ignore));
    } else {
        assert(selected_hits(hits, ignore)[k - taken(walked, ignore).len()] == path);
        assert(selected_hits(hits, ignore).contains(path));
        assert(path_taken(path, ignore));
    }
}

/// The files of a snapshot: those that the walks of the tracked roots met,
/// then the hits of the tracked patterns, each path once. Nothing of the
/// state directory is taken and nothing that the policy ignores, from the
/// walks as from the searches. A path is told from another by its text
/// alone.
pub fn select_files(walked: &Vec<String>, hits: &Vec<PatternHit>, ignore: &Vec<String>) -> (out: Vec<
    String,
>)
    ensures
        texts(out@) == selected_paths(texts(walked@), hits@, texts(ignore@)),
        texts(out@).no_duplicates(),
        forall|k: int|
            0 <= k < out@.len() ==> path_taken(#[trigger] texts(out@)[k], texts(ignore@)),
{
    let mut seen: Table<()> = Table::new();
    let ghost ig = texts(ignore@);
    assert(seen.key_texts() =~= distinct(Seq::empty()));
    let mut i: usize = 0;
    while i < walked.len()
        invariant
            seen.wf(),
            i <= walked.len(),
            ig == texts(ignore@),
            seen.key_texts() == distinct(taken(texts(walked@).subrange(0, i as int), ig)),
        decreases walked.len() - i,
    {
        assert(texts(walked@).subrange(0, i + 1).drop_last() =~= texts(walked@).subrange(
            0,
            i as int,
        ));
        assert(texts(walked@).subrange(0, i + 1).last() == walked@[i as int]@);
        if !is_in_state_dir(walked[i].as_str()) && !should_ignore(ignore, walked[i].as_str()) {
            push_new(
                &mut seen,
                &walked[i],
                Ghost(taken(texts(walked@).subrange(0, i as int), ig)),
            );
        }
        i = i + 1;
    }
    assert(texts(walked@).subrange(0, walked.len() as int) =~= texts(walked@));
    let ghost w = taken(texts(walked@), ig);
    assert(w + selected_hits(hits@.subrange(0, 0), ig) =~= w);
    let mut j: usize = 0;
    while j < hits.len()
        invariant
            seen.wf(),
            j <= hits.len(),
            ig == texts(ignore@),
            seen.key_texts() == distinct(w + selected_hits(hits@.subrange(0, j as int), ig)),
        decreases hits.len() - j,
    {
        assert(hits@.subrange(0, j + 1).drop_last() =~= hits@.subrange(0, j as int));
        let hit = &hits[j];
        if !hit.is_dir && !is_in_state_dir(hit.path.as_str()) && !should_ignore(
            ignore,
            hit.path.as_str(),
        ) {
            let ghost sofar = w + selected_hits(hits@.subrange(0, j as int), ig);
            push_new(&mut seen, &hit.path, Ghost(sofar));
            assert(sofar.push(hit.path@) =~= w + selected_hits(hits@.subrange(0, j + 1), ig));
        }
        j = j + 1;
    }
    assert(hits@.subrange(0, hits.len() as int) =~= hits@);
    proof {
        distinct_holds_each_once(w + selected_hits(hits@, ig));
        assert forall|k: int| 0 <= k < seen.keys@.len() implies path_taken(
            #[trigger] texts(seen.keys@)[k],
            ig,
        ) by {
            assert(selected_paths(texts(walked@), hits@, ig).contains(texts(seen.keys@)[k]));
            law_state_directory_is_never_selected(texts(walked@), hits@, ig, texts(seen.keys@)[k]);
        }
    }
    seen.keys
}

/// The directories of a snapshot: those that the walks of the tracked
/// roots met, but for the state directory and what the policy ignores,
/// each path once.
pub fn select_directories(walked: &Vec<String>, ignore: &Vec<String>) -> (out: Vec<String>)
    ensures
        texts(out@) == distinct(taken(texts(walked@), texts(ignore@))),
        texts(out@).no_duplicates(),
{
    let mut seen: Table<()> = Table::new();
    let ghost ig = texts(ignore@);
    assert(seen.key_texts() =~= distinct(Seq::empty()));
    let mut i: usize = 0;
    while i < walked.len()
        invariant
            seen.wf(),
            i <= walked.len(),
            ig == texts(ignore@),
            seen.key_texts() == distinct(taken(texts(walked@).subrange(0, i as int), ig)),
        decreases walked.len() - i,
    {
        assert(texts(walked@).subrange(0, i + 1).drop_last() =~= texts(walked@).subrange(
            0,
            i as int,
        ));
        assert(texts(walked@).subrange(0, i + 1).last() == walked@[i as int]@);
        if !is_in_state_dir(walked[i].as_str()) && !should_ignore(ignore, walked[i].as_str()) {
            push_new(&mut seen, &walked[i], Ghost(taken(texts(walked@).subrange(0, i as int), ig)));
        }
        i = i + 1;
    }
    assert(texts(walked@).subrange(0, walked.len() as int) =~= texts(walked@));
    proof {
        distinct_holds_each_once(taken(texts(walked@), ig));
    }
    seen.keys
}

} // verus!
