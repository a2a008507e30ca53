//! The rule by which a recorded pattern keeps a path out of a snapshot and
//! safe from cleanup.

use vstd::prelude::*;
use crate::paths::{has_component, is_plain_name, plain_name, segments, split_path};
use crate::text::{chars_of, has_prefix, texts};

verus! {

/// What the glob matcher says of a pattern and a text: `None` where the
/// pattern does not compile, else whether the whole text matches it.
pub uninterp spec fn glob_match(pattern: Seq<char>, text: Seq<char>) -> Option<bool>;

/// Compiles `pattern` with `glob::Pattern::new` and asks `Pattern::matches`
/// of the compiled pattern and `text`. The contract only gives the outcome
/// its name: nothing is claimed of which texts a pattern matches.
#[verifier::external_body]
pub(crate) fn glob_matches(pattern: &str, text: &str) -> (out: Option<bool>)
    ensures
        out == glob_match(pattern@, text@),
{
    match glob::Pattern::new(pattern) {
        Ok(compiled) => Some(compiled.matches(text)),
        Err(_) => None,
    }
}

/// One pattern ignores a path when the matcher, asked with `matched` as its
/// answer, says so, when the pattern is the beginning of the path's text, or
/// when it is one of the path's names.
pub open spec fn ignores_given(matched: Option<bool>, pattern: Seq<char>, path: Seq<char>) -> bool {
    ||| matched == Some(true)
    ||| pattern.is_prefix_of(path)
    ||| has_component(path, pattern)
}

/// One pattern ignores a path.
pub open spec fn ignores(pattern: Seq<char>, path: Seq<char>) -> bool {
    ignores_given(glob_match(pattern, path), pattern, path)
}

/// Some pattern of the list ignores the path.
pub open spec fn ignored(patterns: Seq<Seq<char>>, path: Seq<char>) -> bool {
    exists|i: int| 0 <= i < patterns.len() && ignores(#[trigger] patterns[i], path)
}

/// Whether `name` is a plain name and one of the names of `path`.
pub fn path_has_component(path: &str, name: &str) -> (yes: bool)
    ensures
        yes == has_component(path@, name@),
{
    let n = chars_of(name);
    if !plain_name(&n) {
        return false;
    }
    let names = split_path(path);
    let mut i: usize = 0;
    while i < names.len()
        invariant
            i <= names.len(),
            is_plain_name(name@),
            texts(names@) == segments(path@),
            forall|k: int| 0 <= k < i ==> segments(path@)[k] != name@,
        decreases names.len() - i,
    {
        assert(texts(names@)[i as int] == names@[i as int]@);
        if *names[i].as_str() == *name {
            assert(segments(path@)[i as int] == name@);
            return true;
        }
        i = i + 1;
    }
    false
}

/// Decides for one pattern, given the matcher's answer for it.
pub fn pattern_ignores_given(matched: Option<bool>, pattern: &str, path: &str) -> (out: bool)
    ensures
        out == ignores_given(matched, pattern@, path@),
{
    match matched {
        Some(true) => {
            return true;
        },
        _ => {},
    }
    let p = chars_of(pattern);
    let t = chars_of(path);
    if has_prefix(&t, &p) {
        return true;
    }
    path_has_component(path, pattern)
}

/// Whether any of `patterns` ignores `relative_path`.
pub fn should_ignore(patterns: &Vec<String>, relative_path: &str) -> (out: bool)
    ensures
        out == ignored(texts(patterns@), relative_path@),
{
    let mut i: usize = 0;
    while i < patterns.len()
        invariant
            i <= patterns.len(),
            forall|k: int| 0 <= k < i ==> !ignores(#[trigger] texts(patterns@)[k], relative_path@),
        decreases patterns.len() - i,
    {
        assert(texts(patterns@)[i as int] == patterns@[i as int]@);
        let matched = glob_matches(patterns[i].as_str(), relative_path);
        if pattern_ignores_given(matched, patterns[i].as_str(), relative_path) {
            return true;
        }
        i = i + 1;
    }
    false
}

} // verus!
