//! The rule matcher: which rule of a folder, if any, takes a file.

use vstd::prelude::*;
use crate::condition::{eval, evaluate};
use crate::config::{Action, Rule, WatchedFolder};
use crate::glob::{glob_match, glob_matches};
use crate::text::{chars_of, lowercase};

verus! {

/// Whether a name matches one of the first `n` patterns of a whitelist,
/// ignoring case.
pub open spec fn whitelisted_upto(name: Seq<char>, whitelist: Seq<String>, n: int) -> bool {
    exists|k: int|
        0 <= k < n && k < whitelist.len() && glob_matches(
            lowercase(#[trigger] whitelist[k]@),
            lowercase(name),
        )
}

/// Whether a name matches any pattern of a whitelist, ignoring case.
pub open spec fn whitelisted(name: Seq<char>, whitelist: Seq<String>) -> bool {
    whitelisted_upto(name, whitelist, whitelist.len() as int)
}

/// Check if a file name matches any glob pattern in a whitelist.
pub fn is_whitelisted(file_name: &str, whitelist: &Vec<String>) -> (r: bool)
    ensures
        r == whitelisted(file_name@, whitelist@),
{
    let mut i: usize = 0;
    while i < whitelist.len()
        invariant
            i <= whitelist.len(),
            !whitelisted_upto(file_name@, whitelist@, i as int),
        decreases whitelist.len() - i,
    {
        if glob_match(whitelist[i].as_str(), file_name) {
            return true;
        }
        i = i + 1;
    }
    false
}

/// A path as the matcher sees it: its components as written, and the
/// components of its canonical form where that could be found.
#[derive(Debug, Clone)]
pub struct Location {
    pub components: Vec<String>,
    pub canonical: Option<Vec<String>>,
}

/// Whether `dir` is a prefix of `path`, component by component.
pub open spec fn is_prefix(dir: Seq<String>, path: Seq<String>) -> bool {
    dir.len() <= path.len() && forall|k: int| 0 <= k < dir.len() ==> #[trigger] dir[k]@ == path[k]@
}

/// Whether a path begins with all the components of a directory.
pub fn starts_with(path: &Vec<String>, dir: &Vec<String>) -> (r: bool)
    ensures
        r == is_prefix(dir@, path@),
{
    if dir.len() > path.len() {
        return false;
    }
    let mut i: usize = 0;
    while i < dir.len()
        invariant
            i <= dir.len() <= path.len(),
            forall|k: int| 0 <= k < i ==> #[trigger] dir@[k]@ == path@[k]@,
        decreases dir.len() - i,
    {
        if dir[i] != path[i] {
            return false;
        }
        i = i + 1;
    }
    true
}

/// Whether a file lies inside a directory: by the canonical forms where
/// both are known, else by the components as written.
pub open spec fn inside(file: Location, dir: Location) -> bool {
    match (file.canonical, dir.canonical) {
        (Some(f), Some(d)) => is_prefix(d@, f@),
        _ => is_prefix(dir.components@, file.components@),
    }
}

/// Check if a file is inside a given directory.
pub fn is_file_in_dir(file: &Location, dir: &Location) -> (r: bool)
    ensures
        r == inside(*file, *dir),
{
    match (&file.canonical, &dir.canonical) {
        (Some(f), Some(d)) => starts_with(f, d),
        _ => starts_with(&file.components, &dir.components),
    }
}

/// A file that is a candidate for the rules of a folder.
#[derive(Debug, Clone)]
pub struct FileCandidate {
    /// The path as it was found.
    pub path: String,
    /// The base name.
    pub file_name: String,
    pub location: Location,
}

/// The paths of a watched folder: its root, and for each rule, by its
/// position, the directory that a `Move` would put files in. There is one
/// entry for every rule; that of a rule that does not move is not read.
#[derive(Debug, Clone)]
pub struct FolderPaths {
    pub root: Vec<String>,
    pub destinations: Vec<Location>,
}

/// The rule that takes a file, by its position, and the text that its
/// condition was tested on.
#[derive(Debug, Clone)]
pub struct RuleMatch {
    pub rule_index: usize,
    pub target: String,
}

/// A text with every backslash turned into a slash.
pub open spec fn slashes(s: Seq<char>) -> Seq<char> {
    Seq::new(
        s.len(),
        |i: int|
            if s[i] == '\\' {
                '/'
            } else {
                s[i]
            },
    )
}

/// The components `parts[from..to]` with a `/` between each two.
pub open spec fn joined(parts: Seq<String>, from: int, to: int) -> Seq<char>
    decreases to - from,
{
    if to <= from {
        Seq::empty()
    } else if to == from + 1 {
        parts[from]@
    } else {
        joined(parts, from, to - 1) + seq!['/'] + parts[to - 1]@
    }
}

/// The path of a file below a root, with `/` as the only separator. A file
/// that is not below the root keeps its whole path.
pub open spec fn relative_path(file: FileCandidate, root: Seq<String>) -> Seq<char> {
    let parts = file.location.components@;
    if is_prefix(root, parts) {
        slashes(joined(parts, root.len() as int, parts.len() as int))
    } else {
        slashes(file.path@)
    }
}

/// The text that the condition of rule `i` is tested on: the base name, or,
/// where the rule or its folder asks for subdirectories, the path below the
/// folder's root.
pub open spec fn match_target(
    file: FileCandidate,
    folder: WatchedFolder,
    paths: FolderPaths,
    i: int,
) -> Seq<char> {
    if folder.rules@[i].match_subdirectories || folder.watch_subdirectories {
        relative_path(file, paths.root@)
    } else {
        file.file_name@
    }
}

/// Whether the file already lies in the directory that rule `i` moves to.
pub open spec fn already_moved(
    file: FileCandidate,
    folder: WatchedFolder,
    paths: FolderPaths,
    i: int,
) -> bool {
    folder.rules@[i].action is Move && inside(file.location, paths.destinations@[i])
}

/// Whether rule `i` of the folder takes the file: it is enabled, its
/// whitelist lets the file through, the file is not already where the rule
/// would move it, and its condition holds.
pub open spec fn rule_takes(
    file: FileCandidate,
    folder: WatchedFolder,
    paths: FolderPaths,
    i: int,
) -> bool {
    let rule = folder.rules@[i];
    &&& rule.enabled
    &&& !whitelisted(file.file_name@, rule.whitelist@)
    &&& !already_moved(file, folder, paths, i)
    &&& eval(rule.condition@, match_target(file, folder, paths, i))
}

fn push_slashed(out: &mut String, s: &str)
    ensures
        final(out)@ == old(out)@ + slashes(s@),
{
    let chars = chars_of(s);
    let ghost start = out@;
    let mut i: usize = 0;
    while i < chars.len()
        invariant
            i <= chars.len(),
            chars@ == s@,
            out@ == start + slashes(s@).subrange(0, i as int),
        decreases chars.len() - i,
    {
        let c = chars[i];
        if c == '\\' {
            out.push('/');
        } else {
            out.push(c);
        }
        proof {
            assert(out@ =~= start + slashes(s@).subrange(0, i + 1));
        }
        i = i + 1;
    }
    proof {
        assert(slashes(s@).subrange(0, chars.len() as int) =~= slashes(s@));
    }
}

proof fn lemma_slashes_concat(a: Seq<char>, b: Seq<char>)
    ensures
        slashes(a + b) == slashes(a) + slashes(b),
{
    assert(slashes(a + b) =~= slashes(a) + slashes(b));
}

/// The path of the file below the root, as `relative_path` defines it.
pub fn relative_target(file: &FileCandidate, root: &Vec<String>) -> (r: String)
    ensures
        r@ == relative_path(*file, root@),
{
    let parts = &file.location.components;
    let mut out = String::new();
    if starts_with(parts, root) {
        let from: usize = root.len();
        let mut i: usize = from;
        proof {
            assert(slashes(Seq::<char>::empty()) =~= Seq::<char>::empty());
        }
        while i < parts.len()
            invariant
                from <= i <= parts.len(),
                from == root@.len(),
                out@ == slashes(joined(parts@, from as int, i as int)),
            decreases parts.len() - i,
        {
            let ghost before = joined(parts@, from as int, i as int);
            if i > from {
                out.push('/');
                proof {
                    lemma_slashes_concat(before, seq!['/']);
                    assert(slashes(seq!['/']) =~= seq!['/']);
                }
            }
            push_slashed(&mut out, parts[i].as_str());
            proof {
                if i > from {
                    lemma_slashes_concat(before + seq!['/'], parts@[i as int]@);
                } else {
                    assert(out@ =~= slashes(parts@[i as int]@));
                }
            }
            i = i + 1;
        }
        out
    } else {
        push_slashed(&mut out, file.path.as_str());
        proof {
            assert(out@ =~= slashes(file.path@));
        }
        out
    }
}

/// Pick the rule that takes a file, if any.
///
/// A file whose base name matches the folder's whitelist is taken by no
/// rule. Else the rules are tried in their order and the first that takes
/// the file wins: the rules after it are not consulted.
pub fn match_file(file: &FileCandidate, folder: &WatchedFolder, paths: &FolderPaths) -> (r: Option<
    RuleMatch,
>)
    requires
        paths.destinations@.len() == folder.rules@.len(),
    ensures
        whitelisted(file.file_name@, folder.whitelist@) ==> r is None,
        match r {
            Some(m) => {
                &&& !whitelisted(file.file_name@, folder.whitelist@)
                &&& m.rule_index < folder.rules@.len()
                &&& rule_takes(*file, *folder, *paths, m.rule_index as int)
                &&& forall|j: int|
                    0 <= j < m.rule_index ==> !rule_takes(*file, *folder, *paths, j)
                &&& m.target@ == match_target(*file, *folder, *paths, m.rule_index as int)
            },
            None => whitelisted(file.file_name@, folder.whitelist@) || forall|j: int|
                0 <= j < folder.rules@.len() ==> !rule_takes(*file, *folder, *paths, j),
        },
{
    if is_whitelisted(file.file_name.as_str(), &folder.whitelist) {
        return None;
    }
    let mut i: usize = 0;
    while i < folder.rules.len()
        invariant
            i <= folder.rules@.len(),
            paths.destinations@.len() == folder.rules@.len(),
            !whitelisted(file.file_name@, folder.whitelist@),
            forall|j: int| 0 <= j < i ==> !rule_takes(*file, *folder, *paths, j),
        decreases folder.rules.len() - i,
    {
        let rule = &folder.rules[i];
        if rule.is_enabled() && !is_whitelisted(file.file_name.as_str(), &rule.whitelist) {
            let moved = match &rule.action {
                Action::Move { .. } => is_file_in_dir(&file.location, &paths.destinations[i]),
                Action::Delete { .. } => false,
            };
            if !moved {
                let target = if rule.match_subdirectories || folder.watch_subdirectories {
                    relative_target(file, &paths.root)
                } else {
                    file.file_name.clone()
                };
                if evaluate(&rule.condition, target.as_str()) {
                    return Some(RuleMatch { rule_index: i, target });
                }
            }
        }
        i = i + 1;
    }
    None
}

} // verus!
