//! The rules of application source discovery: which declared source roots
//! are accepted, which directory entries are skipped, descended into or
//! taken as sources, and which paths are excluded as generated output.
//!
//! Paths are texts as the discovery walk produces them: canonical and
//! absolute, with `/` between components and no `.` or empty components.

use vstd::prelude::*;
use crate::text::{chars_of, debug_quoted, debug_text, occurs_at, owned, push_char, push_str};

verus! {

// ---------------------------------------------------------------------------
// Paths
// ---------------------------------------------------------------------------

/// Whether `path` is `root` or lies below it, component by component.
pub open spec fn path_within(path: Seq<char>, root: Seq<char>) -> bool {
    &&& 0 < root.len() <= path.len()
    &&& path.take(root.len() as int) == root
    &&& path.len() == root.len() || root.last() == '/' || path[root.len() as int] == '/'
}

/// Whether `name` is a whole component of `text` starting at `i`.
pub open spec fn component_at(text: Seq<char>, name: Seq<char>, i: int) -> bool {
    &&& 0 <= i && i + name.len() <= text.len()
    &&& i == 0 || text[i - 1] == '/'
    &&& text.subrange(i, i + name.len()) == name
    &&& i + name.len() == text.len() || text[i + name.len()] == '/'
}

/// Whether `name` is one of the components of `text`.
pub open spec fn has_component(text: Seq<char>, name: Seq<char>) -> bool {
    exists|i: int| component_at(text, name, i)
}

/// The directory in which a build writes its output.
pub open spec fn generated_dir() -> Seq<char> {
    seq!['.', 'h', 'o', 'p', 'l', 'i', 't', 'e']
}

/// Whether `path`, taken relative to `root` where it lies below it, passes
/// through a `.hoplite` directory.
pub open spec fn generated_output_spec(root: Seq<char>, path: Seq<char>) -> bool {
    has_component(
        if path_within(path, root) {
            path.skip(root.len() as int)
        } else {
            path
        },
        generated_dir(),
    )
}

/// Whether `path` lies within one of the excluded paths.
pub open spec fn excluded_spec(path: Seq<char>, excluded: Seq<Seq<char>>) -> bool {
    exists|i: int| 0 <= i < excluded.len() && path_within(path, #[trigger] excluded[i])
}

/// `root` joined with `path`: an absolute `path` stands alone, a relative
/// one follows `root` after a separator.
pub open spec fn join_spec(root: Seq<char>, path: Seq<char>) -> Seq<char> {
    if path.len() > 0 && path[0] == '/' {
        path
    } else if root.len() > 0 && root.last() == '/' {
        root + path
    } else {
        root + seq!['/'] + path
    }
}

fn within(path: &[char], root: &[char]) -> (r: bool)
    ensures
        r == path_within(path@, root@),
{
    if root.len() == 0 || root.len() > path.len() {
        return false;
    }
    if !occurs_at(path, root, 0) {
        assert(path@.subrange(0, root@.len() as int) =~= path@.take(root@.len() as int));
        return false;
    }
    assert(path@.subrange(0, root@.len() as int) =~= path@.take(root@.len() as int));
    path.len() == root.len() || root[root.len() - 1] == '/' || path[root.len()] == '/'
}

fn component_found(text: &[char], name: &[char]) -> (r: bool)
    ensures
        r == has_component(text@, name@),
{
    if name.len() > text.len() {
        assert forall|j: int| !component_at(text@, name@, j) by {}
        return false;
    }
    let last = text.len() - name.len();
    let mut i: usize = 0;
    while i <= last
        invariant
            last + name@.len() == text@.len(),
            i <= last + 1,
            forall|j: int| 0 <= j < i ==> !component_at(text@, name@, j),
        decreases last + 1 - i,
    {
        if (i == 0 || text[i - 1] == '/') && occurs_at(text, name, i) && (i + name.len() == text.len()
            || text[i + name.len()] == '/') {
            assert(component_at(text@, name@, i as int));
            return true;
        }
        if i == last {
            assert forall|j: int| !component_at(text@, name@, j) by {
                if j > i {
                    assert(j + name@.len() > text@.len());
                }
            }
            return false;
        }
        i = i + 1;
    }
    assert forall|j: int| !component_at(text@, name@, j) by {
        if j >= i {
            assert(j + name@.len() > text@.len());
        }
    }
    false
}

fn generated_dir_chars() -> (r: Vec<char>)
    ensures
        r@ == generated_dir(),
{
    let r = vec!['.', 'h', 'o', 'p', 'l', 'i', 't', 'e'];
    assert(r@ =~= generated_dir());
    r
}

/// Whether `path` lies in a build's `.hoplite` output directory (taken
/// relative to `root` where `path` lies below it).
pub fn generated_output(root: &str, path: &str) -> (r: bool)
    ensures
        r == generated_output_spec(root@, path@),
{
    let root_chars = chars_of(root);
    let path_chars = chars_of(path);
    let name = generated_dir_chars();
    if within(path_chars.as_slice(), root_chars.as_slice()) {
        let rest = &path_chars.as_slice()[root_chars.len()..path_chars.len()];
        assert(rest@ =~= path@.skip(root@.len() as int));
        component_found(rest, name.as_slice())
    } else {
        component_found(path_chars.as_slice(), name.as_slice())
    }
}

/// Whether `path` lies within one of the `excluded` paths.
pub fn excluded_path(path: &str, excluded: &Vec<String>) -> (r: bool)
    ensures
        r == excluded_spec(path@, excluded@.map_values(|e: String| e@)),
{
    let path_chars = chars_of(path);
    let ghost views = excluded@.map_values(|e: String| e@);
    let mut i: usize = 0;
    while i < excluded.len()
        invariant
            i <= excluded@.len(),
            path_chars@ == path@,
            views == excluded@.map_values(|e: String| e@),
            forall|j: int| 0 <= j < i ==> !path_within(path@, #[trigger] views[j]),
        decreases excluded@.len() - i,
    {
        let root = chars_of(excluded[i].as_str());
        if within(path_chars.as_slice(), root.as_slice()) {
            assert(path_within(path@, views[i as int]));
            return true;
        }
        i = i + 1;
    }
    false
}

/// `root` joined with `path` (`Path::join`).
pub fn join(root: &str, path: &str) -> (r: String)
    ensures
        r@ == join_spec(root@, path@),
{
    let root_chars = chars_of(root);
    let path_chars = chars_of(path);
    if path_chars.len() > 0 && path_chars[0] == '/' {
        return owned(path);
    }
    let mut out = owned(root);
    if !(root_chars.len() > 0 && root_chars[root_chars.len() - 1] == '/') {
        push_char(&mut out, '/');
    }
    push_str(&mut out, path);
    proof {
        if root@.len() > 0 && root@.last() == '/' {
            assert(out@ =~= root@ + path@);
        } else {
            assert(out@ =~= root@ + seq!['/'] + path@);
        }
    }
    out
}

/// The paths a discovery walk never enters: the build's `.hoplite`
/// directory, the declared artifact paths and the runtime target path, each
/// joined to the project root.
pub open spec fn excluded_paths_spec(
    root: Seq<char>,
    artifacts: Seq<Seq<char>>,
    runtime_target: Option<Seq<char>>,
) -> Seq<Seq<char>> {
    let base = seq![join_spec(root, generated_dir())] + artifacts.map_values(|a: Seq<char>| join_spec(root, a));
    match runtime_target {
        Some(target) => base.push(join_spec(root, target)),
        None => base,
    }
}

/// The excluded paths of a project rooted at `root`.
pub fn excluded_paths(root: &str, artifacts: &Vec<String>, runtime_target: Option<&str>) -> (paths: Vec<String>)
    ensures
        paths@.map_values(|p: String| p@) == excluded_paths_spec(
            root@,
            artifacts@.map_values(|a: String| a@),
            match runtime_target {
                Some(t) => Some(t@),
                None => None,
            },
        ),
{
    let ghost artifact_views = artifacts@.map_values(|a: String| a@);
    let mut paths: Vec<String> = Vec::new();
    paths.push(join(root, ".hoplite"));
    proof {
        reveal_strlit(".hoplite");
        assert(".hoplite"@ =~= generated_dir());
    }
    let mut i: usize = 0;
    while i < artifacts.len()
        invariant
            i <= artifacts@.len(),
            artifact_views == artifacts@.map_values(|a: String| a@),
            paths@.map_values(|p: String| p@) == seq![join_spec(root@, generated_dir())]
                + artifact_views.take(i as int).map_values(|a: Seq<char>| join_spec(root@, a)),
        decreases artifacts@.len() - i,
    {
        let ghost before = paths@;
        let joined = join(root, artifacts[i].as_str());
        paths.push(joined);
        i = i + 1;
        proof {
            assert(paths@ == before.push(joined));
            assert(paths@.map_values(|p: String| p@) =~= before.map_values(|p: String| p@).push(joined@));
            assert(artifact_views.take(i as int) =~= artifact_views.take(i - 1).push(artifact_views[i - 1]));
            assert(artifact_views.take(i as int).map_values(|a: Seq<char>| join_spec(root@, a))
                =~= artifact_views.take(i - 1).map_values(|a: Seq<char>| join_spec(root@, a)).push(
                join_spec(root@, artifact_views[i - 1]),
            ));
            assert(paths@.map_values(|p: String| p@) =~= seq![join_spec(root@, generated_dir())]
                + artifact_views.take(i as int).map_values(|a: Seq<char>| join_spec(root@, a)));
        }
    }
    assert(artifact_views.take(i as int) =~= artifact_views);
    match runtime_target {
        Some(target) => {
            let ghost before = paths@;
            let joined = join(root, target);
            paths.push(joined);
            assert(paths@.map_values(|p: String| p@) =~= before.map_values(|p: String| p@).push(joined@));
            assert(paths@.map_values(|p: String| p@) =~= (seq![join_spec(root@, generated_dir())]
                + artifact_views.map_values(|a: Seq<char>| join_spec(root@, a))).push(join_spec(root@, target@)));
        },
        None => {},
    }
    paths
}

// ---------------------------------------------------------------------------
// Source roots
// ---------------------------------------------------------------------------

/// What the file system says a path is, without following a symlink.
#[derive(Clone, Copy, Debug, PartialEq, Eq)]
pub enum EntryKind {
    Symlink,
    Directory,
    File,
    Other,
}

/// The checks on a declared source root before it is resolved: it may not
/// be a symlink and must be a directory.
pub open spec fn root_kind_check(declared: Seq<char>, kind: EntryKind) -> Result<(), Seq<char>> {
    match kind {
        EntryKind::Symlink => Err("application source root cannot be a symlink: "@ + declared),
        EntryKind::Directory => Ok(()),
        _ => Err("application source root is not a directory: "@ + declared),
    }
}

/// Checks a declared source root's kind; `declared` is the root as shown.
pub fn check_source_root_kind(declared: &str, kind: EntryKind) -> (r: Result<(), String>)
    ensures
        match r {
            Ok(()) => root_kind_check(declared@, kind) is Ok,
            Err(message) => root_kind_check(declared@, kind) == Err::<(), Seq<char>>(message@),
        },
{
    match kind {
        EntryKind::Symlink => {
            let mut message = owned("application source root cannot be a symlink: ");
            push_str(&mut message, declared);
            Err(message)
        },
        EntryKind::Directory => Ok(()),
        _ => {
            let mut message = owned("application source root is not a directory: ");
            push_str(&mut message, declared);
            Err(message)
        },
    }
}

/// The checks on a resolved source root: it must lie within the project
/// root and outside generated output and every excluded path.
pub open spec fn root_place_check(
    declared: Seq<char>,
    relative: Seq<char>,
    directory: Seq<char>,
    root: Seq<char>,
    excluded: Seq<Seq<char>>,
) -> Result<(), Seq<char>> {
    if !path_within(directory, root) {
        Err("application source root escapes the project: "@ + declared)
    } else if generated_output_spec(root, directory) || excluded_spec(directory, excluded) {
        Err("project source path "@ + debug_text(relative) + " points inside generated output"@)
    } else {
        Ok(())
    }
}

/// Checks where a resolved source root lies. `declared` is the root as
/// shown, `relative` the path the project declares, `directory` the root
/// resolved and `root` the resolved project root.
pub fn check_source_root_place(
    declared: &str,
    relative: &str,
    directory: &str,
    root: &str,
    excluded: &Vec<String>,
) -> (r: Result<(), String>)
    ensures
        match r {
            Ok(()) => root_place_check(declared@, relative@, directory@, root@, excluded@.map_values(|e: String| e@)) is Ok,
            Err(message) => root_place_check(declared@, relative@, directory@, root@, excluded@.map_values(|e: String| e@))
                == Err::<(), Seq<char>>(message@),
        },
{
    let directory_chars = chars_of(directory);
    let root_chars = chars_of(root);
    if !within(directory_chars.as_slice(), root_chars.as_slice()) {
        let mut message = owned("application source root escapes the project: ");
        push_str(&mut message, declared);
        return Err(message);
    }
    if generated_output(root, directory) || excluded_path(directory, excluded) {
        let mut message = owned("project source path ");
        let quoted = debug_quoted(relative);
        push_str(&mut message, quoted.as_str());
        push_str(&mut message, " points inside generated output");
        return Err(message);
    }
    Ok(())
}

// ---------------------------------------------------------------------------
// Directory entries
// ---------------------------------------------------------------------------

/// What discovery does with a directory entry.
#[derive(Clone, Copy, Debug, PartialEq, Eq)]
pub enum EntryAction {
    Skip,
    Descend,
    Source,
}

/// Whether a file name is an editor's lock or autosave file: `.#name` or
/// `#name#`.
pub open spec fn editor_artifact_spec(name: Seq<char>) -> bool {
    (name.len() >= 2 && name[0] == '.' && name[1] == '#') || (name.len() >= 1 && name[0] == '#'
        && name.last() == '#')
}

/// Whether a file name has the extension `hal` (a name that is only `.hal`
/// has none).
pub open spec fn hal_extension(name: Seq<char>) -> bool {
    name.len() > 4 && name.skip(name.len() - 4) == seq!['.', 'h', 'a', 'l']
}

/// What discovery does with the entry `name` at `path`: generated output,
/// editor files and excluded paths are skipped whatever they are; a symlink
/// is refused; a directory is descended into; a file with the `hal`
/// extension is a source; anything else is skipped.
pub open spec fn classify_spec(
    path: Seq<char>,
    name: Seq<char>,
    kind: EntryKind,
    excluded: Seq<Seq<char>>,
) -> Result<EntryAction, Seq<char>> {
    if name == generated_dir() || editor_artifact_spec(name) || excluded_spec(path, excluded) {
        Ok(EntryAction::Skip)
    } else {
        match kind {
            EntryKind::Symlink => Err("application source discovery does not follow symlinks: "@ + path),
            EntryKind::Directory => Ok(EntryAction::Descend),
            EntryKind::File => if hal_extension(name) {
                Ok(EntryAction::Source)
            } else {
                Ok(EntryAction::Skip)
            },
            EntryKind::Other => Ok(EntryAction::Skip),
        }
    }
}

fn editor_artifact(name: &[char]) -> (r: bool)
    ensures
        r == editor_artifact_spec(name@),
{
    (name.len() >= 2 && name[0] == '.' && name[1] == '#') || (name.len() >= 1 && name[0] == '#'
        && name[name.len() - 1] == '#')
}

fn has_hal_extension(name: &[char]) -> (r: bool)
    ensures
        r == hal_extension(name@),
{
    let n = name.len();
    if n <= 4 {
        return false;
    }
    let r = name[n - 4] == '.' && name[n - 3] == 'h' && name[n - 2] == 'a' && name[n - 1] == 'l';
    assert(r == (name@.skip(n - 4) =~= seq!['.', 'h', 'a', 'l']));
    r
}

/// Decides what discovery does with one directory entry.
pub fn classify_source_entry(
    path: &str,
    name: &str,
    kind: EntryKind,
    excluded: &Vec<String>,
) -> (r: Result<EntryAction, String>)
    ensures
        match r {
            Ok(action) => classify_spec(path@, name@, kind, excluded@.map_values(|e: String| e@))
                == Ok::<EntryAction, Seq<char>>(action),
            Err(message) => classify_spec(path@, name@, kind, excluded@.map_values(|e: String| e@))
                == Err::<EntryAction, Seq<char>>(message@),
        },
{
    let name_chars = chars_of(name);
    let generated = generated_dir_chars();
    let is_generated = name_chars.len() == generated.len() && occurs_at(
        name_chars.as_slice(),
        generated.as_slice(),
        0,
    );
    proof {
        if name_chars@.len() == generated@.len() {
            assert(name_chars@.subrange(0, generated@.len() as int) =~= name_chars@);
        }
    }
    if is_generated || editor_artifact(name_chars.as_slice()) || excluded_path(path, excluded) {
        return Ok(EntryAction::Skip);
    }
    match kind {
        EntryKind::Symlink => {
            let mut message = owned("application source discovery does not follow symlinks: ");
            push_str(&mut message, path);
            Err(message)
        },
        EntryKind::Directory => Ok(EntryAction::Descend),
        EntryKind::File => if has_hal_extension(name_chars.as_slice()) {
            Ok(EntryAction::Source)
        } else {
            Ok(EntryAction::Skip)
        },
        EntryKind::Other => Ok(EntryAction::Skip),
    }
}

} // verus!
