//! Path logic of the todolist directory: the configuration directory,
//! the per-list files under `todolists/`, the `active_todos.json`
//! indirection, and the name handling that listing and deletion rely
//! on. All file-system access stays outside the library; these
//! functions only compute paths and decisions from plain values.

use vstd::prelude::*;
use crate::text::str_eq;
use crate::AppError;

verus! {

/// The configuration directory under a platform root: `tort_todo`
/// inside it, or the empty path when no root is known.
pub open spec fn confdir_of(root: Option<Seq<char>>) -> Seq<char> {
    match root {
        Some(r) => r + "/tort_todo"@,
        None => Seq::empty(),
    }
}

/// The configuration directory path under the platform configuration
/// root, when one is known.
pub fn confdir_path(root: Option<String>) -> (r: String)
    ensures
        r@ == confdir_of(match root {
            Some(s) => Some(s@),
            None => None,
        }),
{
    match root {
        Some(s) => {
            let mut r = s;
            r.append("/tort_todo");
            r
        },
        None => String::new(),
    }
}

/// The path of the active-list indirection, once the configuration
/// directory is known to exist; `NoConfigurationDirectory` otherwise.
pub fn get_active_todo(confdir: &str, confdir_exists: bool) -> (r: Result<String, AppError>)
    ensures
        confdir_exists ==> (r matches Ok(p) && p@ == confdir@ + "/active_todos.json"@),
        !confdir_exists ==> r == Err::<String, AppError>(AppError::NoConfigurationDirectory),
{
    if !confdir_exists {
        return Err(AppError::NoConfigurationDirectory);
    }
    let mut r = confdir.to_owned();
    r.append("/active_todos.json");
    Ok(r)
}

/// The backing file of the todo store: the active-list indirection.
pub fn todos_name(confdir: &str, confdir_exists: bool) -> (r: Result<String, AppError>)
    ensures
        confdir_exists ==> (r matches Ok(p) && p@ == confdir@ + "/active_todos.json"@),
        !confdir_exists ==> r == Err::<String, AppError>(AppError::NoConfigurationDirectory),
{
    get_active_todo(confdir, confdir_exists)
}

/// The directory that holds the named list documents.
pub fn todolists_dir_path(confdir: &str) -> (r: String)
    ensures
        r@ == confdir@ + "/todolists"@,
{
    let mut r = confdir.to_owned();
    r.append("/todolists");
    r
}

/// The document of the named list.
pub fn todolist_file_path(confdir: &str, name: &str) -> (r: String)
    ensures
        r@ == confdir@ + "/todolists/"@ + name@ + ".json"@,
{
    let mut r = confdir.to_owned();
    r.append("/todolists/");
    r.append(name);
    r.append(".json");
    r
}

/// The position of the last `c` at or below `i`, or -1 when there is
/// none.
pub open spec fn last_at_or_below(s: Seq<char>, c: char, i: int) -> int
    decreases i + 1,
{
    if i < 0 {
        -1
    } else if s[i] == c {
        i
    } else {
        last_at_or_below(s, c, i - 1)
    }
}

/// A file name with its extension — what follows the last dot —
/// removed; names without one, and names whose only dot leads, stay as
/// they are.
pub open spec fn strip_ext_spec(s: Seq<char>) -> Seq<char> {
    if last_at_or_below(s, '.', s.len() - 1) >= 1 {
        s.take(last_at_or_below(s, '.', s.len() - 1))
    } else {
        s
    }
}

/// The final component of a path: what follows the last slash.
pub open spec fn file_name_spec(s: Seq<char>) -> Seq<char> {
    s.skip(last_at_or_below(s, '/', s.len() - 1) + 1)
}

/// A scan that saw no `c` from just above `lo` up to `hi` reports for
/// `hi` what it reports for `lo`.
proof fn lemma_last_skip(s: Seq<char>, c: char, hi: int, lo: int)
    requires
        -1 <= lo <= hi < s.len(),
        forall|j: int| lo < j <= hi ==> s[j] != c,
    ensures
        last_at_or_below(s, c, hi) == last_at_or_below(s, c, lo),
    decreases hi - lo,
{
    if hi > lo {
        lemma_last_skip(s, c, hi - 1, lo);
    }
}

/// Finds the position of the last occurrence of `c` in `s`.
fn find_last(s: &str, c: char) -> (r: Option<usize>)
    ensures
        match r {
            Some(p) => p < s@.len() && p == last_at_or_below(s@, c, s@.len() - 1),
            None => last_at_or_below(s@, c, s@.len() - 1) == -1,
        },
{
    let n = s.unicode_len();
    let mut i = n;
    while i > 0
        invariant
            i <= n,
            n == s@.len(),
            forall|j: int| i <= j < n ==> s@[j] != c,
        decreases i,
    {
        i = i - 1;
        if s.get_char(i) == c {
            proof {
                lemma_last_skip(s@, c, n - 1, i as int);
            }
            return Some(i);
        }
    }
    proof {
        lemma_last_skip(s@, c, n - 1, -1);
    }
    None
}

/// Removes the extension of a file name, as the listing of todolists
/// does before printing each name.
pub fn strip_extension(name: &str) -> (r: String)
    ensures
        r@ == strip_ext_spec(name@),
{
    match find_last(name, '.') {
        Some(p) => {
            if p >= 1 {
                String::from_str(name.substring_char(0, p))
            } else {
                name.to_owned()
            }
        },
        None => name.to_owned(),
    }
}

/// The final component of a path.
pub fn file_name_of(path: &str) -> (r: String)
    ensures
        r@ == file_name_spec(path@),
{
    let n = path.unicode_len();
    match find_last(path, '/') {
        Some(p) => String::from_str(path.substring_char(p + 1, n)),
        None => {
            proof {
                assert(path@.skip(0) =~= path@);
            }
            path.to_owned()
        },
    }
}

/// Whether the active-list indirection points at the named list: its
/// target's file name, extension removed, is the name.
pub fn active_matches(link_target: &str, name: &str) -> (r: bool)
    ensures
        r == (strip_ext_spec(file_name_spec(link_target@)) == name@),
{
    let file = file_name_of(link_target);
    let stem = strip_extension(file.as_str());
    str_eq(stem.as_str(), name)
}

/// The displayed names of the todolist documents: each file name with
/// its extension removed, marked when it is the file the active-list
/// indirection resolves to.
pub fn todolist_names(files: Vec<String>, active_file: Option<String>) -> (r: Vec<(String, bool)>)
    ensures
        r@.len() == files@.len(),
        forall|i: int| 0 <= i < files@.len() ==> (#[trigger] r@[i]).0@ == strip_ext_spec(
            files@[i]@,
        ),
        forall|i: int| 0 <= i < files@.len() ==> (#[trigger] r@[i]).1 == (match active_file {
            Some(a) => a@ == files@[i]@,
            None => false,
        }),
{
    let mut r: Vec<(String, bool)> = Vec::new();
    let mut i: usize = 0;
    while i < files.len()
        invariant
            i <= files@.len(),
            r@.len() == i,
            forall|j: int| 0 <= j < i ==> (#[trigger] r@[j]).0@ == strip_ext_spec(files@[j]@),
            forall|j: int| 0 <= j < i ==> (#[trigger] r@[j]).1 == (match active_file {
                Some(a) => a@ == files@[j]@,
                None => false,
            }),
        decreases files@.len() - i,
    {
        let stem = strip_extension(files[i].as_str());
        let marked = match &active_file {
            Some(a) => str_eq(a.as_str(), files[i].as_str()),
            None => false,
        };
        r.push((stem, marked));
        i = i + 1;
    }
    r
}

} // verus!
