//! The rules by which files are collected from a directory tree.
//!
//! Walking the tree and reading the files is left to the caller. This module
//! decides which directories are passed over, which files are read, and
//! under which path a file that was read is kept.

use vstd::prelude::*;
use crate::format::{file_texts, FileEntry, FileText};
use crate::text::{occurs_at, same_chars, stands_at, to_chars, to_text};

verus! {

/// The size in bytes above which a file is not read: 100 KiB.
pub const MAX_FILE_SIZE: u64 = 102400;

/// `s` ends with `suffix`.
pub open spec fn ends_with(s: Seq<char>, suffix: Seq<char>) -> bool {
    occurs_at(s, suffix, s.len() - suffix.len())
}

/// Whether a directory of this name is passed over with all that it holds:
/// the directories of version control, of build output, of downloaded
/// dependencies, of editors, and of Python's environments and caches. A name
/// is matched as a whole, except that every name that ends with `.egg-info`
/// is matched.
pub open spec fn is_excluded_directory(name: Seq<char>) -> bool {
    ||| name == ".git"@
    ||| name == "target"@
    ||| name == "node_modules"@
    ||| name == ".vscode"@
    ||| name == ".idea"@
    ||| name == ".github"@
    ||| name == "dist"@
    ||| name == "build"@
    ||| name == "out"@
    ||| name == "__pycache__"@
    ||| name == ".pytest_cache"@
    ||| name == ".mypy_cache"@
    ||| name == ".tox"@
    ||| name == ".eggs"@
    ||| name == ".ipynb_checkpoints"@
    ||| name == "venv"@
    ||| name == "env"@
    ||| name == ".env"@
    ||| ends_with(name, ".egg-info"@)
}

/// Whether a file with this extension is passed over: executables and
/// libraries, archives, images, fonts and compiled bytecode. The extension
/// is given without its dot.
pub open spec fn is_excluded_extension(extension: Seq<char>) -> bool {
    ||| extension == "exe"@
    ||| extension == "dll"@
    ||| extension == "so"@
    ||| extension == "dylib"@
    ||| extension == "o"@
    ||| extension == "obj"@
    ||| extension == "a"@
    ||| extension == "lib"@
    ||| extension == "bin"@
    ||| extension == "png"@
    ||| extension == "jpg"@
    ||| extension == "jpeg"@
    ||| extension == "gif"@
    ||| extension == "svg"@
    ||| extension == "ico"@
    ||| extension == "woff"@
    ||| extension == "woff2"@
    ||| extension == "ttf"@
    ||| extension == "eot"@
    ||| extension == "pyc"@
    ||| extension == "pyd"@
    ||| extension == "pyo"@
    ||| extension == "class"@
    ||| extension == "jar"@
}

/// Whether `chars` holds the text `wanted`.
fn is_text(chars: &Vec<char>, wanted: &str) -> (r: bool)
    ensures
        r == (chars@ == wanted@),
{
    let other = to_chars(wanted);
    same_chars(chars, &other)
}

/// Whether `chars` ends with the text `suffix`.
fn has_suffix(chars: &Vec<char>, suffix: &str) -> (r: bool)
    ensures
        r == ends_with(chars@, suffix@),
{
    let other = to_chars(suffix);
    if other.len() > chars.len() {
        return false;
    }
    stands_at(chars, &other, chars.len() - other.len())
}

/// Whether the entry `name` of a walk is passed over, and with it all that
/// lies below it: it is, where it is a directory with an excluded name.
pub fn should_exclude_entry(name: &str, is_dir: bool) -> (r: bool)
    ensures
        r == (is_dir && is_excluded_directory(name@)),
{
    if !is_dir {
        return false;
    }
    let n = to_chars(name);
    is_text(&n, ".git") || is_text(&n, "target") || is_text(&n, "node_modules") || is_text(
        &n,
        ".vscode",
    ) || is_text(&n, ".idea") || is_text(&n, ".github") || is_text(&n, "dist") || is_text(
        &n,
        "build",
    ) || is_text(&n, "out") || is_text(&n, "__pycache__") || is_text(&n, ".pytest_cache")
        || is_text(&n, ".mypy_cache") || is_text(&n, ".tox") || is_text(&n, ".eggs") || is_text(
        &n,
        ".ipynb_checkpoints",
    ) || is_text(&n, "venv") || is_text(&n, "env") || is_text(&n, ".env") || has_suffix(
        &n,
        ".egg-info",
    )
}

/// Whether a file with the extension `extension`, given without its dot, is
/// passed over.
pub fn has_excluded_extension(extension: &str) -> (r: bool)
    ensures
        r == is_excluded_extension(extension@),
{
    let e = to_chars(extension);
    is_text(&e, "exe") || is_text(&e, "dll") || is_text(&e, "so") || is_text(&e, "dylib")
        || is_text(&e, "o") || is_text(&e, "obj") || is_text(&e, "a") || is_text(&e, "lib")
        || is_text(&e, "bin") || is_text(&e, "png") || is_text(&e, "jpg") || is_text(&e, "jpeg")
        || is_text(&e, "gif") || is_text(&e, "svg") || is_text(&e, "ico") || is_text(&e, "woff")
        || is_text(&e, "woff2") || is_text(&e, "ttf") || is_text(&e, "eot") || is_text(&e, "pyc")
        || is_text(&e, "pyd") || is_text(&e, "pyo") || is_text(&e, "class") || is_text(&e, "jar")
}

/// One entry of a walk through a directory tree, as the walk lists it:
/// every directory is followed at once by all that lies below it.
pub struct WalkEntry {
    /// How far below the root of the walk the entry lies.
    pub depth: nat,
    /// The entry's name, where it can be read as text.
    pub name: Option<Seq<char>>,
    /// Whether the entry is a directory.
    pub is_dir: bool,
}

/// The entry is a directory with an excluded name.
pub open spec fn is_excluded_entry(entry: WalkEntry) -> bool {
    entry.is_dir && (entry.name matches Some(name) && is_excluded_directory(name))
}

/// One step of the walk. `below` is the depth of the excluded directory that
/// the walk is in, if it is in one. The step tells the depth for the next
/// entry and whether this entry is visited: it is not, where it lies deeper
/// than `below` or is itself an excluded directory.
pub open spec fn walk_step(below: Option<nat>, entry: WalkEntry) -> (Option<nat>, bool) {
    if below matches Some(d) && entry.depth > d {
        (below, false)
    } else if is_excluded_entry(entry) {
        (Some(entry.depth), false)
    } else {
        (None, true)
    }
}

/// The depth of the excluded directory that the walk is in before entry `i`.
pub open spec fn below_before(entries: Seq<WalkEntry>, i: int) -> Option<nat>
    decreases i,
{
    if i <= 0 {
        None
    } else {
        walk_step(below_before(entries, i - 1), entries[i - 1]).0
    }
}

/// Whether the walk visits entry `i`.
pub open spec fn is_visited(entries: Seq<WalkEntry>, i: int) -> bool {
    walk_step(below_before(entries, i), entries[i]).1
}

/// Entry `j` lies below the directory that is entry `i`: it comes later, and
/// from `i` to it every entry lies deeper than `i`.
pub open spec fn lies_below(entries: Seq<WalkEntry>, i: int, j: int) -> bool {
    i < j && forall|m: int| i < m <= j ==> (#[trigger] entries[m]).depth > entries[i].depth
}

/// While the walk is below an excluded directory it stays there and visits
/// nothing.
proof fn lemma_stays_below(entries: Seq<WalkEntry>, i: int, m: int)
    requires
        0 <= i < m <= entries.len(),
        is_excluded_entry(entries[i]),
        forall|k: int| i < k < m ==> (#[trigger] entries[k]).depth > entries[i].depth,
    ensures
        below_before(entries, m) matches Some(d) && d <= entries[i].depth,
        forall|k: int| i < k < m ==> !is_visited(entries, k),
    decreases m - i,
{
    if m > i + 1 {
        lemma_stays_below(entries, i, m - 1);
        assert(entries[m - 1].depth > entries[i].depth);
    }
}

/// Nothing that lies below a directory with an excluded name is visited,
/// whatever the tree.
pub proof fn lemma_excluded_directories_hide_what_is_below(
    entries: Seq<WalkEntry>,
    i: int,
    j: int,
)
    requires
        0 <= i < j < entries.len(),
        is_excluded_entry(entries[i]),
        lies_below(entries, i, j),
    ensures
        !is_visited(entries, i),
        !is_visited(entries, j),
{
    lemma_stays_below(entries, i, j + 1);
}

/// The state of a walk: where it stands with respect to the excluded
/// directories.
pub struct Walker {
    below: Option<usize>,
}

impl View for Walker {
    type V = Option<nat>;

    closed spec fn view(&self) -> Option<nat> {
        match self.below {
            Some(d) => Some(d as nat),
            None => None,
        }
    }
}

impl Walker {
    /// The state at the start of a walk.
    pub fn new() -> (r: Walker)
        ensures
            r@ is None,
    {
        Walker { below: None }
    }

    /// Takes the next entry of the walk and tells whether it is visited.
    /// Where the entry is a directory that is not visited, the caller may
    /// leave out all that lies below it.
    pub fn step(&mut self, depth: usize, name: Option<&str>, is_dir: bool) -> (visit: bool)
        ensures
            (final(self)@, visit) == walk_step(
                old(self)@,
                WalkEntry {
                    depth: depth as nat,
                    name: match name {
                        Some(n) => Some(n@),
                        None => None,
                    },
                    is_dir,
                },
            ),
    {
        match self.below {
            Some(d) => {
                if depth > d {
                    return false;
                }
            },
            None => {},
        }
        let excluded = match name {
            Some(n) => should_exclude_entry(n, is_dir),
            None => false,
        };
        if excluded {
            self.below = Some(depth);
            false
        } else {
            self.below = None;
            true
        }
    }
}

/// What is done with a file that the walk visits.
#[derive(Debug, Clone, PartialEq, Eq)]
pub enum FileDecision {
    /// The file is passed over for its extension.
    SkipExtension,
    /// The file is passed over for its size, and the notice says so.
    SkipLarge { notice: String },
    /// The file is read.
    Read,
}

/// The size is known and is more than `MAX_FILE_SIZE`.
pub open spec fn is_too_large(size: Option<u64>) -> bool {
    size matches Some(n) && n > MAX_FILE_SIZE
}

/// The extension is there and is an excluded one.
pub open spec fn is_unwanted(extension: Option<Seq<char>>) -> bool {
    extension matches Some(e) && is_excluded_extension(e)
}

/// The notice that the file at `path` was passed over for its size.
pub open spec fn skip_notice(path: Seq<char>) -> Seq<char> {
    "Skipping large file: "@ + path
}

/// Decides whether the file at `path` is read, from its extension, given
/// without its dot where the file has one, and from its size in bytes, where
/// that is known.
///
/// A file with an excluded extension is passed over. Of the others, a file
/// of more than `MAX_FILE_SIZE` bytes is passed over with a notice, and a
/// file of that size or less, or of unknown size, is read.
pub fn check_file(path: &str, extension: Option<&str>, size: Option<u64>) -> (r: FileDecision)
    ensures
        r is SkipExtension <==> is_unwanted(
            match extension {
                Some(e) => Some(e@),
                None => None,
            },
        ),
        r is SkipLarge <==> !(r is SkipExtension) && is_too_large(size),
        r is Read <==> !(r is SkipExtension) && !is_too_large(size),
        r matches FileDecision::SkipLarge { notice } ==> notice@ == skip_notice(path@),
{
    match extension {
        Some(e) => {
            if has_excluded_extension(e) {
                return FileDecision::SkipExtension;
            }
        },
        None => {},
    }
    match size {
        Some(n) => {
            if n > MAX_FILE_SIZE {
                let mut notice = String::from_str("Skipping large file: ");
                notice.append(path);
                return FileDecision::SkipLarge { notice };
            }
        },
        None => {},
    }
    FileDecision::Read
}

/// `s` without the characters `c` that it begins with.
pub open spec fn without_leading(s: Seq<char>, c: char) -> Seq<char>
    decreases s.len(),
{
    if s.len() > 0 && s[0] == c {
        without_leading(s.drop_first(), c)
    } else {
        s
    }
}

/// `raw` without the separators that it begins with, first `/` and then
/// `\`.
pub open spec fn clean_relative_path(raw: Seq<char>) -> Seq<char> {
    without_leading(without_leading(raw, '/'), '\\')
}

/// The index of the first character of `v[from..]` that is not `c`.
fn skip_leading(v: &Vec<char>, from: usize, c: char) -> (r: usize)
    requires
        from <= v.len(),
    ensures
        from <= r <= v.len(),
        v@.subrange(r as int, v.len() as int) == without_leading(
            v@.subrange(from as int, v.len() as int),
            c,
        ),
{
    let mut i: usize = from;
    while i < v.len() && v[i] == c
        invariant
            from <= i <= v.len(),
            without_leading(v@.subrange(from as int, v.len() as int), c) == without_leading(
                v@.subrange(i as int, v.len() as int),
                c,
            ),
        decreases v.len() - i,
    {
        assert(v@.subrange(i as int, v.len() as int).drop_first() == v@.subrange(
            i + 1,
            v.len() as int,
        ));
        i += 1;
    }
    i
}

/// Whether `c` separates the segments of a path.
pub open spec fn is_separator(c: char) -> bool {
    c == '/' || c == '\\'
}

/// The path `file` lies under the root `base`: it begins with `base`, and
/// there it ends or a new segment begins.
pub open spec fn lies_under(file: Seq<char>, base: Seq<char>) -> bool {
    &&& occurs_at(file, base, 0)
    &&& (base.len() == 0 || file.len() == base.len() || is_separator(base.last()) || is_separator(
        file[base.len() as int],
    ))
}

/// The path of `file` relative to the root `base` that it was found under:
/// what follows `base` where the file lies under it, else the whole path,
/// in either case without the separators that it begins with. A file that
/// is its own root has the empty path.
pub open spec fn path_below(file: Seq<char>, base: Seq<char>) -> Seq<char> {
    if lies_under(file, base) {
        clean_relative_path(file.skip(base.len() as int))
    } else {
        clean_relative_path(file)
    }
}

/// The path of the file at `file_path` relative to the root `base_dir` that
/// it was found under.
pub fn relative_path(file_path: &str, base_dir: &str) -> (r: String)
    ensures
        r@ == path_below(file_path@, base_dir@),
{
    let file = to_chars(file_path);
    let base = to_chars(base_dir);
    let under = stands_at(&file, &base, 0) && (base.len() == 0 || file.len() == base.len()
        || base[base.len() - 1] == '/' || base[base.len() - 1] == '\\' || file[base.len()] == '/'
        || file[base.len()] == '\\');
    let start: usize = if under {
        base.len()
    } else {
        0
    };
    assert(file@.subrange(start as int, file.len() as int) == file@.skip(start as int));
    assert(file@.skip(0) == file@);
    let a = skip_leading(&file, start, '/');
    let b = skip_leading(&file, a, '\\');
    to_text(&file, b, file.len())
}

/// Keeps a file that was read. `file_path` is the file's path and `base_dir`
/// the root that it was found under; `content` is the file's text, or
/// nothing where the file could not be read as text. A file that was read
/// is added to `files` under its path relative to the root; one that was
/// not leaves `files` as it is.
pub fn process_file(
    file_path: &str,
    base_dir: &str,
    content: Option<String>,
    files: &mut Vec<FileEntry>,
) -> (added: bool)
    ensures
        added == content.is_some(),
        match content {
            Some(text) => file_texts(final(files)@) == file_texts(old(files)@).push(
                FileText { path: path_below(file_path@, base_dir@), content: text@ },
            ),
            None => final(files)@ == old(files)@,
        },
{
    match content {
        Some(text) => {
            let path = relative_path(file_path, base_dir);
            let ghost before = file_texts(files@);
            let entry = FileEntry { path, content: text };
            files.push(entry);
            assert(file_texts(files@) == before.push(entry@));
            true
        },
        None => false,
    }
}

/// The warning that the file at `path` could not be read, with the reason.
pub fn read_failure_notice(path: &str, reason: &str) -> (r: String)
    ensures
        r@ == "Error reading file "@ + path@ + ": "@ + reason@,
{
    let mut notice = String::from_str("Error reading file ");
    notice.append(path);
    notice.append(": ");
    notice.append(reason);
    notice
}

} // verus!
