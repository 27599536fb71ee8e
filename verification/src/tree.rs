//! The directory structure of a set of paths, drawn as an indented tree.
//!
//! The paths are sorted and then walked in order while a stack holds the
//! directories that are open. For each path a line is drawn for every
//! directory of it that is not open already, and then a line for the file
//! itself, each indented by its depth.

use vstd::prelude::*;
use crate::order::{char_texts, lemma_sorting_ignores_order, sort_paths, sorted_paths};
use crate::text::{same_chars, slice_chars, split_at_char, split_bounds, to_chars, to_text};

verus! {

/// One line of the tree.
pub struct TreeLine {
    /// How many directories lie above the entry.
    pub depth: nat,
    /// The name of the directory or of the file.
    pub name: Seq<char>,
    /// Whether the line stands for a directory.
    pub is_dir: bool,
}

/// Two spaces for each level of depth.
pub open spec fn indent(depth: nat) -> Seq<char>
    decreases depth,
{
    if depth == 0 {
        Seq::empty()
    } else {
        indent((depth - 1) as nat) + "  "@
    }
}

/// The text of a line: the indent, the branch mark of a directory or of a
/// file, the name, and for a directory a closing `/`.
pub open spec fn line_text(line: TreeLine) -> Seq<char> {
    if line.is_dir {
        indent(line.depth) + "└── "@ + line.name + "/\n"@
    } else {
        indent(line.depth) + "├── "@ + line.name + "\n"@
    }
}

/// The text of the lines, one after the other.
pub open spec fn lines_text(lines: Seq<TreeLine>) -> Seq<char>
    decreases lines.len(),
{
    if lines.len() == 0 {
        Seq::empty()
    } else {
        lines_text(lines.drop_last()) + line_text(lines.last())
    }
}

/// How many of the directories `dirs`, counted from the top and at least
/// `from`, are open already: the length of what `dirs` and `open` share.
pub open spec fn shared_depth(open: Seq<Seq<char>>, dirs: Seq<Seq<char>>, from: int) -> int
    decreases dirs.len() - from,
{
    if 0 <= from < open.len() && from < dirs.len() && open[from] == dirs[from] {
        shared_depth(open, dirs, from + 1)
    } else {
        from
    }
}

/// The lines of the directories `dirs` from level `from` on.
pub open spec fn directory_lines(dirs: Seq<Seq<char>>, from: int, to: int) -> Seq<TreeLine> {
    Seq::new(
        (to - from) as nat,
        |i: int| TreeLine { depth: (from + i) as nat, name: dirs[from + i], is_dir: true },
    )
}

/// The directories of `path`: its segments between `/` but the last.
pub open spec fn directories_of(path: Seq<char>) -> Seq<Seq<char>> {
    split_at_char(path, '/').drop_last()
}

/// The name of the file of `path`: its last segment.
pub open spec fn file_name_of(path: Seq<char>) -> Seq<char> {
    split_at_char(path, '/').last()
}

/// The lines that `path` adds while the directories `open` are open: one
/// for each of its directories below those that it shares with `open`, then
/// one for its file.
pub open spec fn path_lines(open: Seq<Seq<char>>, path: Seq<char>) -> Seq<TreeLine> {
    let dirs = directories_of(path);
    directory_lines(dirs, shared_depth(open, dirs, 0), dirs.len() as int).push(
        TreeLine { depth: dirs.len(), name: file_name_of(path), is_dir: false },
    )
}

/// The directories that are open after `path`: those of `path`, or, where
/// all of them were open before, the same as before.
pub open spec fn open_after(open: Seq<Seq<char>>, path: Seq<char>) -> Seq<Seq<char>> {
    let dirs = directories_of(path);
    if shared_depth(open, dirs, 0) == dirs.len() {
        open
    } else {
        dirs
    }
}

/// The lines of the paths from index `from` on, taken in the order given,
/// while the directories `open` are open.
pub open spec fn tree_lines_from(open: Seq<Seq<char>>, paths: Seq<Seq<char>>, from: int) -> Seq<
    TreeLine,
>
    decreases paths.len() - from,
{
    if from < 0 || from >= paths.len() {
        Seq::empty()
    } else {
        path_lines(open, paths[from]) + tree_lines_from(
            open_after(open, paths[from]),
            paths,
            from + 1,
        )
    }
}

/// The lines of the tree of `paths`, taken in the order given.
pub open spec fn tree_lines(paths: Seq<Seq<char>>) -> Seq<TreeLine> {
    tree_lines_from(Seq::empty(), paths, 0)
}

/// The tree of `paths` as text: the lines of the paths in ascending order.
pub open spec fn directory_structure(paths: Seq<Seq<char>>) -> Seq<char> {
    lines_text(tree_lines(sorted_paths(paths)))
}

/// The text of two runs of lines is the text of the first, then that of
/// the second.
pub proof fn lemma_lines_text_concat(a: Seq<TreeLine>, b: Seq<TreeLine>)
    ensures
        lines_text(a + b) == lines_text(a) + lines_text(b),
    decreases b.len(),
{
    if b.len() == 0 {
        assert(a + b == a);
    } else {
        lemma_lines_text_concat(a, b.drop_last());
        assert((a + b).drop_last() == a + b.drop_last());
        assert((a + b).last() == b.last());
    }
}

/// What `shared_depth` counts is shared, and it stops at the first level
/// that is not.
pub proof fn lemma_shared_depth(open: Seq<Seq<char>>, dirs: Seq<Seq<char>>, from: int)
    requires
        0 <= from <= open.len(),
        from <= dirs.len(),
    ensures
        from <= shared_depth(open, dirs, from) <= open.len(),
        shared_depth(open, dirs, from) <= dirs.len(),
        forall|j: int| from <= j < shared_depth(open, dirs, from) ==> open[j] == dirs[j],
    decreases dirs.len() - from,
{
    if from < open.len() && from < dirs.len() && open[from] == dirs[from] {
        lemma_shared_depth(open, dirs, from + 1);
    }
}

/// The drawn tree does not depend on the order in which the paths are
/// given.
pub proof fn lemma_structure_ignores_order(p: Seq<Seq<char>>, q: Seq<Seq<char>>)
    requires
        p.to_multiset() == q.to_multiset(),
    ensures
        directory_structure(p) == directory_structure(q),
{
    lemma_sorting_ignores_order(p, q);
}

/// A text cut at a character has at least one piece.
pub proof fn lemma_split_is_not_empty(s: Seq<char>, c: char)
    ensures
        split_at_char(s, c).len() >= 1,
{
}

/// Appends two spaces for each level of `depth`.
fn push_indent(out: &mut String, depth: usize)
    ensures
        final(out)@ == old(out)@ + indent(depth as nat),
{
    let mut i: usize = 0;
    while i < depth
        invariant
            i <= depth,
            out@ == old(out)@ + indent(i as nat),
        decreases depth - i,
    {
        out.append("  ");
        i += 1;
    }
}

/// Appends the line of the entry `name` at `depth`.
fn push_line(out: &mut String, depth: usize, name: &str, is_dir: bool)
    ensures
        final(out)@ == old(out)@ + line_text(
            TreeLine { depth: depth as nat, name: name@, is_dir },
        ),
{
    push_indent(out, depth);
    if is_dir {
        out.append("└── ");
        out.append(name);
        out.append("/\n");
    } else {
        out.append("├── ");
        out.append(name);
        out.append("\n");
    }
}

/// Appends the lines of `path` to `out` and brings the stack of open
/// directories up to date.
fn push_path(out: &mut String, open: &mut Vec<Vec<char>>, path: &Vec<char>)
    ensures
        final(out)@ == old(out)@ + lines_text(path_lines(char_texts(old(open)@), path@)),
        char_texts(final(open)@) == open_after(char_texts(old(open)@), path@),
{
    let slash: Vec<char> = vec!['/'];
    assert(slash@ == seq!['/']);
    let bounds = split_bounds(path, &slash);
    let ghost parts = split_at_char(path@, '/');
    let ghost dirs = directories_of(path@);
    let ghost before = char_texts(open@);
    proof {
        lemma_split_is_not_empty(path@, '/');
        lemma_shared_depth(before, dirs, 0);
    }
    let depth: usize = bounds.len() - 1;
    let mut shared: usize = 0;
    while shared < depth && shared < open.len()
        invariant
            shared <= depth,
            shared <= open.len(),
            depth == dirs.len(),
            depth + 1 == bounds.len(),
            before == char_texts(open@),
            parts == split_at_char(path@, '/'),
            dirs == parts.drop_last(),
            bounds.len() == parts.len(),
            forall|j: int|
                0 <= j < bounds.len() ==> (#[trigger] bounds[j]).0 <= bounds[j].1 <= path.len()
                    && parts[j] == path@.subrange(bounds[j].0 as int, bounds[j].1 as int),
            shared_depth(before, dirs, 0) == shared_depth(before, dirs, shared as int),
        ensures
            shared <= depth,
            shared <= open.len(),
            shared == shared_depth(before, dirs, 0),
        decreases depth - shared,
    {
        let (a, b) = bounds[shared];
        let name = slice_chars(path, a, b);
        assert(name@ == dirs[shared as int]);
        assert(before[shared as int] == open@[shared as int]@);
        if !same_chars(&open[shared], &name) {
            break ;
        }
        shared += 1;
    }
    if shared < depth {
        open.truncate(shared);
    }
    let ghost base = out@;
    let mut level: usize = shared;
    assert(directory_lines(dirs, shared as int, shared as int) == Seq::<TreeLine>::empty());
    while level < depth
        invariant
            shared <= level <= depth,
            depth == dirs.len(),
            depth + 1 == bounds.len(),
            parts == split_at_char(path@, '/'),
            dirs == parts.drop_last(),
            bounds.len() == parts.len(),
            forall|j: int|
                0 <= j < bounds.len() ==> (#[trigger] bounds[j]).0 <= bounds[j].1 <= path.len()
                    && parts[j] == path@.subrange(bounds[j].0 as int, bounds[j].1 as int),
            out@ == base + lines_text(directory_lines(dirs, shared as int, level as int)),
            shared < depth ==> char_texts(open@) == dirs.take(level as int),
            shared == depth ==> char_texts(open@) == before,
        decreases depth - level,
    {
        let (a, b) = bounds[level];
        let name = slice_chars(path, a, b);
        let shown = to_text(path, a, b);
        assert(name@ == dirs[level as int]);
        proof {
            let next = directory_lines(dirs, shared as int, level + 1);
            assert(next.drop_last() == directory_lines(dirs, shared as int, level as int));
            assert(next.last() == TreeLine {
                depth: level as nat,
                name: dirs[level as int],
                is_dir: true,
            });
        }
        push_line(out, level, shown.as_str(), true);
        let ghost opened = char_texts(open@);
        open.push(name);
        assert(char_texts(open@) == opened.push(dirs[level as int]));
        assert(dirs.take(level + 1) == dirs.take(level as int).push(dirs[level as int]));
        level += 1;
    }
    let (a, b) = bounds[depth];
    let file = to_text(path, a, b);
    assert(file@ == parts.last());
    proof {
        let all = path_lines(before, path@);
        assert(all.drop_last() == directory_lines(dirs, shared as int, depth as int));
        assert(dirs.take(depth as int) == dirs);
    }
    push_line(out, depth, file.as_str(), false);
}

/// Draws the tree of `paths`, taken in the order given.
pub fn render_tree(paths: &Vec<Vec<char>>) -> (r: String)
    ensures
        r@ == lines_text(tree_lines(char_texts(paths@))),
{
    let mut out = String::new();
    let mut open: Vec<Vec<char>> = Vec::new();
    let ghost all = char_texts(paths@);
    let mut k: usize = 0;
    assert(char_texts(open@) == Seq::<Seq<char>>::empty());
    while k < paths.len()
        invariant
            k <= paths.len(),
            all == char_texts(paths@),
            lines_text(tree_lines(all)) == out@ + lines_text(
                tree_lines_from(char_texts(open@), all, k as int),
            ),
        decreases paths.len() - k,
    {
        let ghost before = char_texts(open@);
        let ghost drawn = out@;
        proof {
            lemma_lines_text_concat(
                path_lines(before, all[k as int]),
                tree_lines_from(open_after(before, all[k as int]), all, k + 1),
            );
        }
        push_path(&mut out, &mut open, &paths[k]);
        assert(out@ + lines_text(tree_lines_from(char_texts(open@), all, k + 1)) == drawn
            + lines_text(tree_lines_from(before, all, k as int)));
        k += 1;
    }
    out
}

/// The texts that the strings of `v` hold.
pub open spec fn path_texts(v: Seq<&String>) -> Seq<Seq<char>> {
    Seq::new(v.len(), |i: int| v[i]@)
}

/// Draws the directory structure of `paths`: the paths are sorted, and for
/// each in turn a line is drawn for every directory of it that is not open
/// already and then one for its file. The result does not depend on the
/// order in which the paths are given.
pub fn get_directory_structure(paths: Vec<&String>) -> (r: String)
    ensures
        r@ == directory_structure(path_texts(paths@)),
{
    let mut chars: Vec<Vec<char>> = Vec::new();
    let mut k: usize = 0;
    while k < paths.len()
        invariant
            k <= paths.len(),
            char_texts(chars@) == path_texts(paths@).take(k as int),
        decreases paths.len() - k,
    {
        let ghost before = char_texts(chars@);
        let path = to_chars(paths[k].as_str());
        chars.push(path);
        assert(char_texts(chars@) == before.push(path@));
        k += 1;
    }
    assert(path_texts(paths@).take(paths.len() as int) == path_texts(paths@));
    let sorted = sort_paths(&chars);
    render_tree(&sorted)
}

} // verus!
