//! Reading a drawn tree back.
//!
//! A tree that `crate::tree` has drawn can be read line by line: the indent
//! of a line gives its depth, the branch mark tells a directory from a file,
//! and the directories that are open when a file's line is read give the
//! file's path. Reading a drawn tree gives back the paths that it was drawn
//! from, provided that no path holds a line break.

use vstd::prelude::*;
use crate::order::{char_texts, insert_position, lemma_insert_position, sorted_paths};
use crate::text::{
    first_occurrence, lemma_first_occurrence, pieces_from, slice_chars, split_at_char, stands_at,
    texts, to_chars, to_text,
};
use crate::tree::{
    directories_of, directory_lines, directory_structure, file_name_of, indent,
    lemma_lines_text_concat, lemma_shared_depth, line_text, lines_text, open_after, path_lines,
    shared_depth, tree_lines, tree_lines_from, TreeLine,
};

verus! {

/// The index of the first line break of `text`, or its length where it has
/// none.
pub open spec fn first_newline(text: Seq<char>) -> int
    decreases text.len(),
{
    if text.len() == 0 || text[0] == '\n' {
        0
    } else {
        1 + first_newline(text.drop_first())
    }
}

/// How many spaces `text` begins with.
pub open spec fn leading_spaces(text: Seq<char>) -> int
    decreases text.len(),
{
    if text.len() > 0 && text[0] == ' ' {
        1 + leading_spaces(text.drop_first())
    } else {
        0
    }
}

/// The line that `text` draws, where it draws one: an even number of
/// spaces, then the mark of a directory, its name and `/`, or the mark of a
/// file and its name.
pub open spec fn read_line(text: Seq<char>) -> Option<TreeLine> {
    let spaces = leading_spaces(text);
    let rest = text.skip(spaces);
    if spaces % 2 != 0 {
        None
    } else if rest.len() >= 5 && rest.take(4) == "└── "@ && rest.last() == '/' {
        Some(
            TreeLine {
                depth: (spaces / 2) as nat,
                name: rest.subrange(4, rest.len() - 1),
                is_dir: true,
            },
        )
    } else if rest.len() >= 4 && rest.take(4) == "├── "@ {
        Some(TreeLine { depth: (spaces / 2) as nat, name: rest.skip(4), is_dir: false })
    } else {
        None
    }
}

/// The lines that `text` draws, in order. Only what ends with a line break
/// is a line, and a line that draws nothing is passed over.
pub open spec fn read_tree(text: Seq<char>) -> Seq<TreeLine>
    decreases text.len(),
{
    let end = first_newline(text);
    if end < 0 || end >= text.len() {
        Seq::empty()
    } else {
        let rest = read_tree(text.skip(end + 1));
        match read_line(text.take(end)) {
            Some(line) => seq![line] + rest,
            None => rest,
        }
    }
}

/// The segments put together again with `/` between them.
pub open spec fn joined(parts: Seq<Seq<char>>) -> Seq<char>
    decreases parts.len(),
{
    if parts.len() == 0 {
        Seq::empty()
    } else if parts.len() == 1 {
        parts[0]
    } else {
        parts[0] + seq!['/'] + joined(parts.drop_first())
    }
}

/// The directories above an entry at `depth` while `open` are open.
pub open spec fn above(open: Seq<Seq<char>>, depth: nat) -> Seq<Seq<char>> {
    if depth <= open.len() {
        open.take(depth as int)
    } else {
        open
    }
}

/// The directories that are open after the lines have been read.
pub open spec fn open_after_lines(open: Seq<Seq<char>>, lines: Seq<TreeLine>) -> Seq<Seq<char>>
    decreases lines.len(),
{
    if lines.len() == 0 {
        open
    } else if lines[0].is_dir {
        open_after_lines(above(open, lines[0].depth).push(lines[0].name), lines.drop_first())
    } else {
        open_after_lines(open, lines.drop_first())
    }
}

/// The paths of the files among the lines, in order: each file's name below
/// the directories that are open above it.
pub open spec fn leaves(open: Seq<Seq<char>>, lines: Seq<TreeLine>) -> Seq<Seq<char>>
    decreases lines.len(),
{
    if lines.len() == 0 {
        Seq::empty()
    } else if lines[0].is_dir {
        leaves(above(open, lines[0].depth).push(lines[0].name), lines.drop_first())
    } else {
        seq![joined(above(open, lines[0].depth).push(lines[0].name))] + leaves(
            open,
            lines.drop_first(),
        )
    }
}

/// The paths of the files that the tree drawn in `text` holds, in order.
pub open spec fn tree_leaves(text: Seq<char>) -> Seq<Seq<char>> {
    leaves(Seq::empty(), read_tree(text))
}

/// No character of `s` is a line break.
pub open spec fn on_one_line(s: Seq<char>) -> bool {
    forall|i: int| 0 <= i < s.len() ==> s[i] != '\n'
}

/// The first line break of a text that begins with a line of its own.
proof fn lemma_first_newline(body: Seq<char>, rest: Seq<char>)
    requires
        on_one_line(body),
    ensures
        first_newline(body + seq!['\n'] + rest) == body.len(),
    decreases body.len(),
{
    let text = body + seq!['\n'] + rest;
    if body.len() == 0 {
        assert(text[0] == '\n');
    } else {
        assert(text[0] == body[0]);
        assert(text.drop_first() == body.drop_first() + seq!['\n'] + rest);
        lemma_first_newline(body.drop_first(), rest);
    }
}

/// The spaces before a text that begins with an indent.
proof fn lemma_leading_spaces(depth: nat, rest: Seq<char>)
    requires
        rest.len() > 0,
        rest[0] != ' ',
    ensures
        indent(depth).len() == 2 * depth,
        on_one_line(indent(depth)),
        leading_spaces(indent(depth) + rest) == 2 * depth,
    decreases depth,
{
    lemma_indent(depth);
    lemma_spaces(indent(depth), rest);
}

/// An indent is made of spaces alone, two for each level.
proof fn lemma_indent(depth: nat)
    ensures
        indent(depth).len() == 2 * depth,
        forall|i: int| 0 <= i < indent(depth).len() ==> indent(depth)[i] == ' ',
    decreases depth,
{
    reveal_strlit("  ");
    if depth > 0 {
        lemma_indent((depth - 1) as nat);
    }
}

/// The spaces before a text that begins with a run of spaces.
proof fn lemma_spaces(run: Seq<char>, rest: Seq<char>)
    requires
        forall|i: int| 0 <= i < run.len() ==> run[i] == ' ',
        rest.len() > 0,
        rest[0] != ' ',
    ensures
        leading_spaces(run + rest) == run.len(),
    decreases run.len(),
{
    let text = run + rest;
    if run.len() == 0 {
        assert(text[0] == rest[0]);
    } else {
        assert(text[0] == run[0]);
        assert(text.drop_first() == run.drop_first() + rest);
        assert forall|i: int| 0 <= i < run.drop_first().len() implies run.drop_first()[i] == ' ' by {
            assert(run.drop_first()[i] == run[i + 1]);
        }
        lemma_spaces(run.drop_first(), rest);
    }
}

/// The text of a line without the line break at its end.
pub open spec fn line_body(line: TreeLine) -> Seq<char> {
    if line.is_dir {
        indent(line.depth) + "└── "@ + line.name + seq!['/']
    } else {
        indent(line.depth) + "├── "@ + line.name
    }
}

/// A line is read back from the text that draws it.
proof fn lemma_read_line(line: TreeLine)
    requires
        on_one_line(line.name),
    ensures
        line_text(line) == line_body(line) + seq!['\n'],
        on_one_line(line_body(line)),
        read_line(line_body(line)) == Some(line),
{
    reveal_strlit("└── ");
    reveal_strlit("├── ");
    reveal_strlit("/\n");
    reveal_strlit("\n");
    let body = line_body(line);
    let pad = indent(line.depth);
    lemma_indent(line.depth);
    if line.is_dir {
        let rest = "└── "@ + line.name + seq!['/'];
        assert(body == pad + rest);
        assert(rest[0] == '└');
        lemma_leading_spaces(line.depth, rest);
        assert(body.skip(2 * line.depth as int) == rest);
        assert(rest.take(4) == "└── "@);
        assert(rest.subrange(4, rest.len() - 1) == line.name);
        assert(line_text(line) == body + seq!['\n']);
        assert((2 * line.depth) % 2 == 0);
        assert((2 * line.depth) / 2 == line.depth);
    } else {
        let rest = "├── "@ + line.name;
        assert(body == pad + rest);
        assert(rest[0] == '├');
        lemma_leading_spaces(line.depth, rest);
        assert(body.skip(2 * line.depth as int) == rest);
        assert(rest.take(4) == "├── "@);
        assert(rest.take(4) != "└── "@) by {
            assert(rest.take(4)[0] == '├');
            assert("└── "@[0] == '└');
        }
        assert(rest.skip(4) == line.name);
        assert(line_text(line) == body + seq!['\n']);
        assert((2 * line.depth) % 2 == 0);
        assert((2 * line.depth) / 2 == line.depth);
    }
}

/// Every name among the lines is free of line breaks.
pub open spec fn names_on_one_line(lines: Seq<TreeLine>) -> bool {
    forall|i: int| 0 <= i < lines.len() ==> on_one_line(#[trigger] lines[i].name)
}

/// Lines are read back from the text that draws them.
pub proof fn lemma_read_tree(lines: Seq<TreeLine>)
    requires
        names_on_one_line(lines),
    ensures
        read_tree(lines_text(lines)) == lines,
    decreases lines.len(),
{
    if lines.len() == 0 {
    } else {
        let first = lines[0];
        let rest = lines.drop_first();
        assert(on_one_line(first.name));
        assert(names_on_one_line(rest)) by {
            assert forall|i: int| 0 <= i < rest.len() implies on_one_line(
                #[trigger] rest[i].name,
            ) by {
                assert(rest[i] == lines[i + 1]);
            }
        }
        lemma_read_tree(rest);
        lemma_lines_text_concat(seq![first], rest);
        assert(seq![first] + rest == lines);
        assert(lines_text(seq![first]) == line_text(first)) by {
            assert(seq![first].drop_last() == Seq::<TreeLine>::empty());
            assert(lines_text(Seq::<TreeLine>::empty()) == Seq::<char>::empty());
        }
        lemma_read_line(first);
        let body = line_body(first);
        let tail = lines_text(rest);
        let text = lines_text(lines);
        assert(text == body + seq!['\n'] + tail);
        lemma_first_newline(body, tail);
        assert(text.take(body.len() as int) == body);
        assert(text.skip(body.len() as int + 1) == tail);
    }
}

/// A text cut at `/` and put together again is the same text.
proof fn lemma_joined_pieces(s: Seq<char>, from: int)
    requires
        0 <= from <= s.len(),
    ensures
        joined(pieces_from(s, seq!['/'], from)) == s.subrange(from, s.len() as int),
        pieces_from(s, seq!['/'], from).len() >= 1,
    decreases s.len() - from,
{
    let sep = seq!['/'];
    lemma_first_occurrence(s, sep, from);
    match first_occurrence(s, sep, from) {
        Some(at) => {
            let rest = pieces_from(s, sep, at + 1);
            lemma_joined_pieces(s, at + 1);
            let pieces = pieces_from(s, sep, from);
            assert(pieces == seq![s.subrange(from, at)] + rest);
            assert(pieces.drop_first() == rest);
            assert(s.subrange(at, at + 1) == sep);
            assert(s.subrange(from, at) + sep + s.subrange(at + 1, s.len() as int) == s.subrange(
                from,
                s.len() as int,
            ));
        },
        None => {},
    }
}

/// The pieces of a text without line breaks have none.
proof fn lemma_pieces_on_one_line(s: Seq<char>, from: int)
    requires
        0 <= from <= s.len(),
        on_one_line(s),
    ensures
        forall|i: int|
            0 <= i < pieces_from(s, seq!['/'], from).len() ==> on_one_line(
                #[trigger] pieces_from(s, seq!['/'], from)[i],
            ),
    decreases s.len() - from,
{
    let sep = seq!['/'];
    lemma_first_occurrence(s, sep, from);
    match first_occurrence(s, sep, from) {
        Some(at) => {
            lemma_pieces_on_one_line(s, at + 1);
            let rest = pieces_from(s, sep, at + 1);
            let pieces = pieces_from(s, sep, from);
            assert(pieces == seq![s.subrange(from, at)] + rest);
            assert forall|i: int| 0 <= i < pieces.len() implies on_one_line(#[trigger] pieces[i]) by {
                if i > 0 {
                    assert(pieces[i] == rest[i - 1]);
                }
            }
        },
        None => {},
    }
}

/// Reading the lines of two runs: the second is read with the directories
/// open that the first has left open.
proof fn lemma_leaves_concat(open: Seq<Seq<char>>, a: Seq<TreeLine>, b: Seq<TreeLine>)
    ensures
        leaves(open, a + b) == leaves(open, a) + leaves(open_after_lines(open, a), b),
        open_after_lines(open, a + b) == open_after_lines(open_after_lines(open, a), b),
    decreases a.len(),
{
    if a.len() == 0 {
        assert(a + b == b);
    } else {
        assert((a + b)[0] == a[0]);
        assert((a + b).drop_first() == a.drop_first() + b);
        if a[0].is_dir {
            lemma_leaves_concat(above(open, a[0].depth).push(a[0].name), a.drop_first(), b);
        } else {
            lemma_leaves_concat(open, a.drop_first(), b);
        }
    }
}

/// Reading the lines of the directories `dirs` from level `from` on, while
/// the directories above that level are open, finds no file and leaves all
/// of `dirs` open.
proof fn lemma_directory_lines(open: Seq<Seq<char>>, dirs: Seq<Seq<char>>, from: int)
    requires
        0 <= from <= dirs.len(),
        from <= open.len(),
        open.take(from) == dirs.take(from),
    ensures
        leaves(open, directory_lines(dirs, from, dirs.len() as int)) == Seq::<Seq<char>>::empty(),
        open_after_lines(open, directory_lines(dirs, from, dirs.len() as int)) == if from
            < dirs.len() {
            dirs
        } else {
            open
        },
    decreases dirs.len() - from,
{
    let lines = directory_lines(dirs, from, dirs.len() as int);
    if from < dirs.len() {
        let next = above(open, from as nat).push(dirs[from]);
        assert(lines[0] == TreeLine { depth: from as nat, name: dirs[from], is_dir: true });
        assert(next == dirs.take(from + 1)) by {
            assert(dirs.take(from + 1) == dirs.take(from).push(dirs[from]));
        }
        assert(lines.drop_first() == directory_lines(dirs, from + 1, dirs.len() as int));
        assert(next.take(from + 1) == next);
        lemma_directory_lines(next, dirs, from + 1);
        assert(dirs.take(dirs.len() as int) == dirs);
    } else {
        assert(lines == Seq::<TreeLine>::empty());
    }
}

/// Reading the lines that a path adds finds that path, and leaves open what
/// drawing the path has left open.
proof fn lemma_path_lines(open: Seq<Seq<char>>, path: Seq<char>)
    ensures
        leaves(open, path_lines(open, path)) == seq![path],
        open_after_lines(open, path_lines(open, path)) == open_after(open, path),
{
    let parts = split_at_char(path, '/');
    let dirs = directories_of(path);
    let name = file_name_of(path);
    let shared = shared_depth(open, dirs, 0);
    lemma_joined_pieces(path, 0);
    lemma_shared_depth(open, dirs, 0);
    assert(path.subrange(0, path.len() as int) == path);
    assert(dirs.push(name) == parts);
    assert(open.take(shared) == dirs.take(shared));
    let branch = directory_lines(dirs, shared, dirs.len() as int);
    let leaf = TreeLine { depth: dirs.len(), name, is_dir: false };
    assert(path_lines(open, path) == branch + seq![leaf]);
    lemma_leaves_concat(open, branch, seq![leaf]);
    lemma_directory_lines(open, dirs, shared);
    let opened = open_after_lines(open, branch);
    assert(opened == open_after(open, path));
    assert(above(opened, dirs.len()) == dirs) by {
        assert(dirs.take(dirs.len() as int) == dirs);
    }
    assert(seq![leaf][0] == leaf);
    assert(seq![leaf].drop_first() == Seq::<TreeLine>::empty());
    assert(leaves(opened, Seq::<TreeLine>::empty()) == Seq::<Seq<char>>::empty());
    assert(open_after_lines(opened, Seq::<TreeLine>::empty()) == opened);
    assert(leaves(opened, seq![leaf]) == seq![path]);
    assert(open_after_lines(opened, seq![leaf]) == opened);
}

/// Reading the lines of the paths from index `from` on finds these paths,
/// in order.
proof fn lemma_tree_lines(open: Seq<Seq<char>>, paths: Seq<Seq<char>>, from: int)
    requires
        0 <= from <= paths.len(),
    ensures
        leaves(open, tree_lines_from(open, paths, from)) == paths.skip(from),
    decreases paths.len() - from,
{
    if from < paths.len() {
        let first = path_lines(open, paths[from]);
        let next = open_after(open, paths[from]);
        lemma_path_lines(open, paths[from]);
        lemma_tree_lines(next, paths, from + 1);
        lemma_leaves_concat(open, first, tree_lines_from(next, paths, from + 1));
        assert(seq![paths[from]] + paths.skip(from + 1) == paths.skip(from));
    } else {
        assert(paths.skip(from) == Seq::<Seq<char>>::empty());
    }
}

/// The names on the lines of paths without line breaks have none.
proof fn lemma_tree_line_names(open: Seq<Seq<char>>, paths: Seq<Seq<char>>, from: int)
    requires
        0 <= from <= paths.len(),
        forall|i: int| 0 <= i < paths.len() ==> on_one_line(#[trigger] paths[i]),
    ensures
        names_on_one_line(tree_lines_from(open, paths, from)),
    decreases paths.len() - from,
{
    if from < paths.len() {
        let path = paths[from];
        let first = path_lines(open, path);
        let next = open_after(open, path);
        let rest = tree_lines_from(next, paths, from + 1);
        lemma_tree_line_names(next, paths, from + 1);
        lemma_pieces_on_one_line(path, 0);
        lemma_joined_pieces(path, 0);
        let parts = split_at_char(path, '/');
        let dirs = directories_of(path);
        lemma_shared_depth(open, dirs, 0);
        assert forall|i: int| 0 <= i < first.len() implies on_one_line(#[trigger] first[i].name) by {
            if i < first.len() - 1 {
                let level = shared_depth(open, dirs, 0) + i;
                assert(first[i].name == dirs[level]);
                assert(dirs[level] == parts[level]);
            } else {
                assert(first[i].name == parts[parts.len() - 1]);
            }
        }
        let all = first + rest;
        assert forall|i: int| 0 <= i < all.len() implies on_one_line(#[trigger] all[i].name) by {
            if i < first.len() {
                assert(all[i] == first[i]);
            } else {
                assert(all[i] == rest[i - first.len()]);
            }
        }
    }
}

/// Sorting keeps the paths: what is among the sorted paths was given, and
/// what was given is among them.
pub proof fn lemma_sorted_paths_hold_the_same(paths: Seq<Seq<char>>)
    ensures
        sorted_paths(paths).to_set() == paths.to_set(),
    decreases paths.len(),
{
    if paths.len() == 0 {
    } else {
        let init = paths.drop_last();
        let x = paths.last();
        let rest = sorted_paths(init);
        let at = insert_position(rest, x, 0);
        lemma_sorted_paths_hold_the_same(init);
        lemma_insert_position(rest, x, 0);
        let out = rest.insert(at, x);
        assert forall|p: Seq<char>| out.to_set().contains(p) <==> paths.to_set().contains(p) by {
            if out.contains(p) {
                let i = choose|i: int| 0 <= i < out.len() && out[i] == p;
                if i < at {
                    assert(rest[i] == p);
                    assert(rest.to_set().contains(p));
                    assert(init.contains(p));
                    let j = choose|j: int| 0 <= j < init.len() && init[j] == p;
                    assert(paths[j] == p);
                } else if i == at {
                    assert(paths[paths.len() - 1] == p);
                } else {
                    assert(rest[i - 1] == p);
                    assert(rest.to_set().contains(p));
                    assert(init.contains(p));
                    let j = choose|j: int| 0 <= j < init.len() && init[j] == p;
                    assert(paths[j] == p);
                }
            }
            if paths.contains(p) {
                let j = choose|j: int| 0 <= j < paths.len() && paths[j] == p;
                if j < paths.len() - 1 {
                    assert(init[j] == p);
                    assert(init.to_set().contains(p));
                    assert(rest.contains(p));
                    let i = choose|i: int| 0 <= i < rest.len() && rest[i] == p;
                    if i < at {
                        assert(out[i] == p);
                    } else {
                        assert(out[i + 1] == p);
                    }
                } else {
                    assert(out[at] == p);
                }
            }
        }
        assert(out.to_set() =~= paths.to_set());
    }
}

/// Drawing the tree of a set of paths and reading the files back from what
/// was drawn gives the same paths: in ascending order, each as often as it
/// was given, and so as a set the paths that were given. This holds of all
/// paths that are free of line breaks.
pub proof fn lemma_tree_round_trip(paths: Seq<Seq<char>>)
    requires
        forall|i: int| 0 <= i < paths.len() ==> on_one_line(#[trigger] paths[i]),
    ensures
        tree_leaves(directory_structure(paths)) == sorted_paths(paths),
        tree_leaves(directory_structure(paths)).to_set() == paths.to_set(),
{
    let sorted = sorted_paths(paths);
    lemma_sorted_paths_hold_the_same(paths);
    assert forall|i: int| 0 <= i < sorted.len() implies on_one_line(#[trigger] sorted[i]) by {
        assert(sorted.to_set().contains(sorted[i]));
        assert(paths.contains(sorted[i]));
        let j = choose|j: int| 0 <= j < paths.len() && paths[j] == sorted[i];
        assert(on_one_line(paths[j]));
    }
    lemma_tree_line_names(Seq::empty(), sorted, 0);
    lemma_read_tree(tree_lines(sorted));
    lemma_tree_lines(Seq::empty(), sorted, 0);
    assert(sorted.skip(0) == sorted);
}

/// The index of the first line break of `v[from..]`, or the length of `v`
/// where there is none.
fn find_newline(v: &Vec<char>, from: usize) -> (r: usize)
    requires
        from <= v.len(),
    ensures
        from <= r <= v.len(),
        r - from == first_newline(v@.skip(from as int)),
{
    let mut i: usize = from;
    while i < v.len() && v[i] != '\n'
        invariant
            from <= i <= v.len(),
            first_newline(v@.skip(from as int)) == (i - from) + first_newline(v@.skip(i as int)),
        decreases v.len() - i,
    {
        assert(v@.skip(i as int).drop_first() == v@.skip(i + 1));
        i += 1;
    }
    i
}

/// How many spaces `v[from..to]` begins with.
fn count_spaces(v: &Vec<char>, from: usize, to: usize) -> (r: usize)
    requires
        from <= to <= v.len(),
    ensures
        from + r <= to,
        r == leading_spaces(v@.subrange(from as int, to as int)),
{
    let mut i: usize = from;
    while i < to && v[i] == ' '
        invariant
            from <= i <= to <= v.len(),
            leading_spaces(v@.subrange(from as int, to as int)) == (i - from) + leading_spaces(
                v@.subrange(i as int, to as int),
            ),
        decreases to - i,
    {
        assert(v@.subrange(i as int, to as int).drop_first() == v@.subrange(i + 1, to as int));
        i += 1;
    }
    i - from
}

/// A line that was read: its depth, the bounds of its name, and whether it
/// stands for a directory.
struct LineRead {
    depth: usize,
    from: usize,
    to: usize,
    is_dir: bool,
}

/// Reads the line `v[from..to]`.
fn read_line_at(v: &Vec<char>, from: usize, to: usize) -> (r: Option<LineRead>)
    requires
        from <= to <= v.len(),
    ensures
        match r {
            Some(line) => from <= line.from <= line.to <= to && read_line(
                v@.subrange(from as int, to as int),
            ) == Some(
                TreeLine {
                    depth: line.depth as nat,
                    name: v@.subrange(line.from as int, line.to as int),
                    is_dir: line.is_dir,
                },
            ),
            None => read_line(v@.subrange(from as int, to as int)) is None,
        },
{
    let spaces = count_spaces(v, from, to);
    if spaces % 2 != 0 {
        return None;
    }
    let start: usize = from + spaces;
    let ghost line = v@.subrange(from as int, to as int);
    let ghost rest = line.skip(spaces as int);
    assert(rest == v@.subrange(start as int, to as int));
    if to - start < 4 {
        return None;
    }
    assert(rest.take(4) == v@.subrange(start as int, start + 4));
    let dir_mark = to_chars("└── ");
    let file_mark = to_chars("├── ");
    if to - start >= 5 && stands_at(v, &dir_mark, start) && v[to - 1] == '/' {
        proof {
            reveal_strlit("└── ");
            assert(rest.last() == v@[to - 1]);
            assert(rest.subrange(4, rest.len() - 1) == v@.subrange(start + 4, to - 1));
        }
        return Some(LineRead { depth: spaces / 2, from: start + 4, to: to - 1, is_dir: true });
    }
    proof {
        reveal_strlit("└── ");
        reveal_strlit("├── ");
        if to - start >= 5 {
            assert(rest.last() == v@[to - 1]);
        }
    }
    if stands_at(v, &file_mark, start) {
        proof {
            assert(rest.skip(4) == v@.subrange(start + 4, to as int));
        }
        return Some(LineRead { depth: spaces / 2, from: start + 4, to, is_dir: false });
    }
    None
}

/// The path of the file `name` below the directories `dirs`.
fn join_path(dirs: &Vec<Vec<char>>, depth: usize, name: &Vec<char>) -> (r: String)
    requires
        depth <= dirs.len(),
    ensures
        r@ == joined(char_texts(dirs@).take(depth as int).push(name@)),
{
    let ghost above = char_texts(dirs@).take(depth as int);
    let mut out: Vec<char> = Vec::new();
    let mut k: usize = depth;
    assert(above.skip(depth as int).push(name@) == seq![name@]);
    while k > 0
        invariant
            k <= depth <= dirs.len(),
            above == char_texts(dirs@).take(depth as int),
            joined(above.skip(k as int).push(name@)) == out@ + name@,
        decreases k,
    {
        k -= 1;
        let ghost tail = above.skip(k + 1).push(name@);
        let ghost whole = above.skip(k as int).push(name@);
        assert(whole.drop_first() == tail);
        assert(whole[0] == dirs@[k as int]@);
        let mut next = dirs[k].clone();
        next.push('/');
        let ghost head = next@;
        let mut old_out = out;
        next.append(&mut old_out);
        out = next;
        assert(out@ + name@ == dirs@[k as int]@ + seq!['/'] + joined(tail));
    }
    assert(above.skip(0) == above);
    let mut i: usize = 0;
    let ghost prefix = out@;
    while i < name.len()
        invariant
            i <= name.len(),
            out@ == prefix + name@.take(i as int),
        decreases name.len() - i,
    {
        out.push(name[i]);
        assert(name@.take(i + 1) == name@.take(i as int).push(name@[i as int]));
        i += 1;
    }
    assert(name@.take(name.len() as int) == name@);
    to_text(&out, 0, out.len())
}

/// Reads a drawn tree back: the paths of the files that it holds, in the
/// order of their lines.
pub fn read_directory_structure(structure: &str) -> (r: Vec<String>)
    ensures
        texts(r@) == tree_leaves(structure@),
{
    let v = to_chars(structure);
    let mut open: Vec<Vec<char>> = Vec::new();
    let mut found: Vec<String> = Vec::new();
    let mut pos: usize = 0;
    assert(v@.skip(0) == v@);
    assert(char_texts(open@) == Seq::<Seq<char>>::empty());
    assert(texts(found@) == Seq::<Seq<char>>::empty());
    loop
        invariant
            pos <= v.len(),
            v@ == structure@,
            tree_leaves(structure@) == texts(found@) + leaves(
                char_texts(open@),
                read_tree(v@.skip(pos as int)),
            ),
        ensures
            tree_leaves(structure@) == texts(found@),
        decreases v.len() - pos,
    {
        let end = find_newline(&v, pos);
        let ghost text = v@.skip(pos as int);
        let ghost stack = char_texts(open@);
        if end >= v.len() {
            assert(read_tree(text) == Seq::<TreeLine>::empty());
            break ;
        }
        assert(text.take(end - pos) == v@.subrange(pos as int, end as int));
        assert(text.skip(end - pos + 1) == v@.skip(end + 1));
        let ghost rest = read_tree(v@.skip(end + 1));
        match read_line_at(&v, pos, end) {
            Some(line) => {
                let ghost drawn = TreeLine {
                    depth: line.depth as nat,
                    name: v@.subrange(line.from as int, line.to as int),
                    is_dir: line.is_dir,
                };
                assert(read_tree(text) == seq![drawn] + rest);
                assert((seq![drawn] + rest)[0] == drawn);
                assert((seq![drawn] + rest).drop_first() == rest);
                let name = slice_chars(&v, line.from, line.to);
                if line.depth <= open.len() {
                    assert(above(stack, drawn.depth) == stack.take(line.depth as int));
                    if line.is_dir {
                        open.truncate(line.depth);
                        assert(char_texts(open@) == stack.take(line.depth as int));
                        let ghost kept = char_texts(open@);
                        open.push(name);
                        assert(char_texts(open@) == kept.push(name@));
                    } else {
                        let path = join_path(&open, line.depth, &name);
                        let ghost before = found@;
                        found.push(path);
                        assert(texts(found@) == texts(before).push(path@));
                        assert(texts(before) + (seq![path@] + leaves(stack, rest)) == texts(
                            found@,
                        ) + leaves(stack, rest));
                    }
                } else {
                    assert(above(stack, drawn.depth) == stack);
                    if line.is_dir {
                        open.push(name);
                        assert(char_texts(open@) == stack.push(name@));
                    } else {
                        assert(stack.take(open.len() as int) == stack);
                        let path = join_path(&open, open.len(), &name);
                        let ghost before = found@;
                        found.push(path);
                        assert(texts(found@) == texts(before).push(path@));
                        assert(texts(before) + (seq![path@] + leaves(stack, rest)) == texts(
                            found@,
                        ) + leaves(stack, rest));
                    }
                }
            },
            None => {
                assert(read_tree(text) == rest);
            },
        }
        pos = end + 1;
    }
    found
}

} // verus!
