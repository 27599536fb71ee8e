//! A `requirements.txt` file: one dependency on each line.

use vstd::prelude::*;
use crate::summary::{dependency_block, push_dependency_block};
use crate::text::{
    find_from, first_occurrence, is_white_space, lemma_first_occurrence, lemma_trimmed,
    occurs_at, slice_chars, split_at_char, split_bounds, texts, to_chars, to_text, trim_bounds,
    trimmed,
};

verus! {

/// The dependency that `line` names: the line without the white space around
/// it and without a comment that `#` opens at its end. A blank line and a
/// line that is a comment name none.
pub open spec fn requirement_of(line: Seq<char>) -> Option<Seq<char>> {
    let t = trimmed(line);
    if t.len() == 0 || t[0] == '#' {
        None
    } else {
        let dep = match first_occurrence(t, seq!['#'], 0) {
            Some(at) => trimmed(t.subrange(0, at)),
            None => t,
        };
        if dep.len() > 0 {
            Some(dep)
        } else {
            None
        }
    }
}

/// The dependencies that the lines name, in order.
pub open spec fn requirements(lines: Seq<Seq<char>>) -> Seq<Seq<char>>
    decreases lines.len(),
{
    if lines.len() == 0 {
        Seq::empty()
    } else {
        let rest = requirements(lines.drop_last());
        match requirement_of(lines.last()) {
            Some(dep) => rest.push(dep),
            None => rest,
        }
    }
}

/// The summary of the requirements file `content`: a heading and, where the
/// file names any dependency, one line for each.
pub open spec fn requirements_info(content: Seq<char>) -> Seq<char> {
    "Project Type: Python (requirements.txt)\n"@ + dependency_block(
        requirements(split_at_char(content, '\n')),
    )
}

/// A dependency that a line names is not empty, holds no `#`, and neither
/// begins nor ends with white space; a blank line and a line that begins
/// with `#` name none.
pub proof fn lemma_requirement_of(line: Seq<char>)
    ensures
        match requirement_of(line) {
            Some(dep) => dep.len() > 0 && !dep.contains('#') && !is_white_space(dep[0])
                && !is_white_space(dep.last()),
            None => true,
        },
        trimmed(line).len() == 0 || trimmed(line)[0] == '#' ==> requirement_of(line) is None,
{
    let t = trimmed(line);
    lemma_trimmed(line);
    lemma_first_occurrence(t, seq!['#'], 0);
    match first_occurrence(t, seq!['#'], 0) {
        Some(at) => {
            let before = t.subrange(0, at);
            lemma_trimmed(before);
            assert forall|k: int| 0 <= k < before.len() implies before[k] != '#' by {
                if before[k] == '#' {
                    assert(t.subrange(k, k + 1) == seq!['#']);
                    assert(occurs_at(t, seq!['#'], k));
                }
            }
            let dep = trimmed(before);
            if dep.contains('#') {
                assert(before.contains('#'));
                let k = choose|k: int| 0 <= k < before.len() && before[k] == '#';
                assert(false);
            }
        },
        None => {
            assert forall|k: int| 0 <= k < t.len() implies t[k] != '#' by {
                if t[k] == '#' {
                    assert(t.subrange(k, k + 1) == seq!['#']);
                    assert(occurs_at(t, seq!['#'], k));
                }
            }
            if t.contains('#') {
                let k = choose|k: int| 0 <= k < t.len() && t[k] == '#';
                assert(false);
            }
        },
    }
}

/// Every dependency that the lines name is not empty and holds no `#`.
pub proof fn lemma_requirements(lines: Seq<Seq<char>>)
    ensures
        requirements(lines).len() <= lines.len(),
        forall|i: int|
            0 <= i < requirements(lines).len() ==> (#[trigger] requirements(lines)[i]).len() > 0
                && !requirements(lines)[i].contains('#'),
    decreases lines.len(),
{
    if lines.len() > 0 {
        lemma_requirements(lines.drop_last());
        lemma_requirement_of(lines.last());
    }
}

/// The dependency that the line `v[from..to]` names.
fn requirement_in(v: &Vec<char>, from: usize, to: usize) -> (r: Option<String>)
    requires
        from <= to <= v.len(),
    ensures
        match r {
            Some(dep) => requirement_of(v@.subrange(from as int, to as int)) == Some(dep@),
            None => requirement_of(v@.subrange(from as int, to as int)) is None,
        },
{
    let (a, b) = trim_bounds(v, from, to);
    let line = slice_chars(v, a, b);
    if line.len() == 0 || line[0] == '#' {
        return None;
    }
    let hash: Vec<char> = vec!['#'];
    assert(hash@ == seq!['#']);
    let (c, d) = match find_from(&line, &hash, 0) {
        Some(at) => trim_bounds(&line, 0, at),
        None => {
            assert(line@.subrange(0, line.len() as int) == line@);
            (0, line.len())
        },
    };
    if c < d {
        Some(to_text(&line, c, d))
    } else {
        None
    }
}

/// Summarises a requirements file from its text: every line that is neither
/// blank nor a comment gives one dependency, without the comment at its end.
pub fn extract_requirements_info(content: &str) -> (r: String)
    ensures
        r@ == requirements_info(content@),
        r@.len() > 0,
{
    proof {
        reveal_strlit("Project Type: Python (requirements.txt)\n");
    }
    let v = to_chars(content);
    let newline: Vec<char> = vec!['\n'];
    assert(newline@ == seq!['\n']);
    let bounds = split_bounds(&v, &newline);
    let ghost lines = split_at_char(v@, '\n');
    let mut dependencies: Vec<String> = Vec::new();
    let mut k: usize = 0;
    assert(lines.take(0) == Seq::<Seq<char>>::empty());
    assert(texts(dependencies@) == Seq::<Seq<char>>::empty());
    while k < bounds.len()
        invariant
            k <= bounds.len(),
            bounds.len() == lines.len(),
            forall|j: int|
                0 <= j < bounds.len() ==> (#[trigger] bounds[j]).0 <= bounds[j].1 <= v.len()
                    && lines[j] == v@.subrange(bounds[j].0 as int, bounds[j].1 as int),
            texts(dependencies@) == requirements(lines.take(k as int)),
        decreases bounds.len() - k,
    {
        let (a, b) = bounds[k];
        assert(lines.take(k + 1).drop_last() == lines.take(k as int));
        assert(lines.take(k + 1).last() == lines[k as int]);
        match requirement_in(&v, a, b) {
            Some(dep) => {
                let ghost before = dependencies@;
                dependencies.push(dep);
                assert(texts(dependencies@) == texts(before).push(dep@));
            },
            None => {},
        }
        k += 1;
    }
    assert(lines.take(bounds.len() as int) == lines);
    let mut info = String::from_str("Project Type: Python (requirements.txt)\n");
    push_dependency_block(&mut info, &dependencies);
    info
}

} // verus!
