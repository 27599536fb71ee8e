//! Text as a sequence of characters: searching, trimming and splitting.
//!
//! Every contract in this crate speaks of text through its view, a
//! `Seq<char>`. The functions here work on `Vec<char>` so that a character
//! can be read in constant time.

use vstd::prelude::*;
use vstd::std_specs::iter::IteratorSpec;

verus! {

/// Whether `c` counts as white space: it has the Unicode property
/// `White_Space`. These are the tab, the line breaks and the space of ASCII,
/// and twenty characters beyond it.
pub open spec fn is_white_space(c: char) -> bool {
    ||| c == '\u{9}'
    ||| c == '\u{a}'
    ||| c == '\u{b}'
    ||| c == '\u{c}'
    ||| c == '\u{d}'
    ||| c == '\u{20}'
    ||| c == '\u{85}'
    ||| c == '\u{a0}'
    ||| c == '\u{1680}'
    ||| c == '\u{2000}'
    ||| c == '\u{2001}'
    ||| c == '\u{2002}'
    ||| c == '\u{2003}'
    ||| c == '\u{2004}'
    ||| c == '\u{2005}'
    ||| c == '\u{2006}'
    ||| c == '\u{2007}'
    ||| c == '\u{2008}'
    ||| c == '\u{2009}'
    ||| c == '\u{200a}'
    ||| c == '\u{2028}'
    ||| c == '\u{2029}'
    ||| c == '\u{202f}'
    ||| c == '\u{205f}'
    ||| c == '\u{3000}'
}

/// `char::is_whitespace` tells whether the character has the Unicode
/// property `White_Space`, which is what `is_white_space` states.
pub assume_specification[ char::is_whitespace ](c: char) -> (r: bool)
    ensures
        r == is_white_space(c),
;

/// `String::push` appends the one character to the end of the string.
pub assume_specification[ String::push ](s: &mut String, c: char)
    ensures
        final(s)@ == old(s)@.push(c),
;

/// The texts that the strings of `v` hold.
pub open spec fn texts(v: Seq<String>) -> Seq<Seq<char>> {
    Seq::new(v.len(), |i: int| v[i]@)
}

/// The text that `s` holds, if it holds one.
pub open spec fn text_of(s: Option<String>) -> Option<Seq<char>> {
    match s {
        Some(text) => Some(text@),
        None => None,
    }
}

/// `needle` stands in `hay` at index `at`.
pub open spec fn occurs_at(hay: Seq<char>, needle: Seq<char>, at: int) -> bool {
    &&& 0 <= at
    &&& at + needle.len() <= hay.len()
    &&& hay.subrange(at, at + needle.len()) == needle
}

/// The least index at or after `from` at which `needle` stands in `hay`.
pub open spec fn first_occurrence(hay: Seq<char>, needle: Seq<char>, from: int) -> Option<int>
    decreases hay.len() + 1 - from,
{
    if from < 0 || from + needle.len() > hay.len() {
        None
    } else if occurs_at(hay, needle, from) {
        Some(from)
    } else {
        first_occurrence(hay, needle, from + 1)
    }
}

/// The greatest index below `before` at which `c` stands in `s`.
pub open spec fn last_index_of(s: Seq<char>, c: char, before: int) -> Option<int>
    decreases before,
{
    if before <= 0 || before > s.len() {
        None
    } else if s[before - 1] == c {
        Some(before - 1)
    } else {
        last_index_of(s, c, before - 1)
    }
}

/// `s` without its leading white space.
pub open spec fn trimmed_start(s: Seq<char>) -> Seq<char>
    decreases s.len(),
{
    if s.len() > 0 && is_white_space(s[0]) {
        trimmed_start(s.drop_first())
    } else {
        s
    }
}

/// `s` without its trailing white space.
pub open spec fn trimmed_end(s: Seq<char>) -> Seq<char>
    decreases s.len(),
{
    if s.len() > 0 && is_white_space(s.last()) {
        trimmed_end(s.drop_last())
    } else {
        s
    }
}

/// `s` without its leading and trailing white space.
pub open spec fn trimmed(s: Seq<char>) -> Seq<char> {
    trimmed_end(trimmed_start(s))
}

/// What is left of `s` without its leading white space is the end of `s`,
/// and does not begin with white space.
pub proof fn lemma_trimmed_start(s: Seq<char>)
    ensures
        trimmed_start(s).len() <= s.len(),
        trimmed_start(s) == s.skip(s.len() - trimmed_start(s).len()),
        trimmed_start(s).len() > 0 ==> !is_white_space(trimmed_start(s)[0]),
    decreases s.len(),
{
    if s.len() > 0 && is_white_space(s[0]) {
        lemma_trimmed_start(s.drop_first());
        let rest = trimmed_start(s.drop_first());
        assert(s.drop_first().skip(s.drop_first().len() - rest.len()) == s.skip(
            s.len() - rest.len(),
        ));
    } else {
        assert(s.skip(0) == s);
    }
}

/// What is left of `s` without its trailing white space is the start of
/// `s`, and does not end with white space.
pub proof fn lemma_trimmed_end(s: Seq<char>)
    ensures
        trimmed_end(s).len() <= s.len(),
        trimmed_end(s) == s.take(trimmed_end(s).len() as int),
        trimmed_end(s).len() > 0 ==> !is_white_space(trimmed_end(s).last()),
    decreases s.len(),
{
    if s.len() > 0 && is_white_space(s.last()) {
        lemma_trimmed_end(s.drop_last());
        let rest = trimmed_end(s.drop_last());
        assert(s.drop_last().take(rest.len() as int) == s.take(rest.len() as int));
    } else {
        assert(s.take(s.len() as int) == s);
    }
}

/// A trimmed text is a part of the text that it was made from, and neither
/// begins nor ends with white space.
pub proof fn lemma_trimmed(s: Seq<char>)
    ensures
        trimmed(s).len() > 0 ==> !is_white_space(trimmed(s)[0]) && !is_white_space(
            trimmed(s).last(),
        ),
        forall|c: char| trimmed(s).contains(c) ==> s.contains(c),
{
    let start = trimmed_start(s);
    let t = trimmed(s);
    lemma_trimmed_start(s);
    lemma_trimmed_end(start);
    if t.len() > 0 {
        assert(t[0] == start[0]);
    }
    assert forall|c: char| t.contains(c) implies s.contains(c) by {
        let i = choose|i: int| 0 <= i < t.len() && t[i] == c;
        assert(start[i] == c);
        assert(s[s.len() - start.len() + i] == c);
    }
}

/// The index of the first character of `s` at or after `at` that is not a
/// blank: a space, or with `tabs` a space or a tab.
pub open spec fn after_blanks(s: Seq<char>, at: int, tabs: bool) -> int
    decreases s.len() - at,
{
    if 0 <= at < s.len() && (s[at] == ' ' || (tabs && s[at] == '\t')) {
        after_blanks(s, at + 1, tabs)
    } else {
        at
    }
}

/// The pieces of `s` from index `from` on, cut at each occurrence of `sep`,
/// occurrences taken from left to right without overlap.
pub open spec fn pieces_from(s: Seq<char>, sep: Seq<char>, from: int) -> Seq<Seq<char>>
    recommends
        sep.len() > 0,
        0 <= from <= s.len(),
    decreases s.len() - from,
{
    match first_occurrence(s, sep, from) {
        Some(at) if sep.len() > 0 && 0 <= from <= at && at + sep.len() <= s.len() => seq![
            s.subrange(from, at),
        ] + pieces_from(
            s,
            sep,
            at + sep.len(),
        ),
        _ => seq![s.subrange(from, s.len() as int)],
    }
}

/// The pieces of `s` between the occurrences of `sep`.
pub open spec fn split_by(s: Seq<char>, sep: Seq<char>) -> Seq<Seq<char>> {
    pieces_from(s, sep, 0)
}

/// The pieces of `s` between the occurrences of the character `c`.
pub open spec fn split_at_char(s: Seq<char>, c: char) -> Seq<Seq<char>> {
    split_by(s, seq![c])
}

/// An occurrence found from `from` on lies at or after `from`, within `hay`,
/// and nothing between `from` and it is an occurrence.
pub proof fn lemma_first_occurrence(hay: Seq<char>, needle: Seq<char>, from: int)
    ensures
        match first_occurrence(hay, needle, from) {
            Some(at) => from <= at && occurs_at(hay, needle, at) && forall|k: int|
                from <= k < at ==> !occurs_at(hay, needle, k),
            None => forall|k: int| 0 <= from <= k ==> !occurs_at(hay, needle, k),
        },
    decreases hay.len() + 1 - from,
{
    if from < 0 || from + needle.len() > hay.len() {
    } else if occurs_at(hay, needle, from) {
    } else {
        lemma_first_occurrence(hay, needle, from + 1);
    }
}

/// The characters of `s`.
pub fn to_chars(s: &str) -> (r: Vec<char>)
    ensures
        r@ == s@,
{
    let mut out: Vec<char> = Vec::new();
    let chars = s.chars();
    proof {
        broadcast use vstd::string::group_string_axioms;

        assert(chars.remaining() == s@);
    }
    for c in it: chars
        invariant
            it.seq() == s@,
            out@ == s@.take(it.index()),
    {
        out.push(c);
    }
    assert(s@.take(s@.len() as int) == s@);
    out
}

/// The characters of `v` from `from` up to `to`, as a string.
pub fn to_text(v: &Vec<char>, from: usize, to: usize) -> (r: String)
    requires
        from <= to <= v.len(),
    ensures
        r@ == v@.subrange(from as int, to as int),
{
    let mut out = String::new();
    let mut i: usize = from;
    while i < to
        invariant
            from <= i <= to <= v.len(),
            out@ == v@.subrange(from as int, i as int),
        decreases to - i,
    {
        out.push(v[i]);
        assert(v@.subrange(from as int, i as int).push(v@[i as int]) == v@.subrange(
            from as int,
            i + 1,
        ));
        i += 1;
    }
    out
}

/// A copy of the characters of `v` from `from` up to `to`.
pub fn slice_chars(v: &Vec<char>, from: usize, to: usize) -> (r: Vec<char>)
    requires
        from <= to <= v.len(),
    ensures
        r@ == v@.subrange(from as int, to as int),
{
    let mut out: Vec<char> = Vec::new();
    let mut i: usize = from;
    while i < to
        invariant
            from <= i <= to <= v.len(),
            out@ == v@.subrange(from as int, i as int),
        decreases to - i,
    {
        out.push(v[i]);
        assert(v@.subrange(from as int, i as int).push(v@[i as int]) == v@.subrange(
            from as int,
            i + 1,
        ));
        i += 1;
    }
    out
}

/// Whether the two hold the same characters.
pub fn same_chars(x: &Vec<char>, y: &Vec<char>) -> (r: bool)
    ensures
        r == (x@ == y@),
{
    if x.len() != y.len() {
        return false;
    }
    let mut i: usize = 0;
    while i < x.len()
        invariant
            i <= x.len(),
            x.len() == y.len(),
            x@.take(i as int) == y@.take(i as int),
        decreases x.len() - i,
    {
        if x[i] != y[i] {
            assert(x@[i as int] != y@[i as int]);
            return false;
        }
        assert(x@.take(i + 1) == x@.take(i as int).push(x@[i as int]));
        assert(y@.take(i + 1) == y@.take(i as int).push(y@[i as int]));
        i += 1;
    }
    assert(x@.take(x.len() as int) == x@);
    assert(y@.take(y.len() as int) == y@);
    true
}

/// Whether the two texts hold the same characters.
pub fn same_text(a: &str, b: &str) -> (r: bool)
    ensures
        r == (a@ == b@),
{
    let x = to_chars(a);
    let y = to_chars(b);
    same_chars(&x, &y)
}

/// Whether `needle` stands in `hay` at index `at`.
pub fn stands_at(hay: &Vec<char>, needle: &Vec<char>, at: usize) -> (r: bool)
    ensures
        r == occurs_at(hay@, needle@, at as int),
{
    if needle.len() > hay.len() || at > hay.len() - needle.len() {
        return false;
    }
    let mut i: usize = 0;
    while i < needle.len()
        invariant
            i <= needle.len(),
            at + needle.len() <= hay.len(),
            hay@.subrange(at as int, at + i) == needle@.take(i as int),
        decreases needle.len() - i,
    {
        if hay[at + i] != needle[i] {
            assert(hay@.subrange(at as int, at + needle.len())[i as int] != needle@[i as int]);
            return false;
        }
        assert(hay@.subrange(at as int, at + i + 1) == hay@.subrange(at as int, at + i).push(
            hay@[at + i],
        ));
        assert(needle@.take(i + 1) == needle@.take(i as int).push(needle@[i as int]));
        i += 1;
    }
    assert(needle@.take(needle.len() as int) == needle@);
    true
}

/// The first index at or after `from` at which `needle` stands in `hay`.
pub fn find_from(hay: &Vec<char>, needle: &Vec<char>, from: usize) -> (r: Option<usize>)
    ensures
        match r {
            Some(at) => first_occurrence(hay@, needle@, from as int) == Some(at as int) && from
                <= at && at + needle.len() <= hay.len(),
            None => first_occurrence(hay@, needle@, from as int) is None,
        },
{
    if needle.len() > hay.len() || from > hay.len() - needle.len() {
        return None;
    }
    let last: usize = hay.len() - needle.len();
    let mut i: usize = from;
    loop
        invariant
            from <= i <= last,
            last == hay.len() - needle.len(),
            first_occurrence(hay@, needle@, from as int) == first_occurrence(
                hay@,
                needle@,
                i as int,
            ),
        decreases last - i,
    {
        if stands_at(hay, needle, i) {
            return Some(i);
        }
        if i == last {
            assert(first_occurrence(hay@, needle@, i + 1) is None);
            return None;
        }
        i += 1;
    }
}

/// The last index at which `c` stands in `s`.
pub fn find_last_char(s: &Vec<char>, c: char) -> (r: Option<usize>)
    ensures
        match r {
            Some(at) => last_index_of(s@, c, s.len() as int) == Some(at as int) && at < s.len(),
            None => last_index_of(s@, c, s.len() as int) is None,
        },
{
    let mut i: usize = s.len();
    while i > 0
        invariant
            i <= s.len(),
            last_index_of(s@, c, s.len() as int) == last_index_of(s@, c, i as int),
        decreases i,
    {
        if s[i - 1] == c {
            return Some(i - 1);
        }
        i -= 1;
    }
    None
}

/// The index of the first character of `v` at or after `at` that is not a
/// blank.
pub fn skip_blanks(v: &Vec<char>, at: usize, tabs: bool) -> (r: usize)
    requires
        at <= v.len(),
    ensures
        at <= r <= v.len(),
        r == after_blanks(v@, at as int, tabs),
{
    let mut i: usize = at;
    while i < v.len() && (v[i] == ' ' || (tabs && v[i] == '\t'))
        invariant
            at <= i <= v.len(),
            after_blanks(v@, at as int, tabs) == after_blanks(v@, i as int, tabs),
        decreases v.len() - i,
    {
        i += 1;
    }
    i
}

/// `trimmed_start` drops a prefix: the rest is what follows the white space.
pub proof fn lemma_trimmed_start_step(s: Seq<char>, from: int, to: int)
    requires
        0 <= from < to <= s.len(),
        is_white_space(s[from]),
    ensures
        trimmed_start(s.subrange(from, to)) == trimmed_start(s.subrange(from + 1, to)),
{
    assert(s.subrange(from, to).drop_first() == s.subrange(from + 1, to));
}

/// `trimmed_end` drops a suffix: the rest is what precedes the white space.
pub proof fn lemma_trimmed_end_step(s: Seq<char>, from: int, to: int)
    requires
        0 <= from < to <= s.len(),
        is_white_space(s[to - 1]),
    ensures
        trimmed_end(s.subrange(from, to)) == trimmed_end(s.subrange(from, to - 1)),
{
    assert(s.subrange(from, to).drop_last() == s.subrange(from, to - 1));
}

/// The bounds of `s[from..to]` without its leading and trailing white space.
pub fn trim_bounds(s: &Vec<char>, from: usize, to: usize) -> (r: (usize, usize))
    requires
        from <= to <= s.len(),
    ensures
        from <= r.0 <= r.1 <= to,
        s@.subrange(r.0 as int, r.1 as int) == trimmed(s@.subrange(from as int, to as int)),
{
    let mut a: usize = from;
    while a < to && s[a].is_whitespace()
        invariant
            from <= a <= to <= s.len(),
            trimmed_start(s@.subrange(from as int, to as int)) == trimmed_start(
                s@.subrange(a as int, to as int),
            ),
        decreases to - a,
    {
        proof {
            lemma_trimmed_start_step(s@, a as int, to as int);
        }
        a += 1;
    }
    assert(trimmed_start(s@.subrange(a as int, to as int)) == s@.subrange(a as int, to as int));
    let mut b: usize = to;
    while b > a && s[b - 1].is_whitespace()
        invariant
            a <= b <= to <= s.len(),
            trimmed_end(s@.subrange(a as int, to as int)) == trimmed_end(
                s@.subrange(a as int, b as int),
            ),
        decreases b - a,
    {
        proof {
            lemma_trimmed_end_step(s@, a as int, b as int);
        }
        b -= 1;
    }
    (a, b)
}

/// The bounds of the pieces of `s` between the occurrences of `sep`.
pub fn split_bounds(s: &Vec<char>, sep: &Vec<char>) -> (r: Vec<(usize, usize)>)
    requires
        sep.len() > 0,
    ensures
        r.len() == split_by(s@, sep@).len(),
        forall|k: int|
            0 <= k < r.len() ==> (#[trigger] r[k]).0 <= r[k].1 <= s.len() && split_by(s@, sep@)[k]
                == s@.subrange(r[k].0 as int, r[k].1 as int),
{
    let mut out: Vec<(usize, usize)> = Vec::new();
    let mut from: usize = 0;
    loop
        invariant_except_break
            split_by(s@, sep@) == Seq::new(
                out.len() as nat,
                |k: int| s@.subrange(out[k].0 as int, out[k].1 as int),
            ) + pieces_from(s@, sep@, from as int),
        invariant
            sep.len() > 0,
            from <= s.len(),
            forall|k: int| 0 <= k < out.len() ==> (#[trigger] out[k]).0 <= out[k].1 <= s.len(),
        ensures
            out.len() == split_by(s@, sep@).len(),
            forall|k: int|
                0 <= k < out.len() ==> (#[trigger] out[k]).0 <= out[k].1 <= s.len() && split_by(
                    s@,
                    sep@,
                )[k] == s@.subrange(out[k].0 as int, out[k].1 as int),
        decreases s.len() - from,
    {
        let ghost before = Seq::new(
            out.len() as nat,
            |k: int| s@.subrange(out[k].0 as int, out[k].1 as int),
        );
        proof {
            lemma_first_occurrence(s@, sep@, from as int);
        }
        match find_from(s, sep, from) {
            Some(at) => {
                out.push((from, at));
                proof {
                    let after = Seq::new(
                        out.len() as nat,
                        |k: int| s@.subrange(out[k].0 as int, out[k].1 as int),
                    );
                    assert(after == before + seq![s@.subrange(from as int, at as int)]);
                    assert(split_by(s@, sep@) == after + pieces_from(
                        s@,
                        sep@,
                        at + sep.len(),
                    ));
                }
                from = at + sep.len();
            },
            None => {
                out.push((from, s.len()));
                proof {
                    let after = Seq::new(
                        out.len() as nat,
                        |k: int| s@.subrange(out[k].0 as int, out[k].1 as int),
                    );
                    assert(after == before + seq![s@.subrange(from as int, s.len() as int)]);
                    assert(split_by(s@, sep@) == after);
                }
                break ;
            },
        }
    }
    out
}

} // verus!
