//! The order of texts, and paths put in that order.
//!
//! Texts are ordered as strings are: character by character from the left,
//! a character before another by its code point, and a text before every
//! longer text that begins with it.

use vstd::prelude::*;
use vstd::relations::total_ordering;

verus! {

/// `a` comes before `b` or equals it, comparing from index `from` on.
pub open spec fn text_le_from(a: Seq<char>, b: Seq<char>, from: int) -> bool
    decreases a.len() - from,
{
    if from < 0 || from >= a.len() {
        true
    } else if from >= b.len() {
        false
    } else if a[from] != b[from] {
        (a[from] as u32) < (b[from] as u32)
    } else {
        text_le_from(a, b, from + 1)
    }
}

/// `a` comes before `b` or equals it.
pub open spec fn text_le(a: Seq<char>, b: Seq<char>) -> bool {
    text_le_from(a, b, 0)
}

/// The index from `from` on of the first of `sorted` that comes after `x`:
/// where `x` goes so that it follows everything that does not come after it.
pub open spec fn insert_position(sorted: Seq<Seq<char>>, x: Seq<char>, from: int) -> int
    decreases sorted.len() - from,
{
    if 0 <= from < sorted.len() && text_le(sorted[from], x) {
        insert_position(sorted, x, from + 1)
    } else {
        from
    }
}

/// The texts of `paths` in ascending order.
pub open spec fn sorted_paths(paths: Seq<Seq<char>>) -> Seq<Seq<char>>
    decreases paths.len(),
{
    if paths.len() == 0 {
        Seq::empty()
    } else {
        let rest = sorted_paths(paths.drop_last());
        rest.insert(insert_position(rest, paths.last(), 0), paths.last())
    }
}

/// Each text of `s` comes before the next or equals it.
pub open spec fn ascending(s: Seq<Seq<char>>) -> bool {
    forall|i: int| 0 <= i < s.len() - 1 ==> text_le(#[trigger] s[i], s[i + 1])
}

/// Of two texts, one comes before the other or equals it.
pub proof fn lemma_text_le_total(a: Seq<char>, b: Seq<char>, from: int)
    requires
        0 <= from,
        from <= a.len(),
        from <= b.len(),
    ensures
        text_le_from(a, b, from) || text_le_from(b, a, from),
    decreases a.len() - from,
{
    if from < a.len() && from < b.len() {
        if a[from] == b[from] {
            lemma_text_le_total(a, b, from + 1);
        } else {
            let code_a = a[from] as u32;
            let code_b = b[from] as u32;
            vstd::utf8::char_u32_cast(a[from], code_a);
            vstd::utf8::char_u32_cast(b[from], code_b);
        }
    }
}

/// Every text comes before itself or equals it.
pub proof fn lemma_text_le_reflexive(a: Seq<char>, from: int)
    ensures
        text_le_from(a, a, from),
    decreases a.len() - from,
{
    if 0 <= from < a.len() {
        lemma_text_le_reflexive(a, from + 1);
    }
}

/// Two texts of which each comes before the other or equals it are equal.
pub proof fn lemma_text_le_antisymmetric(a: Seq<char>, b: Seq<char>, from: int)
    requires
        0 <= from <= a.len(),
        from <= b.len(),
        a.take(from) == b.take(from),
        text_le_from(a, b, from),
        text_le_from(b, a, from),
    ensures
        a == b,
    decreases a.len() - from,
{
    if from < a.len() && from < b.len() {
        assert(a[from] == b[from]);
        assert(a.take(from + 1) == a.take(from).push(a[from]));
        assert(b.take(from + 1) == b.take(from).push(b[from]));
        lemma_text_le_antisymmetric(a, b, from + 1);
    } else {
        assert(a.take(a.len() as int) == a);
        assert(b.take(b.len() as int) == b);
    }
}

/// What comes before a text that comes before a third comes before the
/// third.
pub proof fn lemma_text_le_transitive(a: Seq<char>, b: Seq<char>, c: Seq<char>, from: int)
    requires
        0 <= from,
        text_le_from(a, b, from),
        text_le_from(b, c, from),
    ensures
        text_le_from(a, c, from),
    decreases a.len() - from,
{
    if from < a.len() && a[from] == b[from] && b[from] == c[from] {
        lemma_text_le_transitive(a, b, c, from + 1);
    }
}

/// The order of texts as a relation.
pub open spec fn text_order() -> spec_fn(Seq<char>, Seq<char>) -> bool {
    |a: Seq<char>, b: Seq<char>| text_le(a, b)
}

/// The order of texts is a total order.
pub proof fn lemma_text_order_is_total()
    ensures
        total_ordering(text_order()),
{
    let leq = text_order();
    assert forall|x: Seq<char>| #[trigger] leq(x, x) by {
        lemma_text_le_reflexive(x, 0);
    }
    assert forall|x: Seq<char>, y: Seq<char>| #[trigger] leq(x, y) && #[trigger] leq(y, x) implies x
        == y by {
        assert(x.take(0) == y.take(0));
        lemma_text_le_antisymmetric(x, y, 0);
    }
    assert forall|x: Seq<char>, y: Seq<char>, z: Seq<char>| #[trigger]
        leq(x, y) && #[trigger] leq(y, z) implies leq(x, z) by {
        lemma_text_le_transitive(x, y, z, 0);
    }
    assert forall|x: Seq<char>, y: Seq<char>| #[trigger] leq(x, y) || #[trigger] leq(y, x) by {
        lemma_text_le_total(x, y, 0);
    }
}

/// In an ascending run every text comes before every later one or equals
/// it.
pub proof fn lemma_ascending_is_sorted(s: Seq<Seq<char>>, i: int, j: int)
    requires
        ascending(s),
        0 <= i < j < s.len(),
    ensures
        text_le(s[i], s[j]),
    decreases j - i,
{
    if i + 1 < j {
        lemma_ascending_is_sorted(s, i, j - 1);
        assert(text_le(s[j - 1], s[j - 1 + 1]));
        lemma_text_le_transitive(s[i], s[j - 1], s[j], 0);
    }
}

/// Sorting does not depend on the order in which the paths are given: two
/// runs that hold the same paths, each as often in the one as in the other,
/// are the same once sorted.
pub proof fn lemma_sorting_ignores_order(p: Seq<Seq<char>>, q: Seq<Seq<char>>)
    requires
        p.to_multiset() == q.to_multiset(),
    ensures
        sorted_paths(p) == sorted_paths(q),
{
    let leq = text_order();
    let x = sorted_paths(p);
    let y = sorted_paths(q);
    lemma_sorted_paths(p);
    lemma_sorted_paths(q);
    lemma_text_order_is_total();
    assert forall|i: int, j: int| 0 <= i < j < x.len() implies #[trigger] leq(x[i], x[j]) by {
        lemma_ascending_is_sorted(x, i, j);
    }
    assert forall|i: int, j: int| 0 <= i < j < y.len() implies #[trigger] leq(y[i], y[j]) by {
        lemma_ascending_is_sorted(y, i, j);
    }
    vstd::seq_lib::lemma_sorted_unique(x, y, leq);
}

/// Where `x` is inserted, everything before it does not come after it, and
/// what follows it comes after it.
pub proof fn lemma_insert_position(sorted: Seq<Seq<char>>, x: Seq<char>, from: int)
    requires
        0 <= from <= sorted.len(),
    ensures
        from <= insert_position(sorted, x, from) <= sorted.len(),
        forall|i: int| from <= i < insert_position(sorted, x, from) ==> text_le(sorted[i], x),
        insert_position(sorted, x, from) < sorted.len() ==> !text_le(
            sorted[insert_position(sorted, x, from)],
            x,
        ),
    decreases sorted.len() - from,
{
    if from < sorted.len() && text_le(sorted[from], x) {
        lemma_insert_position(sorted, x, from + 1);
    }
}

/// Sorting keeps every path, each as often as it was given, and puts them in
/// ascending order.
pub proof fn lemma_sorted_paths(paths: Seq<Seq<char>>)
    ensures
        sorted_paths(paths).len() == paths.len(),
        sorted_paths(paths).to_multiset() == paths.to_multiset(),
        ascending(sorted_paths(paths)),
    decreases paths.len(),
{
    if paths.len() == 0 {
        assert(sorted_paths(paths) == paths);
    } else {
        let rest = sorted_paths(paths.drop_last());
        let x = paths.last();
        let at = insert_position(rest, x, 0);
        lemma_sorted_paths(paths.drop_last());
        lemma_insert_position(rest, x, 0);
        let out = rest.insert(at, x);
        assert(out.to_multiset() == paths.to_multiset()) by {
            vstd::seq_lib::to_multiset_insert(rest, at, x);
            vstd::seq_lib::to_multiset_build(paths.drop_last(), x);
            assert(paths == paths.drop_last().push(x));
        }
        assert forall|i: int| 0 <= i < out.len() - 1 implies text_le(#[trigger] out[i], out[i + 1]) by {
            if i + 1 < at {
                assert(out[i] == rest[i]);
                assert(out[i + 1] == rest[i + 1]);
            } else if i + 1 == at {
                assert(out[i] == rest[i]);
            } else if i == at {
                assert(out[i + 1] == rest[at]);
                lemma_text_le_total(rest[at], x, 0);
            } else {
                assert(out[i] == rest[i - 1]);
                assert(out[i + 1] == rest[i]);
            }
        }
    }
}

/// Whether `a` comes before `b` or equals it.
pub fn text_precedes(a: &Vec<char>, b: &Vec<char>) -> (r: bool)
    ensures
        r == text_le(a@, b@),
{
    let mut i: usize = 0;
    while i < a.len() && i < b.len()
        invariant
            i <= a.len(),
            i <= b.len(),
            text_le(a@, b@) == text_le_from(a@, b@, i as int),
        decreases a.len() - i,
    {
        if a[i] != b[i] {
            return (a[i] as u32) < (b[i] as u32);
        }
        i += 1;
    }
    i >= a.len()
}

/// The paths in ascending order.
pub fn sort_paths(paths: &Vec<Vec<char>>) -> (r: Vec<Vec<char>>)
    ensures
        char_texts(r@) == sorted_paths(char_texts(paths@)),
{
    let mut sorted: Vec<Vec<char>> = Vec::new();
    let ghost all = char_texts(paths@);
    let mut k: usize = 0;
    assert(all.take(0) == Seq::<Seq<char>>::empty());
    assert(char_texts(sorted@) == Seq::<Seq<char>>::empty());
    while k < paths.len()
        invariant
            k <= paths.len(),
            all == char_texts(paths@),
            char_texts(sorted@) == sorted_paths(all.take(k as int)),
        decreases paths.len() - k,
    {
        let path = &paths[k];
        let ghost rest = char_texts(sorted@);
        assert(all.take(k + 1).drop_last() == all.take(k as int));
        assert(all.take(k + 1).last() == path@);
        let mut at: usize = 0;
        while at < sorted.len() && text_precedes(&sorted[at], path)
            invariant
                at <= sorted.len(),
                rest == char_texts(sorted@),
                insert_position(rest, path@, 0) == insert_position(rest, path@, at as int),
            decreases sorted.len() - at,
        {
            at += 1;
        }
        sorted.insert(at, path.clone());
        assert(char_texts(sorted@) == rest.insert(at as int, path@));
        k += 1;
    }
    assert(all.take(paths.len() as int) == all);
    sorted
}

/// The texts that the character vectors of `v` hold.
pub open spec fn char_texts(v: Seq<Vec<char>>) -> Seq<Seq<char>> {
    Seq::new(v.len(), |i: int| v[i]@)
}

} // verus!
