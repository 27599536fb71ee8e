//! A shallow scan of a `setup.py` script.
//!
//! The script is never run nor parsed as a program. A parameter is looked up
//! by its name where a value is assigned to it, and a list or a dictionary
//! is read by a scanner that tracks quotes and nesting depth one character
//! at a time. What a script builds by other means is silently passed over.

use vstd::prelude::*;
use crate::summary::{
    dependency_block, groups, optional_field, push_dependency_block, push_group_heading,
    push_nested_bullets, push_optional_field,
};
use crate::text::{
    after_blanks, find_from, find_last_char, first_occurrence, last_index_of,
    lemma_first_occurrence, occurs_at, skip_blanks, slice_chars, split_at_char, split_bounds,
    split_by, stands_at, texts, to_chars, to_text, trim_bounds, trimmed,
};

verus! {

/// `s` with the white space around it removed, and then one pair of matching
/// quotes around what is left, if there is one.
pub open spec fn cleaned(s: Seq<char>) -> Seq<char> {
    let t = trimmed(s);
    if t.len() >= 2 && ((t[0] == '"' && t.last() == '"') || (t[0] == '\'' && t.last() == '\'')) {
        t.subrange(1, t.len() - 1)
    } else {
        t
    }
}

/// The cleaned pieces, in order, without those that are empty once cleaned.
pub open spec fn cleaned_items(pieces: Seq<Seq<char>>) -> Seq<Seq<char>>
    decreases pieces.len(),
{
    if pieces.len() == 0 {
        Seq::empty()
    } else {
        let rest = cleaned_items(pieces.drop_last());
        let item = cleaned(pieces.last());
        if item.len() > 0 {
            rest.push(item)
        } else {
            rest
        }
    }
}

/// The items of a bracketed list: what stands between the first `[` and the
/// last `]` of `list_str`, cut at the commas. There is no list where either
/// bracket is missing or the last `]` comes before the first `[`.
pub open spec fn list_items(list_str: Seq<char>) -> Option<Seq<Seq<char>>> {
    match (
        first_occurrence(list_str, seq!['['], 0),
        last_index_of(list_str, ']', list_str.len() as int),
    ) {
        (Some(open), Some(close)) if open < close => Some(
            cleaned_items(split_at_char(list_str.subrange(open + 1, close), ',')),
        ),
        _ => None,
    }
}

/// The bounds within `v[from..to]` of its cleaned text.
pub fn clean_bounds(v: &Vec<char>, from: usize, to: usize) -> (r: (usize, usize))
    requires
        from <= to <= v.len(),
    ensures
        from <= r.0 <= r.1 <= to,
        v@.subrange(r.0 as int, r.1 as int) == cleaned(v@.subrange(from as int, to as int)),
{
    let (a, b) = trim_bounds(v, from, to);
    let ghost t = trimmed(v@.subrange(from as int, to as int));
    assert(t == v@.subrange(a as int, b as int));
    if b - a >= 2 && ((v[a] == '"' && v[b - 1] == '"') || (v[a] == '\'' && v[b - 1] == '\'')) {
        assert(t[0] == v@[a as int]);
        assert(t.last() == v@[b - 1]);
        assert(v@.subrange(a + 1, b - 1) == t.subrange(1, t.len() - 1));
        (a + 1, b - 1)
    } else {
        if b - a >= 2 {
            assert(t[0] == v@[a as int]);
            assert(t.last() == v@[b - 1]);
        }
        (a, b)
    }
}

/// Strips the white space around `s`, then one pair of matching single or
/// double quotes around the rest. A lone quote character is left as it is.
pub fn cleanup_string(s: &str) -> (r: String)
    ensures
        r@ == cleaned(s@),
{
    let v = to_chars(s);
    assert(v@.subrange(0, v.len() as int) == v@);
    let (a, b) = clean_bounds(&v, 0, v.len());
    to_text(&v, a, b)
}

/// The items of the bracketed list within `v[from..to]`.
pub fn list_from_chars(v: &Vec<char>, from: usize, to: usize) -> (r: Option<Vec<String>>)
    requires
        from <= to <= v.len(),
    ensures
        match r {
            Some(items) => list_items(v@.subrange(from as int, to as int)) == Some(texts(items@)),
            None => list_items(v@.subrange(from as int, to as int)) is None,
        },
{
    let part = slice_chars(v, from, to);
    let opening: Vec<char> = vec!['['];
    assert(opening@ == seq!['[']);
    let open = match find_from(&part, &opening, 0) {
        Some(i) => i,
        None => { return None; },
    };
    let close = match find_last_char(&part, ']') {
        Some(i) => i,
        None => { return None; },
    };
    proof {
        lemma_first_occurrence(part@, seq!['['], 0);
    }
    if open >= close {
        return None;
    }
    let inner = slice_chars(&part, open + 1, close);
    let comma: Vec<char> = vec![','];
    assert(comma@ == seq![',']);
    let bounds = split_bounds(&inner, &comma);
    let ghost pieces = split_at_char(inner@, ',');
    let mut items: Vec<String> = Vec::new();
    let mut k: usize = 0;
    assert(pieces.take(0) == Seq::<Seq<char>>::empty());
    assert(texts(items@) == Seq::<Seq<char>>::empty());
    while k < bounds.len()
        invariant
            k <= bounds.len(),
            bounds.len() == pieces.len(),
            pieces == split_at_char(inner@, ','),
            forall|j: int|
                0 <= j < bounds.len() ==> (#[trigger] bounds[j]).0 <= bounds[j].1 <= inner.len()
                    && pieces[j] == inner@.subrange(bounds[j].0 as int, bounds[j].1 as int),
            texts(items@) == cleaned_items(pieces.take(k as int)),
        decreases bounds.len() - k,
    {
        let (a, b) = bounds[k];
        assert(pieces[k as int] == inner@.subrange(a as int, b as int));
        let (c, d) = clean_bounds(&inner, a, b);
        proof {
            assert(pieces.take(k + 1).drop_last() == pieces.take(k as int));
            assert(pieces.take(k + 1).last() == pieces[k as int]);
        }
        if d > c {
            let item = to_text(&inner, c, d);
            let ghost before = items@;
            items.push(item);
            assert(texts(items@) == texts(before).push(item@));
        }
        k += 1;
    }
    assert(pieces.take(bounds.len() as int) == pieces);
    Some(items)
}

/// The items of a list written as text, such as `[item1, item2]`: what
/// stands between the first `[` and the last `]`, cut at the commas, each
/// piece cleaned, empty pieces left out.
pub fn extract_list_from_str(list_str: &str) -> (r: Option<Vec<String>>)
    ensures
        match r {
            Some(items) => list_items(list_str@) == Some(texts(items@)),
            None => list_items(list_str@) is None,
        },
{
    let v = to_chars(list_str);
    assert(v@.subrange(0, v.len() as int) == v@);
    list_from_chars(&v, 0, v.len())
}

/// The marker that stands in a pattern for the text to capture.
pub open spec fn capture_mark() -> Seq<char> {
    "(.*?)"@
}

/// The captures for the parts of a pattern from part `k` on, searching
/// `text` from `pos`: each part is looked for as literal text after the one
/// before it, and what lies between two parts is captured.
pub open spec fn captures_from(text: Seq<char>, parts: Seq<Seq<char>>, k: int, pos: int) -> Option<
    Seq<Seq<char>>,
>
    decreases parts.len() - k,
{
    if k < 0 || k >= parts.len() {
        Some(Seq::empty())
    } else {
        match first_occurrence(text, parts[k], pos) {
            None => None,
            Some(at) => match captures_from(text, parts, k + 1, at + parts[k].len()) {
                None => None,
                Some(rest) => Some(seq![text.subrange(pos, at)] + rest),
            },
        }
    }
}

/// What `pattern` captures in `text`. The pattern is cut at each capture
/// mark into parts of literal text; it captures nothing when it holds no
/// mark or when one of its parts is not found in turn.
pub open spec fn pattern_captures(text: Seq<char>, pattern: Seq<char>) -> Option<Seq<Seq<char>>> {
    let parts = split_by(pattern, capture_mark());
    if parts.len() < 2 {
        None
    } else {
        match first_occurrence(text, parts[0], 0) {
            None => None,
            Some(start) => captures_from(text, parts, 1, start + parts[0].len()),
        }
    }
}

/// Matches `pattern` against `text`. The pattern is no regular expression:
/// apart from the capture mark `(.*?)` every character of it stands for
/// itself. The first occurrence of the text before the first mark starts the
/// match; each later part is then searched after the one before, and the
/// text between two parts is one capture.
pub fn regex_extract(text: &str, pattern: &str) -> (r: Option<Vec<String>>)
    ensures
        match r {
            Some(found) => pattern_captures(text@, pattern@) == Some(texts(found@)),
            None => pattern_captures(text@, pattern@) is None,
        },
{
    let hay = to_chars(text);
    let pat = to_chars(pattern);
    let mark = to_chars("(.*?)");
    proof {
        reveal_strlit("(.*?)");
    }
    let bounds = split_bounds(&pat, &mark);
    let ghost parts = split_by(pat@, mark@);
    if bounds.len() < 2 {
        return None;
    }
    let (a0, b0) = bounds[0];
    let first = slice_chars(&pat, a0, b0);
    assert(first@ == parts[0]);
    let start = match find_from(&hay, &first, 0) {
        Some(i) => i,
        None => { return None; },
    };
    let mut pos: usize = start + first.len();
    let mut found: Vec<String> = Vec::new();
    let mut k: usize = 1;
    assert(texts(found@) + captures_from(hay@, parts, 1, pos as int).unwrap() == captures_from(
        hay@,
        parts,
        1,
        pos as int,
    ).unwrap());
    while k < bounds.len()
        invariant
            1 <= k <= bounds.len(),
            pos <= hay.len(),
            hay@ == text@,
            pat@ == pattern@,
            mark@ == capture_mark(),
            parts == split_by(pat@, mark@),
            bounds.len() == parts.len(),
            forall|j: int|
                0 <= j < bounds.len() ==> (#[trigger] bounds[j]).0 <= bounds[j].1 <= pat.len()
                    && parts[j] == pat@.subrange(bounds[j].0 as int, bounds[j].1 as int),
            pattern_captures(text@, pattern@) == match captures_from(hay@, parts, k as int, pos as int) {
                None => None,
                Some(rest) => Some(texts(found@) + rest),
            },
        decreases bounds.len() - k,
    {
        let (a, b) = bounds[k];
        let part = slice_chars(&pat, a, b);
        assert(part@ == parts[k as int]);
        match find_from(&hay, &part, pos) {
            Some(at) => {
                let capture = to_text(&hay, pos, at);
                let ghost before = found@;
                found.push(capture);
                proof {
                    assert(texts(found@) == texts(before).push(capture@));
                    match captures_from(hay@, parts, k + 1, at + part.len()) {
                        Some(rest) => {
                            assert(texts(before) + (seq![capture@] + rest) == texts(found@) + rest);
                        },
                        None => {},
                    }
                }
                pos = at + part.len();
            },
            None => {
                return None;
            },
        }
        k += 1;
    }
    assert(texts(found@) + Seq::<Seq<char>>::empty() == texts(found@));
    Some(found)
}

/// Whether `c` is a quote character, single or double.
pub open spec fn is_quote(c: char) -> bool {
    c == '"' || c == '\''
}

/// The index of the first quote character of `s` at or after `from`.
pub open spec fn next_quote(s: Seq<char>, from: int) -> Option<int>
    decreases s.len() - from,
{
    if from < 0 || from >= s.len() {
        None
    } else if is_quote(s[from]) {
        Some(from)
    } else {
        next_quote(s, from + 1)
    }
}

/// The quoted text that is assigned to `param` at index `at` of `content`:
/// there the name stands, then any number of spaces, `=` or `:`, any number
/// of spaces and a quote character; the text runs from there up to the next
/// quote character.
pub open spec fn quoted_value_at(content: Seq<char>, param: Seq<char>, at: int) -> Option<Seq<char>> {
    let sign = after_blanks(content, at + param.len(), false);
    if occurs_at(content, param, at) && sign < content.len() && (content[sign] == '='
        || content[sign] == ':') {
        let quote = after_blanks(content, sign + 1, false);
        if quote < content.len() && is_quote(content[quote]) {
            match next_quote(content, quote + 1) {
                Some(end) => Some(content.subrange(quote + 1, end)),
                None => None,
            }
        } else {
            None
        }
    } else {
        None
    }
}

/// The quoted text that is assigned to `param` at the first index from
/// `from` on where one is.
pub open spec fn first_quoted_value(content: Seq<char>, param: Seq<char>, from: int) -> Option<
    Seq<char>,
>
    decreases content.len() + 1 - from,
{
    if from < 0 || from + param.len() > content.len() {
        None
    } else {
        match quoted_value_at(content, param, from) {
            Some(value) => Some(value),
            None => first_quoted_value(content, param, from + 1),
        }
    }
}

/// The value of the parameter `param` in the script `content`: the first
/// quoted text that is assigned to it, without its quotes.
pub open spec fn setup_param(content: Seq<char>, param: Seq<char>) -> Option<Seq<char>> {
    first_quoted_value(content, param, 0)
}

/// The index of the first quote character of `v` at or after `from`.
fn find_quote(v: &Vec<char>, from: usize) -> (r: Option<usize>)
    requires
        from <= v.len(),
    ensures
        match r {
            Some(at) => next_quote(v@, from as int) == Some(at as int) && from <= at < v.len(),
            None => next_quote(v@, from as int) is None,
        },
{
    let mut i: usize = from;
    while i < v.len()
        invariant
            from <= i <= v.len(),
            next_quote(v@, from as int) == next_quote(v@, i as int),
        decreases v.len() - i,
    {
        if v[i] == '"' || v[i] == '\'' {
            return Some(i);
        }
        i += 1;
    }
    None
}

/// The quoted text that is assigned to `param` at index `at` of `content`.
fn quoted_value_in(content: &Vec<char>, param: &Vec<char>, at: usize) -> (r: Option<String>)
    requires
        at + param.len() <= content.len(),
    ensures
        match r {
            Some(value) => quoted_value_at(content@, param@, at as int) == Some(value@),
            None => quoted_value_at(content@, param@, at as int) is None,
        },
{
    if !stands_at(content, param, at) {
        return None;
    }
    let sign = skip_blanks(content, at + param.len(), false);
    if sign >= content.len() || !(content[sign] == '=' || content[sign] == ':') {
        return None;
    }
    let quote = skip_blanks(content, sign + 1, false);
    if quote >= content.len() || !(content[quote] == '"' || content[quote] == '\'') {
        return None;
    }
    match find_quote(content, quote + 1) {
        Some(end) => Some(to_text(content, quote + 1, end)),
        None => None,
    }
}

/// Looks up a parameter of the call to `setup` whose value is written as a
/// quoted text, such as `name="demo"` or `version = '1.0'`. The first place
/// decides where the name is followed by `=` or `:` and a quote character,
/// with spaces allowed around the sign; the value is the text up to the
/// next quote character. A value that is computed is not found.
pub fn extract_setup_param(content: &str, param: &str) -> (r: Option<String>)
    ensures
        match r {
            Some(value) => setup_param(content@, param@) == Some(value@),
            None => setup_param(content@, param@) is None,
        },
{
    let hay = to_chars(content);
    let name = to_chars(param);
    if name.len() > hay.len() {
        return None;
    }
    let last: usize = hay.len() - name.len();
    let mut at: usize = 0;
    loop
        invariant
            at <= last,
            last == hay.len() - name.len(),
            hay@ == content@,
            name@ == param@,
            setup_param(content@, param@) == first_quoted_value(hay@, name@, at as int),
        decreases last - at,
    {
        match quoted_value_in(&hay, &name, at) {
            Some(value) => {
                return Some(value);
            },
            None => {},
        }
        if at == last {
            assert(first_quoted_value(hay@, name@, at + 1) is None);
            return None;
        }
        at += 1;
    }
}

/// The state of the scanner that reads a bracketed list.
pub struct ListScan {
    /// How many brackets are open; the list itself counts as one.
    pub depth: int,
    /// The characters of the item being read.
    pub item: Seq<char>,
    /// Whether the scanner is inside a quoted text.
    pub in_string: bool,
    /// The quote character that opened the quoted text.
    pub delimiter: char,
    /// The items read so far.
    pub items: Seq<Seq<char>>,
    /// Whether the bracket that closes the list has been read.
    pub done: bool,
}

/// `items` with `item` added in its cleaned form, unless `item` is blank.
pub open spec fn with_item(items: Seq<Seq<char>>, item: Seq<char>) -> Seq<Seq<char>> {
    if trimmed(item).len() > 0 {
        items.push(cleaned(item))
    } else {
        items
    }
}

/// The scanner's state just after the bracket that opens the list.
pub open spec fn list_start() -> ListScan {
    ListScan {
        depth: 1,
        item: Seq::empty(),
        in_string: false,
        delimiter: ' ',
        items: Seq::empty(),
        done: false,
    }
}

/// The state after the scanner has read `ch` in state `st`.
///
/// Outside a quoted text, `[` and `]` change the depth and are not kept, the
/// `]` that brings the depth to zero ends the list, and a comma at depth one
/// ends an item. A quote character opens a quoted text or closes the one that
/// it opened, and is kept only inside a text that the other quote opened.
/// Every other character is kept.
pub open spec fn list_step(st: ListScan, ch: char) -> ListScan {
    if ch == '[' && !st.in_string {
        ListScan { depth: st.depth + 1, ..st }
    } else if ch == ']' && !st.in_string {
        if st.depth == 1 {
            ListScan { depth: 0, items: with_item(st.items, st.item), done: true, ..st }
        } else {
            ListScan { depth: st.depth - 1, ..st }
        }
    } else if ch == ',' && !st.in_string && st.depth == 1 {
        ListScan { items: with_item(st.items, st.item), item: Seq::empty(), ..st }
    } else if ch == '"' || ch == '\'' {
        if !st.in_string {
            ListScan { in_string: true, delimiter: ch, ..st }
        } else if ch == st.delimiter {
            ListScan { in_string: false, ..st }
        } else {
            ListScan { item: st.item.push(ch), ..st }
        }
    } else {
        ListScan { item: st.item.push(ch), ..st }
    }
}

/// The state in which the scanner stops when it reads `text` from index `at`
/// on, starting in state `st`: at the end of the list or of the text.
pub open spec fn list_scan(st: ListScan, text: Seq<char>, at: int) -> ListScan
    decreases text.len() - at,
{
    if at < 0 || at >= text.len() || st.done {
        st
    } else {
        list_scan(list_step(st, text[at]), text, at + 1)
    }
}

/// The items of the list whose opening bracket stands at index `open` of
/// `text`. Where the text ends before the list does, the item that was being
/// read is lost and the items before it are kept.
pub open spec fn scanned_list(text: Seq<char>, open: int) -> Seq<Seq<char>> {
    list_scan(list_start(), text, open + 1).items
}

/// Adds the text of `item` to `items` in its cleaned form, unless it is blank.
fn push_item(items: &mut Vec<String>, item: &Vec<char>)
    ensures
        texts(final(items)@) == with_item(texts(old(items)@), item@),
{
    assert(item@.subrange(0, item.len() as int) == item@);
    let (a, b) = trim_bounds(item, 0, item.len());
    if a < b {
        let (c, d) = clean_bounds(item, 0, item.len());
        let cleaned_item = to_text(item, c, d);
        let ghost before = items@;
        items.push(cleaned_item);
        assert(texts(items@) == texts(before).push(cleaned_item@));
    }
}

/// Reads the list whose opening bracket stands at index `open` of `text`.
pub fn scan_list(text: &Vec<char>, open: usize) -> (r: Vec<String>)
    requires
        open < text.len(),
    ensures
        texts(r@) == scanned_list(text@, open as int),
{
    let mut depth: usize = 1;
    let mut item: Vec<char> = Vec::new();
    let mut in_string = false;
    let mut delimiter = ' ';
    let mut items: Vec<String> = Vec::new();
    let mut done = false;
    let mut i: usize = open + 1;
    assert(texts(items@) == Seq::<Seq<char>>::empty());
    while i < text.len() && !done
        invariant
            open < i <= text.len(),
            !done ==> 1 <= depth <= i - open,
            scanned_list(text@, open as int) == list_scan(
                ListScan {
                    depth: if done { 0 } else { depth as int },
                    item: item@,
                    in_string,
                    delimiter,
                    items: texts(items@),
                    done,
                },
                text@,
                i as int,
            ).items,
        decreases text.len() - i,
    {
        let ch = text[i];
        if ch == '[' && !in_string {
            depth += 1;
        } else if ch == ']' && !in_string {
            if depth == 1 {
                push_item(&mut items, &item);
                done = true;
            } else {
                depth -= 1;
            }
        } else if ch == ',' && !in_string && depth == 1 {
            push_item(&mut items, &item);
            item = Vec::new();
        } else if ch == '"' || ch == '\'' {
            if !in_string {
                in_string = true;
                delimiter = ch;
            } else if ch == delimiter {
                in_string = false;
            } else {
                item.push(ch);
            }
        } else {
            item.push(ch);
        }
        i += 1;
    }
    items
}

/// Where the value of `param` opens, if at index `at` of `content` a value
/// is assigned to it that opens with `opener`: there the name stands, then
/// any number of spaces or tabs, `=`, any number of spaces or tabs, and
/// `opener`, whose index this is.
pub open spec fn opening_at(content: Seq<char>, param: Seq<char>, at: int, opener: char) -> Option<
    int,
> {
    let sign = after_blanks(content, at + param.len(), true);
    if occurs_at(content, param, at) && sign < content.len() && content[sign] == '=' {
        let open = after_blanks(content, sign + 1, true);
        if open < content.len() && content[open] == opener {
            Some(open)
        } else {
            None
        }
    } else {
        None
    }
}

/// Where the value of `param` opens at the first index from `from` on where
/// one that opens with `opener` is assigned to it.
pub open spec fn first_opening(content: Seq<char>, param: Seq<char>, opener: char, from: int) -> Option<
    int,
>
    decreases content.len() + 1 - from,
{
    if from < 0 || from + param.len() > content.len() {
        None
    } else {
        match opening_at(content, param, from, opener) {
            Some(open) => Some(open),
            None => first_opening(content, param, opener, from + 1),
        }
    }
}

/// The items of the list parameter `param` in the script `content`: those
/// of the list that opens at the first place where a list is assigned to
/// the parameter.
pub open spec fn setup_list(content: Seq<char>, param: Seq<char>) -> Option<Seq<Seq<char>>> {
    match first_opening(content, param, '[', 0) {
        Some(open) => Some(scanned_list(content, open)),
        None => None,
    }
}

/// Where the value of `param` opens at index `at` of `content`.
fn opening_in(content: &Vec<char>, param: &Vec<char>, at: usize, opener: char) -> (r: Option<usize>)
    requires
        at + param.len() <= content.len(),
    ensures
        match r {
            Some(open) => opening_at(content@, param@, at as int, opener) == Some(open as int)
                && open < content.len(),
            None => opening_at(content@, param@, at as int, opener) is None,
        },
{
    if !stands_at(content, param, at) {
        return None;
    }
    let sign = skip_blanks(content, at + param.len(), true);
    if sign >= content.len() || content[sign] != '=' {
        return None;
    }
    let open = skip_blanks(content, sign + 1, true);
    if open >= content.len() || content[open] != opener {
        return None;
    }
    Some(open)
}

/// Where the value of `param` opens at the first place where one that opens
/// with `opener` is assigned to it.
fn find_opening(content: &Vec<char>, param: &Vec<char>, opener: char) -> (r: Option<usize>)
    ensures
        match r {
            Some(open) => first_opening(content@, param@, opener, 0) == Some(open as int) && open
                < content.len(),
            None => first_opening(content@, param@, opener, 0) is None,
        },
{
    if param.len() > content.len() {
        return None;
    }
    let last: usize = content.len() - param.len();
    let mut at: usize = 0;
    loop
        invariant
            at <= last,
            last == content.len() - param.len(),
            first_opening(content@, param@, opener, 0) == first_opening(
                content@,
                param@,
                opener,
                at as int,
            ),
        decreases last - at,
    {
        match opening_in(content, param, at, opener) {
            Some(open) => {
                return Some(open);
            },
            None => {},
        }
        if at == last {
            assert(first_opening(content@, param@, opener, at + 1) is None);
            return None;
        }
        at += 1;
    }
}

/// Looks up a parameter of the call to `setup` whose value is a list, such
/// as `install_requires=["pkg1", "pkg2>=1.0"]`, on one line or on several.
/// The first place decides where the name is followed by `=` and `[`, with
/// spaces and tabs allowed around the sign; the list is read from there up
/// to the bracket that closes it.
pub fn extract_setup_list_param(content: &str, param: &str) -> (r: Option<Vec<String>>)
    ensures
        match r {
            Some(items) => setup_list(content@, param@) == Some(texts(items@)),
            None => setup_list(content@, param@) is None,
        },
{
    let hay = to_chars(content);
    let name = to_chars(param);
    match find_opening(&hay, &name, '[') {
        Some(open) => Some(scan_list(&hay, open)),
        None => None,
    }
}

/// The state of the scanner that reads a dictionary of lists.
pub struct DictScan {
    /// How many braces are open; the dictionary itself counts as one.
    pub depth: int,
    /// How many brackets are open.
    pub lists: int,
    /// The characters of the key being read.
    pub key: Seq<char>,
    /// The characters of the value being read.
    pub value: Seq<char>,
    /// Whether the scanner is inside a quoted text.
    pub in_string: bool,
    /// The quote character that opened the quoted text.
    pub delimiter: char,
    /// Whether the scanner is reading a key, not a value.
    pub in_key: bool,
    /// The entries read so far: a group's name and its items.
    pub entries: Seq<(Seq<char>, Seq<Seq<char>>)>,
    /// Whether the brace that closes the dictionary has been read.
    pub done: bool,
}

/// `entries` with the entry made of `key` and `value` added, unless either
/// is blank or the value holds no list. The group's name is the cleaned key;
/// its items are those of the list that opens at the first `[` of the value.
pub open spec fn with_entry(
    entries: Seq<(Seq<char>, Seq<Seq<char>>)>,
    key: Seq<char>,
    value: Seq<char>,
) -> Seq<(Seq<char>, Seq<Seq<char>>)> {
    if trimmed(key).len() > 0 && trimmed(value).len() > 0 {
        match first_occurrence(value, seq!['['], 0) {
            Some(open) => entries.push((cleaned(key), scanned_list(value, open))),
            None => entries,
        }
    } else {
        entries
    }
}

/// The scanner's state just after the brace that opens the dictionary.
pub open spec fn dict_start() -> DictScan {
    DictScan {
        depth: 1,
        lists: 0,
        key: Seq::empty(),
        value: Seq::empty(),
        in_string: false,
        delimiter: ' ',
        in_key: true,
        entries: Seq::empty(),
        done: false,
    }
}

/// `st` with `ch` added to the key or to the value, whichever is being read.
pub open spec fn dict_keep(st: DictScan, ch: char) -> DictScan {
    if st.in_key {
        DictScan { key: st.key.push(ch), ..st }
    } else {
        DictScan { value: st.value.push(ch), ..st }
    }
}

/// `st` with the quote character `ch` added to the value, where a value is
/// being read: a value keeps its quotes for the scanner of its list, a key
/// does not.
pub open spec fn dict_keep_quote(st: DictScan, ch: char) -> DictScan {
    if st.in_key {
        st
    } else {
        DictScan { value: st.value.push(ch), ..st }
    }
}

/// The state after the scanner has read `ch` in state `st`.
///
/// Outside a quoted text, `{` and `}` change the depth and are not kept, and
/// the `}` that brings the depth to zero ends the dictionary; `[` and `]`
/// open and close a list and are kept. At brace depth one, outside a quoted
/// text and outside every list, a colon ends a key and a comma ends a value.
/// A quote character opens a quoted text or closes the one that it opened;
/// inside a text that the other quote opened it is kept like any character.
/// Every other character is kept.
pub open spec fn dict_step(st: DictScan, ch: char) -> DictScan {
    if st.in_string {
        if ch == st.delimiter {
            dict_keep_quote(DictScan { in_string: false, ..st }, ch)
        } else {
            dict_keep(st, ch)
        }
    } else if is_quote(ch) {
        dict_keep_quote(DictScan { in_string: true, delimiter: ch, ..st }, ch)
    } else if ch == '{' {
        DictScan { depth: st.depth + 1, ..st }
    } else if ch == '}' {
        if st.depth == 1 {
            DictScan {
                depth: 0,
                entries: with_entry(st.entries, st.key, st.value),
                done: true,
                ..st
            }
        } else {
            DictScan { depth: st.depth - 1, ..st }
        }
    } else if ch == '[' {
        dict_keep(DictScan { lists: st.lists + 1, ..st }, ch)
    } else if ch == ']' {
        dict_keep(DictScan { lists: if st.lists > 0 { st.lists - 1 } else { 0 }, ..st }, ch)
    } else if ch == ':' && st.in_key && st.depth == 1 && st.lists == 0 {
        DictScan { in_key: false, ..st }
    } else if ch == ',' && !st.in_key && st.depth == 1 && st.lists == 0 {
        DictScan {
            entries: with_entry(st.entries, st.key, st.value),
            key: Seq::empty(),
            value: Seq::empty(),
            in_key: true,
            ..st
        }
    } else {
        dict_keep(st, ch)
    }
}

/// The state in which the scanner stops when it reads `text` from index `at`
/// on, starting in state `st`: at the end of the dictionary or of the text.
pub open spec fn dict_scan(st: DictScan, text: Seq<char>, at: int) -> DictScan
    decreases text.len() - at,
{
    if at < 0 || at >= text.len() || st.done {
        st
    } else {
        dict_scan(dict_step(st, text[at]), text, at + 1)
    }
}

/// The entries of the dictionary whose opening brace stands at index `open`
/// of `text`. Where the text ends before the dictionary does, the entry that
/// was being read is lost and the entries before it are kept.
pub open spec fn scanned_dict(text: Seq<char>, open: int) -> Seq<(Seq<char>, Seq<Seq<char>>)> {
    dict_scan(dict_start(), text, open + 1).entries
}

/// What the entries hold, as texts.
pub open spec fn entry_texts(v: Seq<(String, Vec<String>)>) -> Seq<(Seq<char>, Seq<Seq<char>>)> {
    Seq::new(v.len(), |i: int| (v[i].0@, texts(v[i].1@)))
}

/// Adds the entry made of `key` and `value` to `entries`, unless either is
/// blank or the value holds no list.
fn push_entry(entries: &mut Vec<(String, Vec<String>)>, key: &Vec<char>, value: &Vec<char>)
    ensures
        entry_texts(final(entries)@) == with_entry(entry_texts(old(entries)@), key@, value@),
{
    assert(key@.subrange(0, key.len() as int) == key@);
    assert(value@.subrange(0, value.len() as int) == value@);
    let (a, b) = trim_bounds(key, 0, key.len());
    let (c, d) = trim_bounds(value, 0, value.len());
    if a < b && c < d {
        let bracket: Vec<char> = vec!['['];
        assert(bracket@ == seq!['[']);
        match find_from(value, &bracket, 0) {
            Some(open) => {
                let items = scan_list(value, open);
                let (e, f) = clean_bounds(key, 0, key.len());
                let name = to_text(key, e, f);
                let ghost before = entries@;
                let ghost listed = texts(items@);
                entries.push((name, items));
                assert(entry_texts(entries@) == entry_texts(before).push((name@, listed)));
            },
            None => {},
        }
    }
}

/// Reads the dictionary whose opening brace stands at index `open` of `text`.
pub fn scan_dict(text: &Vec<char>, open: usize) -> (r: Vec<(String, Vec<String>)>)
    requires
        open < text.len(),
    ensures
        entry_texts(r@) == scanned_dict(text@, open as int),
{
    let mut depth: usize = 1;
    let mut lists: usize = 0;
    let mut key: Vec<char> = Vec::new();
    let mut value: Vec<char> = Vec::new();
    let mut in_string = false;
    let mut delimiter = ' ';
    let mut in_key = true;
    let mut entries: Vec<(String, Vec<String>)> = Vec::new();
    let mut done = false;
    let mut i: usize = open + 1;
    assert(entry_texts(entries@) == Seq::<(Seq<char>, Seq<Seq<char>>)>::empty());
    while i < text.len() && !done
        invariant
            open < i <= text.len(),
            !done ==> 1 <= depth <= i - open,
            lists <= i - open,
            scanned_dict(text@, open as int) == dict_scan(
                DictScan {
                    depth: if done { 0 } else { depth as int },
                    lists: lists as int,
                    key: key@,
                    value: value@,
                    in_string,
                    delimiter,
                    in_key,
                    entries: entry_texts(entries@),
                    done,
                },
                text@,
                i as int,
            ).entries,
        decreases text.len() - i,
    {
        let ch = text[i];
        let quote = ch == '"' || ch == '\'';
        if in_string {
            if ch == delimiter {
                in_string = false;
                if !in_key {
                    value.push(ch);
                }
            } else if in_key {
                key.push(ch);
            } else {
                value.push(ch);
            }
        } else if quote {
            in_string = true;
            delimiter = ch;
            if !in_key {
                value.push(ch);
            }
        } else if ch == '{' {
            depth += 1;
        } else if ch == '}' {
            if depth == 1 {
                push_entry(&mut entries, &key, &value);
                done = true;
            } else {
                depth -= 1;
            }
        } else if ch == '[' || ch == ']' {
            if ch == '[' {
                lists += 1;
            } else if lists > 0 {
                lists -= 1;
            }
            if in_key {
                key.push(ch);
            } else {
                value.push(ch);
            }
        } else if ch == ':' && in_key && depth == 1 && lists == 0 {
            in_key = false;
        } else if ch == ',' && !in_key && depth == 1 && lists == 0 {
            push_entry(&mut entries, &key, &value);
            key = Vec::new();
            value = Vec::new();
            in_key = true;
        } else if in_key {
            key.push(ch);
        } else {
            value.push(ch);
        }
        i += 1;
    }
    entries
}

/// The entries of the dictionary parameter `param` in the script `content`:
/// those of the dictionary that opens at the first place where a dictionary
/// is assigned to the parameter.
pub open spec fn setup_dict(content: Seq<char>, param: Seq<char>) -> Option<
    Seq<(Seq<char>, Seq<Seq<char>>)>,
> {
    match first_opening(content, param, '{', 0) {
        Some(open) => Some(scanned_dict(content, open)),
        None => None,
    }
}

/// Looks up a parameter of the call to `setup` whose value is a dictionary
/// from a group's name to a list, such as
/// `extras_require={"dev": ["pytest"]}`. The first place decides where the
/// name is followed by `=` and `{`, with spaces and tabs allowed around the
/// sign; the dictionary is read from there up to the brace that closes it.
pub fn extract_setup_dict_param(content: &str, param: &str) -> (r: Option<
    Vec<(String, Vec<String>)>,
>)
    ensures
        match r {
            Some(entries) => setup_dict(content@, param@) == Some(entry_texts(entries@)),
            None => setup_dict(content@, param@) is None,
        },
{
    let hay = to_chars(content);
    let name = to_chars(param);
    match find_opening(&hay, &name, '{') {
        Some(open) => Some(scan_dict(&hay, open)),
        None => None,
    }
}

/// The block that lists optional dependencies by group: nothing where there
/// is no group.
pub open spec fn extras_block(entries: Seq<(Seq<char>, Seq<Seq<char>>)>) -> Seq<char> {
    if entries.len() > 0 {
        "\nOptional Dependencies:\n"@ + groups(entries)
    } else {
        Seq::empty()
    }
}

/// The summary of the script `content`: a heading, then the name, the
/// version and the description, each where it is found, then the
/// dependencies and the optional dependencies, each where there are any.
pub open spec fn setup_py_info(content: Seq<char>) -> Seq<char> {
    "Project Type: Python (setup.py)\n"@ + optional_field(
        "Project Name: "@,
        setup_param(content, "name"@),
    ) + optional_field("Version: "@, setup_param(content, "version"@)) + optional_field(
        "Description: "@,
        setup_param(content, "description"@),
    ) + (match setup_list(content, "install_requires"@) {
        Some(items) => dependency_block(items),
        None => Seq::empty(),
    }) + (match setup_dict(content, "extras_require"@) {
        Some(entries) => extras_block(entries),
        None => Seq::empty(),
    })
}

/// Appends, for each group, its heading and then its items.
fn push_groups(info: &mut String, entries: &Vec<(String, Vec<String>)>)
    ensures
        final(info)@ == old(info)@ + groups(entry_texts(entries@)),
{
    let ghost all = entry_texts(entries@);
    let mut k: usize = 0;
    assert(all.take(0) == Seq::<(Seq<char>, Seq<Seq<char>>)>::empty());
    while k < entries.len()
        invariant
            k <= entries.len(),
            all == entry_texts(entries@),
            info@ == old(info)@ + groups(all.take(k as int)),
        decreases entries.len() - k,
    {
        assert(all.take(k + 1).drop_last() == all.take(k as int));
        assert(all.take(k + 1).last() == (entries@[k as int].0@, texts(entries@[k as int].1@)));
        push_group_heading(info, entries[k].0.as_str());
        push_nested_bullets(info, &entries[k].1);
        k += 1;
    }
    assert(all.take(entries.len() as int) == all);
}

/// The text that `value` holds, if it holds one.
fn text_in(value: &Option<String>) -> (r: Option<&str>)
    ensures
        match r {
            Some(text) => value matches Some(held) && held@ == text@,
            None => value is None,
        },
{
    match value {
        Some(held) => Some(held.as_str()),
        None => None,
    }
}

/// The summary of a script is never empty: it begins with its heading.
pub proof fn lemma_setup_py_info_is_not_empty(content: Seq<char>)
    ensures
        setup_py_info(content).len() > 0,
{
    reveal_strlit("Project Type: Python (setup.py)\n");
}

/// Summarises a `setup.py` script from its text alone: a heading, then what
/// the scan finds of the name, the version, the description, the
/// dependencies and the optional dependencies.
pub fn extract_setup_py_info(content: &str) -> (r: String)
    ensures
        r@ == setup_py_info(content@),
        r@.len() > 0,
{
    proof {
        lemma_setup_py_info_is_not_empty(content@);
    }
    let mut info = String::from_str("Project Type: Python (setup.py)\n");
    let name = extract_setup_param(content, "name");
    push_optional_field(&mut info, "Project Name: ", text_in(&name));
    let version = extract_setup_param(content, "version");
    push_optional_field(&mut info, "Version: ", text_in(&version));
    let description = extract_setup_param(content, "description");
    push_optional_field(&mut info, "Description: ", text_in(&description));
    match extract_setup_list_param(content, "install_requires") {
        Some(items) => push_dependency_block(&mut info, &items),
        None => {},
    }
    match extract_setup_dict_param(content, "extras_require") {
        Some(entries) => {
            if entries.len() > 0 {
                info.append("\nOptional Dependencies:\n");
                push_groups(&mut info, &entries);
            }
        },
        None => {},
    }
    info
}

} // verus!
