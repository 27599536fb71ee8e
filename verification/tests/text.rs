use code_copier::order::{sort_paths, text_precedes};
use code_copier::text::{
    find_from, find_last_char, same_text, slice_chars, split_bounds, stands_at, to_chars, to_text,
    trim_bounds,
};

fn chars(s: &str) -> Vec<char> {
    s.chars().collect()
}

#[test]
fn to_chars_and_to_text_keep_the_characters() {
    assert_eq!(to_chars("aé└"), vec!['a', 'é', '└']);
    assert_eq!(to_chars(""), Vec::<char>::new());
    assert_eq!(to_text(&chars("hello"), 1, 4), "ell");
    assert_eq!(to_text(&chars("héllo"), 0, 5), "héllo");
    assert_eq!(to_text(&chars("hello"), 2, 2), "");
    assert_eq!(slice_chars(&chars("hello"), 3, 5), chars("lo"));
}

#[test]
fn same_text_compares_the_characters() {
    assert!(same_text("abc", "abc"));
    assert!(same_text("", ""));
    assert!(!same_text("abc", "abd"));
    assert!(!same_text("abc", "ab"));
}

#[test]
fn find_from_gives_the_first_occurrence() {
    let hay = chars("abcabc");
    assert_eq!(find_from(&hay, &chars("bc"), 0), Some(1));
    assert_eq!(find_from(&hay, &chars("bc"), 1), Some(1));
    assert_eq!(find_from(&hay, &chars("bc"), 2), Some(4));
    assert_eq!(find_from(&hay, &chars("bc"), 5), None);
    assert_eq!(find_from(&hay, &chars("x"), 0), None);
    assert_eq!(find_from(&hay, &chars(""), 3), Some(3));
    assert_eq!(find_from(&hay, &chars(""), 6), Some(6));
    assert_eq!(find_from(&hay, &chars(""), 7), None);
    assert_eq!(find_from(&hay, &chars("abcabcd"), 0), None);
    assert!(stands_at(&hay, &chars("cab"), 2));
    assert!(!stands_at(&hay, &chars("cab"), 3));
    assert!(!stands_at(&hay, &chars("bc"), 5));
}

#[test]
fn find_last_char_gives_the_last_occurrence() {
    assert_eq!(find_last_char(&chars("a]b]c"), ']'), Some(3));
    assert_eq!(find_last_char(&chars("abc"), ']'), None);
    assert_eq!(find_last_char(&chars(""), ']'), None);
}

#[test]
fn trim_bounds_strips_white_space_at_both_ends() {
    let v = chars("  a b\t\n");
    assert_eq!(trim_bounds(&v, 0, v.len()), (2, 5));
    assert_eq!(trim_bounds(&v, 3, v.len()), (4, 5));
    let blank = chars(" \u{a0}\u{3000} ");
    assert_eq!(trim_bounds(&blank, 0, blank.len()), (4, 4));
    let none = chars("x");
    assert_eq!(trim_bounds(&none, 0, 1), (0, 1));
}

#[test]
fn split_bounds_cuts_at_each_occurrence() {
    assert_eq!(split_bounds(&chars("a,b,,c"), &chars(",")), vec![(0, 1), (2, 3), (4, 4), (5, 6)]);
    assert_eq!(split_bounds(&chars(""), &chars(",")), vec![(0, 0)]);
    assert_eq!(split_bounds(&chars(","), &chars(",")), vec![(0, 0), (1, 1)]);
    assert_eq!(split_bounds(&chars("aaa"), &chars("aa")), vec![(0, 0), (2, 3)]);
    assert_eq!(split_bounds(&chars("x(.*?)y"), &chars("(.*?)")), vec![(0, 1), (6, 7)]);
}

#[test]
fn text_precedes_orders_as_strings_are_ordered() {
    let samples = ["", "a", "A", "ab", "a/b", "a-b", "b", "é", "z", "a0", "\u{10000}", "\u{ffff}"];
    for x in samples {
        for y in samples {
            assert_eq!(text_precedes(&chars(x), &chars(y)), x <= y, "{:?} {:?}", x, y);
        }
    }
}

#[test]
fn sort_paths_sorts_and_keeps_every_path() {
    let given = ["b", "a/x", "a", "", "b", "a-b", "Z"];
    let paths: Vec<Vec<char>> = given.iter().map(|s| chars(s)).collect();
    let mut expected: Vec<Vec<char>> = paths.clone();
    expected.sort();
    assert_eq!(sort_paths(&paths), expected);
    assert_eq!(sort_paths(&Vec::new()), Vec::<Vec<char>>::new());
}

#[test]
fn white_space_is_the_unicode_property() {
    let white = [
        '\u{9}', '\u{a}', '\u{b}', '\u{c}', '\u{d}', '\u{20}', '\u{85}', '\u{a0}', '\u{1680}',
        '\u{2000}', '\u{2001}', '\u{2002}', '\u{2003}', '\u{2004}', '\u{2005}', '\u{2006}',
        '\u{2007}', '\u{2008}', '\u{2009}', '\u{200a}', '\u{2028}', '\u{2029}', '\u{202f}',
        '\u{205f}', '\u{3000}',
    ];
    for c in white {
        let v = vec![c, 'a', c];
        assert_eq!(trim_bounds(&v, 0, 3), (1, 2), "{:?}", c);
    }
    let other = [
        '\u{0}', '\u{8}', '\u{e}', '\u{1f}', '\u{21}', '\u{84}', '\u{86}', '\u{9f}', '\u{a1}',
        '\u{180e}', '\u{1fff}', '\u{200b}', '\u{200c}', '\u{2027}', '\u{202a}', '\u{2030}',
        '\u{2060}', '\u{2fff}', '\u{3001}', '\u{feff}', '_', '#', 'a',
    ];
    for c in other {
        let v = vec![c, 'a', c];
        assert_eq!(trim_bounds(&v, 0, 3), (0, 3), "{:?}", c);
    }
}
