use code_copier::setup_py::{
    cleanup_string, extract_list_from_str, extract_setup_dict_param, extract_setup_list_param,
    extract_setup_param, extract_setup_py_info, regex_extract, scan_dict, scan_list,
};

fn strings(items: &[&str]) -> Vec<String> {
    items.iter().map(|s| s.to_string()).collect()
}

#[test]
fn cleanup_string_strips_space_and_quotes() {
    assert_eq!(cleanup_string("  \"requests\"  "), "requests");
    assert_eq!(cleanup_string("'flask'"), "flask");
    assert_eq!(cleanup_string(" plain "), "plain");
    assert_eq!(cleanup_string("\t\n value \r\n"), "value");
}

#[test]
fn cleanup_string_strips_one_pair_only() {
    assert_eq!(cleanup_string("\"\"a\"\""), "\"a\"");
    assert_eq!(cleanup_string("\" padded \""), " padded ");
}

#[test]
fn cleanup_string_keeps_quotes_that_do_not_match() {
    assert_eq!(cleanup_string("\"a'"), "\"a'");
    assert_eq!(cleanup_string("a\""), "a\"");
}

#[test]
fn cleanup_string_of_short_texts() {
    assert_eq!(cleanup_string(""), "");
    assert_eq!(cleanup_string("   "), "");
    assert_eq!(cleanup_string("\""), "\"");
    assert_eq!(cleanup_string("'"), "'");
    assert_eq!(cleanup_string("\"\""), "");
    assert_eq!(cleanup_string("''"), "");
}

#[test]
fn extract_list_from_str_reads_items() {
    assert_eq!(
        extract_list_from_str("[a, 'b', \"c\"]"),
        Some(strings(&["a", "b", "c"]))
    );
    assert_eq!(
        extract_list_from_str("x = [ pkg1 ,pkg2>=1.0 ] # end"),
        Some(strings(&["pkg1", "pkg2>=1.0"]))
    );
}

#[test]
fn extract_list_from_str_leaves_out_empty_pieces() {
    assert_eq!(extract_list_from_str("[]"), Some(Vec::new()));
    assert_eq!(extract_list_from_str("[a,, ,b,]"), Some(strings(&["a", "b"])));
    assert_eq!(extract_list_from_str("[\"\"]"), Some(Vec::new()));
}

#[test]
fn extract_list_from_str_spans_first_to_last_bracket() {
    assert_eq!(
        extract_list_from_str("[a, [b], c]"),
        Some(strings(&["a", "[b]", "c"]))
    );
}

#[test]
fn extract_list_from_str_without_a_list() {
    assert_eq!(extract_list_from_str("no list"), None);
    assert_eq!(extract_list_from_str("[open"), None);
    assert_eq!(extract_list_from_str("close]"), None);
    assert_eq!(extract_list_from_str("] ["), None);
}

#[test]
fn regex_extract_captures_between_literal_parts() {
    assert_eq!(
        regex_extract("name=foo;", "name=(.*?);"),
        Some(strings(&["foo"]))
    );
    assert_eq!(
        regex_extract("a=1, b=2.", "a=(.*?), b=(.*?)."),
        Some(strings(&["1", "2"]))
    );
}

#[test]
fn regex_extract_takes_the_first_occurrence_of_each_part() {
    assert_eq!(
        regex_extract("x<a><b>", "<(.*?)>"),
        Some(strings(&["a"]))
    );
    assert_eq!(
        regex_extract("k=v=w", "k(.*?)="),
        Some(strings(&[""]))
    );
}

#[test]
fn regex_extract_without_a_match() {
    assert_eq!(regex_extract("name=foo", "name=foo"), None);
    assert_eq!(regex_extract("name=foo", "title=(.*?);"), None);
    assert_eq!(regex_extract("name=foo", "name=(.*?);"), None);
    assert_eq!(regex_extract("", "a(.*?)b"), None);
}

#[test]
fn regex_extract_with_empty_parts() {
    assert_eq!(regex_extract("abc", "(.*?)"), Some(strings(&[""])));
    assert_eq!(regex_extract("abc", "(.*?)c"), Some(strings(&["ab"])));
    assert_eq!(regex_extract("abc", "a(.*?)"), Some(strings(&[""])));
}

#[test]
fn regex_extract_reads_other_characters_literally() {
    assert_eq!(regex_extract("aXb", "a.b(.*?)"), None);
    assert_eq!(regex_extract("a.b!", "a.b(.*?)!"), Some(strings(&[""])));
    assert_eq!(
        regex_extract("q['\"]v['\"]", "q['\"](.*?)['\"]"),
        Some(strings(&["v"]))
    );
}

#[test]
fn regex_extract_handles_text_beyond_ascii() {
    assert_eq!(
        regex_extract("naïve=«été»", "=«(.*?)»"),
        Some(strings(&["été"]))
    );
}

#[test]
fn extract_setup_param_reads_the_quoted_value() {
    let content = "setup(name=\"foo\", version='1.0')";
    assert_eq!(extract_setup_param(content, "name"), Some("foo".to_string()));
    assert_eq!(extract_setup_param(content, "version"), Some("1.0".to_string()));
    assert_eq!(extract_setup_param(content, "description"), None);
}

#[test]
fn extract_setup_param_allows_spaces_and_a_colon() {
    assert_eq!(extract_setup_param("name = \"demo\"", "name"), Some("demo".to_string()));
    assert_eq!(extract_setup_param("name   ='demo'", "name"), Some("demo".to_string()));
    assert_eq!(extract_setup_param("name: 'demo'", "name"), Some("demo".to_string()));
    assert_eq!(extract_setup_param("name :\"\"", "name"), Some(String::new()));
}

#[test]
fn extract_setup_param_takes_the_first_assignment() {
    let content = "name = \"first\"\nname=\"second\"\n";
    assert_eq!(extract_setup_param(content, "name"), Some("first".to_string()));
    let later = "name = compute()\nfull_name=\"second\"\n";
    assert_eq!(extract_setup_param(later, "name"), Some("second".to_string()));
}

#[test]
fn extract_setup_param_ends_the_value_at_the_next_quote() {
    assert_eq!(extract_setup_param("name=\"it's\"", "name"), Some("it".to_string()));
    assert_eq!(extract_setup_param("name='a\"b'", "name"), Some("a".to_string()));
}

#[test]
fn extract_setup_param_passes_over_what_is_not_a_quoted_text() {
    assert_eq!(extract_setup_param("name=NAME", "name"), None);
    assert_eq!(extract_setup_param("version=get_version(\"pkg\")", "version"), None);
    assert_eq!(extract_setup_param("name=\"open", "name"), None);
    assert_eq!(extract_setup_param("name\t=\t\"demo\"", "name"), None);
    assert_eq!(extract_setup_param("name", "name"), None);
    assert_eq!(extract_setup_param("", "name"), None);
    assert_eq!(extract_setup_param("nam=\"x\"", "name"), None);
}

#[test]
fn scan_list_reads_quoted_items() {
    let text: Vec<char> = "[\"pkg1\", 'pkg2>=1.0']".chars().collect();
    assert_eq!(scan_list(&text, 0), strings(&["pkg1", "pkg2>=1.0"]));
}

#[test]
fn scan_list_reads_over_several_lines() {
    let text: Vec<char> = "x = [\n    \"a\",\n    \"b\",\n]\nrest, [c]".chars().collect();
    assert_eq!(scan_list(&text, 4), strings(&["a", "b"]));
}

#[test]
fn scan_list_keeps_separators_inside_quotes() {
    let text: Vec<char> = "[\"a,b\", \"c]d\", 'e[f']".chars().collect();
    assert_eq!(scan_list(&text, 0), strings(&["a,b", "c]d", "e[f"]));
}

#[test]
fn scan_list_keeps_the_other_quote_inside_a_quoted_text() {
    let text: Vec<char> = "[\"it's\", 'say \"hi\"']".chars().collect();
    assert_eq!(scan_list(&text, 0), strings(&["it's", "say \"hi\""]));
}

#[test]
fn scan_list_drops_inner_brackets_and_keeps_inner_commas() {
    let text: Vec<char> = "[a[b,c]d, e]".chars().collect();
    assert_eq!(scan_list(&text, 0), strings(&["ab,cd", "e"]));
}

#[test]
fn scan_list_that_is_not_closed_loses_its_last_item() {
    let text: Vec<char> = "[\"a\", \"b\"".chars().collect();
    assert_eq!(scan_list(&text, 0), strings(&["a"]));
    let open_only: Vec<char> = "[".chars().collect();
    assert_eq!(scan_list(&open_only, 0), Vec::<String>::new());
}

#[test]
fn scan_list_leaves_out_blank_items() {
    let text: Vec<char> = "[ , \"a\", ,]".chars().collect();
    assert_eq!(scan_list(&text, 0), strings(&["a"]));
    let empty: Vec<char> = "[]".chars().collect();
    assert_eq!(scan_list(&empty, 0), Vec::<String>::new());
}

#[test]
fn extract_setup_list_param_reads_a_list_on_one_line() {
    assert_eq!(
        extract_setup_list_param("install_requires=[\"pkg1\", \"pkg2>=1.0\"]", "install_requires"),
        Some(strings(&["pkg1", "pkg2>=1.0"]))
    );
}

#[test]
fn extract_setup_list_param_reads_a_list_on_several_lines() {
    let content = "install_requires = [\n    \"pkg1\",\n    \"pkg2>=1.0\",\n]";
    assert_eq!(
        extract_setup_list_param(content, "install_requires"),
        Some(strings(&["pkg1", "pkg2>=1.0"]))
    );
}

#[test]
fn extract_setup_list_param_does_not_cut_at_a_comma_inside_quotes() {
    assert_eq!(
        extract_setup_list_param("install_requires=[\"pkg>=1.0,<2.0\", \"x\"]", "install_requires"),
        Some(strings(&["pkg>=1.0,<2.0", "x"]))
    );
}

#[test]
fn extract_setup_list_param_allows_spaces_and_tabs_around_the_sign() {
    assert_eq!(
        extract_setup_list_param("setup(install_requires \t=\t ['a'])", "install_requires"),
        Some(strings(&["a"]))
    );
    assert_eq!(
        extract_setup_list_param("install_requires=[]", "install_requires"),
        Some(Vec::new())
    );
}

#[test]
fn extract_setup_list_param_takes_the_first_place_where_a_list_is_assigned() {
    let content = "install_requires=REQUIRED\ninstall_requires = [\"a\"]\ninstall_requires=[\"b\"]";
    assert_eq!(
        extract_setup_list_param(content, "install_requires"),
        Some(strings(&["a"]))
    );
}

#[test]
fn extract_setup_list_param_passes_over_what_is_not_a_list() {
    assert_eq!(extract_setup_list_param("install_requires=REQUIRED", "install_requires"), None);
    assert_eq!(extract_setup_list_param("install_requires=\n[\"a\"]", "install_requires"), None);
    assert_eq!(extract_setup_list_param("install_requires: [\"a\"]", "install_requires"), None);
    assert_eq!(extract_setup_list_param("install_requires=", "install_requires"), None);
    assert_eq!(extract_setup_list_param("requires=[\"a\"]", "install_requires"), None);
    assert_eq!(extract_setup_list_param("", "install_requires"), None);
}

#[test]
fn extract_setup_list_param_of_a_list_that_is_not_closed() {
    assert_eq!(
        extract_setup_list_param("install_requires=[\"a\", \"b\"", "install_requires"),
        Some(strings(&["a"]))
    );
}

#[test]
fn scan_dict_reads_groups_with_their_lists() {
    let text: Vec<char> = "{\"dev\": [\"pkg1\", \"pkg2\"], 'docs': ['sphinx']}".chars().collect();
    assert_eq!(
        scan_dict(&text, 0),
        vec![
            ("dev".to_string(), strings(&["pkg1", "pkg2"])),
            ("docs".to_string(), strings(&["sphinx"])),
        ]
    );
}

#[test]
fn scan_dict_keeps_separators_inside_quotes() {
    let text: Vec<char> = "{\"dev\": [\"a>=1,<2\", 'b]c'], \"k:v,w\": [\"x}y\"]}".chars().collect();
    assert_eq!(
        scan_dict(&text, 0),
        vec![
            ("dev".to_string(), strings(&["a>=1,<2", "b]c"])),
            ("k:v,w".to_string(), strings(&["x}y"])),
        ]
    );
}

#[test]
fn scan_dict_reads_over_several_lines() {
    let text: Vec<char> = "{\n    \"dev\": [\n        \"pytest\",\n        \"tox\",\n    ],\n}".chars().collect();
    assert_eq!(
        scan_dict(&text, 0),
        vec![("dev".to_string(), strings(&["pytest", "tox"]))]
    );
}

#[test]
fn scan_dict_passes_over_entries_without_a_list() {
    let text: Vec<char> = "{\"a\": 1, \"b\": [\"x\"], : [\"y\"], \"c\": }".chars().collect();
    assert_eq!(
        scan_dict(&text, 0),
        vec![("b".to_string(), strings(&["x"]))]
    );
    let empty: Vec<char> = "{}".chars().collect();
    assert_eq!(scan_dict(&empty, 0), Vec::<(String, Vec<String>)>::new());
}

#[test]
fn scan_dict_counts_nested_braces() {
    let text: Vec<char> = "{\"a\": {\"k\": [\"x\"]}, \"b\": [\"y\"]} {\"z\": [\"w\"]}".chars().collect();
    assert_eq!(
        scan_dict(&text, 0),
        vec![
            ("a".to_string(), strings(&["x"])),
            ("b".to_string(), strings(&["y"])),
        ]
    );
}

#[test]
fn scan_dict_that_is_not_closed_loses_its_last_entry() {
    let text: Vec<char> = "{\"a\": [\"x\"], \"b\": [\"y\"]".chars().collect();
    assert_eq!(
        scan_dict(&text, 0),
        vec![("a".to_string(), strings(&["x"]))]
    );
}

#[test]
fn extract_setup_dict_param_reads_a_group_with_two_items() {
    let content = "extras_require={\"dev\": [\"pkg1\", \"pkg2\"]}";
    assert_eq!(
        extract_setup_dict_param(content, "extras_require"),
        Some(vec![("dev".to_string(), strings(&["pkg1", "pkg2"]))])
    );
}

#[test]
fn extract_setup_dict_param_reads_the_groups_in_order() {
    let content = "extras_require = {'dev': ['pytest'], 'docs': ['sphinx']}";
    assert_eq!(
        extract_setup_dict_param(content, "extras_require"),
        Some(vec![
            ("dev".to_string(), strings(&["pytest"])),
            ("docs".to_string(), strings(&["sphinx"])),
        ])
    );
}

#[test]
fn extract_setup_dict_param_passes_over_what_is_not_a_dictionary() {
    assert_eq!(extract_setup_dict_param("extras_require=EXTRAS", "extras_require"), None);
    assert_eq!(extract_setup_dict_param("extras_require=[\"a\"]", "extras_require"), None);
    assert_eq!(extract_setup_dict_param("", "extras_require"), None);
    assert_eq!(
        extract_setup_dict_param("extras_require={}", "extras_require"),
        Some(Vec::new())
    );
}

#[test]
fn extract_setup_py_info_of_a_script_without_parameters_is_the_heading() {
    let content = "from setuptools import setup\nsetup(name=NAME, install_requires=REQUIRED)\n";
    assert_eq!(
        extract_setup_py_info(content),
        "Project Type: Python (setup.py)\n"
    );
    assert_eq!(extract_setup_py_info(""), "Project Type: Python (setup.py)\n");
    assert_eq!(
        extract_setup_py_info("setup(install_requires=[], extras_require={})"),
        "Project Type: Python (setup.py)\n"
    );
}

#[test]
fn extract_setup_py_info_lists_what_it_finds() {
    let content = "from setuptools import setup\n\
                   \n\
                   setup(\n\
                   \x20   name=\"demo\",\n\
                   \x20   version='0.3',\n\
                   \x20   description = \"A demo\",\n\
                   \x20   install_requires=[\n\
                   \x20       \"requests>=2.0,<3\",\n\
                   \x20       \"click\",\n\
                   \x20   ],\n\
                   \x20   extras_require={\n\
                   \x20       \"dev\": [\"pytest\", \"tox\"],\n\
                   \x20       'docs': ['sphinx'],\n\
                   \x20   },\n\
                   )\n";
    assert_eq!(
        extract_setup_py_info(content),
        "Project Type: Python (setup.py)\n\
         Project Name: demo\n\
         Version: 0.3\n\
         Description: A demo\n\
         \nDependencies:\n\
         - requests>=2.0,<3\n\
         - click\n\
         \nOptional Dependencies:\n\
         Group 'dev':\n\
         \x20 - pytest\n\
         \x20 - tox\n\
         Group 'docs':\n\
         \x20 - sphinx\n"
    );
}
