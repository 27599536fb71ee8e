use code_copier::tree::{get_directory_structure, render_tree};
use code_copier::tree_read::read_directory_structure;

fn owned(paths: &[&str]) -> Vec<String> {
    paths.iter().map(|s| s.to_string()).collect()
}

fn structure_of(paths: &[&str]) -> String {
    let held = owned(paths);
    get_directory_structure(held.iter().collect())
}

#[test]
fn structure_of_a_small_project() {
    assert_eq!(
        structure_of(&["src/main.rs", "Cargo.toml", "src/util/mod.rs", "README.md"]),
        "├── Cargo.toml\n├── README.md\n└── src/\n  ├── main.rs\n  └── util/\n    ├── mod.rs\n"
    );
}

#[test]
fn structure_of_no_path_and_of_one_file() {
    assert_eq!(structure_of(&[]), "");
    assert_eq!(structure_of(&["a.txt"]), "├── a.txt\n");
    assert_eq!(structure_of(&[""]), "├── \n");
}

#[test]
fn structure_does_not_depend_on_the_order_given() {
    let one = structure_of(&["b/y", "a/x", "c", "a/w/v"]);
    let other = structure_of(&["a/w/v", "c", "a/x", "b/y"]);
    assert_eq!(one, other);
    assert_eq!(
        one,
        "└── a/\n  └── w/\n    ├── v\n  ├── x\n└── b/\n  ├── y\n├── c\n"
    );
}

#[test]
fn structure_draws_a_directory_once_for_its_files() {
    assert_eq!(
        structure_of(&["a/b/c.txt", "a/d.txt", "a/b/e.txt"]),
        "└── a/\n  └── b/\n    ├── c.txt\n    ├── e.txt\n  ├── d.txt\n"
    );
}

#[test]
fn structure_tells_names_apart_by_case() {
    assert_eq!(
        structure_of(&["src/a", "Src/b"]),
        "└── Src/\n  ├── b\n└── src/\n  ├── a\n"
    );
}

#[test]
fn structure_sorts_by_the_whole_path() {
    assert_eq!(
        structure_of(&["a/y", "a-b/x", "a0/z"]),
        "└── a-b/\n  ├── x\n└── a/\n  ├── y\n└── a0/\n  ├── z\n"
    );
}

#[test]
fn structure_keeps_a_path_given_twice() {
    assert_eq!(structure_of(&["a/x", "a/x"]), "└── a/\n  ├── x\n  ├── x\n");
}

#[test]
fn structure_with_empty_segments() {
    assert_eq!(structure_of(&["a//b"]), "└── a/\n  └── /\n    ├── b\n");
    assert_eq!(structure_of(&["a/"]), "└── a/\n  ├── \n");
}

#[test]
fn render_tree_takes_the_paths_in_the_order_given() {
    let paths: Vec<Vec<char>> = ["b/x", "a/y", "b/z"]
        .iter()
        .map(|s| s.chars().collect())
        .collect();
    assert_eq!(
        render_tree(&paths),
        "└── b/\n  ├── x\n└── a/\n  ├── y\n└── b/\n  ├── z\n"
    );
}

#[test]
fn reading_a_drawn_tree_gives_the_paths_back() {
    let paths = ["src/main.rs", "Cargo.toml", "src/util/mod.rs", "README.md", "src/util/io/read.rs", "docs/a b.md"];
    let drawn = structure_of(&paths);
    let mut expected = owned(&paths);
    expected.sort();
    assert_eq!(read_directory_structure(&drawn), expected);
}

#[test]
fn reading_gives_odd_paths_back_too() {
    let paths = ["", "a//b", " lead/ trail ", "└── x/├── y", "a/", "é/ü.txt", "a/b", "a"];
    let drawn = structure_of(&paths);
    let mut expected = owned(&paths);
    expected.sort();
    assert_eq!(read_directory_structure(&drawn), expected);
}

#[test]
fn reading_a_path_with_a_line_break_does_not_give_it_back() {
    let drawn = structure_of(&["a\nb"]);
    assert_eq!(drawn, "├── a\nb\n");
    assert_eq!(read_directory_structure(&drawn), owned(&["a"]));
}

#[test]
fn reading_passes_over_what_is_no_line_of_a_tree() {
    let text = "heading\n├── a\n └── odd/\n└── d/\n  ├── b\nnot ended";
    assert_eq!(read_directory_structure(text), owned(&["a", "d/b"]));
    assert_eq!(read_directory_structure(""), Vec::<String>::new());
}
