use code_copier::collect::{
    check_file, has_excluded_extension, process_file, read_failure_notice, relative_path,
    should_exclude_entry, FileDecision, Walker, MAX_FILE_SIZE,
};
use code_copier::format::FileEntry;

#[test]
fn excluded_directories_are_matched_by_their_whole_name() {
    for name in [
        ".git", "target", "node_modules", ".vscode", ".idea", ".github", "dist", "build", "out",
        "__pycache__", ".pytest_cache", ".mypy_cache", ".tox", ".eggs", ".ipynb_checkpoints",
        "venv", "env", ".env",
    ] {
        assert!(should_exclude_entry(name, true), "{}", name);
        assert!(!should_exclude_entry(name, false), "{}", name);
    }
    for name in ["src", "layout", "my_build", "targets", "Target", ".gitignore", "environment", ""] {
        assert!(!should_exclude_entry(name, true), "{}", name);
    }
}

#[test]
fn egg_info_directories_are_matched_by_their_ending() {
    assert!(should_exclude_entry("demo.egg-info", true));
    assert!(should_exclude_entry(".egg-info", true));
    assert!(!should_exclude_entry("demo.egg-info", false));
    assert!(!should_exclude_entry("demo.egg-info.bak", true));
    assert!(!should_exclude_entry("egg-info", true));
}

#[test]
fn excluded_extensions() {
    for ext in [
        "exe", "dll", "so", "dylib", "o", "obj", "a", "lib", "bin", "png", "jpg", "jpeg", "gif",
        "svg", "ico", "woff", "woff2", "ttf", "eot", "pyc", "pyd", "pyo", "class", "jar",
    ] {
        assert!(has_excluded_extension(ext), "{}", ext);
    }
    for ext in ["rs", "py", "txt", "PNG", ".png", "", "jp", "jpegs", "md"] {
        assert!(!has_excluded_extension(ext), "{}", ext);
    }
}

#[test]
fn size_threshold_is_one_hundred_kibibytes() {
    assert_eq!(MAX_FILE_SIZE, 100 * 1024);
}

#[test]
fn files_up_to_the_threshold_are_read() {
    assert_eq!(check_file("a.rs", Some("rs"), Some(0)), FileDecision::Read);
    assert_eq!(check_file("a.rs", Some("rs"), Some(102400)), FileDecision::Read);
    assert_eq!(check_file("a", None, Some(102399)), FileDecision::Read);
    assert_eq!(check_file("a", None, None), FileDecision::Read);
}

#[test]
fn files_above_the_threshold_are_passed_over_with_a_notice() {
    assert_eq!(
        check_file("big/a.rs", Some("rs"), Some(102401)),
        FileDecision::SkipLarge { notice: "Skipping large file: big/a.rs".to_string() }
    );
    assert_eq!(
        check_file("x", None, Some(u64::MAX)),
        FileDecision::SkipLarge { notice: "Skipping large file: x".to_string() }
    );
}

#[test]
fn the_extension_is_looked_at_before_the_size() {
    assert_eq!(check_file("a.png", Some("png"), Some(1)), FileDecision::SkipExtension);
    assert_eq!(check_file("a.png", Some("png"), Some(102401)), FileDecision::SkipExtension);
    assert_eq!(check_file("a.png", Some("png"), None), FileDecision::SkipExtension);
}

#[test]
fn walk_passes_over_what_lies_below_an_excluded_directory() {
    let listing: [(usize, &str, bool); 9] = [
        (0, "project", true),
        (1, "src", true),
        (2, "main.rs", false),
        (1, "target", true),
        (2, "debug", true),
        (3, "app", false),
        (2, "notes.txt", false),
        (1, "README.md", false),
        (1, "target", false),
    ];
    let mut walker = Walker::new();
    let visited: Vec<bool> = listing
        .iter()
        .map(|(depth, name, is_dir)| walker.step(*depth, Some(name), *is_dir))
        .collect();
    assert_eq!(
        visited,
        vec![true, true, true, false, false, false, false, true, true]
    );
}

#[test]
fn walk_of_an_excluded_root_visits_nothing() {
    let mut walker = Walker::new();
    assert!(!walker.step(0, Some("node_modules"), true));
    assert!(!walker.step(1, Some("a.js"), false));
    assert!(!walker.step(2, Some("b.js"), false));
}

#[test]
fn walk_visits_an_entry_whose_name_is_no_text() {
    let mut walker = Walker::new();
    assert!(walker.step(0, None, true));
    assert!(walker.step(1, None, false));
}

#[test]
fn walk_handles_excluded_directories_in_a_row() {
    let mut walker = Walker::new();
    assert!(walker.step(0, Some("."), true));
    assert!(!walker.step(1, Some(".git"), true));
    assert!(!walker.step(2, Some("config"), false));
    assert!(!walker.step(1, Some("build"), true));
    assert!(!walker.step(2, Some("out.txt"), false));
    assert!(walker.step(1, Some("src"), true));
    assert!(walker.step(2, Some("lib.rs"), false));
}

#[test]
fn relative_path_is_what_follows_the_root() {
    assert_eq!(relative_path("proj/src/main.rs", "proj"), "src/main.rs");
    assert_eq!(relative_path("proj/src/main.rs", "proj/"), "src/main.rs");
    assert_eq!(relative_path("./src/main.rs", "."), "src/main.rs");
    assert_eq!(relative_path("/abs/proj/a.txt", "/abs/proj"), "a.txt");
    assert_eq!(relative_path("/a.txt", "/"), "a.txt");
    assert_eq!(relative_path("C:\\proj\\src\\a.rs", "C:\\proj"), "src\\a.rs");
    assert_eq!(relative_path("src/lib.rs", ""), "src/lib.rs");
}

#[test]
fn relative_path_of_a_file_that_is_its_own_root_is_empty() {
    assert_eq!(relative_path("src/main.rs", "src/main.rs"), "");
    assert_eq!(relative_path("", ""), "");
}

#[test]
fn relative_path_of_a_file_that_is_not_under_the_root_is_the_whole_path() {
    assert_eq!(relative_path("project/a.txt", "proj"), "project/a.txt");
    assert_eq!(relative_path("/other/a.txt", "/abs"), "other/a.txt");
    assert_eq!(relative_path("a", "a/b"), "a");
    assert_eq!(relative_path("//\\\\a\\b", "x"), "a\\b");
    assert_eq!(relative_path("\\/c", "x"), "/c");
}

#[test]
fn process_file_keeps_a_file_under_its_relative_path() {
    let mut files: Vec<FileEntry> = Vec::new();
    assert!(process_file("proj/src/main.rs", "proj", Some("fn main() {}".to_string()), &mut files));
    assert!(process_file("proj/empty", "proj", Some(String::new()), &mut files));
    assert!(process_file("one.txt", "one.txt", Some("x".to_string()), &mut files));
    assert!(process_file("/else/plain.txt", "proj", Some("y".to_string()), &mut files));
    assert_eq!(
        files,
        vec![
            FileEntry { path: "src/main.rs".to_string(), content: "fn main() {}".to_string() },
            FileEntry { path: "empty".to_string(), content: String::new() },
            FileEntry { path: String::new(), content: "x".to_string() },
            FileEntry { path: "else/plain.txt".to_string(), content: "y".to_string() },
        ]
    );
}

#[test]
fn process_file_leaves_out_a_file_that_was_not_read() {
    let mut files = vec![FileEntry { path: "a".to_string(), content: "b".to_string() }];
    assert!(!process_file("c", "", None, &mut files));
    assert_eq!(files, vec![FileEntry { path: "a".to_string(), content: "b".to_string() }]);
}

#[test]
fn read_failure_notice_names_the_file_and_the_reason() {
    assert_eq!(
        read_failure_notice("a/b.txt", "stream did not contain valid UTF-8"),
        "Error reading file a/b.txt: stream did not contain valid UTF-8"
    );
}
