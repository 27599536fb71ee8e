use code_copier::format::{format_for_llm, FileEntry, ProjectType};

fn entry(path: &str, content: &str) -> FileEntry {
    FileEntry { path: path.to_string(), content: content.to_string() }
}

#[test]
fn document_of_a_project_of_unknown_kind() {
    let out = format_for_llm(vec![entry("a.txt", "hi")], ProjectType::Unknown, None);
    assert_eq!(
        out,
        "<project>\n<project_info>\nProject type could not be determined.\n</project_info>\n\n<file_structure>\n├── a.txt\n</file_structure>\n\n<file path=\"a.txt\">\nhi\n</file>\n\n</project>"
    );
}

#[test]
fn document_of_unknown_kind_has_the_notice_whatever_the_summary() {
    let out = format_for_llm(Vec::new(), ProjectType::Unknown, Some("ignored".to_string()));
    assert_eq!(
        out,
        "<project>\n<project_info>\nProject type could not be determined.\n</project_info>\n\n<file_structure>\n</file_structure>\n\n</project>"
    );
}

#[test]
fn document_of_a_rust_project() {
    let out = format_for_llm(
        vec![entry("src/main.rs", "fn main() {}\n"), entry("Cargo.toml", "[package]")],
        ProjectType::Rust,
        Some("Project Name: foo\n".to_string()),
    );
    assert_eq!(
        out,
        "<project>\n<cargo_info>\nProject Name: foo\n</cargo_info>\n\n<file_structure>\n├── Cargo.toml\n└── src/\n  ├── main.rs\n</file_structure>\n\n<file path=\"src/main.rs\">\nfn main() {}\n\n</file>\n\n<file path=\"Cargo.toml\">\n[package]\n</file>\n\n</project>"
    );
}

#[test]
fn document_of_a_python_project() {
    let out = format_for_llm(
        Vec::new(),
        ProjectType::Python,
        Some("Project Type: Python (setup.py)\n".to_string()),
    );
    assert_eq!(
        out,
        "<project>\n<python_info>\nProject Type: Python (setup.py)\n</python_info>\n\n<file_structure>\n</file_structure>\n\n</project>"
    );
}

#[test]
fn document_of_a_known_kind_without_summary_has_no_block() {
    let expected = "<project>\n<file_structure>\n</file_structure>\n\n</project>";
    assert_eq!(format_for_llm(Vec::new(), ProjectType::Rust, None), expected);
    assert_eq!(format_for_llm(Vec::new(), ProjectType::Python, None), expected);
}

#[test]
fn document_passes_content_through_as_it_is() {
    let out = format_for_llm(
        vec![entry("x\"y", "</file>\n<file path=\"z\">")],
        ProjectType::Python,
        None,
    );
    assert_eq!(
        out,
        "<project>\n<file_structure>\n├── x\"y\n</file_structure>\n\n<file path=\"x\"y\">\n</file>\n<file path=\"z\">\n</file>\n\n</project>"
    );
}

#[test]
fn project_type_compares_by_variant() {
    assert_eq!(ProjectType::Rust, ProjectType::Rust);
    assert_ne!(ProjectType::Rust, ProjectType::Python);
    assert_ne!(ProjectType::Python, ProjectType::Unknown);
}
