use code_copier::cargo::{describe_cargo_manifest, extract_cargo_info};
use code_copier::manifest::ManifestValue;

#[test]
fn cargo_manifest_with_name_version_and_one_dependency() {
    let content = "[package]\nname = \"foo\"\nversion = \"1.0\"\n\n[dependencies]\nbar = \"2.0\"\n";
    let info = extract_cargo_info(content).unwrap();
    assert!(info.contains("Project Name: foo\n"));
    assert!(info.contains("Version: 1.0\n"));
    assert!(info.contains("- bar = \"2.0\"\n"));
    assert_eq!(
        info,
        "Project Name: foo\nVersion: 1.0\n\nDependencies:\n- bar = \"2.0\"\n"
    );
}

#[test]
fn cargo_manifest_with_every_section() {
    let content = "[package]\n\
                   name = \"demo\"\n\
                   version = \"0.1.0\"\n\
                   description = \"A demo\"\n\
                   edition = \"2021\"\n\
                   \n\
                   [dependencies]\n\
                   serde = { version = \"1.0\", features = [\"derive\"] }\n\
                   local = { path = \"../local\" }\n\
                   anyhow = \"1\"\n\
                   \n\
                   [dev-dependencies]\n\
                   tempfile = \"3\"\n";
    assert_eq!(
        extract_cargo_info(content),
        Some(
            "Project Name: demo\n\
             Version: 0.1.0\n\
             Description: A demo\n\
             \nDependencies:\n\
             - anyhow = \"1\"\n\
             - local\n\
             - serde = \"1.0\"\n\
             \nDev Dependencies:\n\
             - tempfile = \"3\"\n"
                .to_string()
        )
    );
}

#[test]
fn cargo_manifest_fields_of_another_kind_are_passed_over() {
    let content = "dependencies = 3\n[package]\nname = 1\nversion = \"2\"\n";
    assert_eq!(extract_cargo_info(content), Some("Version: 2\n".to_string()));
}

#[test]
fn cargo_manifest_dependency_of_another_kind_is_named_bare() {
    let content = "[dependencies]\nodd = 5\nlisted = [\"x\"]\nversioned = { version = 2 }\n";
    assert_eq!(
        extract_cargo_info(content),
        Some("\nDependencies:\n- listed\n- odd\n- versioned\n".to_string())
    );
}

#[test]
fn cargo_manifest_with_empty_tables() {
    let content = "[package]\n[dependencies]\n[dev-dependencies]\n";
    assert_eq!(
        extract_cargo_info(content),
        Some("\nDependencies:\n\nDev Dependencies:\n".to_string())
    );
}

#[test]
fn cargo_manifest_without_anything_to_report_has_no_summary() {
    assert_eq!(extract_cargo_info(""), None);
    assert_eq!(extract_cargo_info("[workspace]\nmembers = []\n"), None);
    assert_eq!(extract_cargo_info("[package]\nname = 1\n"), None);
}

#[test]
fn cargo_manifest_that_is_no_document() {
    assert_eq!(extract_cargo_info("[package\nname = \"foo\"\n"), None);
    assert_eq!(extract_cargo_info("name = \n"), None);
    assert_eq!(extract_cargo_info("a = 1\na = 2\n"), None);
}

#[test]
fn describe_cargo_manifest_keeps_the_order_of_the_table() {
    let doc = ManifestValue::Table(vec![(
        "dependencies".to_string(),
        ManifestValue::Table(vec![
            ("zeta".to_string(), ManifestValue::Text("1".to_string())),
            ("alpha".to_string(), ManifestValue::Other),
            (
                "mid".to_string(),
                ManifestValue::Table(vec![(
                    "version".to_string(),
                    ManifestValue::Text("0.2".to_string()),
                )]),
            ),
        ]),
    )]);
    assert_eq!(
        describe_cargo_manifest(&doc),
        Some("\nDependencies:\n- zeta = \"1\"\n- alpha\n- mid = \"0.2\"\n".to_string())
    );
}

#[test]
fn describe_cargo_manifest_of_a_value_that_is_no_table() {
    assert_eq!(describe_cargo_manifest(&ManifestValue::Other), None);
    assert_eq!(
        describe_cargo_manifest(&ManifestValue::Text("package".to_string())),
        None
    );
    assert_eq!(describe_cargo_manifest(&ManifestValue::Table(Vec::new())), None);
}
