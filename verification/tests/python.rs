use code_copier::manifest::ManifestValue;
use code_copier::python::{describe_python_project, extract_python_project_info};

#[test]
fn poetry_manifest_leaves_out_the_interpreter() {
    let content = "[tool.poetry]\n\
                   name = \"demo\"\n\
                   version = \"0.1.0\"\n\
                   description = \"A demo\"\n\
                   \n\
                   [tool.poetry.dependencies]\n\
                   python = \"^3.9\"\n\
                   requests = \"^2.28\"\n\
                   local = { path = \"../local\" }\n\
                   \n\
                   [tool.poetry.dev-dependencies]\n\
                   pytest = \"^7.0\"\n";
    let info = extract_python_project_info(content).unwrap();
    assert!(!info.contains("python"));
    assert_eq!(
        info,
        "Project Type: Python (Poetry)\n\
         Project Name: demo\n\
         Version: 0.1.0\n\
         Description: A demo\n\
         \nDependencies:\n\
         - local\n\
         - requests = \"^2.28\"\n\
         \nDev Dependencies:\n\
         - pytest = \"^7.0\"\n"
    );
}

#[test]
fn poetry_development_dependencies_keep_an_entry_named_python() {
    let content = "[tool.poetry.dev-dependencies]\npython = \"^3.9\"\n";
    assert_eq!(
        extract_python_project_info(content),
        Some(
            "Project Type: Python (Poetry)\n\nDev Dependencies:\n- python = \"^3.9\"\n"
                .to_string()
        )
    );
}

#[test]
fn standard_project_table() {
    let content = "[project]\n\
                   name = \"demo\"\n\
                   version = \"2.0\"\n\
                   description = \"Standard\"\n\
                   dependencies = [\"requests>=2\", 5, \"numpy\"]\n\
                   \n\
                   [project.optional-dependencies]\n\
                   test = [\"pytest\", \"tox\"]\n\
                   docs = [\"sphinx\"]\n\
                   odd = \"none\"\n";
    assert_eq!(
        extract_python_project_info(content),
        Some(
            "Project Type: Python (PEP 621)\n\
             Project Name: demo\n\
             Version: 2.0\n\
             Description: Standard\n\
             \nDependencies:\n\
             - requests>=2\n\
             - numpy\n\
             \nOptional Dependencies:\n\
             Group 'docs':\n\
             \x20 - sphinx\n\
             Group 'odd':\n\
             Group 'test':\n\
             \x20 - pytest\n\
             \x20 - tox\n"
                .to_string()
        )
    );
}

#[test]
fn flit_metadata() {
    let content = "[tool.flit.metadata]\n\
                   module = \"demo\"\n\
                   description = \"Flit demo\"\n\
                   requires = [\"requests\"]\n\
                   \n\
                   [tool.flit.metadata.requires-extra]\n\
                   test = [\"pytest\"]\n";
    assert_eq!(
        extract_python_project_info(content),
        Some(
            "Project Type: Python (Flit)\n\
             Project Name: demo\n\
             Description: Flit demo\n\
             \nDependencies:\n\
             - requests\n\
             \nOptional Dependencies:\n\
             Group 'test':\n\
             \x20 - pytest\n"
                .to_string()
        )
    );
}

#[test]
fn flit_table_without_metadata() {
    let content = "[tool.flit]\nname = \"demo\"\n";
    assert_eq!(
        extract_python_project_info(content),
        Some(
            "Project Type: Python (Flit)\n\
             Project Type: Python (pyproject.toml format not recognized)\n\
             A pyproject.toml file was found but its format couldn't be parsed.\n"
                .to_string()
        )
    );
}

#[test]
fn manifest_of_no_known_layout() {
    let expected = "Project Type: Python (pyproject.toml format not recognized)\n\
                    A pyproject.toml file was found but its format couldn't be parsed.\n";
    assert_eq!(
        extract_python_project_info("[build-system]\nrequires = [\"setuptools\"]\n"),
        Some(expected.to_string())
    );
    assert_eq!(extract_python_project_info(""), Some(expected.to_string()));
    assert_eq!(
        extract_python_project_info("[tool.black]\nline-length = 88\n"),
        Some(expected.to_string())
    );
}

#[test]
fn layouts_are_tried_in_order() {
    let poetry_first = "[project]\nname = \"standard\"\n[tool.poetry]\nname = \"poetry\"\n[tool.flit.metadata]\nmodule = \"flit\"\n";
    assert_eq!(
        extract_python_project_info(poetry_first),
        Some("Project Type: Python (Poetry)\nProject Name: poetry\n".to_string())
    );
    let project_second = "[project]\nname = \"standard\"\n[tool.flit.metadata]\nmodule = \"flit\"\n";
    assert_eq!(
        extract_python_project_info(project_second),
        Some("Project Type: Python (PEP 621)\nProject Name: standard\n".to_string())
    );
}

#[test]
fn manifest_that_is_no_document() {
    assert_eq!(extract_python_project_info("[project\n"), None);
    assert_eq!(extract_python_project_info("= 3"), None);
}

#[test]
fn describe_python_project_skips_python_wherever_it_stands() {
    let doc = ManifestValue::Table(vec![(
        "tool".to_string(),
        ManifestValue::Table(vec![(
            "poetry".to_string(),
            ManifestValue::Table(vec![(
                "dependencies".to_string(),
                ManifestValue::Table(vec![
                    ("a".to_string(), ManifestValue::Text("1".to_string())),
                    ("python".to_string(), ManifestValue::Text("^3".to_string())),
                    ("b".to_string(), ManifestValue::Other),
                    ("python".to_string(), ManifestValue::Other),
                ]),
            )]),
        )]),
    )]);
    assert_eq!(
        describe_python_project(&doc),
        "Project Type: Python (Poetry)\n\nDependencies:\n- a = \"1\"\n- b\n"
    );
}
