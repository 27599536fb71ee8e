use code_copier::requirements::extract_requirements_info;

#[test]
fn requirements_with_comment_blank_and_trailing_comment() {
    let content = "# pinned for the server\n\nrequests==2.0  # http lib\n";
    assert_eq!(
        extract_requirements_info(content),
        "Project Type: Python (requirements.txt)\n\nDependencies:\n- requests==2.0\n"
    );
}

#[test]
fn requirements_lists_each_dependency_in_order() {
    let content = "flask>=2.0\n  numpy  \r\npandas";
    assert_eq!(
        extract_requirements_info(content),
        "Project Type: Python (requirements.txt)\n\nDependencies:\n- flask>=2.0\n- numpy\n- pandas\n"
    );
}

#[test]
fn requirements_without_dependencies_is_the_heading() {
    assert_eq!(
        extract_requirements_info(""),
        "Project Type: Python (requirements.txt)\n"
    );
    assert_eq!(
        extract_requirements_info("# only\n   \n\t# comments\n"),
        "Project Type: Python (requirements.txt)\n"
    );
}

#[test]
fn requirements_keeps_options_and_urls() {
    let content = "-r base.txt\ngit+https://example.org/x.git@main#egg=x\n";
    assert_eq!(
        extract_requirements_info(content),
        "Project Type: Python (requirements.txt)\n\nDependencies:\n- -r base.txt\n- git+https://example.org/x.git@main\n"
    );
}
