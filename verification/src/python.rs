//! The summary of a `pyproject.toml` manifest.
//!
//! Three layouts are known and are tried in a fixed order: the table that
//! Poetry reads, the standard `project` table, and the metadata that Flit
//! reads. The first that the document has decides the summary. A document
//! with none of them still shows that the project is a Python project, and
//! is summarised by a notice.

use vstd::prelude::*;
use crate::manifest::{
    entry_trees, item_trees, parse_manifest, toml_document, ManifestTree, ManifestValue,
};
use crate::summary::{
    bullet, group_heading, identity_fields, nested_bullet, optional_field, push_bullet,
    push_group_heading, push_identity_fields, push_nested_bullet, push_optional_field,
    push_versioned_bullet, versioned_bullet,
};
use crate::text::same_text;

verus! {

/// The line of one dependency of a Poetry table: with its version where the
/// value is a text, else the bare name.
pub open spec fn poetry_dependency_line(name: Seq<char>, value: ManifestTree) -> Seq<char> {
    match value {
        ManifestTree::Text(version) => versioned_bullet(name, version),
        _ => bullet(name),
    }
}

/// One line for each dependency, in the order of the table. With
/// `skip_python` the entry `python`, which constrains the interpreter and
/// names no package, gives no line.
pub open spec fn poetry_dependency_lines(
    entries: Seq<(Seq<char>, ManifestTree)>,
    skip_python: bool,
) -> Seq<char>
    decreases entries.len(),
{
    if entries.len() == 0 {
        Seq::empty()
    } else {
        let rest = poetry_dependency_lines(entries.drop_last(), skip_python);
        if skip_python && entries.last().0 == "python"@ {
            rest
        } else {
            rest + poetry_dependency_line(entries.last().0, entries.last().1)
        }
    }
}

/// The entry does not constrain the interpreter.
pub open spec fn names_a_package(entry: (Seq<char>, ManifestTree)) -> bool {
    entry.0 != "python"@
}

/// The interpreter's entry never shows among the dependencies: the lines
/// are those of the other entries, and an entry named `python` adds nothing
/// wherever it stands in the table.
pub proof fn lemma_python_is_left_out(entries: Seq<(Seq<char>, ManifestTree)>)
    ensures
        poetry_dependency_lines(entries, true) == poetry_dependency_lines(
            entries.filter(|e: (Seq<char>, ManifestTree)| names_a_package(e)),
            false,
        ),
    decreases entries.len(),
{
    reveal(Seq::filter);
    let keep = |e: (Seq<char>, ManifestTree)| names_a_package(e);
    if entries.len() > 0 {
        lemma_python_is_left_out(entries.drop_last());
        let kept = entries.drop_last().filter(keep);
        if names_a_package(entries.last()) {
            assert(entries.filter(keep) == kept.push(entries.last()));
            assert(kept.push(entries.last()).drop_last() == kept);
        }
    }
}

/// The section for one table of dependencies of a Poetry table.
pub open spec fn poetry_section(
    heading: Seq<char>,
    deps: Option<ManifestTree>,
    skip_python: bool,
) -> Seq<char> {
    match deps {
        Some(ManifestTree::Table(entries)) => heading + poetry_dependency_lines(
            entries,
            skip_python,
        ),
        _ => Seq::empty(),
    }
}

/// The summary of the table that Poetry reads.
pub open spec fn poetry_info(poetry: ManifestTree) -> Seq<char> {
    "Project Type: Python (Poetry)\n"@ + identity_fields(poetry) + poetry_section(
        "\nDependencies:\n"@,
        poetry.entry("dependencies"@),
        true,
    ) + poetry_section("\nDev Dependencies:\n"@, poetry.entry("dev-dependencies"@), false)
}

/// One line for each item that is a text, in order.
pub open spec fn requirement_lines(items: Seq<ManifestTree>) -> Seq<char>
    decreases items.len(),
{
    if items.len() == 0 {
        Seq::empty()
    } else {
        requirement_lines(items.drop_last()) + (match items.last() {
            ManifestTree::Text(dep) => bullet(dep),
            _ => Seq::empty(),
        })
    }
}

/// One indented line for each item that is a text, in order.
pub open spec fn nested_requirement_lines(items: Seq<ManifestTree>) -> Seq<char>
    decreases items.len(),
{
    if items.len() == 0 {
        Seq::empty()
    } else {
        nested_requirement_lines(items.drop_last()) + (match items.last() {
            ManifestTree::Text(dep) => nested_bullet(dep),
            _ => Seq::empty(),
        })
    }
}

/// The section for an array of requirements: its heading and its lines
/// where `deps` is an array, nothing where it is missing or of another kind.
pub open spec fn requirement_section(deps: Option<ManifestTree>) -> Seq<char> {
    match deps {
        Some(ManifestTree::List(items)) => "\nDependencies:\n"@ + requirement_lines(items),
        _ => Seq::empty(),
    }
}

/// For each group, in the order of the table, its heading and then the
/// requirements of its array.
pub open spec fn group_lines(entries: Seq<(Seq<char>, ManifestTree)>) -> Seq<char>
    decreases entries.len(),
{
    if entries.len() == 0 {
        Seq::empty()
    } else {
        group_lines(entries.drop_last()) + group_heading(entries.last().0) + (match entries.last().1 {
            ManifestTree::List(items) => nested_requirement_lines(items),
            _ => Seq::empty(),
        })
    }
}

/// The section for a table of optional dependencies by group.
pub open spec fn group_section(groups: Option<ManifestTree>) -> Seq<char> {
    match groups {
        Some(ManifestTree::Table(entries)) => "\nOptional Dependencies:\n"@ + group_lines(entries),
        _ => Seq::empty(),
    }
}

/// The summary of the standard `project` table.
pub open spec fn pep621_info(project: ManifestTree) -> Seq<char> {
    "Project Type: Python (PEP 621)\n"@ + identity_fields(project) + requirement_section(
        project.entry("dependencies"@),
    ) + group_section(project.entry("optional-dependencies"@))
}

/// The summary of the metadata that Flit reads.
pub open spec fn flit_info(metadata: ManifestTree) -> Seq<char> {
    "Project Type: Python (Flit)\n"@ + optional_field(
        "Project Name: "@,
        metadata.text_at("module"@),
    ) + optional_field("Description: "@, metadata.text_at("description"@)) + requirement_section(
        metadata.entry("requires"@),
    ) + group_section(metadata.entry("requires-extra"@))
}

/// The notice for a document of no known layout.
pub open spec fn unrecognized_notice() -> Seq<char> {
    "Project Type: Python (pyproject.toml format not recognized)\n"@
        + "A pyproject.toml file was found but its format couldn't be parsed.\n"@
}

/// The summary of the manifest `doc`: that of the first layout that the
/// document has, in the order Poetry, `project`, Flit. A Flit table without
/// metadata gives the Flit heading followed by the notice.
pub open spec fn python_project_info(doc: ManifestTree) -> Seq<char> {
    match doc.entry_at("tool"@, "poetry"@) {
        Some(poetry) => poetry_info(poetry),
        None => match doc.entry("project"@) {
            Some(project) => pep621_info(project),
            None => match doc.entry_at("tool"@, "flit"@) {
                Some(flit) => match flit.entry("metadata"@) {
                    Some(metadata) => flit_info(metadata),
                    None => "Project Type: Python (Flit)\n"@ + unrecognized_notice(),
                },
                None => unrecognized_notice(),
            },
        },
    }
}

/// The summary of a `pyproject.toml` is never empty: it begins with the line
/// that tells the layout.
pub proof fn lemma_python_info_is_not_empty(doc: ManifestTree)
    ensures
        python_project_info(doc).len() > 0,
{
    reveal_strlit("Project Type: Python (Poetry)\n");
    reveal_strlit("Project Type: Python (PEP 621)\n");
    reveal_strlit("Project Type: Python (Flit)\n");
    reveal_strlit("Project Type: Python (pyproject.toml format not recognized)\n");
}

/// Appends the section for one table of dependencies of a Poetry table.
fn push_poetry_section(
    info: &mut String,
    heading: &str,
    deps: Option<&ManifestValue>,
    skip_python: bool,
)
    ensures
        final(info)@ == old(info)@ + poetry_section(
            heading@,
            match deps {
                Some(d) => Some(d@),
                None => None,
            },
            skip_python,
        ),
{
    let entries = match deps {
        Some(d) => match d.as_table() {
            Some(entries) => entries,
            None => { return ; },
        },
        None => { return ; },
    };
    info.append(heading);
    let ghost all = entry_trees(entries@);
    let ghost base = info@;
    let mut k: usize = 0;
    assert(all.take(0) == Seq::<(Seq<char>, ManifestTree)>::empty());
    while k < entries.len()
        invariant
            k <= entries.len(),
            all == entry_trees(entries@),
            info@ == base + poetry_dependency_lines(all.take(k as int), skip_python),
        decreases entries.len() - k,
    {
        assert(all.take(k + 1).drop_last() == all.take(k as int));
        assert(all.take(k + 1).last() == (entries@[k as int].0@, entries@[k as int].1@));
        let name = entries[k].0.as_str();
        if !(skip_python && same_text(name, "python")) {
            match entries[k].1.as_str() {
                Some(version) => push_versioned_bullet(info, name, version),
                None => push_bullet(info, name),
            }
        }
        k += 1;
    }
    assert(all.take(entries.len() as int) == all);
}

/// Appends one line for each item of `items` that is a text, indented where
/// `nested` is set.
fn push_requirement_lines(info: &mut String, items: &Vec<ManifestValue>, nested: bool)
    ensures
        final(info)@ == old(info)@ + (if nested {
            nested_requirement_lines(item_trees(items@))
        } else {
            requirement_lines(item_trees(items@))
        }),
{
    let ghost all = item_trees(items@);
    let mut k: usize = 0;
    assert(all.take(0) == Seq::<ManifestTree>::empty());
    while k < items.len()
        invariant
            k <= items.len(),
            all == item_trees(items@),
            info@ == old(info)@ + (if nested {
                nested_requirement_lines(all.take(k as int))
            } else {
                requirement_lines(all.take(k as int))
            }),
        decreases items.len() - k,
    {
        assert(all.take(k + 1).drop_last() == all.take(k as int));
        assert(all.take(k + 1).last() == items@[k as int]@);
        match items[k].as_str() {
            Some(dep) => {
                if nested {
                    push_nested_bullet(info, dep);
                } else {
                    push_bullet(info, dep);
                }
            },
            None => {},
        }
        k += 1;
    }
    assert(all.take(items.len() as int) == all);
}

/// Appends the section for the array of requirements `deps`.
fn push_requirement_section(info: &mut String, deps: Option<&ManifestValue>)
    ensures
        final(info)@ == old(info)@ + requirement_section(
            match deps {
                Some(d) => Some(d@),
                None => None,
            },
        ),
{
    match deps {
        Some(d) => match d.as_array() {
            Some(items) => {
                info.append("\nDependencies:\n");
                push_requirement_lines(info, items, false);
            },
            None => {},
        },
        None => {},
    }
}

/// Appends the section for the table of optional dependencies `groups`.
fn push_group_section(info: &mut String, groups: Option<&ManifestValue>)
    ensures
        final(info)@ == old(info)@ + group_section(
            match groups {
                Some(g) => Some(g@),
                None => None,
            },
        ),
{
    let entries = match groups {
        Some(g) => match g.as_table() {
            Some(entries) => entries,
            None => { return ; },
        },
        None => { return ; },
    };
    info.append("\nOptional Dependencies:\n");
    let ghost all = entry_trees(entries@);
    let ghost base = info@;
    let mut k: usize = 0;
    assert(all.take(0) == Seq::<(Seq<char>, ManifestTree)>::empty());
    while k < entries.len()
        invariant
            k <= entries.len(),
            all == entry_trees(entries@),
            info@ == base + group_lines(all.take(k as int)),
        decreases entries.len() - k,
    {
        assert(all.take(k + 1).drop_last() == all.take(k as int));
        assert(all.take(k + 1).last() == (entries@[k as int].0@, entries@[k as int].1@));
        push_group_heading(info, entries[k].0.as_str());
        match entries[k].1.as_array() {
            Some(items) => push_requirement_lines(info, items, true),
            None => {},
        }
        k += 1;
    }
    assert(all.take(entries.len() as int) == all);
}

/// The summary of the table that Poetry reads.
fn describe_poetry(poetry: &ManifestValue) -> (r: String)
    ensures
        r@ == poetry_info(poetry@),
{
    let mut info = String::from_str("Project Type: Python (Poetry)\n");
    push_identity_fields(&mut info, poetry);
    push_poetry_section(&mut info, "\nDependencies:\n", poetry.get("dependencies"), true);
    push_poetry_section(&mut info, "\nDev Dependencies:\n", poetry.get("dev-dependencies"), false);
    info
}

/// The summary of the standard `project` table.
fn describe_pep621(project: &ManifestValue) -> (r: String)
    ensures
        r@ == pep621_info(project@),
{
    let mut info = String::from_str("Project Type: Python (PEP 621)\n");
    push_identity_fields(&mut info, project);
    push_requirement_section(&mut info, project.get("dependencies"));
    push_group_section(&mut info, project.get("optional-dependencies"));
    info
}

/// The summary of the metadata that Flit reads.
fn describe_flit(metadata: &ManifestValue) -> (r: String)
    ensures
        r@ == flit_info(metadata@),
{
    let mut info = String::from_str("Project Type: Python (Flit)\n");
    push_optional_field(&mut info, "Project Name: ", metadata.text_at("module"));
    push_optional_field(&mut info, "Description: ", metadata.text_at("description"));
    push_requirement_section(&mut info, metadata.get("requires"));
    push_group_section(&mut info, metadata.get("requires-extra"));
    info
}

/// The value under `second` in the table under `first`.
fn get_at<'a>(doc: &'a ManifestValue, first: &str, second: &str) -> (r: Option<&'a ManifestValue>)
    ensures
        match r {
            Some(value) => doc@.entry_at(first@, second@) == Some(value@),
            None => doc@.entry_at(first@, second@) is None,
        },
{
    match doc.get(first) {
        Some(table) => table.get(second),
        None => None,
    }
}

/// Summarises a `pyproject.toml` manifest that has been read, by the first
/// layout that it has.
pub fn describe_python_project(doc: &ManifestValue) -> (r: String)
    ensures
        r@ == python_project_info(doc@),
        r@.len() > 0,
{
    proof {
        lemma_python_info_is_not_empty(doc@);
    }
    match get_at(doc, "tool", "poetry") {
        Some(poetry) => { return describe_poetry(poetry); },
        None => {},
    }
    match doc.get("project") {
        Some(project) => { return describe_pep621(project); },
        None => {},
    }
    let mut info = String::new();
    match get_at(doc, "tool", "flit") {
        Some(flit) => {
            match flit.get("metadata") {
                Some(metadata) => { return describe_flit(metadata); },
                None => {},
            }
            info.append("Project Type: Python (Flit)\n");
        },
        None => {},
    }
    info.append("Project Type: Python (pyproject.toml format not recognized)\n");
    info.append("A pyproject.toml file was found but its format couldn't be parsed.\n");
    info
}

/// Summarises the `pyproject.toml` manifest whose text is `content`. There
/// is a summary exactly where the text is a TOML document; a summary is
/// never empty.
pub fn extract_python_project_info(content: &str) -> (r: Option<String>)
    ensures
        match toml_document(content@) {
            Some(doc) => r matches Some(info) && info@ == python_project_info(doc),
            None => r is None,
        },
        r matches Some(info) ==> info@.len() > 0,
{
    match parse_manifest(content) {
        Some(doc) => Some(describe_python_project(&doc)),
        None => None,
    }
}

} // verus!
