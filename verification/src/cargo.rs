//! The summary of a Rust package manifest.

use vstd::prelude::*;
use crate::manifest::{entry_trees, parse_manifest, toml_document, ManifestTree, ManifestValue};
use crate::summary::{
    bullet, identity_fields, present, present_info, push_bullet, push_identity_fields,
    push_versioned_bullet, versioned_bullet,
};
use crate::text::text_of;

verus! {

/// The line of one dependency: with its version where the value is a text
/// or a table with a text under `version`, else the bare name, as for a
/// dependency that is given by a path alone.
pub open spec fn cargo_dependency_line(name: Seq<char>, value: ManifestTree) -> Seq<char> {
    match value {
        ManifestTree::Text(version) => versioned_bullet(name, version),
        _ => match value.text_at("version"@) {
            Some(version) => versioned_bullet(name, version),
            None => bullet(name),
        },
    }
}

/// One line for each dependency, in the order of the table.
pub open spec fn cargo_dependency_lines(entries: Seq<(Seq<char>, ManifestTree)>) -> Seq<char>
    decreases entries.len(),
{
    if entries.len() == 0 {
        Seq::empty()
    } else {
        cargo_dependency_lines(entries.drop_last()) + cargo_dependency_line(
            entries.last().0,
            entries.last().1,
        )
    }
}

/// The section for one table of dependencies: its heading and its lines
/// where `deps` is a table, nothing where it is missing or of another kind.
pub open spec fn cargo_section(heading: Seq<char>, deps: Option<ManifestTree>) -> Seq<char> {
    match deps {
        Some(ManifestTree::Table(entries)) => heading + cargo_dependency_lines(entries),
        _ => Seq::empty(),
    }
}

/// The summary of the package manifest `doc`.
pub open spec fn cargo_info(doc: ManifestTree) -> Seq<char> {
    (match doc.entry("package"@) {
        Some(package) => identity_fields(package),
        None => Seq::empty(),
    }) + cargo_section("\nDependencies:\n"@, doc.entry("dependencies"@)) + cargo_section(
        "\nDev Dependencies:\n"@,
        doc.entry("dev-dependencies"@),
    )
}

/// Appends the section for the table of dependencies `deps`.
fn push_cargo_section(info: &mut String, heading: &str, deps: Option<&ManifestValue>)
    ensures
        final(info)@ == old(info)@ + cargo_section(
            heading@,
            match deps {
                Some(d) => Some(d@),
                None => None,
            },
        ),
{
    let entries = match deps {
        Some(d) => match d.as_table() {
            Some(entries) => entries,
            None => { return ; },
        },
        None => { return ; },
    };
    info.append(heading);
    let ghost all = entry_trees(entries@);
    let ghost base = info@;
    let mut k: usize = 0;
    assert(all.take(0) == Seq::<(Seq<char>, ManifestTree)>::empty());
    while k < entries.len()
        invariant
            k <= entries.len(),
            all == entry_trees(entries@),
            info@ == base + cargo_dependency_lines(all.take(k as int)),
        decreases entries.len() - k,
    {
        assert(all.take(k + 1).drop_last() == all.take(k as int));
        assert(all.take(k + 1).last() == (entries@[k as int].0@, entries@[k as int].1@));
        let name = entries[k].0.as_str();
        let value = &entries[k].1;
        match value.as_str() {
            Some(version) => push_versioned_bullet(info, name, version),
            None => match value.text_at("version") {
                Some(version) => push_versioned_bullet(info, name, version),
                None => push_bullet(info, name),
            },
        }
        k += 1;
    }
    assert(all.take(entries.len() as int) == all);
}

/// The summary of the package manifest `doc` as it is handed on: none where
/// the manifest has nothing to report.
pub open spec fn cargo_summary(doc: ManifestTree) -> Option<Seq<char>> {
    present(cargo_info(doc))
}

/// Summarises a package manifest that has been read: the package's name,
/// version and description, then its dependencies and its development
/// dependencies. A manifest with none of these has no summary; a summary is
/// never empty.
pub fn describe_cargo_manifest(doc: &ManifestValue) -> (r: Option<String>)
    ensures
        text_of(r) == cargo_summary(doc@),
        r matches Some(info) ==> info@.len() > 0,
{
    let mut info = String::new();
    match doc.get("package") {
        Some(package) => push_identity_fields(&mut info, package),
        None => {},
    }
    push_cargo_section(&mut info, "\nDependencies:\n", doc.get("dependencies"));
    push_cargo_section(&mut info, "\nDev Dependencies:\n", doc.get("dev-dependencies"));
    present_info(info)
}

/// Summarises the package manifest whose text is `content`. There is a
/// summary exactly where the text is a TOML document that has something to
/// report; a summary is never empty.
pub fn extract_cargo_info(content: &str) -> (r: Option<String>)
    ensures
        text_of(r) == match toml_document(content@) {
            Some(doc) => cargo_summary(doc),
            None => None,
        },
        r matches Some(info) ==> info@.len() > 0,
{
    match parse_manifest(content) {
        Some(doc) => describe_cargo_manifest(&doc),
        None => None,
    }
}

} // verus!
