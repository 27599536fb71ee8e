//! Finding the manifest that tells what kind of project the files belong to.
//!
//! The search starts in the directory of the first path that was given and
//! goes up one directory at a time. It is handed what each of these
//! directories holds, nearest first, and stops at the first manifest that
//! can be summarised. In one directory a Rust package manifest is looked at
//! first, then `pyproject.toml`, then `setup.py`, then `requirements.txt`. A
//! manifest that is no valid document counts as missing.

use vstd::prelude::*;
use crate::cargo::{cargo_summary, describe_cargo_manifest};
use crate::format::ProjectType;
use crate::manifest::{parse_manifest, toml_document};
use crate::python::{extract_python_project_info, python_project_info};
use crate::requirements::{extract_requirements_info, requirements_info};
use crate::setup_py::{extract_setup_py_info, setup_py_info};
use crate::text::text_of;

verus! {

/// The manifests of one directory: the text of each that is there and could
/// be read.
#[derive(Debug, Clone, PartialEq, Eq)]
pub struct DirectoryManifests {
    pub cargo_toml: Option<String>,
    pub pyproject_toml: Option<String>,
    pub setup_py: Option<String>,
    pub requirements_txt: Option<String>,
}

/// What a `DirectoryManifests` holds.
pub struct ManifestTexts {
    pub cargo_toml: Option<Seq<char>>,
    pub pyproject_toml: Option<Seq<char>>,
    pub setup_py: Option<Seq<char>>,
    pub requirements_txt: Option<Seq<char>>,
}

impl View for DirectoryManifests {
    type V = ManifestTexts;

    open spec fn view(&self) -> ManifestTexts {
        ManifestTexts {
            cargo_toml: text_of(self.cargo_toml),
            pyproject_toml: text_of(self.pyproject_toml),
            setup_py: text_of(self.setup_py),
            requirements_txt: text_of(self.requirements_txt),
        }
    }
}

/// What the directories of `v` hold.
pub open spec fn level_texts(v: Seq<DirectoryManifests>) -> Seq<ManifestTexts> {
    Seq::new(v.len(), |i: int| v[i]@)
}

/// What was found on the way up: the level of the manifest, the starting
/// directory being level zero, and the manifest's summary. A manifest with
/// nothing to report has no summary; a summary is never empty.
#[derive(Debug, Clone, PartialEq, Eq)]
pub struct Found {
    pub level: usize,
    pub info: Option<String>,
}

/// What the package manifest whose text is `text` gives: nothing where there
/// is no such text or it is no TOML document, else the manifest's summary,
/// which a manifest with nothing to report does not have.
pub open spec fn cargo_summary_of(text: Option<Seq<char>>) -> Option<Option<Seq<char>>> {
    match text {
        Some(t) => match toml_document(t) {
            Some(doc) => Some(cargo_summary(doc)),
            None => None,
        },
        None => None,
    }
}

/// The summary of the `pyproject.toml` whose text is `text`, where there is
/// such a text and it is a TOML document.
pub open spec fn pyproject_info_of(text: Option<Seq<char>>) -> Option<Seq<char>> {
    match text {
        Some(t) => match toml_document(t) {
            Some(doc) => Some(python_project_info(doc)),
            None => None,
        },
        None => None,
    }
}

/// The summary of the Python manifest of one directory: that of its
/// `pyproject.toml` where that is a valid document, else that of its
/// `setup.py`, else that of its `requirements.txt`.
pub open spec fn python_info_in(level: ManifestTexts) -> Option<Seq<char>> {
    match pyproject_info_of(level.pyproject_toml) {
        Some(info) => Some(info),
        None => match level.setup_py {
            Some(text) => Some(setup_py_info(text)),
            None => match level.requirements_txt {
                Some(text) => Some(requirements_info(text)),
                None => None,
            },
        },
    }
}

/// What the walk from level `from` upward finds: at each level the Rust
/// manifest is looked at before the Python ones, and the first level that
/// has a manifest decides.
pub open spec fn walk_from(levels: Seq<ManifestTexts>, from: int) -> (ProjectType, Option<Seq<char>>)
    decreases levels.len() - from,
{
    if from < 0 || from >= levels.len() {
        (ProjectType::Unknown, None)
    } else {
        match cargo_summary_of(levels[from].cargo_toml) {
            Some(summary) => (ProjectType::Rust, summary),
            None => match python_info_in(levels[from]) {
                Some(info) => (ProjectType::Python, Some(info)),
                None => walk_from(levels, from + 1),
            },
        }
    }
}

/// The kind of the project and its summary. A manifest that the caller
/// points at decides where it is a valid document, the Rust one before the
/// Python one; else the walk decides.
pub open spec fn detected(
    levels: Seq<ManifestTexts>,
    cargo_override: Option<Seq<char>>,
    pyproject_override: Option<Seq<char>>,
) -> (ProjectType, Option<Seq<char>>) {
    match cargo_summary_of(cargo_override) {
        Some(summary) => (ProjectType::Rust, summary),
        None => match pyproject_info_of(pyproject_override) {
            Some(info) => (ProjectType::Python, Some(info)),
            None => walk_from(levels, 0),
        },
    }
}

/// What the package manifest whose text is `text` gives.
fn summarise_cargo(text: &Option<String>) -> (r: Option<Option<String>>)
    ensures
        match r {
            Some(summary) => cargo_summary_of(text_of(*text)) == Some(text_of(summary)),
            None => cargo_summary_of(text_of(*text)) is None,
        },
        r matches Some(Some(info)) ==> info@.len() > 0,
{
    match text {
        Some(content) => match parse_manifest(content.as_str()) {
            Some(doc) => Some(describe_cargo_manifest(&doc)),
            None => None,
        },
        None => None,
    }
}

/// The nearest level with a Rust package manifest that is a valid document,
/// and the summary of that manifest, which is none where the manifest has
/// nothing to report.
pub fn find_and_extract_cargo_info(levels: &Vec<DirectoryManifests>) -> (r: Option<Found>)
    ensures
        match r {
            Some(found) => found.level < levels.len() && cargo_summary_of(
                levels[found.level as int]@.cargo_toml,
            ) == Some(text_of(found.info)) && forall|j: int|
                0 <= j < found.level ==> cargo_summary_of(levels[j]@.cargo_toml) is None,
            None => forall|j: int|
                0 <= j < levels.len() ==> cargo_summary_of(levels[j]@.cargo_toml) is None,
        },
        r matches Some(found) ==> (found.info matches Some(info) ==> info@.len() > 0),
{
    let mut k: usize = 0;
    while k < levels.len()
        invariant
            k <= levels.len(),
            forall|j: int| 0 <= j < k ==> cargo_summary_of(levels[j]@.cargo_toml) is None,
        decreases levels.len() - k,
    {
        match summarise_cargo(&levels[k].cargo_toml) {
            Some(info) => {
                return Some(Found { level: k, info });
            },
            None => {},
        }
        k += 1;
    }
    None
}

/// The summary of the Python manifest of one directory.
pub fn extract_python_info_in(level: &DirectoryManifests) -> (r: Option<String>)
    ensures
        text_of(r) == python_info_in(level@),
        r matches Some(info) ==> info@.len() > 0,
{
    match &level.pyproject_toml {
        Some(text) => {
            match extract_python_project_info(text.as_str()) {
                Some(info) => {
                    return Some(info);
                },
                None => {},
            }
        },
        None => {},
    }
    match &level.setup_py {
        Some(text) => {
            return Some(extract_setup_py_info(text.as_str()));
        },
        None => {},
    }
    match &level.requirements_txt {
        Some(text) => Some(extract_requirements_info(text.as_str())),
        None => None,
    }
}

/// The nearest level with a Python manifest that can be summarised, and the
/// summary of that manifest, which is never empty.
pub fn find_and_extract_python_info(levels: &Vec<DirectoryManifests>) -> (r: Option<Found>)
    ensures
        match r {
            Some(found) => found.level < levels.len() && found.info is Some && python_info_in(
                levels[found.level as int]@,
            ) == text_of(found.info) && forall|j: int|
                0 <= j < found.level ==> python_info_in(levels[j]@) is None,
            None => forall|j: int| 0 <= j < levels.len() ==> python_info_in(levels[j]@) is None,
        },
        r matches Some(found) ==> (found.info matches Some(info) ==> info@.len() > 0),
{
    let mut k: usize = 0;
    while k < levels.len()
        invariant
            k <= levels.len(),
            forall|j: int| 0 <= j < k ==> python_info_in(levels[j]@) is None,
        decreases levels.len() - k,
    {
        match extract_python_info_in(&levels[k]) {
            Some(info) => {
                return Some(Found { level: k, info: Some(info) });
            },
            None => {},
        }
        k += 1;
    }
    None
}

/// The walk passes over every level that has no summary.
pub proof fn lemma_walk_skips(levels: Seq<ManifestTexts>, from: int, to: int)
    requires
        0 <= from <= to <= levels.len(),
        forall|j: int|
            from <= j < to ==> cargo_summary_of(levels[j].cargo_toml) is None && python_info_in(
                levels[j],
            ) is None,
    ensures
        walk_from(levels, from) == walk_from(levels, to),
    decreases to - from,
{
    if from < to {
        lemma_walk_skips(levels, from + 1, to);
    }
}

/// The project's kind is unknown exactly where no manifest can be
/// summarised: neither one that the caller points at nor one at any level
/// of the walk.
pub proof fn lemma_unknown_means_nothing_found(
    levels: Seq<ManifestTexts>,
    cargo_override: Option<Seq<char>>,
    pyproject_override: Option<Seq<char>>,
)
    ensures
        detected(levels, cargo_override, pyproject_override).0 == ProjectType::Unknown <==> (
        cargo_summary_of(cargo_override) is None && pyproject_info_of(pyproject_override) is None
            && forall|j: int|
            0 <= j < levels.len() ==> cargo_summary_of(levels[j].cargo_toml) is None
                && python_info_in(levels[j]) is None),
        detected(levels, cargo_override, pyproject_override).0 == ProjectType::Unknown ==> detected(
            levels,
            cargo_override,
            pyproject_override,
        ).1 is None,
{
    lemma_walk_unknown(levels, 0);
}

/// The walk ends without a kind exactly where no level from `from` on has a
/// summary.
pub proof fn lemma_walk_unknown(levels: Seq<ManifestTexts>, from: int)
    requires
        0 <= from,
    ensures
        walk_from(levels, from).0 == ProjectType::Unknown <==> (forall|j: int|
            from <= j < levels.len() ==> cargo_summary_of(levels[j].cargo_toml) is None
                && python_info_in(levels[j]) is None),
        walk_from(levels, from).0 == ProjectType::Unknown ==> walk_from(levels, from).1 is None,
    decreases levels.len() - from,
{
    if from < levels.len() {
        lemma_walk_unknown(levels, from + 1);
    }
}

/// Tells the kind of the project and summarises its manifest.
///
/// `cargo_override` and `pyproject_override` hold the text of a manifest
/// that the caller points at, where it could be read. `levels` holds what
/// the directories on the way up hold, the starting directory first.
///
/// A summary that is handed on is never empty: a manifest from which
/// nothing could be taken tells the project's kind and gives no summary. The
/// kind is `Unknown`, with no summary, where no manifest was found.
pub fn detect_project_type_and_extract_info(
    levels: &Vec<DirectoryManifests>,
    cargo_override: Option<String>,
    pyproject_override: Option<String>,
) -> (r: (ProjectType, Option<String>))
    ensures
        (r.0, text_of(r.1)) == detected(
            level_texts(levels@),
            text_of(cargo_override),
            text_of(pyproject_override),
        ),
        r.1 matches Some(info) ==> info@.len() > 0,
{
    match summarise_cargo(&cargo_override) {
        Some(info) => {
            return (ProjectType::Rust, info);
        },
        None => {},
    }
    match &pyproject_override {
        Some(text) => {
            match extract_python_project_info(text.as_str()) {
                Some(info) => {
                    return (ProjectType::Python, Some(info));
                },
                None => {},
            }
        },
        None => {},
    }
    let ghost all = level_texts(levels@);
    let rust = find_and_extract_cargo_info(levels);
    let python = find_and_extract_python_info(levels);
    match (rust, python) {
        (Some(r), Some(p)) => {
            if r.level <= p.level {
                proof {
                    lemma_walk_skips(all, 0, r.level as int);
                }
                (ProjectType::Rust, r.info)
            } else {
                proof {
                    lemma_walk_skips(all, 0, p.level as int);
                }
                (ProjectType::Python, p.info)
            }
        },
        (Some(r), None) => {
            proof {
                lemma_walk_skips(all, 0, r.level as int);
            }
            (ProjectType::Rust, r.info)
        },
        (None, Some(p)) => {
            proof {
                lemma_walk_skips(all, 0, p.level as int);
            }
            (ProjectType::Python, p.info)
        },
        (None, None) => {
            proof {
                lemma_walk_skips(all, 0, levels.len() as int);
            }
            (ProjectType::Unknown, None)
        },
    }
}

} // verus!
