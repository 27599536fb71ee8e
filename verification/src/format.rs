//! The document that is handed on: the project's summary, its directory
//! structure and the content of each file, each in a block with a tag.

use vstd::prelude::*;
use crate::tree::{directory_structure, get_directory_structure, path_texts};

verus! {

/// A file that was collected: its path below the root it was found under,
/// and its content.
#[derive(Debug, Clone, PartialEq, Eq)]
pub struct FileEntry {
    pub path: String,
    pub content: String,
}

/// What a `FileEntry` holds.
pub struct FileText {
    pub path: Seq<char>,
    pub content: Seq<char>,
}

impl View for FileEntry {
    type V = FileText;

    open spec fn view(&self) -> FileText {
        FileText { path: self.path@, content: self.content@ }
    }
}

/// The kind of project, by the manifest that was found.
#[derive(Debug, Clone, Copy, PartialEq, Eq, Structural)]
pub enum ProjectType {
    Rust,
    Python,
    Unknown,
}

/// What the files of `v` hold.
pub open spec fn file_texts(v: Seq<FileEntry>) -> Seq<FileText> {
    Seq::new(v.len(), |i: int| v[i]@)
}

/// The paths of the files, in order.
pub open spec fn file_paths(files: Seq<FileText>) -> Seq<Seq<char>> {
    Seq::new(files.len(), |i: int| files[i].path)
}

/// The block that holds the project's summary. A project of unknown kind
/// gets a notice in place of a summary; a project of a known kind without a
/// summary gets no block.
pub open spec fn info_block(kind: ProjectType, info: Option<Seq<char>>) -> Seq<char> {
    match kind {
        ProjectType::Rust => match info {
            Some(text) => "<cargo_info>\n"@ + text + "</cargo_info>\n\n"@,
            None => Seq::empty(),
        },
        ProjectType::Python => match info {
            Some(text) => "<python_info>\n"@ + text + "</python_info>\n\n"@,
            None => Seq::empty(),
        },
        ProjectType::Unknown => "<project_info>\n"@ + "Project type could not be determined.\n"@
            + "</project_info>\n\n"@,
    }
}

/// The block of one file: its path as an attribute, then its content as it
/// is, with nothing escaped.
pub open spec fn file_block(file: FileText) -> Seq<char> {
    "<file path=\""@ + file.path + "\">\n"@ + file.content + "\n</file>\n\n"@
}

/// The blocks of the files, in order.
pub open spec fn file_blocks(files: Seq<FileText>) -> Seq<char>
    decreases files.len(),
{
    if files.len() == 0 {
        Seq::empty()
    } else {
        file_blocks(files.drop_last()) + file_block(files.last())
    }
}

/// The whole document.
pub open spec fn document(files: Seq<FileText>, kind: ProjectType, info: Option<Seq<char>>) -> Seq<
    char,
> {
    "<project>\n"@ + info_block(kind, info) + "<file_structure>\n"@ + directory_structure(
        file_paths(files),
    ) + "</file_structure>\n\n"@ + file_blocks(files) + "</project>"@
}

/// Appends the block that holds the project's summary.
fn push_info_block(output: &mut String, project_type: ProjectType, project_info: &Option<String>)
    ensures
        final(output)@ == old(output)@ + info_block(
            project_type,
            match project_info {
                Some(text) => Some(text@),
                None => None,
            },
        ),
{
    match project_type {
        ProjectType::Rust => {
            match project_info {
                Some(info) => {
                    output.append("<cargo_info>\n");
                    output.append(info.as_str());
                    output.append("</cargo_info>\n\n");
                },
                None => {},
            }
        },
        ProjectType::Python => {
            match project_info {
                Some(info) => {
                    output.append("<python_info>\n");
                    output.append(info.as_str());
                    output.append("</python_info>\n\n");
                },
                None => {},
            }
        },
        ProjectType::Unknown => {
            output.append("<project_info>\n");
            output.append("Project type could not be determined.\n");
            output.append("</project_info>\n\n");
        },
    }
}

/// Assembles the document: the opening tag, the block of the project's
/// summary, the directory structure of the files, then for each file in the
/// order given a block with its path and its content, and the closing tag.
pub fn format_for_llm(
    files: Vec<FileEntry>,
    project_type: ProjectType,
    project_info: Option<String>,
) -> (r: String)
    ensures
        r@ == document(
            file_texts(files@),
            project_type,
            match project_info {
                Some(text) => Some(text@),
                None => None,
            },
        ),
{
    let ghost all = file_texts(files@);
    let mut output = String::from_str("<project>\n");
    push_info_block(&mut output, project_type, &project_info);
    output.append("<file_structure>\n");
    let mut paths: Vec<&String> = Vec::new();
    let mut k: usize = 0;
    while k < files.len()
        invariant
            k <= files.len(),
            all == file_texts(files@),
            path_texts(paths@) == file_paths(all).take(k as int),
        decreases files.len() - k,
    {
        let ghost before = path_texts(paths@);
        paths.push(&files[k].path);
        assert(path_texts(paths@) == before.push(files@[k as int].path@));
        k += 1;
    }
    assert(file_paths(all).take(files.len() as int) == file_paths(all));
    let structure = get_directory_structure(paths);
    output.append(structure.as_str());
    output.append("</file_structure>\n\n");
    let ghost base = output@;
    let mut i: usize = 0;
    assert(all.take(0) == Seq::<FileText>::empty());
    while i < files.len()
        invariant
            i <= files.len(),
            all == file_texts(files@),
            output@ == base + file_blocks(all.take(i as int)),
        decreases files.len() - i,
    {
        assert(all.take(i + 1).drop_last() == all.take(i as int));
        assert(all.take(i + 1).last() == files@[i as int]@);
        output.append("<file path=\"");
        output.append(files[i].path.as_str());
        output.append("\">\n");
        output.append(files[i].content.as_str());
        output.append("\n</file>\n\n");
        i += 1;
    }
    assert(all.take(files.len() as int) == all);
    output.append("</project>");
    output
}

} // verus!
