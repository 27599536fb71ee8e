//! The lines that a manifest summary is made of.

use vstd::prelude::*;
use crate::manifest::{ManifestTree, ManifestValue};
use crate::text::{text_of, texts};

verus! {

/// A line that gives a value under a label, such as `Version: 1.0`.
pub open spec fn field_line(label: Seq<char>, value: Seq<char>) -> Seq<char> {
    label + value + "\n"@
}

/// The line for a value that may be missing: no text where it is.
pub open spec fn optional_field(label: Seq<char>, value: Option<Seq<char>>) -> Seq<char> {
    match value {
        Some(v) => field_line(label, v),
        None => Seq::empty(),
    }
}

/// The lines that name a project: its name, its version and its description,
/// each where `table` has a text under that key.
pub open spec fn identity_fields(table: ManifestTree) -> Seq<char> {
    optional_field("Project Name: "@, table.text_at("name"@)) + optional_field(
        "Version: "@,
        table.text_at("version"@),
    ) + optional_field("Description: "@, table.text_at("description"@))
}

/// The line of a dependency that is known by its requirement alone.
pub open spec fn bullet(item: Seq<char>) -> Seq<char> {
    "- "@ + item + "\n"@
}

/// The line of a dependency with its version, such as `- bar = "2.0"`.
pub open spec fn versioned_bullet(name: Seq<char>, version: Seq<char>) -> Seq<char> {
    "- "@ + name + " = \""@ + version + "\"\n"@
}

/// The line of a dependency that belongs to a group.
pub open spec fn nested_bullet(item: Seq<char>) -> Seq<char> {
    "  - "@ + item + "\n"@
}

/// The line that opens a group of optional dependencies.
pub open spec fn group_heading(name: Seq<char>) -> Seq<char> {
    "Group '"@ + name + "':\n"@
}

/// One line for each item, in order.
pub open spec fn bullets(items: Seq<Seq<char>>) -> Seq<char>
    decreases items.len(),
{
    if items.len() == 0 {
        Seq::empty()
    } else {
        bullets(items.drop_last()) + bullet(items.last())
    }
}

/// One indented line for each item, in order.
pub open spec fn nested_bullets(items: Seq<Seq<char>>) -> Seq<char>
    decreases items.len(),
{
    if items.len() == 0 {
        Seq::empty()
    } else {
        nested_bullets(items.drop_last()) + nested_bullet(items.last())
    }
}

/// For each group, in order, its heading and then its items.
pub open spec fn groups(entries: Seq<(Seq<char>, Seq<Seq<char>>)>) -> Seq<char>
    decreases entries.len(),
{
    if entries.len() == 0 {
        Seq::empty()
    } else {
        groups(entries.drop_last()) + group_heading(entries.last().0) + nested_bullets(
            entries.last().1,
        )
    }
}

/// The block that lists dependencies: nothing where there are none.
pub open spec fn dependency_block(items: Seq<Seq<char>>) -> Seq<char> {
    if items.len() > 0 {
        "\nDependencies:\n"@ + bullets(items)
    } else {
        Seq::empty()
    }
}

/// A summary as it is handed on: an empty one counts as none.
pub open spec fn present(info: Seq<char>) -> Option<Seq<char>> {
    if info.len() > 0 {
        Some(info)
    } else {
        None
    }
}

/// A summary as it is handed on: an empty one counts as none.
pub fn present_info(info: String) -> (r: Option<String>)
    ensures
        text_of(r) == present(info@),
{
    if info.as_str().unicode_len() > 0 {
        Some(info)
    } else {
        None
    }
}

/// Appends the line that gives `value` under `label`.
pub fn push_field(info: &mut String, label: &str, value: &str)
    ensures
        final(info)@ == old(info)@ + field_line(label@, value@),
{
    info.append(label);
    info.append(value);
    info.append("\n");
}

/// Appends the line for `value` under `label`, if there is a value.
pub fn push_optional_field(info: &mut String, label: &str, value: Option<&str>)
    ensures
        final(info)@ == old(info)@ + optional_field(
            label@,
            match value {
                Some(v) => Some(v@),
                None => None,
            },
        ),
{
    match value {
        Some(v) => push_field(info, label, v),
        None => {},
    }
}

/// Appends the lines that name the project described by `table`.
pub fn push_identity_fields(info: &mut String, table: &ManifestValue)
    ensures
        final(info)@ == old(info)@ + identity_fields(table@),
{
    push_optional_field(info, "Project Name: ", table.text_at("name"));
    push_optional_field(info, "Version: ", table.text_at("version"));
    push_optional_field(info, "Description: ", table.text_at("description"));
}

/// Appends the line of the dependency `item`.
pub fn push_bullet(info: &mut String, item: &str)
    ensures
        final(info)@ == old(info)@ + bullet(item@),
{
    info.append("- ");
    info.append(item);
    info.append("\n");
}

/// Appends the line of the dependency `name` with its version.
pub fn push_versioned_bullet(info: &mut String, name: &str, version: &str)
    ensures
        final(info)@ == old(info)@ + versioned_bullet(name@, version@),
{
    info.append("- ");
    info.append(name);
    info.append(" = \"");
    info.append(version);
    info.append("\"\n");
}

/// Appends the line of the grouped dependency `item`.
pub fn push_nested_bullet(info: &mut String, item: &str)
    ensures
        final(info)@ == old(info)@ + nested_bullet(item@),
{
    info.append("  - ");
    info.append(item);
    info.append("\n");
}

/// Appends the heading of the group `name`.
pub fn push_group_heading(info: &mut String, name: &str)
    ensures
        final(info)@ == old(info)@ + group_heading(name@),
{
    info.append("Group '");
    info.append(name);
    info.append("':\n");
}

/// Appends one line for each item.
pub fn push_bullets(info: &mut String, items: &Vec<String>)
    ensures
        final(info)@ == old(info)@ + bullets(texts(items@)),
{
    let ghost all = texts(items@);
    let mut k: usize = 0;
    assert(all.take(0) == Seq::<Seq<char>>::empty());
    while k < items.len()
        invariant
            k <= items.len(),
            all == texts(items@),
            info@ == old(info)@ + bullets(all.take(k as int)),
        decreases items.len() - k,
    {
        assert(all.take(k + 1).drop_last() == all.take(k as int));
        assert(all.take(k + 1).last() == items@[k as int]@);
        push_bullet(info, items[k].as_str());
        k += 1;
    }
    assert(all.take(items.len() as int) == all);
}

/// Appends one indented line for each item.
pub fn push_nested_bullets(info: &mut String, items: &Vec<String>)
    ensures
        final(info)@ == old(info)@ + nested_bullets(texts(items@)),
{
    let ghost all = texts(items@);
    let mut k: usize = 0;
    assert(all.take(0) == Seq::<Seq<char>>::empty());
    while k < items.len()
        invariant
            k <= items.len(),
            all == texts(items@),
            info@ == old(info)@ + nested_bullets(all.take(k as int)),
        decreases items.len() - k,
    {
        assert(all.take(k + 1).drop_last() == all.take(k as int));
        assert(all.take(k + 1).last() == items@[k as int]@);
        push_nested_bullet(info, items[k].as_str());
        k += 1;
    }
    assert(all.take(items.len() as int) == all);
}

/// Appends the block that lists `items` as dependencies, if there are any.
pub fn push_dependency_block(info: &mut String, items: &Vec<String>)
    ensures
        final(info)@ == old(info)@ + dependency_block(texts(items@)),
{
    if items.len() > 0 {
        info.append("\nDependencies:\n");
        push_bullets(info, items);
    }
}

} // verus!
