//! A manifest written in TOML, as the tree of values that the summaries read.
//!
//! The text is parsed by the `toml` crate. Of the document that it returns
//! the library keeps the texts, the arrays and the tables; a value of any
//! other kind is kept as a value without content.

use vstd::prelude::*;
use crate::text::{same_chars, to_chars};

verus! {

/// A value of a manifest.
pub enum ManifestValue {
    /// A text.
    Text(String),
    /// An array of values.
    List(Vec<ManifestValue>),
    /// A table: keys with their values, in the order of the keys.
    Table(Vec<(String, ManifestValue)>),
    /// A number, a truth value or a date.
    Other,
}

/// What a `ManifestValue` holds.
pub enum ManifestTree {
    Text(Seq<char>),
    List(Seq<ManifestTree>),
    Table(Seq<(Seq<char>, ManifestTree)>),
    Other,
}

/// What `value` holds: its texts by their characters, its arrays and tables
/// by their members in order.
pub open spec fn tree_of(value: ManifestValue) -> ManifestTree
    decreases value,
{
    match value {
        ManifestValue::Text(s) => ManifestTree::Text(s@),
        ManifestValue::List(items) => ManifestTree::List(
            Seq::new(
                items.len() as nat,
                |i: int|
                    if 0 <= i < items.len() {
                        tree_of(items[i])
                    } else {
                        ManifestTree::Other
                    },
            ),
        ),
        ManifestValue::Table(entries) => ManifestTree::Table(
            Seq::new(
                entries.len() as nat,
                |i: int|
                    if 0 <= i < entries.len() {
                        (entries[i].0@, tree_of(entries[i].1))
                    } else {
                        (Seq::empty(), ManifestTree::Other)
                    },
            ),
        ),
        ManifestValue::Other => ManifestTree::Other,
    }
}

impl View for ManifestValue {
    type V = ManifestTree;

    open spec fn view(&self) -> ManifestTree {
        tree_of(*self)
    }
}

/// The value of the first entry from index `from` on whose key is `key`.
pub open spec fn lookup_from(entries: Seq<(Seq<char>, ManifestTree)>, key: Seq<char>, from: int) -> Option<
    ManifestTree,
>
    decreases entries.len() - from,
{
    if from < 0 || from >= entries.len() {
        None
    } else if entries[from].0 == key {
        Some(entries[from].1)
    } else {
        lookup_from(entries, key, from + 1)
    }
}

impl ManifestTree {
    /// The value under `key`, where this is a table that has the key.
    pub open spec fn entry(self, key: Seq<char>) -> Option<ManifestTree> {
        match self {
            ManifestTree::Table(entries) => lookup_from(entries, key, 0),
            _ => None,
        }
    }

    /// The text, where this is a text.
    pub open spec fn text(self) -> Option<Seq<char>> {
        match self {
            ManifestTree::Text(s) => Some(s),
            _ => None,
        }
    }

    /// The text under `key`, where this is a table that has a text there.
    pub open spec fn text_at(self, key: Seq<char>) -> Option<Seq<char>> {
        match self.entry(key) {
            Some(value) => value.text(),
            None => None,
        }
    }

    /// The value under `second` in the table under `first`.
    pub open spec fn entry_at(self, first: Seq<char>, second: Seq<char>) -> Option<ManifestTree> {
        match self.entry(first) {
            Some(value) => value.entry(second),
            None => None,
        }
    }
}

/// What the entries of a table hold.
pub open spec fn entry_trees(entries: Seq<(String, ManifestValue)>) -> Seq<(Seq<char>, ManifestTree)> {
    Seq::new(entries.len(), |i: int| (entries[i].0@, entries[i].1@))
}

/// What the items of an array hold.
pub open spec fn item_trees(items: Seq<ManifestValue>) -> Seq<ManifestTree> {
    Seq::new(items.len(), |i: int| items[i]@)
}

/// The view of a table holds the views of its entries, in order.
pub proof fn lemma_table_view(value: ManifestValue)
    requires
        value is Table,
    ensures
        value@ is Table,
        value@->Table_0.len() == value->Table_0.len(),
        forall|j: int|
            0 <= j < value->Table_0.len() ==> (#[trigger] value@->Table_0[j]) == (
                value->Table_0[j].0@,
                value->Table_0[j].1@,
            ),
{
}

/// The view of an array holds the views of its items, in order.
pub proof fn lemma_list_view(value: ManifestValue)
    requires
        value is List,
    ensures
        value@ is List,
        value@->List_0.len() == value->List_0.len(),
        forall|j: int|
            0 <= j < value->List_0.len() ==> (#[trigger] value@->List_0[j]) == value->List_0[j]@,
{
}

impl ManifestValue {
    /// The value under `key`, where this is a table that has the key.
    pub fn get(&self, key: &str) -> (r: Option<&ManifestValue>)
        ensures
            match r {
                Some(value) => self@.entry(key@) == Some(value@),
                None => self@.entry(key@) is None,
            },
    {
        match self {
            ManifestValue::Table(entries) => {
                let wanted = to_chars(key);
                let mut i: usize = 0;
                proof {
                    lemma_table_view(*self);
                }
                while i < entries.len()
                    invariant
                        i <= entries.len(),
                        wanted@ == key@,
                        self@ is Table,
                        self@->Table_0.len() == entries.len(),
                        forall|j: int|
                            0 <= j < entries.len() ==> (#[trigger] self@->Table_0[j]) == (
                                entries[j].0@,
                                entries[j].1@,
                            ),
                        self@.entry(key@) == lookup_from(self@->Table_0, key@, i as int),
                    decreases entries.len() - i,
                {
                    let name = to_chars(entries[i].0.as_str());
                    if same_chars(&name, &wanted) {
                        return Some(&entries[i].1);
                    }
                    i += 1;
                }
                None
            },
            _ => None,
        }
    }

    /// The text, where this is a text.
    pub fn as_str(&self) -> (r: Option<&str>)
        ensures
            match r {
                Some(s) => self@.text() == Some(s@),
                None => self@.text() is None,
            },
    {
        match self {
            ManifestValue::Text(s) => Some(s.as_str()),
            _ => None,
        }
    }

    /// The entries, where this is a table.
    pub fn as_table(&self) -> (r: Option<&Vec<(String, ManifestValue)>>)
        ensures
            match r {
                Some(entries) => self@ == ManifestTree::Table(entry_trees(entries@)),
                None => !(self@ is Table),
            },
    {
        match self {
            ManifestValue::Table(entries) => {
                proof {
                    lemma_table_view(*self);
                    assert(self@->Table_0 =~= entry_trees(entries@));
                }
                Some(entries)
            },
            _ => None,
        }
    }

    /// The items, where this is an array.
    pub fn as_array(&self) -> (r: Option<&Vec<ManifestValue>>)
        ensures
            match r {
                Some(items) => self@ == ManifestTree::List(item_trees(items@)),
                None => !(self@ is List),
            },
    {
        match self {
            ManifestValue::List(items) => {
                proof {
                    lemma_list_view(*self);
                    assert(self@->List_0 =~= item_trees(items@));
                }
                Some(items)
            },
            _ => None,
        }
    }

    /// The text under `key`, where this is a table that has a text there.
    pub fn text_at(&self, key: &str) -> (r: Option<&str>)
        ensures
            match r {
                Some(s) => self@.text_at(key@) == Some(s@),
                None => self@.text_at(key@) is None,
            },
    {
        match self.get(key) {
            Some(value) => value.as_str(),
            None => None,
        }
    }
}

/// `toml::Value`, a value of a parsed document. Nothing is known of what a
/// value holds but through `toml_tree`.
#[verifier::external_type_specification]
#[verifier::external_body]
pub struct ExTomlValue(toml::Value);

/// `toml::de::Error`, the error of the parser. Nothing is read from it.
#[verifier::external_type_specification]
#[verifier::external_body]
pub struct ExTomlError(toml::de::Error);

/// What the TOML parser makes of `text`: the document as a tree, or nothing
/// where the text is not a TOML document.
pub uninterp spec fn toml_document(text: Seq<char>) -> Option<ManifestTree>;

/// What a value of the `toml` crate holds, as a tree: a string by its
/// characters, an array by its items in order, a table by its entries in
/// the order in which `toml::Table::iter` gives them, and a value of any
/// other kind as `Other`.
pub uninterp spec fn toml_tree(value: toml::Value) -> ManifestTree;

/// Turns the value `v` of the `toml` crate into a `ManifestValue`, kind by
/// kind and member by member: the result holds what `toml_tree` names.
#[verifier::external_body]
fn from_toml(v: &toml::Value) -> (r: ManifestValue)
    ensures
        r@ == toml_tree(*v),
{
    match v {
        toml::Value::String(s) => ManifestValue::Text(s.clone()),
        toml::Value::Integer(_) => ManifestValue::Other,
        toml::Value::Float(_) => ManifestValue::Other,
        toml::Value::Boolean(_) => ManifestValue::Other,
        toml::Value::Datetime(_) => ManifestValue::Other,
        toml::Value::Array(a) => ManifestValue::List(a.iter().map(from_toml).collect()),
        toml::Value::Table(t) => ManifestValue::Table(
            t.iter().map(|(k, x)| (k.clone(), from_toml(x))).collect(),
        ),
    }
}

/// Parses `content` with `str::parse::<toml::Value>`, which reads it as a
/// TOML document. The parser's answer depends on the text alone:
/// `toml_document` names the tree of the value that it returns, and the
/// error comes exactly where it names no document.
#[verifier::external_body]
fn parse_toml(content: &str) -> (r: Result<toml::Value, toml::de::Error>)
    ensures
        match r {
            Ok(value) => toml_document(content@) == Some(toml_tree(value)),
            Err(_) => toml_document(content@) is None,
        },
{
    content.parse::<toml::Value>()
}

/// Reads `content` as a TOML document.
pub fn parse_manifest(content: &str) -> (r: Option<ManifestValue>)
    ensures
        match r {
            Some(doc) => toml_document(content@) == Some(doc@),
            None => toml_document(content@) is None,
        },
{
    match parse_toml(content) {
        Ok(value) => Some(from_toml(&value)),
        Err(_) => None,
    }
}

} // verus!
