//! A directory tree as plain values: what was read from disk, handed to the
//! scanner and the loader.

use crate::jd_path::SourcePath;
use vstd::prelude::*;

verus! {

/// A file with its text (`None` where it could not be read as text), or a
/// directory with its entries in the order in which they were listed.
#[derive(Debug, PartialEq)]
pub enum FsNode {
    File { path: SourcePath, content: Option<String> },
    Directory { path: SourcePath, entries: Vec<FsNode> },
}

impl FsNode {
    /// The name of the file or directory, where it has one.
    pub open spec fn name(self) -> Option<Seq<char>> {
        match self {
            FsNode::File { path, .. } => path@.file_name,
            FsNode::Directory { path, .. } => path@.file_name,
        }
    }

    /// Where the file or directory lies.
    pub fn path(&self) -> (r: &SourcePath)
        ensures
            r@.file_name == self.name(),
    {
        match self {
            FsNode::File { path, .. } => path,
            FsNode::Directory { path, .. } => path,
        }
    }
}

/// Whether one of the entries bears the given name.
pub open spec fn has_entry_named(entries: Seq<FsNode>, name: Seq<char>) -> bool {
    exists|i: int| 0 <= i < entries.len() && (#[trigger] entries[i]).name() == Some(name)
}

/// The name of the marker that excludes the directory that holds it.
pub const IGNORE_MARKER: &'static str = "IGNORE";

/// The file that describes a directory.
pub const README_FILE: &'static str = "README.md";

/// The file that describes a directory which has no `README.md`.
pub const INDEX_FILE: &'static str = "index.md";

/// The ending of the name of a markdown file.
pub const MARKDOWN_ENDING: &'static str = ".md";

/// Whether a directory with these entries is excluded by a marker.
pub open spec fn is_ignored(entries: Seq<FsNode>) -> bool {
    has_entry_named(entries, IGNORE_MARKER@)
}

/// Whether the text, if there is one, is the given literal.
pub fn name_is(name: &Option<String>, literal: &str) -> (r: bool)
    ensures
        r == (name.deep_view() == Some(literal@)),
{
    match name {
        Some(text) => {
            let a = crate::text::chars_of(text.as_str());
            crate::text::is_text(a.as_slice(), literal)
        },
        None => false,
    }
}

/// Whether one of the entries bears the given name.
pub fn contains_entry_named(entries: &Vec<FsNode>, name: &str) -> (r: bool)
    ensures
        r == has_entry_named(entries@, name@),
{
    let mut i: usize = 0;
    while i < entries.len()
        invariant
            i <= entries.len(),
            forall|j: int| 0 <= j < i ==> (#[trigger] entries@[j]).name() != Some(name@),
        decreases entries.len() - i,
    {
        if name_is(&entries[i].path().file_name, name) {
            return true;
        }
        i += 1;
    }
    false
}

/// Whether the text of a file of this name is ever looked at: that of a
/// file whose name ends in `.md`.
pub open spec fn is_markdown_name(name: Seq<char>) -> bool {
    MARKDOWN_ENDING@.is_suffix_of(name)
}

/// Whether the text of a file of this name is ever looked at. A reader of
/// the tree may leave the text of any other file out.
pub fn wants_content(name: &str) -> (r: bool)
    ensures
        r == is_markdown_name(name@),
{
    let chars = crate::text::chars_of(name);
    let ending = crate::text::chars_of(MARKDOWN_ENDING);
    if chars.len() < ending.len() {
        return false;
    }
    let tail = vstd::slice::slice_subrange(
        chars.as_slice(),
        chars.len() - ending.len(),
        chars.len(),
    );
    crate::text::same_chars(tail, ending.as_slice())
}

/// The files that give a directory its description are among those whose
/// text is looked at.
pub proof fn lemma_description_files_are_markdown()
    ensures
        is_markdown_name(README_FILE@),
        is_markdown_name(INDEX_FILE@),
{
    reveal_strlit(".md");
    reveal_strlit("README.md");
    reveal_strlit("index.md");
    assert("README.md"@.subrange(6, 9) =~= ".md"@);
    assert("index.md"@.subrange(5, 8) =~= ".md"@);
}

} // verus!
