//! The content loader: which files of a tree are documents, what is read
//! from each, and the content records made of them.

use crate::format::{date_timestamp, parse_date_string};
use crate::front_matter::{
    extract_title_and_summary, parse_front_matter, parsed_front_matter, title_and_summary,
    FrontMatter, FrontMatterView,
};
use crate::jd_path::{
    extract_jd_info_from_path, identifier_text, jd_identifier, jd_info, SourcePath, SourcePathView,
};
use crate::model::{JDArea, JDCategory, JDCategoryView, Project, ProjectView};
use crate::resolver::{resolve_category, resolved_category};
use crate::slug::{slug_from_title, slug_of};
use crate::text::{chars_of, find, is_text, position_of_text};
use crate::tree::{
    contains_entry_named, is_ignored, is_markdown_name, name_is, wants_content, FsNode,
    IGNORE_MARKER, INDEX_FILE, README_FILE,
};
use vstd::prelude::*;

verus! {

/// One document as loaded: where it lies, its metadata, and its body.
pub type LoadedFile = (SourcePath, FrontMatter, String);

/// A loaded document as mathematical values.
pub type LoadedFileView = (SourcePathView, FrontMatterView, Seq<char>);

/// The directory in which Obsidian keeps its settings.
pub const OBSIDIAN_DIRECTORY: &'static str = ".obsidian";

/// The directory of the templates.
pub const TEMPLATES_DIRECTORY: &'static str = "03 Templates";

/// What the name of a template holds.
pub const TEMPLATE_MARK: &'static str = "Template";

/// Whether a directory is passed over with all that it holds: one named
/// `.obsidian` or `03 Templates`, or one that holds the marker `IGNORE`.
pub open spec fn is_skipped_directory(name: Option<Seq<char>>, entries: Seq<FsNode>) -> bool {
    ||| name == Some(OBSIDIAN_DIRECTORY@)
    ||| name == Some(TEMPLATES_DIRECTORY@)
    ||| is_ignored(entries)
}

/// Whether a file of this name is a document: its name ends in `.md`, is
/// neither `README.md` nor `index.md`, and does not hold `Template`.
pub open spec fn is_document_name(name: Seq<char>) -> bool {
    &&& name != README_FILE@
    &&& name != INDEX_FILE@
    &&& find(name, TEMPLATE_MARK@) is None
    &&& is_markdown_name(name)
}

/// What is loaded from a document's text. With a metadata block: what the
/// block says, and the body after it. Without: a title and a summary read
/// from the text, the area and the category that the path gives, no tags,
/// no draft mark, and the whole text as body.
pub open spec fn loaded_file(path: SourcePathView, content: Seq<char>) -> LoadedFileView {
    match parsed_front_matter(content) {
        Some((fm, body)) => (path, fm, body),
        None => {
            let read = title_and_summary(content);
            let ids = jd_info(path);
            (
                path,
                FrontMatterView {
                    title: read.0,
                    date: None,
                    tags: Seq::empty(),
                    draft: false,
                    area_id: ids.0,
                    category_id: ids.1,
                    summary: Some(read.1),
                    related_articles: Seq::empty(),
                },
                content,
            )
        },
    }
}

/// The documents under a node, in the order of the listing: a readable
/// file with a document's name is one document; a directory gives those of
/// its entries, unless it is passed over.
pub open spec fn collected(node: FsNode) -> Seq<LoadedFileView>
    decreases node,
{
    match node {
        FsNode::File { path, content } => match (path@.file_name, content) {
            (Some(name), Some(text)) => if is_document_name(name) {
                seq![loaded_file(path@, text@)]
            } else {
                Seq::empty()
            },
            _ => Seq::empty(),
        },
        FsNode::Directory { path, entries } => if is_skipped_directory(
            path@.file_name,
            entries@,
        ) {
            Seq::empty()
        } else {
            collected_from(entries@)
        },
    }
}

/// The documents under each of the entries, in order.
pub open spec fn collected_from(entries: Seq<FsNode>) -> Seq<LoadedFileView>
    decreases entries,
{
    if entries.len() == 0 {
        Seq::empty()
    } else {
        collected_from(entries.drop_last()) + collected(entries.last())
    }
}

/// The documents of a content tree; none where the root is not a
/// directory.
pub open spec fn loaded_files(root: FsNode) -> Seq<LoadedFileView> {
    match root {
        FsNode::Directory { .. } => collected(root),
        FsNode::File { .. } => Seq::empty(),
    }
}

/// Whether a directory of this name and with these entries is passed over.
pub fn should_skip_directory(name: &Option<String>, entries: &Vec<FsNode>) -> (r: bool)
    ensures
        r == is_skipped_directory(name.deep_view(), entries@),
{
    name_is(name, OBSIDIAN_DIRECTORY) || name_is(name, TEMPLATES_DIRECTORY)
        || contains_entry_named(entries, IGNORE_MARKER)
}

/// Whether a file of this name is a document.
pub fn is_document_file(name: &str) -> (r: bool)
    ensures
        r == is_document_name(name@),
{
    let chars = chars_of(name);
    let s = chars.as_slice();
    if is_text(s, README_FILE) || is_text(s, INDEX_FILE) {
        return false;
    }
    let template = chars_of(TEMPLATE_MARK);
    if position_of_text(s, template.as_slice()).is_some() {
        return false;
    }
    wants_content(name)
}

/// Loads one document from its text.
pub fn load_file(path: &SourcePath, content: &str) -> (r: LoadedFile)
    ensures
        r.deep_view() == loaded_file(path@, content@),
{
    match parse_front_matter(content) {
        Some((fm, body)) => (path.clone(), fm, body),
        None => {
            let (title, summary) = extract_title_and_summary(content);
            let (area_id, category_id, _) = extract_jd_info_from_path(path);
            let fm = FrontMatter {
                title,
                date: None,
                tags: Vec::new(),
                draft: false,
                area_id,
                category_id,
                summary: Some(summary),
                related_articles: Vec::new(),
            };
            assert(fm.tags.deep_view() =~= Seq::<Seq<char>>::empty());
            assert(fm.related_articles.deep_view() =~= Seq::<Seq<char>>::empty());
            (path.clone(), fm, content.to_owned())
        },
    }
}

/// Adds the documents under `node` to `results`.
pub fn process_directory(node: &FsNode, results: &mut Vec<LoadedFile>)
    ensures
        final(results).deep_view() == old(results).deep_view() + collected(*node),
    decreases node,
{
    match node {
        FsNode::File { path, content } => {
            match (&path.file_name, content) {
                (Some(name), Some(text)) => {
                    if is_document_file(name.as_str()) {
                        let ghost before = results.deep_view();
                        let loaded = load_file(path, text.as_str());
                        results.push(loaded);
                    }
                },
                _ => {},
            }
        },
        FsNode::Directory { path, entries } => {
            if should_skip_directory(&path.file_name, entries) {
                return ;
            }
            let mut i: usize = 0;
            while i < entries.len()
                invariant
                    i <= entries.len(),
                    node is Directory,
                    node->entries == *entries,
                    results.deep_view() == old(results).deep_view() + collected_from(
                        entries@.take(i as int),
                    ),
                decreases entries.len() - i,
            {
                let ghost before = results.deep_view();
                assert(entries@.take(i + 1).drop_last() == entries@.take(i as int));
                process_directory(&entries[i], results);
                i += 1;
            }
            assert(entries@.take(entries.len() as int) == entries@);
        },
    }
}

/// The documents of a content tree, in the order of the listing. None
/// where the root is not a directory.
pub fn load_markdown_files(root: &FsNode) -> (r: Vec<LoadedFile>)
    ensures
        r.deep_view() == loaded_files(*root),
{
    let mut results: Vec<LoadedFile> = Vec::new();
    match root {
        FsNode::Directory { .. } => {
            process_directory(root, &mut results);
        },
        FsNode::File { .. } => {},
    }
    results
}

/// The summary of a document: the one that its metadata gives, unless that
/// is missing or empty; else the one read from its body.
pub open spec fn summary_of(fm: FrontMatterView, content: Seq<char>) -> Seq<char> {
    match fm.summary {
        Some(text) => if text.len() > 0 {
            text
        } else {
            title_and_summary(content).1
        },
        None => title_and_summary(content).1,
    }
}

/// The time at which a document was written: the date of its metadata,
/// or `now` where it gives none or one that cannot be read.
pub open spec fn created_at_of(fm: FrontMatterView, now: i64) -> i64 {
    match fm.date {
        Some(text) => match date_timestamp(text) {
            Some(time) => time,
            None => now,
        },
        None => now,
    }
}

/// The content record of a loaded document. Its category is settled from
/// the metadata, the path and the taxonomy; its identifier is made from the
/// path alone.
pub open spec fn project_of(file: LoadedFileView, categories: Seq<JDCategoryView>, now: i64)
    -> ProjectView {
    let (path, fm, content) = file;
    let ids = jd_info(path);
    ProjectView {
        id: None,
        title: fm.title,
        slug: slug_of(fm.title),
        summary: summary_of(fm, content),
        content: content,
        tech_stack: fm.tags,
        repo_url: None,
        live_url: None,
        thumbnail: None,
        created_at: created_at_of(fm, now),
        updated_at: now,
        jd_category: resolved_category(fm.category_id, ids.1, fm.area_id, ids.0, categories),
        original_path: path.text,
        jd_identifier: identifier_text(ids.1, ids.2, path.file_name),
        related_articles: fm.related_articles,
    }
}

/// The documents that are not drafts.
pub open spec fn is_published() -> spec_fn(LoadedFileView) -> bool {
    |file: LoadedFileView| !file.1.draft
}

/// The corpus made of the loaded documents: a record for each one that is
/// not a draft, in the same order.
pub open spec fn projects_of(
    files: Seq<LoadedFileView>,
    categories: Seq<JDCategoryView>,
    now: i64,
) -> Seq<ProjectView> {
    files.filter(is_published()).map_values(
        |file: LoadedFileView| project_of(file, categories, now),
    )
}

/// The corpus grows by the record of a document that is not a draft, and
/// stays as it is for a draft.
pub proof fn lemma_projects_of_push(
    files: Seq<LoadedFileView>,
    file: LoadedFileView,
    categories: Seq<JDCategoryView>,
    now: i64,
)
    ensures
        projects_of(files.push(file), categories, now) == if file.1.draft {
            projects_of(files, categories, now)
        } else {
            projects_of(files, categories, now).push(project_of(file, categories, now))
        },
{
    files.lemma_filter_push(file, is_published());
    if !file.1.draft {
        assert(projects_of(files.push(file), categories, now) =~= projects_of(
            files,
            categories,
            now,
        ).push(project_of(file, categories, now)));
    }
}

/// The content record of one loaded document.
pub fn project_from_file(file: &LoadedFile, categories: &[JDCategory], now: i64) -> (r: Project)
    ensures
        r@ == project_of(file.deep_view(), categories.deep_view(), now),
{
    let path = &file.0;
    let fm = &file.1;
    let content = &file.2;
    let slug = slug_from_title(fm.title.as_str());
    let (path_area, path_category, path_item) = extract_jd_info_from_path(path);
    let identifier = jd_identifier(path_category, path_item, &path.file_name);
    let created_at = match &fm.date {
        Some(text) => match parse_date_string(text.as_str()) {
            Some(time) => time,
            None => now,
        },
        None => now,
    };
    let category = resolve_category(
        fm.category_id,
        path_category,
        fm.area_id,
        path_area,
        categories,
    );
    let summary = match &fm.summary {
        Some(text) => if !text.as_str().is_empty() {
            text.clone()
        } else {
            extract_title_and_summary(content.as_str()).1
        },
        None => extract_title_and_summary(content.as_str()).1,
    };
    Project {
        id: None,
        title: fm.title.clone(),
        slug,
        summary,
        content: content.clone(),
        tech_stack: crate::model::copy_strings(&fm.tags),
        repo_url: None,
        live_url: None,
        thumbnail: None,
        created_at,
        updated_at: now,
        jd_category: category,
        original_path: path.text.clone(),
        jd_identifier: identifier,
        related_articles: crate::model::copy_strings(&fm.related_articles),
    }
}

/// Makes the corpus of the loaded documents: a content record for each one
/// that is not a draft, in the order in which they were loaded. A draft
/// never has a record. `now` is the time of loading; the records carry no
/// id yet.
pub fn markdown_to_projects(
    md_files: &[LoadedFile],
    areas: &[JDArea],
    categories: &[JDCategory],
    now: i64,
) -> (r: Vec<Project>)
    ensures
        r.deep_view() == projects_of(md_files.deep_view(), categories.deep_view(), now),
{
    let ghost files = md_files.deep_view();
    let ghost taxonomy = categories.deep_view();
    let mut out: Vec<Project> = Vec::new();
    let mut i: usize = 0;
    proof {
        reveal(Seq::filter);
    }
    while i < md_files.len()
        invariant
            i <= md_files.len(),
            files == md_files.deep_view(),
            taxonomy == categories.deep_view(),
            out.deep_view() == projects_of(files.take(i as int), taxonomy, now),
        decreases md_files.len() - i,
    {
        assert(files.take(i + 1) =~= files.take(i as int).push(files[i as int]));
        proof {
            lemma_projects_of_push(files.take(i as int), files[i as int], taxonomy, now);
        }
        if !md_files[i].1.draft {
            let project = project_from_file(&md_files[i], categories, now);
            out.push(project);
        }
        i += 1;
    }
    assert(files.take(md_files.len() as int) == files);
    out
}

/// No draft is in the corpus: every record is that of a loaded document
/// that is not a draft, and there are as many records as such documents.
pub proof fn lemma_corpus_holds_no_draft(
    files: Seq<LoadedFileView>,
    categories: Seq<JDCategoryView>,
    now: i64,
)
    ensures
        projects_of(files, categories, now).len() == files.filter(is_published()).len(),
        files.filter(is_published()).len() <= files.len(),
        forall|i: int|
            0 <= i < projects_of(files, categories, now).len() ==> exists|j: int|
                0 <= j < files.len() && !files[j].1.draft && #[trigger] projects_of(
                    files,
                    categories,
                    now,
                )[i] == project_of(files[j], categories, now),
        (forall|j: int| 0 <= j < files.len() ==> (#[trigger] files[j]).1.draft) ==> projects_of(
            files,
            categories,
            now,
        ).len() == 0,
{
    let published = files.filter(is_published());
    let corpus = projects_of(files, categories, now);
    files.lemma_filter_len(is_published());
    assert forall|i: int| 0 <= i < corpus.len() implies exists|j: int|
        0 <= j < files.len() && !files[j].1.draft && #[trigger] corpus[i] == project_of(
            files[j],
            categories,
            now,
        ) by {
        files.lemma_filter_pred(is_published(), i);
        assert(published.contains(published[i]));
        files.lemma_filter_contains_rev(is_published(), published[i]);
        let j = choose|j: int| 0 <= j < files.len() && files[j] == published[i];
        assert(!files[j].1.draft);
        assert(corpus[i] == project_of(files[j], categories, now));
    }
    if forall|j: int| 0 <= j < files.len() ==> (#[trigger] files[j]).1.draft {
        if published.len() > 0 {
            files.lemma_filter_pred(is_published(), 0);
            assert(published.contains(published[0]));
            files.lemma_filter_contains_rev(is_published(), published[0]);
            let j = choose|j: int| 0 <= j < files.len() && files[j] == published[0];
            assert(files[j].1.draft);
        }
    }
}

/// A directory that is passed over gives no document, whatever lies in it.
pub proof fn lemma_skipped_directory_gives_nothing(node: FsNode)
    requires
        node is Directory,
        is_skipped_directory(node.name(), crate::scanner::entries_of(node)),
    ensures
        collected(node).len() == 0,
{
}

/// The record with the given id in place of its own.
pub open spec fn with_id(project: ProjectView, id: Option<i64>) -> ProjectView {
    ProjectView { id: id, ..project }
}

/// The id of the record at position `i`: `i + 1`, as far as ids reach.
pub open spec fn id_at(i: int) -> i64 {
    if i < i64::MAX {
        (i + 1) as i64
    } else {
        i64::MAX
    }
}

/// The records numbered in order, from 1.
pub open spec fn numbered(projects: Seq<ProjectView>) -> Seq<ProjectView> {
    Seq::new(projects.len(), |i: int| with_id(projects[i], Some(id_at(i))))
}

/// Gives each record its place in the corpus as id: 1 for the first, 2 for
/// the second, and so on.
pub fn assign_ids(projects: Vec<Project>) -> (r: Vec<Project>)
    ensures
        r.deep_view() == numbered(projects.deep_view()),
{
    let ghost given = projects.deep_view();
    let mut out: Vec<Project> = Vec::new();
    let mut i: usize = 0;
    while i < projects.len()
        invariant
            i <= projects.len(),
            given == projects.deep_view(),
            out.len() == i,
            forall|j: int| 0 <= j < i ==> out@[j]@ == with_id(given[j], Some(id_at(j))),
        decreases projects.len() - i,
    {
        let place: u64 = i as u64;
        let id: i64 = if place < 0x7fff_ffff_ffff_ffff {
            (place + 1) as i64
        } else {
            0x7fff_ffff_ffff_ffff
        };
        let mut project = projects[i].clone();
        project.id = Some(id);
        out.push(project);
        i += 1;
    }
    out
}

/// The corpus of a content tree: the documents under the root that are not
/// drafts, each resolved against the taxonomy and numbered from 1.
pub open spec fn corpus_of(root: FsNode, categories: Seq<JDCategoryView>, now: i64) -> Seq<
    ProjectView,
> {
    numbered(projects_of(loaded_files(root), categories, now))
}

/// Loads the corpus of a content tree against the given taxonomy: every
/// document under the root that is not a draft, in the order of the
/// listing, numbered from 1. `now` is the time of loading.
pub fn load_projects(root: &FsNode, areas: &[JDArea], categories: &[JDCategory], now: i64) -> (r:
    Vec<Project>)
    ensures
        r.deep_view() == corpus_of(*root, categories.deep_view(), now),
{
    let files = load_markdown_files(root);
    let loaded = files.as_slice();
    assign_ids(markdown_to_projects(loaded, areas, categories, now))
}

} // verus!
