//! The directory scanner: the taxonomy that the names of the directories
//! of a content tree spell out.

use crate::model::{JDArea, JDAreaView, JDCategory, JDCategoryView};
use crate::order::{
    arrange, keys_of, lemma_arranged_ascends, lemma_stable_order, sorted_by_key, stable_order,
};
use crate::text::{
    append_chars, chars_of, lines, parse_small_number, parse_u8, string_of, take_line, trim,
    trimmed,
};
use crate::tree::{
    contains_entry_named, is_ignored, name_is, FsNode, IGNORE_MARKER, INDEX_FILE, README_FILE,
};
use regex::Regex;
use vstd::prelude::*;

verus! {

/// What the groups of the regular expression `pattern` capture in the
/// leftmost match in `text`: one entry for each group, the whole match
/// first, `None` for a group that took no part. `None` where nothing
/// matches, or where `pattern` cannot be compiled.
pub uninterp spec fn regex_captures(pattern: Seq<char>, text: Seq<char>) -> Option<
    Seq<Option<Seq<char>>>,
>;

/// `regex::Regex::new` on `pattern`, `Regex::captures` on `text`, and the
/// text of each group from `Captures::iter`: the result is a function of
/// the two texts alone, and is `None` where `new` returns an error or
/// `captures` finds no match.
#[verifier::external_body]
fn capture_groups(pattern: &str, text: &str) -> (r: Option<Vec<Option<String>>>)
    ensures
        r.deep_view() == regex_captures(pattern@, text@),
{
    match Regex::new(pattern) {
        Ok(re) => re.captures(text).map(
            |found| found.iter().map(|group| group.map(|m| m.as_str().to_string())).collect(),
        ),
        Err(_) => None,
    }
}

/// The name of an area's directory, as a regular expression: `NN-MM Name`.
pub const AREA_PATTERN: &'static str = "^(\\d{1,2})-(\\d{1,2})\\s+(.+)";

/// The name of a category's directory, as a regular expression: `NN Name`.
pub const CATEGORY_PATTERN: &'static str = "^(\\d{1,2})\\s+(.+)";

/// What group `i` captured.
pub open spec fn group(groups: Seq<Option<Seq<char>>>, i: int) -> Option<Seq<char>> {
    if 0 <= i < groups.len() {
        groups[i]
    } else {
        None
    }
}

/// The id and the name of the area that the captures of `AREA_PATTERN`
/// give: the first number, which must be a multiple of ten, and the trimmed
/// text behind the numbers. Digits that do not read as a number below 256
/// give no area.
pub open spec fn area_of_groups(captures: Option<Seq<Option<Seq<char>>>>) -> Option<
    (u8, Seq<char>),
> {
    match captures {
        Some(groups) => match (group(groups, 1), group(groups, 3)) {
            (Some(number), Some(name)) => match parse_u8(number) {
                Some(id) => if id % 10 == 0 {
                    Some((id, trim(name)))
                } else {
                    None
                },
                None => None,
            },
            _ => None,
        },
        None => None,
    }
}

/// The id and the name of the category that the captures of
/// `CATEGORY_PATTERN` give, for a directory inside the area `area_id`: the
/// number, which must lie in the area's decade and not be a multiple of
/// ten, and the trimmed text behind it.
pub open spec fn category_of_groups(captures: Option<Seq<Option<Seq<char>>>>, area_id: u8)
    -> Option<(u8, Seq<char>)> {
    match captures {
        Some(groups) => match (group(groups, 1), group(groups, 2)) {
            (Some(number), Some(name)) => match parse_u8(number) {
                Some(id) => if id / 10 == area_id / 10 && id % 10 != 0 {
                    Some((id, trim(name)))
                } else {
                    None
                },
                None => None,
            },
            _ => None,
        },
        None => None,
    }
}

fn group_at(groups: &Vec<Option<String>>, i: usize) -> (r: Option<Vec<char>>)
    ensures
        match r {
            Some(text) => group(groups.deep_view(), i as int) == Some(text@),
            None => group(groups.deep_view(), i as int) is None,
        },
{
    if i < groups.len() {
        match &groups[i] {
            Some(text) => Some(chars_of(text.as_str())),
            None => None,
        }
    } else {
        None
    }
}

/// Reads an area from what the area pattern captured in a directory's name.
pub fn area_from_groups(captures: &Option<Vec<Option<String>>>) -> (r: Option<(u8, String)>)
    ensures
        r.deep_view() == area_of_groups(captures.deep_view()),
{
    match captures {
        Some(groups) => match (group_at(groups, 1), group_at(groups, 3)) {
            (Some(number), Some(name)) => match parse_small_number(number.as_slice()) {
                Some(id) => if id % 10 == 0 {
                    Some((id, string_of(trimmed(name.as_slice()))))
                } else {
                    None
                },
                None => None,
            },
            _ => None,
        },
        None => None,
    }
}

/// Reads a category of the area `area_id` from what the category pattern
/// captured in a directory's name.
pub fn category_from_groups(captures: &Option<Vec<Option<String>>>, area_id: u8) -> (r: Option<
    (u8, String),
>)
    ensures
        r.deep_view() == category_of_groups(captures.deep_view(), area_id),
{
    match captures {
        Some(groups) => match (group_at(groups, 1), group_at(groups, 2)) {
            (Some(number), Some(name)) => match parse_small_number(number.as_slice()) {
                Some(id) => if id / 10 == area_id / 10 && id % 10 != 0 {
                    Some((id, string_of(trimmed(name.as_slice()))))
                } else {
                    None
                },
                None => None,
            },
            _ => None,
        },
        None => None,
    }
}

/// The area that a directory's name spells, if it spells one.
pub open spec fn area_in_name(name: Seq<char>) -> Option<(u8, Seq<char>)> {
    area_of_groups(regex_captures(AREA_PATTERN@, name))
}

/// The category of the area `area_id` that a directory's name spells, if
/// it spells one.
pub open spec fn category_in_name(name: Seq<char>, area_id: u8) -> Option<(u8, Seq<char>)> {
    category_of_groups(regex_captures(CATEGORY_PATTERN@, name), area_id)
}

/// Reads a directory's name as that of an area.
pub fn read_area_name(name: &str) -> (r: Option<(u8, String)>)
    ensures
        r.deep_view() == area_in_name(name@),
{
    let captures = capture_groups(AREA_PATTERN, name);
    area_from_groups(&captures)
}

/// Reads a directory's name as that of a category of the area `area_id`.
pub fn read_category_name(name: &str, area_id: u8) -> (r: Option<(u8, String)>)
    ensures
        r.deep_view() == category_in_name(name@, area_id),
{
    let captures = capture_groups(CATEGORY_PATTERN, name);
    category_from_groups(&captures, area_id)
}

/// Whether a line belongs to a paragraph: trimmed, it is neither empty nor
/// a heading.
pub open spec fn is_paragraph_line(line: Seq<char>) -> bool {
    trim(line).len() > 0 && trim(line)[0] != '#'
}

/// The paragraph lines that open `text_lines`, each trimmed and followed
/// by a space.
pub open spec fn paragraph_run(text_lines: Seq<Seq<char>>) -> Seq<char>
    decreases text_lines.len(),
{
    if text_lines.len() == 0 || !is_paragraph_line(text_lines[0]) {
        Seq::empty()
    } else {
        trim(text_lines[0]) + seq![' '] + paragraph_run(text_lines.drop_first())
    }
}

/// The first paragraph among the lines: the first run of paragraph lines.
pub open spec fn first_paragraph_run(text_lines: Seq<Seq<char>>) -> Seq<char>
    decreases text_lines.len(),
{
    if text_lines.len() == 0 {
        Seq::empty()
    } else if is_paragraph_line(text_lines[0]) {
        paragraph_run(text_lines)
    } else {
        first_paragraph_run(text_lines.drop_first())
    }
}

/// The description that a text gives: its first paragraph, the lines
/// joined by spaces. `None` where the text has no paragraph.
pub open spec fn description_in(text: Seq<char>) -> Option<Seq<char>> {
    let paragraph = first_paragraph_run(lines(text));
    if paragraph.len() > 0 {
        Some(trim(paragraph))
    } else {
        None
    }
}

fn is_paragraph(line: &[char]) -> (r: bool)
    ensures
        r == is_paragraph_line(line@),
{
    let t = trimmed(line);
    t.len() > 0 && t[0] != '#'
}

/// Reads the description that a text gives.
pub fn read_description_text(text: &str) -> (r: Option<String>)
    ensures
        r.deep_view() == description_in(text@),
{
    let chars = chars_of(text);
    let mut rest: &[char] = chars.as_slice();
    let mut searching = true;
    while searching && rest.len() > 0
        invariant
            first_paragraph_run(lines(chars@)) == first_paragraph_run(lines(rest@)),
            !searching ==> rest@.len() > 0 && is_paragraph_line(lines(rest@)[0]),
        decreases rest@.len() + if searching { 1nat } else { 0nat },
    {
        let (line, next) = take_line(rest);
        assert((seq![line@] + lines(next@)).drop_first() == lines(next@));
        if is_paragraph(line) {
            searching = false;
        } else {
            rest = next;
        }
    }
    let mut out: Vec<char> = Vec::new();
    let mut collecting = true;
    while collecting && rest.len() > 0
        invariant
            first_paragraph_run(lines(chars@)) == out@ + paragraph_run(lines(rest@)),
            !collecting ==> paragraph_run(lines(rest@)).len() == 0,
        decreases rest@.len() + if collecting { 1nat } else { 0nat },
    {
        let (line, next) = take_line(rest);
        assert((seq![line@] + lines(next@)).drop_first() == lines(next@));
        if is_paragraph(line) {
            append_chars(&mut out, trimmed(line));
            out.push(' ');
            rest = next;
        } else {
            collecting = false;
        }
    }
    if out.len() > 0 {
        let text = trimmed(out.as_slice());
        Some(string_of(text))
    } else {
        None
    }
}

/// The text of the first entry that bears the given name, where that entry
/// is a file that could be read.
pub open spec fn entry_text(entries: Seq<FsNode>, name: Seq<char>) -> Option<Seq<char>>
    decreases entries.len(),
{
    if entries.len() == 0 {
        None
    } else if entries[0].name() == Some(name) {
        match entries[0] {
            FsNode::File { content: Some(text), .. } => Some(text@),
            _ => None,
        }
    } else {
        entry_text(entries.drop_first(), name)
    }
}

/// The description that the file of the given name gives, if the
/// directory holds it and it has a paragraph.
pub open spec fn description_from(entries: Seq<FsNode>, name: Seq<char>) -> Option<Seq<char>> {
    match entry_text(entries, name) {
        Some(text) => description_in(text),
        None => None,
    }
}

/// The description of a directory that gives none itself.
pub const NO_DESCRIPTION: &'static str = "No description available";

/// The description of a directory: that of its `README.md`, else that of
/// its `index.md`, else a fixed text.
pub open spec fn description_of(entries: Seq<FsNode>) -> Seq<char> {
    match description_from(entries, README_FILE@) {
        Some(text) => text,
        None => match description_from(entries, INDEX_FILE@) {
            Some(text) => text,
            None => NO_DESCRIPTION@,
        },
    }
}

fn read_description_from(entries: &Vec<FsNode>, name: &str) -> (r: Option<String>)
    ensures
        r.deep_view() == description_from(entries@, name@),
{
    let mut i: usize = 0;
    assert(entries@.skip(0) == entries@);
    while i < entries.len()
        invariant
            i <= entries.len(),
            entry_text(entries@, name@) == entry_text(entries@.skip(i as int), name@),
        decreases entries.len() - i,
    {
        assert(entries@.skip(i as int).drop_first() == entries@.skip(i + 1));
        if name_is(&entries[i].path().file_name, name) {
            return match &entries[i] {
                FsNode::File { content: Some(text), .. } => read_description_text(text.as_str()),
                _ => None,
            };
        }
        i += 1;
    }
    None
}

/// The description of the directory that holds `entries`.
pub fn read_description(entries: &Vec<FsNode>) -> (r: String)
    ensures
        r@ == description_of(entries@),
{
    match read_description_from(entries, README_FILE) {
        Some(text) => text,
        None => match read_description_from(entries, INDEX_FILE) {
            Some(text) => text,
            None => NO_DESCRIPTION.to_owned(),
        },
    }
}

/// The area that a node of the content root is: a directory without the
/// marker `IGNORE` whose name spells an area.
pub open spec fn area_of_node(node: FsNode) -> Option<JDAreaView> {
    match node {
        FsNode::Directory { path, entries } => if is_ignored(entries@) {
            None
        } else {
            match path@.file_name {
                Some(name) => match area_in_name(name) {
                    Some((id, label)) => Some(
                        JDAreaView { id, name: label, description: description_of(entries@) },
                    ),
                    None => None,
                },
                None => None,
            }
        },
        FsNode::File { .. } => None,
    }
}

/// The category that a node inside the area `area_id` is: a directory
/// without the marker `IGNORE` whose name spells a category of that area.
pub open spec fn category_of_node(node: FsNode, area_id: u8) -> Option<JDCategoryView> {
    match node {
        FsNode::Directory { path, entries } => if is_ignored(entries@) {
            None
        } else {
            match path@.file_name {
                Some(name) => match category_in_name(name, area_id) {
                    Some((id, label)) => Some(
                        JDCategoryView {
                            id,
                            area_id,
                            name: label,
                            description: description_of(entries@),
                        },
                    ),
                    None => None,
                },
                None => None,
            }
        },
        FsNode::File { .. } => None,
    }
}

/// The entries of a node; none for a file.
pub open spec fn entries_of(node: FsNode) -> Seq<FsNode> {
    match node {
        FsNode::Directory { entries, .. } => entries@,
        FsNode::File { .. } => Seq::empty(),
    }
}

/// The categories of the area `area_id` among the entries, in order.
pub open spec fn categories_among(entries: Seq<FsNode>, area_id: u8) -> Seq<JDCategoryView>
    decreases entries.len(),
{
    if entries.len() == 0 {
        Seq::empty()
    } else {
        match category_of_node(entries.last(), area_id) {
            Some(c) => categories_among(entries.drop_last(), area_id).push(c),
            None => categories_among(entries.drop_last(), area_id),
        }
    }
}

/// The areas among the entries, in order.
pub open spec fn areas_among(entries: Seq<FsNode>) -> Seq<JDAreaView>
    decreases entries.len(),
{
    if entries.len() == 0 {
        Seq::empty()
    } else {
        match area_of_node(entries.last()) {
            Some(a) => areas_among(entries.drop_last()).push(a),
            None => areas_among(entries.drop_last()),
        }
    }
}

/// The categories inside the areas among the entries, area by area.
pub open spec fn categories_under(entries: Seq<FsNode>) -> Seq<JDCategoryView>
    decreases entries.len(),
{
    if entries.len() == 0 {
        Seq::empty()
    } else {
        categories_under(entries.drop_last()) + match area_of_node(entries.last()) {
            Some(a) => categories_among(entries_of(entries.last()), a.id),
            None => Seq::empty(),
        }
    }
}

/// The id of each area.
pub open spec fn area_ids(areas: Seq<JDAreaView>) -> Seq<int> {
    areas.map_values(|a: JDAreaView| a.id as int)
}

/// The id of each category.
pub open spec fn category_ids(categories: Seq<JDCategoryView>) -> Seq<int> {
    categories.map_values(|c: JDCategoryView| c.id as int)
}

/// What a scan of the content root finds: the areas among its entries and
/// the categories inside them, each list in ascending order of id, equal
/// ids in the order of the listing. Nothing where the root is no
/// directory.
pub open spec fn scanned(root: FsNode) -> (Seq<JDAreaView>, Seq<JDCategoryView>) {
    let areas = areas_among(entries_of(root));
    let categories = categories_under(entries_of(root));
    (sorted_by_key(areas, area_ids(areas)), sorted_by_key(categories, category_ids(categories)))
}

/// Reads a node of the content root as an area.
pub fn read_area(node: &FsNode) -> (r: Option<JDArea>)
    ensures
        r.deep_view() == area_of_node(*node),
{
    match node {
        FsNode::Directory { path, entries } => {
            if contains_entry_named(entries, IGNORE_MARKER) {
                return None;
            }
            match &path.file_name {
                Some(name) => match read_area_name(name.as_str()) {
                    Some((id, label)) => Some(
                        JDArea { id, name: label, description: read_description(entries) },
                    ),
                    None => None,
                },
                None => None,
            }
        },
        FsNode::File { .. } => None,
    }
}

/// Reads a node inside the area `area_id` as a category.
pub fn read_category(node: &FsNode, area_id: u8) -> (r: Option<JDCategory>)
    ensures
        r.deep_view() == category_of_node(*node, area_id),
{
    match node {
        FsNode::Directory { path, entries } => {
            if contains_entry_named(entries, IGNORE_MARKER) {
                return None;
            }
            match &path.file_name {
                Some(name) => match read_category_name(name.as_str(), area_id) {
                    Some((id, label)) => Some(
                        JDCategory {
                            id,
                            area_id,
                            name: label,
                            description: read_description(entries),
                        },
                    ),
                    None => None,
                },
                None => None,
            }
        },
        FsNode::File { .. } => None,
    }
}

/// Adds the categories of the area `area_id` among `entries` to
/// `categories`.
pub fn scan_categories(entries: &Vec<FsNode>, area_id: u8, categories: &mut Vec<JDCategory>)
    ensures
        final(categories).deep_view() == old(categories).deep_view() + categories_among(
            entries@,
            area_id,
        ),
{
    let mut i: usize = 0;
    while i < entries.len()
        invariant
            i <= entries.len(),
            categories.deep_view() == old(categories).deep_view() + categories_among(
                entries@.take(i as int),
                area_id,
            ),
        decreases entries.len() - i,
    {
        let ghost before = categories.deep_view();
        assert(entries@.take(i + 1).drop_last() == entries@.take(i as int));
        match read_category(&entries[i], area_id) {
            Some(c) => {
                categories.push(c);
                assert(categories.deep_view() =~= before.push(c@));
            },
            None => {},
        }
        i += 1;
    }
    assert(entries@.take(entries.len() as int) == entries@);
}

/// The areas in ascending order of id, equal ids in their given order.
pub fn sort_areas(found: &Vec<JDArea>) -> (r: Vec<JDArea>)
    ensures
        r.deep_view() == sorted_by_key(found.deep_view(), area_ids(found.deep_view())),
        forall|i: int, j: int| 0 <= i < j < r.len() ==> r[i].id <= r[j].id,
{
    let ghost items = found.deep_view();
    let mut keys: Vec<u64> = Vec::new();
    let mut i: usize = 0;
    while i < found.len()
        invariant
            i <= found.len(),
            keys.len() == i,
            forall|j: int| 0 <= j < i ==> keys@[j] == found@[j].id,
        decreases found.len() - i,
    {
        keys.push(found[i].id as u64);
        i += 1;
    }
    assert(keys_of(keys@) =~= area_ids(items));
    let out = arrange(found.as_slice(), &keys);
    assert forall|i: int, j: int| 0 <= i < j < out.len() implies out[i].id <= out[j].id by {
        lemma_arranged_ascends(items, area_ids(items), i, j);
        assert(out.deep_view()[i] == out@[i]@);
        assert(out.deep_view()[j] == out@[j]@);
    }
    out
}

/// The categories in ascending order of id, equal ids in their given order.
pub fn sort_categories(found: &Vec<JDCategory>) -> (r: Vec<JDCategory>)
    ensures
        r.deep_view() == sorted_by_key(found.deep_view(), category_ids(found.deep_view())),
        forall|i: int, j: int| 0 <= i < j < r.len() ==> r[i].id <= r[j].id,
{
    let ghost items = found.deep_view();
    let mut keys: Vec<u64> = Vec::new();
    let mut i: usize = 0;
    while i < found.len()
        invariant
            i <= found.len(),
            keys.len() == i,
            forall|j: int| 0 <= j < i ==> keys@[j] == found@[j].id,
        decreases found.len() - i,
    {
        keys.push(found[i].id as u64);
        i += 1;
    }
    assert(keys_of(keys@) =~= category_ids(items));
    let out = arrange(found.as_slice(), &keys);
    assert forall|i: int, j: int| 0 <= i < j < out.len() implies out[i].id <= out[j].id by {
        lemma_arranged_ascends(items, category_ids(items), i, j);
        assert(out.deep_view()[i] == out@[i]@);
        assert(out.deep_view()[j] == out@[j]@);
    }
    out
}

/// Scans a content root: the areas that its directories spell and the
/// categories inside them, each list in ascending order of id. A directory
/// that holds the marker `IGNORE` gives nothing, and neither does what lies
/// in it. A root that is no directory gives two empty lists.
pub fn scan_content_structure(root: &FsNode) -> (r: (Vec<JDArea>, Vec<JDCategory>))
    ensures
        r.0.deep_view() == scanned(*root).0,
        r.1.deep_view() == scanned(*root).1,
        forall|i: int, j: int| 0 <= i < j < r.0.len() ==> r.0[i].id <= r.0[j].id,
        forall|i: int, j: int| 0 <= i < j < r.1.len() ==> r.1[i].id <= r.1[j].id,
{
    let mut areas: Vec<JDArea> = Vec::new();
    let mut categories: Vec<JDCategory> = Vec::new();
    match root {
        FsNode::Directory { entries, .. } => {
            let mut i: usize = 0;
            while i < entries.len()
                invariant
                    i <= entries.len(),
                    areas.deep_view() == areas_among(entries@.take(i as int)),
                    categories.deep_view() == categories_under(entries@.take(i as int)),
                decreases entries.len() - i,
            {
                assert(entries@.take(i + 1).drop_last() == entries@.take(i as int));
                match read_area(&entries[i]) {
                    Some(area) => {
                        let id = area.id;
                        areas.push(area);
                        match &entries[i] {
                            FsNode::Directory { entries: inner, .. } => {
                                scan_categories(inner, id, &mut categories);
                            },
                            FsNode::File { .. } => {},
                        }
                    },
                    None => {},
                }
                i += 1;
            }
            assert(entries@.take(entries.len() as int) == entries@);
        },
        FsNode::File { .. } => {},
    }
    (sort_areas(&areas), sort_categories(&categories))
}

/// A directory that holds the marker `IGNORE` is neither an area nor a
/// category.
pub proof fn lemma_ignored_directory_is_nothing(node: FsNode, area_id: u8)
    requires
        is_ignored(entries_of(node)),
    ensures
        area_of_node(node) is None,
        category_of_node(node, area_id) is None,
{
}

/// An entry that is no area adds nothing to a scan: the areas and the
/// categories found are those found without it.
pub proof fn lemma_scan_passes_over(entries: Seq<FsNode>, k: int)
    requires
        0 <= k < entries.len(),
        area_of_node(entries[k]) is None,
    ensures
        areas_among(entries) == areas_among(entries.remove(k)),
        categories_under(entries) == categories_under(entries.remove(k)),
    decreases entries.len(),
{
    if k == entries.len() - 1 {
        assert(entries.remove(k) =~= entries.drop_last());
        assert(categories_under(entries.drop_last()) + Seq::<JDCategoryView>::empty()
            =~= categories_under(entries.drop_last()));
    } else {
        let front = entries.drop_last();
        assert(front[k] == entries[k]);
        lemma_scan_passes_over(front, k);
        assert(entries.remove(k).drop_last() =~= front.remove(k));
        assert(entries.remove(k).last() == entries.last());
    }
}

/// A directory of the content root that holds the marker `IGNORE` adds
/// nothing to a scan, whatever lies in it: two roots that differ by such a
/// directory alone give the same taxonomy.
pub proof fn lemma_scan_passes_over_ignored(root: FsNode, other: FsNode, k: int)
    requires
        0 <= k < entries_of(root).len(),
        is_ignored(entries_of(entries_of(root)[k])),
        entries_of(other) == entries_of(root).remove(k),
    ensures
        scanned(root) == scanned(other),
{
    lemma_ignored_directory_is_nothing(entries_of(root)[k], 0);
    lemma_scan_passes_over(entries_of(root), k);
}

/// A category inside the area `area_id` among the entries is well formed
/// where the area's id is a multiple of ten.
proof fn lemma_categories_among_well_formed(entries: Seq<FsNode>, area_id: u8)
    requires
        area_id % 10 == 0,
    ensures
        forall|i: int|
            0 <= i < categories_among(entries, area_id).len() ==> {
                &&& (#[trigger] categories_among(entries, area_id)[i]).well_formed()
                &&& categories_among(entries, area_id)[i].area_id == area_id
            },
    decreases entries.len(),
{
    if entries.len() > 0 {
        let front = categories_among(entries.drop_last(), area_id);
        let all = categories_among(entries, area_id);
        lemma_categories_among_well_formed(entries.drop_last(), area_id);
        match category_of_node(entries.last(), area_id) {
            Some(c) => {
                assert(c.well_formed() && c.area_id == area_id);
                assert forall|i: int| 0 <= i < all.len() implies (#[trigger] all[i]).well_formed()
                    && all[i].area_id == area_id by {
                    if i < front.len() {
                        assert(all[i] == front[i]);
                    }
                }
            },
            None => {},
        }
    }
}

proof fn lemma_areas_among_well_formed(entries: Seq<FsNode>)
    ensures
        forall|i: int|
            0 <= i < areas_among(entries).len() ==> (#[trigger] areas_among(
                entries,
            )[i]).well_formed(),
    decreases entries.len(),
{
    if entries.len() > 0 {
        let front = areas_among(entries.drop_last());
        let all = areas_among(entries);
        lemma_areas_among_well_formed(entries.drop_last());
        match area_of_node(entries.last()) {
            Some(a) => {
                assert(a.well_formed());
                assert forall|i: int| 0 <= i < all.len() implies (
                #[trigger] all[i]).well_formed() by {
                    if i < front.len() {
                        assert(all[i] == front[i]);
                    }
                }
            },
            None => {},
        }
    }
}

proof fn lemma_categories_under_well_formed(entries: Seq<FsNode>)
    ensures
        forall|i: int|
            0 <= i < categories_under(entries).len() ==> {
                &&& (#[trigger] categories_under(entries)[i]).well_formed()
                &&& exists|j: int|
                    0 <= j < areas_among(entries).len() && areas_among(entries)[j].id
                        == categories_under(entries)[i].area_id
            },
    decreases entries.len(),
{
    if entries.len() > 0 {
        let front = entries.drop_last();
        lemma_categories_under_well_formed(front);
        lemma_areas_among_well_formed(entries);
        let all = categories_under(entries);
        match area_of_node(entries.last()) {
            Some(a) => {
                let inner = categories_among(entries_of(entries.last()), a.id);
                assert(areas_among(entries) == areas_among(front).push(a));
                assert(areas_among(entries).last() == a);
                assert(a.well_formed());
                lemma_categories_among_well_formed(entries_of(entries.last()), a.id);
                assert forall|i: int| 0 <= i < all.len() implies {
                    &&& (#[trigger] all[i]).well_formed()
                    &&& exists|j: int|
                        0 <= j < areas_among(entries).len() && areas_among(entries)[j].id
                            == all[i].area_id
                } by {
                    if i < categories_under(front).len() {
                        assert(all[i] == categories_under(front)[i]);
                        let j = choose|j: int|
                            0 <= j < areas_among(front).len() && areas_among(front)[j].id
                                == categories_under(front)[i].area_id;
                        assert(areas_among(entries)[j] == areas_among(front)[j]);
                    } else {
                        assert(all[i] == inner[i - categories_under(front).len()]);
                        assert(areas_among(entries)[areas_among(entries).len() - 1].id
                            == all[i].area_id);
                    }
                }
            },
            None => {
                assert(all =~= categories_under(front));
            },
        }
    }
}

/// What a scan finds is well formed: the id of every area is a multiple of
/// ten, every category lies in the decade of its area and is not a multiple
/// of ten, and the area of every category is among the areas found.
pub proof fn lemma_scanned_is_well_formed(root: FsNode)
    ensures
        forall|i: int|
            0 <= i < scanned(root).0.len() ==> (#[trigger] scanned(root).0[i]).well_formed(),
        forall|i: int|
            0 <= i < scanned(root).1.len() ==> {
                &&& (#[trigger] scanned(root).1[i]).well_formed()
                &&& exists|j: int|
                    0 <= j < scanned(root).0.len() && scanned(root).0[j].id == scanned(
                        root,
                    ).1[i].area_id
            },
{
    broadcast use vstd::seq_lib::group_to_multiset_ensures;

    let entries = entries_of(root);
    let areas = areas_among(entries);
    let categories = categories_under(entries);
    lemma_areas_among_well_formed(entries);
    lemma_categories_under_well_formed(entries);
    lemma_stable_order(area_ids(areas));
    lemma_stable_order(category_ids(categories));
    let area_order = stable_order(area_ids(areas));
    let category_order = stable_order(category_ids(categories));
    assert forall|i: int| 0 <= i < scanned(root).0.len() implies (#[trigger] scanned(
        root,
    ).0[i]).well_formed() by {
        assert(scanned(root).0[i] == areas[area_order[i]]);
    }
    assert forall|i: int| 0 <= i < scanned(root).1.len() implies {
        &&& (#[trigger] scanned(root).1[i]).well_formed()
        &&& exists|j: int|
            0 <= j < scanned(root).0.len() && scanned(root).0[j].id == scanned(
                root,
            ).1[i].area_id
    } by {
        let p = category_order[i];
        assert(0 <= p < categories.len());
        let c = categories[p];
        assert(scanned(root).1[i] == c);
        assert(c.well_formed());
        let x = choose|x: int| 0 <= x < areas.len() && areas[x].id == c.area_id;
        assert(area_order.to_multiset().count(x) == 1);
        assert(area_order.to_multiset().contains(x));
        let j = choose|j: int| 0 <= j < area_order.len() && area_order[j] == x;
        assert(scanned(root).0[j] == areas[area_order[j]]);
        assert(0 <= j < scanned(root).0.len() && scanned(root).0[j].id == scanned(
            root,
        ).1[i].area_id);
    }
}

} // verus!
