//! Listings of the corpus: the search over it, the selections by tag, by
//! category and by area, and the pages in which results are shown.

use crate::model::{JDCategory, JDCategoryView, Project, ProjectView};
use crate::order::{arrange, copy_all, keys_of, lemma_arranged_ascends, sorted_by_key};
use crate::text::{
    chars_of, contains_chars, contains_text, decimal_text, lowercase_of_text, lowercase_text,
    push_decimal, same_chars, string_of,
};
use vstd::prelude::*;

verus! {

/// How far a time lies before the latest time that can be told: the key by
/// which the newest comes first.
pub open spec fn age_key(created_at: i64) -> int {
    i64::MAX - created_at
}

/// The key of each document.
pub open spec fn age_keys(projects: Seq<ProjectView>) -> Seq<int> {
    projects.map_values(|p: ProjectView| age_key(p.created_at))
}

/// The documents in the order of their dates, the newest first; documents
/// of the same date in their given order.
pub open spec fn newest_first(projects: Seq<ProjectView>) -> Seq<ProjectView> {
    sorted_by_key(projects, age_keys(projects))
}

/// Whether one of the texts, in lower case, holds `query`.
pub open spec fn any_contains(texts: Seq<Seq<char>>, query: Seq<char>) -> bool {
    exists|i: int|
        0 <= i < texts.len() && contains_text(lowercase_text(#[trigger] texts[i]), query)
}

/// Whether a category's name or description, in lower case, holds `query`.
pub open spec fn category_contains(category: JDCategoryView, query: Seq<char>) -> bool {
    contains_text(lowercase_text(category.name), query) || contains_text(
        lowercase_text(category.description),
        query,
    )
}

/// Whether a document answers a query that is in lower case: its title,
/// its summary, one of its tags, or the name or the description of its
/// category holds the query, case apart.
pub open spec fn answers(p: ProjectView, query: Seq<char>) -> bool {
    ||| contains_text(lowercase_text(p.title), query)
    ||| contains_text(lowercase_text(p.summary), query)
    ||| any_contains(p.tech_stack, query)
    ||| match p.jd_category {
        Some(category) => category_contains(category, query),
        None => false,
    }
}

/// The documents that answer the query.
pub open spec fn answers_query(query: Seq<char>) -> spec_fn(ProjectView) -> bool {
    |p: ProjectView| answers(p, query)
}

/// What a search shows: the documents that answer the query, case apart,
/// the newest first; all documents for an empty query.
pub open spec fn search_results(projects: Seq<ProjectView>, query: Seq<char>) -> Seq<ProjectView> {
    let wanted = lowercase_text(query);
    if wanted.len() == 0 {
        newest_first(projects)
    } else {
        newest_first(projects).filter(answers_query(wanted))
    }
}

fn lowered(text: &str) -> (r: Vec<char>)
    ensures
        r@ == lowercase_text(text@),
{
    chars_of(lowercase_of_text(text).as_str())
}

fn text_contains(text: &String, query: &[char]) -> (r: bool)
    ensures
        r == contains_text(lowercase_text(text@), query@),
{
    let lower = lowered(text.as_str());
    contains_chars(lower.as_slice(), query)
}

fn any_text_contains(texts: &Vec<String>, query: &[char]) -> (r: bool)
    ensures
        r == any_contains(texts.deep_view(), query@),
{
    let ghost views = texts.deep_view();
    let mut i: usize = 0;
    while i < texts.len()
        invariant
            i <= texts.len(),
            views == texts.deep_view(),
            forall|j: int|
                0 <= j < i ==> !contains_text(lowercase_text(#[trigger] views[j]), query@),
        decreases texts.len() - i,
    {
        assert(views[i as int] == texts@[i as int]@);
        if text_contains(&texts[i], query) {
            return true;
        }
        i += 1;
    }
    false
}

/// Whether a document answers a query that is in lower case.
pub fn project_answers(project: &Project, query: &[char]) -> (r: bool)
    ensures
        r == answers(project@, query@),
{
    if text_contains(&project.title, query) || text_contains(&project.summary, query)
        || any_text_contains(&project.tech_stack, query) {
        return true;
    }
    match &project.jd_category {
        Some(category) => text_contains(&category.name, query) || text_contains(
            &category.description,
            query,
        ),
        None => false,
    }
}

/// The documents in the order of their dates, the newest first.
pub fn sort_newest_first(projects: &[Project]) -> (r: Vec<Project>)
    ensures
        r.deep_view() == newest_first(projects.deep_view()),
        forall|i: int, j: int| 0 <= i < j < r.len() ==> r[i].created_at >= r[j].created_at,
{
    let ghost items = projects.deep_view();
    let mut keys: Vec<u64> = Vec::new();
    let mut i: usize = 0;
    while i < projects.len()
        invariant
            i <= projects.len(),
            keys.len() == i,
            forall|j: int| 0 <= j < i ==> keys@[j] == age_key(projects@[j].created_at),
        decreases projects.len() - i,
    {
        let age: i128 = 0x7fff_ffff_ffff_ffff_i128 - (projects[i].created_at as i128);
        keys.push(age as u64);
        i += 1;
    }
    assert(keys_of(keys@) =~= age_keys(items));
    let out = arrange(projects, &keys);
    assert forall|i: int, j: int| 0 <= i < j < out.len() implies out[i].created_at
        >= out[j].created_at by {
        lemma_arranged_ascends(items, age_keys(items), i, j);
        assert(out.deep_view()[i] == out@[i]@);
        assert(out.deep_view()[j] == out@[j]@);
    }
    out
}

/// Searches the corpus: the documents whose title, summary, tags or
/// category hold the query, case apart, the newest first. An empty query
/// finds every document.
pub fn search_projects(projects: &[Project], query: &str) -> (r: Vec<Project>)
    ensures
        r.deep_view() == search_results(projects.deep_view(), query@),
{
    let sorted = sort_newest_first(projects);
    let wanted = lowered(query);
    if wanted.len() == 0 {
        return sorted;
    }
    let ghost views = sorted.deep_view();
    let ghost keep = answers_query(wanted@);
    let mut out: Vec<Project> = Vec::new();
    let mut i: usize = 0;
    proof {
        reveal(Seq::filter);
    }
    while i < sorted.len()
        invariant
            i <= sorted.len(),
            views == sorted.deep_view(),
            keep == answers_query(wanted@),
            out.deep_view() == views.take(i as int).filter(keep),
        decreases sorted.len() - i,
    {
        assert(views.take(i + 1) =~= views.take(i as int).push(views[i as int]));
        proof {
            views.take(i as int).lemma_filter_push(views[i as int], keep);
        }
        if project_answers(&sorted[i], wanted.as_slice()) {
            out.push(sorted[i].clone());
        }
        i += 1;
    }
    assert(views.take(sorted.len() as int) == views);
    out
}

/// How many page numbers are offered at once.
pub const PAGE_BUTTONS: usize = 5;

/// The number of pages that `total` results fill, `per_page` to a page;
/// one page for none.
pub open spec fn page_count(total: int, per_page: int) -> int {
    if total == 0 {
        1
    } else {
        (total + per_page - 1) / per_page
    }
}

/// The number of pages that `total` results fill, `per_page` to a page.
pub fn total_pages(total: usize, per_page: usize) -> (r: usize)
    requires
        per_page >= 1,
    ensures
        r == page_count(total as int, per_page as int),
        r >= 1,
{
    if total == 0 {
        1
    } else {
        let full = total / per_page;
        let ghost whole = (total as int + per_page as int - 1) / (per_page as int);
        if total % per_page == 0 {
            assert(whole == full) by (nonlinear_arith)
                requires
                    per_page >= 1,
                    total >= 1,
                    full == total as int / per_page as int,
                    total as int % per_page as int == 0,
                    whole == (total as int + per_page as int - 1) / (per_page as int),
            ;
            assert(full >= 1) by (nonlinear_arith)
                requires
                    per_page >= 1,
                    total >= 1,
                    full == total as int / per_page as int,
                    total as int % per_page as int == 0,
            ;
            full
        } else {
            assert(whole == full + 1) by (nonlinear_arith)
                requires
                    per_page >= 1,
                    total >= 1,
                    full == total as int / per_page as int,
                    total as int % per_page as int != 0,
                    whole == (total as int + per_page as int - 1) / (per_page as int),
            ;
            assert(full < total) by (nonlinear_arith)
                requires
                    per_page >= 1,
                    total >= 1,
                    full == total as int / per_page as int,
                    total as int % per_page as int != 0,
            ;
            full + 1
        }
    }
}

/// The results that page `page` shows, pages counted from 1 and holding
/// `per_page` results each.
pub open spec fn page_of<T>(items: Seq<T>, page: int, per_page: int) -> Seq<T> {
    let start = (page - 1) * per_page;
    if start >= items.len() {
        Seq::empty()
    } else if start + per_page <= items.len() {
        items.subrange(start, start + per_page)
    } else {
        items.subrange(start, items.len() as int)
    }
}

/// The results that page `page` shows, pages counted from 1: `per_page`
/// results, fewer on the last page, none beyond it.
pub fn page_items(items: &[Project], page: usize, per_page: usize) -> (r: Vec<Project>)
    requires
        page >= 1,
        per_page >= 1,
    ensures
        r.deep_view() == page_of(items.deep_view(), page as int, per_page as int),
{
    let ghost views = items.deep_view();
    let mut out: Vec<Project> = Vec::new();
    if page - 1 > items.len() / per_page {
        assert((page - 1) * per_page >= items.len()) by (nonlinear_arith)
            requires
                page - 1 > items.len() as int / per_page as int,
                per_page >= 1,
        ;
        return out;
    }
    assert((page - 1) * per_page <= items.len()) by (nonlinear_arith)
        requires
            0 <= page - 1 <= items.len() as int / per_page as int,
            per_page >= 1,
    ;
    let start = (page - 1) * per_page;
    let end = if items.len() - start >= per_page {
        start + per_page
    } else {
        items.len()
    };
    let mut i: usize = start;
    while i < end
        invariant
            start <= i <= end <= items.len(),
            views == items.deep_view(),
            out.len() == i - start,
            forall|j: int| 0 <= j < i - start ==> out@[j]@ == views[start + j],
        decreases end - i,
    {
        out.push(items[i].clone());
        i += 1;
    }
    out
}

/// The page behind `current`, where there is one.
pub fn next_page(current: usize, pages: usize) -> (r: usize)
    ensures
        r == if current < pages {
            current + 1
        } else {
            current as int
        },
{
    if current < pages {
        current + 1
    } else {
        current
    }
}

/// The page before `current`, where there is one.
pub fn previous_page(current: usize) -> (r: usize)
    ensures
        r == if current > 1 {
            current - 1
        } else {
            current as int
        },
{
    if current > 1 {
        current - 1
    } else {
        current
    }
}

/// The first page number that is offered when `current` of `pages` pages
/// is shown.
pub open spec fn first_button(current: int, pages: int) -> int {
    let shown = if pages < PAGE_BUTTONS {
        pages
    } else {
        PAGE_BUTTONS as int
    };
    let half = shown / 2;
    let start = if current > half {
        if current + half > pages {
            pages - shown + 1
        } else {
            current - half
        }
    } else {
        1
    };
    if start < 1 {
        1
    } else {
        start
    }
}

/// The last page number that is offered.
pub open spec fn last_button(current: int, pages: int) -> int {
    let shown = if pages < PAGE_BUTTONS {
        pages
    } else {
        PAGE_BUTTONS as int
    };
    let end = first_button(current, pages) + shown - 1;
    if end < pages {
        end
    } else {
        pages
    }
}

/// The page numbers that are offered: at most five in a row, around the
/// current page where the pages reach that far, none beyond the last page.
pub open spec fn page_buttons(current: int, pages: int) -> Seq<int> {
    let first = first_button(current, pages);
    let last = last_button(current, pages);
    if last < first {
        Seq::empty()
    } else {
        Seq::new((last - first + 1) as nat, |i: int| first + i)
    }
}

/// The page numbers to offer when `current` of `pages` pages is shown.
pub fn page_numbers(current: usize, pages: usize) -> (r: Vec<usize>)
    ensures
        r@.map_values(|p: usize| p as int) == page_buttons(current as int, pages as int),
{
    let shown = if pages < PAGE_BUTTONS {
        pages
    } else {
        PAGE_BUTTONS
    };
    let half = shown / 2;
    let first = if current > half {
        if current > pages - half {
            pages - shown + 1
        } else {
            current - half
        }
    } else {
        1
    };
    let mut out: Vec<usize> = Vec::new();
    if shown == 0 || first > pages {
        return out;
    }
    let last = if pages - first >= shown - 1 {
        first + (shown - 1)
    } else {
        pages
    };
    let count = last - first + 1;
    let mut k: usize = 0;
    while k < count
        invariant
            k <= count,
            count == last - first + 1,
            first <= last,
            out.len() == k,
            forall|j: int| 0 <= j < k ==> out@[j] == first + j,
        decreases count - k,
    {
        out.push(first + k);
        k += 1;
    }
    out
}

/// Whether a document carries a tag that, in lower case, is `tag`.
pub open spec fn carries(p: ProjectView, tag: Seq<char>) -> bool {
    exists|i: int| 0 <= i < p.tech_stack.len() && lowercase_text(#[trigger] p.tech_stack[i]) == tag
}

/// The documents that carry the tag.
pub open spec fn carries_tag(tag: Seq<char>) -> spec_fn(ProjectView) -> bool {
    |p: ProjectView| carries(p, tag)
}

/// The documents that carry the tag, case apart; all documents for an
/// empty tag.
pub open spec fn tagged(projects: Seq<ProjectView>, tag: Seq<char>) -> Seq<ProjectView> {
    if tag.len() == 0 {
        projects
    } else {
        projects.filter(carries_tag(lowercase_text(tag)))
    }
}

/// Whether a document carries a tag that, in lower case, is `tag`.
pub fn project_carries(project: &Project, tag: &[char]) -> (r: bool)
    ensures
        r == carries(project@, tag@),
{
    let ghost tags = project@.tech_stack;
    let mut i: usize = 0;
    while i < project.tech_stack.len()
        invariant
            i <= project.tech_stack.len(),
            tags == project@.tech_stack,
            tags.len() == project.tech_stack.len(),
            forall|j: int| 0 <= j < i ==> lowercase_text(#[trigger] tags[j]) != tag@,
        decreases project.tech_stack.len() - i,
    {
        assert(tags[i as int] == project.tech_stack@[i as int]@);
        let lower = lowered(project.tech_stack[i].as_str());
        if same_chars(lower.as_slice(), tag) {
            return true;
        }
        i += 1;
    }
    false
}

/// Selects the documents that carry the tag, case apart, in their given
/// order. An empty tag selects every document.
pub fn filter_by_tag(projects: &[Project], tag: &str) -> (r: Vec<Project>)
    ensures
        r.deep_view() == tagged(projects.deep_view(), tag@),
{
    if tag.is_empty() {
        return copy_all(projects);
    }
    let wanted = lowered(tag);
    let ghost views = projects.deep_view();
    let ghost keep = carries_tag(wanted@);
    let mut out: Vec<Project> = Vec::new();
    let mut i: usize = 0;
    proof {
        reveal(Seq::filter);
    }
    while i < projects.len()
        invariant
            i <= projects.len(),
            views == projects.deep_view(),
            keep == carries_tag(wanted@),
            out.deep_view() == views.take(i as int).filter(keep),
        decreases projects.len() - i,
    {
        assert(views.take(i + 1) =~= views.take(i as int).push(views[i as int]));
        proof {
            views.take(i as int).lemma_filter_push(views[i as int], keep);
        }
        if project_carries(&projects[i], wanted.as_slice()) {
            out.push(projects[i].clone());
        }
        i += 1;
    }
    assert(views.take(projects.len() as int) == views);
    out
}

/// Whether a document lies in the category of the given id.
pub open spec fn lies_in(p: ProjectView, category_id: u8) -> bool {
    match p.jd_category {
        Some(category) => category.id == category_id,
        None => false,
    }
}

/// The documents of the category.
pub open spec fn in_category(category_id: u8) -> spec_fn(ProjectView) -> bool {
    |p: ProjectView| lies_in(p, category_id)
}

/// Selects the documents of a category, in their given order.
pub fn projects_in_category(projects: &[Project], category_id: u8) -> (r: Vec<Project>)
    ensures
        r.deep_view() == projects.deep_view().filter(in_category(category_id)),
{
    let ghost views = projects.deep_view();
    let ghost keep = in_category(category_id);
    let mut out: Vec<Project> = Vec::new();
    let mut i: usize = 0;
    proof {
        reveal(Seq::filter);
    }
    while i < projects.len()
        invariant
            i <= projects.len(),
            views == projects.deep_view(),
            keep == in_category(category_id),
            out.deep_view() == views.take(i as int).filter(keep),
        decreases projects.len() - i,
    {
        assert(views.take(i + 1) =~= views.take(i as int).push(views[i as int]));
        proof {
            views.take(i as int).lemma_filter_push(views[i as int], keep);
        }
        let inside = match &projects[i].jd_category {
            Some(category) => category.id == category_id,
            None => false,
        };
        if inside {
            out.push(projects[i].clone());
        }
        i += 1;
    }
    assert(views.take(projects.len() as int) == views);
    out
}

/// The category of the given id as the first document that lies in it
/// records it.
pub open spec fn category_recorded(projects: Seq<ProjectView>, category_id: u8) -> Option<
    JDCategoryView,
>
    decreases projects.len(),
{
    if projects.len() == 0 {
        None
    } else if lies_in(projects[0], category_id) {
        projects[0].jd_category
    } else {
        category_recorded(projects.drop_first(), category_id)
    }
}

/// The category of the given id, taken from the first document that lies
/// in it; `None` where no document does.
pub fn category_among_projects(projects: &[Project], category_id: u8) -> (r: Option<JDCategory>)
    ensures
        r.deep_view() == category_recorded(projects.deep_view(), category_id),
{
    let ghost views = projects.deep_view();
    let mut i: usize = 0;
    assert(views.skip(0) == views);
    while i < projects.len()
        invariant
            i <= projects.len(),
            views == projects.deep_view(),
            category_recorded(views, category_id) == category_recorded(
                views.skip(i as int),
                category_id,
            ),
        decreases projects.len() - i,
    {
        assert(views.skip(i as int).drop_first() == views.skip(i + 1));
        match &projects[i].jd_category {
            Some(category) => {
                if category.id == category_id {
                    return Some(category.clone());
                }
            },
            None => {},
        }
        i += 1;
    }
    None
}

/// The categories of the area.
pub open spec fn in_area(area_id: u8) -> spec_fn(JDCategoryView) -> bool {
    |c: JDCategoryView| c.area_id == area_id
}

/// Selects the categories of an area, in their given order.
pub fn categories_of_area(categories: &[JDCategory], area_id: u8) -> (r: Vec<JDCategory>)
    ensures
        r.deep_view() == categories.deep_view().filter(in_area(area_id)),
{
    let ghost views = categories.deep_view();
    let ghost keep = in_area(area_id);
    let mut out: Vec<JDCategory> = Vec::new();
    let mut i: usize = 0;
    proof {
        reveal(Seq::filter);
    }
    while i < categories.len()
        invariant
            i <= categories.len(),
            views == categories.deep_view(),
            keep == in_area(area_id),
            out.deep_view() == views.take(i as int).filter(keep),
        decreases categories.len() - i,
    {
        assert(views.take(i + 1) =~= views.take(i as int).push(views[i as int]));
        proof {
            views.take(i as int).lemma_filter_push(views[i as int], keep);
        }
        if categories[i].area_id == area_id {
            out.push(categories[i].clone());
        }
        i += 1;
    }
    assert(views.take(categories.len() as int) == views);
    out
}

/// The identifier shown beside a document in a listing: its own, or the
/// id of its category where it has none, or nothing.
pub open spec fn shown_identifier(p: ProjectView) -> Seq<char> {
    if p.jd_identifier.len() > 0 {
        p.jd_identifier
    } else {
        match p.jd_category {
            Some(category) => decimal_text(category.id as nat),
            None => Seq::empty(),
        }
    }
}

/// The identifier to show beside a document in a listing.
pub fn display_identifier(project: &Project) -> (r: String)
    ensures
        r@ == shown_identifier(project@),
{
    if !project.jd_identifier.as_str().is_empty() {
        project.jd_identifier.clone()
    } else {
        match &project.jd_category {
            Some(category) => {
                let mut out: Vec<char> = Vec::new();
                push_decimal(&mut out, category.id as u32);
                string_of(out.as_slice())
            },
            None => String::new(),
        }
    }
}

/// The ids that an area spans, as `first-last`: its own and the nine that
/// follow.
pub open spec fn area_range(area_id: u8) -> Seq<char> {
    decimal_text(area_id as nat) + seq!['-'] + decimal_text((area_id + 9) as nat)
}

/// The label of the ids that an area spans.
pub fn area_range_label(area_id: u8) -> (r: String)
    ensures
        r@ == area_range(area_id),
{
    let mut out: Vec<char> = Vec::new();
    push_decimal(&mut out, area_id as u32);
    out.push('-');
    push_decimal(&mut out, area_id as u32 + 9);
    string_of(out.as_slice())
}

/// The first document with the given slug.
pub open spec fn project_with_slug(projects: Seq<ProjectView>, slug: Seq<char>) -> Option<
    ProjectView,
>
    decreases projects.len(),
{
    if projects.len() == 0 {
        None
    } else if projects[0].slug == slug {
        Some(projects[0])
    } else {
        project_with_slug(projects.drop_first(), slug)
    }
}

/// The document that a slug addresses: the first one of the corpus with
/// that slug, if there is one.
pub fn find_project_by_slug(projects: &[Project], slug: &str) -> (r: Option<Project>)
    ensures
        r.deep_view() == project_with_slug(projects.deep_view(), slug@),
{
    let ghost views = projects.deep_view();
    let wanted = chars_of(slug);
    let mut i: usize = 0;
    assert(views.skip(0) == views);
    while i < projects.len()
        invariant
            i <= projects.len(),
            views == projects.deep_view(),
            wanted@ == slug@,
            project_with_slug(views, slug@) == project_with_slug(views.skip(i as int), slug@),
        decreases projects.len() - i,
    {
        assert(views.skip(i as int).drop_first() == views.skip(i + 1));
        let own = chars_of(projects[i].slug.as_str());
        if same_chars(own.as_slice(), wanted.as_slice()) {
            return Some(projects[i].clone());
        }
        i += 1;
    }
    None
}

} // verus!
