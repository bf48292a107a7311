//! The taxonomy (areas and their categories) and the content record.

use crate::order::Record;
use vstd::prelude::*;

verus! {

/// A top-level bucket of the taxonomy: the ids `id ..= id + 9`.
#[derive(Debug, PartialEq)]
pub struct JDArea {
    pub id: u8,
    pub name: String,
    pub description: String,
}

/// A second-level bucket, owned by the area whose id is `area_id`.
#[derive(Debug, PartialEq)]
pub struct JDCategory {
    pub id: u8,
    pub area_id: u8,
    pub name: String,
    pub description: String,
}

/// One article. Times are seconds since 1970-01-01T00:00:00Z.
#[derive(Debug, PartialEq)]
pub struct Project {
    pub id: Option<i64>,
    pub title: String,
    pub slug: String,
    pub summary: String,
    pub content: String,
    pub tech_stack: Vec<String>,
    pub repo_url: Option<String>,
    pub live_url: Option<String>,
    pub thumbnail: Option<String>,
    pub created_at: i64,
    pub updated_at: i64,
    pub jd_category: Option<JDCategory>,
    pub original_path: String,
    pub jd_identifier: String,
    pub related_articles: Vec<String>,
}

/// An area as mathematical values.
pub struct JDAreaView {
    pub id: u8,
    pub name: Seq<char>,
    pub description: Seq<char>,
}

/// A category as mathematical values.
pub struct JDCategoryView {
    pub id: u8,
    pub area_id: u8,
    pub name: Seq<char>,
    pub description: Seq<char>,
}

/// An article as mathematical values.
pub struct ProjectView {
    pub id: Option<i64>,
    pub title: Seq<char>,
    pub slug: Seq<char>,
    pub summary: Seq<char>,
    pub content: Seq<char>,
    pub tech_stack: Seq<Seq<char>>,
    pub repo_url: Option<Seq<char>>,
    pub live_url: Option<Seq<char>>,
    pub thumbnail: Option<Seq<char>>,
    pub created_at: i64,
    pub updated_at: i64,
    pub jd_category: Option<JDCategoryView>,
    pub original_path: Seq<char>,
    pub jd_identifier: Seq<char>,
    pub related_articles: Seq<Seq<char>>,
}

impl View for JDArea {
    type V = JDAreaView;

    open spec fn view(&self) -> JDAreaView {
        JDAreaView { id: self.id, name: self.name@, description: self.description@ }
    }
}

impl DeepView for JDArea {
    type V = JDAreaView;

    open spec fn deep_view(&self) -> JDAreaView {
        self.view()
    }
}

impl View for JDCategory {
    type V = JDCategoryView;

    open spec fn view(&self) -> JDCategoryView {
        JDCategoryView {
            id: self.id,
            area_id: self.area_id,
            name: self.name@,
            description: self.description@,
        }
    }
}

impl DeepView for JDCategory {
    type V = JDCategoryView;

    open spec fn deep_view(&self) -> JDCategoryView {
        self.view()
    }
}

impl View for Project {
    type V = ProjectView;

    open spec fn view(&self) -> ProjectView {
        ProjectView {
            id: self.id,
            title: self.title@,
            slug: self.slug@,
            summary: self.summary@,
            content: self.content@,
            tech_stack: self.tech_stack.deep_view(),
            repo_url: self.repo_url.deep_view(),
            live_url: self.live_url.deep_view(),
            thumbnail: self.thumbnail.deep_view(),
            created_at: self.created_at,
            updated_at: self.updated_at,
            jd_category: self.jd_category.deep_view(),
            original_path: self.original_path@,
            jd_identifier: self.jd_identifier@,
            related_articles: self.related_articles.deep_view(),
        }
    }
}

impl DeepView for Project {
    type V = ProjectView;

    open spec fn deep_view(&self) -> ProjectView {
        self.view()
    }
}

impl JDAreaView {
    /// An area's id is a multiple of ten.
    pub open spec fn well_formed(self) -> bool {
        self.id % 10 == 0
    }
}

impl JDCategoryView {
    /// A category's id lies in its area's decade and is not the area's own.
    pub open spec fn well_formed(self) -> bool {
        &&& self.area_id % 10 == 0
        &&& self.id / 10 == self.area_id / 10
        &&& self.id % 10 != 0
    }
}

/// A copy of a list of strings.
pub fn copy_strings(v: &Vec<String>) -> (r: Vec<String>)
    ensures
        r.deep_view() == v.deep_view(),
{
    let mut out: Vec<String> = Vec::new();
    let mut i: usize = 0;
    while i < v.len()
        invariant
            i <= v.len(),
            out.len() == i,
            forall|j: int| 0 <= j < i ==> out@[j]@ == v@[j]@,
        decreases v.len() - i,
    {
        out.push(v[i].clone());
        i += 1;
    }
    out
}

/// A copy of an optional string.
pub fn copy_optional_string(s: &Option<String>) -> (r: Option<String>)
    ensures
        r.deep_view() == s.deep_view(),
{
    match s {
        Some(text) => Some(text.clone()),
        None => None,
    }
}

impl Clone for JDArea {
    fn clone(&self) -> (r: Self)
        ensures
            r@ == self@,
    {
        JDArea { id: self.id, name: self.name.clone(), description: self.description.clone() }
    }
}

impl Clone for JDCategory {
    fn clone(&self) -> (r: Self)
        ensures
            r@ == self@,
    {
        JDCategory {
            id: self.id,
            area_id: self.area_id,
            name: self.name.clone(),
            description: self.description.clone(),
        }
    }
}

impl Clone for Project {
    fn clone(&self) -> (r: Self)
        ensures
            r@ == self@,
    {
        Project {
            id: self.id,
            title: self.title.clone(),
            slug: self.slug.clone(),
            summary: self.summary.clone(),
            content: self.content.clone(),
            tech_stack: copy_strings(&self.tech_stack),
            repo_url: copy_optional_string(&self.repo_url),
            live_url: copy_optional_string(&self.live_url),
            thumbnail: copy_optional_string(&self.thumbnail),
            created_at: self.created_at,
            updated_at: self.updated_at,
            jd_category: match &self.jd_category {
                Some(c) => Some(c.clone()),
                None => None,
            },
            original_path: self.original_path.clone(),
            jd_identifier: self.jd_identifier.clone(),
            related_articles: copy_strings(&self.related_articles),
        }
    }
}

/// The taxonomy that stands in where scanning finds no area.
pub open spec fn default_areas() -> Seq<JDAreaView> {
    seq![
        JDAreaView {
            id: 10,
            name: "Technology & Development"@,
            description: "Programming languages, frameworks, and technical concepts"@,
        },
        JDAreaView {
            id: 20,
            name: "Digital Infrastructure"@,
            description: "Cloud services, DevOps, and system architecture"@,
        },
        JDAreaView {
            id: 30,
            name: "Government & Policy"@,
            description: "Government technology initiatives and digital policy"@,
        },
        JDAreaView {
            id: 40,
            name: "Data & Analytics"@,
            description: "Data science, machine learning, and analytics"@,
        },
        JDAreaView {
            id: 50,
            name: "Industry Insights"@,
            description: "Trends, case studies, and industry analysis"@,
        },
    ]
}

/// The categories that stand in where scanning finds none.
pub open spec fn default_categories() -> Seq<JDCategoryView> {
    seq![
        JDCategoryView {
            id: 11,
            area_id: 10,
            name: "Programming Languages"@,
            description: "Rust, Go, TypeScript, and other language-specific topics"@,
        },
        JDCategoryView {
            id: 12,
            area_id: 10,
            name: "Web Frameworks"@,
            description: "Leptos, React, Vue, and other web frameworks"@,
        },
        JDCategoryView {
            id: 13,
            area_id: 10,
            name: "Software Architecture"@,
            description: "Design patterns, best practices, and architectural approaches"@,
        },
    ]
}

fn area(id: u8, name: &str, description: &str) -> (r: JDArea)
    ensures
        r@ == (JDAreaView { id, name: name@, description: description@ }),
{
    JDArea { id, name: name.to_owned(), description: description.to_owned() }
}

fn category(id: u8, area_id: u8, name: &str, description: &str) -> (r: JDCategory)
    ensures
        r@ == (JDCategoryView { id, area_id, name: name@, description: description@ }),
{
    JDCategory { id, area_id, name: name.to_owned(), description: description.to_owned() }
}

/// The areas to serve: those that scanning found, or the default ones where
/// it found none.
pub fn get_all_areas(scanned: Vec<JDArea>) -> (r: Vec<JDArea>)
    ensures
        r.deep_view() == if scanned.len() == 0 {
            default_areas()
        } else {
            scanned.deep_view()
        },
{
    if scanned.len() == 0 {
        let mut out: Vec<JDArea> = Vec::new();
        out.push(
            area(
                10,
                "Technology & Development",
                "Programming languages, frameworks, and technical concepts",
            ),
        );
        out.push(
            area(20, "Digital Infrastructure", "Cloud services, DevOps, and system architecture"),
        );
        out.push(
            area(
                30,
                "Government & Policy",
                "Government technology initiatives and digital policy",
            ),
        );
        out.push(area(40, "Data & Analytics", "Data science, machine learning, and analytics"));
        out.push(area(50, "Industry Insights", "Trends, case studies, and industry analysis"));
        out
    } else {
        scanned
    }
}

/// The categories to serve: those that scanning found, or the default ones
/// where it found none.
pub fn get_all_categories(scanned: Vec<JDCategory>) -> (r: Vec<JDCategory>)
    ensures
        r.deep_view() == if scanned.len() == 0 {
            default_categories()
        } else {
            scanned.deep_view()
        },
{
    if scanned.len() == 0 {
        let mut out: Vec<JDCategory> = Vec::new();
        out.push(
            category(
                11,
                10,
                "Programming Languages",
                "Rust, Go, TypeScript, and other language-specific topics",
            ),
        );
        out.push(
            category(12, 10, "Web Frameworks", "Leptos, React, Vue, and other web frameworks"),
        );
        out.push(
            category(
                13,
                10,
                "Software Architecture",
                "Design patterns, best practices, and architectural approaches",
            ),
        );
        out
    } else {
        scanned
    }
}

/// The position of the first category with the given id.
pub open spec fn category_position(categories: Seq<JDCategoryView>, id: u8) -> Option<int>
    decreases categories.len(),
{
    if categories.len() == 0 {
        None
    } else if categories[0].id == id {
        Some(0)
    } else {
        match category_position(categories.drop_first(), id) {
            Some(i) => Some(i + 1),
            None => None,
        }
    }
}

/// The first category with the given id.
pub open spec fn category_with_id(categories: Seq<JDCategoryView>, id: u8) -> Option<
    JDCategoryView,
> {
    match category_position(categories, id) {
        Some(i) => Some(categories[i]),
        None => None,
    }
}

/// `category_position` names the least position whose category has the id,
/// and is `None` exactly when no category has it.
pub proof fn lemma_category_position(categories: Seq<JDCategoryView>, id: u8)
    ensures
        match category_position(categories, id) {
            Some(i) => {
                &&& 0 <= i < categories.len()
                &&& categories[i].id == id
                &&& forall|j: int| 0 <= j < i ==> categories[j].id != id
            },
            None => forall|j: int| 0 <= j < categories.len() ==> categories[j].id != id,
        },
    decreases categories.len(),
{
    if categories.len() == 0 {
    } else if categories[0].id == id {
    } else {
        let rest = categories.drop_first();
        lemma_category_position(rest, id);
        assert forall|j: int| 1 <= j < categories.len() implies categories[j] == rest[j - 1] by {}
    }
}

/// The first category with the given id, if there is one.
pub fn find_category_by_id(categories: &[JDCategory], id: u8) -> (r: Option<JDCategory>)
    ensures
        r.deep_view() == category_with_id(categories.deep_view(), id),
{
    let ghost all = categories.deep_view();
    proof {
        lemma_category_position(all, id);
    }
    let mut i: usize = 0;
    while i < categories.len()
        invariant
            i <= categories.len(),
            all == categories.deep_view(),
            forall|j: int| 0 <= j < i ==> all[j].id != id,
            match category_position(all, id) {
                Some(k) => {
                    &&& 0 <= k < all.len()
                    &&& all[k].id == id
                    &&& forall|j: int| 0 <= j < k ==> all[j].id != id
                },
                None => forall|j: int| 0 <= j < all.len() ==> all[j].id != id,
            },
        decreases categories.len() - i,
    {
        assert(all[i as int] == categories@[i as int]@);
        if categories[i].id == id {
            return Some(categories[i].clone());
        }
        i += 1;
    }
    None
}

/// The first area with the given id.
pub open spec fn area_with_id(areas: Seq<JDAreaView>, id: u8) -> Option<JDAreaView>
    decreases areas.len(),
{
    if areas.len() == 0 {
        None
    } else if areas[0].id == id {
        Some(areas[0])
    } else {
        area_with_id(areas.drop_first(), id)
    }
}

/// The first area with the given id, if there is one.
pub fn find_area_by_id(areas: &[JDArea], id: u8) -> (r: Option<JDArea>)
    ensures
        r.deep_view() == area_with_id(areas.deep_view(), id),
{
    let ghost all = areas.deep_view();
    let mut i: usize = 0;
    assert(all.skip(0) == all);
    while i < areas.len()
        invariant
            i <= areas.len(),
            all == areas.deep_view(),
            area_with_id(all, id) == area_with_id(all.skip(i as int), id),
        decreases areas.len() - i,
    {
        assert(all.skip(i as int).drop_first() == all.skip(i + 1));
        if areas[i].id == id {
            return Some(areas[i].clone());
        }
        i += 1;
    }
    None
}

/// The name shown for an area that the taxonomy does not have.
pub const UNKNOWN_AREA: &'static str = "Unknown Area";

/// The name under which a category's area is shown: the name of the area
/// that owns it, or a placeholder where no area has that id.
pub open spec fn area_name_of(areas: Seq<JDAreaView>, category: JDCategoryView) -> Seq<char> {
    match area_with_id(areas, category.area_id) {
        Some(area) => area.name,
        None => UNKNOWN_AREA@,
    }
}

/// The name of the area that owns `category`; "Unknown Area" for a category
/// whose area is not in `areas`.
pub fn area_name_for(areas: &[JDArea], category: &JDCategory) -> (r: String)
    ensures
        r@ == area_name_of(areas.deep_view(), category@),
{
    match find_area_by_id(areas, category.area_id) {
        Some(area) => area.name,
        None => UNKNOWN_AREA.to_owned(),
    }
}

/// Among well-formed categories, the one found under an id carries that id
/// and belongs to the area of the id's decade.
pub proof fn lemma_found_category_belongs_to_decade(categories: Seq<JDCategoryView>, id: u8)
    requires
        forall|i: int| 0 <= i < categories.len() ==> (#[trigger] categories[i]).well_formed(),
    ensures
        match category_with_id(categories, id) {
            Some(c) => c.id == id && c.area_id == (id / 10) * 10,
            None => forall|i: int| 0 <= i < categories.len() ==> categories[i].id != id,
        },
{
    lemma_category_position(categories, id);
}

/// The default taxonomy is well formed, and each of its categories belongs
/// to one of its areas.
pub proof fn lemma_defaults_are_well_formed()
    ensures
        forall|i: int|
            0 <= i < default_areas().len() ==> (#[trigger] default_areas()[i]).well_formed(),
        forall|i: int|
            0 <= i < default_categories().len() ==> {
                &&& (#[trigger] default_categories()[i]).well_formed()
                &&& area_with_id(default_areas(), default_categories()[i].area_id) is Some
            },
{
    reveal_with_fuel(area_with_id, 2);
}

impl Record for JDArea {
    fn duplicate(&self) -> (r: Self) {
        self.clone()
    }
}

impl Record for JDCategory {
    fn duplicate(&self) -> (r: Self) {
        self.clone()
    }
}

impl Record for Project {
    fn duplicate(&self) -> (r: Self) {
        self.clone()
    }
}

} // verus!
