//! The content pipeline of a blog that files its articles by Johnny Decimal
//! numbers: the taxonomy that the names of the content directories spell
//! out, the documents with their front matter, the category of each
//! document, and the documents related to one another.
//!
//! The library works on plain values. Whoever uses it reads the content
//! directory into a [`tree::FsNode`] and tells the time; everything after
//! that is computed here, and proved to be what the contracts say.

pub mod cache;
pub mod format;
pub mod front_matter;
pub mod jd_path;
pub mod listing;
pub mod loader;
pub mod markdown;
pub mod model;
pub mod order;
pub mod related;
pub mod resolver;
pub mod scanner;
pub mod slug;
pub mod text;
pub mod tree;

pub use cache::StructureCache;
pub use format::{format_date, parse_date_string};
pub use front_matter::{extract_title_and_summary, parse_front_matter, FrontMatter};
pub use jd_path::{extract_jd_info_from_path, SourcePath};
pub use loader::{load_markdown_files, load_projects, markdown_to_projects};
pub use markdown::markdown_to_html;
pub use model::{
    find_category_by_id, get_all_areas, get_all_categories, JDArea, JDCategory, Project,
};
pub use related::{find_related, find_similar_projects};
pub use resolver::resolve_category;
pub use scanner::scan_content_structure;
pub use slug::slug_from_title;
pub use tree::FsNode;
