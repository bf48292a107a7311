//! The taxonomy cache: the result of one scan, kept until a caller asks for
//! a new one. The cache decides when a scan is needed; reading the tree
//! from disk is its owner's part.

use crate::model::{JDArea, JDAreaView, JDCategory, JDCategoryView};
use crate::order::copy_all;
use crate::scanner::{scan_content_structure, scanned};
use crate::tree::FsNode;
use vstd::prelude::*;

verus! {

/// The taxonomy found by the last scan, if there was one since the cache
/// was made or last cleared.
pub struct StructureCache {
    filled: bool,
    areas: Vec<JDArea>,
    categories: Vec<JDCategory>,
}

/// What a cache holds: nothing, or the areas and the categories of a scan.
pub type Structure = (Seq<JDAreaView>, Seq<JDCategoryView>);

/// What a cache that holds `held` answers to a request, and what it holds
/// afterwards: a forced request empties it.
pub open spec fn after_request(held: Option<Structure>, force_refresh: bool) -> Option<Structure> {
    if force_refresh {
        None
    } else {
        held
    }
}

impl View for StructureCache {
    type V = Option<Structure>;

    closed spec fn view(&self) -> Option<Structure> {
        if self.filled {
            Some((self.areas.deep_view(), self.categories.deep_view()))
        } else {
            None
        }
    }
}

impl StructureCache {
    /// A cache that holds nothing.
    pub fn new() -> (r: Self)
        ensures
            r@ is None,
    {
        StructureCache { filled: false, areas: Vec::new(), categories: Vec::new() }
    }

    /// The cached taxonomy, or `None` where a scan is needed first: the
    /// cache holds nothing yet, or `force_refresh` is set, which empties it.
    /// Without `force_refresh` the cache is left as it was, so that the
    /// answer stays the same until the next scan.
    pub fn get_cached_structure(&mut self, force_refresh: bool) -> (r: Option<
        (Vec<JDArea>, Vec<JDCategory>),
    >)
        ensures
            final(self)@ == after_request(old(self)@, force_refresh),
            r.deep_view() == final(self)@,
    {
        if force_refresh {
            self.filled = false;
            self.areas = Vec::new();
            self.categories = Vec::new();
        }
        if self.filled {
            Some((copy_all(self.areas.as_slice()), copy_all(self.categories.as_slice())))
        } else {
            None
        }
    }

    /// Scans the tree and keeps what the scan finds, in place of what the
    /// cache held.
    pub fn refresh_cache(&mut self, root: &FsNode)
        ensures
            final(self)@ == Some(scanned(*root)),
    {
        let (areas, categories) = scan_content_structure(root);
        self.areas = areas;
        self.categories = categories;
        self.filled = true;
    }

    /// The cached areas, or `None` where a scan is needed first.
    pub fn get_cached_areas(&self) -> (r: Option<Vec<JDArea>>)
        ensures
            r.deep_view() == match self@ {
                Some(held) => Some(held.0),
                None => None,
            },
    {
        if self.filled {
            Some(copy_all(self.areas.as_slice()))
        } else {
            None
        }
    }

    /// The cached categories, or `None` where a scan is needed first.
    pub fn get_cached_categories(&self) -> (r: Option<Vec<JDCategory>>)
        ensures
            r.deep_view() == match self@ {
                Some(held) => Some(held.1),
                None => None,
            },
    {
        if self.filled {
            Some(copy_all(self.categories.as_slice()))
        } else {
            None
        }
    }
}

/// Requests that are not forced leave the cache as it is: after a scan, any
/// number of them get what the scan found, each the same as the one before.
pub proof fn lemma_requests_agree(root: FsNode)
    ensures
        after_request(Some(scanned(root)), false) == Some(scanned(root)),
        after_request(after_request(Some(scanned(root)), false), false) == after_request(
            Some(scanned(root)),
            false,
        ),
{
}

} // verus!
