//! The category of a document, settled from what its metadata says, what
//! its path gives, and the taxonomy.

use crate::model::{
    category_with_id, find_category_by_id, lemma_category_position, JDCategory, JDCategoryView,
};
use vstd::prelude::*;

verus! {

/// The category of lowest id among those of the given area; the earlier one
/// where two share that id.
pub open spec fn lowest_in_area(categories: Seq<JDCategoryView>, area: u8) -> Option<
    JDCategoryView,
>
    decreases categories.len(),
{
    if categories.len() == 0 {
        None
    } else {
        let before = lowest_in_area(categories.drop_last(), area);
        let c = categories.last();
        if c.area_id == area {
            match before {
                Some(best) => if c.id < best.id {
                    Some(c)
                } else {
                    Some(best)
                },
                None => Some(c),
            }
        } else {
            before
        }
    }
}

/// `lowest_in_area` names a category of the area, and none of the area has
/// a lower id; it is `None` exactly when the area has no category.
pub proof fn lemma_lowest_in_area(categories: Seq<JDCategoryView>, area: u8)
    ensures
        match lowest_in_area(categories, area) {
            Some(best) => {
                &&& categories.contains(best)
                &&& best.area_id == area
                &&& forall|i: int|
                    0 <= i < categories.len() && (#[trigger] categories[i]).area_id == area
                        ==> best.id <= categories[i].id
            },
            None => forall|i: int|
                0 <= i < categories.len() ==> (#[trigger] categories[i]).area_id != area,
        },
    decreases categories.len(),
{
    if categories.len() > 0 {
        let front = categories.drop_last();
        lemma_lowest_in_area(front, area);
        assert forall|i: int| 0 <= i < front.len() implies front[i] == categories[i] by {}
        match lowest_in_area(categories, area) {
            Some(best) => {
                if best == categories.last() {
                    assert(categories[categories.len() - 1] == best);
                } else {
                    let k = choose|k: int| 0 <= k < front.len() && front[k] == best;
                    assert(categories[k] == best);
                }
                assert forall|i: int|
                    0 <= i < categories.len() && (#[trigger] categories[i]).area_id
                        == area implies best.id <= categories[i].id by {
                    if i < front.len() {
                        assert(front[i].area_id == area);
                    }
                }
            },
            None => {
                assert forall|i: int| 0 <= i < categories.len() implies (
                #[trigger] categories[i]).area_id != area by {
                    if i < front.len() {
                        assert(front[i].area_id != area);
                    }
                }
            },
        }
    }
}

/// The category of a document. In order: the category that its metadata
/// names, if the taxonomy has it; the category that its path gives, if the
/// taxonomy has it; the lowest category of its area, the area being the one
/// that the metadata names or else the one that the path gives; none.
pub open spec fn resolved_category(
    explicit_category: Option<u8>,
    path_category: Option<u8>,
    explicit_area: Option<u8>,
    path_area: Option<u8>,
    categories: Seq<JDCategoryView>,
) -> Option<JDCategoryView> {
    let first = match explicit_category {
        Some(id) => category_with_id(categories, id),
        None => None,
    };
    let second = match path_category {
        Some(id) => category_with_id(categories, id),
        None => None,
    };
    let area = match explicit_area {
        Some(a) => Some(a),
        None => path_area,
    };
    if first is Some {
        first
    } else if second is Some {
        second
    } else {
        match area {
            Some(a) => lowest_in_area(categories, a),
            None => None,
        }
    }
}

/// The category of lowest id among those of the given area.
pub fn find_lowest_in_area(categories: &[JDCategory], area: u8) -> (r: Option<JDCategory>)
    ensures
        r.deep_view() == lowest_in_area(categories.deep_view(), area),
{
    let ghost all = categories.deep_view();
    let mut best: Option<usize> = None;
    let mut i: usize = 0;
    while i < categories.len()
        invariant
            i <= categories.len(),
            all == categories.deep_view(),
            match best {
                Some(k) => k < i && lowest_in_area(all.take(i as int), area) == Some(all[k as int]),
                None => lowest_in_area(all.take(i as int), area) is None,
            },
        decreases categories.len() - i,
    {
        assert(all.take(i + 1).drop_last() == all.take(i as int));
        if categories[i].area_id == area {
            match best {
                Some(k) => {
                    if categories[i].id < categories[k].id {
                        best = Some(i);
                    }
                },
                None => {
                    best = Some(i);
                },
            }
        }
        i += 1;
    }
    assert(all.take(categories.len() as int) == all);
    match best {
        Some(k) => {
            Some(categories[k].clone())
        },
        None => None,
    }
}

/// Settles the category of a document from the ids that its metadata names,
/// the ids that its path gives, and the taxonomy.
pub fn resolve_category(
    explicit_category: Option<u8>,
    path_category: Option<u8>,
    explicit_area: Option<u8>,
    path_area: Option<u8>,
    categories: &[JDCategory],
) -> (r: Option<JDCategory>)
    ensures
        r.deep_view() == resolved_category(
            explicit_category,
            path_category,
            explicit_area,
            path_area,
            categories.deep_view(),
        ),
{
    let first = match explicit_category {
        Some(id) => find_category_by_id(categories, id),
        None => None,
    };
    if first.is_some() {
        return first;
    }
    let second = match path_category {
        Some(id) => find_category_by_id(categories, id),
        None => None,
    };
    if second.is_some() {
        return second;
    }
    let area = match explicit_area {
        Some(a) => Some(a),
        None => path_area,
    };
    match area {
        Some(a) => find_lowest_in_area(categories, a),
        None => None,
    }
}

/// A document is only ever given a category of the taxonomy. Where its
/// metadata names a category that the taxonomy has, it is given that one
/// and no other.
pub proof fn lemma_resolved_category_is_of_taxonomy(
    explicit_category: Option<u8>,
    path_category: Option<u8>,
    explicit_area: Option<u8>,
    path_area: Option<u8>,
    categories: Seq<JDCategoryView>,
)
    ensures
        match resolved_category(
            explicit_category,
            path_category,
            explicit_area,
            path_area,
            categories,
        ) {
            Some(found) => categories.contains(found),
            None => true,
        },
        explicit_category is Some && category_with_id(categories, explicit_category.unwrap())
            is Some ==> resolved_category(
            explicit_category,
            path_category,
            explicit_area,
            path_area,
            categories,
        ) == category_with_id(categories, explicit_category.unwrap()),
{
    if explicit_category is Some {
        lemma_category_position(categories, explicit_category.unwrap());
    }
    if path_category is Some {
        lemma_category_position(categories, path_category.unwrap());
    }
    let area = match explicit_area {
        Some(a) => Some(a),
        None => path_area,
    };
    if area is Some {
        lemma_lowest_in_area(categories, area.unwrap());
    }
}

} // verus!
