//! Related content: the documents to show beside a document. Those that
//! its author linked come first, then those that share most tags with it,
//! then others of its category.

use crate::model::{Project, ProjectView};
use crate::order::{arrange, keys_of, lemma_stable_order, sorted_by_key, stable_order};
use vstd::prelude::*;

verus! {

/// The first document of the corpus that bears the identifier.
pub open spec fn first_with_identifier(corpus: Seq<ProjectView>, identifier: Seq<char>) -> Option<
    ProjectView,
>
    decreases corpus.len(),
{
    if corpus.len() == 0 {
        None
    } else if corpus[0].jd_identifier == identifier {
        Some(corpus[0])
    } else {
        first_with_identifier(corpus.drop_first(), identifier)
    }
}

/// The documents that the identifiers name, in the order of the
/// identifiers; an identifier that no document bears gives none.
pub open spec fn declared_links(identifiers: Seq<Seq<char>>, corpus: Seq<ProjectView>) -> Seq<
    ProjectView,
>
    decreases identifiers.len(),
{
    if identifiers.len() == 0 {
        Seq::empty()
    } else {
        match first_with_identifier(corpus, identifiers.last()) {
            Some(p) => declared_links(identifiers.drop_last(), corpus).push(p),
            None => declared_links(identifiers.drop_last(), corpus),
        }
    }
}

/// How many of `tags`, counted as often as they are listed, occur among
/// `others`.
pub open spec fn common_tags(tags: Seq<Seq<char>>, others: Seq<Seq<char>>) -> nat
    decreases tags.len(),
{
    if tags.len() == 0 {
        0
    } else if others.contains(tags.last()) {
        common_tags(tags.drop_last(), others) + 1
    } else {
        common_tags(tags.drop_last(), others)
    }
}

/// No more tags are shared than are listed.
pub proof fn lemma_common_tags_bound(tags: Seq<Seq<char>>, others: Seq<Seq<char>>)
    ensures
        common_tags(tags, others) <= tags.len(),
    decreases tags.len(),
{
    if tags.len() > 0 {
        lemma_common_tags_bound(tags.drop_last(), others);
    }
}

/// Whether one of the documents has the given id.
pub open spec fn has_id(documents: Seq<ProjectView>, id: Option<i64>) -> bool {
    exists|i: int| 0 <= i < documents.len() && (#[trigger] documents[i]).id == id
}

/// The documents that are not among `collected`, by id.
pub open spec fn not_collected(collected: Seq<ProjectView>) -> spec_fn(ProjectView) -> bool {
    |p: ProjectView| !has_id(collected, p.id)
}

/// The documents that share a tag with `target` and are not `target`
/// itself, by id.
pub open spec fn is_similar_to(target: ProjectView) -> spec_fn(ProjectView) -> bool {
    |p: ProjectView| p.id != target.id && common_tags(target.tech_stack, p.tech_stack) > 0
}

/// The documents of the category of `target` that are neither `target`
/// itself nor among `collected`, by id. None where `target` has no
/// category.
pub open spec fn fills_category(target: ProjectView, collected: Seq<ProjectView>) -> spec_fn(
    ProjectView,
) -> bool {
    |p: ProjectView|
        p.id != target.id && !has_id(collected, p.id) && match (target.jd_category, p.jd_category) {
            (Some(wanted), Some(found)) => found.id == wanted.id,
            _ => false,
        }
}

/// For each candidate, how many of the target's tags it lacks.
pub open spec fn missing_tags(target: ProjectView, candidates: Seq<ProjectView>) -> Seq<int> {
    candidates.map_values(
        |p: ProjectView| target.tech_stack.len() - common_tags(target.tech_stack, p.tech_stack),
    )
}

/// The first `limit` items, or all of them where there are fewer.
pub open spec fn at_most<T>(items: Seq<T>, limit: int) -> Seq<T> {
    if limit <= 0 {
        Seq::empty()
    } else if limit < items.len() {
        items.take(limit)
    } else {
        items
    }
}

/// The documents most similar to `target`: those of the corpus that share
/// a tag with it, `target` itself left out, the one that shares most tags
/// first, documents that share equally many in the order of the corpus; at
/// most `limit` of them.
pub open spec fn similar_projects(target: ProjectView, corpus: Seq<ProjectView>, limit: int) -> Seq<
    ProjectView,
> {
    let candidates = corpus.filter(is_similar_to(target));
    at_most(sorted_by_key(candidates, missing_tags(target, candidates)), limit)
}

/// The documents related to `target`, at most `n`: those that it links by
/// identifier, in the order of the links; then, from the corpus without
/// them, the most similar ones; then, in the order of the corpus, documents
/// of the same category that are not yet listed.
pub open spec fn related_to(target: ProjectView, corpus: Seq<ProjectView>, n: int) -> Seq<
    ProjectView,
> {
    let declared = at_most(declared_links(target.related_articles, corpus), n);
    let similar = similar_projects(
        target,
        corpus.filter(not_collected(declared)),
        n - declared.len(),
    );
    let listed = declared + similar;
    let fill = at_most(corpus.filter(fills_category(target, listed)), n - listed.len());
    listed + fill
}

fn same_id(a: Option<i64>, b: Option<i64>) -> (r: bool)
    ensures
        r == (a == b),
{
    match (a, b) {
        (Some(x), Some(y)) => x == y,
        (None, None) => true,
        _ => false,
    }
}

fn contains_id(documents: &Vec<Project>, id: Option<i64>) -> (r: bool)
    ensures
        r == has_id(documents.deep_view(), id),
{
    let ghost views = documents.deep_view();
    let mut i: usize = 0;
    while i < documents.len()
        invariant
            i <= documents.len(),
            views == documents.deep_view(),
            forall|j: int| 0 <= j < i ==> (#[trigger] views[j]).id != id,
        decreases documents.len() - i,
    {
        assert(views[i as int] == documents@[i as int]@);
        if same_id(documents[i].id, id) {
            return true;
        }
        i += 1;
    }
    false
}

fn find_by_identifier(corpus: &[Project], identifier: &String) -> (r: Option<usize>)
    ensures
        match r {
            Some(i) => i < corpus.len() && first_with_identifier(
                corpus.deep_view(),
                identifier@,
            ) == Some(corpus@[i as int]@),
            None => first_with_identifier(corpus.deep_view(), identifier@) is None,
        },
{
    let ghost views = corpus.deep_view();
    let mut i: usize = 0;
    assert(views.skip(0) == views);
    while i < corpus.len()
        invariant
            i <= corpus.len(),
            views == corpus.deep_view(),
            first_with_identifier(views, identifier@) == first_with_identifier(
                views.skip(i as int),
                identifier@,
            ),
        decreases corpus.len() - i,
    {
        assert(views.skip(i as int).drop_first() == views.skip(i + 1));
        if corpus[i].jd_identifier == *identifier {
            return Some(i);
        }
        i += 1;
    }
    None
}

/// The documents that the identifiers name, in the order of the
/// identifiers.
pub fn resolve_links(identifiers: &Vec<String>, corpus: &[Project]) -> (r: Vec<Project>)
    ensures
        r.deep_view() == declared_links(identifiers.deep_view(), corpus.deep_view()),
{
    let ghost names = identifiers.deep_view();
    let mut out: Vec<Project> = Vec::new();
    let mut i: usize = 0;
    while i < identifiers.len()
        invariant
            i <= identifiers.len(),
            names == identifiers.deep_view(),
            out.deep_view() == declared_links(names.take(i as int), corpus.deep_view()),
        decreases identifiers.len() - i,
    {
        assert(names.take(i + 1).drop_last() == names.take(i as int));
        match find_by_identifier(corpus, &identifiers[i]) {
            Some(at) => {
                out.push(corpus[at].clone());
            },
            None => {},
        }
        i += 1;
    }
    assert(names.take(identifiers.len() as int) == names);
    out
}

fn tags_contain(tags: &Vec<String>, tag: &String) -> (r: bool)
    ensures
        r == tags.deep_view().contains(tag@),
{
    let ghost views = tags.deep_view();
    let mut i: usize = 0;
    while i < tags.len()
        invariant
            i <= tags.len(),
            views == tags.deep_view(),
            forall|j: int| 0 <= j < i ==> views[j] != tag@,
        decreases tags.len() - i,
    {
        assert(views[i as int] == tags@[i as int]@);
        if tags[i] == *tag {
            return true;
        }
        i += 1;
    }
    false
}

/// How many of `tags` occur among `others`.
pub fn count_common_tags(tags: &Vec<String>, others: &Vec<String>) -> (r: usize)
    ensures
        r == common_tags(tags.deep_view(), others.deep_view()),
        r <= tags.len(),
{
    let ghost views = tags.deep_view();
    let mut count: usize = 0;
    let mut i: usize = 0;
    while i < tags.len()
        invariant
            i <= tags.len(),
            views == tags.deep_view(),
            count == common_tags(views.take(i as int), others.deep_view()),
            count <= i,
        decreases tags.len() - i,
    {
        assert(views.take(i + 1).drop_last() == views.take(i as int));
        if tags_contain(others, &tags[i]) {
            count += 1;
        }
        i += 1;
    }
    assert(views.take(tags.len() as int) == views);
    count
}

/// The first `limit` documents, or all of them where there are fewer.
fn keep_first(items: Vec<Project>, limit: usize) -> (r: Vec<Project>)
    ensures
        r.deep_view() == at_most(items.deep_view(), limit as int),
        r.len() <= limit,
{
    let mut out = items;
    if limit < out.len() {
        out.truncate(limit);
    }
    out
}

/// The documents of the corpus that share a tag with `project`, the most
/// similar first; at most `limit` of them. `project` itself, by id, is not
/// among them.
pub fn find_similar_projects(project: &Project, all_projects: &[Project], limit: usize) -> (r: Vec<
    Project,
>)
    ensures
        r.deep_view() == similar_projects(project@, all_projects.deep_view(), limit as int),
        r.len() <= limit,
{
    let ghost corpus = all_projects.deep_view();
    let ghost wanted = is_similar_to(project@);
    let mut candidates: Vec<Project> = Vec::new();
    let mut keys: Vec<u64> = Vec::new();
    let mut i: usize = 0;
    proof {
        reveal(Seq::filter);
    }
    while i < all_projects.len()
        invariant
            i <= all_projects.len(),
            corpus == all_projects.deep_view(),
            wanted == is_similar_to(project@),
            candidates.deep_view() == corpus.take(i as int).filter(wanted),
            keys.len() == candidates.len(),
            forall|j: int|
                0 <= j < keys.len() ==> keys@[j] == project@.tech_stack.len() - common_tags(
                    project@.tech_stack,
                    (#[trigger] candidates@[j])@.tech_stack,
                ),
        decreases all_projects.len() - i,
    {
        assert(corpus.take(i + 1) =~= corpus.take(i as int).push(corpus[i as int]));
        proof {
            corpus.take(i as int).lemma_filter_push(corpus[i as int], wanted);
        }
        let other = &all_projects[i];
        if !same_id(other.id, project.id) {
            let score = count_common_tags(&project.tech_stack, &other.tech_stack);
            if score > 0 {
                candidates.push(other.clone());
                keys.push((project.tech_stack.len() - score) as u64);
            }
        }
        i += 1;
    }
    assert(corpus.take(all_projects.len() as int) == corpus);
    let ghost found = candidates.deep_view();
    assert(keys_of(keys@) =~= missing_tags(project@, found));
    let out = arrange(candidates.as_slice(), &keys);
    keep_first(out, limit)
}

/// The documents of the corpus that are not among `collected`, by id.
fn without_collected(corpus: &[Project], collected: &Vec<Project>) -> (r: Vec<Project>)
    ensures
        r.deep_view() == corpus.deep_view().filter(not_collected(collected.deep_view())),
{
    let ghost views = corpus.deep_view();
    let ghost wanted = not_collected(collected.deep_view());
    let mut out: Vec<Project> = Vec::new();
    let mut i: usize = 0;
    proof {
        reveal(Seq::filter);
    }
    while i < corpus.len()
        invariant
            i <= corpus.len(),
            views == corpus.deep_view(),
            wanted == not_collected(collected.deep_view()),
            out.deep_view() == views.take(i as int).filter(wanted),
        decreases corpus.len() - i,
    {
        assert(views.take(i + 1) =~= views.take(i as int).push(views[i as int]));
        proof {
            views.take(i as int).lemma_filter_push(views[i as int], wanted);
        }
        if !contains_id(collected, corpus[i].id) {
            out.push(corpus[i].clone());
        }
        i += 1;
    }
    assert(views.take(corpus.len() as int) == views);
    out
}

/// The documents of the category of `target` that are neither `target`
/// nor among `collected`, in the order of the corpus.
fn category_fill(target: &Project, corpus: &[Project], collected: &Vec<Project>) -> (r: Vec<
    Project,
>)
    ensures
        r.deep_view() == corpus.deep_view().filter(
            fills_category(target@, collected.deep_view()),
        ),
{
    let ghost views = corpus.deep_view();
    let ghost wanted = fills_category(target@, collected.deep_view());
    let mut out: Vec<Project> = Vec::new();
    let mut i: usize = 0;
    proof {
        reveal(Seq::filter);
    }
    while i < corpus.len()
        invariant
            i <= corpus.len(),
            views == corpus.deep_view(),
            wanted == fills_category(target@, collected.deep_view()),
            out.deep_view() == views.take(i as int).filter(wanted),
        decreases corpus.len() - i,
    {
        assert(views.take(i + 1) =~= views.take(i as int).push(views[i as int]));
        proof {
            views.take(i as int).lemma_filter_push(views[i as int], wanted);
        }
        let other = &corpus[i];
        let same_category = match (&target.jd_category, &other.jd_category) {
            (Some(wanted_category), Some(found)) => found.id == wanted_category.id,
            _ => false,
        };
        if same_category && !same_id(other.id, target.id) && !contains_id(collected, other.id) {
            out.push(other.clone());
        }
        i += 1;
    }
    assert(views.take(corpus.len() as int) == views);
    out
}

/// Appends `more` to `out`.
fn append_projects(out: &mut Vec<Project>, more: Vec<Project>)
    ensures
        final(out).deep_view() == old(out).deep_view() + more.deep_view(),
        final(out).len() == old(out).len() + more.len(),
{
    let mut rest = more;
    out.append(&mut rest);
}

/// The documents to show beside `target`, at most `n`. First those that
/// `target` links by identifier, in the order of its links; a link that no
/// document of the corpus bears is passed over. Then, while there are fewer
/// than `n`, the documents most similar to `target` among those not yet
/// listed. Then, while there are still fewer, documents of the category of
/// `target` that are not yet listed, in the order of the corpus. The result
/// may be empty.
pub fn find_related(target: &Project, corpus: &[Project], n: usize) -> (r: Vec<Project>)
    ensures
        r.deep_view() == related_to(target@, corpus.deep_view(), n as int),
        r.len() <= n,
{
    let mut listed = keep_first(resolve_links(&target.related_articles, corpus), n);
    if listed.len() < n {
        let remaining = without_collected(corpus, &listed);
        let others = remaining.as_slice();
        let similar = find_similar_projects(target, others, n - listed.len());
        append_projects(&mut listed, similar);
    }
    if listed.len() < n {
        let fill = keep_first(category_fill(target, corpus, &listed), n - listed.len());
        append_projects(&mut listed, fill);
    }
    listed
}

/// The first link that names a document of the corpus puts that document
/// first among the declared links.
pub proof fn lemma_first_declared_link(identifiers: Seq<Seq<char>>, corpus: Seq<ProjectView>)
    requires
        identifiers.len() >= 1,
        first_with_identifier(corpus, identifiers[0]) is Some,
    ensures
        declared_links(identifiers, corpus).len() >= 1,
        Some(declared_links(identifiers, corpus)[0]) == first_with_identifier(
            corpus,
            identifiers[0],
        ),
    decreases identifiers.len(),
{
    if identifiers.len() > 1 {
        let front = identifiers.drop_last();
        assert(front[0] == identifiers[0]);
        lemma_first_declared_link(front, corpus);
    } else {
        assert(identifiers.last() == identifiers[0]);
        assert(declared_links(identifiers.drop_last(), corpus).len() == 0);
    }
}

/// The declared links open the list of related documents, in their order.
pub proof fn lemma_declared_links_come_first(
    target: ProjectView,
    corpus: Seq<ProjectView>,
    n: int,
)
    ensures
        at_most(declared_links(target.related_articles, corpus), n).is_prefix_of(
            related_to(target, corpus, n),
        ),
{
    let declared = at_most(declared_links(target.related_articles, corpus), n);
    let all = related_to(target, corpus, n);
    assert(all.subrange(0, declared.len() as int) =~= declared);
}

/// Where the first link of a document names a document of the corpus, and
/// at least one related document is asked for, that document is the first
/// one returned, before any that is merely similar.
pub proof fn lemma_declared_link_is_first(target: ProjectView, corpus: Seq<ProjectView>, n: int)
    requires
        n >= 1,
        target.related_articles.len() >= 1,
        first_with_identifier(corpus, target.related_articles[0]) is Some,
    ensures
        related_to(target, corpus, n).len() >= 1,
        Some(related_to(target, corpus, n)[0]) == first_with_identifier(
            corpus,
            target.related_articles[0],
        ),
{
    lemma_first_declared_link(target.related_articles, corpus);
    lemma_declared_links_come_first(target, corpus, n);
    let declared = at_most(declared_links(target.related_articles, corpus), n);
    assert(declared[0] == declared_links(target.related_articles, corpus)[0]);
    assert(related_to(target, corpus, n)[0] == declared[0]);
}

proof fn lemma_filter_keeps_all(corpus: Seq<ProjectView>, wanted: spec_fn(ProjectView) -> bool)
    requires
        forall|i: int| 0 <= i < corpus.len() ==> wanted(#[trigger] corpus[i]),
    ensures
        corpus.filter(wanted) == corpus,
    decreases corpus.len(),
{
    reveal(Seq::filter);
    if corpus.len() > 0 {
        let front = corpus.drop_last();
        assert forall|i: int| 0 <= i < front.len() implies wanted(#[trigger] front[i]) by {
            assert(front[i] == corpus[i]);
        }
        lemma_filter_keeps_all(front, wanted);
        assert(front.push(corpus.last()) =~= corpus);
    }
}

/// Where no declared link names a document, the first related document is
/// the most similar one: it shares a tag with the target, is not the target
/// itself, and no other document of the corpus shares more tags.
pub proof fn lemma_most_similar_is_first(target: ProjectView, corpus: Seq<ProjectView>, n: int)
    requires
        n >= 1,
        declared_links(target.related_articles, corpus).len() == 0,
        exists|i: int| 0 <= i < corpus.len() && is_similar_to(target)(#[trigger] corpus[i]),
    ensures
        related_to(target, corpus, n).len() >= 1,
        related_to(target, corpus, n)[0].id != target.id,
        common_tags(target.tech_stack, related_to(target, corpus, n)[0].tech_stack) > 0,
        forall|i: int|
            0 <= i < corpus.len() && (#[trigger] corpus[i]).id != target.id ==> common_tags(
                target.tech_stack,
                corpus[i].tech_stack,
            ) <= common_tags(target.tech_stack, related_to(target, corpus, n)[0].tech_stack),
{
    broadcast use vstd::seq_lib::group_to_multiset_ensures;

    let declared = at_most(declared_links(target.related_articles, corpus), n);
    assert(declared.len() == 0);
    assert forall|i: int| 0 <= i < corpus.len() implies not_collected(declared)(
        #[trigger] corpus[i],
    ) by {}
    lemma_filter_keeps_all(corpus, not_collected(declared));
    let candidates = corpus.filter(is_similar_to(target));
    let keys = missing_tags(target, candidates);
    let order = stable_order(keys);
    let witness = choose|i: int|
        0 <= i < corpus.len() && is_similar_to(target)(#[trigger] corpus[i]);
    corpus.lemma_filter_contains(is_similar_to(target), witness);
    assert(candidates.len() > 0);
    lemma_stable_order(keys);
    let ranked = sorted_by_key(candidates, keys);
    assert(ranked[0] == candidates[order[0]]);
    let similar = similar_projects(target, corpus, n);
    assert(similar[0] == ranked[0]);
    let all = related_to(target, corpus, n);
    assert(all[0] == similar[0]);
    let best = candidates[order[0]];
    assert(is_similar_to(target)(best)) by {
        corpus.lemma_filter_pred(is_similar_to(target), order[0]);
    }
    assert forall|i: int| 0 <= i < corpus.len() && (#[trigger] corpus[i]).id
        != target.id implies common_tags(target.tech_stack, corpus[i].tech_stack) <= common_tags(
        target.tech_stack,
        best.tech_stack,
    ) by {
        if common_tags(target.tech_stack, corpus[i].tech_stack) > 0 {
            corpus.lemma_filter_contains(is_similar_to(target), i);
            let x = choose|x: int| 0 <= x < candidates.len() && candidates[x] == corpus[i];
            assert(order.to_multiset().count(x) == 1);
            assert(order.to_multiset().contains(x));
            let j = choose|j: int| 0 <= j < order.len() && order[j] == x;
            if j > 0 {
                assert(keys[order[0]] <= keys[order[j]]);
            }
            assert(keys[order[0]] <= keys[x]);
            lemma_common_tags_bound(target.tech_stack, corpus[i].tech_stack);
            lemma_common_tags_bound(target.tech_stack, best.tech_stack);
        }
    }
}

proof fn lemma_declared_links_are_of_corpus(identifiers: Seq<Seq<char>>, corpus: Seq<ProjectView>)
    ensures
        forall|i: int|
            0 <= i < declared_links(identifiers, corpus).len() ==> corpus.contains(
                #[trigger] declared_links(identifiers, corpus)[i],
            ),
    decreases identifiers.len(),
{
    if identifiers.len() > 0 {
        lemma_declared_links_are_of_corpus(identifiers.drop_last(), corpus);
        lemma_first_with_identifier_is_of_corpus(corpus, identifiers.last());
        let front = declared_links(identifiers.drop_last(), corpus);
        let all = declared_links(identifiers, corpus);
        assert forall|i: int| 0 <= i < all.len() implies corpus.contains(#[trigger] all[i]) by {
            if i < front.len() {
                assert(all[i] == front[i]);
            }
        }
    }
}

proof fn lemma_first_with_identifier_is_of_corpus(corpus: Seq<ProjectView>, identifier: Seq<char>)
    ensures
        match first_with_identifier(corpus, identifier) {
            Some(p) => corpus.contains(p) && p.jd_identifier == identifier,
            None => true,
        },
    decreases corpus.len(),
{
    if corpus.len() > 0 {
        if corpus[0].jd_identifier == identifier {
            assert(corpus[0] == corpus[0]);
        } else {
            lemma_first_with_identifier_is_of_corpus(corpus.drop_first(), identifier);
            match first_with_identifier(corpus.drop_first(), identifier) {
                Some(p) => {
                    let k = choose|k: int|
                        0 <= k < corpus.drop_first().len() && corpus.drop_first()[k] == p;
                    assert(corpus[k + 1] == p);
                },
                None => {},
            }
        }
    }
}

/// Every related document is a document of the corpus, and there are never
/// more of them than were asked for.
pub proof fn lemma_related_are_of_corpus(target: ProjectView, corpus: Seq<ProjectView>, n: int)
    requires
        n >= 0,
    ensures
        related_to(target, corpus, n).len() <= n,
        forall|i: int|
            0 <= i < related_to(target, corpus, n).len() ==> corpus.contains(
                #[trigger] related_to(target, corpus, n)[i],
            ),
{
    broadcast use vstd::seq_lib::group_to_multiset_ensures;

    let links = declared_links(target.related_articles, corpus);
    lemma_declared_links_are_of_corpus(target.related_articles, corpus);
    let declared = at_most(links, n);
    assert forall|i: int| 0 <= i < declared.len() implies corpus.contains(
        #[trigger] declared[i],
    ) by {
        assert(declared[i] == links[i]);
    }
    let remaining = corpus.filter(not_collected(declared));
    let candidates = remaining.filter(is_similar_to(target));
    let keys = missing_tags(target, candidates);
    lemma_stable_order(keys);
    let ranked = sorted_by_key(candidates, keys);
    let similar = at_most(ranked, n - declared.len());
    assert forall|i: int| 0 <= i < similar.len() implies corpus.contains(#[trigger] similar[i]) by {
        assert(similar[i] == ranked[i]);
        let p = stable_order(keys)[i];
        assert(ranked[i] == candidates[p]);
        assert(candidates.contains(candidates[p]));
        remaining.lemma_filter_contains_rev(is_similar_to(target), candidates[p]);
        corpus.lemma_filter_contains_rev(not_collected(declared), candidates[p]);
    }
    let listed = declared + similar;
    let pool = corpus.filter(fills_category(target, listed));
    let fill = at_most(pool, n - listed.len());
    assert forall|i: int| 0 <= i < fill.len() implies corpus.contains(#[trigger] fill[i]) by {
        assert(fill[i] == pool[i]);
        assert(pool.contains(pool[i]));
        corpus.lemma_filter_contains_rev(fills_category(target, listed), pool[i]);
    }
    let all = related_to(target, corpus, n);
    assert(all =~= listed + fill);
    assert forall|i: int| 0 <= i < all.len() implies corpus.contains(#[trigger] all[i]) by {
        if i < declared.len() {
            assert(all[i] == declared[i]);
        } else if i < listed.len() {
            assert(all[i] == similar[i - declared.len()]);
        } else {
            assert(all[i] == fill[i - listed.len()]);
        }
    }
}

/// What follows the declared links is never the target itself, and never a
/// document that is listed before it in another tier: a similar document
/// is none of the declared ones, and a document that fills up from the
/// category is none of the declared or similar ones. All of this by id.
pub proof fn lemma_later_tiers_are_new(target: ProjectView, corpus: Seq<ProjectView>, n: int)
    ensures
        ({
            let declared = at_most(declared_links(target.related_articles, corpus), n);
            let similar = similar_projects(
                target,
                corpus.filter(not_collected(declared)),
                n - declared.len(),
            );
            let listed = declared + similar;
            let all = related_to(target, corpus, n);
            &&& listed.is_prefix_of(all)
            &&& forall|i: int|
                declared.len() <= i < all.len() ==> (#[trigger] all[i]).id != target.id
            &&& forall|i: int|
                declared.len() <= i < all.len() ==> !has_id(declared, (#[trigger] all[i]).id)
            &&& forall|i: int|
                listed.len() <= i < all.len() ==> !has_id(listed, (#[trigger] all[i]).id)
        }),
{
    let declared = at_most(declared_links(target.related_articles, corpus), n);
    let remaining = corpus.filter(not_collected(declared));
    let candidates = remaining.filter(is_similar_to(target));
    let keys = missing_tags(target, candidates);
    lemma_stable_order(keys);
    let ranked = sorted_by_key(candidates, keys);
    let similar = at_most(ranked, n - declared.len());
    let listed = declared + similar;
    let pool = corpus.filter(fills_category(target, listed));
    let fill = at_most(pool, n - listed.len());
    let all = related_to(target, corpus, n);
    assert(all =~= listed + fill);
    assert(all.subrange(0, listed.len() as int) =~= listed);
    assert forall|i: int| 0 <= i < similar.len() implies (#[trigger] similar[i]).id != target.id
        && !has_id(declared, similar[i].id) by {
        let p = stable_order(keys)[i];
        assert(similar[i] == candidates[p]);
        remaining.lemma_filter_pred(is_similar_to(target), p);
        assert(candidates.contains(candidates[p]));
        remaining.lemma_filter_contains_rev(is_similar_to(target), candidates[p]);
        let k = choose|k: int| 0 <= k < remaining.len() && remaining[k] == candidates[p];
        corpus.lemma_filter_pred(not_collected(declared), k);
    }
    assert forall|i: int| 0 <= i < fill.len() implies (#[trigger] fill[i]).id != target.id
        && !has_id(listed, fill[i].id) by {
        assert(fill[i] == pool[i]);
        corpus.lemma_filter_pred(fills_category(target, listed), i);
    }
    assert forall|i: int| declared.len() <= i < all.len() implies (#[trigger] all[i]).id
        != target.id && !has_id(declared, all[i].id) by {
        if i < listed.len() {
            assert(all[i] == similar[i - declared.len()]);
        } else {
            assert(all[i] == fill[i - listed.len()]);
            if has_id(declared, all[i].id) {
                let k = choose|k: int|
                    0 <= k < declared.len() && (#[trigger] declared[k]).id == all[i].id;
                assert(listed[k] == declared[k]);
            }
        }
    }
    assert forall|i: int| listed.len() <= i < all.len() implies !has_id(
        listed,
        (#[trigger] all[i]).id,
    ) by {
        assert(all[i] == fill[i - listed.len()]);
    }
}

} // verus!
