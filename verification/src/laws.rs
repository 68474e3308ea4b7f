//! The laws of the search engine, stated over the store view and the
//! search specification and proved once and for all.

use vstd::prelude::*;

use crate::data::{CategoryView, ItemId, ItemView};
use crate::search::{
    candidates_spec, has_excluded_tag, hydrated_spec, name_matches, row_matches, search_spec,
};
use crate::store::{
    category_by_id, item_tags_of, lemma_category_by_id_is, links_of, ItemRowView, LinkRow,
    ObjectRowView, StoreView, tag_by_id,
};
use crate::util::{
    first_match, lemma_contains_seq_reflexive, lemma_filter_none, lemma_filter_subset,
    lemma_first_match_some,
};

verus! {

/// Category filtering is exact-match and complete: with no exclusions,
/// the result holds an item's identifier exactly when the item's name
/// matches the free-text filter and the item's category is named exactly
/// `category` — never on a partial category match.
pub proof fn lemma_search_category_exact(
    s: StoreView,
    q: Option<Seq<char>>,
    category: Seq<char>,
    row: ItemRowView,
)
    requires
        s.inv(),
        s.items.contains(row),
    ensures
        (exists|k: int|
            0 <= k < search_spec(s, q, Seq::<Seq<char>>::empty(), category).len() && (
            #[trigger] search_spec(s, q, Seq::<Seq<char>>::empty(), category)[k]).id == row.id)
            <==> (name_matches(row.name, q) && category_by_id(s, row.category_id).name
            == category),
{
    let excl = Seq::<Seq<char>>::empty();
    let pred = |r2: ItemRowView| row_matches(s, r2, q, excl, category);
    let res = search_spec(s, q, excl, category);
    let cands = candidates_spec(s, q, excl, category);
    let idx = choose|idx: int| 0 <= idx < s.items.len() && s.items[idx] == row;
    if name_matches(row.name, q) && category_by_id(s, row.category_id).name == category {
        assert(!has_excluded_tag(s, row.id, excl));
        assert(pred(s.items[idx]));
        s.items.lemma_filter_contains(pred, idx);
        let k = choose|k: int| 0 <= k < cands.len() && cands[k] == row;
        assert(res[k].id == row.id);
    }
    if exists|k: int| 0 <= k < res.len() && (#[trigger] res[k]).id == row.id {
        let k = choose|k: int| 0 <= k < res.len() && (#[trigger] res[k]).id == row.id;
        assert(res[k] == hydrated_spec(s, cands[k]));
        lemma_filter_subset(s.items, pred, k);
        let idx2 = choose|idx2: int| 0 <= idx2 < s.items.len() && s.items[idx2] == cands[k];
        if idx != idx2 {
            if idx < idx2 {
                assert(s.items[idx].id != s.items[idx2].id);
            } else {
                assert(s.items[idx2].id != s.items[idx].id);
            }
        }
        assert(cands[k] == row);
        s.items.lemma_filter_pred(pred, k);
    }
}

/// Exclusion is complete: no returned item carries any tag whose name is
/// in the exclusion list.
pub proof fn lemma_exclusion_complete(
    s: StoreView,
    q: Option<Seq<char>>,
    excluded: Seq<Seq<char>>,
    category: Seq<char>,
    k: int,
    t: int,
)
    requires
        s.inv(),
        0 <= k < search_spec(s, q, excluded, category).len(),
        0 <= t < search_spec(s, q, excluded, category)[k].tags.len(),
    ensures
        !excluded.contains(search_spec(s, q, excluded, category)[k].tags[t].name),
{
    let pred = |r2: ItemRowView| row_matches(s, r2, q, excluded, category);
    let res = search_spec(s, q, excluded, category);
    let cands = candidates_spec(s, q, excluded, category);
    s.items.lemma_filter_pred(pred, k);
    let row = cands[k];
    assert(!has_excluded_tag(s, row.id, excluded));
    assert(res[k] == hydrated_spec(s, row));
    assert(res[k].tags == item_tags_of(s, row.id));
    let lp = |l: LinkRow| l.item_id == row.id;
    assert(res[k].tags[t] == tag_by_id(s, links_of(s, row.id)[t].tag_id));
    s.links.lemma_filter_pred(lp, t);
    lemma_filter_subset(s.links, lp, t);
    let m = choose|m: int| 0 <= m < s.links.len() && s.links[m] == links_of(s, row.id)[t];
    if excluded.contains(tag_by_id(s, s.links[m].tag_id).name) {
        assert(has_excluded_tag(s, row.id, excluded));
    }
}

/// An absent query matches every name: with no exclusions, the search
/// returns exactly the items of the category, whatever their names.
pub proof fn lemma_search_all_of_category(s: StoreView, category: Seq<char>, row: ItemRowView)
    requires
        s.inv(),
        s.items.contains(row),
    ensures
        (exists|k: int|
            0 <= k < search_spec(s, None, Seq::<Seq<char>>::empty(), category).len() && (
            #[trigger] search_spec(s, None, Seq::<Seq<char>>::empty(), category)[k]).id == row.id)
            <==> category_by_id(s, row.category_id).name == category,
{
    lemma_search_category_exact(s, None, category, row);
}

/// Search is idempotent: against an unchanged store, two results that
/// each satisfy the search contract for the same arguments are equal —
/// in particular they hold the same items.
pub proof fn lemma_search_idempotent(
    s: StoreView,
    q: Option<Seq<char>>,
    excluded: Seq<Seq<char>>,
    category: Seq<char>,
    r1: Seq<ItemView>,
    r2: Seq<ItemView>,
)
    requires
        r1 == search_spec(s, q, excluded, category),
        r2 == search_spec(s, q, excluded, category),
    ensures
        r1 == r2,
        r1.to_multiset() == r2.to_multiset(),
{
}

/// Round trip: after an item is created under a resolved category, a
/// search for its exact name in that category finds it, with empty tag
/// and object sequences.
pub proof fn lemma_add_item_round_trip(
    pre: StoreView,
    post: StoreView,
    name: Seq<char>,
    cat_name: Seq<char>,
    category: CategoryView,
)
    requires
        pre.inv(),
        post.inv(),
        first_match(pre.categories, |c: CategoryView| c.name == cat_name) == Some(category),
        post.items == pre.items.push(
            ItemRowView { id: ItemId(pre.next_id), name: name, category_id: category.id },
        ),
        post.categories == pre.categories,
        post.tags == pre.tags,
        post.objects == pre.objects,
        post.links == pre.links,
        post.next_id == pre.next_id + 1,
    ensures
        exists|k: int|
            0 <= k < search_spec(post, Some(name), Seq::<Seq<char>>::empty(), cat_name).len() && ((
            #[trigger] search_spec(post, Some(name), Seq::<Seq<char>>::empty(), cat_name)[k]).id
                == ItemId(pre.next_id) && search_spec(
                post,
                Some(name),
                Seq::<Seq<char>>::empty(),
                cat_name,
            )[k].tags.len() == 0 && search_spec(
                post,
                Some(name),
                Seq::<Seq<char>>::empty(),
                cat_name,
            )[k].objects.len() == 0),
{
    let excl = Seq::<Seq<char>>::empty();
    let row = ItemRowView { id: ItemId(pre.next_id), name: name, category_id: category.id };
    let pred = |r2: ItemRowView| row_matches(post, r2, Some(name), excl, cat_name);
    let cands = candidates_spec(post, Some(name), excl, cat_name);
    let res = search_spec(post, Some(name), excl, cat_name);
    lemma_contains_seq_reflexive(name);
    lemma_first_match_some(pre.categories, |c: CategoryView| c.name == cat_name, category);
    let j = choose|j: int| 0 <= j < pre.categories.len() && pre.categories[j] == category;
    lemma_category_by_id_is(post, j);
    assert(category_by_id(post, row.category_id).name == cat_name);
    assert(!has_excluded_tag(post, row.id, excl));
    assert(pred(row));
    assert(post.items[post.items.len() - 1] == row);
    post.items.lemma_filter_contains(pred, post.items.len() - 1);
    let k = choose|k: int| 0 <= k < cands.len() && cands[k] == row;
    assert(res[k] == hydrated_spec(post, row));
    assert(res[k].id == row.id);
    assert forall|m: int|
        0 <= m < post.links.len() implies !((#[trigger] post.links[m]).item_id == row.id) by {
        assert(pre.item_has_id(pre.links[m].item_id));
        let w = choose|w: int| 0 <= w < pre.items.len() && pre.items[w].id == pre.links[m].item_id;
    }
    lemma_filter_none(post.links, |l: LinkRow| l.item_id == row.id);
    assert(res[k].tags == item_tags_of(post, row.id));
    assert(res[k].tags.len() == 0);
    assert forall|m: int|
        0 <= m < post.objects.len() implies !((#[trigger] post.objects[m]).item_id == row.id) by {
        assert(pre.item_has_id(pre.objects[m].item_id));
        let w = choose|w: int|
            0 <= w < pre.items.len() && pre.items[w].id == pre.objects[m].item_id;
    }
    lemma_filter_none(post.objects, |o: ObjectRowView| o.item_id == row.id);
    assert(res[k].objects.len() == 0);
}

} // verus!
