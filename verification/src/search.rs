//! The search & aggregation engine.
//!
//! A search takes an optional free-text filter, a tag-name exclusion
//! list, and a mandatory category name. It resolves the candidate rows
//! with one pass over the item relation — name contains the query as a
//! case-sensitive substring (an absent query matches every name), the
//! item's category is named exactly `category`, and the item carries no
//! tag whose name is in the exclusion list — and then hydrates every
//! candidate through the bounded scheduler of [`crate::hydration`],
//! returning the fully assembled aggregates in candidate order.

use vstd::prelude::*;

use crate::data::{
    DbError, Item, ItemId, ItemIncomplete, ItemIncompleteView, ItemObject, ItemView, Tag,
};
use crate::hydration::Hydrator;
use crate::store::{
    category_by_id, item_objects_of, item_tags_of, lemma_category_by_id_is, lemma_tag_by_id_is,
    ItemRowView, Repository, StoreView, tag_by_id,
};
use crate::util::{
    contains_seq, lemma_filter_step, lemma_map_values_push, name_in_list, names_view,
    str_contains_sub, str_eq,
};

verus! {

/// The optional free-text filter matches a name when it is absent or
/// occurs in the name as a case-sensitive substring.
pub open spec fn name_matches(name: Seq<char>, q: Option<Seq<char>>) -> bool {
    match q {
        None => true,
        Some(qs) => contains_seq(name, qs),
    }
}

/// View of the optional query string.
pub open spec fn query_view(q: Option<&str>) -> Option<Seq<char>> {
    match q {
        None => None,
        Some(qs) => Some(qs@),
    }
}

/// Whether the item is linked to at least one tag whose name is in the
/// exclusion list.
pub open spec fn has_excluded_tag(s: StoreView, item_id: ItemId, excluded: Seq<Seq<char>>) -> bool {
    exists|k: int|
        0 <= k < s.links.len() && (#[trigger] s.links[k]).item_id == item_id && excluded.contains(
            tag_by_id(s, s.links[k].tag_id).name,
        )
}

/// The candidate filter: the name matches the free-text query, the
/// item's category is named exactly `category` (exact match, never
/// partial), and the item carries none of the excluded tags.
pub open spec fn row_matches(
    s: StoreView,
    row: ItemRowView,
    q: Option<Seq<char>>,
    excluded: Seq<Seq<char>>,
    category: Seq<char>,
) -> bool {
    &&& name_matches(row.name, q)
    &&& category_by_id(s, row.category_id).name == category
    &&& !has_excluded_tag(s, row.id, excluded)
}

/// The candidate rows, in item-relation order.
pub open spec fn candidates_spec(
    s: StoreView,
    q: Option<Seq<char>>,
    excluded: Seq<Seq<char>>,
    category: Seq<char>,
) -> Seq<ItemRowView> {
    s.items.filter(|row: ItemRowView| row_matches(s, row, q, excluded, category))
}

/// One candidate row assembled into the full aggregate.
pub open spec fn hydrated_spec(s: StoreView, row: ItemRowView) -> ItemView {
    ItemView {
        id: row.id,
        name: row.name,
        category: category_by_id(s, row.category_id),
        tags: item_tags_of(s, row.id),
        objects: item_objects_of(s, row.id),
    }
}

/// The whole search result: every candidate, hydrated, in candidate
/// order.
pub open spec fn search_spec(
    s: StoreView,
    q: Option<Seq<char>>,
    excluded: Seq<Seq<char>>,
    category: Seq<char>,
) -> Seq<ItemView> {
    candidates_spec(s, q, excluded, category).map_values(|row: ItemRowView| hydrated_spec(s, row))
}

impl Repository {
    /// Decides the exclusion filter for one item.
    fn item_has_excluded_tag(&self, item_id: ItemId, excluded: &[String]) -> (r: bool)
        requires
            self@.inv(),
        ensures
            r == has_excluded_tag(self@, item_id, names_view(excluded@)),
    {
        let mut i: usize = 0;
        while i < self.links.len()
            invariant
                i <= self.links.len(),
                self@.inv(),
                forall|k: int|
                    0 <= k < i ==> !((#[trigger] self@.links[k]).item_id == item_id && names_view(
                        excluded@,
                    ).contains(tag_by_id(self@, self@.links[k].tag_id).name)),
            decreases self.links.len() - i,
        {
            let l = self.links[i];
            if l.item_id == item_id {
                let k = match self.find_tag_pos(l.tag_id) {
                    Some(k) => k,
                    None => {
                        proof {
                            assert(self@.tag_has_id((#[trigger] self@.links[i as int]).tag_id));
                            assert(false);
                        }
                        return false;
                    },
                };
                proof {
                    lemma_tag_by_id_is(self@, k as int);
                }
                if name_in_list(excluded, self.tags[k].name.as_str()) {
                    proof {
                        assert((#[trigger] self@.links[i as int]).item_id == item_id
                            && names_view(excluded@).contains(
                            tag_by_id(self@, self@.links[i as int].tag_id).name,
                        ));
                    }
                    return true;
                }
            }
            proof {
                assert(!((#[trigger] self@.links[i as int]).item_id == item_id && names_view(
                    excluded@,
                ).contains(tag_by_id(self@, self@.links[i as int].tag_id).name)));
            }
            i += 1;
        }
        false
    }

    /// Answers the composite query: every item whose name contains
    /// `query` (an absent query matches all names), whose category is
    /// named exactly `category`, and which carries none of the tags named
    /// in `tags_filtered` — each returned fully hydrated with its tags
    /// and objects, in item-relation order.
    pub fn search_items(
        &self,
        query: Option<&str>,
        tags_filtered: &[String],
        category: &str,
    ) -> (r: Result<Vec<Item>, DbError>)
        requires
            self@.inv(),
        ensures
            (r matches Ok(v) && v@.map_values(|it: Item| it@) == search_spec(
                self@,
                query_view(query),
                names_view(tags_filtered@),
                category@,
            )),
    {
        let ghost qv = query_view(query);
        let ghost excl = names_view(tags_filtered@);
        let ghost rowp = |row: ItemRowView| row_matches(self@, row, qv, excl, category@);
        let ghost fcand = |row: ItemRowView|
            ItemIncompleteView {
                id: row.id,
                name: row.name,
                category: category_by_id(self@, row.category_id),
            };
        let mut cands: Vec<ItemIncomplete> = Vec::new();
        let mut i: usize = 0;
        while i < self.items.len()
            invariant
                i <= self.items.len(),
                self@.inv(),
                qv == query_view(query),
                excl == names_view(tags_filtered@),
                cands@.map_values(|c: ItemIncomplete| c@) == self@.items.subrange(
                    0,
                    i as int,
                ).filter(rowp).map_values(fcand),
                rowp == (|row: ItemRowView| row_matches(self@, row, qv, excl, category@)),
                fcand == (|row: ItemRowView|
                    ItemIncompleteView {
                        id: row.id,
                        name: row.name,
                        category: category_by_id(self@, row.category_id),
                    }),
            decreases self.items.len() - i,
        {
            proof {
                lemma_filter_step(self@.items, rowp, i as int);
            }
            let name_ok = match query {
                None => true,
                Some(qs) => str_contains_sub(self.items[i].name.as_str(), qs),
            };
            let cpos = match self.find_category_pos(self.items[i].category_id) {
                Some(k) => k,
                None => {
                    proof {
                        assert(self@.cat_has_id((#[trigger] self@.items[i as int]).category_id));
                        assert(false);
                    }
                    return Err(DbError::ItemNotFound);
                },
            };
            proof {
                lemma_category_by_id_is(self@, cpos as int);
            }
            let cat_ok = str_eq(self.categories[cpos].name.as_str(), category);
            let excluded_hit = self.item_has_excluded_tag(self.items[i].id, tags_filtered);
            let keep = name_ok && cat_ok && !excluded_hit;
            proof {
                assert(keep == rowp(self@.items[i as int]));
            }
            let ghost cands_pre = cands@;
            if keep {
                let inc = ItemIncomplete {
                    id: self.items[i].id,
                    name: self.items[i].name.clone(),
                    category: self.categories[cpos].duplicate(),
                };
                cands.push(inc);
                proof {
                    let x = self@.items[i as int];
                    lemma_map_values_push(
                        self@.items.subrange(0, i as int).filter(rowp),
                        fcand,
                        x,
                    );
                    lemma_map_values_push(cands_pre, |c: ItemIncomplete| c@, cands@.last());
                    assert(cands@ =~= cands_pre.push(cands@.last()));
                    assert(cands@.map_values(|c: ItemIncomplete| c@) =~= self@.items.subrange(
                        0,
                        i + 1,
                    ).filter(rowp).map_values(fcand));
                }
            } else {
                proof {
                    assert(cands@.map_values(|c: ItemIncomplete| c@) =~= self@.items.subrange(
                        0,
                        i + 1,
                    ).filter(rowp).map_values(fcand));
                }
            }
            i += 1;
        }
        proof {
            assert(self@.items.subrange(0, self@.items.len() as int) =~= self@.items);
        }
        let ghost cands_view = cands@.map_values(|c: ItemIncomplete| c@);
        let mut hyd = Hydrator::new(cands);
        loop
            invariant
                hyd.inv(),
                self@.inv(),
                hyd.failed is None,
                hyd.done == hyd.next,
                hyd.candidates@.map_values(|c: ItemIncomplete| c@) == cands_view,
                forall|k: int|
                    0 <= k < hyd.next ==> ((#[trigger] hyd.results@[k]) matches Some(p)
                        && p.0@.map_values(|t: Tag| t@) == item_tags_of(
                        self@,
                        hyd.candidates@[k]@.id,
                    ) && p.1@.map_values(|o: ItemObject| o@) == item_objects_of(
                        self@,
                        hyd.candidates@[k]@.id,
                    )),
            ensures
                hyd.inv(),
                hyd.failed is None,
                hyd.done == hyd.next,
                hyd.next == hyd.candidates@.len(),
                hyd.candidates@.map_values(|c: ItemIncomplete| c@) == cands_view,
                forall|k: int|
                    0 <= k < hyd.next ==> ((#[trigger] hyd.results@[k]) matches Some(p)
                        && p.0@.map_values(|t: Tag| t@) == item_tags_of(
                        self@,
                        hyd.candidates@[k]@.id,
                    ) && p.1@.map_values(|o: ItemObject| o@) == item_objects_of(
                        self@,
                        hyd.candidates@[k]@.id,
                    )),
            decreases hyd.candidates@.len() - hyd.next,
        {
            match hyd.next_task() {
                None => {
                    break ;
                },
                Some(idx) => {
                    proof {
                        assert(hyd.results@[idx as int] is None);
                    }
                    let item_id = hyd.candidates[idx].id;
                    let tags = match self.get_item_tags(item_id) {
                        Ok(v) => v,
                        Err(e) => {
                            hyd.report_failure(e);
                            break ;
                        },
                    };
                    let objects = match self.get_item_objects(item_id) {
                        Ok(v) => v,
                        Err(e) => {
                            hyd.report_failure(e);
                            break ;
                        },
                    };
                    hyd.complete(idx, tags, objects);
                },
            }
        }
        let ghost hyd_final = hyd;
        let out = match hyd.finish() {
            Ok(v) => v,
            Err(e) => {
                return Err(e);
            },
        };
        proof {
            let result_view = out@.map_values(|it: Item| it@);
            let spec_view = search_spec(self@, qv, excl, category@);
            assert forall|k: int| 0 <= k < result_view.len() implies result_view[k]
                == spec_view[k] by {
                let row = candidates_spec(self@, qv, excl, category@)[k];
                assert(cands_view[k] == fcand(row));
                assert(0 <= k < hyd_final.next);
                assert(hyd_final.results@[k] is Some);
                assert(hyd_final.candidates@[k]@ == cands_view[k]);
                assert(out@[k]@ == result_view[k]);
            }
            assert(result_view =~= spec_view);
        }
        Ok(out)
    }
}

} // verus!
