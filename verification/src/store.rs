//! The entity store: durable storage and primitive access for the five
//! entity types (category, tag, item, item object, and the item-tag
//! association), modeled as an in-memory relational store.
//!
//! Every operation is independently atomic; none are composed into larger
//! transactions. Identifiers are drawn from a single monotone counter, so an
//! identifier is never reused across entities. Documented policy choices:
//! removing an entity by an identifier that does not exist fails with
//! [`DbError::ItemNotFound`]; removing a category still referenced by an
//! item, or an item that still owns object records, is a constraint
//! violation and fails with [`DbError::DbError`]; removing an item or a tag
//! also removes its association rows; linking an already-linked item-tag
//! pair succeeds silently, as does unlinking a pair that is not linked.

use vstd::prelude::*;

use crate::data::{
    Category, CategoryId, CategoryView, DbError, Item, ItemId, ItemIncomplete, ItemObject,
    ItemObjectId, ItemObjectView, ItemView, Tag, TagId, TagView,
};
use crate::util::{
    lemma_filter_all, lemma_filter_distinct, lemma_filter_none, lemma_filter_step,
    lemma_filter_subset, lemma_first_match_at, lemma_first_match_none, lemma_map_values_push,
    first_match, str_eq,
};

verus! {

/// A row of the item relation: the item's identity and a reference to its
/// category.
pub struct ItemRow {
    pub id: ItemId,
    pub name: String,
    pub category_id: CategoryId,
}

/// Mathematical view of an [`ItemRow`].
pub struct ItemRowView {
    pub id: ItemId,
    pub name: Seq<char>,
    pub category_id: CategoryId,
}

impl View for ItemRow {
    type V = ItemRowView;

    open spec fn view(&self) -> ItemRowView {
        ItemRowView { id: self.id, name: self.name@, category_id: self.category_id }
    }
}

/// A row of the item-object relation: the object record and a reference to
/// the item that owns it.
pub struct ObjectRow {
    pub id: ItemObjectId,
    pub item_code: Option<String>,
    pub item_id: ItemId,
}

/// Mathematical view of an [`ObjectRow`].
pub struct ObjectRowView {
    pub id: ItemObjectId,
    pub item_code: Option<Seq<char>>,
    pub item_id: ItemId,
}

impl View for ObjectRow {
    type V = ObjectRowView;

    open spec fn view(&self) -> ObjectRowView {
        ObjectRowView {
            id: self.id,
            item_code: match self.item_code {
                Some(c) => Some(c@),
                None => None,
            },
            item_id: self.item_id,
        }
    }
}

/// A row of the item-tag association: a bare (item, tag) pair with no own
/// identity. The store keeps these rows duplicate-free.
#[derive(Clone, Copy, Debug, PartialEq, Eq, Structural)]
pub struct LinkRow {
    pub item_id: ItemId,
    pub tag_id: TagId,
}

/// Mathematical view of the whole store: the five relations and the
/// identifier counter.
pub struct StoreView {
    pub categories: Seq<CategoryView>,
    pub tags: Seq<TagView>,
    pub items: Seq<ItemRowView>,
    pub objects: Seq<ObjectRowView>,
    pub links: Seq<LinkRow>,
    pub next_id: u64,
}

impl StoreView {
    /// Some category carries this identifier.
    pub open spec fn cat_has_id(self, id: CategoryId) -> bool {
        exists|k: int| 0 <= k < self.categories.len() && self.categories[k].id == id
    }

    /// Some tag carries this identifier.
    pub open spec fn tag_has_id(self, id: TagId) -> bool {
        exists|k: int| 0 <= k < self.tags.len() && self.tags[k].id == id
    }

    /// Some item carries this identifier.
    pub open spec fn item_has_id(self, id: ItemId) -> bool {
        exists|k: int| 0 <= k < self.items.len() && self.items[k].id == id
    }

    /// Some object record carries this identifier.
    pub open spec fn object_has_id(self, id: ItemObjectId) -> bool {
        exists|k: int| 0 <= k < self.objects.len() && self.objects[k].id == id
    }

    /// Some item references this category.
    pub open spec fn cat_referenced(self, id: CategoryId) -> bool {
        exists|k: int| 0 <= k < self.items.len() && self.items[k].category_id == id
    }

    /// Some object record belongs to this item.
    pub open spec fn item_owns_object(self, id: ItemId) -> bool {
        exists|k: int| 0 <= k < self.objects.len() && self.objects[k].item_id == id
    }

    /// This exact association row is present.
    pub open spec fn linked(self, item_id: ItemId, tag_id: TagId) -> bool {
        self.links.contains(LinkRow { item_id, tag_id })
    }

    /// Well-formedness: identifiers are pairwise distinct within each
    /// relation and below the counter, every foreign reference resolves,
    /// and association rows are duplicate-free.
    pub open spec fn inv(self) -> bool {
        &&& (forall|i: int, j: int|
            0 <= i < j < self.categories.len() ==> (#[trigger] self.categories[i]).id != (
            #[trigger] self.categories[j]).id)
        &&& (forall|i: int|
            0 <= i < self.categories.len() ==> (#[trigger] self.categories[i]).id.0
                < self.next_id)
        &&& (forall|i: int, j: int|
            0 <= i < j < self.tags.len() ==> (#[trigger] self.tags[i]).id != (
            #[trigger] self.tags[j]).id)
        &&& (forall|i: int| 0 <= i < self.tags.len() ==> (#[trigger] self.tags[i]).id.0 < self.next_id)
        &&& (forall|i: int, j: int|
            0 <= i < j < self.items.len() ==> (#[trigger] self.items[i]).id != (
            #[trigger] self.items[j]).id)
        &&& (forall|i: int|
            0 <= i < self.items.len() ==> (#[trigger] self.items[i]).id.0 < self.next_id)
        &&& (forall|i: int|
            0 <= i < self.items.len() ==> self.cat_has_id((#[trigger] self.items[i]).category_id))
        &&& (forall|i: int, j: int|
            0 <= i < j < self.objects.len() ==> (#[trigger] self.objects[i]).id != (
            #[trigger] self.objects[j]).id)
        &&& (forall|i: int|
            0 <= i < self.objects.len() ==> (#[trigger] self.objects[i]).id.0 < self.next_id)
        &&& (forall|i: int|
            0 <= i < self.objects.len() ==> self.item_has_id(
                (#[trigger] self.objects[i]).item_id,
            ))
        &&& (forall|i: int, j: int|
            0 <= i < j < self.links.len() ==> #[trigger] self.links[i] != #[trigger] self.links[j])
        &&& (forall|i: int|
            0 <= i < self.links.len() ==> self.item_has_id((#[trigger] self.links[i]).item_id)
                && self.tag_has_id((#[trigger] self.links[i]).tag_id))
    }
}

/// The association rows that belong to one item.
pub open spec fn links_of(s: StoreView, item_id: ItemId) -> Seq<LinkRow> {
    s.links.filter(|l: LinkRow| l.item_id == item_id)
}

/// Index of the tag carrying `id` (meaningful when such a tag exists and
/// tag identifiers are distinct).
pub open spec fn tag_index_of(tags: Seq<TagView>, id: TagId) -> int {
    choose|k: int| 0 <= k < tags.len() && tags[k].id == id
}

/// The tag carrying `id`.
pub open spec fn tag_by_id(s: StoreView, id: TagId) -> TagView {
    s.tags[tag_index_of(s.tags, id)]
}

/// Index of the category carrying `id`.
pub open spec fn cat_index_of(cats: Seq<CategoryView>, id: CategoryId) -> int {
    choose|k: int| 0 <= k < cats.len() && cats[k].id == id
}

/// The category carrying `id`.
pub open spec fn category_by_id(s: StoreView, id: CategoryId) -> CategoryView {
    s.categories[cat_index_of(s.categories, id)]
}

/// An item's full tag sequence: the tags its association rows reference,
/// in association-insertion order.
pub open spec fn item_tags_of(s: StoreView, item_id: ItemId) -> Seq<TagView> {
    links_of(s, item_id).map_values(|l: LinkRow| tag_by_id(s, l.tag_id))
}

/// An item's full object sequence, in insertion order.
pub open spec fn item_objects_of(s: StoreView, item_id: ItemId) -> Seq<ItemObjectView> {
    s.objects.filter(|o: ObjectRowView| o.item_id == item_id).map_values(
        |o: ObjectRowView| ItemObjectView { id: o.id, item_code: o.item_code },
    )
}

/// Shrinking each relation by a filter preserves well-formedness, provided
/// every kept row's foreign references are kept as well.
proof fn lemma_inv_filtered(
    pre: StoreView,
    post: StoreView,
    catp: spec_fn(CategoryView) -> bool,
    tagp: spec_fn(TagView) -> bool,
    itemp: spec_fn(ItemRowView) -> bool,
    objp: spec_fn(ObjectRowView) -> bool,
    linkp: spec_fn(LinkRow) -> bool,
)
    requires
        pre.inv(),
        post.categories == pre.categories.filter(catp),
        post.tags == pre.tags.filter(tagp),
        post.items == pre.items.filter(itemp),
        post.objects == pre.objects.filter(objp),
        post.links == pre.links.filter(linkp),
        post.next_id == pre.next_id,
        forall|i: int, j: int|
            0 <= i < pre.items.len() && itemp(#[trigger] pre.items[i]) && 0 <= j
                < pre.categories.len() && (#[trigger] pre.categories[j]).id
                == pre.items[i].category_id ==> catp(pre.categories[j]),
        forall|i: int, j: int|
            0 <= i < pre.objects.len() && objp(#[trigger] pre.objects[i]) && 0 <= j
                < pre.items.len() && (#[trigger] pre.items[j]).id == pre.objects[i].item_id
                ==> itemp(pre.items[j]),
        forall|i: int, j: int|
            0 <= i < pre.links.len() && linkp(#[trigger] pre.links[i]) && 0 <= j < pre.items.len()
                && (#[trigger] pre.items[j]).id == pre.links[i].item_id ==> itemp(pre.items[j]),
        forall|i: int, j: int|
            0 <= i < pre.links.len() && linkp(#[trigger] pre.links[i]) && 0 <= j < pre.tags.len()
                && (#[trigger] pre.tags[j]).id == pre.links[i].tag_id ==> tagp(pre.tags[j]),
    ensures
        post.inv(),
{
    lemma_filter_distinct(pre.categories, catp, |c: CategoryView| c.id.0);
    lemma_filter_distinct(pre.tags, tagp, |t: TagView| t.id.0);
    lemma_filter_distinct(pre.items, itemp, |x: ItemRowView| x.id.0);
    lemma_filter_distinct(pre.objects, objp, |o: ObjectRowView| o.id.0);
    lemma_filter_distinct(pre.links, linkp, |l: LinkRow| l);
    assert forall|i: int|
        0 <= i < post.categories.len() implies (#[trigger] post.categories[i]).id.0
        < post.next_id by {
        lemma_filter_subset(pre.categories, catp, i);
        let k = choose|k: int|
            0 <= k < pre.categories.len() && pre.categories[k] == post.categories[i];
    }
    assert forall|i: int|
        0 <= i < post.tags.len() implies (#[trigger] post.tags[i]).id.0 < post.next_id by {
        lemma_filter_subset(pre.tags, tagp, i);
        let k = choose|k: int| 0 <= k < pre.tags.len() && pre.tags[k] == post.tags[i];
    }
    assert forall|i: int|
        0 <= i < post.items.len() implies (#[trigger] post.items[i]).id.0 < post.next_id by {
        lemma_filter_subset(pre.items, itemp, i);
        let k = choose|k: int| 0 <= k < pre.items.len() && pre.items[k] == post.items[i];
    }
    assert forall|i: int|
        0 <= i < post.objects.len() implies (#[trigger] post.objects[i]).id.0 < post.next_id by {
        lemma_filter_subset(pre.objects, objp, i);
        let k = choose|k: int| 0 <= k < pre.objects.len() && pre.objects[k] == post.objects[i];
    }
    assert forall|i: int|
        0 <= i < post.items.len() implies post.cat_has_id(
        (#[trigger] post.items[i]).category_id,
    ) by {
        lemma_filter_subset(pre.items, itemp, i);
        pre.items.lemma_filter_pred(itemp, i);
        let k = choose|k: int| 0 <= k < pre.items.len() && pre.items[k] == post.items[i];
        assert(pre.cat_has_id(pre.items[k].category_id));
        let j = choose|j: int|
            0 <= j < pre.categories.len() && pre.categories[j].id == pre.items[k].category_id;
        assert(catp(pre.categories[j]));
        pre.categories.lemma_filter_contains(catp, j);
        let j2 = choose|j2: int|
            0 <= j2 < post.categories.len() && post.categories[j2] == pre.categories[j];
        assert(post.categories[j2].id == post.items[i].category_id);
    }
    assert forall|i: int|
        0 <= i < post.objects.len() implies post.item_has_id(
        (#[trigger] post.objects[i]).item_id,
    ) by {
        lemma_filter_subset(pre.objects, objp, i);
        pre.objects.lemma_filter_pred(objp, i);
        let k = choose|k: int| 0 <= k < pre.objects.len() && pre.objects[k] == post.objects[i];
        assert(pre.item_has_id(pre.objects[k].item_id));
        let j = choose|j: int|
            0 <= j < pre.items.len() && pre.items[j].id == pre.objects[k].item_id;
        assert(itemp(pre.items[j]));
        pre.items.lemma_filter_contains(itemp, j);
        let j2 = choose|j2: int| 0 <= j2 < post.items.len() && post.items[j2] == pre.items[j];
        assert(post.items[j2].id == post.objects[i].item_id);
    }
    assert forall|i: int|
        0 <= i < post.links.len() implies post.item_has_id((#[trigger] post.links[i]).item_id)
        && post.tag_has_id(post.links[i].tag_id) by {
        lemma_filter_subset(pre.links, linkp, i);
        pre.links.lemma_filter_pred(linkp, i);
        let k = choose|k: int| 0 <= k < pre.links.len() && pre.links[k] == post.links[i];
        assert(pre.item_has_id(pre.links[k].item_id));
        assert(pre.tag_has_id(pre.links[k].tag_id));
        let j = choose|j: int| 0 <= j < pre.items.len() && pre.items[j].id == pre.links[k].item_id;
        assert(itemp(pre.items[j]));
        pre.items.lemma_filter_contains(itemp, j);
        let j2 = choose|j2: int| 0 <= j2 < post.items.len() && post.items[j2] == pre.items[j];
        assert(post.items[j2].id == post.links[i].item_id);
        let m = choose|m: int| 0 <= m < pre.tags.len() && pre.tags[m].id == pre.links[k].tag_id;
        assert(tagp(pre.tags[m]));
        pre.tags.lemma_filter_contains(tagp, m);
        let m2 = choose|m2: int| 0 <= m2 < post.tags.len() && post.tags[m2] == pre.tags[m];
        assert(post.tags[m2].id == post.links[i].tag_id);
    }
}

/// The entity store. All operations are performed against this single
/// backing store; callers must not mutate the relations directly.
pub struct Repository {
    pub categories: Vec<Category>,
    pub tags: Vec<Tag>,
    pub items: Vec<ItemRow>,
    pub objects: Vec<ObjectRow>,
    pub links: Vec<LinkRow>,
    pub next_id: u64,
}

impl View for Repository {
    type V = StoreView;

    open spec fn view(&self) -> StoreView {
        StoreView {
            categories: self.categories@.map_values(|c: Category| c@),
            tags: self.tags@.map_values(|t: Tag| t@),
            items: self.items@.map_values(|r: ItemRow| r@),
            objects: self.objects@.map_values(|o: ObjectRow| o@),
            links: self.links@,
            next_id: self.next_id,
        }
    }
}

impl Repository {
    /// A fresh store with all five relations empty.
    pub fn new() -> (r: Repository)
        ensures
            r@.inv(),
            r@.categories =~= Seq::<CategoryView>::empty(),
            r@.tags =~= Seq::<TagView>::empty(),
            r@.items =~= Seq::<ItemRowView>::empty(),
            r@.objects =~= Seq::<ObjectRowView>::empty(),
            r@.links =~= Seq::<LinkRow>::empty(),
            r@.next_id == 0,
    {
        Repository {
            categories: Vec::new(),
            tags: Vec::new(),
            items: Vec::new(),
            objects: Vec::new(),
            links: Vec::new(),
            next_id: 0,
        }
    }

    /// Every category, in insertion order.
    pub fn get_categories(&self) -> (r: Result<Vec<Category>, DbError>)
        ensures
            (r matches Ok(v) && v@.map_values(|c: Category| c@) == self@.categories),
    {
        let mut out: Vec<Category> = Vec::new();
        let mut i: usize = 0;
        while i < self.categories.len()
            invariant
                i <= self.categories.len(),
                out@.len() == i,
                forall|k: int| 0 <= k < i ==> out@[k]@ == self@.categories[k],
            decreases self.categories.len() - i,
        {
            out.push(self.categories[i].duplicate());
            i += 1;
        }
        proof {
            assert(out@.map_values(|c: Category| c@) =~= self@.categories);
        }
        Ok(out)
    }

    /// Every tag, in insertion order.
    pub fn get_tags(&self) -> (r: Result<Vec<Tag>, DbError>)
        ensures
            (r matches Ok(v) && v@.map_values(|t: Tag| t@) == self@.tags),
    {
        let mut out: Vec<Tag> = Vec::new();
        let mut i: usize = 0;
        while i < self.tags.len()
            invariant
                i <= self.tags.len(),
                out@.len() == i,
                forall|k: int| 0 <= k < i ==> out@[k]@ == self@.tags[k],
            decreases self.tags.len() - i,
        {
            out.push(self.tags[i].duplicate());
            i += 1;
        }
        proof {
            assert(out@.map_values(|t: Tag| t@) =~= self@.tags);
        }
        Ok(out)
    }

    /// Creates a category with the given name and a fresh identifier, and
    /// returns it.
    pub fn add_category(&mut self, category_name: &str) -> (r: Result<Category, DbError>)
        requires
            old(self)@.inv(),
            old(self)@.next_id < u64::MAX,
        ensures
            final(self)@.inv(),
            (r matches Ok(c) && c@ == (CategoryView {
                id: CategoryId(old(self)@.next_id),
                name: category_name@,
            })),
            final(self)@.categories == old(self)@.categories.push(
                CategoryView { id: CategoryId(old(self)@.next_id), name: category_name@ },
            ),
            final(self)@.tags == old(self)@.tags,
            final(self)@.items == old(self)@.items,
            final(self)@.objects == old(self)@.objects,
            final(self)@.links == old(self)@.links,
            final(self)@.next_id == old(self)@.next_id + 1,
    {
        let id = CategoryId(self.next_id);
        self.next_id = self.next_id + 1;
        let row = Category { id, name: category_name.to_owned() };
        let result = row.duplicate();
        self.categories.push(row);
        proof {
            let pre = old(self)@;
            let post = self@;
            assert(post.categories =~= pre.categories.push(
                CategoryView { id: CategoryId(pre.next_id), name: category_name@ },
            ));
            assert(post.tags =~= pre.tags);
            assert(post.items =~= pre.items);
            assert(post.objects =~= pre.objects);
            assert(post.links =~= pre.links);
            assert forall|i: int|
                0 <= i < post.items.len() implies post.cat_has_id(
                (#[trigger] post.items[i]).category_id,
            ) by {
                assert(pre.cat_has_id(pre.items[i].category_id));
                let k = choose|k: int|
                    0 <= k < pre.categories.len() && pre.categories[k].id == pre.items[i].category_id;
                assert(post.categories[k].id == post.items[i].category_id);
            }
            assert forall|i: int|
                0 <= i < post.objects.len() implies post.item_has_id(
                (#[trigger] post.objects[i]).item_id,
            ) by {
                assert(pre.item_has_id(pre.objects[i].item_id));
            }
            assert forall|i: int|
                0 <= i < post.links.len() implies post.item_has_id(
                (#[trigger] post.links[i]).item_id,
            ) && post.tag_has_id(post.links[i].tag_id) by {
                assert(pre.item_has_id(pre.links[i].item_id));
                assert(pre.tag_has_id(pre.links[i].tag_id));
            }
        }
        Ok(result)
    }

    /// Creates a tag with the given name and a fresh identifier, and
    /// returns it.
    pub fn add_tag(&mut self, tag_name: &str) -> (r: Result<Tag, DbError>)
        requires
            old(self)@.inv(),
            old(self)@.next_id < u64::MAX,
        ensures
            final(self)@.inv(),
            (r matches Ok(t) && t@ == (TagView { id: TagId(old(self)@.next_id), name: tag_name@ })),
            final(self)@.tags == old(self)@.tags.push(
                TagView { id: TagId(old(self)@.next_id), name: tag_name@ },
            ),
            final(self)@.categories == old(self)@.categories,
            final(self)@.items == old(self)@.items,
            final(self)@.objects == old(self)@.objects,
            final(self)@.links == old(self)@.links,
            final(self)@.next_id == old(self)@.next_id + 1,
    {
        let id = TagId(self.next_id);
        self.next_id = self.next_id + 1;
        let row = Tag { id, name: tag_name.to_owned() };
        let result = row.duplicate();
        self.tags.push(row);
        proof {
            let pre = old(self)@;
            let post = self@;
            assert(post.tags =~= pre.tags.push(TagView { id: TagId(pre.next_id), name: tag_name@ }));
            assert(post.categories =~= pre.categories);
            assert(post.items =~= pre.items);
            assert(post.objects =~= pre.objects);
            assert(post.links =~= pre.links);
            assert forall|i: int|
                0 <= i < post.items.len() implies post.cat_has_id(
                (#[trigger] post.items[i]).category_id,
            ) by {
                assert(pre.cat_has_id(pre.items[i].category_id));
                let k = choose|k: int|
                    0 <= k < pre.categories.len() && pre.categories[k].id == pre.items[i].category_id;
                assert(post.categories[k].id == post.items[i].category_id);
            }
            assert forall|i: int|
                0 <= i < post.links.len() implies post.item_has_id(
                (#[trigger] post.links[i]).item_id,
            ) && post.tag_has_id(post.links[i].tag_id) by {
                assert(pre.item_has_id(pre.links[i].item_id));
                assert(pre.tag_has_id(pre.links[i].tag_id));
                let k = choose|k: int|
                    0 <= k < pre.items.len() && pre.items[k].id == pre.links[i].item_id;
                assert(post.items[k].id == post.links[i].item_id);
                let k2 = choose|k2: int|
                    0 <= k2 < pre.tags.len() && pre.tags[k2].id == pre.links[i].tag_id;
                assert(post.tags[k2].id == post.links[i].tag_id);
            }
            assert forall|i: int|
                0 <= i < post.objects.len() implies post.item_has_id(
                (#[trigger] post.objects[i]).item_id,
            ) by {
                assert(pre.item_has_id(pre.objects[i].item_id));
            }
        }
        Ok(result)
    }

    /// Position of the category carrying `id`, if any.
    pub(crate) fn find_category_pos(&self, id: CategoryId) -> (r: Option<usize>)
        ensures
            match r {
                Some(k) => k < self@.categories.len() && self@.categories[k as int].id == id,
                None => !self@.cat_has_id(id),
            },
    {
        let mut i: usize = 0;
        while i < self.categories.len()
            invariant
                i <= self.categories.len(),
                forall|k: int| 0 <= k < i ==> (#[trigger] self@.categories[k]).id != id,
            decreases self.categories.len() - i,
        {
            if self.categories[i].id == id {
                return Some(i);
            }
            i += 1;
        }
        None
    }

    /// Removes the category carrying `id`.
    ///
    /// Fails with `ItemNotFound` if no category carries `id`, and with a
    /// constraint violation if an item still references it.
    pub fn remove_category(&mut self, category_id: CategoryId) -> (r: Result<(), DbError>)
        requires
            old(self)@.inv(),
        ensures
            final(self)@.inv(),
            (!old(self)@.cat_has_id(category_id) ==> (r matches Err(e) && e is ItemNotFound)
                && final(self)@ == old(self)@),
            (old(self)@.cat_has_id(category_id) && old(self)@.cat_referenced(category_id) ==> (
            r matches Err(e) && e is DbError) && final(self)@ == old(self)@),
            (old(self)@.cat_has_id(category_id) && !old(self)@.cat_referenced(category_id) ==> r
                is Ok && final(self)@.categories == old(self)@.categories.filter(
                |c: CategoryView| c.id != category_id,
            ) && final(self)@.tags == old(self)@.tags && final(self)@.items == old(self)@.items
                && final(self)@.objects == old(self)@.objects && final(self)@.links == old(self)@.links && final(self)@.next_id == old(self)@.next_id),
    {
        let ghost pre = self@;
        let pos = self.find_category_pos(category_id);
        if pos.is_none() {
            return Err(DbError::ItemNotFound);
        }
        proof {
            assert(pre.cat_has_id(category_id));
        }
        let mut i: usize = 0;
        while i < self.items.len()
            invariant
                i <= self.items.len(),
                self@ == old(self)@,
                old(self)@.inv(),
                old(self)@.cat_has_id(category_id),
                forall|k: int| 0 <= k < i ==> (#[trigger] self@.items[k]).category_id != category_id,
            decreases self.items.len() - i,
        {
            if self.items[i].category_id == category_id {
                proof {
                    assert(old(self)@.items[i as int].category_id == category_id);
                    assert(old(self)@.cat_referenced(category_id));
                }
                return Err(DbError::DbError("category is still referenced by an item".to_owned()));
            }
            i += 1;
        }
        let ghost pred = |c: CategoryView| c.id != category_id;
        let mut kept: Vec<Category> = Vec::new();
        let mut j: usize = 0;
        while j < self.categories.len()
            invariant
                j <= self.categories.len(),
                self@ == pre,
                pre == old(self)@,
                old(self)@.inv(),
                kept@.map_values(|c: Category| c@) == pre.categories.subrange(0, j as int).filter(
                    pred,
                ),
                pred == (|c: CategoryView| c.id != category_id),
            decreases self.categories.len() - j,
        {
            proof {
                lemma_filter_step(pre.categories, pred, j as int);
            }
            if !(self.categories[j].id == category_id) {
                kept.push(self.categories[j].duplicate());
                proof {
                    assert(kept@.map_values(|c: Category| c@) =~= pre.categories.subrange(
                        0,
                        j + 1,
                    ).filter(pred));
                }
            } else {
                proof {
                    assert(kept@.map_values(|c: Category| c@) =~= pre.categories.subrange(
                        0,
                        j + 1,
                    ).filter(pred));
                }
            }
            j += 1;
        }
        self.categories = kept;
        proof {
            assert(pre.categories.subrange(0, pre.categories.len() as int) =~= pre.categories);
            let post = self@;
            assert(post.categories == pre.categories.filter(pred));
            assert(post.tags =~= pre.tags);
            assert(post.items =~= pre.items);
            assert(post.objects =~= pre.objects);
            assert(post.links =~= pre.links);
            lemma_filter_distinct(pre.categories, pred, |c: CategoryView| c.id.0);
            assert forall|i2: int|
                0 <= i2 < post.categories.len() implies (#[trigger] post.categories[i2]).id.0
                < post.next_id by {
                lemma_filter_subset(pre.categories, pred, i2);
                let k = choose|k: int|
                    0 <= k < pre.categories.len() && pre.categories[k] == post.categories[i2];
            }
            assert forall|i2: int|
                0 <= i2 < post.items.len() implies post.cat_has_id(
                (#[trigger] post.items[i2]).category_id,
            ) by {
                assert(pre.cat_has_id(pre.items[i2].category_id));
                let k = choose|k: int|
                    0 <= k < pre.categories.len() && pre.categories[k].id
                        == pre.items[i2].category_id;
                assert(pre.items[i2].category_id != category_id);
                assert(pred(pre.categories[k]));
                pre.categories.lemma_filter_contains(pred, k);
                let k2 = choose|k2: int|
                    0 <= k2 < post.categories.len() && post.categories[k2] == pre.categories[k];
                assert(post.categories[k2].id == post.items[i2].category_id);
            }
            assert forall|i2: int|
                0 <= i2 < post.objects.len() implies post.item_has_id(
                (#[trigger] post.objects[i2]).item_id,
            ) by {
                assert(pre.item_has_id(pre.objects[i2].item_id));
            }
            assert forall|i2: int|
                0 <= i2 < post.links.len() implies post.item_has_id(
                (#[trigger] post.links[i2]).item_id,
            ) && post.tag_has_id(post.links[i2].tag_id) by {
                assert(pre.item_has_id(pre.links[i2].item_id));
                assert(pre.tag_has_id(pre.links[i2].tag_id));
            }
        }
        Ok(())
    }

    /// Position of the tag carrying `id`, if any.
    pub(crate) fn find_tag_pos(&self, id: TagId) -> (r: Option<usize>)
        ensures
            match r {
                Some(k) => k < self@.tags.len() && self@.tags[k as int].id == id,
                None => !self@.tag_has_id(id),
            },
    {
        let mut i: usize = 0;
        while i < self.tags.len()
            invariant
                i <= self.tags.len(),
                forall|k: int| 0 <= k < i ==> (#[trigger] self@.tags[k]).id != id,
            decreases self.tags.len() - i,
        {
            if self.tags[i].id == id {
                return Some(i);
            }
            i += 1;
        }
        None
    }

    /// Position of the item carrying `id`, if any.
    fn find_item_pos(&self, id: ItemId) -> (r: Option<usize>)
        ensures
            match r {
                Some(k) => k < self@.items.len() && self@.items[k as int].id == id,
                None => !self@.item_has_id(id),
            },
    {
        let mut i: usize = 0;
        while i < self.items.len()
            invariant
                i <= self.items.len(),
                forall|k: int| 0 <= k < i ==> (#[trigger] self@.items[k]).id != id,
            decreases self.items.len() - i,
        {
            if self.items[i].id == id {
                return Some(i);
            }
            i += 1;
        }
        None
    }

    /// Position of the object record carrying `id`, if any.
    fn find_object_pos(&self, id: ItemObjectId) -> (r: Option<usize>)
        ensures
            match r {
                Some(k) => k < self@.objects.len() && self@.objects[k as int].id == id,
                None => !self@.object_has_id(id),
            },
    {
        let mut i: usize = 0;
        while i < self.objects.len()
            invariant
                i <= self.objects.len(),
                forall|k: int| 0 <= k < i ==> (#[trigger] self@.objects[k]).id != id,
            decreases self.objects.len() - i,
        {
            if self.objects[i].id == id {
                return Some(i);
            }
            i += 1;
        }
        None
    }

    /// Position of the first category named `name`, if any, tied to the
    /// first-match lookup that item creation resolves against.
    fn find_category_by_name(&self, name: &str) -> (r: Option<usize>)
        ensures
            match r {
                Some(k) => k < self@.categories.len() && self@.categories[k as int].name == name@
                    && first_match(self@.categories, |c: CategoryView| c.name == name@) == Some(
                    self@.categories[k as int],
                ),
                None => first_match(self@.categories, |c: CategoryView| c.name == name@) is None,
            },
    {
        let ghost pred = |c: CategoryView| c.name == name@;
        let mut i: usize = 0;
        while i < self.categories.len()
            invariant
                i <= self.categories.len(),
                forall|k: int| 0 <= k < i ==> !pred(#[trigger] self@.categories[k]),
                pred == (|c: CategoryView| c.name == name@),
            decreases self.categories.len() - i,
        {
            if str_eq(self.categories[i].name.as_str(), name) {
                proof {
                    assert(pred(self@.categories[i as int]));
                    lemma_first_match_at(self@.categories, pred, i as int);
                }
                return Some(i);
            }
            i += 1;
        }
        proof {
            lemma_first_match_none(self@.categories, pred);
        }
        None
    }

    /// Whether the exact association row `(item_id, tag_id)` is present.
    fn has_link(&self, item_id: ItemId, tag_id: TagId) -> (r: bool)
        ensures
            r == self@.linked(item_id, tag_id),
    {
        let mut i: usize = 0;
        while i < self.links.len()
            invariant
                i <= self.links.len(),
                forall|k: int| 0 <= k < i ==> #[trigger] self@.links[k] != (LinkRow {
                    item_id,
                    tag_id,
                }),
            decreases self.links.len() - i,
        {
            if self.links[i].item_id == item_id && self.links[i].tag_id == tag_id {
                proof {
                    assert(self@.links[i as int] == (LinkRow { item_id, tag_id }));
                }
                return true;
            }
            i += 1;
        }
        false
    }

    /// Removes the tag carrying `tag_id`, together with every association
    /// row that references it.
    ///
    /// Fails with `ItemNotFound` if no tag carries `tag_id`.
    pub fn remove_tag(&mut self, tag_id: TagId) -> (r: Result<(), DbError>)
        requires
            old(self)@.inv(),
        ensures
            final(self)@.inv(),
            (!old(self)@.tag_has_id(tag_id) ==> (r matches Err(e) && e is ItemNotFound) && final(self)@ == old(self)@),
            (old(self)@.tag_has_id(tag_id) ==> r is Ok && final(self)@.tags == old(self)@.tags.filter(|t: TagView| t.id != tag_id) && final(self)@.links == old(self)@.links.filter(|l: LinkRow| l.tag_id != tag_id) && final(self)@.categories == old(self)@.categories && final(self)@.items == old(self)@.items && final(self)@.objects == old(self)@.objects && final(self)@.next_id == old(self)@.next_id),
    {
        let ghost pre = self@;
        let pos = self.find_tag_pos(tag_id);
        if pos.is_none() {
            return Err(DbError::ItemNotFound);
        }
        proof {
            assert(pre.tag_has_id(tag_id));
        }
        let ghost tagp = |t: TagView| t.id != tag_id;
        let ghost linkp = |l: LinkRow| l.tag_id != tag_id;
        let mut kept_tags: Vec<Tag> = Vec::new();
        let mut i: usize = 0;
        while i < self.tags.len()
            invariant
                i <= self.tags.len(),
                self@ == pre,
                kept_tags@.map_values(|t: Tag| t@) == pre.tags.subrange(0, i as int).filter(tagp),
                tagp == (|t: TagView| t.id != tag_id),
            decreases self.tags.len() - i,
        {
            proof {
                lemma_filter_step(pre.tags, tagp, i as int);
            }
            if !(self.tags[i].id == tag_id) {
                kept_tags.push(self.tags[i].duplicate());
            }
            proof {
                assert(kept_tags@.map_values(|t: Tag| t@) =~= pre.tags.subrange(0, i + 1).filter(
                    tagp,
                ));
            }
            i += 1;
        }
        let mut kept_links: Vec<LinkRow> = Vec::new();
        let mut j: usize = 0;
        while j < self.links.len()
            invariant
                j <= self.links.len(),
                self@ == pre,
                kept_links@ == pre.links.subrange(0, j as int).filter(linkp),
                linkp == (|l: LinkRow| l.tag_id != tag_id),
            decreases self.links.len() - j,
        {
            proof {
                lemma_filter_step(pre.links, linkp, j as int);
            }
            let l = self.links[j];
            if !(l.tag_id == tag_id) {
                kept_links.push(l);
            }
            proof {
                assert(kept_links@ =~= pre.links.subrange(0, j + 1).filter(linkp));
            }
            j += 1;
        }
        self.tags = kept_tags;
        self.links = kept_links;
        proof {
            assert(pre.tags.subrange(0, pre.tags.len() as int) =~= pre.tags);
            assert(pre.links.subrange(0, pre.links.len() as int) =~= pre.links);
            let post = self@;
            assert(post.categories =~= pre.categories);
            assert(post.items =~= pre.items);
            assert(post.objects =~= pre.objects);
            let catp = |c: CategoryView| true;
            let itemp = |x: ItemRowView| true;
            let objp = |o: ObjectRowView| true;
            lemma_filter_all(pre.categories, catp);
            lemma_filter_all(pre.items, itemp);
            lemma_filter_all(pre.objects, objp);
            lemma_inv_filtered(pre, post, catp, tagp, itemp, objp, linkp);
        }
        Ok(())
    }

    /// Removes the item carrying `item_id`, together with every
    /// association row that references it. Object records are not removed
    /// along with their item: while any remain, removal is a constraint
    /// violation.
    ///
    /// Fails with `ItemNotFound` if no item carries `item_id`.
    pub fn remove_item(&mut self, item_id: ItemId) -> (r: Result<(), DbError>)
        requires
            old(self)@.inv(),
        ensures
            final(self)@.inv(),
            (!old(self)@.item_has_id(item_id) ==> (r matches Err(e) && e is ItemNotFound) && final(self)@ == old(self)@),
            (old(self)@.item_has_id(item_id) && old(self)@.item_owns_object(item_id) ==> (
            r matches Err(e) && e is DbError) && final(self)@ == old(self)@),
            (old(self)@.item_has_id(item_id) && !old(self)@.item_owns_object(item_id) ==> r is Ok
                && final(self)@.items == old(self)@.items.filter(
                |x: ItemRowView| x.id != item_id,
            ) && final(self)@.links == old(self)@.links.filter(|l: LinkRow| l.item_id != item_id)
                && final(self)@.categories == old(self)@.categories && final(self)@.tags == old(self)@.tags && final(self)@.objects == old(self)@.objects && final(self)@.next_id == old(self)@.next_id),
    {
        let ghost pre = self@;
        let pos = self.find_item_pos(item_id);
        if pos.is_none() {
            return Err(DbError::ItemNotFound);
        }
        proof {
            assert(pre.item_has_id(item_id));
        }
        let mut i: usize = 0;
        while i < self.objects.len()
            invariant
                i <= self.objects.len(),
                self@ == pre,
                old(self)@.inv(),
                pre == old(self)@,
                pre.item_has_id(item_id),
                forall|k: int| 0 <= k < i ==> (#[trigger] self@.objects[k]).item_id != item_id,
            decreases self.objects.len() - i,
        {
            if self.objects[i].item_id == item_id {
                proof {
                    assert(old(self)@.objects[i as int].item_id == item_id);
                    assert(old(self)@.item_owns_object(item_id));
                }
                return Err(DbError::DbError("item still owns object records".to_owned()));
            }
            i += 1;
        }
        let ghost itemp = |x: ItemRowView| x.id != item_id;
        let ghost linkp = |l: LinkRow| l.item_id != item_id;
        let mut kept_items: Vec<ItemRow> = Vec::new();
        let mut j: usize = 0;
        while j < self.items.len()
            invariant
                j <= self.items.len(),
                self@ == pre,
                kept_items@.map_values(|x: ItemRow| x@) == pre.items.subrange(0, j as int).filter(
                    itemp,
                ),
                itemp == (|x: ItemRowView| x.id != item_id),
            decreases self.items.len() - j,
        {
            proof {
                lemma_filter_step(pre.items, itemp, j as int);
            }
            if !(self.items[j].id == item_id) {
                let row = ItemRow {
                    id: self.items[j].id,
                    name: self.items[j].name.clone(),
                    category_id: self.items[j].category_id,
                };
                kept_items.push(row);
            }
            proof {
                assert(kept_items@.map_values(|x: ItemRow| x@) =~= pre.items.subrange(
                    0,
                    j + 1,
                ).filter(itemp));
            }
            j += 1;
        }
        let mut kept_links: Vec<LinkRow> = Vec::new();
        let mut m: usize = 0;
        while m < self.links.len()
            invariant
                m <= self.links.len(),
                self@ == pre,
                kept_links@ == pre.links.subrange(0, m as int).filter(linkp),
                linkp == (|l: LinkRow| l.item_id != item_id),
            decreases self.links.len() - m,
        {
            proof {
                lemma_filter_step(pre.links, linkp, m as int);
            }
            let l = self.links[m];
            if !(l.item_id == item_id) {
                kept_links.push(l);
            }
            proof {
                assert(kept_links@ =~= pre.links.subrange(0, m + 1).filter(linkp));
            }
            m += 1;
        }
        self.items = kept_items;
        self.links = kept_links;
        proof {
            assert(pre.items.subrange(0, pre.items.len() as int) =~= pre.items);
            assert(pre.links.subrange(0, pre.links.len() as int) =~= pre.links);
            let post = self@;
            assert(post.categories =~= pre.categories);
            assert(post.tags =~= pre.tags);
            assert(post.objects =~= pre.objects);
            let catp = |c: CategoryView| true;
            let tagp = |t: TagView| true;
            let objp = |o: ObjectRowView| true;
            lemma_filter_all(pre.categories, catp);
            lemma_filter_all(pre.tags, tagp);
            lemma_filter_all(pre.objects, objp);
            lemma_inv_filtered(pre, post, catp, tagp, itemp, objp, linkp);
        }
        Ok(())
    }

    /// Creates an item named `item_name` in the first category named
    /// `item_category`, and returns it already hydrated with empty tag and
    /// object sequences.
    ///
    /// Fails with `ItemNotFound` if no category with that name exists.
    pub fn add_item(&mut self, item_name: &str, item_category: &str) -> (r: Result<Item, DbError>)
        requires
            old(self)@.inv(),
            old(self)@.next_id < u64::MAX,
        ensures
            final(self)@.inv(),
            (first_match(old(self)@.categories, |c: CategoryView| c.name == item_category@)
                is None ==> (r matches Err(e) && e is ItemNotFound) && final(self)@ == old(self)@),
            (first_match(
                old(self)@.categories,
                |c: CategoryView| c.name == item_category@,
            ) matches Some(c) ==> (r matches Ok(it) && it@ == (ItemView {
                id: ItemId(old(self)@.next_id),
                name: item_name@,
                category: c,
                tags: Seq::<TagView>::empty(),
                objects: Seq::<ItemObjectView>::empty(),
            })) && final(self)@.items == old(self)@.items.push(
                ItemRowView { id: ItemId(old(self)@.next_id), name: item_name@, category_id: c.id },
            ) && final(self)@.categories == old(self)@.categories && final(self)@.tags == old(self)@.tags && final(self)@.objects == old(self)@.objects && final(self)@.links == old(self)@.links && final(self)@.next_id == old(self)@.next_id + 1),
    {
        let ghost pre = self@;
        let pos = match self.find_category_by_name(item_category) {
            None => {
                return Err(DbError::ItemNotFound);
            },
            Some(k) => k,
        };
        let cat = self.categories[pos].duplicate();
        let id = ItemId(self.next_id);
        self.next_id = self.next_id + 1;
        let row = ItemRow { id, name: item_name.to_owned(), category_id: cat.id };
        self.items.push(row);
        proof {
            let post = self@;
            assert(post.items =~= pre.items.push(
                ItemRowView { id, name: item_name@, category_id: cat.id },
            ));
            assert(post.categories =~= pre.categories);
            assert(post.tags =~= pre.tags);
            assert(post.objects =~= pre.objects);
            assert(post.links =~= pre.links);
            assert forall|k: int|
                0 <= k < post.items.len() implies post.cat_has_id(
                (#[trigger] post.items[k]).category_id,
            ) by {
                if k < pre.items.len() {
                    assert(pre.cat_has_id(pre.items[k].category_id));
                    let m = choose|m: int|
                        0 <= m < pre.categories.len() && pre.categories[m].id
                            == pre.items[k].category_id;
                    assert(post.categories[m].id == post.items[k].category_id);
                } else {
                    assert(post.categories[pos as int].id == post.items[k].category_id);
                }
            }
            assert forall|k: int|
                0 <= k < post.objects.len() implies post.item_has_id(
                (#[trigger] post.objects[k]).item_id,
            ) by {
                assert(pre.item_has_id(pre.objects[k].item_id));
                let m = choose|m: int|
                    0 <= m < pre.items.len() && pre.items[m].id == pre.objects[k].item_id;
                assert(post.items[m].id == post.objects[k].item_id);
            }
            assert forall|k: int|
                0 <= k < post.links.len() implies post.item_has_id(
                (#[trigger] post.links[k]).item_id,
            ) && post.tag_has_id(post.links[k].tag_id) by {
                assert(pre.item_has_id(pre.links[k].item_id));
                assert(pre.tag_has_id(pre.links[k].tag_id));
                let m = choose|m: int|
                    0 <= m < pre.items.len() && pre.items[m].id == pre.links[k].item_id;
                assert(post.items[m].id == post.links[k].item_id);
            }
        }
        let incomplete = ItemIncomplete { id, name: item_name.to_owned(), category: cat };
        let res = incomplete.fetch_related(self);
        proof {
            let post = self@;
            assert forall|k: int|
                0 <= k < post.links.len() implies !((#[trigger] post.links[k]).item_id == id) by {
                assert(pre.item_has_id(pre.links[k].item_id));
                let m = choose|m: int|
                    0 <= m < pre.items.len() && pre.items[m].id == pre.links[k].item_id;
            }
            lemma_filter_none(post.links, |l: LinkRow| l.item_id == id);
            assert(item_tags_of(post, id) =~= Seq::<TagView>::empty());
            assert forall|k: int|
                0 <= k < post.objects.len() implies !((#[trigger] post.objects[k]).item_id
                == id) by {
                assert(pre.item_has_id(pre.objects[k].item_id));
                let m = choose|m: int|
                    0 <= m < pre.items.len() && pre.items[m].id == pre.objects[k].item_id;
            }
            lemma_filter_none(post.objects, |o: ObjectRowView| o.item_id == id);
            assert(item_objects_of(post, id) =~= Seq::<ItemObjectView>::empty());
        }
        res
    }

    /// Creates an object record with the given code under the item
    /// carrying `item_id`, and returns it.
    ///
    /// Fails with `ItemNotFound` if no item carries `item_id`.
    pub fn add_item_object(&mut self, item_id: ItemId, item_code: &str) -> (r: Result<
        ItemObject,
        DbError,
    >)
        requires
            old(self)@.inv(),
            old(self)@.next_id < u64::MAX,
        ensures
            final(self)@.inv(),
            (!old(self)@.item_has_id(item_id) ==> (r matches Err(e) && e is ItemNotFound) && final(self)@ == old(self)@),
            (old(self)@.item_has_id(item_id) ==> (r matches Ok(o) && o@ == (ItemObjectView {
                id: ItemObjectId(old(self)@.next_id),
                item_code: Some(item_code@),
            })) && final(self)@.objects == old(self)@.objects.push(
                ObjectRowView {
                    id: ItemObjectId(old(self)@.next_id),
                    item_code: Some(item_code@),
                    item_id,
                },
            ) && final(self)@.categories == old(self)@.categories && final(self)@.tags == old(self)@.tags && final(self)@.items == old(self)@.items && final(self)@.links == old(self)@.links && final(self)@.next_id == old(self)@.next_id + 1),
    {
        let ghost pre = self@;
        if self.find_item_pos(item_id).is_none() {
            return Err(DbError::ItemNotFound);
        }
        proof {
            assert(pre.item_has_id(item_id));
        }
        let oid = ItemObjectId(self.next_id);
        self.next_id = self.next_id + 1;
        let row = ObjectRow { id: oid, item_code: Some(item_code.to_owned()), item_id };
        let result = row.to_item_object();
        self.objects.push(row);
        proof {
            let post = self@;
            assert(post.objects =~= pre.objects.push(
                ObjectRowView { id: oid, item_code: Some(item_code@), item_id },
            ));
            assert(post.categories =~= pre.categories);
            assert(post.tags =~= pre.tags);
            assert(post.items =~= pre.items);
            assert(post.links =~= pre.links);
            assert forall|k: int|
                0 <= k < post.items.len() implies post.cat_has_id(
                (#[trigger] post.items[k]).category_id,
            ) by {
                assert(pre.cat_has_id(pre.items[k].category_id));
            }
            assert forall|k: int|
                0 <= k < post.objects.len() implies post.item_has_id(
                (#[trigger] post.objects[k]).item_id,
            ) by {
                if k < pre.objects.len() {
                    assert(pre.item_has_id(pre.objects[k].item_id));
                } else {
                    assert(pre.item_has_id(item_id));
                }
            }
            assert forall|k: int|
                0 <= k < post.links.len() implies post.item_has_id(
                (#[trigger] post.links[k]).item_id,
            ) && post.tag_has_id(post.links[k].tag_id) by {
                assert(pre.item_has_id(pre.links[k].item_id));
                assert(pre.tag_has_id(pre.links[k].tag_id));
            }
        }
        Ok(result)
    }

    /// Removes the object record carrying `item_object_id`.
    ///
    /// Fails with `ItemNotFound` if no object record carries it.
    pub fn remove_item_object(&mut self, item_object_id: ItemObjectId) -> (r: Result<(), DbError>)
        requires
            old(self)@.inv(),
        ensures
            final(self)@.inv(),
            (!old(self)@.object_has_id(item_object_id) ==> (r matches Err(e) && e is ItemNotFound)
                && final(self)@ == old(self)@),
            (old(self)@.object_has_id(item_object_id) ==> r is Ok && final(self)@.objects == old(self)@.objects.filter(|o: ObjectRowView| o.id != item_object_id) && final(self)@.categories
                == old(self)@.categories && final(self)@.tags == old(self)@.tags && final(self)@.items == old(self)@.items && final(self)@.links == old(self)@.links && final(self)@.next_id == old(self)@.next_id),
    {
        let ghost pre = self@;
        if self.find_object_pos(item_object_id).is_none() {
            return Err(DbError::ItemNotFound);
        }
        proof {
            assert(pre.object_has_id(item_object_id));
        }
        let ghost objp = |o: ObjectRowView| o.id != item_object_id;
        let mut kept: Vec<ObjectRow> = Vec::new();
        let mut i: usize = 0;
        while i < self.objects.len()
            invariant
                i <= self.objects.len(),
                self@ == pre,
                kept@.map_values(|o: ObjectRow| o@) == pre.objects.subrange(0, i as int).filter(
                    objp,
                ),
                objp == (|o: ObjectRowView| o.id != item_object_id),
            decreases self.objects.len() - i,
        {
            proof {
                lemma_filter_step(pre.objects, objp, i as int);
            }
            if !(self.objects[i].id == item_object_id) {
                let row = ObjectRow {
                    id: self.objects[i].id,
                    item_code: match &self.objects[i].item_code {
                        Some(c) => Some(c.clone()),
                        None => None,
                    },
                    item_id: self.objects[i].item_id,
                };
                kept.push(row);
            }
            proof {
                assert(kept@.map_values(|o: ObjectRow| o@) =~= pre.objects.subrange(
                    0,
                    i + 1,
                ).filter(objp));
            }
            i += 1;
        }
        self.objects = kept;
        proof {
            assert(pre.objects.subrange(0, pre.objects.len() as int) =~= pre.objects);
            let post = self@;
            assert(post.categories =~= pre.categories);
            assert(post.tags =~= pre.tags);
            assert(post.items =~= pre.items);
            assert(post.links =~= pre.links);
            let catp = |c: CategoryView| true;
            let tagp = |t: TagView| true;
            let itemp = |x: ItemRowView| true;
            let linkp = |l: LinkRow| true;
            lemma_filter_all(pre.categories, catp);
            lemma_filter_all(pre.tags, tagp);
            lemma_filter_all(pre.items, itemp);
            lemma_filter_all(pre.links, linkp);
            lemma_inv_filtered(pre, post, catp, tagp, itemp, objp, linkp);
        }
        Ok(())
    }

    /// Links the item to the tag. Linking an already-linked pair succeeds
    /// silently and leaves the store unchanged.
    ///
    /// Fails with `ItemNotFound` if either end of the pair does not exist.
    pub fn add_item_tag(&mut self, item_id: ItemId, tag_id: TagId) -> (r: Result<(), DbError>)
        requires
            old(self)@.inv(),
        ensures
            final(self)@.inv(),
            ((!old(self)@.item_has_id(item_id) || !old(self)@.tag_has_id(tag_id)) ==> (
            r matches Err(e) && e is ItemNotFound) && final(self)@ == old(self)@),
            (old(self)@.item_has_id(item_id) && old(self)@.tag_has_id(tag_id) && old(self)@.linked(
                item_id,
                tag_id,
            ) ==> r is Ok && final(self)@ == old(self)@),
            (old(self)@.item_has_id(item_id) && old(self)@.tag_has_id(tag_id) && !old(self)@.linked(item_id, tag_id) ==> r is Ok && final(self)@.links == old(self)@.links.push(
                LinkRow { item_id, tag_id },
            ) && final(self)@.categories == old(self)@.categories && final(self)@.tags == old(self)@.tags && final(self)@.items == old(self)@.items && final(self)@.objects == old(self)@.objects && final(self)@.next_id == old(self)@.next_id),
    {
        let ghost pre = self@;
        if self.find_item_pos(item_id).is_none() {
            return Err(DbError::ItemNotFound);
        }
        if self.find_tag_pos(tag_id).is_none() {
            return Err(DbError::ItemNotFound);
        }
        proof {
            assert(pre.item_has_id(item_id));
            assert(pre.tag_has_id(tag_id));
        }
        if self.has_link(item_id, tag_id) {
            return Ok(());
        }
        self.links.push(LinkRow { item_id, tag_id });
        proof {
            let post = self@;
            assert(post.links =~= pre.links.push(LinkRow { item_id, tag_id }));
            assert(post.categories =~= pre.categories);
            assert(post.tags =~= pre.tags);
            assert(post.items =~= pre.items);
            assert(post.objects =~= pre.objects);
            assert forall|k: int|
                0 <= k < pre.links.len() implies #[trigger] pre.links[k] != (LinkRow {
                item_id,
                tag_id,
            }) by {
                if pre.links[k] == (LinkRow { item_id, tag_id }) {
                    assert(pre.links.contains(LinkRow { item_id, tag_id }));
                }
            }
            assert forall|k: int|
                0 <= k < post.items.len() implies post.cat_has_id(
                (#[trigger] post.items[k]).category_id,
            ) by {
                assert(pre.cat_has_id(pre.items[k].category_id));
            }
            assert forall|k: int|
                0 <= k < post.objects.len() implies post.item_has_id(
                (#[trigger] post.objects[k]).item_id,
            ) by {
                assert(pre.item_has_id(pre.objects[k].item_id));
            }
            assert forall|k: int|
                0 <= k < post.links.len() implies post.item_has_id(
                (#[trigger] post.links[k]).item_id,
            ) && post.tag_has_id(post.links[k].tag_id) by {
                if k < pre.links.len() {
                    assert(pre.item_has_id(pre.links[k].item_id));
                    assert(pre.tag_has_id(pre.links[k].tag_id));
                } else {
                    assert(pre.item_has_id(item_id));
                    assert(pre.tag_has_id(tag_id));
                }
            }
        }
        Ok(())
    }

    /// Unlinks the item from the tag. Unlinking a pair that is not linked
    /// succeeds silently and leaves the store unchanged.
    pub fn remove_item_tag(&mut self, item_id: ItemId, tag_id: TagId) -> (r: Result<(), DbError>)
        requires
            old(self)@.inv(),
        ensures
            final(self)@.inv(),
            r is Ok,
            final(self)@.links == old(self)@.links.filter(
                |l: LinkRow| l != (LinkRow { item_id, tag_id }),
            ),
            final(self)@.categories == old(self)@.categories,
            final(self)@.tags == old(self)@.tags,
            final(self)@.items == old(self)@.items,
            final(self)@.objects == old(self)@.objects,
            final(self)@.next_id == old(self)@.next_id,
    {
        let ghost pre = self@;
        let ghost linkp = |l: LinkRow| l != (LinkRow { item_id, tag_id });
        let mut kept: Vec<LinkRow> = Vec::new();
        let mut i: usize = 0;
        while i < self.links.len()
            invariant
                i <= self.links.len(),
                self@ == pre,
                kept@ == pre.links.subrange(0, i as int).filter(linkp),
                linkp == (|l: LinkRow| l != (LinkRow { item_id, tag_id })),
            decreases self.links.len() - i,
        {
            proof {
                lemma_filter_step(pre.links, linkp, i as int);
            }
            let l = self.links[i];
            if !(l.item_id == item_id && l.tag_id == tag_id) {
                kept.push(l);
            }
            proof {
                assert(kept@ =~= pre.links.subrange(0, i + 1).filter(linkp));
            }
            i += 1;
        }
        self.links = kept;
        proof {
            assert(pre.links.subrange(0, pre.links.len() as int) =~= pre.links);
            let post = self@;
            assert(post.categories =~= pre.categories);
            assert(post.tags =~= pre.tags);
            assert(post.items =~= pre.items);
            assert(post.objects =~= pre.objects);
            let catp = |c: CategoryView| true;
            let tagp = |t: TagView| true;
            let itemp = |x: ItemRowView| true;
            let objp = |o: ObjectRowView| true;
            lemma_filter_all(pre.categories, catp);
            lemma_filter_all(pre.tags, tagp);
            lemma_filter_all(pre.items, itemp);
            lemma_filter_all(pre.objects, objp);
            lemma_inv_filtered(pre, post, catp, tagp, itemp, objp, linkp);
        }
        Ok(())
    }

    /// Every object record owned by the item, in insertion order; an empty
    /// sequence (not an error) when there are none.
    pub fn get_item_objects(&self, item_id: ItemId) -> (r: Result<Vec<ItemObject>, DbError>)
        ensures
            (r matches Ok(v) && v@.map_values(|o: ItemObject| o@) == item_objects_of(
                self@,
                item_id,
            )),
    {
        let ghost objp = |o: ObjectRowView| o.item_id == item_id;
        let mut out: Vec<ItemObject> = Vec::new();
        let mut i: usize = 0;
        while i < self.objects.len()
            invariant
                i <= self.objects.len(),
                out@.map_values(|o: ItemObject| o@) == self@.objects.subrange(0, i as int).filter(
                    objp,
                ).map_values(|o: ObjectRowView| ItemObjectView { id: o.id, item_code: o.item_code }),
                objp == (|o: ObjectRowView| o.item_id == item_id),
            decreases self.objects.len() - i,
        {
            proof {
                lemma_filter_step(self@.objects, objp, i as int);
            }
            let ghost out_pre = out@;
            if self.objects[i].item_id == item_id {
                out.push(self.objects[i].to_item_object());
            }
            proof {
                let fobj = |o: ObjectRowView| ItemObjectView { id: o.id, item_code: o.item_code };
                let x = self@.objects[i as int];
                if objp(x) {
                    lemma_map_values_push(self@.objects.subrange(0, i as int).filter(objp), fobj, x);
                    lemma_map_values_push(out_pre, |o: ItemObject| o@, out@.last());
                    assert(out@ =~= out_pre.push(out@.last()));
                }
                assert(out@.map_values(|o: ItemObject| o@) =~= self@.objects.subrange(
                    0,
                    i + 1,
                ).filter(objp).map_values(fobj));
            }
            i += 1;
        }
        proof {
            assert(self@.objects.subrange(0, self@.objects.len() as int) =~= self@.objects);
        }
        Ok(out)
    }

    /// Every tag linked to the item, in association-insertion order; an
    /// empty sequence (not an error) when there are none.
    pub fn get_item_tags(&self, item_id: ItemId) -> (r: Result<Vec<Tag>, DbError>)
        requires
            self@.inv(),
        ensures
            (r matches Ok(v) && v@.map_values(|t: Tag| t@) == item_tags_of(self@, item_id)),
    {
        let ghost lp = |l: LinkRow| l.item_id == item_id;
        let mut out: Vec<Tag> = Vec::new();
        let mut i: usize = 0;
        while i < self.links.len()
            invariant
                i <= self.links.len(),
                self@.inv(),
                out@.map_values(|t: Tag| t@) == self@.links.subrange(0, i as int).filter(
                    lp,
                ).map_values(|l: LinkRow| tag_by_id(self@, l.tag_id)),
                lp == (|l: LinkRow| l.item_id == item_id),
            decreases self.links.len() - i,
        {
            proof {
                lemma_filter_step(self@.links, lp, i as int);
            }
            let l = self.links[i];
            if l.item_id == item_id {
                let k = match self.find_tag_pos(l.tag_id) {
                    Some(k) => k,
                    None => {
                        proof {
                            assert(self@.tag_has_id((#[trigger] self@.links[i as int]).tag_id));
                            assert(false);
                        }
                        return Err(DbError::ItemNotFound);
                    },
                };
                let ghost out_pre = out@;
                out.push(self.tags[k].duplicate());
                proof {
                    lemma_tag_by_id_is(self@, k as int);
                    let ftag = |l2: LinkRow| tag_by_id(self@, l2.tag_id);
                    let x = self@.links[i as int];
                    assert(ftag(x) == self@.tags[k as int]);
                    lemma_map_values_push(self@.links.subrange(0, i as int).filter(lp), ftag, x);
                    lemma_map_values_push(out_pre, |t: Tag| t@, out@.last());
                    assert(out@ =~= out_pre.push(out@.last()));
                    assert(out@.map_values(|t: Tag| t@) =~= self@.links.subrange(0, i + 1).filter(
                        lp,
                    ).map_values(ftag));
                }
            } else {
                proof {
                    assert(out@.map_values(|t: Tag| t@) =~= self@.links.subrange(0, i + 1).filter(
                        lp,
                    ).map_values(|l2: LinkRow| tag_by_id(self@, l2.tag_id)));
                }
            }
            i += 1;
        }
        proof {
            assert(self@.links.subrange(0, self@.links.len() as int) =~= self@.links);
        }
        Ok(out)
    }
}

/// The tag at a known position is the tag its identifier resolves to.
pub(crate) proof fn lemma_tag_by_id_is(s: StoreView, k: int)
    requires
        s.inv(),
        0 <= k < s.tags.len(),
    ensures
        tag_by_id(s, s.tags[k].id) == s.tags[k],
{
    let id = s.tags[k].id;
    assert(exists|m: int| 0 <= m < s.tags.len() && s.tags[m].id == id);
    let k2 = tag_index_of(s.tags, id);
    assert(0 <= k2 < s.tags.len() && s.tags[k2].id == id);
    if k2 < k {
        assert(s.tags[k2].id != s.tags[k].id);
    } else if k2 > k {
        assert(s.tags[k].id != s.tags[k2].id);
    }
}

/// The category at a known position is the category its identifier
/// resolves to.
pub(crate) proof fn lemma_category_by_id_is(s: StoreView, k: int)
    requires
        s.inv(),
        0 <= k < s.categories.len(),
    ensures
        category_by_id(s, s.categories[k].id) == s.categories[k],
{
    let id = s.categories[k].id;
    assert(exists|m: int| 0 <= m < s.categories.len() && s.categories[m].id == id);
    let k2 = cat_index_of(s.categories, id);
    assert(0 <= k2 < s.categories.len() && s.categories[k2].id == id);
    if k2 < k {
        assert(s.categories[k2].id != s.categories[k].id);
    } else if k2 > k {
        assert(s.categories[k].id != s.categories[k2].id);
    }
}

impl ObjectRow {
    /// The object record as handed to callers, without the owning item
    /// reference.
    pub fn to_item_object(&self) -> (r: ItemObject)
        ensures
            r@ == (ItemObjectView { id: self@.id, item_code: self@.item_code }),
    {
        ItemObject {
            id: self.id,
            item_code: match &self.item_code {
                Some(c) => Some(c.clone()),
                None => None,
            },
        }
    }
}

impl ItemIncomplete {
    /// Hydrates this candidate into the full aggregate by fetching its
    /// tags and objects from the store.
    pub fn fetch_related(self, repo: &Repository) -> (r: Result<Item, DbError>)
        requires
            repo@.inv(),
        ensures
            (r matches Ok(it) && it@ == (ItemView {
                id: self.id,
                name: self@.name,
                category: self@.category,
                tags: item_tags_of(repo@, self.id),
                objects: item_objects_of(repo@, self.id),
            })),
    {
        let objects = match repo.get_item_objects(self.id) {
            Ok(v) => v,
            Err(e) => {
                return Err(e);
            },
        };
        let tags = match repo.get_item_tags(self.id) {
            Ok(v) => v,
            Err(e) => {
                return Err(e);
            },
        };
        Ok(Item { id: self.id, name: self.name, category: self.category, tags, objects })
    }
}

} // verus!
