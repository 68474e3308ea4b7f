//! The five persisted entity types and their mathematical views.
//!
//! Every entity carries an opaque unique identifier, generated by the store
//! on creation and immutable thereafter; identifiers are modeled as plain
//! 64-bit integers.

use vstd::prelude::*;

verus! {

/// Identifier of a [`Category`].
#[derive(Clone, Copy, Debug, PartialEq, Eq, Structural, Hash)]
pub struct CategoryId(pub u64);

/// A category of items; its name is free text and not required to be unique.
#[derive(Clone, Debug)]
pub struct Category {
    pub id: CategoryId,
    pub name: String,
}

/// Identifier of a [`Tag`].
#[derive(Clone, Copy, Debug, PartialEq, Eq, Structural, Hash)]
pub struct TagId(pub u64);

/// A tag; items carry any number of tags through the item-tag association.
#[derive(Clone, Debug)]
pub struct Tag {
    pub id: TagId,
    pub name: String,
}

/// Identifier of an [`ItemObject`].
#[derive(Clone, Copy, Debug, PartialEq, Eq, Structural, Hash)]
pub struct ItemObjectId(pub u64);

/// A physical-object record owned by exactly one item.
#[derive(Clone, Debug)]
pub struct ItemObject {
    pub id: ItemObjectId,
    pub item_code: Option<String>,
}

/// Identifier of an [`Item`].
#[derive(Clone, Copy, Debug, PartialEq, Eq, Structural, Hash)]
pub struct ItemId(pub u64);

/// A candidate surfaced by the filter query: an item identity with its
/// category resolved, prior to tag/object hydration.
#[derive(Debug)]
pub struct ItemIncomplete {
    pub id: ItemId,
    pub name: String,
    pub category: Category,
}

/// The fully assembled item aggregate returned to callers: the item's
/// identity, its embedded category, and its complete tag and object sets.
#[derive(Clone, Debug)]
pub struct Item {
    pub id: ItemId,
    pub name: String,
    pub category: Category,
    pub tags: Vec<Tag>,
    pub objects: Vec<ItemObject>,
}

/// Mathematical view of a [`Category`].
pub struct CategoryView {
    pub id: CategoryId,
    pub name: Seq<char>,
}

/// Mathematical view of a [`Tag`].
pub struct TagView {
    pub id: TagId,
    pub name: Seq<char>,
}

/// Mathematical view of an [`ItemObject`].
pub struct ItemObjectView {
    pub id: ItemObjectId,
    pub item_code: Option<Seq<char>>,
}

/// Mathematical view of an [`ItemIncomplete`].
pub struct ItemIncompleteView {
    pub id: ItemId,
    pub name: Seq<char>,
    pub category: CategoryView,
}

/// Mathematical view of an [`Item`].
pub struct ItemView {
    pub id: ItemId,
    pub name: Seq<char>,
    pub category: CategoryView,
    pub tags: Seq<TagView>,
    pub objects: Seq<ItemObjectView>,
}

impl View for Category {
    type V = CategoryView;

    open spec fn view(&self) -> CategoryView {
        CategoryView { id: self.id, name: self.name@ }
    }
}

impl View for Tag {
    type V = TagView;

    open spec fn view(&self) -> TagView {
        TagView { id: self.id, name: self.name@ }
    }
}

impl View for ItemObject {
    type V = ItemObjectView;

    open spec fn view(&self) -> ItemObjectView {
        ItemObjectView {
            id: self.id,
            item_code: match self.item_code {
                Some(c) => Some(c@),
                None => None,
            },
        }
    }
}

impl View for ItemIncomplete {
    type V = ItemIncompleteView;

    open spec fn view(&self) -> ItemIncompleteView {
        ItemIncompleteView { id: self.id, name: self.name@, category: self.category@ }
    }
}

impl View for Item {
    type V = ItemView;

    open spec fn view(&self) -> ItemView {
        ItemView {
            id: self.id,
            name: self.name@,
            category: self.category@,
            tags: self.tags@.map_values(|t: Tag| t@),
            objects: self.objects@.map_values(|o: ItemObject| o@),
        }
    }
}

impl Category {
    /// An equal copy of this category.
    pub fn duplicate(&self) -> (r: Category)
        ensures
            r == *self,
    {
        Category { id: self.id, name: self.name.clone() }
    }
}

impl Tag {
    /// An equal copy of this tag.
    pub fn duplicate(&self) -> (r: Tag)
        ensures
            r == *self,
    {
        Tag { id: self.id, name: self.name.clone() }
    }
}

impl ItemObject {
    /// An equal copy of this object record.
    pub fn duplicate(&self) -> (r: ItemObject)
        ensures
            r == *self,
    {
        ItemObject {
            id: self.id,
            item_code: match &self.item_code {
                Some(c) => Some(c.clone()),
                None => None,
            },
        }
    }
}

/// Failure taxonomy of the store and the search engine.
///
/// `ItemNotFound` reports a removal or lookup that targets a nonexistent
/// identifier or name (including an item creation naming an unknown
/// category). `DbError` wraps any underlying storage failure, such as a
/// constraint violation, with a short description.
#[derive(Clone, Debug)]
pub enum DbError {
    ItemNotFound,
    DbError(String),
}

} // verus!
