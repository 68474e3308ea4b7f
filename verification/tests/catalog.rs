use catalog::data::{Category, CategoryId, DbError, ItemId, TagId};
use catalog::hydration::Hydrator;
use catalog::data::ItemIncomplete;
use catalog::state::{AdminState, SearchQuery};
use catalog::store::Repository;

fn names_of(items: &[catalog::data::Item]) -> Vec<String> {
    let mut out = Vec::new();
    for it in items {
        out.push(it.name.clone());
    }
    out
}

/// A store holding the category "Tools" with items "Hammer" (no tags) and
/// "Saw" (tagged "Electric").
fn tools_store() -> Repository {
    let mut repo = Repository::new();
    repo.add_category("Tools").unwrap();
    let hammer = repo.add_item("Hammer", "Tools").unwrap();
    let saw = repo.add_item("Saw", "Tools").unwrap();
    let electric = repo.add_tag("Electric").unwrap();
    repo.add_item_tag(saw.id, electric.id).unwrap();
    assert_eq!(hammer.tags.len(), 0);
    assert_eq!(hammer.objects.len(), 0);
    repo
}

#[test]
fn scenario_exclusion_drops_tagged_item() {
    let repo = tools_store();
    let excluded = vec!["Electric".to_string()];
    let found = repo.search_items(None, &excluded, "Tools").unwrap();
    assert_eq!(names_of(&found), vec!["Hammer".to_string()]);
}

#[test]
fn scenario_substring_query() {
    let repo = tools_store();
    let found = repo.search_items(Some("Ham"), &[], "Tools").unwrap();
    assert_eq!(names_of(&found), vec!["Hammer".to_string()]);
}

#[test]
fn scenario_unknown_category_is_empty() {
    let repo = tools_store();
    let found = repo.search_items(None, &[], "Nonexistent").unwrap();
    assert!(found.is_empty());
}

#[test]
fn absent_query_matches_every_name() {
    let repo = tools_store();
    let found = repo.search_items(None, &[], "Tools").unwrap();
    assert_eq!(
        names_of(&found),
        vec!["Hammer".to_string(), "Saw".to_string()]
    );
}

#[test]
fn empty_query_matches_every_name() {
    let repo = tools_store();
    let found = repo.search_items(Some(""), &[], "Tools").unwrap();
    assert_eq!(found.len(), 2);
}

#[test]
fn category_match_is_exact_never_partial() {
    let mut repo = Repository::new();
    repo.add_category("Tools").unwrap();
    repo.add_category("Tool").unwrap();
    repo.add_item("Hammer", "Tools").unwrap();
    repo.add_item("Chisel", "Tool").unwrap();
    let found = repo.search_items(None, &[], "Tool").unwrap();
    assert_eq!(names_of(&found), vec!["Chisel".to_string()]);
}

#[test]
fn query_match_is_case_sensitive() {
    let repo = tools_store();
    let found = repo.search_items(Some("ham"), &[], "Tools").unwrap();
    assert!(found.is_empty());
}

#[test]
fn search_is_idempotent_against_unchanged_store() {
    let repo = tools_store();
    let excluded = vec!["Electric".to_string()];
    let first = repo.search_items(Some("a"), &excluded, "Tools").unwrap();
    let second = repo.search_items(Some("a"), &excluded, "Tools").unwrap();
    assert_eq!(first.len(), second.len());
    for (a, b) in first.iter().zip(second.iter()) {
        assert_eq!(a.id.0, b.id.0);
        assert_eq!(a.name, b.name);
        assert_eq!(a.tags.len(), b.tags.len());
        assert_eq!(a.objects.len(), b.objects.len());
    }
}

#[test]
fn round_trip_added_item_is_found_empty() {
    let mut repo = Repository::new();
    repo.add_category("Garden").unwrap();
    let rake = repo.add_item("Rake", "Garden").unwrap();
    assert!(rake.tags.is_empty());
    assert!(rake.objects.is_empty());
    let found = repo.search_items(Some("Rake"), &[], "Garden").unwrap();
    assert_eq!(found.len(), 1);
    assert_eq!(found[0].id.0, rake.id.0);
    assert!(found[0].tags.is_empty());
    assert!(found[0].objects.is_empty());
}

#[test]
fn exclusion_is_complete_over_several_tags() {
    let mut repo = Repository::new();
    repo.add_category("Tools").unwrap();
    let saw = repo.add_item("Saw", "Tools").unwrap();
    let drill = repo.add_item("Drill", "Tools").unwrap();
    let hammer = repo.add_item("Hammer", "Tools").unwrap();
    let electric = repo.add_tag("Electric").unwrap();
    let heavy = repo.add_tag("Heavy").unwrap();
    repo.add_item_tag(saw.id, electric.id).unwrap();
    repo.add_item_tag(drill.id, heavy.id).unwrap();
    repo.add_item_tag(hammer.id, heavy.id).unwrap();
    let excluded = vec!["Electric".to_string(), "Heavy".to_string()];
    let found = repo.search_items(None, &excluded, "Tools").unwrap();
    assert!(found.is_empty());
    for it in &repo.search_items(None, &vec!["Electric".to_string()], "Tools").unwrap() {
        for tag in &it.tags {
            assert_ne!(tag.name, "Electric");
        }
    }
}

#[test]
fn hydrated_aggregate_carries_tags_and_objects() {
    let mut repo = Repository::new();
    repo.add_category("Tools").unwrap();
    let saw = repo.add_item("Saw", "Tools").unwrap();
    let electric = repo.add_tag("Electric").unwrap();
    repo.add_item_tag(saw.id, electric.id).unwrap();
    let obj = repo.add_item_object(saw.id, "SN-0001").unwrap();
    assert_eq!(obj.item_code.as_deref(), Some("SN-0001"));
    let found = repo.search_items(None, &[], "Tools").unwrap();
    assert_eq!(found.len(), 1);
    assert_eq!(found[0].category.name, "Tools");
    assert_eq!(found[0].tags.len(), 1);
    assert_eq!(found[0].tags[0].name, "Electric");
    assert_eq!(found[0].objects.len(), 1);
    assert_eq!(found[0].objects[0].item_code.as_deref(), Some("SN-0001"));
}

#[test]
fn empty_store_yields_empty_search() {
    let repo = Repository::new();
    let found = repo.search_items(None, &[], "Tools").unwrap();
    assert!(found.is_empty());
}

#[test]
fn add_item_unknown_category_fails() {
    let mut repo = Repository::new();
    let res = repo.add_item("Hammer", "Tools");
    assert!(matches!(res, Err(DbError::ItemNotFound)));
}

#[test]
fn add_item_resolves_first_category_of_that_name() {
    let mut repo = Repository::new();
    let first = repo.add_category("Tools").unwrap();
    let second = repo.add_category("Tools").unwrap();
    assert_ne!(first.id.0, second.id.0);
    let hammer = repo.add_item("Hammer", "Tools").unwrap();
    assert_eq!(hammer.category.id.0, first.id.0);
}

#[test]
fn remove_category_missing_id_fails() {
    let mut repo = Repository::new();
    let res = repo.remove_category(CategoryId(42));
    assert!(matches!(res, Err(DbError::ItemNotFound)));
}

#[test]
fn remove_category_still_referenced_fails() {
    let mut repo = Repository::new();
    let tools = repo.add_category("Tools").unwrap();
    repo.add_item("Hammer", "Tools").unwrap();
    let res = repo.remove_category(tools.id);
    assert!(matches!(res, Err(DbError::DbError(_))));
    assert_eq!(repo.get_categories().unwrap().len(), 1);
}

#[test]
fn remove_category_unreferenced_succeeds() {
    let mut repo = Repository::new();
    let tools = repo.add_category("Tools").unwrap();
    repo.add_category("Garden").unwrap();
    repo.remove_category(tools.id).unwrap();
    let cats = repo.get_categories().unwrap();
    assert_eq!(cats.len(), 1);
    assert_eq!(cats[0].name, "Garden");
}

#[test]
fn remove_tag_cascades_association_rows() {
    let mut repo = Repository::new();
    repo.add_category("Tools").unwrap();
    let saw = repo.add_item("Saw", "Tools").unwrap();
    let electric = repo.add_tag("Electric").unwrap();
    repo.add_item_tag(saw.id, electric.id).unwrap();
    assert_eq!(repo.get_item_tags(saw.id).unwrap().len(), 1);
    repo.remove_tag(electric.id).unwrap();
    assert!(repo.get_tags().unwrap().is_empty());
    assert!(repo.get_item_tags(saw.id).unwrap().is_empty());
}

#[test]
fn remove_missing_tag_fails() {
    let mut repo = Repository::new();
    assert!(matches!(repo.remove_tag(TagId(7)), Err(DbError::ItemNotFound)));
}

#[test]
fn remove_item_owning_objects_fails() {
    let mut repo = Repository::new();
    repo.add_category("Tools").unwrap();
    let saw = repo.add_item("Saw", "Tools").unwrap();
    let obj = repo.add_item_object(saw.id, "SN-1").unwrap();
    assert!(matches!(repo.remove_item(saw.id), Err(DbError::DbError(_))));
    repo.remove_item_object(obj.id).unwrap();
    repo.remove_item(saw.id).unwrap();
    assert!(repo.search_items(None, &[], "Tools").unwrap().is_empty());
}

#[test]
fn remove_item_cascades_association_rows() {
    let mut repo = Repository::new();
    repo.add_category("Tools").unwrap();
    let saw = repo.add_item("Saw", "Tools").unwrap();
    let electric = repo.add_tag("Electric").unwrap();
    repo.add_item_tag(saw.id, electric.id).unwrap();
    repo.remove_item(saw.id).unwrap();
    let saw_again = repo.add_item("Saw", "Tools").unwrap();
    assert!(repo.get_item_tags(saw_again.id).unwrap().is_empty());
}

#[test]
fn remove_missing_item_fails() {
    let mut repo = Repository::new();
    assert!(matches!(repo.remove_item(ItemId(3)), Err(DbError::ItemNotFound)));
}

#[test]
fn add_item_object_unknown_item_fails() {
    let mut repo = Repository::new();
    let res = repo.add_item_object(ItemId(9), "SN-2");
    assert!(matches!(res, Err(DbError::ItemNotFound)));
}

#[test]
fn link_is_idempotent_and_unlink_is_silent() {
    let mut repo = Repository::new();
    repo.add_category("Tools").unwrap();
    let saw = repo.add_item("Saw", "Tools").unwrap();
    let electric = repo.add_tag("Electric").unwrap();
    repo.add_item_tag(saw.id, electric.id).unwrap();
    repo.add_item_tag(saw.id, electric.id).unwrap();
    assert_eq!(repo.get_item_tags(saw.id).unwrap().len(), 1);
    repo.remove_item_tag(saw.id, electric.id).unwrap();
    repo.remove_item_tag(saw.id, electric.id).unwrap();
    assert!(repo.get_item_tags(saw.id).unwrap().is_empty());
}

#[test]
fn link_with_missing_end_fails() {
    let mut repo = Repository::new();
    repo.add_category("Tools").unwrap();
    let saw = repo.add_item("Saw", "Tools").unwrap();
    assert!(matches!(
        repo.add_item_tag(saw.id, TagId(77)),
        Err(DbError::ItemNotFound)
    ));
    assert!(matches!(
        repo.add_item_tag(ItemId(77), TagId(77)),
        Err(DbError::ItemNotFound)
    ));
}

#[test]
fn relationship_lookups_of_unknown_item_are_empty() {
    let repo = tools_store();
    assert!(repo.get_item_tags(ItemId(999)).unwrap().is_empty());
    assert!(repo.get_item_objects(ItemId(999)).unwrap().is_empty());
}

#[test]
fn listing_returns_insertion_order() {
    let mut repo = Repository::new();
    repo.add_category("A").unwrap();
    repo.add_category("B").unwrap();
    repo.add_tag("x").unwrap();
    repo.add_tag("y").unwrap();
    let cats = repo.get_categories().unwrap();
    assert_eq!(cats.len(), 2);
    assert_eq!(cats[0].name, "A");
    assert_eq!(cats[1].name, "B");
    let tags = repo.get_tags().unwrap();
    assert_eq!(tags[0].name, "x");
    assert_eq!(tags[1].name, "y");
}

fn sample_candidate(n: u64, name: &str) -> ItemIncomplete {
    ItemIncomplete {
        id: ItemId(n),
        name: name.to_string(),
        category: Category { id: CategoryId(0), name: "Tools".to_string() },
    }
}

#[test]
fn hydrator_preserves_candidate_order() {
    let cands = vec![sample_candidate(1, "Hammer"), sample_candidate(2, "Saw")];
    let mut hyd = Hydrator::new(cands);
    let first = hyd.next_task().unwrap();
    let second = hyd.next_task().unwrap();
    assert_eq!((first, second), (0, 1));
    // completion in the opposite order: results still land positionally
    hyd.complete(second, Vec::new(), Vec::new());
    hyd.complete(first, Vec::new(), Vec::new());
    assert!(hyd.is_finished());
    let out = hyd.finish().unwrap();
    assert_eq!(names_of(&out), vec!["Hammer".to_string(), "Saw".to_string()]);
}

#[test]
fn hydrator_bounds_in_flight_tasks() {
    let mut cands = Vec::new();
    for n in 0..25u64 {
        cands.push(sample_candidate(n, "Item"));
    }
    let mut hyd = Hydrator::new(cands);
    let mut admitted = Vec::new();
    while let Some(idx) = hyd.next_task() {
        admitted.push(idx);
    }
    assert_eq!(admitted.len(), 10);
    hyd.complete(admitted[0], Vec::new(), Vec::new());
    assert_eq!(hyd.next_task(), Some(10));
}

#[test]
fn hydration_failure_fails_the_whole_search() {
    let cands = vec![
        sample_candidate(1, "Hammer"),
        sample_candidate(2, "Saw"),
        sample_candidate(3, "Drill"),
    ];
    let mut hyd = Hydrator::new(cands);
    let a = hyd.next_task().unwrap();
    let b = hyd.next_task().unwrap();
    hyd.complete(a, Vec::new(), Vec::new());
    // the fetch for the second candidate fails: the whole run fails,
    // no further task is admitted, and no partial result comes back
    let _ = b;
    hyd.report_failure(DbError::DbError("connection lost".to_string()));
    assert_eq!(hyd.next_task(), None);
    assert!(hyd.is_finished());
    match hyd.finish() {
        Err(DbError::DbError(msg)) => assert_eq!(msg, "connection lost"),
        _ => panic!("a failed hydration run must yield the error"),
    }
}

#[test]
fn search_query_without_category_runs_nothing() {
    let repo = tools_store();
    let query = SearchQuery { q: None, category: None, filter_tags: Vec::new() };
    assert!(query.run(&repo).is_none());
}

#[test]
fn search_query_with_category_searches() {
    let repo = tools_store();
    let query = SearchQuery {
        q: Some("Saw".to_string()),
        category: Some("Tools".to_string()),
        filter_tags: Vec::new(),
    };
    let found = query.run(&repo).unwrap().unwrap();
    assert_eq!(names_of(&found), vec!["Saw".to_string()]);
}

#[test]
fn admin_state_defaults_to_off() {
    let state = AdminState::default();
    assert!(!state.set);
}
