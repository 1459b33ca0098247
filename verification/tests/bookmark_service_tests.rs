use bkmr::bookmark::Bookmark;
use bkmr::bookmark_service::{BookmarkService, BookmarkServiceImpl};
use bkmr::error::{ApplicationError, DomainError};
use bkmr::repository::BookmarkStore;
use bkmr::search::{BookmarkQuery, SortDirection, TagCondition};
use bkmr::tag::Tag;

fn sample_store() -> BookmarkStore {
    let rows: [(&str, &str, &str); 11] = [
        ("https://www.google.com", "Google", "ccc,yyy"),
        ("http://xxxxx/yyyyy", "TEST: entry for bookmark xxxxx", "ccc,xxx,yyy"),
        ("http://aaaaa/bbbbb", "TEST: entry for bookmark bbbbb", "aaa,bbb"),
        ("http://asdf/asdf", "bla blub", "aaa,bbb"),
        ("http://asdf2/asdf2", "bla blub2", "aaa,bbb,ccc"),
        ("http://11111/11111", "bla blub3", "aaa,bbb,ccc"),
        ("http://none/none", "bla blub3", ""),
        ("/home/user/dev/bkmr/tests/resources/bkmr.pptx", "bkmr pptx", ""),
        ("https://example.com/${EDITOR}", "Environment Variables Test", ""),
        ("$HOME/dev/bkmr/tests/resources/sample_docu.pdf", "Sample Document", ""),
        ("https://example.com/{{ env_USER }}/dashboard", "Template Variables", ""),
    ];
    let mut store = BookmarkStore::new();
    for (url, title, tags) in rows.iter() {
        let tags = Tag::parse_tags(tags).unwrap();
        let b = Bookmark::new(url, title, "Example Entry", tags).unwrap();
        store.add(b).unwrap();
    }
    store
}

fn create_test_service() -> BookmarkServiceImpl {
    BookmarkServiceImpl::new(sample_store())
}

fn no_hash() -> Vec<u8> {
    Vec::new()
}

#[test]
fn given_valid_id_when_get_bookmark_then_returns_correct_bookmark() {
    let service = create_test_service();

    let bookmark = service.get_bookmark(1).unwrap();

    assert!(bookmark.is_some(), "Should find bookmark with ID 1");
    let bookmark = bookmark.unwrap();
    assert_eq!(bookmark.id, Some(1));
    assert_eq!(bookmark.url, "https://www.google.com");
    assert_eq!(bookmark.title, "Google");
}

#[test]
fn given_invalid_id_when_get_bookmark_then_returns_none() {
    let service = create_test_service();

    let result = service.get_bookmark(999).unwrap();

    assert!(result.is_none(), "Should not find non-existent bookmark");
}

#[test]
fn given_negative_id_when_get_bookmark_then_returns_error() {
    let service = create_test_service();

    let result = service.get_bookmark(-1);

    assert!(result.is_err(), "Negative ID should return error");
    match result {
        Err(ApplicationError::Validation(msg)) => {
            assert!(msg.contains("Invalid bookmark ID"), "Error should mention invalid ID");
        }
        _ => panic!("Expected a Validation error"),
    }
}

#[test]
fn given_valid_url_when_get_bookmark_by_url_then_returns_correct_bookmark() {
    let service = create_test_service();

    let result = service.get_bookmark_by_url("https://www.google.com").unwrap();

    assert!(result.is_some(), "Should find bookmark with URL");
    let bookmark = result.unwrap();
    assert_eq!(bookmark.url, "https://www.google.com");
    assert_eq!(bookmark.title, "Google");
}

#[test]
fn given_new_bookmark_when_add_bookmark_then_creates_and_returns_bookmark() {
    let mut service = create_test_service();
    let url = "https://newbookmark.example.com";
    let title = "New Bookmark";
    let description = "Test description";
    let tags = vec![Tag::new("test").unwrap()];

    let bookmark = service
        .add_bookmark(url, Some(title), Some(description), Some(&tags), false, None)
        .unwrap();

    assert!(bookmark.id.is_some(), "Bookmark should have ID after adding");
    assert_eq!(bookmark.url, url);
    assert_eq!(bookmark.title, title);
    assert_eq!(bookmark.description, description);
    assert_eq!(bookmark.tags.len(), 1);
    assert!(bookmark.tags.contains(&Tag::new("test").unwrap()));

    let retrieved = service.get_bookmark(bookmark.id.unwrap()).unwrap().unwrap();
    assert_eq!(retrieved.url, url);
}

#[test]
fn given_existing_url_when_add_bookmark_then_returns_error() {
    let mut service = create_test_service();
    let existing_url = "https://www.google.com";

    let result = service.add_bookmark(existing_url, Some("Title"), Some("Description"), None, false, None);

    assert!(result.is_err(), "Adding duplicate URL should fail");
    match result {
        Err(ApplicationError::BookmarkExists(_, url)) => {
            assert_eq!(url, existing_url, "Error message should contain the existing URL");
        }
        _ => panic!("Expected a BookmarkExists error"),
    }
}

#[test]
fn given_existing_bookmark_when_add_tags_then_adds_tags_correctly() {
    let mut service = create_test_service();
    let id = 1;
    let tags = vec![Tag::new("newtag").unwrap()];

    let original = service.get_bookmark(id).unwrap().unwrap();
    let original_tag_count = original.tags.len();

    let updated = service.add_tags_to_bookmark(id, &tags, &no_hash(), None).unwrap();

    assert!(updated.tags.contains(&Tag::new("newtag").unwrap()));
    assert_eq!(updated.tags.len(), original_tag_count + 1);

    let retrieved = service.get_bookmark(id).unwrap().unwrap();
    assert!(retrieved.tags.contains(&Tag::new("newtag").unwrap()));
}

#[test]
fn given_existing_bookmark_when_remove_tags_then_removes_tags_correctly() {
    let mut service = create_test_service();

    let bookmark = service.get_bookmark(1).unwrap().unwrap();
    let tag_to_remove = bookmark.tags.iter().next().unwrap().clone();
    let original_tag_count = bookmark.tags.len();

    if original_tag_count == 0 {
        return;
    }

    let tags_to_remove = vec![tag_to_remove.clone()];

    let updated = service.remove_tags_from_bookmark(1, &tags_to_remove, &no_hash(), None).unwrap();

    assert!(!updated.tags.contains(&tag_to_remove));
    assert_eq!(updated.tags.len(), original_tag_count - 1);

    let retrieved = service.get_bookmark(1).unwrap().unwrap();
    assert!(!retrieved.tags.contains(&tag_to_remove));
}

#[test]
fn given_existing_bookmark_when_replace_tags_then_replaces_all_tags() {
    let mut service = create_test_service();
    let id = 1;

    let new_tags = vec![Tag::new("replaced1").unwrap(), Tag::new("replaced2").unwrap()];

    let updated = service.replace_bookmark_tags(id, &new_tags, &no_hash(), None).unwrap();

    assert_eq!(updated.tags.len(), 2);
    assert!(updated.tags.contains(&Tag::new("replaced1").unwrap()));
    assert!(updated.tags.contains(&Tag::new("replaced2").unwrap()));

    let retrieved = service.get_bookmark(id).unwrap().unwrap();
    assert_eq!(retrieved.tags.len(), 2);
    assert!(retrieved.tags.contains(&Tag::new("replaced1").unwrap()));
    assert!(retrieved.tags.contains(&Tag::new("replaced2").unwrap()));
}

#[test]
fn given_existing_bookmark_when_record_access_then_increments_access_count() {
    let mut service = create_test_service();
    let id = 1;

    let original = service.get_bookmark(id).unwrap().unwrap();
    let original_count = original.access_count;

    let updated = service.record_bookmark_access(id).unwrap();

    assert_eq!(updated.access_count, original_count + 1);

    let retrieved = service.get_bookmark(id).unwrap().unwrap();
    assert_eq!(retrieved.access_count, original_count + 1);
}

#[test]
fn given_test_database_when_delete_bookmark_then_removes_bookmark() {
    let mut service = create_test_service();

    let url = "https://todelete.example.com";
    let bookmark = service
        .add_bookmark(url, Some("To Delete"), Some("Description"), None, false, None)
        .unwrap();
    let id = bookmark.id.unwrap();

    assert!(service.get_bookmark(id).unwrap().is_some());

    let result = service.delete_bookmark(id).unwrap();

    assert!(result, "Delete should return true on success");

    assert!(service.get_bookmark(id).unwrap().is_none());
}

#[test]
fn given_text_query_when_search_by_text_then_returns_matching_bookmarks() {
    let service = create_test_service();

    let results = service.search_bookmarks_by_text("Google").unwrap();

    assert!(!results.is_empty(), "Should find bookmarks containing the text");

    let has_match = results.iter().any(|b| {
        b.title.contains("Google") || b.description.contains("Google") || b.url.contains("Google")
    });
    assert!(has_match, "At least one result should match the search text");
}

#[test]
fn given_test_database_when_get_all_bookmarks_then_returns_all_bookmarks() {
    let service = create_test_service();

    let bookmarks = service.get_all_bookmarks(None, None).unwrap();

    assert!(!bookmarks.is_empty(), "Should return all bookmarks from test database");
    assert!(bookmarks.len() >= 11, "Should return at least the bookmarks of the sample store");
}

#[test]
fn given_test_database_when_get_bookmarks_without_embeddings_then_returns_correct_bookmarks() {
    let service = create_test_service();

    let results = service.get_bookmarks_without_embeddings().unwrap();

    for bookmark in &results {
        assert!(bookmark.embedding.is_none(), "Returned bookmarks should not have embeddings");
    }
}

#[test]
fn given_bookmark_when_set_embeddable_then_updates_flag() {
    let mut service = create_test_service();

    let url = "https://embeddingtest.example.com";
    let bookmark = service
        .add_bookmark(url, Some("Test Embeddable"), Some("Description"), None, false, None)
        .unwrap();
    let id = bookmark.id.unwrap();

    assert!(!bookmark.embeddable, "Default should be false");

    let updated = service.set_bookmark_embeddable(id, true, &no_hash(), None).unwrap();

    assert!(updated.embeddable, "Flag should be updated to true");

    let retrieved = service.get_bookmark(id).unwrap().unwrap();
    assert!(retrieved.embeddable, "Flag should be persisted as true");

    let updated_again = service.set_bookmark_embeddable(id, false, &no_hash(), None).unwrap();

    assert!(!updated_again.embeddable, "Flag should be updated to false");

    let retrieved_again = service.get_bookmark(id).unwrap().unwrap();
    assert!(!retrieved_again.embeddable, "Flag should be persisted as false");
}

#[test]
fn add_without_title_uses_fetched_metadata_only_for_web_urls() {
    let mut service = create_test_service();
    let fetched = Some(("Fetched".to_string(), "From the page".to_string()));
    let b = service
        .add_bookmark("https://fetch.example.com", None, None, None, true, fetched.clone())
        .unwrap();
    assert_eq!(b.title, "Fetched");
    assert_eq!(b.description, "From the page");

    let b = service.add_bookmark("ftp://files.example.com", None, None, None, true, fetched.clone()).unwrap();
    assert_eq!(b.title, "Untitled");
    assert_eq!(b.description, "");

    let b = service
        .add_bookmark("https://own.example.com", Some("Mine"), None, None, true, fetched)
        .unwrap();
    assert_eq!(b.title, "Mine");
    assert_eq!(b.description, "From the page");
    assert!(BookmarkServiceImpl::should_fetch_metadata("http://a", true));
    assert!(!BookmarkServiceImpl::should_fetch_metadata("http://a", false));
    assert!(!BookmarkServiceImpl::should_fetch_metadata("file:///a", true));
}

#[test]
fn add_with_blank_url_is_refused() {
    let mut service = create_test_service();
    match service.add_bookmark("   ", Some("t"), None, None, false, None) {
        Err(ApplicationError::Domain(DomainError::InvalidUrl(_))) => {}
        other => panic!("expected an invalid URL, got {:?}", other),
    }
    assert_eq!(service.get_all_bookmarks(None, None).unwrap().len(), 11);
}

#[test]
fn update_refreshes_embedding_only_when_due() {
    let mut service = create_test_service();
    let mut b = service.get_bookmark(2).unwrap().unwrap();
    b.embeddable = true;
    let hash = vec![1u8, 2, 3];
    assert!(BookmarkServiceImpl::needs_embedding(&b, false, &hash));
    let b = service.update_bookmark(b, false, &hash, Some(vec![9u8, 9])).unwrap();
    assert_eq!(b.embedding, Some(vec![9u8, 9]));
    assert_eq!(b.content_hash, Some(hash.clone()));
    assert_eq!(b.access_count, 1);
    assert!(!BookmarkServiceImpl::needs_embedding(&b, false, &hash));
    let b = service.update_bookmark(b, false, &hash, Some(vec![7u8])).unwrap();
    assert_eq!(b.embedding, Some(vec![9u8, 9]));
    let b = service.update_bookmark(b, true, &hash, Some(vec![7u8])).unwrap();
    assert_eq!(b.embedding, Some(vec![7u8]));
    let stored = service.get_bookmark(2).unwrap().unwrap();
    assert_eq!(stored.embedding, Some(vec![7u8]));
    assert_eq!(stored.access_count, 3);
}

#[test]
fn update_errors_follow_the_id() {
    let mut service = create_test_service();
    let fresh = Bookmark::new("https://x.org", "x", "", Vec::new()).unwrap();
    match service.update_bookmark(fresh, false, &no_hash(), None) {
        Err(ApplicationError::Validation(m)) => assert_eq!(m, "Bookmark ID is required for update"),
        other => panic!("unexpected {:?}", other),
    }
    let mut zero = Bookmark::new("https://x.org", "x", "", Vec::new()).unwrap();
    zero.id = Some(0);
    match service.update_bookmark(zero, false, &no_hash(), None) {
        Err(ApplicationError::Validation(m)) => assert_eq!(m, "Invalid bookmark ID: 0"),
        other => panic!("unexpected {:?}", other),
    }
    let mut missing = Bookmark::new("https://x.org", "x", "", Vec::new()).unwrap();
    missing.id = Some(4242);
    match service.update_bookmark(missing, false, &no_hash(), None) {
        Err(ApplicationError::Domain(DomainError::BookmarkNotFound(_))) => {}
        other => panic!("unexpected {:?}", other),
    }
    match service.record_bookmark_access(4242) {
        Err(ApplicationError::BookmarkNotFound(4242)) => {}
        other => panic!("unexpected {:?}", other),
    }
}

#[test]
fn backfill_selection_skips_imported_and_non_embeddable() {
    let mut service = create_test_service();
    service.set_bookmark_embeddable(1, true, &no_hash(), None).unwrap();
    service.set_bookmark_embeddable(3, true, &no_hash(), None).unwrap();
    service.add_tags_to_bookmark(3, &vec![Tag::new("_imported_").unwrap()], &no_hash(), None).unwrap();
    let picked = service.get_bookmarks_for_forced_backfill().unwrap();
    let ids: Vec<i32> = picked.iter().map(|b| b.id.unwrap()).collect();
    assert_eq!(ids, vec![1]);
    let lacking = service.get_bookmarks_without_embeddings().unwrap();
    let ids: Vec<i32> = lacking.iter().map(|b| b.id.unwrap()).collect();
    assert_eq!(ids, vec![1, 3]);
}

#[test]
fn search_and_limit() {
    let service = create_test_service();
    let q = BookmarkQuery {
        text: Some("bla".to_string()),
        conditions: vec![TagCondition::Any(vec![Tag::new("ccc").unwrap()])],
        sort_by_date: None,
        limit: Some(1),
        offset: None,
    };
    let found = service.search_bookmarks(&q).unwrap();
    assert_eq!(found.len(), 1);
    assert_eq!(found[0].url, "http://asdf2/asdf2");
    let first_three = service.get_all_bookmarks(None, Some(3)).unwrap();
    assert_eq!(first_three.len(), 3);
    assert_eq!(first_three[2].url, "http://aaaaa/bbbbb");
}

fn import(url: &str, title: &str, tags: &str) -> bkmr::bookmark_service::BookmarkImportData {
    bkmr::bookmark_service::BookmarkImportData {
        url: url.to_string(),
        title: title.to_string(),
        content: "imported".to_string(),
        tags: Tag::parse_tags(tags).unwrap(),
    }
}

#[test]
fn json_import_dry_run_counts_without_adding() {
    let mut service = create_test_service();
    let imports = vec![import("https://new.example", "New", "a"), import("https://www.google.com", "G", "")];
    let r = service.load_json_bookmarks(&imports, true);
    assert_eq!(r.unwrap(), 2);
    assert_eq!(service.get_all_bookmarks(None, None).unwrap().len(), 11);
}

#[test]
fn json_import_skips_known_urls_and_duplicates() {
    let mut service = create_test_service();
    let imports = vec![
        import("https://new.example", "New", "a,b"),
        import("https://www.google.com", "Google again", ""),
        import("https://new.example", "Twice", ""),
        import("https://other.example", "Other", ""),
    ];
    let r = service.load_json_bookmarks(&imports, false);
    assert_eq!(r.unwrap(), 2);
    let all = service.get_all_bookmarks(None, None).unwrap();
    assert_eq!(all.len(), 13);
    assert_eq!(all[11].url, "https://new.example");
    assert_eq!(all[11].title, "New");
    assert_eq!(all[11].description, "imported");
    assert_eq!(all[11].id, Some(12));
    assert_eq!(all[12].url, "https://other.example");
}

#[test]
fn json_import_stops_at_blank_url() {
    let mut service = create_test_service();
    let imports = vec![
        import("https://first.example", "First", ""),
        import("   ", "Blank", ""),
        import("https://after.example", "After", ""),
    ];
    let r = service.load_json_bookmarks(&imports, false);
    assert!(matches!(r, Err(ApplicationError::Domain(DomainError::InvalidUrl(_)))));
    let all = service.get_all_bookmarks(None, None).unwrap();
    assert_eq!(all.len(), 12);
    assert_eq!(all[11].url, "https://first.example");
}

#[test]
fn given_count_when_get_random_bookmarks_then_returns_random_selection() {
    // Arrange
    let service = create_test_service();
    let count = 3;

    // Act
    let bookmarks = service.get_random_bookmarks(count).unwrap();

    // Assert
    assert_eq!(
        bookmarks.len(),
        count,
        "Should return exactly the requested number of bookmarks"
    );

    // Get another random selection and verify it's likely different
    // (This is probabilistic, so there's a small chance it could be the same)
    let another_set = service.get_random_bookmarks(count).unwrap();

    // Convert to sets of IDs for comparison
    let first_ids: std::collections::HashSet<_> = bookmarks.iter().filter_map(|b| b.id).collect();
    let second_ids: std::collections::HashSet<_> = another_set.iter().filter_map(|b| b.id).collect();

    // With a decent number of bookmarks, it's very unlikely to get the same random selection twice
    // Only assert if we have enough bookmarks in the test database
    let all_bookmarks = service.get_all_bookmarks(None, None).unwrap();
    if all_bookmarks.len() > count * 3 {
        assert_ne!(
            first_ids, second_ids,
            "Random selections should typically be different"
        );
    }
}

#[test]
fn a_draw_takes_bookmarks_out_of_those_left() {
    let service = create_test_service();
    // 13 % 11 = 2 -> id 3; then 10 left: 0 -> id 1; then 9 left: 9 % 9 = 0 -> id 2
    let picked = service.pick_bookmarks(&vec![13, 0, 9]);
    let ids: Vec<i32> = picked.iter().map(|b| b.id.unwrap()).collect();
    assert_eq!(ids, vec![3, 1, 2]);
    let all = service.pick_bookmarks(&vec![0; 20]);
    assert_eq!(all.len(), 11);
    let more = service.get_random_bookmarks(50).unwrap();
    let mut ids: Vec<i32> = more.iter().map(|b| b.id.unwrap()).collect();
    ids.sort();
    assert_eq!(ids, (1..=11).collect::<Vec<i32>>());
}

/// The text import of the entries, each with its content hash, as the
/// importer runs it: the step decides, an embedding of one byte stands in
/// for the one the embedder makes.
fn run_text_import(
    service: &mut BookmarkServiceImpl,
    entries: &[(bkmr::bookmark_service::BookmarkImportData, Vec<u8>)],
    force: bool,
) -> usize {
    let mut processed = 0;
    for (import, hash) in entries {
        let step = service.text_import_step(import, hash, force);
        if service.apply_text_import(import, step, hash.clone(), Some(vec![9u8])).unwrap() {
            processed += 1;
        }
    }
    processed
}

#[test]
fn text_import_adds_new_and_renews_changed_entries() {
    let mut service = create_test_service();
    let entries = vec![
        (import("https://doc.example/a", "Doc A", "x"), vec![1u8]),
        (import("https://www.google.com", "Google doc", ""), vec![2u8]),
    ];
    assert_eq!(run_text_import(&mut service, &entries, false), 2);
    let a = service.get_bookmark_by_url("https://doc.example/a").unwrap().unwrap();
    assert_eq!(a.id, Some(12));
    assert_eq!(a.description, "");
    assert!(a.embeddable);
    assert_eq!(a.content_hash, Some(vec![1u8]));
    assert_eq!(a.embedding, Some(vec![9u8]));
    let g = service.get_bookmark(1).unwrap().unwrap();
    assert_eq!(g.title, "Google doc");
    assert_eq!(g.description, "");
    assert_eq!(g.content_hash, Some(vec![2u8]));

    // unchanged hashes are skipped, unless forced
    assert_eq!(run_text_import(&mut service, &entries, false), 0);
    assert_eq!(run_text_import(&mut service, &entries, true), 2);
    assert_eq!(service.get_all_bookmarks(None, None).unwrap().len(), 12);
}

#[test]
fn text_import_step_names_the_stored_bookmark() {
    let service = create_test_service();
    let entry = import("https://www.google.com", "G", "");
    match service.text_import_step(&entry, &vec![5u8], false) {
        bkmr::bookmark_service::TextImportStep::Update(b) => assert_eq!(b.id, Some(1)),
        other => panic!("expected an update, got {:?}", other),
    }
    let fresh = import("https://nowhere.example", "N", "");
    assert!(matches!(
        service.text_import_step(&fresh, &vec![5u8], true),
        bkmr::bookmark_service::TextImportStep::Add
    ));
}

#[test]
fn surprise_draws_at_least_one_bookmark_with_its_action() {
    let service = create_test_service();
    let one = bkmr::cli::surprise(&service, 0).unwrap();
    assert_eq!(one.len(), 1);
    let three = bkmr::cli::surprise(&service, 3).unwrap();
    assert_eq!(three.len(), 3);
    for (b, d) in &three {
        assert_eq!(*d, bkmr::actions::get_default_action_description(b));
    }
    let all = bkmr::cli::surprise(&service, 100).unwrap();
    assert_eq!(all.len(), 11);
}

#[test]
fn records_stamp_times_and_listings_order_by_them() {
    let mut service = BookmarkServiceImpl::new(BookmarkStore::new());
    service.set_time(100);
    let a = service.add_bookmark("https://a.example", Some("A"), None, None, false, None).unwrap();
    service.set_time(200);
    let b = service.add_bookmark("https://b.example", Some("B"), None, None, false, None).unwrap();
    assert_eq!(a.created_at, Some(100));
    assert_eq!(a.updated_at, 100);
    assert_eq!(b.created_at, Some(200));

    let urls = |v: Vec<Bookmark>| v.into_iter().map(|b| b.url).collect::<Vec<_>>();
    assert_eq!(urls(service.get_all_bookmarks(None, None).unwrap()), vec!["https://a.example", "https://b.example"]);
    assert_eq!(
        urls(service.get_all_bookmarks(Some(SortDirection::Descending), None).unwrap()),
        vec!["https://b.example", "https://a.example"]
    );

    // Touching the first one makes it the latest updated.
    service.set_time(300);
    let touched = service.record_bookmark_access(a.id.unwrap()).unwrap();
    assert_eq!(touched.updated_at, 300);
    assert_eq!(touched.created_at, Some(100));
    assert_eq!(
        urls(service.get_all_bookmarks(Some(SortDirection::Descending), Some(1)).unwrap()),
        vec!["https://a.example"]
    );
    assert_eq!(
        urls(service.get_all_bookmarks(Some(SortDirection::Ascending), None).unwrap()),
        vec!["https://b.example", "https://a.example"]
    );
}
