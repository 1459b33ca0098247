use bkmr::bookmark::Bookmark;
use bkmr::bookmark_application_service::BookmarkApplicationService;
use bkmr::dto::{BookmarkCreateRequest, BookmarkResponse, BookmarkSearchRequest, BookmarkUpdateRequest};
use bkmr::error::{ApplicationError, DomainError};
use bkmr::repository::BookmarkStore;
use bkmr::tag::Tag;

/// A service over a store that already holds the given bookmarks; returns
/// the service and the ids the bookmarks got.
fn service_with(bookmarks: Vec<Bookmark>) -> (BookmarkApplicationService, Vec<i32>) {
    let mut repo = BookmarkStore::new();
    let mut ids = Vec::new();
    for b in bookmarks {
        ids.push(repo.add(b).unwrap());
    }
    (BookmarkApplicationService::new(repo), ids)
}

fn plain(url: &str, title: &str, desc: &str) -> Bookmark {
    Bookmark::new(url, title, desc, Vec::new()).unwrap()
}

#[test]
fn test_add_bookmark_success() {
    let (mut service, _) = service_with(vec![]);

    let request = BookmarkCreateRequest {
        url: "https://example.com".into(),
        title: Some("Example".into()),
        description: Some("A test".into()),
        tags: Some(vec!["rust".into()]),
        fetch_metadata: None,
    };

    let response = service.add_bookmark(request).unwrap();
    assert_eq!(response.url, "https://example.com");
    assert_eq!(response.title, "Example");
    assert_eq!(response.description, "A test");
    assert!(response.tags.contains(&"rust".to_string()));
}

#[test]
fn test_add_bookmark_already_exists() {
    // Insert a bookmark with the same URL
    let (mut service, _) = service_with(vec![plain("https://example.com", "Existing", "Desc")]);

    let request = BookmarkCreateRequest {
        url: "https://example.com".into(),
        title: Some("Duplicate".into()),
        description: None,
        tags: None,
        fetch_metadata: None,
    };

    let err = service.add_bookmark(request).unwrap_err();
    match err {
        ApplicationError::BookmarkExists(_, url) => {
            assert_eq!(url, "https://example.com");
        }
        _ => panic!("Expected BookmarkExists error"),
    }
}

#[test]
fn test_update_bookmark_success() {
    // Insert a bookmark
    let (mut service, ids) = service_with(vec![plain("https://example.com", "Old Title", "Old Desc")]);
    let id = ids[0];

    // Prepare an update
    let request = BookmarkUpdateRequest {
        id,
        title: Some("New Title".into()),
        description: Some("New Description".into()),
        tags: Some(vec!["rust".into()]),
    };

    let response = service.update_bookmark(request).unwrap();
    assert_eq!(response.title, "New Title");
    assert_eq!(response.description, "New Description");
    assert_eq!(response.tags.len(), 1);
    assert!(response.tags.contains(&"rust".to_string()));
}

#[test]
fn test_update_bookmark_not_found() {
    let (mut service, _) = service_with(vec![]);

    let request = BookmarkUpdateRequest {
        id: 999,
        title: Some("Not Found".into()),
        description: None,
        tags: None,
    };

    let err = service.update_bookmark(request).unwrap_err();
    match err {
        ApplicationError::BookmarkNotFound(id) => assert_eq!(id, 999),
        _ => panic!("Expected BookmarkNotFound error"),
    }
}

#[test]
fn bookmark_application_service_test_delete_bookmark() {
    // Insert a bookmark
    let (mut service, ids) = service_with(vec![plain("https://example.com", "Delete Me", "Desc")]);
    let id = ids[0];

    // Delete it
    let deleted = service.delete_bookmark(id).unwrap();
    assert!(deleted);

    // Trying again returns false
    let deleted_again = service.delete_bookmark(id).unwrap();
    assert!(!deleted_again);
}

#[test]
fn test_get_bookmark() {
    let (service, ids) = service_with(vec![plain("https://example.com", "Some Title", "Desc")]);
    let id = ids[0];

    let found = service.get_bookmark(id).unwrap();
    assert!(found.is_some());
    assert_eq!(found.unwrap().url, "https://example.com");

    let not_found = service.get_bookmark(999).unwrap();
    assert!(not_found.is_none());
}

#[test]
fn test_search_bookmarks() {
    // Insert multiple bookmarks
    let (service, _) = service_with(vec![
        plain("https://rust-lang.org", "Rust Lang", "Rust language"),
        plain("https://python.org", "Python Lang", "Python language"),
    ]);

    // Make a search request
    let request = BookmarkSearchRequest {
        query: Some("rust".into()),
        ..Default::default()
    };

    let response = service.search_bookmarks(request).unwrap();
    assert_eq!(response.total_count, 1);
    assert_eq!(response.bookmarks[0].url, "https://rust-lang.org");
}

#[test]
fn test_record_bookmark_access() {
    let (mut service, ids) = service_with(vec![plain("https://example.com", "Title", "Desc")]);
    let id = ids[0];

    service.record_bookmark_access(id).unwrap();
    service.record_bookmark_access(id).unwrap();

    let updated = service.get_bookmark(id).unwrap().unwrap();
    assert_eq!(updated.access_count, 2);
}

#[test]
fn test_fetch_url_metadata() {
    let (service, _) = service_with(vec![]);

    // Currently returns (String::new(), String::new(), String::new())
    let (title, desc, extra) = service.fetch_url_metadata("https://example.com").unwrap();
    assert_eq!(title, "");
    assert_eq!(desc, "");
    assert_eq!(extra, "");
}

#[test]
fn test_bookmark_response_from_domain() {
    // Make a domain bookmark
    let tags = vec![Tag::new("rust").unwrap(), Tag::new("programming").unwrap()];

    let bookmark = Bookmark::new("https://example.com", "Example Title", "Example Desc", tags).unwrap();

    // Convert to response
    let dto = BookmarkResponse::from_domain(&bookmark);

    assert_eq!(dto.url, "https://example.com");
    assert_eq!(dto.title, "Example Title");
    assert_eq!(dto.description, "Example Desc");
    assert_eq!(dto.tags.len(), 2);
    assert!(dto.tags.contains(&"rust".to_string()));
    assert!(dto.tags.contains(&"programming".to_string()));
}

#[test]
fn add_refuses_bad_tags_and_blank_urls_without_storing() {
    let (mut service, _) = service_with(vec![]);
    let bad_tag = BookmarkCreateRequest {
        url: "https://a.example".into(),
        title: None,
        description: None,
        tags: Some(vec!["two words".into()]),
        fetch_metadata: None,
    };
    assert!(matches!(
        service.add_bookmark(bad_tag),
        Err(ApplicationError::Domain(DomainError::InvalidTag(_)))
    ));
    let blank = BookmarkCreateRequest {
        url: "  ".into(),
        title: None,
        description: None,
        tags: None,
        fetch_metadata: None,
    };
    assert!(matches!(
        service.add_bookmark(blank),
        Err(ApplicationError::Domain(DomainError::InvalidUrl(_)))
    ));
    assert!(service.get_bookmark(1).unwrap().is_none());
    let ok = BookmarkCreateRequest {
        url: "https://a.example".into(),
        title: None,
        description: None,
        tags: None,
        fetch_metadata: None,
    };
    let r = service.add_bookmark(ok).unwrap();
    assert_eq!(r.id, Some(1));
    assert_eq!(r.title, "");
    assert_eq!(r.access_count, 0);
}

#[test]
fn update_keeps_what_the_request_leaves_out() {
    let tags = vec![Tag::new("keep").unwrap()];
    let (mut service, ids) =
        service_with(vec![Bookmark::new("https://k.example", "T", "D", tags).unwrap()]);
    let request = BookmarkUpdateRequest { id: ids[0], title: None, description: Some("D2".into()), tags: None };
    let r = service.update_bookmark(request).unwrap();
    assert_eq!(r.title, "T");
    assert_eq!(r.description, "D2");
    assert_eq!(r.tags, vec!["keep".to_string()]);
    let bad = BookmarkUpdateRequest { id: ids[0], title: Some("X".into()), description: None, tags: Some(vec!["a b".into()]) };
    assert!(matches!(
        service.update_bookmark(bad),
        Err(ApplicationError::Domain(DomainError::InvalidTag(_)))
    ));
    assert_eq!(service.get_bookmark(ids[0]).unwrap().unwrap().title, "T");
}

#[test]
fn search_sorted_by_date_lists_latest_update_first_unless_ascending() {
    let mut a = plain("https://old.example", "old", "");
    a.updated_at = 10;
    let mut b = plain("https://new.example", "new", "");
    b.updated_at = 30;
    let mut c = plain("https://mid.example", "mid", "");
    c.updated_at = 20;
    let (service, _) = service_with(vec![a, b, c]);
    let titles = |req: BookmarkSearchRequest| {
        service.search_bookmarks(req).unwrap().bookmarks.into_iter().map(|i| i.title).collect::<Vec<_>>()
    };

    assert_eq!(titles(BookmarkSearchRequest::default()), vec!["old", "new", "mid"]);
    let mut desc = BookmarkSearchRequest::default();
    desc.sort_by_date = Some(true);
    assert_eq!(titles(desc), vec!["new", "mid", "old"]);
    let mut asc = BookmarkSearchRequest::default();
    asc.sort_by_date = Some(true);
    asc.sort_descending = Some(false);
    assert_eq!(titles(asc), vec!["old", "mid", "new"]);
    let mut off = BookmarkSearchRequest::default();
    off.sort_by_date = Some(false);
    off.sort_descending = Some(true);
    assert_eq!(titles(off), vec!["old", "new", "mid"]);
    let mut paged = BookmarkSearchRequest::default();
    paged.sort_by_date = Some(true);
    paged.limit = Some(2);
    assert_eq!(titles(paged), vec!["new", "mid"]);
}

#[test]
fn added_bookmarks_carry_the_service_time() {
    let (mut service, _) = service_with(vec![]);
    service.set_time(1234);
    let request = BookmarkCreateRequest {
        url: "https://t.example".into(),
        title: None,
        description: None,
        tags: None,
        fetch_metadata: None,
    };
    let response = service.add_bookmark(request).unwrap();
    let id = response.id.unwrap();
    let stored = service.get_bookmark(id).unwrap().unwrap();
    assert_eq!(stored.created_at, Some(1234));
    assert_eq!(stored.updated_at, 1234);
}
