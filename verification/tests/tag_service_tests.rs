use bkmr::bookmark::Bookmark;
use bkmr::dto::{TagMergeRequest, TagOperationRequest, TagRenameRequest};
use bkmr::error::ApplicationError;
use bkmr::repository::BookmarkStore;
use bkmr::tag::Tag;
use bkmr::tag_service::{TagApplicationService, TagService, TagServiceImpl};
use std::collections::HashSet;

fn sample_store() -> BookmarkStore {
    let rows: [(&str, &str, &str); 11] = [
        ("https://www.google.com", "Google", "ccc,yyy"),
        ("http://xxxxx/yyyyy", "TEST: entry for bookmark xxxxx", "ccc,xxx,yyy"),
        ("http://aaaaa/bbbbb", "TEST: entry for bookmark bbbbb", "aaa,bbb"),
        ("http://asdf/asdf", "bla blub", "aaa,bbb"),
        ("http://asdf2/asdf2", "bla blub2", "aaa,bbb,ccc"),
        ("http://11111/11111", "bla blub3", "aaa,bbb,ccc"),
        ("http://none/none", "bla blub3", ""),
        ("/home/user/dev/bkmr/tests/resources/bkmr.pptx", "bkmr pptx", ""),
        ("https://example.com/${EDITOR}", "Environment Variables Test", ""),
        ("$HOME/dev/bkmr/tests/resources/sample_docu.pdf", "Sample Document", ""),
        ("https://example.com/{{ env_USER }}/dashboard", "Template Variables", ""),
    ];
    let mut store = BookmarkStore::new();
    for (url, title, tags) in rows.iter() {
        let tags = Tag::parse_tags(tags).unwrap();
        let b = Bookmark::new(url, title, "Example Entry", tags).unwrap();
        store.add(b).unwrap();
    }
    store
}

fn create_test_service() -> TagServiceImpl {
    TagServiceImpl::new(sample_store())
}

#[test]
fn given_test_database_when_get_all_tags_then_returns_all_tags() {
    let service = create_test_service();

    let tag_counts = service.get_all_tags().unwrap();

    assert!(!tag_counts.is_empty(), "Tag list should not be empty");

    let tags: HashSet<String> = tag_counts.iter().map(|(tag, _)| tag.value().to_string()).collect();

    assert!(tags.contains("aaa"), "Tag 'aaa' should be present");
    assert!(tags.contains("bbb"), "Tag 'bbb' should be present");
    assert!(tags.contains("ccc"), "Tag 'ccc' should be present");
    assert!(tags.contains("xxx"), "Tag 'xxx' should be present");
    assert!(tags.contains("yyy"), "Tag 'yyy' should be present");

    let aaa_count = tag_counts
        .iter()
        .find(|(tag, _)| tag.value() == "aaa")
        .map(|(_, count)| *count)
        .unwrap_or(0);

    assert_eq!(aaa_count, 4, "Tag 'aaa' should appear in 4 bookmarks");
}

#[test]
fn given_test_database_when_get_related_tags_for_ccc_then_returns_correct_related_tags() {
    let service = create_test_service();
    let ccc_tag = Tag::new("ccc").unwrap();

    let related_tags = service.get_related_tags(&ccc_tag).unwrap();

    let related_tag_names: HashSet<String> =
        related_tags.iter().map(|(tag, _)| tag.value().to_string()).collect();

    assert!(related_tag_names.contains("aaa"), "Tag 'aaa' should be related to 'ccc'");
    assert!(related_tag_names.contains("bbb"), "Tag 'bbb' should be related to 'ccc'");
    assert!(related_tag_names.contains("yyy"), "Tag 'yyy' should be related to 'ccc'");

    let aaa_count = related_tags
        .iter()
        .find(|(tag, _)| tag.value() == "aaa")
        .map(|(_, count)| *count)
        .unwrap_or(0);

    assert_eq!(aaa_count, 2, "Tag 'aaa' should co-occur with 'ccc' in 2 bookmarks");
}

#[test]
fn given_empty_tag_when_get_related_tags_then_returns_empty_list() {
    let service = create_test_service();
    let non_existent_tag = Tag::new("nonexistent").unwrap();

    let related_tags = service.get_related_tags(&non_existent_tag).unwrap();

    assert!(related_tags.is_empty(), "No tags should be related to a non-existent tag");
}

#[test]
fn given_valid_tag_string_when_parse_tag_string_then_returns_correct_tags() {
    let service = create_test_service();
    let tag_string = "tag1,tag2,tag3";

    let tags = service.parse_tag_string(tag_string).unwrap();

    assert_eq!(tags.len(), 3, "Should parse 3 tags");

    let tag_values: Vec<String> = tags.iter().map(|t| t.value().to_string()).collect();
    assert!(tag_values.contains(&"tag1".to_string()));
    assert!(tag_values.contains(&"tag2".to_string()));
    assert!(tag_values.contains(&"tag3".to_string()));
}

#[test]
fn given_empty_tag_string_when_parse_tag_string_then_returns_empty_vec() {
    let service = create_test_service();

    let tags = service.parse_tag_string("").unwrap();

    assert!(tags.is_empty(), "Empty tag string should return empty vector");
}

#[test]
fn given_invalid_tag_string_when_parse_tag_string_then_returns_error() {
    let service = create_test_service();
    let invalid_tag_string = "valid,not valid with space,another";

    let result = service.parse_tag_string(invalid_tag_string);

    assert!(result.is_err(), "Invalid tag string should return error");
    match result {
        Err(ApplicationError::Validation(msg)) => {
            assert!(msg.contains("Invalid tag string"), "Error should mention invalid tag string");
        }
        _ => panic!("Expected a Validation error"),
    }
}

#[test]
fn given_tag_string_with_duplicates_when_parse_tag_string_then_returns_unique_tags() {
    let service = create_test_service();
    let tag_string_with_duplicates = "dup,dup,unique";

    let tags = service.parse_tag_string(tag_string_with_duplicates).unwrap();

    assert_eq!(tags.len(), 2, "Duplicate tags should be eliminated");

    let tag_values: Vec<String> = tags.iter().map(|t| t.value().to_string()).collect();
    assert!(tag_values.contains(&"dup".to_string()));
    assert!(tag_values.contains(&"unique".to_string()));
}

#[test]
fn tag_statistics_follow_first_use() {
    let service = create_test_service();
    let stats: Vec<(String, usize)> = service
        .get_all_tags()
        .unwrap()
        .iter()
        .map(|(t, n)| (t.value().to_string(), *n))
        .collect();
    assert_eq!(
        stats,
        vec![
            ("ccc".to_string(), 4),
            ("yyy".to_string(), 2),
            ("xxx".to_string(), 1),
            ("aaa".to_string(), 4),
            ("bbb".to_string(), 4),
        ]
    );
}

#[test]
fn invalid_tag_string_error_names_the_reason() {
    let service = create_test_service();
    match service.parse_tag_string("a, b c") {
        Err(ApplicationError::Validation(msg)) => {
            assert_eq!(msg, "Invalid tag string: Invalid tag: Tag cannot contain spaces")
        }
        other => panic!("expected a validation error, got {:?}", other),
    }
}

#[test]
fn application_service_adds_and_counts() {
    let mut service = TagApplicationService::new(sample_store());
    let request = TagOperationRequest {
        bookmark_ids: vec![1, 3, 999],
        tags: vec!["new, ccc".to_string()],
        replace_existing: None,
    };
    assert_eq!(service.add_tags_to_bookmarks(request).unwrap(), 2);
    let all = service.get_all_tags().unwrap();
    let new = all.iter().find(|t| t.name == "new").unwrap();
    assert_eq!(new.count, 2);
    let ccc = all.iter().find(|t| t.name == "ccc").unwrap();
    assert_eq!(ccc.count, 5);
}

#[test]
fn application_service_replaces_tags() {
    let mut service = TagApplicationService::new(sample_store());
    let request = TagOperationRequest {
        bookmark_ids: vec![2],
        tags: vec!["only".to_string()],
        replace_existing: Some(true),
    };
    assert_eq!(service.add_tags_to_bookmarks(request).unwrap(), 1);
    let all = service.get_all_tags().unwrap();
    assert!(all.iter().all(|t| t.name != "xxx"));
    assert_eq!(all.iter().find(|t| t.name == "only").unwrap().count, 1);
}

#[test]
fn application_service_removes_only_where_all_tags_are_carried() {
    let mut service = TagApplicationService::new(sample_store());
    let request = TagOperationRequest {
        bookmark_ids: vec![1, 2, 3],
        tags: vec!["ccc,xxx".to_string()],
        replace_existing: None,
    };
    assert_eq!(service.remove_tags_from_bookmarks(request).unwrap(), 1);
    let all = service.get_all_tags().unwrap();
    assert!(all.iter().all(|t| t.name != "xxx"));
    assert_eq!(all.iter().find(|t| t.name == "ccc").unwrap().count, 3);
}

#[test]
fn application_service_refuses_invalid_operation_tags() {
    let mut service = TagApplicationService::new(sample_store());
    let request = TagOperationRequest {
        bookmark_ids: vec![1],
        tags: vec!["a b".to_string()],
        replace_existing: None,
    };
    match service.add_tags_to_bookmarks(request) {
        Err(ApplicationError::Domain(_)) => {}
        other => panic!("expected a domain error, got {:?}", other),
    }
}

#[test]
fn merge_and_rename_move_the_tag() {
    let mut service = TagApplicationService::new(sample_store());
    let merged = service
        .merge_tags(TagMergeRequest { source_tag: "aaa".to_string(), target_tag: "ccc".to_string() })
        .unwrap();
    assert_eq!(merged, 4);
    let all = service.get_all_tags().unwrap();
    assert!(all.iter().all(|t| t.name != "aaa"));
    assert_eq!(all.iter().find(|t| t.name == "ccc").unwrap().count, 6);

    let renamed = service
        .rename_tag(TagRenameRequest { old_name: "bbb".to_string(), new_name: "b2".to_string() })
        .unwrap();
    assert_eq!(renamed, 4);
    assert!(service.rename_tag(TagRenameRequest { old_name: "x y".to_string(), new_name: "z".to_string() }).is_err());
}

#[test]
fn suggestions_match_case_insensitively() {
    let service = TagApplicationService::new(sample_store());
    let sug = service.get_tag_suggestions("Y").unwrap();
    let names: Vec<&str> = sug.suggestions.iter().map(|s| s.name.as_str()).collect();
    assert_eq!(names, vec!["yyy"]);
    let related = service.get_related_tags("xxx").unwrap();
    let names: Vec<&str> = related.iter().map(|s| s.name.as_str()).collect();
    assert_eq!(names, vec!["ccc", "yyy"]);
    assert!(service.get_related_tags("a,b").is_err());
}

#[test]
fn cli_tag_suggestions_are_names() {
    let service = TagApplicationService::new(sample_store());
    let names = bkmr::cli::get_tag_suggestions(&service, "B").unwrap();
    assert_eq!(names, vec!["bbb".to_string()]);
}

/// A tag application service over a store holding the bookmarks given,
/// each as URL, title, description and tag names.
fn tag_service_with(rows: &[(&str, &str, &str, &[&str])]) -> (TagApplicationService, Vec<i32>) {
    let mut repo = BookmarkStore::new();
    let mut ids = Vec::new();
    for (url, title, desc, tags) in rows {
        let tags: Vec<Tag> = tags.iter().map(|t| Tag::new(t).unwrap()).collect();
        let b = Bookmark::new(url, title, desc, tags).unwrap();
        ids.push(repo.add(b).unwrap());
    }
    (TagApplicationService::new(repo), ids)
}

fn tag_names(service: &TagApplicationService) -> Vec<String> {
    service.get_all_tags().unwrap().into_iter().map(|t| t.name).collect()
}

#[test]
fn test_get_related_tags() {
    // Add bookmarks
    let (service, _) = tag_service_with(&[
        ("https://example.com", "Test", "Desc", &["rust", "lang"]),
        ("https://another.com", "Test2", "Desc2", &["rust", "web"]),
    ]);

    // Check related to 'rust'
    let related = service.get_related_tags("rust").unwrap();
    // Might contain 'lang' -> 1, 'web' -> 1
    assert_eq!(related.len(), 2);
}

#[test]
fn test_add_tags_to_bookmarks() {
    // Insert a bookmark
    let (mut service, ids) = tag_service_with(&[("https://example.com", "Title", "Desc", &[])]);
    let id = ids[0];

    let request = TagOperationRequest {
        bookmark_ids: vec![id],
        tags: vec!["rust".into(), "programming".into()],
        replace_existing: Some(false),
    };

    let updated_count = service.add_tags_to_bookmarks(request).unwrap();
    assert_eq!(updated_count, 1);

    // the store holds this one bookmark, so its tags are all the tags in use
    let updated_tags = tag_names(&service);
    assert_eq!(updated_tags.len(), 2);
    assert!(updated_tags.contains(&"rust".to_string()));
    assert!(updated_tags.contains(&"programming".to_string()));
}

#[test]
fn test_remove_tags_from_bookmarks() {
    let (mut service, ids) = tag_service_with(&[("https://example.com", "Title", "Desc", &["rust", "lang"])]);
    let id = ids[0];

    let request = TagOperationRequest {
        bookmark_ids: vec![id],
        tags: vec!["rust".into()],
        replace_existing: None,
    };

    let updated_count = service.remove_tags_from_bookmarks(request).unwrap();
    assert_eq!(updated_count, 1);

    // the store holds this one bookmark, so its tags are all the tags in use
    let updated = tag_names(&service);
    assert_eq!(updated.len(), 1);
    assert!(updated.contains(&"lang".to_string()));
    assert!(!updated.contains(&"rust".to_string()));
}

#[test]
fn test_merge_tags() {
    // Two bookmarks each containing source tag
    let (mut service, _) = tag_service_with(&[
        ("https://example1.com", "Title1", "Desc1", &["source"]),
        ("https://example2.com", "Title2", "Desc2", &["source", "other"]),
    ]);

    let request = TagMergeRequest {
        source_tag: "source".into(),
        target_tag: "target".into(),
    };

    let updated_count = service.merge_tags(request).unwrap();
    assert_eq!(updated_count, 2);

    // Check that 'source' replaced with 'target'
    let any_source_exists = tag_names(&service).iter().any(|tag| tag == "source");

    assert!(!any_source_exists, "'source' tag should not be present");
}

#[test]
fn test_rename_tag() {
    // Bookmarks with old tag
    let (mut service, _) = tag_service_with(&[
        ("https://example1.com", "Title1", "Desc1", &["oldtag"]),
        ("https://example2.com", "Title2", "Desc2", &["oldtag", "other"]),
    ]);

    let request = TagRenameRequest {
        old_name: "oldtag".into(),
        new_name: "newtag".into(),
    };

    let updated_count = service.rename_tag(request).unwrap();
    assert_eq!(updated_count, 2);

    let any_source_exists = tag_names(&service).iter().any(|tag| tag == "oldtag");

    assert!(!any_source_exists, "'oldtag' tag should not be present");
}

#[test]
fn test_get_tag_suggestions() {
    // Bookmarks with tags
    let (service, _) = tag_service_with(&[
        ("https://example1.com", "Title1", "Desc1", &["rust", "lang"]),
        ("https://example2.com", "Title2", "Desc2", &["rubble"]),
    ]);

    // Query partial 'ru'
    let suggestions = service.get_tag_suggestions("ru").unwrap();
    // Might contain 'rust', 'rubble'
    assert_eq!(suggestions.suggestions.len(), 2);
    let found_names: Vec<_> = suggestions.suggestions.iter().map(|s| &s.name).collect();
    assert!(found_names.contains(&&"rust".to_string()));
    assert!(found_names.contains(&&"rubble".to_string()));
}
