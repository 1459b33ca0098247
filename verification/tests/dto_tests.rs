use bkmr::bookmark::Bookmark;
use bkmr::dto::{
    BookmarkCreateRequest, BookmarkListItem, BookmarkUpdateRequest, TagInfoResponse,
    TagOperationRequest,
};
use bkmr::error::DomainError;
use bkmr::tag::Tag;

#[test]
fn test_bookmark_create_single_tag() {
    let request = BookmarkCreateRequest {
        url: "https://example.com".into(),
        title: Some("Example".into()),
        description: None,
        tags: Some(vec!["rust".into()]),
        fetch_metadata: None,
    };

    let (url, title, desc, tags) = request.to_domain_objects().unwrap();
    assert_eq!(url, "https://example.com");
    assert_eq!(title, "Example");
    assert_eq!(desc, "");
    assert_eq!(tags.len(), 1);
    assert!(tags.contains(&Tag::new("rust").unwrap()));
}

#[test]
fn test_bookmark_create_multiple_comma_separated_tags() {
    let request = BookmarkCreateRequest {
        url: "https://foo.com".into(),
        title: None,
        description: None,
        tags: Some(vec!["rust, programming, testing".into()]),
        fetch_metadata: None,
    };

    let (_, _, _, tags) = request.to_domain_objects().unwrap();
    assert_eq!(tags.len(), 3);
    assert!(tags.contains(&Tag::new("rust").unwrap()));
    assert!(tags.contains(&Tag::new("programming").unwrap()));
    assert!(tags.contains(&Tag::new("testing").unwrap()));
}

#[test]
fn test_bookmark_update_tags_none() {
    let request = BookmarkUpdateRequest {
        id: 42,
        title: Some("Updated Title".into()),
        description: None,
        tags: None,
    };

    let maybe_tags = request.to_domain_tags().unwrap();
    assert!(maybe_tags.is_none(), "No tags provided => None");
}

#[test]
fn test_bookmark_update_with_tags() {
    let request = BookmarkUpdateRequest {
        id: 123,
        title: None,
        description: None,
        tags: Some(vec!["tag1".to_string(), "tag2, tag3".to_string()]),
    };

    let maybe_tags = request.to_domain_tags().unwrap();
    let tags = maybe_tags.unwrap();
    assert_eq!(tags.len(), 3);
    assert!(tags.contains(&Tag::new("tag1").unwrap()));
    assert!(tags.contains(&Tag::new("tag2").unwrap()));
    assert!(tags.contains(&Tag::new("tag3").unwrap()));
}

#[test]
fn test_bookmark_list_item_from_domain() {
    let bookmark = Bookmark::new("https://testing.com", "TestTitle", "Testing Desc", Vec::new()).unwrap();

    let item = BookmarkListItem::from_domain(&bookmark);
    assert_eq!(item.url, "https://testing.com");
    assert_eq!(item.title, "TestTitle");
    assert!(item.tags.is_empty());
}

#[test]
fn test_tag_operation_request_single_tag() {
    let req = TagOperationRequest {
        bookmark_ids: vec![1, 2, 3],
        tags: vec!["rust".to_string()],
        replace_existing: Some(true),
    };

    let domain_tags = req.to_domain_tags().unwrap();
    assert_eq!(domain_tags.len(), 1);
    assert!(domain_tags.contains(&Tag::new("rust").unwrap()));
}

#[test]
fn test_tag_operation_request_comma_separated() {
    let req = TagOperationRequest {
        bookmark_ids: vec![42],
        tags: vec!["programming, rust, testing".to_string()],
        replace_existing: None,
    };

    let domain_tags = req.to_domain_tags().unwrap();
    assert_eq!(domain_tags.len(), 3);
    assert!(domain_tags.contains(&Tag::new("programming").unwrap()));
    assert!(domain_tags.contains(&Tag::new("rust").unwrap()));
    assert!(domain_tags.contains(&Tag::new("testing").unwrap()));
}

#[test]
fn test_tag_info_response_from_domain() {
    let tag = Tag::new("example").unwrap();
    let response = TagInfoResponse::from_domain(&tag, 5);

    assert_eq!(response.name, "example");
    assert_eq!(response.count, 5);
}

#[test]
fn test_tag_info_response_from_domain_collection() {
    let t1 = Tag::new("tag1").unwrap();
    let t2 = Tag::new("tag2").unwrap();
    let tags_counts = vec![(t1, 2), (t2, 10)];

    let responses = TagInfoResponse::from_domain_collection(&tags_counts);
    assert_eq!(responses.len(), 2);
    assert_eq!(responses[0].name, "tag1");
    assert_eq!(responses[0].count, 2);
    assert_eq!(responses[1].name, "tag2");
    assert_eq!(responses[1].count, 10);
}

#[test]
fn create_request_with_invalid_tag_names_the_tag() {
    let request = BookmarkCreateRequest {
        url: "https://foo.com".into(),
        title: None,
        description: Some("d".into()),
        tags: Some(vec!["ok, not ok".into()]),
        fetch_metadata: None,
    };
    match request.to_domain_objects() {
        Err(DomainError::InvalidTag(msg)) => assert_eq!(msg, "Tag cannot contain spaces"),
        other => panic!("expected an invalid tag, got {:?}", other),
    }
}

#[test]
fn duplicate_tags_across_lists_are_merged() {
    let request = BookmarkUpdateRequest {
        id: 1,
        title: None,
        description: None,
        tags: Some(vec!["a,b".to_string(), "b, c".to_string(), "a".to_string()]),
    };
    let tags = request.to_domain_tags().unwrap().unwrap();
    let names: Vec<&str> = tags.iter().map(|t| t.value()).collect();
    assert_eq!(names, vec!["a", "b", "c"]);
}

#[test]
fn search_request_carries_over_to_service_parameters() {
    let request = bkmr::dto::BookmarkSearchRequest {
        query: Some("rust".to_string()),
        all_tags: Some(vec!["a,b".to_string()]),
        limit: Some(5),
        offset: Some(10),
        ..Default::default()
    };
    let params = request.to_application_params();
    assert_eq!(params.query.as_deref(), Some("rust"));
    assert_eq!(params.all_tags, Some(vec!["a,b".to_string()]));
    assert_eq!(params.any_tags, None);
    assert_eq!(params.limit, Some(5));
    assert_eq!(params.offset, Some(10));
}

#[test]
fn tag_operation_without_replace_flag_adds() {
    let request = TagOperationRequest {
        bookmark_ids: vec![3, 1],
        tags: vec!["x".to_string()],
        replace_existing: None,
    };
    let dto = request.to_application_dto();
    assert_eq!(dto.bookmark_ids, vec![3, 1]);
    assert_eq!(dto.tags, vec!["x".to_string()]);
    assert!(!dto.replace_existing);
    let replacing = TagOperationRequest { bookmark_ids: vec![], tags: vec![], replace_existing: Some(true) };
    assert!(replacing.to_application_dto().replace_existing);
}
