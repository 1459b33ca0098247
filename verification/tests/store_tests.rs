use bkmr::bookmark::Bookmark;
use bkmr::bookmark_application_service::BookmarkApplicationService;
use bkmr::dto::BookmarkSearchRequest;
use bkmr::error::{ApplicationError, DomainError};
use bkmr::num::{format_i32, parse_i32};
use bkmr::repository::BookmarkStore;
use bkmr::tag::{SystemTag, Tag};
use bkmr::template::BookmarkTemplate;

fn bm(url: &str, title: &str, tags: &str) -> Bookmark {
    Bookmark::new(url, title, "", Tag::parse_tags(tags).unwrap()).unwrap()
}

fn store() -> BookmarkStore {
    let mut s = BookmarkStore::new();
    s.add(bm("https://one.org", "One rust", "a,b")).unwrap();
    s.add(bm("https://two.org", "Two", "b,c")).unwrap();
    s.add(bm("https://three.org", "Three rust", "c")).unwrap();
    s.add(bm("https://four.org", "Four", "")).unwrap();
    s
}

#[test]
fn add_then_get_returns_what_was_added() {
    let mut s = store();
    let id = s.add(bm("https://five.org", "Five", "x")).unwrap();
    assert_eq!(id, 5);
    let got = s.get_by_id(id).unwrap();
    assert_eq!(got.url, "https://five.org");
    assert_eq!(got.id, Some(5));
    assert_eq!(s.exists_by_url("https://five.org"), 5);
    assert_eq!(s.exists_by_url("https://none.org"), -1);
}

#[test]
fn update_then_get_and_others_unchanged() {
    let mut s = store();
    let mut b = s.get_by_id(2).unwrap();
    b.title = "Changed".to_string();
    s.update(&b).unwrap();
    assert_eq!(s.get_by_id(2).unwrap().title, "Changed");
    assert_eq!(s.get_by_id(1).unwrap().title, "One rust");
    let mut ghost = bm("https://g.org", "g", "");
    ghost.id = Some(77);
    match s.update(&ghost) {
        Err(DomainError::BookmarkNotFound(_)) => {}
        other => panic!("unexpected {:?}", other),
    }
}

#[test]
fn delete_then_get_finds_nothing() {
    let mut s = store();
    assert!(s.delete(3));
    assert!(s.get_by_id(3).is_none());
    assert!(!s.delete(3));
    assert_eq!(s.get_by_id(4).unwrap().url, "https://four.org");
    assert_eq!(s.len(), 3);
}

#[test]
fn tag_add_and_remove_on_a_bookmark() {
    let mut b = bm("https://t.org", "t", "a");
    b.add_tag(Tag::new("b").unwrap()).unwrap();
    b.add_tag(Tag::new("a").unwrap()).unwrap();
    assert_eq!(b.tags.len(), 2);
    assert!(b.has_tag(&Tag::new("b").unwrap()));
    b.remove_tag(&Tag::new("a").unwrap()).unwrap();
    assert!(!b.has_tag(&Tag::new("a").unwrap()));
    match b.remove_tag(&Tag::new("zzz").unwrap()) {
        Err(DomainError::TagOperationFailed(_)) => {}
        other => panic!("unexpected {:?}", other),
    }
}

#[test]
fn tags_are_trimmed_and_checked() {
    assert_eq!(Tag::new("  x ").unwrap().value(), "x");
    assert!(Tag::new("").is_err());
    assert!(Tag::new("a b").is_err());
    assert!(Tag::new("a,b").is_err());
    let ts = Tag::parse_tags(" b, a ,b,, ").unwrap();
    let names: Vec<&str> = ts.iter().map(|t| t.value()).collect();
    assert_eq!(names, vec!["b", "a"]);
}

#[test]
fn integers_print_and_parse_back() {
    for n in [0, 7, -7, i32::MAX, i32::MIN, 1234567] {
        assert_eq!(parse_i32(&format_i32(n)), Some(n));
        assert_eq!(format_i32(n), n.to_string());
    }
    assert_eq!(parse_i32("+5"), Some(5));
    assert_eq!(parse_i32("2147483648"), None);
    assert_eq!(parse_i32(""), None);
    assert_eq!(parse_i32("-"), None);
}

#[test]
fn system_tags_and_type_templates() {
    assert_eq!(SystemTag::Snippet.as_str(), "_snip_");
    assert_eq!(SystemTag::Uri.as_str(), "");
    let t = BookmarkTemplate::for_type(SystemTag::Markdown);
    assert!(t.embeddable);
    assert_eq!(t.tags.len(), 1);
    assert_eq!(t.tags[0].value(), "_md_");
    assert_eq!(t.title, "New Markdown Document");
    let u = BookmarkTemplate::for_type(SystemTag::Uri);
    assert!(u.tags.is_empty());
    assert_eq!(u.url, "https://");
    let e = BookmarkTemplate::new_empty();
    assert_eq!(e.id, None);
    assert!(e.url.is_empty());
    let b = bm("https://one.org", "One", "a");
    let from = BookmarkTemplate::from_bookmark(&b);
    assert_eq!(from.url, "https://one.org");
    assert_eq!(from.tags.len(), 1);
}

#[test]
fn application_search_filters_and_pages() {
    let service = BookmarkApplicationService::new(store());
    let mut req = BookmarkSearchRequest::default();
    req.query = Some("rust".to_string());
    let resp = service.search_bookmarks(req).unwrap();
    assert_eq!(resp.total_count, 2);
    assert_eq!(resp.bookmarks[0].url, "https://one.org");
    assert!(!resp.has_more);
    assert_eq!(resp.page, None);

    let mut req = BookmarkSearchRequest::default();
    req.all_tags = Some(vec!["b".to_string()]);
    req.exclude_any_tags = Some(vec!["c".to_string()]);
    let resp = service.search_bookmarks(req).unwrap();
    let urls: Vec<&str> = resp.bookmarks.iter().map(|b| b.url.as_str()).collect();
    assert_eq!(urls, vec!["https://one.org"]);

    let mut req = BookmarkSearchRequest::default();
    req.all_tags = Some(vec!["a".to_string()]);
    req.exact_tags = Some(vec!["c".to_string()]);
    let resp = service.search_bookmarks(req).unwrap();
    let urls: Vec<&str> = resp.bookmarks.iter().map(|b| b.url.as_str()).collect();
    assert_eq!(urls, vec!["https://three.org"]);

    let mut req = BookmarkSearchRequest::default();
    req.limit = Some(2);
    req.offset = Some(1);
    let resp = service.search_bookmarks(req).unwrap();
    assert_eq!(resp.total_count, 2);
    assert_eq!(resp.page, Some(1));
    assert_eq!(resp.page_size, Some(2));
    assert!(!resp.has_more);
    assert_eq!(resp.bookmarks[0].url, "https://two.org");

    let mut req = BookmarkSearchRequest::default();
    req.any_tags = Some(vec!["ok, bad tag".to_string()]);
    match service.search_bookmarks(req) {
        Err(ApplicationError::Domain(DomainError::InvalidTag(m))) => {
            assert_eq!(m, "Tag cannot contain spaces")
        }
        other => panic!("unexpected {:?}", other),
    }
}

#[test]
fn application_delete_and_access() {
    let mut service = BookmarkApplicationService::new(store());
    assert!(service.delete_bookmark(1).unwrap());
    assert!(!service.delete_bookmark(1).unwrap());
    service.record_bookmark_access(2).unwrap();
    match service.record_bookmark_access(1) {
        Err(ApplicationError::BookmarkNotFound(1)) => {}
        other => panic!("unexpected {:?}", other),
    }
}
