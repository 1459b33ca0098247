use bkmr::error::ApplicationError;
use bkmr::tag::Tag;
use bkmr::template::BookmarkTemplate;

#[test]
fn test_template_roundtrip() {
    let tags = vec![Tag::new("test").unwrap(), Tag::new("example").unwrap()];

    let template = BookmarkTemplate {
        id: Some(123),
        url: "https://example.com\n\nanother text".to_string(),
        title: "  Stripped Example Site\n".to_string(),
        tags,
        comments: "This is a\nmultiline\ncomment".to_string(),
        embeddable: true,
    };

    let template_str = template.to_string();

    let parsed = BookmarkTemplate::from_string(&template_str).unwrap();

    assert_eq!(parsed.id, Some(123));
    assert_eq!(parsed.url, "https://example.com\n\nanother text");
    assert_eq!(parsed.title, "Stripped Example Site");
    assert_eq!(parsed.tags.len(), 2);
    assert!(parsed.tags.iter().any(|t| t.value() == "test"));
    assert!(parsed.tags.iter().any(|t| t.value() == "example"));
    assert_eq!(parsed.comments, "This is a\nmultiline\ncomment");
}

#[test]
fn test_template_with_empty_lines() {
    let template_str = "\
        # Bookmark Template\n\
        ---ID---\n\
        123\n\
        ---URL---\n\
        https://example.com\n\
        ---TITLE---\n\
        Example Site\n\
        \n\
        With empty line\n\
        ---TAGS---\n\
        test,example\n\
        ---COMMENTS---\n\
        This is a comment\n\
        \n\
        with empty lines\n\
        \n\
        in between\n\
        ---END---\n";

    let parsed = BookmarkTemplate::from_string(template_str).unwrap();

    assert_eq!(parsed.id, Some(123));
    assert_eq!(parsed.url, "https://example.com");
    assert_eq!(parsed.title, "Example Site\n\nWith empty line");
    assert_eq!(parsed.tags.len(), 2);
    assert_eq!(parsed.comments, "This is a comment\n\nwith empty lines\n\nin between");
}

#[test]
fn test_empty_id_creates_new_bookmark() {
    let template_str = "\
        # Bookmark Template\n\
        ---ID---\n\
        \n\
        ---URL---\n\
        https://example.com\n\
        ---TITLE---\n\
        Example Site\n\
        ---TAGS---\n\
        test\n\
        ---COMMENTS---\n\
        This is a comment\n\
        ---END---\n";

    let parsed = BookmarkTemplate::from_string(template_str).unwrap();

    assert_eq!(parsed.id, None);
    assert_eq!(parsed.url, "https://example.com");
}

#[test]
fn test_invalid_tags_returns_error() {
    let template_str = "\
        # Bookmark Template\n\
        ---ID---\n\
        123\n\
        ---URL---\n\
        https://example.com\n\
        ---TITLE---\n\
        Example Site\n\
        ---TAGS---\n\
        invalid tag with space\n\
        ---COMMENTS---\n\
        This is a comment\n\
        ---END---\n";

    let result = BookmarkTemplate::from_string(template_str);

    assert!(result.is_err());
    if let Err(ApplicationError::Validation(msg)) = result {
        assert!(msg.contains("Invalid tags format"));
    } else {
        panic!("Expected ValidationError");
    }
}

#[test]
fn test_missing_section_uses_default() {
    let template_str = "\
        # Bookmark Template\n\
        ---ID---\n\
        123\n\
        ---URL---\n\
        https://example.com\n\
        ---TITLE---\n\
        Example Site\n\
        ---END---\n";

    let parsed = BookmarkTemplate::from_string(template_str).unwrap();

    assert_eq!(parsed.id, Some(123));
    assert_eq!(parsed.url, "https://example.com");
    assert_eq!(parsed.title, "Example Site");
    assert_eq!(parsed.tags.len(), 0);
    assert_eq!(parsed.comments, "");
}

#[test]
fn roundtrip_keeps_every_field_of_a_normal_template() {
    let template = BookmarkTemplate {
        id: Some(-7),
        url: "echo hello\nwith two lines".to_string(),
        title: "A title".to_string(),
        tags: vec![Tag::new("_snip_").unwrap(), Tag::new("b").unwrap()],
        comments: "notes\n\nmore notes".to_string(),
        embeddable: false,
    };
    let parsed = BookmarkTemplate::from_string(&template.to_string()).unwrap();
    assert_eq!(parsed.id, Some(-7));
    assert_eq!(parsed.url, template.url);
    assert_eq!(parsed.title, template.title);
    assert_eq!(parsed.tags, template.tags);
    assert_eq!(parsed.comments, template.comments);
    assert!(!parsed.embeddable);
}

#[test]
fn non_numeric_id_is_a_validation_error() {
    let template_str = "---ID---\nabc\n---URL---\nhttps://x.org\n---END---\n";
    match BookmarkTemplate::from_string(template_str) {
        Err(ApplicationError::Validation(_)) => {}
        other => panic!("expected a validation error, got {:?}", other),
    }
}

#[test]
fn template_becomes_a_bookmark_keeping_what_the_stored_one_had() {
    let template = BookmarkTemplate {
        id: Some(4),
        url: "https://t.example".to_string(),
        title: "T".to_string(),
        tags: vec![Tag::new("a").unwrap(), Tag::new("a").unwrap(), Tag::new("b").unwrap()],
        comments: "notes".to_string(),
        embeddable: true,
    };
    let fresh = template.to_bookmark(None, 1700000000).unwrap();
    assert_eq!(fresh.id, Some(4));
    assert_eq!(fresh.description, "notes");
    assert_eq!(fresh.access_count, 0);
    assert_eq!(fresh.embedding, None);
    assert_eq!(fresh.created_at, Some(1700000000));
    assert_eq!(fresh.updated_at, 1700000000);
    let names: Vec<&str> = fresh.tags.iter().map(|t| t.value()).collect();
    assert_eq!(names, vec!["a", "b"]);

    let mut original = bkmr::bookmark::Bookmark::new("https://o.example", "O", "", Vec::new()).unwrap();
    original.access_count = 7;
    original.embedding = Some(vec![1, 2]);
    original.content_hash = Some(vec![3]);
    original.created_at = Some(1600000000);
    let kept = template.to_bookmark(Some(&original), 1700000100).unwrap();
    assert_eq!(kept.url, "https://t.example");
    assert_eq!(kept.access_count, 7);
    assert_eq!(kept.embedding, Some(vec![1, 2]));
    assert_eq!(kept.content_hash, Some(vec![3]));
    assert!(kept.embeddable);
    assert_eq!(kept.created_at, Some(1600000000));
    assert_eq!(kept.updated_at, 1700000100);
}
