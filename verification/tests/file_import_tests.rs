use bkmr::bookmark::Bookmark;
use bkmr::bookmark_service::{BookmarkService, BookmarkServiceImpl};
use bkmr::error::ApplicationError;
use bkmr::file_import::{
    content_system_tag_of, has_content_changed, has_metadata_changed, is_orphaned, is_system_tag,
    user_tags_agree, FileImportData,
};
use bkmr::repository::BookmarkStore;
use bkmr::tag::Tag;

fn file(name: &str, content: &str, tags: &str, content_type: &str, path: &str, hash: &str) -> FileImportData {
    FileImportData {
        name: name.to_string(),
        content: content.to_string(),
        tags: Tag::parse_tags(tags).unwrap(),
        content_type: content_type.to_string(),
        file_path: path.to_string(),
        file_mtime: 1700000000,
        file_hash: hash.to_string(),
    }
}

fn tag_texts(b: &Bookmark) -> Vec<String> {
    b.tags.iter().map(|t| t.value().to_string()).collect()
}

fn hashes(n: usize) -> Vec<Vec<u8>> {
    (0..n).map(|i| vec![i as u8]).collect()
}

fn no_embeddings(n: usize) -> Vec<Option<Vec<u8>>> {
    (0..n).map(|_| None).collect()
}

fn service_with_web_bookmark() -> BookmarkServiceImpl {
    let mut store = BookmarkStore::new();
    store
        .add(Bookmark::new("https://example.com", "Example", "web", Vec::new()).unwrap())
        .unwrap();
    BookmarkServiceImpl::new(store)
}

#[test]
fn import_adds_new_files_with_their_system_tag() {
    let mut service = service_with_web_bookmark();
    let files = vec![
        file("backup", "#!/bin/sh\necho hi", "ops,backup", "_shell_", "/s/backup.sh", "h1"),
        file("notes", "# Notes", "docs", "_md_", "/s/notes.md", "h2"),
    ];
    let r = service.import_files(&files, &hashes(2), &no_embeddings(2), &Vec::new(), false, false, false);
    assert_eq!(r.unwrap(), (2, 0, 0));

    let b = service.find_bookmark_by_name("backup").unwrap();
    assert_eq!(b.id, Some(2));
    assert_eq!(b.url, "#!/bin/sh\necho hi");
    assert_eq!(b.description, "");
    assert_eq!(tag_texts(&b), vec!["ops", "backup", "_shell_"]);
    assert!(b.embeddable);
    assert_eq!(b.content_hash, Some(vec![0u8]));
    assert_eq!(b.file_path.as_deref(), Some("/s/backup.sh"));
    assert_eq!(b.file_mtime, Some(1700000000));
    assert_eq!(b.file_hash.as_deref(), Some("h1"));

    let n = service.find_bookmark_by_name("notes").unwrap();
    assert_eq!(n.id, Some(3));
    assert_eq!(tag_texts(&n), vec!["docs", "_md_"]);
}

#[test]
fn import_refuses_a_stored_name_without_update() {
    let mut service = service_with_web_bookmark();
    let files = vec![
        file("first", "a", "", "_shell_", "/s/first.sh", "h1"),
        file("Example", "b", "", "_shell_", "/s/example.sh", "h2"),
        file("third", "c", "", "_shell_", "/s/third.sh", "h3"),
    ];
    let r = service.import_files(&files, &hashes(3), &no_embeddings(3), &Vec::new(), false, false, false);
    match r {
        Err(ApplicationError::DuplicateName { name, existing_id, file_path }) => {
            assert_eq!(name, "Example");
            assert_eq!(existing_id, 1);
            assert_eq!(file_path, "/s/example.sh");
        },
        other => panic!("expected a duplicate name, got {:?}", other),
    }
    // The file before the refused one was imported, the one after was not.
    assert!(service.find_bookmark_by_name("first").is_some());
    assert!(service.find_bookmark_by_name("third").is_none());
    assert_eq!(service.find_bookmark_by_name("Example").unwrap().url, "https://example.com");
}

#[test]
fn duplicate_name_error_message() {
    let e = ApplicationError::DuplicateName {
        name: "x".to_string(),
        existing_id: 7,
        file_path: "/p/x.sh".to_string(),
    };
    assert_eq!(e.message(), "Duplicate name 'x' found in /p/x.sh (existing bookmark ID 7)");
}

#[test]
fn import_with_update_renews_changed_files_and_skips_unchanged_ones() {
    let mut service = BookmarkServiceImpl::new(BookmarkStore::new());
    let first = vec![
        file("deploy", "v1", "ops", "_shell_", "/s/deploy.sh", "h1"),
        file("readme", "r1", "docs", "_md_", "/s/readme.md", "r1"),
    ];
    assert_eq!(
        service.import_files(&first, &hashes(2), &no_embeddings(2), &Vec::new(), false, false, false).unwrap(),
        (2, 0, 0)
    );

    let second = vec![
        file("deploy", "v2", "ops,prod", "_shell_", "/s/deploy.sh", "h2"),
        file("readme", "r1", "docs", "_md_", "/s/readme.md", "r1"),
    ];
    let embeddings = vec![Some(vec![9u8, 9]), Some(vec![8u8])];
    let r = service.import_files(&second, &vec![vec![5u8], vec![6u8]], &embeddings, &Vec::new(), true, false, false);
    assert_eq!(r.unwrap(), (0, 1, 0));

    let d = service.find_bookmark_by_name("deploy").unwrap();
    assert_eq!(d.id, Some(1));
    assert_eq!(d.url, "v2");
    assert_eq!(tag_texts(&d), vec!["ops", "prod", "_shell_"]);
    assert_eq!(d.file_hash.as_deref(), Some("h2"));
    assert_eq!(d.content_hash, Some(vec![5u8]));
    assert_eq!(d.embedding, Some(vec![9u8, 9]));

    let unchanged = service.find_bookmark_by_name("readme").unwrap();
    assert_eq!(unchanged.content_hash, Some(vec![1u8]));
    assert_eq!(unchanged.embedding, None);
}

#[test]
fn dry_run_import_counts_and_changes_nothing() {
    let mut service = service_with_web_bookmark();
    let files = vec![
        file("new one", "x", "", "_shell_", "/s/new.sh", "h"),
        file("Example", "changed", "", "_shell_", "/s/example.sh", "h"),
    ];
    let r = service.import_files(&files, &hashes(2), &no_embeddings(2), &Vec::new(), true, false, true);
    assert_eq!(r.unwrap(), (1, 1, 0));
    assert!(service.find_bookmark_by_name("new one").is_none());
    assert_eq!(service.find_bookmark_by_name("Example").unwrap().url, "https://example.com");
}

#[test]
fn import_deletes_bookmarks_of_gone_files() {
    let mut service = BookmarkServiceImpl::new(BookmarkStore::new());
    let files = vec![
        file("keep", "k", "", "_shell_", "/s/keep.sh", "h1"),
        file("drop", "d", "", "_shell_", "/s/drop.sh", "h2"),
    ];
    service.import_files(&files, &hashes(2), &no_embeddings(2), &Vec::new(), false, false, false).unwrap();

    let gone = vec!["/s/drop.sh".to_string()];
    let only_keep = vec![file("keep", "k", "", "_shell_", "/s/keep.sh", "h1")];
    let dry = service.import_files(&only_keep, &hashes(1), &no_embeddings(1), &gone, true, true, true);
    assert_eq!(dry.unwrap(), (0, 0, 1));
    assert!(service.find_bookmark_by_name("drop").is_some());

    let real = service.import_files(&only_keep, &hashes(1), &no_embeddings(1), &gone, true, true, false);
    assert_eq!(real.unwrap(), (0, 0, 1));
    assert!(service.find_bookmark_by_name("drop").is_none());
    assert!(service.find_bookmark_by_name("keep").is_some());

    // Without delete_missing nothing is deleted.
    let again = service.import_files(&only_keep, &hashes(1), &no_embeddings(1), &vec!["/s/keep.sh".to_string()], true, false, false);
    assert_eq!(again.unwrap(), (0, 0, 0));
    assert!(service.find_bookmark_by_name("keep").is_some());
}

#[test]
fn metadata_change_looks_at_title_user_tags_and_content_type() {
    let mut service = BookmarkServiceImpl::new(BookmarkStore::new());
    let f = file("tool", "x", "a,b", "_shell_", "/s/tool.sh", "h");
    service.import_files(&vec![f], &hashes(1), &no_embeddings(1), &Vec::new(), false, false, false).unwrap();
    let stored = service.find_bookmark_by_name("tool").unwrap();

    assert!(!has_metadata_changed(&stored, &file("tool", "other", "b,a", "_shell_", "/p", "z")));
    assert!(has_metadata_changed(&stored, &file("tool2", "x", "a,b", "_shell_", "/p", "h")));
    assert!(has_metadata_changed(&stored, &file("tool", "x", "a", "_shell_", "/p", "h")));
    assert!(has_metadata_changed(&stored, &file("tool", "x", "a,b", "_md_", "/p", "h")));
    // System tags among the file's tags do not count as user tags.
    assert!(!has_metadata_changed(&stored, &file("tool", "x", "a,b,_snip_", "_shell_", "/p", "h")));

    assert!(!has_content_changed(&stored, &file("tool", "x", "a,b", "_shell_", "/p", "h")));
    assert!(has_content_changed(&stored, &file("tool", "x", "a,b", "_shell_", "/p", "h2")));
    let web = Bookmark::new("https://a", "tool", "", Vec::new()).unwrap();
    assert!(has_content_changed(&web, &file("tool", "x", "", "_shell_", "/p", "h")));
}

#[test]
fn system_tags_and_content_types() {
    assert!(is_system_tag(&Tag::new("_shell_").unwrap()));
    assert!(is_system_tag(&Tag::new("_").unwrap()));
    assert!(!is_system_tag(&Tag::new("_half").unwrap()));
    assert!(!is_system_tag(&Tag::new("plain").unwrap()));
    assert_eq!(content_system_tag_of("_md_").value(), "_md_");
    assert_eq!(content_system_tag_of("_shell_").value(), "_shell_");
    assert_eq!(content_system_tag_of("anything").value(), "_shell_");

    let a = Tag::parse_tags("x,y,_md_").unwrap();
    let b = Tag::parse_tags("y,x").unwrap();
    assert!(user_tags_agree(&a, &b));
    assert!(!user_tags_agree(&a, &Tag::parse_tags("x").unwrap()));
}

#[test]
fn orphan_detection_uses_the_stored_file_path() {
    let mut b = Bookmark::new("content", "t", "", Vec::new()).unwrap();
    let gone = vec!["/s/a.sh".to_string()];
    assert!(!is_orphaned(&b, &gone));
    b.file_path = Some("/s/a.sh".to_string());
    assert!(is_orphaned(&b, &gone));
    b.file_path = Some("/s/b.sh".to_string());
    assert!(!is_orphaned(&b, &gone));
}
