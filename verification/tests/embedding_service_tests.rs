use bkmr::bookmark::Bookmark;
use bkmr::embedding_service::EmbeddingService;
use bkmr::repository::BookmarkStore;
use bkmr::tag::Tag;

#[test]
fn test_backfill_embeddings_dry_run() {
    let tags = vec![Tag::new("test").unwrap()];

    let bookmark1 = Bookmark::new("https://example1.com", "Example 1", "Test description 1", tags.clone()).unwrap();
    let bookmark2 = Bookmark::new("https://example2.com", "Example 2", "Test description 2", tags).unwrap();

    let mut repo = BookmarkStore::new();
    repo.add(bookmark1).unwrap();
    repo.add(bookmark2).unwrap();

    let mut service = EmbeddingService::new(repo);

    let count = service.backfill_embeddings(true, &Vec::new()).unwrap();

    assert_eq!(count, 2);

    // Nothing was written back: the bookmarks are as they were.
    let left = service.bookmarks_without_embeddings();
    assert_eq!(left.len(), 2);
    assert_eq!(left[0].access_count, 0);
}

#[test]
fn backfill_counts_the_embeddings_made() {
    let mut repo = BookmarkStore::new();
    for u in ["https://a", "https://b", "https://c"] {
        repo.add(Bookmark::new(u, "t", "d", Vec::new()).unwrap()).unwrap();
    }
    let mut service = EmbeddingService::new(repo);
    let made = vec![Some(vec![1u8, 2]), None, Some(vec![3u8])];
    assert_eq!(service.backfill_embeddings(false, &made).unwrap(), 2);
}

#[test]
fn backfill_stores_each_embedding_on_its_bookmark() {
    let mut repo = BookmarkStore::new();
    for u in ["https://a", "https://b", "https://c"] {
        repo.add(Bookmark::new(u, "t", "d", Vec::new()).unwrap()).unwrap();
    }
    let mut service = EmbeddingService::new(repo);
    let made = vec![Some(vec![1u8, 2]), None, Some(vec![3u8])];
    service.backfill_embeddings(false, &made).unwrap();
    // Only the bookmark for which no embedding was made still lacks one.
    let left = service.bookmarks_without_embeddings();
    assert_eq!(left.len(), 1);
    assert_eq!(left[0].url, "https://b");
    // A second run has only that bookmark left to deal with.
    assert_eq!(service.backfill_embeddings(false, &vec![Some(vec![9u8])]).unwrap(), 1);
    assert_eq!(service.bookmarks_without_embeddings().len(), 0);
    assert_eq!(service.backfill_embeddings(true, &Vec::new()).unwrap(), 0);
}

#[test]
fn embedding_lookup_needs_a_stored_bookmark() {
    let mut repo = BookmarkStore::new();
    let id = repo.add(Bookmark::new("https://a", "t", "d", Vec::new()).unwrap()).unwrap();
    let service = EmbeddingService::new(repo);
    assert_eq!(service.get_bookmark_embedding(id, Some(vec![4u8, 2])).unwrap(), Some(vec![4u8, 2]));
    assert_eq!(service.get_bookmark_embedding(id, None).unwrap(), None);
    match service.get_bookmark_embedding(id + 1, Some(vec![1u8])) {
        Err(bkmr::error::ApplicationError::BookmarkNotFound(n)) => assert_eq!(n, id + 1),
        other => panic!("expected not found, got {:?}", other),
    }
}
