//! The bookmark service: adding, reading, changing and deleting stored
//! bookmarks, with the id checks and the embedding bookkeeping around them.
//!
//! Work that needs the outside world (fetching a page's title, computing an
//! embedding, hashing a bookmark's content) is done by the caller; the
//! service takes what came back as arguments and decides what is stored.
use vstd::prelude::*;
use crate::bookmark::{bytes_view, copy_bytes, minus_tags, union_tags, Bookmark, BookmarkView};
use crate::error::{concat, ApplicationError, DomainError};
use crate::file_import::{
    byte_views, content_system_tag, content_system_tag_of, created_view, file_views, first_title,
    first_title_at, first_with_title, has_content_changed, has_metadata_changed, has_title,
    import_run, import_step, is_orphan, is_orphaned, is_system_tag, is_system_text,
    lemma_first_title_unique, lemma_run_stopped, opt_byte_views, path_views, renewed_from_file,
    FileImportData, FileImportView,
};
use crate::num::{format_i32, i32_text};
use crate::repository::{bookmark_views, has_id, index_of_id, with_id, BookmarkStore};
use crate::sample::{lemma_random_pick_draws, random_pick, random_picks};
use crate::search::{ordered, query_result, run_query, sort_by_time, BookmarkQuery, SortDirection};
use crate::tag::{contains_tag, tag_views, Tag};
use crate::text::{bytes_eq, chars_of, has_prefix, owned, starts_with};

verus! {

/// The message of the error for an id that cannot name a bookmark.
pub open spec fn invalid_id_text(id: i32) -> Seq<char> {
    "Invalid bookmark ID: "@ + i32_text(id)
}

/// Checks that `id` can name a stored bookmark: ids start at 1.
pub fn validate_bookmark_id(id: i32) -> (r: Result<(), ApplicationError>)
    ensures
        r is Ok <==> id > 0,
        r matches Err(e) ==> e is Validation && e->Validation_0@ == invalid_id_text(id),
{
    if id <= 0 {
        let t = format_i32(id);
        return Err(ApplicationError::Validation(concat("Invalid bookmark ID: ", t.as_str())));
    }
    Ok(())
}

/// The view of an optional text.
pub open spec fn str_opt(o: Option<&str>) -> Option<Seq<char>> {
    match o {
        Some(s) => Some(s@),
        None => None,
    }
}

/// What the user gave, else what was fetched, else `default`.
pub open spec fn chosen(given: Option<Seq<char>>, fetched: Option<Seq<char>>, default: Seq<char>) -> Seq<char> {
    match given {
        Some(g) => g,
        None => match fetched {
            Some(f) => f,
            None => default,
        },
    }
}

/// Whether `url` is a web address.
pub open spec fn is_web_url(url: Seq<char>) -> bool {
    starts_with(url, "http://"@) || starts_with(url, "https://"@)
}

/// The view of a new bookmark before it is stored.
pub open spec fn fresh_view(url: Seq<char>, title: Seq<char>, desc: Seq<char>, tags: Seq<Seq<char>>, now: i64) -> BookmarkView {
    (None, url, title, desc, union_tags(Seq::empty(), tags), 0, false, None, None, crate::bookmark::no_origin(), (Some(now), now))
}

/// Whether `s` holds a bookmark with the URL `url`.
pub open spec fn has_url(s: Seq<BookmarkView>, url: Seq<char>) -> bool {
    exists|k: int| 0 <= k < s.len() && (#[trigger] s[k]).1 == url
}

/// Whether `id` is the id of the first bookmark of `s` with the URL `url`.
pub open spec fn first_with_url(s: Seq<BookmarkView>, url: Seq<char>, id: i32) -> bool {
    exists|k: int|
        0 <= k < s.len() && s[k].0 == Some(id) && s[k].1 == url && forall|j: int|
            0 <= j < k ==> (#[trigger] s[j]).1 != url
}

/// Whether a bookmark needs a new embedding: it is embeddable, and the
/// embedding is forced or its content hash is not `hash`.
pub open spec fn needs_new_embedding(b: BookmarkView, force: bool, hash: Seq<u8>) -> bool {
    b.6 && (force || b.8 != Some(hash))
}

/// The embedding a bookmark keeps after an update.
pub open spec fn kept_embedding(b: BookmarkView, force: bool, hash: Seq<u8>, emb: Option<Seq<u8>>) -> Option<Seq<u8>> {
    if !b.6 {
        None
    } else if needs_new_embedding(b, force, hash) && emb is Some {
        emb
    } else {
        b.7
    }
}

/// The content hash a bookmark keeps after an update.
pub open spec fn kept_hash(b: BookmarkView, force: bool, hash: Seq<u8>, emb: Option<Seq<u8>>) -> Option<Seq<u8>> {
    if !b.6 {
        None
    } else if needs_new_embedding(b, force, hash) && emb is Some {
        Some(hash)
    } else {
        b.8
    }
}

/// `b` after an update at the time `now`: one more access, updated at
/// `now`, and its embedding brought up to date with the content hash
/// `hash` and the new embedding `emb`, if one was made.
pub open spec fn refreshed(b: BookmarkView, force: bool, hash: Seq<u8>, emb: Option<Seq<u8>>, now: i64) -> BookmarkView {
    (
        b.0,
        b.1,
        b.2,
        b.3,
        b.4,
        (b.5 + 1) as i32,
        b.6,
        kept_embedding(b, force, hash, emb),
        kept_hash(b, force, hash, emb),
        b.9,
        (b.10.0, now),
    )
}

/// `b` with its tag texts replaced by `tags`.
pub open spec fn with_tag_views(b: BookmarkView, tags: Seq<Seq<char>>) -> BookmarkView {
    (b.0, b.1, b.2, b.3, tags, b.5, b.6, b.7, b.8, b.9, b.10)
}

/// `b` with the embeddable flag `on`, and without embedding when it is off.
pub open spec fn with_embeddable(b: BookmarkView, on: bool) -> BookmarkView {
    if on {
        (b.0, b.1, b.2, b.3, b.4, b.5, true, b.7, b.8, b.9, b.10)
    } else {
        (b.0, b.1, b.2, b.3, b.4, b.5, false, None, None, b.9, b.10)
    }
}

/// Whether a bookmark takes part in a forced embedding backfill.
pub open spec fn backfill_wanted(b: BookmarkView) -> bool {
    b.6 && !b.4.contains("_imported_"@)
}

/// Whether a bookmark is embeddable and has no embedding yet.
pub open spec fn lacks_embedding(b: BookmarkView) -> bool {
    b.6 && b.7 is None
}

/// Whether the stored bookmark with the id `id` can take one more access.
pub open spec fn can_count_access(s: Seq<BookmarkView>, id: i32) -> bool {
    has_id(s, id) ==> s[index_of_id(s, id)].5 < i32::MAX
}

/// The domain service for bookmarks over a store.
pub struct BookmarkServiceImpl {
    repository: BookmarkStore,
    now: i64,
}

/// The operations on stored bookmarks.
pub trait BookmarkService {
    /// The bookmarks the service holds, in the order they were added.
    spec fn stored(&self) -> Seq<BookmarkView>;

    /// Adds a bookmark for a URL.
    fn add_bookmark(
        &mut self,
        url: &str,
        title: Option<&str>,
        description: Option<&str>,
        tags: Option<&Vec<Tag>>,
        fetch_metadata: bool,
        fetched: Option<(String, String)>,
    ) -> (r: Result<Bookmark, ApplicationError>);

    /// Deletes the bookmark with an id; tells whether one was stored.
    fn delete_bookmark(&mut self, id: i32) -> (r: Result<bool, ApplicationError>);

    /// The bookmark with an id, if one is stored.
    fn get_bookmark(&self, id: i32) -> (r: Result<Option<Bookmark>, ApplicationError>);

    /// Turns the embedding of a bookmark on or off.
    fn set_bookmark_embeddable(
        &mut self,
        id: i32,
        embeddable: bool,
        content_hash: &Vec<u8>,
        embedding: Option<Vec<u8>>,
    ) -> (r: Result<Bookmark, ApplicationError>)
        requires
            can_count_access(old(self).stored(), id),
    ;

    /// Stores a changed bookmark in place of the stored one with its id.
    fn update_bookmark(
        &mut self,
        bookmark: Bookmark,
        force: bool,
        content_hash: &Vec<u8>,
        embedding: Option<Vec<u8>>,
    ) -> (r: Result<Bookmark, ApplicationError>)
        requires
            bookmark.access_count < i32::MAX,
    ;

    /// Adds tags to a bookmark.
    fn add_tags_to_bookmark(
        &mut self,
        id: i32,
        tags: &Vec<Tag>,
        content_hash: &Vec<u8>,
        embedding: Option<Vec<u8>>,
    ) -> (r: Result<Bookmark, ApplicationError>)
        requires
            can_count_access(old(self).stored(), id),
    ;

    /// Removes tags from a bookmark.
    fn remove_tags_from_bookmark(
        &mut self,
        id: i32,
        tags: &Vec<Tag>,
        content_hash: &Vec<u8>,
        embedding: Option<Vec<u8>>,
    ) -> (r: Result<Bookmark, ApplicationError>)
        requires
            can_count_access(old(self).stored(), id),
    ;

    /// Replaces the tags of a bookmark.
    fn replace_bookmark_tags(
        &mut self,
        id: i32,
        tags: &Vec<Tag>,
        content_hash: &Vec<u8>,
        embedding: Option<Vec<u8>>,
    ) -> (r: Result<Bookmark, ApplicationError>)
        requires
            can_count_access(old(self).stored(), id),
    ;

    /// The bookmarks in which a text occurs.
    fn search_bookmarks_by_text(&self, text: &str) -> (r: Result<Vec<Bookmark>, ApplicationError>);

    /// The bookmarks a query selects.
    fn search_bookmarks(&self, query: &BookmarkQuery) -> (r: Result<Vec<Bookmark>, ApplicationError>);

    /// The first bookmark with a URL, if any.
    fn get_bookmark_by_url(&self, url: &str) -> (r: Result<Option<Bookmark>, ApplicationError>);

    /// The stored bookmarks, in an order by update time if one is asked
    /// for, at most a limit of them.
    fn get_all_bookmarks(&self, sort_direction: Option<SortDirection>, limit: Option<usize>) -> (r: Result<Vec<Bookmark>, ApplicationError>);

    /// Bookmarks drawn at random.
    fn get_random_bookmarks(&self, count: usize) -> (r: Result<Vec<Bookmark>, ApplicationError>);

    /// The bookmarks a forced embedding backfill renews.
    fn get_bookmarks_for_forced_backfill(&self) -> (r: Result<Vec<Bookmark>, ApplicationError>);

    /// The bookmarks an embedding backfill fills in.
    fn get_bookmarks_without_embeddings(&self) -> (r: Result<Vec<Bookmark>, ApplicationError>);

    /// Counts one more access of a bookmark.
    fn record_bookmark_access(&mut self, id: i32) -> (r: Result<Bookmark, ApplicationError>)
        requires
            can_count_access(old(self).stored(), id),
    ;

    /// Imports bookmarks read from a file.
    fn load_json_bookmarks(&mut self, imports: &Vec<BookmarkImportData>, dry_run: bool) -> (r: Result<usize, ApplicationError>);

    /// Imports scanned files as bookmarks, and deletes the bookmarks of
    /// files that are gone; returns how many were added, renewed and
    /// deleted.
    fn import_files(
        &mut self,
        files: &Vec<FileImportData>,
        content_hashes: &Vec<Vec<u8>>,
        embeddings: &Vec<Option<Vec<u8>>>,
        gone: &Vec<String>,
        update: bool,
        delete_missing: bool,
        dry_run: bool,
    ) -> (r: Result<(usize, usize, usize), ApplicationError>)
        requires
            content_hashes@.len() == files@.len(),
            embeddings@.len() == files@.len(),
    ;
}

impl BookmarkService for BookmarkServiceImpl {
    open spec fn stored(&self) -> Seq<BookmarkView> {
        self.store()@
    }

    /// Adds a bookmark for `url`. A title or description the user gave
    /// wins; else the one fetched from the page is taken, where fetching
    /// was wanted (`fetched` is what the fetch gave back, `None` if it
    /// failed); else the title is "Untitled" and the description empty.
    /// Refused when a bookmark with this URL is stored already.
    fn add_bookmark(
        &mut self,
        url: &str,
        title: Option<&str>,
        description: Option<&str>,
        tags: Option<&Vec<Tag>>,
        fetch_metadata: bool,
        fetched: Option<(String, String)>,
    ) -> (r: Result<Bookmark, ApplicationError>)
        ensures
            has_url(old(self).store()@, url@) ==> (r matches Err(e) && e matches ApplicationError::BookmarkExists(
                id,
                u,
            ) && u@ == url@ && first_with_url(old(self).store()@, url@, id)),
            !has_url(old(self).store()@, url@) ==> {
                let used = if fetch_metadata && is_web_url(url@) {
                    fetched
                } else {
                    None
                };
                let t = chosen(
                    str_opt(title),
                    match used {
                        Some(p) => Some(p.0@),
                        None => None,
                    },
                    "Untitled"@,
                );
                let d = chosen(
                    str_opt(description),
                    match used {
                        Some(p) => Some(p.1@),
                        None => None,
                    },
                    Seq::empty(),
                );
                let tv = match tags {
                    Some(ts) => tag_views(ts@),
                    None => Seq::empty(),
                };
                &&& (r is Ok <==> (crate::text::trim(url@).len() > 0
                    && old(self).store().has_room()))
                &&& r matches Ok(b) ==> b.id is Some && !has_id(old(self).store()@, b.id->Some_0)
                    && b@ == with_id(fresh_view(url@, t, d, tv, old(self).time()), b.id->Some_0)
                    && final(self).store()@ == old(self).store()@.push(b@)
                &&& r matches Err(e) ==> e is Domain && (crate::text::trim(url@).len() == 0
                    ==> e->Domain_0 is InvalidUrl)
            },
            r is Err ==> final(self).store()@ == old(self).store()@,
    {
        let existing = self.repository.exists_by_url(url);
        if existing != -1 {
            return Err(ApplicationError::BookmarkExists(existing, owned(url)));
        }
        let use_fetched = Self::should_fetch_metadata(url, fetch_metadata);
        let (ft, fd): (Option<String>, Option<String>) = if use_fetched {
            match fetched {
                Some((t, d)) => (Some(t), Some(d)),
                None => (None, None),
            }
        } else {
            (None, None)
        };
        let title_str = match title {
            Some(t) => owned(t),
            None => match ft {
                Some(t) => t,
                None => owned("Untitled"),
            },
        };
        let desc_str = match description {
            Some(d) => owned(d),
            None => match fd {
                Some(d) => d,
                None => String::new(),
            },
        };
        let all_tags: Vec<Tag> = match tags {
            Some(ts) => crate::bookmark::copy_tags(ts),
            None => Vec::new(),
        };
        let mut bookmark = match Bookmark::new(url, title_str.as_str(), desc_str.as_str(), all_tags) {
            Ok(b) => b,
            Err(e) => {
                return Err(ApplicationError::Domain(e));
            },
        };
        bookmark.stamp_created(self.now);
        let mut stored = bookmark.clone();
        match self.repository.add(bookmark) {
            Ok(id) => {
                stored.id = Some(id);
                Ok(stored)
            },
            Err(e) => Err(ApplicationError::Domain(e)),
        }
    }

    /// Deletes the bookmark with the id `id`; tells whether one was stored.
    fn delete_bookmark(&mut self, id: i32) -> (r: Result<bool, ApplicationError>)
        ensures
            r is Ok <==> id > 0,
            r matches Ok(found) ==> found == has_id(old(self).store()@, id) && final(self).store()@
                == if found {
                old(self).store()@.remove(index_of_id(old(self).store()@, id))
            } else {
                old(self).store()@
            },
            r matches Err(e) ==> e is Validation && e->Validation_0@ == invalid_id_text(id)
                && final(self).store()@ == old(self).store()@,
            r is Ok ==> !has_id(final(self).store()@, id),
    {
        match validate_bookmark_id(id) {
            Ok(()) => {},
            Err(e) => {
                return Err(e);
            },
        }
        Ok(self.repository.delete(id))
    }

    /// The bookmark with the id `id`, if one is stored.
    fn get_bookmark(&self, id: i32) -> (r: Result<Option<Bookmark>, ApplicationError>)
        ensures
            r is Ok <==> id > 0,
            r matches Ok(o) ==> (o is Some <==> has_id(self.store()@, id)) && (o matches Some(b)
                ==> b@ == self.store()@[index_of_id(self.store()@, id)]),
            r matches Err(e) ==> e is Validation && e->Validation_0@ == invalid_id_text(id),
    {
        match validate_bookmark_id(id) {
            Ok(()) => {},
            Err(e) => {
                return Err(e);
            },
        }
        Ok(self.repository.get_by_id(id))
    }

    /// Turns the embedding of the bookmark with the id `id` on or off and
    /// stores it as `update_bookmark` does; turning it on forces a new
    /// embedding, turning it off drops the old one.
    fn set_bookmark_embeddable(
        &mut self,
        id: i32,
        embeddable: bool,
        content_hash: &Vec<u8>,
        embedding: Option<Vec<u8>>,
    ) -> (r: Result<Bookmark, ApplicationError>)
        ensures
            r is Ok <==> id > 0 && has_id(old(self).store()@, id),
            r matches Ok(b) ==> {
                let i = index_of_id(old(self).store()@, id);
                &&& b@ == refreshed(
                    with_embeddable(old(self).store()@[i], embeddable),
                    embeddable,
                    content_hash@,
                    bytes_view(embedding),
                    old(self).time(),
                )
                &&& final(self).store()@ == old(self).store()@.update(i, b@)
            },
            r is Err ==> final(self).store()@ == old(self).store()@,
            r matches Err(e) ==> if id <= 0 {
                e is Validation && e->Validation_0@ == invalid_id_text(id)
            } else {
                e == ApplicationError::BookmarkNotFound(id)
            },
    {
        let mut b = match self.validate_and_get_bookmark(id) {
            Ok(b) => b,
            Err(e) => {
                return Err(e);
            },
        };
        b.set_embeddable(embeddable);
        if !embeddable {
            b.embedding = None;
            b.content_hash = None;
        }
        self.update_bookmark(b, embeddable, content_hash, embedding)
    }

    /// Stores `bookmark` in place of the stored one with its id, counting
    /// one more access. An embeddable bookmark whose embedding is due
    /// takes `embedding` (made from its content, whose hash is
    /// `content_hash`) if there is one; a bookmark that is not embeddable
    /// loses its embedding.
    fn update_bookmark(
        &mut self,
        bookmark: Bookmark,
        force: bool,
        content_hash: &Vec<u8>,
        embedding: Option<Vec<u8>>,
    ) -> (r: Result<Bookmark, ApplicationError>)
        ensures
            r is Ok <==> (bookmark.id matches Some(id) && id > 0 && has_id(old(self).store()@, id)),
            r matches Ok(b) ==> b@ == refreshed(bookmark@, force, content_hash@, bytes_view(embedding), old(self).time())
                && final(self).store()@ == old(self).store()@.update(
                index_of_id(old(self).store()@, bookmark.id->Some_0),
                b@,
            ),
            r is Err ==> final(self).store()@ == old(self).store()@,
            r matches Err(e) ==> match bookmark.id {
                None => e is Validation && e->Validation_0@ == "Bookmark ID is required for update"@,
                Some(id) => if id <= 0 {
                    e is Validation && e->Validation_0@ == invalid_id_text(id)
                } else {
                    e is Domain && e->Domain_0 is BookmarkNotFound
                },
            },
    {
        let id = match bookmark.id {
            Some(i) => i,
            None => {
                return Err(ApplicationError::Validation(owned("Bookmark ID is required for update")));
            },
        };
        match validate_bookmark_id(id) {
            Ok(()) => {},
            Err(e) => {
                return Err(e);
            },
        }
        let due = Self::needs_embedding(&bookmark, force, content_hash);
        let mut b = bookmark;
        if b.embeddable {
            if due {
                match embedding {
                    Some(e) => {
                        b.embedding = Some(e);
                        b.content_hash = Some(copy_bytes(content_hash));
                    },
                    None => {},
                }
            }
        } else {
            b.embedding = None;
            b.content_hash = None;
        }
        b.record_access(self.now);
        match self.repository.update(&b) {
            Ok(()) => Ok(b),
            Err(e) => Err(ApplicationError::Domain(e)),
        }
    }

    /// Adds `tags` to the bookmark with the id `id` and stores it as
    /// `update_bookmark` does.
    fn add_tags_to_bookmark(
        &mut self,
        id: i32,
        tags: &Vec<Tag>,
        content_hash: &Vec<u8>,
        embedding: Option<Vec<u8>>,
    ) -> (r: Result<Bookmark, ApplicationError>)
        ensures
            r is Ok <==> id > 0 && has_id(old(self).store()@, id),
            r matches Ok(b) ==> {
                let i = index_of_id(old(self).store()@, id);
                let old_b = old(self).store()@[i];
                &&& b@ == refreshed(
                    with_tag_views(old_b, union_tags(old_b.4, tag_views(tags@))),
                    false,
                    content_hash@,
                    bytes_view(embedding),
                    old(self).time(),
                )
                &&& final(self).store()@ == old(self).store()@.update(i, b@)
            },
            r is Err ==> final(self).store()@ == old(self).store()@,
            r matches Err(e) ==> if id <= 0 {
                e is Validation && e->Validation_0@ == invalid_id_text(id)
            } else {
                e == ApplicationError::BookmarkNotFound(id)
            },
    {
        let mut b = match self.validate_and_get_bookmark(id) {
            Ok(b) => b,
            Err(e) => {
                return Err(e);
            },
        };
        b.add_tags(tags);
        self.update_bookmark(b, false, content_hash, embedding)
    }

    /// Removes `tags` from the bookmark with the id `id` (tags it does not
    /// carry are passed over) and stores it as `update_bookmark` does.
    fn remove_tags_from_bookmark(
        &mut self,
        id: i32,
        tags: &Vec<Tag>,
        content_hash: &Vec<u8>,
        embedding: Option<Vec<u8>>,
    ) -> (r: Result<Bookmark, ApplicationError>)
        ensures
            r is Ok <==> id > 0 && has_id(old(self).store()@, id),
            r matches Ok(b) ==> {
                let i = index_of_id(old(self).store()@, id);
                let old_b = old(self).store()@[i];
                &&& b@ == refreshed(
                    with_tag_views(old_b, minus_tags(old_b.4, tag_views(tags@))),
                    false,
                    content_hash@,
                    bytes_view(embedding),
                    old(self).time(),
                )
                &&& final(self).store()@ == old(self).store()@.update(i, b@)
            },
            r is Err ==> final(self).store()@ == old(self).store()@,
            r matches Err(e) ==> if id <= 0 {
                e is Validation && e->Validation_0@ == invalid_id_text(id)
            } else {
                e == ApplicationError::BookmarkNotFound(id)
            },
    {
        let mut b = match self.validate_and_get_bookmark(id) {
            Ok(b) => b,
            Err(e) => {
                return Err(e);
            },
        };
        b.remove_tags(tags);
        self.update_bookmark(b, false, content_hash, embedding)
    }

    /// Puts `tags` in place of the tags of the bookmark with the id `id`
    /// and stores it as `update_bookmark` does.
    fn replace_bookmark_tags(
        &mut self,
        id: i32,
        tags: &Vec<Tag>,
        content_hash: &Vec<u8>,
        embedding: Option<Vec<u8>>,
    ) -> (r: Result<Bookmark, ApplicationError>)
        ensures
            r is Ok <==> id > 0 && has_id(old(self).store()@, id),
            r matches Ok(b) ==> {
                let i = index_of_id(old(self).store()@, id);
                let old_b = old(self).store()@[i];
                &&& b@ == refreshed(
                    with_tag_views(old_b, union_tags(Seq::empty(), tag_views(tags@))),
                    false,
                    content_hash@,
                    bytes_view(embedding),
                    old(self).time(),
                )
                &&& final(self).store()@ == old(self).store()@.update(i, b@)
            },
            r is Err ==> final(self).store()@ == old(self).store()@,
            r matches Err(e) ==> if id <= 0 {
                e is Validation && e->Validation_0@ == invalid_id_text(id)
            } else {
                e == ApplicationError::BookmarkNotFound(id)
            },
    {
        let mut b = match self.validate_and_get_bookmark(id) {
            Ok(b) => b,
            Err(e) => {
                return Err(e);
            },
        };
        let _ = b.set_tags(tags);
        self.update_bookmark(b, false, content_hash, embedding)
    }

    /// The stored bookmarks whose URL, title or description holds `text`.
    fn search_bookmarks_by_text(&self, text: &str) -> (r: Result<Vec<Bookmark>, ApplicationError>)
        ensures
            r matches Ok(v) && bookmark_views(v@) == self.store()@.filter(
                |b: BookmarkView| crate::search::occurs_in(text@, b.1) || crate::search::occurs_in(text@, b.2)
                    || crate::search::occurs_in(text@, b.3),
            ),
    {
        let q = BookmarkQuery { text: Some(owned(text)), conditions: Vec::new(), sort_by_date: None, limit: None, offset: None };
        let all = self.repository.get_all();
        let r = run_query(&all, &q);
        proof {
            let s = self.repository@;
            let m = s.filter(|b: BookmarkView| crate::search::query_matches(q, b));
            assert(m.skip(0) =~= m);
            assert((|b: BookmarkView| crate::search::query_matches(q, b)) =~= (|b: BookmarkView|
                crate::search::occurs_in(text@, b.1) || crate::search::occurs_in(text@, b.2)
                    || crate::search::occurs_in(text@, b.3)));
        }
        Ok(r)
    }

    /// The stored bookmarks that `query` selects.
    fn search_bookmarks(&self, query: &BookmarkQuery) -> (r: Result<Vec<Bookmark>, ApplicationError>)
        ensures
            r matches Ok(v) && bookmark_views(v@) == query_result(self.store()@, *query),
    {
        let all = self.repository.get_all();
        Ok(run_query(&all, query))
    }

    /// The first stored bookmark with the URL `url`, if any.
    fn get_bookmark_by_url(&self, url: &str) -> (r: Result<Option<Bookmark>, ApplicationError>)
        ensures
            r matches Ok(o) && (o is Some <==> has_url(self.store()@, url@)) && (o matches Some(b)
                ==> exists|k: int|
                0 <= k < self.store()@.len() && self.store()@[k] == b@ && b@.1 == url@ && forall|
                    j: int,
                | 0 <= j < k ==> (#[trigger] self.store()@[j]).1 != url@),
    {
        Ok(self.repository.get_by_url(url))
    }

    /// The stored bookmarks in the order they were added, at most `limit`
    /// of them.
    fn get_all_bookmarks(&self, sort_direction: Option<SortDirection>, limit: Option<usize>) -> (r: Result<Vec<Bookmark>, ApplicationError>)
        ensures
            r matches Ok(v) && bookmark_views(v@) == ({
                let o = ordered(self.store()@, sort_direction);
                match limit {
                    Some(l) => if l <= o.len() {
                        o.take(l as int)
                    } else {
                        o
                    },
                    None => o,
                }
            }),
    {
        let all = self.repository.get_all();
        let all = match sort_direction {
            Some(d) => sort_by_time(all, d),
            None => all,
        };
        proof {
            match sort_direction {
                Some(d) => crate::search::lemma_sorted_len(self.repository@, d),
                None => {},
            }
            assert(bookmark_views(all@).len() == all@.len());
        }
        let n = match limit {
            Some(l) => if l <= all.len() {
                l
            } else {
                all.len()
            },
            None => all.len(),
        };
        let ghost s = ordered(self.repository@, sort_direction);
        let mut out: Vec<Bookmark> = Vec::new();
        let mut i: usize = 0;
        while i < n
            invariant
                i <= n <= all@.len(),
                bookmark_views(all@) == s,
                bookmark_views(out@) == s.take(i as int),
            decreases n - i,
        {
            let b = all[i].clone();
            let ghost before = out@;
            assert(bookmark_views(before).len() == before.len());
            out.push(b);
            assert(bookmark_views(out@) =~= s.take(i as int + 1)) by {
                assert forall|k: int| 0 <= k < before.len() implies #[trigger] bookmark_views(
                    out@,
                )[k] == bookmark_views(before)[k] by {
                    assert(out@[k] == before[k]);
                }
                assert(bookmark_views(all@)[i as int] == all@[i as int]@);
            }
            i = i + 1;
        }
        assert(s.take(s.len() as int) =~= s);
        Ok(out)
    }

    /// `count` bookmarks drawn at random from the store, none twice (all
    /// of them, in some order, when fewer are stored).
    fn get_random_bookmarks(&self, count: usize) -> (r: Result<Vec<Bookmark>, ApplicationError>)
        ensures
            r matches Ok(v) && (exists|p: Seq<u64>|
                p.len() == count && bookmark_views(v@) == #[trigger] random_pick(self.store()@, p)),
            r matches Ok(v) && v@.len() == if count < self.store()@.len() {
                count as nat
            } else {
                self.store()@.len()
            },
            r matches Ok(v) && bookmark_views(v@).to_multiset().subset_of(self.store()@.to_multiset()),
    {
        let picks = random_picks(count);
        let v = self.pick_bookmarks(&picks);
        proof {
            lemma_random_pick_draws(self.store()@, picks@);
            assert(bookmark_views(v@).len() == v@.len());
        }
        Ok(v)
    }

    /// The embeddable stored bookmarks that do not carry the tag
    /// `_imported_`, in order.
    fn get_bookmarks_for_forced_backfill(&self) -> (r: Result<Vec<Bookmark>, ApplicationError>)
        ensures
            r matches Ok(v) && bookmark_views(v@) == self.store()@.filter(|b: BookmarkView| backfill_wanted(b)),
    {
        let all = self.repository.get_all();
        proof {
            reveal_strlit("_imported_");
            crate::text::lemma_trim_fixed("_imported_"@);
        }
        let imported = match Tag::new("_imported_") {
            Ok(t) => t,
            Err(_) => {
                assert(false);
                return Ok(Vec::new());
            },
        };
        let ghost s = self.repository@;
        let ghost pred = |b: BookmarkView| backfill_wanted(b);
        let n = all.len();
        let mut out: Vec<Bookmark> = Vec::new();
        let mut i: usize = 0;
        assert(s.take(0) =~= Seq::<BookmarkView>::empty());
        while i < n
            invariant
                i <= n,
                n == all@.len(),
                s == bookmark_views(all@),
                imported@ == "_imported_"@,
                pred == (|b: BookmarkView| backfill_wanted(b)),
                bookmark_views(out@) == s.take(i as int).filter(pred),
            decreases n - i,
        {
            reveal_with_fuel(Seq::filter, 1);
            assert(s.take(i as int + 1).drop_last() =~= s.take(i as int));
            assert(s.take(i as int + 1).last() == all@[i as int]@);
            if all[i].embeddable && !contains_tag(&all[i].tags, &imported) {
                let b = all[i].clone();
                let ghost before = out@;
                assert(bookmark_views(before).len() == before.len());
                out.push(b);
                assert(bookmark_views(out@) =~= bookmark_views(before).push(b@)) by {
                    assert forall|k: int| 0 <= k < before.len() implies #[trigger] bookmark_views(
                        out@,
                    )[k] == bookmark_views(before)[k] by {
                        assert(out@[k] == before[k]);
                    }
                }
            }
            i = i + 1;
        }
        assert(s.take(n as int) =~= s);
        Ok(out)
    }

    /// The embeddable stored bookmarks that have no embedding yet, in order.
    fn get_bookmarks_without_embeddings(&self) -> (r: Result<Vec<Bookmark>, ApplicationError>)
        ensures
            r matches Ok(v) && bookmark_views(v@) == self.store()@.filter(|b: BookmarkView| lacks_embedding(b)),
    {
        let all = self.repository.get_all();
        let ghost s = self.repository@;
        let ghost pred = |b: BookmarkView| lacks_embedding(b);
        let n = all.len();
        let mut out: Vec<Bookmark> = Vec::new();
        let mut i: usize = 0;
        assert(s.take(0) =~= Seq::<BookmarkView>::empty());
        while i < n
            invariant
                i <= n,
                n == all@.len(),
                s == bookmark_views(all@),
                pred == (|b: BookmarkView| lacks_embedding(b)),
                bookmark_views(out@) == s.take(i as int).filter(pred),
            decreases n - i,
        {
            reveal_with_fuel(Seq::filter, 1);
            assert(s.take(i as int + 1).drop_last() =~= s.take(i as int));
            assert(s.take(i as int + 1).last() == all@[i as int]@);
            if all[i].embeddable && all[i].embedding.is_none() {
                let b = all[i].clone();
                let ghost before = out@;
                assert(bookmark_views(before).len() == before.len());
                out.push(b);
                assert(bookmark_views(out@) =~= bookmark_views(before).push(b@)) by {
                    assert forall|k: int| 0 <= k < before.len() implies #[trigger] bookmark_views(
                        out@,
                    )[k] == bookmark_views(before)[k] by {
                        assert(out@[k] == before[k]);
                    }
                }
            }
            i = i + 1;
        }
        assert(s.take(n as int) =~= s);
        Ok(out)
    }

    /// Counts one more access of the bookmark with the id `id`.
    fn record_bookmark_access(&mut self, id: i32) -> (r: Result<Bookmark, ApplicationError>)
        ensures
            r is Ok <==> id > 0 && has_id(old(self).store()@, id),
            r matches Ok(b) ==> {
                let i = index_of_id(old(self).store()@, id);
                let old_b = old(self).store()@[i];
                &&& b@ == (
                    old_b.0,
                    old_b.1,
                    old_b.2,
                    old_b.3,
                    old_b.4,
                    (old_b.5 + 1) as i32,
                    old_b.6,
                    old_b.7,
                    old_b.8,
                    old_b.9,
                    (old_b.10.0, old(self).time()),
                )
                &&& final(self).store()@ == old(self).store()@.update(i, b@)
            },
            r is Err ==> final(self).store()@ == old(self).store()@,
            r matches Err(e) ==> if id <= 0 {
                e is Validation && e->Validation_0@ == invalid_id_text(id)
            } else {
                e == ApplicationError::BookmarkNotFound(id)
            },
    {
        let mut b = match self.validate_and_get_bookmark(id) {
            Ok(b) => b,
            Err(e) => {
                return Err(e);
            },
        };
        b.record_access(self.now);
        match self.repository.update(&b) {
            Ok(()) => Ok(b),
            Err(e) => Err(ApplicationError::Domain(e)),
        }
    }

    /// Imports the bookmarks `imports` into the store: a dry run only counts
    /// them; otherwise each whose URL is not stored yet is added, in order,
    /// and the number added is returned. A blank URL stops the import with an
    /// invalid-URL error, and so does a store without ids left, with the
    /// bookmarks before it added.
    fn load_json_bookmarks(&mut self, imports: &Vec<BookmarkImportData>, dry_run: bool) -> (r: Result<usize, ApplicationError>)
        ensures
            dry_run ==> (r matches Ok(n) && n == imports@.len()) && final(self).store()@ == old(self).store()@,
            !dry_run ==> {
                let now = old(self).time();
                let plan = import_plan(old(self).store()@, imports@, now);
                let added = (final(self).store()@.len() - old(self).store()@.len()) as int;
                &&& old(self).store()@.len() <= final(self).store()@.len()
                &&& added <= plan.len()
                &&& final(self).store()@.take(old(self).store()@.len() as int) == old(self).store()@
                &&& forall|k: int| 0 <= k < added ==> (#[trigger] final(self).store()@[old(self).store()@.len() + k]).0 is Some
                    && without_id(final(self).store()@[old(self).store()@.len() + k]) == plan[k]
                &&& r matches Ok(n) ==> n == added && added == plan.len() && !import_stops(old(self).store()@, imports@, now)
                &&& r matches Err(e) ==> e is Domain && ((added == plan.len() && import_stops(old(self).store()@, imports@, now)
                    && e->Domain_0 is InvalidUrl) || (added < plan.len() && !final(self).store().has_room()))
            },
    {
        if dry_run {
            return Ok(imports.len());
        }
        let ghost s0 = self.repository@;
        let ghost now = self.now;
        let n = imports.len();
        let mut count: usize = 0;
        let mut i: usize = 0;
        assert(imports@.take(0) =~= Seq::<BookmarkImportData>::empty());
        assert(self.repository@.take(s0.len() as int) =~= s0);
        while i < n
            invariant
                !dry_run,
                s0 == old(self).store()@,
                now == old(self).time(),
                now == self.now,
                i <= n,
                n == imports@.len(),
                count <= i,
                self.repository@.len() == s0.len() + count,
                self.repository@.take(s0.len() as int) == s0,
                count == import_plan(s0, imports@.take(i as int), now).len(),
                !import_stops(s0, imports@.take(i as int), now),
                forall|k: int|
                    0 <= k < count ==> (#[trigger] self.repository@[s0.len() + k]).0 is Some && without_id(
                        self.repository@[s0.len() + k],
                    ) == import_plan(s0, imports@.take(i as int), now)[k],
            decreases n - i,
        {
            let e = &imports[i];
            proof {
                lemma_has_url_push_ids(s0, import_plan(s0, imports@.take(i as int), now), self.repository@, e.url@);
                lemma_import_step(s0, imports@, i as int, now);
            }
            let existing = self.repository.exists_by_url(e.url.as_str());
            if existing == -1 {
                let mut b = match Bookmark::new(e.url.as_str(), e.title.as_str(), e.content.as_str(), crate::bookmark::copy_tags(&e.tags)) {
                    Ok(b) => b,
                    Err(err) => {
                        proof {
                            lemma_import_plan_stops(s0, imports@, i as int + 1, now);
                        }
                        return Err(ApplicationError::Domain(err));
                    },
                };
                b.stamp_created(self.now);
                let ghost bv = b@;
                let ghost before = self.repository@;
                match self.repository.add(b) {
                    Ok(id) => {
                        proof {
                            assert(self.repository@ == before.push(with_id(bv, id)));
                            assert(self.repository@.take(s0.len() as int) =~= before.take(s0.len() as int));
                            assert forall|k: int| 0 <= k < count + 1 implies (#[trigger] self.repository@[s0.len()
                                + k]).0 is Some && without_id(self.repository@[s0.len() + k])
                                == import_plan(s0, imports@.take(i as int + 1), now)[k] by {
                                if k < count {
                                    assert(self.repository@[s0.len() + k] == before[s0.len() + k]);
                                }
                            }
                        }
                        count = count + 1;
                    },
                    Err(err) => {
                        proof {
                            let p = import_plan(s0, imports@.take(i as int), now);
                            let q = import_plan(s0, imports@.take(i as int + 1), now);
                            assert(q.len() == count + 1);
                            lemma_import_plan_grows(s0, imports@, i as int + 1, now);
                            assert forall|k: int| 0 <= k < count implies (#[trigger] self.repository@[s0.len()
                                + k]).0 is Some && without_id(self.repository@[s0.len() + k])
                                == import_plan(s0, imports@, now)[k] by {
                                assert(p[k] == q[k]);
                            }
                        }
                        return Err(ApplicationError::Domain(err));
                    },
                }
            }
            i = i + 1;
        }
        assert(imports@.take(n as int) =~= imports@);
        Ok(count)
    }

    /// Imports the scanned files `files`, in order; `content_hashes` and
    /// `embeddings` hold what was made for each file's content. A file
    /// whose name is the title of a stored bookmark renews that bookmark
    /// when its content or metadata changed, and is refused as a duplicate
    /// unless `update` is set; any other file adds a bookmark. The first
    /// refused file ends the import, with the files before it imported.
    /// With `delete_missing`, the bookmarks of files listed in `gone` (those
    /// the scan no longer finds) are deleted afterwards. A dry run changes
    /// nothing and counts what would be done.
    fn import_files(
        &mut self,
        files: &Vec<FileImportData>,
        content_hashes: &Vec<Vec<u8>>,
        embeddings: &Vec<Option<Vec<u8>>>,
        gone: &Vec<String>,
        update: bool,
        delete_missing: bool,
        dry_run: bool,
    ) -> (r: Result<(usize, usize, usize), ApplicationError>)
        ensures
            ({
                let run = import_run(
                    old(self).store()@,
                    old(self).store().next_id() as int,
                    file_views(files@),
                    byte_views(content_hashes@),
                    opt_byte_views(embeddings@),
                    update,
                    dry_run,
                    old(self).time(),
                );
                let gv = path_views(gone@);
                match run.4 {
                    Some(k) => {
                        &&& final(self).store()@ == run.0
                        &&& 0 <= k < files@.len()
                        &&& if has_title(run.0, files@[k].name@) {
                            r matches Err(e) && e matches ApplicationError::DuplicateName {
                                name,
                                existing_id,
                                file_path,
                            } && name@ == files@[k].name@ && file_path@ == files@[k].file_path@
                                && run.0[first_title(run.0, name@)].0 == Some(existing_id)
                        } else {
                            r matches Err(e) && e is Domain && e->Domain_0 is Other
                        }
                    },
                    None => {
                        &&& r matches Ok(c) && c.0 == run.2 && c.1 == run.3 && c.2 == if delete_missing {
                            run.0.filter(|b: BookmarkView| is_orphan(b, gv)).len()
                        } else {
                            0
                        }
                        &&& final(self).store()@ == if dry_run {
                            old(self).store()@
                        } else if delete_missing {
                            run.0.filter(|b: BookmarkView| !is_orphan(b, gv))
                        } else {
                            run.0
                        }
                    },
                }
            }),
            dry_run ==> final(self).store()@ == old(self).store()@,
    {
        let ghost s0 = self.repository@;
        let ghost n0 = self.repository.next_id() as int;
        let ghost fv = file_views(files@);
        let ghost hv = byte_views(content_hashes@);
        let ghost ev = opt_byte_views(embeddings@);
        let ghost now = self.now;
        let n = files.len();
        let mut added: usize = 0;
        let mut renewed: usize = 0;
        let mut i: usize = 0;
        assert(fv.take(0) =~= Seq::<FileImportView>::empty());
        while i < n
            invariant
                i <= n,
                n == files@.len(),
                n == content_hashes@.len(),
                n == embeddings@.len(),
                fv == file_views(files@),
                hv == byte_views(content_hashes@),
                ev == opt_byte_views(embeddings@),
                added + renewed <= i,
                import_run(s0, n0, fv.take(i as int), hv, ev, update, dry_run, now) == (
                    self.repository@,
                    self.repository.next_id() as int,
                    added as nat,
                    renewed as nat,
                    None::<int>,
                ),
                dry_run ==> self.repository@ == s0,
                s0 == old(self).store()@,
                n0 == old(self).store().next_id() as int,
                now == old(self).time(),
                now == self.now,
            decreases n - i,
        {
            let ghost st = import_run(s0, n0, fv.take(i as int), hv, ev, update, dry_run, now);
            proof {
                assert(fv.take(i as int + 1).drop_last() =~= fv.take(i as int));
                assert(fv.take(i as int + 1).last() == files@[i as int]@);
            }
            let ghost next_st = import_run(s0, n0, fv.take(i as int + 1), hv, ev, update, dry_run, now);
            assert(next_st == import_step(st, files@[i as int]@, i as int, hv[i as int], ev[i as int], update, dry_run, now));
            let f = &files[i];
            let emb: Option<Vec<u8>> = match &embeddings[i] {
                Some(v) => Some(copy_bytes(v)),
                None => None,
            };
            assert(bytes_view(emb) == ev[i as int]);
            assert(content_hashes[i as int]@ == hv[i as int]);
            match self.find_bookmark_by_name(f.name.as_str()) {
                Some(existing) => {
                    let ghost s = self.repository@;
                    let ghost k = first_title(s, f.name@);
                    self.repository.assert_ids();
                    assert(s[k].0 is Some);
                    if !update {
                        proof {
                            assert(st.0 == s);
                            assert(has_title(st.0, files@[i as int]@.0));
                            assert(next_st == (s, st.1, st.2, st.3, Some(i as int)));
                            lemma_run_stopped(s0, n0, fv, hv, ev, update, dry_run, now, i as int + 1);
                            assert(fv.take(i as int + 1)[i as int] == files@[i as int]@);
                        }
                        let existing_id = match existing.id {
                            Some(v) => v,
                            None => -1,
                        };
                        return Err(
                            ApplicationError::DuplicateName {
                                name: f.name.clone(),
                                existing_id,
                                file_path: f.file_path.clone(),
                            },
                        );
                    }
                    let content_changed = has_content_changed(&existing, f);
                    let metadata_changed = has_metadata_changed(&existing, f);
                    if content_changed || metadata_changed {
                        if !dry_run {
                            proof {
                                assert(has_id(s, existing.id->Some_0));
                                assert(index_of_id(s, existing.id->Some_0) == k) by {
                                    let m = index_of_id(s, existing.id->Some_0);
                                    assert(s[m].0 == existing.id);
                                    if m != k {
                                        assert(s[m].0 != s[k].0);
                                    }
                                }
                            }
                            match self.update_bookmark_from_file(&existing, f, &content_hashes[i], emb) {
                                Ok(_) => {},
                                Err(e) => {
                                    assert(false);
                                    return Err(e);
                                },
                            }
                        }
                        renewed = renewed + 1;
                    }
                },
                None => {
                    let ghost s = self.repository@;
                    assert(st.0 == s);
                    assert(!has_title(st.0, files@[i as int]@.0));
                    if !dry_run {
                        match self.create_bookmark_from_file(f, &content_hashes[i], emb) {
                            Ok(_) => {},
                            Err(e) => {
                                proof {
                                    assert(st.1 >= i32::MAX);
                                    assert(next_st == (s, st.1, st.2, st.3, Some(i as int)));
                                    lemma_run_stopped(s0, n0, fv, hv, ev, update, dry_run, now, i as int + 1);
                                    assert(fv.take(i as int + 1)[i as int] == files@[i as int]@);
                                }
                                return Err(e);
                            },
                        }
                    }
                    added = added + 1;
                },
            }
            i = i + 1;
        }
        assert(fv.take(n as int) =~= fv);
        let ghost p = self.repository@;
        let ghost gv = path_views(gone@);
        let ghost keep = |b: BookmarkView| !is_orphan(b, gv);
        let ghost orph = |b: BookmarkView| is_orphan(b, gv);
        let mut deleted: usize = 0;
        if delete_missing {
            let all = self.repository.get_all();
            let m = all.len();
            let mut j: usize = 0;
            assert(bookmark_views(all@).len() == all@.len());
            assert(p.take(0) =~= Seq::<BookmarkView>::empty());
            assert(p.take(0).filter(keep) + p.skip(0) =~= p);
            while j < m
                invariant
                    j <= m,
                    m == all@.len(),
                    p == bookmark_views(all@),
                    gv == path_views(gone@),
                    keep == (|b: BookmarkView| !is_orphan(b, gv)),
                    orph == (|b: BookmarkView| is_orphan(b, gv)),
                    deleted as nat == p.take(j as int).filter(orph).len(),
                    deleted <= j,
                    self.repository@ == if dry_run {
                        p
                    } else {
                        p.take(j as int).filter(keep) + p.skip(j as int)
                    },
                decreases m - j,
            {
                proof {
                    reveal_with_fuel(Seq::filter, 1);
                    assert(p.take(j as int + 1).drop_last() =~= p.take(j as int));
                    assert(p.take(j as int + 1).last() == p[j as int]);
                    assert(p[j as int] == all@[j as int]@);
                }
                if is_orphaned(&all[j], gone) {
                    if !dry_run {
                        let ghost c = self.repository@;
                        let ghost a = p.take(j as int).filter(keep);
                        self.repository.assert_ids();
                        assert(c[a.len() as int] == p[j as int]);
                        let id = match all[j].id {
                            Some(v) => v,
                            None => 0,
                        };
                        proof {
                            assert(c[a.len() as int].0 == Some(id));
                            assert(index_of_id(c, id) == a.len()) by {
                                let q = index_of_id(c, id);
                                assert(c[q].0 == Some(id));
                                if q != a.len() {
                                    assert(c[q].0 != c[a.len() as int].0);
                                }
                            }
                        }
                        self.repository.delete(id);
                        assert(self.repository@ =~= a + p.skip(j as int + 1));
                    }
                    deleted = deleted + 1;
                } else {
                    proof {
                        if !dry_run {
                            let a = p.take(j as int).filter(keep);
                            assert(a + p.skip(j as int) =~= a.push(p[j as int]) + p.skip(j as int + 1));
                        }
                    }
                }
                j = j + 1;
            }
            proof {
                assert(p.take(m as int) =~= p);
                assert(p.take(m as int).filter(keep) + p.skip(m as int) =~= p.filter(keep));
            }
        }
        Ok((added, renewed, deleted))
    }
}

impl BookmarkServiceImpl {
    /// A bookmark service over `repository`.
    pub fn new(repository: BookmarkStore) -> (r: BookmarkServiceImpl)
        ensures
            r.store()@ == repository@,
            r.store().has_room() == repository.has_room(),
            r.store().next_id() == repository.next_id(),
            r.time() == 0,
    {
        BookmarkServiceImpl { repository, now: 0 }
    }

    /// The store the service works on.
    pub closed spec fn store(&self) -> BookmarkStore {
        self.repository
    }

    /// The time, in seconds since the Unix epoch, that the service writes
    /// on the bookmarks it creates or touches.
    pub closed spec fn time(&self) -> i64 {
        self.now
    }

    /// Sets the time the service writes on bookmarks; the caller reads it
    /// from the clock.
    pub fn set_time(&mut self, now: i64)
        ensures
            final(self).time() == now,
            final(self).store() == old(self).store(),
    {
        self.now = now;
    }

    /// Whether the metadata of `url` is to be fetched before adding it:
    /// fetching was asked for and the URL is a web address.
    pub fn should_fetch_metadata(url: &str, fetch_metadata: bool) -> (r: bool)
        ensures
            r == (fetch_metadata && is_web_url(url@)),
    {
        if !fetch_metadata {
            return false;
        }
        let u = chars_of(url);
        let h = chars_of("http://");
        let hs = chars_of("https://");
        has_prefix(u.as_slice(), h.as_slice()) || has_prefix(u.as_slice(), hs.as_slice())
    }

    /// The stored bookmark with the id `id`: refused for an id that cannot
    /// name a bookmark, and for one that names none.
    pub fn validate_and_get_bookmark(&self, id: i32) -> (r: Result<Bookmark, ApplicationError>)
        ensures
            r is Ok <==> id > 0 && has_id(self.store()@, id),
            r matches Ok(b) ==> b@ == self.store()@[index_of_id(self.store()@, id)],
            r matches Err(e) ==> if id <= 0 {
                e is Validation && e->Validation_0@ == invalid_id_text(id)
            } else {
                e == ApplicationError::BookmarkNotFound(id)
            },
    {
        match validate_bookmark_id(id) {
            Ok(()) => {},
            Err(e) => {
                return Err(e);
            },
        }
        match self.repository.get_by_id(id) {
            Some(b) => Ok(b),
            None => Err(ApplicationError::BookmarkNotFound(id)),
        }
    }

    /// The first stored bookmark titled `name`, if any.
    pub fn find_bookmark_by_name(&self, name: &str) -> (r: Option<Bookmark>)
        ensures
            r is Some <==> has_title(self.store()@, name@),
            r matches Some(b) ==> first_title_at(self.store()@, name@, first_title(self.store()@, name@))
                && b@ == self.store()@[first_title(self.store()@, name@)],
    {
        let all = self.repository.get_all();
        match first_with_title(&all, name) {
            Some(k) => {
                proof {
                    lemma_first_title_unique(self.store()@, name@, k as int);
                }
                let b = all[k].clone();
                assert(b@ == bookmark_views(all@)[k as int]);
                Some(b)
            },
            None => None,
        }
    }

    /// Stores a new bookmark for the file `file_data`, with the content
    /// hash and embedding made for it; refused only when no id is left.
    pub fn create_bookmark_from_file(
        &mut self,
        file_data: &FileImportData,
        content_hash: &Vec<u8>,
        embedding: Option<Vec<u8>>,
    ) -> (r: Result<Bookmark, ApplicationError>)
        ensures
            r is Ok <==> old(self).store().has_room(),
            r matches Ok(b) ==> b@ == with_id(
                created_view(file_data@, content_hash@, bytes_view(embedding), old(self).time()),
                old(self).store().next_id(),
            ) && final(self).store()@ == old(self).store()@.push(b@) && final(self).store().next_id()
                == old(self).store().next_id() + 1,
            r matches Err(e) ==> e is Domain && e->Domain_0 is Other && final(self).store()@ == old(
                self,
            ).store()@ && final(self).store().next_id() == old(self).store().next_id(),
        final(self).time() == old(self).time(),
    {
        let tags = crate::bookmark::copy_tags(&file_data.tags);
        let sys = content_system_tag_of(file_data.content_type.as_str());
        let ghost ev = bytes_view(embedding);
        let mut bookmark = Bookmark {
            id: None,
            url: file_data.content.clone(),
            title: file_data.name.clone(),
            description: String::new(),
            tags: Vec::new(),
            access_count: 0,
            embeddable: true,
            embedding,
            content_hash: Some(copy_bytes(content_hash)),
            file_path: Some(file_data.file_path.clone()),
            file_mtime: Some(file_data.file_mtime),
            file_hash: Some(file_data.file_hash.clone()),
            created_at: Some(self.now),
            updated_at: self.now,
        };
        assert(tag_views(bookmark.tags@) =~= Seq::<Seq<char>>::empty());
        bookmark.add_tags(&tags);
        let mut extra: Vec<Tag> = Vec::new();
        extra.push(sys);
        assert(tag_views(extra@) =~= seq![content_system_tag(file_data@.3)]);
        bookmark.add_tags(&extra);
        assert(bookmark@ == created_view(file_data@, content_hash@, ev, self.now));
        let mut stored = bookmark.clone();
        match self.repository.add(bookmark) {
            Ok(id) => {
                stored.id = Some(id);
                Ok(stored)
            },
            Err(e) => Err(ApplicationError::Domain(e)),
        }
    }

    /// Renews the stored bookmark `existing` from its file `file_data`,
    /// with the content hash and embedding made for it; refused when
    /// `existing` names no stored bookmark.
    pub fn update_bookmark_from_file(
        &mut self,
        existing: &Bookmark,
        file_data: &FileImportData,
        content_hash: &Vec<u8>,
        embedding: Option<Vec<u8>>,
    ) -> (r: Result<Bookmark, ApplicationError>)
        ensures
            r is Ok <==> existing.id is Some && has_id(old(self).store()@, existing.id->Some_0),
            r matches Ok(b) ==> b@ == renewed_from_file(
                existing@,
                file_data@,
                content_hash@,
                bytes_view(embedding),
            ) && final(self).store()@ == old(self).store()@.update(
                index_of_id(old(self).store()@, existing.id->Some_0),
                b@,
            ),
            r matches Err(e) ==> e is Domain && e->Domain_0 is BookmarkNotFound && final(self).store()@
                == old(self).store()@,
            final(self).store().next_id() == old(self).store().next_id(),
            final(self).time() == old(self).time(),
    {
        let ghost ev = bytes_view(embedding);
        let mut updated = existing.clone();
        updated.url = file_data.content.clone();
        updated.title = file_data.name.clone();
        updated.file_path = Some(file_data.file_path.clone());
        updated.file_mtime = Some(file_data.file_mtime);
        updated.file_hash = Some(file_data.file_hash.clone());
        updated.content_hash = Some(copy_bytes(content_hash));
        let mut system: Vec<Tag> = Vec::new();
        let n = existing.tags.len();
        let mut i: usize = 0;
        let ghost pred = |t: Seq<char>| is_system_text(t);
        assert(tag_views(existing.tags@).take(0) =~= Seq::<Seq<char>>::empty());
        while i < n
            invariant
                i <= n,
                n == existing.tags@.len(),
                pred == (|t: Seq<char>| is_system_text(t)),
                tag_views(system@) == tag_views(existing.tags@).take(i as int).filter(pred),
            decreases n - i,
        {
            reveal_with_fuel(Seq::filter, 1);
            let ghost ev2 = tag_views(existing.tags@);
            assert(ev2.take(i as int + 1).drop_last() =~= ev2.take(i as int));
            assert(ev2.take(i as int + 1).last() == existing.tags@[i as int]@);
            if is_system_tag(&existing.tags[i]) {
                let t = existing.tags[i].clone();
                let ghost before = system@;
                system.push(t);
                assert(tag_views(system@) =~= tag_views(before).push(t@));
            }
            i = i + 1;
        }
        assert(tag_views(existing.tags@).take(n as int) =~= tag_views(existing.tags@));
        let file_tags = crate::bookmark::copy_tags(&file_data.tags);
        updated.tags = Vec::new();
        assert(tag_views(updated.tags@) =~= Seq::<Seq<char>>::empty());
        updated.add_tags(&file_tags);
        updated.add_tags(&system);
        if updated.embeddable {
            updated.embedding = embedding;
        }
        assert(updated@ == renewed_from_file(existing@, file_data@, content_hash@, ev));
        match self.repository.update(&updated) {
            Ok(()) => Ok(updated),
            Err(e) => Err(ApplicationError::Domain(e)),
        }
    }

    /// Whether an update of `bookmark` makes a new embedding: it is
    /// embeddable, and the embedding is forced or its content hash is not
    /// `content_hash`.
    pub fn needs_embedding(bookmark: &Bookmark, force: bool, content_hash: &Vec<u8>) -> (r: bool)
        ensures
            r == needs_new_embedding(bookmark@, force, content_hash@),
    {
        if !bookmark.embeddable {
            return false;
        }
        if force {
            return true;
        }
        match &bookmark.content_hash {
            Some(h) => !bytes_eq(h.as_slice(), content_hash.as_slice()),
            None => true,
        }
    }

}


/// The valid tags among the texts `ts`, trimmed, in order.
pub open spec fn valid_trimmed(ts: Seq<Seq<char>>) -> Seq<Seq<char>>
    decreases ts.len(),
{
    if ts.len() == 0 {
        Seq::empty()
    } else {
        let r = valid_trimmed(ts.drop_last());
        if crate::tag::valid_tag(crate::text::trim(ts.last())) {
            r.push(crate::text::trim(ts.last()))
        } else {
            r
        }
    }
}

/// A demo entry: URL, title, description and tag texts.
pub type DemoEntry = (String, String, String, Vec<String>);

/// Whether a demo bookmark is made embeddable: a web address without
/// template markers.
pub open spec fn demo_embeddable(url: Seq<char>) -> bool {
    starts_with(url, "http"@) && !crate::search::occurs_in("{{"@, url)
}

/// The bookmark a demo entry makes, before it is stored.
pub open spec fn demo_view(e: DemoEntry, now: i64) -> BookmarkView {
    (
        None,
        e.0@,
        e.1@,
        e.2@,
        union_tags(Seq::empty(), valid_trimmed(crate::text::string_views(e.3@))),
        0,
        demo_embeddable(e.0@),
        None,
        None,
        crate::bookmark::no_origin(),
        (Some(now), now),
    )
}

/// The bookmarks the demo entries `es` make, in order: entries with a
/// blank URL make none.
pub open spec fn demo_views(es: Seq<DemoEntry>, now: i64) -> Seq<BookmarkView>
    decreases es.len(),
{
    if es.len() == 0 {
        Seq::empty()
    } else {
        let r = demo_views(es.drop_last(), now);
        if crate::text::trim(es.last().0@).len() > 0 {
            r.push(demo_view(es.last(), now))
        } else {
            r
        }
    }
}

/// `v` without its id.
pub open spec fn without_id(v: BookmarkView) -> BookmarkView {
    (None, v.1, v.2, v.3, v.4, v.5, v.6, v.7, v.8, v.9, v.10)
}

fn demo_tags(strs: &Vec<String>) -> (r: Vec<Tag>)
    ensures
        tag_views(r@) == valid_trimmed(crate::text::string_views(strs@)),
{
    let ghost sv = crate::text::string_views(strs@);
    let n = strs.len();
    let mut r: Vec<Tag> = Vec::new();
    let mut i: usize = 0;
    assert(sv.take(0) =~= Seq::<Seq<char>>::empty());
    while i < n
        invariant
            i <= n,
            n == strs@.len(),
            sv == crate::text::string_views(strs@),
            tag_views(r@) == valid_trimmed(sv.take(i as int)),
        decreases n - i,
    {
        assert(sv.take(i as int + 1).drop_last() =~= sv.take(i as int));
        assert(sv.take(i as int + 1).last() == strs@[i as int]@);
        match Tag::new(strs[i].as_str()) {
            Ok(t) => {
                let ghost before = r@;
                r.push(t);
                assert(tag_views(r@) =~= tag_views(before).push(t@));
            },
            Err(_) => {},
        }
        i = i + 1;
    }
    assert(sv.take(n as int) =~= sv);
    r
}

/// Fills `store` with the demo entries `entries`, in order: each entry
/// with a URL that is not blank becomes a bookmark with its valid tags,
/// embeddable when it is a web address without template markers. Returns
/// how many were stored; storing stops only when the store has no id left.
pub fn pre_fill_database(store: &mut BookmarkStore, entries: &Vec<DemoEntry>, now: i64) -> (r: usize)
    ensures
        r <= demo_views(entries@, now).len(),
        final(store)@.len() == old(store)@.len() + r,
        final(store)@.take(old(store)@.len() as int) == old(store)@,
        forall|k: int|
            0 <= k < r ==> (#[trigger] final(store)@[old(store)@.len() + k]).0 is Some && without_id(
                final(store)@[old(store)@.len() + k],
            ) == demo_views(entries@, now)[k],
        r < demo_views(entries@, now).len() ==> !final(store).has_room(),
        final(store).room() == old(store).room() - r,
        old(store).room() >= demo_views(entries@, now).len() ==> r == demo_views(entries@, now).len(),
{
    let ghost s0 = store@;
    let n = entries.len();
    let mut count: usize = 0;
    let mut i: usize = 0;
    assert(entries@.take(0) =~= Seq::<DemoEntry>::empty());
    assert(store@.take(s0.len() as int) =~= s0);
    while i < n
        invariant
            i <= n,
            n == entries@.len(),
            count <= demo_views(entries@.take(i as int), now).len(),
            count <= i,
            store@.len() == s0.len() + count,
            store@.take(s0.len() as int) == s0,
            forall|k: int|
                0 <= k < count ==> (#[trigger] store@[s0.len() + k]).0 is Some && without_id(
                    store@[s0.len() + k],
                ) == demo_views(entries@.take(i as int), now)[k],
            count < demo_views(entries@.take(i as int), now).len() ==> !store.has_room(),
            store.room() == old(store).room() - count,
        decreases n - i,
    {
        let ghost pre = entries@.take(i as int);
        assert(entries@.take(i as int + 1).drop_last() =~= pre);
        assert(entries@.take(i as int + 1).last() == entries@[i as int]);
        let e = &entries[i];
        let tags = demo_tags(&e.3);
        match Bookmark::new(e.0.as_str(), e.1.as_str(), e.2.as_str(), tags) {
            Ok(b) => {
                let mut b = b;
                let u = chars_of(e.0.as_str());
                let http = chars_of("http");
                let marker = chars_of("{{");
                if has_prefix(u.as_slice(), http.as_slice()) && !crate::search::occurs(
                    marker.as_slice(),
                    u.as_slice(),
                ) {
                    b.set_embeddable(true);
                }
                b.stamp_created(now);
                let ghost bv = b@;
                assert(bv == demo_view(entries@[i as int], now));
                let ghost before = store@;
                match store.add(b) {
                    Ok(id) => {
                        proof {
                            assert(store@ == before.push(with_id(bv, id)));
                            assert(store@.take(s0.len() as int) =~= before.take(s0.len() as int));
                            assert forall|k: int| 0 <= k < count + 1 implies (#[trigger] store@[s0.len()
                                + k]).0 is Some && without_id(store@[s0.len() + k])
                                == demo_views(entries@.take(i as int + 1), now)[k] by {
                                if k < count {
                                    assert(store@[s0.len() + k] == before[s0.len() + k]);
                                }
                            }
                        }
                        count = count + 1;
                    },
                    Err(_) => {},
                }
            },
            Err(_) => {},
        }
        i = i + 1;
    }
    assert(entries@.take(n as int) =~= entries@);
    count
}


/// A bookmark read from an import file.
#[derive(Debug)]
pub struct BookmarkImportData {
    pub url: String,
    pub title: String,
    pub content: String,
    pub tags: Vec<Tag>,
}

/// The bookmarks an import of `es` into a store holding `s` adds, in
/// order: entries whose URL is stored already (or was added before them)
/// are passed over, and the import stops before the first entry with a
/// blank URL.
pub open spec fn import_plan(s: Seq<BookmarkView>, es: Seq<BookmarkImportData>, now: i64) -> Seq<BookmarkView>
    decreases es.len(),
{
    if es.len() == 0 {
        Seq::empty()
    } else {
        let p = import_plan(s, es.drop_last(), now);
        let e = es.last();
        if import_stops(s, es.drop_last(), now) || has_url(s + p, e.url@) || crate::text::trim(e.url@).len()
            == 0 {
            p
        } else {
            p.push(fresh_view(e.url@, e.title@, e.content@, tag_views(e.tags@), now))
        }
    }
}

/// Whether the import of `es` into a store holding `s` meets an entry with
/// a blank URL that is not stored already.
pub open spec fn import_stops(s: Seq<BookmarkView>, es: Seq<BookmarkImportData>, now: i64) -> bool
    decreases es.len(),
{
    if es.len() == 0 {
        false
    } else {
        let e = es.last();
        import_stops(s, es.drop_last(), now) || (!has_url(s + import_plan(s, es.drop_last(), now), e.url@)
            && crate::text::trim(e.url@).len() == 0)
    }
}

proof fn lemma_has_url_push_ids(s: Seq<BookmarkView>, added: Seq<BookmarkView>, stored: Seq<BookmarkView>, url: Seq<char>)
    requires
        stored.len() == s.len() + added.len(),
        stored.take(s.len() as int) == s,
        forall|k: int| 0 <= k < added.len() ==> without_id(#[trigger] stored[s.len() + k]) == added[k],
    ensures
        has_url(stored, url) == has_url(s + added, url),
{
    if has_url(stored, url) {
        let k = choose|k: int| 0 <= k < stored.len() && (#[trigger] stored[k]).1 == url;
        if k < s.len() {
            assert(stored.take(s.len() as int)[k] == stored[k]);
            assert((s + added)[k] == s[k]);
        } else {
            assert(without_id(stored[s.len() + (k - s.len())]) == added[k - s.len()]);
            assert((s + added)[k] == added[k - s.len()]);
        }
    }
    if has_url(s + added, url) {
        let k = choose|k: int| 0 <= k < (s + added).len() && (#[trigger] (s + added)[k]).1 == url;
        if k < s.len() {
            assert(stored.take(s.len() as int)[k] == stored[k]);
        } else {
            assert(without_id(stored[s.len() + (k - s.len())]) == added[k - s.len()]);
        }
    }
}

impl BookmarkServiceImpl {
}

impl BookmarkServiceImpl {
    /// The stored bookmarks that the draw `picks` selects, in the order
    /// drawn.
    pub fn pick_bookmarks(&self, picks: &Vec<u64>) -> (r: Vec<Bookmark>)
        ensures
            bookmark_views(r@) == random_pick(self.store()@, picks@),
    {
        let mut left = self.repository.get_all();
        let mut out: Vec<Bookmark> = Vec::new();
        let n = picks.len();
        let mut j: usize = 0;
        assert(picks@.skip(0) =~= picks@);
        assert(bookmark_views(out@) =~= Seq::<BookmarkView>::empty());
        while j < n && left.len() > 0
            invariant
                j <= n,
                n == picks@.len(),
                bookmark_views(out@) + random_pick(bookmark_views(left@), picks@.skip(j as int))
                    == random_pick(self.store()@, picks@),
            decreases n - j,
        {
            let ghost lv = bookmark_views(left@);
            let ghost ov = bookmark_views(out@);
            let m = left.len() as u64;
            let i = (picks[j] % m) as usize;
            assert(picks@.skip(j as int)[0] == picks@[j as int]);
            assert(picks@.skip(j as int).drop_first() =~= picks@.skip(j as int + 1));
            let b = left.remove(i);
            out.push(b);
            assert(bookmark_views(left@) =~= lv.remove(i as int));
            assert(bookmark_views(out@) =~= ov.push(lv[i as int]));
            assert(ov.push(lv[i as int]) + random_pick(lv.remove(i as int), picks@.skip(j as int + 1))
                =~= ov + (seq![lv[i as int]] + random_pick(lv.remove(i as int), picks@.skip(j as int + 1))));
            j = j + 1;
        }
        assert(random_pick(bookmark_views(left@), picks@.skip(j as int)) =~= Seq::<BookmarkView>::empty());
        assert(bookmark_views(out@) + Seq::<BookmarkView>::empty() =~= bookmark_views(out@));
        out
    }

}

/// What a text import does with one entry.
#[derive(Debug)]
pub enum TextImportStep {
    /// Its URL is stored and its content did not change: nothing is done.
    Skip,
    /// Its URL is stored as this bookmark, whose title, embedding and
    /// content hash are renewed.
    Update(Bookmark),
    /// Its URL is new: a bookmark is added for it.
    Add,
}

/// Whether `k` is the place of the first bookmark of `s` with the URL
/// `url`.
pub open spec fn first_at(s: Seq<BookmarkView>, url: Seq<char>, k: int) -> bool {
    &&& 0 <= k < s.len()
    &&& s[k].1 == url
    &&& forall|j: int| 0 <= j < k ==> (#[trigger] s[j]).1 != url
}

/// A stored bookmark after a text import renewed it: the entry's title, no
/// description, the new embedding and content hash, and embeddable.
pub open spec fn renewed_view(b: BookmarkView, title: Seq<char>, embedding: Option<Seq<u8>>, hash: Seq<u8>) -> BookmarkView {
    (b.0, b.1, title, Seq::empty(), b.4, b.5, true, embedding, Some(hash), b.9, b.10)
}

/// The bookmark a text import adds for an entry at the time `now`: its
/// URL, title and tags (each once), no description, embeddable, with the
/// embedding and content hash given, created and updated at `now`.
pub open spec fn imported_text_view(
    url: Seq<char>,
    title: Seq<char>,
    tags: Seq<Seq<char>>,
    embedding: Option<Seq<u8>>,
    hash: Seq<u8>,
    now: i64,
) -> BookmarkView {
    (None, url, title, Seq::empty(), union_tags(Seq::empty(), tags), 0, true, embedding, Some(hash), crate::bookmark::no_origin(), (Some(now), now))
}

impl BookmarkServiceImpl {
    /// What the text import does with `import`, whose content hashes to
    /// `content_hash`: a new URL is added; a stored one is skipped when its
    /// first bookmark already has this hash, unless `force`, and renewed
    /// otherwise.
    pub fn text_import_step(&self, import: &BookmarkImportData, content_hash: &Vec<u8>, force: bool) -> (r: TextImportStep)
        ensures
            r is Add <==> !has_url(self.store()@, import.url@),
            r matches TextImportStep::Update(b) ==> exists|k: int|
                first_at(self.store()@, import.url@, k) && b@ == self.store()@[k] && (force || b@.8 != Some(
                    content_hash@,
                )),
            r is Skip ==> exists|k: int|
                first_at(self.store()@, import.url@, k) && !force && self.store()@[k].8 == Some(content_hash@),
    {
        match self.repository.get_by_url(import.url.as_str()) {
            None => TextImportStep::Add,
            Some(b) => {
                let ghost s = self.store()@;
                let ghost k = choose|k: int|
                    0 <= k < s.len() && s[k] == b@ && b@.1 == import.url@ && forall|j: int|
                        0 <= j < k ==> (#[trigger] s[j]).1 != import.url@;
                assert(first_at(s, import.url@, k));
                let same = match &b.content_hash {
                    Some(h) => bytes_eq(h.as_slice(), content_hash.as_slice()),
                    None => false,
                };
                assert(same == (b@.8 == Some(content_hash@)));
                if force || !same {
                    TextImportStep::Update(b)
                } else {
                    TextImportStep::Skip
                }
            },
        }
    }

    /// Carries out the step `step` of the text import for `import`, with
    /// the entry's content hash and embedding: a renewal or an addition as
    /// `renewed_view` and `imported_text_view` say. Tells whether a
    /// bookmark was stored.
    pub fn apply_text_import(
        &mut self,
        import: &BookmarkImportData,
        step: TextImportStep,
        content_hash: Vec<u8>,
        embedding: Option<Vec<u8>>,
    ) -> (r: Result<bool, ApplicationError>)
        ensures
            step is Skip ==> r == Ok::<bool, ApplicationError>(false) && final(self).store()@ == old(
                self,
            ).store()@,
            step matches TextImportStep::Update(b) ==> {
                &&& (r is Ok <==> (b.id is Some && has_id(old(self).store()@, b.id->Some_0)))
                &&& r is Ok ==> r == Ok::<bool, ApplicationError>(true) && final(self).store()@ == old(
                    self,
                ).store()@.update(
                    index_of_id(old(self).store()@, b.id->Some_0),
                    renewed_view(b@, import.title@, bytes_view(embedding), content_hash@),
                )
                &&& r matches Err(e) ==> e is Domain && e->Domain_0 is BookmarkNotFound
            },
            step is Add ==> {
                &&& (r is Ok <==> old(self).store().has_room())
                &&& r is Ok ==> r == Ok::<bool, ApplicationError>(true) && exists|id: i32|
                    !has_id(old(self).store()@, id) && final(self).store()@ == old(self).store()@.push(
                        with_id(
                            imported_text_view(
                                import.url@,
                                import.title@,
                                tag_views(import.tags@),
                                bytes_view(embedding),
                                content_hash@,
                                old(self).time(),
                            ),
                            id,
                        ),
                    )
                &&& r matches Err(e) ==> e is Domain && e->Domain_0 is Other
            },
            r is Err ==> final(self).store()@ == old(self).store()@,
    {
        match step {
            TextImportStep::Skip => Ok(false),
            TextImportStep::Update(b) => {
                let mut u = b;
                u.title = owned(import.title.as_str());
                u.description = String::new();
                u.embedding = embedding;
                u.embeddable = true;
                u.content_hash = Some(content_hash);
                match self.repository.update(&u) {
                    Ok(()) => Ok(true),
                    Err(e) => Err(ApplicationError::Domain(e)),
                }
            },
            TextImportStep::Add => {
                let mut n = Bookmark {
                    id: None,
                    url: owned(import.url.as_str()),
                    title: owned(import.title.as_str()),
                    description: String::new(),
                    tags: Vec::new(),
                    access_count: 0,
                    embeddable: true,
                    embedding,
                    content_hash: Some(content_hash),
                    file_path: None,
                    file_mtime: None,
                    file_hash: None,
                    created_at: Some(self.now),
                    updated_at: self.now,
                };
                assert(tag_views(n.tags@) =~= Seq::<Seq<char>>::empty());
                n.add_tags(&import.tags);
                let ghost nv = n@;
                assert(nv == imported_text_view(
                    import.url@,
                    import.title@,
                    tag_views(import.tags@),
                    bytes_view(n.embedding),
                    n.content_hash->Some_0@,
                    self.now,
                ));
                match self.repository.add(n) {
                    Ok(id) => {
                        assert(!has_id(old(self).store()@, id) && self.store()@ == old(self).store()@.push(
                            with_id(nv, id),
                        ));
                        Ok(true)
                    },
                    Err(e) => Err(ApplicationError::Domain(e)),
                }
            },
        }
    }
}

/// One step of the import: the plan of the first `i + 1` entries, after
/// the plan of the first `i` that did not stop.
proof fn lemma_import_step(s: Seq<BookmarkView>, es: Seq<BookmarkImportData>, i: int, now: i64)
    requires
        0 <= i < es.len(),
        !import_stops(s, es.take(i), now),
    ensures
        ({
            let p = import_plan(s, es.take(i), now);
            let e = es[i];
            let fresh = !has_url(s + p, e.url@);
            &&& import_stops(s, es.take(i + 1), now) <==> (fresh && crate::text::trim(e.url@).len() == 0)
            &&& (fresh && crate::text::trim(e.url@).len() > 0) ==> import_plan(s, es.take(i + 1), now)
                == p.push(fresh_view(e.url@, e.title@, e.content@, tag_views(e.tags@), now))
            &&& !(fresh && crate::text::trim(e.url@).len() > 0) ==> import_plan(s, es.take(i + 1), now) == p
        }),
{
    assert(es.take(i + 1).drop_last() =~= es.take(i));
    assert(es.take(i + 1).last() == es[i]);
}

/// Once the import stops, the plan stays as it is.
proof fn lemma_import_plan_stops(s: Seq<BookmarkView>, es: Seq<BookmarkImportData>, k: int, now: i64)
    requires
        0 <= k <= es.len(),
        import_stops(s, es.take(k), now),
    ensures
        import_stops(s, es, now),
        import_plan(s, es, now) == import_plan(s, es.take(k), now),
    decreases es.len() - k,
{
    if k < es.len() {
        assert(es.take(k + 1).drop_last() =~= es.take(k));
        lemma_import_plan_stops(s, es, k + 1, now);
    } else {
        assert(es.take(k) =~= es);
    }
}

/// The plan of a prefix is a prefix of the plan.
proof fn lemma_import_plan_grows(s: Seq<BookmarkView>, es: Seq<BookmarkImportData>, k: int, now: i64)
    requires
        0 <= k <= es.len(),
    ensures
        import_plan(s, es.take(k), now).len() <= import_plan(s, es, now).len(),
        forall|j: int|
            0 <= j < import_plan(s, es.take(k), now).len() ==> #[trigger] import_plan(s, es.take(k), now)[j]
                == import_plan(s, es, now)[j],
    decreases es.len() - k,
{
    if k < es.len() {
        assert(es.take(k + 1).drop_last() =~= es.take(k));
        lemma_import_plan_grows(s, es, k + 1, now);
        let p = import_plan(s, es.take(k), now);
        let q = import_plan(s, es.take(k + 1), now);
        assert(q == p || q == p.push(q.last()));
        assert forall|j: int| 0 <= j < p.len() implies #[trigger] p[j] == import_plan(s, es, now)[j] by {
            assert(p[j] == q[j]);
        }
    } else {
        assert(es.take(k) =~= es);
    }
}

} // verus!
