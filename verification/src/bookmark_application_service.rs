//! The application service for bookmarks: searches built from request
//! parameters, deletion and access counting.
use vstd::prelude::*;
use crate::bookmark::{union_tags, Bookmark, BookmarkView};
use crate::bookmark_service::{can_count_access, first_with_url, fresh_view, has_url};
use crate::dto::{
    parse_all, parse_all_reason, parse_tag_lists, text_or_empty, BookmarkCreateRequest, BookmarkListItem,
    BookmarkResponse, BookmarkSearchRequest, BookmarkSearchResponse, BookmarkUpdateRequest,
};
use crate::error::{ApplicationError, DomainError};
use crate::repository::{has_id, index_of_id, with_id, BookmarkStore};
use crate::search::{
    condition_holds, has_all, has_any, has_exactly, occurs_in, ordered, query_matches, query_result,
    run_query, BookmarkQuery, SortDirection, TagCondition,
};
use crate::tag::{tag_views, Tag};
use crate::text::{chars_of, owned, string_views, trim};

verus! {

/// Whether a tag field of a request is absent or holds only valid tags.
pub open spec fn field_ok(o: Option<Vec<String>>) -> bool {
    match o {
        Some(v) => parse_all(string_views(v@)) is Some,
        None => true,
    }
}

/// The tags of a tag field of a request.
pub open spec fn field_tags(o: Option<Vec<String>>) -> Seq<Seq<char>> {
    match o {
        Some(v) => parse_all(string_views(v@))->Some_0,
        None => Seq::empty(),
    }
}

/// Why a tag field of a request is refused.
pub open spec fn field_reason(o: Option<Vec<String>>) -> Seq<char> {
    parse_all_reason(string_views(o->Some_0@))
}

/// Whether every tag field of the request is well formed.
pub open spec fn request_ok(r: BookmarkSearchRequest) -> bool {
    field_ok(r.all_tags) && field_ok(r.any_tags) && field_ok(r.exclude_all_tags) && field_ok(
        r.exclude_any_tags,
    ) && field_ok(r.exact_tags)
}

/// Why the request is refused: the reason of its first bad tag field.
pub open spec fn request_reason(r: BookmarkSearchRequest) -> Seq<char> {
    if !field_ok(r.all_tags) {
        field_reason(r.all_tags)
    } else if !field_ok(r.any_tags) {
        field_reason(r.any_tags)
    } else if !field_ok(r.exclude_all_tags) {
        field_reason(r.exclude_all_tags)
    } else if !field_ok(r.exclude_any_tags) {
        field_reason(r.exclude_any_tags)
    } else {
        field_reason(r.exact_tags)
    }
}

/// Whether the tag texts `bt` meet the all-tags and any-tags fields.
pub open spec fn tags_included(r: BookmarkSearchRequest, bt: Seq<Seq<char>>) -> bool {
    &&& (r.all_tags is Some ==> has_all(bt, field_tags(r.all_tags)))
    &&& (r.any_tags is Some ==> has_any(bt, field_tags(r.any_tags)))
}

/// Whether the tag texts `bt` meet every tag field but the exact one.
pub open spec fn tags_combined(r: BookmarkSearchRequest, bt: Seq<Seq<char>>) -> bool {
    &&& tags_included(r, bt)
    &&& (r.exclude_all_tags is Some ==> !has_all(bt, field_tags(r.exclude_all_tags)))
    &&& (r.exclude_any_tags is Some ==> !has_any(bt, field_tags(r.exclude_any_tags)))
}

/// Whether the tag texts `bt` meet the request: an exact tag field
/// overrides the others, which must all hold.
pub open spec fn tags_selected(r: BookmarkSearchRequest, bt: Seq<Seq<char>>) -> bool {
    if r.exact_tags is Some {
        has_exactly(bt, field_tags(r.exact_tags))
    } else {
        tags_combined(r, bt)
    }
}

/// Whether the bookmark `b` meets the text of the request: a text that is
/// not empty must occur in its URL, title or description.
pub open spec fn text_selected(r: BookmarkSearchRequest, b: BookmarkView) -> bool {
    match r.query {
        Some(t) => t@.len() == 0 || occurs_in(t@, b.1) || occurs_in(t@, b.2) || occurs_in(t@, b.3),
        None => true,
    }
}

/// Whether the request selects the bookmark `b`.
pub open spec fn request_selects(r: BookmarkSearchRequest, b: BookmarkView) -> bool {
    text_selected(r, b) && tags_selected(r, b.4)
}

/// A search with only an exclude-all tag field leaves out exactly the
/// bookmarks that carry every one of its tags: a bookmark lacking any one
/// of them is returned, in store order.
pub proof fn lemma_exclude_all_leaves_out_full_matches(s: Seq<BookmarkView>, r: BookmarkSearchRequest)
    requires
        r.query is None,
        r.all_tags is None,
        r.any_tags is None,
        r.exclude_any_tags is None,
        r.exact_tags is None,
        r.exclude_all_tags is Some,
        r.sort_by_date != Some(true),
        r.offset is None,
        r.limit is None,
    ensures
        search_result(s, r) == s.filter(
            |b: BookmarkView|
                exists|k: int|
                    0 <= k < field_tags(r.exclude_all_tags).len() && !b.4.contains(
                        #[trigger] field_tags(r.exclude_all_tags)[k],
                    ),
        ),
{
    let t = field_tags(r.exclude_all_tags);
    let pred = |b: BookmarkView| exists|k: int| 0 <= k < t.len() && !b.4.contains(#[trigger] t[k]);
    let sel = |b: BookmarkView| request_selects(r, b);
    assert(sel =~= pred) by {
        assert forall|b: BookmarkView| #[trigger] sel(b) == pred(b) by {
            if !has_all(b.4, t) {
                let k = choose|k: int| !(0 <= k < t.len() ==> b.4.contains(#[trigger] t[k]));
                assert(0 <= k < t.len() && !b.4.contains(t[k]));
            }
        }
    }
    let m = s.filter(sel);
    assert(ordered(m, request_sort(r)) == m);
    assert(m.skip(0) =~= m);
}

/// The part of `m` from `offset` on, at most `limit` of it.
pub open spec fn page_of(m: Seq<BookmarkView>, offset: Option<usize>, limit: Option<usize>) -> Seq<BookmarkView> {
    let from = match offset {
        Some(o) => if o <= m.len() {
            o as int
        } else {
            m.len() as int
        },
        None => 0,
    };
    let rest = m.skip(from);
    match limit {
        Some(l) => if l <= rest.len() {
            rest.take(l as int)
        } else {
            rest
        },
        None => rest,
    }
}

/// The order a search request asks for: by update time when it asks to
/// sort by date, descending unless it asks for ascending order.
pub open spec fn request_sort(r: BookmarkSearchRequest) -> Option<SortDirection> {
    if r.sort_by_date == Some(true) {
        if r.sort_descending == Some(false) {
            Some(SortDirection::Ascending)
        } else {
            Some(SortDirection::Descending)
        }
    } else {
        None
    }
}

/// The bookmarks of `s` that the request selects, in the order it asks
/// for (store order when none), paged as it asks.
pub open spec fn search_result(s: Seq<BookmarkView>, r: BookmarkSearchRequest) -> Seq<BookmarkView> {
    page_of(ordered(s.filter(|b: BookmarkView| request_selects(r, b)), request_sort(r)), r.offset, r.limit)
}

/// Whether the list item `item` shows the bookmark `b`.
pub open spec fn shows(item: BookmarkListItem, b: BookmarkView) -> bool {
    item.id == b.0 && item.url@ == b.1 && item.title@ == b.2 && string_views(item.tags@) == b.4
}

/// Whether every condition of `cs` holds of the tag texts `bt`.
pub open spec fn conditions_hold(cs: Seq<TagCondition>, bt: Seq<Seq<char>>) -> bool {
    forall|i: int| 0 <= i < cs.len() ==> condition_holds(#[trigger] cs[i], bt)
}

proof fn lemma_conditions_push(cs: Seq<TagCondition>, c: TagCondition, bt: Seq<Seq<char>>)
    ensures
        conditions_hold(cs.push(c), bt) == (conditions_hold(cs, bt) && condition_holds(c, bt)),
{
    if conditions_hold(cs, bt) && condition_holds(c, bt) {
        assert forall|i: int| 0 <= i < cs.push(c).len() implies condition_holds(
            #[trigger] cs.push(c)[i],
            bt,
        ) by {
            if i < cs.len() {
                assert(cs.push(c)[i] == cs[i]);
            }
        }
    }
    if conditions_hold(cs.push(c), bt) {
        assert(cs.push(c)[cs.len() as int] == c);
        assert forall|i: int| 0 <= i < cs.len() implies condition_holds(#[trigger] cs[i], bt) by {
            assert(cs.push(c)[i] == cs[i]);
        }
    }
}

fn parse_field(o: &Option<Vec<String>>) -> (r: Result<Option<Vec<Tag>>, DomainError>)
    ensures
        r is Ok <==> field_ok(*o),
        r matches Ok(x) ==> (x is Some <==> o is Some) && (x matches Some(t) ==> tag_views(t@)
            == field_tags(*o)),
        r matches Err(e) ==> e is InvalidTag && e->InvalidTag_0@ == field_reason(*o),
{
    match o {
        Some(v) => match parse_tag_lists(v) {
            Ok(t) => Ok(Some(t)),
            Err(e) => Err(e),
        },
        None => Ok(None),
    }
}

/// The application service for bookmarks over a store.
pub struct BookmarkApplicationService {
    repository: BookmarkStore,
    now: i64,
}

impl BookmarkApplicationService {
    /// An application service over `repository`.
    pub fn new(repository: BookmarkStore) -> (r: BookmarkApplicationService)
        ensures
            r.store()@ == repository@,
            r.store().has_room() == repository.has_room(),
            r.store().next_id() == repository.next_id(),
            r.time() == 0,
    {
        BookmarkApplicationService { repository, now: 0 }
    }

    /// The store the service works on.
    pub closed spec fn store(&self) -> BookmarkStore {
        self.repository
    }

    /// The time, in seconds since the Unix epoch, that the service writes
    /// on the bookmarks it creates or touches.
    pub closed spec fn time(&self) -> i64 {
        self.now
    }

    /// Sets the time the service writes on bookmarks; the caller reads it
    /// from the clock.
    pub fn set_time(&mut self, now: i64)
        ensures
            final(self).time() == now,
            final(self).store() == old(self).store(),
    {
        self.now = now;
    }

    /// Deletes the bookmark with the id `id`; tells whether one was stored.
    pub fn delete_bookmark(&mut self, id: i32) -> (r: Result<bool, ApplicationError>)
        ensures
            r matches Ok(found) && found == has_id(old(self).store()@, id) && final(self).store()@
                == if found {
                old(self).store()@.remove(index_of_id(old(self).store()@, id))
            } else {
                old(self).store()@
            },
            !has_id(final(self).store()@, id),
    {
        Ok(self.repository.delete(id))
    }

    /// Counts one more access of the bookmark with the id `id`.
    pub fn record_bookmark_access(&mut self, id: i32) -> (r: Result<(), ApplicationError>)
        requires
            can_count_access(old(self).store()@, id),
        ensures
            r is Ok <==> has_id(old(self).store()@, id),
            r is Ok ==> {
                let i = index_of_id(old(self).store()@, id);
                let b = old(self).store()@[i];
                final(self).store()@ == old(self).store()@.update(
                    i,
                    (b.0, b.1, b.2, b.3, b.4, (b.5 + 1) as i32, b.6, b.7, b.8, b.9, (b.10.0, old(self).time())),
                )
            },
            r is Err ==> final(self).store()@ == old(self).store()@ && r == Err::<(), ApplicationError>(
                ApplicationError::BookmarkNotFound(id),
            ),
    {
        let mut b = match self.repository.get_by_id(id) {
            Some(b) => b,
            None => {
                return Err(ApplicationError::BookmarkNotFound(id));
            },
        };
        b.record_access(self.now);
        match self.repository.update(&b) {
            Ok(()) => Ok(()),
            Err(e) => Err(ApplicationError::Domain(e)),
        }
    }

    /// Searches the stored bookmarks: a text that is not empty must occur
    /// in the URL, title or description; the all-tags, any-tags and two
    /// exclusion fields must all hold, unless an exact-tags field is given,
    /// which then alone decides; asked to sort by date, the result is
    /// ordered by update time, latest first unless ascending order is
    /// asked for; the result is paged by offset and limit.
    /// The page number counts pages of `limit` (10 when none is given).
    pub fn search_bookmarks(&self, request: BookmarkSearchRequest) -> (r: Result<BookmarkSearchResponse, ApplicationError>)
        requires
            request.offset is Some ==> request.limit != Some(0usize),
            (match request.offset {
                Some(o) => o as int,
                None => 0,
            }) + (match request.limit {
                Some(l) => l as int,
                None => self.store()@.len() as int,
            }) <= usize::MAX,
        ensures
            r is Ok <==> request_ok(request),
            r matches Ok(resp) ==> {
                let res = search_result(self.store()@, request);
                &&& resp.bookmarks@.len() == res.len()
                &&& forall|i: int| 0 <= i < res.len() ==> shows(#[trigger] resp.bookmarks@[i], res[i])
                &&& resp.total_count == res.len()
                &&& resp.page == match request.offset {
                    Some(o) => Some(
                        (o / match request.limit {
                            Some(l) => l,
                            None => 10usize,
                        } + 1) as usize,
                    ),
                    None => None,
                }
                &&& resp.page_size == request.limit
                &&& resp.has_more == (res.len() > match request.offset {
                    Some(o) => o as int,
                    None => 0,
                } + match request.limit {
                    Some(l) => l as int,
                    None => res.len() as int,
                })
            },
            r matches Err(e) ==> e is Domain && e->Domain_0 is InvalidTag && e->Domain_0->InvalidTag_0@
                == request_reason(request),
    {
        let text: Option<String> = match &request.query {
            Some(t) => {
                let tc = chars_of(t.as_str());
                if tc.len() > 0 {
                    Some(t.clone())
                } else {
                    None
                }
            },
            None => None,
        };
        let all = match parse_field(&request.all_tags) {
            Ok(x) => x,
            Err(e) => {
                return Err(ApplicationError::Domain(e));
            },
        };
        let any = match parse_field(&request.any_tags) {
            Ok(x) => x,
            Err(e) => {
                return Err(ApplicationError::Domain(e));
            },
        };
        let excl_all = match parse_field(&request.exclude_all_tags) {
            Ok(x) => x,
            Err(e) => {
                return Err(ApplicationError::Domain(e));
            },
        };
        let excl_any = match parse_field(&request.exclude_any_tags) {
            Ok(x) => x,
            Err(e) => {
                return Err(ApplicationError::Domain(e));
            },
        };
        let exact = match parse_field(&request.exact_tags) {
            Ok(x) => x,
            Err(e) => {
                return Err(ApplicationError::Domain(e));
            },
        };
        let mut conds: Vec<TagCondition> = Vec::new();
        match exact {
            Some(t) => {
                let ghost c = TagCondition::Exact(t);
                conds.push(TagCondition::Exact(t));
                assert forall|bt: Seq<Seq<char>>| #[trigger]
                    conditions_hold(conds@, bt) == tags_selected(request, bt) by {
                    lemma_conditions_push(Seq::empty(), c, bt);
                    assert(Seq::<TagCondition>::empty().push(c) =~= conds@);
                }
            },
            None => {
                match all {
                    Some(t) => {
                        let ghost c = TagCondition::All(t);
                        conds.push(TagCondition::All(t));
                        assert forall|bt: Seq<Seq<char>>| #[trigger]
                            conditions_hold(conds@, bt) == (request.all_tags is Some ==> has_all(
                                bt,
                                field_tags(request.all_tags),
                            )) by {
                            lemma_conditions_push(Seq::empty(), c, bt);
                            assert(Seq::<TagCondition>::empty().push(c) =~= conds@);
                        }
                    },
                    None => {},
                }
                assert forall|bt: Seq<Seq<char>>| #[trigger]
                    conditions_hold(conds@, bt) == (request.all_tags is Some ==> has_all(
                        bt,
                        field_tags(request.all_tags),
                    )) by {}
                let ghost c1 = conds@;
                match any {
                    Some(t) => {
                        let ghost c = TagCondition::Any(t);
                        conds.push(TagCondition::Any(t));
                        assert forall|bt: Seq<Seq<char>>| #[trigger]
                            conditions_hold(conds@, bt) == tags_included(request, bt) by {
                            lemma_conditions_push(c1, c, bt);
                        }
                    },
                    None => {},
                }
                assert forall|bt: Seq<Seq<char>>| #[trigger]
                    conditions_hold(conds@, bt) == tags_included(request, bt) by {
                    assert(conditions_hold(c1, bt) == (request.all_tags is Some ==> has_all(
                        bt,
                        field_tags(request.all_tags),
                    )));
                }
                let ghost c2 = conds@;
                match excl_all {
                    Some(t) => {
                        let ghost c = TagCondition::NotAll(t);
                        conds.push(TagCondition::NotAll(t));
                        assert forall|bt: Seq<Seq<char>>| #[trigger]
                            conditions_hold(conds@, bt) == (tags_included(request, bt) && (
                            request.exclude_all_tags is Some ==> !has_all(
                                bt,
                                field_tags(request.exclude_all_tags),
                            ))) by {
                            lemma_conditions_push(c2, c, bt);
                            assert(conditions_hold(c2, bt) == tags_included(request, bt));
                        }
                    },
                    None => {},
                }
                assert forall|bt: Seq<Seq<char>>| #[trigger]
                    conditions_hold(conds@, bt) == (tags_included(request, bt) && (
                    request.exclude_all_tags is Some ==> !has_all(
                        bt,
                        field_tags(request.exclude_all_tags),
                    ))) by {
                    assert(conditions_hold(c2, bt) == tags_included(request, bt));
                }
                let ghost c3 = conds@;
                match excl_any {
                    Some(t) => {
                        let ghost c = TagCondition::NotAny(t);
                        conds.push(TagCondition::NotAny(t));
                        assert forall|bt: Seq<Seq<char>>| #[trigger]
                            conditions_hold(conds@, bt) == tags_selected(request, bt) by {
                            lemma_conditions_push(c3, c, bt);
                            assert(conditions_hold(c3, bt) == (tags_included(request, bt) && (
                            request.exclude_all_tags is Some ==> !has_all(
                                bt,
                                field_tags(request.exclude_all_tags),
                            ))));
                        }
                    },
                    None => {},
                }
                assert forall|bt: Seq<Seq<char>>| #[trigger]
                    conditions_hold(conds@, bt) == tags_selected(request, bt) by {
                    assert(conditions_hold(c3, bt) == (tags_included(request, bt) && (
                    request.exclude_all_tags is Some ==> !has_all(
                        bt,
                        field_tags(request.exclude_all_tags),
                    ))));
                }
            },
        }
        let sort_by_date = match request.sort_by_date {
            Some(true) => match request.sort_descending {
                Some(false) => Some(SortDirection::Ascending),
                _ => Some(SortDirection::Descending),
            },
            _ => None,
        };
        let q = BookmarkQuery {
            text,
            conditions: conds,
            sort_by_date,
            limit: request.limit,
            offset: request.offset,
        };
        let stored = self.repository.get_all();
        let bookmarks = run_query(&stored, &q);
        proof {
            assert forall|b: BookmarkView| #[trigger] query_matches(q, b) == request_selects(request, b) by {
                assert(conditions_hold(q.conditions@, b.4) == tags_selected(request, b.4));
            }
            assert((|b: BookmarkView| query_matches(q, b)) =~= (|b: BookmarkView| request_selects(request, b)));
        }
        let total_count = bookmarks.len();
        proof {
            let res = search_result(self.repository@, request);
            assert(crate::repository::bookmark_views(bookmarks@) == res);
            assert(res.len() == bookmarks@.len());
            match q.sort_by_date {
                Some(d) => crate::search::lemma_sorted_len(
                    self.repository@.filter(|b: BookmarkView| request_selects(request, b)),
                    d,
                ),
                None => {},
            }
            assert(res.len() <= self.repository@.len());
        }
        let page = match request.offset {
            Some(o) => {
                let per = match request.limit {
                    Some(l) => l,
                    None => 10,
                };
                Some(o / per + 1)
            },
            None => None,
        };
        let start = match request.offset {
            Some(o) => o,
            None => 0,
        };
        let span = match request.limit {
            Some(l) => l,
            None => total_count,
        };
        let has_more = total_count > start + span;
        let items = BookmarkListItem::from_domain_collection(bookmarks.as_slice());
        proof {
            let res = search_result(self.repository@, request);
            assert forall|i: int| 0 <= i < res.len() implies shows(#[trigger] items@[i], res[i]) by {
                assert(crate::repository::bookmark_views(bookmarks@)[i] == bookmarks@[i]@);
            }
        }
        Ok(
            BookmarkSearchResponse {
                bookmarks: items,
                total_count,
                page,
                page_size: request.limit,
                has_more,
            },
        )
    }
}

/// An answer about one bookmark seen as id, URL, title, description, tag
/// texts, access count and times.
pub type ResponseView = (Option<i32>, Seq<char>, Seq<char>, Seq<char>, Seq<Seq<char>>, i32, crate::bookmark::Times);

/// The view of an answer about one bookmark.
pub open spec fn response_view(r: BookmarkResponse) -> ResponseView {
    (r.id, r.url@, r.title@, r.description@, string_views(r.tags@), r.access_count, (r.created_at, r.updated_at))
}

/// The answer about a stored bookmark.
pub open spec fn response_of(b: BookmarkView) -> ResponseView {
    (b.0, b.1, b.2, b.3, b.4, b.5, b.10)
}

/// A bookmark after an update request: the title and description it gives
/// replace the old ones, and its tags, when it gives any, replace the old
/// tags.
pub open spec fn updated_view(b: BookmarkView, request: BookmarkUpdateRequest) -> BookmarkView {
    (
        b.0,
        b.1,
        match request.title {
            Some(t) => t@,
            None => b.2,
        },
        match request.description {
            Some(d) => d@,
            None => b.3,
        },
        match request.tags {
            Some(v) => union_tags(Seq::empty(), parse_all(string_views(v@))->Some_0),
            None => b.4,
        },
        b.5,
        b.6,
        b.7,
        b.8,
        b.9,
        b.10,
    )
}

impl BookmarkApplicationService {
    /// Adds the bookmark the request describes: a missing title or
    /// description is empty. Refused when a bookmark with the URL is stored
    /// already, when a tag is not valid, when the URL is blank and when the
    /// store has no id left.
    pub fn add_bookmark(&mut self, request: BookmarkCreateRequest) -> (r: Result<BookmarkResponse, ApplicationError>)
        ensures
            has_url(old(self).store()@, request.url@) ==> (r matches Err(e) && e matches ApplicationError::BookmarkExists(
                id,
                u,
            ) && u@ == request.url@ && first_with_url(old(self).store()@, request.url@, id)),
            !has_url(old(self).store()@, request.url@) ==> {
                let tags_ok = field_ok(request.tags);
                let url_ok = trim(request.url@).len() > 0;
                &&& (r is Ok <==> tags_ok && url_ok && old(self).store().has_room())
                &&& !tags_ok ==> (r matches Err(e) && e matches ApplicationError::Domain(
                    DomainError::InvalidTag(m),
                ) && m@ == field_reason(request.tags))
                &&& (tags_ok && !url_ok) ==> (r matches Err(e) && e matches ApplicationError::Domain(
                    DomainError::InvalidUrl(_),
                ))
                &&& r matches Ok(resp) ==> {
                    let v = fresh_view(
                        request.url@,
                        text_or_empty(request.title),
                        text_or_empty(request.description),
                        field_tags(request.tags),
                        old(self).time(),
                    );
                    &&& resp.id is Some
                    &&& !has_id(old(self).store()@, resp.id->Some_0)
                    &&& final(self).store()@ == old(self).store()@.push(with_id(v, resp.id->Some_0))
                    &&& response_view(resp) == response_of(with_id(v, resp.id->Some_0))
                }
            },
            r is Err ==> final(self).store()@ == old(self).store()@,
    {
        let existing = self.repository.exists_by_url(request.url.as_str());
        if existing != -1 {
            return Err(ApplicationError::BookmarkExists(existing, owned(request.url.as_str())));
        }
        let (url, title, description, tags) = match request.to_domain_objects() {
            Ok(o) => o,
            Err(e) => {
                return Err(ApplicationError::Domain(e));
            },
        };
        let mut bookmark = match Bookmark::new(url.as_str(), title.as_str(), description.as_str(), tags) {
            Ok(b) => b,
            Err(e) => {
                return Err(ApplicationError::Domain(e));
            },
        };
        bookmark.stamp_created(self.now);
        let stored = bookmark.clone();
        match self.repository.add(stored) {
            Ok(id) => {
                bookmark.id = Some(id);
                Ok(BookmarkResponse::from_domain(&bookmark))
            },
            Err(e) => Err(ApplicationError::Domain(e)),
        }
    }

    /// Changes the bookmark the request names: the title and description
    /// it gives replace the old ones, and so do its tags. Refused when no
    /// bookmark has the id and when a tag is not valid.
    pub fn update_bookmark(&mut self, request: BookmarkUpdateRequest) -> (r: Result<BookmarkResponse, ApplicationError>)
        ensures
            !has_id(old(self).store()@, request.id) ==> r == Err::<BookmarkResponse, ApplicationError>(
                ApplicationError::BookmarkNotFound(request.id),
            ),
            has_id(old(self).store()@, request.id) ==> {
                let i = index_of_id(old(self).store()@, request.id);
                let nb = updated_view(old(self).store()@[i], request);
                &&& (r is Ok <==> field_ok(request.tags))
                &&& r matches Err(e) ==> e matches ApplicationError::Domain(DomainError::InvalidTag(m))
                    && m@ == field_reason(request.tags)
                &&& r matches Ok(resp) ==> final(self).store()@ == old(self).store()@.update(i, nb)
                    && response_view(resp) == response_of(nb)
            },
            r is Err ==> final(self).store()@ == old(self).store()@,
    {
        let mut b = match self.repository.get_by_id(request.id) {
            Some(b) => b,
            None => {
                return Err(ApplicationError::BookmarkNotFound(request.id));
            },
        };
        if let Some(t) = &request.title {
            b.title = owned(t.as_str());
        }
        if let Some(d) = &request.description {
            b.description = owned(d.as_str());
        }
        match request.to_domain_tags() {
            Ok(Some(tags)) => {
                let _ = b.set_tags(&tags);
            },
            Ok(None) => {},
            Err(e) => {
                return Err(ApplicationError::Domain(e));
            },
        }
        proof {
            let s = old(self).store()@;
            let i = index_of_id(s, request.id);
            assert(s[i].0 == Some(request.id));
            assert(b@ == updated_view(s[i], request));
        }
        match self.repository.update(&b) {
            Ok(()) => Ok(BookmarkResponse::from_domain(&b)),
            Err(e) => Err(ApplicationError::Domain(e)),
        }
    }

    /// The answer about the bookmark with the id `id`, if one is stored.
    pub fn get_bookmark(&self, id: i32) -> (r: Result<Option<BookmarkResponse>, ApplicationError>)
        ensures
            r matches Ok(o) && (o is Some <==> has_id(self.store()@, id)) && (o matches Some(resp)
                ==> response_view(resp) == response_of(self.store()@[index_of_id(self.store()@, id)])),
    {
        match self.repository.get_by_id(id) {
            Some(b) => Ok(Some(BookmarkResponse::from_domain(&b))),
            None => Ok(None),
        }
    }

    /// The title, description and keywords of the page at `url`: the
    /// service fetches nothing and gives three empty texts.
    pub fn fetch_url_metadata(&self, url: &str) -> (r: Result<(String, String, String), ApplicationError>)
        ensures
            r matches Ok(m) && m.0@.len() == 0 && m.1@.len() == 0 && m.2@.len() == 0,
    {
        Ok((String::new(), String::new(), String::new()))
    }
}

} // verus!
