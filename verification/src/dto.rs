//! Request and response objects of the application services, and their
//! conversion to and from the domain model.
use vstd::prelude::*;
use crate::bookmark::{union_tags, Bookmark};
use crate::error::DomainError;
use crate::tag::{
    first_invalid, parse_tags_spec, tag_error_reason, tag_items, tag_views, valid_tag, Tag,
};
use crate::text::{
    chars_of, contains_char, copy_opt_strings, copy_strings, owned, string_views, trim,
};

verus! {

/// The tags of the strings `strs`, each a comma-separated list, merged in
/// order; `None` when one of them holds an invalid tag.
pub open spec fn parse_all(strs: Seq<Seq<char>>) -> Option<Seq<Seq<char>>>
    decreases strs.len(),
{
    if strs.len() == 0 {
        Some(Seq::empty())
    } else {
        match parse_all(strs.drop_last()) {
            None => None,
            Some(acc) => match parse_tags_spec(strs.last()) {
                None => None,
                Some(ts) => Some(union_tags(acc, ts)),
            },
        }
    }
}

/// Why the first refused string of `strs` is refused.
pub open spec fn parse_all_reason(strs: Seq<Seq<char>>) -> Seq<char>
    decreases strs.len(),
{
    if strs.len() == 0 {
        Seq::empty()
    } else if parse_all(strs.drop_last()) is None {
        parse_all_reason(strs.drop_last())
    } else {
        tag_error_reason(first_invalid(tag_items(strs.last()))->Some_0)
    }
}

/// Merges the tags of every list of `strs`.
pub fn parse_tag_lists(strs: &Vec<String>) -> (r: Result<Vec<Tag>, DomainError>)
    ensures
        r is Ok <==> parse_all(string_views(strs@)) is Some,
        r matches Ok(ts) ==> tag_views(ts@) == parse_all(string_views(strs@))->Some_0,
        r matches Err(e) ==> e is InvalidTag && e->InvalidTag_0@ == parse_all_reason(
            string_views(strs@),
        ),
{
    let mut acc = Bookmark {
        id: None,
        url: String::new(),
        title: String::new(),
        description: String::new(),
        tags: Vec::new(),
        access_count: 0,
        embeddable: false,
        embedding: None,
        content_hash: None,
        file_path: None,
        file_mtime: None,
        file_hash: None,
        created_at: None,
        updated_at: 0,
    };
    let n = strs.len();
    let mut i: usize = 0;
    let ghost sv = string_views(strs@);
    assert(tag_views(acc.tags@) =~= Seq::<Seq<char>>::empty());
    assert(sv.take(0) =~= Seq::<Seq<char>>::empty());
    while i < n
        invariant
            i <= n,
            n == strs@.len(),
            sv == string_views(strs@),
            parse_all(sv.take(i as int)) == Some(tag_views(acc.tags@)),
        decreases n - i,
    {
        assert(sv.take(i as int + 1).drop_last() =~= sv.take(i as int));
        assert(sv.take(i as int + 1).last() == strs@[i as int]@);
        match Tag::parse_tags(strs[i].as_str()) {
            Ok(ts) => {
                acc.add_tags(&ts);
            },
            Err(e) => {
                proof {
                    lemma_parse_all_prefix(sv, i as int + 1);
                    assert(sv.take(n as int) =~= sv);
                }
                return Err(e);
            },
        }
        i = i + 1;
    }
    assert(sv.take(n as int) =~= sv);
    Ok(acc.tags)
}

/// A refused prefix refuses the whole, for the same reason.
proof fn lemma_parse_all_prefix(s: Seq<Seq<char>>, k: int)
    requires
        0 <= k <= s.len(),
        parse_all(s.take(k)) is None,
    ensures
        parse_all(s) is None,
        parse_all_reason(s) == parse_all_reason(s.take(k)),
    decreases s.len() - k,
{
    if k < s.len() {
        assert(s.take(k + 1).drop_last() =~= s.take(k));
        lemma_parse_all_prefix(s, k + 1);
    } else {
        assert(s.take(k) =~= s);
    }
}

/// A request to add a bookmark.
#[derive(Debug)]
pub struct BookmarkCreateRequest {
    pub url: String,
    pub title: Option<String>,
    pub description: Option<String>,
    pub tags: Option<Vec<String>>,
    pub fetch_metadata: Option<bool>,
}

/// A request to change a bookmark.
#[derive(Debug)]
pub struct BookmarkUpdateRequest {
    pub id: i32,
    pub title: Option<String>,
    pub description: Option<String>,
    pub tags: Option<Vec<String>>,
}

/// A request to search bookmarks.
#[derive(Debug, Default)]
pub struct BookmarkSearchRequest {
    pub query: Option<String>,
    pub all_tags: Option<Vec<String>>,
    pub any_tags: Option<Vec<String>>,
    pub exclude_all_tags: Option<Vec<String>>,
    pub exclude_any_tags: Option<Vec<String>>,
    pub exact_tags: Option<Vec<String>>,
    pub sort_by_date: Option<bool>,
    pub sort_descending: Option<bool>,
    pub limit: Option<usize>,
    pub offset: Option<usize>,
}

/// A bookmark as shown in lists.
#[derive(Debug)]
pub struct BookmarkListItem {
    pub id: Option<i32>,
    pub url: String,
    pub title: String,
    pub tags: Vec<String>,
}

/// The answer to a search.
#[derive(Debug)]
pub struct BookmarkSearchResponse {
    pub bookmarks: Vec<BookmarkListItem>,
    pub total_count: usize,
    pub page: Option<usize>,
    pub page_size: Option<usize>,
    pub has_more: bool,
}

/// The search parameters the application service works with.
#[derive(Debug, Default)]
pub struct SearchParamsDto {
    pub query: Option<String>,
    pub all_tags: Option<Vec<String>>,
    pub any_tags: Option<Vec<String>>,
    pub exclude_all_tags: Option<Vec<String>>,
    pub exclude_any_tags: Option<Vec<String>>,
    pub exact_tags: Option<Vec<String>>,
    pub sort_by_date: Option<bool>,
    pub sort_descending: Option<bool>,
    pub limit: Option<usize>,
    pub offset: Option<usize>,
}

/// The result of a search: the bookmarks found and their number.
#[derive(Debug)]
pub struct SearchResultDto {
    pub bookmarks: Vec<Bookmark>,
    pub total_count: usize,
}

/// Whether two optional string lists hold the same texts.
pub open spec fn same_opt_strings(a: Option<Vec<String>>, b: Option<Vec<String>>) -> bool {
    match (a, b) {
        (Some(x), Some(y)) => string_views(x@) == string_views(y@),
        (None, None) => true,
        _ => false,
    }
}

/// Whether two optional strings hold the same text.
pub open spec fn same_opt_string(a: Option<String>, b: Option<String>) -> bool {
    match (a, b) {
        (Some(x), Some(y)) => x@ == y@,
        (None, None) => true,
        _ => false,
    }
}

fn copy_opt_string(o: &Option<String>) -> (r: Option<String>)
    ensures
        same_opt_string(*o, r),
{
    match o {
        Some(s) => Some(s.clone()),
        None => None,
    }
}

/// The text of an optional string, or nothing.
pub open spec fn text_or_empty(o: Option<String>) -> Seq<char> {
    match o {
        Some(s) => s@,
        None => Seq::empty(),
    }
}

fn string_or_empty(o: &Option<String>) -> (r: String)
    ensures
        r@ == text_or_empty(*o),
{
    match o {
        Some(s) => s.clone(),
        None => String::new(),
    }
}

/// The texts of `tags` as strings.
pub fn tag_strings(tags: &Vec<Tag>) -> (r: Vec<String>)
    ensures
        string_views(r@) == tag_views(tags@),
{
    let mut r: Vec<String> = Vec::new();
    let n = tags.len();
    let mut i: usize = 0;
    while i < n
        invariant
            i <= n,
            n == tags@.len(),
            string_views(r@) == tag_views(tags@).take(i as int),
        decreases n - i,
    {
        let s = owned(tags[i].value());
        let ghost before = r@;
        assert(string_views(before).len() == before.len());
        r.push(s);
        assert(string_views(r@) =~= tag_views(tags@).take(i as int + 1)) by {
            assert forall|k: int| 0 <= k < i + 1 implies #[trigger] string_views(r@)[k]
                == tag_views(tags@).take(i as int + 1)[k] by {
                if k < i {
                    assert(r@[k] == before[k]);
                    assert(string_views(before)[k] == before[k]@);
                }
            }
        }
        i = i + 1;
    }
    assert(tag_views(tags@).take(n as int) =~= tag_views(tags@));
    r
}

impl BookmarkCreateRequest {
    /// The URL, title, description and tags of the new bookmark: a missing
    /// title or description is empty, and the tag lists are merged.
    pub fn to_domain_objects(&self) -> (r: Result<(String, String, String, Vec<Tag>), DomainError>)
        ensures
            r is Ok <==> match self.tags {
                Some(v) => parse_all(string_views(v@)) is Some,
                None => true,
            },
            r matches Ok(o) ==> o.0@ == self.url@ && o.1@ == text_or_empty(self.title) && o.2@
                == text_or_empty(self.description) && tag_views(o.3@) == match self.tags {
                Some(v) => parse_all(string_views(v@))->Some_0,
                None => Seq::<Seq<char>>::empty(),
            },
            r matches Err(e) ==> e is InvalidTag && self.tags is Some && e->InvalidTag_0@
                == parse_all_reason(string_views(self.tags->Some_0@)),
    {
        let tags = match &self.tags {
            Some(v) => parse_tag_lists(v)?,
            None => Vec::new(),
        };
        assert(tag_views(tags@) =~= match self.tags {
            Some(v) => parse_all(string_views(v@))->Some_0,
            None => Seq::<Seq<char>>::empty(),
        });
        Ok(
            (
                self.url.clone(),
                string_or_empty(&self.title),
                string_or_empty(&self.description),
                tags,
            ),
        )
    }
}

impl BookmarkUpdateRequest {
    /// The new tags when the request has any: the tag lists merged.
    pub fn to_domain_tags(&self) -> (r: Result<Option<Vec<Tag>>, DomainError>)
        ensures
            self.tags is None <==> r matches Ok(None),
            self.tags is Some ==> (r is Ok <==> parse_all(string_views(self.tags->Some_0@)) is Some),
            r matches Ok(Some(ts)) ==> self.tags is Some && tag_views(ts@) == parse_all(
                string_views(self.tags->Some_0@),
            )->Some_0,
            r matches Err(e) ==> e is InvalidTag && self.tags is Some && e->InvalidTag_0@
                == parse_all_reason(string_views(self.tags->Some_0@)),
    {
        match &self.tags {
            Some(v) => {
                let ts = parse_tag_lists(v)?;
                Ok(Some(ts))
            },
            None => Ok(None),
        }
    }
}

/// The answer about one bookmark: its id, URL, title, description, tag
/// texts and access count.
#[derive(Debug)]
pub struct BookmarkResponse {
    pub id: Option<i32>,
    pub url: String,
    pub title: String,
    pub description: String,
    pub tags: Vec<String>,
    pub access_count: i32,
    pub created_at: Option<i64>,
    pub updated_at: i64,
}

impl BookmarkResponse {
    /// The answer about `bookmark`.
    pub fn from_domain(bookmark: &Bookmark) -> (r: BookmarkResponse)
        ensures
            r.id == bookmark.id,
            r.url@ == bookmark.url@,
            r.title@ == bookmark.title@,
            r.description@ == bookmark.description@,
            string_views(r.tags@) == tag_views(bookmark.tags@),
            r.access_count == bookmark.access_count,
            r.created_at == bookmark.created_at,
            r.updated_at == bookmark.updated_at,
    {
        BookmarkResponse {
            id: bookmark.id,
            url: owned(bookmark.url.as_str()),
            title: owned(bookmark.title.as_str()),
            description: owned(bookmark.description.as_str()),
            tags: tag_strings(&bookmark.tags),
            access_count: bookmark.access_count,
            created_at: bookmark.created_at,
            updated_at: bookmark.updated_at,
        }
    }
}

impl BookmarkListItem {
    /// The list form of a bookmark: id, URL, title and tag texts.
    pub fn from_domain(bookmark: &Bookmark) -> (r: BookmarkListItem)
        ensures
            r.id == bookmark.id,
            r.url@ == bookmark.url@,
            r.title@ == bookmark.title@,
            string_views(r.tags@) == tag_views(bookmark.tags@),
    {
        BookmarkListItem {
            id: bookmark.id,
            url: bookmark.url.clone(),
            title: bookmark.title.clone(),
            tags: tag_strings(&bookmark.tags),
        }
    }

    /// The list forms of `bookmarks`, in order.
    pub fn from_domain_collection(bookmarks: &[Bookmark]) -> (r: Vec<BookmarkListItem>)
        ensures
            r@.len() == bookmarks@.len(),
            forall|i: int|
                0 <= i < r@.len() ==> (#[trigger] r@[i]).id == bookmarks@[i].id && r@[i].url@
                    == bookmarks@[i].url@ && r@[i].title@ == bookmarks@[i].title@ && string_views(
                    r@[i].tags@,
                ) == tag_views(bookmarks@[i].tags@),
    {
        let mut r: Vec<BookmarkListItem> = Vec::new();
        let n = bookmarks.len();
        let mut i: usize = 0;
        while i < n
            invariant
                i <= n,
                n == bookmarks@.len(),
                r@.len() == i,
                forall|k: int|
                    0 <= k < i ==> (#[trigger] r@[k]).id == bookmarks@[k].id && r@[k].url@
                        == bookmarks@[k].url@ && r@[k].title@ == bookmarks@[k].title@
                        && string_views(r@[k].tags@) == tag_views(bookmarks@[k].tags@),
            decreases n - i,
        {
            r.push(BookmarkListItem::from_domain(&bookmarks[i]));
            i = i + 1;
        }
        r
    }
}

impl BookmarkSearchRequest {
    /// The same parameters as the application service takes them.
    pub fn to_application_params(&self) -> (r: SearchParamsDto)
        ensures
            same_opt_string(self.query, r.query),
            same_opt_strings(self.all_tags, r.all_tags),
            same_opt_strings(self.any_tags, r.any_tags),
            same_opt_strings(self.exclude_all_tags, r.exclude_all_tags),
            same_opt_strings(self.exclude_any_tags, r.exclude_any_tags),
            same_opt_strings(self.exact_tags, r.exact_tags),
            r.sort_by_date == self.sort_by_date,
            r.sort_descending == self.sort_descending,
            r.limit == self.limit,
            r.offset == self.offset,
    {
        SearchParamsDto {
            query: copy_opt_string(&self.query),
            all_tags: copy_opt_strings(&self.all_tags),
            any_tags: copy_opt_strings(&self.any_tags),
            exclude_all_tags: copy_opt_strings(&self.exclude_all_tags),
            exclude_any_tags: copy_opt_strings(&self.exclude_any_tags),
            exact_tags: copy_opt_strings(&self.exact_tags),
            sort_by_date: self.sort_by_date,
            sort_descending: self.sort_descending,
            limit: self.limit,
            offset: self.offset,
        }
    }
}

/// A tag with the number of bookmarks carrying it.
#[derive(Debug)]
pub struct TagInfoResponse {
    pub name: String,
    pub count: usize,
}

/// A request to add, remove or replace tags on bookmarks.
#[derive(Debug)]
pub struct TagOperationRequest {
    pub bookmark_ids: Vec<i32>,
    pub tags: Vec<String>,
    pub replace_existing: Option<bool>,
}

/// Suggested tags.
#[derive(Debug)]
pub struct TagSuggestionResponse {
    pub suggestions: Vec<TagInfoResponse>,
}

/// A request to merge one tag into another.
#[derive(Debug)]
pub struct TagMergeRequest {
    pub source_tag: String,
    pub target_tag: String,
}

/// A request to rename a tag.
#[derive(Debug)]
pub struct TagRenameRequest {
    pub old_name: String,
    pub new_name: String,
}

/// The tag operation the application service works with.
#[derive(Debug)]
pub struct TagOperationDto {
    pub bookmark_ids: Vec<i32>,
    pub tags: Vec<String>,
    pub replace_existing: bool,
}

/// The tags one string of a tag operation stands for: a comma-separated
/// list when it holds a comma, and otherwise a single tag.
pub open spec fn operation_tags(s: Seq<char>) -> Option<Seq<Seq<char>>> {
    if s.contains(',') {
        parse_tags_spec(s)
    } else if valid_tag(trim(s)) {
        Some(seq![trim(s)])
    } else {
        None
    }
}

/// Why `operation_tags` refuses `s`.
pub open spec fn operation_reason(s: Seq<char>) -> Seq<char> {
    if s.contains(',') {
        tag_error_reason(first_invalid(tag_items(s))->Some_0)
    } else {
        tag_error_reason(trim(s))
    }
}

/// The tags of all strings of a tag operation, merged in order.
pub open spec fn operation_all(strs: Seq<Seq<char>>) -> Option<Seq<Seq<char>>>
    decreases strs.len(),
{
    if strs.len() == 0 {
        Some(Seq::empty())
    } else {
        match operation_all(strs.drop_last()) {
            None => None,
            Some(acc) => match operation_tags(strs.last()) {
                None => None,
                Some(ts) => Some(union_tags(acc, ts)),
            },
        }
    }
}

/// Why the first refused string of a tag operation is refused.
pub open spec fn operation_all_reason(strs: Seq<Seq<char>>) -> Seq<char>
    decreases strs.len(),
{
    if strs.len() == 0 {
        Seq::empty()
    } else if operation_all(strs.drop_last()) is None {
        operation_all_reason(strs.drop_last())
    } else {
        operation_reason(strs.last())
    }
}

proof fn lemma_operation_all_prefix(s: Seq<Seq<char>>, k: int)
    requires
        0 <= k <= s.len(),
        operation_all(s.take(k)) is None,
    ensures
        operation_all(s) is None,
        operation_all_reason(s) == operation_all_reason(s.take(k)),
    decreases s.len() - k,
{
    if k < s.len() {
        assert(s.take(k + 1).drop_last() =~= s.take(k));
        lemma_operation_all_prefix(s, k + 1);
    } else {
        assert(s.take(k) =~= s);
    }
}

impl TagInfoResponse {
    /// The response for `tag` used `count` times.
    pub fn from_domain(tag: &Tag, count: usize) -> (r: TagInfoResponse)
        ensures
            r.name@ == tag@,
            r.count == count,
    {
        TagInfoResponse { name: owned(tag.value()), count }
    }

    /// The responses for tags with counts, in order.
    pub fn from_domain_collection(tags_with_counts: &[(Tag, usize)]) -> (r: Vec<TagInfoResponse>)
        ensures
            r@.len() == tags_with_counts@.len(),
            forall|i: int|
                0 <= i < r@.len() ==> (#[trigger] r@[i]).name@ == tags_with_counts@[i].0@
                    && r@[i].count == tags_with_counts@[i].1,
    {
        let mut r: Vec<TagInfoResponse> = Vec::new();
        let n = tags_with_counts.len();
        let mut i: usize = 0;
        while i < n
            invariant
                i <= n,
                n == tags_with_counts@.len(),
                r@.len() == i,
                forall|k: int|
                    0 <= k < i ==> (#[trigger] r@[k]).name@ == tags_with_counts@[k].0@
                        && r@[k].count == tags_with_counts@[k].1,
            decreases n - i,
        {
            let (t, c) = &tags_with_counts[i];
            r.push(TagInfoResponse::from_domain(t, *c));
            i = i + 1;
        }
        r
    }
}

impl TagOperationRequest {
    /// The tags of the request: strings with commas are tag lists, the
    /// others single tags.
    pub fn to_domain_tags(&self) -> (r: Result<Vec<Tag>, DomainError>)
        ensures
            r is Ok <==> operation_all(string_views(self.tags@)) is Some,
            r matches Ok(ts) ==> tag_views(ts@) == operation_all(string_views(self.tags@))->Some_0,
            r matches Err(e) ==> e is InvalidTag && e->InvalidTag_0@ == operation_all_reason(
                string_views(self.tags@),
            ),
    {
        let mut acc = Bookmark {
            id: None,
            url: String::new(),
            title: String::new(),
            description: String::new(),
            tags: Vec::new(),
            access_count: 0,
            embeddable: false,
            embedding: None,
            content_hash: None,
            file_path: None,
            file_mtime: None,
            file_hash: None,
            created_at: None,
            updated_at: 0,
        };
        let n = self.tags.len();
        let mut i: usize = 0;
        let ghost sv = string_views(self.tags@);
        assert(tag_views(acc.tags@) =~= Seq::<Seq<char>>::empty());
        assert(sv.take(0) =~= Seq::<Seq<char>>::empty());
        while i < n
            invariant
                i <= n,
                n == self.tags@.len(),
                sv == string_views(self.tags@),
                operation_all(sv.take(i as int)) == Some(tag_views(acc.tags@)),
            decreases n - i,
        {
            assert(sv.take(i as int + 1).drop_last() =~= sv.take(i as int));
            assert(sv.take(i as int + 1).last() == self.tags@[i as int]@);
            let s = self.tags[i].as_str();
            let cs = chars_of(s);
            if contains_char(cs.as_slice(), ',') {
                match Tag::parse_tags(s) {
                    Ok(ts) => {
                        acc.add_tags(&ts);
                    },
                    Err(e) => {
                        proof {
                            lemma_operation_all_prefix(sv, i as int + 1);
                            assert(sv.take(n as int) =~= sv);
                        }
                        return Err(e);
                    },
                }
            } else {
                match Tag::new(s) {
                    Ok(t) => {
                        let ghost before = tag_views(acc.tags@);
                        acc.add_tag(t).unwrap();
                    },
                    Err(e) => {
                        proof {
                            lemma_operation_all_prefix(sv, i as int + 1);
                            assert(sv.take(n as int) =~= sv);
                        }
                        return Err(e);
                    },
                }
            }
            i = i + 1;
        }
        assert(sv.take(n as int) =~= sv);
        Ok(acc.tags)
    }

    /// The operation as the application service takes it; a missing
    /// replace flag means adding.
    pub fn to_application_dto(&self) -> (r: TagOperationDto)
        ensures
            r.bookmark_ids@ == self.bookmark_ids@,
            string_views(r.tags@) == string_views(self.tags@),
            r.replace_existing == match self.replace_existing {
                Some(b) => b,
                None => false,
            },
    {
        let mut ids: Vec<i32> = Vec::new();
        let n = self.bookmark_ids.len();
        let mut i: usize = 0;
        while i < n
            invariant
                i <= n,
                n == self.bookmark_ids@.len(),
                ids@ == self.bookmark_ids@.take(i as int),
            decreases n - i,
        {
            ids.push(self.bookmark_ids[i]);
            i = i + 1;
            assert(ids@ =~= self.bookmark_ids@.take(i as int));
        }
        assert(self.bookmark_ids@.take(n as int) =~= self.bookmark_ids@);
        TagOperationDto {
            bookmark_ids: ids,
            tags: copy_strings(&self.tags),
            replace_existing: match self.replace_existing {
                Some(b) => b,
                None => false,
            },
        }
    }
}

} // verus!
