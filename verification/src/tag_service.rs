//! Tag services: tag statistics, parsing of tag strings, and tag
//! operations across the stored bookmarks.
use vstd::prelude::*;
use crate::bookmark::{minus_tags, union_tags, Bookmark, BookmarkView};
use crate::dto::{
    parse_all, parse_all_reason, parse_tag_lists, TagInfoResponse, TagMergeRequest,
    TagOperationRequest, TagRenameRequest, TagSuggestionResponse,
};
use crate::error::{concat, ApplicationError, DomainError};
use crate::repository::{
    bookmark_views, carrying, counts_view, has_id, index_of_id, tag_statistics, BookmarkStore,
};
use crate::search::{has_all, occurs, occurs_in};
use crate::tag::{contains_tag, parse_tags_spec, tag_views, valid_tag, Tag};
use crate::text::{chars_of, lowercase, string_views, to_lowercase, trim};

verus! {

/// The domain service for tags over a store of bookmarks.
pub struct TagServiceImpl {
    repository: BookmarkStore,
}

impl TagServiceImpl {
    /// A tag service over `repository`.
    pub fn new(repository: BookmarkStore) -> (r: TagServiceImpl)
        ensures
            r.store()@ == repository@,
    {
        TagServiceImpl { repository }
    }

    /// The store the service reads.
    pub closed spec fn store(&self) -> BookmarkStore {
        self.repository
    }
}

/// The operations on tags: statistics over the stored bookmarks and the
/// parse of tag strings.
pub trait TagService {
    /// Every tag in use, with the number of bookmarks that carry it.
    fn get_all_tags(&self) -> Result<Vec<(Tag, usize)>, ApplicationError>;

    /// The tags that share a bookmark with `tag`, with their counts.
    fn get_related_tags(&self, tag: &Tag) -> Result<Vec<(Tag, usize)>, ApplicationError>;

    /// The tags of a comma-separated string.
    fn parse_tag_string(&self, tag_str: &str) -> Result<Vec<Tag>, ApplicationError>;
}

impl TagService for TagServiceImpl {
    /// Every tag in use, with the number of bookmarks that carry it.
    fn get_all_tags(&self) -> (r: Result<Vec<(Tag, usize)>, ApplicationError>)
        ensures
            r matches Ok(v) && counts_view(v@) == tag_statistics(self.store()@),
    {
        Ok(self.repository.get_all_tags())
    }

    /// The tags that share a bookmark with `tag`, with their counts.
    fn get_related_tags(&self, tag: &Tag) -> (r: Result<Vec<(Tag, usize)>, ApplicationError>)
        ensures
            r matches Ok(v) && counts_view(v@) == tag_statistics(carrying(self.store()@, tag@)).filter(
                |p: (Seq<char>, nat)| p.0 != tag@,
            ),
    {
        Ok(self.repository.get_related_tags(tag))
    }

    /// The tags of a comma-separated string: none for a blank string, and
    /// a validation error naming the invalid tag string otherwise.
    fn parse_tag_string(&self, tag_str: &str) -> (r: Result<Vec<Tag>, ApplicationError>)
        ensures
            trim(tag_str@).len() == 0 ==> (r matches Ok(v) && v@.len() == 0),
            trim(tag_str@).len() > 0 ==> (r is Ok <==> parse_tags_spec(tag_str@) is Some),
            trim(tag_str@).len() > 0 ==> (r matches Ok(v) ==> tag_views(v@) == parse_tags_spec(
                tag_str@,
            )->Some_0),
            r matches Err(e) ==> e is Validation && e->Validation_0@ == "Invalid tag string: "@
                + "Invalid tag: "@ + crate::tag::tag_error_reason(
                crate::tag::first_invalid(crate::tag::tag_items(tag_str@))->Some_0,
            ),
    {
        match Tag::parse_tag_str(tag_str) {
            Ok(Some(v)) => Ok(v),
            Ok(None) => Ok(Vec::new()),
            Err(e) => {
                proof {
                    if trim(tag_str@).len() == 0 {
                        assert(false);
                    }
                }
                let m = e.message();
                Err(ApplicationError::Validation(concat("Invalid tag string: ", m.as_str())))
            },
        }
    }
}

/// `b` with its tags replaced by `tags`, or with `tags` added.
pub open spec fn with_tags(b: BookmarkView, tags: Seq<Seq<char>>, replace: bool) -> BookmarkView {
    (
        b.0,
        b.1,
        b.2,
        b.3,
        if replace {
            union_tags(Seq::empty(), tags)
        } else {
            union_tags(b.4, tags)
        },
        b.5,
        b.6,
        b.7,
        b.8,
        b.9,
        b.10,
    )
}

/// `b` with the tags `tags` removed.
pub open spec fn without_tags(b: BookmarkView, tags: Seq<Seq<char>>) -> BookmarkView {
    (b.0, b.1, b.2, b.3, minus_tags(b.4, tags), b.5, b.6, b.7, b.8, b.9, b.10)
}

/// `s` after adding (or putting in place) `tags` on the bookmarks with the
/// ids `ids`, one id after the other; unknown ids are skipped.
pub open spec fn tagged(s: Seq<BookmarkView>, ids: Seq<i32>, tags: Seq<Seq<char>>, replace: bool) -> Seq<BookmarkView>
    decreases ids.len(),
{
    if ids.len() == 0 {
        s
    } else {
        let s2 = tagged(s, ids.drop_last(), tags, replace);
        let id = ids.last();
        if has_id(s2, id) {
            s2.update(index_of_id(s2, id), with_tags(s2[index_of_id(s2, id)], tags, replace))
        } else {
            s2
        }
    }
}

/// How many of the ids `ids` name a stored bookmark when their turn comes.
pub open spec fn tagged_count(s: Seq<BookmarkView>, ids: Seq<i32>, tags: Seq<Seq<char>>, replace: bool) -> nat
    decreases ids.len(),
{
    if ids.len() == 0 {
        0
    } else {
        tagged_count(s, ids.drop_last(), tags, replace) + if has_id(
            tagged(s, ids.drop_last(), tags, replace),
            ids.last(),
        ) {
            1nat
        } else {
            0nat
        }
    }
}

/// `s` after removing `tags` from the bookmarks with the ids `ids` that
/// carry all of them.
pub open spec fn untagged(s: Seq<BookmarkView>, ids: Seq<i32>, tags: Seq<Seq<char>>) -> Seq<BookmarkView>
    decreases ids.len(),
{
    if ids.len() == 0 {
        s
    } else {
        let s2 = untagged(s, ids.drop_last(), tags);
        let id = ids.last();
        if has_id(s2, id) && has_all(s2[index_of_id(s2, id)].4, tags) {
            s2.update(index_of_id(s2, id), without_tags(s2[index_of_id(s2, id)], tags))
        } else {
            s2
        }
    }
}

/// How many bookmarks `untagged` changes.
pub open spec fn untagged_count(s: Seq<BookmarkView>, ids: Seq<i32>, tags: Seq<Seq<char>>) -> nat
    decreases ids.len(),
{
    if ids.len() == 0 {
        0
    } else {
        let s2 = untagged(s, ids.drop_last(), tags);
        untagged_count(s, ids.drop_last(), tags) + if has_id(s2, ids.last()) && has_all(
            s2[index_of_id(s2, ids.last())].4,
            tags,
        ) {
            1nat
        } else {
            0nat
        }
    }
}

/// `b` with the tag `source` swapped for `target`, if it carries `source`.
pub open spec fn merged(b: BookmarkView, source: Seq<char>, target: Seq<char>) -> BookmarkView {
    if b.4.contains(source) {
        (
            b.0,
            b.1,
            b.2,
            b.3,
            union_tags(minus_tags(b.4, seq![source]), seq![target]),
            b.5,
            b.6,
            b.7,
            b.8,
            b.9,
            b.10,
        )
    } else {
        b
    }
}

/// How many bookmarks of `s` carry `t`, counted from the front.
pub open spec fn carrying_count(s: Seq<BookmarkView>, t: Seq<char>) -> nat {
    crate::repository::count_with(s, t)
}

/// The statistics entries whose lowercase tag text holds the lowercase
/// `partial`.
pub open spec fn suggestions(stats: Seq<(Seq<char>, nat)>, partial: Seq<char>) -> Seq<(Seq<char>, nat)> {
    stats.filter(|p: (Seq<char>, nat)| occurs_in(lowercase(partial), lowercase(p.0)))
}

/// A tag is suggested for a partial text exactly when it is in use and its
/// lowercase text holds the lowercase partial text at some position, not
/// only at the start.
pub proof fn lemma_suggestions_match_anywhere(
    stats: Seq<(Seq<char>, nat)>,
    partial: Seq<char>,
    p: (Seq<char>, nat),
)
    ensures
        suggestions(stats, partial).contains(p) <==> (stats.contains(p) && exists|i: int|
            0 <= i && i + lowercase(partial).len() <= lowercase(p.0).len() && #[trigger] lowercase(
                p.0,
            ).subrange(i, i + lowercase(partial).len()) == lowercase(partial)),
{
    let pred = |q: (Seq<char>, nat)| occurs_in(lowercase(partial), lowercase(q.0));
    let lp = lowercase(partial);
    let lt = lowercase(p.0);
    if suggestions(stats, partial).contains(p) {
        stats.lemma_filter_contains_rev(pred, p);
        let k = choose|k: int| 0 <= k < stats.filter(pred).len() && stats.filter(pred)[k] == p;
        stats.lemma_filter_pred(pred, k);
        let i = choose|i: int| 0 <= i <= lt.len() - lp.len() && #[trigger] crate::search::occurs_at(lp, lt, i);
        assert(lt.subrange(i, i + lp.len()) == lp);
    }
    if stats.contains(p) && exists|i: int|
        0 <= i && i + lp.len() <= lt.len() && #[trigger] lt.subrange(i, i + lp.len()) == lp {
        let i = choose|i: int| 0 <= i && i + lp.len() <= lt.len() && #[trigger] lt.subrange(i, i + lp.len()) == lp;
        assert(crate::search::occurs_at(lp, lt, i));
        let k = choose|k: int| 0 <= k < stats.len() && stats[k] == p;
        stats.lemma_filter_contains(pred, k);
    }
}

fn lowercase_chars(s: &str) -> (r: Vec<char>)
    ensures
        r@ == lowercase(s@),
{
    let l = to_lowercase(s);
    chars_of(l.as_str())
}

/// The application service for tags.
pub struct TagApplicationService {
    repository: BookmarkStore,
}

impl TagApplicationService {
    /// A tag service over `repository`.
    pub fn new(repository: BookmarkStore) -> (r: TagApplicationService)
        ensures
            r.store()@ == repository@,
    {
        TagApplicationService { repository }
    }

    /// The store the service works on.
    pub closed spec fn store(&self) -> BookmarkStore {
        self.repository
    }

    /// Every tag in use with its count.
    pub fn get_all_tags(&self) -> (r: Result<Vec<TagInfoResponse>, ApplicationError>)
        ensures
            r matches Ok(v) && v@.len() == tag_statistics(self.store()@).len() && forall|i: int|
                0 <= i < v@.len() ==> (#[trigger] v@[i]).name@ == tag_statistics(self.store()@)[i].0
                    && v@[i].count as nat == tag_statistics(self.store()@)[i].1,
    {
        let all = self.repository.get_all_tags();
        let r = TagInfoResponse::from_domain_collection(all.as_slice());
        assert forall|i: int| 0 <= i < r@.len() implies (#[trigger] r@[i]).name@ == tag_statistics(
            self.store()@,
        )[i].0 && r@[i].count as nat == tag_statistics(self.store()@)[i].1 by {
            assert(counts_view(all@)[i] == (all@[i].0@, all@[i].1 as nat));
        }
        Ok(r)
    }

    /// The tags related to the tag named `tag_name`, with their counts.
    pub fn get_related_tags(&self, tag_name: &str) -> (r: Result<Vec<TagInfoResponse>, ApplicationError>)
        ensures
            r is Ok <==> valid_tag(trim(tag_name@)),
            r matches Ok(v) ==> {
                let rel = tag_statistics(carrying(self.store()@, trim(tag_name@))).filter(
                    |p: (Seq<char>, nat)| p.0 != trim(tag_name@),
                );
                v@.len() == rel.len() && forall|i: int|
                    0 <= i < v@.len() ==> (#[trigger] v@[i]).name@ == rel[i].0 && v@[i].count as nat
                        == rel[i].1
            },
            r matches Err(e) ==> e is Domain && e->Domain_0 is InvalidTag,
    {
        let tag = match Tag::new(tag_name) {
            Ok(t) => t,
            Err(e) => {
                return Err(ApplicationError::Domain(e));
            },
        };
        let rel = self.repository.get_related_tags(&tag);
        let r = TagInfoResponse::from_domain_collection(rel.as_slice());
        let ghost relv = tag_statistics(carrying(self.store()@, trim(tag_name@))).filter(
            |p: (Seq<char>, nat)| p.0 != trim(tag_name@),
        );
        assert(tag@ == trim(tag_name@));
        assert((|p: (Seq<char>, nat)| p.0 != tag@) =~= (|p: (Seq<char>, nat)| p.0 != trim(tag_name@)));
        assert(counts_view(rel@) == relv);
        assert(r@.len() == relv.len());
        assert forall|i: int| 0 <= i < r@.len() implies (#[trigger] r@[i]).name@ == relv[i].0
            && r@[i].count as nat == relv[i].1 by {
            assert(counts_view(rel@)[i] == (rel@[i].0@, rel@[i].1 as nat));
        }
        Ok(r)
    }

    /// Adds the tags of the request to the bookmarks it names (or puts
    /// them in place of the old tags) and tells how many were changed;
    /// unknown ids are skipped.
    pub fn add_tags_to_bookmarks(&mut self, request: TagOperationRequest) -> (r: Result<usize, ApplicationError>)
        ensures
            r is Ok <==> parse_all(string_views(request.tags@)) is Some,
            r matches Ok(n) ==> {
                let tags = parse_all(string_views(request.tags@))->Some_0;
                let replace = match request.replace_existing {
                    Some(b) => b,
                    None => false,
                };
                &&& final(self).store()@ == tagged(old(self).store()@, request.bookmark_ids@, tags, replace)
                &&& n as nat == tagged_count(old(self).store()@, request.bookmark_ids@, tags, replace)
            },
            r is Err ==> final(self).store()@ == old(self).store()@,
            r matches Err(e) ==> e is Domain && e->Domain_0 is InvalidTag
                && e->Domain_0->InvalidTag_0@ == parse_all_reason(string_views(request.tags@)),
    {
        let tags = match parse_tag_lists(&request.tags) {
            Ok(t) => t,
            Err(e) => {
                return Err(ApplicationError::Domain(e));
            },
        };
        let replace = match request.replace_existing {
            Some(b) => b,
            None => false,
        };
        let ghost tv = tag_views(tags@);
        let ghost s0 = self.repository@;
        let ids = &request.bookmark_ids;
        let n = ids.len();
        let mut count: usize = 0;
        let mut i: usize = 0;
        assert(ids@.take(0) =~= Seq::<i32>::empty());
        while i < n
            invariant
                i <= n,
                n == ids@.len(),
                count <= i,
                tv == tag_views(tags@),
                self.repository@ == tagged(s0, ids@.take(i as int), tv, replace),
                count as nat == tagged_count(s0, ids@.take(i as int), tv, replace),
            decreases n - i,
        {
            assert(ids@.take(i as int + 1).drop_last() =~= ids@.take(i as int));
            assert(ids@.take(i as int + 1).last() == ids@[i as int]);
            let id = ids[i];
            match self.repository.get_by_id(id) {
                Some(b) => {
                    let mut b = b;
                    if replace {
                        b.set_tags(&tags).unwrap();
                    } else {
                        b.add_tags(&tags);
                    }
                    let res = self.repository.update(&b);
                    count = count + 1;
                },
                None => {},
            }
            i = i + 1;
        }
        assert(ids@.take(n as int) =~= ids@);
        Ok(count)
    }

    /// Removes the tags of the request from the bookmarks it names that
    /// carry all of them, and tells how many were changed.
    pub fn remove_tags_from_bookmarks(&mut self, request: TagOperationRequest) -> (r: Result<usize, ApplicationError>)
        ensures
            r is Ok <==> parse_all(string_views(request.tags@)) is Some,
            r matches Ok(n) ==> {
                let tags = parse_all(string_views(request.tags@))->Some_0;
                &&& final(self).store()@ == untagged(old(self).store()@, request.bookmark_ids@, tags)
                &&& n as nat == untagged_count(old(self).store()@, request.bookmark_ids@, tags)
            },
            r is Err ==> final(self).store()@ == old(self).store()@,
            r matches Err(e) ==> e is Domain && e->Domain_0 is InvalidTag
                && e->Domain_0->InvalidTag_0@ == parse_all_reason(string_views(request.tags@)),
    {
        let tags = match parse_tag_lists(&request.tags) {
            Ok(t) => t,
            Err(e) => {
                return Err(ApplicationError::Domain(e));
            },
        };
        let ghost tv = tag_views(tags@);
        let ghost s0 = self.repository@;
        let ids = &request.bookmark_ids;
        let n = ids.len();
        let mut count: usize = 0;
        let mut i: usize = 0;
        assert(ids@.take(0) =~= Seq::<i32>::empty());
        while i < n
            invariant
                i <= n,
                n == ids@.len(),
                count <= i,
                tv == tag_views(tags@),
                self.repository@ == untagged(s0, ids@.take(i as int), tv),
                count as nat == untagged_count(s0, ids@.take(i as int), tv),
            decreases n - i,
        {
            assert(ids@.take(i as int + 1).drop_last() =~= ids@.take(i as int));
            assert(ids@.take(i as int + 1).last() == ids@[i as int]);
            let id = ids[i];
            match self.repository.get_by_id(id) {
                Some(b) => {
                    if crate::search::condition_met(
                        &crate::search::TagCondition::All(crate::bookmark::copy_tags(&tags)),
                        &b.tags,
                    ) {
                        let mut b = b;
                        b.remove_tags(&tags);
                        let res = self.repository.update(&b);
                        count = count + 1;
                    }
                },
                None => {},
            }
            i = i + 1;
        }
        assert(ids@.take(n as int) =~= ids@);
        Ok(count)
    }

    fn swap_tag(&mut self, source: &Tag, target: &Tag) -> (r: usize)
        ensures
            final(self).store()@ == Seq::new(
                old(self).store()@.len(),
                |i: int| merged(old(self).store()@[i], source@, target@),
            ),
            r as nat == carrying_count(old(self).store()@, source@),
    {
        self.repository.assert_ids();
        let all = self.repository.get_all();
        let ghost s0 = self.repository@;
        let n = all.len();
        let mut count: usize = 0;
        let mut i: usize = 0;
        let tv = {
            let mut v: Vec<Tag> = Vec::new();
            v.push(target.clone());
            v
        };
        let sv = {
            let mut v: Vec<Tag> = Vec::new();
            v.push(source.clone());
            v
        };
        assert(tag_views(tv@) =~= seq![target@]);
        assert(tag_views(sv@) =~= seq![source@]);
        assert(s0.take(0) =~= Seq::<BookmarkView>::empty());
        while i < n
            invariant
                i <= n,
                n == all@.len(),
                bookmark_views(all@) == s0,
                count <= i,
                tag_views(tv@) == seq![target@],
                tag_views(sv@) == seq![source@],
                forall|k: int| 0 <= k < s0.len() ==> (#[trigger] s0[k]).0 is Some,
                forall|j: int, k: int|
                    0 <= j < s0.len() && 0 <= k < s0.len() && j != k ==> (#[trigger] s0[j]).0
                        != (#[trigger] s0[k]).0,
                self.repository@.len() == s0.len(),
                forall|k: int|
                    0 <= k < s0.len() ==> #[trigger] self.repository@[k] == if k < i {
                        merged(s0[k], source@, target@)
                    } else {
                        s0[k]
                    },
                count as nat == carrying_count(s0.take(i as int), source@),
            decreases n - i,
        {
            assert(s0.take(i as int + 1).drop_last() =~= s0.take(i as int));
            assert(s0.take(i as int + 1).last() == s0[i as int]);
            assert(bookmark_views(all@)[i as int] == all@[i as int]@);
            if contains_tag(&all[i].tags, source) {
                let mut b = all[i].clone();
                b.remove_tags(&sv);
                b.add_tags(&tv);
                let ghost cur = self.repository@;
                assert(cur[i as int].0 == s0[i as int].0);
                assert(has_id(cur, s0[i as int].0->Some_0));
                assert(index_of_id(cur, s0[i as int].0->Some_0) == i) by {
                    let j = index_of_id(cur, s0[i as int].0->Some_0);
                    assert(cur[j].0 == s0[j].0);
                    if j != i {
                        assert(s0[j].0 != s0[i as int].0);
                    }
                }
                let res = self.repository.update(&b);
                count = count + 1;
            }
            i = i + 1;
        }
        assert(s0.take(n as int) =~= s0);
        assert(self.repository@ =~= Seq::new(s0.len(), |i: int| merged(s0[i], source@, target@)));
        count
    }

    /// Replaces the tag `source` by `target` on every bookmark that carries
    /// it, and tells how many bookmarks were changed.
    pub fn merge_tags(&mut self, request: TagMergeRequest) -> (r: Result<usize, ApplicationError>)
        ensures
            r is Ok <==> valid_tag(trim(request.source_tag@)) && valid_tag(trim(request.target_tag@)),
            r matches Ok(n) ==> final(self).store()@ == Seq::new(
                old(self).store()@.len(),
                |i: int| merged(old(self).store()@[i], trim(request.source_tag@), trim(request.target_tag@)),
            ) && n as nat == carrying_count(old(self).store()@, trim(request.source_tag@)),
            r is Err ==> final(self).store()@ == old(self).store()@,
            r matches Err(e) ==> e is Domain && e->Domain_0 is InvalidTag,
    {
        let source = match Tag::new(request.source_tag.as_str()) {
            Ok(t) => t,
            Err(e) => {
                return Err(ApplicationError::Domain(e));
            },
        };
        let target = match Tag::new(request.target_tag.as_str()) {
            Ok(t) => t,
            Err(e) => {
                return Err(ApplicationError::Domain(e));
            },
        };
        Ok(self.swap_tag(&source, &target))
    }

    /// Renames the tag `old_name` to `new_name` on every bookmark that
    /// carries it, and tells how many bookmarks were changed.
    pub fn rename_tag(&mut self, request: TagRenameRequest) -> (r: Result<usize, ApplicationError>)
        ensures
            r is Ok <==> valid_tag(trim(request.old_name@)) && valid_tag(trim(request.new_name@)),
            r matches Ok(n) ==> final(self).store()@ == Seq::new(
                old(self).store()@.len(),
                |i: int| merged(old(self).store()@[i], trim(request.old_name@), trim(request.new_name@)),
            ) && n as nat == carrying_count(old(self).store()@, trim(request.old_name@)),
            r is Err ==> final(self).store()@ == old(self).store()@,
            r matches Err(e) ==> e is Domain && e->Domain_0 is InvalidTag,
    {
        let old_tag = match Tag::new(request.old_name.as_str()) {
            Ok(t) => t,
            Err(e) => {
                return Err(ApplicationError::Domain(e));
            },
        };
        let new_tag = match Tag::new(request.new_name.as_str()) {
            Ok(t) => t,
            Err(e) => {
                return Err(ApplicationError::Domain(e));
            },
        };
        Ok(self.swap_tag(&old_tag, &new_tag))
    }

    /// The tags in use whose lowercase text holds the lowercase `partial`,
    /// with their counts.
    pub fn get_tag_suggestions(&self, partial: &str) -> (r: Result<TagSuggestionResponse, ApplicationError>)
        ensures
            r matches Ok(resp) && {
                let sug = suggestions(tag_statistics(self.store()@), partial@);
                resp.suggestions@.len() == sug.len() && forall|i: int|
                    0 <= i < sug.len() ==> (#[trigger] resp.suggestions@[i]).name@ == sug[i].0
                        && resp.suggestions@[i].count as nat == sug[i].1
            },
    {
        let all = self.repository.get_all_tags();
        let ghost stats = tag_statistics(self.repository@);
        let ghost pred = |p: (Seq<char>, nat)| occurs_in(lowercase(partial@), lowercase(p.0));
        let pl = lowercase_chars(partial);
        let n = all.len();
        let mut out: Vec<TagInfoResponse> = Vec::new();
        let mut i: usize = 0;
        assert(stats.take(0) =~= Seq::<(Seq<char>, nat)>::empty());
        while i < n
            invariant
                i <= n,
                n == all@.len(),
                counts_view(all@) == stats,
                pl@ == lowercase(partial@),
                pred == (|p: (Seq<char>, nat)| occurs_in(lowercase(partial@), lowercase(p.0))),
                out@.len() == stats.take(i as int).filter(pred).len(),
                forall|k: int|
                    0 <= k < out@.len() ==> (#[trigger] out@[k]).name@ == stats.take(i as int).filter(
                        pred,
                    )[k].0 && out@[k].count as nat == stats.take(i as int).filter(pred)[k].1,
            decreases n - i,
        {
            reveal_with_fuel(Seq::filter, 1);
            assert(stats.take(i as int + 1).drop_last() =~= stats.take(i as int));
            assert(stats.take(i as int + 1).last() == stats[i as int]);
            assert(stats[i as int] == (all@[i as int].0@, all@[i as int].1 as nat));
            let tl = lowercase_chars(all[i].0.value());
            if occurs(pl.as_slice(), tl.as_slice()) {
                let item = TagInfoResponse::from_domain(&all[i].0, all[i].1);
                out.push(item);
            }
            i = i + 1;
        }
        assert(stats.take(n as int) =~= stats);
        Ok(TagSuggestionResponse { suggestions: out })
    }
}

/// A merge (and a rename) moves the tag: afterwards no bookmark carries `source` (when
/// `target` is another tag), each that carried it carries `target`, and
/// the bookmarks without `source` are left as they were.
pub proof fn lemma_merge_moves_the_tag(s: Seq<BookmarkView>, source: Seq<char>, target: Seq<char>)
    requires
        source != target,
    ensures
        forall|i: int| 0 <= i < s.len() ==> !(#[trigger] merged(s[i], source, target)).4.contains(source),
        forall|i: int|
            0 <= i < s.len() && s[i].4.contains(source) ==> (#[trigger] merged(s[i], source, target)).4.contains(
                target,
            ),
        forall|i: int|
            0 <= i < s.len() && !s[i].4.contains(source) ==> #[trigger] merged(s[i], source, target) == s[i],
{
    assert forall|i: int| 0 <= i < s.len() implies !(#[trigger] merged(s[i], source, target)).4.contains(
        source,
    ) && (s[i].4.contains(source) ==> merged(s[i], source, target).4.contains(target)) by {
        if s[i].4.contains(source) {
            let m = minus_tags(s[i].4, seq![source]);
            crate::bookmark::lemma_minus_tags_contains(s[i].4, seq![source], source);
            assert(seq![source].contains(source)) by {
                assert(seq![source][0] == source);
            }
            crate::bookmark::lemma_union_tags_contains(m, seq![target], source);
            crate::bookmark::lemma_union_tags_contains(m, seq![target], target);
            assert(seq![target].contains(target)) by {
                assert(seq![target][0] == target);
            }
            assert(!seq![target].contains(source)) by {
                if seq![target].contains(source) {
                    let k = choose|k: int| 0 <= k < 1 && seq![target][k] == source;
                    assert(seq![target][k] == target);
                }
            }
        }
    }
}

} // verus!
