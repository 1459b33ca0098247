//! Bookmark queries: tag conditions, text search and paging over the
//! stored bookmarks.
use vstd::prelude::*;
use crate::bookmark::{Bookmark, BookmarkView};
use crate::repository::bookmark_views;
use crate::tag::{contains_tag, tag_views, Tag};
use crate::text::chars_of;

verus! {

/// The order in which bookmarks are listed.
#[derive(Debug, Clone, Copy, PartialEq, Eq, Structural)]
pub enum SortDirection {
    Ascending,
    Descending,
}

/// A condition on the tags of a bookmark.
#[derive(Debug)]
pub enum TagCondition {
    /// Carries every one of the tags.
    All(Vec<Tag>),
    /// Carries at least one of the tags.
    Any(Vec<Tag>),
    /// Does not carry every one of the tags.
    NotAll(Vec<Tag>),
    /// Carries none of the tags.
    NotAny(Vec<Tag>),
    /// Carries exactly the tags.
    Exact(Vec<Tag>),
}

/// Whether the tag texts `bt` include every text of `ts`.
pub open spec fn has_all(bt: Seq<Seq<char>>, ts: Seq<Seq<char>>) -> bool {
    forall|i: int| 0 <= i < ts.len() ==> bt.contains(#[trigger] ts[i])
}

/// Whether the tag texts `bt` include some text of `ts`.
pub open spec fn has_any(bt: Seq<Seq<char>>, ts: Seq<Seq<char>>) -> bool {
    exists|i: int| 0 <= i < ts.len() && bt.contains(#[trigger] ts[i])
}

/// Whether the tag texts `bt` are exactly the texts of `ts`, as sets.
pub open spec fn has_exactly(bt: Seq<Seq<char>>, ts: Seq<Seq<char>>) -> bool {
    has_all(bt, ts) && has_all(ts, bt)
}

/// Whether the tag texts `bt` meet the condition `c`.
pub open spec fn condition_holds(c: TagCondition, bt: Seq<Seq<char>>) -> bool {
    match c {
        TagCondition::All(ts) => has_all(bt, tag_views(ts@)),
        TagCondition::Any(ts) => has_any(bt, tag_views(ts@)),
        TagCondition::NotAll(ts) => !has_all(bt, tag_views(ts@)),
        TagCondition::NotAny(ts) => !has_any(bt, tag_views(ts@)),
        TagCondition::Exact(ts) => has_exactly(bt, tag_views(ts@)),
    }
}

/// Whether `needle` occurs in `hay` at position `i`.
pub open spec fn occurs_at(needle: Seq<char>, hay: Seq<char>, i: int) -> bool {
    hay.subrange(i, i + needle.len()) == needle
}

/// Whether `needle` occurs in `hay`.
pub open spec fn occurs_in(needle: Seq<char>, hay: Seq<char>) -> bool {
    exists|i: int| 0 <= i <= hay.len() - needle.len() && #[trigger] occurs_at(needle, hay, i)
}

/// A query: an optional text, tag conditions that must all hold, an
/// optional order by the time of the last update, and paging.
#[derive(Debug)]
pub struct BookmarkQuery {
    pub text: Option<String>,
    pub conditions: Vec<TagCondition>,
    pub sort_by_date: Option<SortDirection>,
    pub limit: Option<usize>,
    pub offset: Option<usize>,
}

/// Whether `a` goes before `b` in the order `d` of update times: strictly
/// earlier when ascending, strictly later when descending.
pub open spec fn goes_before(a: BookmarkView, b: BookmarkView, d: SortDirection) -> bool {
    match d {
        SortDirection::Ascending => a.10.1 < b.10.1,
        SortDirection::Descending => a.10.1 > b.10.1,
    }
}

/// `s` with `b` put in after every bookmark that `b` does not go before.
pub open spec fn insert_by_time(s: Seq<BookmarkView>, b: BookmarkView, d: SortDirection) -> Seq<BookmarkView>
    decreases s.len(),
{
    if s.len() == 0 {
        seq![b]
    } else if goes_before(b, s.last(), d) {
        insert_by_time(s.drop_last(), b, d).push(s.last())
    } else {
        s.push(b)
    }
}

/// `s` ordered by update time in the direction `d`; bookmarks updated at
/// the same time keep their order.
pub open spec fn sorted_by_time(s: Seq<BookmarkView>, d: SortDirection) -> Seq<BookmarkView>
    decreases s.len(),
{
    if s.len() == 0 {
        Seq::empty()
    } else {
        insert_by_time(sorted_by_time(s.drop_last(), d), s.last(), d)
    }
}

/// `s` in the order `sort` asks for, if any.
pub open spec fn ordered(s: Seq<BookmarkView>, sort: Option<SortDirection>) -> Seq<BookmarkView> {
    match sort {
        Some(d) => sorted_by_time(s, d),
        None => s,
    }
}

/// Ordering by update time keeps the number of bookmarks.
pub proof fn lemma_sorted_len(s: Seq<BookmarkView>, d: SortDirection)
    ensures
        sorted_by_time(s, d).len() == s.len(),
    decreases s.len(),
{
    if s.len() > 0 {
        lemma_sorted_len(s.drop_last(), d);
        lemma_insert_len(sorted_by_time(s.drop_last(), d), s.last(), d);
    }
}

/// Putting a bookmark in adds one.
proof fn lemma_insert_len(s: Seq<BookmarkView>, b: BookmarkView, d: SortDirection)
    ensures
        insert_by_time(s, b, d).len() == s.len() + 1,
    decreases s.len(),
{
    if s.len() > 0 && goes_before(b, s.last(), d) {
        lemma_insert_len(s.drop_last(), b, d);
    }
}

/// Putting `b` in at `j`, where everything from `j` on comes after `b` and
/// what stands just before `j` does not, is `insert_by_time`.
proof fn lemma_insert_at(s: Seq<BookmarkView>, b: BookmarkView, d: SortDirection, j: int)
    requires
        0 <= j <= s.len(),
        forall|k: int| j <= k < s.len() ==> goes_before(b, #[trigger] s[k], d),
        j > 0 ==> !goes_before(b, s[j - 1], d),
    ensures
        insert_by_time(s, b, d) == s.insert(j, b),
    decreases s.len(),
{
    if s.len() == 0 {
        assert(s.insert(0, b) =~= seq![b]);
    } else if j == s.len() {
        assert(s.insert(j, b) =~= s.push(b));
    } else {
        assert(goes_before(b, s[s.len() - 1], d));
        let t = s.drop_last();
        assert forall|k: int| j <= k < t.len() implies goes_before(b, #[trigger] t[k], d) by {
            assert(t[k] == s[k]);
        }
        if j > 0 {
            assert(t[j - 1] == s[j - 1]);
        }
        lemma_insert_at(t, b, d, j);
        assert(t.insert(j, b).push(s.last()) =~= s.insert(j, b));
    }
}

/// Whether `a` goes before `b` in the order `d`.
fn goes_before_exec(a: &Bookmark, b: &Bookmark, d: SortDirection) -> (r: bool)
    ensures
        r == goes_before(a@, b@, d),
{
    match d {
        SortDirection::Ascending => a.updated_at < b.updated_at,
        SortDirection::Descending => a.updated_at > b.updated_at,
    }
}

/// `v` ordered by update time in the direction `d`, keeping the order of
/// bookmarks updated at the same time.
pub fn sort_by_time(v: Vec<Bookmark>, d: SortDirection) -> (r: Vec<Bookmark>)
    ensures
        bookmark_views(r@) == sorted_by_time(bookmark_views(v@), d),
{
    let ghost s = bookmark_views(v@);
    let n = v.len();
    let mut r: Vec<Bookmark> = Vec::new();
    let mut i: usize = 0;
    assert(s.take(0) =~= Seq::<BookmarkView>::empty());
    while i < n
        invariant
            i <= n,
            n == v@.len(),
            s == bookmark_views(v@),
            bookmark_views(r@) == sorted_by_time(s.take(i as int), d),
        decreases n - i,
    {
        let x = v[i].clone();
        let ghost rv = bookmark_views(r@);
        assert(s.take(i as int + 1).drop_last() =~= s.take(i as int));
        assert(s.take(i as int + 1).last() == v@[i as int]@);
        let mut j: usize = r.len();
        while j > 0 && goes_before_exec(&x, &r[j - 1], d)
            invariant
                j <= r@.len(),
                rv == bookmark_views(r@),
                forall|k: int| j <= k < rv.len() ==> goes_before(x@, #[trigger] rv[k], d),
            decreases j,
        {
            assert(rv[j - 1] == r@[j - 1]@);
            j = j - 1;
        }
        proof {
            if j > 0 {
                assert(rv[j - 1] == r@[j - 1]@);
            }
            lemma_insert_at(rv, x@, d, j as int);
        }
        r.insert(j, x);
        assert(bookmark_views(r@) =~= rv.insert(j as int, x@));
        i = i + 1;
    }
    assert(s.take(n as int) =~= s);
    r
}

/// Whether the bookmark `b` meets the text and the tag conditions of `q`.
pub open spec fn query_matches(q: BookmarkQuery, b: BookmarkView) -> bool {
    &&& match q.text {
        Some(t) => occurs_in(t@, b.1) || occurs_in(t@, b.2) || occurs_in(t@, b.3),
        None => true,
    }
    &&& forall|i: int| 0 <= i < q.conditions@.len() ==> condition_holds(#[trigger] q.conditions@[i], b.4)
}

/// The bookmarks of `s` that `q` selects, in the order it asks for, after
/// its offset and within its limit.
pub open spec fn query_result(s: Seq<BookmarkView>, q: BookmarkQuery) -> Seq<BookmarkView> {
    let m = ordered(s.filter(|b: BookmarkView| query_matches(q, b)), q.sort_by_date);
    let from = match q.offset {
        Some(o) => if o <= m.len() {
            o as int
        } else {
            m.len() as int
        },
        None => 0,
    };
    let rest = m.skip(from);
    match q.limit {
        Some(l) => if l <= rest.len() {
            rest.take(l as int)
        } else {
            rest
        },
        None => rest,
    }
}

/// A query whose only condition excludes a tag list keeps exactly the
/// bookmarks that lack at least one tag of the list, in order.
pub proof fn lemma_not_all_keeps_partial_matches(s: Seq<BookmarkView>, q: BookmarkQuery, ts: Vec<Tag>)
    requires
        q.text is None,
        q.conditions@.len() == 1,
        q.conditions@[0] == TagCondition::NotAll(ts),
        q.sort_by_date is None,
        q.offset is None,
        q.limit is None,
    ensures
        query_result(s, q) == s.filter(
            |b: BookmarkView|
                exists|k: int| 0 <= k < ts@.len() && !b.4.contains(#[trigger] tag_views(ts@)[k]),
        ),
{
    let t = tag_views(ts@);
    let pred = |b: BookmarkView| exists|k: int| 0 <= k < ts@.len() && !b.4.contains(#[trigger] tag_views(ts@)[k]);
    let sel = |b: BookmarkView| query_matches(q, b);
    assert(sel =~= pred) by {
        assert forall|b: BookmarkView| #[trigger] sel(b) == pred(b) by {
            assert(condition_holds(q.conditions@[0], b.4) == !has_all(b.4, t));
            if !has_all(b.4, t) {
                let k = choose|k: int| !(0 <= k < t.len() ==> b.4.contains(#[trigger] t[k]));
                assert(0 <= k < ts@.len() && !b.4.contains(tag_views(ts@)[k]));
            }
            if sel(b) {
                assert(condition_holds(q.conditions@[0], b.4));
            }
            if pred(b) {
                assert forall|i: int| 0 <= i < q.conditions@.len() implies condition_holds(
                    #[trigger] q.conditions@[i],
                    b.4,
                ) by {
                    assert(i == 0);
                }
            }
        }
    }
    let m = s.filter(sel);
    assert(ordered(m, q.sort_by_date) == m);
    assert(m.skip(0) =~= m);
}

/// Whether `needle` occurs in `hay`.
pub fn occurs(needle: &[char], hay: &[char]) -> (r: bool)
    ensures
        r == occurs_in(needle@, hay@),
{
    let n = needle.len();
    let h = hay.len();
    if n > h {
        return false;
    }
    let mut i: usize = 0;
    while i <= h - n
        invariant
            n <= h,
            n == needle@.len(),
            h == hay@.len(),
            i <= h - n + 1,
            forall|k: int| 0 <= k < i ==> !#[trigger] occurs_at(needle@, hay@, k),
        decreases h - n + 1 - i,
    {
        let mut j: usize = 0;
        let mut same = true;
        while j < n
            invariant
                j <= n,
                n == needle@.len(),
                h == hay@.len(),
                i + n <= h,
                same == (forall|k: int| 0 <= k < j ==> hay@[i + k] == needle@[k]),
            decreases n - j,
        {
            if hay[i + j] != needle[j] {
                same = false;
            }
            j = j + 1;
        }
        if same {
            assert(hay@.subrange(i as int, i + n) =~= needle@);
            assert(occurs_at(needle@, hay@, i as int));
            return true;
        }
        assert(!occurs_at(needle@, hay@, i as int)) by {
            let k = choose|k: int| 0 <= k < n && hay@[i + k] != needle@[k];
            assert(hay@.subrange(i as int, i + n)[k] == hay@[i + k]);
        }
        i = i + 1;
    }
    false
}

fn has_all_exec(bt: &Vec<Tag>, ts: &Vec<Tag>) -> (r: bool)
    ensures
        r == has_all(tag_views(bt@), tag_views(ts@)),
{
    let n = ts.len();
    let mut i: usize = 0;
    while i < n
        invariant
            i <= n,
            n == ts@.len(),
            forall|k: int| 0 <= k < i ==> tag_views(bt@).contains(#[trigger] tag_views(ts@)[k]),
        decreases n - i,
    {
        if !contains_tag(bt, &ts[i]) {
            assert(tag_views(ts@)[i as int] == ts@[i as int]@);
            return false;
        }
        i = i + 1;
    }
    true
}

fn has_any_exec(bt: &Vec<Tag>, ts: &Vec<Tag>) -> (r: bool)
    ensures
        r == has_any(tag_views(bt@), tag_views(ts@)),
{
    let n = ts.len();
    let mut i: usize = 0;
    while i < n
        invariant
            i <= n,
            n == ts@.len(),
            forall|k: int| 0 <= k < i ==> !tag_views(bt@).contains(#[trigger] tag_views(ts@)[k]),
        decreases n - i,
    {
        if contains_tag(bt, &ts[i]) {
            assert(tag_views(ts@)[i as int] == ts@[i as int]@);
            return true;
        }
        i = i + 1;
    }
    false
}

/// Whether the tags `bt` meet the condition `c`.
pub fn condition_met(c: &TagCondition, bt: &Vec<Tag>) -> (r: bool)
    ensures
        r == condition_holds(*c, tag_views(bt@)),
{
    match c {
        TagCondition::All(ts) => has_all_exec(bt, ts),
        TagCondition::Any(ts) => has_any_exec(bt, ts),
        TagCondition::NotAll(ts) => !has_all_exec(bt, ts),
        TagCondition::NotAny(ts) => !has_any_exec(bt, ts),
        TagCondition::Exact(ts) => has_all_exec(bt, ts) && has_all_exec(ts, bt),
    }
}

/// Whether the bookmark `b` meets the query `q`.
pub fn matches_query(q: &BookmarkQuery, b: &Bookmark) -> (r: bool)
    ensures
        r == query_matches(*q, b@),
{
    match &q.text {
        Some(t) => {
            let tc = chars_of(t.as_str());
            let u = chars_of(b.url.as_str());
            let ti = chars_of(b.title.as_str());
            let d = chars_of(b.description.as_str());
            if !(occurs(tc.as_slice(), u.as_slice()) || occurs(tc.as_slice(), ti.as_slice())
                || occurs(tc.as_slice(), d.as_slice())) {
                return false;
            }
        },
        None => {},
    }
    let n = q.conditions.len();
    let mut i: usize = 0;
    while i < n
        invariant
            i <= n,
            n == q.conditions@.len(),
            forall|k: int| 0 <= k < i ==> condition_holds(#[trigger] q.conditions@[k], b@.4),
        decreases n - i,
    {
        if !condition_met(&q.conditions[i], &b.tags) {
            return false;
        }
        i = i + 1;
    }
    true
}

/// The bookmarks of `bms` that `q` selects, in the order it asks for (the
/// order of `bms` when none), after its offset and within its limit.
pub fn run_query(bms: &Vec<Bookmark>, q: &BookmarkQuery) -> (r: Vec<Bookmark>)
    ensures
        bookmark_views(r@) == query_result(bookmark_views(bms@), *q),
{
    let ghost s = bookmark_views(bms@);
    let ghost pred = |b: BookmarkView| query_matches(*q, b);
    let n = bms.len();
    let mut m: Vec<Bookmark> = Vec::new();
    let mut i: usize = 0;
    assert(s.take(0) =~= Seq::<BookmarkView>::empty());
    while i < n
        invariant
            i <= n,
            n == bms@.len(),
            s == bookmark_views(bms@),
            pred == (|b: BookmarkView| query_matches(*q, b)),
            bookmark_views(m@) == s.take(i as int).filter(pred),
        decreases n - i,
    {
        reveal_with_fuel(Seq::filter, 1);
        assert(s.take(i as int + 1).drop_last() =~= s.take(i as int));
        assert(s.take(i as int + 1).last() == bms@[i as int]@);
        if matches_query(q, &bms[i]) {
            let b = bms[i].clone();
            let ghost before = m@;
            assert(bookmark_views(before).len() == before.len());
            m.push(b);
            assert(bookmark_views(m@) =~= bookmark_views(before).push(b@)) by {
                assert forall|k: int| 0 <= k < before.len() implies #[trigger] bookmark_views(
                    m@,
                )[k] == bookmark_views(before)[k] by {
                    assert(m@[k] == before[k]);
                }
            }
        }
        i = i + 1;
    }
    assert(s.take(n as int) =~= s);
    let m = match q.sort_by_date {
        Some(d) => sort_by_time(m, d),
        None => m,
    };
    let ghost mv = ordered(s.filter(pred), q.sort_by_date);
    let len = m.len();
    let from: usize = match q.offset {
        Some(o) => if o <= len {
            o
        } else {
            len
        },
        None => 0,
    };
    let to: usize = match q.limit {
        Some(l) => if l <= len - from {
            from + l
        } else {
            len
        },
        None => len,
    };
    let mut r: Vec<Bookmark> = Vec::new();
    let mut k: usize = from;
    while k < to
        invariant
            from <= k <= to <= len,
            len == m@.len(),
            bookmark_views(m@) == mv,
            bookmark_views(r@) == mv.subrange(from as int, k as int),
        decreases to - k,
    {
        let b = m[k].clone();
        let ghost before = r@;
        assert(bookmark_views(before).len() == before.len());
        r.push(b);
        assert(bookmark_views(r@) =~= mv.subrange(from as int, k as int + 1)) by {
            assert forall|j: int| 0 <= j < before.len() implies #[trigger] bookmark_views(r@)[j]
                == bookmark_views(before)[j] by {
                assert(r@[j] == before[j]);
            }
            assert(bookmark_views(m@)[k as int] == m@[k as int]@);
        }
        k = k + 1;
    }
    assert(query_result(s, *q) =~= mv.subrange(from as int, to as int));
    r
}

} // verus!
