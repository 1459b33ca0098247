//! The bookmark store: bookmarks under unique ids, with the reads and
//! writes the services make, and tag statistics over its contents.
use vstd::prelude::*;
use crate::bookmark::{union_tags, Bookmark, BookmarkView};
use crate::error::DomainError;
use crate::tag::{contains_tag, tag_views, Tag};
use crate::text::{chars_eq, chars_of, owned};

verus! {

/// `v` with the id `id`.
pub open spec fn with_id(v: BookmarkView, id: i32) -> BookmarkView {
    (Some(id), v.1, v.2, v.3, v.4, v.5, v.6, v.7, v.8, v.9, v.10)
}

/// The views of a sequence of bookmarks.
pub open spec fn bookmark_views(s: Seq<Bookmark>) -> Seq<BookmarkView> {
    Seq::new(s.len(), |i: int| s[i]@)
}

/// Whether `s` holds a bookmark with the id `id`.
pub open spec fn has_id(s: Seq<BookmarkView>, id: i32) -> bool {
    exists|i: int| 0 <= i < s.len() && (#[trigger] s[i]).0 == Some(id)
}

/// The index of the bookmark with the id `id`, when ids are unique.
pub open spec fn index_of_id(s: Seq<BookmarkView>, id: i32) -> int {
    choose|i: int| 0 <= i < s.len() && (#[trigger] s[i]).0 == Some(id)
}

/// Whether every bookmark has an id below `next` and no id repeats.
pub open spec fn ids_ok(s: Seq<BookmarkView>, next: i32) -> bool {
    &&& next >= 1
    &&& forall|i: int| 0 <= i < s.len() ==> (#[trigger] s[i]).0 is Some && 1 <= s[i].0->Some_0 < next
    &&& forall|i: int, j: int| 0 <= i < s.len() && 0 <= j < s.len() && i != j ==> (#[trigger] s[i]).0 != (#[trigger] s[j]).0
}

/// The distinct tag texts of the bookmarks `s`, in order of first use.
pub open spec fn all_tags(s: Seq<BookmarkView>) -> Seq<Seq<char>>
    decreases s.len(),
{
    if s.len() == 0 {
        Seq::empty()
    } else {
        union_tags(all_tags(s.drop_last()), s.last().4)
    }
}

/// How many bookmarks of `s` carry the tag text `t`.
pub open spec fn count_with(s: Seq<BookmarkView>, t: Seq<char>) -> nat
    decreases s.len(),
{
    if s.len() == 0 {
        0
    } else {
        count_with(s.drop_last(), t) + if s.last().4.contains(t) {
            1nat
        } else {
            0nat
        }
    }
}

/// The bookmarks of `s` that carry the tag text `t`.
pub open spec fn carrying(s: Seq<BookmarkView>, t: Seq<char>) -> Seq<BookmarkView> {
    s.filter(|b: BookmarkView| b.4.contains(t))
}

/// The view of tags with counts.
pub open spec fn counts_view(v: Seq<(Tag, usize)>) -> Seq<(Seq<char>, nat)> {
    Seq::new(v.len(), |i: int| (v[i].0@, v[i].1 as nat))
}

/// The tags of `s` with the number of bookmarks carrying each.
pub open spec fn tag_statistics(s: Seq<BookmarkView>) -> Seq<(Seq<char>, nat)> {
    Seq::new(all_tags(s).len(), |i: int| (all_tags(s)[i], count_with(s, all_tags(s)[i])))
}

/// Whether no two bookmarks of `s` share an id.
pub open spec fn unique_ids(s: Seq<BookmarkView>) -> bool {
    forall|i: int, j: int|
        0 <= i < s.len() && 0 <= j < s.len() && i != j ==> (#[trigger] s[i]).0 != (#[trigger] s[j]).0
}

/// A bookmark stored under a fresh id is found under that id, as it was
/// stored.
pub proof fn lemma_add_then_get(s: Seq<BookmarkView>, b: BookmarkView, id: i32)
    requires
        !has_id(s, id),
    ensures
        has_id(s.push(with_id(b, id)), id),
        s.push(with_id(b, id))[index_of_id(s.push(with_id(b, id)), id)] == with_id(b, id),
{
    let t = s.push(with_id(b, id));
    assert(t[s.len() as int].0 == Some(id));
    let k = index_of_id(t, id);
    if k != s.len() {
        assert(t[k] == s[k]);
    }
}

/// After a bookmark is replaced under its id, that id finds the new
/// bookmark, every other id finds what it found before, and ids stay
/// unique.
pub proof fn lemma_update_then_get(s: Seq<BookmarkView>, id: i32, v: BookmarkView, other: i32)
    requires
        has_id(s, id),
        unique_ids(s),
        v.0 == Some(id),
        other != id,
    ensures
        has_id(s.update(index_of_id(s, id), v), id),
        s.update(index_of_id(s, id), v)[index_of_id(s.update(index_of_id(s, id), v), id)] == v,
        unique_ids(s.update(index_of_id(s, id), v)),
        has_id(s.update(index_of_id(s, id), v), other) == has_id(s, other),
        has_id(s, other) ==> s.update(index_of_id(s, id), v)[index_of_id(
            s.update(index_of_id(s, id), v),
            other,
        )] == s[index_of_id(s, other)],
{
    let i = index_of_id(s, id);
    let t = s.update(i, v);
    assert(t[i].0 == Some(id));
    let k = index_of_id(t, id);
    if k != i {
        assert(t[k] == s[k]);
    }
    assert forall|a: int, b: int| 0 <= a < t.len() && 0 <= b < t.len() && a != b implies (
    #[trigger] t[a]).0 != (#[trigger] t[b]).0 by {
        if a == i {
            assert(t[b] == s[b]);
        } else if b == i {
            assert(t[a] == s[a]);
        } else {
            assert(t[a] == s[a] && t[b] == s[b]);
        }
    }
    if has_id(s, other) {
        let j = index_of_id(s, other);
        assert(j != i);
        assert(t[j] == s[j]);
        let m = index_of_id(t, other);
        assert(t[m].0 == Some(other));
        assert(m != i);
        assert(t[m] == s[m]);
    }
    if has_id(t, other) {
        let m = index_of_id(t, other);
        assert(m != i);
        assert(t[m] == s[m]);
    }
}

/// After the bookmark with an id is deleted, that id finds nothing, and
/// every other id finds what it found before.
pub proof fn lemma_delete_then_get(s: Seq<BookmarkView>, id: i32, other: i32)
    requires
        has_id(s, id),
        unique_ids(s),
        other != id,
    ensures
        !has_id(s.remove(index_of_id(s, id)), id),
        has_id(s.remove(index_of_id(s, id)), other) == has_id(s, other),
        has_id(s, other) ==> s.remove(index_of_id(s, id))[index_of_id(
            s.remove(index_of_id(s, id)),
            other,
        )] == s[index_of_id(s, other)],
{
    let i = index_of_id(s, id);
    let t = s.remove(i);
    if has_id(t, id) {
        let m = index_of_id(t, id);
        if m < i {
            assert(t[m] == s[m]);
        } else {
            assert(t[m] == s[m + 1]);
        }
    }
    if has_id(s, other) {
        let j = index_of_id(s, other);
        assert(j != i);
        let jj = if j < i {
            j
        } else {
            j - 1
        };
        assert(t[jj] == s[j]);
        let m = index_of_id(t, other);
        let mm = if m < i {
            m
        } else {
            m + 1
        };
        assert(t[m] == s[mm]);
        assert(s[mm].0 == Some(other));
    }
    if has_id(t, other) {
        let m = index_of_id(t, other);
        let mm = if m < i {
            m
        } else {
            m + 1
        };
        assert(t[m] == s[mm]);
    }
}

/// The bookmarks, in the order they were added.
pub struct BookmarkStore {
    bookmarks: Vec<Bookmark>,
    next_id: i32,
}

impl View for BookmarkStore {
    type V = Seq<BookmarkView>;

    closed spec fn view(&self) -> Seq<BookmarkView> {
        bookmark_views(self.bookmarks@)
    }
}

impl BookmarkStore {
    #[verifier::type_invariant]
    closed spec fn inv(self) -> bool {
        ids_ok(bookmark_views(self.bookmarks@), self.next_id)
    }

    /// The id the next added bookmark gets: ids are handed out in
    /// increasing order, starting at 1.
    pub closed spec fn next_id(&self) -> i32 {
        self.next_id
    }

    /// How many more bookmarks can be added: one per id not handed out yet.
    pub open spec fn room(&self) -> nat {
        (i32::MAX - self.next_id()) as nat
    }

    /// Whether another bookmark can still be added.
    pub open spec fn has_room(&self) -> bool {
        self.room() > 0
    }

    /// An empty store, with room for every positive id but the largest.
    pub fn new() -> (r: BookmarkStore)
        ensures
            r@ == Seq::<BookmarkView>::empty(),
            r.next_id() == 1,
            r.room() == i32::MAX - 1,
    {
        let r = BookmarkStore { bookmarks: Vec::new(), next_id: 1 };
        assert(bookmark_views(r.bookmarks@) =~= Seq::<BookmarkView>::empty());
        r
    }

    /// Every stored bookmark has an id, and no two share one.
    pub fn assert_ids(&self)
        ensures
            forall|i: int| 0 <= i < self@.len() ==> (#[trigger] self@[i]).0 is Some,
            forall|i: int, j: int|
                0 <= i < self@.len() && 0 <= j < self@.len() && i != j ==> (#[trigger] self@[i]).0
                    != (#[trigger] self@[j]).0,
    {
        proof {
            use_type_invariant(self);
        }
    }

    /// How many bookmarks the store holds.
    pub fn len(&self) -> (r: usize)
        ensures
            r == self@.len(),
    {
        self.bookmarks.len()
    }

    /// Stores `b` under a new id and returns the id; refused only when no
    /// id is left.
    pub fn add(&mut self, b: Bookmark) -> (r: Result<i32, DomainError>)
        ensures
            r is Ok <==> old(self).has_room(),
            r matches Ok(id) ==> !has_id(old(self)@, id) && final(self)@ == old(self)@.push(
                with_id(b@, id),
            ),
            r is Err ==> final(self)@ == old(self)@,
            r matches Err(e) ==> e is Other,
            r is Err ==> !final(self).has_room(),
            r matches Ok(id) ==> id == old(self).next_id() && final(self).next_id() == id + 1,
            r is Ok ==> final(self).room() == old(self).room() - 1,
            r is Err ==> final(self).next_id() == old(self).next_id(),
    {
        proof {
            use_type_invariant(&*self);
        }
        if self.next_id == i32::MAX {
            return Err(DomainError::Other(owned("No bookmark id left")));
        }
        let id = self.next_id;
        let mut b = b;
        b.id = Some(id);
        let ghost before = bookmark_views(self.bookmarks@);
        self.next_id = self.next_id + 1;
        let mut bms: Vec<Bookmark> = Vec::new();
        std::mem::swap(&mut bms, &mut self.bookmarks);
        bms.push(b);
        assert(bookmark_views(bms@) =~= before.push(with_id(b@, id)));
        assert(ids_ok(bookmark_views(bms@), self.next_id)) by {
            let after = bookmark_views(bms@);
            assert forall|i: int, j: int|
                0 <= i < after.len() && 0 <= j < after.len() && i != j implies (#[trigger] after[i]).0
                != (#[trigger] after[j]).0 by {
                if i < before.len() && j < before.len() {
                    assert(after[i] == before[i] && after[j] == before[j]);
                } else if i < before.len() {
                    assert(after[i] == before[i]);
                } else {
                    assert(after[j] == before[j]);
                }
            }
        }
        self.bookmarks = bms;
        assert(bookmark_views(self.bookmarks@) =~= before.push(with_id(b@, id)));
        assert(!has_id(before, id));
        Ok(id)
    }

    fn find_id(&self, id: i32) -> (r: Option<usize>)
        ensures
            r matches Some(i) ==> i < self@.len() && self@[i as int].0 == Some(id),
            r is None <==> !has_id(self@, id),
    {
        let n = self.bookmarks.len();
        let mut i: usize = 0;
        while i < n
            invariant
                i <= n,
                n == self.bookmarks@.len(),
                forall|k: int| 0 <= k < i ==> self.bookmarks@[k].id != Some(id),
            decreases n - i,
        {
            if self.bookmarks[i].id == Some(id) {
                assert(self@[i as int].0 == Some(id));
                return Some(i);
            }
            i = i + 1;
        }
        assert forall|k: int| 0 <= k < self@.len() implies (#[trigger] self@[k]).0 != Some(id) by {
            assert(self@[k] == self.bookmarks@[k]@);
        }
        None
    }

    /// The bookmark with the id `id`, if stored.
    pub fn get_by_id(&self, id: i32) -> (r: Option<Bookmark>)
        ensures
            r is Some <==> has_id(self@, id),
            r matches Some(b) ==> b@ == self@[index_of_id(self@, id)],
    {
        proof {
            use_type_invariant(self);
        }
        match self.find_id(id) {
            Some(i) => {
                let b = self.bookmarks[i].clone();
                assert(b@ == self@[i as int]);
                Some(b)
            },
            None => None,
        }
    }

    fn find_url(&self, url: &str) -> (r: Option<usize>)
        ensures
            r matches Some(i) ==> i < self@.len() && self@[i as int].1 == url@ && forall|k: int|
                0 <= k < i ==> (#[trigger] self@[k]).1 != url@,
            r is None ==> forall|k: int| 0 <= k < self@.len() ==> (#[trigger] self@[k]).1 != url@,
    {
        let u = chars_of(url);
        let n = self.bookmarks.len();
        let mut i: usize = 0;
        while i < n
            invariant
                i <= n,
                n == self.bookmarks@.len(),
                u@ == url@,
                forall|k: int| 0 <= k < i ==> (#[trigger] self@[k]).1 != url@,
            decreases n - i,
        {
            let c = chars_of(self.bookmarks[i].url.as_str());
            if chars_eq(c.as_slice(), u.as_slice()) {
                return Some(i);
            }
            assert(self@[i as int].1 == self.bookmarks@[i as int].url@);
            i = i + 1;
        }
        None
    }

    /// The first bookmark whose URL is `url`, if any.
    pub fn get_by_url(&self, url: &str) -> (r: Option<Bookmark>)
        ensures
            r is Some <==> exists|k: int| 0 <= k < self@.len() && (#[trigger] self@[k]).1 == url@,
            r matches Some(b) ==> exists|k: int|
                0 <= k < self@.len() && self@[k] == b@ && b@.1 == url@ && forall|j: int|
                    0 <= j < k ==> (#[trigger] self@[j]).1 != url@,
    {
        match self.find_url(url) {
            Some(i) => {
                let b = self.bookmarks[i].clone();
                assert(b@ == self@[i as int]);
                Some(b)
            },
            None => None,
        }
    }

    /// The id of the first bookmark whose URL is `url`, or -1.
    pub fn exists_by_url(&self, url: &str) -> (r: i32)
        ensures
            r == -1 <==> forall|k: int| 0 <= k < self@.len() ==> (#[trigger] self@[k]).1 != url@,
            r != -1 ==> exists|k: int|
                0 <= k < self@.len() && self@[k].0 == Some(r) && self@[k].1 == url@ && forall|j: int|
                    0 <= j < k ==> (#[trigger] self@[j]).1 != url@,
    {
        proof {
            use_type_invariant(self);
        }
        match self.find_url(url) {
            Some(i) => {
                let id = self.bookmarks[i].id;
                assert(self@[i as int].0 is Some);
                match id {
                    Some(v) => v,
                    None => -1,
                }
            },
            None => -1,
        }
    }

    /// Replaces the stored bookmark with the id of `b` by `b`; refused when
    /// `b` has no id or no bookmark has it.
    pub fn update(&mut self, b: &Bookmark) -> (r: Result<(), DomainError>)
        ensures
            r is Ok <==> (b.id is Some && has_id(old(self)@, b.id->Some_0)),
            r is Ok ==> final(self)@ == old(self)@.update(index_of_id(old(self)@, b.id->Some_0), b@),
            r is Err ==> final(self)@ == old(self)@,
            r matches Err(e) ==> e is BookmarkNotFound,
            final(self).next_id() == old(self).next_id(),
    {
        proof {
            use_type_invariant(&*self);
        }
        let id = match b.id {
            Some(id) => id,
            None => {
                return Err(DomainError::BookmarkNotFound(owned("bookmark has no id")));
            },
        };
        match self.find_id(id) {
            Some(i) => {
                let ghost before = bookmark_views(self.bookmarks@);
                assert(index_of_id(before, id) == i) by {
                    let j = index_of_id(before, id);
                    assert(before[j].0 == Some(id));
                    if j != i {
                        assert(before[j].0 != before[i as int].0);
                    }
                }
                let c = b.clone();
                let mut bms: Vec<Bookmark> = Vec::new();
                std::mem::swap(&mut bms, &mut self.bookmarks);
                bms.set(i, c);
                assert(bookmark_views(bms@) =~= before.update(i as int, b@));
                self.bookmarks = bms;
                assert(bookmark_views(self.bookmarks@) =~= before.update(i as int, b@));
                Ok(())
            },
            None => Err(DomainError::BookmarkNotFound(crate::num::format_i32(id))),
        }
    }

    /// Removes the bookmark with the id `id`; tells whether there was one.
    pub fn delete(&mut self, id: i32) -> (r: bool)
        ensures
            r == has_id(old(self)@, id),
            r ==> final(self)@ == old(self)@.remove(index_of_id(old(self)@, id)),
            !r ==> final(self)@ == old(self)@,
            !has_id(final(self)@, id),
            final(self).next_id() == old(self).next_id(),
    {
        proof {
            use_type_invariant(&*self);
        }
        match self.find_id(id) {
            Some(i) => {
                let ghost before = bookmark_views(self.bookmarks@);
                assert(index_of_id(before, id) == i) by {
                    let j = index_of_id(before, id);
                    assert(before[j].0 == Some(id));
                    if j != i {
                        assert(before[j].0 != before[i as int].0);
                    }
                }
                let mut bms: Vec<Bookmark> = Vec::new();
                std::mem::swap(&mut bms, &mut self.bookmarks);
                bms.remove(i);
                assert(bookmark_views(bms@) =~= before.remove(i as int));
                self.bookmarks = bms;
                assert(bookmark_views(self.bookmarks@) =~= before.remove(i as int));
                assert(!has_id(bookmark_views(self.bookmarks@), id)) by {
                    let after = bookmark_views(self.bookmarks@);
                    if has_id(after, id) {
                        let k = choose|k: int| 0 <= k < after.len() && (#[trigger] after[k]).0 == Some(id);
                        if k < i {
                            assert(after[k] == before[k]);
                        } else {
                            assert(after[k] == before[k + 1]);
                        }
                    }
                }
                true
            },
            None => false,
        }
    }

    /// Copies of all bookmarks, in order.
    pub fn get_all(&self) -> (r: Vec<Bookmark>)
        ensures
            bookmark_views(r@) == self@,
    {
        let n = self.bookmarks.len();
        let mut r: Vec<Bookmark> = Vec::new();
        let mut i: usize = 0;
        while i < n
            invariant
                i <= n,
                n == self.bookmarks@.len(),
                bookmark_views(r@) == self@.take(i as int),
            decreases n - i,
        {
            let b = self.bookmarks[i].clone();
            let ghost before = r@;
            assert(bookmark_views(before).len() == before.len());
            r.push(b);
            assert(bookmark_views(r@) =~= self@.take(i as int + 1)) by {
                assert forall|k: int| 0 <= k < i + 1 implies #[trigger] bookmark_views(r@)[k]
                    == self@.take(i as int + 1)[k] by {
                    if k < i {
                        assert(r@[k] == before[k]);
                        assert(bookmark_views(before)[k] == before[k]@);
                    }
                }
            }
            i = i + 1;
        }
        assert(self@.take(n as int) =~= self@);
        r
    }

    /// Every tag in use, with the number of bookmarks that carry it.
    pub fn get_all_tags(&self) -> (r: Vec<(Tag, usize)>)
        ensures
            counts_view(r@) == tag_statistics(self@),
    {
        tag_counts(&self.bookmarks)
    }

    /// The tags that share a bookmark with `tag`, with the number of
    /// bookmarks carrying `tag` that carry them; `tag` itself is left out.
    pub fn get_related_tags(&self, tag: &Tag) -> (r: Vec<(Tag, usize)>)
        ensures
            counts_view(r@) == tag_statistics(carrying(self@, tag@)).filter(
                |p: (Seq<char>, nat)| p.0 != tag@,
            ),
    {
        let n = self.bookmarks.len();
        let mut sel: Vec<Bookmark> = Vec::new();
        let mut i: usize = 0;
        let ghost pred = |b: BookmarkView| b.4.contains(tag@);
        assert(self@.take(0) =~= Seq::<BookmarkView>::empty());
        while i < n
            invariant
                i <= n,
                n == self.bookmarks@.len(),
                pred == (|b: BookmarkView| b.4.contains(tag@)),
                bookmark_views(sel@) == self@.take(i as int).filter(pred),
            decreases n - i,
        {
            reveal_with_fuel(Seq::filter, 1);
            assert(self@.take(i as int + 1).drop_last() =~= self@.take(i as int));
            assert(self@.take(i as int + 1).last() == self.bookmarks@[i as int]@);
            if contains_tag(&self.bookmarks[i].tags, tag) {
                let b = self.bookmarks[i].clone();
                let ghost before = sel@;
                assert(bookmark_views(before).len() == before.len());
                sel.push(b);
                assert(bookmark_views(sel@) =~= bookmark_views(before).push(b@)) by {
                    assert forall|k: int| 0 <= k < before.len() implies #[trigger] bookmark_views(
                        sel@,
                    )[k] == bookmark_views(before)[k] by {
                        assert(sel@[k] == before[k]);
                    }
                }
            }
            i = i + 1;
        }
        assert(self@.take(n as int) =~= self@);
        let all = tag_counts(&sel);
        let m = all.len();
        let mut r: Vec<(Tag, usize)> = Vec::new();
        let mut j: usize = 0;
        let ghost fpred = |p: (Seq<char>, nat)| p.0 != tag@;
        let ghost stats = tag_statistics(carrying(self@, tag@));
        assert(stats.take(0) =~= Seq::<(Seq<char>, nat)>::empty());
        while j < m
            invariant
                j <= m,
                m == all@.len(),
                counts_view(all@) == stats,
                fpred == (|p: (Seq<char>, nat)| p.0 != tag@),
                counts_view(r@) == stats.take(j as int).filter(fpred),
            decreases m - j,
        {
            reveal_with_fuel(Seq::filter, 1);
            assert(stats.take(j as int + 1).drop_last() =~= stats.take(j as int));
            assert(stats.take(j as int + 1).last() == stats[j as int]);
            assert(stats[j as int] == (all@[j as int].0@, all@[j as int].1 as nat));
            if !all[j].0.same_text(tag) {
                let t = all[j].0.clone();
                let c = all[j].1;
                let ghost before = r@;
                r.push((t, c));
                assert(counts_view(r@) =~= counts_view(before).push(stats[j as int]));
            }
            j = j + 1;
        }
        assert(stats.take(m as int) =~= stats);
        r
    }
}

/// How many bookmarks of `bms` carry the tag text of `t`.
fn count_carrying(bms: &Vec<Bookmark>, t: &Tag) -> (r: usize)
    ensures
        r as nat == count_with(bookmark_views(bms@), t@),
{
    let n = bms.len();
    let mut c: usize = 0;
    let mut i: usize = 0;
    assert(bookmark_views(bms@).take(0) =~= Seq::<BookmarkView>::empty());
    while i < n
        invariant
            i <= n,
            n == bms@.len(),
            c as nat == count_with(bookmark_views(bms@).take(i as int), t@),
            c <= i,
        decreases n - i,
    {
        assert(bookmark_views(bms@).take(i as int + 1).drop_last() =~= bookmark_views(bms@).take(
            i as int,
        ));
        assert(bookmark_views(bms@).take(i as int + 1).last() == bms@[i as int]@);
        if contains_tag(&bms[i].tags, t) {
            c = c + 1;
        }
        i = i + 1;
    }
    assert(bookmark_views(bms@).take(n as int) =~= bookmark_views(bms@));
    c
}

/// The tags in use among `bms`, with the number of bookmarks carrying each.
fn tag_counts(bms: &Vec<Bookmark>) -> (r: Vec<(Tag, usize)>)
    ensures
        counts_view(r@) == tag_statistics(bookmark_views(bms@)),
{
    let n = bms.len();
    let mut acc: Bookmark = Bookmark {
        id: None,
        url: String::new(),
        title: String::new(),
        description: String::new(),
        tags: Vec::new(),
        access_count: 0,
        embeddable: false,
        embedding: None,
        content_hash: None,
        file_path: None,
        file_mtime: None,
        file_hash: None,
        created_at: None,
        updated_at: 0,
    };
    let mut i: usize = 0;
    let ghost s = bookmark_views(bms@);
    assert(tag_views(acc.tags@) =~= Seq::<Seq<char>>::empty());
    assert(s.take(0) =~= Seq::<BookmarkView>::empty());
    while i < n
        invariant
            i <= n,
            n == bms@.len(),
            s == bookmark_views(bms@),
            tag_views(acc.tags@) == all_tags(s.take(i as int)),
        decreases n - i,
    {
        assert(s.take(i as int + 1).drop_last() =~= s.take(i as int));
        assert(s.take(i as int + 1).last() == bms@[i as int]@);
        acc.add_tags(&bms[i].tags);
        i = i + 1;
    }
    assert(s.take(n as int) =~= s);
    let m = acc.tags.len();
    let mut r: Vec<(Tag, usize)> = Vec::new();
    let mut j: usize = 0;
    while j < m
        invariant
            j <= m,
            m == acc.tags@.len(),
            tag_views(acc.tags@) == all_tags(s),
            s == bookmark_views(bms@),
            counts_view(r@) == tag_statistics(s).take(j as int),
        decreases m - j,
    {
        let t = acc.tags[j].clone();
        let c = count_carrying(bms, &t);
        let ghost before = r@;
        assert(counts_view(before).len() == before.len());
        r.push((t, c));
        assert(counts_view(r@) =~= tag_statistics(s).take(j as int + 1)) by {
            assert forall|k: int| 0 <= k < j + 1 implies #[trigger] counts_view(r@)[k]
                == tag_statistics(s).take(j as int + 1)[k] by {
                if k < j {
                    assert(r@[k] == before[k]);
                    assert(counts_view(before)[k] == (before[k].0@, before[k].1 as nat));
                } else {
                    assert(tag_views(acc.tags@)[j as int] == acc.tags@[j as int]@);
                }
            }
        }
        j = j + 1;
    }
    assert(tag_statistics(s).take(m as int) =~= tag_statistics(s));
    r
}

} // verus!
