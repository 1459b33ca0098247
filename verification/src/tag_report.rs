//! Tag reports: tags ordered by how many bookmarks carry them, the lines
//! that list them, and the counts of the reserved content-type tags.
use vstd::prelude::*;
use crate::bookmark::Bookmark;
use crate::display::{pieces_view, Color, Piece};
use crate::num::decimal;
use crate::repository::{bookmark_views, count_with};
use crate::tag::{system_tag_text, SystemTag, Tag};
use crate::text::owned;

verus! {

/// A tag count seen as the tag's text and the count.
pub type CountView = (Seq<char>, usize);

/// The views of tag counts.
pub open spec fn count_views(v: Seq<(Tag, usize)>) -> Seq<CountView> {
    Seq::new(v.len(), |i: int| (v[i].0@, v[i].1))
}

/// `x` put into `s`, which falls by count: after every entry whose count
/// is at least that of `x`.
pub open spec fn insert_by_count(s: Seq<CountView>, x: CountView) -> Seq<CountView>
    decreases s.len(),
{
    if s.len() == 0 {
        seq![x]
    } else if s[0].1 >= x.1 {
        seq![s[0]] + insert_by_count(s.drop_first(), x)
    } else {
        seq![x] + s
    }
}

/// The counts `s` ordered by falling count, entries of equal count in
/// their first order.
pub open spec fn by_count(s: Seq<CountView>) -> Seq<CountView>
    decreases s.len(),
{
    if s.len() == 0 {
        Seq::empty()
    } else {
        insert_by_count(by_count(s.drop_last()), s.last())
    }
}

/// Whether the counts `s` fall from first to last.
pub open spec fn falls_by_count(s: Seq<CountView>) -> bool {
    forall|i: int, j: int| 0 <= i < j < s.len() ==> #[trigger] s[i].1 >= #[trigger] s[j].1
}

/// The place where `insert_by_count` puts `x`: the first entry whose count
/// is below that of `x`, or the end.
pub open spec fn insert_place(s: Seq<CountView>, x: CountView) -> int
    decreases s.len(),
{
    if s.len() == 0 {
        0
    } else if s[0].1 >= x.1 {
        1 + insert_place(s.drop_first(), x)
    } else {
        0
    }
}

/// Putting `x` in by count is inserting it at its place.
proof fn lemma_insert_place(s: Seq<CountView>, x: CountView)
    ensures
        0 <= insert_place(s, x) <= s.len(),
        insert_by_count(s, x) == s.insert(insert_place(s, x), x),
        forall|j: int| 0 <= j < insert_place(s, x) ==> #[trigger] s[j].1 >= x.1,
        insert_place(s, x) < s.len() ==> s[insert_place(s, x)].1 < x.1,
    decreases s.len(),
{
    if s.len() > 0 && s[0].1 >= x.1 {
        lemma_insert_place(s.drop_first(), x);
        let p = insert_place(s.drop_first(), x);
        assert(seq![s[0]] + s.drop_first().insert(p, x) =~= s.insert(p + 1, x));
        assert forall|j: int| 0 <= j < p + 1 implies #[trigger] s[j].1 >= x.1 by {
            if j > 0 {
                assert(s[j] == s.drop_first()[j - 1]);
            }
        }
    } else if s.len() > 0 {
        assert(seq![x] + s =~= s.insert(0, x));
    } else {
        assert(seq![x] =~= s.insert(0, x));
    }
}

/// Putting an entry in by count keeps the counts falling and adds just
/// that entry.
proof fn lemma_insert_by_count(s: Seq<CountView>, x: CountView)
    requires
        falls_by_count(s),
    ensures
        falls_by_count(insert_by_count(s, x)),
        insert_by_count(s, x).to_multiset() == s.to_multiset().insert(x),
{
    lemma_insert_place(s, x);
    let p = insert_place(s, x);
    let r = s.insert(p, x);
    assert forall|i: int, j: int| 0 <= i < j < r.len() implies #[trigger] r[i].1 >= #[trigger] r[j].1 by {
        if j < p {
            assert(r[i] == s[i] && r[j] == s[j]);
        } else if j == p {
            assert(r[i] == s[i]);
        } else if i < p {
            assert(r[i] == s[i] && r[j] == s[j - 1]);
        } else if i == p {
            assert(r[j] == s[j - 1]);
            assert(s[p].1 >= s[j - 1].1);
        } else {
            assert(r[i] == s[i - 1] && r[j] == s[j - 1]);
        }
    }
    vstd::seq_lib::to_multiset_insert(s, p, x);
}

/// Ordering by count keeps every entry, as often as it came, and leaves
/// the counts falling.
pub proof fn lemma_by_count_orders(s: Seq<CountView>)
    ensures
        falls_by_count(by_count(s)),
        by_count(s).to_multiset() == s.to_multiset(),
        by_count(s).len() == s.len(),
    decreases s.len(),
{
    broadcast use vstd::multiset::group_multiset_axioms;
    broadcast use vstd::seq_lib::group_to_multiset_ensures;

    if s.len() == 0 {
        assert(s.to_multiset() =~= vstd::multiset::Multiset::empty());
        assert(by_count(s).to_multiset() =~= vstd::multiset::Multiset::empty());
    } else {
        lemma_by_count_orders(s.drop_last());
        lemma_insert_by_count(by_count(s.drop_last()), s.last());
        assert(s.drop_last().push(s.last()) =~= s);
        vstd::seq_lib::to_multiset_build(s.drop_last(), s.last());
        lemma_insert_place(by_count(s.drop_last()), s.last());
    }
}

/// The tag counts ordered by falling count, counts that are equal in the
/// order they came.
pub fn sort_by_count(counts: Vec<(Tag, usize)>) -> (r: Vec<(Tag, usize)>)
    ensures
        count_views(r@) == by_count(count_views(counts@)),
{
    let ghost cv = count_views(counts@);
    let mut out: Vec<(Tag, usize)> = Vec::new();
    let mut items = counts;
    let m = items.len();
    assert(cv.take(0) =~= Seq::<CountView>::empty());
    assert(cv.skip(0) =~= cv);
    assert(count_views(out@) =~= Seq::<CountView>::empty());
    let mut k: usize = 0;
    while items.len() > 0
        invariant
            k + items@.len() == m,
            m == cv.len(),
            count_views(items@) == cv.skip(k as int),
            count_views(out@) == by_count(cv.take(k as int)),
        decreases items.len(),
    {
        let ghost before_items = items@;
        let x = items.remove(0);
        assert(count_views(before_items)[0] == (x.0@, x.1));
        assert(cv[k as int] == (x.0@, x.1));
        assert(count_views(items@) =~= count_views(before_items).drop_first());
        assert(count_views(items@) =~= cv.skip(k + 1));
        assert(cv.take(k + 1).drop_last() =~= cv.take(k as int));
        assert(cv.take(k + 1).last() == cv[k as int]);
        let ghost ov = count_views(out@);
        proof {
            lemma_insert_place(ov, (x.0@, x.1));
        }
        let mut p: usize = 0;
        while p < out.len() && out[p].1 >= x.1
            invariant
                p <= out@.len(),
                ov == count_views(out@),
                forall|j: int| 0 <= j < p ==> #[trigger] out@[j].1 >= x.1,
            decreases out@.len() - p,
        {
            assert(ov[p as int] == (out@[p as int].0@, out@[p as int].1));
            p = p + 1;
        }
        proof {
            if p < out@.len() {
                assert(ov[p as int].1 < x.1);
            }
            assert forall|j: int| 0 <= j < p implies #[trigger] ov[j].1 >= x.1 by {
                assert(ov[j] == (out@[j].0@, out@[j].1));
            }
            lemma_place_unique(ov, (x.0@, x.1), p as int);
        }
        let ghost xv = (x.0@, x.1);
        out.insert(p, x);
        assert(count_views(out@) =~= ov.insert(p as int, xv));
        k = k + 1;
    }
    assert(cv.take(m as int) =~= cv);
    out
}

/// The place where the entry goes is the first one whose count is below
/// its own.
proof fn lemma_place_unique(s: Seq<CountView>, x: CountView, p: int)
    requires
        0 <= p <= s.len(),
        forall|j: int| 0 <= j < p ==> #[trigger] s[j].1 >= x.1,
        p < s.len() ==> s[p].1 < x.1,
    ensures
        insert_place(s, x) == p,
    decreases s.len(),
{
    if s.len() > 0 && p > 0 {
        assert(s[0].1 >= x.1);
        assert forall|j: int| 0 <= j < p - 1 implies #[trigger] s.drop_first()[j].1 >= x.1 by {
            assert(s.drop_first()[j] == s[j + 1]);
        }
        if p < s.len() {
            assert(s.drop_first()[p - 1] == s[p]);
        }
        lemma_place_unique(s.drop_first(), x, p - 1);
    }
}

/// The lines of a tag listing: for each tag two spaces, the tag in green
/// and its count in brackets.
pub open spec fn count_lines(s: Seq<CountView>) -> Seq<(Option<Color>, Seq<char>)>
    decreases s.len(),
{
    if s.len() == 0 {
        Seq::empty()
    } else {
        count_lines(s.drop_last()) + seq![
            (None, "  "@),
            (Some(Color::Green), s.last().0),
            (None, " ("@ + decimal(s.last().1 as nat) + ")\n"@),
        ]
    }
}

/// The pieces of a tag listing of `counts`, in their order.
pub fn tag_count_lines(counts: &Vec<(Tag, usize)>) -> (r: Vec<Piece>)
    ensures
        pieces_view(r@) == count_lines(count_views(counts@)),
{
    let ghost cv = count_views(counts@);
    let mut r: Vec<Piece> = Vec::new();
    let n = counts.len();
    let mut i: usize = 0;
    assert(cv.take(0) =~= Seq::<CountView>::empty());
    assert(pieces_view(r@) =~= Seq::<(Option<Color>, Seq<char>)>::empty());
    while i < n
        invariant
            i <= n,
            n == counts@.len(),
            cv == count_views(counts@),
            pieces_view(r@) == count_lines(cv.take(i as int)),
        decreases n - i,
    {
        assert(cv.take(i as int + 1).drop_last() =~= cv.take(i as int));
        assert(cv.take(i as int + 1).last() == (counts@[i as int].0@, counts@[i as int].1));
        let ghost before = r@;
        let lead = Piece { color: None, text: owned("  ") };
        let name = Piece { color: Some(Color::Green), text: owned(counts[i].0.value()) };
        let mut tail = owned(" (");
        tail.append(crate::num::format_usize(counts[i].1).as_str());
        tail.append(")\n");
        let tail = Piece { color: None, text: tail };
        let ghost pv = seq![piece_v(&lead), piece_v(&name), piece_v(&tail)];
        r.push(lead);
        r.push(name);
        r.push(tail);
        assert(pieces_view(r@) =~= pieces_view(before) + pv);
        i = i + 1;
    }
    assert(cv.take(n as int) =~= cv);
    r
}

/// The view of a piece.
spec fn piece_v(p: &Piece) -> (Option<Color>, Seq<char>) {
    (p.color, p.text@)
}

/// The reserved tags a summary counts, in order, each with its name and
/// what it marks.
pub open spec fn system_tag_rows() -> Seq<(SystemTag, Seq<char>, Seq<char>)> {
    seq![
        (SystemTag::Snippet, "Snippet"@, "Code snippets that are copied to clipboard"@),
        (SystemTag::Text, "Text"@, "Imported text documents"@),
        (SystemTag::Shell, "Shell"@, "Shell scripts that are executed"@),
        (SystemTag::Markdown, "Markdown"@, "Markdown documents that are rendered as HTML"@),
        (SystemTag::Env, "Environment"@, "Environment variables for shell sourcing"@),
    ]
}

/// A reserved tag with its name, what it marks and how many bookmarks
/// carry it.
#[derive(Debug)]
pub struct SystemTagStat {
    pub tag: SystemTag,
    pub name: &'static str,
    pub description: &'static str,
    pub count: usize,
}

/// How many of `bookmarks` carry `tag`.
fn count_carrying(bookmarks: &[Bookmark], tag: &Tag) -> (r: usize)
    ensures
        r == count_with(bookmark_views(bookmarks@), tag@),
{
    let ghost bv = bookmark_views(bookmarks@);
    let n = bookmarks.len();
    let mut c: usize = 0;
    let mut i: usize = 0;
    assert(bv.take(0) =~= Seq::<crate::bookmark::BookmarkView>::empty());
    while i < n
        invariant
            i <= n,
            n == bookmarks@.len(),
            bv == bookmark_views(bookmarks@),
            c == count_with(bv.take(i as int), tag@),
            c <= i,
        decreases n - i,
    {
        assert(bv.take(i as int + 1).drop_last() =~= bv.take(i as int));
        assert(bv.take(i as int + 1).last() == bookmarks@[i as int]@);
        if bookmarks[i].has_tag(tag) {
            c = c + 1;
        }
        i = i + 1;
    }
    assert(bv.take(n as int) =~= bv);
    c
}

/// One row of the summary of reserved tags.
fn stat_row(bookmarks: &[Bookmark], tag: SystemTag, name: &'static str, description: &'static str) -> (r: SystemTagStat)
    requires
        tag !is Uri,
    ensures
        r.tag == tag,
        r.name@ == name@,
        r.description@ == description@,
        r.count == count_with(bookmark_views(bookmarks@), system_tag_text(tag)),
{
    let t = tag.to_tag();
    SystemTagStat { tag, name, description, count: count_carrying(bookmarks, &t) }
}

/// For each reserved tag, in the order of `system_tag_rows`, its name,
/// what it marks and how many of `bookmarks` carry it.
pub fn system_tag_stats(bookmarks: &[Bookmark]) -> (r: Vec<SystemTagStat>)
    ensures
        r@.len() == system_tag_rows().len(),
        forall|i: int|
            0 <= i < r@.len() ==> (#[trigger] r@[i]).tag == system_tag_rows()[i].0 && r@[i].name@
                == system_tag_rows()[i].1 && r@[i].description@ == system_tag_rows()[i].2 && r@[i].count
                == count_with(bookmark_views(bookmarks@), system_tag_text(system_tag_rows()[i].0)),
{
    let mut r: Vec<SystemTagStat> = Vec::new();
    r.push(stat_row(bookmarks, SystemTag::Snippet, "Snippet", "Code snippets that are copied to clipboard"));
    r.push(stat_row(bookmarks, SystemTag::Text, "Text", "Imported text documents"));
    r.push(stat_row(bookmarks, SystemTag::Shell, "Shell", "Shell scripts that are executed"));
    r.push(
        stat_row(bookmarks, SystemTag::Markdown, "Markdown", "Markdown documents that are rendered as HTML"),
    );
    r.push(stat_row(bookmarks, SystemTag::Env, "Environment", "Environment variables for shell sourcing"));
    r
}

} // verus!
