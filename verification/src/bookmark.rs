//! Bookmarks: the stored items (URLs, snippets, scripts, documents), their
//! tags and access counts.
use vstd::prelude::*;
use crate::error::DomainError;
use crate::tag::{contains_tag, tag_views, valid_tag, Tag};
use crate::text::{chars_of, owned, trim, trim_chars};

verus! {

/// A stored item: a URL or a piece of content, with its metadata.
#[derive(Debug)]
pub struct Bookmark {
    pub id: Option<i32>,
    pub url: String,
    pub title: String,
    pub description: String,
    pub tags: Vec<Tag>,
    pub access_count: i32,
    pub embeddable: bool,
    pub embedding: Option<Vec<u8>>,
    pub content_hash: Option<Vec<u8>>,
    pub file_path: Option<String>,
    pub file_mtime: Option<i32>,
    pub file_hash: Option<String>,
    pub created_at: Option<i64>,
    pub updated_at: i64,
}

/// Where a bookmark imported from a file came from: the file's path, its
/// modification time and its hash.
pub type FileOrigin = (Option<Seq<char>>, Option<i32>, Option<Seq<char>>);

/// When a bookmark was created (if known) and last updated, in seconds
/// since the Unix epoch.
pub type Times = (Option<i64>, i64);

/// A bookmark seen as its id, URL, title, description, tag texts, access
/// count, embeddable flag, embedding, content hash, file origin and times.
pub type BookmarkView = (
    Option<i32>,
    Seq<char>,
    Seq<char>,
    Seq<char>,
    Seq<Seq<char>>,
    i32,
    bool,
    Option<Seq<u8>>,
    Option<Seq<u8>>,
    FileOrigin,
    Times,
);

/// The view of an optional text.
pub open spec fn text_view(o: Option<String>) -> Option<Seq<char>> {
    match o {
        Some(s) => Some(s@),
        None => None,
    }
}

/// The file origin of a bookmark that was not imported from a file.
pub open spec fn no_origin() -> FileOrigin {
    (None, None, None)
}

/// The view of optional bytes.
pub open spec fn bytes_view(o: Option<Vec<u8>>) -> Option<Seq<u8>> {
    match o {
        Some(v) => Some(v@),
        None => None,
    }
}

impl View for Bookmark {
    type V = BookmarkView;

    open spec fn view(&self) -> BookmarkView {
        (
            self.id,
            self.url@,
            self.title@,
            self.description@,
            tag_views(self.tags@),
            self.access_count,
            self.embeddable,
            bytes_view(self.embedding),
            bytes_view(self.content_hash),
            (text_view(self.file_path), self.file_mtime, text_view(self.file_hash)),
            (self.created_at, self.updated_at),
        )
    }
}

/// A copy of `v`.
pub fn copy_bytes(v: &Vec<u8>) -> (r: Vec<u8>)
    ensures
        r@ == v@,
{
    let mut r: Vec<u8> = Vec::new();
    let n = v.len();
    let mut i: usize = 0;
    while i < n
        invariant
            i <= n,
            n == v@.len(),
            r@ == v@.take(i as int),
        decreases n - i,
    {
        r.push(v[i]);
        i = i + 1;
        assert(r@ =~= v@.take(i as int));
    }
    assert(v@.take(n as int) =~= v@);
    r
}

fn copy_opt_bytes(o: &Option<Vec<u8>>) -> (r: Option<Vec<u8>>)
    ensures
        bytes_view(r) == bytes_view(*o),
{
    match o {
        Some(v) => Some(copy_bytes(v)),
        None => None,
    }
}

fn copy_opt_text(o: &Option<String>) -> (r: Option<String>)
    ensures
        text_view(r) == text_view(*o),
{
    match o {
        Some(v) => Some(v.clone()),
        None => None,
    }
}

/// A copy of the tags `ts`.
pub fn copy_tags(ts: &Vec<Tag>) -> (r: Vec<Tag>)
    ensures
        tag_views(r@) == tag_views(ts@),
{
    let mut r: Vec<Tag> = Vec::new();
    let n = ts.len();
    let mut i: usize = 0;
    while i < n
        invariant
            i <= n,
            n == ts@.len(),
            tag_views(r@) == tag_views(ts@).take(i as int),
        decreases n - i,
    {
        let t = ts[i].clone();
        let ghost before = r@;
        assert(tag_views(before).len() == before.len());
        r.push(t);
        assert(tag_views(r@) =~= tag_views(ts@).take(i as int + 1)) by {
            assert forall|k: int| 0 <= k < i + 1 implies #[trigger] tag_views(r@)[k] == tag_views(
                ts@,
            ).take(i as int + 1)[k] by {
                if k < i {
                    assert(r@[k] == before[k]);
                    assert(tag_views(before)[k] == before[k]@);
                }
            }
        }
        i = i + 1;
    }
    assert(tag_views(ts@).take(n as int) =~= tag_views(ts@));
    r
}

impl Clone for Bookmark {
    fn clone(&self) -> (r: Self)
        ensures
            r@ == self@,
    {
        Bookmark {
            id: self.id,
            url: self.url.clone(),
            title: self.title.clone(),
            description: self.description.clone(),
            tags: copy_tags(&self.tags),
            access_count: self.access_count,
            embeddable: self.embeddable,
            embedding: copy_opt_bytes(&self.embedding),
            content_hash: copy_opt_bytes(&self.content_hash),
            file_path: copy_opt_text(&self.file_path),
            file_mtime: self.file_mtime,
            file_hash: copy_opt_text(&self.file_hash),
            created_at: self.created_at,
            updated_at: self.updated_at,
        }
    }
}

/// `ts` with every text of `extra` added that it lacks, in order.
pub open spec fn union_tags(ts: Seq<Seq<char>>, extra: Seq<Seq<char>>) -> Seq<Seq<char>>
    decreases extra.len(),
{
    if extra.len() == 0 {
        ts
    } else {
        let r = union_tags(ts, extra.drop_last());
        if r.contains(extra.last()) {
            r
        } else {
            r.push(extra.last())
        }
    }
}

/// `ts` without the texts of `gone`.
pub open spec fn minus_tags(ts: Seq<Seq<char>>, gone: Seq<Seq<char>>) -> Seq<Seq<char>> {
    ts.filter(|t: Seq<char>| !gone.contains(t))
}

/// A tag text is among the tags after adding `extra` exactly when it was
/// among them before or is among `extra`.
pub proof fn lemma_union_tags_contains(ts: Seq<Seq<char>>, extra: Seq<Seq<char>>, x: Seq<char>)
    ensures
        union_tags(ts, extra).contains(x) <==> ts.contains(x) || extra.contains(x),
    decreases extra.len(),
{
    if extra.len() > 0 {
        let prev = union_tags(ts, extra.drop_last());
        lemma_union_tags_contains(ts, extra.drop_last(), x);
        if extra.drop_last().contains(x) {
            let k = choose|k: int| 0 <= k < extra.drop_last().len() && extra.drop_last()[k] == x;
            assert(extra[k] == x);
        }
        if extra.contains(x) && !extra.drop_last().contains(x) {
            let k = choose|k: int| 0 <= k < extra.len() && extra[k] == x;
            if k < extra.len() - 1 {
                assert(extra.drop_last()[k] == x);
            }
            assert(x == extra.last());
        }
        if !prev.contains(extra.last()) {
            assert(prev.push(extra.last())[prev.len() as int] == extra.last());
            if prev.contains(x) {
                let k = choose|k: int| 0 <= k < prev.len() && prev[k] == x;
                assert(prev.push(extra.last())[k] == x);
            }
            if prev.push(extra.last()).contains(x) && x != extra.last() {
                let k = choose|k: int| 0 <= k < prev.len() + 1 && prev.push(extra.last())[k] == x;
                assert(prev[k] == x);
            }
        }
    }
}

/// Adding tags to distinct tags leaves them distinct.
pub proof fn lemma_union_tags_distinct(ts: Seq<Seq<char>>, extra: Seq<Seq<char>>)
    requires
        ts.no_duplicates(),
    ensures
        union_tags(ts, extra).no_duplicates(),
    decreases extra.len(),
{
    if extra.len() > 0 {
        let prev = union_tags(ts, extra.drop_last());
        lemma_union_tags_distinct(ts, extra.drop_last());
        if !prev.contains(extra.last()) {
            let t = prev.push(extra.last());
            assert forall|i: int, j: int| 0 <= i < t.len() && 0 <= j < t.len() && i != j implies t[i]
                != t[j] by {
                if i == prev.len() {
                    assert(t[j] == prev[j]);
                } else if j == prev.len() {
                    assert(t[i] == prev[i]);
                } else {
                    assert(t[i] == prev[i] && t[j] == prev[j]);
                }
            }
        }
    }
}

/// A tag text is among the tags after removing `gone` exactly when it was
/// among them before and is not among `gone`.
pub proof fn lemma_minus_tags_contains(ts: Seq<Seq<char>>, gone: Seq<Seq<char>>, x: Seq<char>)
    ensures
        minus_tags(ts, gone).contains(x) <==> ts.contains(x) && !gone.contains(x),
{
    let p = |t: Seq<char>| !gone.contains(t);
    if ts.contains(x) && !gone.contains(x) {
        let k = choose|k: int| 0 <= k < ts.len() && ts[k] == x;
        ts.lemma_filter_contains(p, k);
    }
    if minus_tags(ts, gone).contains(x) {
        ts.lemma_filter_contains_rev(p, x);
        let i = choose|i: int| 0 <= i < ts.filter(p).len() && ts.filter(p)[i] == x;
        ts.lemma_filter_pred(p, i);
    }
}

/// Removing tags from distinct tags leaves them distinct.
pub proof fn lemma_minus_tags_distinct(ts: Seq<Seq<char>>, gone: Seq<Seq<char>>)
    requires
        ts.no_duplicates(),
    ensures
        minus_tags(ts, gone).no_duplicates(),
    decreases ts.len(),
{
    if ts.len() > 0 {
        reveal_with_fuel(Seq::filter, 1);
        let init = ts.drop_last();
        assert forall|i: int, j: int| 0 <= i < init.len() && 0 <= j < init.len() && i != j implies init[i]
            != init[j] by {
            assert(init[i] == ts[i] && init[j] == ts[j]);
        }
        lemma_minus_tags_distinct(init, gone);
        let prev = minus_tags(init, gone);
        if !gone.contains(ts.last()) {
            lemma_minus_tags_contains(init, gone, ts.last());
            if init.contains(ts.last()) {
                let k = choose|k: int| 0 <= k < init.len() && init[k] == ts.last();
                assert(ts[k] == ts[ts.len() - 1]);
            }
            let t = prev.push(ts.last());
            assert forall|i: int, j: int| 0 <= i < t.len() && 0 <= j < t.len() && i != j implies t[i]
                != t[j] by {
                if i == prev.len() {
                    assert(t[j] == prev[j]);
                } else if j == prev.len() {
                    assert(t[i] == prev[i]);
                } else {
                    assert(t[i] == prev[i] && t[j] == prev[j]);
                }
            }
        }
    }
}

impl Bookmark {
    /// Whether the bookmark is well formed: no tag text occurs twice. The
    /// constructor makes well-formed bookmarks and every tag operation
    /// keeps them so.
    pub open spec fn wf(&self) -> bool {
        tag_views(self.tags@).no_duplicates()
    }

    /// A new bookmark without id: the URL must not be blank, the title and
    /// description are kept as given, and repeated tags are kept once.
    pub fn new(url: &str, title: &str, description: &str, tags: Vec<Tag>) -> (r: Result<
        Bookmark,
        DomainError,
    >)
        ensures
            r is Ok <==> trim(url@).len() > 0,
            r matches Ok(b) ==> b.id is None && b.url@ == url@ && b.title@ == title@
                && b.description@ == description@ && tag_views(b.tags@) == union_tags(
                Seq::empty(),
                tag_views(tags@),
            ) && b.access_count == 0 && !b.embeddable && b.embedding is None
                && b.content_hash is None && b@.9 == no_origin() && b@.10 == (None::<i64>, 0i64),
            r matches Err(e) ==> e is InvalidUrl,
            r matches Ok(b) ==> b.wf(),
    {
        let u = chars_of(url);
        let t = trim_chars(u.as_slice());
        if t.len() == 0 {
            return Err(DomainError::InvalidUrl(owned("URL cannot be empty")));
        }
        let mut b = Bookmark {
            id: None,
            url: owned(url),
            title: owned(title),
            description: owned(description),
            tags: Vec::new(),
            access_count: 0,
            embeddable: false,
            embedding: None,
            content_hash: None,
            file_path: None,
            file_mtime: None,
            file_hash: None,
            created_at: None,
            updated_at: 0,
        };
        assert(tag_views(b.tags@) =~= Seq::<Seq<char>>::empty());
        b.add_tags(&tags);
        proof {
            lemma_union_tags_distinct(Seq::empty(), tag_views(tags@));
        }
        Ok(b)
    }

    /// The id, if the bookmark is stored.
    pub fn id(&self) -> (r: Option<i32>)
        ensures
            r == self.id,
    {
        self.id
    }

    /// The URL or content.
    pub fn url(&self) -> (r: &str)
        ensures
            r@ == self.url@,
    {
        self.url.as_str()
    }

    /// The title.
    pub fn title(&self) -> (r: &str)
        ensures
            r@ == self.title@,
    {
        self.title.as_str()
    }

    /// The description.
    pub fn description(&self) -> (r: &str)
        ensures
            r@ == self.description@,
    {
        self.description.as_str()
    }

    /// The tags.
    pub fn tags(&self) -> (r: &Vec<Tag>)
        ensures
            r == &self.tags,
    {
        &self.tags
    }

    /// How often the bookmark was accessed.
    pub fn access_count(&self) -> (r: i32)
        ensures
            r == self.access_count,
    {
        self.access_count
    }

    /// Whether the bookmark carries a tag with the text of `tag`.
    pub fn has_tag(&self, tag: &Tag) -> (r: bool)
        ensures
            r == tag_views(self.tags@).contains(tag@),
    {
        contains_tag(&self.tags, tag)
    }

    /// Adds `tag` unless the bookmark already carries it.
    pub fn add_tag(&mut self, tag: Tag) -> (r: Result<(), DomainError>)
        ensures
            r is Ok,
            tag_views(final(self).tags@) == union_tags(tag_views(old(self).tags@), seq![tag@]),
            final(self).id == old(self).id,
            final(self).url == old(self).url,
            final(self).title == old(self).title,
            final(self).description == old(self).description,
            final(self).access_count == old(self).access_count,
            final(self).embeddable == old(self).embeddable,
            final(self).embedding == old(self).embedding,
            final(self).content_hash == old(self).content_hash,
            final(self).file_path == old(self).file_path,
            final(self).file_mtime == old(self).file_mtime,
            final(self).file_hash == old(self).file_hash,
            final(self).created_at == old(self).created_at,
            final(self).updated_at == old(self).updated_at,
            old(self).wf() ==> final(self).wf(),
    {
        let ghost wf_before = tag_views(self.tags@);
        let ghost old_views = tag_views(self.tags@);
        assert(seq![tag@].drop_last() =~= Seq::<Seq<char>>::empty());
        assert(union_tags(old_views, seq![tag@].drop_last()) == old_views);
        assert(seq![tag@].last() == tag@);
        if !contains_tag(&self.tags, &tag) {
            self.tags.push(tag);
            assert(tag_views(self.tags@) =~= old_views.push(tag@));
        }
        proof {
            if wf_before.no_duplicates() {
                lemma_union_tags_distinct(wf_before, seq![tag@]);
            }
        }
        Ok(())
    }

    /// Adds every tag of `tags` that the bookmark lacks, in order.
    pub fn add_tags(&mut self, tags: &Vec<Tag>)
        ensures
            tag_views(final(self).tags@) == union_tags(tag_views(old(self).tags@), tag_views(tags@)),
            final(self).id == old(self).id,
            final(self).url == old(self).url,
            final(self).title == old(self).title,
            final(self).description == old(self).description,
            final(self).access_count == old(self).access_count,
            final(self).embeddable == old(self).embeddable,
            final(self).embedding == old(self).embedding,
            final(self).content_hash == old(self).content_hash,
            final(self).file_path == old(self).file_path,
            final(self).file_mtime == old(self).file_mtime,
            final(self).file_hash == old(self).file_hash,
            final(self).created_at == old(self).created_at,
            final(self).updated_at == old(self).updated_at,
            old(self).wf() ==> final(self).wf(),
    {
        let ghost wf_before = tag_views(self.tags@);
        let ghost start = tag_views(self.tags@);
        let n = tags.len();
        let mut i: usize = 0;
        assert(tag_views(tags@).take(0) =~= Seq::<Seq<char>>::empty());
        while i < n
            invariant
                i <= n,
                n == tags@.len(),
                tag_views(self.tags@) == union_tags(start, tag_views(tags@).take(i as int)),
                self.id == old(self).id,
                self.url == old(self).url,
                self.title == old(self).title,
                self.description == old(self).description,
                self.access_count == old(self).access_count,
                self.embeddable == old(self).embeddable,
                self.embedding == old(self).embedding,
                self.content_hash == old(self).content_hash,
                self.file_path == old(self).file_path,
                self.file_mtime == old(self).file_mtime,
                self.file_hash == old(self).file_hash,
                self.created_at == old(self).created_at,
                self.updated_at == old(self).updated_at,
            decreases n - i,
        {
            assert(tag_views(tags@).take(i as int + 1).drop_last() =~= tag_views(tags@).take(
                i as int,
            ));
            assert(tag_views(tags@).take(i as int + 1).last() == tags@[i as int]@);
            let t = tags[i].clone();
            let ghost before = tag_views(self.tags@);
            if !contains_tag(&self.tags, &t) {
                self.tags.push(t);
                assert(tag_views(self.tags@) =~= before.push(tags@[i as int]@));
            }
            i = i + 1;
        }
        assert(tag_views(tags@).take(n as int) =~= tag_views(tags@));
        proof {
            if wf_before.no_duplicates() {
                lemma_union_tags_distinct(wf_before, tag_views(tags@));
            }
        }
    }

    /// Removes `tag`; refused when the bookmark does not carry it.
    pub fn remove_tag(&mut self, tag: &Tag) -> (r: Result<(), DomainError>)
        ensures
            r is Ok <==> tag_views(old(self).tags@).contains(tag@),
            r is Ok ==> tag_views(final(self).tags@) == minus_tags(
                tag_views(old(self).tags@),
                seq![tag@],
            ),
            r is Err ==> final(self)@ == old(self)@,
            r matches Err(e) ==> e is TagOperationFailed,
            final(self).id == old(self).id,
            final(self).url == old(self).url,
            final(self).title == old(self).title,
            final(self).description == old(self).description,
            final(self).access_count == old(self).access_count,
            final(self).embeddable == old(self).embeddable,
            final(self).embedding == old(self).embedding,
            final(self).content_hash == old(self).content_hash,
            final(self).file_path == old(self).file_path,
            final(self).file_mtime == old(self).file_mtime,
            final(self).file_hash == old(self).file_hash,
            final(self).created_at == old(self).created_at,
            final(self).updated_at == old(self).updated_at,
            old(self).wf() ==> final(self).wf(),
    {
        let ghost wf_before = tag_views(self.tags@);
        if !contains_tag(&self.tags, tag) {
            return Err(DomainError::TagOperationFailed(owned("Tag not found on bookmark")));
        }
        let mut kept: Vec<Tag> = Vec::new();
        let n = self.tags.len();
        let mut i: usize = 0;
        let ghost pred = |t: Seq<char>| !seq![tag@].contains(t);
        let ghost orig = tag_views(self.tags@);
        assert(orig.take(0) =~= Seq::<Seq<char>>::empty());
        while i < n
            invariant
                i <= n,
                n == self.tags@.len(),
                orig == tag_views(self.tags@),
                pred == (|t: Seq<char>| !seq![tag@].contains(t)),
                tag_views(kept@) == orig.take(i as int).filter(pred),
            decreases n - i,
        {
            assert(orig.take(i as int + 1).drop_last() =~= orig.take(i as int));
            assert(orig.take(i as int + 1).last() == self.tags@[i as int]@);
            reveal_with_fuel(Seq::filter, 1);
            let keep = !self.tags[i].same_text(tag);
            let ghost before = tag_views(kept@);
            proof {
                assert(keep == (self.tags@[i as int]@ != tag@));
                assert(seq![tag@].contains(self.tags@[i as int]@) == (self.tags@[i as int]@ == tag@))
                    by {
                    if seq![tag@].contains(self.tags@[i as int]@) {
                        let k = choose|k: int| 0 <= k < 1 && seq![tag@][k] == self.tags@[i as int]@;
                    }
                    if self.tags@[i as int]@ == tag@ {
                        assert(seq![tag@][0] == tag@);
                    }
                }
            }
            if keep {
                let t = self.tags[i].clone();
                kept.push(t);
                assert(tag_views(kept@) =~= before.push(orig[i as int]));
            }
            i = i + 1;
        }
        assert(orig.take(n as int) =~= orig);
        self.tags = kept;
        proof {
            if wf_before.no_duplicates() {
                lemma_minus_tags_distinct(wf_before, seq![tag@]);
            }
        }
        Ok(())
    }

    /// Removes every tag whose text is among the texts of `tags`.
    pub fn remove_tags(&mut self, tags: &Vec<Tag>)
        ensures
            tag_views(final(self).tags@) == minus_tags(tag_views(old(self).tags@), tag_views(tags@)),
            final(self).id == old(self).id,
            final(self).url == old(self).url,
            final(self).title == old(self).title,
            final(self).description == old(self).description,
            final(self).access_count == old(self).access_count,
            final(self).embeddable == old(self).embeddable,
            final(self).embedding == old(self).embedding,
            final(self).content_hash == old(self).content_hash,
            final(self).file_path == old(self).file_path,
            final(self).file_mtime == old(self).file_mtime,
            final(self).file_hash == old(self).file_hash,
            final(self).created_at == old(self).created_at,
            final(self).updated_at == old(self).updated_at,
            old(self).wf() ==> final(self).wf(),
    {
        let ghost wf_before = tag_views(self.tags@);
        let mut kept: Vec<Tag> = Vec::new();
        let n = self.tags.len();
        let mut i: usize = 0;
        let ghost gone = tag_views(tags@);
        let ghost pred = |t: Seq<char>| !gone.contains(t);
        let ghost orig = tag_views(self.tags@);
        assert(orig.take(0) =~= Seq::<Seq<char>>::empty());
        while i < n
            invariant
                i <= n,
                n == self.tags@.len(),
                orig == tag_views(self.tags@),
                gone == tag_views(tags@),
                pred == (|t: Seq<char>| !gone.contains(t)),
                tag_views(kept@) == orig.take(i as int).filter(pred),
            decreases n - i,
        {
            assert(orig.take(i as int + 1).drop_last() =~= orig.take(i as int));
            assert(orig.take(i as int + 1).last() == self.tags@[i as int]@);
            reveal_with_fuel(Seq::filter, 1);
            let keep = !contains_tag(tags, &self.tags[i]);
            let ghost before = tag_views(kept@);
            if keep {
                let t = self.tags[i].clone();
                kept.push(t);
                assert(tag_views(kept@) =~= before.push(orig[i as int]));
            }
            i = i + 1;
        }
        assert(orig.take(n as int) =~= orig);
        self.tags = kept;
        proof {
            if wf_before.no_duplicates() {
                lemma_minus_tags_distinct(wf_before, tag_views(tags@));
            }
        }
    }

    /// Replaces the tags by `tags`, each kept once.
    pub fn set_tags(&mut self, tags: &Vec<Tag>) -> (r: Result<(), DomainError>)
        ensures
            r is Ok,
            tag_views(final(self).tags@) == union_tags(Seq::empty(), tag_views(tags@)),
            final(self).wf(),
            final(self).id == old(self).id,
            final(self).url == old(self).url,
            final(self).title == old(self).title,
            final(self).description == old(self).description,
            final(self).access_count == old(self).access_count,
            final(self).embeddable == old(self).embeddable,
            final(self).embedding == old(self).embedding,
            final(self).content_hash == old(self).content_hash,
            final(self).file_path == old(self).file_path,
            final(self).file_mtime == old(self).file_mtime,
            final(self).file_hash == old(self).file_hash,
            final(self).created_at == old(self).created_at,
            final(self).updated_at == old(self).updated_at,
    {
        self.tags = Vec::new();
        assert(tag_views(self.tags@) =~= Seq::<Seq<char>>::empty());
        self.add_tags(tags);
        proof {
            lemma_union_tags_distinct(Seq::empty(), tag_views(tags@));
        }
        Ok(())
    }

    /// Counts one more access made at the time `now`, which becomes the
    /// time of the last update.
    pub fn record_access(&mut self, now: i64)
        requires
            old(self).access_count < i32::MAX,
        ensures
            final(self).access_count == old(self).access_count + 1,
            final(self).id == old(self).id,
            final(self).url == old(self).url,
            final(self).title == old(self).title,
            final(self).description == old(self).description,
            final(self).tags == old(self).tags,
            final(self).embeddable == old(self).embeddable,
            final(self).embedding == old(self).embedding,
            final(self).content_hash == old(self).content_hash,
            final(self).file_path == old(self).file_path,
            final(self).file_mtime == old(self).file_mtime,
            final(self).file_hash == old(self).file_hash,
            final(self).created_at == old(self).created_at,
            final(self).updated_at == now,
    {
        self.access_count = self.access_count + 1;
        self.updated_at = now;
    }

    /// Marks the bookmark as created, and last updated, at the time `now`.
    pub fn stamp_created(&mut self, now: i64)
        ensures
            final(self)@ == (
                old(self)@.0,
                old(self)@.1,
                old(self)@.2,
                old(self)@.3,
                old(self)@.4,
                old(self)@.5,
                old(self)@.6,
                old(self)@.7,
                old(self)@.8,
                old(self)@.9,
                (Some(now), now),
            ),
            final(self).tags == old(self).tags,
    {
        self.created_at = Some(now);
        self.updated_at = now;
    }

    /// Sets whether the bookmark takes part in semantic search.
    pub fn set_embeddable(&mut self, embeddable: bool)
        ensures
            final(self).embeddable == embeddable,
            final(self).id == old(self).id,
            final(self).url == old(self).url,
            final(self).title == old(self).title,
            final(self).description == old(self).description,
            final(self).tags == old(self).tags,
            final(self).access_count == old(self).access_count,
            final(self).embedding == old(self).embedding,
            final(self).content_hash == old(self).content_hash,
            final(self).file_path == old(self).file_path,
            final(self).file_mtime == old(self).file_mtime,
            final(self).file_hash == old(self).file_hash,
            final(self).created_at == old(self).created_at,
            final(self).updated_at == old(self).updated_at,
    {
        self.embeddable = embeddable;
    }
}

} // verus!
