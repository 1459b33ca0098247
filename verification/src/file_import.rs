//! Importing files as bookmarks: what a scanned file holds, when it adds a
//! bookmark, renews a stored one or leaves it alone, and what a whole
//! import run does to the store.
//!
//! Reading the files and their front matter, resolving base paths and
//! asking the file system which stored files are gone is done by the
//! caller; the library decides what is stored.
use vstd::prelude::*;
use crate::bookmark::{bytes_view, union_tags, Bookmark, BookmarkView};
use crate::repository::with_id;
use crate::tag::{contains_tag, tag_views, Tag};
use crate::text::{chars_eq, chars_of};

verus! {

/// A file found by an import scan: its name (the bookmark's title), its
/// content (stored in the URL column), its tags, its content type
/// (`_shell_` or `_md_`), the path under which it is stored, its
/// modification time and its hash.
pub struct FileImportData {
    pub name: String,
    pub content: String,
    pub tags: Vec<Tag>,
    pub content_type: String,
    pub file_path: String,
    pub file_mtime: i32,
    pub file_hash: String,
}

/// A scanned file seen as its name, content, tag texts, content type, path,
/// modification time and hash.
pub type FileImportView = (Seq<char>, Seq<char>, Seq<Seq<char>>, Seq<char>, Seq<char>, i32, Seq<char>);

impl View for FileImportData {
    type V = FileImportView;

    open spec fn view(&self) -> FileImportView {
        (
            self.name@,
            self.content@,
            tag_views(self.tags@),
            self.content_type@,
            self.file_path@,
            self.file_mtime,
            self.file_hash@,
        )
    }
}

/// The views of scanned files.
pub open spec fn file_views(fs: Seq<FileImportData>) -> Seq<FileImportView> {
    Seq::new(fs.len(), |i: int| fs[i]@)
}

/// The views of byte strings.
pub open spec fn byte_views(bs: Seq<Vec<u8>>) -> Seq<Seq<u8>> {
    Seq::new(bs.len(), |i: int| bs[i]@)
}

/// The views of optional byte strings.
pub open spec fn opt_byte_views(bs: Seq<Option<Vec<u8>>>) -> Seq<Option<Seq<u8>>> {
    Seq::new(bs.len(), |i: int| bytes_view(bs[i]))
}

/// The views of texts.
pub open spec fn path_views(ps: Seq<String>) -> Seq<Seq<char>> {
    Seq::new(ps.len(), |i: int| ps[i]@)
}

/// Whether a tag text is a system tag: it starts and ends with `_`.
pub open spec fn is_system_text(t: Seq<char>) -> bool {
    t.len() > 0 && t[0] == '_' && t.last() == '_'
}

/// The system tag of a content type: `_md_` for markdown, `_shell_` for
/// every other type.
pub open spec fn content_system_tag(ct: Seq<char>) -> Seq<char> {
    if ct == "_md_"@ {
        "_md_"@
    } else {
        "_shell_"@
    }
}

/// Whether the stored content differs from the file: the bookmark's file
/// hash is not the file's hash.
pub open spec fn file_content_changed(b: BookmarkView, f: FileImportView) -> bool {
    b.9.2 != Some(f.6)
}

/// Whether two tag lists hold the same user tags (tags that are not system
/// tags), as sets.
pub open spec fn same_user_tags(a: Seq<Seq<char>>, b: Seq<Seq<char>>) -> bool {
    forall|t: Seq<char>| !is_system_text(t) ==> (a.contains(t) <==> b.contains(t))
}

/// Whether the metadata of a stored bookmark differs from the file's: its
/// title is not the file's name, its user tags are not the file's, or it is
/// not marked with the file's content type (a shell script carries
/// `_shell_`, a markdown file `_md_`).
pub open spec fn file_metadata_changed(b: BookmarkView, f: FileImportView) -> bool {
    ||| b.2 != f.0
    ||| !same_user_tags(b.4, f.2)
    ||| b.4.contains("_shell_"@) != (f.3 == "_shell_"@)
    ||| b.4.contains("_md_"@) != (f.3 == "_md_"@)
}

/// The bookmark a new file makes, before it is stored: the content as URL,
/// the name as title, no description, the file's tags and the system tag of
/// its content type, embeddable, with the embedding and content hash given,
/// the file as origin, and created and updated at `now`.
pub open spec fn created_view(f: FileImportView, hash: Seq<u8>, emb: Option<Seq<u8>>, now: i64) -> BookmarkView {
    (
        None,
        f.1,
        f.0,
        Seq::empty(),
        union_tags(union_tags(Seq::empty(), f.2), seq![content_system_tag(f.3)]),
        0,
        true,
        emb,
        Some(hash),
        (Some(f.4), Some(f.5), Some(f.6)),
        (Some(now), now),
    )
}

/// A stored bookmark renewed from its file: the file's content and name,
/// the file's tags with the bookmark's system tags kept, the content hash
/// given, the file as origin, and, when it is embeddable, the embedding
/// given; id, description, access count and embeddable flag stay.
pub open spec fn renewed_from_file(
    b: BookmarkView,
    f: FileImportView,
    hash: Seq<u8>,
    emb: Option<Seq<u8>>,
) -> BookmarkView {
    (
        b.0,
        f.1,
        f.0,
        b.3,
        union_tags(union_tags(Seq::empty(), f.2), b.4.filter(|t: Seq<char>| is_system_text(t))),
        b.5,
        b.6,
        if b.6 {
            emb
        } else {
            b.7
        },
        Some(hash),
        (Some(f.4), Some(f.5), Some(f.6)),
        b.10,
    )
}

/// Whether `s` holds a bookmark titled `name`.
pub open spec fn has_title(s: Seq<BookmarkView>, name: Seq<char>) -> bool {
    exists|k: int| 0 <= k < s.len() && (#[trigger] s[k]).2 == name
}

/// Whether `k` is the index of the first bookmark of `s` titled `name`.
pub open spec fn first_title_at(s: Seq<BookmarkView>, name: Seq<char>, k: int) -> bool {
    &&& 0 <= k < s.len()
    &&& s[k].2 == name
    &&& forall|j: int| 0 <= j < k ==> (#[trigger] s[j]).2 != name
}

/// The index of the first bookmark of `s` titled `name`.
pub open spec fn first_title(s: Seq<BookmarkView>, name: Seq<char>) -> int {
    choose|k: int| first_title_at(s, name, k)
}

/// The first bookmark with a title is at one index only.
pub proof fn lemma_first_title_unique(s: Seq<BookmarkView>, name: Seq<char>, k: int)
    requires
        first_title_at(s, name, k),
    ensures
        first_title(s, name) == k,
        has_title(s, name),
{
    assert(s[k].2 == name);
    let c = first_title(s, name);
    assert(first_title_at(s, name, c));
    if c < k {
        assert(s[c].2 != name);
    } else if c > k {
        assert(s[k].2 != name);
    }
}

/// An import run part way: the store's bookmarks, the next id, how many
/// files added and renewed a bookmark, and the index of the file that
/// stopped the run, if one did.
pub type ImportRun = (Seq<BookmarkView>, int, nat, nat, Option<int>);

/// What the file `f` (the `k`-th, with its content hash and embedding)
/// does to a run. A file whose name is stored renews the first bookmark
/// with that title when its content or metadata changed, and stops the run
/// unless updates were asked for. Any other file adds a bookmark, and stops
/// the run when no id is left. A dry run counts and changes nothing.
pub open spec fn import_step(
    st: ImportRun,
    f: FileImportView,
    k: int,
    hash: Seq<u8>,
    emb: Option<Seq<u8>>,
    update: bool,
    dry_run: bool,
    now: i64,
) -> ImportRun {
    let s = st.0;
    if has_title(s, f.0) {
        let i = first_title(s, f.0);
        if !update {
            (s, st.1, st.2, st.3, Some(k))
        } else if !file_content_changed(s[i], f) && !file_metadata_changed(s[i], f) {
            st
        } else if dry_run {
            (s, st.1, st.2, st.3 + 1, None)
        } else {
            (s.update(i, renewed_from_file(s[i], f, hash, emb)), st.1, st.2, st.3 + 1, None)
        }
    } else if dry_run {
        (s, st.1, st.2 + 1, st.3, None)
    } else if st.1 >= i32::MAX {
        (s, st.1, st.2, st.3, Some(k))
    } else {
        (s.push(with_id(created_view(f, hash, emb, now), st.1 as i32)), st.1 + 1, st.2 + 1, st.3, None)
    }
}

/// The run of an import of `files` into a store holding `s` whose next id
/// is `next`: the files are taken in order until one stops the run.
pub open spec fn import_run(
    s: Seq<BookmarkView>,
    next: int,
    files: Seq<FileImportView>,
    hashes: Seq<Seq<u8>>,
    embs: Seq<Option<Seq<u8>>>,
    update: bool,
    dry_run: bool,
    now: i64,
) -> ImportRun
    decreases files.len(),
{
    if files.len() == 0 {
        (s, next, 0, 0, None)
    } else {
        let k = files.len() - 1;
        let prev = import_run(s, next, files.drop_last(), hashes, embs, update, dry_run, now);
        if prev.4 is Some {
            prev
        } else {
            import_step(prev, files.last(), k, hashes[k], embs[k], update, dry_run, now)
        }
    }
}

/// Whether a stored bookmark came from a file that the scan reports gone.
pub open spec fn is_orphan(b: BookmarkView, gone: Seq<Seq<char>>) -> bool {
    b.9.0 matches Some(p) && gone.contains(p)
}

/// Once a file stops an import run, the later files change nothing.
pub proof fn lemma_run_stopped(
    s: Seq<BookmarkView>,
    next: int,
    files: Seq<FileImportView>,
    hashes: Seq<Seq<u8>>,
    embs: Seq<Option<Seq<u8>>>,
    update: bool,
    dry_run: bool,
    now: i64,
    m: int,
)
    requires
        0 <= m <= files.len(),
        import_run(s, next, files.take(m), hashes, embs, update, dry_run, now).4 is Some,
    ensures
        import_run(s, next, files, hashes, embs, update, dry_run, now) == import_run(
            s,
            next,
            files.take(m),
            hashes,
            embs,
            update,
            dry_run,
            now,
        ),
    decreases files.len() - m,
{
    if m < files.len() {
        assert(files.take(m + 1).drop_last() =~= files.take(m));
        lemma_run_stopped(s, next, files, hashes, embs, update, dry_run, now, m + 1);
    } else {
        assert(files.take(m) =~= files);
    }
}

/// Whether the text `p` is among `texts`.
fn text_among(texts: &Vec<String>, p: &str) -> (r: bool)
    ensures
        r == path_views(texts@).contains(p@),
{
    let n = texts.len();
    let mut i: usize = 0;
    while i < n
        invariant
            i <= n,
            n == texts@.len(),
            forall|k: int| 0 <= k < i ==> (#[trigger] path_views(texts@)[k]) != p@,
        decreases n - i,
    {
        if text_is(texts[i].as_str(), p) {
            assert(path_views(texts@)[i as int] == p@);
            return true;
        }
        i = i + 1;
    }
    false
}

/// Whether `b` came from a file listed in `gone`.
pub fn is_orphaned(b: &Bookmark, gone: &Vec<String>) -> (r: bool)
    ensures
        r == is_orphan(b@, path_views(gone@)),
{
    match &b.file_path {
        Some(p) => text_among(gone, p.as_str()),
        None => false,
    }
}

/// Whether the text of `t` is a system tag.
pub fn is_system_tag(t: &Tag) -> (r: bool)
    ensures
        r == is_system_text(t@),
{
    let v = chars_of(t.value());
    let n = v.len();
    n > 0 && v[0] == '_' && v[n - 1] == '_'
}

/// Whether every user tag of `a` is among `b`.
fn user_tags_within(a: &Vec<Tag>, b: &Vec<Tag>) -> (r: bool)
    ensures
        r == forall|i: int|
            0 <= i < a@.len() && !is_system_text(#[trigger] tag_views(a@)[i]) ==> tag_views(
                b@,
            ).contains(tag_views(a@)[i]),
{
    let n = a.len();
    let mut i: usize = 0;
    while i < n
        invariant
            i <= n,
            n == a@.len(),
            forall|k: int|
                0 <= k < i && !is_system_text(#[trigger] tag_views(a@)[k]) ==> tag_views(
                    b@,
                ).contains(tag_views(a@)[k]),
        decreases n - i,
    {
        assert(tag_views(a@)[i as int] == a@[i as int]@);
        if !is_system_tag(&a[i]) && !contains_tag(b, &a[i]) {
            return false;
        }
        i = i + 1;
    }
    true
}

/// Whether `a` and `b` hold the same user tags.
pub fn user_tags_agree(a: &Vec<Tag>, b: &Vec<Tag>) -> (r: bool)
    ensures
        r == same_user_tags(tag_views(a@), tag_views(b@)),
{
    let ab = user_tags_within(a, b);
    let ba = user_tags_within(b, a);
    proof {
        let x = tag_views(a@);
        let y = tag_views(b@);
        if ab && ba {
            assert forall|t: Seq<char>| !is_system_text(t) implies (x.contains(t) <==> y.contains(t)) by {
                if x.contains(t) {
                    let i = choose|i: int| 0 <= i < x.len() && x[i] == t;
                    assert(!is_system_text(x[i]));
                }
                if y.contains(t) {
                    let i = choose|i: int| 0 <= i < y.len() && y[i] == t;
                    assert(!is_system_text(y[i]));
                }
            }
        }
        if !ab {
            let i = choose|i: int| 0 <= i < a@.len() && !is_system_text(#[trigger] x[i]) && !y.contains(x[i]);
            assert(x.contains(x[i]));
        }
        if ab && !ba {
            let i = choose|i: int| 0 <= i < b@.len() && !is_system_text(#[trigger] y[i]) && !x.contains(y[i]);
            assert(y.contains(y[i]));
        }
    }
    ab && ba
}

/// Whether `s` is the literal text `lit`.
fn text_is(s: &str, lit: &str) -> (r: bool)
    ensures
        r == (s@ == lit@),
{
    let a = chars_of(s);
    let b = chars_of(lit);
    chars_eq(a.as_slice(), b.as_slice())
}

/// Whether the metadata of `existing` differs from that of the file
/// `file_data`: title, user tags or content type.
pub fn has_metadata_changed(existing: &Bookmark, file_data: &FileImportData) -> (r: bool)
    ensures
        r == file_metadata_changed(existing@, file_data@),
{
    if !text_is(existing.title.as_str(), file_data.name.as_str()) {
        return true;
    }
    if !user_tags_agree(&existing.tags, &file_data.tags) {
        return true;
    }
    let shell = crate::tag::SystemTag::Shell.to_tag();
    let md = crate::tag::SystemTag::Markdown.to_tag();
    let existing_has_shell = contains_tag(&existing.tags, &shell);
    let existing_has_md = contains_tag(&existing.tags, &md);
    let file_is_shell = text_is(file_data.content_type.as_str(), "_shell_");
    let file_is_md = text_is(file_data.content_type.as_str(), "_md_");
    existing_has_shell != file_is_shell || existing_has_md != file_is_md
}

/// Whether the content of `existing` differs from the file's: its file hash
/// is not the file's hash.
pub fn has_content_changed(existing: &Bookmark, file_data: &FileImportData) -> (r: bool)
    ensures
        r == file_content_changed(existing@, file_data@),
{
    match &existing.file_hash {
        Some(h) => !text_is(h.as_str(), file_data.file_hash.as_str()),
        None => true,
    }
}

/// The system tag of the content type `ct`.
pub fn content_system_tag_of(ct: &str) -> (r: Tag)
    ensures
        r@ == content_system_tag(ct@),
{
    if text_is(ct, "_md_") {
        crate::tag::SystemTag::Markdown.to_tag()
    } else {
        crate::tag::SystemTag::Shell.to_tag()
    }
}

/// The index of the first of `bms` titled `name`, if any.
pub fn first_with_title(bms: &Vec<Bookmark>, name: &str) -> (r: Option<usize>)
    ensures
        r matches Some(k) ==> first_title_at(crate::repository::bookmark_views(bms@), name@, k as int),
        r is None <==> !has_title(crate::repository::bookmark_views(bms@), name@),
{
    let ghost s = crate::repository::bookmark_views(bms@);
    let n = bms.len();
    let mut i: usize = 0;
    while i < n
        invariant
            i <= n,
            n == bms@.len(),
            s == crate::repository::bookmark_views(bms@),
            forall|j: int| 0 <= j < i ==> (#[trigger] s[j]).2 != name@,
        decreases n - i,
    {
        assert(s[i as int] == bms@[i as int]@);
        if text_is(bms[i].title.as_str(), name) {
            return Some(i);
        }
        i = i + 1;
    }
    None
}

} // verus!
