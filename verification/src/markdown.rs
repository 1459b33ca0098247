//! The markdown renderer's rules: which bookmarks get their embedding
//! refreshed, how header ids are made, and the table of contents that is
//! put beside the rendered page.
use std::sync::Arc;
use vstd::prelude::*;
use crate::bookmark::Bookmark;
use crate::embeddings::Embedder;
use crate::error::{concat, DomainError};
use crate::patterns::{
    group_views, regex_all_groups, regex_captures, regex_captures_all, regex_find_all, regex_found, regex_groups,
    regex_replace_all, regex_replaced,
};
use crate::repository::BookmarkStore;
use crate::text::{chars_of, join, owned, lowercase, replaced_text, split, string_of, to_lowercase, trim, trim_chars, views};

verus! {

/// An entry of the table of contents: the header level (1 to 3), its
/// text and the id it links to.
#[derive(Debug, Clone)]
pub struct TocEntry {
    pub level: u8,
    pub title: String,
    pub id: String,
}

/// The pattern of an `h1`, `h2` or `h3` header in rendered HTML: group 1
/// is the tag, group 2 the inner text.
pub open spec fn header_pattern() -> Seq<char> {
    "<(h[123])(?:\\s+[^>]*)?>(.*?)</h[123]>"@
}

/// The pattern of an `id` attribute: group 1 is its value.
pub open spec fn id_pattern() -> Seq<char> {
    "\\s+id\\s*=\\s*[\"']([^\"']+)[\"']"@
}

/// A header found in rendered HTML: its whole text, its tag, its inner
/// text and the id it carries, if any.
#[derive(Debug)]
pub struct HeaderMatch {
    pub full: String,
    pub tag: String,
    pub content: String,
    pub id: Option<String>,
}

/// A header seen as whole text, tag, inner text and id.
pub type HeaderView = (Seq<char>, Seq<char>, Seq<char>, Option<Seq<char>>);

/// The view of a header.
pub open spec fn header_view(m: HeaderMatch) -> HeaderView {
    (
        m.full@,
        m.tag@,
        m.content@,
        match m.id {
            Some(i) => Some(i@),
            None => None,
        },
    )
}

/// The views of headers.
pub open spec fn header_views(ms: Seq<HeaderMatch>) -> Seq<HeaderView> {
    Seq::new(ms.len(), |i: int| header_view(ms[i]))
}

/// The id the header text `f` carries, by the id pattern.
pub open spec fn id_of(f: Seq<char>) -> Option<Seq<char>> {
    match regex_groups(id_pattern(), f) {
        Some(Some(g)) => if g.len() >= 2 && g[1] is Some {
            g[1]
        } else {
            None
        },
        _ => None,
    }
}

/// The header that the header pattern reads in the text `f`, if it does.
pub open spec fn header_of(f: Seq<char>) -> Option<HeaderView> {
    match regex_groups(header_pattern(), f) {
        Some(Some(g)) => if g.len() >= 3 && g[1] is Some && g[2] is Some {
            Some((f, g[1]->Some_0, g[2]->Some_0, id_of(f)))
        } else {
            None
        },
        _ => None,
    }
}

/// The headers read in the found texts `fs`, in order.
pub open spec fn headers_of(fs: Seq<Seq<char>>) -> Seq<HeaderView>
    decreases fs.len(),
{
    if fs.len() == 0 {
        Seq::empty()
    } else {
        match header_of(fs.last()) {
            Some(h) => headers_of(fs.drop_last()).push(h),
            None => headers_of(fs.drop_last()),
        }
    }
}

/// The headers of the rendered HTML `html`, in order.
pub open spec fn headers_in(html: Seq<char>) -> Seq<HeaderView> {
    match regex_found(header_pattern(), html) {
        Some(fs) => headers_of(fs),
        None => Seq::empty(),
    }
}

/// The level of a header tag.
pub open spec fn header_level(tag: Seq<char>) -> Option<u8> {
    if tag == "h1"@ {
        Some(1u8)
    } else if tag == "h2"@ {
        Some(2u8)
    } else if tag == "h3"@ {
        Some(3u8)
    } else {
        None
    }
}

/// How often `b` occurs in `bases`.
pub open spec fn count_of(bases: Seq<Seq<char>>, b: Seq<char>) -> nat
    decreases bases.len(),
{
    if bases.len() == 0 {
        0
    } else {
        count_of(bases.drop_last(), b) + if bases.last() == b {
            1nat
        } else {
            0nat
        }
    }
}

/// The id made from `base` when it was made `c` times before: the base
/// itself the first time, then the base with `-1`, `-2` and so on.
pub open spec fn unique_id(base: Seq<char>, c: nat) -> Seq<char> {
    if c == 0 {
        base
    } else {
        base + "-"@ + crate::num::decimal(c)
    }
}

/// A header tag written with an id.
pub open spec fn tagged_header(tag: Seq<char>, id: Seq<char>, content: Seq<char>) -> Seq<char> {
    "<"@ + tag + " id=\""@ + id + "\">"@ + content + "</"@ + tag + ">"@
}

/// The HTML, the table entries (level, title, id) and the ids made from
/// header texts so far.
pub type HeaderState = (Seq<char>, Seq<(u8, Seq<char>, Seq<char>)>, Seq<Seq<char>>);

/// The state after the header `m`: a header of another level is passed
/// over; one with an id keeps it; otherwise an id is made from its text,
/// unique among those made so far, and written into each occurrence of
/// the header in the HTML. Each header gives an entry titled with its
/// text stripped of markup.
pub open spec fn header_step(st: HeaderState, m: HeaderView) -> HeaderState {
    match header_level(m.1) {
        None => st,
        Some(level) => match m.3 {
            Some(id) => (st.0, st.1.push((level, cleaned(m.2), id)), st.2),
            None => {
                let base = header_id(m.2);
                let id = unique_id(base, count_of(st.2, base));
                (
                    replaced_text(st.0, m.0, tagged_header(m.1, id, m.2)),
                    st.1.push((level, cleaned(m.2), id)),
                    st.2.push(base),
                )
            },
        },
    }
}

/// The state after the headers `ms`, starting from the HTML `html`.
pub open spec fn headers_fold(html: Seq<char>, ms: Seq<HeaderView>) -> HeaderState
    decreases ms.len(),
{
    if ms.len() == 0 {
        (html, Seq::empty(), Seq::empty())
    } else {
        header_step(headers_fold(html, ms.drop_last()), ms.last())
    }
}

/// A table entry seen as level, title and id.
pub open spec fn toc_view(e: TocEntry) -> (u8, Seq<char>, Seq<char>) {
    (e.level, e.title@, e.id@)
}

/// The views of table entries.
pub open spec fn toc_views(es: Seq<TocEntry>) -> Seq<(u8, Seq<char>, Seq<char>)> {
    Seq::new(es.len(), |i: int| toc_view(es[i]))
}

/// How often `b` occurs in `bases`.
fn count_in(bases: &Vec<String>, b: &str) -> (r: usize)
    ensures
        r == count_of(crate::text::string_views(bases@), b@),
{
    let ghost sv = crate::text::string_views(bases@);
    let bc = chars_of(b);
    let n = bases.len();
    let mut c: usize = 0;
    let mut i: usize = 0;
    assert(sv.take(0) =~= Seq::<Seq<char>>::empty());
    while i < n
        invariant
            i <= n,
            n == bases@.len(),
            sv == crate::text::string_views(bases@),
            bc@ == b@,
            c == count_of(sv.take(i as int), b@),
            c <= i,
        decreases n - i,
    {
        assert(sv.take(i as int + 1).drop_last() =~= sv.take(i as int));
        assert(sv.take(i as int + 1).last() == bases@[i as int]@);
        let x = chars_of(bases[i].as_str());
        if crate::text::chars_eq(x.as_slice(), bc.as_slice()) {
            c = c + 1;
        }
        i = i + 1;
    }
    assert(sv.take(n as int) =~= sv);
    c
}

/// The level of a header tag.
fn level_of(tag: &str) -> (r: Option<u8>)
    ensures
        r == header_level(tag@),
{
    let t = chars_of(tag);
    let h1 = chars_of("h1");
    let h2 = chars_of("h2");
    let h3 = chars_of("h3");
    if crate::text::chars_eq(t.as_slice(), h1.as_slice()) {
        Some(1)
    } else if crate::text::chars_eq(t.as_slice(), h2.as_slice()) {
        Some(2)
    } else if crate::text::chars_eq(t.as_slice(), h3.as_slice()) {
        Some(3)
    } else {
        None
    }
}

/// The id a header text carries, by the id pattern.
fn read_id(full: &str) -> (r: Option<String>)
    ensures
        match r {
            Some(s) => id_of(full@) == Some(s@),
            None => id_of(full@) is None,
        },
{
    match regex_captures("\\s+id\\s*=\\s*[\"']([^\"']+)[\"']", full) {
        Some(Some(g)) => {
            if g.len() >= 2 {
                match &g[1] {
                    Some(v) => Some(owned(v.as_str())),
                    None => None,
                }
            } else {
                None
            }
        },
        _ => None,
    }
}

/// The headers of the rendered HTML `html`, in order.
pub fn header_matches(html: &str) -> (r: Vec<HeaderMatch>)
    ensures
        header_views(r@) == headers_in(html@),
{
    let found = match regex_find_all("<(h[123])(?:\\s+[^>]*)?>(.*?)</h[123]>", html) {
        Some(v) => v,
        None => {
            assert(header_views(Seq::<HeaderMatch>::empty()) =~= Seq::<HeaderView>::empty());
            return Vec::new();
        },
    };
    let ghost fs = crate::text::string_views(found@);
    let n = found.len();
    let mut r: Vec<HeaderMatch> = Vec::new();
    let mut i: usize = 0;
    assert(fs.take(0) =~= Seq::<Seq<char>>::empty());
    assert(header_views(r@) =~= Seq::<HeaderView>::empty());
    while i < n
        invariant
            i <= n,
            n == found@.len(),
            fs == crate::text::string_views(found@),
            header_views(r@) == headers_of(fs.take(i as int)),
        decreases n - i,
    {
        assert(fs.take(i as int + 1).drop_last() =~= fs.take(i as int));
        assert(fs.take(i as int + 1).last() == found@[i as int]@);
        let f = &found[i];
        match regex_captures("<(h[123])(?:\\s+[^>]*)?>(.*?)</h[123]>", f.as_str()) {
            Some(Some(g)) => {
                if g.len() >= 3 {
                    match (&g[1], &g[2]) {
                        (Some(tag), Some(content)) => {
                            let ghost before = r@;
                            let m = HeaderMatch {
                                full: owned(f.as_str()),
                                tag: owned(tag.as_str()),
                                content: owned(content.as_str()),
                                id: read_id(f.as_str()),
                            };
                            r.push(m);
                            assert(header_views(r@) =~= header_views(before).push(header_view(m)));
                        },
                        _ => {},
                    }
                }
            },
            _ => {},
        }
        i = i + 1;
    }
    assert(fs.take(n as int) =~= fs);
    r
}

/// Whether a resource path points into the local files: not a web, data or
/// protocol-relative address.
pub open spec fn is_local_path(p: Seq<char>) -> bool {
    !crate::text::starts_with(p, "http://"@) && !crate::text::starts_with(p, "https://"@)
        && !crate::text::starts_with(p, "data:"@) && !crate::text::starts_with(p, "//"@)
}

/// The local resources among the matches `caps`: each as its whole tag
/// and its path (groups 0 and 1), in order.
pub open spec fn resources_of(caps: Seq<Seq<Option<Seq<char>>>>) -> Seq<(Seq<char>, Seq<char>)>
    decreases caps.len(),
{
    if caps.len() == 0 {
        Seq::empty()
    } else {
        let g = caps.last();
        let before = resources_of(caps.drop_last());
        if g.len() >= 2 && g[0] is Some && g[1] is Some && is_local_path(g[1]->Some_0) {
            before.push((g[0]->Some_0, g[1]->Some_0))
        } else {
            before
        }
    }
}

/// The pattern of an image tag: group 1 is its source.
pub open spec fn img_pattern() -> Seq<char> {
    "<img\\s+[^>]*src\\s*=\\s*[\"']([^\"']+)[\"'][^>]*>"@
}

/// The pattern of a link tag: group 1 is its target.
pub open spec fn link_pattern() -> Seq<char> {
    "<link\\s+[^>]*href\\s*=\\s*[\"']([^\"']+)[\"'][^>]*>"@
}

/// The pattern of a script tag: group 1 is its source.
pub open spec fn script_pattern() -> Seq<char> {
    "<script\\s+[^>]*src\\s*=\\s*[\"']([^\"']+)[\"'][^>]*>"@
}

/// The local resources the pattern `pattern` finds in `html`.
pub open spec fn resources_by(pattern: Seq<char>, html: Seq<char>) -> Seq<(Seq<char>, Seq<char>)> {
    match regex_all_groups(pattern, html) {
        Some(caps) => resources_of(caps),
        None => Seq::empty(),
    }
}

/// The local resources of `html`: images, then links, then scripts.
pub open spec fn resources_in(html: Seq<char>) -> Seq<(Seq<char>, Seq<char>)> {
    resources_by(img_pattern(), html) + resources_by(link_pattern(), html) + resources_by(script_pattern(), html)
}

/// The views of pairs of strings.
pub open spec fn pair_views(v: Seq<(String, String)>) -> Seq<(Seq<char>, Seq<char>)> {
    Seq::new(v.len(), |i: int| (v[i].0@, v[i].1@))
}

/// The local resources among the matches `caps` (groups of each match),
/// each as its whole tag and its path, in order.
pub fn local_resources(caps: &Vec<Vec<Option<String>>>) -> (r: Vec<(String, String)>)
    ensures
        pair_views(r@) == resources_of(Seq::new(caps@.len(), |i: int| group_views(caps@[i]@))),
{
    let ghost cv = Seq::new(caps@.len(), |i: int| group_views(caps@[i]@));
    let n = caps.len();
    let mut r: Vec<(String, String)> = Vec::new();
    let mut i: usize = 0;
    let http = chars_of("http://");
    let https = chars_of("https://");
    let data = chars_of("data:");
    let slashes = chars_of("//");
    assert(cv.take(0) =~= Seq::<Seq<Option<Seq<char>>>>::empty());
    assert(pair_views(r@) =~= Seq::<(Seq<char>, Seq<char>)>::empty());
    while i < n
        invariant
            i <= n,
            n == caps@.len(),
            cv == Seq::new(caps@.len(), |i: int| group_views(caps@[i]@)),
            http@ == "http://"@,
            https@ == "https://"@,
            data@ == "data:"@,
            slashes@ == "//"@,
            pair_views(r@) == resources_of(cv.take(i as int)),
        decreases n - i,
    {
        assert(cv.take(i as int + 1).drop_last() =~= cv.take(i as int));
        assert(cv.take(i as int + 1).last() == group_views(caps@[i as int]@));
        let g = &caps[i];
        if g.len() >= 2 {
            match (&g[0], &g[1]) {
                (Some(full), Some(path)) => {
                    let pc = chars_of(path.as_str());
                    if !crate::text::has_prefix(pc.as_slice(), http.as_slice())
                        && !crate::text::has_prefix(pc.as_slice(), https.as_slice())
                        && !crate::text::has_prefix(pc.as_slice(), data.as_slice())
                        && !crate::text::has_prefix(pc.as_slice(), slashes.as_slice()) {
                        let ghost before = r@;
                        let pair = (owned(full.as_str()), owned(path.as_str()));
                        r.push(pair);
                        assert(pair_views(r@) =~= pair_views(before).push((pair.0@, pair.1@)));
                    }
                },
                _ => {},
            }
        }
        i = i + 1;
    }
    assert(cv.take(n as int) =~= cv);
    r
}

/// The local resources the pattern finds in `html`.
fn resources_matching(pattern: &str, html: &str) -> (r: Vec<(String, String)>)
    ensures
        pair_views(r@) == resources_by(pattern@, html@),
{
    match regex_captures_all(pattern, html) {
        Some(caps) => local_resources(&caps),
        None => {
            assert(pair_views(Seq::<(String, String)>::empty()) =~= Seq::<(Seq<char>, Seq<char>)>::empty());
            Vec::new()
        },
    }
}

/// What `markdown::to_html_with_options` gives for `content` with the
/// GitHub-flavoured options of `markdown::Options::gfm`.
pub uninterp spec fn markdown_html(content: Seq<char>) -> Seq<char>;

/// Turns `content` into HTML with `markdown::to_html_with_options` and the
/// GitHub-flavoured options `markdown::Options::gfm()`. Stated: the call
/// succeeds, as the crate documents for markdown without MDX (which these
/// options leave off), and gives the named `markdown_html` of the content;
/// the error's text is kept for the caller otherwise. Left unsaid: the HTML
/// the crate makes.
#[verifier::external_body]
fn markdown_to_html(content: &str) -> (r: Result<String, String>)
    ensures
        r is Ok,
        match r {
            Ok(h) => h@ == markdown_html(content@),
            Err(_) => true,
        },
{
    match markdown::to_html_with_options(content, &markdown::Options::gfm()) {
        Ok(h) => Ok(h),
        Err(e) => Err(e.to_string()),
    }
}

/// The body and the table of contents of the page that shows the markdown
/// `content`: the content turned into HTML, ids written into its headers,
/// and the table of contents of those headers.
pub open spec fn rendered_page(content: Seq<char>) -> (Seq<char>, Seq<char>) {
    let html = markdown_html(content);
    let st = headers_fold(html, headers_in(html));
    (st.0, toc_html(st.1))
}

/// What `char::is_alphanumeric` gives for `c`.
pub uninterp spec fn char_alphanumeric(c: char) -> bool;

/// `char::is_alphanumeric`: whether `c` is alphabetic or numeric in
/// Unicode. Stated: the result is the named `char_alphanumeric` of `c`.
#[verifier::external_body]
fn is_alphanumeric(c: char) -> (r: bool)
    ensures
        r == char_alphanumeric(c),
{
    c.is_alphanumeric()
}

/// `content` without its HTML tags (every match of `<[^>]*>` removed),
/// trimmed.
pub open spec fn cleaned(content: Seq<char>) -> Seq<char> {
    trim(
        match regex_replaced("<[^>]*>"@, content, ""@) {
            Some(s) => s,
            None => content,
        },
    )
}

/// `s` with every character that is not alphanumeric made a hyphen.
pub open spec fn dashed(s: Seq<char>) -> Seq<char> {
    Seq::new(s.len(), |i: int| if char_alphanumeric(s[i]) { s[i] } else { '-' })
}

/// The parts of `parts` that are not empty.
pub open spec fn nonempty_parts(parts: Seq<Seq<char>>) -> Seq<Seq<char>> {
    parts.filter(|p: Seq<char>| p.len() > 0)
}

/// The id of a header with the content `content`: the cleaned content in
/// lowercase, its runs of alphanumeric characters joined by hyphens.
pub open spec fn header_id(content: Seq<char>) -> Seq<char> {
    id_from_clean(cleaned(content))
}

/// The id made from cleaned header text `clean`: the text in lowercase,
/// its runs of alphanumeric characters joined by hyphens.
pub open spec fn id_from_clean(clean: Seq<char>) -> Seq<char> {
    join(nonempty_parts(split(dashed(lowercase(clean)), '-')), seq!['-'])
}

/// The start of the table of contents.
pub open spec fn toc_head() -> Seq<char> {
    "<nav class=\"toc-sidebar\" id=\"toc-sidebar\">
                <div class=\"toc-header\">
                    <h3>Table of Contents</h3>
                    <button class=\"toc-toggle\" id=\"toc-toggle\">✕</button>
                </div>
                <ul class=\"toc-list\">
"@
}

/// The end of the table of contents.
pub open spec fn toc_foot() -> Seq<char> {
    "                </ul>
            </nav>
            <button class=\"toc-mobile-toggle\" id=\"toc-mobile-toggle\">📋</button>"@
}

/// The CSS class of a header level; levels other than 2 and 3 count as 1.
pub open spec fn level_class(level: u8) -> Seq<char> {
    if level == 2 {
        "toc-h2"@
    } else if level == 3 {
        "toc-h3"@
    } else {
        "toc-h1"@
    }
}

/// The list item of one entry of the table of contents.
pub open spec fn toc_line(e: (u8, Seq<char>, Seq<char>)) -> Seq<char> {
    "                    <li class=\"toc-item "@ + level_class(e.0) + "\"><a href=\"#"@ + e.2
        + "\" class=\"toc-link\">"@ + e.1 + "</a></li>\n"@
}

/// The list items of the entries `es`, in order.
pub open spec fn toc_lines(es: Seq<(u8, Seq<char>, Seq<char>)>) -> Seq<char>
    decreases es.len(),
{
    if es.len() == 0 {
        Seq::empty()
    } else {
        toc_lines(es.drop_last()) + toc_line(es.last())
    }
}

/// The table of contents of the entries `es`: nothing when there are none.
pub open spec fn toc_html(es: Seq<(u8, Seq<char>, Seq<char>)>) -> Seq<char> {
    if es.len() == 0 {
        Seq::empty()
    } else {
        toc_head() + toc_lines(es) + toc_foot()
    }
}

fn level_class_str(level: u8) -> (r: &'static str)
    ensures
        r@ == level_class(level),
{
    if level == 2 {
        "toc-h2"
    } else if level == 3 {
        "toc-h3"
    } else {
        "toc-h1"
    }
}

/// The action that renders a markdown bookmark in the browser.
pub struct MarkdownAction<E: Embedder> {
    repository: Option<BookmarkStore>,
    embedder: Arc<E>,
}

impl<E: Embedder> MarkdownAction<E> {
    /// An action without a store: embeddings are never refreshed.
    pub fn new(embedder: Arc<E>) -> (r: MarkdownAction<E>)
        ensures
            !r.has_store(),
            r.embedder() == *embedder,
    {
        MarkdownAction { repository: None, embedder }
    }

    /// An action that refreshes embeddings in `repository`.
    pub fn new_with_repository(repository: BookmarkStore, embedder: Arc<E>) -> (r: MarkdownAction<E>)
        ensures
            r.has_store(),
            r.embedder() == *embedder,
    {
        MarkdownAction { repository: Some(repository), embedder }
    }

    /// What the action does.
    pub fn description(&self) -> (r: &'static str)
        ensures
            r@ == "Render markdown and open in browser"@,
    {
        "Render markdown and open in browser"
    }

    /// Whether the action has a store to write embeddings to.
    pub closed spec fn has_store(&self) -> bool {
        self.repository is Some
    }

    /// The embedder of the action.
    pub closed spec fn embedder(&self) -> E {
        *self.embedder
    }

    /// Whether rendering `bookmark` refreshes its embedding: there is a
    /// store, the bookmark is embeddable, and the embedder makes real
    /// embeddings.
    pub fn can_update_embedding(&self, bookmark: &Bookmark) -> (r: bool)
        ensures
            r == (self.has_store() && bookmark.embeddable && self.embedder().makes_embeddings()),
    {
        if self.repository.is_none() {
            return false;
        }
        if !bookmark.embeddable {
            return false;
        }
        self.embedder.enabled()
    }

    /// `content` without its HTML tags, trimmed.
    pub fn clean_html_content(&self, content: &str) -> (r: String)
        ensures
            r@ == cleaned(content@),
    {
        let stripped = match regex_replace_all("<[^>]*>", content, "") {
            Some(s) => s,
            None => owned(content),
        };
        let cs = chars_of(stripped.as_str());
        let t = trim_chars(cs.as_slice());
        string_of(t.as_slice())
    }

    /// A URL-safe id made from the header content `content`.
    pub fn generate_header_id(&self, content: &str) -> (r: String)
        ensures
            r@ == header_id(content@),
    {
        let clean = self.clean_html_content(content);
        Self::header_id_from_clean(clean.as_str())
    }

    /// The id made from cleaned header text `clean`: lowercase, with its
    /// runs of alphanumeric characters joined by hyphens.
    pub fn header_id_from_clean(clean: &str) -> (r: String)
        ensures
            r@ == id_from_clean(clean@),
    {
        let lower = to_lowercase(clean);
        proof {
            assert(lower@ == lowercase(clean@));
        }
        let cs = chars_of(lower.as_str());
        let mut mapped: Vec<char> = Vec::new();
        let n = cs.len();
        let mut i: usize = 0;
        while i < n
            invariant
                i <= n,
                n == cs@.len(),
                mapped@ == dashed(cs@).take(i as int),
            decreases n - i,
        {
            let c = cs[i];
            if is_alphanumeric(c) {
                mapped.push(c);
            } else {
                mapped.push('-');
            }
            i = i + 1;
            assert(mapped@ =~= dashed(cs@).take(i as int));
        }
        assert(dashed(cs@).take(n as int) =~= dashed(cs@));
        let parts = crate::text::split_chars(mapped.as_slice(), '-');
        let ghost all = views(parts@);
        let ghost keep = |p: Seq<char>| p.len() > 0;
        let m = parts.len();
        let mut out: Vec<char> = Vec::new();
        let mut kept: usize = 0;
        let mut j: usize = 0;
        assert(all.take(0) =~= Seq::<Seq<char>>::empty());
        while j < m
            invariant
                j <= m,
                m == parts@.len(),
                all == views(parts@),
                keep == (|p: Seq<char>| p.len() > 0),
                kept as nat == all.take(j as int).filter(keep).len(),
                out@ == join(all.take(j as int).filter(keep), seq!['-']),
            decreases m - j,
        {
            reveal_with_fuel(Seq::filter, 1);
            assert(all.take(j as int + 1).drop_last() =~= all.take(j as int));
            assert(all.take(j as int + 1).last() == parts@[j as int]@);
            let ghost before = all.take(j as int).filter(keep);
            if parts[j].len() > 0 {
                if kept > 0 {
                    out.push('-');
                }
                let ghost prev = out@;
                let p = &parts[j];
                let pn = p.len();
                let mut k: usize = 0;
                while k < pn
                    invariant
                        k <= pn,
                        pn == p@.len(),
                        out@ == prev + p@.take(k as int),
                    decreases pn - k,
                {
                    out.push(p[k]);
                    k = k + 1;
                    assert(out@ =~= prev + p@.take(k as int));
                }
                assert(p@.take(pn as int) =~= p@);
                proof {
                    let after = before.push(parts@[j as int]@);
                    assert(after.drop_last() =~= before);
                    if kept == 0 {
                        assert(before.len() == 0);
                        assert(join(after, seq!['-']) == after[0]);
                        assert(out@ =~= parts@[j as int]@);
                    } else {
                        assert(out@ =~= join(before, seq!['-']) + seq!['-'] + parts@[j as int]@);
                    }
                }
                kept = kept + 1;
            }
            j = j + 1;
        }
        assert(all.take(m as int) =~= all);
        string_of(out.as_slice())
    }

    /// Writes ids into the headers `headers`, found in `html_content`,
    /// that lack one, and lists them for the table of contents: a header
    /// of a level other than 1 to 3 is passed over, one with an id keeps
    /// it, and the others get an id made from their text, numbered when
    /// the same id was made before (`intro`, `intro-1`, `intro-2`).
    pub fn process_header_matches(&self, html_content: &str, headers: &Vec<HeaderMatch>) -> (r: (
        String,
        Vec<TocEntry>,
    ))
        ensures
            r.0@ == headers_fold(html_content@, header_views(headers@)).0,
            toc_views(r.1@) == headers_fold(html_content@, header_views(headers@)).1,
    {
        let ghost hv = header_views(headers@);
        let mut html = owned(html_content);
        let mut toc: Vec<TocEntry> = Vec::new();
        let mut bases: Vec<String> = Vec::new();
        let n = headers.len();
        let mut i: usize = 0;
        assert(hv.take(0) =~= Seq::<HeaderView>::empty());
        assert(toc_views(toc@) =~= Seq::<(u8, Seq<char>, Seq<char>)>::empty());
        assert(crate::text::string_views(bases@) =~= Seq::<Seq<char>>::empty());
        while i < n
            invariant
                i <= n,
                n == headers@.len(),
                hv == header_views(headers@),
                html@ == headers_fold(html_content@, hv.take(i as int)).0,
                toc_views(toc@) == headers_fold(html_content@, hv.take(i as int)).1,
                crate::text::string_views(bases@) == headers_fold(html_content@, hv.take(i as int)).2,
                bases@.len() <= i,
            decreases n - i,
        {
            assert(hv.take(i as int + 1).drop_last() =~= hv.take(i as int));
            assert(hv.take(i as int + 1).last() == header_view(headers@[i as int]));
            let m = &headers[i];
            match level_of(m.tag.as_str()) {
                None => {},
                Some(level) => {
                    match &m.id {
                        Some(id) => {
                            let title = self.clean_html_content(m.content.as_str());
                            let e = TocEntry { level, title, id: owned(id.as_str()) };
                            let ghost before = toc@;
                            toc.push(e);
                            assert(toc_views(toc@) =~= toc_views(before).push(toc_view(e)));
                        },
                        None => {
                            let base = self.generate_header_id(m.content.as_str());
                            let c = count_in(&bases, base.as_str());
                            let id = if c == 0 {
                                owned(base.as_str())
                            } else {
                                let mut t = owned(base.as_str());
                                t.append("-");
                                t.append(crate::num::format_usize(c).as_str());
                                t
                            };
                            let mut new_header = String::new();
                            new_header.append("<");
                            new_header.append(m.tag.as_str());
                            new_header.append(" id=\"");
                            new_header.append(id.as_str());
                            new_header.append("\">");
                            new_header.append(m.content.as_str());
                            new_header.append("</");
                            new_header.append(m.tag.as_str());
                            new_header.append(">");
                            let full = chars_of(m.full.as_str());
                            if full.len() > 0 {
                                html = crate::text::replace_text(html.as_str(), m.full.as_str(), new_header.as_str());
                            }
                            let title = self.clean_html_content(m.content.as_str());
                            let e = TocEntry { level, title, id };
                            let ghost before = toc@;
                            toc.push(e);
                            assert(toc_views(toc@) =~= toc_views(before).push(toc_view(e)));
                            let ghost before_bases = bases@;
                            bases.push(base);
                            assert(crate::text::string_views(bases@) =~= crate::text::string_views(
                                before_bases,
                            ).push(base@));
                        },
                    }
                },
            }
            i = i + 1;
        }
        assert(hv.take(n as int) =~= hv);
        (html, toc)
    }

    /// Writes ids into the `h1` to `h3` headers of the rendered HTML that
    /// lack one, and lists the headers for the table of contents.
    pub fn extract_and_process_headers(&self, html_content: &str) -> (r: (String, Vec<TocEntry>))
        ensures
            r.0@ == headers_fold(html_content@, headers_in(html_content@)).0,
            toc_views(r.1@) == headers_fold(html_content@, headers_in(html_content@)).1,
    {
        let headers = header_matches(html_content);
        self.process_header_matches(html_content, &headers)
    }

    /// The local files the rendered HTML refers to: the sources of its
    /// images, the targets of its links and the sources of its scripts,
    /// each with its whole tag, in that order; web, data and
    /// protocol-relative addresses are left out.
    pub fn extract_resource_paths(&self, html: &str) -> (r: Vec<(String, String)>)
        ensures
            pair_views(r@) == resources_in(html@),
    {
        let mut r = resources_matching("<img\\s+[^>]*src\\s*=\\s*[\"']([^\"']+)[\"'][^>]*>", html);
        let links = resources_matching("<link\\s+[^>]*href\\s*=\\s*[\"']([^\"']+)[\"'][^>]*>", html);
        let scripts = resources_matching("<script\\s+[^>]*src\\s*=\\s*[\"']([^\"']+)[\"'][^>]*>", html);
        let ghost a = r@;
        let mut links = links;
        let mut scripts = scripts;
        let ghost b = links@;
        let ghost c = scripts@;
        r.append(&mut links);
        r.append(&mut scripts);
        assert(pair_views(r@) =~= pair_views(a) + pair_views(b) + pair_views(c));
        r
    }

    /// The body and the table of contents of the page that shows the
    /// markdown `markdown_content`; a failed rendering is a domain error
    /// naming why.
    pub fn render_markdown(&self, markdown_content: &str) -> (r: Result<(String, String), DomainError>)
        ensures
            r matches Ok(p) && (p.0@, p.1@) == rendered_page(markdown_content@),
    {
        let html = match markdown_to_html(markdown_content) {
            Ok(h) => h,
            Err(m) => {
                return Err(DomainError::Other(concat("Failed to render markdown: ", m.as_str())));
            },
        };
        let (processed, toc) = self.extract_and_process_headers(html.as_str());
        let toc_html = self.generate_toc_html(toc.as_slice());
        Ok((processed, toc_html))
    }

    /// The table of contents for `toc_entries`: a sidebar with one link
    /// per entry, or nothing when there are no entries.
    pub fn generate_toc_html(&self, toc_entries: &[TocEntry]) -> (r: String)
        ensures
            r@ == toc_html(toc_views(toc_entries@)),
    {
        let ghost tv = toc_views(toc_entries@);
        if toc_entries.len() == 0 {
            return String::new();
        }
        let mut html = String::new();
        html.append(
            "<nav class=\"toc-sidebar\" id=\"toc-sidebar\">
                <div class=\"toc-header\">
                    <h3>Table of Contents</h3>
                    <button class=\"toc-toggle\" id=\"toc-toggle\">✕</button>
                </div>
                <ul class=\"toc-list\">
",
        );
        let n = toc_entries.len();
        let mut i: usize = 0;
        assert(tv.take(0) =~= Seq::<(u8, Seq<char>, Seq<char>)>::empty());
        while i < n
            invariant
                i <= n,
                n == toc_entries@.len(),
                tv == toc_views(toc_entries@),
                html@ == toc_head() + toc_lines(tv.take(i as int)),
            decreases n - i,
        {
            assert(tv.take(i as int + 1).drop_last() =~= tv.take(i as int));
            assert(tv.take(i as int + 1).last() == toc_view(toc_entries@[i as int]));
            let e = &toc_entries[i];
            html.append("                    <li class=\"toc-item ");
            html.append(level_class_str(e.level));
            html.append("\"><a href=\"#");
            html.append(e.id.as_str());
            html.append("\" class=\"toc-link\">");
            html.append(e.title.as_str());
            html.append("</a></li>\n");
            i = i + 1;
        }
        assert(tv.take(n as int) =~= tv);
        html.append(
            "                </ul>
            </nav>
            <button class=\"toc-mobile-toggle\" id=\"toc-mobile-toggle\">📋</button>",
        );
        html
    }
}

} // verus!
