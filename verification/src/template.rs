//! The plain-text template in which a bookmark is edited: its rendering,
//! its section parser and the parse of an edited template.
use vstd::prelude::*;
use crate::error::{concat, ApplicationError};
use crate::num::{format_i32, i32_text, parse_i32_chars, parse_i32_spec};
use crate::bookmark::{copy_tags, Bookmark};
use crate::tag::{
    system_tag_text, SystemTag, first_invalid, parse_tags_spec, tag_error_reason, tag_items, tag_views, valid_tag, Tag,
};
use crate::text::{
    chars_eq, chars_of, copy_chars, copy_range, has_ws, is_ws, join, lines, lines_of, owned, split,
    str_lowercase, string_views,
    string_of, to_lowercase, trim, trim_chars, views,
};

verus! {

/// A section marker line: three dashes at the start and three at the end.
pub open spec fn is_marker(l: Seq<char>) -> bool {
    &&& l.len() >= 3
    &&& l[0] == '-' && l[1] == '-' && l[2] == '-'
    &&& l[l.len() - 1] == '-' && l[l.len() - 2] == '-' && l[l.len() - 3] == '-'
}

/// `s` with every leading `---` removed, as `trim_start_matches("---")`.
pub open spec fn strip_dash_prefix(s: Seq<char>) -> Seq<char>
    decreases s.len(),
{
    if s.len() >= 3 && s[0] == '-' && s[1] == '-' && s[2] == '-' {
        strip_dash_prefix(s.skip(3))
    } else {
        s
    }
}

/// `s` with every trailing `---` removed, as `trim_end_matches("---")`.
pub open spec fn strip_dash_suffix(s: Seq<char>) -> Seq<char>
    decreases s.len(),
{
    if s.len() >= 3 && s[s.len() - 1] == '-' && s[s.len() - 2] == '-' && s[s.len() - 3] == '-' {
        strip_dash_suffix(s.take(s.len() - 3))
    } else {
        s
    }
}

/// The section name a marker line announces.
pub open spec fn section_name(l: Seq<char>) -> Seq<char> {
    strip_dash_suffix(strip_dash_prefix(l))
}

/// Named sections in the order they were closed.
pub type Sections = Seq<(Seq<char>, Seq<char>)>;

/// The state of the section parser: closed sections, the open section, and
/// the text gathered for it.
pub type ParseState = (Sections, Option<Seq<char>>, Seq<char>);

/// `line` added to the gathered text `c`, after a line break unless `c` is
/// still empty.
pub open spec fn append_line(c: Seq<char>, line: Seq<char>) -> Seq<char> {
    if c.len() == 0 {
        line
    } else {
        c + seq!['\n'] + line
    }
}

/// The section parser after one more line.
pub open spec fn step(st: ParseState, line: Seq<char>) -> ParseState {
    if is_marker(line) {
        let name = section_name(line);
        let secs = match st.1 {
            Some(sec) => st.0.push((sec, st.2)),
            None => st.0,
        };
        let content = if st.1 is Some {
            Seq::<char>::empty()
        } else {
            st.2
        };
        let cur = if name == "END"@ {
            None
        } else {
            Some(name)
        };
        (secs, cur, content)
    } else if st.1 is Some {
        (st.0, st.1, append_line(st.2, line))
    } else {
        st
    }
}

/// The section parser after the lines `ls`.
pub open spec fn run(st: ParseState, ls: Seq<Seq<char>>) -> ParseState
    decreases ls.len(),
{
    if ls.len() == 0 {
        st
    } else {
        step(run(st, ls.drop_last()), ls.last())
    }
}

/// The sections once the input ends: an open section is closed.
pub open spec fn finish(st: ParseState) -> Sections {
    match st.1 {
        Some(sec) => st.0.push((sec, st.2)),
        None => st.0,
    }
}

/// The parser's starting state.
pub open spec fn start_state() -> ParseState {
    (Seq::empty(), None, Seq::empty())
}

/// The sections of a template text.
pub open spec fn parse_sections_spec(text: Seq<char>) -> Sections {
    finish(run(start_state(), lines(text)))
}

/// The text of the last section named `key`, if any.
pub open spec fn lookup(secs: Sections, key: Seq<char>) -> Option<Seq<char>>
    decreases secs.len(),
{
    if secs.len() == 0 {
        None
    } else if secs.last().0 == key {
        Some(secs.last().1)
    } else {
        lookup(secs.drop_last(), key)
    }
}

/// The text of the section named `key`, or nothing.
pub open spec fn section_text(secs: Sections, key: Seq<char>) -> Seq<char> {
    match lookup(secs, key) {
        Some(c) => c,
        None => Seq::empty(),
    }
}

/// A template seen as its id, URL, title, tag texts, comments and
/// embeddable flag.
pub type TemplateView = (Option<i32>, Seq<char>, Seq<char>, Seq<Seq<char>>, Seq<char>, bool);

/// Whether the lowercase embeddable text means "yes".
pub open spec fn means_yes(s: Seq<char>) -> bool {
    s == "true"@ || s == "yes"@ || s == "1"@
}

/// Whether the lowercase embeddable text means "no".
pub open spec fn means_no(s: Seq<char>) -> bool {
    s == "false"@ || s == "no"@ || s == "0"@ || s.len() == 0
}

/// The text of the EMBEDDABLE section of `text`, trimmed and in lowercase.
pub open spec fn embeddable_word(text: Seq<char>) -> Seq<char> {
    crate::text::lowercase(trim(section_text(parse_sections_spec(text), "EMBEDDABLE"@)))
}

/// A parsed template is embeddable when its EMBEDDABLE section reads
/// `true`, `yes` or `1` (in any case), and not when it reads `false`, `no`,
/// `0` or nothing; a section reading one of these words never makes the
/// text refused for its embeddable flag.
pub proof fn lemma_embeddable_words(text: Seq<char>)
    ensures
        (embeddable_word(text) == "true"@ || embeddable_word(text) == "yes"@ || embeddable_word(text)
            == "1"@) ==> (parse_template(text) matches Ok(v) ==> v.5),
        (embeddable_word(text) == "false"@ || embeddable_word(text) == "no"@ || embeddable_word(text)
            == "0"@ || embeddable_word(text).len() == 0) ==> (parse_template(text) matches Ok(v) ==> !v.5),
        (embeddable_word(text) == "true"@ || embeddable_word(text) == "yes"@ || embeddable_word(text)
            == "1"@ || embeddable_word(text) == "false"@ || embeddable_word(text) == "no"@
            || embeddable_word(text) == "0"@ || embeddable_word(text).len() == 0) ==> (parse_template(
            text,
        ) matches Err(m) ==> m != "Invalid embeddable format: "@ + trim(
            section_text(parse_sections_spec(text), "EMBEDDABLE"@),
        ) + " (use true/false)"@),
{
    reveal_strlit("true");
    reveal_strlit("yes");
    reveal_strlit("1");
    reveal_strlit("false");
    reveal_strlit("no");
    reveal_strlit("0");
    let w = embeddable_word(text);
    if w == "false"@ || w == "no"@ || w == "0"@ || w.len() == 0 {
        if w == "0"@ {
            assert(w[0] != "1"@[0]);
            assert(w != "1"@);
        }
        if w == "no"@ {
            assert(w.len() == 2);
        }
        if w == "false"@ {
            assert(w.len() == 5);
        }
        assert(w != "true"@) by {
            if w == "true"@ {
                assert(w.len() == 4);
            }
        }
        assert(w != "yes"@) by {
            if w == "yes"@ {
                assert(w.len() == 3);
            }
        }
        assert(w != "1"@) by {
            if w == "1"@ {
                assert(w.len() == 1);
                assert(w[0] == '1');
            }
        }
        assert(!means_yes(w));
    }
    let secs = parse_sections_spec(text);
    let id_str = trim(section_text(secs, "ID"@));
    let url = trim(section_text(secs, "URL"@));
    let tags_str = trim(section_text(secs, "TAGS"@));
    let emb_str = trim(section_text(secs, "EMBEDDABLE"@));
    if parse_template(text) is Err {
        if id_str.len() > 0 && parse_i32_spec(id_str) is None {
            reveal_strlit("Invalid ID format: ");
            reveal_strlit("Invalid embeddable format: ");
            let a = "Invalid ID format: "@ + id_str;
            let b = "Invalid embeddable format: "@ + emb_str + " (use true/false)"@;
            if a == b {
                assert(a[8] == b[8]);
            }
        } else if url.len() == 0 {
            reveal_strlit("URL cannot be empty");
            reveal_strlit("Invalid embeddable format: ");
            let b = "Invalid embeddable format: "@ + emb_str + " (use true/false)"@;
            if "URL cannot be empty"@ == b {
                assert(b[0] == 'I');
            }
        } else if tags_str.len() > 0 && parse_tags_spec(tags_str) is None {
            reveal_strlit("Invalid tags format: ");
            reveal_strlit("Invalid embeddable format: ");
            let a = "Invalid tags format: "@ + "Invalid tag: "@ + tag_error_reason(
                first_invalid(tag_items(tags_str))->Some_0,
            );
            let b = "Invalid embeddable format: "@ + emb_str + " (use true/false)"@;
            if a == b {
                assert(a[8] == b[8]);
            }
        }
    }
}

/// What `BookmarkTemplate::from_string` makes of `text`: the template, or
/// the message of the validation error.
pub open spec fn parse_template(text: Seq<char>) -> Result<TemplateView, Seq<char>> {
    let secs = parse_sections_spec(text);
    let id_str = trim(section_text(secs, "ID"@));
    let url = trim(section_text(secs, "URL"@));
    let title = trim(section_text(secs, "TITLE"@));
    let tags_str = trim(section_text(secs, "TAGS"@));
    let comments = section_text(secs, "COMMENTS"@);
    let emb_str = trim(section_text(secs, "EMBEDDABLE"@));
    let emb = crate::text::lowercase(emb_str);
    if id_str.len() > 0 && parse_i32_spec(id_str) is None {
        Err("Invalid ID format: "@ + id_str)
    } else if url.len() == 0 {
        Err("URL cannot be empty"@)
    } else if tags_str.len() > 0 && parse_tags_spec(tags_str) is None {
        Err(
            "Invalid tags format: "@ + "Invalid tag: "@ + tag_error_reason(
                first_invalid(tag_items(tags_str))->Some_0,
            ),
        )
    } else if !means_yes(emb) && !means_no(emb) {
        Err("Invalid embeddable format: "@ + emb_str + " (use true/false)"@)
    } else {
        Ok(
            (
                if id_str.len() > 0 {
                    Some(parse_i32_spec(id_str)->Some_0)
                } else {
                    None
                },
                url,
                title,
                if tags_str.len() > 0 {
                    parse_tags_spec(tags_str)->Some_0
                } else {
                    Seq::empty()
                },
                comments,
                means_yes(emb),
            ),
        )
    }
}

/// The editable form of a bookmark.
#[derive(Debug)]
pub struct BookmarkTemplate {
    pub id: Option<i32>,
    pub url: String,
    pub title: String,
    pub tags: Vec<Tag>,
    pub comments: String,
    pub embeddable: bool,
}

impl View for BookmarkTemplate {
    type V = TemplateView;

    open spec fn view(&self) -> TemplateView {
        (self.id, self.url@, self.title@, tag_views(self.tags@), self.comments@, self.embeddable)
    }
}

/// The view of parsed sections.
pub open spec fn sections_view(v: Seq<(Vec<char>, Vec<char>)>) -> Sections {
    Seq::new(v.len(), |i: int| (v[i].0@, v[i].1@))
}

/// The view of an optional section name.
pub open spec fn name_view(o: Option<Vec<char>>) -> Option<Seq<char>> {
    match o {
        Some(v) => Some(v@),
        None => None,
    }
}

fn is_marker_chars(l: &[char]) -> (b: bool)
    ensures
        b == is_marker(l@),
{
    let n = l.len();
    n >= 3 && l[0] == '-' && l[1] == '-' && l[2] == '-' && l[n - 1] == '-' && l[n - 2] == '-'
        && l[n - 3] == '-'
}

fn section_name_chars(l: &[char]) -> (r: Vec<char>)
    ensures
        r@ == section_name(l@),
{
    let n = l.len();
    let mut i: usize = 0;
    assert(l@.skip(0) =~= l@);
    while n >= 3 && i <= n - 3 && l[i] == '-' && l[i + 1] == '-' && l[i + 2] == '-'
        invariant
            i <= n,
            n == l@.len(),
            strip_dash_prefix(l@) == strip_dash_prefix(l@.skip(i as int)),
        decreases n - i,
    {
        assert(l@.skip(i as int).skip(3) =~= l@.skip(i as int + 3));
        i = i + 3;
    }
    assert(strip_dash_prefix(l@) == l@.subrange(i as int, n as int)) by {
        assert(l@.skip(i as int) =~= l@.subrange(i as int, n as int));
    }
    let mut j: usize = n;
    while j >= 3 && j - 3 >= i && l[j - 1] == '-' && l[j - 2] == '-' && l[j - 3] == '-'
        invariant
            i <= j <= n,
            n == l@.len(),
            strip_dash_suffix(l@.subrange(i as int, n as int)) == strip_dash_suffix(
                l@.subrange(i as int, j as int),
            ),
        decreases j,
    {
        assert(l@.subrange(i as int, j as int).take(j - i - 3) =~= l@.subrange(
            i as int,
            j - 3,
        ));
        j = j - 3;
    }
    copy_range(l, i, j)
}

fn append_line_chars(c: &mut Vec<char>, line: &[char])
    ensures
        final(c)@ == append_line(old(c)@, line@),
{
    if c.len() > 0 {
        c.push('\n');
    }
    let n = line.len();
    let mut k: usize = 0;
    let ghost base = c@;
    while k < n
        invariant
            k <= n,
            n == line@.len(),
            c@ == base + line@.take(k as int),
        decreases n - k,
    {
        c.push(line[k]);
        k = k + 1;
        assert(c@ =~= base + line@.take(k as int));
    }
    assert(line@.take(n as int) =~= line@);
}

/// Splits a template text into its named sections, in the order they are
/// closed; text outside any section is skipped.
pub fn parse_sections(content: &str) -> (r: Vec<(Vec<char>, Vec<char>)>)
    ensures
        sections_view(r@) == parse_sections_spec(content@),
{
    let chars = chars_of(content);
    let ls = lines_of(chars.as_slice());
    let n = ls.len();
    let mut secs: Vec<(Vec<char>, Vec<char>)> = Vec::new();
    let mut cur: Option<Vec<char>> = None;
    let mut gathered: Vec<char> = Vec::new();
    let end = chars_of("END");
    let mut i: usize = 0;
    assert(views(ls@).take(0) =~= Seq::<Seq<char>>::empty());
    assert(sections_view(secs@) =~= Seq::<(Seq<char>, Seq<char>)>::empty());
    while i < n
        invariant
            i <= n,
            n == ls@.len(),
            views(ls@) == lines(chars@),
            chars@ == content@,
            end@ == "END"@,
            (sections_view(secs@), name_view(cur), gathered@) == run(
                start_state(),
                views(ls@).take(i as int),
            ),
        decreases n - i,
    {
        let ghost before = (sections_view(secs@), name_view(cur), gathered@);
        assert(views(ls@).take(i as int + 1).drop_last() =~= views(ls@).take(i as int));
        assert(views(ls@).take(i as int + 1).last() == ls@[i as int]@);
        let line = ls[i].as_slice();
        if is_marker_chars(line) {
            let name = section_name_chars(line);
            let was = cur;
            match was {
                Some(sec) => {
                    secs.push((sec, gathered));
                    gathered = Vec::new();
                    assert(sections_view(secs@) =~= before.0.push((before.1->Some_0, before.2)));
                },
                None => {},
            }
            if chars_eq(name.as_slice(), end.as_slice()) {
                cur = None;
            } else {
                cur = Some(name);
            }
        } else if cur.is_some() {
            append_line_chars(&mut gathered, line);
        }
        i = i + 1;
    }
    assert(views(ls@).take(n as int) =~= views(ls@));
    match cur {
        Some(sec) => {
            let ghost before = sections_view(secs@);
            secs.push((sec, gathered));
            assert(sections_view(secs@) =~= before.push((sec@, gathered@)));
        },
        None => {},
    }
    secs
}

/// The text of the last section named `key`, or nothing.
fn section_text_exec(secs: &Vec<(Vec<char>, Vec<char>)>, key: &str) -> (r: Vec<char>)
    ensures
        r@ == section_text(sections_view(secs@), key@),
{
    let k = chars_of(key);
    let n = secs.len();
    let mut j: usize = n;
    assert(sections_view(secs@).take(n as int) =~= sections_view(secs@));
    while j > 0
        invariant
            j <= n,
            n == secs@.len(),
            k@ == key@,
            lookup(sections_view(secs@), key@) == lookup(sections_view(secs@).take(j as int), key@),
        decreases j,
    {
        let ghost pre = sections_view(secs@).take(j as int);
        assert(pre.drop_last() =~= sections_view(secs@).take(j as int - 1));
        assert(pre.last() == (secs@[j - 1].0@, secs@[j - 1].1@));
        if chars_eq(secs[j - 1].0.as_slice(), k.as_slice()) {
            return copy_chars(secs[j - 1].1.as_slice());
        }
        j = j - 1;
    }
    Vec::new()
}

/// The template of a kind other than a plain URI carries exactly that
/// kind's system tag, and a bookmark made from it runs that kind's default
/// action; the plain URI template carries no tag and opens.
pub proof fn lemma_type_template_kind(t: SystemTag)
    ensures
        t !is Uri ==> type_template(t).3.len() == 1 && type_template(t).3[0] == system_tag_text(t),
        t is Uri ==> type_template(t).3.len() == 0,
        crate::actions::action_kind_of(type_template(t).3) == match t {
            SystemTag::Uri => crate::actions::ActionKind::Uri,
            SystemTag::Snippet => crate::actions::ActionKind::Snippet,
            SystemTag::Text => crate::actions::ActionKind::Text,
            SystemTag::Shell => crate::actions::ActionKind::Shell,
            SystemTag::Markdown => crate::actions::ActionKind::Markdown,
            SystemTag::Env => crate::actions::ActionKind::Env,
        },
{
    reveal_strlit("_snip_");
    reveal_strlit("_imported_");
    reveal_strlit("_shell_");
    reveal_strlit("_md_");
    reveal_strlit("_env_");
    let ts = type_template(t).3;
    if t !is Uri {
        let x = system_tag_text(t);
        assert(ts == seq![x]);
        assert(ts.contains(x)) by {
            assert(ts[0] == x);
        }
        assert forall|y: Seq<char>| ts.contains(y) implies y == x by {
            let k = choose|k: int| 0 <= k < ts.len() && ts[k] == y;
        }
        assert("_snip_"@ != "_shell_"@ && "_snip_"@ != "_env_"@ && "_snip_"@ != "_md_"@
            && "_snip_"@ != "_imported_"@) by {
            assert("_snip_"@[2] != "_shell_"@[2]);
            assert("_snip_"@[1] != "_env_"@[1]);
            assert("_snip_"@.len() != "_md_"@.len());
            assert("_snip_"@.len() != "_imported_"@.len());
        }
        assert("_shell_"@ != "_env_"@ && "_shell_"@ != "_md_"@ && "_shell_"@ != "_imported_"@) by {
            assert("_shell_"@.len() != "_env_"@.len());
            assert("_shell_"@.len() != "_md_"@.len());
            assert("_shell_"@.len() != "_imported_"@.len());
        }
        assert("_env_"@ != "_md_"@ && "_env_"@ != "_imported_"@) by {
            assert("_env_"@.len() != "_md_"@.len());
            assert("_env_"@.len() != "_imported_"@.len());
        }
        assert("_md_"@ != "_imported_"@) by {
            assert("_md_"@.len() != "_imported_"@.len());
        }
    } else {
        assert(!ts.contains("_snip_"@) && !ts.contains("_shell_"@) && !ts.contains("_env_"@)
            && !ts.contains("_md_"@) && !ts.contains("_imported_"@));
    }
}

/// The template a new bookmark of the kind `t` starts from: a kind's
/// example content, title and description, and its reserved tag.
pub open spec fn type_template(t: SystemTag) -> TemplateView {
    let tags = if t is Uri {
        Seq::empty()
    } else {
        seq![system_tag_text(t)]
    };
    match t {
        SystemTag::Snippet => (
            None,
            "// Enter your code snippet here"@,
            "New Code Snippet"@,
            tags,
            "Description of the snippet"@,
            false,
        ),
        SystemTag::Text => (
            None,
            "Enter your text content here"@,
            "New Text Document"@,
            tags,
            "Description of the text document"@,
            false,
        ),
        SystemTag::Shell => (
            None,
            "#!/bin/bash\n\n# Your shell script here\necho \"Hello World\""@,
            "New Shell Script"@,
            tags,
            "Description of the shell script"@,
            false,
        ),
        SystemTag::Markdown => (
            None,
            "# New Markdown Document\n\n## Introduction\n\nWrite your markdown content here.\n\n## Features\n\n- Lists\n- **Bold text**\n- *Italic text*\n- [Links](https://example.com)\n- Code blocks\n\n```rust\nfn main() {\n    println!(\"Hello, world!\");\n}\n```"@,
            "New Markdown Document"@,
            tags,
            "Description of the markdown document"@,
            true,
        ),
        SystemTag::Env => (
            None,
            "# Environment variables to be sourced\n# Usage: eval \"$(bkmr open <id>)\" or source <(bkmr open <id>)\n\nexport FOO=bar\nexport BAZ=qux\n\n# You can use interpolation too:\n# export DATE={{ current_date | strftime(\"%Y-%m-%d\") }}"@,
            "Environment Variables"@,
            tags,
            "Environment variables to be sourced in shell"@,
            false,
        ),
        SystemTag::Uri => (None, "https://"@, "New Bookmark"@, tags, "Enter description here"@, false),
    }
}

impl BookmarkTemplate {
    /// The template of a stored bookmark: its description becomes the
    /// comments.
    pub fn from_bookmark(bookmark: &Bookmark) -> (r: BookmarkTemplate)
        ensures
            r@ == (
                bookmark.id,
                bookmark.url@,
                bookmark.title@,
                tag_views(bookmark.tags@),
                bookmark.description@,
                bookmark.embeddable,
            ),
    {
        BookmarkTemplate {
            id: bookmark.id,
            url: bookmark.url.clone(),
            title: bookmark.title.clone(),
            tags: copy_tags(&bookmark.tags),
            comments: bookmark.description.clone(),
            embeddable: bookmark.embeddable,
        }
    }

    /// The empty template.
    pub fn new_empty() -> (r: BookmarkTemplate)
        ensures
            r@ == (None::<i32>, Seq::<char>::empty(), Seq::<char>::empty(), Seq::<Seq<char>>::empty(), Seq::<char>::empty(), false),
    {
        let r = BookmarkTemplate {
            id: None,
            url: String::new(),
            title: String::new(),
            tags: Vec::new(),
            comments: String::new(),
            embeddable: false,
        };
        assert(tag_views(r.tags@) =~= Seq::<Seq<char>>::empty());
        r
    }

    /// The template a new bookmark of the kind `system_tag` starts from.
    pub fn for_type(system_tag: SystemTag) -> (r: BookmarkTemplate)
        ensures
            r@ == type_template(system_tag),
    {
        let (url, title, comments, embeddable): (&str, &str, &str, bool) = match system_tag {
            SystemTag::Snippet => (
                "// Enter your code snippet here",
                "New Code Snippet",
                "Description of the snippet",
                false,
            ),
            SystemTag::Text => (
                "Enter your text content here",
                "New Text Document",
                "Description of the text document",
                false,
            ),
            SystemTag::Shell => (
                "#!/bin/bash\n\n# Your shell script here\necho \"Hello World\"",
                "New Shell Script",
                "Description of the shell script",
                false,
            ),
            SystemTag::Markdown => (
                "# New Markdown Document\n\n## Introduction\n\nWrite your markdown content here.\n\n## Features\n\n- Lists\n- **Bold text**\n- *Italic text*\n- [Links](https://example.com)\n- Code blocks\n\n```rust\nfn main() {\n    println!(\"Hello, world!\");\n}\n```",
                "New Markdown Document",
                "Description of the markdown document",
                true,
            ),
            SystemTag::Env => (
                "# Environment variables to be sourced\n# Usage: eval \"$(bkmr open <id>)\" or source <(bkmr open <id>)\n\nexport FOO=bar\nexport BAZ=qux\n\n# You can use interpolation too:\n# export DATE={{ current_date | strftime(\"%Y-%m-%d\") }}",
                "Environment Variables",
                "Environment variables to be sourced in shell",
                false,
            ),
            SystemTag::Uri => ("https://", "New Bookmark", "Enter description here", false),
        };
        let mut tags: Vec<Tag> = Vec::new();
        match system_tag {
            SystemTag::Uri => {},
            _ => {
                tags.push(system_tag.to_tag());
            },
        }
        let r = BookmarkTemplate {
            id: None,
            url: owned(url),
            title: owned(title),
            tags,
            comments: owned(comments),
            embeddable,
        };
        assert(tag_views(r.tags@) =~= type_template(system_tag).3);
        r
    }
}

impl BookmarkTemplate {
    /// Reads an edited template back: the sections ID, URL, TITLE, TAGS,
    /// COMMENTS and EMBEDDABLE, trimmed but for the comments.
    pub fn from_string(content: &str) -> (r: Result<BookmarkTemplate, ApplicationError>)
        ensures
            match parse_template(content@) {
                Ok(v) => r matches Ok(t) && t@ == v,
                Err(m) => r matches Err(e) && e is Validation && e->Validation_0@ == m,
            },
    {
        let secs = parse_sections(content);
        let id_raw = section_text_exec(&secs, "ID");
        let id_str = trim_chars(id_raw.as_slice());
        let url_raw = section_text_exec(&secs, "URL");
        let url = trim_chars(url_raw.as_slice());
        let title_raw = section_text_exec(&secs, "TITLE");
        let title = trim_chars(title_raw.as_slice());
        let tags_raw = section_text_exec(&secs, "TAGS");
        let tags_str = trim_chars(tags_raw.as_slice());
        let comments = section_text_exec(&secs, "COMMENTS");
        let emb_raw = section_text_exec(&secs, "EMBEDDABLE");
        let emb_str = trim_chars(emb_raw.as_slice());
        let emb_string = string_of(emb_str.as_slice());
        let emb = to_lowercase(emb_string.as_str());
        let id = if id_str.len() > 0 {
            match parse_i32_chars(id_str.as_slice()) {
                Some(v) => Some(v),
                None => {
                    let s = string_of(id_str.as_slice());
                    return Err(ApplicationError::Validation(concat("Invalid ID format: ", s.as_str())));
                },
            }
        } else {
            None
        };
        if url.len() == 0 {
            return Err(ApplicationError::Validation(owned("URL cannot be empty")));
        }
        let tags = if tags_str.len() > 0 {
            let ts = string_of(tags_str.as_slice());
            match Tag::parse_tags(ts.as_str()) {
                Ok(v) => v,
                Err(e) => {
                    let m = e.message();
                    return Err(ApplicationError::Validation(concat("Invalid tags format: ", m.as_str())));
                },
            }
        } else {
            Vec::new()
        };
        let ec = chars_of(emb.as_str());
        let yes = chars_eq(ec.as_slice(), chars_of("true").as_slice()) || chars_eq(
            ec.as_slice(),
            chars_of("yes").as_slice(),
        ) || chars_eq(ec.as_slice(), chars_of("1").as_slice());
        let no = chars_eq(ec.as_slice(), chars_of("false").as_slice()) || chars_eq(
            ec.as_slice(),
            chars_of("no").as_slice(),
        ) || chars_eq(ec.as_slice(), chars_of("0").as_slice()) || ec.len() == 0;
        if !yes && !no {
            let mut m = owned("Invalid embeddable format: ");
            m.append(emb_string.as_str());
            m.append(" (use true/false)");
            return Err(ApplicationError::Validation(m));
        }
        Ok(
            BookmarkTemplate {
                id,
                url: string_of(url.as_slice()),
                title: string_of(title.as_slice()),
                tags,
                comments: string_of(comments.as_slice()),
                embeddable: yes,
            },
        )
    }
}

} // verus!

verus! {

/// The text that the embeddable flag is written as.
pub open spec fn flag_text(b: bool) -> Seq<char> {
    if b {
        "true"@
    } else {
        "false"@
    }
}

/// The text that an optional id is written as.
pub open spec fn id_text(id: Option<i32>) -> Seq<char> {
    match id {
        Some(n) => i32_text(n),
        None => Seq::empty(),
    }
}

/// The header lines of a template.
pub open spec fn header_lines() -> Seq<Seq<char>> {
    seq![
        "# Bookmark Template"@,
        "# Lines starting with '#' are comments and will be ignored."@,
        "# Section markers (---SECTION_NAME---) are required and must not be removed."@,
        Seq::<char>::empty(),
    ]
}

/// The lines of the rendered template, each of which may itself hold line
/// breaks.
pub open spec fn template_lines(v: TemplateView) -> Seq<Seq<char>> {
    header_lines() + seq![
        "---ID---"@,
        id_text(v.0),
        "---URL---"@,
        v.1,
        "---TITLE---"@,
        v.2,
        "---TAGS---"@,
        join(v.3, seq![',']),
        "---COMMENTS---"@,
        v.4,
        "---EMBEDDABLE---"@,
        flag_text(v.5),
        "---END---"@,
    ]
}

/// The rendered template text.
pub open spec fn template_text(v: TemplateView) -> Seq<char> {
    join(template_lines(v), seq!['\n']).push('\n')
}

/// `parts` joined with `sep`.
fn join_strings(parts: &Vec<String>, sep: char) -> (r: String)
    ensures
        r@ == join(string_views(parts@), seq![sep]),
{
    let mut r = String::new();
    let n = parts.len();
    let mut i: usize = 0;
    assert(string_views(parts@).take(0) =~= Seq::<Seq<char>>::empty());
    while i < n
        invariant
            i <= n,
            n == parts@.len(),
            r@ == join(string_views(parts@).take(i as int), seq![sep]),
        decreases n - i,
    {
        let ghost pre = string_views(parts@).take(i as int);
        assert(string_views(parts@).take(i as int + 1).drop_last() =~= pre);
        assert(string_views(parts@).take(i as int + 1).last() == parts@[i as int]@);
        if i > 0 {
            let mut s = String::new();
            s.append(r.as_str());
            crate::text::push_char_pub(&mut s, sep);
            s.append(parts[i].as_str());
            r = s;
        } else {
            r.append(parts[i].as_str());
            assert(string_views(parts@).take(1) =~= seq![parts@[0]@]);
        }
        i = i + 1;
    }
    assert(string_views(parts@).take(n as int) =~= string_views(parts@));
    r
}

/// The texts of `tags` joined with commas.
pub fn tags_text(tags: &Vec<Tag>) -> (r: String)
    ensures
        r@ == join(tag_views(tags@), seq![',']),
{
    let mut parts: Vec<String> = Vec::new();
    let n = tags.len();
    let mut i: usize = 0;
    while i < n
        invariant
            i <= n,
            n == tags@.len(),
            string_views(parts@) == tag_views(tags@).take(i as int),
        decreases n - i,
    {
        let v = owned(tags[i].value());
        assert(v@ == tags@[i as int]@);
        let ghost old_parts = parts@;
        assert(old_parts.len() == i) by {
            assert(string_views(old_parts).len() == old_parts.len());
        }
        parts.push(v);
        assert(parts@.len() == i + 1);
        assert(string_views(parts@) =~= tag_views(tags@).take(i as int + 1)) by {
            assert forall|k: int| 0 <= k < i + 1 implies #[trigger] string_views(parts@)[k]
                == tag_views(tags@).take(i as int + 1)[k] by {
                if k < i {
                    assert(string_views(parts@)[k] == parts@[k]@);
                }
            }
        }
        i = i + 1;
    }
    assert(tag_views(tags@).take(n as int) =~= tag_views(tags@));
    join_strings(&parts, ',')
}

impl BookmarkTemplate {
    /// The template text: a commented header, then the sections ID, URL,
    /// TITLE, TAGS, COMMENTS and EMBEDDABLE, each after its marker line,
    /// and the END marker.
    pub fn to_string(&self) -> (r: String)
        ensures
            r@ == template_text(self@),
    {
        let mut lines: Vec<String> = Vec::new();
        lines.push(owned("# Bookmark Template"));
        lines.push(owned("# Lines starting with '#' are comments and will be ignored."));
        lines.push(
            owned("# Section markers (---SECTION_NAME---) are required and must not be removed."),
        );
        lines.push(String::new());
        lines.push(owned("---ID---"));
        lines.push(
            match self.id {
                Some(n) => format_i32(n),
                None => String::new(),
            },
        );
        lines.push(owned("---URL---"));
        lines.push(self.url.clone());
        lines.push(owned("---TITLE---"));
        lines.push(self.title.clone());
        lines.push(owned("---TAGS---"));
        lines.push(tags_text(&self.tags));
        lines.push(owned("---COMMENTS---"));
        lines.push(self.comments.clone());
        lines.push(owned("---EMBEDDABLE---"));
        lines.push(
            if self.embeddable {
                owned("true")
            } else {
                owned("false")
            },
        );
        lines.push(owned("---END---"));
        assert(string_views(lines@) =~= template_lines(self@));
        let mut r = join_strings(&lines, '\n');
        crate::text::push_char_pub(&mut r, '\n');
        r
    }
}

} // verus!

verus! {

/// The text a section gathers from the lines `ls`.
pub open spec fn accum(ls: Seq<Seq<char>>) -> Seq<char>
    decreases ls.len(),
{
    if ls.len() == 0 {
        Seq::empty()
    } else {
        append_line(accum(ls.drop_last()), ls.last())
    }
}

/// The pieces between line breaks of every text of `ls`, in order.
pub open spec fn split_all(ls: Seq<Seq<char>>) -> Seq<Seq<char>>
    decreases ls.len(),
{
    if ls.len() == 0 {
        Seq::empty()
    } else {
        split_all(ls.drop_last()) + split(ls.last(), '\n')
    }
}

/// Whether no line of `x` is a section marker.
pub open spec fn no_marker_lines(x: Seq<char>) -> bool {
    forall|i: int| 0 <= i < split(x, '\n').len() ==> !is_marker(#[trigger] split(x, '\n')[i])
}

/// A marker line announcing the section `name`.
pub open spec fn marker(name: Seq<char>) -> Seq<char> {
    seq!['-', '-', '-'] + name + seq!['-', '-', '-']
}

/// The sections once the open section, if any, is closed.
pub open spec fn close(st: ParseState) -> Sections {
    match st.1 {
        Some(sec) => st.0.push((sec, st.2)),
        None => st.0,
    }
}

proof fn lemma_run_concat(st: ParseState, a: Seq<Seq<char>>, b: Seq<Seq<char>>)
    ensures
        run(st, a + b) == run(run(st, a), b),
    decreases b.len(),
{
    if b.len() == 0 {
        assert(a + b =~= a);
    } else {
        assert((a + b).drop_last() =~= a + b.drop_last());
        assert((a + b).last() == b.last());
        lemma_run_concat(st, a, b.drop_last());
    }
}

proof fn lemma_split_all_concat(a: Seq<Seq<char>>, b: Seq<Seq<char>>)
    ensures
        split_all(a + b) == split_all(a) + split_all(b),
    decreases b.len(),
{
    if b.len() == 0 {
        assert(a + b =~= a);
        assert(split_all(a) + split_all(b) =~= split_all(a));
    } else {
        assert((a + b).drop_last() =~= a + b.drop_last());
        assert((a + b).last() == b.last());
        lemma_split_all_concat(a, b.drop_last());
        assert(split_all(a + b) =~= split_all(a) + split_all(b));
    }
}

proof fn lemma_split_all_one(x: Seq<char>)
    ensures
        split_all(seq![x]) == split(x, '\n'),
{
    assert(seq![x].drop_last() =~= Seq::<Seq<char>>::empty());
    assert(split_all(Seq::<Seq<char>>::empty()) == Seq::<Seq<char>>::empty());
    assert(Seq::<Seq<char>>::empty() + split(x, '\n') =~= split(x, '\n'));
}

proof fn lemma_split_all_two(x: Seq<char>, y: Seq<char>)
    ensures
        split_all(seq![x, y]) == split(x, '\n') + split(y, '\n'),
{
    lemma_split_all_one(x);
    assert(seq![x, y].drop_last() =~= seq![x]);
}

proof fn lemma_run_one(st: ParseState, l: Seq<char>)
    ensures
        run(st, seq![l]) == step(st, l),
{
    assert(seq![l].drop_last() =~= Seq::<Seq<char>>::empty());
    assert(run(st, Seq::<Seq<char>>::empty()) == st);
    assert(seq![l].last() == l);
}

proof fn lemma_split_join(ls: Seq<Seq<char>>)
    requires
        ls.len() >= 1,
    ensures
        split(join(ls, seq!['\n']), '\n') == split_all(ls),
    decreases ls.len(),
{
    if ls.len() == 1 {
        lemma_split_all_one(ls[0]);
        assert(ls =~= seq![ls[0]]);
    } else {
        lemma_split_join(ls.drop_last());
        crate::text::lemma_split_concat(join(ls.drop_last(), seq!['\n']), ls.last(), '\n');
    }
}

proof fn lemma_join_without(ls: Seq<Seq<char>>, sep: char, c: char)
    requires
        sep != c,
        forall|i: int| 0 <= i < ls.len() ==> !(#[trigger] ls[i]).contains(c),
    ensures
        !join(ls, seq![sep]).contains(c),
    decreases ls.len(),
{
    if ls.len() > 1 {
        lemma_join_without(ls.drop_last(), sep, c);
        let a = join(ls.drop_last(), seq![sep]);
        let l = ls.last();
        assert(!l.contains(c)) by {
            assert(ls[ls.len() - 1] == l);
        }
        if (a + seq![sep] + l).contains(c) {
            let k = choose|k: int| 0 <= k < (a + seq![sep] + l).len() && (a + seq![sep] + l)[k] == c;
            if k < a.len() {
                assert(a[k] == c);
            } else if k > a.len() {
                assert(l[k - a.len() - 1] == c);
            }
        }
    } else if ls.len() == 1 {
        assert(!ls[0].contains(c));
    }
}

proof fn lemma_accum_push_char(r: Seq<Seq<char>>, c: char)
    requires
        r.len() >= 1,
    ensures
        accum(r.update(r.len() - 1, r.last().push(c))) == accum(r).push(c),
{
    let r2 = r.update(r.len() - 1, r.last().push(c));
    assert(r2.drop_last() =~= r.drop_last());
    assert(r2.last() == r.last().push(c));
    let a = accum(r.drop_last());
    if a.len() == 0 {
        assert(append_line(a, r.last().push(c)) == r.last().push(c));
    } else {
        assert(a + seq!['\n'] + r.last().push(c) =~= (a + seq!['\n'] + r.last()).push(c));
    }
}

proof fn lemma_accum_split(x: Seq<char>)
    ensures
        accum(split(x, '\n')) == crate::text::strip_newlines(x),
    decreases x.len(),
{
    if x.len() == 0 {
        let e = Seq::<char>::empty();
        assert(split(x, '\n') == seq![e]);
        assert(seq![e].drop_last() =~= Seq::<Seq<char>>::empty());
        assert(accum(seq![e]) == append_line(accum(Seq::<Seq<char>>::empty()), e));
        assert(accum(split(x, '\n')) =~= e);
        assert(x =~= e);
    } else {
        let y = x.drop_last();
        let c = x.last();
        lemma_accum_split(y);
        crate::text::lemma_split_len(y, '\n');
        crate::text::lemma_strip_newlines_push(y, c);
        assert(y.push(c) =~= x);
        let r = split(y, '\n');
        if c == '\n' {
            let e = Seq::<char>::empty();
            assert(split(x, '\n') == r.push(e));
            assert(r.push(e).drop_last() =~= r);
            assert(accum(r.push(e)) == append_line(accum(r), e));
            let a = accum(r);
            if a.len() > 0 {
                assert(a + seq!['\n'] + e =~= a.push('\n'));
            }
        } else {
            assert(split(x, '\n') == r.update(r.len() - 1, r.last().push(c)));
            lemma_accum_push_char(r, c);
        }
    }
}

proof fn lemma_run_inert(st: ParseState, ls: Seq<Seq<char>>)
    requires
        st.1 is None,
        forall|i: int| 0 <= i < ls.len() ==> !is_marker(#[trigger] ls[i]),
    ensures
        run(st, ls) == st,
    decreases ls.len(),
{
    if ls.len() > 0 {
        assert(!is_marker(ls[ls.len() - 1]));
        lemma_run_inert(st, ls.drop_last());
    }
}

proof fn lemma_run_field(st: ParseState, ls: Seq<Seq<char>>)
    requires
        st.1 is Some,
        forall|i: int| 0 <= i < ls.len() ==> !is_marker(#[trigger] ls[i]),
    ensures
        run(st, ls) == (st.0, st.1, if ls.len() == 0 {
            st.2
        } else {
            accum_from(st.2, ls)
        }),
    decreases ls.len(),
{
    if ls.len() > 0 {
        assert(!is_marker(ls[ls.len() - 1]));
        lemma_run_field(st, ls.drop_last());
    }
}

/// The text gathered from `ls` after the text `c`.
pub open spec fn accum_from(c: Seq<char>, ls: Seq<Seq<char>>) -> Seq<char>
    decreases ls.len(),
{
    if ls.len() == 0 {
        c
    } else {
        append_line(accum_from(c, ls.drop_last()), ls.last())
    }
}

proof fn lemma_accum_from_empty(ls: Seq<Seq<char>>)
    ensures
        accum_from(Seq::empty(), ls) == accum(ls),
    decreases ls.len(),
{
    if ls.len() > 0 {
        lemma_accum_from_empty(ls.drop_last());
    }
}

proof fn lemma_strip_prefix_name(name: Seq<char>)
    requires
        name.len() > 0,
        name[0] != '-',
    ensures
        strip_dash_prefix(marker(name)) == name + seq!['-', '-', '-'],
{
    let m = marker(name);
    let t = name + seq!['-', '-', '-'];
    assert(m.skip(3) =~= t);
    assert(m[0] == '-' && m[1] == '-' && m[2] == '-');
    assert(strip_dash_prefix(m) == strip_dash_prefix(m.skip(3)));
    assert(t[0] == name[0]);
    assert(strip_dash_prefix(t) == t);
}

proof fn lemma_strip_suffix_name(name: Seq<char>)
    requires
        name.len() > 0,
        name.last() != '-',
    ensures
        strip_dash_suffix(name + seq!['-', '-', '-']) == name,
{
    let m = name + seq!['-', '-', '-'];
    assert(m.take(m.len() - 3) =~= name);
    assert(m[m.len() - 1] == '-' && m[m.len() - 2] == '-' && m[m.len() - 3] == '-');
    assert(strip_dash_suffix(m) == strip_dash_suffix(m.take(m.len() - 3)));
    assert(name[name.len() - 1] == name.last());
    assert(strip_dash_suffix(name) == name);
}

proof fn lemma_marker(name: Seq<char>)
    requires
        name.len() > 0,
        name[0] != '-',
        name.last() != '-',
        !name.contains('\n'),
    ensures
        is_marker(marker(name)),
        section_name(marker(name)) == name,
        split(marker(name), '\n') == seq![marker(name)],
{
    lemma_strip_prefix_name(name);
    lemma_strip_suffix_name(name);
    assert(!marker(name).contains('\n')) by {
        if marker(name).contains('\n') {
            let k = choose|k: int| 0 <= k < marker(name).len() && marker(name)[k] == '\n';
            if 3 <= k < 3 + name.len() {
                assert(name[k - 3] == '\n');
            }
        }
    }
    crate::text::lemma_split_single(marker(name), '\n');
}

/// A marker and the field after it: the open section closes, the named
/// one opens and gathers the field.
proof fn lemma_block(st: ParseState, name: Seq<char>, field: Seq<char>)
    requires
        st.1 is None ==> st.2 == Seq::<char>::empty(),
        name.len() > 0,
        name[0] != '-',
        name.last() != '-',
        !name.contains('\n'),
        name != "END"@,
        no_marker_lines(field),
    ensures
        run(st, split_all(seq![marker(name), field])) == (
            close(st),
            Some(name),
            crate::text::strip_newlines(field),
        ),
{
    lemma_marker(name);
    lemma_split_all_two(marker(name), field);
    lemma_run_concat(st, seq![marker(name)], split(field, '\n'));
    let st1 = run(st, seq![marker(name)]);
    lemma_run_one(st, marker(name));
    assert(st1 == (close(st), Some(name), Seq::<char>::empty()));
    lemma_run_field(st1, split(field, '\n'));
    crate::text::lemma_split_len(field, '\n');
    lemma_accum_from_empty(split(field, '\n'));
    lemma_accum_split(field);
}

/// The END marker closes the open section.
proof fn lemma_end(st: ParseState)
    requires
        st.1 is Some,
    ensures
        run(st, split_all(seq!["---END---"@])) == (close(st), None::<Seq<char>>, Seq::<char>::empty()),
{
    reveal_strlit("---END---");
    reveal_strlit("END");
    assert("---END---"@ =~= marker("END"@));
    lemma_marker("END"@);
    lemma_split_all_one("---END---"@);
    lemma_run_one(st, "---END---"@);
}

} // verus!

verus! {

/// Whether a free-text field comes back from the template as written, up
/// to trimming: no carriage return and no line that reads as a marker.
pub open spec fn clean_field(x: Seq<char>) -> bool {
    !x.contains('\r') && no_marker_lines(x)
}

/// The templates that the text form carries over: a URL that is not blank,
/// clean free-text fields, comments that do not begin with a line break,
/// distinct valid tags whose list does not read as a marker.
pub open spec fn roundtrip_ready(v: TemplateView) -> bool {
    &&& trim(v.1).len() > 0
    &&& clean_field(v.1)
    &&& clean_field(v.2)
    &&& clean_field(v.4)
    &&& (v.4.len() == 0 || v.4[0] != '\n')
    &&& forall|i: int| 0 <= i < v.3.len() ==> valid_tag(#[trigger] v.3[i])
    &&& v.3.no_duplicates()
    &&& !is_marker(join(v.3, seq![',']))
}

/// A template as it reads back: URL and title trimmed.
pub open spec fn normalized(v: TemplateView) -> TemplateView {
    (v.0, trim(v.1), trim(v.2), v.3, v.4, v.5)
}

proof fn lemma_no_ws_trim(x: Seq<char>)
    requires
        !has_ws(x),
    ensures
        trim(x) == x,
{
    if x.len() > 0 {
        assert(!is_ws(x[0]));
        assert(!is_ws(x[x.len() - 1]));
    }
    crate::text::lemma_trim_fixed(x);
}

proof fn lemma_no_nl_single_line(x: Seq<char>)
    requires
        !x.contains('\n'),
        !is_marker(x),
    ensures
        split(x, '\n') == seq![x],
        no_marker_lines(x),
        crate::text::strip_newlines(x) == x,
{
    crate::text::lemma_split_single(x, '\n');
    if x.len() > 0 {
        assert(x[0] != '\n');
    }
}

proof fn lemma_i32_text_shape(n: i32)
    ensures
        !has_ws(i32_text(n)),
        !i32_text(n).contains('\n'),
        !i32_text(n).contains('\r'),
        !is_marker(i32_text(n)),
        i32_text(n).len() > 0,
{
    let t = i32_text(n);
    if n < 0 {
        crate::num::lemma_decimal((-n) as nat);
        let d = crate::num::decimal((-n) as nat);
        assert(forall|i: int| 1 <= i < t.len() ==> t[i] == d[i - 1]);
        assert(forall|i: int| 1 <= i < t.len() ==> crate::num::is_digit(#[trigger] t[i]));
    } else {
        crate::num::lemma_decimal(n as nat);
    }
    assert(forall|i: int| 0 <= i < t.len() ==> t[i] == '-' || crate::num::is_digit(#[trigger] t[i]));
    if t.len() >= 2 {
        assert(crate::num::is_digit(t[1]));
    }
}

proof fn lemma_join_tags_no_ws(ts: Seq<Seq<char>>)
    requires
        forall|i: int| 0 <= i < ts.len() ==> valid_tag(#[trigger] ts[i]),
    ensures
        !has_ws(join(ts, seq![','])),
        (join(ts, seq![',']).len() == 0) == (ts.len() == 0),
    decreases ts.len(),
{
    if ts.len() == 1 {
        assert(valid_tag(ts[0]));
    } else if ts.len() > 1 {
        let p = ts.drop_last();
        assert forall|i: int| 0 <= i < p.len() implies valid_tag(#[trigger] p[i]) by {
            assert(p[i] == ts[i]);
        }
        lemma_join_tags_no_ws(p);
        let a = join(p, seq![',']);
        let l = ts.last();
        assert(valid_tag(ts[ts.len() - 1]));
        let j = a + seq![','] + l;
        assert forall|k: int| 0 <= k < j.len() implies !is_ws(#[trigger] j[k]) by {
            if k < a.len() {
                assert(j[k] == a[k]);
            } else if k > a.len() {
                assert(j[k] == l[k - a.len() - 1]);
            }
        }
    }
}

proof fn lemma_split_join_sep(ts: Seq<Seq<char>>, c: char)
    requires
        ts.len() >= 1,
        forall|i: int| 0 <= i < ts.len() ==> !(#[trigger] ts[i]).contains(c),
    ensures
        split(join(ts, seq![c]), c) == ts,
    decreases ts.len(),
{
    if ts.len() == 1 {
        assert(!ts[0].contains(c));
        crate::text::lemma_split_single(ts[0], c);
        assert(ts =~= seq![ts[0]]);
    } else {
        let p = ts.drop_last();
        assert forall|i: int| 0 <= i < p.len() implies !(#[trigger] p[i]).contains(c) by {
            assert(p[i] == ts[i]);
        }
        lemma_split_join_sep(p, c);
        crate::text::lemma_split_concat(join(p, seq![c]), ts.last(), c);
        assert(!ts[ts.len() - 1].contains(c));
        crate::text::lemma_split_single(ts.last(), c);
        assert(p + seq![ts.last()] =~= ts);
    }
}

proof fn lemma_nonempty_trimmed_valid(ts: Seq<Seq<char>>)
    requires
        forall|i: int| 0 <= i < ts.len() ==> valid_tag(#[trigger] ts[i]),
    ensures
        crate::tag::nonempty_trimmed(ts) == ts,
    decreases ts.len(),
{
    if ts.len() > 0 {
        let p = ts.drop_last();
        assert forall|i: int| 0 <= i < p.len() implies valid_tag(#[trigger] p[i]) by {
            assert(p[i] == ts[i]);
        }
        lemma_nonempty_trimmed_valid(p);
        assert(valid_tag(ts[ts.len() - 1]));
        lemma_no_ws_trim(ts.last());
        assert(p.push(ts.last()) =~= ts);
    }
}

proof fn lemma_dedup_distinct(ts: Seq<Seq<char>>)
    requires
        ts.no_duplicates(),
    ensures
        crate::tag::dedup(ts) == ts,
    decreases ts.len(),
{
    if ts.len() > 0 {
        let p = ts.drop_last();
        assert(p.no_duplicates());
        lemma_dedup_distinct(p);
        assert(!p.contains(ts.last())) by {
            if p.contains(ts.last()) {
                let k = choose|k: int| 0 <= k < p.len() && p[k] == ts.last();
                assert(ts[k] == ts[ts.len() - 1]);
            }
        }
        assert(p.push(ts.last()) =~= ts);
    }
}

proof fn lemma_run_inert_lines(st: ParseState, ls: Seq<Seq<char>>)
    requires
        st.1 is None,
        forall|i: int| 0 <= i < ls.len() ==> !(#[trigger] ls[i]).contains('\n') && !is_marker(ls[i]),
    ensures
        run(st, split_all(ls)) == st,
    decreases ls.len(),
{
    if ls.len() > 0 {
        let p = ls.drop_last();
        assert forall|i: int| 0 <= i < p.len() implies !(#[trigger] p[i]).contains('\n')
            && !is_marker(p[i]) by {
            assert(p[i] == ls[i]);
        }
        lemma_run_inert_lines(st, p);
        assert(!ls[ls.len() - 1].contains('\n') && !is_marker(ls[ls.len() - 1]));
        crate::text::lemma_split_single(ls.last(), '\n');
        lemma_run_concat(st, split_all(p), split(ls.last(), '\n'));
        lemma_run_one(st, ls.last());
    }
}

proof fn lemma_header()
    ensures
        run(start_state(), split_all(header_lines())) == start_state(),
        forall|i: int| 0 <= i < header_lines().len() ==> !(#[trigger] header_lines()[i]).contains('\r'),
{
    reveal_strlit("# Bookmark Template");
    reveal_strlit("# Lines starting with '#' are comments and will be ignored.");
    reveal_strlit("# Section markers (---SECTION_NAME---) are required and must not be removed.");
    let h = header_lines();
    assert(!h[0].contains('\n') && !h[0].contains('\r') && !is_marker(h[0]));
    assert(!h[1].contains('\n') && !h[1].contains('\r') && !is_marker(h[1]));
    assert(!h[2].contains('\n') && !h[2].contains('\r') && !is_marker(h[2]));
    assert(!h[3].contains('\n') && !h[3].contains('\r') && !is_marker(h[3]));
    lemma_run_inert_lines(start_state(), h);
}

/// The facts about a section name that a marker needs.
pub open spec fn good_name(n: Seq<char>) -> bool {
    &&& n.len() > 0
    &&& n[0] != '-'
    &&& n.last() != '-'
    &&& !n.contains('\n')
    &&& !n.contains('\r')
    &&& n != "END"@
}

proof fn lemma_names()
    ensures
        good_name("ID"@),
        good_name("URL"@),
        good_name("TITLE"@),
        good_name("TAGS"@),
        good_name("COMMENTS"@),
        good_name("EMBEDDABLE"@),
        "---ID---"@ == marker("ID"@),
        "---URL---"@ == marker("URL"@),
        "---TITLE---"@ == marker("TITLE"@),
        "---TAGS---"@ == marker("TAGS"@),
        "---COMMENTS---"@ == marker("COMMENTS"@),
        "---EMBEDDABLE---"@ == marker("EMBEDDABLE"@),
        !"---END---"@.contains('\r'),
        "ID"@.len() == 2,
        "URL"@.len() == 3,
        "TITLE"@.len() == 5,
        "TAGS"@.len() == 4,
        "COMMENTS"@.len() == 8,
        "EMBEDDABLE"@.len() == 10,
{
    reveal_strlit("ID");
    reveal_strlit("URL");
    reveal_strlit("TITLE");
    reveal_strlit("TAGS");
    reveal_strlit("COMMENTS");
    reveal_strlit("EMBEDDABLE");
    reveal_strlit("END");
    reveal_strlit("---ID---");
    reveal_strlit("---URL---");
    reveal_strlit("---TITLE---");
    reveal_strlit("---TAGS---");
    reveal_strlit("---COMMENTS---");
    reveal_strlit("---EMBEDDABLE---");
    reveal_strlit("---END---");
    assert("---ID---"@ =~= marker("ID"@));
    assert("---URL---"@ =~= marker("URL"@));
    assert("---TITLE---"@ =~= marker("TITLE"@));
    assert("---TAGS---"@ =~= marker("TAGS"@));
    assert("---COMMENTS---"@ =~= marker("COMMENTS"@));
    assert("---EMBEDDABLE---"@ =~= marker("EMBEDDABLE"@));
    assert("URL"@ != "END"@) by {
        assert("URL"@[0] != "END"@[0]);
    }
}

proof fn lemma_flag(b: bool)
    ensures
        !flag_text(b).contains('\n'),
        !flag_text(b).contains('\r'),
        !is_marker(flag_text(b)),
        !has_ws(flag_text(b)),
        flag_text(b).len() > 0,
        crate::text::is_ascii_text(flag_text(b)),
        crate::text::ascii_lower(flag_text(b)) == flag_text(b),
        means_yes(flag_text(b)) == b,
        b || means_no(flag_text(b)),
{
    reveal_strlit("true");
    reveal_strlit("false");
    reveal_strlit("yes");
    reveal_strlit("1");
    reveal_strlit("no");
    reveal_strlit("0");
    assert(crate::text::ascii_lower("true"@) =~= "true"@);
    assert(crate::text::ascii_lower("false"@) =~= "false"@);
    assert("false"@ != "true"@);
}

} // verus!

verus! {

/// The sections a rendered template reads back as.
pub open spec fn rendered_sections(v: TemplateView) -> Sections {
    seq![
        ("ID"@, id_text(v.0)),
        ("URL"@, crate::text::strip_newlines(v.1)),
        ("TITLE"@, crate::text::strip_newlines(v.2)),
        ("TAGS"@, join(v.3, seq![','])),
        ("COMMENTS"@, v.4),
        ("EMBEDDABLE"@, flag_text(v.5)),
    ]
}

proof fn lemma_no_nl_of_no_ws(x: Seq<char>)
    requires
        !has_ws(x),
    ensures
        !x.contains('\n'),
        !x.contains('\r'),
{
    if x.contains('\n') {
        let k = choose|k: int| 0 <= k < x.len() && x[k] == '\n';
        assert(is_ws(x[k]));
    }
    if x.contains('\r') {
        let k = choose|k: int| 0 <= k < x.len() && x[k] == '\r';
        assert(is_ws(x[k]));
    }
}

proof fn lemma_rendered_sections(v: TemplateView)
    requires
        roundtrip_ready(v),
    ensures
        parse_sections_spec(template_text(v)) == rendered_sections(v),
{
    let l = template_lines(v);
    let idt = id_text(v.0);
    let tj = join(v.3, seq![',']);
    let fl = flag_text(v.5);
    lemma_names();
    lemma_flag(v.5);
    lemma_header();
    match v.0 {
        Some(n) => lemma_i32_text_shape(n),
        None => {},
    }
    lemma_join_tags_no_ws(v.3);
    lemma_no_nl_of_no_ws(tj);
    assert(!idt.contains('\n') && !idt.contains('\r') && !is_marker(idt));
    assert forall|i: int| 0 <= i < l.len() implies !(#[trigger] l[i]).contains('\r') by {
        if i < 4 {
            assert(l[i] == header_lines()[i]);
        }
    }
    lemma_join_without(l, '\n', '\r');
    assert(template_text(v) =~= join(l, seq!['\n']) + seq!['\n']);
    crate::text::lemma_lines_of_terminated(join(l, seq!['\n']));
    lemma_split_join(l);
    let h = header_lines();
    let b1 = seq![marker("ID"@), idt];
    let b2 = seq![marker("URL"@), v.1];
    let b3 = seq![marker("TITLE"@), v.2];
    let b4 = seq![marker("TAGS"@), tj];
    let b5 = seq![marker("COMMENTS"@), v.4];
    let b6 = seq![marker("EMBEDDABLE"@), fl];
    let e = seq!["---END---"@];
    assert(l =~= h + b1 + b2 + b3 + b4 + b5 + b6 + e);
    lemma_split_all_concat(h + b1 + b2 + b3 + b4 + b5 + b6, e);
    lemma_split_all_concat(h + b1 + b2 + b3 + b4 + b5, b6);
    lemma_split_all_concat(h + b1 + b2 + b3 + b4, b5);
    lemma_split_all_concat(h + b1 + b2 + b3, b4);
    lemma_split_all_concat(h + b1 + b2, b3);
    lemma_split_all_concat(h + b1, b2);
    lemma_split_all_concat(h, b1);
    let st = start_state();
    let s0 = run(st, split_all(h));
    lemma_run_concat(st, split_all(h), split_all(b1));
    lemma_no_nl_single_line(idt);
    lemma_block(s0, "ID"@, idt);
    let s1 = run(s0, split_all(b1));
    lemma_run_concat(st, split_all(h) + split_all(b1), split_all(b2));
    lemma_block(s1, "URL"@, v.1);
    let s2 = run(s1, split_all(b2));
    lemma_run_concat(st, split_all(h) + split_all(b1) + split_all(b2), split_all(b3));
    lemma_block(s2, "TITLE"@, v.2);
    let s3 = run(s2, split_all(b3));
    lemma_run_concat(
        st,
        split_all(h) + split_all(b1) + split_all(b2) + split_all(b3),
        split_all(b4),
    );
    lemma_no_nl_single_line(tj);
    lemma_block(s3, "TAGS"@, tj);
    let s4 = run(s3, split_all(b4));
    lemma_run_concat(
        st,
        split_all(h) + split_all(b1) + split_all(b2) + split_all(b3) + split_all(b4),
        split_all(b5),
    );
    lemma_block(s4, "COMMENTS"@, v.4);
    let s5 = run(s4, split_all(b5));
    lemma_run_concat(
        st,
        split_all(h) + split_all(b1) + split_all(b2) + split_all(b3) + split_all(b4) + split_all(
            b5,
        ),
        split_all(b6),
    );
    lemma_no_nl_single_line(fl);
    lemma_block(s5, "EMBEDDABLE"@, fl);
    let s6 = run(s5, split_all(b6));
    lemma_run_concat(
        st,
        split_all(h) + split_all(b1) + split_all(b2) + split_all(b3) + split_all(b4) + split_all(
            b5,
        ) + split_all(b6),
        split_all(e),
    );
    lemma_end(s6);
    if v.4.len() > 0 {
        assert(crate::text::strip_newlines(v.4) == v.4);
    } else {
        assert(crate::text::strip_newlines(v.4) == v.4);
    }
    assert(finish(run(s6, split_all(e))) =~= rendered_sections(v));
}

} // verus!

verus! {

proof fn lemma_lookup_rendered(v: TemplateView)
    ensures
        section_text(rendered_sections(v), "ID"@) == id_text(v.0),
        section_text(rendered_sections(v), "URL"@) == crate::text::strip_newlines(v.1),
        section_text(rendered_sections(v), "TITLE"@) == crate::text::strip_newlines(v.2),
        section_text(rendered_sections(v), "TAGS"@) == join(v.3, seq![',']),
        section_text(rendered_sections(v), "COMMENTS"@) == v.4,
        section_text(rendered_sections(v), "EMBEDDABLE"@) == flag_text(v.5),
{
    lemma_names();
    let r = rendered_sections(v);
    assert(r.drop_last().drop_last().drop_last().drop_last().drop_last().drop_last()
        =~= Seq::<(Seq<char>, Seq<char>)>::empty());
    reveal_with_fuel(lookup, 7);
}

/// Rendering a template and reading the text back gives the template with
/// its URL and title trimmed, for every template whose fields the text
/// form can carry.
pub proof fn lemma_template_roundtrip(v: TemplateView)
    requires
        roundtrip_ready(v),
    ensures
        parse_template(template_text(v)) == Ok::<TemplateView, Seq<char>>(normalized(v)),
{
    lemma_rendered_sections(v);
    lemma_lookup_rendered(v);
    lemma_flag(v.5);
    let idt = id_text(v.0);
    let tj = join(v.3, seq![',']);
    match v.0 {
        Some(n) => {
            lemma_i32_text_shape(n);
            lemma_no_ws_trim(idt);
            crate::num::lemma_i32_text_parses(n);
        },
        None => {},
    }
    crate::text::lemma_trim_strip_newlines(v.1);
    crate::text::lemma_trim_strip_newlines(v.2);
    lemma_join_tags_no_ws(v.3);
    lemma_no_ws_trim(tj);
    lemma_no_ws_trim(flag_text(v.5));
    if v.3.len() > 0 {
        lemma_no_nl_of_no_ws(tj);
        assert forall|i: int| 0 <= i < v.3.len() implies !(#[trigger] v.3[i]).contains(',') by {
            assert(valid_tag(v.3[i]));
        }
        lemma_split_join_sep(v.3, ',');
        lemma_nonempty_trimmed_valid(v.3);
        lemma_dedup_distinct(v.3);
        assert(tag_items(tj) == v.3);
        assert(parse_tags_spec(tj) == Some(v.3));
    }
    let secs = parse_sections_spec(template_text(v));
    assert(trim(section_text(secs, "ID"@)) == idt);
    assert(trim(section_text(secs, "URL"@)) == trim(v.1));
    assert(trim(section_text(secs, "TITLE"@)) == trim(v.2));
    assert(trim(section_text(secs, "TAGS"@)) == tj);
    assert(section_text(secs, "COMMENTS"@) == v.4);
    assert(trim(section_text(secs, "EMBEDDABLE"@)) == flag_text(v.5));
    assert(crate::text::lowercase(flag_text(v.5)) == flag_text(v.5));
    assert(idt.len() > 0 ==> parse_i32_spec(idt) is Some);
    assert(tj.len() > 0 ==> parse_tags_spec(tj) == Some(v.3));
    assert(tj.len() == 0 ==> v.3 =~= Seq::<Seq<char>>::empty());
}


/// Distinct valid tags written as a comma-separated list read back as the
/// same tags, in the same order.
pub proof fn lemma_tag_list_roundtrip(ts: Seq<Seq<char>>)
    requires
        forall|i: int| 0 <= i < ts.len() ==> valid_tag(#[trigger] ts[i]),
        ts.no_duplicates(),
    ensures
        parse_tags_spec(join(ts, seq![','])) == Some(ts),
{
    let text = join(ts, seq![',']);
    if ts.len() == 0 {
        assert(text =~= Seq::<char>::empty());
        assert(split(text, ',') =~= seq![Seq::<char>::empty()]);
        let parts = split(text, ',');
        assert(parts.drop_last() =~= Seq::<Seq<char>>::empty());
        assert(parts.last() == Seq::<char>::empty());
        assert(crate::text::trim_start(Seq::<char>::empty()) == Seq::<char>::empty());
        assert(trim(Seq::<char>::empty()).len() == 0);
        assert(parts.len() == 1);
        assert(crate::tag::nonempty_trimmed(Seq::<Seq<char>>::empty()) == Seq::<Seq<char>>::empty());
        assert(crate::tag::nonempty_trimmed(parts.drop_last()) == Seq::<Seq<char>>::empty());
        assert(crate::tag::nonempty_trimmed(parts) =~= Seq::<Seq<char>>::empty());
        assert(tag_items(text) =~= ts);
    } else {
        lemma_split_join_sep(ts, ',');
        lemma_nonempty_trimmed_valid(ts);
        assert(tag_items(text) == ts);
    }
    lemma_dedup_distinct(ts);
}

/// Optional bytes copied.
fn copy_opt_bytes(o: &Option<Vec<u8>>) -> (r: Option<Vec<u8>>)
    ensures
        crate::bookmark::bytes_view(r) == crate::bookmark::bytes_view(*o),
{
    match o {
        Some(v) => Some(crate::bookmark::copy_bytes(v)),
        None => None,
    }
}

impl BookmarkTemplate {
    /// The bookmark the template describes: its id, URL, title, comments
    /// as description, tags (each once) and embeddable flag. From
    /// `original`, when there is one, the access count, embedding and
    /// content hash are kept; otherwise the access count is zero and there
    /// is neither embedding nor hash. It is updated at the time `now`, and
    /// created then too unless `original` tells when it was created.
    pub fn to_bookmark(&self, original: Option<&Bookmark>, now: i64) -> (r: Result<Bookmark, ApplicationError>)
        ensures
            r matches Ok(b) && b@ == (
                self.id,
                self.url@,
                self.title@,
                self.comments@,
                crate::bookmark::union_tags(Seq::empty(), tag_views(self.tags@)),
                match original {
                    Some(o) => o.access_count,
                    None => 0,
                },
                self.embeddable,
                match original {
                    Some(o) => o@.7,
                    None => None,
                },
                match original {
                    Some(o) => o@.8,
                    None => None,
                },
                crate::bookmark::no_origin(),
                (
                    match original {
                        Some(o) => o.created_at,
                        None => Some(now),
                    },
                    now,
                ),
            ),
    {
        let (access_count, embedding, content_hash) = match original {
            Some(o) => (o.access_count, copy_opt_bytes(&o.embedding), copy_opt_bytes(&o.content_hash)),
            None => (0, None, None),
        };
        let mut b = Bookmark {
            id: self.id,
            url: owned(self.url.as_str()),
            title: owned(self.title.as_str()),
            description: owned(self.comments.as_str()),
            tags: Vec::new(),
            access_count,
            embeddable: self.embeddable,
            embedding,
            content_hash,
            file_path: None,
            file_mtime: None,
            file_hash: None,
            created_at: match original {
                Some(o) => o.created_at,
                None => Some(now),
            },
            updated_at: now,
        };
        assert(tag_views(b.tags@) =~= Seq::<Seq<char>>::empty());
        b.add_tags(&self.tags);
        Ok(b)
    }
}

} // verus!
