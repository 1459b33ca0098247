//! The listing of bookmarks on the terminal: for each bookmark the colored
//! pieces of text that are written, in order. Writing them, and rendering
//! timestamps and similarity scores to text, is left to the program around
//! the library.
use vstd::prelude::*;
use crate::cli::DisplayField;
use crate::bookmark::Bookmark;
use crate::dto::BookmarkListItem;
use crate::error::concat;
use crate::num::{decimal, format_i32, format_usize, i32_text};
use crate::text::{chars_of, has_ws, join, owned, string_of, string_views, trim, trim_chars};

verus! {

/// The colors of a listing.
#[derive(Debug, Clone, Copy, PartialEq, Eq, Structural)]
pub enum Color {
    Green,
    White,
    Yellow,
    Blue,
    Magenta,
    Cyan,
}

/// A piece of a listing: its text, in a color or in the color in use.
#[derive(Debug)]
pub struct Piece {
    pub color: Option<Color>,
    pub text: String,
}

/// A piece seen as its color and text.
pub open spec fn piece_view(p: Piece) -> (Option<Color>, Seq<char>) {
    (p.color, p.text@)
}

/// The views of a sequence of pieces.
pub open spec fn pieces_view(ps: Seq<Piece>) -> Seq<(Option<Color>, Seq<char>)> {
    Seq::new(ps.len(), |i: int| piece_view(ps[i]))
}

/// A bookmark as a listing shows it. The timestamp and the similarity
/// score come already written out as text.
#[derive(Debug)]
pub struct DisplayBookmark {
    pub id: i32,
    pub url: String,
    pub title: String,
    pub description: String,
    pub tags: String,
    pub access_count: i32,
    pub last_update_ts: String,
    pub similarity: Option<String>,
    pub embedding: String,
    pub embeddable: bool,
}

/// The text a listing shows of `b` in the column `f`: yes or no for the
/// embeddable flag, numbers in decimal, and nothing for a missing
/// similarity.
pub open spec fn field_value(b: DisplayBookmark, f: DisplayField) -> Seq<char> {
    match f {
        DisplayField::Embeddable => if b.embeddable {
            "yes"@
        } else {
            "no"@
        },
        DisplayField::Id => i32_text(b.id),
        DisplayField::Url => b.url@,
        DisplayField::Title => b.title@,
        DisplayField::Description => b.description@,
        DisplayField::Tags => b.tags@,
        DisplayField::AccessCount => i32_text(b.access_count),
        DisplayField::LastUpdateTs => b.last_update_ts@,
        DisplayField::Similarity => match b.similarity {
            Some(s) => s@,
            None => Seq::empty(),
        },
        DisplayField::Embedding => b.embedding@,
    }
}

/// `n` spaces.
pub open spec fn spaces(n: nat) -> Seq<char> {
    Seq::new(n, |i: int| ' ')
}

/// `s` padded with spaces on the left to `w` characters.
pub open spec fn pad_left(s: Seq<char>, w: nat) -> Seq<char> {
    if s.len() < w {
        spaces((w - s.len()) as nat) + s
    } else {
        s
    }
}

/// `s` with every line break followed by four spaces.
pub open spec fn indent_lines(s: Seq<char>) -> Seq<char>
    decreases s.len(),
{
    if s.len() == 0 {
        s
    } else if s.last() == '\n' {
        indent_lines(s.drop_last()) + "\n    "@
    } else {
        indent_lines(s.drop_last()).push(s.last())
    }
}

/// `s` with every comma made a space.
pub open spec fn commas_to_spaces(s: Seq<char>) -> Seq<char> {
    Seq::new(s.len(), |i: int| if s[i] == ',' { ' ' } else { s[i] })
}

/// Whether `s` holds a character that is not whitespace.
pub open spec fn has_non_ws(s: Seq<char>) -> bool {
    exists|i: int| 0 <= i < s.len() && !crate::text::is_ws(#[trigger] s[i])
}

/// A piece, if `cond` holds.
pub open spec fn piece_if(cond: bool, color: Option<Color>, text: Seq<char>) -> Seq<(Option<Color>, Seq<char>)> {
    if cond {
        seq![(color, text)]
    } else {
        Seq::empty()
    }
}

/// The access count and embedding line, empty when neither is shown.
pub open spec fn flags_line(b: DisplayBookmark, fields: Seq<DisplayField>) -> Seq<char> {
    let count = if fields.contains(DisplayField::AccessCount) {
        "Count: "@ + i32_text(b.access_count)
    } else {
        Seq::empty()
    };
    if fields.contains(DisplayField::Embedding) {
        let status = if b.embedding@.len() == 0 {
            "null"@
        } else {
            "yes"@
        };
        if count.len() > 0 {
            count + " | "@ + "embed: "@ + status
        } else {
            "embed: "@ + status
        }
    } else {
        count
    }
}

/// The margin of the lines under a bookmark's title.
pub open spec fn lead(width: nat) -> Seq<char> {
    spaces(width) + "  "@
}

/// The title piece.
pub open spec fn title_part(b: DisplayBookmark, index: nat, width: nat, fields: Seq<DisplayField>) -> Seq<(Option<Color>, Seq<char>)> {
    piece_if(
        fields.contains(DisplayField::Title),
        Some(Color::Green),
        pad_left(decimal(index + 1), width) + ". "@ + b.title@,
    )
}

/// The similarity piece.
pub open spec fn similarity_part(b: DisplayBookmark, fields: Seq<DisplayField>) -> Seq<(Option<Color>, Seq<char>)> {
    match b.similarity {
        Some(s) => piece_if(fields.contains(DisplayField::Similarity), Some(Color::White), " ["@ + s@ + "]"@),
        None => Seq::empty(),
    }
}

/// The id piece, or the end of the title line.
pub open spec fn id_part(b: DisplayBookmark, fields: Seq<DisplayField>) -> Seq<(Option<Color>, Seq<char>)> {
    if fields.contains(DisplayField::Id) {
        seq![(Some(Color::White), " ["@ + i32_text(b.id) + "]\n"@)]
    } else {
        seq![(None::<Color>, "\n"@)]
    }
}

/// The URL, description and tags pieces.
pub open spec fn body_part(b: DisplayBookmark, width: nat, fields: Seq<DisplayField>) -> Seq<(Option<Color>, Seq<char>)> {
    let tags = commas_to_spaces(b.tags@);
    piece_if(fields.contains(DisplayField::Url), Some(Color::Yellow), lead(width) + indent_lines(b.url@) + "\n"@)
        + piece_if(
        fields.contains(DisplayField::Description) && b.description@.len() > 0,
        Some(Color::White),
        lead(width) + b.description@ + "\n"@,
    ) + piece_if(
        fields.contains(DisplayField::Tags) && has_non_ws(tags),
        Some(Color::Blue),
        lead(width) + trim(tags) + "\n"@,
    )
}

/// The embeddable, counts and timestamp pieces.
pub open spec fn status_part(b: DisplayBookmark, width: nat, fields: Seq<DisplayField>) -> Seq<(Option<Color>, Seq<char>)> {
    let flags = flags_line(b, fields);
    piece_if(
        fields.contains(DisplayField::Embeddable),
        Some(Color::White),
        lead(width) + "Embeddable: "@ + (if b.embeddable {
            "yes"@
        } else {
            "no"@
        }) + "\n"@,
    ) + piece_if(flags.len() > 0, Some(Color::White), lead(width) + flags + "\n"@) + piece_if(
        fields.contains(DisplayField::LastUpdateTs),
        Some(Color::Magenta),
        lead(width) + b.last_update_ts@ + "\n"@,
    )
}

/// The pieces that show the bookmark `b` at position `index` (counted
/// from 0) of a listing whose numbers are `width` wide, with the columns
/// `fields`.
pub open spec fn bookmark_pieces(b: DisplayBookmark, index: nat, width: nat, fields: Seq<DisplayField>) -> Seq<(Option<Color>, Seq<char>)> {
    title_part(b, index, width, fields) + similarity_part(b, fields) + id_part(b, fields) + body_part(
        b,
        width,
        fields,
    ) + status_part(b, width, fields)
}

fn shows_field(fields: &[DisplayField], f: DisplayField) -> (r: bool)
    ensures
        r == fields@.contains(f),
{
    let n = fields.len();
    let mut i: usize = 0;
    while i < n
        invariant
            i <= n,
            n == fields@.len(),
            forall|k: int| 0 <= k < i ==> fields@[k] != f,
        decreases n - i,
    {
        if fields[i] == f {
            assert(fields@[i as int] == f);
            return true;
        }
        i = i + 1;
    }
    false
}

fn spaces_string(n: usize) -> (r: String)
    ensures
        r@ == spaces(n as nat),
{
    let mut v: Vec<char> = Vec::new();
    let mut i: usize = 0;
    while i < n
        invariant
            i <= n,
            v@ == spaces(i as nat),
        decreases n - i,
    {
        v.push(' ');
        i = i + 1;
        assert(v@ =~= spaces(i as nat));
    }
    string_of(v.as_slice())
}

fn pad_left_string(s: &str, w: usize) -> (r: String)
    ensures
        r@ == pad_left(s@, w as nat),
{
    let l = chars_of(s).len();
    if l < w {
        let sp = spaces_string(w - l);
        concat(sp.as_str(), s)
    } else {
        owned(s)
    }
}

fn indent_lines_string(s: &str) -> (r: String)
    ensures
        r@ == indent_lines(s@),
{
    let cs = chars_of(s);
    let n = cs.len();
    let mut out: Vec<char> = Vec::new();
    let mut i: usize = 0;
    assert(cs@.take(0) =~= Seq::<char>::empty());
    while i < n
        invariant
            i <= n,
            n == cs@.len(),
            out@ == indent_lines(cs@.take(i as int)),
        decreases n - i,
    {
        assert(cs@.take(i as int + 1).drop_last() =~= cs@.take(i as int));
        assert(cs@.take(i as int + 1).last() == cs@[i as int]);
        let ghost before = out@;
        if cs[i] == '\n' {
            out.push('\n');
            out.push(' ');
            out.push(' ');
            out.push(' ');
            out.push(' ');
            proof {
                reveal_strlit("\n    ");
                assert(out@ =~= before + "\n    "@);
            }
        } else {
            out.push(cs[i]);
        }
        i = i + 1;
    }
    assert(cs@.take(n as int) =~= cs@);
    string_of(out.as_slice())
}

fn flags_line_string(b: &DisplayBookmark, fields: &[DisplayField]) -> (r: String)
    ensures
        r@ == flags_line(*b, fields@),
{
    let mut line = String::new();
    if shows_field(fields, DisplayField::AccessCount) {
        let c = format_i32(b.access_count);
        line = concat("Count: ", c.as_str());
    }
    if shows_field(fields, DisplayField::Embedding) {
        let status = if chars_of(b.embedding.as_str()).len() == 0 {
            "null"
        } else {
            "yes"
        };
        let e = concat("embed: ", status);
        if chars_of(line.as_str()).len() > 0 {
            let l2 = concat(line.as_str(), " | ");
            line = concat(l2.as_str(), e.as_str());
        } else {
            line = e;
        }
    }
    line
}

fn push_piece(ps: &mut Vec<Piece>, color: Option<Color>, text: String)
    ensures
        pieces_view(final(ps)@) == pieces_view(old(ps)@).push((color, text@)),
{
    let ghost before = ps@;
    ps.push(Piece { color, text });
    assert(pieces_view(ps@) =~= pieces_view(before).push((color, text@))) by {
        assert forall|k: int| 0 <= k < before.len() implies #[trigger] pieces_view(ps@)[k]
            == pieces_view(before)[k] by {
            assert(ps@[k] == before[k]);
        }
    }
}

fn lead_text(width: usize, rest: &str) -> (r: String)
    ensures
        r@ == lead(width as nat) + rest@,
{
    let sp = spaces_string(width);
    let a = concat(sp.as_str(), "  ");
    concat(a.as_str(), rest)
}

fn append_pieces(ps: &mut Vec<Piece>, more: Vec<Piece>)
    ensures
        pieces_view(final(ps)@) == pieces_view(old(ps)@) + pieces_view(more@),
{
    let ghost start = pieces_view(ps@);
    let ghost mv = pieces_view(more@);
    let mut more = more;
    let mut rev: Vec<Piece> = Vec::new();
    while more.len() > 0
        invariant
            pieces_view(more@) + pieces_view(rev@).reverse() == mv,
        decreases more@.len(),
    {
        let ghost m0 = more@;
        let ghost r0 = rev@;
        let p = more.pop().unwrap();
        proof {
            assert(m0 =~= more@.push(p));
            assert(pieces_view(m0) =~= pieces_view(more@).push(piece_view(p)));
        }
        rev.push(p);
        proof {
            assert(pieces_view(rev@) =~= pieces_view(r0).push(piece_view(p)));
            assert(pieces_view(rev@).reverse() =~= seq![piece_view(p)] + pieces_view(r0).reverse());
            assert(pieces_view(more@) + pieces_view(rev@).reverse() =~= pieces_view(m0) + pieces_view(r0).reverse());
        }
    }
    assert(pieces_view(more@) =~= Seq::<(Option<Color>, Seq<char>)>::empty());
    assert(pieces_view(rev@).reverse() =~= mv);
    while rev.len() > 0
        invariant
            pieces_view(ps@) + pieces_view(rev@).reverse() == start + mv,
        decreases rev@.len(),
    {
        let ghost r0 = rev@;
        let p = rev.pop().unwrap();
        proof {
            assert(r0 =~= rev@.push(p));
            assert(pieces_view(r0) =~= pieces_view(rev@).push(piece_view(p)));
            assert(pieces_view(r0).reverse() =~= seq![piece_view(p)] + pieces_view(rev@).reverse());
        }
        push_piece(ps, p.color, p.text);
    }
    assert(pieces_view(rev@).reverse() =~= Seq::<(Option<Color>, Seq<char>)>::empty());
}

fn title_pieces(b: &DisplayBookmark, index: usize, width: usize, fields: &[DisplayField]) -> (r: Vec<Piece>)
    requires
        index < usize::MAX,
    ensures
        pieces_view(r@) == title_part(*b, index as nat, width as nat, fields@),
{
    let mut ps: Vec<Piece> = Vec::new();
    if shows_field(fields, DisplayField::Title) {
        let num = format_usize(index + 1);
        let padded = pad_left_string(num.as_str(), width);
        let head = concat(padded.as_str(), ". ");
        push_piece(&mut ps, Some(Color::Green), concat(head.as_str(), b.title.as_str()));
    }
    assert(pieces_view(ps@) =~= title_part(*b, index as nat, width as nat, fields@));
    ps
}

fn similarity_pieces(b: &DisplayBookmark, fields: &[DisplayField]) -> (r: Vec<Piece>)
    ensures
        pieces_view(r@) == similarity_part(*b, fields@),
{
    let mut ps: Vec<Piece> = Vec::new();
    match &b.similarity {
        Some(s) => {
            if shows_field(fields, DisplayField::Similarity) {
                let a = concat(" [", s.as_str());
                push_piece(&mut ps, Some(Color::White), concat(a.as_str(), "]"));
            }
        },
        None => {},
    }
    assert(pieces_view(ps@) =~= similarity_part(*b, fields@));
    ps
}

fn id_pieces(b: &DisplayBookmark, fields: &[DisplayField]) -> (r: Vec<Piece>)
    ensures
        pieces_view(r@) == id_part(*b, fields@),
{
    let mut ps: Vec<Piece> = Vec::new();
    if shows_field(fields, DisplayField::Id) {
        let t = format_i32(b.id);
        let a = concat(" [", t.as_str());
        push_piece(&mut ps, Some(Color::White), concat(a.as_str(), "]\n"));
    } else {
        push_piece(&mut ps, None, owned("\n"));
    }
    assert(pieces_view(ps@) =~= id_part(*b, fields@));
    ps
}

fn tags_line(tags: &str) -> (r: Option<String>)
    ensures
        has_non_ws(commas_to_spaces(tags@)) ==> (r matches Some(t) && t@ == trim(commas_to_spaces(tags@))),
        !has_non_ws(commas_to_spaces(tags@)) ==> r is None,
{
    let tc = chars_of(tags);
    let mut spaced: Vec<char> = Vec::new();
    let n = tc.len();
    let mut i: usize = 0;
    while i < n
        invariant
            i <= n,
            n == tc@.len(),
            spaced@ == commas_to_spaces(tc@).take(i as int),
        decreases n - i,
    {
        if tc[i] == ',' {
            spaced.push(' ');
        } else {
            spaced.push(tc[i]);
        }
        i = i + 1;
        assert(spaced@ =~= commas_to_spaces(tc@).take(i as int));
    }
    assert(commas_to_spaces(tc@).take(n as int) =~= commas_to_spaces(tc@));
    let t = trim_chars(spaced.as_slice());
    proof {
        crate::text::lemma_trim_empty(spaced@);
        if has_non_ws(spaced@) {
            let k = choose|k: int| 0 <= k < spaced@.len() && !crate::text::is_ws(#[trigger] spaced@[k]);
        }
    }
    if t.len() > 0 {
        Some(string_of(t.as_slice()))
    } else {
        None
    }
}

fn body_pieces(b: &DisplayBookmark, width: usize, fields: &[DisplayField]) -> (r: Vec<Piece>)
    ensures
        pieces_view(r@) == body_part(*b, width as nat, fields@),
{
    let mut ps: Vec<Piece> = Vec::new();
    if shows_field(fields, DisplayField::Url) {
        let u = indent_lines_string(b.url.as_str());
        let a = lead_text(width, u.as_str());
        push_piece(&mut ps, Some(Color::Yellow), concat(a.as_str(), "\n"));
    }
    let ghost p1 = pieces_view(ps@);
    if shows_field(fields, DisplayField::Description) && chars_of(b.description.as_str()).len() > 0 {
        let a = lead_text(width, b.description.as_str());
        push_piece(&mut ps, Some(Color::White), concat(a.as_str(), "\n"));
    }
    let ghost p2 = pieces_view(ps@);
    if shows_field(fields, DisplayField::Tags) {
        match tags_line(b.tags.as_str()) {
            Some(t) => {
                let a = lead_text(width, t.as_str());
                push_piece(&mut ps, Some(Color::Blue), concat(a.as_str(), "\n"));
            },
            None => {},
        }
    }
    assert(pieces_view(ps@) =~= body_part(*b, width as nat, fields@));
    ps
}

fn status_pieces(b: &DisplayBookmark, width: usize, fields: &[DisplayField]) -> (r: Vec<Piece>)
    ensures
        pieces_view(r@) == status_part(*b, width as nat, fields@),
{
    let mut ps: Vec<Piece> = Vec::new();
    if shows_field(fields, DisplayField::Embeddable) {
        let yn = if b.embeddable {
            "yes"
        } else {
            "no"
        };
        let a = lead_text(width, "Embeddable: ");
        let c = concat(a.as_str(), yn);
        push_piece(&mut ps, Some(Color::White), concat(c.as_str(), "\n"));
    }
    let flags = flags_line_string(b, fields);
    if chars_of(flags.as_str()).len() > 0 {
        let a = lead_text(width, flags.as_str());
        push_piece(&mut ps, Some(Color::White), concat(a.as_str(), "\n"));
    }
    if shows_field(fields, DisplayField::LastUpdateTs) {
        let a = lead_text(width, b.last_update_ts.as_str());
        push_piece(&mut ps, Some(Color::Magenta), concat(a.as_str(), "\n"));
    }
    assert(pieces_view(ps@) =~= status_part(*b, width as nat, fields@));
    ps
}

/// The pieces that show `b` at position `index` (counted from 0) of a
/// listing whose numbers are `width` wide, with the columns `fields`.
pub fn bookmark_pieces_of(b: &DisplayBookmark, index: usize, width: usize, fields: &[DisplayField]) -> (r: Vec<Piece>)
    requires
        index < usize::MAX,
    ensures
        pieces_view(r@) == bookmark_pieces(*b, index as nat, width as nat, fields@),
{
    let mut ps = title_pieces(b, index, width, fields);
    append_pieces(&mut ps, similarity_pieces(b, fields));
    append_pieces(&mut ps, id_pieces(b, fields));
    append_pieces(&mut ps, body_pieces(b, width, fields));
    append_pieces(&mut ps, status_pieces(b, width, fields));
    ps
}

/// The width of the position numbers of a listing of `n` bookmarks.
pub fn first_col_width(n: usize) -> (r: usize)
    ensures
        r as nat == decimal(n as nat).len(),
{
    chars_of(format_usize(n).as_str()).len()
}

/// The strings `v` joined by commas.
pub(crate) fn comma_joined(v: &Vec<String>) -> (r: String)
    ensures
        r@ == join(string_views(v@), seq![',']),
{
    let mut tags = String::new();
    let n = v.len();
    let mut i: usize = 0;
    let ghost sv = string_views(v@);
    assert(sv.take(0) =~= Seq::<Seq<char>>::empty());
    while i < n
        invariant
            i <= n,
            n == v@.len(),
            sv == string_views(v@),
            tags@ == join(sv.take(i as int), seq![',']),
        decreases n - i,
    {
        assert(sv.take(i as int + 1).drop_last() =~= sv.take(i as int));
        assert(sv.take(i as int + 1).last() == v@[i as int]@);
        if i > 0 {
            let mut s = String::new();
            s.append(tags.as_str());
            s.append(",");
            proof {
                reveal_strlit(",");
            }
            s.append(v[i].as_str());
            tags = s;
        } else {
            tags = owned(v[i].as_str());
            assert(sv.take(1) =~= seq![sv[0]]);
        }
        i = i + 1;
    }
    assert(sv.take(n as int) =~= sv);
    tags
}

impl DisplayBookmark {
    /// The listing form of `bookmark`: its id (0 without one), its URL with
    /// the template markers filled in by what `service` renders for it (as
    /// it is when it has none or rendering fails), its title, description, tags joined by
    /// commas, access count, the time of its last update as a UTC date and
    /// time, "yes" as the embedding when it has one, and its embeddable
    /// flag.
    pub fn from_domain<S: crate::actions::InterpolationService>(
        bookmark: &Bookmark,
        service: &S,
    ) -> (r: DisplayBookmark)
        ensures
            r.id == match bookmark.id {
                Some(i) => i,
                None => 0,
            },
            !crate::cli::has_template_markers(bookmark.url@) ==> r.url@ == bookmark.url@,
            crate::cli::has_template_markers(bookmark.url@) ==> exists|res: Result<String, crate::error::ApplicationError>|
                call_ensures(S::render_bookmark_url, (service, bookmark), res) && r.url@
                    == crate::cli::url_after(bookmark.url@, res),
            r.title@ == bookmark.title@,
            r.description@ == bookmark.description@,
            r.tags@ == join(crate::tag::tag_views(bookmark.tags@), seq![',']),
            r.access_count == bookmark.access_count,
            r.last_update_ts@ == crate::timestamp::timestamp_text(bookmark.updated_at as int),
            r.similarity is None,
            r.embedding@ == if bookmark.embedding is Some {
                "yes"@
            } else {
                Seq::<char>::empty()
            },
            r.embeddable == bookmark.embeddable,
    {
        let u = chars_of(bookmark.url.as_str());
        let open = chars_of("{{");
        let stmt = chars_of("{%");
        let url = if crate::search::occurs(open.as_slice(), u.as_slice()) || crate::search::occurs(
            stmt.as_slice(),
            u.as_slice(),
        ) {
            {
                let render = S::render_bookmark_url;
                let rendered = render(service, bookmark);
                let u = crate::cli::interpolated_url(bookmark.url.as_str(), rendered);
                assert(u@ == crate::cli::url_after(bookmark.url@, rendered));
                u
            }
        } else {
            owned(bookmark.url.as_str())
        };
        let names = crate::dto::tag_strings(&bookmark.tags);
        DisplayBookmark {
            id: match bookmark.id {
                Some(i) => i,
                None => 0,
            },
            url,
            title: owned(bookmark.title.as_str()),
            description: owned(bookmark.description.as_str()),
            tags: comma_joined(&names),
            access_count: bookmark.access_count,
            last_update_ts: crate::timestamp::format_timestamp(bookmark.updated_at),
            similarity: None,
            embedding: match &bookmark.embedding {
                Some(_) => owned("yes"),
                None => String::new(),
            },
            embeddable: bookmark.embeddable,
        }
    }

    /// The text shown of the bookmark in the column `field`.
    pub fn get_value(&self, field: &DisplayField) -> (r: String)
        ensures
            r@ == field_value(*self, *field),
    {
        match field {
            DisplayField::Embeddable => if self.embeddable {
                owned("yes")
            } else {
                owned("no")
            },
            DisplayField::Id => format_i32(self.id),
            DisplayField::Url => owned(self.url.as_str()),
            DisplayField::Title => owned(self.title.as_str()),
            DisplayField::Description => owned(self.description.as_str()),
            DisplayField::Tags => owned(self.tags.as_str()),
            DisplayField::AccessCount => format_i32(self.access_count),
            DisplayField::LastUpdateTs => owned(self.last_update_ts.as_str()),
            DisplayField::Similarity => match &self.similarity {
                Some(t) => owned(t.as_str()),
                None => String::new(),
            },
            DisplayField::Embedding => owned(self.embedding.as_str()),
        }
    }

    /// The listing form of a search result: its id (0 without one), URL,
    /// title and tags joined by commas; nothing else is shown.
    pub fn from_list_item(item: &BookmarkListItem) -> (r: DisplayBookmark)
        ensures
            r.id == match item.id {
                Some(i) => i,
                None => 0,
            },
            r.url@ == item.url@,
            r.title@ == item.title@,
            r.tags@ == join(string_views(item.tags@), seq![',']),
            r.description@ == Seq::<char>::empty(),
            r.access_count == 0,
            r.similarity is None,
            r.embedding@ == Seq::<char>::empty(),
            !r.embeddable,
    {
        let tags = comma_joined(&item.tags);
        DisplayBookmark {
            id: match item.id {
                Some(i) => i,
                None => 0,
            },
            url: item.url.clone(),
            title: item.title.clone(),
            description: String::new(),
            tags,
            access_count: 0,
            last_update_ts: String::new(),
            similarity: None,
            embedding: String::new(),
            embeddable: false,
        }
    }
}

} // verus!
