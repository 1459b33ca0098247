//! The decisions of the command line: reading id lists and interactive
//! input, the sort order of listings, and what an interactive command
//! asks for. Reading the terminal and carrying the commands out is left
//! to the program around the library.
use vstd::prelude::*;
use crate::bookmark::{copy_tags, union_tags, Bookmark};
use crate::tag::{system_tag_text, tag_views, SystemTag, Tag};
use crate::config::{split_whitespace, words};
use crate::error::{concat, CliError};
use crate::num::{parse_i32, parse_i32_spec};
use crate::patterns::{regex_is_match, regex_matched};
use crate::search::SortDirection;
use crate::timestamp::{format_timestamp, timestamp_text};
use crate::text::{
    chars_eq, chars_of, lowercase, split, split_chars, string_of, string_views, to_lowercase, trim,
    trim_chars, views,
};

verus! {

/// The columns a bookmark listing can show.
#[derive(Debug, Clone, Copy, PartialEq, Eq, Structural)]
pub enum DisplayField {
    Id,
    Url,
    Title,
    Description,
    Tags,
    AccessCount,
    LastUpdateTs,
    Similarity,
    Embedding,
    Embeddable,
}

/// The heading of a column.
pub open spec fn field_label(f: DisplayField) -> Seq<char> {
    match f {
        DisplayField::Id => "ID"@,
        DisplayField::Url => "URL"@,
        DisplayField::Title => "Title"@,
        DisplayField::Description => "Description"@,
        DisplayField::Tags => "Tags"@,
        DisplayField::AccessCount => "Access Count"@,
        DisplayField::LastUpdateTs => "Last Updated"@,
        DisplayField::Similarity => "Similarity"@,
        DisplayField::Embedding => "Embedding"@,
        DisplayField::Embeddable => "Embeddable"@,
    }
}

impl DisplayField {
    /// The heading of the column.
    pub fn label(&self) -> (r: &'static str)
        ensures
            r@ == field_label(*self),
    {
        match self {
            DisplayField::Id => "ID",
            DisplayField::Url => "URL",
            DisplayField::Title => "Title",
            DisplayField::Description => "Description",
            DisplayField::Tags => "Tags",
            DisplayField::AccessCount => "Access Count",
            DisplayField::LastUpdateTs => "Last Updated",
            DisplayField::Similarity => "Similarity",
            DisplayField::Embedding => "Embedding",
            DisplayField::Embeddable => "Embeddable",
        }
    }
}

/// The order of a listing: descending unless only ascending is asked for.
pub fn determine_sort_direction(order_desc: bool, order_asc: bool) -> (r: SortDirection)
    ensures
        r == if !order_desc && order_asc {
            SortDirection::Ascending
        } else {
            SortDirection::Descending
        },
{
    if !order_desc && order_asc {
        SortDirection::Ascending
    } else {
        SortDirection::Descending
    }
}

/// Whether every text of `strs` reads as an `i32`.
pub open spec fn all_ints(strs: Seq<Seq<char>>) -> bool {
    forall|i: int| 0 <= i < strs.len() ==> (#[trigger] parse_i32_spec(strs[i])) is Some
}

/// The numbers the texts `strs` read as, in order.
pub open spec fn ints_of(strs: Seq<Seq<char>>) -> Seq<i32> {
    Seq::new(strs.len(), |i: int| parse_i32_spec(strs[i])->Some_0)
}

/// The numbers the texts `strs` read as, in order, or `None` when one of
/// them is not a number.
pub fn ensure_int_vector(strs: &[String]) -> (r: Option<Vec<i32>>)
    ensures
        r is Some <==> all_ints(string_views(strs@)),
        r matches Some(v) ==> v@ == ints_of(string_views(strs@)),
{
    let ghost sv = string_views(strs@);
    let n = strs.len();
    let mut out: Vec<i32> = Vec::new();
    let mut i: usize = 0;
    while i < n
        invariant
            i <= n,
            n == strs@.len(),
            sv == string_views(strs@),
            forall|k: int| 0 <= k < i ==> (#[trigger] parse_i32_spec(sv[k])) is Some,
            out@ == ints_of(sv).take(i as int),
        decreases n - i,
    {
        assert(sv[i as int] == strs@[i as int]@);
        match parse_i32(strs[i].as_str()) {
            Some(v) => {
                out.push(v);
            },
            None => {
                assert(parse_i32_spec(sv[i as int]) is None);
                return None;
            },
        }
        i = i + 1;
        assert(out@ =~= ints_of(sv).take(i as int));
    }
    assert(ints_of(sv).take(n as int) =~= ints_of(sv));
    Some(out)
}

/// The trimmed pieces of `ids` between commas.
pub open spec fn id_pieces(ids: Seq<char>) -> Seq<Seq<char>> {
    Seq::new(split(ids, ',').len(), |i: int| trim(split(ids, ',')[i]))
}

/// The ids of a comma-separated list such as `1,2,3`; refused with the
/// list in the message when a piece is not a number.
pub fn get_ids(ids: String) -> (r: Result<Vec<i32>, CliError>)
    ensures
        r is Ok <==> all_ints(id_pieces(ids@)),
        r matches Ok(v) ==> v@ == ints_of(id_pieces(ids@)),
        r matches Err(e) ==> e is InvalidIdFormat && e->InvalidIdFormat_0@ == "Invalid ID format: "@
            + ids@,
{
    let cs = chars_of(ids.as_str());
    let parts = split_chars(cs.as_slice(), ',');
    let mut strs: Vec<String> = Vec::new();
    let n = parts.len();
    let mut i: usize = 0;
    while i < n
        invariant
            i <= n,
            n == parts@.len(),
            views(parts@) == split(cs@, ','),
            string_views(strs@) == id_pieces(cs@).take(i as int),
        decreases n - i,
    {
        let t = trim_chars(parts[i].as_slice());
        let s = string_of(t.as_slice());
        let ghost before = strs@;
        assert(string_views(before).len() == before.len());
        strs.push(s);
        assert(string_views(strs@) =~= id_pieces(cs@).take(i as int + 1)) by {
            assert forall|k: int| 0 <= k < before.len() implies #[trigger] string_views(strs@)[k]
                == string_views(before)[k] by {
                assert(strs@[k] == before[k]);
            }
            assert(views(parts@)[i as int] == parts@[i as int]@);
        }
        i = i + 1;
    }
    assert(id_pieces(cs@).take(n as int) =~= id_pieces(cs@));
    match ensure_int_vector(strs.as_slice()) {
        Some(v) => Ok(v),
        None => Err(CliError::InvalidIdFormat(concat("Invalid ID format: ", ids.as_str()))),
    }
}

/// `s` with every comma made a space.
pub open spec fn commas_spaced(s: Seq<char>) -> Seq<char> {
    Seq::new(s.len(), |i: int| if s[i] == ',' { ' ' } else { s[i] })
}

/// The tokens of a line of interactive input: trimmed, commas read as
/// spaces, in lowercase, split at whitespace.
pub open spec fn input_tokens(input: Seq<char>) -> Seq<Seq<char>> {
    words(lowercase(commas_spaced(trim(input))))
}

/// The tokens of a line of interactive input.
pub fn parse_input(input: &str) -> (r: Vec<String>)
    ensures
        string_views(r@) == input_tokens(input@),
{
    let cs = chars_of(input);
    let t = trim_chars(cs.as_slice());
    let mut spaced: Vec<char> = Vec::new();
    let n = t.len();
    let mut i: usize = 0;
    while i < n
        invariant
            i <= n,
            n == t@.len(),
            spaced@ == commas_spaced(t@).take(i as int),
        decreases n - i,
    {
        if t[i] == ',' {
            spaced.push(' ');
        } else {
            spaced.push(t[i]);
        }
        i = i + 1;
        assert(spaced@ =~= commas_spaced(t@).take(i as int));
    }
    assert(commas_spaced(t@).take(n as int) =~= commas_spaced(t@));
    let joined = string_of(spaced.as_slice());
    let lower = to_lowercase(joined.as_str());
    let ws = split_whitespace(lower.as_str());
    let mut r: Vec<String> = Vec::new();
    let m = ws.len();
    let mut j: usize = 0;
    while j < m
        invariant
            j <= m,
            m == ws@.len(),
            views(ws@) == words(lower@),
            string_views(r@) == views(ws@).take(j as int),
        decreases m - j,
    {
        let s = string_of(ws[j].as_slice());
        let ghost before = r@;
        assert(string_views(before).len() == before.len());
        r.push(s);
        assert(string_views(r@) =~= views(ws@).take(j as int + 1)) by {
            assert forall|k: int| 0 <= k < before.len() implies #[trigger] string_views(r@)[k]
                == string_views(before)[k] by {
                assert(r@[k] == before[k]);
            }
        }
        j = j + 1;
    }
    assert(views(ws@).take(m as int) =~= views(ws@));
    r
}

/// The bookmark at the one-based position `index` of `bookmarks`, if
/// there is one.
pub fn get_bookmark_by_index(index: i32, bookmarks: &[Bookmark]) -> (r: Option<&Bookmark>)
    ensures
        r is Some <==> 1 <= index <= bookmarks@.len(),
        r matches Some(b) ==> *b == bookmarks@[index - 1],
{
    if index < 1 || index as usize > bookmarks.len() {
        return None;
    }
    Some(&bookmarks[(index - 1) as usize])
}

/// What a line of interactive input over a listing asks for.
#[derive(Debug)]
pub enum ProcessCommand {
    /// Stop: an empty line or `q`.
    Quit,
    /// Show the help text and ask again.
    Help,
    /// Print the ids of every listed bookmark.
    PrintAll,
    /// Print the ids of the bookmarks at these positions.
    Print(Vec<i32>),
    /// Delete the bookmarks at these positions.
    Delete(Vec<i32>),
    /// Edit every listed bookmark.
    EditAll,
    /// Edit the bookmarks at these positions.
    Edit(Vec<i32>),
    /// Count an access of the bookmarks at these positions.
    Touch(Vec<i32>),
    /// Copy the URLs of the bookmarks at these positions.
    Yank(Vec<i32>),
    /// Run the default action of the bookmarks at these positions.
    Open(Vec<i32>),
    /// A position that is not a number: say so and ask again.
    NotNumbers,
    /// An unknown command: say so, show the help text and ask again.
    Unknown,
}

/// The numbers of `ts` from position `from` on, if they all read as
/// numbers.
pub open spec fn ints_from(ts: Seq<Seq<char>>, from: int) -> Option<Seq<i32>> {
    if all_ints(ts.skip(from)) {
        Some(ints_of(ts.skip(from)))
    } else {
        None
    }
}

/// Whether `c` holds the positions `o`, or is `NotNumbers` where there
/// are none.
pub open spec fn positions_or_refusal(c: ProcessCommand, o: Option<Seq<i32>>, made: spec_fn(Seq<i32>, ProcessCommand) -> bool) -> bool {
    match o {
        Some(v) => made(v, c),
        None => c is NotNumbers,
    }
}

/// What the tokens `ts` of a line ask for: the first token names the
/// command and the rest are positions; a line that starts with a number
/// (as the pattern `^\d+` sees it) lists positions to open.
pub open spec fn command_of(ts: Seq<Seq<char>>, c: ProcessCommand) -> bool {
    if ts.len() == 0 {
        c is Quit
    } else if ts[0] == "p"@ {
        if ts.len() == 1 {
            c is PrintAll
        } else {
            positions_or_refusal(c, ints_from(ts, 1), |v: Seq<i32>, c: ProcessCommand| c matches ProcessCommand::Print(x) && x@ == v)
        }
    } else if ts[0] == "d"@ {
        positions_or_refusal(c, ints_from(ts, 1), |v: Seq<i32>, c: ProcessCommand| c matches ProcessCommand::Delete(x) && x@ == v)
    } else if ts[0] == "e"@ {
        if ts.len() == 1 {
            c is EditAll
        } else {
            positions_or_refusal(c, ints_from(ts, 1), |v: Seq<i32>, c: ProcessCommand| c matches ProcessCommand::Edit(x) && x@ == v)
        }
    } else if ts[0] == "t"@ {
        positions_or_refusal(c, ints_from(ts, 1), |v: Seq<i32>, c: ProcessCommand| c matches ProcessCommand::Touch(x) && x@ == v)
    } else if ts[0] == "y"@ {
        positions_or_refusal(c, ints_from(ts, 1), |v: Seq<i32>, c: ProcessCommand| c matches ProcessCommand::Yank(x) && x@ == v)
    } else if ts[0] == "h"@ {
        c is Help
    } else if ts[0] == "q"@ {
        c is Quit
    } else if regex_matched("^\\d+"@, ts[0]) == Some(true) {
        positions_or_refusal(c, ints_from(ts, 0), |v: Seq<i32>, c: ProcessCommand| c matches ProcessCommand::Open(x) && x@ == v)
    } else {
        c is Unknown
    }
}

/// The tokens of `ts` from position `from` on.
fn tokens_from(ts: &Vec<String>, from: usize) -> (r: Vec<String>)
    requires
        from <= ts@.len(),
    ensures
        string_views(r@) == string_views(ts@).skip(from as int),
{
    let mut r: Vec<String> = Vec::new();
    let n = ts.len();
    let mut i: usize = from;
    while i < n
        invariant
            from <= i <= n,
            n == ts@.len(),
            string_views(r@) == string_views(ts@).subrange(from as int, i as int),
        decreases n - i,
    {
        let s = ts[i].clone();
        let ghost before = r@;
        assert(string_views(before).len() == before.len());
        r.push(s);
        assert(string_views(r@) =~= string_views(ts@).subrange(from as int, i as int + 1)) by {
            assert forall|k: int| 0 <= k < before.len() implies #[trigger] string_views(r@)[k]
                == string_views(before)[k] by {
                assert(r@[k] == before[k]);
            }
        }
        i = i + 1;
    }
    r
}

fn positions(ts: &Vec<String>, from: usize) -> (r: Option<Vec<i32>>)
    requires
        from <= ts@.len(),
    ensures
        match r {
            Some(v) => ints_from(string_views(ts@), from as int) == Some(v@),
            None => ints_from(string_views(ts@), from as int) is None,
        },
{
    let rest = tokens_from(ts, from);
    ensure_int_vector(rest.as_slice())
}

/// What the tokens of a line of interactive input ask for.
pub fn decide_command(tokens: &Vec<String>) -> (r: ProcessCommand)
    ensures
        command_of(string_views(tokens@), r),
{
    let ghost ts = string_views(tokens@);
    if tokens.len() == 0 {
        return ProcessCommand::Quit;
    }
    assert(ts[0] == tokens@[0]@);
    let first = chars_of(tokens[0].as_str());
    let p = chars_of("p");
    let d = chars_of("d");
    let e = chars_of("e");
    let t = chars_of("t");
    let y = chars_of("y");
    let h = chars_of("h");
    let q = chars_of("q");
    if chars_eq(first.as_slice(), p.as_slice()) {
        if tokens.len() == 1 {
            ProcessCommand::PrintAll
        } else {
            match positions(tokens, 1) {
                Some(v) => ProcessCommand::Print(v),
                None => ProcessCommand::NotNumbers,
            }
        }
    } else if chars_eq(first.as_slice(), d.as_slice()) {
        match positions(tokens, 1) {
            Some(v) => ProcessCommand::Delete(v),
            None => ProcessCommand::NotNumbers,
        }
    } else if chars_eq(first.as_slice(), e.as_slice()) {
        if tokens.len() == 1 {
            ProcessCommand::EditAll
        } else {
            match positions(tokens, 1) {
                Some(v) => ProcessCommand::Edit(v),
                None => ProcessCommand::NotNumbers,
            }
        }
    } else if chars_eq(first.as_slice(), t.as_slice()) {
        match positions(tokens, 1) {
            Some(v) => ProcessCommand::Touch(v),
            None => ProcessCommand::NotNumbers,
        }
    } else if chars_eq(first.as_slice(), y.as_slice()) {
        match positions(tokens, 1) {
            Some(v) => ProcessCommand::Yank(v),
            None => ProcessCommand::NotNumbers,
        }
    } else if chars_eq(first.as_slice(), h.as_slice()) {
        ProcessCommand::Help
    } else if chars_eq(first.as_slice(), q.as_slice()) {
        ProcessCommand::Quit
    } else {
        match regex_is_match("^\\d+", tokens[0].as_str()) {
            Some(true) => match positions(tokens, 0) {
                Some(v) => ProcessCommand::Open(v),
                None => ProcessCommand::NotNumbers,
            },
            _ => ProcessCommand::Unknown,
        }
    }
}


/// The texts of the ids of the bookmarks `s` that have one, in order.
pub open spec fn id_texts(s: Seq<crate::bookmark::BookmarkView>) -> Seq<Seq<char>>
    decreases s.len(),
{
    if s.len() == 0 {
        Seq::empty()
    } else {
        let r = id_texts(s.drop_last());
        match s.last().0 {
            Some(id) => r.push(crate::num::i32_text(id)),
            None => r,
        }
    }
}

/// The ids of `bookmarks` as one line for scripts: the ids that exist,
/// written out, sorted as texts and joined by commas.
pub fn sorted_id_list(bookmarks: &[Bookmark]) -> (r: String)
    ensures
        exists|s: Seq<Seq<char>>|
            crate::order::texts_sorted(s) && s.to_multiset() == id_texts(
                crate::repository::bookmark_views(bookmarks@),
            ).to_multiset() && r@ == crate::text::join(s, seq![',']),
{
    let ghost bv = crate::repository::bookmark_views(bookmarks@);
    let n = bookmarks.len();
    let mut texts: Vec<Vec<char>> = Vec::new();
    let mut i: usize = 0;
    assert(bv.take(0) =~= Seq::<crate::bookmark::BookmarkView>::empty());
    while i < n
        invariant
            i <= n,
            n == bookmarks@.len(),
            bv == crate::repository::bookmark_views(bookmarks@),
            views(texts@) == id_texts(bv.take(i as int)),
        decreases n - i,
    {
        assert(bv.take(i as int + 1).drop_last() =~= bv.take(i as int));
        assert(bv.take(i as int + 1).last() == bookmarks@[i as int]@);
        match bookmarks[i].id {
            Some(id) => {
                let t = crate::num::format_i32(id);
                let c = chars_of(t.as_str());
                let ghost before = texts@;
                texts.push(c);
                assert(views(texts@) =~= views(before).push(c@));
            },
            None => {},
        }
        i = i + 1;
    }
    assert(bv.take(n as int) =~= bv);
    let sorted = crate::order::sort_texts(texts);
    let ghost sv = views(sorted@);
    let mut out: Vec<char> = Vec::new();
    let m = sorted.len();
    let mut j: usize = 0;
    assert(sv.take(0) =~= Seq::<Seq<char>>::empty());
    while j < m
        invariant
            j <= m,
            m == sorted@.len(),
            sv == views(sorted@),
            out@ == crate::text::join(sv.take(j as int), seq![',']),
        decreases m - j,
    {
        assert(sv.take(j as int + 1).drop_last() =~= sv.take(j as int));
        assert(sv.take(j as int + 1).last() == sorted@[j as int]@);
        let ghost prev = out@;
        if j > 0 {
            out.push(',');
        } else {
            assert(sv.take(1) =~= seq![sv[0]]);
        }
        let ghost mid = out@;
        let w = &sorted[j];
        let wn = w.len();
        let mut k: usize = 0;
        while k < wn
            invariant
                k <= wn,
                wn == w@.len(),
                out@ == mid + w@.take(k as int),
            decreases wn - k,
        {
            out.push(w[k]);
            k = k + 1;
            assert(out@ =~= mid + w@.take(k as int));
        }
        assert(w@.take(wn as int) =~= w@);
        proof {
            if j > 0 {
                assert(out@ =~= prev + seq![','] + w@);
            } else {
                assert(out@ =~= w@);
            }
        }
        j = j + 1;
    }
    assert(sv.take(m as int) =~= sv);
    string_of(out.as_slice())
}


/// The columns a listing shows by default.
pub open spec fn default_fields_seq() -> Seq<DisplayField> {
    seq![
        DisplayField::Id,
        DisplayField::Url,
        DisplayField::Title,
        DisplayField::Description,
        DisplayField::Tags,
        DisplayField::Similarity,
    ]
}

/// Every column a listing can show.
pub open spec fn all_fields_seq() -> Seq<DisplayField> {
    seq![
        DisplayField::Id,
        DisplayField::Url,
        DisplayField::Title,
        DisplayField::Description,
        DisplayField::Tags,
        DisplayField::AccessCount,
        DisplayField::LastUpdateTs,
        DisplayField::Similarity,
        DisplayField::Embedding,
        DisplayField::Embeddable,
    ]
}

/// The columns a listing shows by default.
pub fn default_fields() -> (r: Vec<DisplayField>)
    ensures
        r@ == default_fields_seq(),
{
    let mut r: Vec<DisplayField> = Vec::new();
    r.push(DisplayField::Id);
    r.push(DisplayField::Url);
    r.push(DisplayField::Title);
    r.push(DisplayField::Description);
    r.push(DisplayField::Tags);
    r.push(DisplayField::Similarity);
    assert(r@ =~= default_fields_seq());
    r
}

/// Every column a listing can show.
pub fn all_fields() -> (r: Vec<DisplayField>)
    ensures
        r@ == all_fields_seq(),
{
    let mut r: Vec<DisplayField> = Vec::new();
    r.push(DisplayField::Id);
    r.push(DisplayField::Url);
    r.push(DisplayField::Title);
    r.push(DisplayField::Description);
    r.push(DisplayField::Tags);
    r.push(DisplayField::AccessCount);
    r.push(DisplayField::LastUpdateTs);
    r.push(DisplayField::Similarity);
    r.push(DisplayField::Embedding);
    r.push(DisplayField::Embeddable);
    assert(r@ =~= all_fields_seq());
    r
}

/// The columns of a search listing: the default ones, and the time of the
/// last update when an order is asked for.
pub fn search_fields(order_desc: bool, order_asc: bool) -> (r: Vec<DisplayField>)
    ensures
        r@ == if order_desc || order_asc {
            default_fields_seq().push(DisplayField::LastUpdateTs)
        } else {
            default_fields_seq()
        },
{
    let mut r = default_fields();
    if order_desc || order_asc {
        r.push(DisplayField::LastUpdateTs);
    }
    r
}

/// The result limit of a search: refused unless it is positive.
pub fn validate_limit(limit: Option<i32>) -> (r: Result<Option<usize>, CliError>)
    ensures
        match limit {
            Some(l) => if l <= 0 {
                r matches Err(e) && e is InvalidInput && e->InvalidInput_0@ == "Limit must be a positive integer"@
            } else {
                r matches Ok(Some(u)) && u == l
            },
            None => r matches Ok(None),
        },
{
    match limit {
        Some(l) => {
            if l <= 0 {
                Err(CliError::InvalidInput(crate::text::owned("Limit must be a positive integer")))
            } else {
                Ok(Some(l as usize))
            }
        },
        None => Ok(None),
    }
}


/// The texts of the numbers `s`.
pub open spec fn int_texts(s: Seq<i32>) -> Seq<Seq<char>> {
    Seq::new(s.len(), |i: int| crate::num::i32_text(s[i]))
}

/// The numbers `ids` as one line: sorted in ascending order, written out
/// and joined by commas.
pub fn id_line(ids: &Vec<i32>) -> (r: String)
    ensures
        exists|s: Seq<i32>|
            crate::order::ints_sorted(s) && s.to_multiset() == ids@.to_multiset() && r@
                == crate::text::join(int_texts(s), seq![',']),
{
    let mut copy: Vec<i32> = Vec::new();
    let n = ids.len();
    let mut i: usize = 0;
    while i < n
        invariant
            i <= n,
            n == ids@.len(),
            copy@ == ids@.take(i as int),
        decreases n - i,
    {
        copy.push(ids[i]);
        i = i + 1;
        assert(copy@ =~= ids@.take(i as int));
    }
    assert(ids@.take(n as int) =~= ids@);
    let sorted = crate::order::sort_ints(copy);
    let ghost tv = int_texts(sorted@);
    let mut out = String::new();
    let m = sorted.len();
    let mut j: usize = 0;
    assert(tv.take(0) =~= Seq::<Seq<char>>::empty());
    while j < m
        invariant
            j <= m,
            m == sorted@.len(),
            tv == int_texts(sorted@),
            out@ == crate::text::join(tv.take(j as int), seq![',']),
        decreases m - j,
    {
        assert(tv.take(j as int + 1).drop_last() =~= tv.take(j as int));
        assert(tv.take(j as int + 1).last() == crate::num::i32_text(sorted@[j as int]));
        let t = crate::num::format_i32(sorted[j]);
        if j > 0 {
            let a = concat(out.as_str(), ",");
            proof {
                reveal_strlit(",");
            }
            out = concat(a.as_str(), t.as_str());
        } else {
            out = t;
            assert(tv.take(1) =~= seq![tv[0]]);
        }
        j = j + 1;
    }
    assert(tv.take(m as int) =~= tv);
    out
}

/// The ids of the bookmarks at the one-based positions `indices` (those
/// without an id are passed over), and the positions that are out of
/// range, each in order.
pub open spec fn ids_at(indices: Seq<i32>, bs: Seq<crate::bookmark::BookmarkView>) -> (Seq<i32>, Seq<i32>)
    decreases indices.len(),
{
    if indices.len() == 0 {
        (Seq::empty(), Seq::empty())
    } else {
        let r = ids_at(indices.drop_last(), bs);
        let x = indices.last();
        if 1 <= x <= bs.len() {
            match bs[x - 1].0 {
                Some(id) => (r.0.push(id), r.1),
                None => r,
            }
        } else {
            (r.0, r.1.push(x))
        }
    }
}

/// The ids of the bookmarks at the one-based positions `indices`, and the
/// positions that are out of range.
pub fn positions_to_ids(indices: &Vec<i32>, bookmarks: &[Bookmark]) -> (r: (Vec<i32>, Vec<i32>))
    ensures
        (r.0@, r.1@) == ids_at(indices@, crate::repository::bookmark_views(bookmarks@)),
{
    let ghost bv = crate::repository::bookmark_views(bookmarks@);
    let mut ids: Vec<i32> = Vec::new();
    let mut missing: Vec<i32> = Vec::new();
    let n = indices.len();
    let mut i: usize = 0;
    assert(indices@.take(0) =~= Seq::<i32>::empty());
    while i < n
        invariant
            i <= n,
            n == indices@.len(),
            bv == crate::repository::bookmark_views(bookmarks@),
            (ids@, missing@) == ids_at(indices@.take(i as int), bv),
        decreases n - i,
    {
        assert(indices@.take(i as int + 1).drop_last() =~= indices@.take(i as int));
        assert(indices@.take(i as int + 1).last() == indices@[i as int]);
        let x = indices[i];
        match get_bookmark_by_index(x, bookmarks) {
            Some(b) => {
                assert(bv[x - 1] == bookmarks@[x - 1]@);
                match b.id {
                    Some(id) => {
                        ids.push(id);
                    },
                    None => {},
                }
            },
            None => {
                missing.push(x);
            },
        }
        i = i + 1;
    }
    assert(indices@.take(n as int) =~= indices@);
    (ids, missing)
}

/// The ids of the bookmarks `s` that have one, in order.
pub open spec fn present_ids(s: Seq<crate::bookmark::BookmarkView>) -> Seq<i32>
    decreases s.len(),
{
    if s.len() == 0 {
        Seq::empty()
    } else {
        match s.last().0 {
            Some(id) => present_ids(s.drop_last()).push(id),
            None => present_ids(s.drop_last()),
        }
    }
}

/// The ids of `bookmarks` that have one, in order.
pub fn all_ids(bookmarks: &[Bookmark]) -> (r: Vec<i32>)
    ensures
        r@ == present_ids(crate::repository::bookmark_views(bookmarks@)),
{
    let ghost bv = crate::repository::bookmark_views(bookmarks@);
    let mut ids: Vec<i32> = Vec::new();
    let n = bookmarks.len();
    let mut i: usize = 0;
    assert(bv.take(0) =~= Seq::<crate::bookmark::BookmarkView>::empty());
    while i < n
        invariant
            i <= n,
            n == bookmarks@.len(),
            bv == crate::repository::bookmark_views(bookmarks@),
            ids@ == present_ids(bv.take(i as int)),
        decreases n - i,
    {
        assert(bv.take(i as int + 1).drop_last() =~= bv.take(i as int));
        assert(bv.take(i as int + 1).last() == bookmarks@[i as int]@);
        match bookmarks[i].id {
            Some(id) => {
                ids.push(id);
            },
            None => {},
        }
        i = i + 1;
    }
    assert(bv.take(n as int) =~= bv);
    ids
}

/// `s` with every backslash followed by `n` made a line break, read from
/// the left as `str::replace` reads it.
pub open spec fn unescape_newlines(s: Seq<char>) -> Seq<char>
    decreases s.len(),
{
    if s.len() == 0 {
        s
    } else if s.len() >= 2 && s[0] == '\\' && s[1] == 'n' {
        seq!['\n'] + unescape_newlines(s.skip(2))
    } else {
        seq![s[0]] + unescape_newlines(s.drop_first())
    }
}

/// The content stored for a new bookmark of the kind `system_tag`: for
/// every kind but the plain URI, written `\n` sequences become line breaks.
pub fn process_content_for_type(content: &str, system_tag: crate::tag::SystemTag) -> (r: String)
    ensures
        r@ == if system_tag is Uri {
            content@
        } else {
            unescape_newlines(content@)
        },
{
    match system_tag {
        crate::tag::SystemTag::Uri => {
            return crate::text::owned(content);
        },
        _ => {},
    }
    let cs = chars_of(content);
    let n = cs.len();
    let mut out: Vec<char> = Vec::new();
    let mut i: usize = 0;
    assert(cs@.skip(0) =~= cs@);
    while i < n
        invariant
            i <= n,
            n == cs@.len(),
            out@ + unescape_newlines(cs@.skip(i as int)) == unescape_newlines(cs@),
        decreases n - i,
    {
        let ghost rest = cs@.skip(i as int);
        if i + 1 < n && cs[i] == '\\' && cs[i + 1] == 'n' {
            out.push('\n');
            proof {
                assert(rest.skip(2) =~= cs@.skip(i as int + 2));
                assert(out@ + unescape_newlines(cs@.skip(i as int + 2)) =~= out@.drop_last() + (seq!['\n'] + unescape_newlines(rest.skip(2))));
            }
            i = i + 2;
        } else {
            out.push(cs[i]);
            proof {
                assert(rest.drop_first() =~= cs@.skip(i as int + 1));
                assert(rest[0] == cs@[i as int]);
                assert(out@ + unescape_newlines(cs@.skip(i as int + 1)) =~= out@.drop_last() + (seq![rest[0]] + unescape_newlines(rest.drop_first())));
            }
            i = i + 1;
        }
    }
    assert(cs@.skip(n as int) =~= Seq::<char>::empty());
    assert(out@ + Seq::<char>::empty() =~= out@);
    string_of(out.as_slice())
}


/// The names of the tags in use that hold `partial`, ignoring case, in
/// order of first use.
pub fn get_tag_suggestions(service: &crate::tag_service::TagApplicationService, partial: &str) -> (r: Result<Vec<String>, CliError>)
    ensures
        r matches Ok(v) && string_views(v@) == Seq::new(
            crate::tag_service::suggestions(crate::repository::tag_statistics(service.store()@), partial@).len(),
            |i: int| crate::tag_service::suggestions(crate::repository::tag_statistics(service.store()@), partial@)[i].0,
        ),
{
    let resp = match service.get_tag_suggestions(partial) {
        Ok(r) => r,
        Err(e) => {
            return Err(CliError::Application(e));
        },
    };
    let ghost sug = crate::tag_service::suggestions(crate::repository::tag_statistics(service.store()@), partial@);
    let mut names: Vec<String> = Vec::new();
    let n = resp.suggestions.len();
    let mut i: usize = 0;
    while i < n
        invariant
            i <= n,
            n == resp.suggestions@.len(),
            n == sug.len(),
            forall|k: int| 0 <= k < n ==> (#[trigger] resp.suggestions@[k]).name@ == sug[k].0,
            string_views(names@) == Seq::new(i as nat, |k: int| sug[k].0),
        decreases n - i,
    {
        let s = resp.suggestions[i].name.clone();
        let ghost before = names@;
        assert(string_views(before).len() == before.len());
        names.push(s);
        assert(string_views(names@) =~= Seq::new(i as nat + 1, |k: int| sug[k].0)) by {
            assert forall|k: int| 0 <= k < before.len() implies #[trigger] string_views(names@)[k]
                == string_views(before)[k] by {
                assert(names@[k] == before[k]);
            }
        }
        i = i + 1;
    }
    Ok(names)
}


/// How a hybrid search ranks.
#[derive(Debug, Clone, Copy, PartialEq, Eq, Structural)]
pub enum SearchMode {
    Hybrid,
    Exact,
}

/// The search mode named on the command line: `exact`, or hybrid for
/// anything else.
pub fn search_mode(mode: &str) -> (r: SearchMode)
    ensures
        r == if mode@ == "exact"@ {
            SearchMode::Exact
        } else {
            SearchMode::Hybrid
        },
{
    let m = chars_of(mode);
    let e = chars_of("exact");
    if chars_eq(m.as_slice(), e.as_slice()) {
        SearchMode::Exact
    } else {
        SearchMode::Hybrid
    }
}

/// The tags of a comma-separated filter: the valid ones, trimmed, each
/// once; `None` when there are none.
pub open spec fn tag_filter(s: Seq<char>) -> Option<Seq<Seq<char>>> {
    let ts = crate::bookmark::union_tags(Seq::empty(), crate::bookmark_service::valid_trimmed(split(s, ',')));
    if ts.len() == 0 {
        None
    } else {
        Some(ts)
    }
}

/// The tags of a comma-separated filter of a hybrid search; invalid
/// pieces are passed over.
pub fn parse_tag_filter(s: &str) -> (r: Option<Vec<crate::tag::Tag>>)
    ensures
        match r {
            Some(ts) => tag_filter(s@) == Some(crate::tag::tag_views(ts@)),
            None => tag_filter(s@) is None,
        },
{
    let cs = chars_of(s);
    let parts = split_chars(cs.as_slice(), ',');
    let ghost pv = views(parts@);
    let mut acc = Bookmark {
        id: None,
        url: String::new(),
        title: String::new(),
        description: String::new(),
        tags: Vec::new(),
        access_count: 0,
        embeddable: false,
        embedding: None,
        content_hash: None,
        file_path: None,
        file_mtime: None,
        file_hash: None,
        created_at: None,
        updated_at: 0,
    };
    let mut kept: Vec<crate::tag::Tag> = Vec::new();
    let n = parts.len();
    let mut i: usize = 0;
    assert(pv.take(0) =~= Seq::<Seq<char>>::empty());
    while i < n
        invariant
            i <= n,
            n == parts@.len(),
            pv == views(parts@),
            pv == split(cs@, ','),
            crate::tag::tag_views(kept@) == crate::bookmark_service::valid_trimmed(pv.take(i as int)),
        decreases n - i,
    {
        assert(pv.take(i as int + 1).drop_last() =~= pv.take(i as int));
        assert(pv.take(i as int + 1).last() == parts@[i as int]@);
        match crate::tag::Tag::from_chars(parts[i].as_slice()) {
            Ok(t) => {
                let ghost before = kept@;
                kept.push(t);
                assert(crate::tag::tag_views(kept@) =~= crate::tag::tag_views(before).push(t@));
            },
            Err(_) => {},
        }
        i = i + 1;
    }
    assert(pv.take(n as int) =~= pv);
    assert(crate::tag::tag_views(acc.tags@) =~= Seq::<Seq<char>>::empty());
    acc.add_tags(&kept);
    if acc.tags.len() == 0 {
        None
    } else {
        Some(acc.tags)
    }
}

/// The ids typed at a prompt: the input trimmed, split at commas, each
/// piece trimmed, and the pieces that read as numbers kept, in order.
pub fn parse_id_input(input: &str) -> (r: Vec<i32>)
    ensures
        r@ == crate::fzf::picked_ids(id_pieces(trim(input@))),
{
    let cs = chars_of(input);
    let t = trim_chars(cs.as_slice());
    let parts = split_chars(t.as_slice(), ',');
    let mut strs: Vec<String> = Vec::new();
    let n = parts.len();
    let mut i: usize = 0;
    while i < n
        invariant
            i <= n,
            n == parts@.len(),
            views(parts@) == split(t@, ','),
            string_views(strs@) == id_pieces(t@).take(i as int),
        decreases n - i,
    {
        let p = trim_chars(parts[i].as_slice());
        let st = string_of(p.as_slice());
        let ghost before = strs@;
        assert(string_views(before).len() == before.len());
        strs.push(st);
        assert(string_views(strs@) =~= id_pieces(t@).take(i as int + 1)) by {
            assert forall|k: int| 0 <= k < before.len() implies #[trigger] string_views(strs@)[k]
                == string_views(before)[k] by {
                assert(strs@[k] == before[k]);
            }
            assert(views(parts@)[i as int] == parts@[i as int]@);
        }
        i = i + 1;
    }
    assert(id_pieces(t@).take(n as int) =~= id_pieces(t@));
    crate::fzf::selected_ids(&strs)
}

/// The bookmarks a surprise acts on: `n` drawn at random, at least one
/// (all of them, in some order, when fewer are stored), each with the
/// description of its default action, which the caller then runs.
pub fn surprise(
    service: &crate::bookmark_service::BookmarkServiceImpl,
    n: i32,
) -> (r: Result<Vec<(Bookmark, &'static str)>, crate::error::ApplicationError>)
    ensures
        r matches Ok(v) && {
            let count: nat = if n < 1 {
                1
            } else {
                n as nat
            };
            let s = service.store()@;
            &&& v@.len() == if count < s.len() {
                count
            } else {
                s.len()
            }
            &&& exists|p: Seq<u64>|
                p.len() == count && #[trigger] crate::sample::random_pick(s, p) == Seq::new(
                    v@.len(),
                    |i: int| v@[i].0@,
                )
            &&& forall|i: int|
                0 <= i < v@.len() ==> (#[trigger] v@[i]).1@ == crate::actions::kind_description(
                    crate::actions::action_kind_of(v@[i].0@.4),
                )
        },
{
    let count: usize = if n < 1 {
        1
    } else {
        n as usize
    };
    let picks = crate::sample::random_picks(count);
    let drawn = service.pick_bookmarks(&picks);
    proof {
        crate::sample::lemma_random_pick_draws(service.store()@, picks@);
        assert(crate::repository::bookmark_views(drawn@).len() == drawn@.len());
    }
    let ghost dv = crate::repository::bookmark_views(drawn@);
    let mut out: Vec<(Bookmark, &'static str)> = Vec::new();
    let mut rest = drawn;
    let mut k: usize = 0;
    let m = rest.len();
    assert(dv.skip(0) =~= dv);
    while rest.len() > 0
        invariant
            k + rest@.len() == m,
            m == dv.len(),
            crate::repository::bookmark_views(rest@) == dv.skip(k as int),
            out@.len() == k,
            forall|i: int| 0 <= i < k ==> (#[trigger] out@[i]).0@ == dv[i],
            forall|i: int|
                0 <= i < k ==> (#[trigger] out@[i]).1@ == crate::actions::kind_description(
                    crate::actions::action_kind_of(out@[i].0@.4),
                ),
        decreases rest.len(),
    {
        let ghost before = rest@;
        let b = rest.remove(0);
        assert(crate::repository::bookmark_views(before)[0] == b@);
        assert(crate::repository::bookmark_views(rest@) =~= crate::repository::bookmark_views(
            before,
        ).drop_first());
        let d = crate::actions::get_default_action_description(&b);
        out.push((b, d));
        k = k + 1;
    }
    assert(Seq::new(out@.len(), |i: int| out@[i].0@) =~= dv);
    Ok(out)
}

/// Whether a URL holds template markers (`{{` or `{%`).
pub open spec fn has_template_markers(url: Seq<char>) -> bool {
    crate::search::occurs_in("{{"@, url) || crate::search::occurs_in("{%"@, url)
}

/// The URL after an interpolation that gave `rendered`: the rendered text,
/// or the URL as it was when rendering failed.
pub fn interpolated_url(url: &str, rendered: Result<String, crate::error::ApplicationError>) -> (r: String)
    ensures
        match rendered {
            Ok(t) => r@ == t@,
            Err(_) => r@ == url@,
        },
{
    match rendered {
        Ok(t) => t,
        Err(_) => crate::text::owned(url),
    }
}

/// Whether `url` is what the URL `before` becomes after a rendering that
/// gave `rendered`: the rendered text, or `before` when rendering failed.
pub open spec fn url_after(before: Seq<char>, rendered: Result<String, crate::error::ApplicationError>) -> Seq<char> {
    match rendered {
        Ok(t) => t@,
        Err(_) => before,
    }
}

/// Whether `n` is the bookmark `o` after interpolation by `service`: a URL
/// with template markers is what `service` rendered for `o` (as it was
/// when rendering failed), a URL without markers stays, and nothing but
/// the URL changes.
pub open spec fn interpolated<S: crate::actions::InterpolationService>(service: &S, o: Bookmark, n: Bookmark) -> bool {
    &&& n@ == (o@.0, n@.1, o@.2, o@.3, o@.4, o@.5, o@.6, o@.7, o@.8, o@.9, o@.10)
    &&& !has_template_markers(o@.1) ==> n@.1 == o@.1
    &&& has_template_markers(o@.1) ==> exists|res: Result<String, crate::error::ApplicationError>|
        call_ensures(S::render_bookmark_url, (service, &o), res) && n@.1 == url_after(o@.1, res)
}

/// The bookmarks with the template markers of their URLs filled in by
/// `service`: a URL without markers is left as it is; one with markers
/// becomes what `service` renders for the bookmark, or stays as it is when
/// rendering fails; nothing but URLs changes.
pub fn apply_interpolation<S: crate::actions::InterpolationService>(service: &S, bookmarks: Vec<Bookmark>) -> (r: Vec<Bookmark>)
    ensures
        r@.len() == bookmarks@.len(),
        forall|i: int| 0 <= i < r@.len() ==> interpolated(service, #[trigger] bookmarks@[i], r@[i]),
{
    let ghost orig = bookmarks@;
    let open = chars_of("{{");
    let stmt = chars_of("{%");
    let mut rest = bookmarks;
    let mut out: Vec<Bookmark> = Vec::new();
    let m = rest.len();
    let mut k: usize = 0;
    assert(orig.skip(0) =~= orig);
    while rest.len() > 0
        invariant
            k + rest@.len() == m,
            m == orig.len(),
            rest@ == orig.skip(k as int),
            out@.len() == k,
            open@ == "{{"@,
            stmt@ == "{%"@,
            forall|i: int| 0 <= i < k ==> interpolated(service, #[trigger] orig[i], out@[i]),
        decreases rest.len(),
    {
        let ghost before = rest@;
        let mut b = rest.remove(0);
        assert(before[0] == orig[k as int]);
        assert(rest@ =~= orig.skip(k + 1));
        let ghost b0 = b;
        let ghost prev = out@;
        let u = chars_of(b.url.as_str());
        if crate::search::occurs(open.as_slice(), u.as_slice()) || crate::search::occurs(
            stmt.as_slice(),
            u.as_slice(),
        ) {
            let render = S::render_bookmark_url;
            let rendered = render(service, &b);
            let url = interpolated_url(b.url.as_str(), rendered);
            b.url = url;
            proof {
                assert(b@.1 == url_after(b0@.1, rendered));
                assert(interpolated(service, b0, b));
            }
        } else {
            assert(interpolated(service, b0, b));
        }
        out.push(b);
        proof {
            assert(out@[k as int] == b);
            assert forall|i: int| 0 <= i < k + 1 implies interpolated(service, #[trigger] orig[i], out@[i]) by {
                if i < k {
                    assert(out@[i] == prev[i]);
                }
            }
        }
        k = k + 1;
    }
    out
}

/// The kind of bookmark a type name asks for, from its lowercase form:
/// `snip`, `text`, `shell`, `md` or `markdown`, `env`; any other name asks
/// for a plain URI.
pub open spec fn kind_of_type(lower: Seq<char>) -> SystemTag {
    if lower == "snip"@ {
        SystemTag::Snippet
    } else if lower == "text"@ {
        SystemTag::Text
    } else if lower == "shell"@ {
        SystemTag::Shell
    } else if lower == "md"@ || lower == "markdown"@ {
        SystemTag::Markdown
    } else if lower == "env"@ {
        SystemTag::Env
    } else {
        SystemTag::Uri
    }
}

/// Whether `a` and `b` are the same text.
fn same_text(a: &str, b: &str) -> (r: bool)
    ensures
        r == (a@ == b@),
{
    let x = chars_of(a);
    let y = chars_of(b);
    chars_eq(x.as_slice(), y.as_slice())
}

/// The kind of bookmark the lowercase type name `lower` asks for.
pub fn kind_for_lowercase_type(lower: &str) -> (r: SystemTag)
    ensures
        r == kind_of_type(lower@),
{
    if same_text(lower, "snip") {
        SystemTag::Snippet
    } else if same_text(lower, "text") {
        SystemTag::Text
    } else if same_text(lower, "shell") {
        SystemTag::Shell
    } else if same_text(lower, "md") || same_text(lower, "markdown") {
        SystemTag::Markdown
    } else if same_text(lower, "env") {
        SystemTag::Env
    } else {
        SystemTag::Uri
    }
}

/// The kind of bookmark the type name `bookmark_type` asks for, whatever
/// its case.
pub fn kind_for_type(bookmark_type: &str) -> (r: SystemTag)
    ensures
        r == kind_of_type(lowercase(bookmark_type@)),
{
    let lower = to_lowercase(bookmark_type);
    kind_for_lowercase_type(lower.as_str())
}

/// The tags of a new bookmark of the kind `kind`: the given tags, each
/// once, with the kind's system tag added unless it is a plain URI.
pub fn tags_with_kind(tags: &Vec<Tag>, kind: SystemTag) -> (r: Vec<Tag>)
    ensures
        tag_views(r@) == if kind is Uri {
            union_tags(Seq::empty(), tag_views(tags@))
        } else {
            union_tags(union_tags(Seq::empty(), tag_views(tags@)), seq![system_tag_text(kind)])
        },
{
    let mut holder = match Bookmark::new("-", "", "", copy_tags(tags)) {
        Ok(b) => b,
        Err(_) => {
            proof {
                reveal_strlit("-");
                assert(trim("-"@) == "-"@) by {
                    crate::text::lemma_trim_fixed("-"@);
                }
            }
            assert(false);
            return Vec::new();
        },
    };
    if kind != SystemTag::Uri {
        let mut extra: Vec<Tag> = Vec::new();
        extra.push(kind.to_tag());
        assert(tag_views(extra@) =~= seq![system_tag_text(kind)]);
        holder.add_tags(&extra);
    }
    holder.tags
}

/// The all-tags filter of a search: the `--tags` list, with the
/// `--tags-prefix` list appended after a comma; no filter when both are
/// missing.
pub open spec fn merged_all_tags(all: Option<Seq<char>>, prefix: Option<Seq<char>>) -> Seq<char> {
    match prefix {
        None => match all {
            Some(a) => a,
            None => Seq::empty(),
        },
        Some(p) => match all {
            Some(a) => a + ","@ + p,
            None => p,
        },
    }
}

/// The view of an optional string.
pub open spec fn opt_text(o: Option<String>) -> Option<Seq<char>> {
    match o {
        Some(s) => Some(s@),
        None => None,
    }
}

/// The all-tags filter of a search from `--tags` and `--tags-prefix`:
/// `None` when the merged list is empty.
pub fn search_all_tags(tags_all: Option<String>, tags_prefix: Option<String>) -> (r: Option<String>)
    ensures
        ({
            let m = merged_all_tags(opt_text(tags_all), opt_text(tags_prefix));
            if m.len() == 0 {
                r is None
            } else {
                r matches Some(t) && t@ == m
            }
        }),
{
    let merged = match tags_prefix {
        None => match tags_all {
            Some(a) => a,
            None => String::new(),
        },
        Some(p) => match tags_all {
            Some(a) => {
                let mut r = a;
                r.append(",");
                r.append(p.as_str());
                r
            },
            None => p,
        },
    };
    let chars = chars_of(merged.as_str());
    if chars.len() == 0 {
        None
    } else {
        Some(merged)
    }
}

/// What an update of a bookmark's tags does.
#[derive(Debug, Clone, Copy, PartialEq, Eq, Structural)]
pub enum TagEdit {
    /// The given tags replace all tags.
    Replace,
    /// The given tags are added (`add`) and the unwanted ones removed
    /// (`remove`).
    Adjust { add: bool, remove: bool },
}

/// The tag edit of an update. A forced update needs tags and no tags to
/// remove, and is refused otherwise; it replaces the tags. An update that
/// is not forced adds the given tags and removes the unwanted ones, each
/// when given.
pub fn tag_edit_for(force: bool, has_tags: bool, has_tags_not: bool) -> (r: Result<TagEdit, CliError>)
    ensures
        r is Err <==> force && (!has_tags || has_tags_not),
        r matches Err(e) ==> e is InvalidInput && e->InvalidInput_0@
            == "Force update requires tags but no ntags"@,
        r matches Ok(t) ==> t == if force {
            TagEdit::Replace
        } else {
            TagEdit::Adjust { add: has_tags, remove: has_tags_not }
        },
{
    if force && (!has_tags || has_tags_not) {
        return Err(CliError::InvalidInput(crate::text::owned("Force update requires tags but no ntags")));
    }
    if force {
        Ok(TagEdit::Replace)
    } else {
        Ok(TagEdit::Adjust { add: has_tags, remove: has_tags_not })
    }
}

/// The tags of a bookmark as the detail view shows them: their texts in
/// order, each followed by a comma, after a leading comma.
pub open spec fn tags_field(tags: Seq<Seq<char>>) -> Seq<char> {
    if tags.len() == 0 {
        Seq::empty()
    } else {
        ","@ + crate::text::join(tags, seq![',']) + ","@
    }
}

/// The heading of the detail text: id (`?` without one), title, tags and
/// the description of the default action.
pub open spec fn details_heading(b: crate::bookmark::BookmarkView, action: Seq<char>) -> Seq<char> {
    (match b.0 {
        Some(i) => crate::num::i32_text(i),
        None => "?"@,
    }) + " "@ + b.2 + " ["@ + tags_field(b.4) + "] ("@ + action + ")"@
}

/// The creation time as the detail text shows it: `N/A` when unknown.
pub open spec fn created_text(c: Option<i64>) -> Seq<char> {
    match c {
        Some(t) => timestamp_text(t as int),
        None => "N/A"@,
    }
}

/// The fields of the detail text: URL or content, description, access
/// count, creation and update time, whether there is an embedding, and the
/// default action.
pub open spec fn details_fields(b: crate::bookmark::BookmarkView, action: Seq<char>) -> Seq<char> {
    "\n  URL/Content: "@ + b.1 + "\n  Description: "@ + b.3 + "\n  Access count: "@
        + crate::num::i32_text(b.5) + "\n  Created: "@ + created_text(b.10.0) + "\n  Updated: "@
        + timestamp_text(b.10.1 as int) + "\n  Has embedding: "@ + (if b.7 is Some {
        "true"@
    } else {
        "false"@
    }) + "\n  Default Action: "@ + action
}

/// The source line of the detail text, for a bookmark read from a file:
/// the file and its modification time.
pub open spec fn details_source(b: crate::bookmark::BookmarkView) -> Seq<char> {
    match (b.9.0, b.9.1) {
        (Some(p), Some(t)) => "\n  Source File: "@ + p + " (modified: "@ + timestamp_text(t as int) + ")"@,
        _ => Seq::empty(),
    }
}

/// The detail text of a bookmark whose default action is described by
/// `action`: the heading, the fields, the source line, and a line end.
pub open spec fn details_text(b: crate::bookmark::BookmarkView, action: Seq<char>) -> Seq<char> {
    details_heading(b, action) + details_fields(b, action) + details_source(b) + "\n"@
}

fn details_heading_of(bookmark: &Bookmark, action: &str) -> (r: String)
    ensures
        r@ == details_heading(bookmark@, action@),
{
    let names = crate::dto::tag_strings(&bookmark.tags);
    let joined = crate::display::comma_joined(&names);
    let mut r = String::new();
    match bookmark.id {
        Some(i) => {
            let t = crate::num::format_i32(i);
            r.append(t.as_str());
        },
        None => r.append("?"),
    }
    r.append(" ");
    r.append(bookmark.title.as_str());
    r.append(" [");
    let ghost before_tags = r@;
    if names.len() > 0 {
        r.append(",");
        r.append(joined.as_str());
        r.append(",");
    }
    assert(r@ =~= before_tags + tags_field(tag_views(bookmark.tags@)));
    r.append("] (");
    r.append(action);
    r.append(")");
    r
}

fn details_fields_of(bookmark: &Bookmark, action: &str) -> (r: String)
    ensures
        r@ == details_fields(bookmark@, action@),
{
    let mut r = String::new();
    r.append("\n  URL/Content: ");
    r.append(bookmark.url.as_str());
    r.append("\n  Description: ");
    r.append(bookmark.description.as_str());
    r.append("\n  Access count: ");
    let n = crate::num::format_i32(bookmark.access_count);
    r.append(n.as_str());
    r.append("\n  Created: ");
    let c = match bookmark.created_at {
        Some(c) => format_timestamp(c),
        None => crate::text::owned("N/A"),
    };
    r.append(c.as_str());
    r.append("\n  Updated: ");
    let u = format_timestamp(bookmark.updated_at);
    r.append(u.as_str());
    r.append("\n  Has embedding: ");
    match &bookmark.embedding {
        Some(_) => r.append("true"),
        None => r.append("false"),
    }
    r.append("\n  Default Action: ");
    r.append(action);
    r
}

fn details_source_of(bookmark: &Bookmark) -> (r: String)
    ensures
        r@ == details_source(bookmark@),
{
    let mut r = String::new();
    match (&bookmark.file_path, bookmark.file_mtime) {
        (Some(p), Some(t)) => {
            r.append("\n  Source File: ");
            r.append(p.as_str());
            r.append(" (modified: ");
            let m = format_timestamp(t as i64);
            r.append(m.as_str());
            r.append(")");
        },
        _ => {},
    }
    r
}

/// The detail text of `bookmark`, with its default action described.
pub fn show_bookmark_details(bookmark: &Bookmark) -> (r: String)
    ensures
        r@ == details_text(
            bookmark@,
            crate::actions::kind_description(crate::actions::action_kind_of(bookmark@.4)),
        ),
{
    let action = crate::actions::get_default_action_description(bookmark);
    let h = details_heading_of(bookmark, action);
    let f = details_fields_of(bookmark, action);
    let s = details_source_of(bookmark);
    let mut r = h;
    r.append(f.as_str());
    r.append(s.as_str());
    r.append("\n");
    r
}

} // verus!
