//! The decisions of the fuzzy-finder view: how wide the id column is,
//! whether the finder takes its own screen, which bookmarks were picked,
//! and what the key that closed the finder asks for. Running the finder
//! and carrying out the action is left to the program around the library.
use vstd::prelude::*;
use crate::bookmark::{Bookmark, BookmarkView};
use crate::error::concat;
use crate::num::{format_i32, i32_text, parse_i32, parse_i32_spec};
use crate::repository::bookmark_views;
use crate::text::{chars_eq, chars_of, string_views};

verus! {

/// The id a listing shows for a bookmark: its id, or 0 when it has none.
pub open spec fn shown_id(b: BookmarkView) -> i32 {
    match b.0 {
        Some(i) => i,
        None => 0,
    }
}

/// The widest shown id of `s`, in characters; 0 for no bookmarks.
pub open spec fn id_width(s: Seq<BookmarkView>) -> nat
    decreases s.len(),
{
    if s.len() == 0 {
        0
    } else {
        let w = id_width(s.drop_last());
        let l = i32_text(shown_id(s.last())).len();
        if l > w {
            l
        } else {
            w
        }
    }
}

/// The width of the id column of a listing of `bookmarks`.
pub fn max_id_width(bookmarks: &[Bookmark]) -> (r: usize)
    ensures
        r as nat == id_width(bookmark_views(bookmarks@)),
{
    let ghost s = bookmark_views(bookmarks@);
    let n = bookmarks.len();
    let mut w: usize = 0;
    let mut i: usize = 0;
    assert(s.take(0) =~= Seq::<BookmarkView>::empty());
    while i < n
        invariant
            i <= n,
            n == bookmarks@.len(),
            s == bookmark_views(bookmarks@),
            w as nat == id_width(s.take(i as int)),
        decreases n - i,
    {
        assert(s.take(i as int + 1).drop_last() =~= s.take(i as int));
        assert(s.take(i as int + 1).last() == bookmarks@[i as int]@);
        let id = match bookmarks[i].id {
            Some(x) => x,
            None => 0,
        };
        let t = format_i32(id);
        let l = chars_of(t.as_str()).len();
        if l > w {
            w = l;
        }
        i = i + 1;
    }
    assert(s.take(n as int) =~= s);
    w
}

/// Whether the finder takes a screen of its own: not when its output goes
/// to standard output, and not when it fills the terminal anyway.
pub fn use_alternate_screen(stdout: bool, height: &str) -> (r: bool)
    ensures
        r == (!stdout && height@ != "100%"@ && height@ != "100"@),
{
    if stdout {
        return false;
    }
    let h = chars_of(height);
    let full = chars_of("100%");
    let plain = chars_of("100");
    !chars_eq(h.as_slice(), full.as_slice()) && !chars_eq(h.as_slice(), plain.as_slice())
}

/// The ids of the picked finder lines: each line's output that reads as an
/// `i32`, in order; other outputs are passed over.
pub open spec fn picked_ids(outputs: Seq<Seq<char>>) -> Seq<i32>
    decreases outputs.len(),
{
    if outputs.len() == 0 {
        Seq::empty()
    } else {
        let r = picked_ids(outputs.drop_last());
        match parse_i32_spec(outputs.last()) {
            Some(v) => r.push(v),
            None => r,
        }
    }
}

/// The ids of the picked finder lines.
pub fn selected_ids(outputs: &Vec<String>) -> (r: Vec<i32>)
    ensures
        r@ == picked_ids(string_views(outputs@)),
{
    let ghost sv = string_views(outputs@);
    let n = outputs.len();
    let mut r: Vec<i32> = Vec::new();
    let mut i: usize = 0;
    assert(sv.take(0) =~= Seq::<Seq<char>>::empty());
    while i < n
        invariant
            i <= n,
            n == outputs@.len(),
            sv == string_views(outputs@),
            r@ == picked_ids(sv.take(i as int)),
        decreases n - i,
    {
        assert(sv.take(i as int + 1).drop_last() =~= sv.take(i as int));
        assert(sv.take(i as int + 1).last() == outputs@[i as int]@);
        match parse_i32(outputs[i].as_str()) {
            Some(v) => {
                r.push(v);
            },
            None => {},
        }
        i = i + 1;
    }
    assert(sv.take(n as int) =~= sv);
    r
}

/// Whether a bookmark was picked: it has an id among `ids`.
pub open spec fn picked(b: BookmarkView, ids: Seq<i32>) -> bool {
    b.0 matches Some(id) && ids.contains(id)
}

/// The bookmarks of `bookmarks` that were picked, in listing order.
pub fn selected_bookmarks(bookmarks: &[Bookmark], ids: &Vec<i32>) -> (r: Vec<Bookmark>)
    ensures
        bookmark_views(r@) == bookmark_views(bookmarks@).filter(|b: BookmarkView| picked(b, ids@)),
{
    let ghost s = bookmark_views(bookmarks@);
    let ghost pred = |b: BookmarkView| picked(b, ids@);
    let n = bookmarks.len();
    let mut out: Vec<Bookmark> = Vec::new();
    let mut i: usize = 0;
    assert(s.take(0) =~= Seq::<BookmarkView>::empty());
    while i < n
        invariant
            i <= n,
            n == bookmarks@.len(),
            s == bookmark_views(bookmarks@),
            pred == (|b: BookmarkView| picked(b, ids@)),
            bookmark_views(out@) == s.take(i as int).filter(pred),
        decreases n - i,
    {
        reveal_with_fuel(Seq::filter, 1);
        assert(s.take(i as int + 1).drop_last() =~= s.take(i as int));
        assert(s.take(i as int + 1).last() == bookmarks@[i as int]@);
        let keep = match bookmarks[i].id {
            Some(id) => {
                let mut found = false;
                let m = ids.len();
                let mut k: usize = 0;
                while k < m
                    invariant
                        k <= m,
                        m == ids@.len(),
                        found == exists|j: int| 0 <= j < k && ids@[j] == id,
                    decreases m - k,
                {
                    if ids[k] == id {
                        found = true;
                    }
                    k = k + 1;
                }
                found
            },
            None => false,
        };
        if keep {
            let b = bookmarks[i].clone();
            let ghost before = out@;
            assert(bookmark_views(before).len() == before.len());
            out.push(b);
            assert(bookmark_views(out@) =~= bookmark_views(before).push(b@)) by {
                assert forall|k: int| 0 <= k < before.len() implies #[trigger] bookmark_views(
                    out@,
                )[k] == bookmark_views(before)[k] by {
                    assert(out@[k] == before[k]);
                }
            }
        }
        i = i + 1;
    }
    assert(s.take(n as int) =~= s);
    out
}

/// The key that closed the finder.
#[derive(Debug, Clone, Copy, PartialEq, Eq, Structural)]
pub enum FzfKey {
    Enter,
    /// A letter pressed with the control key.
    Ctrl(char),
    Other,
}

/// What the closing key asks for.
#[derive(Debug, Clone, Copy, PartialEq, Eq, Structural)]
pub enum FzfAction {
    /// Run the default action of the picked bookmarks (or print them).
    Run,
    /// Copy the first picked bookmark.
    Copy,
    /// Edit the picked bookmarks.
    Edit,
    /// Delete the picked bookmarks.
    Delete,
    /// Clone the first picked bookmark.
    Clone,
    /// Show the details of the first picked bookmark.
    Details,
    /// Nothing.
    Nothing,
}

/// The action of a closing key.
pub open spec fn key_action(key: FzfKey) -> FzfAction {
    match key {
        FzfKey::Enter => FzfAction::Run,
        FzfKey::Ctrl(c) => if c == 'y' || c == 'o' {
            FzfAction::Copy
        } else if c == 'e' {
            FzfAction::Edit
        } else if c == 'd' {
            FzfAction::Delete
        } else if c == 'a' {
            FzfAction::Clone
        } else if c == 'p' {
            FzfAction::Details
        } else {
            FzfAction::Nothing
        },
        FzfKey::Other => FzfAction::Nothing,
    }
}

/// What the key that closed the finder asks for.
pub fn fzf_action(key: FzfKey) -> (r: FzfAction)
    ensures
        r == key_action(key),
{
    match key {
        FzfKey::Enter => FzfAction::Run,
        FzfKey::Ctrl(c) => {
            if c == 'y' || c == 'o' {
                FzfAction::Copy
            } else if c == 'e' {
                FzfAction::Edit
            } else if c == 'd' {
                FzfAction::Delete
            } else if c == 'a' {
                FzfAction::Clone
            } else if c == 'p' {
                FzfAction::Details
            } else {
                FzfAction::Nothing
            }
        },
        FzfKey::Other => FzfAction::Nothing,
    }
}

/// What copying a shell-script bookmark puts on the clipboard: the command
/// that runs it without editing.
pub open spec fn shell_open_command_text(id: i32) -> Seq<char> {
    "bkmr open --no-edit "@ + i32_text(id) + " --"@
}

/// What copying a bookmark puts on the clipboard when it is a shell
/// script (it carries the tag `_shell_`): the command that runs it;
/// `None` for other bookmarks, whose rendered URL is copied.
pub fn shell_copy_command(bookmark: &Bookmark) -> (r: Option<String>)
    ensures
        bookmark@.4.contains("_shell_"@) ==> (r matches Some(s) && s@ == shell_open_command_text(
            shown_id(bookmark@),
        )),
        !bookmark@.4.contains("_shell_"@) ==> r is None,
{
    proof {
        reveal_strlit("_shell_");
        crate::text::lemma_trim_fixed("_shell_"@);
    }
    let shell = match crate::tag::Tag::new("_shell_") {
        Ok(t) => t,
        Err(_) => {
            assert(false);
            return None;
        },
    };
    if !bookmark.has_tag(&shell) {
        return None;
    }
    let id = match bookmark.id {
        Some(x) => x,
        None => 0,
    };
    let t = format_i32(id);
    let head = concat("bkmr open --no-edit ", t.as_str());
    Some(concat(head.as_str(), " --"))
}

} // verus!
