//! Settings: the database location and the options of the fuzzy finder,
//! and how the finder options are read from an option string.
use vstd::prelude::*;
use crate::text::{chars_eq, chars_of, is_whitespace, is_ws, owned, string_of};

verus! {

/// The pieces of `s` between whitespace characters, empty pieces included.
pub open spec fn ws_pieces(s: Seq<char>) -> Seq<Seq<char>>
    decreases s.len(),
{
    if s.len() == 0 {
        seq![Seq::<char>::empty()]
    } else {
        let r = ws_pieces(s.drop_last());
        if is_ws(s.last()) {
            r.push(Seq::<char>::empty())
        } else {
            r.update(r.len() - 1, r.last().push(s.last()))
        }
    }
}

/// The words of `s`, as `str::split_whitespace` gives them.
pub open spec fn words(s: Seq<char>) -> Seq<Seq<char>> {
    ws_pieces(s).filter(|p: Seq<char>| p.len() > 0)
}

proof fn lemma_ws_pieces_len(s: Seq<char>)
    ensures
        ws_pieces(s).len() >= 1,
    decreases s.len(),
{
    if s.len() > 0 {
        lemma_ws_pieces_len(s.drop_last());
    }
}

/// The words of `s`, in order.
pub fn split_whitespace(s: &str) -> (r: Vec<Vec<char>>)
    ensures
        crate::text::views(r@) == words(s@),
{
    let cs = chars_of(s);
    let n = cs.len();
    let ghost keep = |p: Seq<char>| p.len() > 0;
    let mut done: Vec<Vec<char>> = Vec::new();
    let mut cur: Vec<char> = Vec::new();
    let mut i: usize = 0;
    assert(cs@.take(0) =~= Seq::<char>::empty());
    while i < n
        invariant
            i <= n,
            n == cs@.len(),
            keep == (|p: Seq<char>| p.len() > 0),
            ws_pieces(cs@.take(i as int)).len() >= 1,
            crate::text::views(done@) == ws_pieces(cs@.take(i as int)).drop_last().filter(keep),
            cur@ == ws_pieces(cs@.take(i as int)).last(),
        decreases n - i,
    {
        let ghost pre = cs@.take(i as int);
        assert(cs@.take(i as int + 1).drop_last() =~= pre);
        assert(cs@.take(i as int + 1).last() == cs@[i as int]);
        let ghost pieces = ws_pieces(pre);
        let c = cs[i];
        if is_whitespace(c) {
            let ghost before = done@;
            if cur.len() > 0 {
                let mut w: Vec<char> = Vec::new();
                std::mem::swap(&mut w, &mut cur);
                done.push(w);
                assert(crate::text::views(done@) =~= crate::text::views(before).push(pieces.last()));
            } else {
                cur = Vec::new();
            }
            proof {
                reveal_with_fuel(Seq::filter, 1);
                let np = pieces.push(Seq::<char>::empty());
                assert(np.drop_last() =~= pieces);
                assert(pieces =~= pieces.drop_last().push(pieces.last()));
                assert(cur@ =~= Seq::<char>::empty());
            }
        } else {
            cur.push(c);
            proof {
                let np = pieces.update(pieces.len() - 1, pieces.last().push(c));
                assert(np.drop_last() =~= pieces.drop_last());
            }
        }
        i = i + 1;
        proof {
            lemma_ws_pieces_len(cs@.take(i as int));
        }
    }
    assert(cs@.take(n as int) =~= cs@);
    proof {
        reveal_with_fuel(Seq::filter, 1);
        let pieces = ws_pieces(cs@);
        assert(pieces =~= pieces.drop_last().push(pieces.last()));
    }
    if cur.len() > 0 {
        done.push(cur);
    }
    proof {
        let pieces = ws_pieces(cs@);
        assert(crate::text::views(done@) =~= pieces.filter(keep));
    }
    done
}

/// Options of the fuzzy finder.
#[derive(Debug, Clone)]
pub struct FzfOpts {
    /// Height of the finder window.
    pub height: String,
    /// Whether results are shown in reverse order.
    pub reverse: bool,
    /// Whether tags are shown.
    pub show_tags: bool,
    /// Whether URLs are hidden.
    pub no_url: bool,
}

/// The finder options seen as height, reverse, show-tags and no-URL.
pub type FzfView = (Seq<char>, bool, bool, bool);

/// The default finder options: half the screen high, nothing else set.
pub open spec fn default_fzf() -> FzfView {
    ("50%"@, false, false, false)
}

/// The finder options after reading the word at position `i` of `ws`.
pub open spec fn fzf_step(o: FzfView, ws: Seq<Seq<char>>, i: int) -> FzfView {
    if ws[i] == "--height"@ && i + 1 < ws.len() {
        (ws[i + 1], o.1, o.2, o.3)
    } else if ws[i] == "--reverse"@ {
        (o.0, true, o.2, o.3)
    } else if ws[i] == "--show-tags"@ {
        (o.0, o.1, true, o.3)
    } else if ws[i] == "--no-url"@ {
        (o.0, o.1, o.2, true)
    } else {
        o
    }
}

/// The finder options after reading the first `k` words of `ws`.
pub open spec fn fzf_fold(ws: Seq<Seq<char>>, k: int) -> FzfView
    decreases k,
{
    if k <= 0 {
        default_fzf()
    } else {
        fzf_step(fzf_fold(ws, k - 1), ws, k - 1)
    }
}

impl FzfOpts {
    /// The options seen as height, reverse, show-tags and no-URL.
    pub open spec fn view_opts(&self) -> FzfView {
        (self.height@, self.reverse, self.show_tags, self.no_url)
    }
}

impl Default for FzfOpts {
    /// Half the screen high, nothing else set.
    fn default() -> (r: FzfOpts)
        ensures
            r.view_opts() == default_fzf(),
    {
        FzfOpts { height: owned("50%"), reverse: false, show_tags: false, no_url: false }
    }
}

/// The settings of the tool.
#[derive(Debug, Clone)]
pub struct Settings {
    /// Path of the database file.
    pub db_url: String,
    /// Options of the fuzzy finder.
    pub fzf_opts: FzfOpts,
}

/// Reads finder options from an option string such as
/// `--height 80% --reverse --show-tags --no-url`: `--height` takes the
/// next word, the flags set their option, and unknown words are passed
/// over.
pub fn parse_fzf_opts(opts_str: &str) -> (r: FzfOpts)
    ensures
        r.view_opts() == fzf_fold(words(opts_str@), words(opts_str@).len() as int),
{
    let mut opts = FzfOpts::default();
    let parts = split_whitespace(opts_str);
    let ghost ws = crate::text::views(parts@);
    let height = chars_of("--height");
    let reverse = chars_of("--reverse");
    let show_tags = chars_of("--show-tags");
    let no_url = chars_of("--no-url");
    let n = parts.len();
    let mut i: usize = 0;
    while i < n
        invariant
            i <= n,
            n == parts@.len(),
            ws == crate::text::views(parts@),
            height@ == "--height"@,
            reverse@ == "--reverse"@,
            show_tags@ == "--show-tags"@,
            no_url@ == "--no-url"@,
            opts.view_opts() == fzf_fold(ws, i as int),
        decreases n - i,
    {
        assert(ws[i as int] == parts@[i as int]@);
        if chars_eq(parts[i].as_slice(), height.as_slice()) && i + 1 < n {
            assert(ws[i as int + 1] == parts@[i as int + 1]@);
            opts.height = string_of(parts[i + 1].as_slice());
        } else if chars_eq(parts[i].as_slice(), reverse.as_slice()) {
            opts.reverse = true;
        } else if chars_eq(parts[i].as_slice(), show_tags.as_slice()) {
            opts.show_tags = true;
        } else if chars_eq(parts[i].as_slice(), no_url.as_slice()) {
            opts.no_url = true;
        }
        i = i + 1;
    }
    opts
}

} // verus!
