//! Character-level text utilities: Unicode whitespace, trimming, splitting,
//! line breaking and decimal integers, each with the meaning std gives it.
use vstd::prelude::*;

verus! {

/// Unicode `White_Space`, the property that `char::is_whitespace` tests.
pub open spec fn is_ws(c: char) -> bool {
    let u = c as u32;
    ||| (0x9 <= u && u <= 0xd)
    ||| u == 0x20
    ||| u == 0x85
    ||| u == 0xa0
    ||| u == 0x1680
    ||| (0x2000 <= u && u <= 0x200a)
    ||| u == 0x2028
    ||| u == 0x2029
    ||| u == 0x202f
    ||| u == 0x205f
    ||| u == 0x3000
}

/// Whether `c` is Unicode whitespace.
pub fn is_whitespace(c: char) -> (b: bool)
    ensures
        b == is_ws(c),
{
    let u = c as u32;
    (0x9 <= u && u <= 0xd) || u == 0x20 || u == 0x85 || u == 0xa0 || u == 0x1680 || (0x2000 <= u
        && u <= 0x200a) || u == 0x2028 || u == 0x2029 || u == 0x202f || u == 0x205f || u == 0x3000
}

/// `s` without its leading whitespace.
pub open spec fn trim_start(s: Seq<char>) -> Seq<char>
    decreases s.len(),
{
    if s.len() > 0 && is_ws(s[0]) {
        trim_start(s.drop_first())
    } else {
        s
    }
}

/// `s` without its trailing whitespace.
pub open spec fn trim_end(s: Seq<char>) -> Seq<char>
    decreases s.len(),
{
    if s.len() > 0 && is_ws(s.last()) {
        trim_end(s.drop_last())
    } else {
        s
    }
}

/// `s` without leading and trailing whitespace, as `str::trim` gives it.
pub open spec fn trim(s: Seq<char>) -> Seq<char> {
    trim_end(trim_start(s))
}

/// Whether `s` contains a whitespace character.
pub open spec fn has_ws(s: Seq<char>) -> bool {
    exists|i: int| 0 <= i < s.len() && is_ws(#[trigger] s[i])
}

/// The pieces of `s` between occurrences of `sep`, as `str::split` with a
/// `char` pattern gives them: one more piece than there are separators.
pub open spec fn split(s: Seq<char>, sep: char) -> Seq<Seq<char>>
    decreases s.len(),
{
    if s.len() == 0 {
        seq![Seq::<char>::empty()]
    } else {
        let r = split(s.drop_last(), sep);
        if s.last() == sep {
            r.push(Seq::<char>::empty())
        } else {
            r.update(r.len() - 1, r.last().push(s.last()))
        }
    }
}

/// `parts` joined with `sep` between consecutive parts.
pub open spec fn join(parts: Seq<Seq<char>>, sep: Seq<char>) -> Seq<char>
    decreases parts.len(),
{
    if parts.len() == 0 {
        Seq::<char>::empty()
    } else if parts.len() == 1 {
        parts[0]
    } else {
        join(parts.drop_last(), sep) + sep + parts.last()
    }
}

/// `s` with one trailing carriage return removed, if it has one.
pub open spec fn strip_cr(s: Seq<char>) -> Seq<char> {
    if s.len() > 0 && s.last() == '\r' {
        s.drop_last()
    } else {
        s
    }
}

/// The lines of `s`, as `str::lines` gives them: split at `\n`, a `\r`
/// right before a `\n` dropped, and no final empty line after a final `\n`.
pub open spec fn lines(s: Seq<char>) -> Seq<Seq<char>> {
    let p = split(s, '\n');
    let n = p.len();
    if p.last().len() == 0 {
        Seq::new((n - 1) as nat, |i: int| strip_cr(p[i]))
    } else {
        Seq::new(n, |i: int| if i < n - 1 { strip_cr(p[i]) } else { p[i] })
    }
}

/// Whether `s` begins with `p`.
pub open spec fn starts_with(s: Seq<char>, p: Seq<char>) -> bool {
    p.len() <= s.len() && s.take(p.len() as int) == p
}

/// Whether `s` ends with `p`.
pub open spec fn ends_with(s: Seq<char>, p: Seq<char>) -> bool {
    p.len() <= s.len() && s.skip(s.len() - p.len()) == p
}

pub proof fn lemma_split_len(s: Seq<char>, sep: char)
    ensures
        split(s, sep).len() >= 1,
    decreases s.len(),
{
    if s.len() > 0 {
        lemma_split_len(s.drop_last(), sep);
    }
}

pub proof fn lemma_trim_start_shape(s: Seq<char>)
    ensures
        trim_start(s).len() <= s.len(),
        trim_start(s) == s.skip(s.len() - trim_start(s).len()),
        trim_start(s).len() > 0 ==> !is_ws(trim_start(s)[0]),
    decreases s.len(),
{
    if s.len() > 0 && is_ws(s[0]) {
        lemma_trim_start_shape(s.drop_first());
        assert(s.drop_first().skip(s.drop_first().len() - trim_start(s).len()) =~= s.skip(
            s.len() - trim_start(s).len(),
        ));
    } else {
        assert(s.skip(0) =~= s);
    }
}

pub proof fn lemma_trim_end_shape(s: Seq<char>)
    ensures
        trim_end(s).len() <= s.len(),
        trim_end(s) == s.take(trim_end(s).len() as int),
        trim_end(s).len() > 0 ==> !is_ws(trim_end(s).last()),
    decreases s.len(),
{
    if s.len() > 0 && is_ws(s.last()) {
        lemma_trim_end_shape(s.drop_last());
        assert(s.drop_last().take(trim_end(s).len() as int) =~= s.take(trim_end(s).len() as int));
    } else {
        assert(s.take(s.len() as int) =~= s);
    }
}

proof fn lemma_trim_start_empty(s: Seq<char>)
    ensures
        (trim_start(s).len() == 0) == (forall|i: int| 0 <= i < s.len() ==> is_ws(#[trigger] s[i])),
    decreases s.len(),
{
    if s.len() > 0 && is_ws(s[0]) {
        lemma_trim_start_empty(s.drop_first());
        if forall|i: int| 0 <= i < s.drop_first().len() ==> is_ws(#[trigger] s.drop_first()[i]) {
            assert forall|i: int| 0 <= i < s.len() implies is_ws(#[trigger] s[i]) by {
                if i > 0 {
                    assert(s[i] == s.drop_first()[i - 1]);
                }
            }
        } else {
            let j = choose|j: int| 0 <= j < s.drop_first().len() && !is_ws(#[trigger] s.drop_first()[j]);
            assert(s[j + 1] == s.drop_first()[j]);
        }
    }
}

proof fn lemma_trim_end_keeps(s: Seq<char>)
    requires
        s.len() > 0,
        !is_ws(s[0]),
    ensures
        trim_end(s).len() > 0,
    decreases s.len(),
{
    if is_ws(s.last()) {
        assert(s.len() > 1);
        assert(s.drop_last()[0] == s[0]);
        lemma_trim_end_keeps(s.drop_last());
    }
}

/// A text trims to nothing exactly when all its characters are whitespace.
pub proof fn lemma_trim_empty(s: Seq<char>)
    ensures
        (trim(s).len() == 0) == (forall|i: int| 0 <= i < s.len() ==> is_ws(#[trigger] s[i])),
{
    lemma_trim_start_empty(s);
    lemma_trim_start_shape(s);
    if trim_start(s).len() > 0 {
        lemma_trim_end_keeps(trim_start(s));
    }
}

/// A string without leading or trailing whitespace is its own trim.
pub proof fn lemma_trim_fixed(s: Seq<char>)
    requires
        s.len() > 0 ==> !is_ws(s[0]) && !is_ws(s.last()),
    ensures
        trim(s) == s,
{
}

/// The trim of the trim is the trim.
pub proof fn lemma_trim_idempotent(s: Seq<char>)
    ensures
        trim(trim(s)) == trim(s),
        trim(s).len() > 0 ==> !is_ws(trim(s)[0]) && !is_ws(trim(s).last()),
{
    lemma_trim_start_shape(s);
    let a = trim_start(s);
    lemma_trim_end_shape(a);
    let t = trim_end(a);
    if t.len() > 0 {
        assert(t[0] == a[0]);
    }
    lemma_trim_fixed(t);
}

/// Whether every character of `s` is ASCII.
pub open spec fn is_ascii_text(s: Seq<char>) -> bool {
    forall|i: int| 0 <= i < s.len() ==> (#[trigger] s[i] as u32) < 128
}

/// `s` with the ASCII capitals `A` to `Z` made small.
pub open spec fn ascii_lower(s: Seq<char>) -> Seq<char> {
    Seq::new(
        s.len(),
        |i: int|
            if 65 <= (s[i] as u32) && (s[i] as u32) <= 90 {
                ((s[i] as u32) + 32) as char
            } else {
                s[i]
            },
    )
}

/// What `str::to_lowercase` gives for `s`.
pub uninterp spec fn str_lowercase(s: Seq<char>) -> Seq<char>;

/// The lowercase form of `s`: on ASCII text the capitals made small, and
/// otherwise what `str::to_lowercase` gives.
pub open spec fn lowercase(s: Seq<char>) -> Seq<char> {
    if is_ascii_text(s) {
        ascii_lower(s)
    } else {
        str_lowercase(s)
    }
}

/// `str::to_lowercase`: the lowercase form of `s` by the Unicode
/// `Lowercase` mapping. Stated: the result is the named `str_lowercase`
/// of `s`, and on ASCII text the mapping makes `A` to `Z` small and keeps
/// every other character. Left unsaid: the mapping of other characters.
#[verifier::external_body]
pub(crate) fn to_lowercase(s: &str) -> (r: String)
    ensures
        r@ == str_lowercase(s@),
        is_ascii_text(s@) ==> r@ == ascii_lower(s@),
{
    s.to_lowercase()
}

/// A string holding the text of `s`.
pub fn owned(s: &str) -> (r: String)
    ensures
        r@ == s@,
{
    let mut r = String::new();
    r.append(s);
    r
}

/// Whether `a` and `b` hold the same characters.
pub fn chars_eq(a: &[char], b: &[char]) -> (r: bool)
    ensures
        r == (a@ == b@),
{
    if a.len() != b.len() {
        return false;
    }
    let n = a.len();
    let mut i: usize = 0;
    while i < n
        invariant
            n == a@.len(),
            n == b@.len(),
            i <= n,
            forall|k: int| 0 <= k < i ==> a@[k] == b@[k],
        decreases n - i,
    {
        if a[i] != b[i] {
            return false;
        }
        i = i + 1;
    }
    assert(a@ =~= b@);
    true
}

/// Whether `s` begins with `p`.
pub fn has_prefix(s: &[char], p: &[char]) -> (r: bool)
    ensures
        r == starts_with(s@, p@),
{
    if p.len() > s.len() {
        return false;
    }
    let n = p.len();
    let mut i: usize = 0;
    while i < n
        invariant
            n == p@.len(),
            n <= s@.len(),
            i <= n,
            forall|k: int| 0 <= k < i ==> s@[k] == p@[k],
        decreases n - i,
    {
        if s[i] != p[i] {
            assert(s@.take(n as int)[i as int] != p@[i as int]);
            return false;
        }
        i = i + 1;
    }
    assert(s@.take(n as int) =~= p@);
    true
}

/// Whether the bytes `a` and `b` are the same.
pub fn bytes_eq(a: &[u8], b: &[u8]) -> (r: bool)
    ensures
        r == (a@ == b@),
{
    if a.len() != b.len() {
        return false;
    }
    let n = a.len();
    let mut i: usize = 0;
    while i < n
        invariant
            n == a@.len(),
            n == b@.len(),
            i <= n,
            forall|k: int| 0 <= k < i ==> a@[k] == b@[k],
        decreases n - i,
    {
        if a[i] != b[i] {
            return false;
        }
        i = i + 1;
    }
    assert(a@ =~= b@);
    true
}

/// Splitting at a separator distributes over a separator.
pub proof fn lemma_split_concat(a: Seq<char>, b: Seq<char>, sep: char)
    ensures
        split(a + seq![sep] + b, sep) == split(a, sep) + split(b, sep),
    decreases b.len(),
{
    lemma_split_len(a, sep);
    lemma_split_len(b, sep);
    if b.len() == 0 {
        assert((a + seq![sep] + b).drop_last() =~= a);
        assert(split(b, sep) =~= seq![Seq::<char>::empty()]);
        assert(split(a, sep).push(Seq::<char>::empty()) =~= split(a, sep) + split(b, sep));
    } else {
        let b2 = b.drop_last();
        lemma_split_concat(a, b2, sep);
        lemma_split_len(b2, sep);
        assert((a + seq![sep] + b).drop_last() =~= a + seq![sep] + b2);
        assert((a + seq![sep] + b).last() == b.last());
        let r = split(a, sep) + split(b2, sep);
        if b.last() == sep {
            assert(split(a, sep) + split(b, sep) =~= r.push(Seq::<char>::empty()));
        } else {
            let rb = split(b2, sep);
            assert(r.last() == rb.last());
            assert(split(a, sep) + split(b, sep) =~= r.update(r.len() - 1, r.last().push(b.last())));
        }
    }
}

/// A string without the separator is a single piece.
pub proof fn lemma_split_single(s: Seq<char>, sep: char)
    requires
        !s.contains(sep),
    ensures
        split(s, sep) == seq![s],
    decreases s.len(),
{
    if s.len() > 0 {
        assert(!s.drop_last().contains(sep)) by {
            if s.drop_last().contains(sep) {
                let k = choose|k: int| 0 <= k < s.drop_last().len() && s.drop_last()[k] == sep;
                assert(s[k] == sep);
            }
        }
        lemma_split_single(s.drop_last(), sep);
        assert(s.last() != sep) by {
            assert(s[s.len() - 1] == s.last());
        }
        assert(s.drop_last().push(s.last()) =~= s);
        assert(seq![s.drop_last()].update(0, s.drop_last().push(s.last())) =~= seq![s]);
    } else {
        assert(s =~= Seq::<char>::empty());
    }
}

/// Every piece of a split lies within the split string.
pub proof fn lemma_split_pieces_within(s: Seq<char>, sep: char, c: char)
    requires
        !s.contains(c),
    ensures
        forall|i: int| 0 <= i < split(s, sep).len() ==> !(#[trigger] split(s, sep)[i]).contains(c),
    decreases s.len(),
{
    if s.len() > 0 {
        assert(!s.drop_last().contains(c)) by {
            if s.drop_last().contains(c) {
                let k = choose|k: int| 0 <= k < s.drop_last().len() && s.drop_last()[k] == c;
                assert(s[k] == c);
            }
        }
        lemma_split_pieces_within(s.drop_last(), sep, c);
        lemma_split_len(s.drop_last(), sep);
        let r = split(s.drop_last(), sep);
        assert(s.last() != c) by {
            assert(s[s.len() - 1] == s.last());
        }
        if s.last() != sep {
            assert(!r.last().push(s.last()).contains(c)) by {
                if r.last().push(s.last()).contains(c) {
                    let k = choose|k: int|
                        0 <= k < r.last().push(s.last()).len() && r.last().push(s.last())[k] == c;
                    if k < r.last().len() {
                        assert(r[r.len() - 1][k] == c);
                    }
                }
            }
        }
    }
}

/// The lines of a text that ends in a line break and holds no carriage
/// return are its pieces between line breaks, the final one excluded.
pub proof fn lemma_lines_of_terminated(x: Seq<char>)
    requires
        !x.contains('\r'),
    ensures
        lines(x + seq!['\n']) == split(x, '\n'),
{
    lemma_split_concat(x, Seq::<char>::empty(), '\n');
    assert(x + seq!['\n'] + Seq::<char>::empty() =~= x + seq!['\n']);
    lemma_split_len(x, '\n');
    lemma_split_pieces_within(x, '\n', '\r');
    let p = split(x + seq!['\n'], '\n');
    assert(split(Seq::<char>::empty(), '\n') =~= seq![Seq::<char>::empty()]);
    assert(p =~= split(x, '\n').push(Seq::<char>::empty()));
    assert forall|i: int| 0 <= i < split(x, '\n').len() implies strip_cr(
        #[trigger] split(x, '\n')[i],
    ) == split(x, '\n')[i] by {
        let q = split(x, '\n')[i];
        if q.len() > 0 {
            assert(q[q.len() - 1] == q.last());
        }
    }
    assert(lines(x + seq!['\n']) =~= split(x, '\n'));
}

/// `s` without its leading line breaks.
pub open spec fn strip_newlines(s: Seq<char>) -> Seq<char>
    decreases s.len(),
{
    if s.len() > 0 && s[0] == '\n' {
        strip_newlines(s.drop_first())
    } else {
        s
    }
}

/// Adding a character at the end of a text adds it after the leading line
/// breaks are stripped, unless nothing but line breaks is left.
pub proof fn lemma_strip_newlines_push(y: Seq<char>, c: char)
    ensures
        strip_newlines(y.push(c)) == (if strip_newlines(y).len() == 0 && c == '\n' {
            Seq::<char>::empty()
        } else {
            strip_newlines(y).push(c)
        }),
    decreases y.len(),
{
    if y.len() > 0 && y[0] == '\n' {
        assert(y.push(c).drop_first() =~= y.drop_first().push(c));
        lemma_strip_newlines_push(y.drop_first(), c);
    } else if y.len() == 0 {
        assert(y.push(c) =~= seq![c]);
        if c == '\n' {
            assert(seq![c].drop_first() =~= Seq::<char>::empty());
            assert(strip_newlines(Seq::<char>::empty()) =~= Seq::<char>::empty());
        }
    } else {
        assert(y.push(c)[0] == y[0]);
    }
}

/// Stripping leading line breaks does not change the trim.
pub proof fn lemma_trim_strip_newlines(s: Seq<char>)
    ensures
        trim(strip_newlines(s)) == trim(s),
    decreases s.len(),
{
    if s.len() > 0 && s[0] == '\n' {
        lemma_trim_strip_newlines(s.drop_first());
    }
}

/// The characters of `s`, in order.
pub fn chars_of(s: &str) -> (v: Vec<char>)
    ensures
        v@ == s@,
{
    let mut v: Vec<char> = Vec::new();
    for c in it: s.chars()
        invariant
            v@ == it.seq().take(it.index() as int),
            it.seq() == s@,
    {
        v.push(c);
    }
    v
}

/// Appends one character to `s`.
#[verifier::external_body]
fn push_char(s: &mut String, c: char)
    ensures
        final(s)@ == old(s)@.push(c),
{
    s.push(c);
}

/// Appends one character to `s`.
pub fn push_char_pub(s: &mut String, c: char)
    ensures
        final(s)@ == old(s)@.push(c),
{
    push_char(s, c);
}

/// A string holding the characters of `v`, in order.
pub fn string_of(v: &[char]) -> (s: String)
    ensures
        s@ == v@,
{
    let mut s = String::new();
    let n = v.len();
    let mut i: usize = 0;
    while i < n
        invariant
            n == v@.len(),
            i <= n,
            s@ == v@.take(i as int),
        decreases n - i,
    {
        push_char(&mut s, v[i]);
        i = i + 1;
        assert(v@.take(i as int) == v@.take((i - 1) as int).push(v@[i - 1]));
    }
    assert(v@.take(n as int) == v@);
    s
}

/// The views of a sequence of strings.
pub open spec fn string_views(v: Seq<String>) -> Seq<Seq<char>> {
    Seq::new(v.len(), |i: int| v[i]@)
}

/// A copy of the strings `v`.
pub fn copy_strings(v: &Vec<String>) -> (r: Vec<String>)
    ensures
        string_views(r@) == string_views(v@),
{
    let mut r: Vec<String> = Vec::new();
    let n = v.len();
    let mut i: usize = 0;
    while i < n
        invariant
            i <= n,
            n == v@.len(),
            string_views(r@) == string_views(v@).take(i as int),
        decreases n - i,
    {
        let s = v[i].clone();
        let ghost before = r@;
        assert(string_views(before).len() == before.len());
        r.push(s);
        assert(string_views(r@) =~= string_views(v@).take(i as int + 1)) by {
            assert forall|k: int| 0 <= k < i + 1 implies #[trigger] string_views(r@)[k]
                == string_views(v@).take(i as int + 1)[k] by {
                if k < i {
                    assert(r@[k] == before[k]);
                    assert(string_views(before)[k] == before[k]@);
                }
            }
        }
        i = i + 1;
    }
    assert(string_views(v@).take(n as int) =~= string_views(v@));
    r
}

/// A copy of optional strings.
pub fn copy_opt_strings(o: &Option<Vec<String>>) -> (r: Option<Vec<String>>)
    ensures
        match (o, r) {
            (Some(a), Some(b)) => string_views(b@) == string_views(a@),
            (None, None) => true,
            _ => false,
        },
{
    match o {
        Some(v) => Some(copy_strings(v)),
        None => None,
    }
}

/// The views of a sequence of character vectors.
pub open spec fn views(vs: Seq<Vec<char>>) -> Seq<Seq<char>> {
    Seq::new(vs.len(), |k: int| vs[k]@)
}

proof fn lemma_trim_start_step(s: Seq<char>, i: int)
    requires
        0 <= i < s.len(),
        is_ws(s[i]),
    ensures
        trim_start(s.skip(i)) == trim_start(s.skip(i + 1)),
{
    assert(s.skip(i).drop_first() =~= s.skip(i + 1));
}

proof fn lemma_trim_end_step(s: Seq<char>, i: int, j: int)
    requires
        0 <= i < j <= s.len(),
        is_ws(s[j - 1]),
    ensures
        trim_end(s.subrange(i, j)) == trim_end(s.subrange(i, j - 1)),
{
    assert(s.subrange(i, j).drop_last() =~= s.subrange(i, j - 1));
}

/// The characters of `v` without leading and trailing whitespace.
pub fn trim_chars(v: &[char]) -> (r: Vec<char>)
    ensures
        r@ == trim(v@),
{
    let n = v.len();
    let mut i: usize = 0;
    assert(v@.skip(0) =~= v@);
    while i < n && is_whitespace(v[i])
        invariant
            n == v@.len(),
            i <= n,
            trim_start(v@) == trim_start(v@.skip(i as int)),
        decreases n - i,
    {
        proof {
            lemma_trim_start_step(v@, i as int);
        }
        i = i + 1;
    }
    assert(trim_start(v@) == v@.subrange(i as int, n as int)) by {
        assert(v@.skip(i as int) =~= v@.subrange(i as int, n as int));
    }
    let mut j: usize = n;
    while j > i && is_whitespace(v[j - 1])
        invariant
            n == v@.len(),
            i <= j <= n,
            trim_end(v@.subrange(i as int, n as int)) == trim_end(v@.subrange(i as int, j as int)),
        decreases j,
    {
        proof {
            lemma_trim_end_step(v@, i as int, j as int);
        }
        j = j - 1;
    }
    let mut r: Vec<char> = Vec::new();
    let mut k: usize = i;
    while k < j
        invariant
            i <= k <= j <= n,
            n == v@.len(),
            r@ == v@.subrange(i as int, k as int),
        decreases j - k,
    {
        r.push(v[k]);
        k = k + 1;
        assert(r@ =~= v@.subrange(i as int, k as int));
    }
    r
}

/// Whether `v` holds a whitespace character.
pub fn has_whitespace(v: &[char]) -> (b: bool)
    ensures
        b == has_ws(v@),
{
    let n = v.len();
    let mut i: usize = 0;
    while i < n
        invariant
            n == v@.len(),
            i <= n,
            forall|k: int| 0 <= k < i ==> !is_ws(#[trigger] v@[k]),
        decreases n - i,
    {
        if is_whitespace(v[i]) {
            return true;
        }
        i = i + 1;
    }
    false
}

/// Whether `v` holds the character `c`.
pub fn contains_char(v: &[char], c: char) -> (b: bool)
    ensures
        b == v@.contains(c),
{
    let n = v.len();
    let mut i: usize = 0;
    while i < n
        invariant
            n == v@.len(),
            i <= n,
            forall|k: int| 0 <= k < i ==> v@[k] != c,
        decreases n - i,
    {
        if v[i] == c {
            assert(v@[i as int] == c);
            return true;
        }
        i = i + 1;
    }
    false
}

/// The pieces of `v` between occurrences of `sep`.
pub fn split_chars(v: &[char], sep: char) -> (r: Vec<Vec<char>>)
    ensures
        views(r@) == split(v@, sep),
{
    let n = v.len();
    let mut done: Vec<Vec<char>> = Vec::new();
    let mut cur: Vec<char> = Vec::new();
    let mut i: usize = 0;
    assert(v@.take(0) =~= Seq::<char>::empty());
    assert(views(done@).push(cur@) =~= split(v@.take(0), sep));
    while i < n
        invariant
            n == v@.len(),
            i <= n,
            split(v@.take(i as int), sep) == views(done@).push(cur@),
        decreases n - i,
    {
        let ghost prev = v@.take(i as int);
        assert(v@.take(i as int + 1).drop_last() =~= prev);
        if v[i] == sep {
            done.push(cur);
            cur = Vec::new();
            assert(views(done@).push(cur@) =~= split(v@.take(i as int + 1), sep));
        } else {
            cur.push(v[i]);
            assert(views(done@).push(cur@) =~= split(v@.take(i as int + 1), sep));
        }
        i = i + 1;
    }
    assert(v@.take(n as int) =~= v@);
    done.push(cur);
    assert(views(done@) =~= split(v@, sep));
    done
}

/// A copy of the characters `v[from..to]`.
pub fn copy_range(v: &[char], from: usize, to: usize) -> (r: Vec<char>)
    requires
        from <= to <= v@.len(),
    ensures
        r@ == v@.subrange(from as int, to as int),
{
    let mut r: Vec<char> = Vec::new();
    let mut k: usize = from;
    while k < to
        invariant
            from <= k <= to <= v@.len(),
            r@ == v@.subrange(from as int, k as int),
        decreases to - k,
    {
        r.push(v[k]);
        k = k + 1;
        assert(r@ =~= v@.subrange(from as int, k as int));
    }
    r
}

/// A copy of the characters of `v`.
pub fn copy_chars(v: &[char]) -> (r: Vec<char>)
    ensures
        r@ == v@,
{
    let r = copy_range(v, 0, v.len());
    assert(v@.subrange(0, v@.len() as int) =~= v@);
    r
}

/// `v` without one trailing carriage return.
fn strip_cr_chars(v: &[char]) -> (r: Vec<char>)
    ensures
        r@ == strip_cr(v@),
{
    let n = v.len();
    if n > 0 && v[n - 1] == '\r' {
        let r = copy_range(v, 0, n - 1);
        assert(v@.subrange(0, n - 1) =~= v@.drop_last());
        r
    } else {
        copy_chars(v)
    }
}

/// The lines of `v`, as `str::lines` gives them.
pub fn lines_of(v: &[char]) -> (r: Vec<Vec<char>>)
    ensures
        views(r@) == lines(v@),
{
    let p = split_chars(v, '\n');
    proof {
        lemma_split_len(v@, '\n');
    }
    let n = p.len();
    let keep_last = p[n - 1].len() > 0;
    assert(keep_last == (split(v@, '\n').last().len() > 0)) by {
        assert(views(p@)[n - 1] == p@[n - 1]@);
    }
    let mut r: Vec<Vec<char>> = Vec::new();
    let mut k: usize = 0;
    while k + 1 < n
        invariant
            n == p@.len(),
            n >= 1,
            k < n,
            views(p@) == split(v@, '\n'),
            r@.len() == k,
            forall|j: int| 0 <= j < k ==> #[trigger] r@[j]@ == strip_cr(p@[j]@),
        decreases n - k,
    {
        r.push(strip_cr_chars(p[k].as_slice()));
        k = k + 1;
    }
    if keep_last {
        r.push(copy_chars(p[n - 1].as_slice()));
    }
    assert(views(r@) =~= lines(v@)) by {
        assert(forall|j: int| 0 <= j < n ==> views(p@)[j] == #[trigger] p@[j]@);
    }
    r
}

/// `s` with every occurrence of `from` replaced by `to`, the occurrences
/// found from left to right without overlap (`from` not empty).
pub open spec fn replaced_text(s: Seq<char>, from: Seq<char>, to: Seq<char>) -> Seq<char>
    decreases s.len(),
{
    if from.len() == 0 || s.len() < from.len() {
        s
    } else if s.take(from.len() as int) == from {
        to + replaced_text(s.skip(from.len() as int), from, to)
    } else {
        seq![s[0]] + replaced_text(s.drop_first(), from, to)
    }
}

/// Whether `p` occurs in `s` at the place `at`.
fn occurs_at(s: &[char], at: usize, p: &[char]) -> (r: bool)
    requires
        at <= s@.len(),
    ensures
        r == (at + p@.len() <= s@.len() && s@.subrange(at as int, at + p@.len()) == p@),
{
    if p.len() > s.len() - at {
        return false;
    }
    let n = p.len();
    let mut i: usize = 0;
    while i < n
        invariant
            n == p@.len(),
            at + n <= s@.len(),
            s@.len() == s.len(),
            i <= n,
            forall|k: int| 0 <= k < i ==> s@[at + k] == p@[k],
        decreases n - i,
    {
        if s[at + i] != p[i] {
            assert(s@.subrange(at as int, at + n)[i as int] != p@[i as int]);
            return false;
        }
        i = i + 1;
    }
    assert(s@.subrange(at as int, at + n) =~= p@);
    true
}

/// `str::replace`: `s` with every occurrence of `from` replaced by `to`,
/// from left to right.
pub fn replace_text(s: &str, from: &str, to: &str) -> (r: String)
    requires
        from@.len() > 0,
    ensures
        r@ == replaced_text(s@, from@, to@),
{
    let cs = chars_of(s);
    let fs = chars_of(from);
    let ts = chars_of(to);
    let n = cs.len();
    let f = fs.len();
    let mut out: Vec<char> = Vec::new();
    let mut i: usize = 0;
    assert(cs@.skip(0) =~= cs@);
    while i < n
        invariant
            n == cs@.len(),
            f == fs@.len(),
            f > 0,
            i <= n,
            cs@ == s@,
            fs@ == from@,
            ts@ == to@,
            out@ + replaced_text(cs@.skip(i as int), fs@, ts@) == replaced_text(s@, from@, to@),
        decreases n - i,
    {
        let ghost rest = cs@.skip(i as int);
        if occurs_at(cs.as_slice(), i, fs.as_slice()) {
            assert(rest.take(f as int) =~= cs@.subrange(i as int, i + f));
            assert(rest.skip(f as int) =~= cs@.skip(i + f));
            let ghost before = out@;
            let mut k: usize = 0;
            while k < ts.len()
                invariant
                    k <= ts@.len(),
                    out@ == before + ts@.take(k as int),
                decreases ts@.len() - k,
            {
                out.push(ts[k]);
                k = k + 1;
                assert(ts@.take(k as int) =~= ts@.take(k - 1).push(ts@[k - 1]));
            }
            assert(ts@.take(ts@.len() as int) =~= ts@);
            assert(before + (ts@ + replaced_text(cs@.skip(i + f), fs@, ts@)) =~= out@
                + replaced_text(cs@.skip(i + f), fs@, ts@));
            i = i + f;
        } else {
            assert(rest.drop_first() =~= cs@.skip(i + 1));
            assert(rest[0] == cs@[i as int]);
            proof {
                if rest.len() >= f {
                    assert(rest.take(f as int) =~= cs@.subrange(i as int, i + f));
                } else {
                    assert(rest =~= seq![rest[0]] + rest.drop_first());
                }
            }
            let ghost before = out@;
            out.push(cs[i]);
            assert(before + (seq![cs@[i as int]] + replaced_text(cs@.skip(i + 1), fs@, ts@)) =~= out@
                + replaced_text(cs@.skip(i + 1), fs@, ts@));
            i = i + 1;
        }
    }
    assert(cs@.skip(n as int) =~= Seq::<char>::empty());
    assert(out@ + Seq::<char>::empty() =~= out@);
    string_of(out.as_slice())
}

} // verus!
