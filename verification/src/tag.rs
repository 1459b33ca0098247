//! Tags: validated labels of bookmarks, and the parsing of comma-separated
//! tag lists.
use vstd::prelude::*;
use crate::error::DomainError;
use crate::text::{
    chars_of, contains_char, has_whitespace, has_ws, is_ws, owned, split, split_chars, string_of, trim,
    trim_chars, views,
};

verus! {

/// A tag: a non-empty label without whitespace and without commas.
#[derive(Debug, PartialEq, Eq, Hash)]
pub struct Tag {
    value: String,
}

impl View for Tag {
    type V = Seq<char>;

    closed spec fn view(&self) -> Seq<char> {
        self.value@
    }
}

impl Clone for Tag {
    fn clone(&self) -> (r: Self)
        ensures
            r@ == self@,
    {
        Tag { value: self.value.clone() }
    }
}

/// The kinds of bookmark the tool tells apart by a reserved tag.
#[derive(Debug, Clone, Copy, PartialEq, Eq, Structural)]
pub enum SystemTag {
    Snippet,
    Text,
    Shell,
    Markdown,
    Env,
    Uri,
}

/// The reserved tag of a kind; a plain URI has none.
pub open spec fn system_tag_text(t: SystemTag) -> Seq<char> {
    match t {
        SystemTag::Snippet => "_snip_"@,
        SystemTag::Text => "_imported_"@,
        SystemTag::Shell => "_shell_"@,
        SystemTag::Markdown => "_md_"@,
        SystemTag::Env => "_env_"@,
        SystemTag::Uri => ""@,
    }
}

/// The reserved tag of every kind but the plain URI is a valid tag that
/// trimming leaves as it is.
pub proof fn lemma_system_tag_valid(t: SystemTag)
    ensures
        t !is Uri ==> valid_tag(system_tag_text(t)) && trim(system_tag_text(t)) == system_tag_text(t),
{
    reveal_strlit("_snip_");
    reveal_strlit("_imported_");
    reveal_strlit("_shell_");
    reveal_strlit("_md_");
    reveal_strlit("_env_");
    let s = system_tag_text(t);
    if t !is Uri {
        assert(s.len() > 0);
        assert(!is_ws(s[0]) && !is_ws(s.last()));
        crate::text::lemma_trim_fixed(s);
        assert forall|i: int| 0 <= i < s.len() implies !is_ws(#[trigger] s[i]) && s[i] != ',' by {}
    }
}

impl SystemTag {
    /// The reserved tag of the kind.
    pub fn as_str(&self) -> (r: &'static str)
        ensures
            r@ == system_tag_text(*self),
    {
        match self {
            SystemTag::Snippet => "_snip_",
            SystemTag::Text => "_imported_",
            SystemTag::Shell => "_shell_",
            SystemTag::Markdown => "_md_",
            SystemTag::Env => "_env_",
            SystemTag::Uri => "",
        }
    }

    /// The reserved tag of a kind other than the plain URI.
    pub fn to_tag(&self) -> (r: Tag)
        requires
            *self !is Uri,
        ensures
            r@ == system_tag_text(*self),
    {
        proof {
            lemma_system_tag_valid(*self);
        }
        match Tag::new(self.as_str()) {
            Ok(t) => t,
            Err(_) => {
                assert(false);
                Tag { value: String::new() }
            },
        }
    }
}

/// Whether `v` is the text of a valid tag.
pub open spec fn valid_tag(v: Seq<char>) -> bool {
    v.len() > 0 && !has_ws(v) && !v.contains(',')
}

/// The texts of a sequence of tags.
pub open spec fn tag_views(ts: Seq<Tag>) -> Seq<Seq<char>> {
    Seq::new(ts.len(), |i: int| ts[i]@)
}

/// The trimmed, non-empty pieces of a comma-separated list, in order.
pub open spec fn nonempty_trimmed(parts: Seq<Seq<char>>) -> Seq<Seq<char>>
    decreases parts.len(),
{
    if parts.len() == 0 {
        Seq::<Seq<char>>::empty()
    } else {
        let r = nonempty_trimmed(parts.drop_last());
        let t = trim(parts.last());
        if t.len() > 0 {
            r.push(t)
        } else {
            r
        }
    }
}

/// The items of the comma-separated tag list `s`.
pub open spec fn tag_items(s: Seq<char>) -> Seq<Seq<char>> {
    nonempty_trimmed(split(s, ','))
}

/// `s` without repeated elements, each kept at its first occurrence.
pub open spec fn dedup(s: Seq<Seq<char>>) -> Seq<Seq<char>>
    decreases s.len(),
{
    if s.len() == 0 {
        Seq::<Seq<char>>::empty()
    } else {
        let r = dedup(s.drop_last());
        if r.contains(s.last()) {
            r
        } else {
            r.push(s.last())
        }
    }
}

/// Why `Tag::new` refuses the trimmed text `t`.
pub open spec fn tag_error_reason(t: Seq<char>) -> Seq<char> {
    if t.len() == 0 {
        "Tag cannot be empty"@
    } else if has_ws(t) {
        "Tag cannot contain spaces"@
    } else {
        "Tag cannot contain commas"@
    }
}

/// The first item of `s` that is not a valid tag.
pub open spec fn first_invalid(s: Seq<Seq<char>>) -> Option<Seq<char>>
    decreases s.len(),
{
    if s.len() == 0 {
        None
    } else {
        let r = first_invalid(s.drop_last());
        if r is Some {
            r
        } else if !valid_tag(s.last()) {
            Some(s.last())
        } else {
            None
        }
    }
}

pub proof fn lemma_first_invalid(s: Seq<Seq<char>>)
    ensures
        first_invalid(s) is None <==> forall|i: int| 0 <= i < s.len() ==> valid_tag(#[trigger] s[i]),
    decreases s.len(),
{
    if s.len() > 0 {
        lemma_first_invalid(s.drop_last());
        if first_invalid(s) is None {
            assert forall|i: int| 0 <= i < s.len() implies valid_tag(#[trigger] s[i]) by {
                if i < s.len() - 1 {
                    assert(s.drop_last()[i] == s[i]);
                }
            }
        } else if first_invalid(s.drop_last()) is Some {
            let i = choose|i: int| 0 <= i < s.drop_last().len() && !valid_tag(#[trigger] s.drop_last()[i]);
            assert(s[i] == s.drop_last()[i]);
        }
    }
}

/// What `Tag::parse_tags` gives for `s`: the distinct items, when every
/// item is a valid tag.
pub open spec fn parse_tags_spec(s: Seq<char>) -> Option<Seq<Seq<char>>> {
    if forall|i: int| 0 <= i < tag_items(s).len() ==> valid_tag(#[trigger] tag_items(s)[i]) {
        Some(dedup(tag_items(s)))
    } else {
        None
    }
}

pub proof fn lemma_dedup(s: Seq<Seq<char>>)
    ensures
        dedup(s).no_duplicates(),
        forall|x: Seq<char>| dedup(s).contains(x) <==> s.contains(x),
    decreases s.len(),
{
    if s.len() > 0 {
        let p = s.drop_last();
        lemma_dedup(p);
        let r = dedup(p);
        let l = s.last();
        assert forall|x: Seq<char>| s.contains(x) <==> (p.contains(x) || x == l) by {
            if s.contains(x) {
                let k = choose|k: int| 0 <= k < s.len() && s[k] == x;
                if k < s.len() - 1 {
                    assert(p[k] == x);
                }
            }
            if p.contains(x) {
                let k = choose|k: int| 0 <= k < p.len() && p[k] == x;
                assert(s[k] == x);
            }
            if x == l {
                assert(s[s.len() - 1] == x);
            }
        }
        if r.contains(l) {
            assert(dedup(s) == r);
        } else {
            assert(dedup(s) == r.push(l));
            assert forall|x: Seq<char>| r.push(l).contains(x) <==> (r.contains(x) || x == l) by {
                if r.push(l).contains(x) {
                    let k = choose|k: int| 0 <= k < r.push(l).len() && r.push(l)[k] == x;
                    if k < r.len() {
                        assert(r[k] == x);
                    }
                }
                if r.contains(x) {
                    let k = choose|k: int| 0 <= k < r.len() && r[k] == x;
                    assert(r.push(l)[k] == x);
                }
                if x == l {
                    assert(r.push(l)[r.len() as int] == x);
                }
            }
        }
    }
}

impl Tag {
    /// A tag from `value` with surrounding whitespace removed; refused when
    /// the trimmed text is empty, holds whitespace or holds a comma.
    pub fn new(value: &str) -> (r: Result<Tag, DomainError>)
        ensures
            r is Ok <==> valid_tag(trim(value@)),
            r matches Ok(t) ==> t@ == trim(value@),
            r matches Err(e) ==> e is InvalidTag && e->InvalidTag_0@ == tag_error_reason(trim(value@)),
    {
        let v = chars_of(value);
        Self::from_chars(v.as_slice())
    }

    /// A tag from the characters `v`, as `Tag::new` makes it.
    pub fn from_chars(v: &[char]) -> (r: Result<Tag, DomainError>)
        ensures
            r is Ok <==> valid_tag(trim(v@)),
            r matches Ok(t) ==> t@ == trim(v@),
            r matches Err(e) ==> e is InvalidTag && e->InvalidTag_0@ == tag_error_reason(trim(v@)),
    {
        let t = trim_chars(v);
        if t.len() == 0 {
            return Err(DomainError::InvalidTag(owned("Tag cannot be empty")));
        }
        if has_whitespace(t.as_slice()) {
            return Err(DomainError::InvalidTag(owned("Tag cannot contain spaces")));
        }
        if contains_char(t.as_slice(), ',') {
            return Err(DomainError::InvalidTag(owned("Tag cannot contain commas")));
        }
        Ok(Tag { value: string_of(t.as_slice()) })
    }

    /// Whether `self` and `other` have the same text.
    pub fn same_text(&self, other: &Tag) -> (r: bool)
        ensures
            r == (self@ == other@),
    {
        self.value == other.value
    }

    /// The text of the tag.
    pub fn value(&self) -> (r: &str)
        ensures
            r@ == self@,
    {
        self.value.as_str()
    }

    /// The distinct tags of the comma-separated list `s`: each piece is
    /// trimmed, empty pieces are skipped, and the first invalid piece
    /// refuses the whole list.
    pub fn parse_tags(s: &str) -> (r: Result<Vec<Tag>, DomainError>)
        ensures
            r is Ok <==> parse_tags_spec(s@) is Some,
            r matches Ok(ts) ==> tag_views(ts@) == parse_tags_spec(s@)->Some_0,
            r matches Err(e) ==> e is InvalidTag && first_invalid(tag_items(s@)) is Some
                && e->InvalidTag_0@ == tag_error_reason(first_invalid(tag_items(s@))->Some_0),
    {
        let chars = chars_of(s);
        let parts = split_chars(chars.as_slice(), ',');
        let ghost items = tag_items(s@);
        let mut out: Vec<Tag> = Vec::new();
        let mut i: usize = 0;
        let n = parts.len();
        assert(views(parts@) == split(s@, ','));
        while i < n
            invariant
                n == parts@.len(),
                i <= n,
                views(parts@) == split(s@, ','),
                items == nonempty_trimmed(split(s@, ',')),
                tag_views(out@) == dedup(nonempty_trimmed(views(parts@).take(i as int))),
                first_invalid(nonempty_trimmed(views(parts@).take(i as int))) is None,
            decreases n - i,
        {
            let ghost pre = views(parts@).take(i as int);
            assert(views(parts@).take(i as int + 1).drop_last() =~= pre);
            assert(views(parts@).take(i as int + 1).last() == parts@[i as int]@);
            let t = trim_chars(parts[i].as_slice());
            let ghost x = nonempty_trimmed(pre);
            let ghost y = nonempty_trimmed(views(parts@).take(i as int + 1));
            proof {
                if t@.len() > 0 {
                    assert(y == x.push(t@));
                    assert(y.drop_last() =~= x);
                    assert(y.last() == t@);
                } else {
                    assert(y == x);
                }
            }
            if t.len() > 0 {
                let tag = Tag::from_chars(t.as_slice());
                proof {
                    assert(trim(t@) == t@) by {
                        crate::text::lemma_trim_idempotent(parts@[i as int]@);
                    }
                }
                match tag {
                    Ok(tag) => {
                        let present = contains_tag(&out, &tag);
                        if !present {
                            out.push(tag);
                            assert(tag_views(out@) =~= tag_views(out@.drop_last()).push(
                                trim(parts@[i as int]@),
                            ));
                        }
                    },
                    Err(e) => {
                        proof {
                            assert(!valid_tag(trim(parts@[i as int]@)));
                            lemma_items_prefix(views(parts@), i as int + 1);
                            assert(views(parts@).take(n as int) =~= views(parts@));
                            assert(first_invalid(y) == Some(t@));
                            lemma_first_invalid_prefix(views(parts@), i as int + 1);
                            lemma_first_invalid(tag_items(s@));
                        }
                        return Err(e);
                    },
                }
            }
            i = i + 1;
        }
        assert(views(parts@).take(n as int) =~= views(parts@));
        proof {
            lemma_first_invalid(tag_items(s@));
        }
        Ok(out)
    }

    /// The tags of `s`, or `None` when `s` holds nothing but whitespace.
    pub fn parse_tag_str(s: &str) -> (r: Result<Option<Vec<Tag>>, DomainError>)
        ensures
            trim(s@).len() == 0 ==> r matches Ok(None),
            trim(s@).len() > 0 ==> (r is Ok <==> parse_tags_spec(s@) is Some),
            trim(s@).len() > 0 ==> (r matches Ok(o) ==> o matches Some(ts) && tag_views(ts@)
                == parse_tags_spec(s@)->Some_0),
            r matches Err(e) ==> e is InvalidTag && first_invalid(tag_items(s@)) is Some
                && e->InvalidTag_0@ == tag_error_reason(first_invalid(tag_items(s@))->Some_0),
    {
        let chars = chars_of(s);
        let t = trim_chars(chars.as_slice());
        if t.len() == 0 {
            return Ok(None);
        }
        match Self::parse_tags(s) {
            Ok(ts) => Ok(Some(ts)),
            Err(e) => Err(e),
        }
    }
}

/// Items of a prefix of the pieces are a prefix of the items of all pieces.
proof fn lemma_items_prefix(parts: Seq<Seq<char>>, k: int)
    requires
        0 <= k <= parts.len(),
    ensures
        nonempty_trimmed(parts.take(k)).len() <= nonempty_trimmed(parts).len(),
        forall|j: int|
            0 <= j < nonempty_trimmed(parts.take(k)).len() ==> nonempty_trimmed(parts)[j]
                == #[trigger] nonempty_trimmed(parts.take(k))[j],
    decreases parts.len() - k,
{
    if k < parts.len() {
        lemma_items_prefix(parts, k + 1);
        assert(parts.take(k + 1).drop_last() =~= parts.take(k));
        let a = nonempty_trimmed(parts.take(k));
        let b = nonempty_trimmed(parts.take(k + 1));
        assert(forall|j: int| 0 <= j < a.len() ==> b[j] == #[trigger] a[j]);
    } else {
        assert(parts.take(k) =~= parts);
    }
}

/// The first invalid item of a prefix of the pieces is the first invalid
/// item of all pieces.
proof fn lemma_first_invalid_prefix(parts: Seq<Seq<char>>, k: int)
    requires
        0 <= k <= parts.len(),
        first_invalid(nonempty_trimmed(parts.take(k))) is Some,
    ensures
        first_invalid(nonempty_trimmed(parts)) == first_invalid(nonempty_trimmed(parts.take(k))),
    decreases parts.len() - k,
{
    if k < parts.len() {
        assert(parts.take(k + 1).drop_last() =~= parts.take(k));
        let a = nonempty_trimmed(parts.take(k));
        let b = nonempty_trimmed(parts.take(k + 1));
        if b.len() > a.len() {
            assert(b.drop_last() =~= a);
        } else {
            assert(b == a);
        }
        assert(first_invalid(b) == first_invalid(a));
        lemma_first_invalid_prefix(parts, k + 1);
    } else {
        assert(parts.take(k) =~= parts);
    }
}

/// Whether the text of `t` is among the texts of `ts`.
pub fn contains_tag(ts: &Vec<Tag>, t: &Tag) -> (b: bool)
    ensures
        b == tag_views(ts@).contains(t@),
{
    let n = ts.len();
    let mut i: usize = 0;
    while i < n
        invariant
            n == ts@.len(),
            i <= n,
            forall|k: int| 0 <= k < i ==> ts@[k]@ != t@,
        decreases n - i,
    {
        if ts[i].value == t.value {
            assert(tag_views(ts@)[i as int] == t@);
            return true;
        }
        i = i + 1;
    }
    assert forall|k: int| 0 <= k < tag_views(ts@).len() implies tag_views(ts@)[k] != t@ by {
        assert(tag_views(ts@)[k] == ts@[k]@);
    }
    false
}

} // verus!
