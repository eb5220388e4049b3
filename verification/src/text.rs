//! Character-level text handling: whitespace, trimming, splitting into
//! words and pieces, ASCII case folding, and building `String`s.
use vstd::prelude::*;

verus! {

/// The characters with the Unicode `White_Space` property, which is the set
/// `char::is_whitespace` accepts.
pub open spec fn is_space(c: char) -> bool {
    let u = c as u32;
    ||| 0x09 <= u <= 0x0D
    ||| u == 0x20
    ||| u == 0x85
    ||| u == 0xA0
    ||| u == 0x1680
    ||| 0x2000 <= u <= 0x200A
    ||| u == 0x2028
    ||| u == 0x2029
    ||| u == 0x202F
    ||| u == 0x205F
    ||| u == 0x3000
}

pub fn is_space_char(c: char) -> (r: bool)
    ensures
        r == is_space(c),
{
    let u = c as u32;
    (0x09 <= u && u <= 0x0D) || u == 0x20 || u == 0x85 || u == 0xA0 || u == 0x1680 || (0x2000
        <= u && u <= 0x200A) || u == 0x2028 || u == 0x2029 || u == 0x202F || u == 0x205F || u
        == 0x3000
}

/// The characters of `s` in order.
pub fn to_chars(s: &str) -> (v: Vec<char>)
    ensures
        v@ == s@,
{
    let mut v: Vec<char> = Vec::new();
    for c in it: s.chars()
        invariant
            v@ == it.seq().take(it.index() as int),
            it.seq() == s@,
    {
        v.push(c);
    }
    v
}

/// Appends one character to a `String` (`String::push`).
#[verifier::external_body]
fn push_char(s: &mut String, c: char)
    ensures
        final(s)@ == old(s)@.push(c),
{
    s.push(c);
}

/// Appends the characters of `v` to `out`.
pub fn push_chars(out: &mut String, v: &[char])
    ensures
        final(out)@ == old(out)@ + v@,
{
    let mut i: usize = 0;
    while i < v.len()
        invariant
            i <= v@.len(),
            out@ == old(out)@ + v@.take(i as int),
        decreases v@.len() - i,
    {
        assert(v@.take(i + 1) =~= v@.take(i as int).push(v@[i as int]));
        push_char(out, v[i]);
        i += 1;
    }
    assert(v@.take(v@.len() as int) =~= v@);
}

/// Appends one character to `out`.
pub fn push_one(out: &mut String, c: char)
    ensures
        final(out)@ == old(out)@.push(c),
{
    push_char(out, c);
}

/// A `String` holding the characters of `v`.
pub fn string_of(v: &[char]) -> (s: String)
    ensures
        s@ == v@,
{
    let mut s = String::new();
    push_chars(&mut s, v);
    assert(s@ =~= v@);
    s
}

/// Whether the characters `v` spell out the string `s`.
pub fn chars_are(v: &[char], s: &str) -> (r: bool)
    ensures
        r == (v@ == s@),
{
    let w = to_chars(s);
    if v.len() != w.len() {
        return false;
    }
    let mut i: usize = 0;
    while i < v.len()
        invariant
            i <= v@.len(),
            v@.len() == w@.len(),
            w@ == s@,
            forall|j: int| 0 <= j < i ==> v@[j] == w@[j],
        decreases v@.len() - i,
    {
        if v[i] != w[i] {
            assert(v@[i as int] != w@[i as int]);
            return false;
        }
        i += 1;
    }
    assert(v@ =~= w@);
    true
}

/// Whether two strings hold the same characters.
pub fn same_text(a: &str, b: &str) -> (r: bool)
    ensures
        r == (a@ == b@),
{
    let v = to_chars(a);
    chars_are(&v, b)
}

/// `s` without its leading whitespace.
pub open spec fn trim_start(s: Seq<char>) -> Seq<char>
    decreases s.len(),
{
    if s.len() > 0 && is_space(s[0]) {
        trim_start(s.drop_first())
    } else {
        s
    }
}

/// `s` without its trailing whitespace.
pub open spec fn trim_end(s: Seq<char>) -> Seq<char>
    decreases s.len(),
{
    if s.len() > 0 && is_space(s.last()) {
        trim_end(s.drop_last())
    } else {
        s
    }
}

/// `s` without leading and trailing whitespace (`str::trim`).
pub open spec fn trim(s: Seq<char>) -> Seq<char> {
    trim_end(trim_start(s))
}

/// The characters `s[lo..hi]`.
pub fn copy_range(s: &[char], lo: usize, hi: usize) -> (v: Vec<char>)
    requires
        lo <= hi <= s@.len(),
    ensures
        v@ == s@.subrange(lo as int, hi as int),
{
    let mut v: Vec<char> = Vec::new();
    let mut i: usize = lo;
    while i < hi
        invariant
            lo <= i <= hi,
            hi <= s@.len(),
            v@ == s@.subrange(lo as int, i as int),
        decreases hi - i,
    {
        v.push(s[i]);
        i += 1;
        assert(v@ =~= s@.subrange(lo as int, i as int));
    }
    v
}

/// `s` without leading and trailing whitespace.
pub fn trim_chars(s: &[char]) -> (t: Vec<char>)
    ensures
        t@ == trim(s@),
{
    let n = s.len();
    let mut lo: usize = 0;
    assert(s@.skip(0) =~= s@);
    while lo < n && is_space_char(s[lo])
        invariant
            lo <= n,
            n == s@.len(),
            trim_start(s@) == trim_start(s@.skip(lo as int)),
        decreases n - lo,
    {
        assert(s@.skip(lo as int).drop_first() =~= s@.skip(lo + 1));
        lo += 1;
    }
    assert(trim_start(s@.skip(lo as int)) == s@.skip(lo as int));
    assert(s@.subrange(lo as int, n as int) =~= s@.skip(lo as int));
    let mut hi: usize = n;
    while hi > lo && is_space_char(s[hi - 1])
        invariant
            lo <= hi <= n,
            n == s@.len(),
            trim(s@) == trim_end(s@.subrange(lo as int, hi as int)),
        decreases hi,
    {
        assert(s@.subrange(lo as int, hi as int).drop_last() =~= s@.subrange(
            lo as int,
            hi - 1,
        ));
        hi -= 1;
    }
    assert(trim_end(s@.subrange(lo as int, hi as int)) == s@.subrange(lo as int, hi as int));
    copy_range(s, lo, hi)
}

/// Whether `s` is empty or all whitespace.
pub fn is_blank(s: &[char]) -> (r: bool)
    ensures
        r == (trim(s@).len() == 0),
{
    let t = trim_chars(s);
    t.len() == 0
}

/// The views of a sequence of character vectors.
pub open spec fn views(v: Seq<Vec<char>>) -> Seq<Seq<char>> {
    v.map_values(|w: Vec<char>| w@)
}

/// The maximal runs of non-whitespace characters of `s`, in order
/// (`str::split_whitespace`).
pub open spec fn words(s: Seq<char>) -> Seq<Seq<char>>
    decreases s.len(),
{
    if s.len() == 0 {
        seq![]
    } else {
        let w = words(s.drop_last());
        let c = s.last();
        if is_space(c) {
            w
        } else if s.len() >= 2 && !is_space(s[s.len() - 2]) {
            w.update(w.len() - 1, w.last().push(c))
        } else {
            w.push(seq![c])
        }
    }
}

/// The words of `s`, split at whitespace.
pub fn split_words(s: &[char]) -> (r: Vec<Vec<char>>)
    ensures
        views(r@) == words(s@),
{
    let n = s.len();
    let mut out: Vec<Vec<char>> = Vec::new();
    let mut cur: Vec<char> = Vec::new();
    let mut i: usize = 0;
    assert(s@.take(0) =~= Seq::<char>::empty());
    while i < n
        invariant
            i <= n,
            n == s@.len(),
            cur@.len() > 0 <==> (i > 0 && !is_space(s@[i - 1])),
            cur@.len() > 0 ==> views(out@).push(cur@) == words(s@.take(i as int)),
            cur@.len() == 0 ==> views(out@) == words(s@.take(i as int)),
        decreases n - i,
    {
        let c = s[i];
        let ghost prefix = s@.take(i + 1);
        assert(prefix.drop_last() =~= s@.take(i as int));
        assert(prefix.last() == c);
        if is_space_char(c) {
            if cur.len() > 0 {
                let ghost before = views(out@);
                out.push(cur);
                assert(views(out@) =~= before.push(cur@));
                cur = Vec::new();
            }
        } else {
            if cur.len() > 0 {
                assert(prefix[prefix.len() - 2] == s@[i - 1]);
                let ghost w = views(out@).push(cur@);
                cur.push(c);
                assert(w.update(w.len() - 1, w.last().push(c)) =~= views(out@).push(cur@));
            } else {
                cur.push(c);
                assert(cur@ =~= seq![c]);
            }
        }
        i += 1;
    }
    assert(s@.take(n as int) =~= s@);
    if cur.len() > 0 {
        let ghost before = views(out@);
        out.push(cur);
        assert(views(out@) =~= before.push(cur@));
    }
    out
}

/// The pieces of `s` between occurrences of `sep` (`str::split` on a
/// character); there is always at least one piece.
pub open spec fn split_on(s: Seq<char>, sep: char) -> Seq<Seq<char>>
    decreases s.len(),
{
    if s.len() == 0 {
        seq![seq![]]
    } else {
        let r = split_on(s.drop_last(), sep);
        if s.last() == sep {
            r.push(seq![])
        } else {
            r.update(r.len() - 1, r.last().push(s.last()))
        }
    }
}

pub proof fn lemma_split_on_nonempty(s: Seq<char>, sep: char)
    ensures
        split_on(s, sep).len() >= 1,
    decreases s.len(),
{
    if s.len() > 0 {
        lemma_split_on_nonempty(s.drop_last(), sep);
    }
}

/// The pieces of `s` between occurrences of `sep`.
pub fn split_chars(s: &[char], sep: char) -> (r: Vec<Vec<char>>)
    ensures
        views(r@) == split_on(s@, sep),
{
    let n = s.len();
    let mut out: Vec<Vec<char>> = Vec::new();
    let mut cur: Vec<char> = Vec::new();
    let mut i: usize = 0;
    assert(s@.take(0) =~= Seq::<char>::empty());
    assert(views(out@).push(cur@) =~= seq![seq![]]);
    while i < n
        invariant
            i <= n,
            n == s@.len(),
            views(out@).push(cur@) == split_on(s@.take(i as int), sep),
        decreases n - i,
    {
        let c = s[i];
        let ghost prefix = s@.take(i + 1);
        assert(prefix.drop_last() =~= s@.take(i as int));
        assert(prefix.last() == c);
        let ghost w = views(out@).push(cur@);
        if c == sep {
            out.push(cur);
            cur = Vec::new();
            assert(views(out@).push(cur@) =~= w.push(seq![]));
        } else {
            cur.push(c);
            assert(w.update(w.len() - 1, w.last().push(c)) =~= views(out@).push(cur@));
        }
        i += 1;
    }
    assert(s@.take(n as int) =~= s@);
    let ghost before = views(out@);
    out.push(cur);
    assert(views(out@) =~= before.push(cur@));
    out
}

/// ASCII upper-case letters folded to lower case; other characters unchanged.
pub open spec fn ascii_lower(c: char) -> char {
    if 'A' <= c <= 'Z' {
        ((c as u32) + 32) as char
    } else {
        c
    }
}

/// `s` with ASCII letters folded to lower case (`str::to_ascii_lowercase`).
pub open spec fn lower_text(s: Seq<char>) -> Seq<char> {
    s.map_values(|c: char| ascii_lower(c))
}

/// The characters of `s` with ASCII letters folded to lower case.
pub fn lower_chars(s: &[char]) -> (r: Vec<char>)
    ensures
        r@ == lower_text(s@),
{
    let mut r: Vec<char> = Vec::new();
    let mut i: usize = 0;
    while i < s.len()
        invariant
            i <= s@.len(),
            r@ == lower_text(s@.take(i as int)),
        decreases s@.len() - i,
    {
        let c = s[i];
        let l = if 'A' <= c && c <= 'Z' {
            ((c as u8) + 32) as char
        } else {
            c
        };
        assert(l == ascii_lower(c));
        r.push(l);
        i += 1;
        assert(r@ =~= lower_text(s@.take(i as int)));
    }
    assert(s@.take(s@.len() as int) =~= s@);
    r
}

} // verus!

verus! {

/// What `format!("{:?}", s)` writes for a string whose characters are `s`.
pub uninterp spec fn debug_text(s: Seq<char>) -> Seq<char>;

/// The `Debug` form of a string (`<str as Debug>::fmt`, through `format!`),
/// which quotes the string and escapes some of its characters. Its result
/// depends on the characters alone and is given the name `debug_text`;
/// the quoting and escaping rules are not stated.
#[verifier::external_body]
fn debug_str(s: &str) -> (r: String)
    ensures
        r@ == debug_text(s@),
{
    format!("{:?}", s)
}

/// Appends the `Debug` form of the string `v` to `out`.
pub fn push_debug(out: &mut String, v: &[char])
    ensures
        final(out)@ == old(out)@ + debug_text(v@),
{
    let s = string_of(v);
    let d = debug_str(s.as_str());
    out.append(d.as_str());
}

/// Appends the `Debug` form of the string `s` to `out`.
pub fn push_debug_str(out: &mut String, s: &str)
    ensures
        final(out)@ == old(out)@ + debug_text(s@),
{
    let d = debug_str(s);
    out.append(d.as_str());
}

} // verus!

verus! {

/// A result whose error text is taken by its characters.
pub open spec fn text_result<T>(r: Result<T, String>) -> Result<T, Seq<char>> {
    match r {
        Ok(v) => Ok(v),
        Err(e) => Err(e@),
    }
}

/// A `String` holding the characters of `s`.
pub fn string_from(s: &str) -> (r: String)
    ensures
        r@ == s@,
{
    String::from_str(s)
}

/// Whether the character `c` occurs in `v`.
pub fn has_char(v: &[char], c: char) -> (r: bool)
    ensures
        r == v@.contains(c),
{
    let mut i: usize = 0;
    while i < v.len()
        invariant
            i <= v@.len(),
            forall|j: int| 0 <= j < i ==> v@[j] != c,
        decreases v@.len() - i,
    {
        if v[i] == c {
            assert(v@[i as int] == c);
            return true;
        }
        i += 1;
    }
    false
}

} // verus!

verus! {

/// Whether no character of `t` is whitespace.
pub open spec fn no_space(t: Seq<char>) -> bool {
    forall|i: int| 0 <= i < t.len() ==> !is_space(#[trigger] t[i])
}

/// A word appended after whitespace (or at the start) becomes the last word.
pub proof fn lemma_words_append_word(s: Seq<char>, t: Seq<char>)
    requires
        t.len() > 0,
        no_space(t),
        s.len() == 0 || is_space(s.last()),
    ensures
        words(s + t) == words(s).push(t),
    decreases t.len(),
{
    let st = s + t;
    assert(st.last() == t.last());
    assert(!is_space(t[t.len() - 1]));
    if t.len() == 1 {
        assert(st.drop_last() =~= s);
        assert(t =~= seq![t[0]]);
    } else {
        let t1 = t.drop_last();
        assert(no_space(t1)) by {
            assert forall|i: int| 0 <= i < t1.len() implies !is_space(#[trigger] t1[i]) by {
                assert(t1[i] == t[i]);
            }
        }
        lemma_words_append_word(s, t1);
        assert(st.drop_last() =~= s + t1);
        assert(st[st.len() - 2] == t[t.len() - 2]);
        assert(!is_space(t[t.len() - 2]));
        let w = words(s + t1);
        assert(w.update(w.len() - 1, w.last().push(t.last())) =~= words(s).push(t)) by {
            assert(t1.push(t.last()) =~= t);
        }
    }
}

/// Whitespace appended after the text adds no word.
pub proof fn lemma_words_push_space(s: Seq<char>, c: char)
    requires
        is_space(c),
    ensures
        words(s.push(c)) == words(s),
{
    assert(s.push(c).drop_last() =~= s);
}

/// Text without whitespace is its own trim.
pub proof fn lemma_trim_no_space(t: Seq<char>)
    requires
        no_space(t),
    ensures
        trim(t) == t,
{
    if t.len() > 0 {
        assert(!is_space(t[0]));
        assert(!is_space(t[t.len() - 1]));
    }
}

} // verus!

verus! {

/// Text without the separator extends the last piece.
pub proof fn lemma_split_on_extend(x: Seq<char>, t: Seq<char>, sep: char)
    requires
        !t.contains(sep),
    ensures
        split_on(x + t, sep) == split_on(x, sep).update(
            split_on(x, sep).len() - 1,
            split_on(x, sep).last() + t,
        ),
        split_on(x + t, sep).len() == split_on(x, sep).len(),
    decreases t.len(),
{
    lemma_split_on_nonempty(x, sep);
    let r = split_on(x, sep);
    if t.len() == 0 {
        assert(x + t =~= x);
        assert(r.last() + t =~= r.last());
        assert(r.update(r.len() - 1, r.last()) =~= r);
    } else {
        let t1 = t.drop_last();
        assert(!t1.contains(sep)) by {
            if t1.contains(sep) {
                let k = choose|k: int| 0 <= k < t1.len() && t1[k] == sep;
                assert(t[k] == sep);
            }
        }
        assert(t.last() != sep) by {
            assert(t[t.len() - 1] == t.last());
        }
        lemma_split_on_extend(x, t1, sep);
        assert((x + t).drop_last() =~= x + t1);
        assert((x + t).last() == t.last());
        let r1 = split_on(x + t1, sep);
        assert(r1.update(r1.len() - 1, r1.last().push(t.last())) =~= r.update(
            r.len() - 1,
            r.last() + t,
        )) by {
            assert(r.last() + t1 + seq![t.last()] =~= r.last() + t);
            assert((r.last() + t1).push(t.last()) =~= r.last() + t);
        }
    }
}

/// The separator closes the last piece and opens an empty one.
pub proof fn lemma_split_on_sep(x: Seq<char>, sep: char)
    ensures
        split_on(x.push(sep), sep) == split_on(x, sep).push(seq![]),
{
    assert(x.push(sep).drop_last() =~= x);
}

} // verus!
