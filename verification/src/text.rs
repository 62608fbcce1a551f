//! Character-level text helpers shared by the rest of the library.
use vstd::prelude::*;

verus! {

/// `p` occurs in `s` starting at character position `i`.
pub open spec fn occurs_at(s: Seq<char>, p: Seq<char>, i: int) -> bool {
    0 <= i && i + p.len() <= s.len() && s.subrange(i, i + p.len()) == p
}

/// `p` occurs somewhere in `s`.
pub open spec fn has_occurrence(s: Seq<char>, p: Seq<char>) -> bool {
    exists|i: int| occurs_at(s, p, i)
}

/// `i` is the position of the leftmost occurrence of `p` in `s`.
pub open spec fn is_first_occurrence(s: Seq<char>, p: Seq<char>, i: int) -> bool {
    occurs_at(s, p, i) && forall|j: int| 0 <= j < i ==> !occurs_at(s, p, j)
}

/// The position of the leftmost occurrence of `p` in `s` (meaningful when
/// `has_occurrence(s, p)`).
pub open spec fn first_occurrence(s: Seq<char>, p: Seq<char>) -> int {
    choose|i: int| is_first_occurrence(s, p, i)
}

/// The leftmost occurrence is unique, so whichever position is shown to be
/// leftmost is the one `first_occurrence` names.
pub proof fn lemma_first_occurrence_unique(s: Seq<char>, p: Seq<char>, i: int)
    requires
        is_first_occurrence(s, p, i),
    ensures
        has_occurrence(s, p),
        first_occurrence(s, p) == i,
{
    let k = first_occurrence(s, p);
    assert(is_first_occurrence(s, p, k));
    if k < i {
        assert(!occurs_at(s, p, k));
    }
    if i < k {
        assert(!occurs_at(s, p, i));
    }
}

/// Whenever `p` occurs in `s`, there is a leftmost occurrence, and
/// `first_occurrence` names it.
pub proof fn lemma_first_occurrence_exists(s: Seq<char>, p: Seq<char>)
    requires
        has_occurrence(s, p),
    ensures
        is_first_occurrence(s, p, first_occurrence(s, p)),
{
    let i = choose|i: int| occurs_at(s, p, i);
    lemma_leftmost_below(s, p, i);
}

/// Below any occurrence there is a leftmost one.
proof fn lemma_leftmost_below(s: Seq<char>, p: Seq<char>, i: int)
    requires
        occurs_at(s, p, i),
    ensures
        exists|j: int| is_first_occurrence(s, p, j),
    decreases i,
{
    if exists|k: int| 0 <= k < i && occurs_at(s, p, k) {
        let k = choose|k: int| 0 <= k < i && occurs_at(s, p, k);
        lemma_leftmost_below(s, p, k);
    } else {
        assert(is_first_occurrence(s, p, i));
    }
}

/// Appends one character to a `String` (`String::push`).
#[verifier::external_body]
pub(crate) fn push_char(s: &mut String, c: char)
    ensures
        final(s)@ == old(s)@.push(c),
{
    s.push(c);
}

/// The characters of `s`, in order.
pub fn chars_of(s: &str) -> (v: Vec<char>)
    ensures
        v@ == s@,
{
    let mut v: Vec<char> = Vec::new();
    for c in it: s.chars()
        invariant
            v@ == it.seq().take(it.index() as int),
    {
        v.push(c);
    }
    v
}

/// A `String` holding exactly the characters of `v`.
pub fn string_of(v: &[char]) -> (s: String)
    ensures
        s@ == v@,
{
    let mut s = String::new();
    let n = v.len();
    for i in 0..n
        invariant
            n == v@.len(),
            s@ == v@.take(i as int),
    {
        push_char(&mut s, v[i]);
        assert(v@.take(i + 1) == v@.take(i as int).push(v@[i as int]));
    }
    assert(v@.take(n as int) == v@);
    s
}

/// Whether two character sequences are equal.
pub fn seq_eq(a: &[char], b: &[char]) -> (r: bool)
    ensures
        r == (a@ == b@),
{
    if a.len() != b.len() {
        return false;
    }
    let n = a.len();
    for i in 0..n
        invariant
            n == a@.len(),
            n == b@.len(),
            forall|j: int| 0 <= j < i ==> a@[j] == b@[j],
    {
        if a[i] != b[i] {
            return false;
        }
    }
    assert(a@ == b@);
    true
}

/// Whether two strings hold the same text.
pub fn text_eq(a: &str, b: &str) -> (r: bool)
    ensures
        r == (a@ == b@),
{
    let va = chars_of(a);
    let vb = chars_of(b);
    seq_eq(va.as_slice(), vb.as_slice())
}

/// Whether `p` occurs in `s` at position `i`.
pub fn matches_at(s: &[char], p: &[char], i: usize) -> (r: bool)
    ensures
        r == occurs_at(s@, p@, i as int),
{
    if i > s.len() || p.len() > s.len() - i {
        return false;
    }
    let m = p.len();
    for j in 0..m
        invariant
            m == p@.len(),
            i + m <= s.len(),
            forall|k: int| 0 <= k < j ==> s@[i + k] == p@[k],
    {
        if s[i + j] != p[j] {
            assert(s@.subrange(i as int, i + m)[j as int] != p@[j as int]);
            return false;
        }
    }
    assert(s@.subrange(i as int, i + m) == p@);
    true
}

/// The position of the leftmost occurrence of `p` in `s`, if any.
pub fn find(s: &[char], p: &[char]) -> (r: Option<usize>)
    ensures
        match r {
            Some(i) => is_first_occurrence(s@, p@, i as int),
            None => !has_occurrence(s@, p@),
        },
{
    let n = s.len();
    for i in 0..n
        invariant
            n == s@.len(),
            forall|j: int| 0 <= j < i ==> !occurs_at(s@, p@, j),
    {
        if matches_at(s, p, i) {
            return Some(i);
        }
    }
    if matches_at(s, p, n) {
        return Some(n);
    }
    assert forall|j: int| !occurs_at(s@, p@, j) by {
        if 0 <= j < n {
        }
    }
    None
}

/// Appends `src[from..to]` to `dst`.
pub fn extend_range(dst: &mut Vec<char>, src: &[char], from: usize, to: usize)
    requires
        from <= to <= src@.len(),
    ensures
        final(dst)@ == old(dst)@ + src@.subrange(from as int, to as int),
{
    let ghost start = dst@;
    let mut i = from;
    while i < to
        invariant
            from <= i <= to <= src@.len(),
            dst@ == start + src@.subrange(from as int, i as int),
        decreases to - i,
    {
        dst.push(src[i]);
        assert(src@.subrange(from as int, i + 1) == src@.subrange(from as int, i as int).push(
            src@[i as int],
        ));
        i = i + 1;
    }
}

/// Appends all of `src` to `dst`.
pub fn extend_all(dst: &mut Vec<char>, src: &[char])
    ensures
        final(dst)@ == old(dst)@ + src@,
{
    extend_range(dst, src, 0, src.len());
    assert(src@.subrange(0, src@.len() as int) == src@);
}

/// Whether `p` occurs anywhere in `s`.
pub fn contains(s: &[char], p: &[char]) -> (r: bool)
    ensures
        r == has_occurrence(s@, p@),
{
    match find(s, p) {
        Some(_) => true,
        None => false,
    }
}

/// Unicode `White_Space`, the property that `char::is_whitespace` tests.
pub open spec fn is_ws(c: char) -> bool {
    ||| ('\u{9}' <= c && c <= '\u{d}')
    ||| c == ' '
    ||| c == '\u{85}'
    ||| c == '\u{a0}'
    ||| c == '\u{1680}'
    ||| ('\u{2000}' <= c && c <= '\u{200a}')
    ||| c == '\u{2028}'
    ||| c == '\u{2029}'
    ||| c == '\u{202f}'
    ||| c == '\u{205f}'
    ||| c == '\u{3000}'
}

/// Whether `c` is white space.
pub fn is_whitespace(c: char) -> (r: bool)
    ensures
        r == is_ws(c),
{
    ('\u{9}' <= c && c <= '\u{d}') || c == ' ' || c == '\u{85}' || c == '\u{a0}' || c
        == '\u{1680}' || ('\u{2000}' <= c && c <= '\u{200a}') || c == '\u{2028}' || c
        == '\u{2029}' || c == '\u{202f}' || c == '\u{205f}' || c == '\u{3000}'
}

/// `s` without its trailing white space.
pub open spec fn trim_end_ws(s: Seq<char>) -> Seq<char>
    decreases s.len(),
{
    if s.len() > 0 && is_ws(s.last()) {
        trim_end_ws(s.drop_last())
    } else {
        s
    }
}

/// `s` without its leading white space.
pub open spec fn trim_start_ws(s: Seq<char>) -> Seq<char>
    decreases s.len(),
{
    if s.len() > 0 && is_ws(s[0]) {
        trim_start_ws(s.drop_first())
    } else {
        s
    }
}

/// `s` without leading and trailing white space (`str::trim`).
pub open spec fn trim_ws(s: Seq<char>) -> Seq<char> {
    trim_start_ws(trim_end_ws(s))
}

/// The end of `v` once trailing white space is cut off.
pub fn trim_end_index(v: &[char]) -> (k: usize)
    ensures
        k <= v@.len(),
        v@.take(k as int) == trim_end_ws(v@),
{
    let mut k = v.len();
    assert(v@.take(k as int) == v@);
    while k > 0 && is_whitespace(v[k - 1])
        invariant
            k <= v@.len(),
            trim_end_ws(v@.take(k as int)) == trim_end_ws(v@),
        decreases k,
    {
        assert(v@.take(k as int).drop_last() == v@.take(k - 1));
        k = k - 1;
    }
    k
}

/// The start of `v[..end]` once leading white space is cut off.
pub fn trim_start_index(v: &[char], end: usize) -> (j: usize)
    requires
        end <= v@.len(),
    ensures
        j <= end,
        v@.subrange(j as int, end as int) == trim_start_ws(v@.take(end as int)),
{
    let mut j: usize = 0;
    assert(v@.subrange(0, end as int) == v@.take(end as int));
    while j < end && is_whitespace(v[j])
        invariant
            j <= end <= v@.len(),
            trim_start_ws(v@.subrange(j as int, end as int)) == trim_start_ws(v@.take(end as int)),
        decreases end - j,
    {
        assert(v@.subrange(j as int, end as int).drop_first() == v@.subrange(j + 1, end as int));
        j = j + 1;
    }
    j
}

/// The characters of `v` without leading and trailing white space.
pub fn trim(v: &[char]) -> (r: Vec<char>)
    ensures
        r@ == trim_ws(v@),
{
    let k = trim_end_index(v);
    let j = trim_start_index(v, k);
    let mut r: Vec<char> = Vec::new();
    extend_range(&mut r, v, j, k);
    r
}

/// `p` is a prefix of `s`.
pub open spec fn is_prefix(p: Seq<char>, s: Seq<char>) -> bool {
    p.len() <= s.len() && s.take(p.len() as int) == p
}

/// Whether `v` starts with `p`.
pub fn starts_with(v: &[char], p: &[char]) -> (r: bool)
    ensures
        r == is_prefix(p@, v@),
{
    let r = matches_at(v, p, 0);
    proof {
        if p@.len() <= v@.len() {
            assert(v@.subrange(0, p@.len() as int) == v@.take(p@.len() as int));
        }
    }
    r
}

/// The characters of `v` from position `from` on.
pub fn suffix_from(v: &[char], from: usize) -> (r: Vec<char>)
    requires
        from <= v@.len(),
    ensures
        r@ == v@.skip(from as int),
{
    let mut r: Vec<char> = Vec::new();
    extend_range(&mut r, v, from, v.len());
    r
}

/// The texts of a list of strings.
pub open spec fn texts(v: Seq<String>) -> Seq<Seq<char>> {
    v.map_values(|a: String| a@)
}

/// The parts joined with `sep` between neighbours (`[String]::join`).
pub open spec fn join_with(parts: Seq<Seq<char>>, sep: Seq<char>) -> Seq<char>
    decreases parts.len(),
{
    if parts.len() == 0 {
        Seq::empty()
    } else if parts.len() == 1 {
        parts[0]
    } else {
        join_with(parts.drop_last(), sep) + sep + parts.last()
    }
}

/// The strings of `parts` joined with `sep` between neighbours.
pub fn join(parts: &[String], sep: &str) -> (r: String)
    ensures
        r@ == join_with(texts(parts@), sep@),
{
    let s = chars_of(sep);
    let mut out: Vec<char> = Vec::new();
    let n = parts.len();
    for i in 0..n
        invariant
            n == parts@.len(),
            s@ == sep@,
            out@ == join_with(texts(parts@.take(i as int)), sep@),
    {
        let p = chars_of(parts[i].as_str());
        if i > 0 {
            extend_all(&mut out, s.as_slice());
        }
        extend_all(&mut out, p.as_slice());
        proof {
            let now = texts(parts@.take(i + 1));
            assert(now.drop_last() == texts(parts@.take(i as int)));
            assert(now.last() == parts@[i as int]@);
            if i == 0 {
                assert(out@ == now[0]);
            }
        }
    }
    assert(parts@.take(n as int) == parts@);
    string_of(out.as_slice())
}

/// Whether the text `s` is one of the strings in `v`.
pub fn contains_text(v: &[String], s: &str) -> (r: bool)
    ensures
        r == texts(v@).contains(s@),
{
    let n = v.len();
    for i in 0..n
        invariant
            n == v@.len(),
            forall|j: int| 0 <= j < i ==> v@[j]@ != s@,
    {
        if text_eq(v[i].as_str(), s) {
            assert(texts(v@)[i as int] == s@);
            return true;
        }
    }
    assert(!texts(v@).contains(s@)) by {
        if texts(v@).contains(s@) {
            let j = choose|j: int| 0 <= j < texts(v@).len() && texts(v@)[j] == s@;
            assert(v@[j]@ == s@);
        }
    }
    false
}

} // verus!
