//! Finding, reaching and watching the `dsh web` backend: the URL it announces,
//! the socket address a reachability probe dials, the `PATH` it is spawned
//! with, the status reports shown to the front end and the watcher's
//! decisions.
use vstd::prelude::*;

use crate::text::{
    chars_of, contains, extend_all, extend_range, find, first_occurrence, has_occurrence, is_prefix, is_first_occurrence,
    is_whitespace, is_ws, lemma_first_occurrence_unique, occurs_at, string_of, suffix_from, trim,
    trim_end_ws, trim_ws, texts, join_with, join, contains_text,
};

verus! {

/// The characters cut off the end of an announced URL: white space and
/// closing punctuation.
pub open spec fn is_url_tail(c: char) -> bool {
    is_ws(c) || c == ')' || c == ']' || c == '}' || c == '.'
}

/// `s` without trailing white space and closing punctuation.
pub open spec fn trim_url_tail(s: Seq<char>) -> Seq<char>
    decreases s.len(),
{
    if s.len() > 0 && is_url_tail(s.last()) {
        trim_url_tail(s.drop_last())
    } else {
        s
    }
}

/// `s` up to (not including) its first white-space character.
pub open spec fn until_ws(s: Seq<char>) -> Seq<char>
    decreases s.len(),
{
    if s.len() == 0 || is_ws(s[0]) {
        Seq::empty()
    } else {
        seq![s[0]] + until_ws(s.drop_first())
    }
}

/// The URL that a line of `dsh web` output announces: from the first
/// `http://` up to the next white space, without trailing closing
/// punctuation; none when the line holds no `http://`.
pub open spec fn url_in_line(line: Seq<char>) -> Option<Seq<char>> {
    if has_occurrence(line, "http://"@) {
        Some(trim_url_tail(until_ws(line.skip(first_occurrence(line, "http://"@)))))
    } else {
        None
    }
}

/// Cutting trailing characters off keeps a prefix whose last character would
/// not be cut.
proof fn lemma_trim_end_keeps_prefix(s: Seq<char>, p: Seq<char>)
    requires
        is_prefix(p, s),
        p.len() > 0,
        !is_ws(p.last()),
        !is_url_tail(p.last()),
    ensures
        is_prefix(p, trim_end_ws(s)),
        is_prefix(p, trim_url_tail(s)),
    decreases s.len(),
{
    if s.len() > p.len() {
        assert(s.drop_last().take(p.len() as int) == s.take(p.len() as int));
        lemma_trim_end_keeps_prefix(s.drop_last(), p);
    } else {
        assert(s == p);
    }
}

/// Cutting at the first white space keeps a prefix without white space.
proof fn lemma_until_ws_keeps_prefix(s: Seq<char>, p: Seq<char>)
    requires
        is_prefix(p, s),
        forall|j: int| 0 <= j < p.len() ==> !is_ws(#[trigger] p[j]),
    ensures
        is_prefix(p, until_ws(s)),
    decreases p.len(),
{
    if p.len() > 0 {
        assert(s[0] == p[0]);
        let q = p.drop_first();
        assert(s.drop_first().take(q.len() as int) =~= q);
        assert forall|j: int| 0 <= j < q.len() implies !is_ws(#[trigger] q[j]) by {
            assert(q[j] == p[j + 1]);
        }
        lemma_until_ws_keeps_prefix(s.drop_first(), q);
        assert(!is_ws(p[0]));
        let u = until_ws(s);
        let u1 = until_ws(s.drop_first());
        assert(u == seq![s[0]] + u1);
        assert(u1.take(q.len() as int) == q);
        assert forall|j: int| 0 <= j < p.len() implies u[j] == p[j] by {
            if j > 0 {
                assert(u[j] == u1[j - 1]);
                assert(u1.take(q.len() as int)[j - 1] == u1[j - 1]);
                assert(q[j - 1] == p[j]);
            }
        }
        assert(u.take(p.len() as int) =~= p);
    } else {
        assert(until_ws(s).take(0) =~= p);
    }
}

/// The length of `v` up to its first white space.
fn until_ws_index(v: &[char]) -> (k: usize)
    ensures
        k <= v@.len(),
        v@.take(k as int) == until_ws(v@),
{
    let mut k: usize = 0;
    assert(v@.skip(0) == v@);
    while k < v.len() && !is_whitespace(v[k])
        invariant
            k <= v@.len(),
            until_ws(v@) == v@.take(k as int) + until_ws(v@.skip(k as int)),
        decreases v@.len() - k,
    {
        proof {
            let r = v@.skip(k as int);
            assert(r[0] == v@[k as int]);
            assert(r.drop_first() == v@.skip(k + 1));
            assert(v@.take(k + 1) == v@.take(k as int) + seq![v@[k as int]]);
        }
        k = k + 1;
    }
    proof {
        let r = v@.skip(k as int);
        assert(until_ws(r) == Seq::<char>::empty());
    }
    k
}

/// The end of `v` once trailing white space and closing punctuation are cut
/// off.
fn trim_url_tail_index(v: &[char]) -> (k: usize)
    ensures
        k <= v@.len(),
        v@.take(k as int) == trim_url_tail(v@),
{
    let mut k = v.len();
    assert(v@.take(k as int) == v@);
    while k > 0 && (is_whitespace(v[k - 1]) || v[k - 1] == ')' || v[k - 1] == ']' || v[k - 1]
        == '}' || v[k - 1] == '.')
        invariant
            k <= v@.len(),
            trim_url_tail(v@.take(k as int)) == trim_url_tail(v@),
        decreases k,
    {
        assert(v@.take(k as int).drop_last() == v@.take(k - 1));
        k = k - 1;
    }
    k
}

/// The URL cut from the first `http://` on starts with `http://`, so it
/// holds `://` right after `http`.
proof fn lemma_announced_url_shape(line: Seq<char>, i: int)
    requires
        is_first_occurrence(line, "http://"@, i),
    ensures
        is_prefix("http://"@, trim_url_tail(until_ws(line.skip(i)))),
        occurs_at(trim_url_tail(until_ws(line.skip(i))), "://"@, 4),
{
    reveal_strlit("http://");
    reveal_strlit("://");
    let p = "http://"@;
    let rest = line.skip(i);
    assert(p.len() == 7);
    assert(rest.take(7) == p) by {
        assert(line.subrange(i, i + 7) == p);
        assert(rest.take(7) =~= line.subrange(i, i + 7));
    }
    lemma_until_ws_keeps_prefix(rest, p);
    let w = until_ws(rest);
    lemma_trim_end_keeps_prefix(w, p);
    let u = trim_url_tail(w);
    assert(u.take(7) == p);
    assert(u.subrange(4, 7) =~= p.subrange(4, 7));
    assert(p.subrange(4, 7) =~= "://"@);
}

/// An announced URL always starts with `http://`: the scheme is never cut
/// off with the trailing characters.
pub proof fn law_announced_url_has_scheme(line: Seq<char>)
    requires
        url_in_line(line) is Some,
    ensures
        is_prefix("http://"@, url_in_line(line).unwrap()),
{
    crate::text::lemma_first_occurrence_exists(line, "http://"@);
    lemma_announced_url_shape(line, first_occurrence(line, "http://"@));
}

/// Extracts the URL that a line of `dsh web` output announces (for example
/// `dsh web: http://127.0.0.1:3080`): the text from the first `http://` up to
/// the next white space, without trailing `)`, `]`, `}`, `.`.
pub fn parse_url_from_line(line: &str) -> (r: Option<String>)
    ensures
        match r {
            Some(u) => url_in_line(line@) == Some(u@),
            None => url_in_line(line@) is None,
        },
{
    let v = chars_of(line);
    let scheme = chars_of("http://");
    match find(v.as_slice(), scheme.as_slice()) {
        None => None,
        Some(i) => {
            proof {
                lemma_first_occurrence_unique(v@, "http://"@, i as int);
            }
            let rest = suffix_from(v.as_slice(), i);
            let w = until_ws_index(rest.as_slice());
            let mut t: Vec<char> = Vec::new();
            extend_range(&mut t, rest.as_slice(), 0, w);
            assert(t@ == rest@.take(w as int));
            let k = trim_url_tail_index(t.as_slice());
            let mut u: Vec<char> = Vec::new();
            extend_range(&mut u, t.as_slice(), 0, k);
            let sep = chars_of("://");
            proof {
                reveal_strlit("://");
                lemma_announced_url_shape(v@, i as int);
                assert(t@ == until_ws(rest@));
                assert(u@ == t@.take(k as int));
                assert(sep@ == "://"@);
            }
            if contains(u.as_slice(), sep.as_slice()) {
                Some(string_of(u.as_slice()))
            } else {
                None
            }
        },
    }
}

/// `s` with every leading repetition of `p` removed (`str::trim_start_matches`).
pub open spec fn strip_repeated(s: Seq<char>, p: Seq<char>) -> Seq<char>
    decreases s.len(),
{
    if p.len() > 0 && is_prefix(p, s) {
        strip_repeated(s.skip(p.len() as int), p)
    } else {
        s
    }
}

/// The text of `s` before its first `/` (all of `s` when it has none).
pub open spec fn first_segment(s: Seq<char>) -> Seq<char> {
    if has_occurrence(s, seq!['/']) {
        s.take(first_occurrence(s, seq!['/']))
    } else {
        s
    }
}

/// The `host:port` part of a backend URL: without any leading `http://`
/// and `https://`, up to the first `/`.
pub open spec fn host_port_of(url: Seq<char>) -> Seq<char> {
    first_segment(strip_repeated(strip_repeated(url, "http://"@), "https://"@))
}

/// `i` is the position of the last `c` in `s`.
pub open spec fn is_last_index(s: Seq<char>, c: char, i: int) -> bool {
    0 <= i < s.len() && s[i] == c && forall|j: int| i < j < s.len() ==> s[j] != c
}

/// `s` holds the character `c`.
pub open spec fn has_char(s: Seq<char>, c: char) -> bool {
    exists|i: int| 0 <= i < s.len() && s[i] == c
}

/// The position of the last `c` in `s` (meaningful when `has_char(s, c)`).
pub open spec fn last_index(s: Seq<char>, c: char) -> int {
    choose|i: int| is_last_index(s, c, i)
}

/// The value of a decimal digit character.
pub open spec fn digit_of(c: char) -> nat {
    (c as nat - '0' as nat) as nat
}

/// `d` is made of ASCII decimal digits only.
pub open spec fn all_digits(d: Seq<char>) -> bool {
    forall|i: int| 0 <= i < d.len() ==> '0' <= #[trigger] d[i] && d[i] <= '9'
}

/// The number that a sequence of decimal digits denotes.
pub open spec fn digits_value(d: Seq<char>) -> nat
    decreases d.len(),
{
    if d.len() == 0 {
        0
    } else {
        digits_value(d.drop_last()) * 10 + digit_of(d.last())
    }
}

/// The digits of a number text: one leading `+` is allowed before them.
pub open spec fn unsigned_digits(t: Seq<char>) -> Seq<char> {
    if t.len() >= 2 && t[0] == '+' {
        t.skip(1)
    } else {
        t
    }
}

/// What `str::parse::<u16>` yields: the value of an optional `+` followed by
/// one or more decimal digits, when it is at most 65535.
pub open spec fn parse_u16(t: Seq<char>) -> Option<u16> {
    let d = unsigned_digits(t);
    if d.len() > 0 && all_digits(d) && digits_value(d) <= 65535 {
        Some(digits_value(d) as u16)
    } else {
        None
    }
}

/// The character of a decimal digit.
pub open spec fn digit_char(n: nat) -> char {
    (n + '0' as nat) as char
}

/// The decimal text of `n`, without leading zeros (as `Display` writes it).
pub open spec fn decimal(n: nat) -> Seq<char>
    decreases n,
{
    if n < 10 {
        seq![digit_char(n)]
    } else {
        decimal(n / 10).push(digit_char(n % 10))
    }
}

/// The port dialed when a backend URL names none (or none that parses).
pub open spec fn fallback_port() -> Seq<char> {
    ":3080"@
}

/// The socket address that a reachability probe of `url` dials: the host and
/// the port after its last `:` when that port parses; otherwise the whole
/// `host:port` part followed by `:3080`.
pub open spec fn probe_address(url: Seq<char>) -> Seq<char> {
    let hp = host_port_of(url);
    if has_char(hp, ':') {
        let i = last_index(hp, ':');
        match parse_u16(hp.skip(i + 1)) {
            Some(p) => hp.take(i) + seq![':'] + decimal(p as nat),
            None => hp + fallback_port(),
        }
    } else {
        hp + fallback_port()
    }
}

/// `v` without every leading repetition of `p`.
fn strip_repeated_exec(v: Vec<char>, p: &[char]) -> (r: Vec<char>)
    ensures
        r@ == strip_repeated(v@, p@),
    decreases v@.len(),
{
    if p.len() > 0 && crate::text::starts_with(v.as_slice(), p) {
        let rest = suffix_from(v.as_slice(), p.len());
        strip_repeated_exec(rest, p)
    } else {
        v
    }
}

/// The position of the last `c` in `v`, if any.
fn last_index_exec(v: &[char], c: char) -> (r: Option<usize>)
    ensures
        match r {
            Some(i) => is_last_index(v@, c, i as int),
            None => !has_char(v@, c),
        },
{
    let mut k = v.len();
    while k > 0
        invariant
            k <= v@.len(),
            forall|j: int| k <= j < v@.len() ==> v@[j] != c,
        decreases k,
    {
        if v[k - 1] == c {
            return Some(k - 1);
        }
        k = k - 1;
    }
    None
}

/// Parses a port number as `str::parse::<u16>` does.
pub fn parse_port(t: &[char]) -> (r: Option<u16>)
    ensures
        r == parse_u16(t@),
{
    let start: usize = if t.len() >= 2 && t[0] == '+' {
        1
    } else {
        0
    };
    let ghost d = unsigned_digits(t@);
    assert(d == t@.skip(start as int));
    if start >= t.len() {
        return None;
    }
    let mut acc: u32 = 0;
    let mut i = start;
    while i < t.len()
        invariant
            start <= i <= t@.len(),
            d == t@.skip(start as int),
            d == unsigned_digits(t@),
            all_digits(t@.subrange(start as int, i as int)),
            digits_value(t@.subrange(start as int, i as int)) <= 65535 ==> acc
                == digits_value(t@.subrange(start as int, i as int)),
            digits_value(t@.subrange(start as int, i as int)) > 65535 ==> acc > 65535,
            acc <= 655359,
        decreases t@.len() - i,
    {
        let c = t[i];
        if c < '0' || c > '9' {
            assert(d[i - start] == c);
            return None;
        }
        let ghost before = t@.subrange(start as int, i as int);
        let ghost after = t@.subrange(start as int, i + 1);
        assert(after.drop_last() == before);
        assert(after.last() == c);
        let dv = (c as u32) - ('0' as u32);
        assert(dv == digit_of(c));
        if acc <= 65535 {
            acc = acc * 10 + dv;
        }
        i = i + 1;
        assert(all_digits(after)) by {
            assert forall|j: int| 0 <= j < after.len() implies '0' <= #[trigger] after[j]
                && after[j] <= '9' by {
                if j < before.len() {
                    assert(after[j] == before[j]);
                }
            }
        }
    }
    assert(t@.subrange(start as int, t@.len() as int) == d);
    if acc <= 65535 {
        Some(acc as u16)
    } else {
        None
    }
}

/// Appends the decimal text of `n` to `v`.
fn push_decimal(v: &mut Vec<char>, n: u16)
    ensures
        final(v)@ == old(v)@ + decimal(n as nat),
    decreases n,
{
    if n >= 10 {
        push_decimal(v, n / 10);
    }
    let d = n % 10;
    let c = if d == 0 { '0' } else if d == 1 { '1' } else if d == 2 { '2' } else if d == 3 {
        '3'
    } else if d == 4 { '4' } else if d == 5 { '5' } else if d == 6 { '6' } else if d == 7 {
        '7'
    } else if d == 8 { '8' } else { '9' };
    assert(c == digit_char(d as nat));
    v.push(c);
}

/// The socket address (`host:port`) that a reachability probe of the backend
/// at `url` dials. The host and port are taken from the URL without any
/// leading `http://` or `https://` and without a path; a port that does not
/// parse, or a missing one, gives the whole `host:port` part followed by
/// `:3080`.
pub fn probe_target(url: &str) -> (r: String)
    ensures
        r@ == probe_address(url@),
{
    let http = chars_of("http://");
    let https = chars_of("https://");
    let slash = chars_of("/");
    let v = strip_repeated_exec(chars_of(url), http.as_slice());
    let v = strip_repeated_exec(v, https.as_slice());
    proof {
        reveal_strlit("/");
        assert(slash@ == seq!['/']);
    }
    let hp: Vec<char> = match find(v.as_slice(), slash.as_slice()) {
        Some(i) => {
            proof {
                lemma_first_occurrence_unique(v@, seq!['/'], i as int);
            }
            let mut h: Vec<char> = Vec::new();
            extend_range(&mut h, v.as_slice(), 0, i);
            assert(h@ == v@.take(i as int));
            h
        },
        None => v,
    };
    assert(hp@ == host_port_of(url@));
    let fallback = chars_of(":3080");
    match last_index_exec(hp.as_slice(), ':') {
        Some(i) => {
            proof {
                let k = last_index(hp@, ':');
                assert(is_last_index(hp@, ':', k));
                if k < i {
                    assert(hp@[i as int] != ':');
                }
                if i < k {
                    assert(hp@[k] != ':');
                }
                assert(k == i);
                assert(i < hp.len());
            }
            let port_text = suffix_from(hp.as_slice(), i + 1);
            match parse_port(port_text.as_slice()) {
                Some(p) => {
                    let mut out: Vec<char> = Vec::new();
                    extend_range(&mut out, hp.as_slice(), 0, i);
                    out.push(':');
                    push_decimal(&mut out, p);
                    assert(hp@.take(i as int) == hp@.subrange(0, i as int));
                    string_of(out.as_slice())
                },
                None => {
                    let mut out = hp;
                    crate::text::extend_all(&mut out, fallback.as_slice());
                    string_of(out.as_slice())
                },
            }
        },
        None => {
            let mut out = hp;
            crate::text::extend_all(&mut out, fallback.as_slice());
            string_of(out.as_slice())
        },
    }
}

/// The platform's `PATH` list separator.
pub open spec fn path_sep_of(windows: bool) -> Seq<char> {
    if windows {
        ";"@
    } else {
        ":"@
    }
}

/// The separator of `PATH` entries: `;` on Windows, `:` elsewhere.
pub fn path_sep(windows: bool) -> (r: &'static str)
    ensures
        r@ == path_sep_of(windows),
{
    if windows {
        ";"
    } else {
        ":"
    }
}

/// The non-empty entries of `dirs`, in order.
pub open spec fn keep_nonempty(dirs: Seq<Seq<char>>) -> Seq<Seq<char>>
    decreases dirs.len(),
{
    if dirs.len() == 0 {
        Seq::empty()
    } else if dirs.last().len() > 0 {
        keep_nonempty(dirs.drop_last()).push(dirs.last())
    } else {
        keep_nonempty(dirs.drop_last())
    }
}

/// `acc` followed by each non-empty entry of `dirs` that is not there yet,
/// in order.
pub open spec fn add_new_dirs(acc: Seq<Seq<char>>, dirs: Seq<Seq<char>>) -> Seq<Seq<char>>
    decreases dirs.len(),
{
    if dirs.len() == 0 {
        acc
    } else {
        let before = add_new_dirs(acc, dirs.drop_last());
        let d = dirs.last();
        if d.len() > 0 && !before.contains(d) {
            before.push(d)
        } else {
            before
        }
    }
}

/// The directory list of a combined `PATH`: the non-empty shell rc-file
/// entries, then the augmented entries not already listed, then the current
/// process entries not already listed.
pub open spec fn combined_dirs(
    rc: Seq<Seq<char>>,
    augmented: Seq<Seq<char>>,
    current: Seq<Seq<char>>,
) -> Seq<Seq<char>> {
    add_new_dirs(add_new_dirs(keep_nonempty(rc), augmented), current)
}

/// Appends to `acc` each non-empty entry of `dirs` that is not there yet.
fn add_new(acc: &mut Vec<String>, dirs: &[String])
    ensures
        texts(final(acc)@) == add_new_dirs(texts(old(acc)@), texts(dirs@)),
{
    let ghost start = texts(acc@);
    let n = dirs.len();
    for i in 0..n
        invariant
            n == dirs@.len(),
            texts(acc@) == add_new_dirs(start, texts(dirs@.take(i as int))),
    {
        let d = dirs[i].clone();
        let ghost before = texts(acc@);
        proof {
            let now = texts(dirs@.take(i + 1));
            assert(now.drop_last() == texts(dirs@.take(i as int)));
            assert(now.last() == d@);
        }
        if !d.as_str().is_empty() && !contains_text(acc.as_slice(), d.as_str()) {
            acc.push(d);
            assert(texts(acc@) == before.push(d@));
        }
    }
    assert(dirs@.take(n as int) == dirs@);
}

/// The non-empty strings of `v`, in order.
fn nonempty_entries(v: &[String]) -> (r: Vec<String>)
    ensures
        texts(r@) == keep_nonempty(texts(v@)),
{
    let mut parts: Vec<String> = Vec::new();
    let n = v.len();
    for i in 0..n
        invariant
            n == v@.len(),
            texts(parts@) == keep_nonempty(texts(v@.take(i as int))),
    {
        let d = v[i].clone();
        proof {
            let now = texts(v@.take(i + 1));
            assert(now.drop_last() == texts(v@.take(i as int)));
            assert(now.last() == d@);
        }
        let ghost before = texts(parts@);
        if !d.as_str().is_empty() {
            parts.push(d);
            assert(texts(parts@) == before.push(d@));
        }
    }
    assert(v@.take(n as int) == v@);
    parts
}

/// Combines a `PATH` read from the user's shell rc file with the augmented
/// one and the current process one (each given split into its entries):
/// rc-file entries first, then augmented entries not seen yet, then current
/// entries not seen yet; empty entries are dropped; joined with `sep`.
pub fn combine_paths(rc: &[String], augmented: &[String], current: &[String], sep: &str) -> (r:
    String)
    ensures
        r@ == join_with(combined_dirs(texts(rc@), texts(augmented@), texts(current@)), sep@),
{
    let mut parts = nonempty_entries(rc);
    add_new(&mut parts, augmented);
    add_new(&mut parts, current);
    join(parts.as_slice(), sep)
}

/// A path that may carry a Windows verbatim prefix (`\\?\`), under which
/// joining normalizes the whole path.
pub open spec fn is_verbatim_like(s: Seq<char>) -> bool {
    s.len() >= 3 && s[0] == '\\' && s[1] == '\\' && s[2] == '?'
}

/// A path separator on Windows: `/` or `\`.
pub open spec fn is_sep_char(c: char) -> bool {
    c == '/' || c == '\\'
}

/// A bare drive such as `C:`.
pub open spec fn is_bare_drive(s: Seq<char>) -> bool {
    s.len() == 2 && s[1] == ':' && (('a' <= s[0] && s[0] <= 'z') || ('A' <= s[0] && s[0] <= 'Z'))
}

/// The separator that joining inserts: `\` on Windows, `/` elsewhere.
pub open spec fn main_sep(windows: bool) -> char {
    if windows {
        '\\'
    } else {
        '/'
    }
}

/// Whether joining a relative component onto `base` inserts a separator:
/// `base` is not empty and does not end in a separator (`/`; on Windows `/`
/// or `\`), and on Windows it is not a bare drive.
pub open spec fn sep_needed(base: Seq<char>, windows: bool) -> bool {
    base.len() > 0 && if windows {
        !is_sep_char(base.last()) && !is_bare_drive(base)
    } else {
        base.last() != '/'
    }
}

/// `Path::join` of a relative component without separators, drive or root
/// onto a base without a verbatim prefix: the base, the platform's separator
/// where one is needed, then the component.
pub open spec fn path_join(base: Seq<char>, comp: Seq<char>, windows: bool) -> Seq<char> {
    if sep_needed(base, windows) {
        base + seq![main_sep(windows)] + comp
    } else {
        base + comp
    }
}

/// `base` with the components `comps` joined on, one after another.
pub open spec fn join_all_spec(base: Seq<char>, comps: Seq<Seq<char>>, windows: bool) -> Seq<char>
    decreases comps.len(),
{
    if comps.len() == 0 {
        base
    } else {
        path_join(join_all_spec(base, comps.drop_last(), windows), comps.last(), windows)
    }
}

/// `d` is the directory joined from `base` and `comps` (on Windows, for a
/// base with a verbatim prefix, whatever `Path::join` gives).
pub open spec fn joined(base: Seq<char>, comps: Seq<Seq<char>>, d: Seq<char>, windows: bool) -> bool {
    (windows && is_verbatim_like(base)) || d == join_all_spec(base, comps, windows)
}

/// Joins a relative component onto a path with `Path::join`, and gives the
/// result as text.
///
/// Trusted: nothing is claimed of the result. It is called only for a base
/// with a Windows verbatim prefix, under which `Path::join` rebuilds and
/// normalizes the whole path.
#[verifier::external_body]
fn join_component(base: &str, comp: &str) -> (r: String) {
    std::path::Path::new(base).join(comp).to_string_lossy().into_owned()
}

/// Joins the component `comp` onto `base` as `Path::join` does on the
/// platform given by `windows`, for a base without a verbatim prefix.
fn join_path(base: &str, comp: &str, windows: bool) -> (r: String)
    ensures
        r@ == path_join(base@, comp@, windows),
{
    let mut out = chars_of(base);
    let c = chars_of(comp);
    let n = out.len();
    let need = if n == 0 {
        false
    } else if windows {
        let last = out[n - 1];
        let drive = n == 2 && out[1] == ':' && (('a' <= out[0] && out[0] <= 'z') || ('A' <= out[0]
            && out[0] <= 'Z'));
        !(last == '/' || last == '\\') && !drive
    } else {
        out[n - 1] != '/'
    };
    assert(need == sep_needed(base@, windows));
    if need {
        if windows {
            out.push('\\');
        } else {
            out.push('/');
        }
    }
    extend_all(&mut out, c.as_slice());
    string_of(out.as_slice())
}

/// Whether `base` starts like a Windows verbatim path (`\\?`).
fn verbatim_like(base: &str) -> (r: bool)
    ensures
        r == is_verbatim_like(base@),
{
    let v = chars_of(base);
    v.len() >= 3 && v[0] == '\\' && v[1] == '\\' && v[2] == '?'
}

/// The settings that the augmented `PATH` is built from.
pub struct SearchEnv {
    /// `HOME`.
    pub home: Option<String>,
    /// `USERPROFILE`, the home directory when `HOME` is unset.
    pub user_profile: Option<String>,
    /// `DSH_BIN_DIR`.
    pub dsh_bin_dir: Option<String>,
    /// `PNPM_HOME`.
    pub pnpm_home: Option<String>,
    /// `APPDATA` (Windows).
    pub app_data: Option<String>,
    /// `LOCALAPPDATA` (Windows).
    pub local_app_data: Option<String>,
    /// `ProgramFiles` (Windows).
    pub program_files: Option<String>,
    /// The entries of the current `PATH` (none when it is unset or not
    /// Unicode).
    pub path: Vec<String>,
}

/// One planned search directory: a base and the components joined onto it.
pub type DirPlan = (Seq<char>, Seq<Seq<char>>);

/// One planned directory for an optional base.
pub open spec fn plan_if(base: Option<String>, comps: Seq<Seq<char>>) -> Seq<DirPlan> {
    match base {
        Some(b) => seq![(b@, comps)],
        None => Seq::empty(),
    }
}

/// The home directory: `HOME`, else `USERPROFILE`.
pub open spec fn home_of(env: SearchEnv) -> Option<String> {
    if env.home is Some {
        env.home
    } else {
        env.user_profile
    }
}

/// The planned search directories, in order: `DSH_BIN_DIR`; the npm and
/// local bin directories under home; `PNPM_HOME`; the pnpm directories under
/// home; on Windows the npm, pnpm and Node.js directories under `APPDATA`,
/// `LOCALAPPDATA` and `ProgramFiles`; then `/usr/local/bin` and
/// `/opt/homebrew/bin`.
pub open spec fn search_plan(env: SearchEnv, windows: bool) -> Seq<DirPlan> {
    let h = home_of(env);
    plan_if(env.dsh_bin_dir, Seq::empty())
        + plan_if(h, seq![".npm-global"@, "bin"@])
        + plan_if(h, seq![".npm"@, "bin"@])
        + plan_if(h, seq![".local"@, "bin"@])
        + plan_if(h, seq!["bin"@])
        + plan_if(env.pnpm_home, Seq::empty())
        + plan_if(h, seq!["Library"@, "pnpm"@])
        + plan_if(h, seq![".local"@, "share"@, "pnpm"@])
        + (if windows {
            plan_if(env.app_data, seq!["npm"@])
                + plan_if(env.local_app_data, seq!["pnpm"@])
                + plan_if(env.program_files, seq!["nodejs"@])
        } else {
            Seq::empty()
        })
        + seq![("/usr/local/bin"@, Seq::empty()), ("/opt/homebrew/bin"@, Seq::empty())]
}

/// `dirs` realizes `plan`, entry by entry.
pub open spec fn realizes(plan: Seq<DirPlan>, dirs: Seq<Seq<char>>, windows: bool) -> bool {
    plan.len() == dirs.len() && forall|i: int|
        0 <= i < plan.len() ==> joined(plan[i].0, plan[i].1, #[trigger] dirs[i], windows)
}

/// The texts of a list of string slices.
pub open spec fn slice_texts(v: Seq<&str>) -> Seq<Seq<char>> {
    v.map_values(|c: &str| c@)
}

/// Joins each component of `comps` onto `base`, one after another.
fn join_all(base: &str, comps: &Vec<&'static str>, windows: bool) -> (r: String)
    ensures
        joined(base@, slice_texts(comps@), r@, windows),
{
    let n = comps.len();
    if windows && verbatim_like(base) {
        let mut cur = String::from_str(base);
        for i in 0..n
            invariant
                n == comps@.len(),
        {
            cur = join_component(cur.as_str(), comps[i]);
        }
        return cur;
    }
    let mut cur = String::from_str(base);
    let ghost cs = slice_texts(comps@);
    for i in 0..n
        invariant
            n == comps@.len(),
            cs == slice_texts(comps@),
            cur@ == join_all_spec(base@, cs.take(i as int), windows),
    {
        let next = join_path(cur.as_str(), comps[i], windows);
        proof {
            assert(cs.take(i + 1).drop_last() == cs.take(i as int));
            assert(cs.take(i + 1).last() == comps@[i as int]@);
        }
        cur = next;
    }
    assert(cs.take(n as int) == cs);
    cur
}

/// Adding a realized entry to a realized plan.
proof fn lemma_realizes_push(
    plan: Seq<DirPlan>,
    dirs: Seq<Seq<char>>,
    p: DirPlan,
    d: Seq<char>,
    windows: bool,
)
    requires
        realizes(plan, dirs, windows),
        joined(p.0, p.1, d, windows),
    ensures
        realizes(plan.push(p), dirs.push(d), windows),
{
    assert forall|i: int| 0 <= i < plan.len() + 1 implies joined(
        plan.push(p)[i].0,
        plan.push(p)[i].1,
        #[trigger] dirs.push(d)[i],
        windows,
    ) by {
        if i < plan.len() {
            assert(plan.push(p)[i] == plan[i]);
            assert(dirs.push(d)[i] == dirs[i]);
        }
    }
}

/// Adds the directory planned from an optional base.
fn push_planned(
    dirs: &mut Vec<String>,
    base: &Option<String>,
    comps: &Vec<&'static str>,
    windows: bool,
    Ghost(plan): Ghost<Seq<DirPlan>>,
) -> (next: Ghost<Seq<DirPlan>>)
    requires
        realizes(plan, texts(old(dirs)@), windows),
    ensures
        next@ == plan + plan_if(*base, slice_texts(comps@)),
        realizes(next@, texts(final(dirs)@), windows),
{
    match base {
        Some(b) => {
            let d = join_all(b.as_str(), comps, windows);
            let ghost before = texts(dirs@);
            dirs.push(d);
            proof {
                assert(texts(dirs@) == before.push(d@));
                lemma_realizes_push(plan, before, (b@, slice_texts(comps@)), d@, windows);
                assert(plan + plan_if(*base, slice_texts(comps@)) == plan.push(
                    (b@, slice_texts(comps@)),
                ));
            }
            Ghost(plan + plan_if(*base, slice_texts(comps@)))
        },
        None => {
            assert(plan + plan_if(*base, slice_texts(comps@)) == plan);
            Ghost(plan)
        },
    }
}

/// The components `parts`, as a list.
fn components(parts: &[&'static str]) -> (v: Vec<&'static str>)
    ensures
        v@ == parts@,
{
    let mut v: Vec<&'static str> = Vec::new();
    let n = parts.len();
    for i in 0..n
        invariant
            n == parts@.len(),
            v@ == parts@.take(i as int),
    {
        v.push(parts[i]);
        assert(parts@.take(i + 1) == parts@.take(i as int).push(parts@[i as int]));
    }
    assert(parts@.take(n as int) == parts@);
    v
}

/// Adds the directories planned under `DSH_BIN_DIR`, the home directory and
/// `PNPM_HOME`.
fn push_user_dirs(dirs: &mut Vec<String>, env: &SearchEnv, home: &Option<String>, windows: bool) -> (p: Ghost<
    Seq<DirPlan>,
>)
    requires
        old(dirs)@.len() == 0,
    ensures
        p@ == plan_if(env.dsh_bin_dir, Seq::empty()) + plan_if(*home, seq![".npm-global"@, "bin"@])
            + plan_if(*home, seq![".npm"@, "bin"@]) + plan_if(*home, seq![".local"@, "bin"@])
            + plan_if(*home, seq!["bin"@]) + plan_if(env.pnpm_home, Seq::empty()) + plan_if(
            *home,
            seq!["Library"@, "pnpm"@],
        ) + plan_if(*home, seq![".local"@, "share"@, "pnpm"@]),
        realizes(p@, texts(final(dirs)@), windows),
{
    let none = components(&[]);
    let npm_global = components(&[".npm-global", "bin"]);
    let npm = components(&[".npm", "bin"]);
    let local = components(&[".local", "bin"]);
    let bin = components(&["bin"]);
    let library = components(&["Library", "pnpm"]);
    let share = components(&[".local", "share", "pnpm"]);
    assert(slice_texts(none@) =~= Seq::<Seq<char>>::empty());
    assert(slice_texts(npm_global@) =~= seq![".npm-global"@, "bin"@]);
    assert(slice_texts(npm@) =~= seq![".npm"@, "bin"@]);
    assert(slice_texts(local@) =~= seq![".local"@, "bin"@]);
    assert(slice_texts(bin@) =~= seq!["bin"@]);
    assert(slice_texts(library@) =~= seq!["Library"@, "pnpm"@]);
    assert(slice_texts(share@) =~= seq![".local"@, "share"@, "pnpm"@]);
    assert(realizes(Seq::empty(), texts(dirs@), windows));
    let Ghost(p) = push_planned(dirs, &env.dsh_bin_dir, &none, windows, Ghost(Seq::empty()));
    let Ghost(p) = push_planned(dirs, home, &npm_global, windows, Ghost(p));
    let Ghost(p) = push_planned(dirs, home, &npm, windows, Ghost(p));
    let Ghost(p) = push_planned(dirs, home, &local, windows, Ghost(p));
    let Ghost(p) = push_planned(dirs, home, &bin, windows, Ghost(p));
    let Ghost(p) = push_planned(dirs, &env.pnpm_home, &none, windows, Ghost(p));
    let Ghost(p) = push_planned(dirs, home, &library, windows, Ghost(p));
    let Ghost(p) = push_planned(dirs, home, &share, windows, Ghost(p));
    assert(Seq::<DirPlan>::empty() + plan_if(env.dsh_bin_dir, Seq::empty()) =~= plan_if(
        env.dsh_bin_dir,
        Seq::empty(),
    ));
    Ghost(p)
}

/// Adds the directories planned under `APPDATA`, `LOCALAPPDATA` and
/// `ProgramFiles`.
fn push_windows_dirs(dirs: &mut Vec<String>, env: &SearchEnv, Ghost(plan): Ghost<Seq<DirPlan>>) -> (p:
    Ghost<Seq<DirPlan>>)
    requires
        realizes(plan, texts(old(dirs)@), true),
    ensures
        p@ == plan + plan_if(env.app_data, seq!["npm"@]) + plan_if(
            env.local_app_data,
            seq!["pnpm"@],
        ) + plan_if(env.program_files, seq!["nodejs"@]),
        realizes(p@, texts(final(dirs)@), true),
{
    let npm_dir = components(&["npm"]);
    let pnpm_dir = components(&["pnpm"]);
    let node_dir = components(&["nodejs"]);
    assert(slice_texts(npm_dir@) =~= seq!["npm"@]);
    assert(slice_texts(pnpm_dir@) =~= seq!["pnpm"@]);
    assert(slice_texts(node_dir@) =~= seq!["nodejs"@]);
    let Ghost(q) = push_planned(dirs, &env.app_data, &npm_dir, true, Ghost(plan));
    let Ghost(q) = push_planned(dirs, &env.local_app_data, &pnpm_dir, true, Ghost(q));
    let Ghost(q) = push_planned(dirs, &env.program_files, &node_dir, true, Ghost(q));
    Ghost(q)
}

/// The planned search directories, realized.
pub fn search_dirs(env: &SearchEnv, windows: bool) -> (dirs: Vec<String>)
    ensures
        realizes(search_plan(*env, windows), texts(dirs@), windows),
{
    let home: Option<String> = match &env.home {
        Some(h) => Some(h.clone()),
        None => match &env.user_profile {
            Some(u) => Some(u.clone()),
            None => None,
        },
    };
    assert(home == home_of(*env));
    let mut dirs: Vec<String> = Vec::new();
    let Ghost(user) = push_user_dirs(&mut dirs, env, &home, windows);
    let ghost mut p = user;
    if windows {
        let Ghost(q) = push_windows_dirs(&mut dirs, env, Ghost(p));
        proof {
            p = q;
        }
    }
    let Ghost(q) = push_fixed_dirs(&mut dirs, windows, Ghost(p));
    assert(q =~= search_plan(*env, windows));
    dirs
}

/// A fixed directory realizes a plan entry with nothing to join.
proof fn lemma_fixed_dir(d: Seq<char>, windows: bool)
    ensures
        joined(d, Seq::empty(), d, windows),
{
}

/// Adds the fixed search directories `/usr/local/bin` and
/// `/opt/homebrew/bin`.
fn push_fixed_dirs(dirs: &mut Vec<String>, windows: bool, Ghost(plan): Ghost<Seq<DirPlan>>) -> (p: Ghost<
    Seq<DirPlan>,
>)
    requires
        realizes(plan, texts(old(dirs)@), windows),
    ensures
        p@ == plan + seq![("/usr/local/bin"@, Seq::empty()), ("/opt/homebrew/bin"@, Seq::empty())],
        realizes(p@, texts(final(dirs)@), windows),
{
    let usr_local = String::from_str("/usr/local/bin");
    let homebrew = String::from_str("/opt/homebrew/bin");
    proof {
        lemma_fixed_dir(usr_local@, windows);
        lemma_fixed_dir(homebrew@, windows);
        lemma_realizes_push(plan, texts(dirs@), (usr_local@, Seq::empty()), usr_local@, windows);
    }
    let ghost d0 = texts(dirs@);
    dirs.push(usr_local);
    assert(texts(dirs@) == d0.push(usr_local@));
    proof {
        lemma_realizes_push(
            plan.push((usr_local@, Seq::empty())),
            texts(dirs@),
            (homebrew@, Seq::empty()),
            homebrew@,
            windows,
        );
    }
    let ghost d1 = texts(dirs@);
    dirs.push(homebrew);
    assert(texts(dirs@) == d1.push(homebrew@));
    let ghost r = plan.push((usr_local@, Seq::empty())).push((homebrew@, Seq::empty()));
    assert(r =~= plan + seq![("/usr/local/bin"@, Seq::empty()), ("/opt/homebrew/bin"@, Seq::empty())]);
    Ghost(r)
}

/// The entries of the augmented `PATH`: the planned search directories (see
/// `search_plan`), followed by the entries of the current `PATH`, without
/// empty entries. Each directory under a base is the base with its
/// components joined on as `Path::join` does on the platform.
pub fn augmented_dirs(env: &SearchEnv, windows: bool) -> (r: Vec<String>)
    ensures
        exists|dirs: Seq<Seq<char>>|
            realizes(search_plan(*env, windows), dirs, windows) && texts(r@) == keep_nonempty(
                dirs + texts(env.path@),
            ),
{
    let mut dirs = search_dirs(env, windows);
    let ghost planned = texts(dirs@);
    let n = env.path.len();
    for i in 0..n
        invariant
            n == env.path@.len(),
            texts(dirs@) == planned + texts(env.path@.take(i as int)),
    {
        let d = env.path[i].clone();
        let ghost before = texts(dirs@);
        dirs.push(d);
        proof {
            assert(texts(dirs@) == before.push(d@));
            assert(texts(env.path@.take(i + 1)) == texts(env.path@.take(i as int)).push(d@));
            assert(planned + texts(env.path@.take(i + 1)) == (planned + texts(
                env.path@.take(i as int),
            )).push(d@));
        }
    }
    assert(env.path@.take(n as int) == env.path@);
    nonempty_entries(dirs.as_slice())
}

/// Builds the augmented `PATH`: its entries (see `augmented_dirs`) joined
/// with the platform's separator.
pub fn augmented_path(env: &SearchEnv, windows: bool) -> (r: String)
    ensures
        exists|dirs: Seq<Seq<char>>|
            realizes(search_plan(*env, windows), dirs, windows) && r@ == join_with(
                keep_nonempty(dirs + texts(env.path@)),
                path_sep_of(windows),
            ),
{
    let entries = augmented_dirs(env, windows);
    join(entries.as_slice(), path_sep(windows))
}

/// A shell whose rc file may extend `PATH`, with the rc file (relative to
/// the home directory) and the command that sources it and prints `PATH`.
pub struct RcShell {
    pub shell: &'static str,
    pub rc_file: &'static str,
    pub snippet: &'static str,
}

/// The shells tried for the user's `PATH`, in order: zsh, fish, bash.
pub open spec fn rc_shells_spec() -> Seq<(Seq<char>, Seq<char>, Seq<char>)> {
    seq![
        (
            "zsh"@,
            ".zshrc"@,
            "source \"$HOME/.zshrc\" 2>/dev/null; printf '%s' \"$PATH\""@,
        ),
        (
            "fish"@,
            ".config/fish/config.fish"@,
            "source \"$HOME/.config/fish/config.fish\" 2>/dev/null; string join : \"$PATH\""@,
        ),
        (
            "bash"@,
            ".bashrc"@,
            "source \"$HOME/.bashrc\" 2>/dev/null; printf '%s' \"$PATH\""@,
        ),
    ]
}

/// The view of a list of rc shells.
pub open spec fn rc_shell_texts(v: Seq<RcShell>) -> Seq<(Seq<char>, Seq<char>, Seq<char>)> {
    v.map_values(|r: RcShell| (r.shell@, r.rc_file@, r.snippet@))
}

/// The shells tried, in order, for the `PATH` that the user's rc file sets:
/// each sources its rc file and prints `PATH` (`:`-joined; fish's `PATH` is a
/// list and is joined explicitly).
pub fn rc_shells() -> (r: Vec<RcShell>)
    ensures
        rc_shell_texts(r@) == rc_shells_spec(),
        r@.len() == 3,
        r@[0].shell@ == "zsh"@ && r@[0].rc_file@ == ".zshrc"@,
        r@[1].shell@ == "fish"@ && r@[1].rc_file@ == ".config/fish/config.fish"@,
        r@[2].shell@ == "bash"@ && r@[2].rc_file@ == ".bashrc"@,
        forall|i: int|
            0 <= i < r@.len() ==> sources_rc(#[trigger] r@[i].snippet@, r@[i].rc_file@)
                && prints_path(r@[i].snippet@),
{
    let mut v: Vec<RcShell> = Vec::new();
    v.push(
        RcShell {
            shell: "zsh",
            rc_file: ".zshrc",
            snippet: "source \"$HOME/.zshrc\" 2>/dev/null; printf '%s' \"$PATH\"",
        },
    );
    v.push(
        RcShell {
            shell: "fish",
            rc_file: ".config/fish/config.fish",
            snippet: "source \"$HOME/.config/fish/config.fish\" 2>/dev/null; string join : \"$PATH\"",
        },
    );
    v.push(
        RcShell {
            shell: "bash",
            rc_file: ".bashrc",
            snippet: "source \"$HOME/.bashrc\" 2>/dev/null; printf '%s' \"$PATH\"",
        },
    );
    assert(rc_shell_texts(v@) =~= rc_shells_spec());
    proof {
        law_rc_snippets(0);
        law_rc_snippets(1);
        law_rc_snippets(2);
        assert(rc_shell_texts(v@)[0] == (v@[0].shell@, v@[0].rc_file@, v@[0].snippet@));
        assert(rc_shell_texts(v@)[1] == (v@[1].shell@, v@[1].rc_file@, v@[1].snippet@));
        assert(rc_shell_texts(v@)[2] == (v@[2].shell@, v@[2].rc_file@, v@[2].snippet@));
    }
    v
}

/// `snippet` starts by sourcing the file `rc` under the home directory.
pub open spec fn sources_rc(snippet: Seq<char>, rc: Seq<char>) -> bool {
    is_prefix("source \"$HOME/"@ + rc + "\""@, snippet)
}

/// `snippet` ends by printing `PATH` as one `:`-joined line.
pub open spec fn prints_path(snippet: Seq<char>) -> bool {
    let p1 = "printf '%s' \"$PATH\""@;
    let p2 = "string join : \"$PATH\""@;
    (snippet.len() >= p1.len() && snippet.skip(snippet.len() - p1.len()) == p1) || (snippet.len()
        >= p2.len() && snippet.skip(snippet.len() - p2.len()) == p2)
}

/// Each shell's snippet sources that shell's own rc file and then prints
/// `PATH`; the shells are zsh (`.zshrc`), fish (`.config/fish/config.fish`)
/// and bash (`.bashrc`), in that order.
pub proof fn law_rc_snippets(i: int)
    requires
        0 <= i < 3,
    ensures
        rc_shells_spec().len() == 3,
        rc_shells_spec()[0].0 == "zsh"@ && rc_shells_spec()[0].1 == ".zshrc"@,
        rc_shells_spec()[1].0 == "fish"@ && rc_shells_spec()[1].1 == ".config/fish/config.fish"@,
        rc_shells_spec()[2].0 == "bash"@ && rc_shells_spec()[2].1 == ".bashrc"@,
        sources_rc(rc_shells_spec()[i].2, rc_shells_spec()[i].1),
        prints_path(rc_shells_spec()[i].2),
{
    reveal_strlit("source \"$HOME/");
    reveal_strlit("\"");
    reveal_strlit("printf '%s' \"$PATH\"");
    reveal_strlit("string join : \"$PATH\"");
    reveal_strlit(".zshrc");
    reveal_strlit(".config/fish/config.fish");
    reveal_strlit(".bashrc");
    reveal_strlit("source \"$HOME/.zshrc\" 2>/dev/null; printf '%s' \"$PATH\"");
    reveal_strlit("source \"$HOME/.config/fish/config.fish\" 2>/dev/null; string join : \"$PATH\"");
    reveal_strlit("source \"$HOME/.bashrc\" 2>/dev/null; printf '%s' \"$PATH\"");
    let e = rc_shells_spec()[i];
    let pre = "source \"$HOME/"@ + e.1 + "\""@;
    assert(e.2.take(pre.len() as int) =~= pre);
    let p1 = "printf '%s' \"$PATH\""@;
    let p2 = "string join : \"$PATH\""@;
    if i == 1 {
        assert(e.2.skip(e.2.len() - p2.len()) =~= p2);
    } else {
        assert(e.2.skip(e.2.len() - p1.len()) =~= p1);
    }
}



/// `s` holds a character other than `sep`, so that splitting it at `sep`
/// leaves some non-empty entry.
pub open spec fn has_entry(s: Seq<char>, sep: char) -> bool {
    exists|i: int| 0 <= i < s.len() && s[i] != sep
}

/// What a shell's printed `PATH` is worth: the trimmed text, when it is not
/// empty and has at least one non-empty entry.
pub open spec fn rc_output_path(out: Seq<char>, sep: char) -> Option<Seq<char>> {
    let s = trim_ws(out);
    if s.len() > 0 && has_entry(s, sep) {
        Some(s)
    } else {
        None
    }
}

/// Accepts the `PATH` that a shell printed (its standard output as text):
/// trimmed, and only when it is not empty and some entry between the
/// separators `sep` is not empty.
pub fn accept_rc_output(out: &str, sep: char) -> (r: Option<String>)
    ensures
        match r {
            Some(s) => rc_output_path(out@, sep) == Some(s@),
            None => rc_output_path(out@, sep) is None,
        },
{
    let v = chars_of(out);
    let s = trim(v.as_slice());
    if s.len() == 0 {
        return None;
    }
    let n = s.len();
    for i in 0..n
        invariant
            n == s@.len(),
            n > 0,
            s@ == trim_ws(out@),
            forall|j: int| 0 <= j < i ==> s@[j] == sep,
    {
        if s[i] != sep {
            assert(s@[i as int] != sep);
            assert(has_entry(s@, sep));
            return Some(string_of(s.as_slice()));
        }
    }
    None
}

/// What one shell's attempt at the user's `PATH` gives: its accepted output
/// when its rc file exists and the shell ran and exited successfully;
/// otherwise nothing, and the next shell is tried.
pub fn rc_attempt(rc_file_exists: bool, ran_ok: bool, stdout: &str, sep: char) -> (r: Option<
    String,
>)
    ensures
        match r {
            Some(s) => rc_file_exists && ran_ok && rc_output_path(stdout@, sep) == Some(s@),
            None => !(rc_file_exists && ran_ok) || rc_output_path(stdout@, sep) is None,
        },
{
    if rc_file_exists && ran_ok {
        accept_rc_output(stdout, sep)
    } else {
        None
    }
}

/// The file names under which a spawnable `dsh` may be installed: on
/// Windows the npm shims that can be launched, in `PATHEXT`-like order
/// (`dsh.com`, `dsh.exe`, `dsh.bat`, `dsh.cmd`, `dsh.ps1`); elsewhere `dsh`.
pub open spec fn dsh_candidates_spec(windows: bool) -> Seq<Seq<char>> {
    if windows {
        seq!["dsh.com"@, "dsh.exe"@, "dsh.bat"@, "dsh.cmd"@, "dsh.ps1"@]
    } else {
        seq!["dsh"@]
    }
}

/// The file names under which a spawnable `dsh` is looked for on `PATH`.
/// The extensionless npm shim is no candidate on Windows, where it cannot be
/// launched.
pub fn dsh_candidates(windows: bool) -> (r: Vec<&'static str>)
    ensures
        slice_texts(r@) == dsh_candidates_spec(windows),
{
    let mut v: Vec<&'static str> = Vec::new();
    if windows {
        v.push("dsh.com");
        v.push("dsh.exe");
        v.push("dsh.bat");
        v.push("dsh.cmd");
        v.push("dsh.ps1");
    } else {
        v.push("dsh");
    }
    assert(slice_texts(v@) =~= dsh_candidates_spec(windows));
    v
}

/// The texts of an optional list of strings.
pub open spec fn opt_texts(o: Option<Vec<String>>) -> Option<Seq<Seq<char>>> {
    match o {
        Some(v) => Some(texts(v@)),
        None => None,
    }
}

/// The entries of the `PATH` that `dsh` is spawned with: the augmented
/// entries when `dsh` is found on them; otherwise, when the user's rc-file
/// `PATH` could be read, its entries combined with the augmented and the
/// current ones (see `combined_dirs`); otherwise the augmented entries.
pub open spec fn spawn_dirs(
    augmented: Seq<Seq<char>>,
    dsh_on_augmented: bool,
    rc: Option<Seq<Seq<char>>>,
    current: Seq<Seq<char>>,
) -> Seq<Seq<char>> {
    if dsh_on_augmented {
        augmented
    } else {
        match rc {
            Some(r) => combined_dirs(r, augmented, current),
            None => augmented,
        }
    }
}

/// The `PATH` that `dsh` is spawned with (see `spawn_dirs`), joined with
/// `sep`. `augmented` holds the augmented entries, `rc` the entries of the
/// rc-file `PATH` when it could be read, `current` those of the process's
/// own `PATH`.
pub fn spawn_path(
    augmented: &[String],
    dsh_on_augmented: bool,
    rc: Option<Vec<String>>,
    current: &[String],
    sep: &str,
) -> (r: String)
    ensures
        r@ == join_with(
            spawn_dirs(texts(augmented@), dsh_on_augmented, opt_texts(rc), texts(current@)),
            sep@,
        ),
{
    if dsh_on_augmented {
        join(augmented, sep)
    } else {
        match rc {
            Some(r) => combine_paths(r.as_slice(), augmented, current, sep),
            None => join(augmented, sep),
        }
    }
}

/// A program to launch, with its arguments.
pub struct LaunchPlan {
    pub program: String,
    pub args: Vec<String>,
}

/// The arguments that launch a PowerShell script shim of `dsh web`.
pub open spec fn powershell_args(program: Seq<char>) -> Seq<Seq<char>> {
    seq!["-NoProfile"@, "-ExecutionPolicy"@, "Bypass"@, "-File"@, program, "web"@]
}

/// How `dsh web` is launched from the resolved `program`: a PowerShell
/// script shim (`.ps1`, which cannot be spawned directly) runs through
/// `powershell.exe`; anything else is run with the argument `web`.
pub fn launch_plan(program: &str, powershell_script: bool) -> (r: LaunchPlan)
    ensures
        powershell_script ==> r.program@ == "powershell.exe"@ && texts(r.args@) == powershell_args(
            program@,
        ),
        !powershell_script ==> r.program@ == program@ && texts(r.args@) == seq!["web"@],
{
    let mut args: Vec<String> = Vec::new();
    if powershell_script {
        args.push(String::from_str("-NoProfile"));
        args.push(String::from_str("-ExecutionPolicy"));
        args.push(String::from_str("Bypass"));
        args.push(String::from_str("-File"));
        args.push(String::from_str(program));
        args.push(String::from_str("web"));
        assert(texts(args@) =~= powershell_args(program@));
        LaunchPlan { program: String::from_str("powershell.exe"), args }
    } else {
        args.push(String::from_str("web"));
        assert(texts(args@) =~= seq!["web"@]);
        LaunchPlan { program: String::from_str(program), args }
    }
}

/// The address `dsh web` serves on by default.
pub open spec fn default_url_spec() -> Seq<char> {
    "http://127.0.0.1:3080"@
}

/// The address `dsh web` serves on by default.
pub fn default_url() -> (r: &'static str)
    ensures
        r@ == default_url_spec(),
{
    "http://127.0.0.1:3080"
}

/// The backend status reported to the front end.
pub struct Status {
    /// A backend is running (or being started).
    pub running: bool,
    /// The client is (re)connecting: a launch is under way.
    pub reconnecting: bool,
    /// The address the backend serves on, when known.
    pub url: Option<String>,
    /// A human-readable explanation.
    pub detail: String,
}

/// The view of an optional string.
pub open spec fn opt_view(o: Option<String>) -> Option<Seq<char>> {
    match o {
        Some(s) => Some(s@),
        None => None,
    }
}

/// `st` has the given fields (strings by their text).
pub open spec fn status_is(
    st: Status,
    running: bool,
    reconnecting: bool,
    url: Option<Seq<char>>,
    detail: Seq<char>,
) -> bool {
    st.running == running && st.reconnecting == reconnecting && opt_view(st.url) == url
        && st.detail@ == detail
}

/// The status when a server already answers at `url`, so none is spawned.
pub fn existing_server_status(url: &str) -> (r: Status)
    ensures
        status_is(r, true, false, Some(url@), "existing server found at "@ + url@),
{
    Status {
        running: true,
        reconnecting: false,
        url: Some(String::from_str(url)),
        detail: String::from_str("existing server found at ").concat(url),
    }
}

/// The status while `dsh web` has been launched and its address is not known
/// yet.
pub fn starting_status() -> (r: Status)
    ensures
        status_is(r, true, true, None, "starting `dsh web`…"@),
{
    Status {
        running: true,
        reconnecting: true,
        url: None,
        detail: String::from_str("starting `dsh web`…"),
    }
}

/// The status when `dsh web` could not be launched; `error` describes why.
pub fn launch_failed_status(error: &str) -> (r: Status)
    ensures
        status_is(r, false, false, None, "failed to launch `dsh web`: "@ + error@),
{
    Status {
        running: false,
        reconnecting: false,
        url: None,
        detail: String::from_str("failed to launch `dsh web`: ").concat(error),
    }
}

/// What a line of `dsh web` output announces: the backend's URL and the
/// status to report (running, with the trimmed line as detail), when the line
/// names an `http://` address.
pub fn announced(line: &str) -> (r: Option<(String, Status)>)
    ensures
        match r {
            Some((u, st)) => url_in_line(line@) == Some(u@) && status_is(
                st,
                true,
                false,
                Some(u@),
                trim_ws(line@),
            ),
            None => url_in_line(line@) is None,
        },
{
    match parse_url_from_line(line) {
        Some(u) => {
            let detail = string_of(trim(chars_of(line).as_slice()).as_slice());
            let st = Status {
                running: true,
                reconnecting: false,
                url: Some(u.clone()),
                detail,
            };
            Some((u, st))
        },
        None => None,
    }
}

/// What happened while launching `dsh web`.
pub enum LaunchEvent {
    /// The default address was probed; `reachable` tells whether a server
    /// answered there.
    Probed { reachable: bool },
    /// `dsh web` was started.
    Spawned,
    /// `dsh web` could not be started; `error` says why.
    SpawnFailed { error: String },
    /// `dsh web` printed the line `text`.
    Line { text: String },
    /// The output of `dsh web` ended or could not be read.
    OutputEnded,
    /// `dsh web` was started without readable output.
    NoOutput,
}

/// What to do next while launching `dsh web`.
pub enum LaunchAction {
    /// Report `status`, then use the backend at `url`: show it, fetch its
    /// session titles, subscribe to its events and watch it. `remember`
    /// tells whether `url` is recorded as the launched backend's address.
    Connect { url: String, status: Status, remember: bool },
    /// Start `dsh web` (a launch is now under way).
    Spawn,
    /// Report `status` and read the output of `dsh web` line by line.
    ReadOutput { status: Status },
    /// Report `status`; the launch is over.
    Fail { status: Status },
    /// Read the next line.
    ReadOn,
    /// Stop reading.
    Stop,
    /// Watch the backend at `url` without connecting to it first.
    Watch { url: String },
}

/// The launch's next action after `event`: a server already answering at
/// the default address is used as it is, otherwise `dsh web` is started; a
/// started `dsh web` is reported as starting and its output read until a
/// line announces its address, which is then used and remembered; a failed
/// start is reported; without output the default address is watched.
pub fn launch_step(event: &LaunchEvent) -> (r: LaunchAction)
    ensures
        match event {
            LaunchEvent::Probed { reachable } => if *reachable {
                match r {
                    LaunchAction::Connect { url, status, remember } => url@ == default_url_spec()
                        && !remember && status_is(
                        status,
                        true,
                        false,
                        Some(default_url_spec()),
                        "existing server found at "@ + default_url_spec(),
                    ),
                    _ => false,
                }
            } else {
                r is Spawn
            },
            LaunchEvent::Spawned => match r {
                LaunchAction::ReadOutput { status } => status_is(
                    status,
                    true,
                    true,
                    None,
                    "starting `dsh web`…"@,
                ),
                _ => false,
            },
            LaunchEvent::SpawnFailed { error } => match r {
                LaunchAction::Fail { status } => status_is(
                    status,
                    false,
                    false,
                    None,
                    "failed to launch `dsh web`: "@ + error@,
                ),
                _ => false,
            },
            LaunchEvent::Line { text } => match url_in_line(text@) {
                Some(u) => match r {
                    LaunchAction::Connect { url, status, remember } => url@ == u && remember
                        && status_is(status, true, false, Some(u), trim_ws(text@)),
                    _ => false,
                },
                None => r is ReadOn,
            },
            LaunchEvent::OutputEnded => r is Stop,
            LaunchEvent::NoOutput => match r {
                LaunchAction::Watch { url } => url@ == default_url_spec(),
                _ => false,
            },
        },
{
    match event {
        LaunchEvent::Probed { reachable } => {
            if *reachable {
                let url = default_url();
                LaunchAction::Connect {
                    url: String::from_str(url),
                    status: existing_server_status(url),
                    remember: false,
                }
            } else {
                LaunchAction::Spawn
            }
        },
        LaunchEvent::Spawned => LaunchAction::ReadOutput { status: starting_status() },
        LaunchEvent::SpawnFailed { error } => LaunchAction::Fail {
            status: launch_failed_status(error.as_str()),
        },
        LaunchEvent::Line { text } => match announced(text.as_str()) {
            Some((u, st)) => LaunchAction::Connect { url: u, status: st, remember: true },
            None => LaunchAction::ReadOn,
        },
        LaunchEvent::OutputEnded => LaunchAction::Stop,
        LaunchEvent::NoOutput => LaunchAction::Watch { url: String::from_str(default_url()) },
    }
}

/// The status reported on request: running when the address is known or a
/// server answers at the default address; reconnecting while a launch is
/// under way.
pub fn current_status(url: Option<String>, spawning: bool, default_reachable: bool) -> (r: Status)
    ensures
        status_is(r, url is Some || default_reachable, spawning, opt_view(url), "status"@),
{
    let running = match &url {
        Some(_) => true,
        None => default_reachable,
    };
    Status { running, reconnecting: spawning, url, detail: String::from_str("status") }
}

/// What the backend watcher does after a probe.
#[derive(Debug, Clone, Copy, PartialEq, Eq, Structural)]
pub enum WatchAction {
    /// The backend came back: report it and show its UI again.
    Restored,
    /// The backend went away: forget its address, report it and show the
    /// local reconnect page.
    Lost,
    /// Nothing changed that needs handling.
    Unchanged,
}

/// The watcher's decision after probing: `up` is the probe's answer,
/// `was_up` the previous one, `loaded` whether the window has reached a
/// stable page that may be sent back to the reconnect page.
pub open spec fn watch_decision(was_up: bool, up: bool, loaded: bool) -> WatchAction {
    if up && !was_up {
        WatchAction::Restored
    } else if !up && was_up && loaded {
        WatchAction::Lost
    } else {
        WatchAction::Unchanged
    }
}

/// Decides what the backend watcher does after a probe.
pub fn watch_step(was_up: bool, up: bool, loaded: bool) -> (r: WatchAction)
    ensures
        r == watch_decision(was_up, up, loaded),
        (r == WatchAction::Restored) == (up && !was_up),
        (r == WatchAction::Lost) == (!up && was_up && loaded),
{
    if up && !was_up {
        WatchAction::Restored
    } else if !up && was_up && loaded {
        WatchAction::Lost
    } else {
        WatchAction::Unchanged
    }
}

/// The status reported when the backend at `url` answers again.
pub fn restored_status(url: &str) -> (r: Status)
    ensures
        status_is(r, true, false, Some(url@), "connection restored"@),
{
    Status {
        running: true,
        reconnecting: false,
        url: Some(String::from_str(url)),
        detail: String::from_str("connection restored"),
    }
}

/// The status reported when the backend stops answering.
pub fn lost_status() -> (r: Status)
    ensures
        status_is(r, false, false, None, "connection lost — reconnect to the backend"@),
{
    Status {
        running: false,
        reconnecting: false,
        url: None,
        detail: String::from_str("connection lost — reconnect to the backend"),
    }
}

/// Every entry of `dirs` is non-empty.
pub open spec fn all_nonempty(dirs: Seq<Seq<char>>) -> bool {
    forall|i: int| 0 <= i < dirs.len() ==> #[trigger] dirs[i].len() > 0
}

/// No entry of `dirs` occurs twice.
pub open spec fn no_repeats(dirs: Seq<Seq<char>>) -> bool {
    forall|i: int, j: int| 0 <= i < j < dirs.len() ==> dirs[i] != dirs[j]
}

/// Facts of `keep_nonempty`: it keeps exactly the non-empty entries.
proof fn lemma_keep_nonempty(dirs: Seq<Seq<char>>)
    ensures
        all_nonempty(keep_nonempty(dirs)),
        forall|i: int| 0 <= i < dirs.len() && dirs[i].len() > 0 ==> keep_nonempty(dirs).contains(
            #[trigger] dirs[i],
        ),
    decreases dirs.len(),
{
    if dirs.len() > 0 {
        let init = dirs.drop_last();
        lemma_keep_nonempty(init);
        let k = keep_nonempty(dirs);
        assert forall|i: int| 0 <= i < dirs.len() && dirs[i].len() > 0 implies k.contains(
            #[trigger] dirs[i],
        ) by {
            if i < dirs.len() - 1 {
                assert(init[i] == dirs[i]);
                let j = choose|j: int| 0 <= j < keep_nonempty(init).len() && keep_nonempty(init)[j]
                    == init[i];
                if dirs.last().len() > 0 {
                    assert(k[j] == keep_nonempty(init)[j]);
                }
            } else {
                assert(k[k.len() - 1] == dirs.last());
            }
        }
    }
}

/// Facts of `add_new_dirs`: what was listed stays listed, every non-empty
/// new entry ends up listed, no empty entry and no repeat is added.
proof fn lemma_add_new_dirs(acc: Seq<Seq<char>>, dirs: Seq<Seq<char>>)
    ensures
        forall|i: int| 0 <= i < acc.len() ==> add_new_dirs(acc, dirs)[i] == acc[i],
        acc.len() <= add_new_dirs(acc, dirs).len(),
        all_nonempty(acc) ==> all_nonempty(add_new_dirs(acc, dirs)),
        no_repeats(acc) ==> no_repeats(add_new_dirs(acc, dirs)),
        forall|i: int| 0 <= i < dirs.len() && dirs[i].len() > 0 ==> add_new_dirs(acc, dirs).contains(
            #[trigger] dirs[i],
        ),
    decreases dirs.len(),
{
    if dirs.len() > 0 {
        let init = dirs.drop_last();
        lemma_add_new_dirs(acc, init);
        let before = add_new_dirs(acc, init);
        let r = add_new_dirs(acc, dirs);
        let d = dirs.last();
        if d.len() > 0 && !before.contains(d) {
            assert(r == before.push(d));
            if no_repeats(before) {
                assert forall|i: int, j: int| 0 <= i < j < r.len() implies r[i] != r[j] by {
                    if j == r.len() - 1 {
                        assert(r[i] == before[i]);
                    }
                }
            }
        }
        assert forall|i: int| 0 <= i < dirs.len() && dirs[i].len() > 0 implies r.contains(
            #[trigger] dirs[i],
        ) by {
            if i < dirs.len() - 1 {
                assert(init[i] == dirs[i]);
                let j = choose|j: int| 0 <= j < before.len() && before[j] == init[i];
                assert(r[j] == before[j]);
            } else if before.contains(d) {
                let j = choose|j: int| 0 <= j < before.len() && before[j] == d;
                assert(r[j] == before[j]);
            } else {
                assert(r[r.len() - 1] == d);
            }
        }
    }
}

/// Combining `PATH`s drops every empty entry, keeps every non-empty entry of
/// each of the three lists, and adds no entry twice (so the result repeats
/// nothing when the rc-file `PATH` does not).
pub proof fn law_combined_dirs(rc: Seq<Seq<char>>, augmented: Seq<Seq<char>>, current: Seq<Seq<char>>)
    ensures
        all_nonempty(combined_dirs(rc, augmented, current)),
        forall|i: int| 0 <= i < rc.len() && rc[i].len() > 0 ==> combined_dirs(
            rc,
            augmented,
            current,
        ).contains(#[trigger] rc[i]),
        forall|i: int| 0 <= i < augmented.len() && augmented[i].len() > 0 ==> combined_dirs(
            rc,
            augmented,
            current,
        ).contains(#[trigger] augmented[i]),
        forall|i: int| 0 <= i < current.len() && current[i].len() > 0 ==> combined_dirs(
            rc,
            augmented,
            current,
        ).contains(#[trigger] current[i]),
        no_repeats(keep_nonempty(rc)) ==> no_repeats(combined_dirs(rc, augmented, current)),
{
    let k = keep_nonempty(rc);
    lemma_keep_nonempty(rc);
    lemma_add_new_dirs(k, augmented);
    let m = add_new_dirs(k, augmented);
    lemma_add_new_dirs(m, current);
    let c = combined_dirs(rc, augmented, current);
    assert forall|i: int| 0 <= i < rc.len() && rc[i].len() > 0 implies c.contains(
        #[trigger] rc[i],
    ) by {
        let j = choose|j: int| 0 <= j < k.len() && k[j] == rc[i];
        assert(m[j] == k[j]);
        assert(c[j] == m[j]);
    }
    assert forall|i: int| 0 <= i < augmented.len() && augmented[i].len() > 0 implies c.contains(
        #[trigger] augmented[i],
    ) by {
        let j = choose|j: int| 0 <= j < m.len() && m[j] == augmented[i];
        assert(c[j] == m[j]);
    }
}

/// A joined list ends with its last part.
proof fn lemma_join_ends_with_last(parts: Seq<Seq<char>>, sep: Seq<char>)
    requires
        parts.len() > 0,
    ensures
        join_with(parts, sep).len() >= parts.last().len(),
{
}

/// The augmented `PATH` is never empty and has no empty entry: it always
/// lists the fixed directories `/usr/local/bin` and `/opt/homebrew/bin`.
pub proof fn law_augmented_path_nonempty(env: SearchEnv, windows: bool, dirs: Seq<Seq<char>>)
    requires
        realizes(search_plan(env, windows), dirs, windows),
    ensures
        join_with(keep_nonempty(dirs + texts(env.path@)), path_sep_of(windows)).len() > 0,
        all_nonempty(keep_nonempty(dirs + texts(env.path@))),
        keep_nonempty(dirs + texts(env.path@)).contains("/usr/local/bin"@),
        keep_nonempty(dirs + texts(env.path@)).contains("/opt/homebrew/bin"@),
{
    let plan = search_plan(env, windows);
    let n = plan.len();
    reveal_strlit("/usr/local/bin");
    reveal_strlit("/opt/homebrew/bin");
    assert(plan[n - 1] == ("/opt/homebrew/bin"@, Seq::<Seq<char>>::empty()));
    assert(plan[n - 2] == ("/usr/local/bin"@, Seq::<Seq<char>>::empty()));
    assert(joined(plan[n - 1].0, plan[n - 1].1, dirs[n - 1], windows));
    assert(joined(plan[n - 2].0, plan[n - 2].1, dirs[n - 2], windows));
    assert(!is_verbatim_like("/opt/homebrew/bin"@));
    assert(!is_verbatim_like("/usr/local/bin"@));
    let all = dirs + texts(env.path@);
    assert(all[n - 1] == dirs[n - 1]);
    assert(all[n - 2] == dirs[n - 2]);
    lemma_keep_nonempty(all);
    let k = keep_nonempty(all);
    assert(k.contains(all[n - 1]));
    assert(k.contains(all[n - 2]));
    assert(k.len() > 0);
    assert(k.last().len() > 0);
    lemma_join_ends_with_last(k, path_sep_of(windows));
}

/// The `PATH` that `dsh` is spawned with, built from the augmented entries,
/// is never empty and has no empty entry, whether `dsh` was found on the
/// augmented `PATH` and whatever the rc-file and current `PATH`s hold.
pub proof fn law_spawn_path_entries(
    env: SearchEnv,
    windows: bool,
    dirs: Seq<Seq<char>>,
    dsh_on_augmented: bool,
    rc: Option<Seq<Seq<char>>>,
    current: Seq<Seq<char>>,
    sep: Seq<char>,
)
    requires
        realizes(search_plan(env, windows), dirs, windows),
    ensures
        all_nonempty(
            spawn_dirs(keep_nonempty(dirs + texts(env.path@)), dsh_on_augmented, rc, current),
        ),
        spawn_dirs(keep_nonempty(dirs + texts(env.path@)), dsh_on_augmented, rc, current).len() > 0,
        join_with(
            spawn_dirs(keep_nonempty(dirs + texts(env.path@)), dsh_on_augmented, rc, current),
            sep,
        ).len() > 0,
{
    let aug = keep_nonempty(dirs + texts(env.path@));
    law_augmented_path_nonempty(env, windows, dirs);
    let s = spawn_dirs(aug, dsh_on_augmented, rc, current);
    if !dsh_on_augmented && rc is Some {
        let r = rc.unwrap();
        law_combined_dirs(r, aug, current);
        let i = choose|i: int| 0 <= i < aug.len() && aug[i] == "/usr/local/bin"@;
        assert(aug[i].len() > 0);
        assert(s.contains(aug[i]));
    }
    assert(s.len() > 0);
    assert(s.last().len() > 0);
    lemma_join_ends_with_last(s, sep);
}

/// Joining two components onto a Unix base that needs a separator puts a `/`
/// in front of each.
proof fn lemma_unix_join_two(h: Seq<char>, c1: Seq<char>, c2: Seq<char>)
    requires
        h.len() > 0,
        h.last() != '/',
        c1.len() > 0,
        c1.last() != '/',
    ensures
        join_all_spec(h, seq![c1, c2], false) == h + seq!['/'] + c1 + seq!['/'] + c2,
{
    let cs = seq![c1, c2];
    assert(cs.drop_last() == seq![c1]);
    assert(seq![c1].drop_last() == Seq::<Seq<char>>::empty());
    assert(join_all_spec(h, Seq::empty(), false) == h);
    assert(join_all_spec(h, seq![c1], false) == h + seq!['/'] + c1);
    let m = h + seq!['/'] + c1;
    assert(m.last() == c1.last());
    assert(join_all_spec(h, cs, false) == path_join(m, c2, false));
}

/// On Unix, with a home directory `h` that is not empty and does not end in
/// `/`, the augmented `PATH` lists `h/.npm-global/bin` and `h/Library/pnpm`.
#[verifier::spinoff_prover]
#[verifier::rlimit(30)]
pub proof fn law_augmented_covers_npm_pnpm(env: SearchEnv, dirs: Seq<Seq<char>>)
    requires
        home_of(env) is Some,
        home_of(env).unwrap()@.len() > 0,
        home_of(env).unwrap()@.last() != '/',
        realizes(search_plan(env, false), dirs, false),
    ensures
        keep_nonempty(dirs + texts(env.path@)).contains(home_of(env).unwrap()@ + "/.npm-global/bin"@),
        keep_nonempty(dirs + texts(env.path@)).contains(home_of(env).unwrap()@ + "/Library/pnpm"@),
{
    let h = home_of(env).unwrap()@;
    let plan = search_plan(env, false);
    reveal_strlit(".npm-global");
    reveal_strlit("bin");
    reveal_strlit("Library");
    reveal_strlit("pnpm");
    reveal_strlit("/.npm-global/bin");
    reveal_strlit("/Library/pnpm");
    let k: int = if env.dsh_bin_dir is Some { 1 } else { 0 };
    let m: int = k + 4 + if env.pnpm_home is Some { 1int } else { 0int };
    assert(plan[k] == (h, seq![".npm-global"@, "bin"@]));
    assert(plan[m] == (h, seq!["Library"@, "pnpm"@]));
    assert(joined(plan[k].0, plan[k].1, dirs[k], false));
    assert(joined(plan[m].0, plan[m].1, dirs[m], false));
    lemma_unix_join_two(h, ".npm-global"@, "bin"@);
    lemma_unix_join_two(h, "Library"@, "pnpm"@);
    assert(dirs[k] =~= h + "/.npm-global/bin"@);
    assert(dirs[m] =~= h + "/Library/pnpm"@);
    let all = dirs + texts(env.path@);
    assert(all[k] == dirs[k]);
    assert(all[m] == dirs[m]);
    lemma_keep_nonempty(all);
}

/// Stripping a leading `q` that `y` does not start with again leaves `y`.
proof fn lemma_strip_scheme(q: Seq<char>, y: Seq<char>)
    requires
        q.len() > 0,
        !is_prefix(q, y),
    ensures
        strip_repeated(q + y, q) == y,
{
    assert((q + y).take(q.len() as int) =~= q);
    assert((q + y).skip(q.len() as int) =~= y);
    assert(strip_repeated(y, q) == y);
    assert(strip_repeated(q + y, q) == strip_repeated((q + y).skip(q.len() as int), q));
}

/// Text without a `/` starts with neither scheme.
proof fn lemma_no_slash_no_scheme(x: Seq<char>)
    requires
        !has_char(x, '/'),
    ensures
        !is_prefix("http://"@, x),
        !is_prefix("https://"@, x),
{
    reveal_strlit("http://");
    reveal_strlit("https://");
    if is_prefix("http://"@, x) {
        assert(x.take(7)[5] == x[5]);
        assert(x[5] == '/');
    }
    if is_prefix("https://"@, x) {
        assert(x.take(8)[6] == x[6]);
        assert(x[6] == '/');
    }
}

/// The first segment of text without a `/` is all of it, also when a `/`
/// and a path follow.
proof fn lemma_no_slash_segment(x: Seq<char>, p: Seq<char>)
    requires
        !has_char(x, '/'),
    ensures
        first_segment(x) == x,
        first_segment(x + seq!['/'] + p) == x,
{
    if has_occurrence(x, seq!['/']) {
        let i = choose|i: int| occurs_at(x, seq!['/'], i);
        assert(x.subrange(i, i + 1)[0] == x[i]);
    }
    let y = x + seq!['/'] + p;
    let n = x.len() as int;
    assert(y.subrange(n, n + 1) =~= seq!['/']);
    assert forall|j: int| 0 <= j < n implies !occurs_at(y, seq!['/'], j) by {
        if occurs_at(y, seq!['/'], j) {
            assert(y.subrange(j, j + 1)[0] == y[j]);
            assert(y[j] == x[j]);
        }
    }
    lemma_first_occurrence_unique(y, seq!['/'], n);
    assert(y.take(n) =~= x);
}

/// The address probed for a backend URL does not depend on its scheme or
/// path: `http://` or `https://` before a host (and port) `x`, and a path
/// after it, dial what `x` alone dials.
pub proof fn law_probe_ignores_scheme_and_path(x: Seq<char>, p: Seq<char>)
    requires
        !has_char(x, '/'),
        !is_prefix("http://"@, x + seq!['/'] + p),
        !is_prefix("https://"@, x + seq!['/'] + p),
    ensures
        probe_address("http://"@ + x) == probe_address(x),
        probe_address("https://"@ + x) == probe_address(x),
        probe_address(x + seq!['/'] + p) == probe_address(x),
        probe_address("http://"@ + (x + seq!['/'] + p)) == probe_address(x),
        probe_address("https://"@ + (x + seq!['/'] + p)) == probe_address(x),
{
    let http = "http://"@;
    let https = "https://"@;
    reveal_strlit("http://");
    reveal_strlit("https://");
    let y = x + seq!['/'] + p;
    lemma_no_slash_no_scheme(x);
    lemma_no_slash_segment(x, p);
    assert(host_port_of(x) == x);
    assert(host_port_of(y) == x);
    lemma_strip_scheme(http, x);
    lemma_strip_scheme(http, y);
    lemma_strip_scheme(https, x);
    lemma_strip_scheme(https, y);
    assert(!is_prefix(http, https + x)) by {
        assert((https + x).take(7)[4] == https[4]);
    }
    assert(!is_prefix(http, https + y)) by {
        assert((https + y).take(7)[4] == https[4]);
    }
    assert(host_port_of(http + x) == x);
    assert(host_port_of(http + y) == x);
    assert(host_port_of(https + x) == x);
    assert(host_port_of(https + y) == x);
}

/// A backend URL that names no port is probed on port 3080.
pub proof fn law_probe_default_port(x: Seq<char>)
    requires
        !has_char(x, '/'),
        !has_char(x, ':'),
    ensures
        probe_address(x) == x + ":3080"@,
{
    lemma_no_slash_no_scheme(x);
    lemma_no_slash_segment(x, Seq::empty());
    assert(host_port_of(x) == x);
}

/// The watcher restores the UI whenever a probe answers after one that did
/// not, whether or not the window has loaded; it drops to the reconnect
/// page only when a probe fails after one that answered and the window has
/// loaded; in every other case nothing changes.
pub proof fn law_watch_decisions(was_up: bool, up: bool, loaded: bool)
    ensures
        up && !was_up ==> watch_decision(was_up, up, loaded) == WatchAction::Restored,
        watch_decision(was_up, up, loaded) == WatchAction::Lost <==> (!up && was_up && loaded),
        up == was_up ==> watch_decision(was_up, up, loaded) == WatchAction::Unchanged,
        watch_decision(was_up, up, true) == WatchAction::Restored <==> watch_decision(
            was_up,
            up,
            false,
        ) == WatchAction::Restored,
{
}

/// Cutting closing characters off the end leaves no white space and none of
/// `)`, `]`, `}`, `.` at the end.
proof fn lemma_trim_url_tail_end(s: Seq<char>)
    ensures
        trim_url_tail(s).len() > 0 ==> {
            let c = trim_url_tail(s).last();
            !(is_ws(c) || c == ')' || c == ']' || c == '}' || c == '.')
        },
        is_prefix(trim_url_tail(s), s),
        forall|j: int|
            trim_url_tail(s).len() <= j < s.len() ==> {
                let c = #[trigger] s[j];
                is_ws(c) || c == ')' || c == ']' || c == '}' || c == '.'
            },
    decreases s.len(),
{
    if s.len() > 0 && is_url_tail(s.last()) {
        lemma_trim_url_tail_end(s.drop_last());
        let r = trim_url_tail(s.drop_last());
        assert(s.take(r.len() as int) =~= s.drop_last().take(r.len() as int));
        assert forall|j: int| r.len() <= j < s.len() implies {
            let c = #[trigger] s[j];
            is_ws(c) || c == ')' || c == ']' || c == '}' || c == '.'
        } by {
            if j < s.len() - 1 {
                assert(s[j] == s.drop_last()[j]);
            }
        }
    } else {
        assert(s.take(s.len() as int) =~= s);
    }
}

/// `rest` ends at `e` or has white space there.
pub open spec fn stops_at(rest: Seq<char>, e: int) -> bool {
    e == rest.len() || is_ws(rest[e])
}

/// In `rest`, from position `n` on, only `)`, `]`, `}` and `.` come before
/// the next white space (or the end), and nothing before that is white
/// space.
pub open spec fn closers_then_ws(rest: Seq<char>, n: int) -> bool {
    exists|e: int|
        n <= e <= rest.len() && #[trigger] stops_at(rest, e) && (forall|j: int|
            0 <= j < e ==> !is_ws(#[trigger] rest[j])) && (forall|j: int|
            n <= j < e ==> {
                let c = #[trigger] rest[j];
                c == ')' || c == ']' || c == '}' || c == '.'
            })
}

/// The URL announced by a line starts where the line's first `http://`
/// starts and never ends in white space or in any of `)`, `]`, `}`, `.`; it
/// holds no white space, and what follows it up to the next white space (or
/// the end of the line) is only `)`, `]`, `}` and `.`.
#[verifier::spinoff_prover]
pub proof fn law_announced_url_end(line: Seq<char>)
    ensures
        url_in_line(line) matches Some(u) ==> u.len() > 0 && !(is_ws(u.last()) || u.last() == ')'
            || u.last() == ']' || u.last() == '}' || u.last() == '.'),
        url_in_line(line) matches Some(u) ==> is_prefix(
            u,
            line.skip(first_occurrence(line, "http://"@)),
        ),
        url_in_line(line) matches Some(u) ==> closers_then_ws(
            line.skip(first_occurrence(line, "http://"@)),
            u.len() as int,
        ),
{
    if has_occurrence(line, "http://"@) {
        let rest = line.skip(first_occurrence(line, "http://"@));
        law_announced_url_has_scheme(line);
        reveal_strlit("http://");
        let w = until_ws(rest);
        let u = trim_url_tail(w);
        lemma_trim_url_tail_end(w);
        lemma_until_ws_is_prefix(rest);
        assert(rest.take(u.len() as int) =~= rest.take(w.len() as int).take(u.len() as int));
        let e = w.len() as int;
        assert forall|j: int| u.len() <= j < e implies {
            let c = #[trigger] rest[j];
            c == ')' || c == ']' || c == '}' || c == '.'
        } by {
            assert(w[j] == rest[j]);
            assert(!is_ws(rest[j]));
        }
        if e < rest.len() {
            assert(is_ws(rest[e]));
        }
        assert(forall|j: int| 0 <= j < e ==> !is_ws(#[trigger] rest[j]));
        assert(u.len() <= e <= rest.len());
        assert(e == rest.len() || is_ws(rest[e]));
        assert(url_in_line(line) == Some(u));
        assert(u.len() <= e <= rest.len() && stops_at(rest, e) && (forall|j: int|
            0 <= j < e ==> !is_ws(#[trigger] rest[j])) && (forall|j: int|
            u.len() <= j < e ==> {
                let c = #[trigger] rest[j];
                c == ')' || c == ']' || c == '}' || c == '.'
            }));
        assert(closers_then_ws(rest, u.len() as int));
    }
}

/// The text up to the first white space is a prefix.
proof fn lemma_until_ws_is_prefix(s: Seq<char>)
    ensures
        is_prefix(until_ws(s), s),
        forall|j: int| 0 <= j < until_ws(s).len() ==> !is_ws(#[trigger] s[j]),
        until_ws(s).len() == s.len() || is_ws(s[until_ws(s).len() as int]),
    decreases s.len(),
{
    if s.len() > 0 && !is_ws(s[0]) {
        lemma_until_ws_is_prefix(s.drop_first());
        let r = until_ws(s.drop_first());
        assert(until_ws(s) == seq![s[0]] + r);
        assert(s.take((r.len() + 1) as int) =~= seq![s[0]] + s.drop_first().take(r.len() as int));
        assert forall|j: int| 0 <= j < until_ws(s).len() implies !is_ws(#[trigger] s[j]) by {
            if j > 0 {
                assert(s[j] == s.drop_first()[j - 1]);
            }
        }
        if r.len() < s.len() - 1 {
            assert(s[(r.len() + 1) as int] == s.drop_first()[r.len() as int]);
        }
    } else {
        assert(until_ws(s) == Seq::<char>::empty());
        assert(s.take(0) =~= Seq::<char>::empty());
    }
}

} // verus!
