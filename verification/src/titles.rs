//! Session titles for the window title bar.
//!
//! A `session/subscribed` frame only carries a session id. To show a
//! human-readable name, the titles of all sessions are fetched from the
//! backend's `session.list` call (`projections.values.title` of each row) and
//! cached by session id; the window shows the cached title when there is a
//! non-empty one, and the short session id otherwise.
use vstd::prelude::*;

use crate::i18n::{fill, get_fmt, message, Lang};
use crate::notify::{opt_string, short, short_id};
use crate::text::{text_eq, texts};

verus! {

/// A session listed by the backend: its id and its projected values, each
/// value given as its text when it is a JSON string.
pub struct SessionRow {
    pub session_id: String,
    pub values: Option<Vec<(String, Option<String>)>>,
}

/// The text of the `title` value among `values` (the first entry named
/// `title`), when that value is a string.
pub open spec fn title_in(values: Seq<(Seq<char>, Option<Seq<char>>)>) -> Option<Seq<char>>
    decreases values.len(),
{
    if values.len() == 0 {
        None
    } else if values[0].0 == "title"@ {
        values[0].1
    } else {
        title_in(values.drop_first())
    }
}

/// The view of a list of named values.
pub open spec fn value_texts(v: Seq<(String, Option<String>)>) -> Seq<(Seq<char>, Option<Seq<char>>)> {
    v.map_values(|e: (String, Option<String>)| (e.0@, opt_string(e.1)))
}

/// The title a session row carries: the string `title` value of its
/// projections, if any.
pub open spec fn row_title_of(values: Option<Vec<(String, Option<String>)>>) -> Option<Seq<char>> {
    match values {
        Some(v) => title_in(value_texts(v@)),
        None => None,
    }
}

/// The title a session row carries, if any.
pub fn row_title(row: &SessionRow) -> (r: Option<String>)
    ensures
        opt_string(r) == row_title_of(row.values),
{
    match &row.values {
        None => None,
        Some(vals) => {
            let n = vals.len();
            let ghost all = value_texts(vals@);
            assert(all.skip(0) == all);
            for i in 0..n
                invariant
                    n == vals@.len(),
                    all == value_texts(vals@),
                    row_title_of(row.values) == title_in(all),
                    title_in(all) == title_in(all.skip(i as int)),
            {
                proof {
                    assert(all.skip(i as int).drop_first() == all.skip(i + 1));
                    assert(all.skip(i as int)[0] == all[i as int]);
                }
                if text_eq(vals[i].0.as_str(), "title") {
                    assert(all[i as int] == (vals@[i as int].0@, opt_string(vals@[i as int].1)));
                    return match &vals[i].1 {
                        Some(t) => Some(t.clone()),
                        None => None,
                    };
                }
            }
            None
        },
    }
}

/// The cache of session titles and the backend address they are fetched
/// from.
pub struct Titles {
    base_url: Option<String>,
    by_session: Vec<(String, Option<String>)>,
}

/// What the cache holds: the backend address, and for each known session id
/// its title (none when the session has no title).
pub struct TitlesView {
    pub base_url: Option<Seq<char>>,
    pub titles: Map<Seq<char>, Option<Seq<char>>>,
}

/// The view of the cache's entries.
pub open spec fn entry_texts(v: Seq<(String, Option<String>)>) -> Seq<(Seq<char>, Option<Seq<char>>)> {
    v.map_values(|e: (String, Option<String>)| (e.0@, opt_string(e.1)))
}

/// No two entries have the same key.
pub open spec fn keys_distinct(e: Seq<(Seq<char>, Option<Seq<char>>)>) -> bool {
    forall|i: int, j: int| 0 <= i < e.len() && 0 <= j < e.len() && i != j ==> e[i].0 != e[j].0
}

/// `k` is the key of some entry.
pub open spec fn has_key(e: Seq<(Seq<char>, Option<Seq<char>>)>, k: Seq<char>) -> bool {
    exists|i: int| 0 <= i < e.len() && e[i].0 == k
}

/// The map that a list of entries with distinct keys stands for.
pub open spec fn entries_map(e: Seq<(Seq<char>, Option<Seq<char>>)>) -> Map<
    Seq<char>,
    Option<Seq<char>>,
> {
    Map::new(
        |k: Seq<char>| has_key(e, k),
        |k: Seq<char>| e[choose|i: int| 0 <= i < e.len() && e[i].0 == k].1,
    )
}

impl View for Titles {
    type V = TitlesView;

    closed spec fn view(&self) -> TitlesView {
        TitlesView {
            base_url: opt_string(self.base_url),
            titles: entries_map(entry_texts(self.by_session@)),
        }
    }
}

/// Replacing the value of an existing key updates the map at that key.
proof fn lemma_map_update(e: Seq<(Seq<char>, Option<Seq<char>>)>, i: int, v: Option<Seq<char>>)
    requires
        keys_distinct(e),
        0 <= i < e.len(),
    ensures
        keys_distinct(e.update(i, (e[i].0, v))),
        entries_map(e.update(i, (e[i].0, v))) == entries_map(e).insert(e[i].0, v),
{
    let e2 = e.update(i, (e[i].0, v));
    assert forall|k: Seq<char>| has_key(e2, k) == has_key(e, k) by {
        if has_key(e, k) {
            let j = choose|j: int| 0 <= j < e.len() && e[j].0 == k;
            assert(e2[j].0 == k);
        }
        if has_key(e2, k) {
            let j = choose|j: int| 0 <= j < e2.len() && e2[j].0 == k;
            assert(e[j].0 == k);
        }
    }
    assert forall|k: Seq<char>| #[trigger] entries_map(e2).dom().contains(k) implies entries_map(
        e2,
    )[k] == entries_map(e).insert(e[i].0, v)[k] by {
        let j2 = choose|j: int| 0 <= j < e2.len() && e2[j].0 == k;
        let j1 = choose|j: int| 0 <= j < e.len() && e[j].0 == k;
        assert(e[j2].0 == k);
        assert(j1 == j2);
    }
    assert(entries_map(e2) =~= entries_map(e).insert(e[i].0, v));
}

/// Adding an entry with a new key adds it to the map.
proof fn lemma_map_push(e: Seq<(Seq<char>, Option<Seq<char>>)>, k: Seq<char>, v: Option<Seq<char>>)
    requires
        keys_distinct(e),
        !has_key(e, k),
    ensures
        keys_distinct(e.push((k, v))),
        entries_map(e.push((k, v))) == entries_map(e).insert(k, v),
{
    let e2 = e.push((k, v));
    assert forall|a: int, b: int|
        0 <= a < e2.len() && 0 <= b < e2.len() && a != b implies e2[a].0 != e2[b].0 by {
        if a < e.len() && b < e.len() {
            assert(e2[a] == e[a] && e2[b] == e[b]);
        } else if a < e.len() {
            assert(e2[a] == e[a]);
        } else {
            assert(e2[b] == e[b]);
        }
    }
    assert forall|x: Seq<char>| has_key(e2, x) == (has_key(e, x) || x == k) by {
        if has_key(e, x) {
            let j = choose|j: int| 0 <= j < e.len() && e[j].0 == x;
            assert(e2[j].0 == x);
        }
        if x == k {
            assert(e2[e.len() as int].0 == x);
        }
        if has_key(e2, x) && x != k {
            let j = choose|j: int| 0 <= j < e2.len() && e2[j].0 == x;
            assert(e[j].0 == x);
        }
    }
    assert forall|x: Seq<char>| #[trigger] entries_map(e2).dom().contains(x) implies entries_map(
        e2,
    )[x] == entries_map(e).insert(k, v)[x] by {
        let j2 = choose|j: int| 0 <= j < e2.len() && e2[j].0 == x;
        if x == k {
            assert(j2 == e.len());
        } else {
            let j1 = choose|j: int| 0 <= j < e.len() && e[j].0 == x;
            assert(e2[j1].0 == x);
            assert(j1 == j2);
        }
    }
    assert(entries_map(e2) =~= entries_map(e).insert(k, v));
}

impl Titles {
    /// The cache is well formed: each session id occurs once.
    #[verifier::type_invariant]
    spec fn wf(self) -> bool {
        keys_distinct(entry_texts(self.by_session@))
    }

    /// An empty cache with no backend address.
    pub fn new() -> (r: Titles)
        ensures
            r@.base_url is None,
            r@.titles == Map::<Seq<char>, Option<Seq<char>>>::empty(),
    {
        let r = Titles { base_url: None, by_session: Vec::new() };
        assert(entries_map(entry_texts(r.by_session@)) =~= Map::<
            Seq<char>,
            Option<Seq<char>>,
        >::empty());
        r
    }

    /// Remembers the backend base URL.
    pub fn set_base(&mut self, base_url: String)
        ensures
            final(self)@.base_url == Some(base_url@),
            final(self)@.titles == old(self)@.titles,
    {
        proof {
            use_type_invariant(&*self);
        }
        self.base_url = Some(base_url);
    }

    /// The URL of the backend's `session.list` call, once the backend base
    /// URL is known.
    pub fn session_list_url(&self) -> (r: Option<String>)
        ensures
            opt_string(r) == match self@.base_url {
                Some(b) => Some(b + "/api/session.list"@),
                None => None,
            },
    {
        match &self.base_url {
            Some(b) => Some(b.clone().concat("/api/session.list")),
            None => None,
        }
    }

    /// The position of the entry for `session_id`, if any.
    fn position(&self, session_id: &str) -> (r: Option<usize>)
        ensures
            match r {
                Some(i) => i < self.by_session@.len() && self.by_session@[i as int].0@
                    == session_id@,
                None => !has_key(entry_texts(self.by_session@), session_id@),
            },
    {
        let n = self.by_session.len();
        for i in 0..n
            invariant
                n == self.by_session@.len(),
                forall|j: int| 0 <= j < i ==> self.by_session@[j].0@ != session_id@,
        {
            if text_eq(self.by_session[i].0.as_str(), session_id) {
                return Some(i);
            }
        }
        proof {
            let e = entry_texts(self.by_session@);
            if has_key(e, session_id@) {
                let j = choose|j: int| 0 <= j < e.len() && e[j].0 == session_id@;
                assert(self.by_session@[j].0@ == session_id@);
            }
        }
        None
    }

    /// Records the title of a session (none when it has no title), replacing
    /// what was known of it.
    pub fn record(&mut self, session_id: String, title: Option<String>)
        ensures
            final(self)@.base_url == old(self)@.base_url,
            final(self)@.titles == old(self)@.titles.insert(session_id@, opt_string(title)),
    {
        proof {
            use_type_invariant(&*self);
        }
        let ghost e = entry_texts(self.by_session@);
        let pos = self.position(session_id.as_str());
        let mut entries: Vec<(String, Option<String>)> = Vec::new();
        std::mem::swap(&mut entries, &mut self.by_session);
        match pos {
            Some(i) => {
                proof {
                    lemma_map_update(e, i as int, opt_string(title));
                }
                entries.set(i, (session_id, title));
                assert(entry_texts(entries@) =~= e.update(i as int, (e[i as int].0, opt_string(title))));
            },
            None => {
                proof {
                    lemma_map_push(e, session_id@, opt_string(title));
                }
                entries.push((session_id, title));
                assert(entry_texts(entries@) =~= e.push((session_id@, opt_string(title))));
            },
        }
        self.by_session = entries;
    }

    /// Whether the cache knows `session_id` (with or without a title).
    pub fn is_known(&self, session_id: &str) -> (r: bool)
        ensures
            r == self@.titles.dom().contains(session_id@),
    {
        match self.position(session_id) {
            Some(i) => {
                assert(entry_texts(self.by_session@)[i as int].0 == session_id@);
                true
            },
            None => false,
        }
    }

    /// The cached title of `session_id`, when it is known, has a title, and
    /// that title is not empty.
    pub fn cached_title(&self, session_id: &str) -> (r: Option<String>)
        ensures
            opt_string(r) == cached_title_of(self@.titles, session_id@),
    {
        proof {
            use_type_invariant(self);
        }
        match self.position(session_id) {
            Some(i) => {
                proof {
                    let e = entry_texts(self.by_session@);
                    assert(e[i as int].0 == session_id@);
                    let j = choose|j: int| 0 <= j < e.len() && e[j].0 == session_id@;
                    assert(j == i);
                }
                match &self.by_session[i].1 {
                    Some(t) => {
                        if !t.as_str().is_empty() {
                            Some(t.clone())
                        } else {
                            None
                        }
                    },
                    None => None,
                }
            },
            None => None,
        }
    }

    /// The window title for `session_id`: the cached title when there is a
    /// non-empty one, otherwise the short session id, in the localized
    /// window-title text.
    pub fn window_title(&self, lang: Lang, session_id: &str) -> (r: String)
        ensures
            r@ == window_title_of(lang, self@.titles, session_id@),
    {
        let shown: String = match self.cached_title(session_id) {
            Some(t) => t,
            None => short(session_id),
        };
        let mut args: Vec<String> = Vec::new();
        args.push(shown);
        assert(texts(args@) =~= seq![displayed_name(self@.titles, session_id@)]);
        get_fmt(lang, "win.title", args.as_slice())
    }

    /// Records the title carried by each listed session, in order.
    pub fn apply_rows(&mut self, rows: &[SessionRow])
        ensures
            final(self)@.base_url == old(self)@.base_url,
            final(self)@.titles == with_rows(old(self)@.titles, rows_view(rows@)),
    {
        let n = rows.len();
        let ghost start = self@.titles;
        for i in 0..n
            invariant
                n == rows@.len(),
                self@.base_url == old(self)@.base_url,
                start == old(self)@.titles,
                self@.titles == with_rows(start, rows_view(rows@.take(i as int))),
        {
            let t = row_title(&rows[i]);
            self.record(rows[i].session_id.clone(), t);
            proof {
                let now = rows_view(rows@.take(i + 1));
                assert(now.drop_last() == rows_view(rows@.take(i as int)));
                assert(now.last() == (rows@[i as int].session_id@, row_title_of(rows@[i as int].values)));
            }
        }
        assert(rows@.take(n as int) == rows@);
    }
}

impl Default for Titles {
    /// An empty cache with no backend address.
    fn default() -> (r: Titles)
        ensures
            r@.base_url is None,
            r@.titles == Map::<Seq<char>, Option<Seq<char>>>::empty(),
    {
        Titles::new()
    }
}

/// The cached non-empty title of a session, if any.
pub open spec fn cached_title_of(titles: Map<Seq<char>, Option<Seq<char>>>, id: Seq<char>) -> Option<
    Seq<char>,
> {
    if titles.dom().contains(id) {
        match titles[id] {
            Some(t) => if t.len() > 0 {
                Some(t)
            } else {
                None
            },
            None => None,
        }
    } else {
        None
    }
}

/// The name shown for a session: its cached title, else its short id.
pub open spec fn displayed_name(titles: Map<Seq<char>, Option<Seq<char>>>, id: Seq<char>) -> Seq<
    char,
> {
    match cached_title_of(titles, id) {
        Some(t) => t,
        None => short_id(id),
    }
}

/// The window title for a session.
pub open spec fn window_title_of(
    lang: Lang,
    titles: Map<Seq<char>, Option<Seq<char>>>,
    id: Seq<char>,
) -> Seq<char> {
    fill(message(lang, "win.title"@), seq![displayed_name(titles, id)])
}

/// The session id and title of each row.
pub open spec fn rows_view(rows: Seq<SessionRow>) -> Seq<(Seq<char>, Option<Seq<char>>)> {
    rows.map_values(|r: SessionRow| (r.session_id@, row_title_of(r.values)))
}

/// The titles after recording each row, first to last.
pub open spec fn with_rows(
    titles: Map<Seq<char>, Option<Seq<char>>>,
    rows: Seq<(Seq<char>, Option<Seq<char>>)>,
) -> Map<Seq<char>, Option<Seq<char>>>
    decreases rows.len(),
{
    if rows.len() == 0 {
        titles
    } else {
        with_rows(titles, rows.drop_last()).insert(rows.last().0, rows.last().1)
    }
}

/// What is recorded for a session is what the cache then gives for it: the
/// session is known, and its cached title is the recorded one when that is
/// present and not empty (none otherwise). Recording another session leaves
/// what is known of this one unchanged.
pub proof fn law_record_then_lookup(
    titles: Map<Seq<char>, Option<Seq<char>>>,
    id: Seq<char>,
    title: Option<Seq<char>>,
    other: Seq<char>,
    other_title: Option<Seq<char>>,
)
    requires
        other != id,
    ensures
        titles.insert(id, title).dom().contains(id),
        cached_title_of(titles.insert(id, title), id) == (match title {
            Some(t) => if t.len() > 0 {
                Some(t)
            } else {
                None
            },
            None => None,
        }),
        cached_title_of(titles.insert(other, other_title), id) == cached_title_of(titles, id),
        titles.insert(other, other_title).dom().contains(id) == titles.dom().contains(id),
{
}

/// The window always shows a session's non-empty cached title when there is
/// one, and its short id otherwise.
pub proof fn law_window_shows_title_or_short_id(
    lang: Lang,
    titles: Map<Seq<char>, Option<Seq<char>>>,
    id: Seq<char>,
)
    ensures
        cached_title_of(titles, id) is Some ==> window_title_of(lang, titles, id) == fill(
            message(lang, "win.title"@),
            seq![cached_title_of(titles, id).unwrap()],
        ),
        cached_title_of(titles, id) is None ==> window_title_of(lang, titles, id) == fill(
            message(lang, "win.title"@),
            seq![short_id(id)],
        ),
{
}

} // verus!
