//! Localized user-facing strings (menu, tray, notifications, window title).
//!
//! The language is chosen from locale settings (an explicit override, then
//! `LC_ALL`, then `LANG`); any locale that mentions Chinese selects Chinese,
//! everything else selects English. Messages are looked up by key and `{}`
//! placeholders are filled in from left to right.
use vstd::prelude::*;

use crate::text::{
    chars_of, extend_all, extend_range, find, has_occurrence, lemma_first_occurrence_unique, occurs_at,
    first_occurrence, contains, string_of, text_eq, texts,
};

verus! {

/// Supported languages.
#[derive(Debug, Clone, Copy, PartialEq, Eq, Structural)]
pub enum Lang {
    Zh,
    En,
}

/// Unicode lower-casing of a text, as `str::to_lowercase` computes it.
pub uninterp spec fn lowercase_of(s: Seq<char>) -> Seq<char>;

/// Lower-cases `s` with `str::to_lowercase`.
///
/// Trusted: the result is the function `lowercase_of` of the text; nothing
/// more of Unicode case mapping is stated.
#[verifier::external_body]
fn to_lowercase(s: &str) -> (r: String)
    ensures
        r@ == lowercase_of(s@),
{
    s.to_lowercase()
}

/// The language that an already lower-cased locale selects.
pub open spec fn locale_lang(lowered: Seq<char>) -> Lang {
    if has_occurrence(lowered, "zh"@) {
        Lang::Zh
    } else {
        Lang::En
    }
}

/// The view of an optional string.
pub open spec fn opt_text(o: Option<String>) -> Option<Seq<char>> {
    match o {
        Some(s) => Some(s@),
        None => None,
    }
}

/// A locale setting counts when it is set to a non-empty value (as in the
/// classic locale rules, an empty `LC_ALL` does not override `LANG`).
pub open spec fn is_set(o: Option<Seq<char>>) -> bool {
    o is Some && o->0.len() > 0
}

/// The first locale setting that counts, in precedence order.
pub open spec fn selected_locale(
    dsh_lang: Option<Seq<char>>,
    lc_all: Option<Seq<char>>,
    lang: Option<Seq<char>>,
) -> Option<Seq<char>> {
    if is_set(dsh_lang) {
        dsh_lang
    } else if is_set(lc_all) {
        lc_all
    } else if is_set(lang) {
        lang
    } else {
        None
    }
}

/// The language detected from the three locale settings.
pub open spec fn detected_lang(
    dsh_lang: Option<Seq<char>>,
    lc_all: Option<Seq<char>>,
    lang: Option<Seq<char>>,
) -> Lang {
    match selected_locale(dsh_lang, lc_all, lang) {
        Some(l) => locale_lang(lowercase_of(l)),
        None => Lang::En,
    }
}

/// The language that a lower-cased locale selects: Chinese exactly when it
/// contains `zh`.
pub fn lang_from_locale(lowered: &str) -> (r: Lang)
    ensures
        r == locale_lang(lowered@),
{
    let l = chars_of(lowered);
    let zh = chars_of("zh");
    if contains(l.as_slice(), zh.as_slice()) {
        Lang::Zh
    } else {
        Lang::En
    }
}

/// Whether a locale setting is set to a non-empty value.
fn set_value(o: &Option<String>) -> (r: bool)
    ensures
        r == is_set(opt_text(*o)),
{
    match o {
        Some(v) => !v.as_str().is_empty(),
        None => false,
    }
}

/// Detects the language from the locale settings `DSH_LANG` (explicit
/// override), `LC_ALL` and `LANG`, each given as present or absent.
///
/// The first setting that is set to a non-empty value decides, after
/// lower-casing: Chinese when it contains `zh`, English otherwise. With none
/// set the language is English.
pub fn detect(dsh_lang: Option<String>, lc_all: Option<String>, lang: Option<String>) -> (r: Lang)
    ensures
        r == detected_lang(opt_text(dsh_lang), opt_text(lc_all), opt_text(lang)),
{
    let chosen = if set_value(&dsh_lang) {
        dsh_lang
    } else if set_value(&lc_all) {
        lc_all
    } else if set_value(&lang) {
        lang
    } else {
        None
    };
    match chosen {
        Some(v) => {
            let lowered = to_lowercase(v.as_str());
            lang_from_locale(lowered.as_str())
        },
        None => Lang::En,
    }
}

/// Whether `lang` is Chinese.
pub fn is_zh(lang: Lang) -> (r: bool)
    ensures
        r == (lang == Lang::Zh),
{
    match lang {
        Lang::Zh => true,
        Lang::En => false,
    }
}

/// The short language code of `lang`.
pub open spec fn lang_code_of(lang: Lang) -> Seq<char> {
    match lang {
        Lang::Zh => "zh"@,
        Lang::En => "en"@,
    }
}

/// A short language code (`"zh"` or `"en"`) for the web front end.
pub fn lang_code(lang: Lang) -> (r: &'static str)
    ensures
        r@ == lang_code_of(lang),
{
    match lang {
        Lang::Zh => "zh",
        Lang::En => "en",
    }
}

/// The text for `lang` out of a Chinese and an English one.
pub open spec fn choose_text(lang: Lang, zh: Seq<char>, en: Seq<char>) -> Seq<char> {
    match lang {
        Lang::Zh => zh,
        Lang::En => en,
    }
}

/// The message table: the text of `key` in `lang`; an unknown key stands for
/// itself.
pub open spec fn message(lang: Lang, key: Seq<char>) -> Seq<char> {
    if key == "notify.approval.title"@ {
        choose_text(lang, "DSH 需要你批准"@, "DSH needs your approval"@)
    } else if key == "notify.approval.tool"@ {
        choose_text(lang, "工具 {} 需要权限批准"@, "Tool {} needs permission approval"@)
    } else if key == "notify.approval.generic"@ {
        choose_text(lang, "操作需要权限批准"@, "An operation needs permission approval"@)
    } else if key == "notify.question.title"@ {
        choose_text(lang, "DSH 提问"@, "DSH Question"@)
    } else if key == "notify.question.fallback"@ {
        choose_text(lang, "Agent 正在问你一个问题"@, "The agent is asking you a question"@)
    } else if key == "win.title"@ {
        choose_text(lang, "DeepSeek Harness — {}"@, "DeepSeek Harness — {}"@)
    } else if key == "menu.show_hide"@ {
        choose_text(lang, "显示 / 隐藏窗口"@, "Show / Hide Window"@)
    } else if key == "menu.reload"@ {
        choose_text(lang, "Reload"@, "Reload"@)
    } else if key == "menu.restart"@ {
        choose_text(lang, "Start / Restart Backend"@, "Start / Restart Backend"@)
    } else if key == "menu.quit"@ {
        choose_text(lang, "退出"@, "Quit"@)
    } else if key == "menu.toggle_devtools"@ {
        choose_text(lang, "Toggle DevTools"@, "Toggle DevTools"@)
    } else {
        key
    }
}

/// Picks the Chinese or the English text.
pub fn pick(lang: Lang, zh: &'static str, en: &'static str) -> (r: &'static str)
    ensures
        r@ == choose_text(lang, zh@, en@),
{
    match lang {
        Lang::Zh => zh,
        Lang::En => en,
    }
}

/// Looks up `key` for `lang`; an unknown key is returned as it is.
pub fn get(lang: Lang, key: &'static str) -> (r: &'static str)
    ensures
        r@ == message(lang, key@),
{
    if text_eq(key, "notify.approval.title") {
        pick(lang, "DSH 需要你批准", "DSH needs your approval")
    } else if text_eq(key, "notify.approval.tool") {
        pick(lang, "工具 {} 需要权限批准", "Tool {} needs permission approval")
    } else if text_eq(key, "notify.approval.generic") {
        pick(lang, "操作需要权限批准", "An operation needs permission approval")
    } else if text_eq(key, "notify.question.title") {
        pick(lang, "DSH 提问", "DSH Question")
    } else if text_eq(key, "notify.question.fallback") {
        pick(lang, "Agent 正在问你一个问题", "The agent is asking you a question")
    } else if text_eq(key, "win.title") {
        pick(lang, "DeepSeek Harness — {}", "DeepSeek Harness — {}")
    } else if text_eq(key, "menu.show_hide") {
        pick(lang, "显示 / 隐藏窗口", "Show / Hide Window")
    } else if text_eq(key, "menu.reload") {
        pick(lang, "Reload", "Reload")
    } else if text_eq(key, "menu.restart") {
        pick(lang, "Start / Restart Backend", "Start / Restart Backend")
    } else if text_eq(key, "menu.quit") {
        pick(lang, "退出", "Quit")
    } else if text_eq(key, "menu.toggle_devtools") {
        pick(lang, "Toggle DevTools", "Toggle DevTools")
    } else {
        key
    }
}

/// The placeholder that arguments replace.
pub open spec fn placeholder() -> Seq<char> {
    seq!['{', '}']
}

/// The arguments, each after a space (how arguments beyond the template's
/// placeholders are added).
pub open spec fn appended(args: Seq<Seq<char>>) -> Seq<char>
    decreases args.len(),
{
    if args.len() == 0 {
        Seq::empty()
    } else {
        seq![' '] + args[0] + appended(args.drop_first())
    }
}

/// The template `t` with its `{}` placeholders replaced by the arguments, left
/// to right; only placeholders of the template are filled (never one that an
/// argument brings in), and the arguments left over when the template's
/// placeholders run out are appended, each after a space.
pub open spec fn fill(t: Seq<char>, args: Seq<Seq<char>>) -> Seq<char>
    decreases args.len(),
{
    if args.len() == 0 {
        t
    } else if has_occurrence(t, placeholder()) {
        let i = first_occurrence(t, placeholder());
        t.take(i) + args[0] + fill(t.skip(i + 2), args.drop_first())
    } else {
        t + appended(args)
    }
}

/// Looks up `key` for `lang` and substitutes the template's `{}` placeholders
/// with `args`, left to right. A `{}` inside an argument is kept as it is;
/// arguments beyond the template's placeholders are appended after a space,
/// so that no argument is dropped.
pub fn get_fmt(lang: Lang, key: &'static str, args: &[String]) -> (r: String)
    ensures
        r@ == fill(message(lang, key@), texts(args@)),
{
    let brace = chars_of("{}");
    proof {
        reveal_strlit("{}");
        assert(brace@ == placeholder());
    }
    let ghost all = texts(args@);
    let ghost target = fill(message(lang, key@), all);
    let mut rest = chars_of(get(lang, key));
    let mut out: Vec<char> = Vec::new();
    let n = args.len();
    assert(all.skip(0) == all);
    for i in 0..n
        invariant
            n == args@.len(),
            all == texts(args@),
            brace@ == placeholder(),
            target == out@ + fill(rest@, all.skip(i as int)),
    {
        let a = chars_of(args[i].as_str());
        let ghost now = all.skip(i as int);
        proof {
            assert(now[0] == a@);
            assert(now.drop_first() == all.skip(i + 1));
        }
        let len = rest.len();
        match find(rest.as_slice(), brace.as_slice()) {
            Some(pos) => {
                proof {
                    lemma_first_occurrence_unique(rest@, placeholder(), pos as int);
                    assert(placeholder().len() == 2);
                    assert(pos + 2 <= rest@.len());
                }
                extend_range(&mut out, rest.as_slice(), 0, pos);
                extend_all(&mut out, a.as_slice());
                let mut next: Vec<char> = Vec::new();
                extend_range(&mut next, rest.as_slice(), pos + 2, len);
                proof {
                    assert(rest@.take(pos as int) == rest@.subrange(0, pos as int));
                    assert(rest@.skip(pos + 2) == rest@.subrange(pos + 2, rest@.len() as int));
                }
                rest = next;
            },
            None => {
                extend_all(&mut out, rest.as_slice());
                out.push(' ');
                extend_all(&mut out, a.as_slice());
                proof {
                    let e = Seq::<char>::empty();
                    assert(!has_occurrence(e, placeholder()));
                    assert(fill(e, all.skip(i + 1)) == appended(all.skip(i + 1))) by {
                        if all.skip(i + 1).len() > 0 {
                            assert(e + appended(all.skip(i + 1)) == appended(all.skip(i + 1)));
                        }
                    }
                }
                rest = Vec::new();
            },
        }
    }
    assert(all.skip(n as int).len() == 0);
    extend_all(&mut out, rest.as_slice());
    string_of(out.as_slice())
}

/// The text of `key` for `lang` (the form of the `t!` shorthand without
/// arguments).
pub fn __t(lang: Lang, key: &'static str) -> (r: &'static str)
    ensures
        r@ == message(lang, key@),
{
    get(lang, key)
}

/// The text of `key` for `lang` with `args` substituted (the form of the
/// `t!` shorthand with arguments).
pub fn __t_fmt(lang: Lang, key: &'static str, args: Vec<String>) -> (r: String)
    ensures
        r@ == fill(message(lang, key@), texts(args@)),
{
    get_fmt(lang, key, args.as_slice())
}

/// The explicit override decides whenever it is set to a non-empty value,
/// whatever `LC_ALL` and `LANG` say; `LC_ALL` decides over `LANG` when the
/// override is unset or empty; an empty `LC_ALL` leaves the decision to
/// `LANG`.
pub proof fn law_locale_precedence(
    dsh_lang: Seq<char>,
    lc_all: Option<Seq<char>>,
    lang: Option<Seq<char>>,
    lc: Seq<char>,
    l: Seq<char>,
)
    requires
        dsh_lang.len() > 0,
        lc.len() > 0,
        l.len() > 0,
    ensures
        detected_lang(Some(dsh_lang), lc_all, lang) == locale_lang(lowercase_of(dsh_lang)),
        detected_lang(None, Some(lc), lang) == locale_lang(lowercase_of(lc)),
        detected_lang(Some(Seq::empty()), Some(lc), lang) == locale_lang(lowercase_of(lc)),
        detected_lang(None, Some(Seq::empty()), Some(l)) == locale_lang(lowercase_of(l)),
{
}

/// With no locale setting at all, or only empty ones, the language is
/// English.
pub proof fn law_no_locale_is_english()
    ensures
        detected_lang(None, None, None) == Lang::En,
        detected_lang(Some(Seq::empty()), Some(Seq::empty()), Some(Seq::empty())) == Lang::En,
{
}

/// A key that the table does not know is its own text, in either language.
pub proof fn law_unknown_key_is_itself(lang: Lang, key: Seq<char>)
    requires
        key != "notify.approval.title"@,
        key != "notify.approval.tool"@,
        key != "notify.approval.generic"@,
        key != "notify.question.title"@,
        key != "notify.question.fallback"@,
        key != "win.title"@,
        key != "menu.show_hide"@,
        key != "menu.reload"@,
        key != "menu.restart"@,
        key != "menu.quit"@,
        key != "menu.toggle_devtools"@,
    ensures
        message(lang, key) == key,
{
}

/// A template without placeholders keeps its text and gets every argument
/// appended after a space, in order; with no arguments it is returned as it
/// is.
pub proof fn law_no_placeholder_appends(t: Seq<char>, args: Seq<Seq<char>>)
    requires
        !has_occurrence(t, placeholder()),
    ensures
        fill(t, args) == t + appended(args),
        fill(t, Seq::empty()) == t,
{
    if args.len() == 0 {
        assert(t + appended(args) == t);
    }
}

/// An occurrence of `p` in `s` is still one in `x + s + y`, shifted by `x`.
proof fn lemma_occurrence_shift(x: Seq<char>, s: Seq<char>, y: Seq<char>, p: Seq<char>, k: int)
    requires
        occurs_at(s, p, k),
    ensures
        occurs_at(x + s + y, p, x.len() + k),
{
    assert((x + s + y).subrange(x.len() + k, x.len() + k + p.len()) =~= s.subrange(k, k + p.len()));
}

/// Every argument occurs in the appended arguments.
proof fn lemma_appended_keeps_args(args: Seq<Seq<char>>, j: int)
    requires
        0 <= j < args.len(),
    ensures
        has_occurrence(appended(args), args[j]),
    decreases args.len(),
{
    let a0 = args[0];
    let rest = appended(args.drop_first());
    assert(appended(args) == seq![' '] + a0 + rest);
    if j == 0 {
        assert(occurs_at(a0, a0, 0)) by {
            assert(a0.subrange(0, a0.len() as int) =~= a0);
        }
        lemma_occurrence_shift(seq![' '], a0, rest, a0, 0);
    } else {
        lemma_appended_keeps_args(args.drop_first(), j - 1);
        assert(args.drop_first()[j - 1] == args[j]);
        let k = choose|k: int| occurs_at(rest, args[j], k);
        lemma_occurrence_shift(seq![' '] + a0, rest, Seq::<char>::empty(), args[j], k);
        assert(seq![' '] + a0 + rest + Seq::<char>::empty() == appended(args));
    }
}

/// Nothing is silently dropped: every argument occurs, whole, in the filled
/// text.
pub proof fn law_arguments_kept(t: Seq<char>, args: Seq<Seq<char>>, j: int)
    requires
        0 <= j < args.len(),
    ensures
        has_occurrence(fill(t, args), args[j]),
    decreases args.len(),
{
    if has_occurrence(t, placeholder()) {
        let i = first_occurrence(t, placeholder());
        let x = t.take(i);
        let a0 = args[0];
        let rest = fill(t.skip(i + 2), args.drop_first());
        assert(fill(t, args) == x + a0 + rest);
        if j == 0 {
            assert(occurs_at(a0, a0, 0)) by {
                assert(a0.subrange(0, a0.len() as int) =~= a0);
            }
            lemma_occurrence_shift(x, a0, rest, a0, 0);
        } else {
            law_arguments_kept(t.skip(i + 2), args.drop_first(), j - 1);
            assert(args.drop_first()[j - 1] == args[j]);
            let k = choose|k: int| occurs_at(rest, args[j], k);
            lemma_occurrence_shift(x + a0, rest, Seq::<char>::empty(), args[j], k);
            assert(x + a0 + rest + Seq::<char>::empty() == fill(t, args));
        }
    } else {
        lemma_appended_keeps_args(args, j);
        let k = choose|k: int| occurs_at(appended(args), args[j], k);
        lemma_occurrence_shift(t, appended(args), Seq::<char>::empty(), args[j], k);
        assert(t + appended(args) + Seq::<char>::empty() == fill(t, args));
    }
}

} // verus!
