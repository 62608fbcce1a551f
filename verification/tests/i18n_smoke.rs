//! Language detection from locale settings and localized strings.
use dsh_thin_desktop::i18n::{detect, get, get_fmt, is_zh, lang_code, lang_from_locale, Lang, __t, __t_fmt};

fn s(v: &str) -> Option<String> {
    Some(v.to_string())
}

#[test]
fn default_lang_is_env_driven() {
    let lang = detect(s("en_US.UTF-8"), None, None);
    assert_eq!(__t(lang, "notify.approval.title"), "DSH needs your approval");
    assert_eq!(__t(lang, "menu.quit"), "Quit");
    assert_eq!(__t_fmt(lang, "win.title", vec!["Hello".to_string()]), "DeepSeek Harness — Hello");
}

#[test]
fn zh_env_yields_chinese() {
    let lang = detect(s("zh_CN.UTF-8"), None, None);
    assert_eq!(__t(lang, "notify.approval.title"), "DSH 需要你批准");
    assert_eq!(__t(lang, "menu.quit"), "退出");
    assert_eq!(__t_fmt(lang, "notify.approval.tool", vec!["edit".to_string()]), "工具 edit 需要权限批准");
}

#[test]
fn lc_all_overrides_lang() {
    let lang = detect(None, s("zh_CN.UTF-8"), s("en_US.UTF-8"));
    assert_eq!(__t(lang, "notify.question.title"), "DSH 提问");
}

#[test]
fn missing_lang_falls_back_to_en() {
    let lang = detect(None, None, None);
    assert_eq!(__t(lang, "notify.approval.title"), "DSH needs your approval");
}

#[test]
fn explicit_override_beats_lc_all_and_lang() {
    assert_eq!(detect(s("en_US.UTF-8"), s("zh_CN.UTF-8"), s("zh_TW.UTF-8")), Lang::En);
    assert_eq!(detect(s("zh_HK"), s("en_GB"), s("en_US")), Lang::Zh);
    assert_eq!(detect(None, None, s("zh_CN.UTF-8")), Lang::Zh);
    assert_eq!(detect(None, s("C"), s("zh_CN.UTF-8")), Lang::En);
}

#[test]
fn upper_case_locale_is_lowered() {
    assert_eq!(detect(s("ZH_CN.UTF-8"), None, None), Lang::Zh);
    assert_eq!(detect(s("Zh"), None, None), Lang::Zh);
    assert_eq!(lang_from_locale("ZH_CN"), Lang::En);
    assert_eq!(lang_from_locale("zh_cn"), Lang::Zh);
    assert_eq!(lang_from_locale(""), Lang::En);
}

#[test]
fn empty_settings_are_skipped() {
    assert_eq!(detect(s(""), s("zh_CN"), None), Lang::Zh);
    assert_eq!(detect(None, s(""), s("zh_CN.UTF-8")), Lang::Zh);
    assert_eq!(detect(s(""), s(""), s("")), Lang::En);
    assert_eq!(detect(s(""), None, s("en_US.UTF-8")), Lang::En);
}

#[test]
fn lang_code_and_is_zh() {
    assert_eq!(lang_code(Lang::Zh), "zh");
    assert_eq!(lang_code(Lang::En), "en");
    assert!(is_zh(Lang::Zh));
    assert!(!is_zh(Lang::En));
}

#[test]
fn message_table_both_languages() {
    assert_eq!(get(Lang::En, "notify.approval.generic"), "An operation needs permission approval");
    assert_eq!(get(Lang::Zh, "notify.approval.generic"), "操作需要权限批准");
    assert_eq!(get(Lang::En, "notify.question.fallback"), "The agent is asking you a question");
    assert_eq!(get(Lang::Zh, "notify.question.fallback"), "Agent 正在问你一个问题");
    assert_eq!(get(Lang::Zh, "menu.show_hide"), "显示 / 隐藏窗口");
    assert_eq!(get(Lang::En, "menu.show_hide"), "Show / Hide Window");
    assert_eq!(get(Lang::Zh, "menu.reload"), "Reload");
    assert_eq!(get(Lang::Zh, "menu.restart"), "Start / Restart Backend");
    assert_eq!(get(Lang::Zh, "menu.toggle_devtools"), "Toggle DevTools");
    assert_eq!(get(Lang::En, "notify.question.title"), "DSH Question");
}

#[test]
fn unknown_key_is_itself() {
    assert_eq!(get(Lang::En, "no.such.key"), "no.such.key");
    assert_eq!(get(Lang::Zh, "menu"), "menu");
}

#[test]
fn placeholders_fill_left_to_right() {
    let args = vec!["a".to_string(), "b".to_string()];
    assert_eq!(get_fmt(Lang::En, "{} and {}", &args), "a and b");
    assert_eq!(get_fmt(Lang::En, "win.title", &[]), "DeepSeek Harness — {}");
}

#[test]
fn extra_args_are_appended() {
    let args = vec!["x".to_string(), "y".to_string()];
    assert_eq!(get_fmt(Lang::En, "menu.quit", &args), "Quit x y");
    assert_eq!(get_fmt(Lang::En, "win.title", &args), "DeepSeek Harness — x y");
}

#[test]
fn only_template_placeholders_are_filled() {
    let args = vec!["{}".to_string(), "x".to_string()];
    assert_eq!(get_fmt(Lang::En, "win.title", &args), "DeepSeek Harness — {} x");
    let empties = vec![String::new(), String::new()];
    assert_eq!(get_fmt(Lang::En, "{{}}", &empties), "{} ");
    assert_eq!(get_fmt(Lang::En, "{}{}", &args), "{}x");
}
