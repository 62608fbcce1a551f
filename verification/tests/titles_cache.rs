//! The session title cache.
use dsh_thin_desktop::i18n::Lang;
use dsh_thin_desktop::titles::{row_title, SessionRow, Titles};

fn row(id: &str, values: Option<Vec<(&str, Option<&str>)>>) -> SessionRow {
    SessionRow {
        session_id: id.to_string(),
        values: values.map(|v| {
            v.into_iter()
                .map(|(k, t)| (k.to_string(), t.map(|x| x.to_string())))
                .collect()
        }),
    }
}

#[test]
fn session_list_parses_title() {
    let text = r#"{"type":"server-response","rpcId":"smoke-title","result":{"value":{"items":[
        {"sessionId":"s-1","projections":{"values":{"title":"Fix the build","other":3}}},
        {"sessionId":"s-2","projections":{"values":{"title":7}}},
        {"sessionId":"s-3"}
    ]}}}"#;
    let v: serde_json::Value = serde_json::from_str(text).expect("parse");
    let items = v["result"]["value"]["items"].as_array().cloned().unwrap_or_default();
    assert!(!items.is_empty(), "expected at least one session row");
    let rows: Vec<SessionRow> = items
        .iter()
        .map(|it| SessionRow {
            session_id: it["sessionId"].as_str().unwrap_or_default().to_string(),
            values: it.get("projections").and_then(|p| p.get("values")).and_then(|m| m.as_object()).map(
                |m| m.iter().map(|(k, x)| (k.clone(), x.as_str().map(|s| s.to_string()))).collect(),
            ),
        })
        .collect();
    let titles: Vec<String> = rows.iter().filter_map(row_title).collect();
    assert_eq!(titles, vec!["Fix the build".to_string()]);
    assert!(titles.iter().any(|t| !t.is_empty()), "no non-empty title extracted");
}

#[test]
fn row_title_takes_string_title_value() {
    assert_eq!(row_title(&row("a", Some(vec![("x", Some("1")), ("title", Some("T"))]))), Some("T".to_string()));
    assert_eq!(row_title(&row("a", Some(vec![("title", None)]))), None);
    assert_eq!(row_title(&row("a", Some(vec![]))), None);
    assert_eq!(row_title(&row("a", None)), None);
}

#[test]
fn base_url_and_session_list_url() {
    let mut t = Titles::new();
    assert_eq!(t.session_list_url(), None);
    t.set_base("http://127.0.0.1:3080".to_string());
    assert_eq!(t.session_list_url(), Some("http://127.0.0.1:3080/api/session.list".to_string()));
}

#[test]
fn record_then_lookup() {
    let mut t = Titles::default();
    assert!(!t.is_known("s1"));
    t.record("s1".to_string(), Some("First".to_string()));
    assert!(t.is_known("s1"));
    assert_eq!(t.cached_title("s1"), Some("First".to_string()));
    t.record("s2".to_string(), None);
    assert!(t.is_known("s2"));
    assert_eq!(t.cached_title("s2"), None);
    assert_eq!(t.cached_title("s1"), Some("First".to_string()));
    t.record("s1".to_string(), Some(String::new()));
    assert!(t.is_known("s1"));
    assert_eq!(t.cached_title("s1"), None);
}

#[test]
fn window_title_uses_title_or_short_id() {
    let mut t = Titles::new();
    t.record("session-0123456789".to_string(), Some("Refactor".to_string()));
    assert_eq!(t.window_title(Lang::En, "session-0123456789"), "DeepSeek Harness — Refactor");
    assert_eq!(t.window_title(Lang::Zh, "unknown-session-42"), "DeepSeek Harness — ssion-42");
}

#[test]
fn apply_rows_in_order() {
    let mut t = Titles::new();
    t.apply_rows(&[
        row("a", Some(vec![("title", Some("One"))])),
        row("b", None),
        row("a", Some(vec![("title", Some("Two"))])),
    ]);
    assert_eq!(t.cached_title("a"), Some("Two".to_string()));
    assert!(t.is_known("b"));
    assert_eq!(t.cached_title("b"), None);
}
