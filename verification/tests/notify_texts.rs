//! Notification texts and frame handling.
use dsh_thin_desktop::i18n::Lang;
use dsh_thin_desktop::notify::{
    approval_body, handle_frame, question_body, short, FrameAction, MuxFrame,
    Question,
};

fn frame(kind: &str) -> MuxFrame {
    MuxFrame {
        kind: kind.to_string(),
        session_id: None,
        tool_name: None,
        reason: None,
        questions: None,
    }
}

#[test]
fn short_keeps_last_eight_ascii_chars() {
    assert_eq!(short("0123456789abcdef"), "89abcdef");
    assert_eq!(short("abcdefgh"), "abcdefgh");
    assert_eq!(short("abc"), "abc");
    assert_eq!(short(""), "");
}

#[test]
fn short_of_multibyte_ids() {
    // Counted in characters, not bytes.
    assert_eq!(short("ab会话一"), "ab会话一");
    assert_eq!(short("éééééééééé"), "éééééééé");
    assert_eq!(short("éééééé"), "éééééé");
    assert_eq!(short("会话会话"), "会话会话");
    assert_eq!(short("会话0123456789"), "23456789");
    assert_eq!(short("x会话一二三四五六七"), "会话一二三四五六七".chars().skip(1).collect::<String>());
}

#[test]
fn short_is_a_suffix_of_at_most_eight_chars() {
    for id in ["", "a", "abcdefgh", "abcdefghi", "ééééééééé", "会话一二三四五六七八九"] {
        let r = short(id);
        assert!(id.ends_with(&r));
        assert_eq!(r.chars().count(), id.chars().count().min(8));
    }
}

#[test]
fn approval_body_with_tool_reason_and_session() {
    assert_eq!(
        approval_body(Lang::En, Some("edit"), Some("write to /etc"), Some("session-123456789")),
        "Tool edit needs permission approval\nwrite to /etc\n(23456789)"
    );
    assert_eq!(
        approval_body(Lang::Zh, Some("edit"), None, None),
        "工具 edit 需要权限批准"
    );
}

#[test]
fn approval_body_generic_and_empty_reason() {
    assert_eq!(
        approval_body(Lang::En, None, Some(""), Some("abc")),
        "An operation needs permission approval\n(abc)"
    );
    assert_eq!(approval_body(Lang::Zh, None, None, None), "操作需要权限批准");
}

#[test]
fn question_body_first_question_or_fallback() {
    let qs = Some(vec![
        Question { question: Some("Proceed?".to_string()) },
        Question { question: Some("Second".to_string()) },
    ]);
    assert_eq!(question_body(Lang::En, &qs, None), "Proceed?");
    assert_eq!(question_body(Lang::En, &qs, Some("s-0011223344")), "Proceed?\n(11223344)");
    let empty_first = Some(vec![Question { question: None }]);
    assert_eq!(question_body(Lang::En, &empty_first, None), "The agent is asking you a question");
    let blank = Some(vec![Question { question: Some(String::new()) }]);
    assert_eq!(question_body(Lang::Zh, &blank, None), "Agent 正在问你一个问题");
    assert_eq!(question_body(Lang::En, &Some(vec![]), None), "The agent is asking you a question");
    assert_eq!(question_body(Lang::En, &None, None), "The agent is asking you a question");
}

#[test]
fn approval_frame_notifies() {
    let mut f = frame("approval/requested");
    f.tool_name = Some("bash".to_string());
    f.session_id = Some("abcdef0123456789".to_string());
    match handle_frame(Lang::En, &f) {
        FrameAction::NotifyAndFocus { title, body } => {
            assert_eq!(title, "DSH needs your approval");
            assert_eq!(body, "Tool bash needs permission approval\n(23456789)");
        }
        _ => panic!("expected a notification"),
    }
}

#[test]
fn question_frame_notifies() {
    let mut f = frame("question/requested");
    f.questions = Some(vec![Question { question: Some("Which file?".to_string()) }]);
    match handle_frame(Lang::Zh, &f) {
        FrameAction::NotifyAndFocus { title, body } => {
            assert_eq!(title, "DSH 提问");
            assert_eq!(body, "Which file?");
        }
        _ => panic!("expected a notification"),
    }
}

#[test]
fn subscribed_frame_shows_session_title() {
    let mut f = frame("session/subscribed");
    assert!(matches!(handle_frame(Lang::En, &f), FrameAction::Ignore));
    f.session_id = Some("s1".to_string());
    match handle_frame(Lang::En, &f) {
        FrameAction::ShowSessionTitle { session_id } => assert_eq!(session_id, "s1"),
        _ => panic!("expected the session title"),
    }
}

#[test]
fn other_frames_are_ignored() {
    for kind in ["approval/resolved", "session/event", "session/queue", "question/resolved", ""] {
        let mut f = frame(kind);
        f.session_id = Some("s".to_string());
        assert!(matches!(handle_frame(Lang::En, &f), FrameAction::Ignore));
    }
}
