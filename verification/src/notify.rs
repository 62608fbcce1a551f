//! Which event-stream frames become desktop notifications, and their texts.
//!
//! Only frames that wait for a human decision are surfaced, as a desktop
//! notification that also brings the main window to the front: permission
//! approvals and questions from the agent. A `session/subscribed` frame names
//! the active session, whose title the window shows; every other frame kind
//! is ignored.
use vstd::prelude::*;

use crate::i18n::{fill, get, get_fmt, message, Lang};
use crate::text::{
    chars_of, has_occurrence, occurs_at, string_of, suffix_from, texts, text_eq,
};

verus! {

/// The compact form of a session id shown to the user: its last eight
/// characters (all of it when shorter).
pub open spec fn short_id(id: Seq<char>) -> Seq<char> {
    if id.len() > 8 {
        id.skip(id.len() - 8)
    } else {
        id
    }
}

/// Compact 8-character suffix of a session id for display (the whole id when
/// it is shorter).
pub fn short(id: &str) -> (r: String)
    ensures
        r@ == short_id(id@),
{
    let v = chars_of(id);
    let n = v.len();
    if n > 8 {
        let tail = suffix_from(v.as_slice(), n - 8);
        string_of(tail.as_slice())
    } else {
        string_of(v.as_slice())
    }
}

/// The view of an optional string slice.
pub open spec fn opt_str(o: Option<&str>) -> Option<Seq<char>> {
    match o {
        Some(s) => Some(s@),
        None => None,
    }
}

/// `body` followed, when a session is named, by a new line and the short
/// session id in parentheses.
pub open spec fn with_session(body: Seq<char>, session: Option<Seq<char>>) -> Seq<char> {
    match session {
        Some(s) => body + "\n("@ + short_id(s) + ")"@,
        None => body,
    }
}

/// The body of an approval notification: which tool needs permission (or
/// that an operation does), then the reason on its own line when one is
/// given and not empty, then the session.
pub open spec fn approval_text(
    lang: Lang,
    tool: Option<Seq<char>>,
    reason: Option<Seq<char>>,
    session: Option<Seq<char>>,
) -> Seq<char> {
    let head = match tool {
        Some(t) => fill(message(lang, "notify.approval.tool"@), seq![t]),
        None => message(lang, "notify.approval.generic"@),
    };
    let with_reason = match reason {
        Some(r) => if r.len() > 0 {
            head + "\n"@ + r
        } else {
            head
        },
        None => head,
    };
    with_session(with_reason, session)
}

/// Appends the session suffix to `body`.
fn add_session(body: String, session: Option<&str>) -> (r: String)
    ensures
        r@ == with_session(body@, opt_str(session)),
{
    match session {
        Some(sid) => {
            let s = short(sid);
            body.concat("\n(").concat(s.as_str()).concat(")")
        },
        None => body,
    }
}

/// The body of a permission-approval notification.
pub fn approval_body(lang: Lang, tool: Option<&str>, reason: Option<&str>, session: Option<&str>) -> (r:
    String)
    ensures
        r@ == approval_text(lang, opt_str(tool), opt_str(reason), opt_str(session)),
{
    let head: String = match tool {
        Some(t) => {
            let mut args: Vec<String> = Vec::new();
            args.push(String::from_str(t));
            assert(texts(args@) =~= seq![t@]);
            get_fmt(lang, "notify.approval.tool", args.as_slice())
        },
        None => String::from_str(get(lang, "notify.approval.generic")),
    };
    let with_reason: String = match reason {
        Some(r) => {
            if !r.is_empty() {
                head.concat("\n").concat(r)
            } else {
                head
            }
        },
        None => head,
    };
    add_session(with_reason, session)
}

/// One question of a question frame.
pub struct Question {
    pub question: Option<String>,
}

/// The view of an optional string.
pub open spec fn opt_string(o: Option<String>) -> Option<Seq<char>> {
    match o {
        Some(s) => Some(s@),
        None => None,
    }
}

/// The texts of the questions of a frame.
pub open spec fn question_texts(qs: Option<Vec<Question>>) -> Option<Seq<Option<Seq<char>>>> {
    match qs {
        Some(v) => Some(v@.map_values(|q: Question| opt_string(q.question))),
        None => None,
    }
}

/// The text of the first question (empty when it has none), if there is a
/// first question.
pub open spec fn first_question(qs: Option<Seq<Option<Seq<char>>>>) -> Option<Seq<char>> {
    match qs {
        Some(s) => if s.len() > 0 {
            Some(
                match s[0] {
                    Some(q) => q,
                    None => Seq::empty(),
                },
            )
        } else {
            None
        },
        None => None,
    }
}

/// The body of a question notification: the first question when it is
/// there and not empty, else a fallback sentence; then the session.
pub open spec fn question_text(
    lang: Lang,
    qs: Option<Seq<Option<Seq<char>>>>,
    session: Option<Seq<char>>,
) -> Seq<char> {
    let body = match first_question(qs) {
        Some(q) => if q.len() > 0 {
            q
        } else {
            message(lang, "notify.question.fallback"@)
        },
        None => message(lang, "notify.question.fallback"@),
    };
    with_session(body, session)
}

/// The body of a question notification (there is usually exactly one
/// question; the first one is shown).
pub fn question_body(lang: Lang, questions: &Option<Vec<Question>>, session: Option<&str>) -> (r:
    String)
    ensures
        r@ == question_text(lang, question_texts(*questions), opt_str(session)),
{
    let first: Option<String> = match questions {
        Some(qs) => {
            if qs.len() > 0 {
                match &qs[0].question {
                    Some(q) => Some(q.clone()),
                    None => Some(String::new()),
                }
            } else {
                None
            }
        },
        None => None,
    };
    assert(opt_string(first) == first_question(question_texts(*questions)));
    let body: String = match first {
        Some(q) => {
            if !q.as_str().is_empty() {
                q
            } else {
                String::from_str(get(lang, "notify.question.fallback"))
            }
        },
        None => String::from_str(get(lang, "notify.question.fallback")),
    };
    add_session(body, session)
}

/// A frame of the backend's event stream, as far as notifications need it.
pub struct MuxFrame {
    /// The frame kind (`type`), such as `approval/requested`.
    pub kind: String,
    /// `sessionId`.
    pub session_id: Option<String>,
    /// `toolName`.
    pub tool_name: Option<String>,
    pub reason: Option<String>,
    pub questions: Option<Vec<Question>>,
}

/// What handling a frame amounts to.
pub enum FrameAction {
    /// Show a desktop notification and bring the main window to the front.
    NotifyAndFocus { title: String, body: String },
    /// Show the session's title in the window title.
    ShowSessionTitle { session_id: String },
    /// Nothing.
    Ignore,
}

/// What handling a frame amounts to, as texts.
pub enum FrameOutcome {
    NotifyAndFocus(Seq<char>, Seq<char>),
    ShowSessionTitle(Seq<char>),
    Ignore,
}

/// The view of a frame action.
pub open spec fn action_view(a: FrameAction) -> FrameOutcome {
    match a {
        FrameAction::NotifyAndFocus { title, body } => FrameOutcome::NotifyAndFocus(title@, body@),
        FrameAction::ShowSessionTitle { session_id } => FrameOutcome::ShowSessionTitle(
            session_id@,
        ),
        FrameAction::Ignore => FrameOutcome::Ignore,
    }
}

/// The frame kinds that raise a notification.
pub open spec fn notifies(kind: Seq<char>) -> bool {
    kind == "approval/requested"@ || kind == "question/requested"@
}

/// What a frame amounts to: an approval request notifies with the approval
/// title and body and brings the window forward; a question does the same
/// with the question title and body; a
/// session subscription naming a session shows that session's title; all
/// else (including `approval/resolved`, `session/event`, `session/queue`,
/// `question/resolved`) is ignored.
pub open spec fn frame_outcome(lang: Lang, frame: MuxFrame) -> FrameOutcome {
    let session = opt_string(frame.session_id);
    if frame.kind@ == "approval/requested"@ {
        FrameOutcome::NotifyAndFocus(
            message(lang, "notify.approval.title"@),
            approval_text(lang, opt_string(frame.tool_name), opt_string(frame.reason), session),
        )
    } else if frame.kind@ == "question/requested"@ {
        FrameOutcome::NotifyAndFocus(
            message(lang, "notify.question.title"@),
            question_text(lang, question_texts(frame.questions), session),
        )
    } else if frame.kind@ == "session/subscribed"@ {
        match session {
            Some(s) => FrameOutcome::ShowSessionTitle(s),
            None => FrameOutcome::Ignore,
        }
    } else {
        FrameOutcome::Ignore
    }
}

/// The slice view of an optional string.
fn as_opt_str(o: &Option<String>) -> (r: Option<&str>)
    ensures
        opt_str(r) == opt_string(*o),
{
    match o {
        Some(s) => Some(s.as_str()),
        None => None,
    }
}

/// Decides what one frame of the event stream amounts to.
pub fn handle_frame(lang: Lang, frame: &MuxFrame) -> (r: FrameAction)
    ensures
        action_view(r) == frame_outcome(lang, *frame),
{
    let kind = frame.kind.as_str();
    let session = as_opt_str(&frame.session_id);
    if text_eq(kind, "approval/requested") {
        let body = approval_body(
            lang,
            as_opt_str(&frame.tool_name),
            as_opt_str(&frame.reason),
            session,
        );
        FrameAction::NotifyAndFocus {
            title: String::from_str(get(lang, "notify.approval.title")),
            body,
        }
    } else if text_eq(kind, "question/requested") {
        let body = question_body(lang, &frame.questions, session);
        FrameAction::NotifyAndFocus { title: String::from_str(get(lang, "notify.question.title")), body }
    } else if text_eq(kind, "session/subscribed") {
        match &frame.session_id {
            Some(s) => FrameAction::ShowSessionTitle { session_id: s.clone() },
            None => FrameAction::Ignore,
        }
    } else {
        FrameAction::Ignore
    }
}

/// The short form of any session id is a suffix of it, eight characters
/// long, or the whole id when that is shorter.
pub proof fn law_short_is_suffix(id: Seq<char>)
    ensures
        short_id(id).len() == if id.len() < 8 {
            id.len()
        } else {
            8
        },
        id.skip(id.len() - short_id(id).len()) == short_id(id),
{
    if id.len() <= 8 {
        assert(id.skip(0) == id);
    }
}

/// Only frames that wait for a human decision raise a notification: an
/// approval request or a question.
pub proof fn law_only_decisions_notify(lang: Lang, frame: MuxFrame)
    ensures
        frame_outcome(lang, frame) is NotifyAndFocus ==> notifies(frame.kind@),
        !notifies(frame.kind@) && frame.kind@ != "session/subscribed"@ ==> frame_outcome(
            lang,
            frame,
        ) is Ignore,
{
}

/// The session suffix of a notification body: a new line and the short id
/// in parentheses, when a session is named.
pub open spec fn session_line(session: Option<Seq<char>>) -> Seq<char> {
    match session {
        Some(s) => "\n("@ + short_id(s) + ")"@,
        None => Seq::empty(),
    }
}

/// Naming a session adds exactly its suffix to an approval body, whatever
/// the tool and the reason.
pub proof fn law_approval_session_suffix(
    lang: Lang,
    tool: Option<Seq<char>>,
    reason: Option<Seq<char>>,
    s: Seq<char>,
)
    ensures
        approval_text(lang, tool, reason, Some(s)) == approval_text(lang, tool, reason, None) + "\n("@
            + short_id(s) + ")"@,
{
}

/// Naming a session adds exactly its suffix to a question body, whether it
/// shows the question or the fallback sentence.
pub proof fn law_question_session_suffix(lang: Lang, qs: Option<Seq<Option<Seq<char>>>>, s: Seq<char>)
    ensures
        question_text(lang, qs, Some(s)) == question_text(lang, qs, None) + "\n("@ + short_id(s)
            + ")"@,
{
}

/// An approval request notifies with the approval title; its body is the
/// line naming the frame's tool (or the generic line), then the frame's
/// reason on its own line when it is not empty, then the session suffix.
/// In particular a non-empty reason always occurs in the body, on a line of
/// its own.
pub proof fn law_approval_notification(lang: Lang, frame: MuxFrame)
    requires
        frame.kind@ == "approval/requested"@,
    ensures
        frame_outcome(lang, frame) == FrameOutcome::NotifyAndFocus(
            message(lang, "notify.approval.title"@),
            (match frame.tool_name {
                Some(t) => fill(message(lang, "notify.approval.tool"@), seq![t@]),
                None => message(lang, "notify.approval.generic"@),
            }) + (match frame.reason {
                Some(r) => if r@.len() > 0 {
                    "\n"@ + r@
                } else {
                    Seq::empty()
                },
                None => Seq::empty(),
            }) + session_line(opt_string(frame.session_id)),
        ),
        frame.reason is Some && frame.reason.unwrap()@.len() > 0 ==> (match frame_outcome(
            lang,
            frame,
        ) {
            FrameOutcome::NotifyAndFocus(_, body) => has_occurrence(
                body,
                "\n"@ + frame.reason.unwrap()@,
            ),
            _ => false,
        }),
{
    let head = match frame.tool_name {
        Some(t) => fill(message(lang, "notify.approval.tool"@), seq![t@]),
        None => message(lang, "notify.approval.generic"@),
    };
    let rpart = match frame.reason {
        Some(r) => if r@.len() > 0 {
            "\n"@ + r@
        } else {
            Seq::empty()
        },
        None => Seq::empty(),
    };
    let spart = session_line(opt_string(frame.session_id));
    let body = approval_text(
        lang,
        opt_string(frame.tool_name),
        opt_string(frame.reason),
        opt_string(frame.session_id),
    );
    let with_reason = match opt_string(frame.reason) {
        Some(r) => if r.len() > 0 {
            head + "\n"@ + r
        } else {
            head
        },
        None => head,
    };
    assert(with_reason =~= head + rpart);
    assert(body =~= head + rpart + spart);
    if frame.reason is Some && frame.reason.unwrap()@.len() > 0 {
        assert(body.subrange(head.len() as int, (head.len() + rpart.len()) as int) =~= rpart);
        assert(occurs_at(body, rpart, head.len() as int));
    }
}

/// A question request notifies with the question title; its body is the
/// frame's first question when it has a non-empty one, else the fallback
/// sentence, then the session suffix.
pub proof fn law_question_notification(lang: Lang, frame: MuxFrame)
    requires
        frame.kind@ == "question/requested"@,
    ensures
        frame_outcome(lang, frame) == FrameOutcome::NotifyAndFocus(
            message(lang, "notify.question.title"@),
            (if frame.questions is Some && frame.questions.unwrap()@.len() > 0
                && frame.questions.unwrap()@[0].question is Some
                && frame.questions.unwrap()@[0].question.unwrap()@.len() > 0 {
                frame.questions.unwrap()@[0].question.unwrap()@
            } else {
                message(lang, "notify.question.fallback"@)
            }) + session_line(opt_string(frame.session_id)),
        ),
{
    reveal_strlit("approval/requested");
    reveal_strlit("question/requested");
    assert("approval/requested"@ != "question/requested"@) by {
        assert("approval/requested"@[0] != "question/requested"@[0]);
    }
    let qs = question_texts(frame.questions);
    if frame.questions is Some && frame.questions.unwrap()@.len() > 0 {
        assert(qs.unwrap()[0] == opt_string(frame.questions.unwrap()@[0].question));
    }
    let shown = if frame.questions is Some && frame.questions.unwrap()@.len() > 0
        && frame.questions.unwrap()@[0].question is Some
        && frame.questions.unwrap()@[0].question.unwrap()@.len() > 0 {
        frame.questions.unwrap()@[0].question.unwrap()@
    } else {
        message(lang, "notify.question.fallback"@)
    };
    let session = opt_string(frame.session_id);
    assert(question_text(lang, qs, session) =~= shown + session_line(session));
}

} // verus!
