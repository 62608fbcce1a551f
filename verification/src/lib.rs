//! Verified core of a thin desktop shell around the DeepSeek Harness web UI:
//! localized UI strings, notification texts, session titles, backend address
//! handling and the small decision procedures that drive the window, the tray
//! and the backend monitor.
pub mod text;
pub mod i18n;
pub mod backend;
pub mod notify;
pub mod titles;
pub mod events;
pub mod window;
