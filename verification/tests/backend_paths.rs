//! Backend address handling, `PATH` assembly and status reports.
use dsh_thin_desktop::backend::{
    accept_rc_output, announced, augmented_dirs, launch_step, rc_attempt, LaunchAction, LaunchEvent, augmented_path, combine_paths, current_status, default_url,
    dsh_candidates, existing_server_status, launch_failed_status, launch_plan, lost_status,
    parse_url_from_line, path_sep, probe_target, rc_shells, restored_status, spawn_path,
    starting_status, watch_step, SearchEnv, WatchAction,
};

fn strings(v: &[&str]) -> Vec<String> {
    v.iter().map(|s| s.to_string()).collect()
}

fn env_with_home(home: &str) -> SearchEnv {
    SearchEnv {
        home: Some(home.to_string()),
        user_profile: None,
        dsh_bin_dir: None,
        pnpm_home: None,
        app_data: None,
        local_app_data: None,
        program_files: None,
        path: Vec::new(),
    }
}

#[test]
fn parses_announced_url() {
    assert_eq!(parse_url_from_line("dsh web: http://127.0.0.1:3080"), Some("http://127.0.0.1:3080".to_string()));
    assert_eq!(parse_url_from_line("listening (http://0.0.0.0:4000/)."), Some("http://0.0.0.0:4000/".to_string()));
    assert_eq!(parse_url_from_line("  at http://h:1 ]} .  \n"), Some("http://h:1".to_string()));
    assert_eq!(parse_url_from_line("see xhttp://a and http://b"), Some("http://a".to_string()));
    assert_eq!(parse_url_from_line("dsh web: http://127.0.0.1:3080 ready"), Some("http://127.0.0.1:3080".to_string()));
    assert_eq!(parse_url_from_line("url=http://h:2\tnext"), Some("http://h:2".to_string()));
}

#[test]
fn lines_without_http_announce_nothing() {
    assert_eq!(parse_url_from_line("starting…"), None);
    assert_eq!(parse_url_from_line("https://secure:1"), None);
    assert_eq!(parse_url_from_line(""), None);
}

#[test]
fn probe_target_host_and_port() {
    assert_eq!(probe_target("http://127.0.0.1:3080"), "127.0.0.1:3080");
    assert_eq!(probe_target("http://127.0.0.1:8080/api/x"), "127.0.0.1:8080");
    assert_eq!(probe_target("https://10.0.0.1:443"), "10.0.0.1:443");
    assert_eq!(probe_target("http://http://h:1"), "h:1");
    assert_eq!(probe_target("http://[::1]:3080"), "[::1]:3080");
}

#[test]
fn probe_target_ignores_scheme_and_path() {
    assert_eq!(probe_target("http://127.0.0.1"), probe_target("127.0.0.1"));
    assert_eq!(probe_target("https://127.0.0.1:3080/api"), "127.0.0.1:3080");
    assert_eq!(probe_target("http://127.0.0.1:3080"), "127.0.0.1:3080");
    assert_eq!(probe_target("http://127.0.0.1"), "127.0.0.1:3080");
    assert_eq!(probe_target("127.0.0.1:9/x/y"), "127.0.0.1:9");
}

#[test]
fn probe_target_falls_back_to_default_port() {
    assert_eq!(probe_target("http://localhost"), "localhost:3080");
    assert_eq!(probe_target("http://h:99999"), "h:99999:3080");
    assert_eq!(probe_target("http://h:"), "h::3080");
    assert_eq!(probe_target("http://h:abc/x"), "h:abc:3080");
}

#[test]
fn probe_target_port_parsing_like_u16() {
    assert_eq!(probe_target("http://h:+080"), "h:80");
    assert_eq!(probe_target("http://h:007"), "h:7");
    assert_eq!(probe_target("http://h:65535"), "h:65535");
    assert_eq!(probe_target("http://h:65536"), "h:65536:3080");
    assert_eq!(probe_target("http://h:+"), "h:+:3080");
    assert_eq!(probe_target("http://h:-1"), "h:-1:3080");
}

#[test]
fn path_separators() {
    assert_eq!(path_sep(true), ";");
    assert_eq!(path_sep(false), ":");
}

#[test]
fn combine_paths_order_and_dedup() {
    let rc = strings(&["/a", "", "/b", "/a"]);
    let aug = strings(&["/b", "/c", ""]);
    let cur = strings(&["/c", "/d", "/a"]);
    assert_eq!(combine_paths(&rc, &aug, &cur, ":"), "/a:/b:/a:/c:/d");
    assert_eq!(combine_paths(&[], &[], &[], ":"), "");
}

#[test]
fn augmented_path_covers_npm_pnpm_bins() {
    let h = "/home/u";
    let path = augmented_path(&env_with_home(h), false);
    assert!(path.contains(&format!("{h}/.npm-global/bin")), "missing npm-global: {path}");
    assert!(path.contains(&format!("{h}/Library/pnpm")), "missing pnpm home: {path}");
    assert!(!path.is_empty());
}

#[test]
fn augmented_path_full_order() {
    let mut env = env_with_home("/home/u");
    env.dsh_bin_dir = Some("/opt/dsh".to_string());
    env.pnpm_home = Some("/p".to_string());
    env.path = strings(&["/usr/bin", "/bin"]);
    assert_eq!(
        augmented_path(&env, false),
        "/opt/dsh:/home/u/.npm-global/bin:/home/u/.npm/bin:/home/u/.local/bin:/home/u/bin:/p:/home/u/Library/pnpm:/home/u/.local/share/pnpm:/usr/local/bin:/opt/homebrew/bin:/usr/bin:/bin"
    );
}

#[test]
fn augmented_path_has_no_empty_entries() {
    let mut env = env_with_home("/h");
    env.dsh_bin_dir = Some(String::new());
    env.pnpm_home = Some(String::new());
    env.path = strings(&["/a", "", "/b", ""]);
    let p = augmented_path(&env, false);
    assert_eq!(
        p,
        "/h/.npm-global/bin:/h/.npm/bin:/h/.local/bin:/h/bin:/h/Library/pnpm:/h/.local/share/pnpm:/usr/local/bin:/opt/homebrew/bin:/a:/b"
    );
    assert!(p.split(':').all(|d| !d.is_empty()));
}

#[test]
fn augmented_path_joins_with_a_separator() {
    let env = env_with_home("/h/");
    let p = augmented_path(&env, false);
    assert!(p.starts_with("/h/.npm-global/bin:"));
    let mut env = env_with_home("/d");
    env.dsh_bin_dir = Some("/d".to_string());
    env.pnpm_home = Some("/p".to_string());
    env.path = strings(&["/usr/bin"]);
    assert_eq!(
        augmented_path(&env, false),
        "/d:/d/.npm-global/bin:/d/.npm/bin:/d/.local/bin:/d/bin:/p:/d/Library/pnpm:/d/.local/share/pnpm:/usr/local/bin:/opt/homebrew/bin:/usr/bin"
    );
}

#[test]
fn augmented_path_windows_separator_and_dirs() {
    let mut env = env_with_home("/h");
    env.app_data = Some("/ad".to_string());
    env.local_app_data = Some("/lad".to_string());
    env.program_files = Some("/pf".to_string());
    let p = augmented_path(&env, true);
    assert!(p.contains(";/ad\\npm;/lad\\pnpm;/pf\\nodejs;/usr/local/bin;/opt/homebrew/bin"));
}

#[test]
fn augmented_path_without_home() {
    let mut env = env_with_home("x");
    env.home = None;
    assert_eq!(augmented_path(&env, false), "/usr/local/bin:/opt/homebrew/bin");
    env.user_profile = Some("/profile".to_string());
    env.app_data = Some("/appdata".to_string());
    let p = augmented_path(&env, false);
    assert!(p.starts_with("/profile/.npm-global/bin:"));
    assert!(!p.contains("appdata"));
}

#[test]
fn shell_rc_path_is_best_effort() {
    match accept_rc_output("  /usr/bin:/home/u/.local/bin\n", ':') {
        Some(p) => assert!(!p.is_empty(), "rc path should not be empty"),
        None => panic!("a printed PATH is accepted"),
    }
    assert_eq!(accept_rc_output("\t/x:/y \n", ':'), Some("/x:/y".to_string()));
    assert_eq!(accept_rc_output(" \n ", ':'), None);
    assert_eq!(accept_rc_output(":::", ':'), None);
    assert_eq!(accept_rc_output(":a:", ':'), Some(":a:".to_string()));
}

#[test]
fn rc_attempt_takes_only_usable_output() {
    assert_eq!(rc_attempt(true, true, " /x:/y\n", ':'), Some("/x:/y".to_string()));
    assert_eq!(rc_attempt(false, true, "/x", ':'), None);
    assert_eq!(rc_attempt(true, false, "/x", ':'), None);
    assert_eq!(rc_attempt(true, true, "::", ':'), None);
}

#[test]
fn rc_shells_in_order() {
    let v = rc_shells();
    let names: Vec<&str> = v.iter().map(|r| r.shell).collect();
    assert_eq!(names, vec!["zsh", "fish", "bash"]);
    assert_eq!(v[1].rc_file, ".config/fish/config.fish");
    assert!(v[1].snippet.contains("string join :"));
}

#[test]
fn dsh_candidates_per_platform() {
    assert_eq!(dsh_candidates(false), vec!["dsh"]);
    let win = dsh_candidates(true);
    assert_eq!(win, vec!["dsh.com", "dsh.exe", "dsh.bat", "dsh.cmd", "dsh.ps1"]);
    assert!(!win.contains(&"dsh"));
}

#[test]
fn spawn_path_choice() {
    let aug = strings(&["/aug", "/usr/local/bin"]);
    let cur = strings(&["/usr/bin", "", "/aug"]);
    assert_eq!(spawn_path(&aug, true, Some(strings(&["/rc"])), &cur, ":"), "/aug:/usr/local/bin");
    assert_eq!(
        spawn_path(&aug, false, Some(strings(&["/rc", "", "/aug"])), &cur, ":"),
        "/rc:/aug:/usr/local/bin:/usr/bin"
    );
    assert_eq!(spawn_path(&aug, false, None, &cur, ":"), "/aug:/usr/local/bin");
}

#[test]
fn spawn_path_is_valid_and_nonempty() {
    let mut env = env_with_home("/h");
    env.dsh_bin_dir = Some(String::new());
    env.path = strings(&["", "/usr/bin"]);
    let aug = augmented_dirs(&env, false);
    for (found, rc) in [(true, None), (false, None), (false, Some(strings(&["", ""]))), (false, Some(strings(&["/x"])))] {
        let p = spawn_path(&aug, found, rc, &strings(&["", "/bin"]), ":");
        assert!(!p.is_empty(), "spawn_path must not be empty: {p}");
        assert!(p.split(':').all(|d| !d.is_empty()));
    }
}

#[test]
fn launch_plans() {
    let p = launch_plan("C:\\npm\\dsh.ps1", true);
    assert_eq!(p.program, "powershell.exe");
    assert_eq!(p.args, strings(&["-NoProfile", "-ExecutionPolicy", "Bypass", "-File", "C:\\npm\\dsh.ps1", "web"]));
    let q = launch_plan("dsh", false);
    assert_eq!(q.program, "dsh");
    assert_eq!(q.args, strings(&["web"]));
}

#[test]
fn status_reports() {
    let s = existing_server_status(default_url());
    assert!(s.running && !s.reconnecting);
    assert_eq!(s.url.as_deref(), Some("http://127.0.0.1:3080"));
    assert_eq!(s.detail, "existing server found at http://127.0.0.1:3080");
    let s = starting_status();
    assert!(s.running && s.reconnecting && s.url.is_none());
    assert_eq!(s.detail, "starting `dsh web`…");
    let s = launch_failed_status("No such file or directory (os error 2)");
    assert!(!s.running && !s.reconnecting);
    assert_eq!(s.detail, "failed to launch `dsh web`: No such file or directory (os error 2)");
    let s = restored_status("http://h:1");
    assert_eq!(s.detail, "connection restored");
    assert_eq!(s.url.as_deref(), Some("http://h:1"));
    let s = lost_status();
    assert!(!s.running && s.url.is_none());
    assert_eq!(s.detail, "connection lost — reconnect to the backend");
}

#[test]
fn announced_line_reports_running() {
    let (u, s) = announced("  dsh web: http://127.0.0.1:3081 \n").expect("announced");
    assert_eq!(u, "http://127.0.0.1:3081");
    assert!(s.running && !s.reconnecting);
    assert_eq!(s.url.as_deref(), Some("http://127.0.0.1:3081"));
    assert_eq!(s.detail, "dsh web: http://127.0.0.1:3081");
    assert!(announced("building assets").is_none());
}

#[test]
fn current_status_running_when_url_known_or_reachable() {
    let s = current_status(Some("http://h:1".to_string()), true, false);
    assert!(s.running && s.reconnecting);
    assert_eq!(s.detail, "status");
    let s = current_status(None, false, true);
    assert!(s.running && s.url.is_none());
    let s = current_status(None, false, false);
    assert!(!s.running);
}

#[test]
fn watcher_decisions() {
    assert_eq!(watch_step(false, true, false), WatchAction::Restored);
    assert_eq!(watch_step(true, false, true), WatchAction::Lost);
    assert_eq!(watch_step(true, false, false), WatchAction::Unchanged);
    assert_eq!(watch_step(true, true, true), WatchAction::Unchanged);
    assert_eq!(watch_step(false, false, true), WatchAction::Unchanged);
}

#[test]
fn augmented_path_exact_unix_text() {
    let mut env = env_with_home("/h");
    env.dsh_bin_dir = Some("/d".to_string());
    env.pnpm_home = Some("/p".to_string());
    env.path = strings(&["/usr/bin"]);
    assert_eq!(
        augmented_path(&env, false),
        "/d:/h/.npm-global/bin:/h/.npm/bin:/h/.local/bin:/h/bin:/p:/h/Library/pnpm:/h/.local/share/pnpm:/usr/local/bin:/opt/homebrew/bin:/usr/bin"
    );
    assert_eq!(augmented_dirs(&env, false)[1], "/h/.npm-global/bin");
}

#[test]
fn augmented_path_windows_joins() {
    let mut env = env_with_home("C:\\Users\\u");
    env.app_data = Some("C:".to_string());
    env.local_app_data = Some("D:\\".to_string());
    env.program_files = Some("E:/pf/".to_string());
    let dirs = augmented_dirs(&env, true);
    assert_eq!(dirs[0], "C:\\Users\\u\\.npm-global\\bin");
    assert!(dirs.contains(&"C:npm".to_string()));
    assert!(dirs.contains(&"D:\\pnpm".to_string()));
    assert!(dirs.contains(&"E:/pf/nodejs".to_string()));
    let p = augmented_path(&env, true);
    assert!(p.starts_with("C:\\Users\\u\\.npm-global\\bin;"));
}

#[test]
fn launch_steps() {
    match launch_step(&LaunchEvent::Probed { reachable: true }) {
        LaunchAction::Connect { url, status, remember } => {
            assert_eq!(url, "http://127.0.0.1:3080");
            assert!(!remember);
            assert_eq!(status.detail, "existing server found at http://127.0.0.1:3080");
        }
        _ => panic!("expected to connect"),
    }
    assert!(matches!(launch_step(&LaunchEvent::Probed { reachable: false }), LaunchAction::Spawn));
    match launch_step(&LaunchEvent::Spawned) {
        LaunchAction::ReadOutput { status } => assert_eq!(status.detail, "starting `dsh web`…"),
        _ => panic!("expected to read output"),
    }
    match launch_step(&LaunchEvent::SpawnFailed { error: "boom".to_string() }) {
        LaunchAction::Fail { status } => {
            assert!(!status.running);
            assert_eq!(status.detail, "failed to launch `dsh web`: boom");
        }
        _ => panic!("expected a failure"),
    }
    match launch_step(&LaunchEvent::Line { text: " dsh web: http://127.0.0.1:3081 ".to_string() }) {
        LaunchAction::Connect { url, status, remember } => {
            assert_eq!(url, "http://127.0.0.1:3081");
            assert!(remember);
            assert_eq!(status.detail, "dsh web: http://127.0.0.1:3081");
        }
        _ => panic!("expected to connect"),
    }
    assert!(matches!(launch_step(&LaunchEvent::Line { text: "compiling".to_string() }), LaunchAction::ReadOn));
    assert!(matches!(launch_step(&LaunchEvent::OutputEnded), LaunchAction::Stop));
    match launch_step(&LaunchEvent::NoOutput) {
        LaunchAction::Watch { url } => assert_eq!(url, "http://127.0.0.1:3080"),
        _ => panic!("expected to watch"),
    }
}
