use kitewright::engine::{
    data_dir, is_launch_tab, launch_args, parse_viewport, resolve_executable, spawn_reaper, Detected, Engine,
    EngineConfig, EngineVars, LaunchStep, WarmStep,
};
use kitewright::json::{Json, Number};
use kitewright::node::{
    launch, map_pdf_options, LaunchOptions, NodePdfOptions, PdfMargin,
};
use kitewright::secrets::{
    resolve_secret_ref, secret_file_allowed, secret_from_file, secret_not_set, SecretSource,
};
use kitewright::session::{navigation_error, PageStep, Purpose, SessionState};
use kitewright::wait::{
    actionable_error, actionable_timeout, assert_presence, blocker, first_sample, is_stable,
    poll_budget, poll_timed_out, rects_equal, resolve_actionable_timeout, retry, wait_actionable,
    wait_for, wait_timeout_ms, Sample, WaitStep,
};

const MS: u64 = 1_000_000;

fn vars() -> EngineVars {
    EngineVars {
        headless: true,
        idle_timeout_secs: None,
        no_sandbox: false,
        executable: None,
        context_pool: None,
        cache_dir: None,
        prewarm_url: None,
        viewport: None,
        temp_dir: "/tmp".to_string(),
        os: "linux".to_string(),
    }
}

fn config() -> EngineConfig {
    EngineConfig::from_vars(vars())
}

fn obj(members: Vec<(&str, Json)>) -> Json {
    Json::Object(members.into_iter().map(|(k, v)| (k.to_string(), v)).collect())
}

fn text(s: &str) -> Json {
    Json::Str(s.to_string())
}

fn rect(x: u64) -> Json {
    Json::Array(vec![Json::Num(Number::PosInt(x)), Json::Num(Number::PosInt(1))])
}

// -- configuration ---------------------------------------------------------------------

#[test]
fn configuration_defaults() {
    let c = config();
    assert_eq!(c.idle_ttl_ms, 1_800_000);
    assert_eq!(c.nav_timeout_ms, 20_000);
    assert!(!c.headful && !c.no_sandbox);
    assert_eq!(c.context_pool_size, 2);
    assert_eq!(c.cache_dir, "/tmp/kitewright-cache");
    assert_eq!(c.prewarm_url, None);
    assert_eq!(c.viewport, (1440, 900));
    let headed = EngineConfig::from_vars(EngineVars { headless: false, ..vars() });
    assert!(headed.headful);
    assert_eq!(headed.context_pool_size, 0);
}

#[test]
fn configuration_overrides() {
    let c = EngineConfig::from_vars(EngineVars {
        headless: false,
        idle_timeout_secs: Some("5".to_string()),
        no_sandbox: true,
        executable: Some("/opt/chrome".to_string()),
        context_pool: Some("3".to_string()),
        cache_dir: Some("/c".to_string()),
        prewarm_url: Some("https://x".to_string()),
        viewport: Some("800x600".to_string()),
        temp_dir: "/tmp".to_string(),
        os: "linux".to_string(),
    });
    assert_eq!(c.idle_ttl_ms, 5_000);
    assert!(c.no_sandbox);
    assert_eq!(c.executable.as_deref(), Some("/opt/chrome"));
    assert_eq!(c.context_pool_size, 3);
    assert_eq!(c.cache_dir, "/c");
    assert_eq!(c.prewarm_url.as_deref(), Some("https://x"));
    assert_eq!(c.viewport, (800, 600));
    let odd = EngineConfig::from_vars(EngineVars {
        idle_timeout_secs: Some("soon".to_string()),
        context_pool: Some("-1".to_string()),
        cache_dir: Some(String::new()),
        prewarm_url: Some(String::new()),
        viewport: Some("wide".to_string()),
        ..vars()
    });
    assert_eq!(odd.idle_ttl_ms, 1_800_000);
    assert_eq!(odd.context_pool_size, 2);
    assert_eq!(odd.cache_dir, "/tmp/kitewright-cache");
    assert!(odd.prewarm_url.is_none());
    assert_eq!(odd.viewport, (1440, 900));
    assert_eq!(odd.copy().cache_dir, "/tmp/kitewright-cache");
}

#[test]
fn viewport_sizes() {
    assert_eq!(parse_viewport("1x2"), Some((1, 2)));
    assert_eq!(parse_viewport("0x2"), None);
    assert_eq!(parse_viewport("12"), None);
    assert_eq!(parse_viewport("1x2x3"), None);
    assert_eq!(parse_viewport("4294967296x1"), None);
}

#[test]
fn launch_arguments_are_bare_keys() {
    let mut c = config();
    let args = launch_args(&c);
    assert_eq!(args.len(), 12);
    assert!(args.iter().all(|a| !a.starts_with('-')));
    assert_eq!(args[0], "disable-gpu");
    assert_eq!(args[11], "disk-cache-dir=/tmp/kitewright-cache");
    c.no_sandbox = true;
    assert_eq!(launch_args(&c).last().unwrap(), "no-sandbox");
    assert_eq!(data_dir("/tmp", 42, 7, "linux"), "/tmp/kitewright-42-7");
}

#[test]
fn only_a_blank_stray_page_is_the_launch_tab() {
    let pooled = vec!["p1".to_string(), "p2".to_string()];
    assert!(is_launch_tab("t", "k", &pooled, Some("about:blank")));
    assert!(!is_launch_tab("k", "k", &pooled, Some("about:blank")));
    assert!(!is_launch_tab("p2", "k", &pooled, Some("about:blank")));
    assert!(!is_launch_tab("t", "k", &pooled, Some("http://x/")));
    assert!(!is_launch_tab("t", "k", &pooled, None));
}

#[test]
fn executable_preference() {
    let found = |exists: bool, path: &str| {
        Some(Detected { path: path.to_string(), exists })
    };
    let s = |t: &str| Some(t.to_string());
    assert_eq!(resolve_executable(Some("/x"), s("/k"), None, s("/i"), "linux"), s("/x"));
    assert_eq!(resolve_executable(None, s("/k"), found(true, "/d"), s("/i"), "linux"), s("/k"));
    assert_eq!(resolve_executable(None, None, found(true, "/d"), s("/i"), "linux"), s("/d"));
    assert_eq!(resolve_executable(None, None, found(false, "/d"), s("/i"), "linux"), s("/i"));
    assert_eq!(resolve_executable(None, None, found(true, "/d.sh"), s("/i"), "linux"), s("/i"));
    assert_eq!(resolve_executable(None, None, None, None, "linux"), None);
}

// -- the engine ------------------------------------------------------------------------

#[test]
fn launch_probe_and_replace() {
    let mut e: Engine<u8> = Engine::new(config());
    assert!(!e.is_running());
    assert_eq!(e.launch_if_needed(false), LaunchStep::Launch);
    assert_eq!(e.launched(10), 0);
    assert!(e.is_running());
    assert_eq!(e.launch_if_needed(true), LaunchStep::Reuse);
    e.pool_add(1);
    assert_eq!(e.launch_if_needed(false), LaunchStep::Replace);
    assert!(!e.is_running());
    assert_eq!(e.pooled_context_count(), 0);
    assert_eq!(e.launched(20), 1);
    assert!(e.shutdown());
    assert!(!e.shutdown());
}

#[test]
fn reaper_waits_for_the_idle_time() {
    let mut c = config();
    c.idle_ttl_ms = 2_000;
    let mut e: Engine<u8> = Engine::new(c);
    e.launched(0);
    assert!(!e.reap(1_999));
    e.touch_activity(1_500);
    assert!(!e.reap(3_499));
    e.pool_add(7);
    assert!(e.reap(3_500));
    assert!(!e.is_running());
    assert!(!e.reap(9_999));
}

#[test]
fn visible_browsers_are_not_reaped() {
    let mut c = config();
    c.headful = true;
    c.idle_ttl_ms = 1;
    let mut e: Engine<u8> = Engine::new(c);
    e.launched(0);
    assert!(!e.reap(u64::MAX));
    assert!(!e.prewarm());
}

#[test]
fn reaper_period() {
    let mut c = config();
    assert_eq!(spawn_reaper(&c), 15_000);
    c.idle_ttl_ms = 2_000;
    assert_eq!(spawn_reaper(&c), 2_000);
    c.idle_ttl_ms = 10;
    assert_eq!(spawn_reaper(&c), 1_000);
}

#[test]
fn pool_fills_and_hands_out() {
    let mut e: Engine<u8> = Engine::new(config());
    assert!(!e.fill_pool());
    e.launched(0);
    assert!(e.fill_pool());
    e.pool_add(1);
    e.pool_add(2);
    assert!(!e.fill_pool());
    assert_eq!(e.pooled_context_count(), 2);
    assert_eq!(e.pool_take(), Some(2));
    assert!(e.fill_pool());
    assert_eq!(e.pool_take(), Some(1));
    assert_eq!(e.pool_take(), None);
    assert!(e.retire_launch_tab());
    assert!(!e.retire_launch_tab());
}

#[test]
fn prewarm_steps() {
    let mut e: Engine<u8> = Engine::new(config());
    assert!(e.prewarm());
    e.launched(0);
    assert_eq!(e.warm_step(true), WarmStep::Done);
    assert_eq!(e.warm_step(false), WarmStep::BlankPage);
    e.pool_add(1);
    assert_eq!(e.warm_step(false), WarmStep::Done);
    e.config.prewarm_url = Some("https://x".to_string());
    assert_eq!(e.warm_step(false), WarmStep::Connect);
}

// -- sessions --------------------------------------------------------------------------

fn cookie() -> Json {
    obj(vec![("name", text("sid")), ("value", text("sess-A-value"))])
}

#[test]
fn sessions_recover_by_navigating() {
    let mut s: SessionState<u8, u8> = SessionState::new();
    assert!(matches!(s.ensure_page(0, false), PageStep::Create { lost: false }));
    assert!(s.page_created(5, Some(6), 0).is_none());
    assert!(matches!(s.ensure_page(0, false), PageStep::Reuse));
    s.goto("http://x", None, Some(vec![cookie()]), None);
    assert_eq!(s.last_url.as_deref(), Some("http://x"));
    match s.ensure_page(1, false) {
        PageStep::Lost(m) => assert!(m.contains("browser_navigate")),
        _ => panic!("the page is gone"),
    }
    assert_eq!(s.last_url, None);
    assert!(matches!(s.ensure_page(1, true), PageStep::Create { lost: false }));
    let replay = s.page_created(8, None, 1).unwrap();
    assert_eq!(replay[0].value, "sess-A-value");
    assert!(matches!(s.ensure_page(1, false), PageStep::Reuse));
}

#[test]
fn navigation_alone_recovers_too() {
    let mut s: SessionState<u8, u8> = SessionState::new();
    s.page_created(5, Some(6), 0);
    s.goto("http://x", Some("http://x/".to_string()), Some(vec![cookie()]), None);
    s.goto("http://x", Some("http://x/".to_string()), None, None);
    assert!(matches!(s.ensure_page(3, true), PageStep::Create { lost: true }));
    assert_eq!(s.page_created(5, None, 3).map(|c| c.len()), Some(1));
    assert!(matches!(s.ensure_page(3, false), PageStep::Reuse));
    assert_eq!(s.close(), (Some(5), None));
    assert!(s.saved_cookies.is_empty());
}

#[test]
fn lite_mode_is_sticky_only_when_chosen() {
    let mut s: SessionState<u8, u8> = SessionState::new();
    assert!(!s.navigate_with(None));
    assert!(s.navigate_with(Some(true)));
    assert!(s.navigate_with(None));
    assert!(s.lite_for(Purpose::Navigate));
    assert!(!s.lite_for(Purpose::Visual));
    assert!(!s.navigate_with(Some(false)));
    assert!(s.lite_for(Purpose::Text));
}

#[test]
fn restored_storage_waits_for_its_origin() {
    let mut s: SessionState<u8, u8> = SessionState::new();
    s.defer_localstorage("http://o".to_string(), vec![("k".to_string(), "v".to_string())]);
    assert!(s.goto("http://p", None, None, Some("http://p")).is_none());
    let due = s.goto("http://o", None, None, Some("http://o")).unwrap();
    assert_eq!(due, vec![("k".to_string(), "v".to_string())]);
    assert!(s.goto("http://o", None, None, Some("http://o")).is_none());
    s.navigate_back("http://back");
    assert_eq!(s.last_url.as_deref(), Some("http://back"));
}

#[test]
fn dialogs_are_wired_once_per_page() {
    let mut s: SessionState<u8, u8> = SessionState::new();
    assert!(s.handle_dialog(true, None));
    s.dialog_wired();
    assert!(!s.handle_dialog(false, Some("x".to_string())));
    assert!(!s.dialog.as_ref().unwrap().accept);
    s.page_created(1, None, 0);
    assert!(s.handle_dialog(true, None));
    assert_eq!(navigation_error("http://x"), "navigation to http://x failed");
}

// -- waiting ---------------------------------------------------------------------------

#[test]
fn timeouts_are_capped() {
    assert_eq!(wait_timeout_ms(None), 10_000);
    assert_eq!(wait_timeout_ms(Some(99_999)), 30_000);
    assert_eq!(actionable_timeout(), 5_000);
    assert_eq!(resolve_actionable_timeout(None), 5_000);
    assert_eq!(resolve_actionable_timeout(Some(31_000)), 30_000);
    assert_eq!(resolve_actionable_timeout(Some(1)), 1);
}

#[test]
fn poll_budgets() {
    assert_eq!(poll_budget(10_000, 0), 3_000 * MS);
    assert_eq!(poll_budget(10_000, 8_000 * MS), 2_000 * MS);
    assert_eq!(poll_budget(10_000, 9_900 * MS), 250 * MS);
    assert_eq!(poll_budget(10_000, 20_000 * MS), 250 * MS);
    assert_eq!(poll_budget(u64::MAX, u64::MAX), 3_000 * MS);
    assert_eq!(
        poll_timed_out(250 * MS),
        "condition evaluation exceeded 250ms poll budget"
    );
}

#[test]
fn wait_for_needs_a_condition() {
    assert_eq!(
        wait_for(None, None, None).err().unwrap(),
        "wait_for needs at least one of `selector` or `text`"
    );
    assert_eq!(
        assert_presence(None, None, true, None).err().unwrap(),
        "assert needs at least one of `selector` or `text`"
    );
}

#[test]
fn wait_for_decisions() {
    let w = wait_for(Some("#a"), None, Some(400)).unwrap();
    assert!(matches!(w.step(Ok(true), 999 * MS + 5), WaitStep::Done(999)));
    assert!(matches!(w.step(Ok(false), 399 * MS), WaitStep::Again));
    assert!(matches!(w.step(Err("x".to_string()), 0), WaitStep::Again));
    match w.step(Ok(false), 400 * MS) {
        WaitStep::TimedOut(m) => assert_eq!(
            m,
            "wait_for timed out after 400ms (selector: Some(\"#a\"), text: None)"
        ),
        _ => panic!("the deadline has passed"),
    }
    match w.step(Err("boom".to_string()), 401 * MS) {
        WaitStep::TimedOut(m) => assert_eq!(
            m,
            "wait_for timed out after 400ms (selector: Some(\"#a\"), text: None); last evaluation error: boom"
        ),
        _ => panic!("the deadline has passed"),
    }
}

#[test]
fn assertions_pass_and_fail_without_errors() {
    let mut a = assert_presence(Some("#heading"), None, true, Some(2_000)).unwrap();
    let o = a.step(Some(true), 5 * MS).unwrap();
    assert!(o.passed && o.found && o.elapsed_ms == 5);
    assert_eq!(o.checked, "selector \"#heading\" present");
    let mut a = assert_presence(Some("#never-there"), None, false, Some(2_000)).unwrap();
    let o = a.step(Some(false), 0).unwrap();
    assert!(o.passed && !o.found);
    let mut a = assert_presence(Some("#never-there"), None, true, Some(400)).unwrap();
    assert!(a.step(Some(false), 10 * MS).is_none());
    assert!(a.step(None, 20 * MS).is_none());
    let o = a.step(None, 400 * MS).unwrap();
    assert!(!o.passed && !o.found && o.elapsed_ms >= 400);
}

#[test]
fn failed_polls_keep_the_last_presence() {
    let mut a = assert_presence(None, Some("t"), false, Some(100)).unwrap();
    assert!(a.step(Some(true), 0).is_none());
    let o = a.step(None, 100 * MS).unwrap();
    assert!(!o.passed && o.found);
}

#[test]
fn actionability_samples() {
    let ok = obj(vec![("rect", rect(1)), ("state", text("ok"))]);
    let moved = obj(vec![("rect", rect(2)), ("state", text("ok"))]);
    let hidden = obj(vec![("state", text("hidden"))]);
    assert!(matches!(first_sample(&ok), Sample::Settling(Some(_))));
    assert!(matches!(first_sample(&hidden), Sample::Blocked(s) if s == "hidden"));
    assert!(matches!(first_sample(&Json::Null), Sample::Blocked(s) if s == "notfound"));
    assert_eq!(blocker(&ok, Some(&ok)), None);
    assert_eq!(blocker(&ok, Some(&moved)).as_deref(), Some("unstable"));
    assert_eq!(blocker(&ok, Some(&hidden)).as_deref(), Some("unstable"));
    assert_eq!(blocker(&hidden, None).as_deref(), Some("hidden"));
    assert!(is_stable(Some(&rect(1)), &ok));
    assert!(!is_stable(None, &ok));
    assert!(!rects_equal(None, None));
}

#[test]
fn actionability_errors_name_the_blocker() {
    assert_eq!(
        actionable_error("#a", "notfound", 5_000),
        "element \"#a\" not found within 5000ms"
    );
    assert_eq!(
        actionable_error("#a", "hidden", 1),
        "element \"#a\" is present but not visible (display:none / visibility:hidden / zero-size) after 1ms"
    );
    assert_eq!(
        actionable_error("#a", "disabled", 1),
        "element \"#a\" is present but disabled after 1ms"
    );
    assert_eq!(
        actionable_error("#a", "covered", 1),
        "element \"#a\" is covered by another element (not the top element at its center point) after 1ms"
    );
    assert_eq!(
        actionable_error("#a", "unstable", 1),
        "element \"#a\" never became stable (still animating/moving) within 1ms"
    );
    assert_eq!(
        actionable_error("#a", "odd", 1),
        "element \"#a\" not actionable (odd) within 1ms"
    );
    assert!(wait_actionable("#a", "hidden", 100, 99 * MS).is_ok());
    assert!(wait_actionable("#a", "hidden", 100, 100 * MS).is_err());
    assert!(wait_actionable("#a", "hidden", u64::MAX, u64::MAX).is_ok());
}

#[test]
fn retries_give_up_after_the_third_attempt() {
    assert_eq!(retry("key down", 0, "e"), None);
    assert_eq!(retry("key down", 1, "e"), None);
    assert_eq!(
        retry("key down", 2, "Request timed out").as_deref(),
        Some("key down failed after retries: Request timed out")
    );
}

// -- secrets ---------------------------------------------------------------------------

#[test]
fn secret_references() {
    assert!(matches!(
        resolve_secret_ref("env:KW_FILL_SECRET_TEST", false),
        Ok(SecretSource::Env(n)) if n == "KW_FILL_SECRET_TEST"
    ));
    assert!(resolve_secret_ref("not-a-reference", true).is_err());
    assert!(resolve_secret_ref("env:", true).is_err());
    assert!(resolve_secret_ref("file:/etc/hostname", false).is_err());
    assert!(matches!(
        resolve_secret_ref("file:/etc/hostname", true),
        Ok(SecretSource::File(p)) if p == "/etc/hostname"
    ));
    assert!(secret_file_allowed(None, "/etc/hostname", "linux"));
    assert!(secret_file_allowed(Some("/run/secrets"), "/run/secrets/pw", "linux"));
    assert!(!secret_file_allowed(Some("/run/secrets"), "/run/secrets-old/pw", "linux"));
    assert!(!secret_file_allowed(Some(""), "/x", "linux"));
    assert!(secret_file_allowed(Some("C:\\s"), "C:\\s\\pw", "windows"));
    assert!(!secret_file_allowed(Some("C:\\s"), "C:\\s-old\\pw", "windows"));
    assert!(!secret_file_allowed(Some("/s"), "/s\\pw", "linux"));
    assert_eq!(secret_from_file("hunter2\r\n"), "hunter2");
    assert_eq!(secret_from_file("hunter2\n"), "hunter2");
    assert_eq!(secret_from_file("a\nb"), "a\nb");
    assert_eq!(
        secret_not_set("PW"),
        "secret environment variable PW is not set"
    );
}

// -- bindings --------------------------------------------------------------------------

#[test]
fn bindings_always_run_headless() {
    let base = || EngineConfig::from_vars(EngineVars { headless: false, ..vars() });
    let c = launch(None, base());
    assert!(!c.headful && !c.no_sandbox);
    assert_eq!(c.idle_ttl_ms, 120_000);
    let c = launch(
        Some(LaunchOptions {
            headless: Some(false),
            args: Some(vec!["--foo".to_string(), "--no-sandbox".to_string()]),
            executable_path: Some("/x".to_string()),
        }),
        base(),
    );
    assert!(!c.headful && c.no_sandbox);
    assert_eq!(c.executable.as_deref(), Some("/x"));
}

#[test]
fn bindings_map_pdf_options() {
    let o = map_pdf_options(NodePdfOptions {
        format: Some("a4".to_string()),
        landscape: None,
        print_background: Some(true),
        display_header_footer: Some(true),
        header_template: None,
        footer_template: Some("<b>f</b>".to_string()),
        margin: Some(PdfMargin {
            top: Some("20px".to_string()),
            bottom: Some("35px".to_string()),
            left: None,
            right: None,
        }),
        scale: None,
        prefer_css_page_size: Some(false),
    });
    assert!(!o.landscape && o.print_background && o.display_header_footer);
    assert_eq!(o.margin_top.as_deref(), Some("20px"));
    assert_eq!(o.margin_bottom.as_deref(), Some("35px"));
    assert_eq!(o.margin_left, None);
    assert_eq!(o.footer_template.as_deref(), Some("<b>f</b>"));
}
