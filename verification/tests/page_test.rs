use kitewright::ax::{ax_snapshot, MAX_SNAPSHOT_CHARS};
use kitewright::capture::{
    console, console_args_to_text, network, push_capped, request_sent, response_received,
    ConsoleArg, ConsoleMessage, NetworkRequest, CAPTURE_CAP,
};
use kitewright::json::Json;
use kitewright::keys::{dispatch_key, key_events, KeyDefinition, KeyEventType};
use kitewright::nav::{apply_blocking, begin_navigation, validate_navigation_url};
use kitewright::page::{
    evaluate, extract_markdown, fill_form, filled, perform_type, read_page_info, set_content,
    type_error, TypeStep,
};
use kitewright::selector::{
    actionable_script, all_css_paths, check_select, checked_description, condition_script,
    extract_from_page, extract_script, is_special_selector, query_all, resolve_iife,
    resolve_selector, select_option, select_script, ExtractPlan, QueryPlan, SelectOutcome,
};
use kitewright::snapshot::{
    compute_snapshot, diff_snapshots, dom_outline, snapshot, snapshot_diff, SnapshotSource,
};
use kitewright::storage::{
    apply_localstorage, get_all_cookies, page_origin, read_document, restore_state, save_state,
    set_cookies, StorageStep,
};
use std::collections::VecDeque;

fn parse(s: &str) -> Json {
    match Json::parse(s) {
        Ok(j) => j,
        Err(e) => panic!("{s}: {e}"),
    }
}

// -- accessibility snapshots --------------------------------------------------------

#[test]
fn outline_lifts_children_of_skipped_nodes() {
    let resp = parse(
        r#"{"nodes":[
            {"nodeId":"1","role":{"value":"RootWebArea"},"name":{"value":"Home"},"childIds":["2","9"]},
            {"nodeId":"2","parentId":"1","role":{"value":"generic"},"childIds":["3","4"]},
            {"nodeId":"3","parentId":"2","role":{"value":"heading"},"name":{"value":"Hi \"you\""},
             "properties":[{"name":"level","value":{"value":2}},{"name":"hidden","value":{"value":true}}]},
            {"nodeId":"4","parentId":"2","role":{"value":"checkbox"},"name":{"value":"ok"},
             "properties":[{"name":"focused","value":{"value":true}},{"name":"disabled","value":{"value":false}},
                           {"name":"checked","value":{"value":"mixed"}}],"childIds":["5"]},
            {"nodeId":"5","parentId":"4","ignored":true,"role":{"value":"button"},"name":{"value":"x"}}
        ]}"#,
    );
    assert_eq!(
        ax_snapshot(&resp).unwrap(),
        "document \"Home\"\n  heading \"Hi \\\"you\\\"\" [level=2]\n  checkbox \"ok\" [focused, checked=\"mixed\"]\n"
    );
}

#[test]
fn outline_of_an_empty_tree_is_an_error() {
    assert_eq!(
        ax_snapshot(&parse("{\"nodes\":[]}")).unwrap_err(),
        "empty accessibility tree"
    );
    assert!(ax_snapshot(&parse("{}")).is_err());
}

#[test]
fn outline_of_a_cyclic_tree_ends() {
    let resp = parse(r#"{"nodes":[{"nodeId":"a","childIds":["a"]}]}"#);
    assert_eq!(ax_snapshot(&resp).unwrap(), "");
}

#[test]
fn outline_is_cut_at_the_budget() {
    let mut nodes = vec![];
    let ids: Vec<String> = (1..400).map(|i| format!("\"{i}\"")).collect();
    nodes.push(format!(
        "{{\"nodeId\":\"0\",\"role\":{{\"value\":\"main\"}},\"childIds\":[{}]}}",
        ids.join(",")
    ));
    for i in 1..400 {
        nodes.push(format!(
            "{{\"nodeId\":\"{i}\",\"parentId\":\"0\",\"role\":{{\"value\":\"StaticText\"}},\"name\":{{\"value\":\"{}\"}}}}",
            "w".repeat(90)
        ));
    }
    let out = ax_snapshot(&parse(&format!("{{\"nodes\":[{}]}}", nodes.join(",")))).unwrap();
    let note = "\n[... snapshot truncated at 15000 chars ...]";
    assert!(out.ends_with(note));
    let body = &out[..out.len() - note.len()];
    assert!(body.len() >= MAX_SNAPSHOT_CHARS);
    assert!(body.len() < MAX_SNAPSHOT_CHARS + 101);
    assert!(body.starts_with("main\n  text \"www"));
    assert!(body.ends_with("\"\n"));
}

#[test]
fn outline_only_grows() {
    let tree = |children: usize| {
        let ids: Vec<String> = (1..=children).map(|i| format!("\"{i}\"")).collect();
        let mut nodes = vec![format!(
            "{{\"nodeId\":\"0\",\"role\":{{\"value\":\"main\"}},\"childIds\":[{}]}}",
            ids.join(",")
        )];
        for i in 1..=children {
            nodes.push(format!(
                "{{\"nodeId\":\"{i}\",\"parentId\":\"0\",\"role\":{{\"value\":\"link\"}},\"name\":{{\"value\":\"{}\"}}}}",
                "w".repeat(990)
            ));
        }
        ax_snapshot(&parse(&format!("{{\"nodes\":[{}]}}", nodes.join(",")))).unwrap()
    };
    for n in 1..15 {
        assert!(tree(n + 1).starts_with(&tree(n)));
    }
    // Once the budget is spent nothing is added.
    assert!(tree(16).ends_with("chars ...]"));
    assert_eq!(tree(16), tree(17));
}

// -- snapshots and differences -------------------------------------------------------

#[test]
fn diff_reports_added_and_removed_lines() {
    let out = diff_snapshots("a\n  b\n", "b\n\n c\n");
    assert_eq!(
        out,
        "snapshot diff (vs previous snapshot in this session):\n+ c\n- a\n"
    );
}

#[test]
fn moved_lines_are_no_change() {
    assert_eq!(
        diff_snapshots("x\ny\n", "  y\n  x\n"),
        "snapshot diff (vs previous snapshot in this session):\n(no changes since last snapshot)\n"
    );
}

#[test]
fn first_difference_is_the_baseline() {
    let mut last = None;
    let first = snapshot_diff(&mut last, "button \"Go\"\n".to_string());
    assert!(first.starts_with("(baseline: full snapshot"));
    assert!(first.ends_with("\n\nbutton \"Go\"\n"));
    let second = snapshot_diff(&mut last, "button \"Go\"\ntext \"done\"\n".to_string());
    assert_eq!(
        second,
        "snapshot diff (vs previous snapshot in this session):\n+ text \"done\"\n"
    );
    let full = snapshot(&mut last, "other\n".to_string());
    assert_eq!(full, "other\n");
    assert_eq!(last.as_deref(), Some("other\n"));
}

#[test]
fn blank_trees_fall_back_to_the_dom() {
    assert!(matches!(
        compute_snapshot(Ok("text\n".to_string())),
        SnapshotSource::Tree(_)
    ));
    assert!(matches!(
        compute_snapshot(Ok(" \n".to_string())),
        SnapshotSource::DomOutline
    ));
    assert!(matches!(
        compute_snapshot(Err("boom".to_string())),
        SnapshotSource::DomOutline
    ));
    assert_eq!(dom_outline(String::new()), "(empty page)");
    assert_eq!(dom_outline("h1".to_string()), "h1");
    assert!(dom_outline("x".repeat(20_000)).ends_with("[... truncated ...]"));
}

// -- selectors and scripts -----------------------------------------------------------

#[test]
fn selector_kinds() {
    assert!(is_special_selector("text=Sign in"));
    assert!(is_special_selector("role=button[name=\"Go\"]"));
    assert!(!is_special_selector("#text=x"));
    assert!(matches!(query_all("role=link"), QueryPlan::ResolveOne));
    match query_all(".item") {
        QueryPlan::ListPaths(js) => assert_eq!(js, all_css_paths(".item")),
        QueryPlan::ResolveOne => panic!("plain CSS lists paths"),
    }
}

#[test]
fn selectors_enter_scripts_as_literals() {
    let js = resolve_iife("a[title=\"');alert(1)//\"]");
    assert!(js.starts_with("(() => {"));
    assert!(js.contains("const SEL = \"a[title=\\\"');alert(1)//\\\"]\";"));
    assert!(js.ends_with("})()"));
    assert!(actionable_script("#go").contains("document.querySelector(\"#go\")"));
}

#[test]
fn extraction_scripts() {
    assert_eq!(
        extract_script(".item", None),
        "Array.from(document.querySelectorAll(\".item\")).slice(0, 50).map(el => (el.innerText || el.textContent || '').trim())"
    );
    assert_eq!(
        extract_script("a", Some("href")),
        "Array.from(document.querySelectorAll(\"a\")).slice(0, 50).map(el => el.getAttribute(\"href\") || '')"
    );
    assert!(matches!(extract_from_page("text=x", None), ExtractPlan::Resolve));
    assert!(matches!(extract_from_page("a", None), ExtractPlan::Evaluate(_)));
}

#[test]
fn unresolved_selectors_are_named() {
    assert_eq!(
        resolve_selector("#a\"b", None).unwrap_err(),
        "no element matches selector \"#a\\\"b\""
    );
    assert_eq!(
        resolve_selector("text=x", Some("body > p".to_string())).unwrap(),
        "body > p"
    );
}

#[test]
fn option_selection_prefers_the_value() {
    let js = select_script("#s", Some("b"), Some("Label")).unwrap();
    assert!(js.contains("document.querySelector(\"#s\")"));
    assert!(js.contains("opt = opts.find(o => o.value === \"b\");"));
    assert!(!js.contains("Label"));
    let js = select_script("#s", None, Some("Two")).unwrap();
    assert!(js.contains("=== \"Two\") || opts.find(o => (o.textContent || '').trim().includes(\"Two\"));"));
    assert_eq!(
        select_script("#s", None, None).unwrap_err(),
        "select_option needs one of `value` or `label`"
    );
    assert!(check_select(None, None).is_err());
    assert!(check_select(None, Some("x")).is_ok());
}

#[test]
fn option_selection_outcomes() {
    let outcome = |ok: bool, value: Option<&str>, error: Option<&str>| {
        select_option(SelectOutcome {
            ok,
            value: value.map(|s| s.to_string()),
            error: error.map(|s| s.to_string()),
        })
    };
    assert_eq!(outcome(true, Some("b"), None).unwrap(), "b");
    assert_eq!(outcome(true, None, None).unwrap(), "");
    assert_eq!(
        outcome(false, None, Some("no matching <option>")).unwrap_err(),
        "select_option failed: no matching <option>"
    );
    assert_eq!(
        outcome(false, None, None).unwrap_err(),
        "select_option failed: unknown"
    );
}

#[test]
fn conditions_and_their_description() {
    assert_eq!(
        condition_script(None, Some("a\"b")),
        "!!(document.body && document.body.innerText.includes(\"a\\\"b\"))"
    );
    let both = condition_script(Some("#x"), Some("t"));
    assert!(both.starts_with("((("));
    assert!(both.contains(") !== null) && !!(document.body"));
    assert_eq!(
        checked_description(Some("#x"), Some("t"), true),
        "selector \"#x\" and text \"t\" present"
    );
    assert_eq!(checked_description(None, Some("t"), false), "text \"t\" absent");
}

// -- page operations -------------------------------------------------------------------

#[test]
fn page_info_is_capped_and_defaulted() {
    let info = read_page_info(None, Some("t".repeat(30_000)), None, "http://x/");
    assert_eq!(info.title, "");
    assert_eq!(info.url, "http://x/");
    assert_eq!(info.text.len(), 20_000 + "\n[... truncated ...]".len());
    assert_eq!(extract_markdown(None), "");
    assert_eq!(extract_markdown(Some("# T".to_string())), "# T");
}

#[test]
fn evaluation_results_and_exceptions() {
    let ok = evaluate(&parse(r#"{"result":{"value":{"a":[1]}}}"#));
    assert_eq!(ok.unwrap().to_text(), "{\"a\":[1]}");
    assert_eq!(evaluate(&parse(r#"{"result":{}}"#)).unwrap().to_text(), "null");
    let thrown = r#"{"exceptionDetails":{"text":"Uncaught","exception":{"description":"Error: x"}}}"#;
    assert_eq!(
        evaluate(&parse(thrown)).err().unwrap(),
        "page.evaluate error: Error: x"
    );
    assert_eq!(
        evaluate(&parse(r#"{"exceptionDetails":{"text":"Uncaught"}}"#)).err().unwrap(),
        "page.evaluate error: Uncaught"
    );
    assert_eq!(
        evaluate(&parse(r#"{"exceptionDetails":{}}"#)).err().unwrap(),
        "page.evaluate error: evaluation threw"
    );
}

#[test]
fn content_waits() {
    let dom = set_content(Some("domcontentloaded"));
    assert!(dom.interactive && dom.settle_ms == 0);
    assert!(dom.wait_ready_state("interactive", false));
    let idle = set_content(Some("networkidle0"));
    assert!(!idle.interactive && idle.settle_ms == 500);
    let load = set_content(None);
    assert!(!load.wait_ready_state("interactive", false));
    assert!(load.wait_ready_state("complete", false));
    assert!(load.wait_ready_state("loading", true));
    assert_eq!(set_content(Some("networkidle2")).settle_ms, 500);
    assert_eq!(set_content(Some("other")).settle_ms, 0);
}

#[test]
fn typing_steps_and_forms() {
    assert_eq!(
        perform_type(true, true),
        vec![TypeStep::Focus, TypeStep::Clear, TypeStep::Type, TypeStep::Enter]
    );
    assert_eq!(perform_type(false, false), vec![TypeStep::Focus, TypeStep::Type]);
    assert_eq!(
        type_error(TypeStep::Focus, "#a"),
        "failed to focus element matching \"#a\""
    );
    let mut out = Vec::new();
    fill_form(&mut out, "#user", Ok(()));
    fill_form(&mut out, "#nope", Err("no element".to_string()));
    assert_eq!(out.len(), 2);
    assert!(out[0].ok && out[0].error.is_none());
    assert!(!out[1].ok && out[1].error.is_some());
    assert_eq!(filled(&out), 1);
}

#[test]
fn navigation_schemes() {
    for ok in ["https://x", "HTTP://x", "about:blank", "data:text/html,x", "blob:x", "example.com", "/rel", "a b:c", ":x"] {
        assert!(validate_navigation_url(ok, false).is_ok(), "{ok}");
    }
    assert_eq!(
        validate_navigation_url("File:///etc/passwd", false).unwrap_err(),
        "file:// navigation is disabled by default; set KITE_ALLOW_FILE_URLS=1 to allow local-file access"
    );
    assert!(validate_navigation_url("file:///x", true).is_ok());
    assert_eq!(
        validate_navigation_url("JavaScript:alert(1)", true).unwrap_err(),
        "navigation to javascript: URLs is not allowed"
    );
    assert!(validate_navigation_url("localhost:8080", false).is_err());
}

#[test]
fn navigation_begins_with_the_guard() {
    assert_eq!(begin_navigation("https://x", true, false).unwrap().len(), 39);
    assert!(begin_navigation("https://x", false, false).unwrap().is_empty());
    assert_eq!(
        begin_navigation("chrome://settings", true, true).unwrap_err(),
        "navigation to chrome: URLs is not allowed"
    );
}

#[test]
fn lite_mode_patterns() {
    let on = apply_blocking(true);
    assert_eq!(on.len(), 39);
    assert_eq!(on[0], "*.png");
    assert_eq!(on[38], "*bat.bing.com*");
    assert!(apply_blocking(false).is_empty());
}

// -- keys ----------------------------------------------------------------------------

#[test]
fn key_presses() {
    let (down, up) = dispatch_key("Enter").unwrap();
    assert_eq!(down.kind, KeyEventType::KeyDown);
    assert_eq!(down.text.as_deref(), Some("\r"));
    assert_eq!(down.windows_virtual_key_code, 13);
    assert_eq!(up.kind, KeyEventType::KeyUp);
    assert_eq!(up.code, "Enter");
    let (down, _) = dispatch_key("Escape").unwrap();
    assert_eq!(down.kind, KeyEventType::RawKeyDown);
    assert!(down.text.is_none());
    let (down, _) = dispatch_key("a").unwrap();
    assert_eq!(down.kind, KeyEventType::KeyDown);
    assert_eq!(down.text.as_deref(), Some("a"));
    assert_eq!(
        dispatch_key("NotAKey").err().unwrap(),
        "unknown key \"NotAKey\" — use DOM key values like Enter, Tab, Escape, Backspace, ArrowDown, PageDown, a, 1"
    );
}

#[test]
fn key_text_rules() {
    let def = |key: &str, text: Option<&str>| KeyDefinition {
        key: key.to_string(),
        key_code: 1,
        code: "C".to_string(),
        text: text.map(|s| s.to_string()),
    };
    assert_eq!(key_events(&def("Tab", Some("\t"))).0.text.as_deref(), Some("\t"));
    assert_eq!(key_events(&def("x", None)).0.text.as_deref(), Some("x"));
    assert_eq!(key_events(&def("é", None)).0.kind, KeyEventType::RawKeyDown);
}

// -- capture -------------------------------------------------------------------------

#[test]
fn capture_keeps_the_most_recent_entries() {
    let mut buf: VecDeque<usize> = VecDeque::new();
    for i in 0..(CAPTURE_CAP + 3) {
        push_capped(&mut buf, i);
    }
    assert_eq!(buf.len(), CAPTURE_CAP);
    assert_eq!(buf[0], 3);
    assert_eq!(buf[CAPTURE_CAP - 1], CAPTURE_CAP + 2);
}

#[test]
fn console_buffer_clears_on_request() {
    let mut buf = VecDeque::new();
    push_capped(&mut buf, ConsoleMessage { level: "log".to_string(), text: "hi".to_string() });
    assert_eq!(console(&mut buf, false)[0].text, "hi");
    assert_eq!(console(&mut buf, true).len(), 1);
    assert!(console(&mut buf, false).is_empty());
}

#[test]
fn console_arguments_become_one_line() {
    let arg = |value: Option<Json>, description: Option<&str>| ConsoleArg {
        value,
        description: description.map(|s| s.to_string()),
        kind: "object".to_string(),
    };
    let args = vec![
        arg(Some(Json::Str("a b".to_string())), None),
        arg(Some(parse("[1,\"x\"]")), None),
        arg(None, Some("Window")),
        arg(None, None),
    ];
    assert_eq!(console_args_to_text(&args), "a b [1,\"x\"] Window object");
}

#[test]
fn responses_find_the_latest_request() {
    let mut buf: VecDeque<NetworkRequest> = VecDeque::new();
    for (id, url) in [("1", "http://a/x"), ("2", "http://a/y"), ("1", "http://a/z")] {
        push_capped(
            &mut buf,
            request_sent(id.to_string(), "GET".to_string(), url.to_string(), Some("XHR".to_string())),
        );
    }
    response_received(&mut buf, "1", 204);
    response_received(&mut buf, "9", 500);
    let all = network(&mut buf, false, None);
    assert_eq!(all.len(), 3);
    assert_eq!(all[0].status, None);
    assert_eq!(all[2].status, Some(204));
    assert_eq!(all[2].url, "http://a/z");
    let some = network(&mut buf, true, Some("/y"));
    assert_eq!(some.len(), 1);
    assert_eq!(some[0].request_id, "2");
    assert!(network(&mut buf, false, None).is_empty());
}

// -- storage -------------------------------------------------------------------------

#[test]
fn cookies_map_to_setter_parameters() {
    let resp = parse(
        r#"{"cookies":[
            {"name":"sid","value":"v","domain":"d","path":"/","secure":true,"httpOnly":false,"sameSite":"Lax","session":false,"expires":1700000000.5},
            {"name":"s","session":true,"expires":99},
            {"name":"neg","expires":-1},
            {"value":"nameless"}
        ]}"#,
    );
    let cookies = get_all_cookies(&resp);
    assert_eq!(cookies.len(), 4);
    let ps = set_cookies(&cookies).unwrap();
    assert_eq!(ps.len(), 3);
    assert_eq!(ps[0].name, "sid");
    assert_eq!(ps[0].same_site.as_deref(), Some("Lax"));
    assert_eq!(ps[0].http_only, Some(false));
    assert_eq!(
        ps[0].expires.as_ref().map(|n| n.to_text()),
        Some("1700000000.5".to_string())
    );
    assert_eq!(ps[1].value, "");
    assert_eq!(
        ps[0].to_json().to_text(),
        "{\"domain\":\"d\",\"expires\":1700000000.5,\"httpOnly\":false,\"name\":\"sid\",\"path\":\"/\",\"sameSite\":\"Lax\",\"secure\":true,\"value\":\"v\"}"
    );
    assert_eq!(ps[1].to_json().to_text(), "{\"name\":\"s\",\"value\":\"\"}");
    assert!(ps[1].expires.is_none());
    assert!(ps[2].expires.is_none());
    assert!(set_cookies(&Vec::new()).is_none());
    assert!(get_all_cookies(&parse("{}")).is_empty());
}

#[test]
fn saved_state_restores() {
    let entries = vec![("k".to_string(), "v\"1".to_string())];
    let text = save_state(
        "http://o/p",
        "http://o",
        vec![parse("{\"name\":\"sid\",\"value\":\"sess-A-value\"}")],
        &entries,
    );
    assert_eq!(
        text,
        "{\"cookies\":[{\"name\":\"sid\",\"value\":\"sess-A-value\"}],\"localStorage\":{\"k\":\"v\\\"1\"},\"origin\":\"http://o\",\"url\":\"http://o/p\"}"
    );
    let plan = restore_state(&text).ok().unwrap();
    assert_eq!(plan.cookies.as_ref().unwrap()[0].value, "sess-A-value");
    assert_eq!(plan.origin, "http://o");
    assert_eq!(plan.entries, entries);
    assert_eq!(plan.storage_step(Some("http://o")), StorageStep::ApplyNow);
    assert_eq!(plan.storage_step(Some("http://p")), StorageStep::Defer);
    assert_eq!(plan.storage_step(None), StorageStep::Defer);
}

#[test]
fn saved_cookies_with_a_fractional_expiry_restore() {
    let cookie = "{\"domain\":\"o\",\"expires\":1789012345.123456,\"httpOnly\":true,\"name\":\"sid\",\"path\":\"/\",\"sameSite\":\"Lax\",\"secure\":false,\"session\":false,\"value\":\"v\"}";
    let text = save_state("http://o/", "http://o", vec![parse(cookie)], &Vec::new());
    let plan = restore_state(&text).ok().unwrap();
    let set = &plan.cookies.as_ref().unwrap()[0];
    assert_eq!((set.name.as_str(), set.value.as_str()), ("sid", "v"));
    assert_eq!((set.domain.as_deref(), set.path.as_deref()), (Some("o"), Some("/")));
    assert_eq!((set.secure, set.http_only), (Some(false), Some(true)));
    assert_eq!(set.same_site.as_deref(), Some("Lax"));
    assert!(set.expires.as_ref().unwrap().to_text().starts_with("1789012345.12"));
}

#[test]
fn states_that_are_no_json_are_refused() {
    assert_eq!(
        restore_state("nope").err().unwrap(),
        "state is not valid JSON: expected ident at line 1 column 2"
    );
    assert!(restore_state("").err().unwrap().starts_with("state is not valid JSON: "));
}

#[test]
fn states_without_usable_storage() {
    let odd = read_document(&parse(r#"{"origin":"http://o","localStorage":{"k":1},"cookies":[]}"#));
    assert!(odd.cookies.is_none());
    assert!(odd.entries.is_empty());
    assert_eq!(odd.storage_step(Some("http://o")), StorageStep::Nothing);
    let no_origin = restore_state(r#"{"localStorage":{"k":"v"}}"#).ok().unwrap();
    assert_eq!(no_origin.storage_step(None), StorageStep::Nothing);
    assert_eq!(page_origin(Some("null".to_string())), None);
    assert_eq!(page_origin(Some(String::new())), None);
    assert_eq!(page_origin(Some("http://o".to_string())).as_deref(), Some("http://o"));
    let js = apply_localstorage(&vec![("a".to_string(), "</script>".to_string())]);
    assert!(js.contains("const e = {\"a\":\"</script>\"};"));
}
