use kitewright::cli::{command, mode, ArgStep, Command, Flag, Mode, RenderArgs};
use kitewright::guard::{ct_eq, presents_token, rpc_error, HttpGuard, Rejection};
use kitewright::ip::{loopback, parse_ip, parse_ipv4, parse_ipv6, parse_socket_ip, Ip};
use kitewright::json::Json;
use kitewright::page::{FieldOutcome, PageInfo};
use kitewright::pdf::{css_len_to_inches, paper_size, pdf, pdf_options, PdfOptions};
use kitewright::render::{
    assert_public_url, check_target, chromium_failed, format_diagnostics, is_blocked_host, render,
    typst_failed, Build, ChromiumStage, ParsedUrl, RenderPlan, Source, TypstStage,
};
use kitewright::request::{Backend, Margin, RenderError, RenderRequest, Scale};
use kitewright::service::{
    check_auth, compiled_backends, error_response, healthz, max_body_bytes, serve, AppState,
};
use kitewright::tools;
use kitewright::wait::AssertOutcome;

// -- tokens and the guard ----------------------------------------------------------------

#[test]
fn ct_eq_basic() {
    assert!(ct_eq(b"secret", b"secret"));
    assert!(!ct_eq(b"secret", b"secreT"));
    assert!(!ct_eq(b"secret", b"secre"));
    assert!(!ct_eq(b"", b"x"));
    assert!(ct_eq(b"", b""));
}

#[test]
fn bearer_tokens() {
    assert!(presents_token(Some("Bearer tök"), "tök"));
    assert!(!presents_token(Some("bearer tök"), "tök"));
    assert!(!presents_token(Some("tök"), "tök"));
    assert!(!presents_token(None, "tök"));
}

fn guard(token: Option<&str>, limit: Option<&str>, origins: Option<&str>) -> HttpGuard {
    HttpGuard::from_vars(token.map(|t| t.to_string()), limit, origins)
}

#[test]
fn bearer_auth_is_enforced_when_token_set() {
    let mut g = guard(Some("test-secret-token"), None, None);
    let r = g.guard_middleware(None, "127.0.0.1", None, 0).unwrap();
    assert_eq!(r.status, 401);
    let body: serde_json::Value = serde_json::from_str(&rpc_error(&r)).unwrap();
    assert_eq!(body["jsonrpc"], "2.0");
    assert!(body["error"]["message"].as_str().unwrap().contains("unauthorized"));
    assert_eq!(body["error"]["code"], -32001);
    assert!(body["id"].is_null());
    let r = g.guard_middleware(None, "127.0.0.1", Some("Bearer wrong-token"), 1).unwrap();
    assert_eq!(r.status, 401);
    assert!(g
        .guard_middleware(None, "127.0.0.1", Some("Bearer test-secret-token"), 2)
        .is_none());
    assert!(guard(Some(""), None, None).token.is_none());
}

#[test]
fn rate_limit_returns_429_when_exceeded() {
    let mut g = guard(None, Some("3"), None);
    for i in 0..5 {
        let r = g.guard_middleware(None, "10.0.0.1", None, i);
        if i < 3 {
            assert!(r.is_none(), "request {i} should be within the limit");
        } else {
            let r = r.unwrap();
            assert_eq!(r.status, 429);
            assert_eq!(r.code, -32000);
            assert!(rpc_error(&r).contains("rate limit"));
        }
    }
    // Another client, and the next window, start afresh.
    assert!(g.guard_middleware(None, "10.0.0.2", None, 5).is_none());
    assert!(g.guard_middleware(None, "10.0.0.1", None, 59_999).is_some());
    assert!(g.guard_middleware(None, "10.0.0.1", None, 60_000).is_none());
    assert_eq!(guard(None, None, None).limit_per_minute, 300);
    assert_eq!(guard(None, Some("x"), None).limit_per_minute, 300);
}

#[test]
fn cross_origin_request_is_rejected() {
    let mut g = guard(None, Some("1"), Some("https://app.example, ,https://b.example"));
    let r = g
        .guard_middleware(Some("https://evil.example"), "127.0.0.1", None, 0)
        .unwrap();
    assert_eq!(r.status, 403, "cross-origin request must be rejected");
    assert_eq!(r.code, -32003);
    // A refused origin does not use up the client's window.
    assert!(g.guard_middleware(Some("https://b.example"), "127.0.0.1", None, 0).is_none());
}

#[test]
fn loopback_origins_pass() {
    let g = guard(None, None, None);
    for ok in [
        "http://localhost:3000",
        "https://localhost",
        "http://127.0.0.1:8090/path",
        "http://[::1]:80",
        "http://[::1]",
        "localhost",
    ] {
        assert!(g.origin_allowed(Some(ok)), "{ok}");
    }
    for bad in ["http://localhost.evil.example", "null", "http://10.0.0.1", "http://127.0.0.1.evil"] {
        assert!(!g.origin_allowed(Some(bad)), "{bad}");
    }
    assert!(g.origin_allowed(None));
}

#[test]
fn many_clients_drop_their_stale_windows() {
    let mut g = guard(None, Some("1"), None);
    for i in 0..1_025 {
        assert!(g.allow(&format!("10.0.{}.{}", i / 256, i % 256), 0));
    }
    // The table is tidied, so the first client has no window any more.
    assert!(g.allow("fresh", 120_000));
    assert!(g.allow("10.0.0.0", 120_000));
    assert!(!g.allow("10.0.0.0", 120_001));
}

#[test]
fn other_clients_have_no_influence_on_a_limit() {
    let mut g = guard(None, Some("3"), None);
    let mut now = 1_000;
    for k in 1..=5 {
        assert_eq!(g.allow("10.9.9.9", now), k <= 3, "request {k}");
        for i in 0..1_100 {
            assert!(g.allow(&format!("{k}.0.{}.{}", i / 256, i % 256), now));
        }
        now += 10_000;
    }
    // A window's length after the first request the count starts again.
    assert!(!g.allow("10.9.9.9", 60_999));
    for k in 1..=4 {
        assert_eq!(g.allow("10.9.9.9", 61_000 + k), k <= 3, "request {k}");
    }
}

#[test]
fn rpc_bodies() {
    let r = Rejection { status: 1, code: 7, message: "a\"b".to_string() };
    assert_eq!(
        rpc_error(&r),
        "{\"error\":{\"code\":7,\"message\":\"a\\\"b\"},\"id\":null,\"jsonrpc\":\"2.0\"}"
    );
}

// -- addresses ---------------------------------------------------------------------------

#[test]
fn ipv4_texts() {
    assert_eq!(parse_ipv4("127.0.0.1"), Some((127, 0, 0, 1)));
    assert_eq!(parse_ipv4("255.255.255.255"), Some((255, 255, 255, 255)));
    for bad in [
        "256.0.0.1", "01.2.3.4", "1.2.3", "1.2.3.4.5", "1.2.3.+4", "", ".", "1..2.3", "1.2.3.4 ", "0x1.2.3.4",
    ] {
        assert_eq!(parse_ipv4(bad), None, "{bad:?}");
    }
    assert!(matches!(parse_ip("1.2.3.4"), Some(Ip::V4(1, 2, 3, 4))));
}

#[test]
fn ipv6_texts() {
    let ok: [(&str, [u16; 8]); 12] = [
        ("::", [0; 8]),
        ("::1", [0, 0, 0, 0, 0, 0, 0, 1]),
        ("1::", [1, 0, 0, 0, 0, 0, 0, 0]),
        ("1:2:3:4:5:6:7:8", [1, 2, 3, 4, 5, 6, 7, 8]),
        ("1:2:3:4:5:6:7::", [1, 2, 3, 4, 5, 6, 7, 0]),
        ("::2:3:4:5:6:7:8", [0, 2, 3, 4, 5, 6, 7, 8]),
        ("fe80::1", [0xfe80, 0, 0, 0, 0, 0, 0, 1]),
        ("FC00::", [0xfc00, 0, 0, 0, 0, 0, 0, 0]),
        ("::ffff:1.2.3.4", [0, 0, 0, 0, 0, 0xffff, 0x102, 0x304]),
        ("1:2:3:4:5:6:1.2.3.4", [1, 2, 3, 4, 5, 6, 0x102, 0x304]),
        ("0000::", [0; 8]),
        ("1:2:3:4:5::1.2.3.4", [1, 2, 3, 4, 5, 0, 0x102, 0x304]),
    ];
    for (text, groups) in ok {
        assert_eq!(parse_ipv6(text), Some(groups.to_vec()), "{text}");
        assert!(matches!(parse_ip(text), Some(Ip::V6(g)) if g == groups), "{text}");
    }
    for bad in [
        "1:2:3:4:5:6:7", "1:2:3:4:5:6:7:8::", "::1:2:3:4:5:6:7:8", "1::2::3", ":::", ":1", "1:", "12345::",
        "1:2:3:4:5:6:7:1.2.3.4", "1.2.3.4::", "::1.2.3.4:5", "::g", "fe80::1%eth0", "[::1]", "00001::", "",
        "1:2:3:4:5:6::1.2.3.4",
    ] {
        assert_eq!(parse_ipv6(bad), None, "{bad:?}");
    }
}

#[test]
fn socket_texts() {
    let on_loopback = |t: &str| parse_socket_ip(t).map(|a| loopback(&a));
    for yes in ["127.0.0.1:8091", "127.9.9.9:1", "[::1]:80", "127.0.0.1:00080"] {
        assert_eq!(on_loopback(yes), Some(true), "{yes}");
    }
    for no in ["0.0.0.0:80", "[::]:80", "[fe80::1%5]:80", "10.0.0.1:65535"] {
        assert_eq!(on_loopback(no), Some(false), "{no}");
    }
    for bad in [
        "[::1]", "::1:80", "1.2.3.4", "1.2.3.4:", "1.2.3.4:65536", "[fe80::1%x]:80", "[1.2.3.4]:80",
        "localhost:80", "1.2.3.4:+1", "",
    ] {
        assert_eq!(on_loopback(bad), None, "{bad:?}");
    }
}

// -- targets -----------------------------------------------------------------------------

#[test]
fn ssrf_filter_blocks_internal_allows_public() {
    for bad in [
        "http://169.254.169.254/latest/meta-data/", // cloud metadata
        "http://127.0.0.1/x",
        "http://localhost/x",
        "http://10.0.0.5/",
        "http://172.16.0.1/",
        "http://192.168.1.1/",
        "http://[::1]/",
        "http://svc.internal/",
        "file:///etc/passwd", // non-http scheme
        "ftp://host/x",
    ] {
        assert!(assert_public_url(bad, false).is_err(), "{bad} should be blocked");
        assert!(assert_public_url(bad, true).is_ok(), "{bad} is allowed on trusted networks");
    }
    for ok in [
        "https://example.com/",
        "http://93.184.216.34/",
        "https://api.github.com/repos",
    ] {
        assert!(assert_public_url(ok, false).is_ok(), "{ok} should be allowed");
    }
    assert!(is_blocked_host("169.254.169.254"));
    assert!(!is_blocked_host("example.com"));
}

#[test]
fn blocked_hosts() {
    for bad in ["a.localhost", "printer.local", "[fe80::1]", "[fd12::1]", "::", "0.0.0.0", "172.31.255.255", "[[::1]]"] {
        assert!(is_blocked_host(bad), "{bad}");
    }
    for ok in ["172.32.0.1", "11.0.0.1", "192.169.0.1", "local", "notlocalhost", "[2001:db8::1]", ""] {
        assert!(!is_blocked_host(ok), "{ok}");
    }
}

#[test]
fn target_errors_say_why() {
    let message = |r: Result<(), RenderError>| r.err().unwrap().message().to_string();
    assert_eq!(message(check_target("::", None)), "invalid url: ::");
    let parts = |scheme: &str, host: Option<&str>| {
        Some(ParsedUrl { scheme: scheme.to_string(), host: host.map(|h| h.to_string()) })
    };
    assert_eq!(
        message(check_target("x", parts("ftp", Some("h")))),
        "only http(s) urls are allowed (got \"ftp:\")"
    );
    assert_eq!(
        message(check_target("x", parts("http", Some("LOCALHOST")))),
        "navigation to internal/loopback/link-local address \"localhost\" is blocked (set KITE_PDF_ALLOW_PRIVATE_IPS=1 for trusted networks)"
    );
    assert!(check_target("x", parts("https", None)).is_ok());
    assert!(message(assert_public_url("http://", false)).starts_with("invalid url"));
}

// -- rendering ---------------------------------------------------------------------------

fn with_engine(engine: &str) -> RenderRequest {
    let mut r = RenderRequest::empty();
    r.engine = Some(engine.to_string());
    r
}

#[test]
fn backends_are_named_or_inferred() {
    assert_eq!(with_engine(" Chrome ").backend().unwrap(), Backend::Chromium);
    assert_eq!(with_engine("HTML").backend().unwrap(), Backend::Chromium);
    assert_eq!(with_engine("typst").backend().unwrap(), Backend::Typst);
    let mut r = RenderRequest::empty();
    assert!(r.backend().unwrap_err().message().starts_with("no engine selected"));
    r.template = Some("= hi".to_string());
    assert_eq!(r.backend().unwrap(), Backend::Typst);
    r.url = Some("u".to_string());
    assert_eq!(r.backend().unwrap(), Backend::Chromium);
}

#[test]
fn unknown_engine_is_rejected() {
    let mut r = with_engine("wkhtmltopdf");
    r.html = Some("<p>hi</p>".to_string());
    let e = render(Build::full(), &r, false).err().unwrap();
    let (status, body) = error_response(&e);
    assert_eq!(status, 400);
    assert!(body.str_at("error").unwrap().contains("unknown engine"));
}

#[test]
fn disabled_typst_backend_returns_400() {
    let mut r = with_engine("typst");
    r.template = Some("= hi".to_string());
    let build = Build { chromium: true, typst: false };
    let (status, body) = error_response(&render(build, &r, false).err().unwrap());
    assert_eq!(status, 400);
    assert!(body.str_at("error").unwrap().contains("typst backend not compiled"));
}

#[test]
fn disabled_chromium_backend_returns_400() {
    let mut r = with_engine("chromium");
    r.html = Some("<p>hi</p>".to_string());
    let build = Build { chromium: false, typst: true };
    let (status, body) = error_response(&render(build, &r, false).err().unwrap());
    assert_eq!(status, 400);
    assert!(body.str_at("error").unwrap().contains("chromium backend not compiled"));
}

#[test]
fn healthz_lists_backends() {
    let body = healthz(Build::full());
    assert_eq!(body.str_at("status"), Some("ok"));
    assert_eq!(body.array_at("backends").unwrap().len(), 2);
    assert_eq!(compiled_backends(Build::full()), vec!["chromium", "typst"]);
    assert_eq!(
        healthz(Build { chromium: false, typst: true }).to_text(),
        "{\"backends\":[\"typst\"],\"status\":\"ok\"}"
    );
}

#[test]
fn chromium_plans() {
    let mut r = RenderRequest::empty();
    r.url = Some("https://example.com/".to_string());
    match render(Build::full(), &r, false) {
        Ok(RenderPlan::Chromium { source: Source::Url(u), .. }) => assert_eq!(u, "https://example.com/"),
        _ => panic!("a URL"),
    }
    r.url = Some("http://localhost/".to_string());
    assert!(render(Build::full(), &r, false).is_err());
    r.html = Some("<p>".to_string());
    assert!(matches!(
        render(Build::full(), &r, false),
        Ok(RenderPlan::Chromium { source: Source::Html(_), .. })
    ));
    let e = render(Build::full(), &with_engine("chromium"), false).err().unwrap();
    assert_eq!(e.message(), "chromium backend requires `html` or `url`");
}

#[test]
fn scales_are_checked_up_front() {
    let try_scale = |f: f64| {
        let mut r = RenderRequest::empty();
        r.html = Some("<p>".to_string());
        r.scale = Some(Scale { bits: f.to_bits(), text: format!("{f}") });
        render(Build::full(), &r, false)
    };
    for f in [0.1, 0.5, 1.0, 2.0] {
        assert!(try_scale(f).is_ok(), "{f}");
    }
    for f in [0.0, -0.0, 0.0999, 2.0000001, -1.0, f64::NAN, f64::INFINITY, f64::NEG_INFINITY, 5e-324] {
        assert!(try_scale(f).is_err(), "{f}");
    }
    assert_eq!(
        try_scale(3.5).err().unwrap().message(),
        "scale 3.5 out of range (Chrome printToPDF accepts 0.1–2.0)"
    );
}

#[test]
fn typst_plans_and_failures() {
    let mut r = RenderRequest::empty();
    r.template = Some("= hi".to_string());
    match render(Build::full(), &r, false) {
        Ok(RenderPlan::Typst { template, data }) => {
            assert_eq!(template, "= hi");
            assert_eq!(data, "null");
        }
        _ => panic!("a template"),
    }
    r.data = Some(Json::Array(vec![Json::Bool(true)]));
    assert!(matches!(
        render(Build::full(), &r, false),
        Ok(RenderPlan::Typst { data, .. }) if data == "[true]"
    ));
    assert_eq!(
        render(Build::full(), &with_engine("typst"), false).err().unwrap().message(),
        "typst backend requires `template`"
    );
    let messages = vec!["unknown variable: x".to_string(), "b".to_string()];
    let e = typst_failed(TypstStage::Compile, &messages);
    assert!(matches!(e, RenderError::BadRequest(_)));
    assert_eq!(e.message(), "typst compile error: unknown variable: x; b");
    let e = typst_failed(TypstStage::Export, &vec![]);
    assert_eq!(e.status(), 500);
    assert_eq!(e.message(), "typst pdf export: typst compilation failed");
    assert_eq!(format_diagnostics(&vec![]), "typst compilation failed");
    assert_eq!(
        chromium_failed(ChromiumStage::SetContent, "x").message(),
        "set_content failed: x"
    );
    assert_eq!(
        chromium_failed(ChromiumStage::Print, "x").message(),
        "pdf render failed: x"
    );
}

#[test]
fn css_len_to_inches_converts_units() {
    let inches = |len: Option<&str>| -> Option<f64> {
        let l = css_len_to_inches(len)?;
        let value: f64 = l.number.parse().ok()?;
        Some(value / (l.per_inch as f64 / 100.0))
    };
    // px → in (÷96), the puppeteer default unit.
    assert!((inches(Some("96px")).unwrap() - 1.0).abs() < 1e-9);
    assert!((inches(Some("35px")).unwrap() - 35.0 / 96.0).abs() < 1e-9);
    // mm/cm/in/pt.
    assert!((inches(Some("25.4mm")).unwrap() - 1.0).abs() < 1e-9);
    assert!((inches(Some("2.54cm")).unwrap() - 1.0).abs() < 1e-9);
    assert!((inches(Some("0.5in")).unwrap() - 0.5).abs() < 1e-9);
    assert!((inches(Some("72pt")).unwrap() - 1.0).abs() < 1e-9);
    // Bare number → px. Whitespace tolerated.
    assert!((inches(Some(" 48 ")).unwrap() - 0.5).abs() < 1e-9);
    // Empty / None / garbage → None so the caller defaults to 0.
    assert_eq!(inches(None), None);
    assert_eq!(inches(Some("")), None);
    assert_eq!(inches(Some("auto")), None);
}

#[test]
fn css_numbers_are_those_of_floats() {
    for n in ["1", "-1", "+1", ".5", "5.", ".", "", "1.2.3", "1,5", "--1", "+", "١", "1_0"] {
        let want = n.trim().parse::<f64>().is_ok();
        assert_eq!(css_len_to_inches(Some(&format!("{n}Q"))).is_some(), want, "{n:?}");
    }
    // A letter begins the unit.
    let odd = css_len_to_inches(Some("0x1")).unwrap();
    assert_eq!((odd.number.as_str(), odd.per_inch), ("0", 9600));
    let pc = css_len_to_inches(Some("6 PC")).unwrap();
    assert_eq!((pc.number.as_str(), pc.per_inch), ("6", 600));
}

#[test]
fn paper_sizes() {
    assert_eq!(paper_size(None), (827, 1169));
    assert_eq!(paper_size(Some(" LETTER ")), (850, 1100));
    assert_eq!(paper_size(Some("legal")), (850, 1400));
    assert_eq!(paper_size(Some("A3")), (1169, 1654));
    assert_eq!(paper_size(Some("a5")), (827, 1169));
}

#[test]
fn print_parameters() {
    let mut r = RenderRequest::empty();
    r.format = Some("Letter".to_string());
    r.landscape = true;
    r.margin = Some(Margin {
        top: Some("20px".to_string()),
        bottom: Some("40px".to_string()),
        left: None,
        right: Some("wide".to_string()),
    });
    let opts: PdfOptions = pdf_options(&r);
    assert_eq!(opts.margin_bottom.as_deref(), Some("40px"));
    let p = pdf(opts);
    assert_eq!((p.paper_width, p.paper_height), (850, 1100));
    assert!(p.landscape && !p.print_background);
    assert_eq!(p.margin_top.map(|m| m.number), Some("20".to_string()));
    assert!(p.margin_left.is_none() && p.margin_right.is_none());
}

// -- the service -------------------------------------------------------------------------

#[test]
fn service_settings() {
    assert_eq!(max_body_bytes(None), 32 * 1024 * 1024);
    assert_eq!(max_body_bytes(Some("1")), 1024 * 1024);
    assert_eq!(max_body_bytes(Some("0")), 32 * 1024 * 1024);
    assert_eq!(max_body_bytes(Some("18446744073709551615")), usize::MAX);
    let s = AppState::new(Build::full(), None, false);
    assert_eq!(s.max_concurrency, 4);
    assert_eq!(AppState::new(Build::full(), Some("9"), true).max_concurrency, 9);
    assert_eq!(AppState::new(Build::full(), Some("0"), true).max_concurrency, 4);
}

#[test]
fn service_authentication() {
    assert!(check_auth(None, None).is_none());
    assert!(check_auth(Some(""), None).is_none());
    assert!(check_auth(Some("t"), Some("Bearer t")).is_none());
    let (status, body) = check_auth(Some("t"), Some("Bearer u")).unwrap();
    assert_eq!(status, 401);
    assert_eq!(
        body.to_text(),
        "{\"error\":\"unauthorized: missing or invalid bearer token\"}"
    );
}

#[test]
fn service_refuses_to_start_exposed() {
    let p = serve(None, None, false).unwrap();
    assert_eq!(p.bind, "127.0.0.1:8091");
    assert!(p.unauthenticated);
    assert!(serve(Some("localhost:9"), None, false).is_ok());
    assert!(serve(Some("[::1]:9"), None, false).is_ok());
    for bind in ["0.0.0.0", "::", "0.0.0.0:8091", "[::]:80", "example.com:80", "10.0.0.1:1"] {
        let e = serve(Some(bind), None, false).err().unwrap();
        assert!(e.starts_with(&format!("Refusing to start: KITE_PDF_BIND={bind} exposes")), "{e}");
        assert!(serve(Some(bind), Some("t"), false).is_ok());
        assert!(serve(Some(bind), None, true).is_ok());
    }
    assert_eq!(serve(Some("0.0.0.0"), Some("t"), false).unwrap().bind, "0.0.0.0:8091");
    assert_eq!(serve(Some("::1"), None, false).unwrap().bind, "[::1]:8091");
}

// -- command lines -----------------------------------------------------------------------

fn args(list: &[&str]) -> Vec<String> {
    list.iter().map(|s| s.to_string()).collect()
}

#[test]
fn kite_modes() {
    assert_eq!(mode(&args(&["install"]), true), Mode::Install);
    assert_eq!(mode(&args(&["x", "install"]), false), Mode::Http);
    assert_eq!(mode(&args(&["x", "--stdio"]), false), Mode::Stdio);
    assert_eq!(mode(&args(&["stdio"]), false), Mode::Stdio);
    assert_eq!(mode(&args(&[]), true), Mode::Stdio);
    assert_eq!(mode(&args(&[]), false), Mode::Http);
}

#[test]
fn pdf_subcommands() {
    assert!(matches!(command(None), Command::Serve));
    assert!(matches!(command(Some("serve")), Command::Serve));
    assert!(matches!(command(Some("render")), Command::Render));
    assert!(matches!(command(Some("-h")), Command::Help));
    assert!(matches!(command(Some("x")), Command::Unknown(e) if e == "unknown subcommand \"x\""));
}

#[test]
fn render_options() {
    let a = args(&[
        "--html", "<h1>", "--landscape", "--margin-top", "1cm", "--footer-file", "f.html", "--scale", "0.5", "-o",
        "out.pdf",
    ]);
    let mut r = RenderArgs::new();
    let mut i = 0;
    while i < a.len() {
        i = match r.step(&a, i) {
            ArgStep::Next(n) => n,
            ArgStep::ReadFile { flag, path, next } => {
                assert_eq!((flag, path.as_str()), (Flag::FooterFile, "f.html"));
                r.file_read(flag, "<b>".to_string());
                next
            }
            ArgStep::ReadScale { text, next } => {
                assert_eq!(text, "0.5");
                r.scale_read(Scale { bits: 0.5f64.to_bits(), text });
                next
            }
            ArgStep::Help | ArgStep::Fail(_) => panic!("no such option here"),
        };
    }
    let (req, out) = r.run_render().unwrap();
    assert_eq!(out, "out.pdf");
    assert_eq!(req.html.as_deref(), Some("<h1>"));
    assert!(req.landscape && req.display_header_footer && !req.print_background);
    assert_eq!(req.footer_template.as_deref(), Some("<b>"));
    assert_eq!(req.margin.unwrap().top.as_deref(), Some("1cm"));
    assert_eq!(req.scale.unwrap().text, "0.5");
}

#[test]
fn render_option_errors() {
    let mut r = RenderArgs::new();
    assert!(matches!(r.step(&args(&["--help"]), 0), ArgStep::Help));
    assert!(matches!(
        r.step(&args(&["--nope"]), 0),
        ArgStep::Fail(e) if e == "unknown render option \"--nope\" (try --help)"
    ));
    assert!(matches!(
        r.step(&args(&["-o"]), 0),
        ArgStep::Fail(e) if e == "missing value for --output"
    ));
    assert_eq!(
        r.data_read("{").err().unwrap(),
        "--data file is not valid JSON: EOF while parsing an object at line 1 column 1"
    );
    assert!(r.req.data.is_none());
    assert!(r.data_read("{\"n\": 1}").is_ok());
    assert_eq!(r.req.data.as_ref().unwrap().to_text(), "{\"n\":1}");
    r.set_data(Json::Null);
    assert_eq!(
        r.run_render().err().unwrap(),
        "missing -o/--output (path to the PDF to write)"
    );
}

// -- payloads ----------------------------------------------------------------------------

#[test]
fn payloads() {
    let info = PageInfo {
        url: "u".to_string(),
        title: "t".to_string(),
        text: "x".to_string(),
    };
    assert_eq!(
        tools::browser_navigate(&info).to_text(),
        "{\"text\":\"x\",\"title\":\"t\",\"url\":\"u\"}"
    );
    assert_eq!(
        tools::browser_navigate_back(&info).to_text(),
        "{\"title\":\"t\",\"url\":\"u\"}"
    );
    assert_eq!(
        tools::browser_extract(".i", &args(&["a", "b"])).to_text(),
        "{\"matches\":2,\"selector\":\".i\",\"values\":[\"a\",\"b\"]}"
    );
    assert_eq!(
        tools::browser_set_content("é", None).to_text(),
        "{\"bytes\":2,\"ok\":true,\"wait_until\":\"load\"}"
    );
    assert_eq!(
        tools::browser_fill_form(&vec![
            FieldOutcome { selector: "a".to_string(), ok: true, error: None },
            FieldOutcome { selector: "b".to_string(), ok: false, error: Some("e".to_string()) },
        ])
        .to_text(),
        "{\"fields\":[{\"error\":null,\"ok\":true,\"selector\":\"a\"},{\"error\":\"e\",\"ok\":false,\"selector\":\"b\"}],\"filled\":1,\"total\":2}"
    );
    assert_eq!(
        tools::browser_assert(&AssertOutcome {
            passed: true,
            checked: "c".to_string(),
            found: false,
            elapsed_ms: 3,
        })
        .to_text(),
        "{\"checked\":\"c\",\"elapsed_ms\":3,\"found\":false,\"passed\":true}"
    );
    assert_eq!(tools::browser_click("#a").to_text(), "{\"clicked\":\"#a\"}");
    assert_eq!(tools::browser_press_key("Tab").to_text(), "{\"pressed\":\"Tab\"}");
    assert_eq!(tools::browser_wait_for(5).to_text(), "{\"elapsed_ms\":5}");
    assert_eq!(
        tools::browser_type("x", "#a", true).to_text(),
        "{\"pressed_enter\":true,\"selector\":\"#a\",\"typed\":\"x\"}"
    );
    assert_eq!(
        tools::browser_fill_secret("#pw", false).to_text(),
        "{\"pressed_enter\":false,\"selector\":\"#pw\"}"
    );
    assert_eq!(
        tools::browser_select_option("#s", "b").to_text(),
        "{\"selected_value\":\"b\",\"selector\":\"#s\"}"
    );
    assert_eq!(tools::browser_hover("#a").to_text(), "{\"hovered\":\"#a\"}");
    assert_eq!(
        tools::browser_handle_dialog(false).to_text(),
        "{\"accept\":false,\"armed\":true}"
    );
    assert_eq!(tools::browser_restore_state().to_text(), "{\"restored\":true}");
    assert_eq!(tools::browser_console(&vec![]).to_text(), "{\"count\":0,\"messages\":[]}");
    assert_eq!(tools::browser_network(&vec![]).to_text(), "{\"count\":0,\"requests\":[]}");
    assert!(tools::default_true());
}

#[test]
fn documents_travel_as_base64() {
    assert_eq!(tools::browser_screenshot(b"\x89PNG"), "iVBORw==");
    assert_eq!(tools::browser_screenshot(b""), "");
    assert_eq!(tools::browser_screenshot(b"Ma"), "TWE=");
    assert_eq!(tools::browser_screenshot(&[0xfb, 0xff, 0xfe]), "+//+");
    assert_eq!(
        tools::browser_pdf(None, b"%PDF-").to_text(),
        "{\"base64\":\"JVBERi0=\",\"bytes\":5,\"format\":\"A4\"}"
    );
    assert_eq!(
        tools::browser_pdf(Some("Legal"), b"").to_text(),
        "{\"base64\":\"\",\"bytes\":0,\"format\":\"Legal\"}"
    );
}
